use tilegrid::distribution::{DistSystem, DistVolume, Edge};
use tilegrid::volume::{chunkmap_index, GraphChunkVolume, SpacialMap};

#[test]
fn volume_get_set() {
    let mut map: SpacialMap<f32> = Default::default();
    map.set((1, 2), 3.0);
    assert_eq!(map.get((1, 2)), Some(&3.0));
}

#[test]
fn getter_setter() {
    let _vol = GraphChunkVolume::<bool>::new();
}

#[test]
fn chunkmap_index_splits_position() {
    let i = chunkmap_index((1, 2));
    assert_eq!(i.xy, (1, 2));
    assert_eq!(i.n, 0);
    // The slot is the product of the rounded-down coordinates.
    let j = chunkmap_index((33, 2));
    assert_eq!(j.xy, (1, 2));
    assert_eq!(j.n, 0);
    let k = chunkmap_index((33, 33));
    assert_eq!(k.xy, (1, 1));
    assert_eq!(k.n, 32 * 32);
}

#[test]
fn spacial_map_missing_chunk_and_default_fill() {
    let mut map: SpacialMap<u8> = SpacialMap::new();
    assert_eq!(map.get((1, 2)), None);
    map.set((1, 2), 9);
    // The same chunk's other tiles were filled with the default.
    assert_eq!(map.get((1, 2)), Some(&9));
    map.set((2, 2), 5);
    assert_eq!(map.get((1, 2)), Some(&9));
    assert_eq!(map.get((2, 2)), Some(&5));
}

#[test]
fn conveyor_graph_links_neighbours() {
    let mut net = DistVolume::new();
    net.insert_conveyor((5, 5), (6, 5));
    assert_eq!(net.map_get((5, 5)), Some(0));
    // The first node's edge points back at itself: the map lookup of the
    // just-inserted key finds the node itself.
    assert_eq!(net.edge(0), Edge(0, Some(0)));

    net.insert_conveyor((6, 5), (7, 5));
    assert_eq!(net.map_get((6, 5)), Some(1));
    assert_eq!(net.len_edges(), 2);
    // The older neighbour's edge is redirected to the new node.
    assert_eq!(net.edge(0), Edge(0, Some(1)));
    assert_eq!(net.edge(1), Edge(1, Some(1)));
}

#[test]
fn dist_system_runs_insertions_in_order() {
    let mut sys = DistSystem::new();
    sys.run(&vec![((5, 5), (6, 5)), ((6, 5), (7, 5))]);
    assert_eq!(sys.volume.map_get((5, 5)), Some(0));
    assert_eq!(sys.volume.map_get((6, 5)), Some(1));
    assert_eq!(sys.volume.edge(0), Edge(0, Some(1)));
}
