//! Distribution network: conveyors cached as a graph. Each conveyor is a
//! node keyed by its tile coordinate; edges connect a node to the neighbour
//! it currently feeds.

use vstd::prelude::*;

verus! {

/// One conveyor node of the network.
#[allow(dead_code)]
struct Node {
    coordinate: (u32, u32),
    storage: (bool, bool, bool, bool),
    destination: (u32, u32),
}

/// An edge of the network: the node it belongs to, and the node it feeds.
#[derive(Clone, Copy, Debug, PartialEq, Eq)]
pub struct Edge(pub usize, pub Option<usize>);

/// The node index stored for a coordinate key, last write winning.
pub open spec fn map_value(m: Seq<((u32, u32), usize)>, key: (u32, u32)) -> Option<usize>
    decreases m.len(),
{
    if m.len() == 0 {
        None
    } else if m.last().0 == key {
        Some(m.last().1)
    } else {
        map_value(m.drop_last(), key)
    }
}

/// Whether node `v` sits on one of the four tile neighbours of `(x, y)`.
pub open spec fn spec_neighbour(m: Seq<((u32, u32), usize)>, x: u32, y: u32, v: int) -> bool {
    ||| map_value(m, (((x + 1) as u32), y)) == Some(v as usize)
    ||| map_value(m, (((x - 1) as u32), y)) == Some(v as usize)
    ||| map_value(m, (x, ((y + 1) as u32))) == Some(v as usize)
    ||| map_value(m, (x, ((y - 1) as u32))) == Some(v as usize)
}

/// Represents distribution as a graph.
pub struct DistVolume {
    nodes: Vec<Node>,
    edges: Vec<Edge>,
    node_map: Vec<((u32, u32), usize)>,
}

impl DistVolume {
    /// The edge list, for contracts.
    pub closed spec fn spec_edges(&self) -> Seq<Edge> {
        self.edges@
    }

    /// The coordinate-to-node entries, for contracts.
    pub closed spec fn spec_map(&self) -> Seq<((u32, u32), usize)> {
        self.node_map@
    }

    /// Number of nodes.
    pub closed spec fn num_nodes(&self) -> int {
        self.nodes@.len() as int
    }

    /// Structural invariant: node `i` owns edge `i`, coordinate keys are
    /// unique, and the map points at existing nodes.
    pub open spec fn wf(&self) -> bool {
        &&& self.spec_edges().len() == self.num_nodes()
        &&& forall|i: int|
            0 <= i < self.spec_edges().len() ==> (#[trigger] self.spec_edges()[i]).0 == i
        &&& forall|a: int, b: int|
            0 <= a < b < self.spec_map().len() ==> (#[trigger] self.spec_map()[a]).0 != (
            #[trigger] self.spec_map()[b]).0
        &&& forall|k: int|
            0 <= k < self.spec_map().len() ==> (#[trigger] self.spec_map()[k]).1
                < self.num_nodes()
    }

    /// An empty network.
    pub fn new() -> (r: DistVolume)
        ensures
            r.wf(),
            r.num_nodes() == 0,
            r.spec_map() == Seq::<((u32, u32), usize)>::empty(),
    {
        DistVolume { nodes: Vec::new(), edges: Vec::new(), node_map: Vec::new() }
    }

    /// Number of edges (one per node).
    pub fn len_edges(&self) -> (r: usize)
        ensures
            r == self.spec_edges().len(),
    {
        self.edges.len()
    }

    /// One edge of the network.
    pub fn edge(&self, i: usize) -> (r: Edge)
        requires
            i < self.spec_edges().len(),
        ensures
            r == self.spec_edges()[i as int],
    {
        self.edges[i]
    }

    /// Looks a coordinate up in the node map.
    pub fn map_get(&self, key: (u32, u32)) -> (r: Option<usize>)
        ensures
            r == map_value(self.spec_map(), key),
    {
        let n = self.node_map.len();
        proof {
            assert(self.spec_map().take(n as int) =~= self.spec_map());
        }
        let mut i: usize = n;
        while i > 0
            invariant
                0 <= i <= n,
                n == self.spec_map().len(),
                map_value(self.spec_map(), key) == map_value(
                    self.spec_map().take(i as int),
                    key,
                ),
            decreases i,
        {
            proof {
                assert(self.spec_map().take(i as int).last() == self.spec_map()[i - 1]);
                assert(self.spec_map().take(i as int).drop_last() =~= self.spec_map().take(i - 1));
            }
            if self.node_map[i - 1].0.0 == key.0 && self.node_map[i - 1].0.1 == key.1 {
                return Some(self.node_map[i - 1].1);
            }
            i = i - 1;
        }
        proof {
            assert(self.spec_map().take(0) =~= Seq::<((u32, u32), usize)>::empty());
        }
        None
    }

    /// Inserts or overwrites the node stored for a coordinate.
    fn map_insert(&mut self, key: (u32, u32), v: usize)
        requires
            forall|a: int, b: int|
                0 <= a < b < old(self).spec_map().len() ==> (#[trigger] old(self).spec_map()[a]).0
                    != (#[trigger] old(self).spec_map()[b]).0,
        ensures
            final(self).nodes@ == old(self).nodes@,
            final(self).spec_edges() == old(self).spec_edges(),
            map_value(final(self).spec_map(), key) == Some(v),
            forall|key2: (u32, u32)|
                key2 != key ==> map_value(final(self).spec_map(), key2) == map_value(
                    old(self).spec_map(),
                    key2,
                ),
            ({
                let m = final(self).spec_map();
                forall|a: int, b: int|
                    0 <= a < b < m.len() ==> (#[trigger] m[a]).0 != (#[trigger] m[b]).0
            }),
            forall|k: int|
                0 <= k < final(self).spec_map().len() ==> (#[trigger] final(self).spec_map()[k]).1
                    == v || exists|j: int|
                    0 <= j < old(self).spec_map().len() && old(self).spec_map()[j].1 == (
                    #[trigger] final(self).spec_map()[k]).1,
    {
        let ghost pre = self.node_map@;
        let n = self.node_map.len();
        let mut i: usize = 0;
        while i < n
            invariant
                0 <= i <= n,
                n == self.node_map@.len(),
                self.node_map@ == pre,
                pre == old(self).node_map@,
                self.nodes@ == old(self).nodes@,
                self.edges@ == old(self).edges@,
                forall|a: int, b: int|
                    0 <= a < b < pre.len() ==> (#[trigger] pre[a]).0 != (#[trigger] pre[b]).0,
                forall|k: int| 0 <= k < i ==> (#[trigger] pre[k]).0 != key,
            decreases n - i,
        {
            if self.node_map[i].0.0 == key.0 && self.node_map[i].0.1 == key.1 {
                self.node_map.set(i, (key, v));
                proof {
                    lemma_map_value_update(pre, self.node_map@, key, v, i as int);
                }
                return ;
            }
            i = i + 1;
        }
        self.node_map.push((key, v));
        proof {
            assert(self.node_map@.drop_last() =~= pre);
            assert(self.node_map@.last() == (key, v));
            assert forall|key2: (u32, u32)| key2 != key implies map_value(
                self.node_map@,
                key2,
            ) == map_value(pre, key2) by {}
            assert forall|a: int, b: int|
                0 <= a < b < self.node_map@.len() implies (#[trigger] self.node_map@[a]).0 != (
                #[trigger] self.node_map@[b]).0 by {
                if b == self.node_map@.len() - 1 {
                    assert(pre[a].0 != key);
                }
            }
        }
    }

    /// Inserts a conveyor at a coordinate: a fresh node, wired to its four
    /// tile neighbours. Each neighbouring node's outgoing edge is redirected
    /// to the new node, the map entry for the coordinate is overwritten, and
    /// the new node's own edge points back at itself (as the map lookup of
    /// the just-inserted key finds the new node). The whole effect is
    /// [`insert_rel`].
    pub fn insert_conveyor(&mut self, coordinate: (u32, u32), destination: (u32, u32))
        requires
            old(self).wf(),
            1 <= coordinate.0 < u32::MAX,
            1 <= coordinate.1 < u32::MAX,
            old(self).num_nodes() < usize::MAX,
        ensures
            final(self).wf(),
            insert_rel(*old(self), coordinate, *final(self)),
    {
        let x = coordinate.0;
        let y = coordinate.1;
        let node_index = self.nodes.len();

        // Push in the new node.
        self.nodes.push(
            Node { coordinate, storage: (false, false, false, false), destination },
        );

        // Find the neighbours of the new node and redirect their edges.
        let ghost m0 = self.node_map@;
        let n0 = self.map_get((x + 1, y));
        let n1 = self.map_get((x - 1, y));
        let n2 = self.map_get((x, y + 1));
        let n3 = self.map_get((x, y - 1));
        proof {
            assert(m0 == old(self).spec_map());
            if map_value(m0, (((x + 1) as u32), y)) is Some {
                lemma_value_bounded(m0, (((x + 1) as u32), y), old(self).num_nodes());
            }
            if map_value(m0, (((x - 1) as u32), y)) is Some {
                lemma_value_bounded(m0, (((x - 1) as u32), y), old(self).num_nodes());
            }
            if map_value(m0, (x, ((y + 1) as u32))) is Some {
                lemma_value_bounded(m0, (x, ((y + 1) as u32)), old(self).num_nodes());
            }
            if map_value(m0, (x, ((y - 1) as u32))) is Some {
                lemma_value_bounded(m0, (x, ((y - 1) as u32)), old(self).num_nodes());
            }
        }
        self.redirect(n0, node_index);
        self.redirect(n1, node_index);
        self.redirect(n2, node_index);
        self.redirect(n3, node_index);
        proof {
            assert forall|i: int|
                0 <= i < node_index ==> (#[trigger] self.edges@[i]).1 == if spec_neighbour(
                    m0,
                    x,
                    y,
                    i,
                ) {
                    Some(node_index)
                } else {
                    old(self).spec_edges()[i].1
                } by {}
        }

        // Attach the new node to the map, then wire its own edge to whatever
        // the map now stores for its coordinate: itself.
        self.map_insert(coordinate, node_index);
        let node_index_other = self.map_get(coordinate);
        self.edges.push(Edge(node_index, node_index_other));
    }

    /// Redirects the edge owned by `neighbour` (when there is one) to `to`.
    fn redirect(&mut self, neighbour: Option<usize>, to: usize)
        requires
            old(self).spec_edges().len() <= old(self).nodes@.len(),
            forall|i: int|
                0 <= i < old(self).spec_edges().len() ==> (#[trigger] old(self).spec_edges()[i]).0
                    == i,
            neighbour matches Some(v) ==> (v as int) < old(self).spec_edges().len(),
        ensures
            final(self).nodes@ == old(self).nodes@,
            final(self).spec_map() == old(self).spec_map(),
            final(self).spec_edges().len() == old(self).spec_edges().len(),
            ({
                let es = final(self).spec_edges();
                forall|i: int| 0 <= i < es.len() ==> (#[trigger] es[i]).0 == i
            }),
            ({
                let es = final(self).spec_edges();
                forall|i: int|
                    0 <= i < es.len() ==> (#[trigger] es[i]).1 == if neighbour == Some(i as usize) {
                        Some(to)
                    } else {
                        old(self).spec_edges()[i].1
                    }
            }),
    {
        match neighbour {
            Some(v) => {
                self.edges.set(v, Edge(v, Some(to)));
            },
            None => {},
        }
    }
}

/// What inserting a conveyor at `coordinate` does to the network: one node
/// is added; its edge (the last one) points at itself; each edge owned by a
/// tile neighbour of the coordinate is redirected to the new node and every
/// other edge is untouched; and the map now sends the coordinate to the new
/// node and every other key to whatever it sent it to before.
pub open spec fn insert_rel(pre: DistVolume, coordinate: (u32, u32), post: DistVolume) -> bool {
    let n = pre.num_nodes();
    &&& post.num_nodes() == n + 1
    &&& post.spec_edges().len() == n + 1
    &&& post.spec_edges()[n] == Edge(n as usize, Some(n as usize))
    &&& forall|i: int|
        0 <= i < n ==> (#[trigger] post.spec_edges()[i]).1 == if spec_neighbour(
            pre.spec_map(),
            coordinate.0,
            coordinate.1,
            i,
        ) {
            Some(n as usize)
        } else {
            pre.spec_edges()[i].1
        }
    &&& map_value(post.spec_map(), coordinate) == Some(n as usize)
    &&& forall|key2: (u32, u32)|
        key2 != coordinate ==> map_value(post.spec_map(), key2) == map_value(pre.spec_map(), key2)
}

/// The state after a sequence of conveyor insertions, first to last.
pub open spec fn run_rel(
    pre: DistVolume,
    items: Seq<((u32, u32), (u32, u32))>,
    post: DistVolume,
) -> bool
    decreases items.len(),
{
    if items.len() == 0 {
        post == pre
    } else {
        exists|mid: DistVolume|
            #![trigger insert_rel(mid, items.last().0, post)]
            run_rel(pre, items.drop_last(), mid) && insert_rel(mid, items.last().0, post)
    }
}

/// The per-tick step caching the conveyor network: inserts every conveyor
/// reported this tick, in order, into the graph.
pub struct DistSystem {
    /// Cached state of the distribution network in a graph structure.
    pub volume: DistVolume,
}

impl DistSystem {
    /// A system over an empty network.
    pub fn new() -> (r: DistSystem)
        ensures
            r.volume.wf(),
            r.volume.num_nodes() == 0,
    {
        DistSystem { volume: DistVolume::new() }
    }

    /// Inserts each conveyor `(coordinate, destination)` of this tick.
    pub fn run(&mut self, conveyors: &Vec<((u32, u32), (u32, u32))>)
        requires
            old(self).volume.wf(),
            forall|k: int|
                0 <= k < conveyors@.len() ==> {
                    &&& 1 <= (#[trigger] conveyors@[k]).0.0 < u32::MAX
                    &&& 1 <= conveyors@[k].0.1 < u32::MAX
                },
            old(self).volume.num_nodes() + conveyors@.len() < usize::MAX,
        ensures
            final(self).volume.wf(),
            run_rel(old(self).volume, conveyors@, final(self).volume),
    {
        let n = conveyors.len();
        let mut i: usize = 0;
        while i < n
            invariant
                0 <= i <= n,
                n == conveyors@.len(),
                self.volume.wf(),
                forall|k: int|
                    0 <= k < conveyors@.len() ==> {
                        &&& 1 <= (#[trigger] conveyors@[k]).0.0 < u32::MAX
                        &&& 1 <= conveyors@[k].0.1 < u32::MAX
                    },
                old(self).volume.num_nodes() + conveyors@.len() < usize::MAX,
                self.volume.num_nodes() <= old(self).volume.num_nodes() + i,
                run_rel(old(self).volume, conveyors@.take(i as int), self.volume),
            decreases n - i,
        {
            let ghost mid = self.volume;
            let (coordinate, destination) = conveyors[i];
            self.volume.insert_conveyor(coordinate, destination);
            proof {
                let t = conveyors@.take(i + 1);
                assert(t.drop_last() =~= conveyors@.take(i as int));
                assert(t.last() == conveyors@[i as int]);
                assert(run_rel(old(self).volume, t.drop_last(), mid) && insert_rel(
                    mid,
                    t.last().0,
                    self.volume,
                ));
            }
            i = i + 1;
        }
        proof {
            assert(conveyors@.take(n as int) =~= conveyors@);
        }
    }
}

/// A value the map yields is below any bound every entry's value is below.
proof fn lemma_value_bounded(m: Seq<((u32, u32), usize)>, key: (u32, u32), bound: int)
    requires
        map_value(m, key) is Some,
        forall|k: int| 0 <= k < m.len() ==> ((#[trigger] m[k]).1 as int) < bound,
    ensures
        ((map_value(m, key)->Some_0) as int) < bound,
{
    lemma_map_value_props(m, key);
    let k = choose|k: int|
        0 <= k < m.len() && (#[trigger] m[k]).0 == key && m[k].1 == map_value(m, key)->Some_0;
    assert((m[k].1 as int) < bound);
}

/// A key the map yields a value for is carried by some entry, with that
/// value.
proof fn lemma_map_value_props(m: Seq<((u32, u32), usize)>, key: (u32, u32))
    requires
        map_value(m, key) is Some,
    ensures
        exists|k: int|
            0 <= k < m.len() && (#[trigger] m[k]).0 == key && m[k].1 == map_value(m, key)->Some_0,
    decreases m.len(),
{
    if m.last().0 == key {
        assert(m[m.len() - 1].0 == key);
    } else {
        lemma_map_value_props(m.drop_last(), key);
        let k = choose|k: int|
            0 <= k < m.drop_last().len() && (#[trigger] m.drop_last()[k]).0 == key
                && m.drop_last()[k].1 == map_value(m.drop_last(), key)->Some_0;
        assert(m[k] == m.drop_last()[k]);
    }
}

/// Overwriting the entry at position `i` (which held `key`) makes the map
/// yield `v` for `key` and leaves every other key alone.
proof fn lemma_map_value_update(
    pre: Seq<((u32, u32), usize)>,
    post: Seq<((u32, u32), usize)>,
    key: (u32, u32),
    v: usize,
    i: int,
)
    requires
        post.len() == pre.len(),
        0 <= i < pre.len(),
        pre[i].0 == key,
        post[i] == (key, v),
        forall|k: int| 0 <= k < pre.len() && k != i ==> post[k] == pre[k],
        forall|a: int, b: int|
            0 <= a < b < pre.len() ==> (#[trigger] pre[a]).0 != (#[trigger] pre[b]).0,
    ensures
        map_value(post, key) == Some(v),
        forall|key2: (u32, u32)| key2 != key ==> map_value(post, key2) == map_value(pre, key2),
    decreases pre.len(),
{
    if i == pre.len() - 1 {
        assert(post.last() == (key, v));
        assert forall|key2: (u32, u32)| key2 != key implies map_value(post, key2) == map_value(
            pre,
            key2,
        ) by {
            assert(post.drop_last() =~= pre.drop_last());
        }
    } else {
        assert(pre.last().0 != key) by {
            if pre[pre.len() - 1].0 == key {
                assert(pre[i].0 == pre[pre.len() - 1].0);
            }
        }
        assert(post.last() == pre.last());
        assert(post.drop_last().len() == pre.drop_last().len());
        assert(pre.drop_last()[i] == pre[i]);
        assert(post.drop_last()[i] == post[i]);
        assert forall|k: int|
            0 <= k < pre.drop_last().len() && k != i implies post.drop_last()[k]
                == pre.drop_last()[k] by {
            assert(post.drop_last()[k] == post[k]);
            assert(pre.drop_last()[k] == pre[k]);
        }
        assert forall|a: int, b: int|
            0 <= a < b < pre.drop_last().len() implies (#[trigger] pre.drop_last()[a]).0 != (
            #[trigger] pre.drop_last()[b]).0 by {
            assert(pre.drop_last()[a] == pre[a]);
            assert(pre.drop_last()[b] == pre[b]);
        }
        lemma_map_value_update(pre.drop_last(), post.drop_last(), key, v, i);
        assert(map_value(post, key) == map_value(post.drop_last(), key));
        assert(map_value(post, key) == Some(v));
        assert forall|key2: (u32, u32)| key2 != key implies map_value(post, key2) == map_value(
            pre,
            key2,
        ) by {
            if post.last().0 != key2 {
                assert(map_value(post, key2) == map_value(post.drop_last(), key2));
                assert(map_value(pre, key2) == map_value(pre.drop_last(), key2));
            }
        }
    }
}

} // verus!
