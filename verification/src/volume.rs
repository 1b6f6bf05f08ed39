//! Chunked sparse tile storage: the spacial map of statically sized 32 by
//! 32 chunks, and the graph-of-chunks prototype.

use vstd::prelude::*;

verus! {

/// The within-chunk remainder of a coordinate.
pub open spec fn spec_rem(v: u32) -> u32 {
    (v % 32) as u32
}

/// The tile slot a position lands in, as [`chunkmap_index`] computes it.
pub open spec fn spec_slot(x: u32, y: u32) -> int {
    (x - spec_rem(x)) * (y - spec_rem(y))
}

/// Internal index type for [`SpacialMap`]: the chunk key and the tile slot
/// inside the chunk.
#[derive(Clone, Copy, Debug, PartialEq, Eq)]
pub struct Index {
    pub xy: (u32, u32),
    pub n: usize,
}

/// Splits a position into the chunk key (the coordinate remainders) and the
/// tile slot inside the chunk.
pub fn chunkmap_index(position: (u32, u32)) -> (r: Index)
    requires
        spec_slot(position.0, position.1) <= usize::MAX,
    ensures
        r.xy == (spec_rem(position.0), spec_rem(position.1)),
        r.n == spec_slot(position.0, position.1),
{
    let x = position.0;
    let y = position.1;
    let cx = x % 32;
    let cy = y % 32;
    proof {
        assert((x - cx) as int * (y - cy) as int == spec_slot(x, y));
    }
    let n: usize = ((x - cx) as usize) * ((y - cy) as usize);
    Index { xy: (cx, cy), n }
}

/// The chunk whose key is `key`, if the map holds one: the position of the
/// last chunk with that key (keys are unique, so at most one exists).
pub open spec fn spec_find<T>(chunks: Seq<((u32, u32), Vec<T>)>, key: (u32, u32)) -> Option<int>
    decreases chunks.len(),
{
    if chunks.len() == 0 {
        None
    } else if chunks.last().0 == key {
        Some(chunks.len() - 1)
    } else {
        spec_find(chunks.drop_last(), key)
    }
}

/// Spacial map of statically sized 32 by 32 chunks, keyed by the chunk key
/// of [`chunkmap_index`].
pub struct SpacialMap<T> {
    chunks: Vec<((u32, u32), Vec<T>)>,
}

impl<T> SpacialMap<T> {
    /// The stored chunks, for contracts.
    pub closed spec fn spec_chunks(&self) -> Seq<((u32, u32), Vec<T>)> {
        self.chunks@
    }

    /// Structural invariant: chunk keys are unique and every chunk holds
    /// exactly `32 * 32` tiles.
    pub open spec fn wf(&self) -> bool {
        &&& forall|a: int, b: int|
            0 <= a < b < self.spec_chunks().len() ==> (#[trigger] self.spec_chunks()[a]).0 != (
            #[trigger] self.spec_chunks()[b]).0
        &&& forall|k: int|
            0 <= k < self.spec_chunks().len() ==> (#[trigger] self.spec_chunks()[k]).1@.len()
                == 1024
    }

    /// The tile stored for `key` at slot `n`, if that chunk exists.
    pub open spec fn spec_tile(&self, key: (u32, u32), n: int) -> Option<T> {
        match spec_find(self.spec_chunks(), key) {
            Some(k) => Some(self.spec_chunks()[k].1@[n]),
            None => None,
        }
    }

    /// An empty map.
    pub fn new() -> (r: SpacialMap<T>)
        ensures
            r.wf(),
            r.spec_chunks() == Seq::<((u32, u32), Vec<T>)>::empty(),
    {
        SpacialMap { chunks: Vec::new() }
    }

    /// Finds the position of the chunk keyed `key`.
    fn find(&self, key: (u32, u32)) -> (r: Option<usize>)
        ensures
            match r {
                Some(k) => spec_find(self.spec_chunks(), key) == Some(k as int),
                None => spec_find(self.spec_chunks(), key) is None,
            },
    {
        let n = self.chunks.len();
        proof {
            assert(self.spec_chunks().take(n as int) =~= self.spec_chunks());
        }
        let mut i: usize = n;
        while i > 0
            invariant
                0 <= i <= n,
                n == self.spec_chunks().len(),
                spec_find(self.spec_chunks(), key) == spec_find(
                    self.spec_chunks().take(i as int),
                    key,
                ),
            decreases i,
        {
            proof {
                assert(self.spec_chunks().take(i as int).last() == self.spec_chunks()[i - 1]);
                assert(self.spec_chunks().take(i as int).drop_last() =~= self.spec_chunks().take(
                    i - 1,
                ));
            }
            if self.chunks[i - 1].0.0 == key.0 && self.chunks[i - 1].0.1 == key.1 {
                return Some(i - 1);
            }
            i = i - 1;
        }
        proof {
            assert(self.spec_chunks().take(0) =~= Seq::<((u32, u32), Vec<T>)>::empty());
        }
        None
    }
}

impl<T> Default for SpacialMap<T> {
    /// An empty map.
    fn default() -> (r: Self)
        ensures
            r.wf(),
            r.spec_chunks() == Seq::<((u32, u32), Vec<T>)>::empty(),
    {
        SpacialMap::new()
    }
}

impl<T: Default + Copy> SpacialMap<T> {
    /// Gets a tile: `None` when no chunk exists for the position's key.
    pub fn get(&self, xy: (u32, u32)) -> (r: Option<&T>)
        requires
            self.wf(),
            spec_slot(xy.0, xy.1) < 1024,
        ensures
            match r {
                Some(v) => self.spec_tile(
                    (spec_rem(xy.0), spec_rem(xy.1)),
                    spec_slot(xy.0, xy.1),
                ) == Some(*v),
                None => self.spec_tile(
                    (spec_rem(xy.0), spec_rem(xy.1)),
                    spec_slot(xy.0, xy.1),
                ) is None,
            },
    {
        let index = chunkmap_index(xy);
        match self.find(index.xy) {
            Some(k) => {
                proof {
                    lemma_find_props(self.spec_chunks(), index.xy);
                }
                Some(&self.chunks[k].1[index.n])
            },
            None => None,
        }
    }

    /// Sets a tile, allocating the chunk with default tiles when the
    /// position's key has none yet. Chunks for other keys are untouched,
    /// and so are the other slots of the written key's own chunk: kept when
    /// the chunk existed, default-filled when it is fresh.
    pub fn set(&mut self, xy: (u32, u32), v: T)
        requires
            old(self).wf(),
            spec_slot(xy.0, xy.1) < 1024,
        ensures
            final(self).wf(),
            final(self).spec_tile((spec_rem(xy.0), spec_rem(xy.1)), spec_slot(xy.0, xy.1))
                == Some(v),
            forall|key2: (u32, u32), n: int|
                key2 != (spec_rem(xy.0), spec_rem(xy.1)) && 0 <= n < 1024 ==> final(self).spec_tile(
                    key2,
                    n,
                ) == old(self).spec_tile(key2, n),
            ({
                let key = (spec_rem(xy.0), spec_rem(xy.1));
                let slot = spec_slot(xy.0, xy.1);
                &&& (spec_find(old(self).spec_chunks(), key) is Some ==> forall|n2: int|
                    0 <= n2 < 1024 && n2 != slot ==> final(self).spec_tile(key, n2) == old(
                        self,
                    ).spec_tile(key, n2))
                &&& (spec_find(old(self).spec_chunks(), key) is None ==> forall|n2: int|
                    #![trigger final(self).spec_tile(key, n2)]
                    0 <= n2 < 1024 && n2 != slot ==> (final(self).spec_tile(key, n2) matches Some(d)
                        && call_ensures(T::default, (), d)))
            }),
    {
        let index = chunkmap_index(xy);
        let ghost key = index.xy;
        let ghost pre = self.chunks@;
        match self.find(index.xy) {
            Some(k) => {
                proof {
                    lemma_find_props(self.spec_chunks(), key);
                }
                let chunk: &mut Vec<T> = &mut self.chunks[k].1;
                chunk.set(index.n, v);
                proof {
                    assert(self.chunks@.len() == pre.len());
                    assert(forall|a: int|
                        0 <= a < pre.len() && a != k as int ==> self.chunks@[a] == pre[a]);
                    assert(self.chunks@[k as int].0 == pre[k as int].0);
                    lemma_find_pointwise(pre, self.chunks@, key);
                    assert forall|key2: (u32, u32), n: int|
                        key2 != key && 0 <= n < 1024 implies self.spec_tile(key2, n) == old(self).spec_tile(
                        key2,
                        n,
                    ) by {
                        lemma_find_pointwise(pre, self.chunks@, key2);
                        match spec_find(pre, key2) {
                            Some(j) => {
                                lemma_find_props(pre, key2);
                                assert(0 <= j < pre.len() && pre[j].0 == key2);
                                assert(j != k as int);
                                assert(spec_find(self.chunks@, key2) == Some(j));
                                assert(self.chunks@[j] == pre[j]);
                                assert(self.spec_tile(key2, n) == Some(self.chunks@[j].1@[n]));
                                assert(old(self).spec_tile(key2, n) == Some(pre[j].1@[n]));
                            },
                            None => {},
                        }
                    }
                    assert(spec_find(self.chunks@, key) == Some(k as int));
                    assert(spec_find(pre, key) == Some(k as int));
                    assert forall|n2: int|
                        #![trigger self.spec_tile(key, n2)]
                        0 <= n2 < 1024 && n2 != index.n as int implies self.spec_tile(key, n2)
                        == old(self).spec_tile(key, n2) by {
                        assert(self.chunks@[k as int].1@[n2] == pre[k as int].1@[n2]);
                    }
                }
            },
            None => {
                let mut chunk: Vec<T> = Vec::new();
                let mut i: usize = 0;
                while i < 1024
                    invariant
                        0 <= i <= 1024,
                        chunk@.len() == i,
                        forall|n2: int|
                            0 <= n2 < i ==> call_ensures(T::default, (), #[trigger] chunk@[n2]),
                    decreases 1024 - i,
                {
                    chunk.push(T::default());
                    i = i + 1;
                }
                chunk.set(index.n, v);
                self.chunks.push((index.xy, chunk));
                proof {
                    assert(self.chunks@.drop_last() =~= pre);
                    assert(self.chunks@.last().0 == key);
                    assert(spec_find(self.chunks@, key) == Some(pre.len() as int));
                    assert forall|a: int, b: int|
                        0 <= a < b < self.chunks@.len() implies (#[trigger] self.chunks@[a]).0 != (
                        #[trigger] self.chunks@[b]).0 by {
                        if b == self.chunks@.len() - 1 {
                            if pre[a].0 == key {
                                lemma_find_some(pre, key, a);
                            }
                        }
                    }
                    assert forall|key2: (u32, u32), n: int|
                        key2 != key && 0 <= n < 1024 implies self.spec_tile(key2, n) == old(self).spec_tile(
                        key2,
                        n,
                    ) by {
                        assert(spec_find(self.chunks@, key2) == spec_find(pre, key2));
                        match spec_find(pre, key2) {
                            Some(j) => {
                                lemma_find_props(pre, key2);
                                assert(self.chunks@[j] == pre[j]);
                            },
                            None => {},
                        }
                    }
                    assert forall|n2: int|
                        #![trigger self.spec_tile(key, n2)]
                        0 <= n2 < 1024 && n2 != index.n as int implies (self.spec_tile(key, n2)
                            matches Some(d) && call_ensures(T::default, (), d)) by {
                        assert(self.spec_tile(key, n2) == Some(
                            self.chunks@[pre.len() as int].1@[n2],
                        ));
                    }
                }
            },
        }
    }
}

/// If two chunk lists agree on length and on every entry except position
/// `k`, and agree on entry `k`'s key, they find every key at the same
/// position.
proof fn lemma_find_pointwise<T>(
    a: Seq<((u32, u32), Vec<T>)>,
    b: Seq<((u32, u32), Vec<T>)>,
    key: (u32, u32),
)
    requires
        a.len() == b.len(),
        forall|k: int| 0 <= k < a.len() ==> (#[trigger] a[k]).0 == (#[trigger] b[k]).0,
    ensures
        spec_find(a, key) == spec_find(b, key),
    decreases a.len(),
{
    if a.len() > 0 {
        assert(a.last().0 == b.last().0);
        lemma_find_pointwise(a.drop_last(), b.drop_last(), key);
    }
}

/// A found chunk really carries the key it was found for.
proof fn lemma_find_props<T>(chunks: Seq<((u32, u32), Vec<T>)>, key: (u32, u32))
    requires
        spec_find(chunks, key) is Some,
    ensures
        ({
            let k = spec_find(chunks, key)->Some_0;
            0 <= k < chunks.len() && chunks[k].0 == key
        }),
    decreases chunks.len(),
{
    if chunks.len() > 0 && chunks.last().0 != key {
        lemma_find_props(chunks.drop_last(), key);
        assert(chunks.drop_last()[spec_find(chunks.drop_last(), key)->Some_0]
            == chunks[spec_find(chunks, key)->Some_0]);
    }
}

/// A position that carries the key is found (at it or later).
proof fn lemma_find_some<T>(chunks: Seq<((u32, u32), Vec<T>)>, key: (u32, u32), a: int)
    requires
        0 <= a < chunks.len(),
        chunks[a].0 == key,
    ensures
        spec_find(chunks, key) is Some,
    decreases chunks.len(),
{
    if chunks.last().0 != key {
        assert(chunks.drop_last()[a] == chunks[a]);
        lemma_find_some(chunks.drop_last(), key, a);
    }
}

/// Type held by a chunk which points at a neighbouring chunk.
#[derive(Clone, Copy, Debug, PartialEq, Eq, Structural)]
pub struct Edge {
    /// Index of the neighbour vertex.
    pub vertex_index: u32,
}

/// A voxel: plain tile data a chunk can be filled with.
pub trait Voxel: Default + Copy {

}

impl Voxel for bool {

}

impl Voxel for u8 {

}

/// A `32 * 32` chunk of tile data with up to eight neighbour edges.
pub struct Chunk<T: Voxel> {
    /// Position of the chunk in world coordinates.
    pub position: (u32, u32),
    /// The chunk's tile data, `32 * 32` entries.
    pub tiles: Vec<T>,
    /// Neighbours of the chunk, by index; at most eight.
    pub chunk_neighbours: Vec<Edge>,
}

impl<T: Voxel> Chunk<T> {
    /// Whether the chunk has its full tile count and at most eight
    /// neighbours.
    pub open spec fn wf(&self) -> bool {
        self.tiles@.len() == 1024 && self.chunk_neighbours@.len() <= 8
    }
}

impl<T: Voxel> Default for Chunk<T> {
    /// A chunk at the origin, full of default tiles, with no neighbours.
    fn default() -> (r: Self)
        ensures
            r.wf(),
            r.position == (0u32, 0u32),
            r.chunk_neighbours@.len() == 0,
            forall|k: int| 0 <= k < 1024 ==> call_ensures(T::default, (), #[trigger] r.tiles@[k]),
    {
        let mut tiles: Vec<T> = Vec::new();
        let mut i: usize = 0;
        while i < 1024
            invariant
                0 <= i <= 1024,
                tiles@.len() == i,
                forall|k: int| 0 <= k < i ==> call_ensures(T::default, (), #[trigger] tiles@[k]),
            decreases 1024 - i,
        {
            tiles.push(T::default());
            i = i + 1;
        }
        Chunk { position: (0, 0), tiles, chunk_neighbours: Vec::new() }
    }
}

/// A volume of chunks arranged as graph nodes.
pub struct GraphChunkVolume<T: Voxel> {
    /// Chunks are nodes.
    pub chunks: Vec<Chunk<T>>,
}

impl<T: Voxel> GraphChunkVolume<T> {
    /// An empty volume.
    pub fn new() -> (r: Self)
        ensures
            r.chunks@.len() == 0,
    {
        GraphChunkVolume { chunks: Vec::new() }
    }
}

} // verus!
