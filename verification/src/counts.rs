use vstd::prelude::*;
use crate::tile::{Tile, TileType};

verus! {

/// How many tiles of each of the 34 kinds a hand holds.
#[derive(Debug, Clone, Copy, PartialEq, Eq, Hash)]
pub struct TileCounts(pub [u8; 34]);

impl View for TileCounts {
    type V = Seq<u8>;

    open spec fn view(&self) -> Seq<u8> {
        self.0@
    }
}

/// The number of tiles of kind `k` among the first `n` tiles.
pub open spec fn count_kind(tiles: Seq<Tile>, n: int, k: int) -> int
    decreases n,
{
    if n <= 0 {
        0
    } else {
        count_kind(tiles, n - 1, k) + if tiles[n - 1].spec_tile_type().0 == k {
            1int
        } else {
            0int
        }
    }
}

pub proof fn lemma_count_kind_bounds_any(tiles: Seq<Tile>, n: int, k: int)
    ensures
        0 <= count_kind(tiles, n, k),
    decreases n,
{
    if n > 0 {
        lemma_count_kind_bounds_any(tiles, n - 1, k);
    }
}

pub proof fn lemma_count_kind_prefix(tiles: Seq<Tile>, n: int, m: int, k: int)
    requires
        0 <= n <= m,
    ensures
        count_kind(tiles, n, k) <= count_kind(tiles, m, k),
    decreases m - n,
{
    if n < m {
        lemma_count_kind_prefix(tiles, n, m - 1, k);
    }
}

/// Counting over a concatenation adds the counts of the parts.
pub proof fn lemma_count_kind_concat(a: Seq<Tile>, b: Seq<Tile>, k: int)
    ensures
        count_kind(a + b, (a + b).len() as int, k) == count_kind(a, a.len() as int, k) + count_kind(
            b,
            b.len() as int,
            k,
        ),
    decreases b.len(),
{
    if b.len() > 0 {
        let b2 = b.drop_last();
        lemma_count_kind_concat(a, b2, k);
        assert((a + b).drop_last() =~= a + b2);
        lemma_count_kind_same_prefix(a + b, (a + b).drop_last(), (a + b).len() - 1, k);
        lemma_count_kind_same_prefix(b, b2, b.len() - 1, k);
    }
}

/// Counting looks only at the first `n` tiles.
pub proof fn lemma_count_kind_same_prefix(x: Seq<Tile>, y: Seq<Tile>, n: int, k: int)
    requires
        0 <= n <= x.len(),
        n <= y.len(),
        forall|i: int| 0 <= i < n ==> x[i] == y[i],
    ensures
        count_kind(x, n, k) == count_kind(y, n, k),
    decreases n,
{
    if n > 0 {
        lemma_count_kind_same_prefix(x, y, n - 1, k);
    }
}

/// The number of kinds among the first `n` that equal `k`.
pub open spec fn count_type(types: Seq<TileType>, n: int, k: int) -> int
    decreases n,
{
    if n <= 0 {
        0
    } else {
        count_type(types, n - 1, k) + if types[n - 1].0 == k {
            1int
        } else {
            0int
        }
    }
}

/// The sum of the first `n` counts.
pub open spec fn sum_counts(c: Seq<u8>, n: int) -> int
    decreases n,
{
    if n <= 0 {
        0
    } else {
        sum_counts(c, n - 1) + c[n - 1]
    }
}

/// Replacing one count changes the sum by the difference.
pub proof fn lemma_sum_counts_update(c: Seq<u8>, n: int, i: int, v: u8)
    requires
        0 <= i < c.len(),
        0 <= n <= c.len(),
    ensures
        sum_counts(c.update(i, v), n) == sum_counts(c, n) + if i < n {
            v - c[i]
        } else {
            0int
        },
    decreases n,
{
    if n > 0 {
        lemma_sum_counts_update(c, n - 1, i, v);
    }
}

pub proof fn lemma_count_kind_bounds(tiles: Seq<Tile>, n: int, k: int)
    requires
        0 <= n <= tiles.len(),
    ensures
        0 <= count_kind(tiles, n, k) <= n,
    decreases n,
{
    if n > 0 {
        lemma_count_kind_bounds(tiles, n - 1, k);
    }
}

pub proof fn lemma_sum_counts_bounds(c: Seq<u8>, n: int)
    requires
        0 <= n <= c.len(),
    ensures
        0 <= sum_counts(c, n) <= 255 * n,
    decreases n,
{
    if n > 0 {
        lemma_sum_counts_bounds(c, n - 1);
    }
}

/// The counts of the given kinds.
pub open spec fn type_counts(types: Seq<TileType>) -> Seq<u8> {
    Seq::new(34, |k: int| count_type(types, types.len() as int, k) as u8)
}

/// Counts the given tile kinds.
pub fn counts_of_types(types: &[TileType]) -> (c: TileCounts)
    requires
        types@.len() <= 255,
        forall|i: int| 0 <= i < types@.len() ==> (#[trigger] types@[i]).wf(),
    ensures
        forall|k: int| 0 <= k < 34 ==> c@[k] == count_type(types@, types@.len() as int, k),
        c@ =~= type_counts(types@),
{
    let mut counts = TileCounts::new();
    let mut i: usize = 0;
    while i < types.len()
        invariant
            i <= types@.len(),
            types@.len() <= 255,
            forall|j: int| 0 <= j < types@.len() ==> (#[trigger] types@[j]).wf(),
            forall|k: int| 0 <= k < 34 ==> counts@[k] == count_type(types@, i as int, k),
        decreases types@.len() - i,
    {
        let t = types[i];
        proof {
            lemma_count_type_bound(types@, i as int, t.0 as int);
        }
        counts.inc(t);
        i += 1;
    }
    proof {
        assert forall|k: int| 0 <= k < 34 implies counts@[k] == type_counts(types@)[k] by {
            lemma_count_type_bound(types@, types@.len() as int, k);
        }
    }
    counts
}

pub proof fn lemma_count_type_bound(types: Seq<TileType>, n: int, k: int)
    requires
        0 <= n,
    ensures
        0 <= count_type(types, n, k) <= n,
    decreases n,
{
    if n > 0 {
        lemma_count_type_bound(types, n - 1, k);
    }
}

impl TileCounts {
    pub fn new() -> (c: Self)
        ensures
            forall|i: int| 0 <= i < 34 ==> c@[i] == 0,
    {
        TileCounts([0u8; 34])
    }

    /// Counts the kinds of the given tiles.
    pub fn from_tiles(tiles: &[Tile]) -> (c: Self)
        requires
            tiles@.len() <= 255,
            forall|i: int| 0 <= i < tiles@.len() ==> (#[trigger] tiles@[i]).wf(),
        ensures
            forall|k: int| 0 <= k < 34 ==> c@[k] == count_kind(tiles@, tiles@.len() as int, k),
    {
        let mut counts = [0u8; 34];
        let mut n: usize = 0;
        while n < tiles.len()
            invariant
                n <= tiles@.len(),
                tiles@.len() <= 255,
                forall|i: int| 0 <= i < tiles@.len() ==> (#[trigger] tiles@[i]).wf(),
                forall|k: int| 0 <= k < 34 ==> counts@[k] == count_kind(tiles@, n as int, k),
            decreases tiles@.len() - n,
        {
            let k = tiles[n].tile_type().0 as usize;
            proof {
                lemma_count_kind_bounds(tiles@, n as int, k as int);
            }
            counts[k] = counts[k] + 1;
            n += 1;
        }
        TileCounts(counts)
    }

    pub fn get(&self, t: TileType) -> (n: u8)
        requires
            t.wf(),
        ensures
            n == self@[t.0 as int],
    {
        self.0[t.0 as usize]
    }

    pub fn set(&mut self, t: TileType, n: u8)
        requires
            t.wf(),
        ensures
            final(self)@ == old(self)@.update(t.0 as int, n),
    {
        self.0[t.0 as usize] = n;
    }

    pub fn inc(&mut self, t: TileType)
        requires
            t.wf(),
            old(self)@[t.0 as int] < 255,
        ensures
            final(self)@ == old(self)@.update(t.0 as int, (old(self)@[t.0 as int] + 1) as u8),
    {
        self.0[t.0 as usize] = self.0[t.0 as usize] + 1;
    }

    pub fn dec(&mut self, t: TileType)
        requires
            t.wf(),
            old(self)@[t.0 as int] > 0,
        ensures
            final(self)@ == old(self)@.update(t.0 as int, (old(self)@[t.0 as int] - 1) as u8),
    {
        self.0[t.0 as usize] = self.0[t.0 as usize] - 1;
    }

    pub fn is_empty(&self) -> (b: bool)
        ensures
            b == (forall|i: int| 0 <= i < 34 ==> self@[i] == 0),
    {
        let mut i: usize = 0;
        while i < 34
            invariant
                i <= 34,
                forall|k: int| 0 <= k < i ==> self@[k] == 0,
            decreases 34 - i,
        {
            if self.0[i] != 0 {
                assert(self@[i as int] != 0);
                return false;
            }
            i += 1;
        }
        true
    }

    pub fn inner(&self) -> (r: &[u8; 34])
        ensures
            r@ == self@,
    {
        &self.0
    }

    pub fn inner_mut(&mut self) -> (r: &mut [u8; 34])
        ensures
            r@ == old(self)@,
            final(self)@ == final(r)@,
    {
        &mut self.0
    }
}

impl Default for TileCounts {
    fn default() -> (c: Self)
        ensures
            forall|i: int| 0 <= i < 34 ==> c@[i] == 0,
    {
        TileCounts::new()
    }
}

} // verus!
