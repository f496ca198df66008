use vstd::prelude::*;
use crate::counts::count_kind;
use crate::model::DoraResult;
use crate::tile::{Suit, Tile, TileType};

verus! {

/// The red fives: copy 0 of 5m, 5p and 5s.
pub open spec fn spec_is_aka_dora(tile: Tile) -> bool {
    let k = tile.spec_tile_type().0;
    (k == 4 || k == 13 || k == 22) && tile.spec_copy_index() == 0
}

/// Whether the tile is a red five: one per number suit, copy 0 of its kind.
pub fn is_aka_dora(tile: Tile) -> (b: bool)
    ensures
        b == spec_is_aka_dora(tile),
{
    let k = tile.tile_type().0;
    if !(k == 4 || k == 13 || k == 22) {
        return false;
    }
    tile.copy_index() == 0
}

/// The dora that an indicator points at: the next rank of the same suit,
/// 9 wrapping to 1, winds E→S→W→N→E, dragons P→F→C→P.
pub open spec fn spec_dora_from_indicator(indicator: TileType) -> TileType {
    let k = indicator.0;
    if k < 27 {
        TileType(((k / 9) * 9 + (k % 9 + 1) % 9) as u8)
    } else if k < 31 {
        TileType((27 + (k - 26) % 4) as u8)
    } else {
        TileType((31 + (k - 30) % 3) as u8)
    }
}

/// The dora is the next tile of the indicator's own suit: for a number
/// tile the next rank with 9 wrapping to 1, for a wind the next wind with
/// North wrapping to East, for a dragon the next dragon with the last
/// wrapping to the first. It is never a tile of another suit.
pub proof fn lemma_dora_follows_the_indicator(indicator: TileType)
    requires
        indicator.wf(),
    ensures
        ({
            let d = spec_dora_from_indicator(indicator);
            &&& d.wf()
            &&& d.spec_suit() == indicator.spec_suit()
            &&& indicator.spec_is_number() ==> d.spec_rank() == indicator.spec_rank() % 9 + 1
            &&& indicator.spec_suit() == Suit::Wind ==> d.spec_rank() == indicator.spec_rank() % 4 + 1
            &&& indicator.spec_suit() == Suit::Dragon ==> d.spec_rank() == indicator.spec_rank() % 3
                + 1
        }),
{
    let k = indicator.0;
    if k < 9 {
    } else if k < 18 {
        assert(k / 9 == 1);
    } else if k < 27 {
        assert(k / 9 == 2);
    }
}

pub fn dora_from_indicator(indicator: TileType) -> (d: TileType)
    requires
        indicator.wf(),
    ensures
        d == spec_dora_from_indicator(indicator),
        d.wf(),
        d.spec_suit() == indicator.spec_suit(),
        indicator.spec_is_number() ==> d.spec_rank() == indicator.spec_rank() % 9 + 1,
{
    proof {
        lemma_dora_follows_the_indicator(indicator);
    }
    let rank = indicator.rank();
    match indicator.suit() {
        Suit::Man => TileType(rank % 9),
        Suit::Pin => TileType(9 + (rank % 9)),
        Suit::Sou => TileType(18 + (rank % 9)),
        Suit::Wind => TileType(27 + (rank % 4)),
        Suit::Dragon => TileType(31 + (rank % 3)),
    }
}

/// The tiles of `tiles` that the indicators `0..n` make dora, summed over
/// the indicators.
pub open spec fn dora_hits(tiles: Seq<Tile>, indicators: Seq<TileType>, n: int) -> int
    decreases n,
{
    if n <= 0 {
        0
    } else {
        dora_hits(tiles, indicators, n - 1) + count_kind(
            tiles,
            tiles.len() as int,
            spec_dora_from_indicator(indicators[n - 1]).0 as int,
        )
    }
}

/// The number of red fives among the first `n` tiles.
pub open spec fn aka_count(tiles: Seq<Tile>, n: int) -> int
    decreases n,
{
    if n <= 0 {
        0
    } else {
        aka_count(tiles, n - 1) + if spec_is_aka_dora(tiles[n - 1]) {
            1int
        } else {
            0int
        }
    }
}

proof fn lemma_aka_count_bounds(tiles: Seq<Tile>, n: int)
    requires
        0 <= n,
    ensures
        0 <= aka_count(tiles, n) <= n,
    decreases n,
{
    if n > 0 {
        lemma_aka_count_bounds(tiles, n - 1);
    }
}

proof fn lemma_dora_hits_monotone(tiles: Seq<Tile>, indicators: Seq<TileType>, n: int, m: int)
    requires
        0 <= n <= m,
    ensures
        dora_hits(tiles, indicators, n) <= dora_hits(tiles, indicators, m),
    decreases m - n,
{
    if n < m {
        lemma_dora_hits_monotone(tiles, indicators, n, m - 1);
        crate::counts::lemma_count_kind_bounds_any(tiles, tiles.len() as int, spec_dora_from_indicator(indicators[m - 1]).0 as int);
    }
}

/// How many tiles of the given kind there are.
fn count_of(tiles: &[Tile], k: TileType) -> (n: usize)
    ensures
        n == count_kind(tiles@, tiles@.len() as int, k.0 as int),
{
    let mut n: usize = 0;
    let mut i: usize = 0;
    while i < tiles.len()
        invariant
            i <= tiles@.len(),
            n == count_kind(tiles@, i as int, k.0 as int),
            n <= i,
        decreases tiles@.len() - i,
    {
        if tiles[i].tile_type() == k {
            n += 1;
        }
        i += 1;
    }
    n
}

/// Counts the dora of the indicators in the tiles.
fn count_dora(tiles: &[Tile], indicators: &[TileType]) -> (n: u8)
    requires
        tiles@.len() <= 255,
        dora_hits(tiles@, indicators@, indicators@.len() as int) <= 255,
        forall|i: int| 0 <= i < indicators@.len() ==> (#[trigger] indicators@[i]).wf(),
    ensures
        n == dora_hits(tiles@, indicators@, indicators@.len() as int),
{
    let mut total: u8 = 0;
    let mut i: usize = 0;
    while i < indicators.len()
        invariant
            i <= indicators@.len(),
            tiles@.len() <= 255,
            dora_hits(tiles@, indicators@, indicators@.len() as int) <= 255,
            forall|k: int| 0 <= k < indicators@.len() ==> (#[trigger] indicators@[k]).wf(),
            total == dora_hits(tiles@, indicators@, i as int),
        decreases indicators@.len() - i,
    {
        let d = dora_from_indicator(indicators[i]);
        let c = count_of(tiles, d);
        proof {
            lemma_dora_hits_monotone(tiles@, indicators@, i + 1, indicators@.len() as int);
            crate::counts::lemma_count_kind_bounds(tiles@, tiles@.len() as int, d.0 as int);
        }
        total = total + c as u8;
        i += 1;
    }
    total
}

/// The dora of a winning hand. `all_tiles` are the concealed tiles, the
/// called tiles and the winning tile; ura dora count only with riichi;
/// red fives always count.
pub fn calculate_dora(
    all_tiles: &[Tile],
    dora_indicators: &[TileType],
    ura_dora_indicators: &[TileType],
    is_riichi: bool,
) -> (r: DoraResult)
    requires
        all_tiles@.len() <= 255,
        forall|i: int| 0 <= i < dora_indicators@.len() ==> (#[trigger] dora_indicators@[i]).wf(),
        forall|i: int|
            0 <= i < ura_dora_indicators@.len() ==> (#[trigger] ura_dora_indicators@[i]).wf(),
        dora_hits(all_tiles@, dora_indicators@, dora_indicators@.len() as int) <= 255,
        is_riichi ==> dora_hits(all_tiles@, ura_dora_indicators@, ura_dora_indicators@.len() as int)
            <= 255,
    ensures
        r.dora == dora_hits(all_tiles@, dora_indicators@, dora_indicators@.len() as int),
        r.ura_dora == if is_riichi {
            dora_hits(all_tiles@, ura_dora_indicators@, ura_dora_indicators@.len() as int)
        } else {
            0
        },
        r.aka_dora == aka_count(all_tiles@, all_tiles@.len() as int),
{
    let mut result = DoraResult::default();
    result.dora = count_dora(all_tiles, dora_indicators);
    if is_riichi {
        result.ura_dora = count_dora(all_tiles, ura_dora_indicators);
    }
    let mut aka: u8 = 0;
    let mut i: usize = 0;
    while i < all_tiles.len()
        invariant
            i <= all_tiles@.len(),
            all_tiles@.len() <= 255,
            aka == aka_count(all_tiles@, i as int),
        decreases all_tiles@.len() - i,
    {
        proof {
            lemma_aka_count_bounds(all_tiles@, i as int);
        }
        if is_aka_dora(all_tiles[i]) {
            aka = aka + 1;
        }
        i += 1;
    }
    result.aka_dora = aka;
    result
}

} // verus!
