use vstd::prelude::*;
use crate::counts::TileCounts;
use crate::evaluation::meld_tiles;
use crate::player::PlayerId;
use crate::tile::{Meld, Tile, TileType};

verus! {

/// The tiles a player can see: own calls, all discards, others' calls,
/// and the dora indicators, counted by kind.
#[derive(Debug, Clone, Copy)]
pub struct VisibleTiles {
    pub hand_melds: TileCounts,
    pub all_discards: TileCounts,
    pub all_melds: TileCounts,
    pub dora_indicators: TileCounts,
}

/// The tiles of groups `0..n` flattened, in order.
pub open spec fn flatten_groups(groups: Seq<Vec<Tile>>, n: int) -> Seq<Tile>
    decreases n,
{
    if n <= 0 {
        seq![]
    } else {
        flatten_groups(groups, n - 1) + groups[n - 1]@
    }
}

/// Each count is `base` plus the tiles of `tiles` of that kind.
pub open spec fn counts_add(base: Seq<u8>, tiles: Seq<Tile>, result: Seq<u8>) -> bool {
    forall|k: int|
        0 <= k < 34 ==> result[k] == base[k] + crate::counts::count_kind(tiles, tiles.len() as int, k)
}

fn add_tiles(counts: &mut TileCounts, tiles: &Vec<Tile>)
    requires
        forall|i: int| 0 <= i < tiles@.len() ==> (#[trigger] tiles@[i]).wf(),
        forall|k: int|
            0 <= k < 34 ==> old(counts)@[k] + crate::counts::count_kind(
                tiles@,
                tiles@.len() as int,
                k,
            ) <= 255,
    ensures
        counts_add(old(counts)@, tiles@, final(counts)@),
{
    let ghost start = counts@;
    let mut i: usize = 0;
    while i < tiles.len()
        invariant
            i <= tiles@.len(),
            forall|j: int| 0 <= j < tiles@.len() ==> (#[trigger] tiles@[j]).wf(),
            forall|k: int|
                0 <= k < 34 ==> start[k] + crate::counts::count_kind(tiles@, tiles@.len() as int, k)
                    <= 255,
            forall|k: int|
                0 <= k < 34 ==> counts@[k] == start[k] + crate::counts::count_kind(
                    tiles@,
                    i as int,
                    k,
                ),
        decreases tiles@.len() - i,
    {
        let t = tiles[i].tile_type();
        proof {
            crate::counts::lemma_count_kind_prefix(tiles@, i as int + 1, tiles@.len() as int, t.0 as int);
        }
        counts.inc(t);
        i += 1;
    }
}

impl VisibleTiles {
    pub open spec fn all_zero(&self) -> bool {
        forall|k: int|
            0 <= k < 34 ==> self.hand_melds@[k] == 0 && self.all_discards@[k] == 0
                && self.all_melds@[k] == 0 && self.dora_indicators@[k] == 0
    }

    pub fn new() -> (v: Self)
        ensures
            v.all_zero(),
    {
        VisibleTiles {
            hand_melds: TileCounts::new(),
            all_discards: TileCounts::new(),
            all_melds: TileCounts::new(),
            dora_indicators: TileCounts::new(),
        }
    }

    /// Counts what is visible: the player's own calls, the others' calls,
    /// every discard and the dora indicators.
    pub fn from_data(
        player_melds: &[Vec<Tile>],
        other_melds: &[Vec<Tile>],
        all_discards: &[Tile],
        dora_indicator_types: &[TileType],
    ) -> (v: Self)
        requires
            flatten_groups(player_melds@, player_melds@.len() as int).len() <= 255,
            flatten_groups(other_melds@, other_melds@.len() as int).len() <= 255,
            all_discards@.len() <= 255,
            dora_indicator_types@.len() <= 255,
            forall|i: int, j: int|
                0 <= i < player_melds@.len() && 0 <= j < player_melds@[i]@.len()
                    ==> (#[trigger] player_melds@[i]@[j]).wf(),
            forall|i: int, j: int|
                0 <= i < other_melds@.len() && 0 <= j < other_melds@[i]@.len()
                    ==> (#[trigger] other_melds@[i]@[j]).wf(),
            forall|i: int| 0 <= i < all_discards@.len() ==> (#[trigger] all_discards@[i]).wf(),
            forall|i: int|
                0 <= i < dora_indicator_types@.len() ==> (#[trigger] dora_indicator_types@[i]).wf(),
        ensures
            forall|k: int|
                0 <= k < 34 ==> v.hand_melds@[k] == crate::counts::count_kind(
                    flatten_groups(player_melds@, player_melds@.len() as int),
                    flatten_groups(player_melds@, player_melds@.len() as int).len() as int,
                    k,
                ),
            forall|k: int|
                0 <= k < 34 ==> v.all_melds@[k] == crate::counts::count_kind(
                    flatten_groups(other_melds@, other_melds@.len() as int),
                    flatten_groups(other_melds@, other_melds@.len() as int).len() as int,
                    k,
                ),
            forall|k: int|
                0 <= k < 34 ==> v.all_discards@[k] == crate::counts::count_kind(
                    all_discards@,
                    all_discards@.len() as int,
                    k,
                ),
            forall|k: int|
                0 <= k < 34 ==> v.dora_indicators@[k] == crate::counts::count_type(
                    dora_indicator_types@,
                    dora_indicator_types@.len() as int,
                    k,
                ),
    {
        let mut visible = VisibleTiles::new();
        visible.hand_melds = count_groups(player_melds);
        visible.all_melds = count_groups(other_melds);
        visible.all_discards = TileCounts::from_tiles(all_discards);
        let ind = crate::counts::counts_of_types(dora_indicator_types);
        visible.dora_indicators = ind;
        visible
    }
}

/// Counts the tiles of all the groups.
fn count_groups(groups: &[Vec<Tile>]) -> (c: TileCounts)
    requires
        flatten_groups(groups@, groups@.len() as int).len() <= 255,
        forall|i: int, j: int|
            0 <= i < groups@.len() && 0 <= j < groups@[i]@.len() ==> (#[trigger] groups@[i]@[j]).wf(),
    ensures
        forall|k: int|
            0 <= k < 34 ==> c@[k] == crate::counts::count_kind(
                flatten_groups(groups@, groups@.len() as int),
                flatten_groups(groups@, groups@.len() as int).len() as int,
                k,
            ),
{
    let mut counts = TileCounts::new();
    let mut i: usize = 0;
    proof {
        lemma_flatten_len_monotone(groups@, 0, groups@.len() as int);
    }
    while i < groups.len()
        invariant
            i <= groups@.len(),
            flatten_groups(groups@, groups@.len() as int).len() <= 255,
            forall|a: int, b: int|
                0 <= a < groups@.len() && 0 <= b < groups@[a]@.len() ==> (#[trigger] groups@[a]@[b]).wf(),
            forall|k: int|
                0 <= k < 34 ==> counts@[k] == crate::counts::count_kind(
                    flatten_groups(groups@, i as int),
                    flatten_groups(groups@, i as int).len() as int,
                    k,
                ),
        decreases groups@.len() - i,
    {
        let ghost before = flatten_groups(groups@, i as int);
        let ghost g = groups@[i as int]@;
        proof {
            lemma_flatten_len_monotone(groups@, i + 1, groups@.len() as int);
            assert(flatten_groups(groups@, i + 1) == before + g);
            assert forall|k: int| 0 <= k < 34 implies counts@[k] + crate::counts::count_kind(g, g.len() as int, k) <= 255 by {
                crate::counts::lemma_count_kind_concat(before, g, k);
                crate::counts::lemma_count_kind_bounds((before + g), (before + g).len() as int, k);
            }
        }
        add_tiles(&mut counts, &groups[i]);
        proof {
            assert forall|k: int| 0 <= k < 34 implies counts@[k] == crate::counts::count_kind(
                flatten_groups(groups@, i + 1),
                flatten_groups(groups@, i + 1).len() as int,
                k,
            ) by {
                crate::counts::lemma_count_kind_concat(before, g, k);
            }
        }
        i += 1;
    }
    counts
}

proof fn lemma_flatten_len_monotone(groups: Seq<Vec<Tile>>, n: int, m: int)
    requires
        0 <= n <= m,
    ensures
        flatten_groups(groups, n).len() <= flatten_groups(groups, m).len(),
    decreases m - n,
{
    if n < m {
        lemma_flatten_len_monotone(groups, n, m - 1);
    }
}

/// How many copies of a kind are still unseen: four minus those in the
/// hand and everything visible, never below zero.
pub open spec fn remaining_copies_spec(k: int, hand: Seq<u8>, v: VisibleTiles) -> int {
    let used = hand[k] + v.hand_melds@[k] + v.all_discards@[k] + v.all_melds@[k]
        + v.dora_indicators@[k];
    if used < 4 {
        4 - used
    } else {
        0
    }
}

pub fn remaining_copies_for(tile_type: TileType, hand_counts: &TileCounts, visible: &VisibleTiles) -> (n: usize)
    requires
        tile_type.wf(),
    ensures
        n == remaining_copies_spec(tile_type.0 as int, hand_counts@, *visible),
{
    let used = hand_counts.get(tile_type) as usize + visible.hand_melds.get(tile_type) as usize
        + visible.all_discards.get(tile_type) as usize + visible.all_melds.get(tile_type) as usize
        + visible.dora_indicators.get(tile_type) as usize;
    if used < 4 {
        4 - used
    } else {
        0
    }
}

/// The tiles of a seat's calls, call by call.
pub open spec fn seat_call_tiles(melds: Seq<Meld>) -> Seq<Tile> {
    meld_tiles(melds, melds.len() as int)
}

/// The tiles of the calls of the seats below `n` other than `player`, seat
/// by seat.
pub open spec fn other_call_tiles(melds: Seq<Vec<Meld>>, player: int, n: int) -> Seq<Tile>
    decreases n,
{
    if n <= 0 {
        seq![]
    } else {
        other_call_tiles(melds, player, n - 1) + if n - 1 == player {
            Seq::<Tile>::empty()
        } else {
            seat_call_tiles(melds[n - 1]@)
        }
    }
}

/// Appending a group leaves the flattening of the earlier groups as it was.
proof fn lemma_flatten_push(groups: Seq<Vec<Tile>>, g: Vec<Tile>, n: int)
    requires
        0 <= n <= groups.len(),
    ensures
        flatten_groups(groups.push(g), n) == flatten_groups(groups, n),
    decreases n,
{
    if n > 0 {
        lemma_flatten_push(groups, g, n - 1);
        assert(groups.push(g)[n - 1] == groups[n - 1]);
    }
}

fn call_tiles(melds: &Vec<Meld>) -> (v: Vec<Tile>)
    requires
        forall|i: int, j: int|
            0 <= i < melds@.len() && 0 <= j < melds@[i].tiles@.len() ==> (#[trigger] melds@[i].tiles@[j]).wf(),
    ensures
        v@ == seat_call_tiles(melds@),
        forall|j: int| 0 <= j < v@.len() ==> (#[trigger] v@[j]).wf(),
{
    let mut v: Vec<Tile> = Vec::new();
    let mut i: usize = 0;
    while i < melds.len()
        invariant
            i <= melds@.len(),
            v@ == meld_tiles(melds@, i as int),
            forall|x: int, j: int|
                0 <= x < melds@.len() && 0 <= j < melds@[x].tiles@.len() ==> (#[trigger] melds@[x].tiles@[j]).wf(),
            forall|j: int| 0 <= j < v@.len() ==> (#[trigger] v@[j]).wf(),
        decreases melds@.len() - i,
    {
        let tiles = &melds[i].tiles;
        assert(forall|j: int| 0 <= j < tiles@.len() ==> (#[trigger] tiles@[j]).wf());
        let ghost before = v@;
        let mut j: usize = 0;
        while j < tiles.len()
            invariant
                j <= tiles@.len(),
                v@ == before + tiles@.take(j as int),
                forall|x: int| 0 <= x < tiles@.len() ==> (#[trigger] tiles@[x]).wf(),
                forall|x: int| 0 <= x < v@.len() ==> (#[trigger] v@[x]).wf(),
            decreases tiles@.len() - j,
        {
            v.push(tiles[j]);
            assert(tiles@.take(j + 1) =~= tiles@.take(j as int).push(tiles@[j as int]));
            j += 1;
        }
        assert(tiles@.take(tiles@.len() as int) =~= tiles@);
        i += 1;
    }
    v
}

/// The tiles `player` can see at the table, counted by kind: its own calls,
/// the calls of the other seats, every discard and the dora indicators.
pub fn build_visible_tiles(
    melds: &[Vec<Meld>; 4],
    discards: &[Vec<Tile>; 4],
    dora_indicators: &[TileType],
    player: PlayerId,
) -> (v: VisibleTiles)
    requires
        player.0 < 4,
        seat_call_tiles(melds@[player.0 as int]@).len() <= 255,
        other_call_tiles(melds@, player.0 as int, 4).len() <= 255,
        flatten_groups(discards@, 4).len() <= 255,
        dora_indicators@.len() <= 255,
        forall|s: int, i: int, j: int|
            0 <= s < 4 && 0 <= i < melds@[s]@.len() && 0 <= j < melds@[s]@[i].tiles@.len()
                ==> (#[trigger] melds@[s]@[i].tiles@[j]).wf(),
        forall|s: int, i: int| 0 <= s < 4 && 0 <= i < discards@[s]@.len() ==> (#[trigger] discards@[s]@[i]).wf(),
        forall|i: int| 0 <= i < dora_indicators@.len() ==> (#[trigger] dora_indicators@[i]).wf(),
    ensures
        forall|k: int|
            0 <= k < 34 ==> #[trigger] v.hand_melds@[k] == crate::counts::count_kind(
                seat_call_tiles(melds@[player.0 as int]@),
                seat_call_tiles(melds@[player.0 as int]@).len() as int,
                k,
            ),
        forall|k: int|
            0 <= k < 34 ==> #[trigger] v.all_melds@[k] == crate::counts::count_kind(
                other_call_tiles(melds@, player.0 as int, 4),
                other_call_tiles(melds@, player.0 as int, 4).len() as int,
                k,
            ),
        forall|k: int|
            0 <= k < 34 ==> #[trigger] v.all_discards@[k] == crate::counts::count_kind(
                flatten_groups(discards@, 4),
                flatten_groups(discards@, 4).len() as int,
                k,
            ),
        forall|k: int|
            0 <= k < 34 ==> #[trigger] v.dora_indicators@[k] == crate::counts::count_type(
                dora_indicators@,
                dora_indicators@.len() as int,
                k,
            ),
{
    let own_tiles = call_tiles(&melds[player.0]);
    let mut own: Vec<Vec<Tile>> = Vec::new();
    own.push(own_tiles);
    assert(flatten_groups(own@, 1) =~= seat_call_tiles(melds@[player.0 as int]@)) by {
        assert(flatten_groups(own@, 0) =~= Seq::<Tile>::empty());
    }
    let mut others: Vec<Vec<Tile>> = Vec::new();
    let mut s: usize = 0;
    while s < 4
        invariant
            s <= 4,
            player.0 < 4,
            flatten_groups(others@, others@.len() as int) == other_call_tiles(melds@, player.0 as int, s as int),
            forall|x: int, i: int, j: int|
                0 <= x < 4 && 0 <= i < melds@[x]@.len() && 0 <= j < melds@[x]@[i].tiles@.len()
                    ==> (#[trigger] melds@[x]@[i].tiles@[j]).wf(),
            forall|i: int, j: int| 0 <= i < others@.len() && 0 <= j < others@[i]@.len() ==> (#[trigger] others@[i]@[j]).wf(),
        decreases 4 - s,
    {
        if s != player.0 {
            let g = call_tiles(&melds[s]);
            proof {
                lemma_flatten_push(others@, g, others@.len() as int);
            }
            others.push(g);
        } else {
            assert(other_call_tiles(melds@, player.0 as int, s + 1) =~= other_call_tiles(
                melds@,
                player.0 as int,
                s as int,
            ));
        }
        s += 1;
    }
    let mut seen: Vec<Tile> = Vec::new();
    let mut s: usize = 0;
    while s < 4
        invariant
            s <= 4,
            seen@ == flatten_groups(discards@, s as int),
            forall|x: int, i: int| 0 <= x < 4 && 0 <= i < discards@[x]@.len() ==> (#[trigger] discards@[x]@[i]).wf(),
            forall|j: int| 0 <= j < seen@.len() ==> (#[trigger] seen@[j]).wf(),
        decreases 4 - s,
    {
        let d = &discards[s];
        assert(forall|x: int| 0 <= x < d@.len() ==> (#[trigger] d@[x]).wf());
        let ghost before = seen@;
        let mut j: usize = 0;
        while j < d.len()
            invariant
                j <= d@.len(),
                seen@ == before + d@.take(j as int),
                forall|x: int| 0 <= x < d@.len() ==> (#[trigger] d@[x]).wf(),
                forall|x: int| 0 <= x < seen@.len() ==> (#[trigger] seen@[x]).wf(),
            decreases d@.len() - j,
        {
            seen.push(d[j]);
            assert(d@.take(j + 1) =~= d@.take(j as int).push(d@[j as int]));
            j += 1;
        }
        assert(d@.take(d@.len() as int) =~= d@);
        s += 1;
    }
    VisibleTiles::from_data(own.as_slice(), others.as_slice(), seen.as_slice(), dora_indicators)
}

} // verus!
