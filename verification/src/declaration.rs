use vstd::prelude::*;
use crate::counts::{
    count_kind, lemma_count_kind_bounds, lemma_count_kind_bounds_any, lemma_count_kind_prefix, TileCounts,
};
use crate::shanten::{
    lemma_counts_total, lemma_sum_first_bump, lookup_spec, sum_first, tile_kind_counts, ShantenCalculator,
};
use crate::calls::{kind_of, kind_tiles, tiles_of_kind};
use crate::shape::{is_win_counts_with_open_melds, win_shape_counts};
use crate::channel::{TenpaiInfo, WaitInfo};
use crate::tile::{Tile, TileType};
use crate::visibility::{remaining_copies_for, remaining_copies_spec, VisibleTiles};

verus! {

/// Riichi may be declared by a player not yet in riichi, with a concealed
/// hand, at least 1000 points to stake, and at least four tiles left to draw.
pub open spec fn may_declare_riichi(is_riichi: bool, is_menzen: bool, points: i32, remaining_tiles: int) -> bool {
    !is_riichi && is_menzen && points >= 1000 && remaining_tiles >= 4
}

/// The concealed tiles with the drawn tile, if any, at the end.
pub open spec fn hand_with_drawn(hand: Seq<Tile>, drawn: Option<Tile>) -> Seq<Tile> {
    match drawn {
        Some(t) => hand.push(t),
        None => hand,
    }
}

/// Discarding one copy of `t` from `tiles` leaves a ready hand (shanten 0).
pub open spec fn keeps_tenpai(tiles: Seq<Tile>, t: Tile) -> bool {
    let c = tile_kind_counts(tiles, tiles.len() as int);
    let k = t.spec_tile_type().0 as int;
    lookup_spec(c.update(k, (c[k] - 1) as u8)) == 0
}

/// The discards that declare riichi: every tile of the hand (the drawn one
/// included) whose discard leaves it ready, in hand order; none when riichi
/// may not be declared.
pub open spec fn riichi_discards_spec(
    hand: Seq<Tile>,
    drawn: Option<Tile>,
    is_riichi: bool,
    is_menzen: bool,
    points: i32,
    remaining_tiles: int,
) -> Seq<Tile> {
    if !may_declare_riichi(is_riichi, is_menzen, points, remaining_tiles) {
        seq![]
    } else {
        let tiles = hand_with_drawn(hand, drawn);
        tiles.filter(|t: Tile| keeps_tenpai(tiles, t))
    }
}

/// The tiles a player may discard to declare riichi (see
/// `riichi_discards_spec`): the tiles themselves, so that a red five and a
/// plain five stay apart.
pub fn get_riichi_discard_options(
    hand: &[Tile],
    drawn: Option<Tile>,
    is_riichi: bool,
    is_menzen: bool,
    points: i32,
    remaining_tiles: usize,
) -> (options: Vec<Tile>)
    requires
        hand@.len() < 255,
        forall|i: int| 0 <= i < hand@.len() ==> (#[trigger] hand@[i]).wf(),
        drawn matches Some(t) ==> t.wf(),
    ensures
        options@ == riichi_discards_spec(hand@, drawn, is_riichi, is_menzen, points, remaining_tiles as int),
{
    let mut options: Vec<Tile> = Vec::new();
    if is_riichi || !is_menzen || points < 1000 || remaining_tiles < 4 {
        return options;
    }
    let calc = ShantenCalculator::new();
    let mut tiles: Vec<Tile> = Vec::new();
    let mut h: usize = 0;
    while h < hand.len()
        invariant
            h <= hand@.len(),
            tiles@ == hand@.take(h as int),
        decreases hand@.len() - h,
    {
        tiles.push(hand[h]);
        assert(hand@.take(h + 1) =~= hand@.take(h as int).push(hand@[h as int]));
        h += 1;
    }
    assert(hand@.take(hand@.len() as int) =~= hand@);
    if let Some(t) = drawn {
        tiles.push(t);
    }
    assert(tiles@ == hand_with_drawn(hand@, drawn));
    let counts = TileCounts::from_tiles(tiles.as_slice());
    let ghost all = tiles@;
    let ghost pred = |t: Tile| keeps_tenpai(all, t);
    proof {
        lemma_counts_total(all, all.len() as int);
        assert(counts@ =~= tile_kind_counts(all, all.len() as int));
    }
    let mut i: usize = 0;
    while i < tiles.len()
        invariant
            i <= tiles@.len(),
            tiles@ == all,
            all.len() < 256,
            forall|j: int| 0 <= j < all.len() ==> (#[trigger] all[j]).wf(),
            counts@ == tile_kind_counts(all, all.len() as int),
            sum_first(counts@, 34) == all.len(),
            pred == (|t: Tile| keeps_tenpai(all, t)),
            options@ == all.take(i as int).filter(pred),
        decreases tiles@.len() - i,
    {
        let tile = tiles[i];
        let k = tile.tile_type();
        assert(all[i as int].wf());
        let mut after = counts;
        proof {
            lemma_count_kind_bounds(all, all.len() as int, k.0 as int);
            lemma_count_kind_bounds_any(all, i as int, k.0 as int);
            lemma_count_kind_prefix(all, i + 1, all.len() as int, k.0 as int);
            assert(count_kind(all, all.len() as int, k.0 as int) >= 1);
        }
        after.dec(k);
        proof {
            lemma_sum_first_bump(after@, counts@, k.0 as int, 34);
        }
        let s = calc.lookup(&after);
        proof {
            reveal(Seq::filter);
            assert(all.take(i + 1).drop_last() =~= all.take(i as int));
            assert(all.take(i + 1).last() == tile);
        }
        if s == 0 {
            options.push(tile);
        }
        i += 1;
    }
    assert(all.take(all.len() as int) =~= all);
    options
}

/// Riichi can be declared: it may be, and some discard leaves the hand ready.
pub fn can_declare_riichi(
    hand: &[Tile],
    drawn: Option<Tile>,
    is_riichi: bool,
    is_menzen: bool,
    points: i32,
    remaining_tiles: usize,
) -> (b: bool)
    requires
        hand@.len() < 255,
        forall|i: int| 0 <= i < hand@.len() ==> (#[trigger] hand@[i]).wf(),
        drawn matches Some(t) ==> t.wf(),
    ensures
        b == (may_declare_riichi(is_riichi, is_menzen, points, remaining_tiles as int)
            && riichi_discards_spec(hand@, drawn, is_riichi, is_menzen, points, remaining_tiles as int).len() > 0),
{
    if is_riichi || !is_menzen || points < 1000 || remaining_tiles < 4 {
        return false;
    }
    let options = get_riichi_discard_options(hand, drawn, is_riichi, is_menzen, points, remaining_tiles);
    options.len() > 0
}

/// For each kind, whether one more of it completes the hand of counts `h`
/// next to `open` calls.
pub open spec fn waits_of(h: Seq<u8>, open: int) -> Seq<bool> {
    Seq::new(34, |t: int| win_shape_counts(h.update(t, (h[t] + 1) as u8), open))
}

/// The closed kans allowed after riichi: the kan must take the drawn tile
/// with three of its kind from the hand, and the waits of the hand must be
/// exactly the same after it (with one call more) as before. It is offered
/// as the first hand tile of that kind. None before riichi, without a
/// drawn tile, or when the hand waits on nothing.
pub open spec fn riichi_ankan_spec(hand: Seq<Tile>, open: int, is_riichi: bool, drawn: Option<Tile>) -> Seq<Tile> {
    let h = tile_kind_counts(hand, hand.len() as int);
    let before = waits_of(h, open);
    if !is_riichi || !before.contains(true) {
        seq![]
    } else {
        match drawn {
            None => seq![],
            Some(d) => {
                let k = kind_of(d);
                if h[k] >= 3 && before == waits_of(h.update(k, (h[k] - 3) as u8), open + 1) {
                    seq![tiles_of_kind(hand, k)[0]]
                } else {
                    seq![]
                }
            },
        }
    }
}

/// The count of a kind is the number of its tiles.
proof fn lemma_count_is_kind_tiles(tiles: Seq<Tile>, n: int, k: int)
    requires
        0 <= n <= tiles.len(),
    ensures
        count_kind(tiles, n, k) == tiles_of_kind(tiles.take(n), k).len(),
    decreases n,
{
    reveal(Seq::filter);
    if n > 0 {
        lemma_count_is_kind_tiles(tiles, n - 1, k);
        assert(tiles.take(n).drop_last() =~= tiles.take(n - 1));
        assert(tiles.take(n).last() == tiles[n - 1]);
    } else {
        assert(tiles.take(0) =~= Seq::<Tile>::empty());
    }
}

fn waits_exec(counts: &TileCounts, open: usize) -> (w: Vec<bool>)
    requires
        forall|t: int| 0 <= t < 34 ==> counts@[t] < 255,
    ensures
        w@ == waits_of(counts@, open as int),
{
    let mut w: Vec<bool> = Vec::new();
    let mut t: usize = 0;
    while t < 34
        invariant
            t <= 34,
            forall|x: int| 0 <= x < 34 ==> counts@[x] < 255,
            w@.len() == t,
            forall|x: int| 0 <= x < t ==> w@[x] == win_shape_counts(counts@.update(x, (counts@[x] + 1) as u8), open as int),
        decreases 34 - t,
    {
        let mut more = *counts;
        more.inc(TileType(t as u8));
        assert(more@ == counts@.update(t as int, (counts@[t as int] + 1) as u8));
        w.push(is_win_counts_with_open_melds(&more, open));
        t += 1;
    }
    assert(w@ =~= waits_of(counts@, open as int));
    w
}

fn same_waits(a: &Vec<bool>, b: &Vec<bool>) -> (r: bool)
    requires
        a@.len() == 34,
        b@.len() == 34,
    ensures
        r == (a@ == b@),
{
    let mut i: usize = 0;
    while i < 34
        invariant
            i <= 34,
            a@.len() == 34,
            b@.len() == 34,
            forall|j: int| 0 <= j < i ==> a@[j] == b@[j],
        decreases 34 - i,
    {
        if a[i] != b[i] {
            return false;
        }
        i += 1;
    }
    assert(a@ =~= b@);
    true
}

/// The closed kans allowed after riichi (see `riichi_ankan_spec`).
pub fn get_riichi_ankan_options(hand: &Vec<Tile>, open_melds: usize, is_riichi: bool, drawn: Option<Tile>) -> (options: Vec<Tile>)
    requires
        hand@.len() < 200,
        open_melds < 4,
        forall|i: int| 0 <= i < hand@.len() ==> (#[trigger] hand@[i]).wf(),
        drawn matches Some(t) ==> t.wf(),
    ensures
        options@ == riichi_ankan_spec(hand@, open_melds as int, is_riichi, drawn),
{
    let mut options: Vec<Tile> = Vec::new();
    if !is_riichi {
        return options;
    }
    let counts = TileCounts::from_tiles(hand.as_slice());
    let ghost h = tile_kind_counts(hand@, hand@.len() as int);
    proof {
        lemma_counts_total(hand@, hand@.len() as int);
        assert forall|k: int| 0 <= k < 34 implies count_kind(hand@, hand@.len() as int, k) <= hand@.len() by {
            lemma_count_kind_bounds(hand@, hand@.len() as int, k);
        }
        assert(counts@ =~= h);
    }
    let before = waits_exec(&counts, open_melds);
    let mut any = false;
    let mut t: usize = 0;
    while t < 34
        invariant
            t <= 34,
            before@.len() == 34,
            any == exists|x: int| 0 <= x < t && before@[x],
        decreases 34 - t,
    {
        if before[t] {
            any = true;
        }
        t += 1;
    }
    if !any {
        proof {
            if before@.contains(true) {
                let x = choose|x: int| 0 <= x < before@.len() && before@[x] == true;
                assert(before@[x]);
            }
        }
        return options;
    }
    let d = match drawn {
        Some(d) => d,
        None => {
            return options;
        },
    };
    let k = d.tile_type();
    if counts.get(k) < 3 {
        return options;
    }
    let mut after = counts;
    after.set(k, counts.get(k) - 3);
    let later = waits_exec(&after, open_melds + 1);
    if same_waits(&before, &later) {
        let same = kind_tiles(hand, k.0);
        proof {
            lemma_count_is_kind_tiles(hand@, hand@.len() as int, k.0 as int);
            assert(hand@.take(hand@.len() as int) =~= hand@);
        }
        options.push(same[0]);
    }
    options
}

/// The kinds `< n` marked in `w`, in kind order.
pub open spec fn marked_kinds(w: Seq<bool>, n: int) -> Seq<TileType>
    decreases n,
{
    if n <= 0 {
        seq![]
    } else {
        marked_kinds(w, n - 1) + if w[n - 1] {
            seq![TileType((n - 1) as u8)]
        } else {
            seq![]
        }
    }
}

/// The kinds the concealed tiles wait on next to `open` calls, in kind order.
pub open spec fn waiting_kinds(hand: Seq<Tile>, open: int) -> Seq<TileType> {
    marked_kinds(waits_of(tile_kind_counts(hand, hand.len() as int), open), 34)
}

fn counts_of_hand(hand: &Vec<Tile>) -> (c: TileCounts)
    requires
        hand@.len() < 200,
        forall|i: int| 0 <= i < hand@.len() ==> (#[trigger] hand@[i]).wf(),
    ensures
        c@ == tile_kind_counts(hand@, hand@.len() as int),
        forall|t: int| 0 <= t < 34 ==> c@[t] < 255,
{
    let counts = TileCounts::from_tiles(hand.as_slice());
    proof {
        assert forall|k: int| 0 <= k < 34 implies count_kind(hand@, hand@.len() as int, k) <= hand@.len() by {
            lemma_count_kind_bounds(hand@, hand@.len() as int, k);
        }
        assert(counts@ =~= tile_kind_counts(hand@, hand@.len() as int));
    }
    counts
}

/// The kinds the hand waits on (see `waiting_kinds`).
pub fn get_waiting_tiles(hand: &Vec<Tile>, open_melds: usize) -> (waits: Vec<TileType>)
    requires
        hand@.len() < 200,
        open_melds <= 4,
        forall|i: int| 0 <= i < hand@.len() ==> (#[trigger] hand@[i]).wf(),
    ensures
        waits@ == waiting_kinds(hand@, open_melds as int),
{
    let counts = counts_of_hand(hand);
    let marks = waits_exec(&counts, open_melds);
    let mut waits: Vec<TileType> = Vec::new();
    let mut t: usize = 0;
    while t < 34
        invariant
            t <= 34,
            marks@.len() == 34,
            waits@ == marked_kinds(marks@, t as int),
        decreases 34 - t,
    {
        if marks[t] {
            waits.push(TileType(t as u8));
        }
        t += 1;
    }
    waits
}

/// The ready-hand summary of a player: none when the hand waits on
/// nothing; else each wait in kind order with the copies of it still
/// unseen and whether winning on it lacks a yaku (`no_yaku`), and whether
/// the player is furiten.
pub open spec fn tenpai_info_spec(
    hand: Seq<Tile>,
    open: int,
    visible: VisibleTiles,
    no_yaku: Seq<bool>,
    is_furiten: bool,
    r: Option<TenpaiInfo>,
) -> bool {
    let waits = waiting_kinds(hand, open);
    let h = tile_kind_counts(hand, hand.len() as int);
    if waits.len() == 0 {
        r is None
    } else {
        r matches Some(info) && info.is_furiten == is_furiten && info.waits@.len() == waits.len() && forall|i: int|
            0 <= i < waits.len() ==> (#[trigger] info.waits@[i]).tile_type == waits[i] && info.waits@[i].remaining
                == remaining_copies_spec(waits[i].0 as int, h, visible) && info.waits@[i].is_no_yaku
                == no_yaku[waits[i].0 as int]
    }
}

proof fn lemma_marked_kinds_valid(w: Seq<bool>, n: int)
    requires
        0 <= n <= 34,
    ensures
        forall|i: int| 0 <= i < marked_kinds(w, n).len() ==> (#[trigger] marked_kinds(w, n)[i]).0 < n,
    decreases n,
{
    if n > 0 {
        lemma_marked_kinds_valid(w, n - 1);
        let prev = marked_kinds(w, n - 1);
        let cur = marked_kinds(w, n);
        assert forall|i: int| 0 <= i < cur.len() implies (#[trigger] cur[i]).0 < n by {
            if i < prev.len() {
                assert(cur[i] == prev[i]);
            }
        }
    }
}

/// The ready-hand summary of a player (see `tenpai_info_spec`).
pub fn tenpai_info(
    hand: &Vec<Tile>,
    open_melds: usize,
    visible: &VisibleTiles,
    no_yaku: &[bool; 34],
    is_furiten: bool,
) -> (r: Option<TenpaiInfo>)
    requires
        hand@.len() < 200,
        open_melds <= 4,
        forall|i: int| 0 <= i < hand@.len() ==> (#[trigger] hand@[i]).wf(),
    ensures
        tenpai_info_spec(hand@, open_melds as int, *visible, no_yaku@, is_furiten, r),
{
    let waits = get_waiting_tiles(hand, open_melds);
    if waits.len() == 0 {
        return None;
    }
    let counts = counts_of_hand(hand);
    proof {
        lemma_marked_kinds_valid(waits_of(tile_kind_counts(hand@, hand@.len() as int), open_melds as int), 34);
    }
    let mut infos: Vec<WaitInfo> = Vec::new();
    let mut i: usize = 0;
    while i < waits.len()
        invariant
            i <= waits@.len(),
            waits@ == waiting_kinds(hand@, open_melds as int),
            counts@ == tile_kind_counts(hand@, hand@.len() as int),
            forall|j: int| 0 <= j < waits@.len() ==> (#[trigger] waits@[j]).0 < 34,
            infos@.len() == i,
            forall|j: int|
                0 <= j < i ==> (#[trigger] infos@[j]).tile_type == waits@[j] && infos@[j].remaining
                    == remaining_copies_spec(waits@[j].0 as int, counts@, *visible) && infos@[j].is_no_yaku
                    == no_yaku@[waits@[j].0 as int],
        decreases waits@.len() - i,
    {
        let t = waits[i];
        assert(waits@[i as int].0 < 34);
        let remaining = remaining_copies_for(t, &counts, visible);
        infos.push(WaitInfo { tile_type: t, remaining, is_no_yaku: no_yaku[t.0 as usize] });
        i += 1;
    }
    Some(TenpaiInfo { waits: infos, is_furiten })
}

/// A seat's riichi: declared (its declaration tile not yet through the
/// response window), accepted, whether it counts as double riichi, and the
/// seat's points.
#[derive(Debug, Clone, Copy, PartialEq, Eq, Structural)]
pub struct RiichiState {
    pub declared: bool,
    pub is_riichi: bool,
    pub double_riichi: bool,
    pub points: i32,
}

/// Why a riichi declaration is refused.
#[derive(Debug, Clone, Copy, PartialEq, Eq, Structural)]
pub enum RiichiError {
    /// The seat has declared or is in riichi already.
    AlreadyDeclared,
    /// A riichi stick costs 1000 points.
    NotEnoughPoints,
}

/// Records a declaration: refused once declared or in riichi, and below
/// 1000 points; else the seat is declared, and `double_riichi` (whether
/// this is the seat's first discard with no call made, decided by the
/// caller from the round's log) is kept. No points move yet.
pub fn apply_riichi_event(state: &mut RiichiState, double_riichi: bool) -> (r: Result<(), RiichiError>)
    ensures
        (old(state).declared || old(state).is_riichi) ==> r == Err::<(), RiichiError>(RiichiError::AlreadyDeclared)
            && *final(state) == *old(state),
        !(old(state).declared || old(state).is_riichi) && old(state).points < 1000 ==> r == Err::<(), RiichiError>(
            RiichiError::NotEnoughPoints,
        ) && *final(state) == *old(state),
        !(old(state).declared || old(state).is_riichi) && old(state).points >= 1000 ==> r is Ok && *final(state)
            == (RiichiState { declared: true, double_riichi, ..*old(state) }),
{
    if state.declared || state.is_riichi {
        return Err(RiichiError::AlreadyDeclared);
    }
    if state.points < 1000 {
        return Err(RiichiError::NotEnoughPoints);
    }
    state.double_riichi = double_riichi;
    state.declared = true;
    Ok(())
}

/// The state after acceptance: a declared seat not yet in riichi pays
/// 1000 points, which go on the table as a stick, and is in riichi; any
/// other seat is left as it was.
pub open spec fn accept_spec(s: RiichiState, sticks: int) -> (RiichiState, int) {
    if s.is_riichi || !s.declared {
        (s, sticks)
    } else {
        (RiichiState { points: (s.points - 1000) as i32, is_riichi: true, ..s }, sticks + 1)
    }
}

/// Accepts a declaration once its tile has passed the response window
/// (see `accept_spec`).
pub fn accept_riichi(state: &mut RiichiState, riichi_sticks: &mut u32)
    requires
        old(state).declared && !old(state).is_riichi ==> old(state).points - 1000 >= i32::MIN && *old(riichi_sticks)
            < u32::MAX,
    ensures
        (*final(state), *final(riichi_sticks) as int) == accept_spec(*old(state), *old(riichi_sticks) as int),
{
    if state.is_riichi || !state.declared {
        return;
    }
    state.points = state.points - 1000;
    state.is_riichi = true;
    *riichi_sticks = *riichi_sticks + 1;
}

/// Acceptance moves points onto the table and nowhere else: the seat's
/// points and the sticks' worth together stay the same; and it takes
/// effect once, a second acceptance changing nothing.
pub proof fn lemma_acceptance_keeps_the_points(s: RiichiState, sticks: int)
    requires
        s.points >= i32::MIN + 1000,
    ensures
        accept_spec(s, sticks).0.points + 1000 * accept_spec(s, sticks).1 == s.points + 1000 * sticks,
        accept_spec(accept_spec(s, sticks).0, accept_spec(s, sticks).1) == accept_spec(s, sticks),
        s.declared ==> accept_spec(s, sticks).0.is_riichi,
{
}

} // verus!
