use vstd::prelude::*;
use crate::player::PlayerId;
use crate::scoring::{lemma_settlement_is_zero_sum, point_change};
use crate::declaration::{get_waiting_tiles, waiting_kinds};
use crate::tile::{Meld, MeldKind, Tile, TileType};

verus! {

/// The call shows kind `k` as an open triplet: a pon or an open kan
/// holding a tile of that kind.
pub open spec fn shows_open_triplet(m: Meld, k: int) -> bool {
    &&& (m.kind is Pon || m.kind is Minkan)
    &&& exists|j: int| 0 <= j < m.tiles@.len() && (#[trigger] m.tiles@[j]).spec_tile_type().0 == k
}

/// Some call shows kind `k` as an open triplet.
pub open spec fn has_open_triplet(melds: Seq<Meld>, k: int) -> bool {
    exists|i: int| 0 <= i < melds.len() && shows_open_triplet(#[trigger] melds[i], k)
}

/// Every kind in `lo..hi` is shown as an open triplet.
pub open spec fn kinds_open(melds: Seq<Meld>, lo: int, hi: int) -> bool {
    forall|k: int| lo <= k < hi ==> #[trigger] has_open_triplet(melds, k)
}

/// The seat liable (pao) for big dragons or big winds after an open call
/// of `called` from `from`: that seat when the calls now show all three
/// dragons (the called tile a dragon) or all four winds (the called tile a
/// wind) as open triplets; else the liability stays `current`.
pub open spec fn pao_after_call_spec(melds: Seq<Meld>, from: PlayerId, called: Tile, current: Option<usize>) -> Option<usize> {
    let t = called.spec_tile_type();
    if (kinds_open(melds, 31, 34) && t.spec_is_dragon()) || (kinds_open(melds, 27, 31) && t.spec_is_wind()) {
        Some(from.0)
    } else {
        current
    }
}

fn shows_open_triplet_exec(m: &Meld, k: u8) -> (b: bool)
    ensures
        b == shows_open_triplet(*m, k as int),
{
    match m.kind {
        MeldKind::Pon | MeldKind::Minkan => {},
        _ => {
            return false;
        },
    }
    let mut j: usize = 0;
    while j < m.tiles.len()
        invariant
            j <= m.tiles@.len(),
            m.kind is Pon || m.kind is Minkan,
            forall|x: int| 0 <= x < j ==> (#[trigger] m.tiles@[x]).spec_tile_type().0 != k,
        decreases m.tiles@.len() - j,
    {
        if m.tiles[j].tile_type().0 == k {
            assert(m.tiles@[j as int].spec_tile_type().0 == k);
            return true;
        }
        j += 1;
    }
    false
}

fn has_open_triplet_exec(melds: &[Meld], k: u8) -> (b: bool)
    ensures
        b == has_open_triplet(melds@, k as int),
{
    let mut i: usize = 0;
    while i < melds.len()
        invariant
            i <= melds@.len(),
            forall|x: int| 0 <= x < i ==> !shows_open_triplet(#[trigger] melds@[x], k as int),
        decreases melds@.len() - i,
    {
        if shows_open_triplet_exec(&melds[i], k) {
            return true;
        }
        i += 1;
    }
    false
}

fn kinds_open_exec(melds: &[Meld], lo: u8, hi: u8) -> (b: bool)
    requires
        lo <= hi,
    ensures
        b == kinds_open(melds@, lo as int, hi as int),
{
    let mut k: u8 = lo;
    while k < hi
        invariant
            lo <= k <= hi,
            forall|x: int| lo <= x < k ==> #[trigger] has_open_triplet(melds@, x),
        decreases hi - k,
    {
        if !has_open_triplet_exec(melds, k) {
            return false;
        }
        k += 1;
    }
    true
}

/// The liability after an open call (see `pao_after_call_spec`). Closed
/// and added kans never make a seat liable, so only pons and open kans
/// call this.
pub fn update_pao_after_open_call(
    melds: &[Meld],
    from_player: PlayerId,
    called_tile: Tile,
    current: Option<usize>,
) -> (r: Option<usize>)
    ensures
        r == pao_after_call_spec(melds@, from_player, called_tile, current),
{
    let t = called_tile.tile_type();
    let dragons = kinds_open_exec(melds, 31, 34);
    let winds = kinds_open_exec(melds, 27, 31);
    if (dragons && t.is_dragon()) || (winds && t.is_wind()) {
        Some(from_player.0)
    } else {
        current
    }
}

/// Why a ron by several players at once is refused.
#[derive(Debug, Clone, Copy, PartialEq, Eq, Structural)]
pub enum RonError {
    /// Nobody claimed the ron.
    NoWinner,
    /// The discarder cannot win on its own tile.
    DiscarderWins,
    /// A claimant's win check failed.
    InvalidRon,
}

/// The seat that paid the honba of a win: the liable seat when there is
/// one, else the discarder.
pub open spec fn honba_payer(pao: Option<usize>, discarder: PlayerId) -> int {
    match pao {
        Some(p) => p as int,
        None => discarder.0 as int,
    }
}

/// The change of `seat` for the winner at position `index` of a multiple
/// ron, from `c`, the change its own win check computed. The first winner
/// keeps it; every later one gives back the riichi sticks and the honba it
/// was credited, and the honba go back to the seat that paid them.
pub open spec fn multiple_ron_change(
    c: int,
    index: int,
    seat: int,
    winner: int,
    payer: int,
    riichi_sticks: int,
    honba: int,
) -> int {
    if index == 0 {
        c
    } else {
        c - (if seat == winner {
            riichi_sticks * 1000 + honba * 300
        } else {
            0
        }) + (if seat == payer {
            honba * 300
        } else {
            0
        })
    }
}

/// The claim at position `i` is refused: the discarder claims, or the
/// win check of the claimant failed.
pub open spec fn ron_refused(winners: Seq<PlayerId>, results: Seq<Option<[i32; 4]>>, discarder: PlayerId, i: int) -> bool {
    winners[i] == discarder || results[i] is None
}

/// The claim at position `i` is the first refused one.
pub open spec fn first_refused(winners: Seq<PlayerId>, results: Seq<Option<[i32; 4]>>, discarder: PlayerId, i: int) -> bool {
    &&& 0 <= i < winners.len()
    &&& ron_refused(winners, results, discarder, i)
    &&& forall|x: int| 0 <= x < i ==> !#[trigger] ron_refused(winners, results, discarder, x)
}

/// A seat of the table, if any.
pub open spec fn seat_or_none(p: Option<usize>) -> bool {
    p matches Some(x) ==> x < 4
}

/// The settlements fit in `i32` after the adjustment.
pub open spec fn ron_results_fit(results: Seq<Option<[i32; 4]>>, riichi_sticks: int, honba: int) -> bool {
    &&& riichi_sticks * 1000 + honba * 300 <= i32::MAX
    &&& forall|i: int, s: int|
        0 <= i < results.len() && 0 <= s < 4 && results[i] is Some ==> i32::MIN + riichi_sticks * 1000 + honba * 300
            <= #[trigger] results[i]->0[s] <= i32::MAX - honba * 300
}

/// Settles a ron claimed by several players on one discard. `winners` are
/// the claimants in answer order and `results[i]` the point changes of the
/// win check of `winners[i]`, none when it failed. Refused: no claimant,
/// or, at the first claim that fails, the discarder claiming or a failed
/// win check. Otherwise each winner's changes, adjusted so that the riichi
/// sticks and the honba on the table are paid once, to the first winner
/// (see `multiple_ron_change`).
pub fn execute_multiple_ron(
    winners: &[PlayerId],
    results: &[Option<[i32; 4]>],
    discarder: PlayerId,
    riichi_sticks: u32,
    honba: u32,
    pao_targets: [Option<usize>; 4],
) -> (r: Result<Vec<[i32; 4]>, RonError>)
    requires
        winners@.len() == results@.len(),
        forall|i: int| 0 <= i < winners@.len() ==> (#[trigger] winners@[i]).0 < 4,
        forall|s: int| 0 <= s < 4 ==> seat_or_none(#[trigger] pao_targets[s]),
        discarder.0 < 4,
        ron_results_fit(results@, riichi_sticks as int, honba as int),
    ensures
        winners@.len() == 0 ==> r == Err::<Vec<[i32; 4]>, RonError>(RonError::NoWinner),
        r is Ok <==> winners@.len() > 0 && forall|i: int|
            0 <= i < winners@.len() ==> !#[trigger] ron_refused(winners@, results@, discarder, i),
        match r {
            Err(e) => winners@.len() > 0 ==> exists|i: int|
                first_refused(winners@, results@, discarder, i) && e == (if winners@[i] == discarder {
                    RonError::DiscarderWins
                } else {
                    RonError::InvalidRon
                }),
            Ok(v) => v@.len() == winners@.len() && forall|i: int, s: int|
                0 <= i < v@.len() && 0 <= s < 4 ==> #[trigger] v@[i][s] == multiple_ron_change(
                    results@[i]->0[s] as int,
                    i,
                    s,
                    winners@[i].0 as int,
                    honba_payer(pao_targets[winners@[i].0 as int], discarder),
                    riichi_sticks as int,
                    honba as int,
                ),
        },
{
    if winners.len() == 0 {
        return Err(RonError::NoWinner);
    }
    let mut i: usize = 0;
    while i < winners.len()
        invariant
            i <= winners@.len(),
            winners@.len() == results@.len(),
            forall|x: int| 0 <= x < i ==> !#[trigger] ron_refused(winners@, results@, discarder, x),
        decreases winners@.len() - i,
    {
        if winners[i].0 == discarder.0 {
            assert(first_refused(winners@, results@, discarder, i as int));
            return Err(RonError::DiscarderWins);
        }
        if results[i].is_none() {
            assert(first_refused(winners@, results@, discarder, i as int));
            return Err(RonError::InvalidRon);
        }
        i += 1;
    }
    let sticks: i32 = (riichi_sticks * 1000) as i32;
    let honba_bonus: i32 = (honba * 300) as i32;
    let mut settled: Vec<[i32; 4]> = Vec::new();
    let mut i: usize = 0;
    while i < winners.len()
        invariant
            i <= winners@.len(),
            winners@.len() == results@.len(),
            forall|x: int| 0 <= x < winners@.len() ==> (#[trigger] winners@[x]).0 < 4,
            forall|s: int| 0 <= s < 4 ==> seat_or_none(#[trigger] pao_targets[s]),
            discarder.0 < 4,
            ron_results_fit(results@, riichi_sticks as int, honba as int),
            sticks == riichi_sticks * 1000,
            honba_bonus == honba * 300,
            forall|x: int| 0 <= x < winners@.len() ==> !#[trigger] ron_refused(winners@, results@, discarder, x),
            settled@.len() == i,
            forall|x: int, s: int|
                0 <= x < i && 0 <= s < 4 ==> #[trigger] settled@[x][s] == multiple_ron_change(
                    results@[x]->0[s] as int,
                    x,
                    s,
                    winners@[x].0 as int,
                    honba_payer(pao_targets[winners@[x].0 as int], discarder),
                    riichi_sticks as int,
                    honba as int,
                ),
        decreases winners@.len() - i,
    {
        assert(!ron_refused(winners@, results@, discarder, i as int));
        let ghost orig = results@[i as int]->0;
        let mut c: [i32; 4] = match results[i] {
            Some(c) => c,
            None => [0i32; 4],
        };
        assert(c == orig);
        assert(forall|s: int| 0 <= s < 4 ==> i32::MIN + riichi_sticks * 1000 + honba * 300 <= #[trigger] orig[s] <= i32::MAX
            - honba * 300);
        if i > 0 {
            let w = winners[i].0;
            c[w] = c[w] - sticks;
            c[w] = c[w] - honba_bonus;
            let payer = match pao_targets[w] {
                Some(p) => p,
                None => discarder.0,
            };
            assert(payer == honba_payer(pao_targets[w as int], discarder));
            c[payer] = c[payer] + honba_bonus;
        }
        settled.push(c);
        i += 1;
    }
    Ok(settled)
}

/// The change of `seat` for a later winner of a multiple ron on the
/// discard of `discarder`, from its own ron settlement.
pub open spec fn later_ron_change(
    han: int,
    fu: int,
    yakuman_count: int,
    winner: int,
    discarder: PlayerId,
    dealer: int,
    riichi_sticks: int,
    honba: int,
    index: int,
    seat: int,
) -> int {
    multiple_ron_change(
        point_change(han, fu, yakuman_count, winner, Some(discarder.0), dealer, riichi_sticks, honba, false, seat),
        index,
        seat,
        winner,
        honba_payer(None, discarder),
        riichi_sticks,
        honba,
    )
}

/// In a ron by several players, when no seat is liable for the hand, every
/// winner after the first is settled as if no riichi sticks and no honba
/// were on the table, so that its four changes add up to zero: the table's
/// sticks and honba are paid once.
pub proof fn lemma_later_winners_take_no_sticks(
    han: int,
    fu: int,
    yakuman_count: int,
    winner: int,
    discarder: PlayerId,
    dealer: int,
    riichi_sticks: int,
    honba: int,
    index: int,
)
    requires
        0 <= winner < 4,
        0 <= dealer < 4,
        discarder.0 < 4,
        discarder.0 != winner,
        index > 0,
    ensures
        forall|seat: int|
            0 <= seat < 4 ==> #[trigger] later_ron_change(
                han,
                fu,
                yakuman_count,
                winner,
                discarder,
                dealer,
                riichi_sticks,
                honba,
                index,
                seat,
            ) == point_change(han, fu, yakuman_count, winner, Some(discarder.0), dealer, 0, 0, false, seat),
        later_ron_change(han, fu, yakuman_count, winner, discarder, dealer, riichi_sticks, honba, index, 0)
            + later_ron_change(han, fu, yakuman_count, winner, discarder, dealer, riichi_sticks, honba, index, 1)
            + later_ron_change(han, fu, yakuman_count, winner, discarder, dealer, riichi_sticks, honba, index, 2)
            + later_ron_change(han, fu, yakuman_count, winner, discarder, dealer, riichi_sticks, honba, index, 3) == 0,
{
    lemma_settlement_is_zero_sum(han, fu, yakuman_count, winner, Some(discarder.0), dealer, 0, 0, false);
}

/// The furiten flags of a seat: a wait lies among its own discards
/// (`discard`), a wait was passed by this turn (`round`), a wait was passed
/// by after riichi (`riichi`).
#[derive(Debug, Clone, Copy, PartialEq, Eq, Structural)]
pub struct Furiten {
    pub discard: bool,
    pub round: bool,
    pub riichi: bool,
}

/// The hand waits on kind `k`.
pub open spec fn waits_on(hand: Seq<Tile>, open: int, k: TileType) -> bool {
    waiting_kinds(hand, open).contains(k)
}

/// A seat's flags after it lets `passed` go by: when the hand waits on
/// that kind, the riichi flag is raised if the seat is in riichi, the
/// flag of the turn otherwise; else they stay.
pub open spec fn furiten_after_pass_spec(f: Furiten, hand: Seq<Tile>, open: int, is_riichi: bool, passed: Tile) -> Furiten {
    if waits_on(hand, open, passed.spec_tile_type()) {
        if is_riichi {
            Furiten { riichi: true, ..f }
        } else {
            Furiten { round: true, ..f }
        }
    } else {
        f
    }
}

fn contains_kind(kinds: &Vec<TileType>, k: TileType) -> (b: bool)
    ensures
        b == kinds@.contains(k),
{
    let mut i: usize = 0;
    while i < kinds.len()
        invariant
            i <= kinds@.len(),
            forall|x: int| 0 <= x < i ==> kinds@[x] != k,
        decreases kinds@.len() - i,
    {
        if kinds[i].0 == k.0 {
            assert(kinds@[i as int] == k);
            return true;
        }
        i += 1;
    }
    false
}

/// A seat's flags after it lets a tile go by in a response window (see
/// `furiten_after_pass_spec`).
pub fn record_response_pass(
    furiten: Furiten,
    hand: &Vec<Tile>,
    open_melds: usize,
    is_riichi: bool,
    passed: Tile,
) -> (f: Furiten)
    requires
        hand@.len() < 200,
        open_melds <= 4,
        forall|i: int| 0 <= i < hand@.len() ==> (#[trigger] hand@[i]).wf(),
    ensures
        f == furiten_after_pass_spec(furiten, hand@, open_melds as int, is_riichi, passed),
{
    let waits = get_waiting_tiles(hand, open_melds);
    if contains_kind(&waits, passed.tile_type()) {
        if is_riichi {
            Furiten { riichi: true, ..furiten }
        } else {
            Furiten { round: true, ..furiten }
        }
    } else {
        furiten
    }
}

/// A seat's flags once its discards are checked: the discard flag says
/// whether a kind the hand waits on is among the kinds it has discarded.
pub open spec fn discard_furiten_spec(f: Furiten, hand: Seq<Tile>, open: int, discarded: Seq<TileType>) -> Furiten {
    Furiten {
        discard: exists|i: int| 0 <= i < discarded.len() && waits_on(hand, open, #[trigger] discarded[i]),
        ..f
    }
}

/// A seat's flags once its discards are checked (see
/// `discard_furiten_spec`).
pub fn update_discard_furiten(
    furiten: Furiten,
    hand: &Vec<Tile>,
    open_melds: usize,
    discarded: &Vec<TileType>,
) -> (f: Furiten)
    requires
        hand@.len() < 200,
        open_melds <= 4,
        forall|i: int| 0 <= i < hand@.len() ==> (#[trigger] hand@[i]).wf(),
    ensures
        f == discard_furiten_spec(furiten, hand@, open_melds as int, discarded@),
{
    let waits = get_waiting_tiles(hand, open_melds);
    let mut i: usize = 0;
    while i < discarded.len()
        invariant
            i <= discarded@.len(),
            waits@ == waiting_kinds(hand@, open_melds as int),
            forall|x: int| 0 <= x < i ==> !waits_on(hand@, open_melds as int, #[trigger] discarded@[x]),
        decreases discarded@.len() - i,
    {
        if contains_kind(&waits, discarded[i]) {
            return Furiten { discard: true, ..furiten };
        }
        i += 1;
    }
    Furiten { discard: false, ..furiten }
}

/// A kan of the seat holding kind `k`: the call a robbing ron on `k`
/// undoes.
pub open spec fn robbable_kan(m: Meld, k: TileType) -> bool {
    &&& (m.kind is Ankan || m.kind is Kakan || m.kind is Minkan)
    &&& exists|j: int| 0 <= j < m.tiles@.len() && (#[trigger] m.tiles@[j]).spec_tile_type() == k
}

/// The first kan holding `k`, at index `i`.
pub open spec fn first_robbable(melds: Seq<Meld>, k: TileType, i: int) -> bool {
    &&& 0 <= i < melds.len()
    &&& robbable_kan(melds[i], k)
    &&& forall|x: int| 0 <= x < i ==> !#[trigger] robbable_kan(melds[x], k)
}

fn robbable_kan_exec(m: &Meld, k: TileType) -> (b: bool)
    ensures
        b == robbable_kan(*m, k),
{
    match m.kind {
        MeldKind::Ankan | MeldKind::Kakan | MeldKind::Minkan => {},
        _ => {
            return false;
        },
    }
    let mut j: usize = 0;
    while j < m.tiles.len()
        invariant
            j <= m.tiles@.len(),
            m.kind is Ankan || m.kind is Kakan || m.kind is Minkan,
            forall|x: int| 0 <= x < j ==> (#[trigger] m.tiles@[x]).spec_tile_type() != k,
        decreases m.tiles@.len() - j,
    {
        if m.tiles[j].tile_type().0 == k.0 {
            assert(m.tiles@[j as int].spec_tile_type() == k);
            return true;
        }
        j += 1;
    }
    false
}

/// Undoes the kan that a robbing ron on kind `k` takes the tile of. The
/// first kan holding `k` leaves the calls; an added kan comes back as the
/// pon it was made from (its last tile taken off), appended after the
/// others, and nothing returns to the hand; the tiles of a closed or open
/// kan return to the hand and are handed back. `None`, with the calls
/// unchanged, when no kan holds `k`.
pub fn restore_robbed_kan(melds: &mut Vec<Meld>, k: TileType) -> (back: Option<Vec<Tile>>)
    ensures
        back is None <==> forall|i: int| 0 <= i < old(melds)@.len() ==> !#[trigger] robbable_kan(old(melds)@[i], k),
        back is None ==> final(melds)@ == old(melds)@,
        back matches Some(tiles) ==> exists|i: int|
            first_robbable(old(melds)@, k, i) && {
                let m = old(melds)@[i];
                let rest = old(melds)@.remove(i);
                if m.kind is Kakan {
                    &&& tiles@ == Seq::<Tile>::empty()
                    &&& final(melds)@.len() == rest.len() + 1
                    &&& final(melds)@.take(rest.len() as int) == rest
                    &&& final(melds)@.last().kind == MeldKind::Pon
                    &&& final(melds)@.last().tiles@ == m.tiles@.drop_last()
                    &&& final(melds)@.last().from_player == m.from_player
                } else {
                    &&& tiles@ == m.tiles@
                    &&& final(melds)@ == rest
                }
            },
{
    let mut i: usize = 0;
    while i < melds.len()
        invariant
            i <= melds@.len(),
            melds@ == old(melds)@,
            forall|x: int| 0 <= x < i ==> !#[trigger] robbable_kan(melds@[x], k),
        decreases melds@.len() - i,
    {
        if robbable_kan_exec(&melds[i], k) {
            assert(first_robbable(old(melds)@, k, i as int));
            let ghost rest = old(melds)@.remove(i as int);
            let meld = melds.remove(i);
            match meld.kind {
                MeldKind::Kakan => {
                    let from_player = meld.from_player;
                    let mut tiles = meld.tiles;
                    let _ = tiles.pop();
                    melds.push(Meld { kind: MeldKind::Pon, tiles, from_player });
                    assert(melds@.take(rest.len() as int) =~= rest);
                    return Some(Vec::new());
                },
                _ => {
                    return Some(meld.tiles);
                },
            }
        }
        i += 1;
    }
    None
}

} // verus!
