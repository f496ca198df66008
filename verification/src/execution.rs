use vstd::prelude::*;
use vstd::multiset::Multiset;
use crate::calls::ResponseAction;
use crate::counts::count_kind;
use crate::declaration::{get_riichi_ankan_options, riichi_ankan_spec};
use crate::player::PlayerId;
use crate::tile::{Meld, MeldKind, Tile, TileType};

verus! {

broadcast use vstd::seq_lib::group_to_multiset_ensures;

/// Why a seat's move on its own hand is refused.
#[derive(Debug, Clone, Copy, PartialEq, Eq, Structural)]
pub enum ExecError {
    /// The kind was just called and may not be discarded at once (kuikae).
    Kuikae,
    /// A seat in riichi may only discard the tile it drew.
    RiichiDrawnOnly,
    /// The tile is not in the hand.
    TileNotInHand(Tile),
    /// No kan on the last tile of the wall.
    LastTile,
    /// The hand and the drawn tile do not hold four of the kind.
    NotFourOfAKind,
    /// Four kans are already on the table.
    KanLimit,
    /// In riichi a closed kan must keep the waits.
    RiichiKanChangesWaits,
    /// An added kan needs a pon.
    NotAPon,
    /// The added tile is not of the pon's kind.
    KindMismatch,
    /// Only a pon, a chi or an open kan takes tiles from the hand.
    NotACall,
}

/// The hand with the drawn tile, if any, taken in.
pub open spec fn with_drawn(hand: Multiset<Tile>, drawn: Option<Tile>) -> Multiset<Tile> {
    match drawn {
        Some(d) => hand.insert(d),
        None => hand,
    }
}

/// The outcome of discarding `tile`: refused when its kind is forbidden
/// right after a call, or when a seat in riichi discards anything but its
/// drawn tile; the drawn tile leaves without touching the hand; else the
/// drawn tile joins the hand and `tile` leaves it, refused when it is not
/// there.
pub open spec fn discard_result(
    hand: Multiset<Tile>,
    drawn: Option<Tile>,
    tile: Tile,
    kuikae: Seq<TileType>,
    is_riichi: bool,
) -> Result<(), ExecError> {
    if kuikae.contains(tile.spec_tile_type()) {
        Err(ExecError::Kuikae)
    } else if is_riichi && drawn is Some && drawn != Some(tile) {
        Err(ExecError::RiichiDrawnOnly)
    } else if drawn == Some(tile) || with_drawn(hand, drawn).count(tile) > 0 {
        Ok(())
    } else {
        Err(ExecError::TileNotInHand(tile))
    }
}

/// The hand after discarding `tile` (see `discard_result`); a refusal for
/// the missing tile leaves the drawn tile in the hand.
pub open spec fn hand_after_discard(
    hand: Multiset<Tile>,
    drawn: Option<Tile>,
    tile: Tile,
    kuikae: Seq<TileType>,
    is_riichi: bool,
) -> Multiset<Tile> {
    if kuikae.contains(tile.spec_tile_type()) || (is_riichi && drawn is Some && drawn != Some(tile)) || drawn == Some(
        tile,
    ) {
        hand
    } else {
        with_drawn(hand, drawn).remove(tile)
    }
}

fn kind_listed(kinds: &Vec<TileType>, k: TileType) -> (b: bool)
    ensures
        b == kinds@.contains(k),
{
    let mut i: usize = 0;
    while i < kinds.len()
        invariant
            i <= kinds@.len(),
            forall|x: int| 0 <= x < i ==> kinds@[x] != k,
        decreases kinds@.len() - i,
    {
        if kinds[i].0 == k.0 {
            assert(kinds@[i as int] == k);
            return true;
        }
        i += 1;
    }
    false
}

/// The position of the first copy of `tile` in the hand, if any.
fn find_tile(hand: &Vec<Tile>, tile: Tile) -> (r: Option<usize>)
    ensures
        match r {
            Some(i) => i < hand@.len() && hand@[i as int] == tile,
            None => !hand@.contains(tile),
        },
{
    let mut i: usize = 0;
    while i < hand.len()
        invariant
            i <= hand@.len(),
            forall|x: int| 0 <= x < i ==> hand@[x] != tile,
        decreases hand@.len() - i,
    {
        if hand[i].0 == tile.0 {
            return Some(i);
        }
        i += 1;
    }
    None
}

/// Discards `tile` from the hand of the seat to move, whose drawn tile is
/// `drawn` (see `discard_result` and `hand_after_discard`).
pub fn discard(
    hand: &mut Vec<Tile>,
    drawn: Option<Tile>,
    tile: Tile,
    kuikae: &Vec<TileType>,
    is_riichi: bool,
) -> (r: Result<(), ExecError>)
    ensures
        r == discard_result(old(hand)@.to_multiset(), drawn, tile, kuikae@, is_riichi),
        final(hand)@.to_multiset() == hand_after_discard(
            old(hand)@.to_multiset(),
            drawn,
            tile,
            kuikae@,
            is_riichi,
        ),
{
    if kind_listed(kuikae, tile.tile_type()) {
        return Err(ExecError::Kuikae);
    }
    if is_riichi {
        if let Some(d) = drawn {
            if d.0 != tile.0 {
                return Err(ExecError::RiichiDrawnOnly);
            }
        }
    }
    if let Some(d) = drawn {
        if d.0 == tile.0 {
            return Ok(());
        }
        hand.push(d);
    }
    assert(hand@.to_multiset() == with_drawn(old(hand)@.to_multiset(), drawn));
    match find_tile(hand, tile) {
        Some(i) => {
            assert(hand@.contains(tile));
            hand.remove(i);
            Ok(())
        },
        None => {
            assert(hand@.to_multiset().count(tile) == 0);
            Err(ExecError::TileNotInHand(tile))
        },
    }
}

/// Takes the tiles `ts` out of the hand one by one, stopping at the first
/// one that is missing: what is left, and the missing tile if any.
pub open spec fn take_tiles(hand: Multiset<Tile>, ts: Seq<Tile>) -> (Multiset<Tile>, Option<Tile>)
    decreases ts.len(),
{
    if ts.len() == 0 {
        (hand, None)
    } else if hand.count(ts[0]) > 0 {
        take_tiles(hand.remove(ts[0]), ts.drop_first())
    } else {
        (hand, Some(ts[0]))
    }
}

fn take_from_hand(hand: &mut Vec<Tile>, ts: &Vec<Tile>) -> (missing: Option<Tile>)
    ensures
        (final(hand)@.to_multiset(), missing) == take_tiles(old(hand)@.to_multiset(), ts@),
{
    let mut i: usize = 0;
    assert(ts@.skip(0) =~= ts@);
    while i < ts.len()
        invariant
            i <= ts@.len(),
            take_tiles(old(hand)@.to_multiset(), ts@) == take_tiles(hand@.to_multiset(), ts@.skip(i as int)),
        decreases ts@.len() - i,
    {
        let t = ts[i];
        assert(ts@.skip(i as int).drop_first() =~= ts@.skip(i + 1));
        assert(ts@.skip(i as int)[0] == t);
        match find_tile(hand, t) {
            Some(j) => {
                assert(hand@.contains(t));
                let ghost before = hand@;
                hand.remove(j);
                assert(hand@.to_multiset() == before.to_multiset().remove(t));
            },
            None => {
                assert(hand@.to_multiset().count(t) == 0);
                return Some(t);
            },
        }
        i += 1;
    }
    assert(ts@.skip(i as int) =~= Seq::<Tile>::empty());
    None
}

/// The hand tiles a call takes: two for a pon or a chi, three for an open
/// kan; none for a pass or a ron.
pub open spec fn call_hand_tiles(action: ResponseAction) -> Seq<Tile> {
    match action {
        ResponseAction::Pon { hand_tiles } => seq![hand_tiles[0], hand_tiles[1]],
        ResponseAction::Chi { hand_tiles } => seq![hand_tiles[0], hand_tiles[1]],
        ResponseAction::Minkan { hand_tiles } => seq![hand_tiles[0], hand_tiles[1], hand_tiles[2]],
        _ => seq![],
    }
}

/// The kind of call made by the answer.
pub open spec fn call_meld_kind(action: ResponseAction) -> MeldKind {
    match action {
        ResponseAction::Chi { .. } => MeldKind::Chi,
        ResponseAction::Minkan { .. } => MeldKind::Minkan,
        _ => MeldKind::Pon,
    }
}

/// The outcome of calling the discard with `action`: refused for a pass
/// or a ron, which take no tiles; for an open kan when four kans are on
/// the table; and at the first hand tile of the call that is missing.
pub open spec fn call_result(hand: Multiset<Tile>, action: ResponseAction, kan_count: int) -> Result<(), ExecError> {
    if action is Pass || action is Ron {
        Err(ExecError::NotACall)
    } else if action is Minkan && kan_count >= 4 {
        Err(ExecError::KanLimit)
    } else {
        match take_tiles(hand, call_hand_tiles(action)).1 {
            Some(t) => Err(ExecError::TileNotInHand(t)),
            None => Ok(()),
        }
    }
}

/// The hand after the call: the call's hand tiles taken out up to the
/// first missing one, unless the call was refused before.
pub open spec fn hand_after_call(hand: Multiset<Tile>, action: ResponseAction, kan_count: int) -> Multiset<Tile> {
    if action is Pass || action is Ron || (action is Minkan && kan_count >= 4) {
        hand
    } else {
        take_tiles(hand, call_hand_tiles(action)).0
    }
}

/// Calls the discard `discarded` of `discarder` with a pon, a chi or an
/// open kan (see `call_result`, `hand_after_call`). On success the new call
/// holds the hand tiles and then the called tile, and records the
/// discarder; a refused call adds none.
pub fn execute_call(
    hand: &mut Vec<Tile>,
    melds: &mut Vec<Meld>,
    action: ResponseAction,
    discarded: Tile,
    discarder: PlayerId,
    kan_count: usize,
) -> (r: Result<(), ExecError>)
    ensures
        r == call_result(old(hand)@.to_multiset(), action, kan_count as int),
        final(hand)@.to_multiset() == hand_after_call(old(hand)@.to_multiset(), action, kan_count as int),
        r is Err ==> final(melds)@ == old(melds)@,
        r is Ok ==> {
            &&& final(melds)@.len() == old(melds)@.len() + 1
            &&& final(melds)@.take(old(melds)@.len() as int) == old(melds)@
            &&& final(melds)@.last().kind == call_meld_kind(action)
            &&& final(melds)@.last().tiles@ == call_hand_tiles(action).push(discarded)
            &&& final(melds)@.last().from_player == Some(discarder)
        },
{
    let (kind, taken) = match action {
        ResponseAction::Pon { hand_tiles } => (MeldKind::Pon, vec![hand_tiles[0], hand_tiles[1]]),
        ResponseAction::Chi { hand_tiles } => (MeldKind::Chi, vec![hand_tiles[0], hand_tiles[1]]),
        ResponseAction::Minkan { hand_tiles } => {
            if kan_count >= 4 {
                return Err(ExecError::KanLimit);
            }
            (MeldKind::Minkan, vec![hand_tiles[0], hand_tiles[1], hand_tiles[2]])
        },
        _ => {
            return Err(ExecError::NotACall);
        },
    };
    assert(taken@ == call_hand_tiles(action));
    if let Some(t) = take_from_hand(hand, &taken) {
        return Err(ExecError::TileNotInHand(t));
    }
    let mut tiles = taken;
    tiles.push(discarded);
    let ghost before = melds@;
    melds.push(Meld { kind, tiles, from_player: Some(discarder) });
    assert(melds@.take(before.len() as int) =~= before);
    Ok(())
}

/// The hand with the drawn tile, if any, appended.
pub open spec fn hand_with_drawn(hand: Seq<Tile>, drawn: Option<Tile>) -> Seq<Tile> {
    match drawn {
        Some(d) => hand.push(d),
        None => hand,
    }
}

/// Splits the first `n` tiles into those that stay in the hand and the
/// first four of kind `k`, which form a closed kan; both in hand order.
pub open spec fn kan_split(s: Seq<Tile>, n: int, k: int) -> (Seq<Tile>, Seq<Tile>)
    decreases n,
{
    if n <= 0 {
        (seq![], seq![])
    } else {
        let prev = kan_split(s, n - 1, k);
        if s[n - 1].spec_tile_type().0 == k && prev.1.len() < 4 {
            (prev.0, prev.1.push(s[n - 1]))
        } else {
            (prev.0.push(s[n - 1]), prev.1)
        }
    }
}

/// The kan takes the first four tiles of the kind, or all of them when
/// there are fewer; the rest stay, and nothing is lost or added.
pub proof fn lemma_kan_split(s: Seq<Tile>, n: int, k: int)
    requires
        0 <= n <= s.len(),
    ensures
        kan_split(s, n, k).1.len() == if count_kind(s, n, k) < 4 {
            count_kind(s, n, k)
        } else {
            4
        },
        forall|j: int| 0 <= j < kan_split(s, n, k).1.len() ==> (#[trigger] kan_split(s, n, k).1[j]).spec_tile_type().0 == k,
        kan_split(s, n, k).0.to_multiset().add(kan_split(s, n, k).1.to_multiset()) =~= s.take(n).to_multiset(),
    decreases n,
{
    broadcast use vstd::multiset::group_multiset_axioms;
    if n == 0 {
        assert(s.take(0) =~= Seq::<Tile>::empty());
    } else {
        lemma_kan_split(s, n - 1, k);
        let prev = kan_split(s, n - 1, k);
        assert(s.take(n) =~= s.take(n - 1).push(s[n - 1]));
        let cur = kan_split(s, n, k);
        assert forall|j: int| 0 <= j < cur.1.len() implies (#[trigger] cur.1[j]).spec_tile_type().0 == k by {
            if j < prev.1.len() {
                assert(cur.1[j] == prev.1[j]);
            }
        }
        if s[n - 1].spec_tile_type().0 == k && prev.1.len() < 4 {
            assert(cur.0.to_multiset().add(cur.1.to_multiset()) =~= prev.0.to_multiset().add(
                prev.1.to_multiset(),
            ).insert(s[n - 1]));
        } else {
            assert(cur.0.to_multiset().add(cur.1.to_multiset()) =~= prev.0.to_multiset().add(
                prev.1.to_multiset(),
            ).insert(s[n - 1]));
        }
    }
}

fn count_of_kind(hand: &Vec<Tile>, k: u8) -> (n: usize)
    requires
        hand@.len() < usize::MAX,
    ensures
        n == count_kind(hand@, hand@.len() as int, k as int),
        n <= hand@.len(),
{
    let mut n: usize = 0;
    let mut i: usize = 0;
    while i < hand.len()
        invariant
            i <= hand@.len(),
            hand@.len() < usize::MAX,
            n == count_kind(hand@, i as int, k as int),
            n <= i,
        decreases hand@.len() - i,
    {
        if hand[i].tile_type().0 == k {
            n += 1;
        }
        i += 1;
    }
    n
}

/// The outcome of a closed kan of the kind of `tile`: refused on the last
/// tile of the wall; when the hand and the drawn tile hold fewer than four
/// of the kind; when four kans are on the table; and in riichi, unless the
/// kan is one that keeps the waits (see `riichi_ankan_spec`).
pub open spec fn ankan_result(
    hand: Seq<Tile>,
    open: int,
    drawn: Option<Tile>,
    tile: Tile,
    is_riichi: bool,
    tiles_left: int,
    kan_count: int,
) -> Result<(), ExecError> {
    let k = tile.spec_tile_type();
    let options = riichi_ankan_spec(hand, open, is_riichi, drawn);
    if tiles_left == 0 {
        Err(ExecError::LastTile)
    } else if count_kind(hand, hand.len() as int, k.0 as int) + (if drawn matches Some(d) && d.spec_tile_type() == k {
        1int
    } else {
        0int
    }) < 4 {
        Err(ExecError::NotFourOfAKind)
    } else if kan_count >= 4 {
        Err(ExecError::KanLimit)
    } else if is_riichi && !(exists|i: int| 0 <= i < options.len() && (#[trigger] options[i]).spec_tile_type() == k) {
        Err(ExecError::RiichiKanChangesWaits)
    } else {
        Ok(())
    }
}

/// Declares a closed kan of the kind of `tile` (see `ankan_result`). The
/// drawn tile joins the hand first; then the first four tiles of the kind,
/// in hand order, leave it and form the kan (see `kan_split`). A refused
/// kan changes nothing.
pub fn execute_ankan(
    hand: &mut Vec<Tile>,
    melds: &mut Vec<Meld>,
    drawn: Option<Tile>,
    tile: Tile,
    is_riichi: bool,
    tiles_left: usize,
    kan_count: usize,
) -> (r: Result<(), ExecError>)
    requires
        old(hand)@.len() < 199,
        forall|i: int| 0 <= i < old(hand)@.len() ==> (#[trigger] old(hand)@[i]).wf(),
        drawn matches Some(d) ==> d.wf(),
        is_riichi ==> old(melds)@.len() <= kan_count,
    ensures
        r == ankan_result(
            old(hand)@,
            old(melds)@.len() as int,
            drawn,
            tile,
            is_riichi,
            tiles_left as int,
            kan_count as int,
        ),
        r is Err ==> final(hand)@ == old(hand)@ && final(melds)@ == old(melds)@,
        r is Ok ==> {
            let full = hand_with_drawn(old(hand)@, drawn);
            let split = kan_split(full, full.len() as int, tile.spec_tile_type().0 as int);
            &&& final(hand)@ == split.0
            &&& final(melds)@.len() == old(melds)@.len() + 1
            &&& final(melds)@.take(old(melds)@.len() as int) == old(melds)@
            &&& final(melds)@.last().kind == MeldKind::Ankan
            &&& final(melds)@.last().tiles@ == split.1
            &&& final(melds)@.last().from_player is None
            &&& split.1.len() == 4
            &&& forall|j: int| 0 <= j < 4 ==> (#[trigger] split.1[j]).spec_tile_type() == tile.spec_tile_type()
            &&& split.0.to_multiset().add(split.1.to_multiset()) == full.to_multiset()
        },
{
    let k = tile.tile_type();
    if tiles_left == 0 {
        return Err(ExecError::LastTile);
    }
    let in_hand = count_of_kind(hand, k.0);
    let from_drawn: usize = match drawn {
        Some(d) => if d.tile_type().0 == k.0 {
            1
        } else {
            0
        },
        None => 0,
    };
    if in_hand + from_drawn < 4 {
        return Err(ExecError::NotFourOfAKind);
    }
    if kan_count >= 4 {
        return Err(ExecError::KanLimit);
    }
    if is_riichi {
        let options = get_riichi_ankan_options(hand, melds.len(), is_riichi, drawn);
        let mut found = false;
        let mut i: usize = 0;
        while i < options.len()
            invariant
                i <= options@.len(),
                found == exists|j: int| 0 <= j < i && (#[trigger] options@[j]).spec_tile_type() == k,
            decreases options@.len() - i,
        {
            if options[i].tile_type().0 == k.0 {
                found = true;
            }
            i += 1;
        }
        if !found {
            return Err(ExecError::RiichiKanChangesWaits);
        }
    }
    let ghost full = hand_with_drawn(old(hand)@, drawn);
    let mut all: Vec<Tile> = Vec::new();
    let mut i: usize = 0;
    while i < hand.len()
        invariant
            i <= hand@.len(),
            hand@ == old(hand)@,
            all@ == hand@.take(i as int),
        decreases hand@.len() - i,
    {
        all.push(hand[i]);
        i += 1;
    }
    if let Some(d) = drawn {
        all.push(d);
    }
    assert(all@ =~= full);
    let mut kept: Vec<Tile> = Vec::new();
    let mut taken: Vec<Tile> = Vec::new();
    let mut i: usize = 0;
    while i < all.len()
        invariant
            i <= all@.len(),
            (kept@, taken@) == kan_split(all@, i as int, k.0 as int),
        decreases all@.len() - i,
    {
        let t = all[i];
        if t.tile_type().0 == k.0 && taken.len() < 4 {
            taken.push(t);
        } else {
            kept.push(t);
        }
        i += 1;
    }
    proof {
        lemma_kan_split(full, full.len() as int, k.0 as int);
        assert(full.take(full.len() as int) =~= full);
        if let Some(d) = drawn {
            crate::counts::lemma_count_kind_concat(old(hand)@, seq![d], k.0 as int);
            assert(old(hand)@.push(d) =~= old(hand)@ + seq![d]);
            assert(count_kind(seq![d], 0, k.0 as int) == 0);
            assert(seq![d][0] == d);
            assert(count_kind(seq![d], 1, k.0 as int) == (if d.spec_tile_type() == k {
                1int
            } else {
                0int
            }));
        }
        assert(count_kind(full, full.len() as int, k.0 as int) >= 4);
    }
    *hand = kept;
    let ghost before = melds@;
    melds.push(Meld { kind: MeldKind::Ankan, tiles: taken, from_player: None });
    assert(melds@.take(before.len() as int) =~= before);
    Ok(())
}

/// The outcome of adding `tile` to the pon at `meld_index`: refused on
/// the last tile of the wall; when that call is not a pon, or `tile` not
/// of its kind; when four kans are on the table; and when, the drawn tile
/// taken in, the hand lacks `tile`.
pub open spec fn kakan_result(
    hand: Multiset<Tile>,
    melds: Seq<Meld>,
    meld_index: int,
    drawn: Option<Tile>,
    tile: Tile,
    tiles_left: int,
    kan_count: int,
) -> Result<(), ExecError> {
    let m = melds[meld_index];
    if tiles_left == 0 {
        Err(ExecError::LastTile)
    } else if !(m.kind is Pon) {
        Err(ExecError::NotAPon)
    } else if tile.spec_tile_type() != m.tiles@[0].spec_tile_type() {
        Err(ExecError::KindMismatch)
    } else if kan_count >= 4 {
        Err(ExecError::KanLimit)
    } else if with_drawn(hand, drawn).count(tile) == 0 {
        Err(ExecError::TileNotInHand(tile))
    } else {
        Ok(())
    }
}

/// The hand after an added kan: unchanged when refused before the drawn
/// tile is taken in; else the drawn tile joins it and `tile` leaves it.
pub open spec fn hand_after_kakan(
    hand: Multiset<Tile>,
    melds: Seq<Meld>,
    meld_index: int,
    drawn: Option<Tile>,
    tile: Tile,
    tiles_left: int,
    kan_count: int,
) -> Multiset<Tile> {
    let m = melds[meld_index];
    if tiles_left == 0 || !(m.kind is Pon) || tile.spec_tile_type() != m.tiles@[0].spec_tile_type() || kan_count >= 4 {
        hand
    } else {
        with_drawn(hand, drawn).remove(tile)
    }
}

/// Adds `tile` to the pon at `meld_index` (see `kakan_result`,
/// `hand_after_kakan`): on success that call becomes an added kan holding
/// its tiles and then `tile`, from the same seat; the other calls stay.
pub fn execute_kakan(
    hand: &mut Vec<Tile>,
    melds: &mut Vec<Meld>,
    meld_index: usize,
    drawn: Option<Tile>,
    tile: Tile,
    tiles_left: usize,
    kan_count: usize,
) -> (r: Result<(), ExecError>)
    requires
        meld_index < old(melds)@.len(),
        old(melds)@[meld_index as int].tiles@.len() > 0,
    ensures
        r == kakan_result(
            old(hand)@.to_multiset(),
            old(melds)@,
            meld_index as int,
            drawn,
            tile,
            tiles_left as int,
            kan_count as int,
        ),
        final(hand)@.to_multiset() == hand_after_kakan(
            old(hand)@.to_multiset(),
            old(melds)@,
            meld_index as int,
            drawn,
            tile,
            tiles_left as int,
            kan_count as int,
        ),
        r is Err ==> final(melds)@ == old(melds)@,
        r is Ok ==> {
            let m = old(melds)@[meld_index as int];
            &&& final(melds)@.len() == old(melds)@.len()
            &&& forall|i: int| 0 <= i < old(melds)@.len() && i != meld_index ==> #[trigger] final(melds)@[i] == old(melds)@[i]
            &&& final(melds)@[meld_index as int].kind == MeldKind::Kakan
            &&& final(melds)@[meld_index as int].tiles@ == m.tiles@.push(tile)
            &&& final(melds)@[meld_index as int].from_player == m.from_player
        },
{
    if tiles_left == 0 {
        return Err(ExecError::LastTile);
    }
    if melds[meld_index].kind != MeldKind::Pon {
        return Err(ExecError::NotAPon);
    }
    if tile.tile_type().0 != melds[meld_index].tiles[0].tile_type().0 {
        return Err(ExecError::KindMismatch);
    }
    if kan_count >= 4 {
        return Err(ExecError::KanLimit);
    }
    if let Some(d) = drawn {
        hand.push(d);
    }
    assert(hand@.to_multiset() == with_drawn(old(hand)@.to_multiset(), drawn));
    match find_tile(hand, tile) {
        Some(i) => {
            assert(hand@.contains(tile));
            hand.remove(i);
        },
        None => {
            assert(hand@.to_multiset().count(tile) == 0);
            return Err(ExecError::TileNotInHand(tile));
        },
    }
    let mut tiles = crate::kans::copy_tiles(melds[meld_index].tiles.as_slice());
    tiles.push(tile);
    let from_player = melds[meld_index].from_player;
    melds.set(meld_index, Meld { kind: MeldKind::Kakan, tiles, from_player });
    Ok(())
}

/// When every tile is found, taking them out leaves the hand less exactly
/// those tiles.
pub proof fn lemma_take_tiles_found(hand: Multiset<Tile>, ts: Seq<Tile>)
    requires
        take_tiles(hand, ts).1 is None,
    ensures
        take_tiles(hand, ts).0.add(ts.to_multiset()) =~= hand,
    decreases ts.len(),
{
    broadcast use vstd::multiset::group_multiset_axioms;
    if ts.len() > 0 {
        lemma_take_tiles_found(hand.remove(ts[0]), ts.drop_first());
        assert(ts =~= seq![ts[0]] + ts.drop_first());
        vstd::seq_lib::lemma_multiset_commutative(seq![ts[0]], ts.drop_first());
        assert(seq![ts[0]].to_multiset() =~= Multiset::<Tile>::empty().insert(ts[0])) by {
            assert(seq![ts[0]] =~= Seq::<Tile>::empty().push(ts[0]));
        }
        let rest = take_tiles(hand.remove(ts[0]), ts.drop_first()).0;
        assert(hand.count(ts[0]) > 0);
        assert(take_tiles(hand, ts).0 == rest);
        assert(ts.to_multiset() =~= Multiset::<Tile>::empty().insert(ts[0]).add(ts.drop_first().to_multiset()));
        assert(rest.add(ts.drop_first().to_multiset()) =~= hand.remove(ts[0]));
        assert(hand.remove(ts[0]).insert(ts[0]) =~= hand);
    }
}

/// No tile appears or vanishes on a seat's moves: a discard takes the
/// discarded tile out of the hand and the drawn tile; a call moves its
/// hand tiles from the hand into the call, beside the called tile; an
/// added kan moves one tile of the hand and the drawn tile into the call.
pub proof fn lemma_moves_keep_every_tile(
    hand: Multiset<Tile>,
    drawn: Option<Tile>,
    tile: Tile,
    kuikae: Seq<TileType>,
    is_riichi: bool,
    action: ResponseAction,
    kan_count: int,
    melds: Seq<Meld>,
    meld_index: int,
    tiles_left: int,
)
    requires
        0 <= meld_index < melds.len(),
    ensures
        discard_result(hand, drawn, tile, kuikae, is_riichi) is Ok ==> hand_after_discard(
            hand,
            drawn,
            tile,
            kuikae,
            is_riichi,
        ).insert(tile) =~= with_drawn(hand, drawn),
        call_result(hand, action, kan_count) is Ok ==> hand_after_call(hand, action, kan_count).add(
            call_hand_tiles(action).to_multiset(),
        ) =~= hand,
        kakan_result(hand, melds, meld_index, drawn, tile, tiles_left, kan_count) is Ok ==> hand_after_kakan(
            hand,
            melds,
            meld_index,
            drawn,
            tile,
            tiles_left,
            kan_count,
        ).insert(tile) =~= with_drawn(hand, drawn),
{
    broadcast use vstd::multiset::group_multiset_axioms;
    if call_result(hand, action, kan_count) is Ok {
        lemma_take_tiles_found(hand, call_hand_tiles(action));
    }
}

} // verus!
