use vstd::prelude::*;
use crate::model::WinSituation;
use crate::player::PlayerId;
use crate::tile::TileType;

verus! {

/// What the win conditions read of a round's event log: who discarded,
/// who declared riichi, that a call was made; everything else is `Other`.
#[derive(Debug, Clone, Copy)]
pub enum LogEvent {
    Discard { player: PlayerId },
    Riichi { player: PlayerId },
    Call { player: PlayerId },
    Other,
}

pub open spec fn is_discard_by(e: LogEvent, p: PlayerId) -> bool {
    e matches LogEvent::Discard { player } && player == p
}

pub open spec fn is_riichi_by(e: LogEvent, p: PlayerId) -> bool {
    e matches LogEvent::Riichi { player } && player == p
}

/// The discards among the first `n` events: by `who`, or by anyone when
/// `who` is `None`.
pub open spec fn discard_count(events: Seq<LogEvent>, n: int, who: Option<PlayerId>) -> int
    decreases n,
{
    if n <= 0 {
        0
    } else {
        discard_count(events, n - 1, who) + if events[n - 1] matches LogEvent::Discard { player } && (
        who is None || who == Some(player)) {
            1int
        } else {
            0int
        }
    }
}

/// The index of the last riichi of `p` among the first `n` events, -1
/// when there is none.
pub open spec fn last_riichi(events: Seq<LogEvent>, p: PlayerId, n: int) -> int
    decreases n,
{
    if n <= 0 {
        -1
    } else if is_riichi_by(events[n - 1], p) {
        n - 1
    } else {
        last_riichi(events, p, n - 1)
    }
}

/// A call was made at or after event `from`.
pub open spec fn call_from(events: Seq<LogEvent>, from: int) -> bool {
    exists|i: int| from <= i < events.len() && #[trigger] events[i] is Call
}

/// Ippatsu is still open for `p`: `p` has declared riichi, no call has
/// been made since, and `p` has not discarded since the declaration (when
/// the declaration follows its own discard) or has discarded exactly once
/// (the declaration tile, when it precedes it).
pub open spec fn ippatsu_spec(events: Seq<LogEvent>, p: PlayerId) -> bool {
    let idx = last_riichi(events, p, events.len() as int);
    let own_after = discard_count(events, events.len() as int, Some(p)) - discard_count(
        events,
        idx + 1,
        Some(p),
    );
    &&& idx >= 0
    &&& !call_from(events, idx + 1)
    &&& if idx > 0 && is_discard_by(events[idx - 1], p) {
        own_after == 0
    } else {
        own_after == 1
    }
}

/// Double riichi holds for `p`: `p` declared riichi, within the first
/// four discards of the round, with exactly one own discard, and no call
/// has been made.
pub open spec fn double_riichi_spec(events: Seq<LogEvent>, p: PlayerId) -> bool {
    &&& exists|i: int| 0 <= i < events.len() && is_riichi_by(#[trigger] events[i], p)
    &&& discard_count(events, events.len() as int, None) <= 4
    &&& discard_count(events, events.len() as int, Some(p)) == 1
    &&& !call_from(events, 0)
}

proof fn lemma_last_riichi(events: Seq<LogEvent>, p: PlayerId, n: int)
    requires
        0 <= n <= events.len(),
    ensures
        -1 <= last_riichi(events, p, n) < n,
        last_riichi(events, p, n) >= 0 ==> is_riichi_by(events[last_riichi(events, p, n)], p),
        forall|i: int| last_riichi(events, p, n) < i < n ==> !is_riichi_by(#[trigger] events[i], p),
    decreases n,
{
    if n > 0 {
        lemma_last_riichi(events, p, n - 1);
    }
}

proof fn lemma_discard_count_bounds(events: Seq<LogEvent>, n: int, who: Option<PlayerId>)
    requires
        0 <= n,
    ensures
        0 <= discard_count(events, n, who) <= n,
    decreases n,
{
    if n > 0 {
        lemma_discard_count_bounds(events, n - 1, who);
    }
}

/// The number of discards among the events `from..` by `who` (or anyone).
fn discards_from(events: &[LogEvent], from: usize, who: Option<PlayerId>) -> (n: usize)
    requires
        from <= events@.len(),
    ensures
        n == discard_count(events@, events@.len() as int, who) - discard_count(events@, from as int, who),
{
    let mut n: usize = 0;
    let mut i: usize = from;
    while i < events.len()
        invariant
            from <= i <= events@.len(),
            n == discard_count(events@, i as int, who) - discard_count(events@, from as int, who),
            n <= i - from,
        decreases events@.len() - i,
    {
        if let LogEvent::Discard { player } = events[i] {
            match who {
                Some(p) => {
                    if player.0 == p.0 {
                        n += 1;
                    }
                },
                None => {
                    n += 1;
                },
            }
        }
        i += 1;
    }
    n
}

fn has_call_from(events: &[LogEvent], from: usize) -> (b: bool)
    ensures
        b == call_from(events@, from as int),
{
    let mut i: usize = from;
    while i < events.len()
        invariant
            from <= i,
            forall|j: int| from <= j < i && j < events@.len() ==> !(#[trigger] events@[j] is Call),
        decreases events@.len() - i,
    {
        if let LogEvent::Call { .. } = events[i] {
            return true;
        }
        i += 1;
    }
    false
}

/// Whether ippatsu is still open for `player` (see `ippatsu_spec`).
pub fn is_ippatsu_active(events: &[LogEvent], player: PlayerId) -> (b: bool)
    ensures
        b == ippatsu_spec(events@, player),
{
    let mut i: usize = events.len();
    let ghost len = events@.len() as int;
    proof {
        lemma_last_riichi(events@, player, len);
    }
    while i > 0
        invariant
            i <= events@.len(),
            len == events@.len(),
            forall|j: int| i <= j < len ==> !is_riichi_by(#[trigger] events@[j], player),
            last_riichi(events@, player, len) < i,
            -1 <= last_riichi(events@, player, len),
            last_riichi(events@, player, len) >= 0 ==> is_riichi_by(events@[last_riichi(events@, player, len)], player),
            forall|j: int| last_riichi(events@, player, len) < j < len ==> !is_riichi_by(#[trigger] events@[j], player),
        decreases i,
    {
        let is_own_riichi = match events[i - 1] {
            LogEvent::Riichi { player: p } => p.0 == player.0,
            _ => false,
        };
        if is_own_riichi {
            let index = i - 1;
            assert(last_riichi(events@, player, len) == index);
            let declared_after_discard = index > 0 && match events[index - 1] {
                LogEvent::Discard { player: p } => p.0 == player.0,
                _ => false,
            };
            let own_after = discards_from(events, index + 1, Some(player));
            let called = has_call_from(events, index + 1);
            return !called && if declared_after_discard {
                own_after == 0
            } else {
                own_after == 1
            };
        }
        i -= 1;
    }
    assert(last_riichi(events@, player, len) == -1);
    false
}

/// Whether double riichi holds for `player` (see `double_riichi_spec`).
pub fn is_double_riichi_active(events: &[LogEvent], player: PlayerId) -> (b: bool)
    ensures
        b == double_riichi_spec(events@, player),
{
    let mut has_riichi = false;
    let mut i: usize = 0;
    while i < events.len()
        invariant
            i <= events@.len(),
            has_riichi == exists|j: int| 0 <= j < i && is_riichi_by(#[trigger] events@[j], player),
        decreases events@.len() - i,
    {
        if let LogEvent::Riichi { player: p } = events[i] {
            if p.0 == player.0 {
                has_riichi = true;
            }
        }
        i += 1;
    }
    let all = discards_from(events, 0, None);
    let own = discards_from(events, 0, Some(player));
    has_riichi && all <= 4 && own == 1 && !has_call_from(events, 0)
}

/// The situation of a win by `player` as the round's log and table give
/// it. `from_dead_wall` says the winning tile was a replacement draw; the
/// rinshan flag itself is left to the caller that knows the draw, so it is
/// false here.
pub fn make_win_situation(
    events: &[LogEvent],
    player: PlayerId,
    dealer: PlayerId,
    is_tsumo: bool,
    is_riichi: bool,
    no_tiles_left: bool,
    from_dead_wall: bool,
    is_chankan: bool,
    seat_wind: TileType,
    field_wind: TileType,
) -> (s: WinSituation)
    ensures
        s.is_tsumo == is_tsumo,
        s.is_riichi == is_riichi,
        s.is_double_riichi == double_riichi_spec(events@, player),
        s.is_ippatsu == ippatsu_spec(events@, player),
        !s.is_rinshan,
        s.is_chankan == is_chankan,
        s.is_haitei == (no_tiles_left && is_tsumo && !from_dead_wall),
        s.is_houtei == (no_tiles_left && !is_tsumo),
        s.is_tenhou == (is_tsumo && player == dealer && discard_count(events@, events@.len() as int, None) == 0
            && !call_from(events@, 0)),
        s.is_chiihou == (is_tsumo && player != dealer && discard_count(events@, events@.len() as int, Some(player))
            == 0 && !call_from(events@, 0)),
        s.seat_wind == seat_wind,
        s.field_wind == field_wind,
{
    let is_ippatsu = is_ippatsu_active(events, player);
    let is_double_riichi = is_double_riichi_active(events, player);
    let has_call = has_call_from(events, 0);
    let any_discards = discards_from(events, 0, None);
    let own_discards = discards_from(events, 0, Some(player));
    let is_rinshan = is_tsumo && from_dead_wall;
    let is_dealer = player.0 == dealer.0;
    WinSituation {
        is_tsumo,
        is_riichi,
        is_double_riichi,
        is_ippatsu,
        is_rinshan: false,
        is_chankan,
        is_haitei: no_tiles_left && is_tsumo && !is_rinshan,
        is_houtei: no_tiles_left && !is_tsumo,
        is_tenhou: is_tsumo && is_dealer && any_discards == 0 && !has_call,
        is_chiihou: is_tsumo && !is_dealer && own_discards == 0 && !has_call,
        seat_wind,
        field_wind,
    }
}

/// The riichi declarations among the first `n` events.
pub open spec fn riichi_count(events: Seq<LogEvent>, n: int) -> int
    decreases n,
{
    if n <= 0 {
        0
    } else {
        riichi_count(events, n - 1) + if events[n - 1] is Riichi {
            1int
        } else {
            0int
        }
    }
}

/// Four riichi abort the round: at least four declarations in the log.
pub fn check_suucha_riichi(events: &[LogEvent]) -> (b: bool)
    ensures
        b == (riichi_count(events@, events@.len() as int) >= 4),
{
    let mut n: usize = 0;
    let mut i: usize = 0;
    while i < events.len()
        invariant
            i <= events@.len(),
            n == riichi_count(events@, i as int),
            n <= i,
        decreases events@.len() - i,
    {
        if let LogEvent::Riichi { .. } = events[i] {
            n += 1;
        }
        i += 1;
    }
    n >= 4
}

} // verus!
