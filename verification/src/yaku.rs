use vstd::prelude::*;
use crate::counts::count_type;
use crate::model::{
    HandShape,
    ClosedGroup, MentsuKind, WinSituation, WinningHand, WinningTilePlacement, YakuName, YakuResult,
};
use crate::tile::{Meld, MeldKind, Suit, Tile, TileType};

verus! {

// ─── Facts about the hand ───────────────────────────────────────────────

/// The kinds of the called tiles of melds `0..n`, in order.
pub open spec fn meld_kinds(melds: Seq<Meld>, n: int) -> Seq<TileType>
    decreases n,
{
    if n <= 0 {
        seq![]
    } else {
        meld_kinds(melds, n - 1) + melds[n - 1].tiles@.map_values(|t: Tile| t.spec_tile_type())
    }
}

/// Every tile kind of the win: the decomposition, then the calls.
pub open spec fn win_kinds(hand: HandShape, melds: Seq<Meld>) -> Seq<TileType> {
    hand.spec_all_tiles() + meld_kinds(melds, melds.len() as int)
}

pub open spec fn is_green(t: TileType) -> bool {
    t.0 == 19 || t.0 == 20 || t.0 == 21 || t.0 == 23 || t.0 == 25 || t.0 == 32
}

pub open spec fn is_simple(t: TileType) -> bool {
    t.spec_is_number() && !t.spec_is_terminal()
}

/// The calls that hold a triplet or quad.
pub open spec fn is_triplet_meld(m: Meld) -> bool {
    m.kind != MeldKind::Chi
}

/// The lowest kind of a chi.
pub open spec fn chi_start(m: Meld) -> TileType {
    m.spec_low()
}

/// A triplet of kind `k`, concealed or called.
#[verifier::opaque]
pub open spec fn triplet_present(hand: HandShape, melds: Seq<Meld>, k: int) -> bool {
    (exists|i: int|
        0 <= i < hand.spec_groups().len() && (#[trigger] hand.spec_groups()[i]).kind
            == MentsuKind::Koutsu && hand.spec_groups()[i].tile_type.0 == k) || (exists|i: int|
        0 <= i < melds.len() && is_triplet_meld(#[trigger] melds[i]) && melds[i].first_kind().0 == k)
}

/// A sequence starting at kind `k`, concealed or called.
#[verifier::opaque]
pub open spec fn sequence_present(hand: HandShape, melds: Seq<Meld>, k: int) -> bool {
    (exists|i: int|
        0 <= i < hand.spec_groups().len() && (#[trigger] hand.spec_groups()[i]).kind
            == MentsuKind::Shuntsu && hand.spec_groups()[i].tile_type.0 == k) || (exists|i: int|
        0 <= i < melds.len() && (#[trigger] melds[i]).kind == MeldKind::Chi && chi_start(melds[i]).0
            == k)
}

/// The number of kinds in `lo..hi` with a triplet.
pub open spec fn triplet_kinds_between(hand: HandShape, melds: Seq<Meld>, lo: int, hi: int) -> int
    decreases hi - lo,
{
    if hi <= lo {
        0
    } else {
        triplet_kinds_between(hand, melds, lo, hi - 1) + if triplet_present(hand, melds, hi - 1) {
            1int
        } else {
            0int
        }
    }
}

pub open spec fn count_groups_of(groups: Seq<ClosedGroup>, kind: MentsuKind, n: int) -> int
    decreases n,
{
    if n <= 0 {
        0
    } else {
        count_groups_of(groups, kind, n - 1) + if groups[n - 1].kind == kind {
            1int
        } else {
            0int
        }
    }
}

/// The number of calls `< n` whose kind satisfies the selector: 0 triplet
/// calls (pon or kan), 1 open triplets (pon, open kan), 2 kans, 3 concealed kans.
pub open spec fn meld_selected(m: Meld, selector: int) -> bool {
    if selector == 0 {
        m.kind != MeldKind::Chi
    } else if selector == 1 {
        m.kind == MeldKind::Pon || m.kind == MeldKind::Minkan || m.kind == MeldKind::Kakan
    } else if selector == 2 {
        m.kind == MeldKind::Ankan || m.kind == MeldKind::Minkan || m.kind == MeldKind::Kakan
    } else {
        m.kind == MeldKind::Ankan
    }
}

pub open spec fn count_melds(melds: Seq<Meld>, selector: int, n: int) -> int
    decreases n,
{
    if n <= 0 {
        0
    } else {
        count_melds(melds, selector, n - 1) + if meld_selected(melds[n - 1], selector) {
            1int
        } else {
            0int
        }
    }
}

/// Pairs of equal concealed sequences among groups `< n`.
pub open spec fn duplicate_sequence_pairs(groups: Seq<ClosedGroup>, n: int) -> int
    decreases n,
{
    if n <= 0 {
        0
    } else {
        duplicate_sequence_pairs(groups, n - 1) + if groups[n - 1].kind == MentsuKind::Shuntsu {
            equal_sequences_before(groups, n - 1, n - 1)
        } else {
            0
        }
    }
}

/// Sequences among groups `< n` equal to group `g`.
pub open spec fn equal_sequences_before(groups: Seq<ClosedGroup>, g: int, n: int) -> int
    decreases n,
{
    if n <= 0 {
        0
    } else {
        equal_sequences_before(groups, g, n - 1) + if groups[n - 1].kind == MentsuKind::Shuntsu
            && groups[n - 1].tile_type == groups[g].tile_type {
            1int
        } else {
            0int
        }
    }
}

#[verifier::opaque]
pub open spec fn menzen(melds: Seq<Meld>) -> bool {
    forall|i: int| 0 <= i < melds.len() ==> (#[trigger] melds[i]).spec_is_concealed()
}

/// A ron tile completed a concealed triplet.
pub open spec fn ron_makes_minkou(hand: HandShape, situation: WinSituation, w: TileType, placement: WinningTilePlacement) -> bool {
    !situation.is_tsumo && match placement {
        WinningTilePlacement::Group(index) => index < hand.spec_groups().len()
            && hand.spec_groups()[index as int].kind == MentsuKind::Koutsu
            && hand.spec_groups()[index as int].tile_type == w,
        _ => false,
    }
}

/// Concealed triplets: concealed groups and concealed kans, less the one a
/// ron tile completed.
pub open spec fn concealed_triplets(hand: HandShape, melds: Seq<Meld>, situation: WinSituation, w: TileType, placement: WinningTilePlacement) -> int {
    let n = count_groups_of(hand.spec_groups(), MentsuKind::Koutsu, hand.spec_groups().len() as int)
        + count_melds(melds, 3, melds.len() as int);
    if ron_makes_minkou(hand, situation, w, placement) && n > 0 {
        n - 1
    } else {
        n
    }
}

pub open spec fn suit_base(s: Suit) -> int {
    match s {
        Suit::Man => 0,
        Suit::Pin => 9,
        Suit::Sou => 18,
        _ => 0,
    }
}

/// Nine gates needs three 1s, one each of 2..8 and three 9s.
pub open spec fn chuuren_required(i: int) -> int {
    if i == 0 || i == 8 {
        3
    } else {
        1
    }
}

pub open spec fn chuuren_extra(tiles: Seq<TileType>, base: int, n: int) -> int
    decreases n,
{
    if n <= 0 {
        0
    } else {
        chuuren_extra(tiles, base, n - 1) + {
            let c = count_type(tiles, tiles.len() as int, base + n - 1);
            if c > chuuren_required(n - 1) {
                c - chuuren_required(n - 1)
            } else {
                0
            }
        }
    }
}

/// A closed standard hand of one suit (the suit of its pair) holding the
/// nine gates pattern plus one tile.
pub open spec fn is_chuuren(hand: HandShape, melds: Seq<Meld>) -> bool {
    let tiles = win_kinds(hand, melds);
    let base = suit_base(tiles[0].spec_suit());
    &&& hand.is_standard()
    &&& melds.len() == 0
    &&& tiles.len() == 14
    &&& forall|i: int| 0 <= i < 9 ==> count_type(tiles, tiles.len() as int, base + i) >= chuuren_required(i)
    &&& chuuren_extra(tiles, base, 9) == 1
}

/// Pure nine gates: the pattern was complete before the winning tile.
pub open spec fn is_nine_sided_wait(hand: HandShape, melds: Seq<Meld>, w: TileType) -> bool {
    let tiles = win_kinds(hand, melds);
    let base = suit_base(tiles[0].spec_suit());
    &&& w.spec_suit() == tiles[0].spec_suit()
    &&& w.0 - base < 9
    &&& forall|i: int| 0 <= i < 9 ==> count_type(tiles, tiles.len() as int, base + i) == chuuren_required(i)
        + (if i == w.0 - base {
        1int
    } else {
        0int
    })
}

/// Thirteen-sided kokushi: each orphan once, the winning kind twice.
pub open spec fn is_thirteen_wait(hand: HandShape, melds: Seq<Meld>, w: TileType) -> bool {
    let tiles = win_kinds(hand, melds);
    &&& melds.len() == 0
    &&& w.spec_is_yaochuuhai()
    &&& forall|n: int|
        0 <= n < 13 ==> count_type(tiles, tiles.len() as int, #[trigger] crate::model::yaochuuhai_kinds()[n].0 as int)
            == if crate::model::yaochuuhai_kinds()[n] == w {
            2int
        } else {
            1int
        }
}

pub open spec fn is_yakuhai(t: TileType, situation: WinSituation) -> bool {
    t.spec_is_dragon() || t == situation.seat_wind || t == situation.field_wind
}

/// The two-sided sequence wait that pinfu needs.
pub open spec fn is_pinfu_wait(hand: HandShape, w: TileType, placement: WinningTilePlacement) -> bool {
    match placement {
        WinningTilePlacement::Group(index) => index < hand.spec_groups().len() && {
            let g = hand.spec_groups()[index as int];
            &&& g.kind == MentsuKind::Shuntsu
            &&& g.tile_type.spec_suit() == w.spec_suit()
            &&& {
                let start = g.tile_type.spec_rank();
                let win = w.spec_rank();
                (win == start && 1 <= start <= 6) || (win == start + 2 && 2 <= start <= 7)
            }
        },
        _ => false,
    }
}

/// The kinds of the concealed triplets among groups `< n`, in order.
pub open spec fn group_triplet_kinds(groups: Seq<ClosedGroup>, n: int) -> Seq<TileType>
    decreases n,
{
    if n <= 0 {
        seq![]
    } else {
        group_triplet_kinds(groups, n - 1) + if groups[n - 1].kind == MentsuKind::Koutsu {
            seq![groups[n - 1].tile_type]
        } else {
            seq![]
        }
    }
}

/// The kinds of the called triplets and quads among calls `< n`, in order.
pub open spec fn meld_triplet_kinds(melds: Seq<Meld>, n: int) -> Seq<TileType>
    decreases n,
{
    if n <= 0 {
        seq![]
    } else {
        meld_triplet_kinds(melds, n - 1) + if is_triplet_meld(melds[n - 1]) {
            seq![melds[n - 1].first_kind()]
        } else {
            seq![]
        }
    }
}

/// The kinds of the concealed triplets and called triplets, in order.
pub open spec fn triplet_kind_candidates(hand: HandShape, melds: Seq<Meld>) -> Seq<TileType> {
    group_triplet_kinds(hand.spec_groups(), hand.spec_groups().len() as int) + meld_triplet_kinds(
        melds,
        melds.len() as int,
    )
}

/// The first `n` kinds with repeats dropped.
pub open spec fn distinct_prefix(kinds: Seq<TileType>, n: int) -> Seq<TileType>
    decreases n,
{
    if n <= 0 {
        seq![]
    } else {
        let prev = distinct_prefix(kinds, n - 1);
        if prev.contains(kinds[n - 1]) {
            prev
        } else {
            prev.push(kinds[n - 1])
        }
    }
}

pub open spec fn yaku_if(cond: bool, yaku: YakuName, han: u8) -> Seq<YakuResult> {
    if cond {
        seq![YakuResult { yaku, han }]
    } else {
        seq![]
    }
}

/// The value yaku of one triplet kind.
pub open spec fn yakuhai_of(t: TileType, situation: WinSituation) -> Seq<YakuResult> {
    yaku_if(t.spec_is_dragon(), YakuName::YakuhaiSangen, 1) + yaku_if(
        t == situation.seat_wind,
        YakuName::YakuhaiJikaze,
        1,
    ) + yaku_if(t == situation.field_wind, YakuName::YakuhaiBakaze, 1)
}

pub open spec fn yakuhai_list(kinds: Seq<TileType>, situation: WinSituation, n: int) -> Seq<YakuResult>
    decreases n,
{
    if n <= 0 {
        seq![]
    } else {
        yakuhai_list(kinds, situation, n - 1) + yakuhai_of(kinds[n - 1], situation)
    }
}

#[verifier::opaque]
pub open spec fn all_kinds(tiles: Seq<TileType>, pred: spec_fn(TileType) -> bool) -> bool {
    forall|i: int| 0 <= i < tiles.len() ==> pred(#[trigger] tiles[i])
}

#[verifier::opaque]
pub open spec fn any_kind(tiles: Seq<TileType>, pred: spec_fn(TileType) -> bool) -> bool {
    exists|i: int| 0 <= i < tiles.len() && pred(#[trigger] tiles[i])
}

/// All number tiles share one suit and there is one.
#[verifier::opaque]
pub open spec fn is_flush(tiles: Seq<TileType>) -> bool {
    &&& any_kind(tiles, |t: TileType| t.spec_is_number())
    &&& forall|i: int, j: int|
        0 <= i < tiles.len() && 0 <= j < tiles.len() && tiles[i].spec_is_number() && tiles[j].spec_is_number()
            ==> #[trigger] tiles[i].spec_suit() == #[trigger] tiles[j].spec_suit()
}

pub open spec fn group_has_yaochuuhai(g: ClosedGroup) -> bool {
    match g.kind {
        MentsuKind::Shuntsu => g.tile_type.spec_is_yaochuuhai() || TileType(
            (g.tile_type.0 + 2) as u8,
        ).spec_is_yaochuuhai(),
        MentsuKind::Koutsu => g.tile_type.spec_is_yaochuuhai(),
    }
}

pub open spec fn group_has_terminal(g: ClosedGroup) -> bool {
    match g.kind {
        MentsuKind::Shuntsu => g.tile_type.spec_is_terminal() || TileType(
            (g.tile_type.0 + 2) as u8,
        ).spec_is_terminal(),
        MentsuKind::Koutsu => g.tile_type.spec_is_terminal(),
    }
}

pub open spec fn meld_has_yaochuuhai(m: Meld) -> bool {
    match m.kind {
        MeldKind::Chi => chi_start(m).spec_is_terminal() || TileType(
            (chi_start(m).0 + 2) as u8,
        ).spec_is_terminal(),
        _ => m.first_kind().spec_is_yaochuuhai(),
    }
}

pub open spec fn meld_has_terminal(m: Meld) -> bool {
    match m.kind {
        MeldKind::Chi => chi_start(m).spec_is_terminal() || TileType(
            (chi_start(m).0 + 2) as u8,
        ).spec_is_terminal(),
        _ => m.first_kind().spec_is_terminal(),
    }
}

#[verifier::opaque]
pub open spec fn has_sequence(hand: HandShape, melds: Seq<Meld>) -> bool {
    count_groups_of(hand.spec_groups(), MentsuKind::Shuntsu, hand.spec_groups().len() as int) > 0
        || exists|i: int| 0 <= i < melds.len() && (#[trigger] melds[i]).kind == MeldKind::Chi
}

/// Every group, the pair and every call hold a terminal or honor.
#[verifier::opaque]
pub open spec fn is_chanta_shape(hand: HandShape, melds: Seq<Meld>) -> bool {
    &&& forall|i: int| 0 <= i < hand.spec_groups().len() ==> group_has_yaochuuhai(#[trigger] hand.spec_groups()[i])
    &&& hand.spec_pair().spec_is_yaochuuhai()
    &&& forall|i: int| 0 <= i < melds.len() ==> meld_has_yaochuuhai(#[trigger] melds[i])
}

/// Every group, the pair and every call hold a terminal.
#[verifier::opaque]
pub open spec fn is_junchan_shape(hand: HandShape, melds: Seq<Meld>) -> bool {
    &&& forall|i: int| 0 <= i < hand.spec_groups().len() ==> group_has_terminal(#[trigger] hand.spec_groups()[i])
    &&& hand.spec_pair().spec_is_terminal()
    &&& forall|i: int| 0 <= i < melds.len() ==> meld_has_terminal(#[trigger] melds[i])
}

#[verifier::opaque]
pub open spec fn sanshoku_triplets(hand: HandShape, melds: Seq<Meld>) -> bool {
    exists|r: int|
        0 <= r < 9 && #[trigger] triplet_present(hand, melds, r) && triplet_present(hand, melds, 9 + r)
            && triplet_present(hand, melds, 18 + r)
}

#[verifier::opaque]
pub open spec fn sanshoku_sequences(hand: HandShape, melds: Seq<Meld>) -> bool {
    exists|r: int|
        0 <= r < 9 && #[trigger] sequence_present(hand, melds, r) && sequence_present(hand, melds, 9 + r)
            && sequence_present(hand, melds, 18 + r)
}

#[verifier::opaque]
pub open spec fn straight(hand: HandShape, melds: Seq<Meld>) -> bool {
    exists|s: int|
        0 <= s < 3 && #[trigger] sequence_present(hand, melds, 9 * s) && sequence_present(hand, melds, 9 * s + 3)
            && sequence_present(hand, melds, 9 * s + 6)
}

// ─── The yaku of a decomposition ────────────────────────────────────────

pub open spec fn menzen_han(melds: Seq<Meld>, closed: u8, open: u8) -> u8 {
    if menzen(melds) {
        closed
    } else {
        open
    }
}

/// The yakuman (other than tenhou, chiihou, kokushi and chuuren, which
/// stand alone) in detection order.
pub open spec fn yakuman_part(hand: HandShape, situation: WinSituation, melds: Seq<Meld>, w: TileType, placement: WinningTilePlacement) -> Seq<YakuResult> {
    let tiles = win_kinds(hand, melds);
    let standard = hand.is_standard();
    let dragons = triplet_kinds_between(hand, melds, 31, 34);
    let winds = triplet_kinds_between(hand, melds, 27, 31);
    (if standard && concealed_triplets(hand, melds, situation, w, placement) >= 4 {
        if placement == WinningTilePlacement::Pair && hand.spec_pair() == w {
            seq![YakuResult { yaku: YakuName::SuuankouTanki, han: 26 }]
        } else {
            seq![YakuResult { yaku: YakuName::Suuankou, han: 13 }]
        }
    } else {
        seq![]
    }) + yaku_if(dragons == 3, YakuName::Daisangen, 13) + (if winds == 4 {
        seq![YakuResult { yaku: YakuName::Daisuushii, han: 26 }]
    } else {
        yaku_if(winds == 3 && hand.spec_pair().spec_is_wind(), YakuName::Shousuushii, 13)
    }) + yaku_if(all_kinds(tiles, |t: TileType| t.spec_is_honor()), YakuName::Tsuuiisou, 13) + yaku_if(
        all_kinds(tiles, |t: TileType| is_green(t)),
        YakuName::Ryuuiisou,
        13,
    ) + yaku_if(all_kinds(tiles, |t: TileType| t.spec_is_terminal()), YakuName::Chinroutou, 13)
        + yaku_if(count_melds(melds, 2, melds.len() as int) == 4, YakuName::Suukantsu, 13)
}

/// The situational and one-han yaku in detection order.
pub open spec fn basic_part(hand: HandShape, situation: WinSituation, melds: Seq<Meld>, w: TileType, placement: WinningTilePlacement) -> Seq<YakuResult> {
    let tiles = win_kinds(hand, melds);
    let closed = menzen(melds);
    let standard = hand.is_standard();
    let groups = hand.spec_groups();
    let kinds = distinct_prefix(
        triplet_kind_candidates(hand, melds),
        triplet_kind_candidates(hand, melds).len() as int,
    );
    yaku_if(situation.is_tsumo && closed, YakuName::MenzenTsumo, 1) + (if situation.is_double_riichi
        && closed {
        seq![YakuResult { yaku: YakuName::DoubleRiichi, han: 2 }]
    } else {
        yaku_if(situation.is_riichi && closed, YakuName::Riichi, 1)
    }) + yaku_if(situation.is_ippatsu && closed, YakuName::Ippatsu, 1) + yaku_if(
        all_kinds(tiles, |t: TileType| is_simple(t)),
        YakuName::Tanyao,
        1,
    ) + yaku_if(
        closed && standard && count_groups_of(groups, MentsuKind::Shuntsu, groups.len() as int) == 4
            && !is_yakuhai(hand.spec_pair(), situation) && is_pinfu_wait(hand, w, placement),
        YakuName::Pinfu,
        1,
    ) + yaku_if(
        closed && standard && duplicate_sequence_pairs(groups, groups.len() as int) == 1,
        YakuName::Iipeiko,
        1,
    ) + yakuhai_list(kinds, situation, kinds.len() as int) + yaku_if(
        situation.is_rinshan,
        YakuName::RinshanKaihou,
        1,
    ) + yaku_if(situation.is_chankan, YakuName::Chankan, 1) + yaku_if(
        situation.is_haitei,
        YakuName::Haitei,
        1,
    ) + yaku_if(situation.is_houtei, YakuName::Houtei, 1)
}

/// The shape yaku of two han and more in detection order.
pub open spec fn pattern_part(hand: HandShape, situation: WinSituation, melds: Seq<Meld>, w: TileType, placement: WinningTilePlacement) -> Seq<YakuResult> {
    let tiles = win_kinds(hand, melds);
    let closed = menzen(melds);
    let standard = hand.is_standard();
    let groups = hand.spec_groups();
    let has_honor = any_kind(tiles, |t: TileType| t.spec_is_honor());
    let has_number = any_kind(tiles, |t: TileType| t.spec_is_number());
    let total_koutsu = count_groups_of(groups, MentsuKind::Koutsu, groups.len() as int) + count_melds(
        melds,
        3,
        melds.len() as int,
    ) + count_melds(melds, 1, melds.len() as int);
    yaku_if(hand is SevenPairs, YakuName::Chiitoitsu, 2) + yaku_if(
        total_koutsu == 4 && standard,
        YakuName::Toitoi,
        2,
    ) + yaku_if(
        standard && concealed_triplets(hand, melds, situation, w, placement) >= 3,
        YakuName::Sananko,
        2,
    ) + yaku_if(count_melds(melds, 2, melds.len() as int) == 3, YakuName::Sankantsu, 2) + yaku_if(
        standard && sanshoku_triplets(hand, melds),
        YakuName::SanshokuDoukou,
        2,
    ) + yaku_if(
        triplet_kinds_between(hand, melds, 31, 34) == 2 && hand.spec_pair().spec_is_dragon(),
        YakuName::Shousangen,
        2,
    ) + yaku_if(all_kinds(tiles, |t: TileType| t.spec_is_yaochuuhai()), YakuName::Honroutou, 2)
        + yaku_if(
        standard && has_honor && has_number && is_chanta_shape(hand, melds) && has_sequence(
            hand,
            melds,
        ),
        YakuName::Honchantai,
        menzen_han(melds, 2, 1),
    ) + yaku_if(
        standard && sanshoku_sequences(hand, melds),
        YakuName::SanshokuDoujun,
        menzen_han(melds, 2, 1),
    ) + yaku_if(standard && straight(hand, melds), YakuName::Ittsu, menzen_han(melds, 2, 1)) + (if is_flush(
        tiles,
    ) {
        if !has_honor {
            seq![YakuResult { yaku: YakuName::Chinitsu, han: menzen_han(melds, 6, 5) }]
        } else {
            seq![YakuResult { yaku: YakuName::Honitsu, han: menzen_han(melds, 3, 2) }]
        }
    } else {
        seq![]
    }) + yaku_if(
        standard && !has_honor && has_number && is_junchan_shape(hand, melds) && has_sequence(
            hand,
            melds,
        ),
        YakuName::Junchan,
        menzen_han(melds, 3, 2),
    ) + yaku_if(
        closed && standard && duplicate_sequence_pairs(groups, groups.len() as int) >= 2,
        YakuName::Ryanpeiko,
        3,
    )
}

/// The yaku of one decomposition with one placement of the winning tile,
/// in the order they are detected. Tenhou and chiihou stand alone, as do
/// thirteen orphans and nine gates (double yakuman on their pure waits).
pub open spec fn yaku_spec(hand: HandShape, situation: WinSituation, melds: Seq<Meld>, w: TileType, placement: WinningTilePlacement) -> Seq<YakuResult> {
    if situation.is_tenhou {
        seq![YakuResult { yaku: YakuName::Tenhou, han: 13 }]
    } else if situation.is_chiihou {
        seq![YakuResult { yaku: YakuName::Chiihou, han: 13 }]
    } else if hand is Kokushi {
        if is_thirteen_wait(hand, melds, w) {
            seq![YakuResult { yaku: YakuName::Kokushi13, han: 26 }]
        } else {
            seq![YakuResult { yaku: YakuName::Kokushi, han: 13 }]
        }
    } else if menzen(melds) && is_chuuren(hand, melds) {
        if is_nine_sided_wait(hand, melds, w) {
            seq![YakuResult { yaku: YakuName::ChuurenPoutou9, han: 26 }]
        } else {
            seq![YakuResult { yaku: YakuName::ChuurenPoutou, han: 13 }]
        }
    } else {
        yakuman_part(hand, situation, melds, w, placement) + basic_part(
            hand,
            situation,
            melds,
            w,
            placement,
        ) + pattern_part(hand, situation, melds, w, placement)
    }
}

// ─── Closed-only yaku ───────────────────────────────────────────────────

/// The yaku that only a closed hand can score: menzen tsumo, riichi,
/// double riichi, ippatsu, pinfu, iipeiko, ryanpeiko and nine gates.
pub open spec fn is_closed_only(y: YakuName) -> bool {
    ||| y == YakuName::MenzenTsumo
    ||| y == YakuName::Riichi
    ||| y == YakuName::DoubleRiichi
    ||| y == YakuName::Ippatsu
    ||| y == YakuName::Pinfu
    ||| y == YakuName::Iipeiko
    ||| y == YakuName::Ryanpeiko
    ||| y == YakuName::ChuurenPoutou
    ||| y == YakuName::ChuurenPoutou9
}

pub open spec fn no_closed_only(s: Seq<YakuResult>) -> bool {
    forall|i: int| 0 <= i < s.len() ==> !is_closed_only(#[trigger] s[i].yaku)
}

proof fn lemma_no_closed_only_concat(a: Seq<YakuResult>, b: Seq<YakuResult>)
    requires
        no_closed_only(a),
        no_closed_only(b),
    ensures
        no_closed_only(a + b),
{
    assert forall|i: int| 0 <= i < (a + b).len() implies !is_closed_only(#[trigger] (a + b)[i].yaku) by {
        if i < a.len() {
            assert((a + b)[i] == a[i]);
        } else {
            assert((a + b)[i] == b[i - a.len()]);
        }
    }
}

proof fn lemma_yaku_if_open(cond: bool, name: YakuName, han: u8)
    requires
        !cond || !is_closed_only(name),
    ensures
        no_closed_only(yaku_if(cond, name, han)),
{
}

proof fn lemma_yakuhai_list_open(kinds: Seq<TileType>, situation: WinSituation, n: int)
    ensures
        no_closed_only(yakuhai_list(kinds, situation, n)),
    decreases n,
{
    if n > 0 {
        lemma_yakuhai_list_open(kinds, situation, n - 1);
        let t = kinds[n - 1];
        let a = yaku_if(t.spec_is_dragon(), YakuName::YakuhaiSangen, 1);
        let b = yaku_if(t == situation.seat_wind, YakuName::YakuhaiJikaze, 1);
        let c = yaku_if(t == situation.field_wind, YakuName::YakuhaiBakaze, 1);
        lemma_no_closed_only_concat(a, b);
        lemma_no_closed_only_concat(a + b, c);
        lemma_no_closed_only_concat(yakuhai_list(kinds, situation, n - 1), yakuhai_of(t, situation));
    }
}

proof fn lemma_yakuman_part_open(
    hand: HandShape,
    situation: WinSituation,
    melds: Seq<Meld>,
    w: TileType,
    placement: WinningTilePlacement,
)
    ensures
        no_closed_only(yakuman_part(hand, situation, melds, w, placement)),
{
    let tiles = win_kinds(hand, melds);
    let standard = hand.is_standard();
    let dragons = triplet_kinds_between(hand, melds, 31, 34);
    let winds = triplet_kinds_between(hand, melds, 27, 31);
    let c1 = if standard && concealed_triplets(hand, melds, situation, w, placement) >= 4 {
        if placement == WinningTilePlacement::Pair && hand.spec_pair() == w {
            seq![YakuResult { yaku: YakuName::SuuankouTanki, han: 26 }]
        } else {
            seq![YakuResult { yaku: YakuName::Suuankou, han: 13 }]
        }
    } else {
        seq![]
    };
    let c2 = yaku_if(dragons == 3, YakuName::Daisangen, 13);
    let c3 = if winds == 4 {
        seq![YakuResult { yaku: YakuName::Daisuushii, han: 26 }]
    } else {
        yaku_if(winds == 3 && hand.spec_pair().spec_is_wind(), YakuName::Shousuushii, 13)
    };
    let c4 = yaku_if(all_kinds(tiles, |t: TileType| t.spec_is_honor()), YakuName::Tsuuiisou, 13);
    let c5 = yaku_if(all_kinds(tiles, |t: TileType| is_green(t)), YakuName::Ryuuiisou, 13);
    let c6 = yaku_if(all_kinds(tiles, |t: TileType| t.spec_is_terminal()), YakuName::Chinroutou, 13);
    let c7 = yaku_if(count_melds(melds, 2, melds.len() as int) == 4, YakuName::Suukantsu, 13);
    assert(no_closed_only(c1));
    assert(no_closed_only(c3));
    lemma_no_closed_only_concat(c1, c2);
    lemma_no_closed_only_concat(c1 + c2, c3);
    lemma_no_closed_only_concat(c1 + c2 + c3, c4);
    lemma_no_closed_only_concat(c1 + c2 + c3 + c4, c5);
    lemma_no_closed_only_concat(c1 + c2 + c3 + c4 + c5, c6);
    lemma_no_closed_only_concat(c1 + c2 + c3 + c4 + c5 + c6, c7);
}

proof fn lemma_basic_part_open(
    hand: HandShape,
    situation: WinSituation,
    melds: Seq<Meld>,
    w: TileType,
    placement: WinningTilePlacement,
)
    requires
        !menzen(melds),
    ensures
        no_closed_only(basic_part(hand, situation, melds, w, placement)),
{
    let tiles = win_kinds(hand, melds);
    let closed = menzen(melds);
    let standard = hand.is_standard();
    let groups = hand.spec_groups();
    let kinds = distinct_prefix(
        triplet_kind_candidates(hand, melds),
        triplet_kind_candidates(hand, melds).len() as int,
    );
    let c1 = yaku_if(situation.is_tsumo && closed, YakuName::MenzenTsumo, 1);
    let c2 = if situation.is_double_riichi && closed {
        seq![YakuResult { yaku: YakuName::DoubleRiichi, han: 2 }]
    } else {
        yaku_if(situation.is_riichi && closed, YakuName::Riichi, 1)
    };
    let c3 = yaku_if(situation.is_ippatsu && closed, YakuName::Ippatsu, 1);
    let c4 = yaku_if(all_kinds(tiles, |t: TileType| is_simple(t)), YakuName::Tanyao, 1);
    let c5 = yaku_if(
        closed && standard && count_groups_of(groups, MentsuKind::Shuntsu, groups.len() as int) == 4
            && !is_yakuhai(hand.spec_pair(), situation) && is_pinfu_wait(hand, w, placement),
        YakuName::Pinfu,
        1,
    );
    let c6 = yaku_if(
        closed && standard && duplicate_sequence_pairs(groups, groups.len() as int) == 1,
        YakuName::Iipeiko,
        1,
    );
    let c7 = yakuhai_list(kinds, situation, kinds.len() as int);
    let c8 = yaku_if(situation.is_rinshan, YakuName::RinshanKaihou, 1);
    let c9 = yaku_if(situation.is_chankan, YakuName::Chankan, 1);
    let c10 = yaku_if(situation.is_haitei, YakuName::Haitei, 1);
    let c11 = yaku_if(situation.is_houtei, YakuName::Houtei, 1);
    assert(no_closed_only(c2));
    lemma_yakuhai_list_open(kinds, situation, kinds.len() as int);
    lemma_no_closed_only_concat(c1, c2);
    lemma_no_closed_only_concat(c1 + c2, c3);
    lemma_no_closed_only_concat(c1 + c2 + c3, c4);
    lemma_no_closed_only_concat(c1 + c2 + c3 + c4, c5);
    lemma_no_closed_only_concat(c1 + c2 + c3 + c4 + c5, c6);
    lemma_no_closed_only_concat(c1 + c2 + c3 + c4 + c5 + c6, c7);
    lemma_no_closed_only_concat(c1 + c2 + c3 + c4 + c5 + c6 + c7, c8);
    lemma_no_closed_only_concat(c1 + c2 + c3 + c4 + c5 + c6 + c7 + c8, c9);
    lemma_no_closed_only_concat(c1 + c2 + c3 + c4 + c5 + c6 + c7 + c8 + c9, c10);
    lemma_no_closed_only_concat(c1 + c2 + c3 + c4 + c5 + c6 + c7 + c8 + c9 + c10, c11);
}

proof fn lemma_pattern_part_open(
    hand: HandShape,
    situation: WinSituation,
    melds: Seq<Meld>,
    w: TileType,
    placement: WinningTilePlacement,
)
    requires
        !menzen(melds),
    ensures
        no_closed_only(pattern_part(hand, situation, melds, w, placement)),
{
    let tiles = win_kinds(hand, melds);
    let closed = menzen(melds);
    let standard = hand.is_standard();
    let groups = hand.spec_groups();
    let has_honor = any_kind(tiles, |t: TileType| t.spec_is_honor());
    let has_number = any_kind(tiles, |t: TileType| t.spec_is_number());
    let total_koutsu = count_groups_of(groups, MentsuKind::Koutsu, groups.len() as int) + count_melds(
        melds,
        3,
        melds.len() as int,
    ) + count_melds(melds, 1, melds.len() as int);
    let c1 = yaku_if(hand is SevenPairs, YakuName::Chiitoitsu, 2);
    let c2 = yaku_if(total_koutsu == 4 && standard, YakuName::Toitoi, 2);
    let c3 = yaku_if(
        standard && concealed_triplets(hand, melds, situation, w, placement) >= 3,
        YakuName::Sananko,
        2,
    );
    let c4 = yaku_if(count_melds(melds, 2, melds.len() as int) == 3, YakuName::Sankantsu, 2);
    let c5 = yaku_if(standard && sanshoku_triplets(hand, melds), YakuName::SanshokuDoukou, 2);
    let c6 = yaku_if(
        triplet_kinds_between(hand, melds, 31, 34) == 2 && hand.spec_pair().spec_is_dragon(),
        YakuName::Shousangen,
        2,
    );
    let c7 = yaku_if(all_kinds(tiles, |t: TileType| t.spec_is_yaochuuhai()), YakuName::Honroutou, 2);
    let c8 = yaku_if(
        standard && has_honor && has_number && is_chanta_shape(hand, melds) && has_sequence(
            hand,
            melds,
        ),
        YakuName::Honchantai,
        menzen_han(melds, 2, 1),
    );
    let c9 = yaku_if(
        standard && sanshoku_sequences(hand, melds),
        YakuName::SanshokuDoujun,
        menzen_han(melds, 2, 1),
    );
    let c10 = yaku_if(standard && straight(hand, melds), YakuName::Ittsu, menzen_han(melds, 2, 1));
    let c11 = if is_flush(tiles) {
        if !has_honor {
            seq![YakuResult { yaku: YakuName::Chinitsu, han: menzen_han(melds, 6, 5) }]
        } else {
            seq![YakuResult { yaku: YakuName::Honitsu, han: menzen_han(melds, 3, 2) }]
        }
    } else {
        seq![]
    };
    let c12 = yaku_if(
        standard && !has_honor && has_number && is_junchan_shape(hand, melds) && has_sequence(
            hand,
            melds,
        ),
        YakuName::Junchan,
        menzen_han(melds, 3, 2),
    );
    let c13 = yaku_if(
        closed && standard && duplicate_sequence_pairs(groups, groups.len() as int) >= 2,
        YakuName::Ryanpeiko,
        3,
    );
    assert(no_closed_only(c11));
    lemma_no_closed_only_concat(c1, c2);
    lemma_no_closed_only_concat(c1 + c2, c3);
    lemma_no_closed_only_concat(c1 + c2 + c3, c4);
    lemma_no_closed_only_concat(c1 + c2 + c3 + c4, c5);
    lemma_no_closed_only_concat(c1 + c2 + c3 + c4 + c5, c6);
    lemma_no_closed_only_concat(c1 + c2 + c3 + c4 + c5 + c6, c7);
    lemma_no_closed_only_concat(c1 + c2 + c3 + c4 + c5 + c6 + c7, c8);
    lemma_no_closed_only_concat(c1 + c2 + c3 + c4 + c5 + c6 + c7 + c8, c9);
    lemma_no_closed_only_concat(c1 + c2 + c3 + c4 + c5 + c6 + c7 + c8 + c9, c10);
    lemma_no_closed_only_concat(c1 + c2 + c3 + c4 + c5 + c6 + c7 + c8 + c9 + c10, c11);
    lemma_no_closed_only_concat(c1 + c2 + c3 + c4 + c5 + c6 + c7 + c8 + c9 + c10 + c11, c12);
    lemma_no_closed_only_concat(
        c1 + c2 + c3 + c4 + c5 + c6 + c7 + c8 + c9 + c10 + c11 + c12,
        c13,
    );
}

/// An open hand (one with a call other than a concealed kan) is never
/// credited a closed-only yaku: whatever the decomposition, situation and
/// winning tile, the detected yaku hold no menzen tsumo, riichi, double
/// riichi, ippatsu, pinfu, iipeiko, ryanpeiko or nine gates.
pub proof fn lemma_open_hand_has_no_closed_only_yaku(
    hand: HandShape,
    situation: WinSituation,
    melds: Seq<Meld>,
    w: TileType,
    placement: WinningTilePlacement,
)
    requires
        exists|i: int| 0 <= i < melds.len() && !(#[trigger] melds[i]).spec_is_concealed(),
    ensures
        forall|j: int|
            0 <= j < yaku_spec(hand, situation, melds, w, placement).len() ==> {
                let y = (#[trigger] yaku_spec(hand, situation, melds, w, placement)[j]).yaku;
                &&& y != YakuName::MenzenTsumo
                &&& y != YakuName::Riichi
                &&& y != YakuName::DoubleRiichi
                &&& y != YakuName::Ippatsu
                &&& y != YakuName::Pinfu
                &&& y != YakuName::Iipeiko
                &&& y != YakuName::Ryanpeiko
                &&& y != YakuName::ChuurenPoutou
                &&& y != YakuName::ChuurenPoutou9
            },
{
    reveal(menzen);
    assert(!menzen(melds));
    let a = yakuman_part(hand, situation, melds, w, placement);
    let b = basic_part(hand, situation, melds, w, placement);
    let c = pattern_part(hand, situation, melds, w, placement);
    lemma_yakuman_part_open(hand, situation, melds, w, placement);
    lemma_basic_part_open(hand, situation, melds, w, placement);
    lemma_pattern_part_open(hand, situation, melds, w, placement);
    lemma_no_closed_only_concat(a, b);
    lemma_no_closed_only_concat(a + b, c);
    let all = yaku_spec(hand, situation, melds, w, placement);
    assert(no_closed_only(all));
    assert forall|j: int| 0 <= j < all.len() implies !is_closed_only(#[trigger] all[j].yaku) by {}
}

// ─── Executable helpers ─────────────────────────────────────────────────

pub open spec fn melds_wf(melds: Seq<Meld>) -> bool {
    forall|i: int| 0 <= i < melds.len() ==> (#[trigger] melds[i]).wf()
}

/// Every tile kind of the win, as `win_kinds` lists them.
fn collect_all_tiles(hand: &WinningHand, melds: &[Meld]) -> (v: Vec<TileType>)
    requires
        hand.wf(),
    ensures
        v@ == win_kinds(hand@, melds@),
{
    let mut tiles = hand.all_tiles();
    let ghost base = tiles@;
    let mut i: usize = 0;
    while i < melds.len()
        invariant
            i <= melds@.len(),
            base == hand.spec_all_tiles(),
            tiles@ == base + meld_kinds(melds@, i as int),
        decreases melds@.len() - i,
    {
        let m = &melds[i];
        let ghost before = tiles@;
        let mut k: usize = 0;
        while k < m.tiles.len()
            invariant
                k <= m.tiles@.len(),
                tiles@ == before + m.tiles@.take(k as int).map_values(|t: Tile| t.spec_tile_type()),
            decreases m.tiles@.len() - k,
        {
            tiles.push(m.tiles[k].tile_type());
            proof {
                assert(m.tiles@.take(k + 1).map_values(|t: Tile| t.spec_tile_type()) =~= m.tiles@.take(
                    k as int,
                ).map_values(|t: Tile| t.spec_tile_type()).push(m.tiles@[k as int].spec_tile_type()));
            }
            k += 1;
        }
        proof {
            assert(m.tiles@.take(m.tiles@.len() as int) =~= m.tiles@);
            assert(base + meld_kinds(melds@, i + 1) =~= base + meld_kinds(melds@, i as int)
                + melds@[i as int].tiles@.map_values(|t: Tile| t.spec_tile_type()));
        }
        i += 1;
    }
    tiles
}

fn count_in(tiles: &Vec<TileType>, k: u8) -> (n: usize)
    ensures
        n == count_type(tiles@, tiles@.len() as int, k as int),
{
    let mut n: usize = 0;
    let mut i: usize = 0;
    while i < tiles.len()
        invariant
            i <= tiles@.len(),
            n == count_type(tiles@, i as int, k as int),
            n <= i,
        decreases tiles@.len() - i,
    {
        if tiles[i].0 == k {
            n += 1;
        }
        i += 1;
    }
    n
}

#[verifier::loop_isolation(false)]
fn all_honor(tiles: &Vec<TileType>) -> (b: bool)
    ensures
        b == all_kinds(tiles@, |t: TileType| t.spec_is_honor()),
{
    reveal(all_kinds);
    let mut i: usize = 0;
    while i < tiles.len()
        invariant
            i <= tiles@.len(),
            forall|x: int| 0 <= x < i ==> (#[trigger] tiles@[x]).spec_is_honor(),
        decreases tiles@.len() - i,
    {
        if !tiles[i].is_honor() {
            return false;
        }
        i += 1;
    }
    true
}

#[verifier::loop_isolation(false)]
fn all_green(tiles: &Vec<TileType>) -> (b: bool)
    ensures
        b == all_kinds(tiles@, |t: TileType| is_green(t)),
{
    reveal(all_kinds);
    let mut i: usize = 0;
    while i < tiles.len()
        invariant
            i <= tiles@.len(),
            forall|x: int| 0 <= x < i ==> is_green(#[trigger] tiles@[x]),
        decreases tiles@.len() - i,
    {
        let k = tiles[i].0;
        if !(k == 19 || k == 20 || k == 21 || k == 23 || k == 25 || k == 32) {
            return false;
        }
        i += 1;
    }
    true
}

#[verifier::loop_isolation(false)]
fn all_terminal(tiles: &Vec<TileType>) -> (b: bool)
    ensures
        b == all_kinds(tiles@, |t: TileType| t.spec_is_terminal()),
{
    reveal(all_kinds);
    let mut i: usize = 0;
    while i < tiles.len()
        invariant
            i <= tiles@.len(),
            forall|x: int| 0 <= x < i ==> (#[trigger] tiles@[x]).spec_is_terminal(),
        decreases tiles@.len() - i,
    {
        if !tiles[i].is_terminal() {
            return false;
        }
        i += 1;
    }
    true
}

#[verifier::loop_isolation(false)]
fn all_simple(tiles: &Vec<TileType>) -> (b: bool)
    ensures
        b == all_kinds(tiles@, |t: TileType| is_simple(t)),
{
    reveal(all_kinds);
    let mut i: usize = 0;
    while i < tiles.len()
        invariant
            i <= tiles@.len(),
            forall|x: int| 0 <= x < i ==> is_simple(#[trigger] tiles@[x]),
        decreases tiles@.len() - i,
    {
        if !(tiles[i].is_number() && !tiles[i].is_terminal()) {
            return false;
        }
        i += 1;
    }
    true
}

#[verifier::loop_isolation(false)]
fn all_yaochuuhai(tiles: &Vec<TileType>) -> (b: bool)
    ensures
        b == all_kinds(tiles@, |t: TileType| t.spec_is_yaochuuhai()),
{
    reveal(all_kinds);
    let mut i: usize = 0;
    while i < tiles.len()
        invariant
            i <= tiles@.len(),
            forall|x: int| 0 <= x < i ==> (#[trigger] tiles@[x]).spec_is_yaochuuhai(),
        decreases tiles@.len() - i,
    {
        if !tiles[i].is_yaochuuhai() {
            return false;
        }
        i += 1;
    }
    true
}

#[verifier::loop_isolation(false)]
fn any_honor(tiles: &Vec<TileType>) -> (b: bool)
    ensures
        b == any_kind(tiles@, |t: TileType| t.spec_is_honor()),
{
    reveal(any_kind);
    let mut i: usize = 0;
    while i < tiles.len()
        invariant
            i <= tiles@.len(),
            forall|x: int| 0 <= x < i ==> !(#[trigger] tiles@[x]).spec_is_honor(),
        decreases tiles@.len() - i,
    {
        if tiles[i].is_honor() {
            return true;
        }
        i += 1;
    }
    false
}

#[verifier::loop_isolation(false)]
fn any_number(tiles: &Vec<TileType>) -> (b: bool)
    ensures
        b == any_kind(tiles@, |t: TileType| t.spec_is_number()),
{
    reveal(any_kind);
    let mut i: usize = 0;
    while i < tiles.len()
        invariant
            i <= tiles@.len(),
            forall|x: int| 0 <= x < i ==> !(#[trigger] tiles@[x]).spec_is_number(),
        decreases tiles@.len() - i,
    {
        if tiles[i].is_number() {
            return true;
        }
        i += 1;
    }
    false
}

/// Whether all number tiles share the suit of the first one, and one exists.
#[verifier::loop_isolation(false)]
fn single_suit(tiles: &Vec<TileType>) -> (b: bool)
    ensures
        b == is_flush(tiles@),
{
    reveal(is_flush);
    reveal(any_kind);
    let mut first: Option<Suit> = None;
    let mut i: usize = 0;
    while i < tiles.len()
        invariant
            i <= tiles@.len(),
            first is None <==> (forall|x: int| 0 <= x < i ==> !(#[trigger] tiles@[x]).spec_is_number()),
            first matches Some(s) ==> (forall|x: int|
                0 <= x < i && (#[trigger] tiles@[x]).spec_is_number() ==> tiles@[x].spec_suit() == s),
            first matches Some(s) ==> exists|x: int| 0 <= x < i && (#[trigger] tiles@[x]).spec_is_number() && tiles@[x].spec_suit() == s,
        decreases tiles@.len() - i,
    {
        let t = tiles[i];
        if t.is_number() {
            match first {
                None => {
                    first = Some(t.suit());
                },
                Some(s) => {
                    if s != t.suit() {
                        proof {
                            let x = choose|x: int| 0 <= x < i && (#[trigger] tiles@[x]).spec_is_number() && tiles@[x].spec_suit() == s;
                            assert(tiles@[x].spec_suit() != tiles@[i as int].spec_suit());
                        }
                        return false;
                    }
                },
            }
        }
        i += 1;
    }
    match first {
        None => false,
        Some(s) => {
            proof {
                let x = choose|x: int| 0 <= x < tiles@.len() && (#[trigger] tiles@[x]).spec_is_number() && tiles@[x].spec_suit() == s;
                assert(any_kind(tiles@, |t: TileType| t.spec_is_number()));
            }
            true
        },
    }
}

/// The lowest kind of a chi, `None` for other calls.
fn meld_sequence_start(meld: &Meld) -> (r: Option<TileType>)
    requires
        meld.wf(),
    ensures
        meld.kind == MeldKind::Chi ==> r == Some(chi_start(*meld)),
        meld.kind != MeldKind::Chi ==> r is None,
{
    if meld.kind != MeldKind::Chi {
        return None;
    }
    let a = meld.tiles[0].tile_type().0;
    let b = meld.tiles[1].tile_type().0;
    let c = meld.tiles[2].tile_type().0;
    let bc = if b <= c {
        b
    } else {
        c
    };
    Some(TileType(if a <= bc {
        a
    } else {
        bc
    }))
}

/// A triplet of kind `k`, concealed or called.
#[verifier::loop_isolation(false)]
fn has_triplet(hand: &WinningHand, melds: &[Meld], k: u8) -> (b: bool)
    requires
        melds_wf(melds@),
    ensures
        b == triplet_present(hand@, melds@, k as int),
{
    reveal(triplet_present);
    let groups = hand.groups();
    let mut i: usize = 0;
    while i < groups.len()
        invariant
            i <= groups@.len(),
            groups@ == hand.spec_groups(),
            forall|x: int|
                0 <= x < i ==> !((#[trigger] groups@[x]).kind == MentsuKind::Koutsu && groups@[x].tile_type.0
                    == k),
        decreases groups@.len() - i,
    {
        if groups[i].kind == MentsuKind::Koutsu && groups[i].tile_type.0 == k {
            return true;
        }
        i += 1;
    }
    let mut j: usize = 0;
    while j < melds.len()
        invariant
            j <= melds@.len(),
            melds_wf(melds@),
            forall|x: int|
                0 <= x < j ==> !(is_triplet_meld(#[trigger] melds@[x]) && melds@[x].first_kind().0 == k),
        decreases melds@.len() - j,
    {
        if melds[j].kind != MeldKind::Chi && melds[j].tiles[0].tile_type().0 == k {
            return true;
        }
        j += 1;
    }
    false
}

/// A sequence starting at kind `k`, concealed or called.
#[verifier::loop_isolation(false)]
fn has_sequence_start(hand: &WinningHand, melds: &[Meld], k: u8) -> (b: bool)
    requires
        melds_wf(melds@),
    ensures
        b == sequence_present(hand@, melds@, k as int),
{
    reveal(sequence_present);
    let groups = hand.groups();
    let mut i: usize = 0;
    while i < groups.len()
        invariant
            i <= groups@.len(),
            groups@ == hand.spec_groups(),
            forall|x: int|
                0 <= x < i ==> !((#[trigger] groups@[x]).kind == MentsuKind::Shuntsu && groups@[x].tile_type.0
                    == k),
        decreases groups@.len() - i,
    {
        if groups[i].kind == MentsuKind::Shuntsu && groups[i].tile_type.0 == k {
            return true;
        }
        i += 1;
    }
    let mut j: usize = 0;
    while j < melds.len()
        invariant
            j <= melds@.len(),
            melds_wf(melds@),
            forall|x: int|
                0 <= x < j ==> !((#[trigger] melds@[x]).kind == MeldKind::Chi && chi_start(melds@[x]).0 == k),
        decreases melds@.len() - j,
    {
        if let Some(start) = meld_sequence_start(&melds[j]) {
            if start.0 == k {
                return true;
            }
        }
        j += 1;
    }
    false
}

fn count_groups(groups: &[ClosedGroup], kind: MentsuKind) -> (n: usize)
    ensures
        n == count_groups_of(groups@, kind, groups@.len() as int),
{
    let mut n: usize = 0;
    let mut i: usize = 0;
    while i < groups.len()
        invariant
            i <= groups@.len(),
            n == count_groups_of(groups@, kind, i as int),
            n <= i,
        decreases groups@.len() - i,
    {
        if groups[i].kind == kind {
            n += 1;
        }
        i += 1;
    }
    n
}

fn count_selected_melds(melds: &[Meld], selector: u8) -> (n: usize)
    ensures
        n == count_melds(melds@, selector as int, melds@.len() as int),
{
    let mut n: usize = 0;
    let mut i: usize = 0;
    while i < melds.len()
        invariant
            i <= melds@.len(),
            n == count_melds(melds@, selector as int, i as int),
            n <= i,
        decreases melds@.len() - i,
    {
        let k = melds[i].kind;
        let selected = if selector == 0 {
            k != MeldKind::Chi
        } else if selector == 1 {
            k == MeldKind::Pon || k == MeldKind::Minkan || k == MeldKind::Kakan
        } else if selector == 2 {
            k == MeldKind::Ankan || k == MeldKind::Minkan || k == MeldKind::Kakan
        } else {
            k == MeldKind::Ankan
        };
        if selected {
            n += 1;
        }
        i += 1;
    }
    n
}

fn count_duplicate_sequences(groups: &[ClosedGroup]) -> (n: usize)
    requires
        groups@.len() <= 4,
    ensures
        n == duplicate_sequence_pairs(groups@, groups@.len() as int),
{
    let mut n: usize = 0;
    let mut j: usize = 0;
    while j < groups.len()
        invariant
            j <= groups@.len(),
            groups@.len() <= 4,
            n == duplicate_sequence_pairs(groups@, j as int),
            n <= 4 * j,
        decreases groups@.len() - j,
    {
        if groups[j].kind == MentsuKind::Shuntsu {
            let mut m: usize = 0;
            let mut i: usize = 0;
            while i < j
                invariant
                    i <= j,
                    j < groups@.len(),
                    m == equal_sequences_before(groups@, j as int, i as int),
                    m <= i,
                decreases j - i,
            {
                if groups[i].kind == MentsuKind::Shuntsu && groups[i].tile_type == groups[j].tile_type {
                    m += 1;
                }
                i += 1;
            }
            n += m;
        }
        j += 1;
    }
    n
}

/// The number of kinds in `lo..hi` with a triplet.
fn count_triplet_kinds(hand: &WinningHand, melds: &[Meld], lo: u8, hi: u8) -> (n: usize)
    requires
        melds_wf(melds@),
        lo <= hi,
    ensures
        n == triplet_kinds_between(hand@, melds@, lo as int, hi as int),
{
    let mut n: usize = 0;
    let mut k: u8 = lo;
    while k < hi
        invariant
            lo <= k <= hi,
            melds_wf(melds@),
            n == triplet_kinds_between(hand@, melds@, lo as int, k as int),
            n <= k - lo,
        decreases hi - k,
    {
        if has_triplet(hand, melds, k) {
            n += 1;
        }
        k += 1;
    }
    n
}

/// The kinds of the concealed and called triplets, in order.
fn triplet_candidates(hand: &WinningHand, melds: &[Meld]) -> (v: Vec<TileType>)
    requires
        melds_wf(melds@),
    ensures
        v@ == triplet_kind_candidates(hand@, melds@),
{
    let groups = hand.groups();
    let mut v: Vec<TileType> = Vec::new();
    let mut i: usize = 0;
    while i < groups.len()
        invariant
            i <= groups@.len(),
            groups@ == hand.spec_groups(),
            v@ == group_triplet_kinds(groups@, i as int),
        decreases groups@.len() - i,
    {
        if groups[i].kind == MentsuKind::Koutsu {
            v.push(groups[i].tile_type);
        }
        proof {
            assert(group_triplet_kinds(groups@, i + 1) =~= group_triplet_kinds(groups@, i as int) + (if groups@[i as int].kind
                == MentsuKind::Koutsu {
                seq![groups@[i as int].tile_type]
            } else {
                seq![]
            }));
        }
        i += 1;
    }
    let ghost from_groups = v@;
    let mut j: usize = 0;
    while j < melds.len()
        invariant
            j <= melds@.len(),
            melds_wf(melds@),
            v@ == from_groups + meld_triplet_kinds(melds@, j as int),
        decreases melds@.len() - j,
    {
        if melds[j].kind != MeldKind::Chi {
            v.push(melds[j].tiles[0].tile_type());
        }
        proof {
            assert(from_groups + meld_triplet_kinds(melds@, j + 1) =~= from_groups + meld_triplet_kinds(
                melds@,
                j as int,
            ) + (if is_triplet_meld(melds@[j as int]) {
                seq![melds@[j as int].first_kind()]
            } else {
                seq![]
            }));
        }
        j += 1;
    }
    v
}

fn contains_kind(v: &Vec<TileType>, k: TileType) -> (b: bool)
    ensures
        b == v@.contains(k),
{
    let mut i: usize = 0;
    while i < v.len()
        invariant
            i <= v@.len(),
            forall|x: int| 0 <= x < i ==> v@[x] != k,
        decreases v@.len() - i,
    {
        if v[i] == k {
            return true;
        }
        i += 1;
    }
    false
}

/// The kinds with repeats dropped, first occurrences kept in order.
fn distinct_kinds(kinds: &Vec<TileType>) -> (v: Vec<TileType>)
    ensures
        v@ == distinct_prefix(kinds@, kinds@.len() as int),
{
    let mut v: Vec<TileType> = Vec::new();
    let mut i: usize = 0;
    while i < kinds.len()
        invariant
            i <= kinds@.len(),
            v@ == distinct_prefix(kinds@, i as int),
        decreases kinds@.len() - i,
    {
        if !contains_kind(&v, kinds[i]) {
            v.push(kinds[i]);
        }
        i += 1;
    }
    v
}

/// The value yaku of the triplet kinds, in order.
fn yakuhai_results(kinds: &Vec<TileType>, situation: &WinSituation, out: &mut Vec<YakuResult>)
    ensures
        final(out)@ == old(out)@ + yakuhai_list(kinds@, *situation, kinds@.len() as int),
{
    let ghost start = out@;
    let mut i: usize = 0;
    while i < kinds.len()
        invariant
            i <= kinds@.len(),
            out@ == start + yakuhai_list(kinds@, *situation, i as int),
        decreases kinds@.len() - i,
    {
        let t = kinds[i];
        let ghost before = out@;
        if t.is_dragon() {
            out.push(YakuResult::new(YakuName::YakuhaiSangen, 1));
        }
        if t == situation.seat_wind {
            out.push(YakuResult::new(YakuName::YakuhaiJikaze, 1));
        }
        if t == situation.field_wind {
            out.push(YakuResult::new(YakuName::YakuhaiBakaze, 1));
        }
        proof {
            assert(out@ =~= before + yakuhai_of(t, *situation));
            assert(start + yakuhai_list(kinds@, *situation, i + 1) =~= start + yakuhai_list(
                kinds@,
                *situation,
                i as int,
            ) + yakuhai_of(kinds@[i as int], *situation));
        }
        i += 1;
    }
}

fn ron_completes_triplet(hand: &WinningHand, situation: &WinSituation, w: TileType, placement: WinningTilePlacement) -> (b: bool)
    ensures
        b == ron_makes_minkou(hand@, *situation, w, placement),
{
    if situation.is_tsumo {
        return false;
    }
    match placement {
        WinningTilePlacement::Group(index) => {
            let groups = hand.groups();
            index < groups.len() && groups[index].kind == MentsuKind::Koutsu && groups[index].tile_type
                == w
        },
        _ => false,
    }
}

fn count_concealed_triplets(
    hand: &WinningHand,
    melds: &[Meld],
    situation: &WinSituation,
    w: TileType,
    placement: WinningTilePlacement,
) -> (n: usize)
    requires
        hand.spec_groups().len() <= 4,
        melds@.len() <= 4,
    ensures
        n == concealed_triplets(hand@, melds@, *situation, w, placement),
{
    let groups = hand.groups();
    let koutsu = count_groups(groups, MentsuKind::Koutsu);
    let ankan = count_selected_melds(melds, 3);
    proof {
        lemma_count_groups_bound(groups@, MentsuKind::Koutsu, groups@.len() as int);
        lemma_count_melds_bound(melds@, 3, melds@.len() as int);
    }
    let n = koutsu + ankan;
    if ron_completes_triplet(hand, situation, w, placement) && n > 0 {
        n - 1
    } else {
        n
    }
}

proof fn lemma_count_groups_bound(groups: Seq<ClosedGroup>, kind: MentsuKind, n: int)
    requires
        0 <= n,
    ensures
        0 <= count_groups_of(groups, kind, n) <= n,
    decreases n,
{
    if n > 0 {
        lemma_count_groups_bound(groups, kind, n - 1);
    }
}

proof fn lemma_count_melds_bound(melds: Seq<Meld>, selector: int, n: int)
    requires
        0 <= n,
    ensures
        0 <= count_melds(melds, selector, n) <= n,
    decreases n,
{
    if n > 0 {
        lemma_count_melds_bound(melds, selector, n - 1);
    }
}

fn pinfu_wait(hand: &WinningHand, w: TileType, placement: WinningTilePlacement) -> (b: bool)
    requires
        hand.wf(),
        w.wf(),
    ensures
        b == is_pinfu_wait(hand@, w, placement),
{
    let index = match placement {
        WinningTilePlacement::Group(index) => index,
        _ => {
            return false;
        },
    };
    let groups = hand.groups();
    if index >= groups.len() {
        return false;
    }
    let g = groups[index];
    assert(g.wf());
    if g.kind != MentsuKind::Shuntsu || g.tile_type.suit() != w.suit() {
        return false;
    }
    let start = g.tile_type.rank();
    let win = w.rank();
    (win == start && 1 <= start && start <= 6) || (win as u32 == start as u32 + 2 && 2 <= start && start
        <= 7)
}

/// The base kind of the suit of a number kind (man otherwise).
fn base_of(s: Suit) -> (b: u8)
    ensures
        b == suit_base(s),
{
    match s {
        Suit::Man => 0,
        Suit::Pin => 9,
        Suit::Sou => 18,
        _ => 0,
    }
}

/// Nine gates: `Some(pure)` when the hand is nine gates.
fn chuuren(hand: &WinningHand, melds: &[Meld], tiles: &Vec<TileType>, w: TileType) -> (r: Option<bool>)
    requires
        tiles@ == win_kinds(hand@, melds@),
        hand.wf(),
        w.wf(),
    ensures
        r is Some <==> is_chuuren(hand@, melds@),
        r matches Some(pure) ==> pure == is_nine_sided_wait(hand@, melds@, w),
{
    let standard = match hand {
        WinningHand::Standard { .. } => true,
        _ => false,
    };
    if !standard || melds.len() != 0 || tiles.len() != 14 {
        return None;
    }
    let s = tiles[0].suit();
    let base = base_of(s);
    let mut counts: Vec<usize> = Vec::new();
    let mut enough = true;
    let mut extra: usize = 0;
    let mut i: u8 = 0;
    while i < 9
        invariant
            i <= 9,
            base <= 18,
            tiles@.len() == 14,
            counts@.len() == i,
            forall|x: int| 0 <= x < i ==> counts@[x] == count_type(tiles@, 14, base + x),
            enough == (forall|x: int| 0 <= x < i ==> count_type(tiles@, 14, base + x) >= #[trigger] chuuren_required(x)),
            extra == chuuren_extra(tiles@, base as int, i as int),
            extra <= 14 * i,
        decreases 9 - i,
    {
        let c = count_in(tiles, base + i);
        proof {
            crate::counts::lemma_count_type_bound(tiles@, 14, base + i);
        }
        let need: usize = if i == 0 || i == 8 {
            3
        } else {
            1
        };
        assert(chuuren_required(i as int) == need);
        if c < need {
            enough = false;
        } else {
            extra = extra + (c - need);
        }
        counts.push(c);
        i += 1;
    }
    if !(enough && extra == 1) {
        return None;
    }
    let same_suit = w.suit() == s;
    if !same_suit || w.0 < base || w.0 - base >= 9 {
        return Some(false);
    }
    let wi = w.0 - base;
    let mut pure = true;
    let mut x: usize = 0;
    while x < 9
        invariant
            x <= 9,
            wi < 9,
            counts@.len() == 9,
            forall|y: int| 0 <= y < 9 ==> counts@[y] == count_type(tiles@, 14, base + y),
            pure == (forall|y: int| 0 <= y < x ==> counts@[y] == #[trigger] chuuren_required(y) + (if y == wi {
                1int
            } else {
                0int
            })),
        decreases 9 - x,
    {
        let need: usize = if x == 0 || x == 8 {
            3
        } else {
            1
        };
        assert(chuuren_required(x as int) == need);
        let expected = need + if x == wi as usize {
            1
        } else {
            0
        };
        if counts[x] != expected {
            pure = false;
        }
        x += 1;
    }
    proof {
        assert(forall|y: int| 0 <= y < 9 ==> count_type(tiles@, tiles@.len() as int, base + y) == #[trigger] counts@[y]);
    }
    Some(pure)
}

/// Thirteen-sided kokushi wait.
fn thirteen_wait(hand: &WinningHand, melds: &[Meld], tiles: &Vec<TileType>, w: TileType) -> (b: bool)
    requires
        tiles@ == win_kinds(hand@, melds@),
    ensures
        b == is_thirteen_wait(hand@, melds@, w),
{
    if melds.len() != 0 || !w.is_yaochuuhai() {
        return false;
    }
    let orphans: [u8; 13] = [0, 8, 9, 17, 18, 26, 27, 28, 29, 30, 31, 32, 33];
    assert(forall|n: int| 0 <= n < 13 ==> orphans@[n] == crate::model::yaochuuhai_kinds()[n].0);
    let mut n: usize = 0;
    while n < 13
        invariant
            n <= 13,
            tiles@ == win_kinds(hand@, melds@),
            forall|y: int| 0 <= y < 13 ==> orphans@[y] == crate::model::yaochuuhai_kinds()[y].0,
            forall|y: int|
                0 <= y < n ==> count_type(tiles@, tiles@.len() as int, #[trigger] crate::model::yaochuuhai_kinds()[y].0 as int)
                    == if crate::model::yaochuuhai_kinds()[y] == w {
                    2int
                } else {
                    1int
                },
        decreases 13 - n,
    {
        let k = orphans[n];
        let c = count_in(tiles, k);
        let expected: usize = if k == w.0 {
            2
        } else {
            1
        };
        if c != expected {
            assert(count_type(tiles@, tiles@.len() as int, crate::model::yaochuuhai_kinds()[n as int].0 as int)
                != if crate::model::yaochuuhai_kinds()[n as int] == w {
                2int
            } else {
                1int
            });
            return false;
        }
        n += 1;
    }
    true
}

#[verifier::loop_isolation(false)]
fn chanta_shape(hand: &WinningHand, melds: &[Meld], terminal_only: bool) -> (b: bool)
    requires
        hand.wf(),
        melds_wf(melds@),
    ensures
        terminal_only ==> b == is_junchan_shape(hand@, melds@),
        !terminal_only ==> b == is_chanta_shape(hand@, melds@),
{
    reveal(is_chanta_shape);
    reveal(is_junchan_shape);
    let groups = hand.groups();
    let mut i: usize = 0;
    while i < groups.len()
        invariant
            i <= groups@.len(),
            groups@ == hand.spec_groups(),
            forall|x: int| 0 <= x < groups@.len() ==> (#[trigger] groups@[x]).wf(),
            terminal_only ==> forall|x: int| 0 <= x < i ==> group_has_terminal(#[trigger] groups@[x]),
            !terminal_only ==> forall|x: int| 0 <= x < i ==> group_has_yaochuuhai(#[trigger] groups@[x]),
        decreases groups@.len() - i,
    {
        let g = groups[i];
        let last = TileType(g.tile_type.0 + 2);
        let ok = match g.kind {
            MentsuKind::Shuntsu => if terminal_only {
                g.tile_type.is_terminal() || last.is_terminal()
            } else {
                g.tile_type.is_yaochuuhai() || last.is_yaochuuhai()
            },
            MentsuKind::Koutsu => if terminal_only {
                g.tile_type.is_terminal()
            } else {
                g.tile_type.is_yaochuuhai()
            },
        };
        if !ok {
            return false;
        }
        i += 1;
    }
    let pair = hand.pair();
    let pair_ok = if terminal_only {
        pair.is_terminal()
    } else {
        pair.is_yaochuuhai()
    };
    if !pair_ok {
        return false;
    }
    let mut j: usize = 0;
    while j < melds.len()
        invariant
            j <= melds@.len(),
            melds_wf(melds@),
            terminal_only ==> forall|x: int| 0 <= x < j ==> meld_has_terminal(#[trigger] melds@[x]),
            !terminal_only ==> forall|x: int| 0 <= x < j ==> meld_has_yaochuuhai(#[trigger] melds@[x]),
        decreases melds@.len() - j,
    {
        let ok = match meld_sequence_start(&melds[j]) {
            Some(start) => start.is_terminal() || TileType(start.0 + 2).is_terminal(),
            None => {
                let k = melds[j].tiles[0].tile_type();
                if terminal_only {
                    k.is_terminal()
                } else {
                    k.is_yaochuuhai()
                }
            },
        };
        if !ok {
            return false;
        }
        j += 1;
    }
    true
}

#[verifier::loop_isolation(false)]
fn any_sequence(hand: &WinningHand, melds: &[Meld]) -> (b: bool)
    ensures
        b == has_sequence(hand@, melds@),
{
    reveal(has_sequence);
    if count_groups(hand.groups(), MentsuKind::Shuntsu) > 0 {
        return true;
    }
    let mut j: usize = 0;
    while j < melds.len()
        invariant
            j <= melds@.len(),
            count_groups_of(hand.spec_groups(), MentsuKind::Shuntsu, hand.spec_groups().len() as int) == 0,
            forall|x: int| 0 <= x < j ==> (#[trigger] melds@[x]).kind != MeldKind::Chi,
        decreases melds@.len() - j,
    {
        if melds[j].kind == MeldKind::Chi {
            return true;
        }
        j += 1;
    }
    false
}

#[verifier::loop_isolation(false)]
fn three_colour_triplets(hand: &WinningHand, melds: &[Meld]) -> (b: bool)
    requires
        melds_wf(melds@),
    ensures
        b == sanshoku_triplets(hand@, melds@),
{
    reveal(sanshoku_triplets);
    let mut r: u8 = 0;
    while r < 9
        invariant
            r <= 9,
            melds_wf(melds@),
            forall|x: int|
                0 <= x < r ==> !(#[trigger] triplet_present(hand@, melds@, x) && triplet_present(
                    hand@,
                    melds@,
                    9 + x,
                ) && triplet_present(hand@, melds@, 18 + x)),
        decreases 9 - r,
    {
        if has_triplet(hand, melds, r) && has_triplet(hand, melds, 9 + r) && has_triplet(hand, melds, 18 + r) {
            return true;
        }
        r += 1;
    }
    false
}

#[verifier::loop_isolation(false)]
fn three_colour_sequences(hand: &WinningHand, melds: &[Meld]) -> (b: bool)
    requires
        melds_wf(melds@),
    ensures
        b == sanshoku_sequences(hand@, melds@),
{
    reveal(sanshoku_sequences);
    let mut r: u8 = 0;
    while r < 9
        invariant
            r <= 9,
            melds_wf(melds@),
            forall|x: int|
                0 <= x < r ==> !(#[trigger] sequence_present(hand@, melds@, x) && sequence_present(
                    hand@,
                    melds@,
                    9 + x,
                ) && sequence_present(hand@, melds@, 18 + x)),
        decreases 9 - r,
    {
        if has_sequence_start(hand, melds, r) && has_sequence_start(hand, melds, 9 + r)
            && has_sequence_start(hand, melds, 18 + r) {
            return true;
        }
        r += 1;
    }
    false
}

#[verifier::loop_isolation(false)]
fn pure_straight(hand: &WinningHand, melds: &[Meld]) -> (b: bool)
    requires
        melds_wf(melds@),
    ensures
        b == straight(hand@, melds@),
{
    reveal(straight);
    let mut s: u8 = 0;
    while s < 3
        invariant
            s <= 3,
            melds_wf(melds@),
            forall|x: int|
                0 <= x < s ==> !(#[trigger] sequence_present(hand@, melds@, 9 * x) && sequence_present(
                    hand@,
                    melds@,
                    9 * x + 3,
                ) && sequence_present(hand@, melds@, 9 * x + 6)),
        decreases 3 - s,
    {
        let base = 9 * s;
        if has_sequence_start(hand, melds, base) && has_sequence_start(hand, melds, base + 3)
            && has_sequence_start(hand, melds, base + 6) {
            return true;
        }
        s += 1;
    }
    false
}

fn start_when(cond: bool, yaku: YakuName, han: u8) -> (out: Vec<YakuResult>)
    ensures
        out@ == yaku_if(cond, yaku, han),
{
    let mut out: Vec<YakuResult> = Vec::new();
    if cond {
        out.push(YakuResult::new(yaku, han));
    }
    assert(out@ =~= yaku_if(cond, yaku, han));
    out
}

/// Appends `first` when `c1`, otherwise `second` when `c2`.
fn push_either(
    out: &mut Vec<YakuResult>,
    c1: bool,
    first: YakuName,
    first_han: u8,
    c2: bool,
    second: YakuName,
    second_han: u8,
)
    ensures
        final(out)@ == old(out)@ + (if c1 {
            seq![YakuResult { yaku: first, han: first_han }]
        } else {
            yaku_if(c2, second, second_han)
        }),
{
    if c1 {
        out.push(YakuResult::new(first, first_han));
        assert(out@ =~= old(out)@ + seq![YakuResult { yaku: first, han: first_han }]);
    } else {
        push_when(out, c2, second, second_han);
    }
}

fn push_when(out: &mut Vec<YakuResult>, cond: bool, yaku: YakuName, han: u8)
    ensures
        final(out)@ == old(out)@ + yaku_if(cond, yaku, han),
{
    if cond {
        out.push(YakuResult::new(yaku, han));
    }
    assert(out@ =~= old(out)@ + yaku_if(cond, yaku, han));
}

/// Inputs that a decomposition of a real win satisfies.
pub open spec fn yaku_inputs_wf(hand: HandShape, melds: Seq<Meld>, winning_tile: Tile) -> bool {
    &&& hand.wf()
    &&& melds_wf(melds)
    &&& melds.len() <= 4
    &&& winning_tile.wf()
}

fn yakuman_segment(
    hand: &WinningHand,
    situation: &WinSituation,
    melds: &[Meld],
    tiles: &Vec<TileType>,
    w: TileType,
    placement: WinningTilePlacement,
) -> (out: Vec<YakuResult>)
    requires
        hand.wf(),
        melds_wf(melds@),
        melds@.len() <= 4,
        w.wf(),
        tiles@ == win_kinds(hand@, melds@),
    ensures
        out@ == yakuman_part(hand@, *situation, melds@, w, placement),
{
    let mut out: Vec<YakuResult> = Vec::new();
    let standard = match hand {
        WinningHand::Standard { .. } => true,
        _ => false,
    };
    let concealed = count_concealed_triplets(hand, melds, situation, w, placement);
    if standard && concealed >= 4 {
        if placement == WinningTilePlacement::Pair && hand.pair() == w {
            out.push(YakuResult::new(YakuName::SuuankouTanki, 26));
        } else {
            out.push(YakuResult::new(YakuName::Suuankou, 13));
        }
    }
    let dragons = count_triplet_kinds(hand, melds, 31, 34);
    push_when(&mut out, dragons == 3, YakuName::Daisangen, 13);
    let winds = count_triplet_kinds(hand, melds, 27, 31);
    if winds == 4 {
        out.push(YakuResult::new(YakuName::Daisuushii, 26));
    } else {
        push_when(&mut out, winds == 3 && hand.pair().is_wind(), YakuName::Shousuushii, 13);
    }
    push_when(&mut out, all_honor(tiles), YakuName::Tsuuiisou, 13);
    push_when(&mut out, all_green(tiles), YakuName::Ryuuiisou, 13);
    push_when(&mut out, all_terminal(tiles), YakuName::Chinroutou, 13);
    let kans = count_selected_melds(melds, 2);
    push_when(&mut out, kans == 4, YakuName::Suukantsu, 13);
    assert(out@ =~= yakuman_part(hand@, *situation, melds@, w, placement));
    out
}

#[verifier::loop_isolation(false)]
fn is_menzen(melds: &[Meld]) -> (b: bool)
    ensures
        b == menzen(melds@),
{
    reveal(menzen);
    let mut i: usize = 0;
    while i < melds.len()
        invariant
            i <= melds@.len(),
            forall|x: int| 0 <= x < i ==> (#[trigger] melds@[x]).spec_is_concealed(),
        decreases melds@.len() - i,
    {
        if !melds[i].is_concealed() {
            return false;
        }
        i += 1;
    }
    true
}

#[verifier::rlimit(60)]
fn basic_segment(
    hand: &WinningHand,
    situation: &WinSituation,
    melds: &[Meld],
    tiles: &Vec<TileType>,
    w: TileType,
    placement: WinningTilePlacement,
) -> (out: Vec<YakuResult>)
    requires
        hand.wf(),
        melds_wf(melds@),
        melds@.len() <= 4,
        w.wf(),
        tiles@ == win_kinds(hand@, melds@),
    ensures
        out@ == basic_part(hand@, *situation, melds@, w, placement),
{
    let closed = is_menzen(melds);
    let standard = match hand {
        WinningHand::Standard { .. } => true,
        _ => false,
    };
    let groups = hand.groups();
    let mut out = start_when(situation.is_tsumo && closed, YakuName::MenzenTsumo, 1);
    push_either(
        &mut out,
        situation.is_double_riichi && closed,
        YakuName::DoubleRiichi,
        2,
        situation.is_riichi && closed,
        YakuName::Riichi,
        1,
    );
    push_when(&mut out, situation.is_ippatsu && closed, YakuName::Ippatsu, 1);
    push_when(&mut out, all_simple(tiles), YakuName::Tanyao, 1);
    let pair = hand.pair();
    let pinfu = closed && standard && count_groups(groups, MentsuKind::Shuntsu) == 4 && !(
    pair.is_dragon() || pair == situation.seat_wind || pair == situation.field_wind) && pinfu_wait(
        hand,
        w,
        placement,
    );
    push_when(&mut out, pinfu, YakuName::Pinfu, 1);
    let duplicates = count_duplicate_sequences(groups);
    push_when(&mut out, closed && standard && duplicates == 1, YakuName::Iipeiko, 1);
    let candidates = triplet_candidates(hand, melds);
    let kinds = distinct_kinds(&candidates);
    yakuhai_results(&kinds, situation, &mut out);
    push_when(&mut out, situation.is_rinshan, YakuName::RinshanKaihou, 1);
    push_when(&mut out, situation.is_chankan, YakuName::Chankan, 1);
    push_when(&mut out, situation.is_haitei, YakuName::Haitei, 1);
    push_when(&mut out, situation.is_houtei, YakuName::Houtei, 1);
    assert(out@ == basic_part(hand@, *situation, melds@, w, placement));
    out
}

fn pattern_segment(
    hand: &WinningHand,
    situation: &WinSituation,
    melds: &[Meld],
    tiles: &Vec<TileType>,
    w: TileType,
    placement: WinningTilePlacement,
) -> (out: Vec<YakuResult>)
    requires
        hand.wf(),
        melds_wf(melds@),
        melds@.len() <= 4,
        w.wf(),
        tiles@ == win_kinds(hand@, melds@),
    ensures
        out@ == pattern_part(hand@, *situation, melds@, w, placement),
{
    let closed = is_menzen(melds);
    let standard = match hand {
        WinningHand::Standard { .. } => true,
        _ => false,
    };
    let seven_pairs = match hand {
        WinningHand::SevenPairs { .. } => true,
        _ => false,
    };
    let groups = hand.groups();
    let has_honor = any_honor(tiles);
    let has_number = any_number(tiles);
    let koutsu = count_groups(groups, MentsuKind::Koutsu);
    let ankan = count_selected_melds(melds, 3);
    let open_triplets = count_selected_melds(melds, 1);
    proof {
        lemma_count_groups_bound(groups@, MentsuKind::Koutsu, groups@.len() as int);
        lemma_count_melds_bound(melds@, 3, melds@.len() as int);
        lemma_count_melds_bound(melds@, 1, melds@.len() as int);
    }
    let total_koutsu = koutsu + ankan + open_triplets;
    let mut out = start_when(seven_pairs, YakuName::Chiitoitsu, 2);
    push_when(&mut out, total_koutsu == 4 && standard, YakuName::Toitoi, 2);
    let concealed = count_concealed_triplets(hand, melds, situation, w, placement);
    push_when(&mut out, standard && concealed >= 3, YakuName::Sananko, 2);
    let kans = count_selected_melds(melds, 2);
    push_when(&mut out, kans == 3, YakuName::Sankantsu, 2);
    push_when(&mut out, standard && three_colour_triplets(hand, melds), YakuName::SanshokuDoukou, 2);
    let dragons = count_triplet_kinds(hand, melds, 31, 34);
    push_when(&mut out, dragons == 2 && hand.pair().is_dragon(), YakuName::Shousangen, 2);
    push_when(&mut out, all_yaochuuhai(tiles), YakuName::Honroutou, 2);
    let open_han_2: u8 = if closed {
        2
    } else {
        1
    };
    let chanta = standard && has_honor && has_number && chanta_shape(hand, melds, false) && any_sequence(
        hand,
        melds,
    );
    push_when(&mut out, chanta, YakuName::Honchantai, open_han_2);
    push_when(&mut out, standard && three_colour_sequences(hand, melds), YakuName::SanshokuDoujun, open_han_2);
    push_when(&mut out, standard && pure_straight(hand, melds), YakuName::Ittsu, open_han_2);
    let flush = single_suit(tiles);
    if flush {
        push_either(
            &mut out,
            !has_honor,
            YakuName::Chinitsu,
            if closed { 6 } else { 5 },
            true,
            YakuName::Honitsu,
            if closed { 3 } else { 2 },
        );
    } else {
        let ghost before = out@;
        assert(out@ =~= before + seq![]);
    }
    let junchan = standard && !has_honor && has_number && chanta_shape(hand, melds, true)
        && any_sequence(hand, melds);
    push_when(&mut out, junchan, YakuName::Junchan, if closed { 3 } else { 2 });
    let duplicates = count_duplicate_sequences(groups);
    push_when(&mut out, closed && standard && duplicates >= 2, YakuName::Ryanpeiko, 3);
    assert(out@ == pattern_part(hand@, *situation, melds@, w, placement));
    out
}

/// The yaku of one decomposition with one placement of the winning tile
/// (see `yaku_spec`).
pub fn detect_yaku(
    hand: &WinningHand,
    situation: &WinSituation,
    melds: &[Meld],
    winning_tile: Tile,
    placement: WinningTilePlacement,
) -> (yaku: Vec<YakuResult>)
    requires
        yaku_inputs_wf(hand@, melds@, winning_tile),
    ensures
        yaku@ == yaku_spec(hand@, *situation, melds@, winning_tile.spec_tile_type(), placement),
{
    let w = winning_tile.tile_type();
    let mut yaku: Vec<YakuResult> = Vec::new();
    if situation.is_tenhou {
        yaku.push(YakuResult::new(YakuName::Tenhou, 13));
        return yaku;
    } else if situation.is_chiihou {
        yaku.push(YakuResult::new(YakuName::Chiihou, 13));
        return yaku;
    }
    let tiles = collect_all_tiles(hand, melds);
    if let WinningHand::Kokushi { .. } = hand {
        if thirteen_wait(hand, melds, &tiles, w) {
            yaku.push(YakuResult::new(YakuName::Kokushi13, 26));
        } else {
            yaku.push(YakuResult::new(YakuName::Kokushi, 13));
        }
        return yaku;
    }
    if is_menzen(melds) {
        if let Some(pure) = chuuren(hand, melds, &tiles, w) {
            if pure {
                yaku.push(YakuResult::new(YakuName::ChuurenPoutou9, 26));
            } else {
                yaku.push(YakuResult::new(YakuName::ChuurenPoutou, 13));
            }
            return yaku;
        }
    }
    let mut yaku = yakuman_segment(hand, situation, melds, &tiles, w, placement);
    let mut basic = basic_segment(hand, situation, melds, &tiles, w, placement);
    let mut pattern = pattern_segment(hand, situation, melds, &tiles, w, placement);
    yaku.append(&mut basic);
    yaku.append(&mut pattern);
    yaku
}

} // verus!
