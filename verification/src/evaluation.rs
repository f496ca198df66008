use vstd::prelude::*;
use crate::dora::{aka_count, calculate_dora, dora_hits};
use crate::fu::{calculate_fu, fu_spec};
use crate::model::{
    DoraResult, HandShape, SettlementContext, WinResult, WinSituation, WinningHand,
    WinningTilePlacement, YakuName, YakuResult,
};
use crate::scoring::{calculate_points_with_loser, point_change, settlement_fits};
use crate::shape::{all_decompositions, decompose_hand_with_open_melds, is_win_shape_spec, is_win_shape_with_open_melds};
use crate::tile::{Meld, Tile, TileType};
use crate::yaku::{detect_yaku, melds_wf, yaku_if, yaku_spec};

verus! {

/// Everything a win is judged on. The concealed tiles exclude the winning
/// tile, which is given on its own.
#[derive(Clone, Copy)]
pub struct WinInput<'a> {
    pub concealed_tiles: &'a [Tile],
    pub melds: &'a [Meld],
    pub winning_tile: Tile,
    pub dora_indicators: &'a [TileType],
    pub ura_dora_indicators: &'a [TileType],
    pub situation: &'a WinSituation,
    pub settlement: SettlementContext,
    pub is_furiten: bool,
}

/// The tiles of calls `0..n`, in order.
pub open spec fn meld_tiles(melds: Seq<Meld>, n: int) -> Seq<Tile>
    decreases n,
{
    if n <= 0 {
        seq![]
    } else {
        meld_tiles(melds, n - 1) + melds[n - 1].tiles@
    }
}

/// The concealed kinds and the winning kind.
pub open spec fn hand_kinds(input: WinInput) -> Seq<TileType> {
    input.concealed_tiles@.map_values(|t: Tile| t.spec_tile_type()).push(
        input.winning_tile.spec_tile_type(),
    )
}

/// Every physical tile of the win: concealed, called, winning.
pub open spec fn every_tile(input: WinInput) -> Seq<Tile> {
    input.concealed_tiles@ + meld_tiles(input.melds@, input.melds@.len() as int) + seq![
        input.winning_tile,
    ]
}

pub open spec fn dora_of(input: WinInput) -> DoraResult {
    let tiles = every_tile(input);
    DoraResult {
        dora: dora_hits(tiles, input.dora_indicators@, input.dora_indicators@.len() as int) as u8,
        aka_dora: aka_count(tiles, tiles.len() as int) as u8,
        ura_dora: if input.situation.is_riichi {
            dora_hits(tiles, input.ura_dora_indicators@, input.ura_dora_indicators@.len() as int) as u8
        } else {
            0
        },
    }
}

/// The yaku with the dora of the hand added.
pub open spec fn with_dora(yaku: Seq<YakuResult>, d: DoraResult) -> Seq<YakuResult> {
    yaku + yaku_if(d.dora > 0, YakuName::Dora, d.dora) + yaku_if(d.aka_dora > 0, YakuName::AkaDora, d.aka_dora)
        + yaku_if(d.ura_dora > 0, YakuName::UraDora, d.ura_dora)
}

/// The entries `< n` worth 13 han or more, in order.
pub open spec fn yakuman_only(s: Seq<YakuResult>, n: int) -> Seq<YakuResult>
    decreases n,
{
    if n <= 0 {
        seq![]
    } else {
        yakuman_only(s, n - 1) + if s[n - 1].han >= 13 {
            seq![s[n - 1]]
        } else {
            seq![]
        }
    }
}

pub open spec fn has_yakuman(s: Seq<YakuResult>) -> bool {
    exists|i: int| 0 <= i < s.len() && (#[trigger] s[i]).han >= 13
}

/// A yakuman settles without regular yaku and dora; several yakuman add up.
pub open spec fn settled_yaku(s: Seq<YakuResult>) -> Seq<YakuResult> {
    if has_yakuman(s) {
        yakuman_only(s, s.len() as int)
    } else {
        s
    }
}

pub open spec fn han_total(s: Seq<YakuResult>, n: int) -> int
    decreases n,
{
    if n <= 0 {
        0
    } else {
        han_total(s, n - 1) + s[n - 1].han
    }
}

/// Yakuman units: one per 13 han of each yakuman entry (double yakuman
/// count twice), at least one each.
pub open spec fn yakuman_units(s: Seq<YakuResult>, n: int) -> int
    decreases n,
{
    if n <= 0 {
        0
    } else {
        yakuman_units(s, n - 1) + if s[n - 1].han >= 13 {
            if s[n - 1].han / 13 >= 1 {
                s[n - 1].han / 13
            } else {
                1
            }
        } else {
            0
        }
    }
}

/// A judged candidate: yaku, total han, fu and the four point changes.
pub ghost struct Candidate {
    pub yaku: Seq<YakuResult>,
    pub han: int,
    pub fu: int,
    pub points: Seq<int>,
}

pub open spec fn result_view(r: WinResult) -> Candidate {
    Candidate {
        yaku: r.yaku_results@,
        han: r.total_han as int,
        fu: r.fu as int,
        points: r.points@.map_values(|x: i32| x as int),
    }
}

/// The kept yaku of a decomposition with a placement of the winning tile.
pub open spec fn kept_yaku(input: WinInput, shape: HandShape, placement: WinningTilePlacement) -> Seq<
    YakuResult,
> {
    settled_yaku(
        with_dora(
            yaku_spec(
                shape,
                *input.situation,
                input.melds@,
                input.winning_tile.spec_tile_type(),
                placement,
            ),
            dora_of(input),
        ),
    )
}

pub open spec fn candidate_fu(input: WinInput, shape: HandShape, placement: WinningTilePlacement) -> int {
    fu_spec(
        shape,
        input.melds@,
        kept_yaku(input, shape, placement),
        *input.situation,
        input.winning_tile.spec_tile_type(),
        placement,
    )
}

/// The judgement of one decomposition with one placement: none without a
/// yaku (dora alone are no yaku), else the settled yaku, han, fu and points.
#[verifier::opaque]
pub open spec fn candidate_spec(input: WinInput, shape: HandShape, placement: WinningTilePlacement) -> Option<
    Candidate,
> {
    let yaku = yaku_spec(
        shape,
        *input.situation,
        input.melds@,
        input.winning_tile.spec_tile_type(),
        placement,
    );
    if yaku.len() == 0 {
        None
    } else {
        let kept = kept_yaku(input, shape, placement);
        let han = han_total(kept, kept.len() as int);
        let fu = candidate_fu(input, shape, placement);
        let units = yakuman_units(kept, kept.len() as int);
        let st = input.settlement;
        Some(
            Candidate {
                yaku: kept,
                han,
                fu,
                points: Seq::new(
                    4,
                    |seat: int|
                        point_change(
                            han,
                            fu,
                            units,
                            st.winner as int,
                            st.loser,
                            st.dealer as int,
                            st.riichi_sticks as int,
                            st.honba as int,
                            input.situation.is_tsumo,
                            seat,
                        ),
                ),
            },
        )
    }
}

/// The judgements of one decomposition, one per placement.
pub open spec fn candidates_of(input: WinInput, shape: HandShape) -> Seq<Option<Candidate>> {
    shape.spec_placements(input.winning_tile.spec_tile_type()).map_values(
        |pl: WinningTilePlacement| candidate_spec(input, shape, pl),
    )
}

/// The judgements of decompositions `0..n`, in order.
pub open spec fn candidates_upto(input: WinInput, shapes: Seq<HandShape>, n: int) -> Seq<Option<Candidate>>
    decreases n,
{
    if n <= 0 {
        seq![]
    } else {
        candidates_upto(input, shapes, n - 1) + candidates_of(input, shapes[n - 1])
    }
}

/// `a` scores higher than `b` for the winner: more points, then more han,
/// then more fu.
pub open spec fn scores_higher(a: Candidate, b: Candidate, winner: int) -> bool {
    a.points[winner] > b.points[winner] || (a.points[winner] == b.points[winner] && (a.han > b.han
        || (a.han == b.han && a.fu > b.fu)))
}

/// The first highest-scoring candidate among the judgements.
pub open spec fn best_of(cands: Seq<Option<Candidate>>, winner: int) -> Option<Candidate>
    decreases cands.len(),
{
    if cands.len() == 0 {
        None
    } else {
        let prev = best_of(cands.drop_last(), winner);
        match cands.last() {
            None => prev,
            Some(c) => match prev {
                None => Some(c),
                Some(b) => if scores_higher(c, b, winner) {
                    Some(c)
                } else {
                    prev
                },
            },
        }
    }
}

/// The decompositions of the win.
pub open spec fn win_shapes(input: WinInput) -> Seq<HandShape> {
    all_decompositions(crate::counts::type_counts(hand_kinds(input)), input.melds@.len() as int)
}

/// The result of a win: none on furiten ron, none unless the tiles form a
/// complete hand, else the highest-scoring judgement over every
/// decomposition and every part the winning tile may have completed.
pub open spec fn evaluate_spec(input: WinInput) -> Option<Candidate> {
    if input.is_furiten && !input.situation.is_tsumo {
        None
    } else if !is_win_shape_spec(hand_kinds(input), input.melds@.len() as int) {
        None
    } else {
        let shapes = win_shapes(input);
        best_of(candidates_upto(input, shapes, shapes.len() as int), input.settlement.winner as int)
    }
}

/// Well-formed input: valid tiles and calls, at most four calls and a
/// valid winner seat.
pub open spec fn input_wf(input: WinInput) -> bool {
    &&& forall|i: int| 0 <= i < input.concealed_tiles@.len() ==> (#[trigger] input.concealed_tiles@[i]).wf()
    &&& input.winning_tile.wf()
    &&& melds_wf(input.melds@)
    &&& input.melds@.len() <= 4
    &&& forall|i: int| 0 <= i < input.dora_indicators@.len() ==> (#[trigger] input.dora_indicators@[i]).wf()
    &&& forall|i: int|
        0 <= i < input.ura_dora_indicators@.len() ==> (#[trigger] input.ura_dora_indicators@[i]).wf()
    &&& input.settlement.winner < 4
    &&& every_tile(input).len() <= 255
}

/// The counts that the judgement adds up stay within their machine types:
/// the dora counts, each candidate's han and yakuman units (`u8`), and its
/// settlement (`i32`).
#[verifier::opaque]
pub open spec fn evaluation_fits(input: WinInput) -> bool {
    let tiles = every_tile(input);
    let shapes = win_shapes(input);
    &&& dora_hits(tiles, input.dora_indicators@, input.dora_indicators@.len() as int) <= 255
    &&& dora_hits(tiles, input.ura_dora_indicators@, input.ura_dora_indicators@.len() as int) <= 255
    &&& forall|k: int, pl: WinningTilePlacement|
        0 <= k < shapes.len() && #[trigger] shapes[k].spec_placements(
            input.winning_tile.spec_tile_type(),
        ).contains(pl) ==> candidate_fits(input, shapes[k], pl)
}

#[verifier::opaque]
pub open spec fn candidate_fits(input: WinInput, shape: HandShape, pl: WinningTilePlacement) -> bool {
    let all = with_dora(
        yaku_spec(shape, *input.situation, input.melds@, input.winning_tile.spec_tile_type(), pl),
        dora_of(input),
    );
    let kept = kept_yaku(input, shape, pl);
    &&& han_total(all, all.len() as int) <= 255
    &&& yakuman_units(kept, kept.len() as int) <= 255
    &&& settlement_fits(
        han_total(kept, kept.len() as int),
        candidate_fu(input, shape, pl),
        yakuman_units(kept, kept.len() as int),
        input.settlement.riichi_sticks as int,
        input.settlement.honba as int,
    )
}

proof fn lemma_han_total_nonneg(s: Seq<YakuResult>, n: int)
    requires
        0 <= n <= s.len(),
    ensures
        0 <= han_total(s, n),
    decreases n,
{
    if n > 0 {
        lemma_han_total_nonneg(s, n - 1);
    }
}

proof fn lemma_yakuman_only_sum(s: Seq<YakuResult>, n: int)
    requires
        0 <= n <= s.len(),
    ensures
        han_total(yakuman_only(s, n), yakuman_only(s, n).len() as int) <= han_total(s, n),
        yakuman_only(s, n).len() <= n,
    decreases n,
{
    if n > 0 {
        lemma_yakuman_only_sum(s, n - 1);
        let prev = yakuman_only(s, n - 1);
        if s[n - 1].han >= 13 {
            let cur = prev.push(s[n - 1]);
            assert(yakuman_only(s, n) =~= cur);
            assert(cur.drop_last() =~= prev);
            lemma_han_total_prefix(cur, prev.len() as int);
        } else {
            assert(yakuman_only(s, n) =~= prev);
        }
    }
}

/// Summing the first `n` entries of a longer sequence.
proof fn lemma_han_total_prefix(s: Seq<YakuResult>, n: int)
    requires
        0 <= n < s.len(),
    ensures
        han_total(s, n + 1) == han_total(s, n) + s[n].han,
        han_total(s, n) == han_total(s.take(n), n),
    decreases n,
{
    lemma_han_total_same(s, s.take(n), n);
}

proof fn lemma_han_total_same(a: Seq<YakuResult>, b: Seq<YakuResult>, n: int)
    requires
        0 <= n <= a.len(),
        n <= b.len(),
        forall|i: int| 0 <= i < n ==> a[i] == b[i],
    ensures
        han_total(a, n) == han_total(b, n),
    decreases n,
{
    if n > 0 {
        lemma_han_total_same(a, b, n - 1);
    }
}

proof fn lemma_units_same(a: Seq<YakuResult>, b: Seq<YakuResult>, n: int)
    requires
        0 <= n <= a.len(),
        n <= b.len(),
        forall|i: int| 0 <= i < n ==> a[i] == b[i],
    ensures
        yakuman_units(a, n) == yakuman_units(b, n),
    decreases n,
{
    if n > 0 {
        lemma_units_same(a, b, n - 1);
    }
}

proof fn lemma_units_monotone(s: Seq<YakuResult>, n: int, m: int)
    requires
        0 <= n <= m <= s.len(),
    ensures
        0 <= yakuman_units(s, n) <= yakuman_units(s, m),
    decreases m - n,
{
    if n < m {
        lemma_units_monotone(s, n, m - 1);
    } else {
        lemma_units_nonneg(s, n);
    }
}

proof fn lemma_units_nonneg(s: Seq<YakuResult>, n: int)
    requires
        0 <= n <= s.len(),
    ensures
        0 <= yakuman_units(s, n),
    decreases n,
{
    if n > 0 {
        lemma_units_nonneg(s, n - 1);
    }
}

proof fn lemma_han_monotone(s: Seq<YakuResult>, n: int, m: int)
    requires
        0 <= n <= m <= s.len(),
    ensures
        han_total(s, n) <= han_total(s, m),
    decreases m - n,
{
    if n < m {
        lemma_han_monotone(s, n, m - 1);
    }
}

/// The entries worth 13 han or more.
fn keep_yakuman(all: &Vec<YakuResult>) -> (kept: Vec<YakuResult>)
    ensures
        kept@ == yakuman_only(all@, all@.len() as int),
{
    let mut kept: Vec<YakuResult> = Vec::new();
    let mut i: usize = 0;
    while i < all.len()
        invariant
            i <= all@.len(),
            kept@ == yakuman_only(all@, i as int),
        decreases all@.len() - i,
    {
        if all[i].han >= 13 {
            kept.push(all[i]);
        }
        i += 1;
    }
    kept
}

fn any_yakuman(all: &Vec<YakuResult>) -> (b: bool)
    ensures
        b == has_yakuman(all@),
{
    let mut i: usize = 0;
    while i < all.len()
        invariant
            i <= all@.len(),
            forall|x: int| 0 <= x < i ==> all@[x].han < 13,
        decreases all@.len() - i,
    {
        if all[i].han >= 13 {
            return true;
        }
        i += 1;
    }
    false
}

fn sum_han(yaku: &Vec<YakuResult>) -> (total: u8)
    requires
        han_total(yaku@, yaku@.len() as int) <= 255,
    ensures
        total == han_total(yaku@, yaku@.len() as int),
{
    let mut total: u8 = 0;
    let mut i: usize = 0;
    while i < yaku.len()
        invariant
            i <= yaku@.len(),
            han_total(yaku@, yaku@.len() as int) <= 255,
            total == han_total(yaku@, i as int),
        decreases yaku@.len() - i,
    {
        proof {
            lemma_han_monotone(yaku@, i + 1, yaku@.len() as int);
            lemma_han_total_nonneg(yaku@, i as int);
        }
        total = total + yaku[i].han;
        i += 1;
    }
    total
}

fn count_yakuman_units(yaku: &Vec<YakuResult>) -> (units: u8)
    requires
        yakuman_units(yaku@, yaku@.len() as int) <= 255,
    ensures
        units == yakuman_units(yaku@, yaku@.len() as int),
{
    let mut units: u8 = 0;
    let mut i: usize = 0;
    while i < yaku.len()
        invariant
            i <= yaku@.len(),
            yakuman_units(yaku@, yaku@.len() as int) <= 255,
            units == yakuman_units(yaku@, i as int),
        decreases yaku@.len() - i,
    {
        proof {
            lemma_units_monotone(yaku@, i + 1, yaku@.len() as int);
        }
        let h = yaku[i].han;
        if h >= 13 {
            let n = if h / 13 >= 1 {
                h / 13
            } else {
                1
            };
            units = units + n;
        }
        i += 1;
    }
    units
}

/// Judges one decomposition with one placement of the winning tile.
fn evaluate_candidate(
    input: &WinInput,
    hand: &WinningHand,
    placement: WinningTilePlacement,
    dora: &DoraResult,
) -> (r: Option<WinResult>)
    requires
        input_wf(*input),
        hand.wf(),
        *dora == dora_of(*input),
        candidate_fits(*input, hand@, placement),
    ensures
        r matches Some(res) ==> candidate_spec(*input, hand@, placement) == Some(result_view(res)),
        r is None ==> candidate_spec(*input, hand@, placement) is None,
{
    proof {
        reveal(candidate_spec);
        reveal(candidate_fits);
    }
    let yaku_results = detect_yaku(hand, input.situation, input.melds, input.winning_tile, placement);
    if yaku_results.len() == 0 {
        return None;
    }
    let mut all_yaku = yaku_results;
    let ghost base = all_yaku@;
    if dora.dora > 0 {
        all_yaku.push(YakuResult::new(YakuName::Dora, dora.dora));
    }
    assert(all_yaku@ =~= base + yaku_if(dora.dora > 0, YakuName::Dora, dora.dora));
    let ghost with_d = all_yaku@;
    if dora.aka_dora > 0 {
        all_yaku.push(YakuResult::new(YakuName::AkaDora, dora.aka_dora));
    }
    assert(all_yaku@ =~= with_d + yaku_if(dora.aka_dora > 0, YakuName::AkaDora, dora.aka_dora));
    let ghost with_a = all_yaku@;
    if dora.ura_dora > 0 {
        all_yaku.push(YakuResult::new(YakuName::UraDora, dora.ura_dora));
    }
    assert(all_yaku@ =~= with_a + yaku_if(dora.ura_dora > 0, YakuName::UraDora, dora.ura_dora));
    assert(all_yaku@ == with_dora(base, *dora));
    let ghost all_view = all_yaku@;
    let kept = if any_yakuman(&all_yaku) {
        keep_yakuman(&all_yaku)
    } else {
        all_yaku
    };
    assert(kept@ == kept_yaku(*input, hand@, placement));
    proof {
        if has_yakuman(all_view) {
            lemma_yakuman_only_sum(all_view, all_view.len() as int);
        }
    }
    let fu = calculate_fu(
        hand,
        input.melds,
        kept.as_slice(),
        input.situation,
        input.winning_tile.tile_type(),
        placement,
    );
    let total_han = sum_han(&kept);
    let units = count_yakuman_units(&kept);
    let points = calculate_points_with_loser(
        total_han,
        fu,
        units,
        input.settlement.winner,
        input.settlement.loser,
        input.settlement.dealer,
        input.settlement.riichi_sticks,
        input.settlement.honba,
        input.situation.is_tsumo,
    );
    let res = WinResult { yaku_results: kept, total_han, fu, points };
    proof {
        let c = candidate_spec(*input, hand@, placement)->0;
        assert(result_view(res).points =~= c.points);
    }
    Some(res)
}

proof fn lemma_meld_tiles_wf(melds: Seq<Meld>, n: int)
    requires
        0 <= n <= melds.len(),
        melds_wf(melds),
    ensures
        forall|i: int| 0 <= i < meld_tiles(melds, n).len() ==> (#[trigger] meld_tiles(melds, n)[i]).wf(),
    decreases n,
{
    if n > 0 {
        lemma_meld_tiles_wf(melds, n - 1);
        let prev = meld_tiles(melds, n - 1);
        let last = melds[n - 1].tiles@;
        assert(melds[n - 1].wf());
        assert forall|i: int| 0 <= i < (prev + last).len() implies (#[trigger] (prev + last)[i]).wf() by {
            if i < prev.len() {
                assert((prev + last)[i] == prev[i]);
            } else {
                assert((prev + last)[i] == last[i - prev.len()]);
            }
        }
    }
}

fn higher(c: &WinResult, b: &WinResult, winner: usize) -> (r: bool)
    requires
        winner < 4,
    ensures
        r == scores_higher(result_view(*c), result_view(*b), winner as int),
{
    let cp = c.points[winner];
    let bp = b.points[winner];
    cp > bp || (cp == bp && (c.total_han > b.total_han || (c.total_han == b.total_han && c.fu > b.fu)))
}

pub open spec fn opt_view(r: Option<WinResult>) -> Option<Candidate> {
    match r {
        Some(x) => Some(result_view(x)),
        None => None,
    }
}

/// The kinds of the concealed tiles and the winning tile.
fn collect_hand_kinds(input: &WinInput) -> (v: Vec<TileType>)
    ensures
        v@ == hand_kinds(*input),
{
    let mut v: Vec<TileType> = Vec::new();
    let mut i: usize = 0;
    while i < input.concealed_tiles.len()
        invariant
            i <= input.concealed_tiles@.len(),
            v@ == input.concealed_tiles@.take(i as int).map_values(|t: Tile| t.spec_tile_type()),
        decreases input.concealed_tiles@.len() - i,
    {
        v.push(input.concealed_tiles[i].tile_type());
        proof {
            assert(input.concealed_tiles@.take(i + 1).map_values(|t: Tile| t.spec_tile_type())
                =~= input.concealed_tiles@.take(i as int).map_values(|t: Tile| t.spec_tile_type()).push(
                input.concealed_tiles@[i as int].spec_tile_type(),
            ));
        }
        i += 1;
    }
    assert(input.concealed_tiles@.take(input.concealed_tiles@.len() as int) =~= input.concealed_tiles@);
    v.push(input.winning_tile.tile_type());
    v
}

/// Every physical tile of the win.
fn collect_every_tile(input: &WinInput) -> (v: Vec<Tile>)
    ensures
        v@ == every_tile(*input),
{
    let mut v: Vec<Tile> = Vec::new();
    let mut i: usize = 0;
    while i < input.concealed_tiles.len()
        invariant
            i <= input.concealed_tiles@.len(),
            v@ == input.concealed_tiles@.take(i as int),
        decreases input.concealed_tiles@.len() - i,
    {
        v.push(input.concealed_tiles[i]);
        proof {
            assert(input.concealed_tiles@.take(i + 1) =~= input.concealed_tiles@.take(i as int).push(
                input.concealed_tiles@[i as int],
            ));
        }
        i += 1;
    }
    assert(input.concealed_tiles@.take(input.concealed_tiles@.len() as int) =~= input.concealed_tiles@);
    let ghost concealed = v@;
    let mut m: usize = 0;
    while m < input.melds.len()
        invariant
            m <= input.melds@.len(),
            concealed == input.concealed_tiles@,
            v@ == concealed + meld_tiles(input.melds@, m as int),
        decreases input.melds@.len() - m,
    {
        let meld = &input.melds[m];
        let ghost before = v@;
        let mut k: usize = 0;
        while k < meld.tiles.len()
            invariant
                k <= meld.tiles@.len(),
                v@ == before + meld.tiles@.take(k as int),
            decreases meld.tiles@.len() - k,
        {
            v.push(meld.tiles[k]);
            proof {
                assert(meld.tiles@.take(k + 1) =~= meld.tiles@.take(k as int).push(meld.tiles@[k as int]));
            }
            k += 1;
        }
        proof {
            assert(meld.tiles@.take(meld.tiles@.len() as int) =~= meld.tiles@);
            assert(concealed + meld_tiles(input.melds@, m + 1) =~= concealed + meld_tiles(input.melds@, m as int)
                + input.melds@[m as int].tiles@);
        }
        m += 1;
    }
    v.push(input.winning_tile);
    v
}

/// Keeps the better of the best result so far and a new judgement.
fn keep_better(
    best: Option<WinResult>,
    candidate: Option<WinResult>,
    winner: usize,
    Ghost(prefix): Ghost<Seq<Option<Candidate>>>,
    Ghost(next): Ghost<Option<Candidate>>,
) -> (r: Option<WinResult>)
    requires
        winner < 4,
        opt_view(best) == best_of(prefix, winner as int),
        opt_view(candidate) == next,
    ensures
        opt_view(r) == best_of(prefix.push(next), winner as int),
{
    assert(prefix.push(next).drop_last() =~= prefix);
    match candidate {
        None => best,
        Some(c) => {
            let take = match &best {
                None => true,
                Some(b) => higher(&c, b, winner),
            };
            if take {
                Some(c)
            } else {
                best
            }
        },
    }
}

/// Folds the judgements of one decomposition, one per placement of the
/// winning tile, into the best result so far.
fn evaluate_shape(
    input: &WinInput,
    hand: &WinningHand,
    dora: &DoraResult,
    best_so_far: Option<WinResult>,
    Ghost(before): Ghost<Seq<Option<Candidate>>>,
) -> (r: Option<WinResult>)
    requires
        input_wf(*input),
        hand.wf(),
        *dora == dora_of(*input),
        forall|pl: WinningTilePlacement|
            #[trigger] hand@.spec_placements(input.winning_tile.spec_tile_type()).contains(pl)
                ==> candidate_fits(*input, hand@, pl),
        opt_view(best_so_far) == best_of(before, input.settlement.winner as int),
    ensures
        opt_view(r) == best_of(before + candidates_of(*input, hand@), input.settlement.winner as int),
{
    let winner = input.settlement.winner;
    let w = input.winning_tile.tile_type();
    let placements = hand.winning_tile_placements(w);
    let ghost mine = candidates_of(*input, hand@);
    let mut best = best_so_far;
    let mut p: usize = 0;
    while p < placements.len()
        invariant
            p <= placements@.len(),
            placements@ == hand@.spec_placements(w),
            w == input.winning_tile.spec_tile_type(),
            hand.wf(),
            input_wf(*input),
            *dora == dora_of(*input),
            winner == input.settlement.winner,
            forall|pl: WinningTilePlacement|
                #[trigger] hand@.spec_placements(input.winning_tile.spec_tile_type()).contains(pl)
                    ==> candidate_fits(*input, hand@, pl),
            mine == candidates_of(*input, hand@),
            opt_view(best) == best_of(before + mine.take(p as int), winner as int),
        decreases placements@.len() - p,
    {
        let placement = placements[p];
        assert(hand@.spec_placements(w)[p as int] == placement);
        assert(hand@.spec_placements(input.winning_tile.spec_tile_type()).contains(placement));
        let candidate = evaluate_candidate(input, hand, placement, dora);
        let ghost prefix = before + mine.take(p as int);
        assert(before + mine.take(p + 1) =~= prefix.push(mine[p as int]));
        best = keep_better(best, candidate, winner, Ghost(prefix), Ghost(mine[p as int]));
        p += 1;
    }
    assert(mine.take(mine.len() as int) =~= mine);
    best
}

/// Judges a win: decides whether the tiles form a complete hand with a
/// yaku, and settles the highest-scoring reading (see `evaluate_spec`).
pub fn evaluate_win(input: WinInput) -> (r: Option<WinResult>)
    requires
        input_wf(input),
        evaluation_fits(input),
    ensures
        opt_view(r) == evaluate_spec(input),
{
    if input.is_furiten && !input.situation.is_tsumo {
        return None;
    }
    let hand_tiles = collect_hand_kinds(&input);
    let all_tiles = collect_every_tile(&input);
    proof {
        assert(hand_tiles@.len() <= all_tiles@.len());
        assert(crate::shape::kinds_wf(hand_tiles@)) by {
            assert forall|i: int| 0 <= i < hand_tiles@.len() implies (#[trigger] hand_tiles@[i]).wf() by {
                if i < input.concealed_tiles@.len() {
                    assert(input.concealed_tiles@[i].wf());
                }
            }
        }
    }
    if !is_win_shape_with_open_melds(hand_tiles.as_slice(), input.melds.len()) {
        return None;
    }
    let decompositions = decompose_hand_with_open_melds(hand_tiles.as_slice(), input.melds.len());
    let ghost shapes = crate::shape::shapes(decompositions@);
    assert(shapes == win_shapes(input));
    proof {
        lemma_meld_tiles_wf(input.melds@, input.melds@.len() as int);
        let c = input.concealed_tiles@;
        let mt = meld_tiles(input.melds@, input.melds@.len() as int);
        assert forall|i: int| 0 <= i < all_tiles@.len() implies (#[trigger] all_tiles@[i]).wf() by {
            if i < c.len() {
                assert(all_tiles@[i] == c[i]);
            } else if i < c.len() + mt.len() {
                assert(all_tiles@[i] == mt[i - c.len()]);
            } else {
                assert(all_tiles@[i] == input.winning_tile);
            }
        }
    }
    proof {
        reveal(evaluation_fits);
    }
    let dora_result = calculate_dora(
        all_tiles.as_slice(),
        input.dora_indicators,
        input.ura_dora_indicators,
        input.situation.is_riichi,
    );
    assert(dora_result == dora_of(input));
    let winner = input.settlement.winner;
    let mut best: Option<WinResult> = None;
    let mut h: usize = 0;
    while h < decompositions.len()
        invariant
            h <= decompositions@.len(),
            shapes == crate::shape::shapes(decompositions@),
            shapes == win_shapes(input),
            forall|k: int| 0 <= k < decompositions@.len() ==> (#[trigger] decompositions@[k]).wf(),
            input_wf(input),
            evaluation_fits(input),
            dora_result == dora_of(input),
            winner == input.settlement.winner,
            opt_view(best) == best_of(candidates_upto(input, shapes, h as int), winner as int),
        decreases decompositions@.len() - h,
    {
        let hand = &decompositions[h];
        assert(hand@ == shapes[h as int]);
        proof {
            reveal(evaluation_fits);
        }
        let ghost before = candidates_upto(input, shapes, h as int);
        best = evaluate_shape(&input, hand, &dora_result, best, Ghost(before));
        assert(candidates_upto(input, shapes, h + 1) == before + candidates_of(input, shapes[h as int]));
        h += 1;
    }
    best
}

proof fn lemma_scores_higher_order(a: Candidate, b: Candidate, c: Candidate, winner: int)
    ensures
        !scores_higher(a, a, winner),
        scores_higher(a, b, winner) && scores_higher(b, c, winner) ==> scores_higher(a, c, winner),
{
}

/// The best of the judgements is one of them, and none of them scores
/// higher; with no judgement there is none.
proof fn lemma_best_of_is_highest(cands: Seq<Option<Candidate>>, winner: int)
    ensures
        best_of(cands, winner) is None <==> forall|i: int| 0 <= i < cands.len() ==> (#[trigger] cands[i]) is None,
        best_of(cands, winner) matches Some(c) ==> exists|i: int| 0 <= i < cands.len() && #[trigger] cands[i] == Some(c),
        best_of(cands, winner) matches Some(c) ==> forall|i: int|
            0 <= i < cands.len() ==> (#[trigger] cands[i] matches Some(x) ==> !scores_higher(x, c, winner)),
    decreases cands.len(),
{
    if cands.len() > 0 {
        let prev = cands.drop_last();
        lemma_best_of_is_highest(prev, winner);
        let n = cands.len() - 1;
        assert forall|i: int| 0 <= i < n implies cands[i] == #[trigger] prev[i] by {}
        match cands.last() {
            None => {
                assert(cands[n] is None);
                assert(best_of(cands, winner) == best_of(prev, winner));
                if forall|i: int| 0 <= i < prev.len() ==> (#[trigger] prev[i]) is None {
                    assert forall|i: int| 0 <= i < cands.len() implies (#[trigger] cands[i]) is None by {
                        if i < n {
                            assert(prev[i] is None);
                        }
                    }
                }
                if exists|i: int| 0 <= i < prev.len() && (#[trigger] prev[i]) is Some {
                    let i = choose|i: int| 0 <= i < prev.len() && (#[trigger] prev[i]) is Some;
                    assert(cands[i] is Some);
                }
                if let Some(c) = best_of(prev, winner) {
                    let i = choose|i: int| 0 <= i < prev.len() && #[trigger] prev[i] == Some(c);
                    assert(cands[i] == Some(c));
                    assert forall|k: int| 0 <= k < cands.len() implies (#[trigger] cands[k] matches Some(x)
                        ==> !scores_higher(x, c, winner)) by {
                        if k < n {
                            assert(prev[k] == cands[k]);
                        }
                    }
                }
            },
            Some(c) => {
                assert(cands[n] == Some(c));
                lemma_scores_higher_order(c, c, c, winner);
                match best_of(prev, winner) {
                    None => {
                        assert(best_of(cands, winner) == Some(c));
                        assert forall|i: int| 0 <= i < cands.len() implies (#[trigger] cands[i] matches Some(x)
                            ==> !scores_higher(x, c, winner)) by {
                            if i < n {
                                assert(prev[i] is None);
                            }
                        }
                    },
                    Some(b) => {
                        if scores_higher(c, b, winner) {
                            assert(best_of(cands, winner) == Some(c));
                            assert forall|i: int| 0 <= i < cands.len() implies (#[trigger] cands[i] matches Some(
                                x,
                            ) ==> !scores_higher(x, c, winner)) by {
                                if i < n {
                                    if let Some(x) = cands[i] {
                                        assert(prev[i] == Some(x));
                                        lemma_scores_higher_order(x, c, b, winner);
                                    }
                                }
                            }
                        } else {
                            assert(best_of(cands, winner) == Some(b));
                            let i = choose|i: int| 0 <= i < prev.len() && #[trigger] prev[i] == Some(b);
                            assert(cands[i] == Some(b));
                            assert forall|k: int| 0 <= k < cands.len() implies (#[trigger] cands[k] matches Some(
                                x,
                            ) ==> !scores_higher(x, b, winner)) by {
                                if k < n {
                                    assert(prev[k] == cands[k]);
                                }
                            }
                        }
                    },
                }
            },
        }
    }
}

/// A win settles the highest-scoring reading: the result is the judgement
/// of some decomposition with some placement of the winning tile, and no
/// other judgement scores higher for the winner (more points, then more
/// han, then more fu).
pub proof fn lemma_evaluation_picks_the_highest_reading(input: WinInput)
    ensures
        ({
            let shapes = win_shapes(input);
            let cands = candidates_upto(input, shapes, shapes.len() as int);
            let w = input.settlement.winner as int;
            evaluate_spec(input) matches Some(c) ==> (exists|i: int|
                0 <= i < cands.len() && #[trigger] cands[i] == Some(c)) && forall|i: int|
                0 <= i < cands.len() ==> (#[trigger] cands[i] matches Some(x) ==> !scores_higher(x, c, w))
        }),
{
    let shapes = win_shapes(input);
    lemma_best_of_is_highest(candidates_upto(input, shapes, shapes.len() as int), input.settlement.winner as int);
}

/// A furiten player can never win by ron.
pub proof fn lemma_furiten_ron_never_wins(input: WinInput)
    requires
        input.is_furiten,
        !input.situation.is_tsumo,
    ensures
        evaluate_spec(input) is None,
{
}

} // verus!
