use vstd::prelude::*;
use crate::counts::{lemma_sum_counts_update, sum_counts, TileCounts};
use crate::model::{ClosedGroup, MentsuKind, WinningHand};
use crate::point::{payout_formula, valid_fu_han, yakuman_formula, Payout};
use crate::shanten::{
    calculate, calculate_thirteen_orphans, kinds_with_at_least, normal_shanten_spec, orphans_with_at_least,
    seven_pairs_shanten_spec, shanten_spec, thirteen_orphans_shanten_spec,
};
use crate::shape::{
    arrangements, decompose_seven_pairs, decompose_standard, is_seven_pairs_shape,
    lemma_complete_iff_decomposable, lemma_decomposable_hand_is_complete, paired_kinds,
};
use crate::tile::TileType;

verus! {

/// The value of a winning hand: a regular hand by fu and han, or a number
/// of yakuman.
#[derive(Debug, Clone, Copy, PartialEq, Eq, Structural)]
pub enum HandScore {
    Basic { fu: u8, han: u8 },
    Yakuman(u8),
}

/// `a` ranks above `b`: any yakuman above a regular hand, more yakuman
/// above fewer, and regular hands by han, then by fu.
pub open spec fn outranks_spec(a: HandScore, b: HandScore) -> bool {
    match (a, b) {
        (HandScore::Yakuman(l), HandScore::Yakuman(r)) => l > r,
        (HandScore::Yakuman(_), HandScore::Basic { .. }) => true,
        (HandScore::Basic { .. }, HandScore::Yakuman(_)) => false,
        (HandScore::Basic { fu: lf, han: lh }, HandScore::Basic { fu: rf, han: rh }) => lh > rh || (lh
            == rh && lf > rf),
    }
}

/// A score that the payout table can settle.
pub open spec fn score_payable(s: HandScore) -> bool {
    match s {
        HandScore::Basic { fu, han } => valid_fu_han(fu as int, han as int),
        HandScore::Yakuman(_) => true,
    }
}

pub open spec fn payout_spec(s: HandScore, is_dealer: bool) -> Payout {
    match s {
        HandScore::Basic { fu, han } => payout_formula(is_dealer, fu as int, han as int),
        HandScore::Yakuman(n) => yakuman_formula(is_dealer, n as int),
    }
}

impl HandScore {
    /// The payout of the score for a dealer or a non-dealer winner.
    pub fn payout(self, is_dealer: bool) -> (p: Payout)
        requires
            score_payable(self),
        ensures
            p == payout_spec(self, is_dealer),
    {
        match self {
            HandScore::Basic { fu, han } => Payout::lookup(is_dealer, fu, han),
            HandScore::Yakuman(n) => Payout::yakuman(is_dealer, n as i32),
        }
    }

    /// The order of scores: whether `self` ranks strictly above `other`.
    pub fn outranks(&self, other: &HandScore) -> (b: bool)
        ensures
            b == outranks_spec(*self, *other),
    {
        match (self, other) {
            (HandScore::Yakuman(l), HandScore::Yakuman(r)) => *l > *r,
            (HandScore::Yakuman(_), HandScore::Basic { .. }) => true,
            (HandScore::Basic { .. }, HandScore::Yakuman(_)) => false,
            (HandScore::Basic { fu: lf, han: lh }, HandScore::Basic { fu: rf, han: rh }) => *lh > *rh || (
            *lh == *rh && *lf > *rf),
        }
    }
}

/// One reading of the concealed tiles: the pair, the triplets and the
/// starts of the sequences, or the seven pairs; with the patterns that the
/// reading shows on its own.
#[verifier::ext_equal]
pub ghost struct Division {
    pub seven: bool,
    pub pair: u8,
    pub triplets: Seq<u8>,
    pub sequences: Seq<u8>,
    pub seven_kinds: Seq<u8>,
    pub nine_gates: bool,
    pub full_straight: bool,
    pub twice_double: bool,
    pub double: bool,
}

pub struct HandDivision {
    pub pair_tile: u8,
    pub triplets: Vec<u8>,
    pub sequences: Vec<u8>,
    pub seven_kinds: Vec<u8>,
    pub has_seven_pairs: bool,
    pub has_nine_gates: bool,
    pub has_full_straight: bool,
    pub has_twice_pure_double_sequence: bool,
    pub has_pure_double_sequence: bool,
}

impl View for HandDivision {
    type V = Division;

    open spec fn view(&self) -> Division {
        Division {
            seven: self.has_seven_pairs,
            pair: self.pair_tile,
            triplets: self.triplets@,
            sequences: self.sequences@,
            seven_kinds: self.seven_kinds@,
            nine_gates: self.has_nine_gates,
            full_straight: self.has_full_straight,
            twice_double: self.has_twice_pure_double_sequence,
            double: self.has_pure_double_sequence,
        }
    }
}

/// Fourteen tiles of one suit in the shape 1112345678999 plus one more.
pub open spec fn nine_gates_shape(h: Seq<u8>) -> bool {
    &&& sum_counts(h, 34) == 14
    &&& exists|x: int|
        0 <= x < 3 && #[trigger] suit_gates(h, x)
}

pub open spec fn suit_gates(h: Seq<u8>, x: int) -> bool {
    &&& forall|k: int| 0 <= k < 34 && !(9 * x <= k < 9 * x + 9) ==> h[k] == 0
    &&& h[9 * x] >= 3
    &&& h[9 * x + 8] >= 3
    &&& forall|k: int| 9 * x + 1 <= k < 9 * x + 8 ==> h[k] >= 1
}

/// Sequences starting at 1, 4 and 7 of one suit.
pub open spec fn has_straight(s: Seq<u8>) -> bool {
    exists|x: int|
        0 <= x < 3 && #[trigger] s.contains((9 * x) as u8) && s.contains((9 * x + 3) as u8) && s.contains(
            (9 * x + 6) as u8,
        )
}

/// Two entries are equal.
pub open spec fn has_duplicate(s: Seq<u8>) -> bool {
    exists|i: int, j: int| 0 <= i < j < s.len() && #[trigger] s[i] == #[trigger] s[j]
}

/// Four sequences that form two equal pairs.
pub open spec fn two_equal_pairs(s: Seq<u8>) -> bool {
    &&& s.len() == 4
    &&& (s[0] == s[1] && s[2] == s[3]) || (s[0] == s[2] && s[1] == s[3]) || (s[0] == s[3] && s[1]
        == s[2])
}

/// The kinds of the groups `< n` of the given kind, in order.
pub open spec fn kinds_of(groups: Seq<ClosedGroup>, n: int, kind: MentsuKind) -> Seq<u8>
    decreases n,
{
    if n <= 0 {
        seq![]
    } else {
        kinds_of(groups, n - 1, kind) + if groups[n - 1].kind == kind {
            seq![groups[n - 1].tile_type.0]
        } else {
            seq![]
        }
    }
}

/// The reading of a standard decomposition. The double sequence patterns
/// are those of a hand whose four groups are all concealed (with a closed
/// kan the scorer looks for a double sequence itself).
pub open spec fn standard_division(h: Seq<u8>, pair: TileType, groups: Seq<ClosedGroup>) -> Division {
    let t = kinds_of(groups, groups.len() as int, MentsuKind::Koutsu);
    let s = kinds_of(groups, groups.len() as int, MentsuKind::Shuntsu);
    Division {
        seven: false,
        pair: pair.0,
        triplets: t,
        sequences: s,
        seven_kinds: seq![],
        nine_gates: nine_gates_shape(h),
        full_straight: has_straight(s),
        twice_double: two_equal_pairs(s),
        double: groups.len() == 4 && has_duplicate(s) && !two_equal_pairs(s),
    }
}

/// The reading of seven pairs; its pair is the lowest of the pairs.
pub open spec fn seven_pairs_division(h: Seq<u8>) -> Division {
    let kinds = paired_kinds(h, 34).map_values(|t: TileType| t.0);
    Division {
        seven: true,
        pair: kinds[0],
        triplets: seq![],
        sequences: seq![],
        seven_kinds: kinds,
        nine_gates: false,
        full_straight: false,
        twice_double: false,
        double: false,
    }
}

/// Every reading of the concealed tiles: each standard decomposition in
/// kind order, then seven pairs where the tiles form them. A count that
/// is not two more than a multiple of three has none.
pub open spec fn divisions_spec(h: Seq<u8>) -> Seq<Division> {
    let total = sum_counts(h, 34);
    if total % 3 != 2 {
        seq![]
    } else {
        let arr = arrangements(h, 0, (total - 2) / 3, 1, 0, 0);
        arr.map_values(
            |r: (Option<TileType>, Seq<ClosedGroup>)| standard_division(h, r.0.unwrap(), r.1),
        ) + if is_seven_pairs_shape(h) {
            seq![seven_pairs_division(h)]
        } else {
            seq![]
        }
    }
}

/// The number of tiles counted.
fn total_count(h: &[u8; 34]) -> (t: u32)
    ensures
        t == sum_counts(h@, 34),
{
    let mut t: u32 = 0;
    let mut k: usize = 0;
    while k < 34
        invariant
            k <= 34,
            t == sum_counts(h@, k as int),
            t <= 255 * k,
        decreases 34 - k,
    {
        t = t + h[k] as u32;
        k += 1;
    }
    t
}

fn suit_gates_exec(h: &[u8; 34], x: usize) -> (b: bool)
    requires
        x < 3,
    ensures
        b == suit_gates(h@, x as int),
{
    let lo = 9 * x;
    let mut k: usize = 0;
    while k < 34
        invariant
            k <= 34,
            lo == 9 * x,
            x < 3,
            forall|j: int| 0 <= j < k && !(lo <= j < lo + 9) ==> h@[j] == 0,
        decreases 34 - k,
    {
        if (k < lo || k >= lo + 9) && h[k] != 0 {
            return false;
        }
        k += 1;
    }
    if h[lo] < 3 || h[lo + 8] < 3 {
        return false;
    }
    let mut n: usize = 1;
    while n < 8
        invariant
            1 <= n <= 8,
            lo == 9 * x,
            x < 3,
            forall|j: int| lo + 1 <= j < lo + n ==> h@[j] >= 1,
        decreases 8 - n,
    {
        if h[lo + n] < 1 {
            return false;
        }
        n += 1;
    }
    true
}

fn nine_gates(h: &[u8; 34], total: u32) -> (b: bool)
    requires
        total == sum_counts(h@, 34),
    ensures
        b == nine_gates_shape(h@),
{
    if total != 14 {
        return false;
    }
    let mut x: usize = 0;
    while x < 3
        invariant
            x <= 3,
            forall|y: int| 0 <= y < x ==> !suit_gates(h@, y),
            total == 14,
            total == sum_counts(h@, 34),
        decreases 3 - x,
    {
        if suit_gates_exec(h, x) {
            assert(suit_gates(h@, x as int));
            return true;
        }
        x += 1;
    }
    false
}

fn contains_kind(s: &Vec<u8>, v: u8) -> (b: bool)
    ensures
        b == s@.contains(v),
{
    let mut i: usize = 0;
    while i < s.len()
        invariant
            i <= s@.len(),
            forall|j: int| 0 <= j < i ==> s@[j] != v,
        decreases s@.len() - i,
    {
        if s[i] == v {
            return true;
        }
        i += 1;
    }
    false
}

fn straight_in(s: &Vec<u8>) -> (b: bool)
    ensures
        b == has_straight(s@),
{
    let mut x: u8 = 0;
    while x < 3
        invariant
            x <= 3,
            forall|y: int|
                0 <= y < x ==> !(#[trigger] s@.contains((9 * y) as u8) && s@.contains((9 * y + 3) as u8)
                    && s@.contains((9 * y + 6) as u8)),
        decreases 3 - x,
    {
        if contains_kind(s, 9 * x) && contains_kind(s, 9 * x + 3) && contains_kind(s, 9 * x + 6) {
            return true;
        }
        x += 1;
    }
    false
}

fn duplicate_in(s: &Vec<u8>) -> (b: bool)
    ensures
        b == has_duplicate(s@),
{
    let mut i: usize = 0;
    while i < s.len()
        invariant
            i <= s@.len(),
            forall|a: int, c: int| 0 <= a < c < s@.len() && a < i ==> s@[a] != s@[c],
        decreases s@.len() - i,
    {
        let mut j: usize = i + 1;
        while j < s.len()
            invariant
                i < s@.len(),
                i + 1 <= j <= s@.len(),
                forall|a: int, c: int| 0 <= a < c < s@.len() && a < i ==> s@[a] != s@[c],
                forall|c: int| i < c < j ==> s@[i as int] != s@[c],
            decreases s@.len() - j,
        {
            if s[i] == s[j] {
                return true;
            }
            j += 1;
        }
        i += 1;
    }
    false
}

fn equal_pairs(s: &Vec<u8>) -> (b: bool)
    ensures
        b == two_equal_pairs(s@),
{
    s.len() == 4 && ((s[0] == s[1] && s[2] == s[3]) || (s[0] == s[2] && s[1] == s[3]) || (s[0] == s[3]
        && s[1] == s[2]))
}

fn group_kinds(groups: &[ClosedGroup], kind: MentsuKind) -> (v: Vec<u8>)
    ensures
        v@ == kinds_of(groups@, groups@.len() as int, kind),
{
    let mut v: Vec<u8> = Vec::new();
    let mut i: usize = 0;
    while i < groups.len()
        invariant
            i <= groups@.len(),
            v@ == kinds_of(groups@, i as int, kind),
        decreases groups@.len() - i,
    {
        if groups[i].kind == kind {
            v.push(groups[i].tile_type.0);
        }
        i += 1;
    }
    v
}

fn standard_division_exec(h: &[u8; 34], total: u32, pair: TileType, groups: &[ClosedGroup]) -> (d:
    HandDivision)
    requires
        total == sum_counts(h@, 34),
    ensures
        d@ == standard_division(h@, pair, groups@),
{
    let triplets = group_kinds(groups, MentsuKind::Koutsu);
    let sequences = group_kinds(groups, MentsuKind::Shuntsu);
    let has_nine_gates = nine_gates(h, total);
    let has_full_straight = straight_in(&sequences);
    let has_twice_pure_double_sequence = equal_pairs(&sequences);
    let has_pure_double_sequence = groups.len() == 4 && duplicate_in(&sequences)
        && !has_twice_pure_double_sequence;
    let d = HandDivision {
        pair_tile: pair.0,
        triplets,
        sequences,
        seven_kinds: Vec::new(),
        has_seven_pairs: false,
        has_nine_gates,
        has_full_straight,
        has_twice_pure_double_sequence,
        has_pure_double_sequence,
    };
    assert(d@ =~= standard_division(h@, pair, groups@));
    d
}

/// Every reading of the concealed tiles (see `divisions_spec`).
fn divisions(hand: &[u8; 34]) -> (v: Vec<HandDivision>)
    requires
        sum_counts(hand@, 34) <= 14,
    ensures
        v@.len() == divisions_spec(hand@).len(),
        forall|i: int| 0 <= i < v@.len() ==> (#[trigger] v@[i])@ == divisions_spec(hand@)[i],
        forall|i: int| 0 <= i < v@.len() ==> division_wf(#[trigger] divisions_spec(hand@)[i]),
{
    let total = total_count(hand);
    let mut v: Vec<HandDivision> = Vec::new();
    if total % 3 != 2 {
        return v;
    }
    let m = ((total - 2) / 3) as usize;
    let counts = TileCounts(*hand);
    assert(counts@ == hand@);
    let hands = decompose_standard(&counts, m);
    let ghost arr = arrangements(hand@, 0, m as int, 1, 0, 0);
    let ghost std = arr.map_values(
        |r: (Option<TileType>, Seq<ClosedGroup>)| standard_division(hand@, r.0.unwrap(), r.1),
    );
    let mut k: usize = 0;
    while k < hands.len()
        invariant
            k <= hands@.len(),
            total == sum_counts(hand@, 34),
            crate::shape::lists_decompositions(hands@, hand@, m as int),
            arr == arrangements(hand@, 0, m as int, 1, 0, 0),
            std.len() == arr.len(),
            forall|i: int| 0 <= i < arr.len() ==> #[trigger] std[i] == standard_division(hand@, arr[i].0.unwrap(), arr[i].1),
            v@.len() == k,
            forall|i: int| 0 <= i < k ==> (#[trigger] v@[i])@ == std[i],
            forall|i: int| 0 <= i < k ==> division_wf(#[trigger] v@[i]@),
            forall|i: int| 0 <= i < hands@.len() ==> (#[trigger] hands@[i]).wf(),
        decreases hands@.len() - k,
    {
        assert(hands@[k as int].wf());
        match &hands[k] {
            WinningHand::Standard { pair, groups } => {
                proof {
                    lemma_kinds_of(groups@, groups@.len() as int);
                }
                let d = standard_division_exec(hand, total, *pair, groups.as_slice());
                v.push(d);
            },
            _ => {
                assert(false);
            },
        }
        k += 1;
    }
    let ghost seven_part: Seq<Division> = if is_seven_pairs_shape(hand@) {
        seq![seven_pairs_division(hand@)]
    } else {
        seq![]
    };
    match decompose_seven_pairs(&counts) {
        Some(WinningHand::SevenPairs { pairs }) => {
            let mut kinds: Vec<u8> = Vec::new();
            let mut i: usize = 0;
            while i < 7
                invariant
                    i <= 7,
                    pairs@.len() == 7,
                    kinds@ == pairs@.take(i as int).map_values(|t: TileType| t.0),
                decreases 7 - i,
            {
                kinds.push(pairs[i].0);
                assert(pairs@.take(i + 1).map_values(|t: TileType| t.0) =~= pairs@.take(i as int).map_values(
                    |t: TileType| t.0,
                ).push(pairs@[i as int].0));
                i += 1;
            }
            assert(pairs@.take(7) =~= pairs@);
            let d = HandDivision {
                pair_tile: pairs[0].0,
                triplets: Vec::new(),
                sequences: Vec::new(),
                seven_kinds: kinds,
                has_seven_pairs: true,
                has_nine_gates: false,
                has_full_straight: false,
                has_twice_pure_double_sequence: false,
                has_pure_double_sequence: false,
            };
            assert(d@ =~= seven_pairs_division(hand@));
            assert(forall|x: int| 0 <= x < 7 ==> (#[trigger] pairs@[x]).wf());
            assert(forall|x: int| 0 <= x < 7 ==> (#[trigger] kinds@[x]) == pairs@[x].0);
            v.push(d);
        },
        _ => {},
    }
    assert(divisions_spec(hand@) =~= std + seven_part);
    assert forall|i: int| 0 <= i < v@.len() implies division_wf(#[trigger] divisions_spec(hand@)[i]) by {
        assert(division_wf(v@[i]@));
    }
    v
}

/// A reading with valid kinds: at most four concealed groups, sequences
/// only where they may start, and seven pair kinds for seven pairs.
pub open spec fn division_wf(d: Division) -> bool {
    &&& d.triplets.len() + d.sequences.len() <= 4
    &&& forall|i: int| 0 <= i < d.triplets.len() ==> (#[trigger] d.triplets[i]) < 34
    &&& forall|i: int|
        0 <= i < d.sequences.len() ==> (#[trigger] d.sequences[i]) < 27 && d.sequences[i] % 9 <= 6
    &&& d.pair < 34
    &&& d.seven ==> d.seven_kinds.len() == 7 && d.triplets.len() == 0 && d.sequences.len() == 0
    &&& forall|i: int| 0 <= i < d.seven_kinds.len() ==> (#[trigger] d.seven_kinds[i]) < 34
}

proof fn lemma_kinds_of(groups: Seq<ClosedGroup>, n: int)
    requires
        0 <= n <= groups.len(),
        forall|i: int| 0 <= i < groups.len() ==> (#[trigger] groups[i]).wf(),
    ensures
        kinds_of(groups, n, MentsuKind::Koutsu).len() + kinds_of(groups, n, MentsuKind::Shuntsu).len() == n,
        forall|i: int|
            0 <= i < kinds_of(groups, n, MentsuKind::Koutsu).len() ==> (#[trigger] kinds_of(
                groups,
                n,
                MentsuKind::Koutsu,
            )[i]) < 34,
        forall|i: int|
            0 <= i < kinds_of(groups, n, MentsuKind::Shuntsu).len() ==> (#[trigger] kinds_of(
                groups,
                n,
                MentsuKind::Shuntsu,
            )[i]) < 27 && kinds_of(groups, n, MentsuKind::Shuntsu)[i] % 9 <= 6,
    decreases n,
{
    if n > 0 {
        lemma_kinds_of(groups, n - 1);
        assert(groups[n - 1].wf());
        let t0 = kinds_of(groups, n - 1, MentsuKind::Koutsu);
        let s0 = kinds_of(groups, n - 1, MentsuKind::Shuntsu);
        let t1 = kinds_of(groups, n, MentsuKind::Koutsu);
        let s1 = kinds_of(groups, n, MentsuKind::Shuntsu);
        if groups[n - 1].kind == MentsuKind::Koutsu {
            assert(s1 =~= s0);
            assert forall|i: int| 0 <= i < t1.len() implies (#[trigger] t1[i]) < 34 by {
                if i < t0.len() {
                    assert(t1[i] == t0[i]);
                }
            }
        } else {
            assert(t1 =~= t0);
            assert forall|i: int| 0 <= i < s1.len() implies (#[trigger] s1[i]) < 27 && s1[i] % 9 <= 6 by {
                if i < s0.len() {
                    assert(s1[i] == s0[i]);
                }
            }
        }
    }
}

/// The counts with one more tile of kind `t`.
pub open spec fn with_tile(h: Seq<u8>, t: int) -> Seq<u8> {
    h.update(t, (h[t] + 1) as u8)
}

/// Kind `t` completes the hand `before`: `before` does not already hold
/// all four copies, and with one more it is complete (shanten -1).
pub open spec fn completes(before: Seq<u8>, m: int, t: int) -> bool {
    before[t] != 4 && shanten_spec(with_tile(before, t), m) == -1
}

/// After the closed kan of all four `k`, the wait `w` of the hand still
/// completes it: `w` is not `k`, the hand after the kan with `w` has a
/// reading, and when `strict` exactly as many as the hand before the kan
/// with `w`.
pub open spec fn kan_keeps_wait(tiles: Seq<u8>, k: int, w: int, strict: bool) -> bool {
    let before = tiles.update(k, 3u8);
    let after = with_tile(tiles.update(k, 0u8), w);
    &&& w != k
    &&& divisions_spec(after).len() > 0
    &&& strict ==> divisions_spec(after).len() == divisions_spec(with_tile(before, w)).len()
}

/// A closed kan of `k` after riichi is allowed: the hand holds all four
/// copies, and either `k` is an honour or every wait of the hand before the
/// fourth copy was drawn survives the kan.
pub open spec fn ankan_after_riichi_spec(tiles: Seq<u8>, m: int, k: int, strict: bool) -> bool {
    if tiles[k] != 4 {
        false
    } else if k >= 27 {
        true
    } else {
        forall|w: int|
            0 <= w < 34 && #[trigger] completes(tiles.update(k, 3u8), m, w) ==> kan_keeps_wait(
                tiles,
                k,
                w,
                strict,
            )
    }
}

proof fn lemma_kinds_nonneg(h: Seq<u8>, n: int, k: int)
    ensures
        kinds_with_at_least(h, n, k) >= 0,
    decreases n,
{
    if n > 0 {
        lemma_kinds_nonneg(h, n - 1, k);
    }
}

proof fn lemma_held_thrice(h: Seq<u8>, n: int, x: int)
    requires
        0 <= x < n,
        h[x] >= 3,
    ensures
        kinds_with_at_least(h, n, 3) >= 1,
    decreases n,
{
    if x < n - 1 {
        lemma_held_thrice(h, n - 1, x);
    } else {
        lemma_kinds_nonneg(h, n - 1, 3);
    }
}

proof fn lemma_pairs_take_tiles(h: Seq<u8>, n: int)
    requires
        0 <= n <= h.len(),
    ensures
        sum_counts(h, n) >= 2 * kinds_with_at_least(h, n, 2) + kinds_with_at_least(h, n, 3),
    decreases n,
{
    if n > 0 {
        lemma_pairs_take_tiles(h, n - 1);
    }
}

/// The tiles of kinds `a..b`, at least one for each kind there held three
/// times or more.
proof fn lemma_thrice_between(h: Seq<u8>, a: int, b: int)
    requires
        0 <= a <= b <= h.len(),
    ensures
        sum_counts(h, b) - sum_counts(h, a) >= kinds_with_at_least(h, b, 3) - kinds_with_at_least(h, a, 3),
    decreases b - a,
{
    if a < b {
        lemma_thrice_between(h, a, b - 1);
    }
}

/// The first kind after the `n`-th orphan (0 for none).
pub open spec fn after_orphans(n: int) -> int {
    if n <= 0 {
        0
    } else {
        crate::shanten::orphan_kind(n - 1) + 1
    }
}

proof fn lemma_orphans_take_tiles_upto(h: Seq<u8>, n: int)
    requires
        h.len() == 34,
        0 <= n <= 13,
    ensures
        sum_counts(h, after_orphans(n)) >= orphans_with_at_least(h, n, 1) + orphans_with_at_least(h, n, 2)
            + kinds_with_at_least(h, after_orphans(n), 3),
        orphans_with_at_least(h, n, 1) <= n,
    decreases n,
{
    if n > 0 {
        lemma_orphans_take_tiles_upto(h, n - 1);
        let o = crate::shanten::orphan_kind(n - 1);
        assert(after_orphans(n - 1) <= o < 34);
        lemma_thrice_between(h, after_orphans(n - 1), o);
    }
}

proof fn lemma_orphans_take_tiles(h: Seq<u8>)
    requires
        h.len() == 34,
    ensures
        sum_counts(h, 34) >= orphans_with_at_least(h, 13, 1) + orphans_with_at_least(h, 13, 2)
            + kinds_with_at_least(h, 34, 3),
        orphans_with_at_least(h, 13, 1) <= 13,
{
    lemma_orphans_take_tiles_upto(h, 13);
    assert(after_orphans(13) == 34);
}

/// A complete hand of `3m + 2` tiles with some kind held three times or
/// more is complete in the standard shape, so it has a reading.
proof fn lemma_wait_hand_divides(h: Seq<u8>, m: int, x: int)
    requires
        h.len() == 34,
        0 <= m <= 4,
        sum_counts(h, 34) == 3 * m + 2,
        shanten_spec(h, m) == -1,
        0 <= x < 34,
        h[x] >= 3,
    ensures
        divisions_spec(h).len() > 0,
{
    lemma_decomposable_hand_is_complete(h, m);
    lemma_pairs_take_tiles(h, 34);
    lemma_orphans_take_tiles(h);
    lemma_held_thrice(h, 34, x);
    if normal_shanten_spec(h, m) == -1 {
        lemma_complete_iff_decomposable(h, m);
        assert((sum_counts(h, 34) - 2) / 3 == m);
    } else {
        assert(seven_pairs_shanten_spec(h) >= 0);
        assert(thirteen_orphans_shanten_spec(h) >= 0);
    }
}

/// Whether the closed kan of `tile` is allowed after riichi (see
/// `ankan_after_riichi_spec`). `tiles` is the concealed hand with the
/// drawn tile; `len_div3` the number of groups it still has to form.
pub fn check_ankan_after_riichi(tiles: &[u8; 34], len_div3: u8, tile: TileType, strict: bool) -> (ok: bool)
    requires
        tile.wf(),
        len_div3 <= 4,
        forall|k: int| 0 <= k < 34 ==> tiles[k] <= 4,
        sum_counts(tiles@, 34) <= 14,
        strict ==> sum_counts(tiles@, 34) == 3 * len_div3 + 2,
    ensures
        ok == ankan_after_riichi_spec(tiles@, len_div3 as int, tile.0 as int, strict),
{
    let k = tile.0 as usize;
    if tiles[k] != 4 {
        return false;
    }
    if k >= 27 {
        return true;
    }
    let mut before = *tiles;
    before[k] = 3;
    let ghost m = len_div3 as int;
    let mut t: usize = 0;
    while t < 34
        invariant
            t <= 34,
            k < 27,
            k == tile.0,
            m == len_div3,
            tiles[k as int] == 4,
            before@ == tiles@.update(k as int, 3u8),
            forall|kk: int| 0 <= kk < 34 ==> tiles[kk] <= 4,
            sum_counts(tiles@, 34) <= 14,
            len_div3 <= 4,
            strict ==> sum_counts(tiles@, 34) == 3 * len_div3 + 2,
            forall|w: int|
                0 <= w < t && #[trigger] completes(before@, m, w) ==> kan_keeps_wait(tiles@, k as int, w, strict),
        decreases 34 - t,
    {
        if before[t] != 4 {
            let mut tmp = before;
            tmp[t] = tmp[t] + 1;
            assert(tmp@ == with_tile(before@, t as int));
            if calculate(&tmp, len_div3) == -1 {
                assert(completes(tiles@.update(k as int, 3u8), m, t as int));
                if t == k {
                    assert(!kan_keeps_wait(tiles@, k as int, t as int, strict));
                    return false;
                }
                let mut after = *tiles;
                after[k] = 0;
                after[t] = after[t] + 1;
                assert(after@ == with_tile(tiles@.update(k as int, 0u8), t as int));
                proof {
                    lemma_sum_counts_update(tiles@, 34, k as int, 0u8);
                    lemma_sum_counts_update(tiles@.update(k as int, 0u8), 34, t as int, after[t as int]);
                    lemma_sum_counts_update(tiles@, 34, k as int, 3u8);
                    lemma_sum_counts_update(before@, 34, t as int, tmp[t as int]);
                }
                let divs_after = divisions(&after);
                if divs_after.len() == 0 {
                    assert(!kan_keeps_wait(tiles@, k as int, t as int, strict));
                    return false;
                }
                if strict {
                    proof {
                        lemma_wait_hand_divides(tmp@, m, k as int);
                    }
                    let divs_before = divisions(&tmp);
                    assert(divs_before@.len() > 0);
                    if divs_after.len() != divs_before.len() {
                        assert(!kan_keeps_wait(tiles@, k as int, t as int, strict));
                        return false;
                    }
                }
            }
        }
        t += 1;
    }
    true
}

/// What the scorer is told about the win: the concealed tiles (with the
/// winning tile) as counts, the calls by their lowest tile, the winds,
/// the winning tile and whether it was a ron.
pub struct HandEvalContext<'a> {
    pub hand: &'a [u8; 34],
    pub is_concealed: bool,
    pub chis: &'a [u8],
    pub pons: &'a [u8],
    pub minkans: &'a [u8],
    pub ankans: &'a [u8],
    pub table_wind: u8,
    pub seat_wind: u8,
    pub winning_tile: u8,
    pub is_ron: bool,
}

/// A consistent context: at most fourteen concealed tiles, at most four
/// calls, chis at sequence starts, valid kinds, honour winds, and the
/// hand concealed exactly when it has no open call.
pub open spec fn ctx_wf(c: HandEvalContext) -> bool {
    &&& sum_counts(c.hand@, 34) <= 14
    &&& c.chis@.len() + c.pons@.len() + c.minkans@.len() + c.ankans@.len() <= 4
    &&& forall|i: int| 0 <= i < c.chis@.len() ==> (#[trigger] c.chis@[i]) < 27 && c.chis@[i] % 9 <= 6
    &&& forall|i: int| 0 <= i < c.pons@.len() ==> (#[trigger] c.pons@[i]) < 34
    &&& forall|i: int| 0 <= i < c.minkans@.len() ==> (#[trigger] c.minkans@[i]) < 34
    &&& forall|i: int| 0 <= i < c.ankans@.len() ==> (#[trigger] c.ankans@[i]) < 34
    &&& 27 <= c.table_wind < 34
    &&& 27 <= c.seat_wind < 34
    &&& c.winning_tile < 34
    &&& c.is_concealed == (c.chis@.len() == 0 && c.pons@.len() == 0 && c.minkans@.len() == 0)
}

pub open spec fn is_yaochu(k: int) -> bool {
    k >= 27 || k % 9 == 0 || k % 9 == 8
}

pub open spec fn is_simple(k: int) -> bool {
    k < 27 && k % 9 > 0 && k % 9 < 8
}

/// White, green or red dragon.
pub open spec fn is_dragon(k: int) -> bool {
    31 <= k <= 33
}

pub open spec fn is_wind(k: int) -> bool {
    27 <= k <= 30
}

/// Tiles of the all-green hand: 2, 3, 4, 6, 8 of bamboo and green dragon.
pub open spec fn is_green(k: int) -> bool {
    k == 19 || k == 20 || k == 21 || k == 23 || k == 25 || k == 32
}

/// Triplets and kans, concealed and called.
pub open spec fn all_trips(c: HandEvalContext, d: Division) -> Seq<u8> {
    d.triplets + c.pons@ + c.minkans@ + c.ankans@
}

/// Sequence starts, concealed and called.
pub open spec fn all_seqs(c: HandEvalContext, d: Division) -> Seq<u8> {
    d.sequences + c.chis@
}

/// The lowest and highest start of a sequence that holds kind `w`.
pub open spec fn window_low(w: int) -> int {
    (w / 9) * 9 + if w % 9 >= 2 {
        w % 9 - 2
    } else {
        0
    }
}

pub open spec fn window_high(w: int) -> int {
    (w / 9) * 9 + if w % 9 <= 6 {
        w % 9
    } else {
        6
    }
}

/// On a ron, a concealed triplet of the winning kind counts as open unless
/// the winning tile could have completed a concealed sequence instead.
#[verifier::opaque]
pub open spec fn open_triplet(c: HandEvalContext, d: Division) -> bool {
    let w = c.winning_tile as int;
    &&& c.is_ron
    &&& d.triplets.contains(c.winning_tile)
    &&& (w >= 27 || !exists|t: u8| window_low(w) <= t <= window_high(w) && #[trigger] d.sequences.contains(t))
}

pub open spec fn triplet_fu(c: HandEvalContext, d: Division, t: u8) -> int {
    let open = open_triplet(c, d) && t == c.winning_tile;
    if !open && is_yaochu(t as int) {
        8
    } else if open && !is_yaochu(t as int) {
        2
    } else {
        4
    }
}

pub open spec fn triplets_fu(c: HandEvalContext, d: Division, n: int) -> int
    decreases n,
{
    if n <= 0 {
        0
    } else {
        triplets_fu(c, d, n - 1) + triplet_fu(c, d, d.triplets[n - 1])
    }
}

/// Fu of the first `n` calls: `yao` for a terminal or honour, else `plain`.
pub open spec fn calls_fu(s: Seq<u8>, n: int, yao: int, plain: int) -> int
    decreases n,
{
    if n <= 0 {
        0
    } else {
        calls_fu(s, n - 1, yao, plain) + if is_yaochu(s[n - 1] as int) {
            yao
        } else {
            plain
        }
    }
}

pub open spec fn pair_fu(c: HandEvalContext, d: Division) -> int {
    if is_dragon(d.pair as int) {
        2
    } else {
        (if d.pair == c.table_wind {
            2int
        } else {
            0
        }) + if d.pair == c.seat_wind {
            2int
        } else {
            0
        }
    }
}

/// The winning tile completed an edge or closed wait on sequence `s`.
pub open spec fn edge_or_closed(s: int, w: int) -> bool {
    s + 1 == w || (s % 9 == 0 && s + 2 == w) || (s % 9 == 6 && s == w)
}

pub open spec fn wait_fu(c: HandEvalContext, d: Division) -> int {
    if open_triplet(c, d) {
        0
    } else if d.pair == c.winning_tile {
        2
    } else if exists|i: int|
        0 <= i < d.sequences.len() && edge_or_closed(#[trigger] d.sequences[i] as int, c.winning_tile as int) {
        2
    } else {
        0
    }
}

pub open spec fn groups_fu(c: HandEvalContext, d: Division) -> int {
    20 + triplets_fu(c, d, d.triplets.len() as int) + calls_fu(c.pons@, c.pons@.len() as int, 4, 2)
        + calls_fu(c.ankans@, c.ankans@.len() as int, 32, 16) + calls_fu(
        c.minkans@,
        c.minkans@.len() as int,
        16,
        8,
    ) + pair_fu(c, d)
}

/// Fu of a reading: 25 for seven pairs; else 20 plus the groups and the
/// pair; a hand worth nothing more is 30 when open, 20 (tsumo) or 30 (ron)
/// with pinfu, else 30 (tsumo) or 40 (ron); otherwise add 2 for tsumo or
/// 10 for a concealed ron and 2 for a single wait, and round up to tens.
pub open spec fn division_fu(c: HandEvalContext, d: Division, pinfu: bool) -> int {
    if d.seven {
        25
    } else {
        let base = groups_fu(c, d);
        if base == 20 {
            if !c.is_concealed {
                30
            } else if pinfu {
                if c.is_ron {
                    30
                } else {
                    20
                }
            } else if c.is_ron {
                40
            } else {
                30
            }
        } else {
            let f = base + (if !c.is_ron {
                2int
            } else if c.is_concealed {
                10int
            } else {
                0int
            }) + wait_fu(c, d);
            ((f - 1) / 10 + 1) * 10
        }
    }
}

/// A two-sided wait on sequence `s` (the winning tile at its low end,
/// not 7-8-9, or at its high end, not 1-2-3).
pub open spec fn two_sided(s: int, w: int) -> bool {
    (s % 9 + 1 <= 6 && s == w) || (s % 9 + 1 >= 2 && s + 2 == w)
}

/// Pinfu: four concealed sequences, a pair that gives no fu and a
/// two-sided wait.
#[verifier::opaque]
pub open spec fn pinfu(c: HandEvalContext, d: Division) -> bool {
    &&& d.sequences.len() == 4
    &&& !is_dragon(d.pair as int)
    &&& d.pair != c.table_wind
    &&& d.pair != c.seat_wind
    &&& exists|i: int| 0 <= i < 4 && two_sided(#[trigger] d.sequences[i] as int, c.winning_tile as int)
}

pub open spec fn all_simple(s: Seq<u8>) -> bool {
    forall|i: int| 0 <= i < s.len() ==> is_simple(#[trigger] s[i] as int)
}

pub open spec fn all_yaochu(s: Seq<u8>) -> bool {
    forall|i: int| 0 <= i < s.len() ==> is_yaochu(#[trigger] s[i] as int)
}

pub open spec fn all_honours(s: Seq<u8>) -> bool {
    forall|i: int| 0 <= i < s.len() ==> (#[trigger] s[i]) >= 27
}

pub open spec fn any_honour(s: Seq<u8>) -> bool {
    exists|i: int| 0 <= i < s.len() && (#[trigger] s[i]) >= 27
}

/// Every suited entry is of one suit.
pub open spec fn one_suit(s: Seq<u8>) -> bool {
    forall|i: int, j: int|
        0 <= i < s.len() && 0 <= j < s.len() && #[trigger] s[i] < 27 && #[trigger] s[j] < 27 ==> s[i] / 9
            == s[j] / 9
}

/// The same number in all three suits.
pub open spec fn triple_across(s: Seq<u8>) -> bool {
    exists|n: int|
        0 <= n < 9 && #[trigger] s.contains(n as u8) && s.contains((n + 9) as u8) && s.contains(
            (n + 18) as u8,
        )
}

/// Tanyao: only simples, in the pairs or in every group and the pair.
#[verifier::opaque]
pub open spec fn tanyao(c: HandEvalContext, d: Division) -> bool {
    if d.seven {
        all_simple(d.seven_kinds)
    } else {
        &&& forall|i: int|
            0 <= i < all_seqs(c, d).len() ==> #[trigger] all_seqs(c, d)[i] % 9 > 0 && all_seqs(c, d)[i] % 9 < 6
        &&& all_simple(all_trips(c, d))
        &&& is_simple(d.pair as int)
    }
}

/// Toitoi: no sequence anywhere.
pub open spec fn toitoi(c: HandEvalContext, d: Division) -> bool {
    !d.seven && d.sequences.len() == 0 && c.chis@.len() == 0
}

/// The kinds that decide the suit of the hand.
pub open spec fn suit_kinds(c: HandEvalContext, d: Division) -> Seq<u8> {
    if d.seven {
        d.seven_kinds
    } else {
        all_trips(c, d) + all_seqs(c, d) + seq![d.pair]
    }
}

/// Honitsu (2, 3 concealed) or chinitsu (5, 6 concealed).
#[verifier::opaque]
pub open spec fn flush_han(c: HandEvalContext, d: Division) -> int {
    let k = suit_kinds(c, d);
    if all_honours(k) {
        0
    } else if one_suit(k) {
        (if any_honour(k) {
            2int
        } else {
            5int
        }) + if c.is_concealed {
            1int
        } else {
            0int
        }
    } else {
        0
    }
}

#[verifier::opaque]
pub open spec fn iipeikou_han(c: HandEvalContext, d: Division) -> int {
    if d.double {
        1
    } else if c.ankans@.len() > 0 && c.is_concealed && d.sequences.len() >= 2 && has_duplicate(d.sequences) {
        1
    } else {
        0
    }
}

#[verifier::opaque]
pub open spec fn ittsuu_han(c: HandEvalContext, d: Division) -> int {
    if c.is_concealed && d.full_straight {
        2
    } else if c.chis@.len() == 0 && d.full_straight {
        1
    } else if d.sequences.len() + c.chis@.len() >= 3 && has_straight(all_seqs(c, d)) {
        1
    } else {
        0
    }
}

/// Sanshoku doujun (2, 1 open), else sanshoku doukou (2).
#[verifier::opaque]
pub open spec fn sanshoku_han(c: HandEvalContext, d: Division) -> int {
    if triple_across(all_seqs(c, d)) {
        if c.is_concealed {
            2
        } else {
            1
        }
    } else if triple_across(all_trips(c, d)) {
        2
    } else {
        0
    }
}

/// Concealed triplets and closed kans; a triplet completed by ron is open.
pub open spec fn concealed_triplet_count(c: HandEvalContext, d: Division) -> int {
    c.ankans@.len() + d.triplets.len() - if open_triplet(c, d) {
        1int
    } else {
        0int
    }
}

pub open spec fn kan_count(c: HandEvalContext) -> int {
    (c.ankans@.len() + c.minkans@.len()) as int
}

#[verifier::opaque]
pub open spec fn all_green(c: HandEvalContext, d: Division) -> bool {
    &&& forall|i: int| 0 <= i < all_trips(c, d).len() ==> is_green(#[trigger] all_trips(c, d)[i] as int)
    &&& is_green(d.pair as int)
    &&& forall|i: int| 0 <= i < all_seqs(c, d).len() ==> #[trigger] all_seqs(c, d)[i] == 19
}

pub open spec fn has_triplet_of(c: HandEvalContext, d: Division, k: u8) -> bool {
    all_trips(c, d).contains(k)
}

pub open spec fn flag(b: bool) -> int {
    if b {
        1
    } else {
        0
    }
}

pub open spec fn dragon_count(c: HandEvalContext, d: Division) -> int {
    flag(has_triplet_of(c, d, 31)) + flag(has_triplet_of(c, d, 32)) + flag(has_triplet_of(c, d, 33))
}

pub open spec fn wind_count(c: HandEvalContext, d: Division) -> int {
    flag(has_triplet_of(c, d, 27)) + flag(has_triplet_of(c, d, 28)) + flag(has_triplet_of(c, d, 29)) + flag(
        has_triplet_of(c, d, 30),
    )
}

/// Yakuhai: round wind, seat wind, one per dragon, and 2 more for
/// shousangen.
#[verifier::opaque]
pub open spec fn honour_han(c: HandEvalContext, d: Division) -> int {
    let dragons = dragon_count(c, d);
    flag(has_triplet_of(c, d, c.table_wind)) + flag(has_triplet_of(c, d, c.seat_wind))
        + dragons + if dragons == 2 && is_dragon(d.pair as int) {
        2int
    } else {
        0int
    }
}

/// Daisangen, and daisuushii or shousuushii.
#[verifier::opaque]
pub open spec fn honour_yakuman(c: HandEvalContext, d: Division) -> int {
    let winds = wind_count(c, d);
    flag(dragon_count(c, d) == 3) + flag(winds == 4 || (winds == 3 && is_wind(d.pair as int)))
}

/// The kinds that decide a terminal hand: the pairs, or the triplets and
/// the pair (sequences are judged on their own).
pub open spec fn terminal_kinds(c: HandEvalContext, d: Division) -> Seq<u8> {
    if d.seven {
        d.seven_kinds
    } else {
        all_trips(c, d) + seq![d.pair]
    }
}

/// Honroutou (2), or chanta (1, 2 concealed) and junchan (2, 3 concealed).
#[verifier::opaque]
pub open spec fn terminal_han(c: HandEvalContext, d: Division) -> int {
    let k = terminal_kinds(c, d);
    if !all_yaochu(k) {
        0
    } else if d.seven || toitoi(c, d) {
        if any_honour(k) {
            2
        } else {
            0
        }
    } else if forall|i: int|
        0 <= i < all_seqs(c, d).len() ==> #[trigger] all_seqs(c, d)[i] % 9 == 0 || all_seqs(c, d)[i] % 9 == 6 {
        (if any_honour(k) {
            1int
        } else {
            2int
        }) + if c.is_concealed {
            1int
        } else {
            0int
        }
    } else {
        0
    }
}

/// Chinroutou.
#[verifier::opaque]
pub open spec fn terminal_yakuman(c: HandEvalContext, d: Division) -> int {
    let k = terminal_kinds(c, d);
    flag(all_yaochu(k) && (d.seven || toitoi(c, d)) && !any_honour(k))
}

/// The han of the patterns of a standard reading.
#[verifier::opaque]
pub open spec fn standard_han(c: HandEvalContext, d: Division) -> int {
    iipeikou_han(c, d) + ittsuu_han(c, d) + sanshoku_han(c, d) + 2 * flag(concealed_triplet_count(c, d) == 3)
        + 2 * flag(kan_count(c) == 3) + if !tanyao(c, d) {
        honour_han(c, d)
    } else {
        0
    }
}

/// The yakuman of the patterns of a standard reading.
#[verifier::opaque]
pub open spec fn standard_yakuman(c: HandEvalContext, d: Division) -> int {
    flag(concealed_triplet_count(c, d) == 4) + flag(kan_count(c) == 4) + flag(all_green(c, d)) + if !tanyao(
        c,
        d,
    ) {
        honour_yakuman(c, d)
    } else {
        0
    }
}

/// The han of a reading.
pub open spec fn division_han(c: HandEvalContext, d: Division) -> int {
    let no_tanyao = !tanyao(c, d);
    flag(pinfu(c, d)) + 2 * flag(d.seven) + 3 * flag(d.twice_double) + flag(tanyao(c, d)) + 2 * flag(
        toitoi(c, d),
    ) + flush_han(c, d) + (if !d.seven {
        standard_han(c, d)
    } else {
        0
    }) + if no_tanyao {
        terminal_han(c, d)
    } else {
        0
    }
}

/// The yakuman of a reading: chuuren, tsuuiisou, suuankou, suukantsu,
/// ryuuiisou, daisangen, the four winds and chinroutou.
pub open spec fn division_yakuman(c: HandEvalContext, d: Division) -> int {
    let no_tanyao = !tanyao(c, d);
    flag(d.nine_gates) + flag(all_honours(suit_kinds(c, d))) + (if !d.seven {
        standard_yakuman(c, d)
    } else {
        0
    }) + if no_tanyao {
        terminal_yakuman(c, d)
    } else {
        0
    }
}

/// The score of a reading: its yakuman if any, else its han with the fu
/// (no fu from five han on), else none.
pub open spec fn division_score(c: HandEvalContext, d: Division) -> Option<HandScore> {
    let y = division_yakuman(c, d);
    let han = division_han(c, d);
    if y > 0 {
        Some(HandScore::Yakuman(y as u8))
    } else if han > 0 {
        Some(
            HandScore::Basic {
                fu: if han >= 5 {
                    0
                } else {
                    division_fu(c, d, pinfu(c, d)) as u8
                },
                han: han as u8,
            },
        )
    } else {
        None
    }
}

/// The highest score among the entries (the later of equals).
pub open spec fn best_score(s: Seq<Option<HandScore>>) -> Option<HandScore>
    decreases s.len(),
{
    if s.len() == 0 {
        None
    } else {
        let prev = best_score(s.drop_last());
        match s.last() {
            None => prev,
            Some(x) => match prev {
                None => Some(x),
                Some(b) => if outranks_spec(b, x) {
                    Some(b)
                } else {
                    Some(x)
                },
            },
        }
    }
}

pub open spec fn division_scores(c: HandEvalContext) -> Seq<Option<HandScore>> {
    divisions_spec(c.hand@).map_values(|d: Division| division_score(c, d))
}

/// The best score of the hand: one yakuman for concealed thirteen
/// orphans, else the best over its readings; none without a yaku or
/// without a complete shape.
pub open spec fn search_spec(c: HandEvalContext) -> Option<HandScore> {
    if c.is_concealed && thirteen_orphans_shanten_spec(c.hand@) == -1 {
        Some(HandScore::Yakuman(1))
    } else {
        best_score(division_scores(c))
    }
}

/// The largest fu over the readings `0..n` (scored without pinfu).
pub open spec fn max_fu(c: HandEvalContext, divs: Seq<Division>, n: int) -> Option<int>
    decreases n,
{
    if n <= 0 {
        None
    } else {
        let f = division_fu(c, divs[n - 1], false);
        match max_fu(c, divs, n - 1) {
            None => Some(f),
            Some(m) => if m > f {
                Some(m)
            } else {
                Some(f)
            },
        }
    }
}

/// The score with han from outside the hand's shape: a regular score
/// gains `additional_han` and the dora; with no yaku in the shape,
/// `additional_han` alone makes a score (mangan and up without fu, else
/// with the largest fu of the readings).
pub open spec fn evaluate_full_spec(c: HandEvalContext, additional_han: u8, dora_count: u8) -> Option<HandScore> {
    match search_spec(c) {
        Some(HandScore::Basic { fu, han }) => Some(
            HandScore::Basic { fu, han: (han + additional_han + dora_count) as u8 },
        ),
        Some(s) => Some(s),
        None => if additional_han == 0 {
            None
        } else if additional_han + dora_count >= 5 {
            Some(HandScore::Basic { fu: 0, han: (additional_han + dora_count) as u8 })
        } else {
            let divs = divisions_spec(c.hand@);
            match max_fu(c, divs, divs.len() as int) {
                Some(f) => Some(HandScore::Basic { fu: f as u8, han: (additional_han + dora_count) as u8 }),
                None => None,
            }
        },
    }
}

fn append_kinds(v: &mut Vec<u8>, s: &[u8])
    ensures
        final(v)@ == old(v)@ + s@,
{
    let mut i: usize = 0;
    while i < s.len()
        invariant
            i <= s@.len(),
            v@ == old(v)@ + s@.take(i as int),
        decreases s@.len() - i,
    {
        v.push(s[i]);
        assert(s@.take(i + 1) =~= s@.take(i as int).push(s@[i as int]));
        i += 1;
    }
    assert(s@.take(s@.len() as int) =~= s@);
}

fn all_simple_exec(s: &Vec<u8>) -> (b: bool)
    ensures
        b == all_simple(s@),
{
    let mut i: usize = 0;
    while i < s.len()
        invariant
            i <= s@.len(),
            forall|j: int| 0 <= j < i ==> is_simple(#[trigger] s@[j] as int),
        decreases s@.len() - i,
    {
        let k = s[i];
        if !(k < 27 && k % 9 > 0 && k % 9 < 8) {
            return false;
        }
        i += 1;
    }
    true
}

fn all_yaochu_exec(s: &Vec<u8>) -> (b: bool)
    ensures
        b == all_yaochu(s@),
{
    let mut i: usize = 0;
    while i < s.len()
        invariant
            i <= s@.len(),
            forall|j: int| 0 <= j < i ==> is_yaochu(#[trigger] s@[j] as int),
        decreases s@.len() - i,
    {
        let k = s[i];
        if !(k >= 27 || k % 9 == 0 || k % 9 == 8) {
            return false;
        }
        i += 1;
    }
    true
}

fn all_honours_exec(s: &Vec<u8>) -> (b: bool)
    ensures
        b == all_honours(s@),
{
    let mut i: usize = 0;
    while i < s.len()
        invariant
            i <= s@.len(),
            forall|j: int| 0 <= j < i ==> (#[trigger] s@[j]) >= 27,
        decreases s@.len() - i,
    {
        if s[i] < 27 {
            return false;
        }
        i += 1;
    }
    true
}

fn any_honour_exec(s: &Vec<u8>) -> (b: bool)
    ensures
        b == any_honour(s@),
{
    let mut i: usize = 0;
    while i < s.len()
        invariant
            i <= s@.len(),
            forall|j: int| 0 <= j < i ==> (#[trigger] s@[j]) < 27,
        decreases s@.len() - i,
    {
        if s[i] >= 27 {
            return true;
        }
        i += 1;
    }
    false
}

fn one_suit_exec(s: &Vec<u8>) -> (b: bool)
    ensures
        b == one_suit(s@),
{
    let mut first: usize = s.len();
    let mut i: usize = 0;
    while i < s.len()
        invariant
            i <= s@.len(),
            first <= s@.len(),
            first < s@.len() ==> first < i && s@[first as int] < 27,
            first == s@.len() ==> forall|j: int| 0 <= j < i ==> (#[trigger] s@[j]) >= 27,
            first < s@.len() ==> forall|j: int|
                0 <= j < i && (#[trigger] s@[j]) < 27 ==> s@[j] / 9 == s@[first as int] / 9,
        decreases s@.len() - i,
    {
        if s[i] < 27 {
            if first == s.len() {
                first = i;
            } else if s[i] / 9 != s[first] / 9 {
                assert(s@[first as int] < 27 && s@[i as int] < 27);
                return false;
            }
        }
        i += 1;
    }
    true
}

fn triple_across_exec(s: &Vec<u8>) -> (b: bool)
    ensures
        b == triple_across(s@),
{
    let mut n: u8 = 0;
    while n < 9
        invariant
            n <= 9,
            forall|m: int|
                0 <= m < n ==> !(#[trigger] s@.contains(m as u8) && s@.contains((m + 9) as u8) && s@.contains(
                    (m + 18) as u8,
                )),
        decreases 9 - n,
    {
        if contains_kind(s, n) && contains_kind(s, n + 9) && contains_kind(s, n + 18) {
            assert(s@.contains((n as int) as u8) && s@.contains((n as int + 9) as u8) && s@.contains(
                (n as int + 18) as u8,
            ));
            return true;
        }
        n += 1;
    }
    false
}

/// Every entry satisfies `lo <= s % 9 < hi`, or (with `ends`) is 0 or 6 mod 9.
fn seqs_inner_exec(s: &Vec<u8>) -> (b: bool)
    ensures
        b == forall|i: int| 0 <= i < s@.len() ==> #[trigger] s@[i] % 9 > 0 && s@[i] % 9 < 6,
{
    let mut i: usize = 0;
    while i < s.len()
        invariant
            i <= s@.len(),
            forall|j: int| 0 <= j < i ==> #[trigger] s@[j] % 9 > 0 && s@[j] % 9 < 6,
        decreases s@.len() - i,
    {
        if !(s[i] % 9 > 0 && s[i] % 9 < 6) {
            return false;
        }
        i += 1;
    }
    true
}

fn seqs_terminal_exec(s: &Vec<u8>) -> (b: bool)
    ensures
        b == forall|i: int| 0 <= i < s@.len() ==> #[trigger] s@[i] % 9 == 0 || s@[i] % 9 == 6,
{
    let mut i: usize = 0;
    while i < s.len()
        invariant
            i <= s@.len(),
            forall|j: int| 0 <= j < i ==> #[trigger] s@[j] % 9 == 0 || s@[j] % 9 == 6,
        decreases s@.len() - i,
    {
        if !(s[i] % 9 == 0 || s[i] % 9 == 6) {
            return false;
        }
        i += 1;
    }
    true
}

fn all_green_trips_exec(s: &Vec<u8>) -> (b: bool)
    ensures
        b == forall|i: int| 0 <= i < s@.len() ==> is_green(#[trigger] s@[i] as int),
{
    let mut i: usize = 0;
    while i < s.len()
        invariant
            i <= s@.len(),
            forall|j: int| 0 <= j < i ==> is_green(#[trigger] s@[j] as int),
        decreases s@.len() - i,
    {
        let k = s[i];
        if !(k == 19 || k == 20 || k == 21 || k == 23 || k == 25 || k == 32) {
            return false;
        }
        i += 1;
    }
    true
}

fn all_equal_exec(s: &Vec<u8>, v: u8) -> (b: bool)
    ensures
        b == forall|i: int| 0 <= i < s@.len() ==> #[trigger] s@[i] == v,
{
    let mut i: usize = 0;
    while i < s.len()
        invariant
            i <= s@.len(),
            forall|j: int| 0 <= j < i ==> #[trigger] s@[j] == v,
        decreases s@.len() - i,
    {
        if s[i] != v {
            return false;
        }
        i += 1;
    }
    true
}

proof fn lemma_triplets_fu_bounds(c: HandEvalContext, d: Division, n: int)
    requires
        0 <= n <= d.triplets.len(),
    ensures
        0 <= triplets_fu(c, d, n) <= 8 * n,
    decreases n,
{
    if n > 0 {
        lemma_triplets_fu_bounds(c, d, n - 1);
    }
}

proof fn lemma_calls_fu_bounds(s: Seq<u8>, n: int, yao: int, plain: int)
    requires
        0 <= n <= s.len(),
        0 <= plain <= yao,
    ensures
        0 <= calls_fu(s, n, yao, plain) <= yao * n,
    decreases n,
{
    if n > 0 {
        lemma_calls_fu_bounds(s, n - 1, yao, plain);
        assert(yao * n == yao * (n - 1) + yao) by (nonlinear_arith);
    }
}

fn calls_fu_exec(s: &[u8], yao: u32, plain: u32) -> (f: u32)
    requires
        s@.len() <= 4,
        plain <= yao <= 32,
    ensures
        f == calls_fu(s@, s@.len() as int, yao as int, plain as int),
{
    let mut f: u32 = 0;
    let mut i: usize = 0;
    while i < s.len()
        invariant
            i <= s@.len() <= 4,
            plain <= yao <= 32,
            f == calls_fu(s@, i as int, yao as int, plain as int),
            f <= 32 * i,
        decreases s@.len() - i,
    {
        let k = s[i];
        if k >= 27 || k % 9 == 0 || k % 9 == 8 {
            f = f + yao;
        } else {
            f = f + plain;
        }
        i += 1;
    }
    f
}

/// One reading of the hand, scored against the context.
struct DivisionScorer<'a> {
    ctx: &'a HandEvalContext<'a>,
    div: &'a HandDivision,
    trips: Vec<u8>,
    seqs: Vec<u8>,
    winning_tile_makes_open_triplet: bool,
}

impl<'a> DivisionScorer<'a> {
    spec fn wf(&self) -> bool {
        &&& ctx_wf(*self.ctx)
        &&& division_wf(self.div@)
        &&& self.trips@ == all_trips(*self.ctx, self.div@)
        &&& self.seqs@ == all_seqs(*self.ctx, self.div@)
        &&& self.winning_tile_makes_open_triplet == open_triplet(*self.ctx, self.div@)
    }

    fn new(ctx: &'a HandEvalContext<'a>, div: &'a HandDivision) -> (r: Self)
        requires
            ctx_wf(*ctx),
            division_wf(div@),
        ensures
            r.wf(),
            r.ctx == ctx,
            r.div == div,
    {
        let mut trips: Vec<u8> = Vec::new();
        append_kinds(&mut trips, div.triplets.as_slice());
        append_kinds(&mut trips, ctx.pons);
        append_kinds(&mut trips, ctx.minkans);
        append_kinds(&mut trips, ctx.ankans);
        let mut seqs: Vec<u8> = Vec::new();
        append_kinds(&mut seqs, div.sequences.as_slice());
        append_kinds(&mut seqs, ctx.chis);
        assert(trips@ =~= all_trips(*ctx, div@));
        assert(seqs@ =~= all_seqs(*ctx, div@));
        let open = Self::detect_open_triplet(ctx, div);
        DivisionScorer { ctx, div, trips, seqs, winning_tile_makes_open_triplet: open }
    }

    fn detect_open_triplet(ctx: &HandEvalContext, div: &HandDivision) -> (b: bool)
        requires
            ctx_wf(*ctx),
        ensures
            b == open_triplet(*ctx, div@),
    {
        proof {
            reveal(open_triplet);
        }
        if !ctx.is_ron {
            return false;
        }
        let w = ctx.winning_tile;
        if !contains_kind(&div.triplets, w) {
            return false;
        }
        if w >= 27 {
            return true;
        }
        let kind = w / 9;
        let num = w % 9;
        let low = kind * 9 + if num >= 2 {
            num - 2
        } else {
            0
        };
        let high = kind * 9 + if num <= 6 {
            num
        } else {
            6
        };
        assert(low == window_low(w as int) && high == window_high(w as int));
        let mut t = low;
        while t <= high
            invariant
                low <= t <= high + 1,
                high < 27,
                low == window_low(w as int),
                high == window_high(w as int),
                forall|x: u8| low <= x < t ==> !(#[trigger] div.sequences@.contains(x)),
                ctx.is_ron,
                w == ctx.winning_tile,
                w < 27,
                div.triplets@.contains(w),
            decreases high + 1 - t,
        {
            if contains_kind(&div.sequences, t) {
                assert(window_low(w as int) <= t <= window_high(w as int) && div.sequences@.contains(t));
                assert(div@.sequences.contains(t));
                proof {
                    reveal(open_triplet);
                }
                return false;
            }
            t += 1;
        }
        true
    }

    fn calculate_fu(&self, has_pinfu: bool) -> (fu: u8)
        requires
            self.wf(),
        ensures
            fu == division_fu(*self.ctx, self.div@, has_pinfu),
    {
        let ctx = self.ctx;
        let div = self.div;
        let ghost c = *ctx;
        let ghost d = div@;
        if div.has_seven_pairs {
            return 25;
        }
        let w = ctx.winning_tile;
        let mut tf: u32 = 0;
        let mut i: usize = 0;
        while i < div.triplets.len()
            invariant
                i <= div.triplets@.len() <= 4,
                self.wf(),
                c == *self.ctx,
                d == self.div@,
                div == self.div,
                ctx == self.ctx,
                w == c.winning_tile,
                tf == triplets_fu(c, d, i as int),
                tf <= 8 * i,
            decreases div.triplets@.len() - i,
        {
            let t = div.triplets[i];
            let open = self.winning_tile_makes_open_triplet && t == w;
            let yao = t >= 27 || t % 9 == 0 || t % 9 == 8;
            let add: u32 = if !open && yao {
                8
            } else if open && !yao {
                2
            } else {
                4
            };
            tf = tf + add;
            i += 1;
        }
        let pf = calls_fu_exec(ctx.pons, 4, 2);
        let af = calls_fu_exec(ctx.ankans, 32, 16);
        let mf = calls_fu_exec(ctx.minkans, 16, 8);
        proof {
            lemma_calls_fu_bounds(c.pons@, c.pons@.len() as int, 4, 2);
            lemma_calls_fu_bounds(c.ankans@, c.ankans@.len() as int, 32, 16);
            lemma_calls_fu_bounds(c.minkans@, c.minkans@.len() as int, 16, 8);
        }
        let p = div.pair_tile;
        let pair: u32 = if 31 <= p && p <= 33 {
            2
        } else {
            (if p == ctx.table_wind {
                2
            } else {
                0
            }) + if p == ctx.seat_wind {
                2
            } else {
                0
            }
        };
        let mut fu: u32 = 20 + tf + pf + af + mf + pair;
        assert(fu == groups_fu(c, d));
        assert(fu <= 184);
        if fu == 20 {
            return if !ctx.is_concealed {
                30
            } else if has_pinfu {
                if ctx.is_ron {
                    30
                } else {
                    20
                }
            } else if ctx.is_ron {
                40
            } else {
                30
            };
        }
        if !ctx.is_ron {
            fu += 2;
        } else if ctx.is_concealed {
            fu += 10;
        }
        let wait = self.wait_fu_exec();
        fu += wait;
        let r = ((fu - 1) / 10 + 1) * 10;
        assert(r <= 200);
        r as u8
    }

    fn wait_fu_exec(&self) -> (f: u32)
        requires
            self.wf(),
        ensures
            f == wait_fu(*self.ctx, self.div@),
    {
        if self.winning_tile_makes_open_triplet {
            return 0;
        }
        let w = self.ctx.winning_tile;
        if self.div.pair_tile == w {
            return 2;
        }
        let s = &self.div.sequences;
        let mut i: usize = 0;
        while i < s.len()
            invariant
                i <= s@.len(),
                s@.len() <= 4,
                forall|j: int| 0 <= j < s@.len() ==> (#[trigger] s@[j]) < 27,
                forall|j: int| 0 <= j < i ==> !edge_or_closed(#[trigger] s@[j] as int, w as int),
                self.wf(),
                !self.winning_tile_makes_open_triplet,
                self.div.pair_tile != w,
                w == self.ctx.winning_tile,
                s@ == self.div.sequences@,
            decreases s@.len() - i,
        {
            let q = s[i];
            if q + 1 == w || (q % 9 == 0 && q + 2 == w) || (q % 9 == 6 && q == w) {
                assert(edge_or_closed(s@[i as int] as int, w as int));
                return 2;
            }
            i += 1;
        }
        0
    }
}

impl<'a> DivisionScorer<'a> {
    fn has_pinfu(&self) -> (b: bool)
        requires
            self.wf(),
        ensures
            b == pinfu(*self.ctx, self.div@),
    {
        proof {
            reveal(pinfu);
        }
        let s = &self.div.sequences;
        let p = self.div.pair_tile;
        let w = self.ctx.winning_tile;
        if s.len() != 4 || (31 <= p && p <= 33) || p == self.ctx.table_wind || p == self.ctx.seat_wind {
            return false;
        }
        let mut i: usize = 0;
        while i < 4
            invariant
                i <= 4,
                s@.len() == 4,
                forall|j: int| 0 <= j < 4 ==> (#[trigger] s@[j]) < 27,
                forall|j: int| 0 <= j < i ==> !two_sided(#[trigger] s@[j] as int, w as int),
                self.wf(),
                s@ == self.div.sequences@,
                w == self.ctx.winning_tile,
                p == self.div.pair_tile,
                !(31 <= p && p <= 33),
                p != self.ctx.table_wind,
                p != self.ctx.seat_wind,
            decreases 4 - i,
        {
            let q = s[i];
            let num = q % 9 + 1;
            if (num <= 6 && q == w) || (num >= 2 && q + 2 == w) {
                assert(two_sided(s@[i as int] as int, w as int));
                proof {
                    reveal(pinfu);
                }
                return true;
            }
            i += 1;
        }
        false
    }

    fn tanyao_exec(&self) -> (b: bool)
        requires
            self.wf(),
        ensures
            b == tanyao(*self.ctx, self.div@),
    {
        proof {
            reveal(tanyao);
        }
        if self.div.has_seven_pairs {
            all_simple_exec(&self.div.seven_kinds)
        } else {
            let p = self.div.pair_tile;
            seqs_inner_exec(&self.seqs) && all_simple_exec(&self.trips) && (p < 27 && p % 9 > 0 && p % 9 < 8)
        }
    }

    fn suit_kinds_exec(&self) -> (v: Vec<u8>)
        requires
            self.wf(),
        ensures
            v@ == suit_kinds(*self.ctx, self.div@),
    {
        let mut v: Vec<u8> = Vec::new();
        if self.div.has_seven_pairs {
            append_kinds(&mut v, self.div.seven_kinds.as_slice());
        } else {
            append_kinds(&mut v, self.trips.as_slice());
            append_kinds(&mut v, self.seqs.as_slice());
            v.push(self.div.pair_tile);
        }
        assert(v@ =~= suit_kinds(*self.ctx, self.div@));
        v
    }

    fn terminal_kinds_exec(&self) -> (v: Vec<u8>)
        requires
            self.wf(),
        ensures
            v@ == terminal_kinds(*self.ctx, self.div@),
    {
        let mut v: Vec<u8> = Vec::new();
        if self.div.has_seven_pairs {
            append_kinds(&mut v, self.div.seven_kinds.as_slice());
        } else {
            append_kinds(&mut v, self.trips.as_slice());
            v.push(self.div.pair_tile);
        }
        assert(v@ =~= terminal_kinds(*self.ctx, self.div@));
        v
    }

    /// Honitsu or chinitsu han, and whether the hand is all honours.
    fn flush_exec(&self) -> (r: (u8, bool))
        requires
            self.wf(),
        ensures
            r.0 == flush_han(*self.ctx, self.div@),
            r.0 <= 6,
            r.1 == all_honours(suit_kinds(*self.ctx, self.div@)),
    {
        proof {
            reveal(flush_han);
        }
        let k = self.suit_kinds_exec();
        if all_honours_exec(&k) {
            return (0, true);
        }
        if one_suit_exec(&k) {
            let base: u8 = if any_honour_exec(&k) {
                2
            } else {
                5
            };
            let extra: u8 = if self.ctx.is_concealed {
                1
            } else {
                0
            };
            (base + extra, false)
        } else {
            (0, false)
        }
    }

    fn iipeikou_exec(&self) -> (h: u8)
        requires
            self.wf(),
        ensures
            h == iipeikou_han(*self.ctx, self.div@),
            h <= 1,
    {
        proof {
            reveal(iipeikou_han);
        }
        if self.div.has_pure_double_sequence {
            1
        } else if self.ctx.ankans.len() > 0 && self.ctx.is_concealed && self.div.sequences.len() >= 2
            && duplicate_in(&self.div.sequences) {
            1
        } else {
            0
        }
    }

    fn ittsuu_exec(&self) -> (h: u8)
        requires
            self.wf(),
        ensures
            h == ittsuu_han(*self.ctx, self.div@),
            h <= 2,
    {
        proof {
            reveal(ittsuu_han);
        }
        if self.ctx.is_concealed && self.div.has_full_straight {
            2
        } else if self.ctx.chis.len() == 0 && self.div.has_full_straight {
            1
        } else if self.div.sequences.len() + self.ctx.chis.len() >= 3 && straight_in(&self.seqs) {
            1
        } else {
            0
        }
    }

    fn sanshoku_exec(&self) -> (h: u8)
        requires
            self.wf(),
        ensures
            h == sanshoku_han(*self.ctx, self.div@),
            h <= 2,
    {
        proof {
            reveal(sanshoku_han);
        }
        if triple_across_exec(&self.seqs) {
            if self.ctx.is_concealed {
                2
            } else {
                1
            }
        } else if triple_across_exec(&self.trips) {
            2
        } else {
            0
        }
    }

    /// Yakuhai han and the yakuman of the honours.
    fn honour_exec(&self) -> (r: (u8, u8))
        requires
            self.wf(),
        ensures
            r.0 == honour_han(*self.ctx, self.div@),
            r.1 == honour_yakuman(*self.ctx, self.div@),
            r.0 <= 7,
            r.1 <= 2,
    {
        proof {
            reveal(honour_han);
            reveal(honour_yakuman);
        }
        let t = &self.trips;
        let round: u8 = if contains_kind(t, self.ctx.table_wind) {
            1
        } else {
            0
        };
        let seat: u8 = if contains_kind(t, self.ctx.seat_wind) {
            1
        } else {
            0
        };
        let mut dragons: u8 = 0;
        if contains_kind(t, 31) {
            dragons += 1;
        }
        if contains_kind(t, 32) {
            dragons += 1;
        }
        if contains_kind(t, 33) {
            dragons += 1;
        }
        let mut winds: u8 = 0;
        if contains_kind(t, 27) {
            winds += 1;
        }
        if contains_kind(t, 28) {
            winds += 1;
        }
        if contains_kind(t, 29) {
            winds += 1;
        }
        if contains_kind(t, 30) {
            winds += 1;
        }
        let p = self.div.pair_tile;
        let shousangen: u8 = if dragons == 2 && 31 <= p && p <= 33 {
            2
        } else {
            0
        };
        let big_dragons: u8 = if dragons == 3 {
            1
        } else {
            0
        };
        let four_winds: u8 = if winds == 4 || (winds == 3 && 27 <= p && p <= 30) {
            1
        } else {
            0
        };
        (round + seat + dragons + shousangen, big_dragons + four_winds)
    }

    /// Honroutou, chanta, junchan han and the chinroutou yakuman.
    fn terminal_exec(&self) -> (r: (u8, u8))
        requires
            self.wf(),
        ensures
            r.0 == terminal_han(*self.ctx, self.div@),
            r.1 == terminal_yakuman(*self.ctx, self.div@),
            r.0 <= 3,
            r.1 <= 1,
    {
        proof {
            reveal(terminal_han);
            reveal(terminal_yakuman);
        }
        let k = self.terminal_kinds_exec();
        if !all_yaochu_exec(&k) {
            return (0, 0);
        }
        let honour = any_honour_exec(&k);
        let all_triplets = !self.div.has_seven_pairs && self.div.sequences.len() == 0
            && self.ctx.chis.len() == 0;
        if self.div.has_seven_pairs || all_triplets {
            if honour {
                (2, 0)
            } else {
                (0, 1)
            }
        } else if seqs_terminal_exec(&self.seqs) {
            let base: u8 = if honour {
                1
            } else {
                2
            };
            let extra: u8 = if self.ctx.is_concealed {
                1
            } else {
                0
            };
            (base + extra, 0)
        } else {
            (0, 0)
        }
    }

    fn all_green_exec(&self) -> (b: bool)
        requires
            self.wf(),
        ensures
            b == all_green(*self.ctx, self.div@),
    {
        proof {
            reveal(all_green);
        }
        let p = self.div.pair_tile;
        let green_pair = p == 19 || p == 20 || p == 21 || p == 23 || p == 25 || p == 32;
        all_green_trips_exec(&self.trips) && green_pair && all_equal_exec(&self.seqs, 19)
    }

    /// The han and yakuman of the patterns of a standard reading.
    fn standard_exec(&self, has_tanyao: bool) -> (r: (u8, u8))
        requires
            self.wf(),
            has_tanyao == tanyao(*self.ctx, self.div@),
        ensures
            r.0 == standard_han(*self.ctx, self.div@),
            r.1 == standard_yakuman(*self.ctx, self.div@),
            r.0 <= 18,
            r.1 <= 5,
    {
        proof {
            reveal(standard_han);
            reveal(standard_yakuman);
        }
        let ctx = self.ctx;
        let div = self.div;
        let mut han: u8 = 0;
        let mut yakuman: u8 = 0;
        han += self.iipeikou_exec();
        han += self.ittsuu_exec();
        han += self.sanshoku_exec();
        let open: usize = if self.winning_tile_makes_open_triplet {
            1
        } else {
            0
        };
        proof {
            reveal(open_triplet);
        }
        let concealed_triplets = ctx.ankans.len() + div.triplets.len() - open;
        if concealed_triplets == 4 {
            yakuman += 1;
        } else if concealed_triplets == 3 {
            han += 2;
        }
        let kans = ctx.ankans.len() + ctx.minkans.len();
        if kans == 4 {
            yakuman += 1;
        } else if kans == 3 {
            han += 2;
        }
        if self.all_green_exec() {
            yakuman += 1;
        }
        if !has_tanyao {
            let (h, y) = self.honour_exec();
            han += h;
            yakuman += y;
        }
        (han, yakuman)
    }

    /// The score of the reading. With `return_if_any` the fu are not
    /// worked out: only whether a score exists is wanted, and a score that
    /// is not yakuman carries 0 fu (see `score_without_fu`).
    fn search_yaku(&self, return_if_any: bool) -> (r: Option<HandScore>)
        requires
            self.wf(),
        ensures
            !return_if_any ==> r == division_score(*self.ctx, self.div@),
            return_if_any ==> r == score_without_fu(division_score(*self.ctx, self.div@)),
            r is Some <==> division_score(*self.ctx, self.div@) is Some,
    {
        let ghost c = *self.ctx;
        let ghost d = self.div@;
        let ctx = self.ctx;
        let div = self.div;
        let has_pinfu = self.has_pinfu();
        let has_tanyao = self.tanyao_exec();
        let all_triplets = !div.has_seven_pairs && div.sequences.len() == 0 && ctx.chis.len() == 0;
        let (flush, all_honour) = self.flush_exec();
        let mut han: u8 = 0;
        let mut yakuman: u8 = 0;
        if has_pinfu {
            han += 1;
        }
        if div.has_seven_pairs {
            han += 2;
        }
        if div.has_twice_pure_double_sequence {
            han += 3;
        }
        if div.has_nine_gates {
            yakuman += 1;
        }
        if has_tanyao {
            han += 1;
        }
        if all_triplets {
            han += 2;
        }
        if all_honour {
            yakuman += 1;
        }
        han += flush;
        if !div.has_seven_pairs {
            let (h, y) = self.standard_exec(has_tanyao);
            han += h;
            yakuman += y;
        }
        if !has_tanyao {
            let (h, y) = self.terminal_exec();
            han += h;
            yakuman += y;
        }
        assert(han == division_han(c, d));
        assert(yakuman == division_yakuman(c, d));
        if yakuman > 0 {
            Some(HandScore::Yakuman(yakuman))
        } else if han > 0 {
            let fu = if return_if_any || han >= 5 {
                0
            } else {
                self.calculate_fu(has_pinfu)
            };
            Some(HandScore::Basic { fu, han })
        } else {
            None
        }
    }
}

/// A score with its fu left out: the han of a basic score with 0 fu; a
/// yakuman score, or none, as it is.
pub open spec fn score_without_fu(s: Option<HandScore>) -> Option<HandScore> {
    match s {
        Some(HandScore::Basic { han, .. }) => Some(HandScore::Basic { fu: 0, han }),
        other => other,
    }
}

/// A best score exists exactly when some entry has one.
proof fn lemma_best_score_some(s: Seq<Option<HandScore>>)
    ensures
        best_score(s) is Some <==> exists|i: int| 0 <= i < s.len() && (#[trigger] s[i]) is Some,
    decreases s.len(),
{
    if s.len() > 0 {
        let p = s.drop_last();
        lemma_best_score_some(p);
        assert forall|i: int| 0 <= i < s.len() - 1 implies s[i] == #[trigger] p[i] by {}
        if best_score(s) is Some {
            if s.last() is Some {
                assert(s[s.len() - 1] is Some);
            } else {
                assert(best_score(p) is Some);
                let i = choose|i: int| 0 <= i < p.len() && (#[trigger] p[i]) is Some;
                assert(s[i] is Some);
            }
        }
        if exists|i: int| 0 <= i < s.len() && (#[trigger] s[i]) is Some {
            let i = choose|i: int| 0 <= i < s.len() && (#[trigger] s[i]) is Some;
            if i < s.len() - 1 {
                assert(p[i] is Some);
            } else {
                assert(s.last() is Some);
            }
        }
    }
}

fn better(best: Option<HandScore>, next: Option<HandScore>) -> (r: Option<HandScore>)
    ensures
        r == (match next {
            None => best,
            Some(x) => match best {
                None => Some(x),
                Some(b) => if outranks_spec(b, x) {
                    Some(b)
                } else {
                    Some(x)
                },
            },
        }),
{
    match next {
        None => best,
        Some(x) => match best {
            None => Some(x),
            Some(b) => if b.outranks(&x) {
                Some(b)
            } else {
                Some(x)
            },
        },
    }
}

impl HandEvalContext<'_> {
    /// Whether the hand scores at all: a complete shape with a yaku.
    pub fn has_yaku(&self) -> (b: bool)
        requires
            ctx_wf(*self),
        ensures
            b == search_spec(*self) is Some,
    {
        self.evaluate(true).is_some()
    }

    /// The best score of the hand (see `search_spec`).
    pub fn search_yaku(&self) -> (r: Option<HandScore>)
        requires
            ctx_wf(*self),
        ensures
            r == search_spec(*self),
    {
        self.evaluate(false)
    }

    /// The score with `additional_han` from outside the shape (riichi,
    /// tsumo and the like) and `dora_count` dora (see `evaluate_full_spec`).
    pub fn evaluate_full(&self, additional_han: u8, dora_count: u8) -> (r: Option<HandScore>)
        requires
            ctx_wf(*self),
            additional_han + dora_count <= 255,
            search_spec(*self) matches Some(HandScore::Basic { han, .. }) ==> han + additional_han
                + dora_count <= 255,
        ensures
            r == evaluate_full_spec(*self, additional_han, dora_count),
    {
        if let Some(score) = self.search_yaku() {
            match score {
                HandScore::Basic { fu, han } => Some(
                    HandScore::Basic { fu, han: han + additional_han + dora_count },
                ),
                _ => Some(score),
            }
        } else if additional_han == 0 {
            None
        } else if additional_han + dora_count >= 5 {
            Some(HandScore::Basic { fu: 0, han: additional_han + dora_count })
        } else {
            let divs = divisions(self.hand);
            let ghost ds = divisions_spec(self.hand@);
            let mut best: Option<u8> = None;
            let mut k: usize = 0;
            while k < divs.len()
                invariant
                    k <= divs@.len(),
                    ctx_wf(*self),
                    divs@.len() == ds.len(),
                    ds == divisions_spec(self.hand@),
                    forall|i: int| 0 <= i < divs@.len() ==> (#[trigger] divs@[i])@ == ds[i],
                    forall|i: int| 0 <= i < divs@.len() ==> division_wf(#[trigger] ds[i]),
                    best matches Some(b) ==> max_fu(*self, ds, k as int) == Some(b as int),
                    best is None ==> max_fu(*self, ds, k as int) is None,
                decreases divs@.len() - k,
            {
                assert(division_wf(ds[k as int]));
                let w = DivisionScorer::new(self, &divs[k]);
                let f = w.calculate_fu(false);
                best = match best {
                    None => Some(f),
                    Some(m) => if m > f {
                        Some(m)
                    } else {
                        Some(f)
                    },
                };
                k += 1;
            }
            match best {
                Some(fu) => Some(HandScore::Basic { fu, han: additional_han + dora_count }),
                None => None,
            }
        }
    }

    #[verifier::loop_isolation(false)]
    fn evaluate(&self, return_if_any: bool) -> (r: Option<HandScore>)
        requires
            ctx_wf(*self),
        ensures
            !return_if_any ==> r == search_spec(*self),
            r is Some <==> search_spec(*self) is Some,
    {
        if self.is_concealed && calculate_thirteen_orphans(self.hand) == -1 {
            return Some(HandScore::Yakuman(1));
        }
        let divs = divisions(self.hand);
        let ghost ds = divisions_spec(self.hand@);
        let ghost scores = division_scores(*self);
        proof {
            lemma_best_score_some(scores);
        }
        if return_if_any {
            let mut k: usize = 0;
            while k < divs.len()
                invariant
                    k <= divs@.len(),
                    ctx_wf(*self),
                    divs@.len() == ds.len(),
                    ds == divisions_spec(self.hand@),
                    scores == division_scores(*self),
                    forall|i: int| 0 <= i < divs@.len() ==> (#[trigger] divs@[i])@ == ds[i],
                    forall|i: int| 0 <= i < divs@.len() ==> division_wf(#[trigger] ds[i]),
                    forall|i: int| 0 <= i < k ==> (#[trigger] scores[i]) is None,
                decreases divs@.len() - k,
            {
                assert(division_wf(ds[k as int]));
                let w = DivisionScorer::new(self, &divs[k]);
                let found = w.search_yaku(true);
                assert(scores[k as int] == division_score(*self, ds[k as int]));
                if found.is_some() {
                    return found;
                }
                k += 1;
            }
            None
        } else {
            let mut best: Option<HandScore> = None;
            let mut k: usize = 0;
            while k < divs.len()
                invariant
                    k <= divs@.len(),
                    ctx_wf(*self),
                    divs@.len() == ds.len(),
                    ds == divisions_spec(self.hand@),
                    scores == division_scores(*self),
                    forall|i: int| 0 <= i < divs@.len() ==> (#[trigger] divs@[i])@ == ds[i],
                    forall|i: int| 0 <= i < divs@.len() ==> division_wf(#[trigger] ds[i]),
                    best == best_score(scores.take(k as int)),
                decreases divs@.len() - k,
            {
                assert(division_wf(ds[k as int]));
                let w = DivisionScorer::new(self, &divs[k]);
                let next = w.search_yaku(false);
                assert(scores[k as int] == division_score(*self, ds[k as int]));
                assert(scores.take(k + 1).drop_last() =~= scores.take(k as int));
                best = better(best, next);
                k += 1;
            }
            assert(scores.take(scores.len() as int) =~= scores);
            best
        }
    }
}

proof fn lemma_outranks_order(a: HandScore, b: HandScore, c: HandScore)
    ensures
        !outranks_spec(a, a),
        outranks_spec(a, b) && outranks_spec(b, c) ==> outranks_spec(a, c),
        !outranks_spec(a, b) && a != b ==> outranks_spec(b, a),
{
}

/// The best score is one of the entries, and no entry ranks above it.
proof fn lemma_best_score_is_highest(s: Seq<Option<HandScore>>)
    ensures
        best_score(s) matches Some(b) ==> exists|i: int| 0 <= i < s.len() && #[trigger] s[i] == Some(b),
        best_score(s) matches Some(b) ==> forall|i: int|
            0 <= i < s.len() ==> (#[trigger] s[i] matches Some(x) ==> !outranks_spec(x, b)),
    decreases s.len(),
{
    if s.len() > 0 {
        let prev = s.drop_last();
        lemma_best_score_is_highest(prev);
        lemma_best_score_some(prev);
        let n = s.len() - 1;
        assert forall|i: int| 0 <= i < n implies s[i] == #[trigger] prev[i] by {}
        match s.last() {
            None => {
                assert(s[n] is None);
                if let Some(b) = best_score(prev) {
                    let i = choose|i: int| 0 <= i < prev.len() && #[trigger] prev[i] == Some(b);
                    assert(s[i] == Some(b));
                    assert forall|k: int| 0 <= k < s.len() implies (#[trigger] s[k] matches Some(x)
                        ==> !outranks_spec(x, b)) by {
                        if k < n {
                            assert(prev[k] == s[k]);
                        }
                    }
                }
            },
            Some(x) => {
                assert(s[n] == Some(x));
                lemma_outranks_order(x, x, x);
                match best_score(prev) {
                    None => {
                        assert forall|i: int| 0 <= i < s.len() implies (#[trigger] s[i] matches Some(y)
                            ==> !outranks_spec(y, x)) by {
                            if i < n {
                                assert(prev[i] is None);
                            }
                        }
                    },
                    Some(b) => {
                        let j = choose|i: int| 0 <= i < prev.len() && #[trigger] prev[i] == Some(b);
                        if outranks_spec(b, x) {
                            assert(s[j] == Some(b));
                            assert forall|k: int| 0 <= k < s.len() implies (#[trigger] s[k] matches Some(y)
                                ==> !outranks_spec(y, b)) by {
                                if k < n {
                                    assert(prev[k] == s[k]);
                                } else {
                                    lemma_outranks_order(x, b, x);
                                }
                            }
                        } else {
                            assert forall|k: int| 0 <= k < s.len() implies (#[trigger] s[k] matches Some(y)
                                ==> !outranks_spec(y, x)) by {
                                if k < n {
                                    if let Some(y) = s[k] {
                                        assert(prev[k] == Some(y));
                                        lemma_outranks_order(b, x, b);
                                        lemma_outranks_order(y, x, b);
                                    }
                                }
                            }
                        }
                    },
                }
            },
        }
    }
}

/// The scorer settles the best reading: apart from concealed thirteen
/// orphans, its score is the score of some reading and no reading scores
/// above it.
pub proof fn lemma_search_picks_the_highest_reading(c: HandEvalContext)
    ensures
        !(c.is_concealed && thirteen_orphans_shanten_spec(c.hand@) == -1) ==> (search_spec(c) matches Some(b)
            ==> (exists|i: int| 0 <= i < division_scores(c).len() && #[trigger] division_scores(c)[i] == Some(b))
            && forall|i: int|
            0 <= i < division_scores(c).len() ==> (#[trigger] division_scores(c)[i] matches Some(x)
                ==> !outranks_spec(x, b))),
{
    lemma_best_score_is_highest(division_scores(c));
}

/// Whether a hand has a yaku is whether it has a score.
pub proof fn lemma_has_yaku_iff_scored(c: HandEvalContext)
    ensures
        (search_spec(c) is Some) <==> ((c.is_concealed && thirteen_orphans_shanten_spec(c.hand@) == -1) || exists|i: int|
            0 <= i < division_scores(c).len() && (#[trigger] division_scores(c)[i]) is Some),
{
    lemma_best_score_some(division_scores(c));
}

/// Extra han (riichi, tsumo and the like) and dora add to the han of a
/// basic score and leave its fu; a yakuman score ignores them; without a
/// yaku from the shape, dora alone give no score, and extra han with dora
/// of five or more give that many han at 0 fu.
pub proof fn lemma_extra_han_and_dora(c: HandEvalContext, additional_han: u8, dora_count: u8)
    ensures
        match search_spec(c) {
            Some(HandScore::Basic { fu, han }) => han + additional_han + dora_count <= 255 ==> evaluate_full_spec(
                c,
                additional_han,
                dora_count,
            ) == Some(HandScore::Basic { fu, han: (han + additional_han + dora_count) as u8 }),
            Some(HandScore::Yakuman(n)) => evaluate_full_spec(c, additional_han, dora_count) == Some(
                HandScore::Yakuman(n),
            ),
            None => {
                &&& evaluate_full_spec(c, 0, dora_count) is None
                &&& (additional_han >= 1 && additional_han + dora_count >= 5 && additional_han + dora_count <= 255)
                    ==> evaluate_full_spec(c, additional_han, dora_count) == Some(
                    HandScore::Basic { fu: 0, han: (additional_han + dora_count) as u8 },
                )
            },
        },
{
}

} // verus!
