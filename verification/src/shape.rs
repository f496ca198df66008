use vstd::prelude::*;
use crate::counts::TileCounts;
use crate::model::{ClosedGroup, HandShape, MentsuKind, WinningHand};
use crate::counts::sum_counts;
use crate::shanten::{
    best_with_sequences_below, can_start_sequence, fewest_missing, kind_use, normal_shanten_spec,
    placement_cost, unreachable_cost,
};
use crate::tile::TileType;

verus! {

/// A partial decomposition: the pair, if one was placed, and the groups.
pub struct Arrangement {
    pub pair: Option<TileType>,
    pub groups: Vec<ClosedGroup>,
}

impl View for Arrangement {
    type V = (Option<TileType>, Seq<ClosedGroup>);

    open spec fn view(&self) -> (Option<TileType>, Seq<ClosedGroup>) {
        (self.pair, self.groups@)
    }
}

pub open spec fn triplet_at(i: int) -> ClosedGroup {
    ClosedGroup { kind: MentsuKind::Koutsu, tile_type: TileType(i as u8) }
}

pub open spec fn sequence_at(i: int) -> ClosedGroup {
    ClosedGroup { kind: MentsuKind::Shuntsu, tile_type: TileType(i as u8) }
}

/// The groups placed at kind `i`: `t` triplets, then `s` sequences.
pub open spec fn groups_at(i: int, t: int, s: int) -> Seq<ClosedGroup> {
    (if t == 1 {
        seq![triplet_at(i)]
    } else {
        seq![]
    }) + Seq::new(s as nat, |_k: int| sequence_at(i))
}

/// Prefixes each arrangement of the later kinds with what kind `i` holds.
pub open spec fn extend_with(
    i: int,
    t: int,
    s: int,
    q: int,
    rest: Seq<(Option<TileType>, Seq<ClosedGroup>)>,
) -> Seq<(Option<TileType>, Seq<ClosedGroup>)> {
    rest.map_values(
        |r: (Option<TileType>, Seq<ClosedGroup>)|
            (if q == 1 {
                Some(TileType(i as u8))
            } else {
                r.0
            }, groups_at(i, t, s) + r.1),
    )
}

/// Placing `t` triplets, `s` sequences and `q` pairs at kind `i` uses its
/// tiles exactly.
pub open spec fn exact_choice(h: Seq<u8>, i: int, j: int, p: int, a: int, b: int, t: int, s: int, q: int) -> bool {
    &&& t + s <= j
    &&& q <= p
    &&& (s > 0 ==> can_start_sequence(i))
    &&& crate::shanten::kind_use(t, s, q, a, b) <= 4
    &&& crate::shanten::kind_use(t, s, q, a, b) == h[i]
}

pub open spec fn choice_arrangements(
    h: Seq<u8>,
    i: int,
    j: int,
    p: int,
    a: int,
    b: int,
    t: int,
    s: int,
    q: int,
) -> Seq<(Option<TileType>, Seq<ClosedGroup>)>
    decreases 34 - i, 0int, 0int,
{
    if i < 0 || i >= 34 {
        seq![]
    } else if exact_choice(h, i, j, p, a, b, t, s, q) {
        extend_with(i, t, s, q, arrangements(h, i + 1, j - t - s, p - q, s, a))
    } else {
        seq![]
    }
}

pub open spec fn arrangements_below(
    h: Seq<u8>,
    i: int,
    j: int,
    p: int,
    a: int,
    b: int,
    t: int,
    n: int,
) -> Seq<(Option<TileType>, Seq<ClosedGroup>)>
    decreases 34 - i, 1int, n,
{
    if n <= 0 {
        seq![]
    } else {
        arrangements_below(h, i, j, p, a, b, t, n - 1) + choice_arrangements(
            h,
            i,
            j,
            p,
            a,
            b,
            t,
            n - 1,
            0,
        ) + choice_arrangements(h, i, j, p, a, b, t, n - 1, 1)
    }
}

/// Every way, in kind order, to split the tiles of kinds `i..34` exactly
/// into `j` groups and `p` pairs, given `a` and `b` sequences begun at
/// kinds `i - 1` and `i - 2`. At each kind: first no triplet, then one;
/// within that by the number of sequences starting there; then without,
/// then with the pair.
pub open spec fn arrangements(h: Seq<u8>, i: int, j: int, p: int, a: int, b: int) -> Seq<
    (Option<TileType>, Seq<ClosedGroup>),
>
    decreases 34 - i, 2int, 0int,
{
    if i >= 34 {
        if j == 0 && p == 0 && a == 0 && b == 0 {
            seq![(None, seq![])]
        } else {
            seq![]
        }
    } else {
        arrangements_below(h, i, j, p, a, b, 0, 5) + arrangements_below(h, i, j, p, a, b, 1, 5)
    }
}

/// An arrangement of kinds `i..34` into `j` groups: each group a valid
/// kind from `i` on (sequences only where they may start), and a pair, if
/// placed, of such a kind.
pub open spec fn arrangement_wf(r: (Option<TileType>, Seq<ClosedGroup>), i: int, j: int) -> bool {
    &&& r.1.len() == j
    &&& forall|g: int| 0 <= g < r.1.len() ==> i <= (#[trigger] r.1[g]).tile_type.0 < 34 && r.1[g].wf()
    &&& r.0 matches Some(k) ==> i <= k.0 < 34
}

proof fn lemma_arrangements_wf(h: Seq<u8>, i: int, j: int, p: int, a: int, b: int)
    requires
        0 <= i,
    ensures
        forall|k: int|
            0 <= k < arrangements(h, i, j, p, a, b).len() ==> arrangement_wf(
                #[trigger] arrangements(h, i, j, p, a, b)[k],
                i,
                j,
            ),
    decreases 34 - i, 2int, 0int,
{
    if i < 34 {
        lemma_arrangements_wf_below(h, i, j, p, a, b, 0, 5);
        lemma_arrangements_wf_below(h, i, j, p, a, b, 1, 5);
        let x = arrangements_below(h, i, j, p, a, b, 0, 5);
        let y = arrangements_below(h, i, j, p, a, b, 1, 5);
        assert forall|k: int| 0 <= k < (x + y).len() implies arrangement_wf(#[trigger] (x + y)[k], i, j) by {
            if k < x.len() {
                assert((x + y)[k] == x[k]);
            } else {
                assert((x + y)[k] == y[k - x.len()]);
            }
        }
    }
}

proof fn lemma_arrangements_wf_below(h: Seq<u8>, i: int, j: int, p: int, a: int, b: int, t: int, n: int)
    requires
        0 <= i < 34,
        0 <= t <= 1,
    ensures
        forall|k: int|
            0 <= k < arrangements_below(h, i, j, p, a, b, t, n).len() ==> arrangement_wf(
                #[trigger] arrangements_below(h, i, j, p, a, b, t, n)[k],
                i,
                j,
            ),
    decreases 34 - i, 1int, n,
{
    if n > 0 {
        lemma_arrangements_wf_below(h, i, j, p, a, b, t, n - 1);
        lemma_arrangements_wf_choice(h, i, j, p, a, b, t, n - 1, 0);
        lemma_arrangements_wf_choice(h, i, j, p, a, b, t, n - 1, 1);
        let x = arrangements_below(h, i, j, p, a, b, t, n - 1);
        let y = choice_arrangements(h, i, j, p, a, b, t, n - 1, 0);
        let z = choice_arrangements(h, i, j, p, a, b, t, n - 1, 1);
        assert forall|k: int| 0 <= k < (x + y + z).len() implies arrangement_wf(#[trigger] (x + y + z)[k], i, j) by {
            if k < x.len() {
                assert((x + y + z)[k] == x[k]);
            } else if k < x.len() + y.len() {
                assert((x + y + z)[k] == y[k - x.len()]);
            } else {
                assert((x + y + z)[k] == z[k - x.len() - y.len()]);
            }
        }
    }
}

proof fn lemma_arrangements_wf_choice(
    h: Seq<u8>,
    i: int,
    j: int,
    p: int,
    a: int,
    b: int,
    t: int,
    s: int,
    q: int,
)
    requires
        0 <= i < 34,
        0 <= t <= 1,
        0 <= s,
    ensures
        forall|k: int|
            0 <= k < choice_arrangements(h, i, j, p, a, b, t, s, q).len() ==> arrangement_wf(
                #[trigger] choice_arrangements(h, i, j, p, a, b, t, s, q)[k],
                i,
                j,
            ),
    decreases 34 - i, 0int, 0int,
{
    if exact_choice(h, i, j, p, a, b, t, s, q) {
        lemma_arrangements_wf(h, i + 1, j - t - s, p - q, s, a);
        let rest = arrangements(h, i + 1, j - t - s, p - q, s, a);
        let pre = groups_at(i, t, s);
        assert(pre.len() == t + s);
        assert forall|k: int| 0 <= k < extend_with(i, t, s, q, rest).len() implies arrangement_wf(
            #[trigger] extend_with(i, t, s, q, rest)[k],
            i,
            j,
        ) by {
            let r = rest[k];
            assert(arrangement_wf(r, i + 1, j - t - s));
            let e = extend_with(i, t, s, q, rest)[k];
            assert(e.1 == pre + r.1);
            assert forall|g: int| 0 <= g < e.1.len() implies i <= (#[trigger] e.1[g]).tile_type.0 < 34 && e.1[g].wf() by {
                if g < pre.len() {
                    assert(e.1[g] == pre[g]);
                    if t == 1 && g == 0 {
                        assert(pre[g] == triplet_at(i));
                    } else {
                        assert(pre[g] == sequence_at(i));
                        assert(s > 0);
                    }
                } else {
                    assert(e.1[g] == r.1[g - pre.len()]);
                }
            }
        }
    }
}

/// `hands` are the standard decompositions of `arrangements(h, 0, m, 1, 0, 0)`.
pub open spec fn lists_decompositions(hands: Seq<WinningHand>, h: Seq<u8>, m: int) -> bool {
    let arr = arrangements(h, 0, m, 1, 0, 0);
    &&& hands.len() == arr.len()
    &&& forall|k: int|
        0 <= k < hands.len() ==> (#[trigger] hands[k]).is_standard() && hands[k].spec_pair()
            == arr[k].0.unwrap() && hands[k].spec_groups() == arr[k].1
}

/// Every arrangement that places `p == 1` pair has one.
proof fn lemma_pair_placed(h: Seq<u8>, i: int, j: int, p: int, a: int, b: int)
    requires
        0 <= p <= 1,
    ensures
        forall|k: int|
            0 <= k < arrangements(h, i, j, p, a, b).len() ==> (#[trigger] arrangements(
                h,
                i,
                j,
                p,
                a,
                b,
            )[k]).0 is Some == (p == 1),
    decreases 34 - i, 2int, 0int,
{
    if i < 34 {
        lemma_pair_placed_below(h, i, j, p, a, b, 0, 5);
        lemma_pair_placed_below(h, i, j, p, a, b, 1, 5);
    }
}

proof fn lemma_pair_placed_below(h: Seq<u8>, i: int, j: int, p: int, a: int, b: int, t: int, n: int)
    requires
        0 <= p <= 1,
        i < 34,
    ensures
        forall|k: int|
            0 <= k < arrangements_below(h, i, j, p, a, b, t, n).len() ==> (#[trigger] arrangements_below(
                h,
                i,
                j,
                p,
                a,
                b,
                t,
                n,
            )[k]).0 is Some == (p == 1),
    decreases 34 - i, 1int, n,
{
    if n > 0 {
        lemma_pair_placed_below(h, i, j, p, a, b, t, n - 1);
        lemma_pair_placed_choice(h, i, j, p, a, b, t, n - 1, 0);
        lemma_pair_placed_choice(h, i, j, p, a, b, t, n - 1, 1);
        let x = arrangements_below(h, i, j, p, a, b, t, n - 1);
        let y = choice_arrangements(h, i, j, p, a, b, t, n - 1, 0);
        let z = choice_arrangements(h, i, j, p, a, b, t, n - 1, 1);
        assert forall|k: int| 0 <= k < (x + y + z).len() implies (#[trigger] (x + y + z)[k]).0 is Some
            == (p == 1) by {
            if k < x.len() {
                assert((x + y + z)[k] == x[k]);
            } else if k < x.len() + y.len() {
                assert((x + y + z)[k] == y[k - x.len()]);
            } else {
                assert((x + y + z)[k] == z[k - x.len() - y.len()]);
            }
        }
    }
}

proof fn lemma_pair_placed_choice(
    h: Seq<u8>,
    i: int,
    j: int,
    p: int,
    a: int,
    b: int,
    t: int,
    s: int,
    q: int,
)
    requires
        0 <= p <= 1,
        0 <= q <= 1,
        i < 34,
    ensures
        forall|k: int|
            0 <= k < choice_arrangements(h, i, j, p, a, b, t, s, q).len() ==> (#[trigger] choice_arrangements(
                h,
                i,
                j,
                p,
                a,
                b,
                t,
                s,
                q,
            )[k]).0 is Some == (p == 1),
    decreases 34 - i, 0int, 0int,
{
    if 0 <= i < 34 && exact_choice(h, i, j, p, a, b, t, s, q) {
        lemma_pair_placed(h, i + 1, j - t - s, p - q, s, a);
        let rest = arrangements(h, i + 1, j - t - s, p - q, s, a);
        assert forall|k: int| 0 <= k < extend_with(i, t, s, q, rest).len() implies (#[trigger] extend_with(
            i,
            t,
            s,
            q,
            rest,
        )[k]).0 is Some == (p == 1) by {
            assert(rest[k].0 is Some == (p - q == 1));
        }
    }
}

pub open spec fn arr_views(v: Seq<Arrangement>) -> Seq<(Option<TileType>, Seq<ClosedGroup>)> {
    v.map_values(|x: Arrangement| x@)
}

/// Appends to `out` the arrangements that place `t` triplets, `s`
/// sequences and `q` pairs at kind `i`.
fn append_choice(
    out: &mut Vec<Arrangement>,
    h: &[u8; 34],
    i: usize,
    j: usize,
    p: usize,
    a: usize,
    b: usize,
    t: usize,
    s: usize,
    q: usize,
)
    requires
        i < 34,
        j <= 4,
        p <= 1,
        a <= 4,
        b <= 4,
        t <= 1,
        s <= 4,
        q <= 1,
    ensures
        arr_views(final(out)@) == arr_views(old(out)@) + choice_arrangements(
            h@,
            i as int,
            j as int,
            p as int,
            a as int,
            b as int,
            t as int,
            s as int,
            q as int,
        ),
    decreases 34 - i, 0int,
{
    let used = 3 * t + 2 * q + s + a + b;
    let can_start = i < 27 && i % 9 <= 6;
    if !(t + s <= j && q <= p && (s == 0 || can_start) && used <= 4 && used == h[i] as usize) {
        assert(arr_views(out@) =~= arr_views(out@) + choice_arrangements(
            h@,
            i as int,
            j as int,
            p as int,
            a as int,
            b as int,
            t as int,
            s as int,
            q as int,
        ));
        return;
    }
    let rest = arrangements_from(h, i + 1, j - t - s, p - q, s, a);
    let ghost start = arr_views(out@);
    let ghost ext = extend_with(i as int, t as int, s as int, q as int, arr_views(rest@));
    let mut k: usize = 0;
    while k < rest.len()
        invariant
            k <= rest@.len(),
            i < 34,
            t <= 1,
            s <= 4,
            q <= 1,
            ext == extend_with(i as int, t as int, s as int, q as int, arr_views(rest@)),
            arr_views(out@) == start + ext.take(k as int),
        decreases rest@.len() - k,
    {
        let r = &rest[k];
        let mut groups: Vec<ClosedGroup> = Vec::new();
        if t == 1 {
            groups.push(ClosedGroup { kind: MentsuKind::Koutsu, tile_type: TileType(i as u8) });
        }
        let mut n: usize = 0;
        while n < s
            invariant
                n <= s,
                i < 34,
                t <= 1,
                groups@ == (if t == 1 {
                    seq![triplet_at(i as int)]
                } else {
                    seq![]
                }) + Seq::new(n as nat, |_k: int| sequence_at(i as int)),
            decreases s - n,
        {
            groups.push(ClosedGroup { kind: MentsuKind::Shuntsu, tile_type: TileType(i as u8) });
            proof {
                assert(Seq::new((n + 1) as nat, |_k: int| sequence_at(i as int)) =~= Seq::new(
                    n as nat,
                    |_k: int| sequence_at(i as int),
                ).push(sequence_at(i as int)));
            }
            n += 1;
        }
        let ghost prefix = groups@;
        assert(prefix == groups_at(i as int, t as int, s as int));
        let mut g: usize = 0;
        while g < r.groups.len()
            invariant
                g <= r.groups@.len(),
                groups@ == prefix + r.groups@.take(g as int),
            decreases r.groups@.len() - g,
        {
            groups.push(r.groups[g]);
            proof {
                assert(r.groups@.take(g + 1) =~= r.groups@.take(g as int).push(r.groups@[g as int]));
            }
            g += 1;
        }
        assert(r.groups@.take(r.groups@.len() as int) =~= r.groups@);
        let pair = if q == 1 {
            Some(TileType(i as u8))
        } else {
            r.pair
        };
        let ghost before_push = out@;
        let item = Arrangement { pair, groups };
        assert(arr_views(rest@)[k as int] == r@);
        assert(item@ == ext[k as int]);
        out.push(item);
        proof {
            assert(arr_views(out@) =~= arr_views(before_push) + seq![item@]);
            assert(ext.take(k + 1) =~= ext.take(k as int).push(ext[k as int]));
            assert(arr_views(out@) =~= start + ext.take(k + 1));
        }
        k += 1;
    }
    assert(ext.take(rest@.len() as int) =~= ext);
}

/// All exact arrangements of kinds `i..34` (see `arrangements`).
fn arrangements_from(h: &[u8; 34], i: usize, j: usize, p: usize, a: usize, b: usize) -> (out: Vec<
    Arrangement,
>)
    requires
        i <= 34,
        j <= 4,
        p <= 1,
        a <= 4,
        b <= 4,
    ensures
        arr_views(out@) == arrangements(h@, i as int, j as int, p as int, a as int, b as int),
    decreases 34 - i, 1int,
{
    let mut out: Vec<Arrangement> = Vec::new();
    if i >= 34 {
        if j == 0 && p == 0 && a == 0 && b == 0 {
            out.push(Arrangement { pair: None, groups: Vec::new() });
        }
        assert(arr_views(out@) =~= arrangements(h@, i as int, j as int, p as int, a as int, b as int));
        return out;
    }
    let mut t: usize = 0;
    while t < 2
        invariant
            t <= 2,
            i < 34,
            j <= 4,
            p <= 1,
            a <= 4,
            b <= 4,
            arr_views(out@) == (if t == 0 {
                seq![]
            } else if t == 1 {
                arrangements_below(h@, i as int, j as int, p as int, a as int, b as int, 0, 5)
            } else {
                arrangements_below(h@, i as int, j as int, p as int, a as int, b as int, 0, 5)
                    + arrangements_below(h@, i as int, j as int, p as int, a as int, b as int, 1, 5)
            }),
        decreases 2 - t,
    {
        let ghost before = arr_views(out@);
        let mut s: usize = 0;
        while s < 5
            invariant
                s <= 5,
                t < 2,
                i < 34,
                j <= 4,
                p <= 1,
                a <= 4,
                b <= 4,
                arr_views(out@) == before + arrangements_below(
                    h@,
                    i as int,
                    j as int,
                    p as int,
                    a as int,
                    b as int,
                    t as int,
                    s as int,
                ),
            decreases 5 - s,
        {
            append_choice(&mut out, h, i, j, p, a, b, t, s, 0);
            append_choice(&mut out, h, i, j, p, a, b, t, s, 1);
            proof {
                assert(before + arrangements_below(
                    h@,
                    i as int,
                    j as int,
                    p as int,
                    a as int,
                    b as int,
                    t as int,
                    s + 1,
                ) =~= before + arrangements_below(
                    h@,
                    i as int,
                    j as int,
                    p as int,
                    a as int,
                    b as int,
                    t as int,
                    s as int,
                ) + choice_arrangements(
                    h@,
                    i as int,
                    j as int,
                    p as int,
                    a as int,
                    b as int,
                    t as int,
                    s as int,
                    0,
                ) + choice_arrangements(
                    h@,
                    i as int,
                    j as int,
                    p as int,
                    a as int,
                    b as int,
                    t as int,
                    s as int,
                    1,
                ));
            }
            s += 1;
        }
        proof {
            if t == 0 {
                assert(before =~= seq![]);
                assert(seq![] + arrangements_below(h@, i as int, j as int, p as int, a as int, b as int, 0, 5)
                    =~= arrangements_below(h@, i as int, j as int, p as int, a as int, b as int, 0, 5));
            }
        }
        t += 1;
    }
    out
}

/// All standard decompositions of the counts into `m` groups and a pair.
pub fn decompose_standard(counts: &TileCounts, m: usize) -> (hands: Vec<WinningHand>)
    requires
        m <= 4,
    ensures
        lists_decompositions(hands@, counts@, m as int),
        forall|k: int| 0 <= k < hands@.len() ==> (#[trigger] hands@[k]).wf(),
{
    let found = arrangements_from(counts.inner(), 0, m, 1, 0, 0);
    let ghost arr = arrangements(counts@, 0, m as int, 1, 0, 0);
    proof {
        lemma_pair_placed(counts@, 0, m as int, 1, 0, 0);
        lemma_arrangements_wf(counts@, 0, m as int, 1, 0, 0);
    }
    let mut hands: Vec<WinningHand> = Vec::new();
    let mut k: usize = 0;
    while k < found.len()
        invariant
            k <= found@.len(),
            arr_views(found@) == arr,
            arr == arrangements(counts@, 0, m as int, 1, 0, 0),
            forall|x: int| 0 <= x < arr.len() ==> (#[trigger] arr[x]).0 is Some,
            forall|x: int| 0 <= x < arr.len() ==> arrangement_wf(#[trigger] arr[x], 0, m as int),
            m <= 4,
            hands@.len() == k,
            forall|x: int| 0 <= x < k ==> (#[trigger] hands@[x]).wf(),
            forall|x: int|
                0 <= x < k ==> (#[trigger] hands@[x]).is_standard() && hands@[x].spec_pair()
                    == arr[x].0.unwrap() && hands@[x].spec_groups() == arr[x].1,
        decreases found@.len() - k,
    {
        let r = &found[k];
        assert(arr[k as int] == r@);
        let pair = match r.pair {
            Some(t) => t,
            None => TileType(0),
        };
        let mut groups: Vec<ClosedGroup> = Vec::new();
        let mut g: usize = 0;
        while g < r.groups.len()
            invariant
                g <= r.groups@.len(),
                groups@ == r.groups@.take(g as int),
            decreases r.groups@.len() - g,
        {
            groups.push(r.groups[g]);
            proof {
                assert(r.groups@.take(g + 1) =~= r.groups@.take(g as int).push(r.groups@[g as int]));
            }
            g += 1;
        }
        assert(r.groups@.take(r.groups@.len() as int) =~= r.groups@);
        hands.push(WinningHand::Standard { pair, groups });
        k += 1;
    }
    hands
}

/// The kinds `< n` held exactly twice, in order.
pub open spec fn paired_kinds(h: Seq<u8>, n: int) -> Seq<TileType>
    decreases n,
{
    if n <= 0 {
        seq![]
    } else {
        paired_kinds(h, n - 1) + if h[n - 1] == 2 {
            seq![TileType((n - 1) as u8)]
        } else {
            seq![]
        }
    }
}

/// Seven distinct pairs and nothing else.
pub open spec fn is_seven_pairs_shape(h: Seq<u8>) -> bool {
    &&& forall|k: int| 0 <= k < 34 ==> h[k] == 0 || h[k] == 2
    &&& paired_kinds(h, 34).len() == 7
}

proof fn lemma_paired_kinds_len(h: Seq<u8>, n: int)
    requires
        0 <= n <= 34,
    ensures
        paired_kinds(h, n).len() <= n,
        forall|x: int| 0 <= x < paired_kinds(h, n).len() ==> (#[trigger] paired_kinds(h, n)[x]).0 < n,
    decreases n,
{
    if n > 0 {
        lemma_paired_kinds_len(h, n - 1);
    }
}

/// The seven pairs decomposition, if the counts form one.
pub fn decompose_seven_pairs(counts: &TileCounts) -> (r: Option<WinningHand>)
    ensures
        r is Some <==> is_seven_pairs_shape(counts@),
        r matches Some(hand) ==> hand == (WinningHand::SevenPairs {
            pairs: hand->pairs,
        }) && hand->pairs@ == paired_kinds(counts@, 34) && hand.wf(),
{
    let mut pairs: Vec<TileType> = Vec::new();
    let mut only_pairs = true;
    let mut k: usize = 0;
    while k < 34
        invariant
            k <= 34,
            pairs@ == paired_kinds(counts@, k as int),
            only_pairs == (forall|x: int| 0 <= x < k ==> counts@[x] == 0 || counts@[x] == 2),
        decreases 34 - k,
    {
        let c = counts.get(TileType(k as u8));
        if c == 2 {
            pairs.push(TileType(k as u8));
        } else if c != 0 {
            only_pairs = false;
        }
        k += 1;
    }
    if !only_pairs || pairs.len() != 7 {
        return None;
    }
    proof {
        lemma_paired_kinds_len(counts@, 34);
    }
    let arr: [TileType; 7] = [pairs[0], pairs[1], pairs[2], pairs[3], pairs[4], pairs[5], pairs[6]];
    assert(arr@ =~= pairs@);
    Some(WinningHand::SevenPairs { pairs: arr })
}

pub open spec fn is_orphan(k: int) -> bool {
    k == 0 || k == 8 || k == 9 || k == 17 || k == 18 || k == 26 || 27 <= k < 34
}

/// A kind that a thirteen orphans hand cannot hold this often.
pub open spec fn misplaced_kind(h: Seq<u8>, k: int) -> bool {
    if is_orphan(k) {
        !(1 <= h[k] <= 2)
    } else {
        h[k] != 0
    }
}

/// All thirteen terminal and honor kinds, one of them twice, nothing else.
pub open spec fn is_kokushi_shape(h: Seq<u8>) -> bool {
    &&& forall|k: int| 0 <= k < 34 ==> !#[trigger] misplaced_kind(h, k)
    &&& exists|k: int| 0 <= k < 34 && h[k] == 2
    &&& forall|k1: int, k2: int| 0 <= k1 < 34 && 0 <= k2 < 34 && h[k1] == 2 && h[k2] == 2 ==> k1 == k2
}

/// The thirteen orphans decomposition, if the counts form one; its pair is
/// the doubled kind.
pub fn decompose_kokushi(counts: &TileCounts) -> (r: Option<WinningHand>)
    ensures
        r is Some <==> is_kokushi_shape(counts@),
        r matches Some(hand) ==> (hand matches WinningHand::Kokushi { pair } && pair.wf()
            && counts@[pair.0 as int] == 2),
{
    let mut ok = true;
    let mut pair: Option<TileType> = None;
    let mut doubles: usize = 0;
    let mut k: usize = 0;
    while k < 34
        invariant
            k <= 34,
            ok == (forall|x: int| 0 <= x < k ==> !#[trigger] misplaced_kind(counts@, x)),
            doubles <= 2,
            doubles == 0 <==> (forall|x: int| 0 <= x < k ==> counts@[x] != 2),
            doubles == 1 <==> (pair matches Some(t) && t.0 < k && counts@[t.0 as int] == 2 && forall|x: int|
                0 <= x < k && counts@[x] == 2 ==> x == t.0),
            doubles == 2 ==> exists|x1: int, x2: int|
                0 <= x1 < k && 0 <= x2 < k && x1 != x2 && counts@[x1] == 2 && counts@[x2] == 2,
        decreases 34 - k,
    {
        let c = counts.get(TileType(k as u8));
        let orphan = k == 0 || k == 8 || k == 9 || k == 17 || k == 18 || k == 26 || k >= 27;
        let misplaced = if orphan {
            c < 1 || c > 2
        } else {
            c != 0
        };
        assert(misplaced == misplaced_kind(counts@, k as int));
        if misplaced {
            ok = false;
        }
        if c == 2 {
            if doubles == 1 {
                proof {
                    let t = pair->0;
                    assert(counts@[t.0 as int] == 2 && counts@[k as int] == 2 && t.0 != k);
                }
            }
            if doubles < 2 {
                doubles += 1;
            }
            pair = Some(TileType(k as u8));
        }
        k += 1;
    }
    if ok && doubles == 1 {
        match pair {
            Some(t) => Some(WinningHand::Kokushi { pair: t }),
            None => None,
        }
    } else {
        proof {
            if ok && doubles == 0 {
                assert(!(exists|x: int| 0 <= x < 34 && counts@[x] == 2));
            }
        }
        None
    }
}

/// A complete closed hand: four groups and a pair, seven pairs, or
/// thirteen orphans.
pub open spec fn is_winning_counts(h: Seq<u8>) -> bool {
    arrangements(h, 0, 4, 1, 0, 0).len() > 0 || is_seven_pairs_shape(h) || is_kokushi_shape(h)
}

/// The groups left to form in the concealed part after `open` calls.
pub open spec fn groups_needed(open: int) -> int {
    if open < 4 {
        4 - open
    } else {
        0
    }
}

/// A complete hand with `open` calls.
pub open spec fn is_win_shape_spec(types: Seq<TileType>, open: int) -> bool {
    let h = crate::counts::type_counts(types);
    if open == 0 {
        is_winning_counts(h)
    } else if open > 4 {
        false
    } else {
        arrangements(h, 0, 4 - open, 1, 0, 0).len() > 0
    }
}

pub open spec fn kinds_wf(types: Seq<TileType>) -> bool {
    forall|i: int| 0 <= i < types.len() ==> (#[trigger] types[i]).wf()
}

/// Whether the kinds form a complete closed hand.
pub fn is_win_shape(tiles: &[TileType]) -> (b: bool)
    requires
        tiles@.len() <= 255,
        kinds_wf(tiles@),
    ensures
        b == is_winning_counts(crate::counts::type_counts(tiles@)),
{
    let counts = crate::counts::counts_of_types(tiles);
    is_winning(&counts)
}

/// Whether the counts form a complete closed hand.
pub fn is_winning(counts: &TileCounts) -> (b: bool)
    ensures
        b == is_winning_counts(counts@),
{
    let standard = decompose_standard(counts, 4);
    if standard.len() > 0 {
        return true;
    }
    decompose_seven_pairs(counts).is_some() || decompose_kokushi(counts).is_some()
}

/// Whether the concealed kinds (with the winning tile) complete the hand
/// next to `open_meld_count` calls.
pub fn is_win_shape_with_open_melds(tiles: &[TileType], open_meld_count: usize) -> (b: bool)
    requires
        tiles@.len() <= 255,
        kinds_wf(tiles@),
    ensures
        b == is_win_shape_spec(tiles@, open_meld_count as int),
{
    if open_meld_count == 0 {
        return is_win_shape(tiles);
    }
    if open_meld_count > 4 {
        return false;
    }
    let counts = crate::counts::counts_of_types(tiles);
    decompose_standard(&counts, 4 - open_meld_count).len() > 0
}

/// A complete hand with `open` calls, over kind counts.
pub open spec fn win_shape_counts(h: Seq<u8>, open: int) -> bool {
    if open == 0 {
        is_winning_counts(h)
    } else if open > 4 {
        false
    } else {
        arrangements(h, 0, 4 - open, 1, 0, 0).len() > 0
    }
}

/// Whether the counts complete the hand next to `open_meld_count` calls.
pub fn is_win_counts_with_open_melds(counts: &TileCounts, open_meld_count: usize) -> (b: bool)
    ensures
        b == win_shape_counts(counts@, open_meld_count as int),
{
    if open_meld_count == 0 {
        return is_winning(counts);
    }
    if open_meld_count > 4 {
        return false;
    }
    decompose_standard(counts, 4 - open_meld_count).len() > 0
}

/// The kind held twice in a thirteen orphans hand.
pub open spec fn doubled_kind(h: Seq<u8>) -> TileType {
    TileType((choose|k: int| 0 <= k < 34 && h[k] == 2) as u8)
}

/// Every decomposition of `h` next to `open` calls: the standard ones in
/// kind order, then (closed hands only) seven pairs and thirteen orphans.
pub open spec fn all_decompositions(h: Seq<u8>, open: int) -> Seq<HandShape> {
    let m = groups_needed(open);
    arrangements(h, 0, m, 1, 0, 0).map_values(
        |r: (Option<TileType>, Seq<ClosedGroup>)| HandShape::Standard { pair: r.0.unwrap(), groups: r.1 },
    ) + (if open == 0 && is_seven_pairs_shape(h) {
        seq![HandShape::SevenPairs { pairs: paired_kinds(h, 34) }]
    } else {
        seq![]
    }) + (if open == 0 && is_kokushi_shape(h) {
        seq![HandShape::Kokushi { pair: doubled_kind(h) }]
    } else {
        seq![]
    })
}

pub open spec fn shapes(hands: Seq<WinningHand>) -> Seq<HandShape> {
    hands.map_values(|x: WinningHand| x@)
}

/// Every decomposition of the closed part with the winning tile.
pub fn decompose_hand(hand_tiles: &[TileType]) -> (hands: Vec<WinningHand>)
    requires
        hand_tiles@.len() <= 255,
        kinds_wf(hand_tiles@),
    ensures
        shapes(hands@) == all_decompositions(crate::counts::type_counts(hand_tiles@), 0),
        forall|k: int| 0 <= k < hands@.len() ==> (#[trigger] hands@[k]).wf(),
{
    decompose_hand_with_open_melds(hand_tiles, 0)
}

/// Every decomposition of the closed part with the winning tile, next to
/// `open_meld_count` calls that count as finished groups.
pub fn decompose_hand_with_open_melds(hand_tiles: &[TileType], open_meld_count: usize) -> (hands: Vec<
    WinningHand,
>)
    requires
        hand_tiles@.len() <= 255,
        kinds_wf(hand_tiles@),
    ensures
        shapes(hands@) == all_decompositions(crate::counts::type_counts(hand_tiles@), open_meld_count as int),
        forall|k: int| 0 <= k < hands@.len() ==> (#[trigger] hands@[k]).wf(),
{
    let counts = crate::counts::counts_of_types(hand_tiles);
    let required = if open_meld_count < 4 {
        4 - open_meld_count
    } else {
        0
    };
    let mut results = decompose_standard(&counts, required);
    let ghost h = counts@;
    let ghost arr = arrangements(h, 0, required as int, 1, 0, 0);
    proof {
        lemma_pair_placed(h, 0, required as int, 1, 0, 0);
        assert(shapes(results@) =~= arr.map_values(
            |r: (Option<TileType>, Seq<ClosedGroup>)| HandShape::Standard { pair: r.0.unwrap(), groups: r.1 },
        ));
    }
    let ghost standard = shapes(results@);
    if open_meld_count == 0 {
        if let Some(sp) = decompose_seven_pairs(&counts) {
            results.push(sp);
        }
        let ghost with_pairs = shapes(results@);
        assert(with_pairs =~= standard + (if is_seven_pairs_shape(h) {
            seq![HandShape::SevenPairs { pairs: paired_kinds(h, 34) }]
        } else {
            seq![]
        }));
        if let Some(k) = decompose_kokushi(&counts) {
            proof {
                if let WinningHand::Kokushi { pair } = k {
                    assert(h[pair.0 as int] == 2);
                    let c = choose|x: int| 0 <= x < 34 && h[x] == 2;
                    assert(c == pair.0);
                }
            }
            results.push(k);
        }
        assert(shapes(results@) =~= with_pairs + (if is_kokushi_shape(h) {
            seq![HandShape::Kokushi { pair: doubled_kind(h) }]
        } else {
            seq![]
        }));
    } else {
        assert(shapes(results@) =~= standard + seq![] + seq![]);
    }
    results
}

proof fn lemma_fewest_missing_bounds(h: Seq<u8>, i: int, j: int, p: int, a: int, b: int)
    ensures
        0 <= fewest_missing(h, i, j, p, a, b) <= unreachable_cost(),
    decreases 34 - i, 2int, 0int,
{
    if i < 34 {
        lemma_best_below_bounds(h, i, j, p, a, b, 0, 5);
        lemma_best_below_bounds(h, i, j, p, a, b, 1, 5);
    }
}

proof fn lemma_best_below_bounds(h: Seq<u8>, i: int, j: int, p: int, a: int, b: int, t: int, n: int)
    requires
        i < 34,
    ensures
        0 <= best_with_sequences_below(h, i, j, p, a, b, t, n) <= unreachable_cost(),
    decreases 34 - i, 1int, n,
{
    if n > 0 {
        lemma_best_below_bounds(h, i, j, p, a, b, t, n - 1);
        lemma_placement_bounds(h, i, j, p, a, b, t, n - 1, 0);
        lemma_placement_bounds(h, i, j, p, a, b, t, n - 1, 1);
    }
}

proof fn lemma_placement_bounds(h: Seq<u8>, i: int, j: int, p: int, a: int, b: int, t: int, s: int, q: int)
    requires
        i < 34,
    ensures
        0 <= placement_cost(h, i, j, p, a, b, t, s, q) <= unreachable_cost(),
    decreases 34 - i, 0int, 0int,
{
    if 0 <= i && i < 34 {
        lemma_fewest_missing_bounds(h, i + 1, j - t - s, p - q, s, a);
    }
}

proof fn lemma_exact_arrangement_costs_nothing(h: Seq<u8>, i: int, j: int, p: int, a: int, b: int)
    requires
        0 <= i,
        arrangements(h, i, j, p, a, b).len() > 0,
    ensures
        fewest_missing(h, i, j, p, a, b) == 0,
    decreases 34 - i, 2int, 0int,
{
    lemma_fewest_missing_bounds(h, i, j, p, a, b);
    if i < 34 {
        let x = arrangements_below(h, i, j, p, a, b, 0, 5);
        let y = arrangements_below(h, i, j, p, a, b, 1, 5);
        lemma_best_below_bounds(h, i, j, p, a, b, 0, 5);
        lemma_best_below_bounds(h, i, j, p, a, b, 1, 5);
        if x.len() > 0 {
            lemma_exact_below_costs_nothing(h, i, j, p, a, b, 0, 5);
        } else {
            lemma_exact_below_costs_nothing(h, i, j, p, a, b, 1, 5);
        }
    }
}

proof fn lemma_exact_below_costs_nothing(h: Seq<u8>, i: int, j: int, p: int, a: int, b: int, t: int, n: int)
    requires
        0 <= i < 34,
        arrangements_below(h, i, j, p, a, b, t, n).len() > 0,
    ensures
        best_with_sequences_below(h, i, j, p, a, b, t, n) == 0,
    decreases 34 - i, 1int, n,
{
    lemma_best_below_bounds(h, i, j, p, a, b, t, n);
    if n > 0 {
        lemma_best_below_bounds(h, i, j, p, a, b, t, n - 1);
        lemma_placement_bounds(h, i, j, p, a, b, t, n - 1, 0);
        lemma_placement_bounds(h, i, j, p, a, b, t, n - 1, 1);
        if arrangements_below(h, i, j, p, a, b, t, n - 1).len() > 0 {
            lemma_exact_below_costs_nothing(h, i, j, p, a, b, t, n - 1);
        } else if choice_arrangements(h, i, j, p, a, b, t, n - 1, 0).len() > 0 {
            lemma_exact_choice_costs_nothing(h, i, j, p, a, b, t, n - 1, 0);
        } else {
            lemma_exact_choice_costs_nothing(h, i, j, p, a, b, t, n - 1, 1);
        }
    }
}

proof fn lemma_exact_choice_costs_nothing(h: Seq<u8>, i: int, j: int, p: int, a: int, b: int, t: int, s: int, q: int)
    requires
        0 <= i < 34,
        choice_arrangements(h, i, j, p, a, b, t, s, q).len() > 0,
    ensures
        placement_cost(h, i, j, p, a, b, t, s, q) == 0,
    decreases 34 - i, 0int, 0int,
{
    assert(exact_choice(h, i, j, p, a, b, t, s, q));
    lemma_exact_arrangement_costs_nothing(h, i + 1, j - t - s, p - q, s, a);
}

/// No hand is below -1 shanten, and a hand that splits exactly into `m`
/// groups and a pair is complete: its shanten is -1.
pub proof fn lemma_decomposable_hand_is_complete(h: Seq<u8>, m: int)
    ensures
        normal_shanten_spec(h, m) >= -1,
        arrangements(h, 0, m, 1, 0, 0).len() > 0 ==> normal_shanten_spec(h, m) == -1,
{
    lemma_fewest_missing_bounds(h, 0, m, 1, 0, 0);
    if arrangements(h, 0, m, 1, 0, 0).len() > 0 {
        lemma_exact_arrangement_costs_nothing(h, 0, m, 1, 0, 0);
    }
}

/// The tiles of kinds `i..34`.
pub open spec fn tiles_from(h: Seq<u8>, i: int) -> int
    decreases 34 - i,
{
    if i >= 34 {
        0
    } else {
        h[i] + tiles_from(h, i + 1)
    }
}

/// The tiles that `j` groups and `p` pairs take, with `a` and `b`
/// sequences begun at the two kinds before (each still taking two tiles
/// and one tile).
pub open spec fn tiles_wanted(j: int, p: int, a: int, b: int) -> int {
    3 * j + 2 * p + 2 * a + b
}

proof fn lemma_tiles_from_total(h: Seq<u8>, i: int)
    requires
        0 <= i <= 34,
    ensures
        tiles_from(h, i) == sum_counts(h, 34) - sum_counts(h, i),
    decreases 34 - i,
{
    if i < 34 {
        lemma_tiles_from_total(h, i + 1);
    }
}

proof fn lemma_complete_arrangement(h: Seq<u8>, i: int, j: int, p: int, a: int, b: int)
    requires
        0 <= i <= 34,
        j >= 0,
        p >= 0,
        a >= 0,
        b >= 0,
        fewest_missing(h, i, j, p, a, b) == 0,
        tiles_from(h, i) <= tiles_wanted(j, p, a, b),
    ensures
        tiles_from(h, i) == tiles_wanted(j, p, a, b),
        arrangements(h, i, j, p, a, b).len() > 0,
    decreases 34 - i, 2int, 0int,
{
    if i < 34 {
        lemma_best_below_bounds(h, i, j, p, a, b, 0, 5);
        lemma_best_below_bounds(h, i, j, p, a, b, 1, 5);
        if best_with_sequences_below(h, i, j, p, a, b, 0, 5) == 0 {
            lemma_complete_below(h, i, j, p, a, b, 0, 5);
        } else {
            lemma_complete_below(h, i, j, p, a, b, 1, 5);
        }
    }
}

proof fn lemma_complete_below(h: Seq<u8>, i: int, j: int, p: int, a: int, b: int, t: int, n: int)
    requires
        0 <= i < 34,
        j >= 0,
        p >= 0,
        a >= 0,
        b >= 0,
        0 <= t <= 1,
        best_with_sequences_below(h, i, j, p, a, b, t, n) == 0,
        tiles_from(h, i) <= tiles_wanted(j, p, a, b),
    ensures
        tiles_from(h, i) == tiles_wanted(j, p, a, b),
        arrangements_below(h, i, j, p, a, b, t, n).len() > 0,
    decreases 34 - i, 1int, n,
{
    if n > 0 {
        lemma_best_below_bounds(h, i, j, p, a, b, t, n - 1);
        lemma_placement_bounds(h, i, j, p, a, b, t, n - 1, 0);
        lemma_placement_bounds(h, i, j, p, a, b, t, n - 1, 1);
        if best_with_sequences_below(h, i, j, p, a, b, t, n - 1) == 0 {
            lemma_complete_below(h, i, j, p, a, b, t, n - 1);
        } else if placement_cost(h, i, j, p, a, b, t, n - 1, 0) == 0 {
            lemma_complete_choice(h, i, j, p, a, b, t, n - 1, 0);
        } else {
            lemma_complete_choice(h, i, j, p, a, b, t, n - 1, 1);
        }
    }
}

proof fn lemma_complete_choice(h: Seq<u8>, i: int, j: int, p: int, a: int, b: int, t: int, s: int, q: int)
    requires
        0 <= i < 34,
        j >= 0,
        p >= 0,
        a >= 0,
        b >= 0,
        0 <= t <= 1,
        s >= 0,
        0 <= q <= 1,
        placement_cost(h, i, j, p, a, b, t, s, q) == 0,
        tiles_from(h, i) <= tiles_wanted(j, p, a, b),
    ensures
        tiles_from(h, i) == tiles_wanted(j, p, a, b),
        choice_arrangements(h, i, j, p, a, b, t, s, q).len() > 0,
    decreases 34 - i, 0int, 0int,
{
    let used = kind_use(t, s, q, a, b);
    lemma_fewest_missing_bounds(h, i + 1, j - t - s, p - q, s, a);
    assert(used <= h[i]);
    lemma_complete_arrangement(h, i + 1, j - t - s, p - q, s, a);
    assert(exact_choice(h, i, j, p, a, b, t, s, q));
}

/// A hand of exactly `3m + 2` tiles is complete in the standard shape
/// (shanten -1) exactly when it splits into `m` groups and a pair.
pub proof fn lemma_complete_iff_decomposable(h: Seq<u8>, m: int)
    requires
        m >= 0,
        sum_counts(h, 34) == 3 * m + 2,
    ensures
        normal_shanten_spec(h, m) == -1 <==> arrangements(h, 0, m, 1, 0, 0).len() > 0,
{
    lemma_decomposable_hand_is_complete(h, m);
    lemma_tiles_from_total(h, 0);
    if normal_shanten_spec(h, m) == -1 {
        lemma_complete_arrangement(h, 0, m, 1, 0, 0);
    }
}

} // verus!
