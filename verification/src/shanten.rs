use vstd::prelude::*;
use crate::counts::{count_kind, lemma_count_kind_bounds, TileCounts};
use crate::tile::Tile;

verus! {

/// The value that stands for "no such arrangement".
pub open spec fn unreachable_cost() -> int {
    99
}

/// A sequence may start at kind `i` when `i`, `i+1`, `i+2` are three
/// consecutive ranks of one number suit.
pub open spec fn can_start_sequence(i: int) -> bool {
    0 <= i < 27 && i % 9 <= 6
}

/// How many tiles of kind `i` the arrangement uses: `t` triplets and `q`
/// pairs of kind `i`, `s` sequences starting at `i`, and `a` and `b`
/// sequences that started at `i - 1` and `i - 2`.
pub open spec fn kind_use(t: int, s: int, q: int, a: int, b: int) -> int {
    3 * t + 2 * q + s + a + b
}

pub open spec fn spec_min(x: int, y: int) -> int {
    if x <= y {
        x
    } else {
        y
    }
}

/// The cost of placing `t` triplets, `s` sequences and `q` pairs at kind
/// `i`, then arranging the rest as well as possible: the tiles of kind `i`
/// still to be drawn plus `fewest_missing` for the kinds after `i`.
pub open spec fn placement_cost(
    h: Seq<u8>,
    i: int,
    j: int,
    p: int,
    a: int,
    b: int,
    t: int,
    s: int,
    q: int,
) -> int
    decreases 34 - i, 0int, 0int,
{
    if i < 0 || i >= 34 {
        unreachable_cost()
    } else if !(t + s <= j && q <= p && (s > 0 ==> can_start_sequence(i)) && kind_use(
        t,
        s,
        q,
        a,
        b,
    ) <= 4) {
        unreachable_cost()
    } else {
        let used = kind_use(t, s, q, a, b);
        let need = if used > h[i] {
            used - h[i]
        } else {
            0
        };
        spec_min(need + fewest_missing(h, i + 1, j - t - s, p - q, s, a), unreachable_cost())
    }
}

/// The best placement at kind `i` with `t` triplets and fewer than `n`
/// sequences starting there, with or without a pair.
pub open spec fn best_with_sequences_below(
    h: Seq<u8>,
    i: int,
    j: int,
    p: int,
    a: int,
    b: int,
    t: int,
    n: int,
) -> int
    decreases 34 - i, 1int, n,
{
    if n <= 0 {
        unreachable_cost()
    } else {
        spec_min(
            best_with_sequences_below(h, i, j, p, a, b, t, n - 1),
            spec_min(
                placement_cost(h, i, j, p, a, b, t, n - 1, 0),
                placement_cost(h, i, j, p, a, b, t, n - 1, 1),
            ),
        )
    }
}

/// The fewest tiles that must still be drawn so that the kinds `i..34` of
/// the counts `h` hold `j` groups (triplets or sequences) and `p` pairs,
/// given `a` and `b` sequences begun at kinds `i - 1` and `i - 2` that still
/// take one tile of kind `i` (and `b` none of `i + 1`). No kind may be used
/// more than four times; tiles the arrangement does not use cost nothing.
/// `unreachable_cost()` when no arrangement exists.
pub open spec fn fewest_missing(h: Seq<u8>, i: int, j: int, p: int, a: int, b: int) -> int
    decreases 34 - i, 2int, 0int,
{
    if i >= 34 {
        if j == 0 && p == 0 && a == 0 && b == 0 {
            0
        } else {
            unreachable_cost()
        }
    } else {
        spec_min(
            best_with_sequences_below(h, i, j, p, a, b, 0, 5),
            best_with_sequences_below(h, i, j, p, a, b, 1, 5),
        )
    }
}

/// Shanten of the standard shape (`m` groups and a pair): the fewest tiles
/// still missing, minus one.
pub open spec fn normal_shanten_spec(h: Seq<u8>, m: int) -> int {
    fewest_missing(h, 0, m, 1, 0, 0) - 1
}

/// The number of the first `n` kinds held at least `k` times.
pub open spec fn kinds_with_at_least(h: Seq<u8>, n: int, k: int) -> int
    decreases n,
{
    if n <= 0 {
        0
    } else {
        kinds_with_at_least(h, n - 1, k) + if h[n - 1] >= k {
            1int
        } else {
            0int
        }
    }
}

/// Seven pairs shanten: 6 − pairs, plus one for each distinct kind short of seven.
pub open spec fn seven_pairs_shanten_spec(h: Seq<u8>) -> int {
    let pairs = kinds_with_at_least(h, 34, 2);
    let kinds = kinds_with_at_least(h, 34, 1);
    7 - pairs + (if kinds < 7 {
        7 - kinds
    } else {
        0
    }) - 1
}

/// The thirteen terminal and honor kinds.
pub open spec fn orphan_kind(n: int) -> int {
    if n < 6 {
        if n % 2 == 0 {
            (n / 2) * 9
        } else {
            (n / 2) * 9 + 8
        }
    } else {
        21 + n
    }
}

pub open spec fn orphans_with_at_least(h: Seq<u8>, n: int, k: int) -> int
    decreases n,
{
    if n <= 0 {
        0
    } else {
        orphans_with_at_least(h, n - 1, k) + if h[orphan_kind(n - 1)] >= k {
            1int
        } else {
            0int
        }
    }
}

/// Thirteen orphans shanten: 13 − distinct terminal/honor kinds, one less
/// when one of them is paired.
pub open spec fn thirteen_orphans_shanten_spec(h: Seq<u8>) -> int {
    14 - orphans_with_at_least(h, 13, 1) - (if orphans_with_at_least(h, 13, 2) > 0 {
        1int
    } else {
        0int
    }) - 1
}

pub open spec fn layer_index(j: int, p: int, a: int, b: int) -> int {
    j * 50 + p * 25 + a * 5 + b
}

/// `layer` tabulates `fewest_missing(h, i, ..)` for `j < 5`, `p < 2`, `a < 5`, `b < 5`.
pub open spec fn layer_holds(h: Seq<u8>, i: int, layer: Seq<u8>) -> bool {
    &&& layer.len() == 250
    &&& forall|j: int, p: int, a: int, b: int|
        0 <= j < 5 && 0 <= p < 2 && 0 <= a < 5 && 0 <= b < 5 ==> layer[layer_index(j, p, a, b)]
            == #[trigger] fewest_missing(h, i, j, p, a, b)
}

proof fn lemma_cost_bounds(h: Seq<u8>, i: int, j: int, p: int, a: int, b: int)
    ensures
        0 <= fewest_missing(h, i, j, p, a, b) <= unreachable_cost(),
    decreases 34 - i, 2int, 0int,
{
    if i < 34 {
        lemma_below_bounds(h, i, j, p, a, b, 0, 5);
        lemma_below_bounds(h, i, j, p, a, b, 1, 5);
    }
}

proof fn lemma_below_bounds(h: Seq<u8>, i: int, j: int, p: int, a: int, b: int, t: int, n: int)
    ensures
        0 <= best_with_sequences_below(h, i, j, p, a, b, t, n) <= unreachable_cost(),
    decreases 34 - i, 1int, n,
{
    if n > 0 {
        lemma_below_bounds(h, i, j, p, a, b, t, n - 1);
        lemma_placement_bounds(h, i, j, p, a, b, t, n - 1, 0);
        lemma_placement_bounds(h, i, j, p, a, b, t, n - 1, 1);
    }
}

proof fn lemma_placement_bounds(
    h: Seq<u8>,
    i: int,
    j: int,
    p: int,
    a: int,
    b: int,
    t: int,
    s: int,
    q: int,
)
    ensures
        0 <= placement_cost(h, i, j, p, a, b, t, s, q) <= unreachable_cost(),
    decreases 34 - i, 0int, 0int,
{
    if 0 <= i < 34 {
        lemma_cost_bounds(h, i + 1, j - t - s, p - q, s, a);
    }
}

fn placement_value(
    h: &[u8; 34],
    i: usize,
    j: usize,
    p: usize,
    a: usize,
    b: usize,
    t: usize,
    s: usize,
    q: usize,
    next: &Vec<u8>,
) -> (v: u8)
    requires
        i < 34,
        j < 5,
        p < 2,
        a < 5,
        b < 5,
        t < 2,
        s < 5,
        q < 2,
        layer_holds(h@, i + 1, next@),
    ensures
        v == placement_cost(h@, i as int, j as int, p as int, a as int, b as int, t as int, s as int, q as int),
{
    let used = 3 * t + 2 * q + s + a + b;
    let can_start = i < 27 && i % 9 <= 6;
    if !(t + s <= j && q <= p && (s == 0 || can_start) && used <= 4) {
        return 99;
    }
    let held = h[i] as usize;
    let need = if used > held {
        used - held
    } else {
        0
    };
    let rest = next[(j - t - s) * 50 + (p - q) * 25 + s * 5 + a] as usize;
    assert(rest == fewest_missing(h@, i + 1, j - t - s, p - q, s as int, a as int));
    proof {
        lemma_cost_bounds(h@, i + 1, j - t - s, p - q, s as int, a as int);
    }
    if need + rest < 99 {
        (need + rest) as u8
    } else {
        99
    }
}

/// `fewest_missing(h, i, j, p, a, b)` from the table of kind `i + 1`.
fn layer_cell(h: &[u8; 34], i: usize, j: usize, p: usize, a: usize, b: usize, next: &Vec<u8>) -> (v: u8)
    requires
        i < 34,
        j < 5,
        p < 2,
        a < 5,
        b < 5,
        layer_holds(h@, i + 1, next@),
    ensures
        v == fewest_missing(h@, i as int, j as int, p as int, a as int, b as int),
{
    let mut per_triplets: [u8; 2] = [99, 99];
    let mut t: usize = 0;
    while t < 2
        invariant
            t <= 2,
            i < 34,
            j < 5,
            p < 2,
            a < 5,
            b < 5,
            layer_holds(h@, i + 1, next@),
            forall|k: int|
                0 <= k < t ==> per_triplets[k] == best_with_sequences_below(
                    h@,
                    i as int,
                    j as int,
                    p as int,
                    a as int,
                    b as int,
                    k,
                    5,
                ),
        decreases 2 - t,
    {
        let mut best: u8 = 99;
        let mut s: usize = 0;
        while s < 5
            invariant
                s <= 5,
                t < 2,
                i < 34,
                j < 5,
                p < 2,
                a < 5,
                b < 5,
                layer_holds(h@, i + 1, next@),
                best == best_with_sequences_below(
                    h@,
                    i as int,
                    j as int,
                    p as int,
                    a as int,
                    b as int,
                    t as int,
                    s as int,
                ),
            decreases 5 - s,
        {
            let without_pair = placement_value(h, i, j, p, a, b, t, s, 0, next);
            let with_pair = placement_value(h, i, j, p, a, b, t, s, 1, next);
            let here = if without_pair <= with_pair {
                without_pair
            } else {
                with_pair
            };
            if here < best {
                best = here;
            }
            s += 1;
        }
        per_triplets[t] = best;
        t += 1;
    }
    if per_triplets[0] <= per_triplets[1] {
        per_triplets[0]
    } else {
        per_triplets[1]
    }
}

/// The table of kind 34: only the empty arrangement costs nothing.
fn final_layer(h: &[u8; 34]) -> (layer: Vec<u8>)
    ensures
        layer_holds(h@, 34, layer@),
{
    let mut layer: Vec<u8> = Vec::new();
    let mut n: usize = 0;
    while n < 250
        invariant
            n <= 250,
            layer@.len() == n,
            forall|k: int| 0 <= k < n ==> layer@[k] == (if k == 0 {
                0u8
            } else {
                99u8
            }),
        decreases 250 - n,
    {
        if n == 0 {
            layer.push(0);
        } else {
            layer.push(99);
        }
        n += 1;
    }
    assert forall|j: int, p: int, a: int, b: int|
        0 <= j < 5 && 0 <= p < 2 && 0 <= a < 5 && 0 <= b < 5 implies layer@[layer_index(j, p, a, b)]
            == #[trigger] fewest_missing(h@, 34, j, p, a, b) by {
        assert(layer_index(j, p, a, b) == 0 <==> (j == 0 && p == 0 && a == 0 && b == 0));
    }
    layer
}

/// The table of kind `i` from the table of kind `i + 1`.
fn previous_layer(h: &[u8; 34], i: usize, next: &Vec<u8>) -> (layer: Vec<u8>)
    requires
        i < 34,
        layer_holds(h@, i + 1, next@),
    ensures
        layer_holds(h@, i as int, layer@),
{
    let mut layer: Vec<u8> = Vec::new();
    let mut j: usize = 0;
    while j < 5
        invariant
            j <= 5,
            i < 34,
            layer_holds(h@, i + 1, next@),
            layer@.len() == layer_index(j as int, 0, 0, 0),
            forall|j2: int, p2: int, a2: int, b2: int|
                0 <= j2 < j && 0 <= p2 < 2 && 0 <= a2 < 5 && 0 <= b2 < 5 ==> layer@[layer_index(
                    j2,
                    p2,
                    a2,
                    b2,
                )] == #[trigger] fewest_missing(h@, i as int, j2, p2, a2, b2),
        decreases 5 - j,
    {
        let mut p: usize = 0;
        while p < 2
            invariant
                j < 5,
                p <= 2,
                i < 34,
                layer_holds(h@, i + 1, next@),
                layer@.len() == layer_index(j as int, p as int, 0, 0),
                forall|j2: int, p2: int, a2: int, b2: int|
                    0 <= j2 < 5 && 0 <= p2 < 2 && 0 <= a2 < 5 && 0 <= b2 < 5 && layer_index(
                        j2,
                        p2,
                        a2,
                        b2,
                    ) < layer_index(j as int, p as int, 0, 0) ==> layer@[layer_index(j2, p2, a2, b2)]
                        == #[trigger] fewest_missing(h@, i as int, j2, p2, a2, b2),
            decreases 2 - p,
        {
            let mut a: usize = 0;
            while a < 5
                invariant
                    j < 5,
                    p < 2,
                    a <= 5,
                    i < 34,
                    layer_holds(h@, i + 1, next@),
                    layer@.len() == layer_index(j as int, p as int, a as int, 0),
                    forall|j2: int, p2: int, a2: int, b2: int|
                        0 <= j2 < 5 && 0 <= p2 < 2 && 0 <= a2 < 5 && 0 <= b2 < 5 && layer_index(
                            j2,
                            p2,
                            a2,
                            b2,
                        ) < layer_index(j as int, p as int, a as int, 0) ==> layer@[layer_index(
                            j2,
                            p2,
                            a2,
                            b2,
                        )] == #[trigger] fewest_missing(h@, i as int, j2, p2, a2, b2),
                decreases 5 - a,
            {
                let mut b: usize = 0;
                while b < 5
                    invariant
                        j < 5,
                        p < 2,
                        a < 5,
                        b <= 5,
                        i < 34,
                        layer_holds(h@, i + 1, next@),
                        layer@.len() == layer_index(j as int, p as int, a as int, b as int),
                        forall|j2: int, p2: int, a2: int, b2: int|
                            0 <= j2 < 5 && 0 <= p2 < 2 && 0 <= a2 < 5 && 0 <= b2 < 5 && layer_index(
                                j2,
                                p2,
                                a2,
                                b2,
                            ) < layer_index(j as int, p as int, a as int, b as int)
                                ==> layer@[layer_index(j2, p2, a2, b2)]
                                == #[trigger] fewest_missing(h@, i as int, j2, p2, a2, b2),
                    decreases 5 - b,
                {
                    let v = layer_cell(h, i, j, p, a, b, next);
                    layer.push(v);
                    b += 1;
                }
                a += 1;
            }
            p += 1;
        }
        j += 1;
    }
    layer
}

/// Shanten of the standard shape, `len_div3` groups and a pair: the fewest
/// tiles missing over all arrangements, minus one.
pub fn calculate_normal(tiles: &[u8; 34], len_div3: u8) -> (shanten: i8)
    requires
        len_div3 <= 4,
    ensures
        shanten == normal_shanten_spec(tiles@, len_div3 as int),
{
    let mut layer = final_layer(tiles);
    let mut i: usize = 34;
    while i > 0
        invariant
            i <= 34,
            layer_holds(tiles@, i as int, layer@),
        decreases i,
    {
        layer = previous_layer(tiles, i - 1, &layer);
        i -= 1;
    }
    let m = len_div3 as usize;
    let missing = layer[m * 50 + 25];
    assert(missing == fewest_missing(tiles@, 0, m as int, 1, 0, 0));
    missing as i8 - 1
}

/// Seven pairs shanten.
pub fn calculate_seven_pairs(tiles: &[u8; 34]) -> (shanten: i8)
    ensures
        shanten == seven_pairs_shanten_spec(tiles@),
{
    let mut pairs: i8 = 0;
    let mut kinds: u8 = 0;
    let mut i: usize = 0;
    while i < 34
        invariant
            i <= 34,
            pairs == kinds_with_at_least(tiles@, i as int, 2),
            kinds == kinds_with_at_least(tiles@, i as int, 1),
            0 <= pairs <= i,
            kinds <= i,
        decreases 34 - i,
    {
        if tiles[i] > 0 {
            kinds += 1;
            if tiles[i] >= 2 {
                pairs += 1;
            }
        }
        i += 1;
    }
    let redunct: i8 = if kinds < 7 {
        (7 - kinds) as i8
    } else {
        0
    };
    7 - pairs + redunct - 1
}

/// The kind of the `n`-th terminal or honor (1m 9m 1p 9p 1s 9s E S W N P F C).
fn orphan(n: usize) -> (k: usize)
    requires
        n < 13,
    ensures
        k == orphan_kind(n as int),
        k < 34,
{
    if n < 6 {
        if n % 2 == 0 {
            (n / 2) * 9
        } else {
            (n / 2) * 9 + 8
        }
    } else {
        21 + n
    }
}

/// Thirteen orphans shanten.
pub fn calculate_thirteen_orphans(tiles: &[u8; 34]) -> (shanten: i8)
    ensures
        shanten == thirteen_orphans_shanten_spec(tiles@),
{
    let mut pairs: i8 = 0;
    let mut kinds: i8 = 0;
    let mut n: usize = 0;
    while n < 13
        invariant
            n <= 13,
            pairs == orphans_with_at_least(tiles@, n as int, 2),
            kinds == orphans_with_at_least(tiles@, n as int, 1),
            0 <= pairs <= n,
            0 <= kinds <= n,
        decreases 13 - n,
    {
        let c = tiles[orphan(n)];
        if c > 0 {
            kinds += 1;
            if c >= 2 {
                pairs += 1;
            }
        }
        n += 1;
    }
    let has_pair: i8 = if pairs > 0 {
        1
    } else {
        0
    };
    14 - kinds - has_pair - 1
}

/// The shanten of a hand with `len_div3` groups to form: the standard
/// shape, and for a full hand (four groups) also seven pairs and thirteen
/// orphans, whichever is lowest.
pub open spec fn shanten_spec(h: Seq<u8>, m: int) -> int {
    let normal = normal_shanten_spec(h, m);
    if normal <= 0 || m < 4 {
        normal
    } else {
        let with_pairs = spec_min(normal, seven_pairs_shanten_spec(h));
        if with_pairs > 0 {
            spec_min(with_pairs, thirteen_orphans_shanten_spec(h))
        } else {
            with_pairs
        }
    }
}

/// Shanten over the three shapes.
pub fn calculate(tiles: &[u8; 34], len_div3: u8) -> (shanten: i8)
    requires
        len_div3 <= 4,
    ensures
        shanten == shanten_spec(tiles@, len_div3 as int),
{
    let mut shanten = calculate_normal(tiles, len_div3);
    if shanten <= 0 || len_div3 < 4 {
        return shanten;
    }
    let pairs = calculate_seven_pairs(tiles);
    if pairs < shanten {
        shanten = pairs;
    }
    if shanten > 0 {
        let orphans = calculate_thirteen_orphans(tiles);
        if orphans < shanten {
            orphans
        } else {
            shanten
        }
    } else {
        shanten
    }
}

/// Shanten calculator over tile counts.
pub struct ShantenCalculator;

/// Shanten as the calculator computes it: the standard shape with
/// `min(tiles / 3, 4)` groups, and for exactly four groups also seven pairs
/// and thirteen orphans.
pub open spec fn lookup_spec(h: Seq<u8>) -> int {
    let melds = sum_first(h, 34) / 3;
    let m = if melds < 4 {
        melds
    } else {
        4
    };
    let standard = normal_shanten_spec(h, m);
    if melds == 4 {
        spec_min(
            standard,
            spec_min(seven_pairs_shanten_spec(h), thirteen_orphans_shanten_spec(h)),
        )
    } else {
        standard
    }
}

pub open spec fn sum_first(h: Seq<u8>, n: int) -> int
    decreases n,
{
    if n <= 0 {
        0
    } else {
        sum_first(h, n - 1) + h[n - 1]
    }
}

impl ShantenCalculator {
    pub fn new() -> (c: Self) {
        ShantenCalculator
    }

    /// Shanten of the counts (see `lookup_spec`).
    pub fn lookup(&self, counts: &TileCounts) -> (shanten: i8)
        requires
            sum_first(counts@, 34) <= 255,
        ensures
            shanten == lookup_spec(counts@),
    {
        let c = counts.inner();
        let mut total: u8 = 0;
        let mut i: usize = 0;
        while i < 34
            invariant
                i <= 34,
                c@ == counts@,
                sum_first(counts@, 34) <= 255,
                total == sum_first(counts@, i as int),
            decreases 34 - i,
        {
            proof {
                lemma_sum_first_monotone(counts@, i as int + 1, 34);
            }
            total = total + c[i];
            i += 1;
        }
        let num_melds = (total / 3) as usize;
        let m: u8 = if num_melds < 4 {
            num_melds as u8
        } else {
            4
        };
        let standard = calculate_normal(c, m);
        if num_melds == 4 {
            let pairs = calculate_seven_pairs(c);
            let orphans = calculate_thirteen_orphans(c);
            let special = if pairs <= orphans {
                pairs
            } else {
                orphans
            };
            if standard <= special {
                standard
            } else {
                special
            }
        } else {
            standard
        }
    }
}

proof fn lemma_sum_first_monotone(h: Seq<u8>, n: int, m: int)
    requires
        0 <= n <= m <= h.len(),
    ensures
        sum_first(h, n) <= sum_first(h, m),
    decreases m - n,
{
    if n < m {
        lemma_sum_first_monotone(h, n, m - 1);
    }
}

/// The count of every kind among the first `n` tiles.
pub open spec fn tile_kind_counts(tiles: Seq<Tile>, n: int) -> Seq<u8> {
    Seq::new(34, |k: int| count_kind(tiles, n, k) as u8)
}

pub proof fn lemma_sum_first_bump(h: Seq<u8>, g: Seq<u8>, t: int, m: int)
    requires
        h.len() == 34,
        g.len() == 34,
        0 <= t < 34,
        0 <= m <= 34,
        g[t] == h[t] + 1,
        forall|k: int| 0 <= k < 34 && k != t ==> g[k] == h[k],
    ensures
        sum_first(g, m) == sum_first(h, m) + if t < m {
            1int
        } else {
            0int
        },
    decreases m,
{
    if m > 0 {
        lemma_sum_first_bump(h, g, t, m - 1);
    }
}

/// The counts of `n` tiles add up to `n`.
pub proof fn lemma_counts_total(tiles: Seq<Tile>, n: int)
    requires
        0 <= n <= tiles.len(),
        n <= 255,
        forall|i: int| 0 <= i < tiles.len() ==> (#[trigger] tiles[i]).wf(),
    ensures
        sum_first(tile_kind_counts(tiles, n), 34) == n,
    decreases n,
{
    if n == 0 {
        lemma_sum_first_zero(tile_kind_counts(tiles, 0), 34);
    } else {
        lemma_counts_total(tiles, n - 1);
        let t = tiles[n - 1].spec_tile_type().0 as int;
        assert(tiles[n - 1].wf());
        assert forall|k: int| 0 <= k < 34 implies count_kind(tiles, n, k) <= n && count_kind(tiles, n - 1, k)
            <= n - 1 by {
            lemma_count_kind_bounds(tiles, n, k);
            lemma_count_kind_bounds(tiles, n - 1, k);
        }
        lemma_count_kind_bounds(tiles, n, t);
        lemma_count_kind_bounds(tiles, n - 1, t);
        assert(0 <= t < 34);
        assert(count_kind(tiles, n, t) == count_kind(tiles, n - 1, t) + 1);
        assert(tile_kind_counts(tiles, n)[t] == tile_kind_counts(tiles, n - 1)[t] + 1);
        lemma_sum_first_bump(tile_kind_counts(tiles, n - 1), tile_kind_counts(tiles, n), t, 34);
    }
}

proof fn lemma_sum_first_zero(h: Seq<u8>, m: int)
    requires
        0 <= m <= h.len(),
        forall|k: int| 0 <= k < m ==> h[k] == 0,
    ensures
        sum_first(h, m) == 0,
    decreases m,
{
    if m > 0 {
        lemma_sum_first_zero(h, m - 1);
    }
}

impl ShantenCalculator {
    /// Shanten of a hand of tiles (see `lookup_spec`).
    pub fn calculate(&self, hand: &[Tile]) -> (shanten: i8)
        requires
            hand@.len() <= 255,
            forall|i: int| 0 <= i < hand@.len() ==> (#[trigger] hand@[i]).wf(),
        ensures
            shanten == lookup_spec(tile_kind_counts(hand@, hand@.len() as int)),
    {
        let counts = TileCounts::from_tiles(hand);
        proof {
            lemma_counts_total(hand@, hand@.len() as int);
            assert forall|k: int| 0 <= k < 34 implies count_kind(hand@, hand@.len() as int, k) <= 255 by {
                lemma_count_kind_bounds(hand@, hand@.len() as int, k);
            }
            assert(counts@ =~= tile_kind_counts(hand@, hand@.len() as int));
        }
        self.lookup(&counts)
    }
}

} // verus!
