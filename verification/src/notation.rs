use vstd::prelude::*;
use vstd::string::StrSliceExecFns;
use crate::counts::count_type;
use crate::text::{is_white_space, unicode_white_space};
use crate::tile::{Tile, TileType};

verus! {

/// Why a hand written as text was refused; positions count characters of
/// the text without its leading and trailing white space.
#[derive(Debug, Clone, Copy, PartialEq, Eq, Structural)]
pub enum ParseError {
    /// Nothing but white space.
    Empty,
    /// A repeat mark with no tile before it.
    RepeatWithoutTile { pos: usize, ch: char },
    /// A rank with no suit after it.
    Incomplete { pos: usize },
    /// Not a digit where a rank belongs.
    ExpectedDigit { pos: usize, ch: char },
    /// Not one of m, p, s, z (either case) where a suit belongs.
    UnknownSuit { pos: usize, ch: char },
    /// A rank of 0.
    ZeroRank { pos: usize },
    /// An honour rank above 7.
    HonourOutOfRange { pos: usize, rank: u8 },
    /// A repeat mark with no digit after it.
    MissingRepeatCount { pos: usize },
    /// A repeat count outside 1..=4.
    RepeatOutOfRange { count: u8 },
    /// A fifth copy of a kind.
    TooManyCopies { tile: TileType },
}

/// `×`, `x` or `X`: repeat the tile before.
pub open spec fn is_repeat_mark(c: char) -> bool {
    c == '×' || c == 'x' || c == 'X'
}

pub open spec fn is_digit(c: char) -> bool {
    '0' <= c <= '9'
}

pub open spec fn digit_value(c: char) -> int {
    c as int - '0' as int
}

/// The first kind of the suit a letter names.
pub open spec fn suit_base(c: char) -> Option<u8> {
    if c == 'm' || c == 'M' {
        Some(0)
    } else if c == 'p' || c == 'P' {
        Some(9)
    } else if c == 's' || c == 'S' {
        Some(18)
    } else if c == 'z' || c == 'Z' {
        Some(27)
    } else {
        None
    }
}

/// The first index from `i` on that is not white space.
pub open spec fn skip_white(s: Seq<char>, i: int) -> int
    decreases s.len() - i,
{
    if i < 0 || i >= s.len() || !unicode_white_space(s[i]) {
        i
    } else {
        skip_white(s, i + 1)
    }
}

/// The end of the text before its trailing white space, looking back from `j`.
pub open spec fn end_before_white(s: Seq<char>, j: int) -> int
    decreases j,
{
    if j <= 0 || j > s.len() || !unicode_white_space(s[j - 1]) {
        j
    } else {
        end_before_white(s, j - 1)
    }
}

/// The text without leading and trailing white space.
pub open spec fn trimmed(s: Seq<char>) -> Seq<char> {
    let a = skip_white(s, 0);
    let e = end_before_white(s, s.len() as int);
    if a >= e {
        seq![]
    } else {
        s.subrange(a, e)
    }
}

/// `pre` before the tiles of `r`; an error stays as it is.
pub open spec fn prepend(pre: Seq<TileType>, r: Result<Seq<TileType>, ParseError>) -> Result<
    Seq<TileType>,
    ParseError,
> {
    match r {
        Ok(rest) => Ok(pre + rest),
        Err(e) => Err(e),
    }
}

/// The end of the run of digits that starts at `i`: the first index from
/// `i` on that is not a digit.
pub open spec fn run_end(c: Seq<char>, i: int) -> int
    decreases c.len() - i,
{
    if i < 0 || i >= c.len() || !is_digit(c[i]) {
        i
    } else {
        run_end(c, i + 1)
    }
}

/// A digit run ends within the text, past its digits only.
pub proof fn lemma_run_end(c: Seq<char>, i: int)
    requires
        0 <= i <= c.len(),
    ensures
        i <= run_end(c, i) <= c.len(),
        run_end(c, i) < c.len() ==> !is_digit(c[run_end(c, i)]),
        forall|k: int| i <= k < run_end(c, i) ==> is_digit(#[trigger] c[k]),
    decreases c.len() - i,
{
    if i < c.len() && is_digit(c[i]) {
        lemma_run_end(c, i + 1);
    }
}

/// The kinds of the ranks at `i..j` in the suit starting at kind `base`,
/// one tile per digit; refused at the first rank 0, or honour rank above 7.
pub open spec fn run_tiles(c: Seq<char>, i: int, j: int, base: u8) -> Result<Seq<TileType>, ParseError>
    decreases j - i,
{
    if i >= j {
        Ok(seq![])
    } else if digit_value(c[i]) == 0 {
        Err(ParseError::ZeroRank { pos: i as usize })
    } else if base == 27 && digit_value(c[i]) > 7 {
        Err(ParseError::HonourOutOfRange { pos: i as usize, rank: digit_value(c[i]) as u8 })
    } else {
        prepend(seq![TileType((base + digit_value(c[i]) - 1) as u8)], run_tiles(c, i + 1, j, base))
    }
}

/// The tiles `run` written `n` times over.
pub open spec fn repeat_run(run: Seq<TileType>, n: int) -> Seq<TileType>
    decreases n,
{
    if n <= 0 {
        seq![]
    } else {
        repeat_run(run, n - 1) + run
    }
}

/// The tiles written from position `i` on: each group a run of rank digits
/// and a suit letter, one tile per digit, optionally followed by a repeat
/// mark and a count of 1 to 4 that writes the group that many times; white
/// space between groups is skipped.
pub open spec fn tokens_from(c: Seq<char>, i: int) -> Result<Seq<TileType>, ParseError>
    decreases c.len() - i,
{
    if i < 0 || i >= c.len() {
        Ok(seq![])
    } else if unicode_white_space(c[i]) {
        tokens_from(c, i + 1)
    } else if is_repeat_mark(c[i]) {
        Err(ParseError::RepeatWithoutTile { pos: i as usize, ch: c[i] })
    } else if i + 1 >= c.len() {
        Err(ParseError::Incomplete { pos: i as usize })
    } else if !is_digit(c[i]) {
        Err(ParseError::ExpectedDigit { pos: i as usize, ch: c[i] })
    } else {
        let j = run_end(c, i);
        proof {
            lemma_run_end(c, i);
        }
        if j >= c.len() {
            Err(ParseError::Incomplete { pos: i as usize })
        } else if suit_base(c[j]) is None {
            Err(ParseError::UnknownSuit { pos: j as usize, ch: c[j] })
        } else {
            match run_tiles(c, i, j, suit_base(c[j])->Some_0) {
                Err(e) => Err(e),
                Ok(run) => if j + 1 < c.len() && is_repeat_mark(c[j + 1]) {
                    if j + 2 >= c.len() || !is_digit(c[j + 2]) {
                        Err(ParseError::MissingRepeatCount { pos: (j + 2) as usize })
                    } else if digit_value(c[j + 2]) == 0 || digit_value(c[j + 2]) > 4 {
                        Err(ParseError::RepeatOutOfRange { count: digit_value(c[j + 2]) as u8 })
                    } else {
                        prepend(repeat_run(run, digit_value(c[j + 2])), tokens_from(c, j + 3))
                    }
                } else {
                    prepend(run, tokens_from(c, j + 1))
                },
            }
        }
    }
}

/// The tile kinds written in the text, or why it was refused.
pub open spec fn tokenize_spec(s: Seq<char>) -> Result<Seq<TileType>, ParseError> {
    let c = trimmed(s);
    if c.len() == 0 {
        Err(ParseError::Empty)
    } else {
        tokens_from(c, 0)
    }
}

/// Physical tiles for the first `n` kinds: each kind takes its copies in
/// order; a fifth copy of a kind is refused.
pub open spec fn assign_copies(types: Seq<TileType>, n: int) -> Result<Seq<Tile>, ParseError>
    decreases n,
{
    if n <= 0 {
        Ok(seq![])
    } else {
        match assign_copies(types, n - 1) {
            Err(e) => Err(e),
            Ok(prev) => {
                let k = types[n - 1];
                let copy = count_type(types, n - 1, k.0 as int);
                if copy >= 4 {
                    Err(ParseError::TooManyCopies { tile: k })
                } else {
                    Ok(prev.push(Tile((k.0 * 4 + copy) as u8)))
                }
            },
        }
    }
}

pub open spec fn parse_tiles_spec(s: Seq<char>) -> Result<Seq<Tile>, ParseError> {
    match tokenize_spec(s) {
        Err(e) => Err(e),
        Ok(types) => assign_copies(types, types.len() as int),
    }
}

/// The characters of the text without leading and trailing white space.
fn trimmed_chars(input: &str) -> (v: Vec<char>)
    ensures
        v@ == trimmed(input@),
{
    let ghost s = input@;
    let n = input.unicode_len();
    let mut a: usize = 0;
    let mut found = false;
    while a < n && !found
        invariant
            a <= n,
            n == s.len(),
            s == input@,
            skip_white(s, 0) == skip_white(s, a as int),
            found ==> a < n && !unicode_white_space(s[a as int]),
        decreases n - a + if found {
            0int
        } else {
            1int
        },
    {
        if is_white_space(input.get_char(a)) {
            a += 1;
        } else {
            found = true;
        }
    }
    let mut e: usize = n;
    let mut stop = false;
    while e > a && !stop
        invariant
            a <= e <= n,
            n == s.len(),
            s == input@,
            skip_white(s, 0) == a,
            end_before_white(s, n as int) == end_before_white(s, e as int),
            stop ==> e > 0 && !unicode_white_space(s[e - 1]),
            a == n || !unicode_white_space(s[a as int]),
            a < n ==> e > a,
        decreases e + if stop {
            0int
        } else {
            1int
        },
    {
        if is_white_space(input.get_char(e - 1)) {
            e -= 1;
        } else {
            stop = true;
        }
    }
    let mut v: Vec<char> = Vec::new();
    let mut k: usize = a;
    while k < e
        invariant
            a <= k <= e <= n,
            n == s.len(),
            s == input@,
            v@ == s.subrange(a as int, k as int),
            skip_white(s, 0) == a,
            a < n ==> end_before_white(s, n as int) == e,
            a == n ==> e == n,
        decreases e - k,
    {
        v.push(input.get_char(k));
        assert(s.subrange(a as int, k + 1) =~= s.subrange(a as int, k as int).push(s[k as int]));
        k += 1;
    }
    proof {
        lemma_end_before_white_bound(s, n as int);
        if a >= e {
            assert(v@ =~= seq![]);
        }
    }
    v
}

proof fn lemma_end_before_white_bound(s: Seq<char>, j: int)
    ensures
        end_before_white(s, j) <= j || j <= 0,
    decreases j,
{
    if j > 0 && j <= s.len() && unicode_white_space(s[j - 1]) {
        lemma_end_before_white_bound(s, j - 1);
    }
}

fn suit_of(c: char) -> (b: Option<u8>)
    ensures
        b == suit_base(c),
{
    if c == 'm' || c == 'M' {
        Some(0)
    } else if c == 'p' || c == 'P' {
        Some(9)
    } else if c == 's' || c == 'S' {
        Some(18)
    } else if c == 'z' || c == 'Z' {
        Some(27)
    } else {
        None
    }
}

fn digit_of(c: char) -> (d: u8)
    requires
        is_digit(c),
    ensures
        d == digit_value(c),
{
    ((c as u32) - ('0' as u32)) as u8
}

fn scan_run(c: &Vec<char>, i: usize) -> (j: usize)
    requires
        i <= c@.len(),
    ensures
        j == run_end(c@, i as int),
{
    let mut j = i;
    while j < c.len() && '0' <= c[j] && c[j] <= '9'
        invariant
            i <= j <= c@.len(),
            run_end(c@, i as int) == run_end(c@, j as int),
        decreases c@.len() - j,
    {
        j += 1;
    }
    j
}

/// The kinds of the digit run `i..j` (see `run_tiles`).
fn run_kinds(c: &Vec<char>, i: usize, j: usize, base: u8) -> (r: Result<Vec<TileType>, ParseError>)
    requires
        i <= j <= c@.len(),
        forall|k: int| i <= k < j ==> is_digit(#[trigger] c@[k]),
        base == 0 || base == 9 || base == 18 || base == 27,
    ensures
        match r {
            Ok(v) => run_tiles(c@, i as int, j as int, base) == Ok::<Seq<TileType>, ParseError>(v@) && forall|x: int|
                0 <= x < v@.len() ==> (#[trigger] v@[x]).0 < 34,
            Err(e) => run_tiles(c@, i as int, j as int, base) == Err::<Seq<TileType>, ParseError>(e),
        },
{
    let mut out: Vec<TileType> = Vec::new();
    let mut k = i;
    while k < j
        invariant
            i <= k <= j <= c@.len(),
            forall|x: int| i <= x < j ==> is_digit(#[trigger] c@[x]),
            base == 0 || base == 9 || base == 18 || base == 27,
            run_tiles(c@, i as int, j as int, base) == prepend(out@, run_tiles(c@, k as int, j as int, base)),
            forall|x: int| 0 <= x < out@.len() ==> (#[trigger] out@[x]).0 < 34,
        decreases j - k,
    {
        assert(is_digit(c@[k as int]));
        let rank = digit_of(c[k]);
        if rank == 0 {
            return Err(ParseError::ZeroRank { pos: k });
        }
        if base == 27 && rank > 7 {
            return Err(ParseError::HonourOutOfRange { pos: k, rank });
        }
        let t = TileType(base + rank - 1);
        let ghost before = out@;
        out.push(t);
        proof {
            match run_tiles(c@, k + 1, j as int, base) {
                Ok(r) => {
                    assert(before + (seq![t] + r) =~= out@ + r);
                },
                Err(_) => {},
            }
        }
        k += 1;
    }
    assert(out@ + seq![] =~= out@);
    Ok(out)
}

/// The tile kinds written in the text (see `tokens_from`).
pub fn tokenize(input: &str) -> (r: Result<Vec<TileType>, ParseError>)
    ensures
        match r {
            Ok(v) => tokenize_spec(input@) == Ok::<Seq<TileType>, ParseError>(v@),
            Err(e) => tokenize_spec(input@) == Err::<Seq<TileType>, ParseError>(e),
        },
        r matches Ok(v) ==> forall|i: int| 0 <= i < v@.len() ==> (#[trigger] v@[i]).0 < 34,
{
    let c = trimmed_chars(input);
    if c.len() == 0 {
        return Err(ParseError::Empty);
    }
    let ghost cs = c@;
    let mut out: Vec<TileType> = Vec::new();
    let mut i: usize = 0;
    while i < c.len()
        invariant
            i <= c@.len(),
            cs == c@,
            cs == trimmed(input@),
            cs.len() > 0,
            tokens_from(cs, 0) == prepend(out@, tokens_from(cs, i as int)),
            forall|k: int| 0 <= k < out@.len() ==> (#[trigger] out@[k]).0 < 34,
        decreases c@.len() - i,
    {
        let ch = c[i];
        if is_white_space(ch) {
            i += 1;
            continue;
        }
        if ch == '×' || ch == 'x' || ch == 'X' {
            return Err(ParseError::RepeatWithoutTile { pos: i, ch });
        }
        if i + 1 >= c.len() {
            return Err(ParseError::Incomplete { pos: i });
        }
        if !('0' <= ch && ch <= '9') {
            return Err(ParseError::ExpectedDigit { pos: i, ch });
        }
        let j = scan_run(&c, i);
        proof {
            lemma_run_end(cs, i as int);
        }
        if j >= c.len() {
            return Err(ParseError::Incomplete { pos: i });
        }
        let suit = c[j];
        let base = match suit_of(suit) {
            Some(b) => b,
            None => {
                return Err(ParseError::UnknownSuit { pos: j, ch: suit });
            },
        };
        let run = match run_kinds(&c, i, j, base) {
            Ok(r) => r,
            Err(e) => {
                return Err(e);
            },
        };
        let ghost before = out@;
        if j + 1 < c.len() && (c[j + 1] == '×' || c[j + 1] == 'x' || c[j + 1] == 'X') {
            if j + 2 >= c.len() || !('0' <= c[j + 2] && c[j + 2] <= '9') {
                return Err(ParseError::MissingRepeatCount { pos: j + 2 });
            }
            let count = digit_of(c[j + 2]);
            if count == 0 || count > 4 {
                return Err(ParseError::RepeatOutOfRange { count });
            }
            let mut k: u8 = 0;
            while k < count
                invariant
                    k <= count <= 4,
                    out@ == before + repeat_run(run@, k as int),
                    forall|x: int| 0 <= x < run@.len() ==> (#[trigger] run@[x]).0 < 34,
                    forall|x: int| 0 <= x < out@.len() ==> (#[trigger] out@[x]).0 < 34,
                decreases count - k,
            {
                let ghost mid = out@;
                let mut m: usize = 0;
                while m < run.len()
                    invariant
                        m <= run@.len(),
                        out@ == mid + run@.take(m as int),
                        forall|x: int| 0 <= x < run@.len() ==> (#[trigger] run@[x]).0 < 34,
                        forall|x: int| 0 <= x < mid.len() ==> (#[trigger] mid[x]).0 < 34,
                        forall|x: int| 0 <= x < out@.len() ==> (#[trigger] out@[x]).0 < 34,
                    decreases run@.len() - m,
                {
                    out.push(run[m]);
                    assert(run@.take(m + 1) =~= run@.take(m as int).push(run@[m as int]));
                    m += 1;
                }
                assert(run@.take(run@.len() as int) =~= run@);
                assert(out@ =~= before + repeat_run(run@, k + 1));
                k += 1;
            }
            proof {
                let rest = tokens_from(cs, j + 3);
                match rest {
                    Ok(r) => {
                        assert(before + (repeat_run(run@, count as int) + r) =~= out@ + r);
                    },
                    Err(_) => {},
                }
            }
            i = j + 3;
        } else {
            let mut m: usize = 0;
            while m < run.len()
                invariant
                    m <= run@.len(),
                    out@ == before + run@.take(m as int),
                    forall|x: int| 0 <= x < run@.len() ==> (#[trigger] run@[x]).0 < 34,
                    forall|x: int| 0 <= x < out@.len() ==> (#[trigger] out@[x]).0 < 34,
                decreases run@.len() - m,
            {
                out.push(run[m]);
                assert(run@.take(m + 1) =~= run@.take(m as int).push(run@[m as int]));
                m += 1;
            }
            assert(run@.take(run@.len() as int) =~= run@);
            proof {
                let rest = tokens_from(cs, j + 1);
                match rest {
                    Ok(r) => {
                        assert(before + (run@ + r) =~= out@ + r);
                    },
                    Err(_) => {},
                }
            }
            i = j + 1;
        }
    }
    assert(out@ + seq![] =~= out@);
    Ok(out)
}

/// The tile kinds written in the text.
pub fn parse_tile_types(input: &str) -> (r: Result<Vec<TileType>, ParseError>)
    ensures
        match r {
            Ok(v) => tokenize_spec(input@) == Ok::<Seq<TileType>, ParseError>(v@),
            Err(e) => tokenize_spec(input@) == Err::<Seq<TileType>, ParseError>(e),
        },
        r matches Ok(v) ==> forall|i: int| 0 <= i < v@.len() ==> (#[trigger] v@[i]).0 < 34,
{
    tokenize(input)
}

proof fn lemma_assign_error_stays(types: Seq<TileType>, m: int, n: int)
    requires
        0 <= m <= n,
        assign_copies(types, m) is Err,
    ensures
        assign_copies(types, n) == assign_copies(types, m),
    decreases n - m,
{
    if m < n {
        lemma_assign_error_stays(types, m, n - 1);
    }
}

/// Physical tiles for the text: each kind takes its copies in order.
pub fn parse_tiles(input: &str) -> (r: Result<Vec<Tile>, ParseError>)
    ensures
        match r {
            Ok(v) => parse_tiles_spec(input@) == Ok::<Seq<Tile>, ParseError>(v@),
            Err(e) => parse_tiles_spec(input@) == Err::<Seq<Tile>, ParseError>(e),
        },
{
    let types = match tokenize(input) {
        Ok(t) => t,
        Err(e) => {
            return Err(e);
        },
    };
    let mut counts = [0u8; 34];
    let mut result: Vec<Tile> = Vec::new();
    let mut i: usize = 0;
    while i < types.len()
        invariant
            i <= types@.len(),
            forall|x: int| 0 <= x < types@.len() ==> (#[trigger] types@[x]).0 < 34,
            forall|k: int| 0 <= k < 34 ==> counts@[k] == count_type(types@, i as int, k) && counts@[k] <= 4,
            assign_copies(types@, i as int) == Ok::<Seq<Tile>, ParseError>(result@),
            tokenize_spec(input@) == Ok::<Seq<TileType>, ParseError>(types@),
        decreases types@.len() - i,
    {
        let tt = types[i];
        let k = tt.0 as usize;
        let copy = counts[k];
        if copy >= 4 {
            proof {
                assert(count_type(types@, i as int, tt.0 as int) >= 4);
                assert(assign_copies(types@, i + 1) == Err::<Seq<Tile>, ParseError>(
                    ParseError::TooManyCopies { tile: tt },
                ));
                lemma_assign_error_stays(types@, i + 1, types@.len() as int);
            }
            return Err(ParseError::TooManyCopies { tile: tt });
        }
        result.push(Tile(tt.0 * 4 + copy));
        counts[k] = copy + 1;
        i += 1;
    }
    assert(types@.len() as int == i);
    Ok(result)
}

} // verus!
