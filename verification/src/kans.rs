use vstd::prelude::*;
use crate::calls::{kind_of, kind_tiles, tiles_of_kind};
use crate::declaration::{get_riichi_ankan_options, riichi_ankan_spec};
use crate::round_end::four_kan_spec;
use crate::tile::{Meld, MeldKind, Tile};

verus! {

pub open spec fn is_kan(k: MeldKind) -> bool {
    k is Minkan || k is Kakan || k is Ankan
}

/// The kans among the first `n` calls.
pub open spec fn kans_in(melds: Seq<Meld>, n: int) -> int
    decreases n,
{
    if n <= 0 {
        0
    } else {
        kans_in(melds, n - 1) + if is_kan(melds[n - 1].kind) {
            1int
        } else {
            0int
        }
    }
}

/// The kans of the first `n` seats.
pub open spec fn kans_of_seats(seats: Seq<Vec<Meld>>, n: int) -> int
    decreases n,
{
    if n <= 0 {
        0
    } else {
        kans_of_seats(seats, n - 1) + kans_in(seats[n - 1]@, seats[n - 1]@.len() as int)
    }
}

/// The seats among the first `n` that made a kan, in seat order.
pub open spec fn kan_owners_spec(seats: Seq<Vec<Meld>>, n: int) -> Seq<usize>
    decreases n,
{
    if n <= 0 {
        seq![]
    } else {
        kan_owners_spec(seats, n - 1) + if kans_in(seats[n - 1]@, seats[n - 1]@.len() as int) > 0 {
            seq![(n - 1) as usize]
        } else {
            seq![]
        }
    }
}

/// Another kan may be declared by `player`: fewer than four were made, or
/// all of them by `player` alone.
pub open spec fn can_declare_kan_spec(kan_count: int, owners: Seq<usize>, player: usize) -> bool {
    kan_count < 4 || owners == seq![player]
}

proof fn lemma_kans_in_bounds(melds: Seq<Meld>, n: int)
    requires
        0 <= n,
    ensures
        0 <= kans_in(melds, n) <= n,
    decreases n,
{
    if n > 0 {
        lemma_kans_in_bounds(melds, n - 1);
    }
}

fn kans_in_exec(melds: &Vec<Meld>) -> (n: usize)
    ensures
        n == kans_in(melds@, melds@.len() as int),
{
    let mut n: usize = 0;
    let mut i: usize = 0;
    while i < melds.len()
        invariant
            i <= melds@.len(),
            n == kans_in(melds@, i as int),
            n <= i,
        decreases melds@.len() - i,
    {
        match melds[i].kind {
            MeldKind::Minkan | MeldKind::Kakan | MeldKind::Ankan => {
                n += 1;
            },
            _ => {},
        }
        i += 1;
    }
    n
}

/// The number of kans at the table.
pub fn get_kan_count(seats: &[Vec<Meld>; 4]) -> (n: usize)
    requires
        forall|i: int| 0 <= i < 4 ==> (#[trigger] seats@[i])@.len() < 1000,
    ensures
        n == kans_of_seats(seats@, 4),
{
    let mut n: usize = 0;
    let mut s: usize = 0;
    while s < 4
        invariant
            s <= 4,
            forall|i: int| 0 <= i < 4 ==> (#[trigger] seats@[i])@.len() < 1000,
            n == kans_of_seats(seats@, s as int),
            n <= 1000 * s,
        decreases 4 - s,
    {
        assert(seats@[s as int] == seats[s as int]);
        let k = kans_in_exec(&seats[s]);
        proof {
            lemma_kans_in_bounds(seats@[s as int]@, seats@[s as int]@.len() as int);
        }
        n += k;
        s += 1;
    }
    n
}

/// The seats that made a kan, in seat order.
pub fn kan_owners(seats: &[Vec<Meld>; 4]) -> (owners: Vec<usize>)
    ensures
        owners@ == kan_owners_spec(seats@, 4),
{
    let mut owners: Vec<usize> = Vec::new();
    let mut s: usize = 0;
    while s < 4
        invariant
            s <= 4,
            owners@ == kan_owners_spec(seats@, s as int),
        decreases 4 - s,
    {
        assert(seats@[s as int] == seats[s as int]);
        if kans_in_exec(&seats[s]) > 0 {
            owners.push(s);
        }
        s += 1;
    }
    owners
}

/// Whether `player` may declare another kan (see `can_declare_kan_spec`).
pub fn can_declare_kan(kan_count: usize, owners: &[usize], player: usize) -> (b: bool)
    ensures
        b == can_declare_kan_spec(kan_count as int, owners@, player),
{
    if kan_count < 4 {
        return true;
    }
    let r = owners.len() == 1 && owners[0] == player;
    proof {
        if owners@ == seq![player] {
            assert(owners@.len() == 1);
        }
        if r {
            assert(owners@ =~= seq![player]);
        }
    }
    r
}

/// Once four kans stand, either the round is aborted (they belong to
/// more than one seat) or only their one owner may declare another; never
/// both, and with no kan owner at all neither.
pub proof fn lemma_fifth_kan_or_abort(kan_count: int, owners: Seq<usize>, player: usize)
    requires
        kan_count >= 4,
        forall|i: int, j: int| 0 <= i < j < owners.len() ==> owners[i] != owners[j],
    ensures
        four_kan_spec(kan_count, owners) ==> !can_declare_kan_spec(kan_count, owners, player),
        can_declare_kan_spec(kan_count, owners, player) <==> (owners.len() == 1 && owners[0] == player),
        owners.len() == 1 ==> !four_kan_spec(kan_count, owners),
{
    if owners.len() == 1 && owners[0] == player {
        assert(owners =~= seq![player]);
    }
}

/// The closed kans open to a player: none when no tile is left to draw;
/// after riichi, exactly those the riichi rules allow (see
/// `riichi_ankan_spec`);
/// otherwise the first tile of each kind held four times, in hand order,
/// then the drawn tile when the hand holds three of its kind.
pub open spec fn ankan_options_spec(
    hand: Seq<Tile>,
    drawn: Option<Tile>,
    tiles_left: int,
    is_riichi: bool,
    open_melds: int,
) -> Seq<Tile> {
    if tiles_left == 0 {
        seq![]
    } else if is_riichi {
        riichi_ankan_spec(hand, open_melds, is_riichi, drawn)
    } else {
        fours_in_hand(hand, hand.len() as int) + match drawn {
            Some(d) => if tiles_of_kind(hand, kind_of(d)).len() == 3 {
                seq![d]
            } else {
                seq![]
            },
            None => seq![],
        }
    }
}

/// The first of its kind among the tiles before it.
pub open spec fn first_of_its_kind(hand: Seq<Tile>, i: int) -> bool {
    forall|j: int| 0 <= j < i ==> kind_of(#[trigger] hand[j]) != kind_of(hand[i])
}

/// Among the first `n` tiles, the first tile of each kind held four
/// times in the whole hand.
pub open spec fn fours_in_hand(hand: Seq<Tile>, n: int) -> Seq<Tile>
    decreases n,
{
    if n <= 0 {
        seq![]
    } else {
        fours_in_hand(hand, n - 1) + if first_of_its_kind(hand, n - 1) && tiles_of_kind(hand, kind_of(hand[n - 1])).len()
            == 4 {
            seq![hand[n - 1]]
        } else {
            seq![]
        }
    }
}

pub(crate) fn copy_tiles(tiles: &[Tile]) -> (v: Vec<Tile>)
    ensures
        v@ == tiles@,
{
    let mut v: Vec<Tile> = Vec::new();
    let mut i: usize = 0;
    while i < tiles.len()
        invariant
            i <= tiles@.len(),
            v@ == tiles@.take(i as int),
        decreases tiles@.len() - i,
    {
        v.push(tiles[i]);
        assert(tiles@.take(i + 1) =~= tiles@.take(i as int).push(tiles@[i as int]));
        i += 1;
    }
    assert(tiles@.take(tiles@.len() as int) =~= tiles@);
    v
}

/// The closed kans open to a player (see `ankan_options_spec`).
pub fn get_ankan_options(
    hand: &Vec<Tile>,
    drawn: Option<Tile>,
    tiles_left: usize,
    is_riichi: bool,
    open_melds: usize,
) -> (options: Vec<Tile>)
    requires
        hand@.len() < 200,
        open_melds < 4,
        forall|i: int| 0 <= i < hand@.len() ==> (#[trigger] hand@[i]).wf(),
        drawn matches Some(t) ==> t.wf(),
    ensures
        options@ == ankan_options_spec(hand@, drawn, tiles_left as int, is_riichi, open_melds as int),
{
    if tiles_left == 0 {
        return Vec::new();
    }
    if is_riichi {
        return get_riichi_ankan_options(hand, open_melds, is_riichi, drawn);
    }
    let mut options: Vec<Tile> = Vec::new();
    let mut i: usize = 0;
    while i < hand.len()
        invariant
            i <= hand@.len(),
            forall|x: int| 0 <= x < hand@.len() ==> (#[trigger] hand@[x]).wf(),
            options@ == fours_in_hand(hand@, i as int),
        decreases hand@.len() - i,
    {
        let t = hand[i];
        let k = t.tile_type().0;
        let mut first = true;
        let mut j: usize = 0;
        while j < i
            invariant
                j <= i < hand@.len(),
                t == hand@[i as int],
                k as int == kind_of(t),
                first == forall|x: int| 0 <= x < j ==> kind_of(#[trigger] hand@[x]) != kind_of(hand@[i as int]),
            decreases i - j,
        {
            if hand[j].tile_type().0 == k {
                first = false;
            }
            j += 1;
        }
        if first && kind_tiles(hand, k).len() == 4 {
            options.push(t);
        }
        i += 1;
    }
    if let Some(d) = drawn {
        if kind_tiles(hand, d.tile_type().0).len() == 3 {
            options.push(d);
        }
    }
    options
}

/// The added kans open to a player: for each pon, in call order, the
/// first hand tile of its kind and then the drawn tile when of its kind;
/// none when no tile is left to draw.
pub open spec fn kakan_options_spec(melds: Seq<Meld>, hand: Seq<Tile>, drawn: Option<Tile>, tiles_left: int) -> Seq<
    (usize, Tile),
> {
    if tiles_left == 0 {
        seq![]
    } else {
        kakans_upto(melds, hand, drawn, melds.len() as int)
    }
}

pub open spec fn kakans_upto(melds: Seq<Meld>, hand: Seq<Tile>, drawn: Option<Tile>, n: int) -> Seq<(usize, Tile)>
    decreases n,
{
    if n <= 0 {
        seq![]
    } else {
        let m = melds[n - 1];
        let k = kind_of(m.tiles@[0]);
        let f = tiles_of_kind(hand, k);
        kakans_upto(melds, hand, drawn, n - 1) + if m.kind is Pon {
            (if f.len() > 0 {
                seq![((n - 1) as usize, f[0])]
            } else {
                seq![]
            }) + match drawn {
                Some(d) => if kind_of(d) == k {
                    seq![((n - 1) as usize, d)]
                } else {
                    seq![]
                },
                None => seq![],
            }
        } else {
            seq![]
        }
    }
}

/// The added kans open to a player (see `kakan_options_spec`).
pub fn get_kakan_options(melds: &Vec<Meld>, hand: &Vec<Tile>, drawn: Option<Tile>, tiles_left: usize) -> (options: Vec<
    (usize, Tile),
>)
    requires
        forall|i: int| 0 <= i < melds@.len() ==> (#[trigger] melds@[i]).wf(),
    ensures
        options@ == kakan_options_spec(melds@, hand@, drawn, tiles_left as int),
{
    let mut options: Vec<(usize, Tile)> = Vec::new();
    if tiles_left == 0 {
        return options;
    }
    let mut i: usize = 0;
    while i < melds.len()
        invariant
            i <= melds@.len(),
            forall|x: int| 0 <= x < melds@.len() ==> (#[trigger] melds@[x]).wf(),
            options@ == kakans_upto(melds@, hand@, drawn, i as int),
        decreases melds@.len() - i,
    {
        let m = &melds[i];
        assert(melds@[i as int].wf());
        if let MeldKind::Pon = m.kind {
            let k = m.tiles[0].tile_type().0;
            let same = kind_tiles(hand, k);
            if same.len() > 0 {
                options.push((i, same[0]));
            }
            if let Some(d) = drawn {
                if d.tile_type().0 == k {
                    options.push((i, d));
                }
            }
        }
        i += 1;
    }
    options
}

} // verus!
