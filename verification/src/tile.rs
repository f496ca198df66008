use vstd::prelude::*;
use crate::player::PlayerId;

verus! {

/// One of the 34 tile kinds: 0..=8 characters (1m..9m), 9..=17 circles,
/// 18..=26 bamboo, 27..=30 winds (E S W N), 31..=33 dragons (P F C).
#[derive(Debug, Clone, Copy, PartialEq, Eq, Hash, Structural)]
pub struct TileType(pub u8);

/// The suit of a tile kind.
#[derive(Debug, Clone, Copy, PartialEq, Eq, Structural)]
pub enum Suit {
    Man,
    Pin,
    Sou,
    Wind,
    Dragon,
}

/// A physical tile, 0..136: kind `raw / 4`, copy `raw % 4`.
#[derive(Debug, Clone, Copy, PartialEq, Eq, Hash, Structural)]
pub struct Tile(pub u8);

impl TileType {
    pub fn east() -> (t: TileType)
        ensures
            t.0 == 27,
    {
        TileType(27)
    }

    pub fn south() -> (t: TileType)
        ensures
            t.0 == 28,
    {
        TileType(28)
    }

    pub fn haku() -> (t: TileType)
        ensures
            t.0 == 31,
    {
        TileType(31)
    }

    /// A valid tile kind index.
    pub open spec fn wf(self) -> bool {
        self.0 < 34
    }

    pub open spec fn spec_is_number(self) -> bool {
        self.0 < 27
    }

    pub open spec fn spec_is_honor(self) -> bool {
        27 <= self.0
    }

    pub open spec fn spec_is_wind(self) -> bool {
        27 <= self.0 && self.0 <= 30
    }

    pub open spec fn spec_is_dragon(self) -> bool {
        31 <= self.0 && self.0 <= 33
    }

    /// A number tile of rank 1 or 9.
    pub open spec fn spec_is_terminal(self) -> bool {
        self.0 < 27 && (self.0 % 9 == 0 || self.0 % 9 == 8)
    }

    /// Terminals and honors.
    pub open spec fn spec_is_yaochuuhai(self) -> bool {
        self.spec_is_terminal() || self.spec_is_honor()
    }

    pub open spec fn spec_suit(self) -> Suit {
        if self.0 < 9 {
            Suit::Man
        } else if self.0 < 18 {
            Suit::Pin
        } else if self.0 < 27 {
            Suit::Sou
        } else if self.0 < 31 {
            Suit::Wind
        } else {
            Suit::Dragon
        }
    }

    /// Rank within the suit: 1..=9 for numbers, 1..=4 for winds, 1..=3 for dragons.
    pub open spec fn spec_rank(self) -> u8 {
        if self.0 < 27 {
            (self.0 % 9 + 1) as u8
        } else if self.0 < 31 {
            (self.0 - 26) as u8
        } else {
            (self.0 - 30) as u8
        }
    }

    #[verifier::when_used_as_spec(spec_is_number)]
    pub fn is_number(self) -> (b: bool)
        ensures
            b == self.spec_is_number(),
    {
        self.0 < 27
    }

    #[verifier::when_used_as_spec(spec_is_honor)]
    pub fn is_honor(self) -> (b: bool)
        ensures
            b == self.spec_is_honor(),
    {
        27 <= self.0
    }

    #[verifier::when_used_as_spec(spec_is_wind)]
    pub fn is_wind(self) -> (b: bool)
        ensures
            b == self.spec_is_wind(),
    {
        27 <= self.0 && self.0 <= 30
    }

    #[verifier::when_used_as_spec(spec_is_dragon)]
    pub fn is_dragon(self) -> (b: bool)
        ensures
            b == self.spec_is_dragon(),
    {
        31 <= self.0 && self.0 <= 33
    }

    #[verifier::when_used_as_spec(spec_is_terminal)]
    pub fn is_terminal(self) -> (b: bool)
        ensures
            b == self.spec_is_terminal(),
    {
        self.0 < 27 && (self.0 % 9 == 0 || self.0 % 9 == 8)
    }

    #[verifier::when_used_as_spec(spec_is_yaochuuhai)]
    pub fn is_yaochuuhai(self) -> (b: bool)
        ensures
            b == self.spec_is_yaochuuhai(),
    {
        self.is_terminal() || self.is_honor()
    }

    #[verifier::when_used_as_spec(spec_suit)]
    pub fn suit(self) -> (s: Suit)
        ensures
            s == self.spec_suit(),
    {
        if self.0 < 9 {
            Suit::Man
        } else if self.0 < 18 {
            Suit::Pin
        } else if self.0 < 27 {
            Suit::Sou
        } else if self.0 < 31 {
            Suit::Wind
        } else {
            Suit::Dragon
        }
    }

    #[verifier::when_used_as_spec(spec_rank)]
    pub fn rank(self) -> (r: u8)
        requires
            self.wf(),
        ensures
            r == self.spec_rank(),
    {
        if self.0 < 27 {
            self.0 % 9 + 1
        } else if self.0 < 31 {
            self.0 - 26
        } else {
            self.0 - 30
        }
    }

    /// The physical tile of this kind with the given copy index.
    pub fn with_copy(self, copy: u8) -> (t: Tile)
        requires
            self.wf(),
            copy < 4,
        ensures
            t.0 == 4 * self.0 + copy,
            t.wf(),
            t.spec_tile_type() == self,
            t.spec_copy_index() == copy,
    {
        Tile(self.0 * 4 + copy)
    }
}

impl Tile {
    pub open spec fn wf(self) -> bool {
        self.0 < 136
    }

    pub open spec fn spec_tile_type(self) -> TileType {
        TileType(self.0 / 4)
    }

    pub open spec fn spec_copy_index(self) -> u8 {
        self.0 % 4
    }

    pub fn from_raw(raw: u8) -> (t: Tile)
        ensures
            t.0 == raw,
    {
        Tile(raw)
    }

    #[verifier::when_used_as_spec(spec_tile_type)]
    pub fn tile_type(self) -> (t: TileType)
        ensures
            t == self.spec_tile_type(),
            self.wf() ==> t.wf(),
    {
        TileType(self.0 / 4)
    }

    #[verifier::when_used_as_spec(spec_copy_index)]
    pub fn copy_index(self) -> (c: u8)
        ensures
            c == self.spec_copy_index(),
    {
        self.0 % 4
    }
}

/// The kind of an open or concealed call.
#[derive(Debug, Clone, Copy, PartialEq, Eq, Structural)]
pub enum MeldKind {
    Chi,
    Pon,
    Minkan,
    Kakan,
    Ankan,
}

/// A called group of tiles, and the seat whose discard was called (none
/// for a closed kan).
#[derive(Debug, Clone)]
pub struct Meld {
    pub kind: MeldKind,
    pub tiles: Vec<Tile>,
    pub from_player: Option<PlayerId>,
}

/// Three consecutive kinds of one number suit starting at `start`.
pub open spec fn is_sequence_start(start: TileType) -> bool {
    start.0 < 27 && start.0 % 9 <= 6
}

impl Meld {
    /// A chi holds three tiles forming a sequence; a pon three tiles of one
    /// kind; a kan four tiles of one kind.
    pub open spec fn wf(&self) -> bool {
        &&& forall|i: int| 0 <= i < self.tiles@.len() ==> (#[trigger] self.tiles@[i]).wf()
        &&& match self.kind {
            MeldKind::Chi => self.tiles@.len() == 3 && is_sequence_start(self.spec_low())
                && self.kind_at(0) != self.kind_at(1) && self.kind_at(0) != self.kind_at(2)
                && self.kind_at(1) != self.kind_at(2) && (forall|i: int|
                0 <= i < 3 ==> self.spec_low().0 <= #[trigger] self.kind_at(i) <= self.spec_low().0
                + 2),
            MeldKind::Pon => self.tiles@.len() == 3 && self.same_kind(),
            _ => self.tiles@.len() == 4 && self.same_kind(),
        }
    }

    /// The kind index of the `i`-th tile.
    pub open spec fn kind_at(&self, i: int) -> u8 {
        self.tiles@[i].spec_tile_type().0
    }

    /// All tiles share the kind of the first one.
    pub open spec fn same_kind(&self) -> bool {
        forall|i: int| 0 <= i < self.tiles@.len() ==> (#[trigger] self.tiles@[i]).spec_tile_type()
            == self.tiles@[0].spec_tile_type()
    }

    /// The lowest kind among the tiles.
    pub open spec fn spec_low(&self) -> TileType {
        let k = self.tiles@.map_values(|t: Tile| t.spec_tile_type().0);
        TileType(if k.len() == 0 { 0 } else if k.len() == 1 { k[0] } else if k.len() == 2 {
            min_u8(k[0], k[1])
        } else {
            min_u8(k[0], min_u8(k[1], k[2]))
        })
    }

    /// The kind of the first tile.
    pub open spec fn first_kind(&self) -> TileType {
        self.tiles@[0].spec_tile_type()
    }

    pub open spec fn spec_is_concealed(&self) -> bool {
        self.kind == MeldKind::Ankan
    }

    /// A concealed kan is the only call that keeps the hand closed.
    #[verifier::when_used_as_spec(spec_is_concealed)]
    pub fn is_concealed(&self) -> (b: bool)
        ensures
            b == self.spec_is_concealed(),
    {
        self.kind == MeldKind::Ankan
    }
}

pub open spec fn min_u8(a: u8, b: u8) -> u8 {
    if a <= b {
        a
    } else {
        b
    }
}

} // verus!
