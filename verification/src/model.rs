use vstd::prelude::*;
use crate::tile::{Suit, TileType};

verus! {

/// The yaku, and the dora that the han count adds.
#[derive(Debug, Clone, Copy, PartialEq, Eq, Hash, Structural)]
pub enum YakuName {
    Riichi,
    MenzenTsumo,
    Ippatsu,
    Tanyao,
    Pinfu,
    Iipeiko,
    YakuhaiJikaze,
    YakuhaiBakaze,
    YakuhaiSangen,
    RinshanKaihou,
    Chankan,
    Haitei,
    Houtei,
    DoubleRiichi,
    Chiitoitsu,
    Toitoi,
    Sananko,
    Sankantsu,
    SanshokuDoukou,
    Shousangen,
    Honroutou,
    Honchantai,
    SanshokuDoujun,
    Ittsu,
    Honitsu,
    Junchan,
    Ryanpeiko,
    Chinitsu,
    Tenhou,
    Chiihou,
    Kokushi,
    Suuankou,
    Daisangen,
    Shousuushii,
    Tsuuiisou,
    Ryuuiisou,
    Chinroutou,
    ChuurenPoutou,
    Suukantsu,
    Kokushi13,
    SuuankouTanki,
    Daisuushii,
    ChuurenPoutou9,
    Dora,
    AkaDora,
    UraDora,
}

/// One yaku and the han it is worth.
#[derive(Debug, Clone, Copy, PartialEq, Eq, Structural)]
pub struct YakuResult {
    pub yaku: YakuName,
    pub han: u8,
}

impl YakuResult {
    pub fn new(yaku: YakuName, han: u8) -> (r: Self)
        ensures
            r == (YakuResult { yaku, han }),
    {
        YakuResult { yaku, han }
    }
}

/// The situation of a win; the project plays one fixed rule set.
#[derive(Debug, Clone, Copy)]
pub struct WinSituation {
    pub is_tsumo: bool,
    pub is_riichi: bool,
    pub is_double_riichi: bool,
    pub is_ippatsu: bool,
    pub is_rinshan: bool,
    pub is_chankan: bool,
    pub is_haitei: bool,
    pub is_houtei: bool,
    /// The dealer wins on the first draw before any discard.
    pub is_tenhou: bool,
    /// A non-dealer wins on the first own draw, before any discard or call.
    pub is_chiihou: bool,
    pub seat_wind: TileType,
    pub field_wind: TileType,
}

/// Seats and table sticks for settling a win.
#[derive(Debug, Clone, Copy)]
pub struct SettlementContext {
    pub dealer: usize,
    pub winner: usize,
    pub loser: Option<usize>,
    /// The seat liable for a yakuman (pao).
    pub pao_target: Option<usize>,
    pub honba: u32,
    pub riichi_sticks: u32,
}

/// A group of the concealed part: sequence or triplet.
#[derive(Debug, Clone, Copy, PartialEq, Eq, Structural)]
pub enum MentsuKind {
    Shuntsu,
    Koutsu,
}

/// A concealed group, by its kind and lowest tile kind.
#[derive(Debug, Clone, Copy, PartialEq, Eq, Structural)]
pub struct ClosedGroup {
    pub kind: MentsuKind,
    pub tile_type: TileType,
}

impl ClosedGroup {
    pub open spec fn spec_contains(&self, t: TileType) -> bool {
        match self.kind {
            MentsuKind::Shuntsu => self.tile_type.spec_suit() == t.spec_suit() && self.tile_type.0
                <= t.0 <= self.tile_type.0 + 2,
            MentsuKind::Koutsu => self.tile_type == t,
        }
    }

    /// Whether a tile of kind `t` belongs to the group.
    #[verifier::when_used_as_spec(spec_contains)]
    pub fn contains(&self, t: TileType) -> (b: bool)
        ensures
            b == self.spec_contains(t),
    {
        match self.kind {
            MentsuKind::Shuntsu => self.tile_type.suit() == t.suit() && self.tile_type.0 <= t.0
                && t.0 as u32 <= self.tile_type.0 as u32 + 2,
            MentsuKind::Koutsu => self.tile_type == t,
        }
    }

    /// A sequence starts at a number kind of rank 1..=7; a triplet is of any kind.
    pub open spec fn wf(&self) -> bool {
        &&& self.tile_type.wf()
        &&& self.kind == MentsuKind::Shuntsu ==> crate::tile::is_sequence_start(self.tile_type)
    }

    /// The tile kinds of the group.
    pub open spec fn kinds(&self) -> Seq<TileType> {
        match self.kind {
            MentsuKind::Shuntsu => seq![
                self.tile_type,
                TileType((self.tile_type.0 + 1) as u8),
                TileType((self.tile_type.0 + 2) as u8),
            ],
            MentsuKind::Koutsu => seq![self.tile_type, self.tile_type, self.tile_type],
        }
    }
}

/// Which part of a decomposition the winning tile completed.
#[derive(Debug, Clone, Copy, PartialEq, Eq, Structural)]
pub enum WinningTilePlacement {
    Pair,
    Group(usize),
    Special,
}

/// The three shapes of a complete hand.
#[derive(Debug, Clone, Copy, PartialEq, Eq, Structural)]
pub enum HandType {
    Standard,
    SevenPairs,
    Kokushi,
}

/// A complete hand split into its shape.
#[derive(Debug, Clone, PartialEq, Eq)]
pub enum WinningHand {
    Standard { pair: TileType, groups: Vec<ClosedGroup> },
    SevenPairs { pairs: [TileType; 7] },
    Kokushi { pair: TileType },
}

/// The thirteen terminal and honor kinds, in table order.
pub open spec fn yaochuuhai_kinds() -> Seq<TileType> {
    seq![
        TileType(0),
        TileType(8),
        TileType(9),
        TileType(17),
        TileType(18),
        TileType(26),
        TileType(27),
        TileType(28),
        TileType(29),
        TileType(30),
        TileType(31),
        TileType(32),
        TileType(33),
    ]
}

/// The kinds of the groups `0..n`, in order.
pub open spec fn groups_kinds(groups: Seq<ClosedGroup>, n: int) -> Seq<TileType>
    decreases n,
{
    if n <= 0 {
        seq![]
    } else {
        groups_kinds(groups, n - 1) + groups[n - 1].kinds()
    }
}

/// The kinds of the seven pairs `0..n`, each twice.
pub open spec fn pairs_kinds(pairs: Seq<TileType>, n: int) -> Seq<TileType>
    decreases n,
{
    if n <= 0 {
        seq![]
    } else {
        pairs_kinds(pairs, n - 1) + seq![pairs[n - 1], pairs[n - 1]]
    }
}

/// Indices `< n` of the groups that contain `t`, as `Group` placements.
pub open spec fn group_placements(groups: Seq<ClosedGroup>, t: TileType, n: int) -> Seq<
    WinningTilePlacement,
>
    decreases n,
{
    if n <= 0 {
        seq![]
    } else {
        group_placements(groups, t, n - 1) + if groups[n - 1].spec_contains(t) {
            seq![WinningTilePlacement::Group((n - 1) as usize)]
        } else {
            seq![]
        }
    }
}

/// The shape of a decomposition, as a mathematical value.
pub ghost enum HandShape {
    Standard { pair: TileType, groups: Seq<ClosedGroup> },
    SevenPairs { pairs: Seq<TileType> },
    Kokushi { pair: TileType },
}

impl HandShape {
    /// The pair (the first pair of seven pairs).
    pub open spec fn spec_pair(self) -> TileType {
        match self {
            HandShape::Standard { pair, .. } => pair,
            HandShape::Kokushi { pair } => pair,
            HandShape::SevenPairs { pairs } => pairs[0],
        }
    }

    /// The concealed groups (none for the special shapes).
    pub open spec fn spec_groups(self) -> Seq<ClosedGroup> {
        match self {
            HandShape::Standard { groups, .. } => groups,
            _ => seq![],
        }
    }

    pub open spec fn is_standard(self) -> bool {
        self is Standard
    }

    /// The tile kinds of the whole hand: the pair twice and each group, the
    /// seven pairs twice each, or the thirteen orphans and the pair.
    pub open spec fn spec_all_tiles(self) -> Seq<TileType> {
        match self {
            HandShape::Standard { pair, groups } => seq![pair, pair] + groups_kinds(
                groups,
                groups.len() as int,
            ),
            HandShape::SevenPairs { pairs } => pairs_kinds(pairs, 7),
            HandShape::Kokushi { pair } => yaochuuhai_kinds().push(pair),
        }
    }

    /// Kinds valid, at most four groups, each well formed.
    pub open spec fn wf(self) -> bool {
        match self {
            HandShape::Standard { pair, groups } => pair.wf() && groups.len() <= 4 && forall|i: int|
                0 <= i < groups.len() ==> (#[trigger] groups[i]).wf(),
            HandShape::SevenPairs { pairs } => pairs.len() == 7 && forall|i: int|
                0 <= i < 7 ==> (#[trigger] pairs[i]).wf(),
            HandShape::Kokushi { pair } => pair.wf(),
        }
    }

    /// Every part of this decomposition that the winning tile may have
    /// completed: the pair, each group containing it (in order), or for
    /// thirteen orphans the single terminal or honor.
    pub open spec fn spec_placements(self, w: TileType) -> Seq<WinningTilePlacement> {
        match self {
            HandShape::Standard { pair, groups } => (if pair == w {
                seq![WinningTilePlacement::Pair]
            } else {
                seq![]
            }) + group_placements(groups, w, groups.len() as int),
            HandShape::SevenPairs { pairs } => if pairs.contains(w) {
                seq![WinningTilePlacement::Pair]
            } else {
                seq![]
            },
            HandShape::Kokushi { pair } => if pair == w {
                seq![WinningTilePlacement::Pair]
            } else if w.spec_is_yaochuuhai() {
                seq![WinningTilePlacement::Special]
            } else {
                seq![]
            },
        }
    }
}

impl View for WinningHand {
    type V = HandShape;

    open spec fn view(&self) -> HandShape {
        match self {
            WinningHand::Standard { pair, groups } => HandShape::Standard { pair: *pair, groups: groups@ },
            WinningHand::SevenPairs { pairs } => HandShape::SevenPairs { pairs: pairs@ },
            WinningHand::Kokushi { pair } => HandShape::Kokushi { pair: *pair },
        }
    }
}

impl WinningHand {
    /// The shape of the hand.
    pub fn hand_type(&self) -> (t: HandType)
        ensures
            t == (match self@ {
                HandShape::Standard { .. } => HandType::Standard,
                HandShape::SevenPairs { .. } => HandType::SevenPairs,
                HandShape::Kokushi { .. } => HandType::Kokushi,
            }),
    {
        match self {
            WinningHand::Standard { .. } => HandType::Standard,
            WinningHand::SevenPairs { .. } => HandType::SevenPairs,
            WinningHand::Kokushi { .. } => HandType::Kokushi,
        }
    }

    pub open spec fn spec_pair(&self) -> TileType {
        self@.spec_pair()
    }

    pub open spec fn spec_groups(&self) -> Seq<ClosedGroup> {
        self@.spec_groups()
    }

    pub open spec fn is_standard(&self) -> bool {
        self@.is_standard()
    }

    /// Kinds valid, at most four groups, each well formed.
    pub open spec fn wf(&self) -> bool {
        self@.wf()
    }

    /// The pair of the hand (the first pair of seven pairs).
    #[verifier::when_used_as_spec(spec_pair)]
    pub fn pair(&self) -> (t: TileType)
        ensures
            t == self.spec_pair(),
    {
        match self {
            WinningHand::Standard { pair, .. } => *pair,
            WinningHand::Kokushi { pair } => *pair,
            WinningHand::SevenPairs { pairs } => pairs[0],
        }
    }

    /// The concealed groups (none for the special shapes).
    pub fn groups(&self) -> (g: &[ClosedGroup])
        ensures
            g@ == self.spec_groups(),
    {
        match self {
            WinningHand::Standard { groups, .. } => groups.as_slice(),
            _ => &[],
        }
    }

    /// Every part of this decomposition that the winning tile may have
    /// completed: the pair, each group containing it (in order), or for
    /// thirteen orphans the single terminal or honor.
    pub open spec fn spec_placements(&self, w: TileType) -> Seq<WinningTilePlacement> {
        self@.spec_placements(w)
    }

    pub fn winning_tile_placements(&self, winning_tile: TileType) -> (v: Vec<WinningTilePlacement>)
        ensures
            v@ == self.spec_placements(winning_tile),
    {
        match self {
            WinningHand::Standard { pair, groups } => {
                let mut placements: Vec<WinningTilePlacement> = Vec::new();
                if *pair == winning_tile {
                    placements.push(WinningTilePlacement::Pair);
                }
                let ghost start = placements@;
                let mut i: usize = 0;
                while i < groups.len()
                    invariant
                        i <= groups@.len(),
                        placements@ == start + group_placements(groups@, winning_tile, i as int),
                    decreases groups@.len() - i,
                {
                    if groups[i].contains(winning_tile) {
                        placements.push(WinningTilePlacement::Group(i));
                    }
                    proof {
                        assert(start + group_placements(groups@, winning_tile, i + 1) =~= start
                            + group_placements(groups@, winning_tile, i as int) + (if groups@[i as int].spec_contains(winning_tile) {
                            seq![WinningTilePlacement::Group(i)]
                        } else {
                            seq![]
                        }));
                    }
                    i += 1;
                }
                placements
            },
            WinningHand::SevenPairs { pairs } => {
                let mut found = false;
                let mut i: usize = 0;
                while i < 7
                    invariant
                        i <= 7,
                        found == (exists|k: int| 0 <= k < i && pairs@[k] == winning_tile),
                    decreases 7 - i,
                {
                    if pairs[i] == winning_tile {
                        found = true;
                    }
                    i += 1;
                }
                let mut v: Vec<WinningTilePlacement> = Vec::new();
                if found {
                    v.push(WinningTilePlacement::Pair);
                    assert(pairs@.contains(winning_tile));
                } else {
                    assert(!pairs@.contains(winning_tile));
                }
                v
            },
            WinningHand::Kokushi { pair } => {
                let mut v: Vec<WinningTilePlacement> = Vec::new();
                if *pair == winning_tile {
                    v.push(WinningTilePlacement::Pair);
                } else if winning_tile.is_yaochuuhai() {
                    v.push(WinningTilePlacement::Special);
                }
                v
            },
        }
    }

    /// The tile kinds of the whole hand: the pair twice and each group, the
    /// seven pairs twice each, or the thirteen orphans and the pair.
    pub open spec fn spec_all_tiles(&self) -> Seq<TileType> {
        self@.spec_all_tiles()
    }

    pub fn all_tiles(&self) -> (v: Vec<TileType>)
        requires
            self.wf(),
        ensures
            v@ == self.spec_all_tiles(),
    {
        match self {
            WinningHand::Standard { pair, groups } => {
                let mut tiles: Vec<TileType> = Vec::new();
                tiles.push(*pair);
                tiles.push(*pair);
                let mut i: usize = 0;
                while i < groups.len()
                    invariant
                        i <= groups@.len(),
                        forall|k: int| 0 <= k < groups@.len() ==> (#[trigger] groups@[k]).wf(),
                        tiles@ == seq![*pair, *pair] + groups_kinds(groups@, i as int),
                    decreases groups@.len() - i,
                {
                    let g = groups[i];
                    match g.kind {
                        MentsuKind::Shuntsu => {
                            tiles.push(g.tile_type);
                            tiles.push(TileType(g.tile_type.0 + 1));
                            tiles.push(TileType(g.tile_type.0 + 2));
                        },
                        MentsuKind::Koutsu => {
                            tiles.push(g.tile_type);
                            tiles.push(g.tile_type);
                            tiles.push(g.tile_type);
                        },
                    }
                    proof {
                        assert(seq![*pair, *pair] + groups_kinds(groups@, i + 1) =~= seq![*pair, *pair]
                            + groups_kinds(groups@, i as int) + groups@[i as int].kinds());
                    }
                    i += 1;
                }
                tiles
            },
            WinningHand::SevenPairs { pairs } => {
                let mut tiles: Vec<TileType> = Vec::new();
                let mut i: usize = 0;
                while i < 7
                    invariant
                        i <= 7,
                        tiles@ == pairs_kinds(pairs@, i as int),
                    decreases 7 - i,
                {
                    tiles.push(pairs[i]);
                    tiles.push(pairs[i]);
                    proof {
                        assert(pairs_kinds(pairs@, i + 1) =~= pairs_kinds(pairs@, i as int) + seq![
                            pairs@[i as int],
                            pairs@[i as int],
                        ]);
                    }
                    i += 1;
                }
                tiles
            },
            WinningHand::Kokushi { pair } => {
                let mut tiles: Vec<TileType> = Vec::new();
                tiles.push(TileType(0));
                tiles.push(TileType(8));
                tiles.push(TileType(9));
                tiles.push(TileType(17));
                tiles.push(TileType(18));
                tiles.push(TileType(26));
                tiles.push(TileType(27));
                tiles.push(TileType(28));
                tiles.push(TileType(29));
                tiles.push(TileType(30));
                tiles.push(TileType(31));
                tiles.push(TileType(32));
                tiles.push(TileType(33));
                tiles.push(*pair);
                assert(tiles@ =~= yaochuuhai_kinds().push(*pair));
                tiles
            },
        }
    }
}

/// Dora found in a winning hand.
#[derive(Debug, Clone, Copy, PartialEq, Eq, Structural)]
pub struct DoraResult {
    pub dora: u8,
    pub aka_dora: u8,
    pub ura_dora: u8,
}

impl Default for DoraResult {
    fn default() -> (d: Self)
        ensures
            d == (DoraResult { dora: 0, aka_dora: 0, ura_dora: 0 }),
    {
        DoraResult { dora: 0, aka_dora: 0, ura_dora: 0 }
    }
}

impl DoraResult {
    pub open spec fn spec_total(&self) -> int {
        self.dora + self.aka_dora + self.ura_dora
    }

    pub fn total(&self) -> (t: u8)
        requires
            self.spec_total() <= 255,
        ensures
            t == self.spec_total(),
    {
        self.dora + self.aka_dora + self.ura_dora
    }

    pub fn is_empty(&self) -> (b: bool)
        requires
            self.spec_total() <= 255,
        ensures
            b == (self.spec_total() == 0),
    {
        self.total() == 0
    }
}

/// The settled result of a win.
#[derive(Debug, Clone)]
pub struct WinResult {
    pub yaku_results: Vec<YakuResult>,
    pub total_han: u8,
    pub fu: u32,
    pub points: [i32; 4],
}

/// The shape of a wait.
#[derive(Debug, Clone, Copy, PartialEq, Eq, Structural)]
pub enum WaitType {
    Ryanmen,
    Kanchan,
    Penchan,
    Shanpon,
    Tanki,
}

/// The wait shapes under which a kind completes the hand.
#[derive(Debug, Clone)]
pub struct WaitTileInfo {
    pub tile_type: TileType,
    pub wait_types: Vec<WaitType>,
}

} // verus!
