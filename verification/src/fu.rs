use vstd::prelude::*;
use crate::model::{
    HandShape,
    ClosedGroup, MentsuKind, WinSituation, WinningHand, WinningTilePlacement, YakuName, YakuResult,
};
use crate::tile::{Meld, MeldKind, TileType};

verus! {

pub open spec fn has_yaku(results: Seq<YakuResult>, name: YakuName) -> bool {
    exists|i: int| 0 <= i < results.len() && (#[trigger] results[i]).yaku == name
}

/// Fu of the pair: 2 for a dragon, 2 for the seat wind, 2 for the round
/// wind (a double wind pair gets 4).
pub open spec fn pair_fu(pair: TileType, situation: WinSituation) -> int {
    (if pair.spec_is_dragon() {
        2int
    } else {
        0int
    }) + (if pair == situation.seat_wind {
        2int
    } else {
        0int
    }) + (if pair == situation.field_wind {
        2int
    } else {
        0int
    })
}

/// Fu of the concealed group `index`: a concealed triplet 4 (8 with
/// terminals or honors), halved when a ron tile completed it; sequences 0.
pub open spec fn group_fu(
    index: int,
    g: ClosedGroup,
    situation: WinSituation,
    winning_tile: TileType,
    placement: WinningTilePlacement,
) -> int {
    match g.kind {
        MentsuKind::Koutsu => {
            let yao = g.tile_type.spec_is_yaochuuhai();
            let made_by_ron = !situation.is_tsumo && placement == WinningTilePlacement::Group(
                index as usize,
            ) && winning_tile == g.tile_type;
            if made_by_ron {
                if yao {
                    4
                } else {
                    2
                }
            } else if yao {
                8
            } else {
                4
            }
        },
        MentsuKind::Shuntsu => 0,
    }
}

pub open spec fn groups_fu(
    groups: Seq<ClosedGroup>,
    n: int,
    situation: WinSituation,
    winning_tile: TileType,
    placement: WinningTilePlacement,
) -> int
    decreases n,
{
    if n <= 0 {
        0
    } else {
        groups_fu(groups, n - 1, situation, winning_tile, placement) + group_fu(
            n - 1,
            groups[n - 1],
            situation,
            winning_tile,
            placement,
        )
    }
}

/// Fu of a call: pon 2, open kan 8, concealed kan 16, each doubled for
/// terminals and honors; chi 0.
pub open spec fn meld_fu(m: Meld) -> int {
    let yao = m.first_kind().spec_is_yaochuuhai();
    match m.kind {
        MeldKind::Ankan => if yao {
            32
        } else {
            16
        },
        MeldKind::Pon => if yao {
            4
        } else {
            2
        },
        MeldKind::Minkan | MeldKind::Kakan => if yao {
            16
        } else {
            8
        },
        MeldKind::Chi => 0,
    }
}

pub open spec fn melds_fu(melds: Seq<Meld>, n: int) -> int
    decreases n,
{
    if n <= 0 {
        0
    } else {
        melds_fu(melds, n - 1) + meld_fu(melds[n - 1])
    }
}

/// Wait fu: 2 for a pair wait, an edge wait (12 waiting on 3, 89 on 7) or
/// a closed wait (the middle tile of any sequence); 0 otherwise.
pub open spec fn wait_fu(groups: Seq<ClosedGroup>, winning_tile: TileType, placement: WinningTilePlacement) -> int {
    match placement {
        WinningTilePlacement::Pair => 2,
        WinningTilePlacement::Group(index) => if index < groups.len() && groups[index as int].kind
            == MentsuKind::Shuntsu && groups[index as int].tile_type.spec_suit()
            == winning_tile.spec_suit() {
            let start = groups[index as int].tile_type.spec_rank();
            let win = winning_tile.spec_rank();
            if (start == 1 && win == 3) || (start == 7 && win == 7) || (1 <= start <= 7 && win
                == start + 1) {
                2
            } else {
                0
            }
        } else {
            0
        },
        WinningTilePlacement::Special => 0,
    }
}

pub open spec fn all_concealed(melds: Seq<Meld>) -> bool {
    forall|i: int| 0 <= i < melds.len() ==> (#[trigger] melds[i]).spec_is_concealed()
}

/// The fu total before rounding.
pub open spec fn raw_fu(
    hand: HandShape,
    melds: Seq<Meld>,
    situation: WinSituation,
    winning_tile: TileType,
    placement: WinningTilePlacement,
) -> int {
    20 + (if situation.is_tsumo {
        2int
    } else {
        0int
    }) + (if !situation.is_tsumo && all_concealed(melds) {
        10int
    } else {
        0int
    }) + pair_fu(hand.spec_pair(), situation) + groups_fu(
        hand.spec_groups(),
        hand.spec_groups().len() as int,
        situation,
        winning_tile,
        placement,
    ) + melds_fu(melds, melds.len() as int) + wait_fu(hand.spec_groups(), winning_tile, placement)
}

/// Rounded up to ten, at least 30.
pub open spec fn round_fu(fu: int) -> int {
    let r = if fu > 0 && fu % 10 != 0 {
        (fu / 10 + 1) * 10
    } else {
        fu
    };
    if r < 30 {
        30
    } else {
        r
    }
}

/// The fu of a win: chiitoitsu 25, thirteen orphans 20, pinfu 20 on tsumo
/// and 30 on ron; otherwise 20 base, 2 for tsumo, 10 for a closed ron, and
/// the pair, groups, calls and wait, rounded up to ten and at least 30.
pub open spec fn fu_spec(
    hand: HandShape,
    melds: Seq<Meld>,
    yaku_results: Seq<YakuResult>,
    situation: WinSituation,
    winning_tile: TileType,
    placement: WinningTilePlacement,
) -> int {
    if has_yaku(yaku_results, YakuName::Chiitoitsu) {
        25
    } else if hand is Kokushi {
        20
    } else if has_yaku(yaku_results, YakuName::Pinfu) {
        if situation.is_tsumo {
            20
        } else {
            30
        }
    } else {
        round_fu(raw_fu(hand, melds, situation, winning_tile, placement))
    }
}

pub open spec fn melds_wf(melds: Seq<Meld>) -> bool {
    forall|i: int| 0 <= i < melds.len() ==> (#[trigger] melds[i]).wf()
}

fn contains_yaku(results: &[YakuResult], name: YakuName) -> (b: bool)
    ensures
        b == has_yaku(results@, name),
{
    let mut i: usize = 0;
    while i < results.len()
        invariant
            i <= results@.len(),
            forall|k: int| 0 <= k < i ==> results@[k].yaku != name,
        decreases results@.len() - i,
    {
        if results[i].yaku == name {
            return true;
        }
        i += 1;
    }
    false
}

proof fn lemma_groups_fu_bounds(
    groups: Seq<ClosedGroup>,
    n: int,
    situation: WinSituation,
    winning_tile: TileType,
    placement: WinningTilePlacement,
)
    requires
        0 <= n,
    ensures
        0 <= groups_fu(groups, n, situation, winning_tile, placement) <= 8 * n,
    decreases n,
{
    if n > 0 {
        lemma_groups_fu_bounds(groups, n - 1, situation, winning_tile, placement);
    }
}

proof fn lemma_melds_fu_bounds(melds: Seq<Meld>, n: int)
    requires
        0 <= n,
    ensures
        0 <= melds_fu(melds, n) <= 32 * n,
    decreases n,
{
    if n > 0 {
        lemma_melds_fu_bounds(melds, n - 1);
    }
}

/// The fu of one decomposition with one placement of the winning tile.
pub fn calculate_fu(
    hand: &WinningHand,
    melds: &[Meld],
    yaku_results: &[YakuResult],
    situation: &WinSituation,
    winning_tile: TileType,
    placement: WinningTilePlacement,
) -> (fu: u32)
    requires
        hand.wf(),
        winning_tile.wf(),
        melds_wf(melds@),
        melds@.len() + hand.spec_groups().len() <= 100_000_000,
    ensures
        fu == fu_spec(hand@, melds@, yaku_results@, *situation, winning_tile, placement),
{
    let has_pinfu = contains_yaku(yaku_results, YakuName::Pinfu);
    let has_chiitoitsu = contains_yaku(yaku_results, YakuName::Chiitoitsu);
    if has_chiitoitsu {
        return 25;
    }
    if let WinningHand::Kokushi { .. } = hand {
        return 20;
    }
    if has_pinfu {
        if situation.is_tsumo {
            return 20;
        } else {
            return 30;
        }
    }
    let mut fu: u32 = 20;
    if situation.is_tsumo {
        fu += 2;
    }
    let mut concealed = true;
    let mut k: usize = 0;
    while k < melds.len()
        invariant
            k <= melds@.len(),
            concealed == (forall|i: int| 0 <= i < k ==> (#[trigger] melds@[i]).spec_is_concealed()),
        decreases melds@.len() - k,
    {
        if !melds[k].is_concealed() {
            concealed = false;
        }
        k += 1;
    }
    if !situation.is_tsumo && concealed {
        fu += 10;
    }
    let jantai = hand.pair();
    if jantai.is_dragon() {
        fu += 2;
    }
    if jantai == situation.seat_wind {
        fu += 2;
    }
    if jantai == situation.field_wind {
        fu += 2;
    }
    let ghost fixed = fu;
    let groups = hand.groups();
    proof {
        lemma_groups_fu_bounds(hand.spec_groups(), groups@.len() as int, *situation, winning_tile, placement);
        lemma_melds_fu_bounds(melds@, melds@.len() as int);
    }
    let mut index: usize = 0;
    while index < groups.len()
        invariant
            index <= groups@.len(),
            groups@ == hand.spec_groups(),
            fixed <= 36,
            melds@.len() + groups@.len() <= 100_000_000,
            fu == fixed + groups_fu(groups@, index as int, *situation, winning_tile, placement),
        decreases groups@.len() - index,
    {
        proof {
            lemma_groups_fu_bounds(groups@, index + 1, *situation, winning_tile, placement);
        }
        let m = groups[index];
        let is_yao = m.tile_type.is_yaochuuhai();
        match m.kind {
            MentsuKind::Koutsu => {
                let made_by_ron = !situation.is_tsumo && placement == WinningTilePlacement::Group(
                    index,
                ) && winning_tile == m.tile_type;
                if made_by_ron {
                    fu += if is_yao {
                        4
                    } else {
                        2
                    };
                } else {
                    fu += if is_yao {
                        8
                    } else {
                        4
                    };
                }
            },
            MentsuKind::Shuntsu => {},
        }
        index += 1;
    }
    let ghost with_groups = fu;
    let mut i: usize = 0;
    while i < melds.len()
        invariant
            i <= melds@.len(),
            melds_wf(melds@),
            with_groups <= 36 + 8 * groups@.len(),
            melds@.len() + groups@.len() <= 100_000_000,
            fu == with_groups + melds_fu(melds@, i as int),
        decreases melds@.len() - i,
    {
        proof {
            lemma_melds_fu_bounds(melds@, i + 1);
        }
        let meld = &melds[i];
        let tt = meld.tiles[0].tile_type();
        let is_yao = tt.is_yaochuuhai();
        match meld.kind {
            MeldKind::Ankan => {
                fu += if is_yao {
                    32
                } else {
                    16
                };
            },
            MeldKind::Pon => {
                fu += if is_yao {
                    4
                } else {
                    2
                };
            },
            MeldKind::Minkan | MeldKind::Kakan => {
                fu += if is_yao {
                    16
                } else {
                    8
                };
            },
            MeldKind::Chi => {},
        }
        i += 1;
    }
    let wait: u32 = match placement {
        WinningTilePlacement::Pair => 2,
        WinningTilePlacement::Group(index) => {
            if index < groups.len() && groups[index].kind == MentsuKind::Shuntsu
                && groups[index].tile_type.suit() == winning_tile.suit() {
                let start = groups[index].tile_type.rank();
                let win_rank = winning_tile.rank();
                let edge_wait = (start == 1 && win_rank == 3) || (start == 7 && win_rank == 7);
                let closed_wait = 1 <= start && start <= 7 && win_rank as u32 == start as u32 + 1;
                if edge_wait || closed_wait {
                    2
                } else {
                    0
                }
            } else {
                0
            }
        },
        WinningTilePlacement::Special => 0,
    };
    fu += wait;
    assert(fu == raw_fu(hand@, melds@, *situation, winning_tile, placement));
    if fu > 0 && fu % 10 != 0 {
        fu = (fu / 10 + 1) * 10;
    }
    if fu < 30 {
        fu = 30;
    }
    fu
}

proof fn lemma_melds_fu_prefix(melds: Seq<Meld>, m: Meld, n: int)
    requires
        0 <= n <= melds.len(),
    ensures
        melds_fu(melds.push(m), n) == melds_fu(melds, n),
    decreases n,
{
    if n > 0 {
        lemma_melds_fu_prefix(melds, m, n - 1);
    }
}

proof fn lemma_melds_fu_push(melds: Seq<Meld>, m: Meld)
    ensures
        melds_fu(melds.push(m), melds.len() + 1int) == melds_fu(melds, melds.len() as int) + meld_fu(m),
{
    lemma_melds_fu_prefix(melds, m, melds.len() as int);
    assert(melds.push(m)[melds.len() as int] == m);
}

/// Adding a concealed kan to a hand's calls raises its unrounded fu by
/// exactly 16, or by 32 when the kan is of terminals or honors; the hand
/// stays closed, so a ron keeps its closed-ron bonus.
pub proof fn lemma_concealed_kan_fu(
    hand: HandShape,
    melds: Seq<Meld>,
    kan: Meld,
    situation: WinSituation,
    winning_tile: TileType,
    placement: WinningTilePlacement,
)
    requires
        kan.kind == MeldKind::Ankan,
    ensures
        raw_fu(hand, melds.push(kan), situation, winning_tile, placement) == raw_fu(
            hand,
            melds,
            situation,
            winning_tile,
            placement,
        ) + if kan.first_kind().spec_is_yaochuuhai() {
            32int
        } else {
            16int
        },
        !kan.first_kind().spec_is_yaochuuhai() ==> raw_fu(
            hand,
            melds.push(kan),
            situation,
            winning_tile,
            placement,
        ) == raw_fu(hand, melds, situation, winning_tile, placement) + 16,
{
    lemma_melds_fu_push(melds, kan);
    let pushed = melds.push(kan);
    assert(all_concealed(pushed) == all_concealed(melds)) by {
        if all_concealed(melds) {
            assert forall|i: int| 0 <= i < pushed.len() implies (#[trigger] pushed[i]).spec_is_concealed() by {
                if i < melds.len() {
                    assert(pushed[i] == melds[i]);
                }
            }
        }
        if all_concealed(pushed) {
            assert forall|i: int| 0 <= i < melds.len() implies (#[trigger] melds[i]).spec_is_concealed() by {
                assert(pushed[i] == melds[i]);
                assert(pushed[i].spec_is_concealed());
            }
        }
    }
}

/// An open call raises the unrounded fu by its own worth: a pon 2 (4 of
/// terminals or honors), an open kan, called or added, 8 (16), a chi
/// nothing; an open kan is worth half of a concealed kan of the same kind.
/// Stated where the closed-ron bonus cannot change: on a tsumo, or on a
/// hand that already has an open call.
pub proof fn lemma_open_call_fu(
    hand: HandShape,
    melds: Seq<Meld>,
    call: Meld,
    situation: WinSituation,
    winning_tile: TileType,
    placement: WinningTilePlacement,
)
    requires
        call.kind != MeldKind::Ankan,
        situation.is_tsumo || !all_concealed(melds),
    ensures
        ({
            let yao = call.first_kind().spec_is_yaochuuhai();
            let added = raw_fu(hand, melds.push(call), situation, winning_tile, placement) - raw_fu(
                hand,
                melds,
                situation,
                winning_tile,
                placement,
            );
            &&& call.kind == MeldKind::Pon ==> added == if yao {
                4int
            } else {
                2int
            }
            &&& (call.kind == MeldKind::Minkan || call.kind == MeldKind::Kakan) ==> added == if yao {
                16int
            } else {
                8int
            }
            &&& call.kind == MeldKind::Chi ==> added == 0
        }),
        (call.kind == MeldKind::Minkan || call.kind == MeldKind::Kakan) ==> meld_fu(
            Meld { kind: MeldKind::Ankan, ..call },
        ) == 2 * meld_fu(call),
{
    lemma_melds_fu_push(melds, call);
    let pushed = melds.push(call);
    assert(!pushed[melds.len() as int].spec_is_concealed());
    assert(!all_concealed(pushed));
}

/// Fu is always 25 (seven pairs) or a multiple of ten, at least 20.
pub proof fn lemma_fu_is_a_round_number(
    hand: HandShape,
    melds: Seq<Meld>,
    yaku_results: Seq<YakuResult>,
    situation: WinSituation,
    winning_tile: TileType,
    placement: WinningTilePlacement,
)
    ensures
        ({
            let fu = fu_spec(hand, melds, yaku_results, situation, winning_tile, placement);
            fu == 25 || (fu % 10 == 0 && fu >= 20)
        }),
{
}

} // verus!
