use riichi::counts::TileCounts;
use riichi::shanten::{calculate, calculate_normal, calculate_seven_pairs, calculate_thirteen_orphans, ShantenCalculator};
use riichi::tile::Tile;

fn counts(s: &str) -> [u8; 34] {
    let mut ret = [0u8; 34];
    let mut digits: Vec<usize> = Vec::new();
    for b in s.as_bytes() {
        match b {
            b'0'..=b'9' => digits.push((b - b'0') as usize),
            b'm' | b'p' | b's' | b'z' => {
                let kind = match b {
                    b'm' => 0,
                    b'p' => 1,
                    b's' => 2,
                    _ => 3,
                };
                for &t in &digits {
                    let idx = if t == 0 { 34 + kind } else { kind * 9 + t - 1 };
                    if idx < 34 {
                        ret[idx] += 1;
                    }
                }
                digits.clear();
            }
            b' ' | b'\t' | b'\n' => {}
            _ => panic!("unexpected byte: {b}"),
        }
    }
    ret
}

#[test]
fn test_3n_plus_1() {
    assert_eq!(calculate(&counts("1111m 333p 222s 444z"), 4), 1);
    assert_eq!(calculate(&counts("147m 258p 369s 1234z"), 4), 6);
    assert_eq!(calculate(&counts("468m 33346p 7s"), 3), 2);
    assert_eq!(calculate(&counts("147m 258p 3s"), 2), 4);
    assert_eq!(calculate(&counts("4455s"), 1), 0);
    assert_eq!(calculate(&counts("7z"), 0), 0);
    assert_eq!(calculate(&counts("15559m 19p 19s 1234z"), 4), 3);
    assert_eq!(calculate(&counts("9999m 6677p 88s 355z"), 4), 2);
    assert_eq!(calculate(&counts("19m 19p 159s 123456z"), 4), 1);
}

#[test]
fn test_3n_plus_2() {
    assert_eq!(calculate(&counts("2344456m 14p 127s 2z 7p"), 4), 3);
    assert_eq!(calculate(&counts("2344456m 14p 127s 2z 5p"), 4), 2);
    assert_eq!(calculate(&counts("344455667p 1139s 9m"), 4), 2);
    assert_eq!(calculate(&counts("344455667p 1139s 9p"), 4), 1);
    assert_eq!(calculate(&counts("122334m 678p 37s 22z 5s"), 4), 0);
    assert_eq!(calculate(&counts("122334m 678p 12s 22z 4s"), 4), 0);
    assert_eq!(calculate(&counts("12223456m 78889p 2m"), 4), -1);
    assert_eq!(calculate(&counts("34778p"), 1), 0);
    assert_eq!(calculate(&counts("34s"), 0), 0);
    assert_eq!(calculate(&counts("55m"), 0), -1);
}

#[test]
fn test_seven_pairs() {
    assert_eq!(
        calculate_seven_pairs(&counts("11m 33p 55s 11z 77z 55m 22p")),
        -1
    );
    assert_eq!(calculate_seven_pairs(&counts("112233m 44556z")), 2);
}

#[test]
fn test_thirteen_orphans() {
    assert_eq!(
        calculate_thirteen_orphans(&counts("19m 19p 19s 1234567z")),
        0
    );
    assert_eq!(
        calculate_thirteen_orphans(&counts("19m 19p 19s 1234567z 1m")),
        -1
    );
}

#[test]
fn test_complete_hand() {
    assert_eq!(calculate(&counts("122334m 678p 12s 22z 4s"), 4), 0);
}

#[test]
fn complete_hand_is_minus_one_on_every_path() {
    let c = counts("123m 456p 789s 111z 22z");
    assert_eq!(calculate_normal(&c, 4), -1);
    assert_eq!(calculate(&c, 4), -1);
    let calc = ShantenCalculator::new();
    assert_eq!(calc.lookup(&TileCounts(c)), -1);
}

#[test]
fn calculator_reads_tiles_and_counts_alike() {
    // 123m 456p 789s 11z 2z as physical tiles (kind * 4 + copy).
    let kinds = [0u8, 1, 2, 12, 13, 14, 24, 25, 26, 27, 27, 28, 28, 29];
    let tiles: Vec<Tile> = kinds.iter().enumerate().map(|(i, &k)| Tile(k * 4 + (i % 2) as u8)).collect();
    let calc = ShantenCalculator::new();
    let c = TileCounts::from_tiles(&tiles);
    assert_eq!(calc.calculate(&tiles), calc.lookup(&c));
    // Three pairs-or-sets short of nothing: 123m 456p 789s, pairs 1z 2z, single 3z.
    assert_eq!(calc.calculate(&tiles), 0);
}

#[test]
fn seven_pairs_beats_a_poor_standard_shape() {
    let c = counts("1199m 1199p 1199s 1z");
    assert_eq!(calculate_seven_pairs(&c), 0);
    assert_eq!(calculate(&c, 4), 0);
}
