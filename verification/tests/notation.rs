use riichi::notation::{parse_tile_types, parse_tiles, tokenize, ParseError};
use riichi::tile::{Tile, TileType};

#[test]
fn tiles_are_rank_then_suit() {
    assert_eq!(
        parse_tile_types(" 1m 9p5s 7z ").unwrap(),
        vec![TileType(0), TileType(17), TileType(22), TileType(33)]
    );
    assert_eq!(parse_tile_types("3M4P").unwrap(), vec![TileType(2), TileType(12)]);
}

#[test]
fn repeat_marks_copy_the_tile() {
    assert_eq!(tokenize("1z×3 2zx2").unwrap(), vec![TileType(27); 3].into_iter().chain(vec![TileType(28); 2]).collect::<Vec<_>>());
    assert_eq!(tokenize("5sX4").unwrap(), vec![TileType(22); 4]);
}

#[test]
fn errors_name_the_position() {
    assert_eq!(tokenize("   "), Err(ParseError::Empty));
    assert_eq!(tokenize("x2"), Err(ParseError::RepeatWithoutTile { pos: 0, ch: 'x' }));
    assert_eq!(tokenize("1m 2"), Err(ParseError::Incomplete { pos: 3 }));
    assert_eq!(tokenize("am"), Err(ParseError::ExpectedDigit { pos: 0, ch: 'a' }));
    assert_eq!(tokenize("12q"), Err(ParseError::UnknownSuit { pos: 2, ch: 'q' }));
    assert_eq!(tokenize("0m"), Err(ParseError::ZeroRank { pos: 0 }));
    assert_eq!(tokenize("8z"), Err(ParseError::HonourOutOfRange { pos: 0, rank: 8 }));
    assert_eq!(tokenize("1m×"), Err(ParseError::MissingRepeatCount { pos: 3 }));
    assert_eq!(tokenize("1mx5"), Err(ParseError::RepeatOutOfRange { count: 5 }));
}

#[test]
fn physical_tiles_take_copies_in_order() {
    assert_eq!(parse_tiles("1m 1m 2m").unwrap(), vec![Tile(0), Tile(1), Tile(4)]);
    assert_eq!(parse_tiles("1z×4 1z"), Err(ParseError::TooManyCopies { tile: TileType(27) }));
    assert_eq!(parse_tiles(""), Err(ParseError::Empty));
}

#[test]
fn a_run_of_ranks_shares_one_suit_letter() {
    let tiles = parse_tiles("12345m445p45678s").unwrap();
    let kinds: Vec<u8> = tiles.iter().map(|t| t.tile_type().0).collect();
    assert_eq!(kinds, vec![0, 1, 2, 3, 4, 12, 12, 13, 21, 22, 23, 24, 25]);
    let copies: Vec<u8> = tiles.iter().map(|t| t.copy_index()).collect();
    assert_eq!(copies, vec![0, 0, 0, 0, 0, 0, 1, 0, 0, 0, 0, 0, 0]);
    assert_eq!(parse_tile_types("12345m445p45678s1z").unwrap().len(), 14);
}

#[test]
fn runs_repeat_and_refuse_like_single_tiles() {
    assert_eq!(tokenize("12m×2").unwrap(), vec![TileType(0), TileType(1), TileType(0), TileType(1)]);
    assert_eq!(tokenize("1203m"), Err(ParseError::ZeroRank { pos: 2 }));
    assert_eq!(tokenize("18z"), Err(ParseError::HonourOutOfRange { pos: 1, rank: 8 }));
    assert_eq!(tokenize("123"), Err(ParseError::Incomplete { pos: 0 }));
    assert_eq!(tokenize("\u{3000}5z\t"), Ok(vec![TileType(31)]));
}
