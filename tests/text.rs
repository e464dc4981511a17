use minesweeper::{
    command_from_lowered, move_pos_from, parse_move_type, parse_usize, Minesweeper, MinesweeperVariant,
    MoveCommand, MoveType, MoveValidationError, PosInput, VariantParseError,
};

#[test]
fn parse_usize_reads_decimal() {
    assert_eq!(parse_usize("42"), Some(42));
    assert_eq!(parse_usize("+7"), Some(7));
    assert_eq!(parse_usize("007"), Some(7));
    assert_eq!(parse_usize("18446744073709551615"), Some(usize::MAX));
    assert_eq!(parse_usize("18446744073709551616"), None);
    assert_eq!(parse_usize("99999999999999999999x"), None);
    assert_eq!(parse_usize(""), None);
    assert_eq!(parse_usize("+"), None);
    assert_eq!(parse_usize("-1"), None);
    assert_eq!(parse_usize("-0"), None);
    assert_eq!(parse_usize("1 "), None);
    assert_eq!(parse_usize("1_0"), None);
}

#[test]
fn move_pos_is_one_based_and_bounded() {
    assert_eq!(Minesweeper::validate_move_pos("3", 5), Ok(PosInput::Index(2)));
    assert_eq!(Minesweeper::validate_move_pos("1", 5), Ok(PosInput::Index(0)));
    assert_eq!(Minesweeper::validate_move_pos("5", 5), Ok(PosInput::Index(4)));
    assert_eq!(Minesweeper::validate_move_pos("0", 5), Err(MoveValidationError));
    assert_eq!(Minesweeper::validate_move_pos("6", 5), Err(MoveValidationError));
    assert_eq!(Minesweeper::validate_move_pos("abc", 5), Err(MoveValidationError));
}

#[test]
fn move_pos_quit_in_any_case() {
    assert_eq!(Minesweeper::validate_move_pos("q", 5), Ok(PosInput::Quit));
    assert_eq!(Minesweeper::validate_move_pos("QUIT", 5), Ok(PosInput::Quit));
    assert_eq!(Minesweeper::validate_move_pos("Q", 5), Ok(PosInput::Quit));
    assert_eq!(move_pos_from("Quit", "quit", 5), Ok(PosInput::Quit));
    assert_eq!(move_pos_from("2", "2", 5), Ok(PosInput::Index(1)));
}

#[test]
fn variant_names_any_case() {
    assert_eq!(MinesweeperVariant::from_name("Normal"), Ok(MinesweeperVariant::Normal));
    assert_eq!(MinesweeperVariant::from_name("FAR-NORMAL"), Ok(MinesweeperVariant::FarNormal));
    assert_eq!(MinesweeperVariant::from_name("knight-paths"), Ok(MinesweeperVariant::KnightPaths));
    assert_eq!(MinesweeperVariant::from_name("Blind-Up"), Ok(MinesweeperVariant::BlindUp));
    assert_eq!(MinesweeperVariant::from_name("blind-down"), Ok(MinesweeperVariant::BlindDown));
    assert_eq!(MinesweeperVariant::from_name("blind-left"), Ok(MinesweeperVariant::BlindLeft));
    assert_eq!(MinesweeperVariant::from_name("blind-right"), Ok(MinesweeperVariant::BlindRight));
    assert_eq!(MinesweeperVariant::from_name("orthogonal"), Ok(MinesweeperVariant::Orthogonal));
    assert_eq!(MinesweeperVariant::from_name("far-orthogonal"), Ok(MinesweeperVariant::FarOrthogonal));
    assert_eq!(MinesweeperVariant::from_name("diagonal"), Ok(MinesweeperVariant::Diagonal));
    assert_eq!(MinesweeperVariant::from_name("far-diagonal"), Ok(MinesweeperVariant::FarDiagonal));
    assert_eq!(MinesweeperVariant::from_name("DOUBLED"), Ok(MinesweeperVariant::Doubled));
    assert_eq!(MinesweeperVariant::from_name("far normal"), Err(VariantParseError));
    assert_eq!(MinesweeperVariant::from_lowered("Normal"), Err(VariantParseError));
    assert_eq!("Diagonal".parse::<MinesweeperVariant>(), Ok(MinesweeperVariant::Diagonal));
    assert_eq!("nope".parse::<MinesweeperVariant>(), Err(VariantParseError));
}

#[test]
fn move_type_entries() {
    assert_eq!(parse_move_type("Flag"), Some(MoveCommand::Move(MoveType::Flag)));
    assert_eq!(parse_move_type("F"), Some(MoveCommand::Move(MoveType::Flag)));
    assert_eq!(parse_move_type("o"), Some(MoveCommand::Move(MoveType::Open)));
    assert_eq!(parse_move_type("OPEN"), Some(MoveCommand::Move(MoveType::Open)));
    assert_eq!(parse_move_type("Quit"), Some(MoveCommand::Quit));
    assert_eq!(parse_move_type("x"), None);
    assert_eq!(command_from_lowered("Q"), None);
    assert_eq!(command_from_lowered("q"), Some(MoveCommand::Quit));
}

#[test]
fn error_messages() {
    assert_eq!(MoveValidationError.message(), "Invalid move");
    assert_eq!(VariantParseError.message(), "Invalid variant");
}
