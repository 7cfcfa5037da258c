use qwirkle::board::Position;
use qwirkle::piece::Color::{Blue, Purple, Red};
use qwirkle::piece::Piece;
use qwirkle::piece::Shape::{Circle, Clover, Diamond, Star8};
use qwirkle::protocol::{Command, ErrorKind};

#[test]
fn place() {
    assert!(matches!(
        Command::parse("place:circle&red@0,1"),
        Ok(Command::Place(piece, position)) if piece == Piece::new(Circle, Red) && position == Position::new(0, 1),
    ));
    assert!(matches!(
        Command::parse("place:star8&blue@0,2"),
        Ok(Command::Place(piece, position)) if piece == Piece::new(Star8, Blue) && position == Position::new(0, 2),
    ));
    assert!(matches!(
        Command::parse("place:star4blue0,2"),
        Err(err) if err.code == ErrorKind::Tag,
    ));
    assert!(matches!(
        Command::parse("place:star4:blue&0@2"),
        Err(err) if err.code == ErrorKind::Tag,
    ));
}

#[test]
fn state() {
    assert!(matches!(Command::parse("state"), Ok(Command::State)));
    assert!(matches!(Command::parse("state:"), Ok(Command::State)));
}

#[test]
fn place_without_colon() {
    assert!(matches!(
        Command::parse("placestar8&blue@0,2"),
        Ok(Command::Place(piece, position)) if piece == Piece::new(Star8, Blue) && position == Position::new(0, 2),
    ));
}

#[test]
fn place_signed_coordinates() {
    assert!(matches!(
        Command::parse("place:clover&purple@-12,+7"),
        Ok(Command::Place(piece, position)) if piece == Piece::new(Clover, Purple) && position == Position::new(-12, 7),
    ));
    assert!(matches!(
        Command::parse("place:diamond&red@-9223372036854775808,9223372036854775807"),
        Ok(Command::Place(piece, position)) if piece == Piece::new(Diamond, Red) && position == Position::new(i64::MIN, i64::MAX),
    ));
}

#[test]
fn state_ignores_trailing_text() {
    assert!(matches!(Command::parse("state:xyz"), Ok(Command::State)));
}

#[test]
fn unknown_command() {
    let err = Command::parse("move:circle&red@0,1").unwrap_err();
    assert_eq!(err.code, ErrorKind::Tag);
    assert_eq!(err.input, "move:circle&red@0,1");
}

#[test]
fn missing_ampersand_reports_fragment() {
    let err = Command::parse("place:star4blue0,2").unwrap_err();
    assert_eq!(err.code, ErrorKind::Tag);
    assert_eq!(err.input, "blue0,2");
}

#[test]
fn unknown_shape_and_color() {
    let err = Command::parse("place:hexagon&red@0,1").unwrap_err();
    assert_eq!(err.code, ErrorKind::Tag);
    assert_eq!(err.input, "hexagon&red@0,1");
    let err = Command::parse("place:circle&black@0,1").unwrap_err();
    assert_eq!(err.code, ErrorKind::Tag);
    assert_eq!(err.input, "black@0,1");
}

#[test]
fn malformed_integer() {
    let err = Command::parse("place:circle&red@x,1").unwrap_err();
    assert_eq!(err.code, ErrorKind::Digit);
    assert_eq!(err.input, "x,1");
    let err = Command::parse("place:circle&red@0,-").unwrap_err();
    assert_eq!(err.code, ErrorKind::Digit);
    assert_eq!(err.input, "-");
}

#[test]
fn integer_overflow() {
    let err = Command::parse("place:circle&red@9223372036854775808,0").unwrap_err();
    assert_eq!(err.code, ErrorKind::Digit);
    assert_eq!(err.input, "9223372036854775808,0");
}

#[test]
fn missing_comma() {
    let err = Command::parse("place:circle&red@3;4").unwrap_err();
    assert_eq!(err.code, ErrorKind::Tag);
    assert_eq!(err.input, ";4");
}

#[test]
fn empty_line() {
    let err = Command::parse("").unwrap_err();
    assert_eq!(err.code, ErrorKind::Tag);
    assert_eq!(err.input, "");
}
