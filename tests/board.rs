use either::Either;
use qwirkle::board::{Board, Position};
use qwirkle::piece::Color::{Blue, Green, Purple, Red, Yellow};
use qwirkle::piece::Piece;
use qwirkle::piece::Shape::{Circle, Diamond, Square, Star4, Star8};
use qwirkle::protocol::Command;

#[test]
fn insert() {
    let mut board = Board::new();
    board.place(Piece::new(Circle, Red), Position::origin());

    assert!(board.place(Piece::new(Circle, Blue), Position::new(-1, 0)));
    assert!(board.place(Piece::new(Circle, Yellow), Position::new(1, 0)));
    assert!(board.place(Piece::new(Star8, Red), Position::new(0, 1)));
    assert!(!board.place(Piece::new(Circle, Green), Position::new(10, -15)));
}

#[test]
fn execute() {
    let mut board = Board::new();
    board.place(Piece::new(Circle, Red), Position::origin());

    assert!(matches!(
        board.execute(Command::Place(
            Piece::new(Circle, Yellow),
            Position::new(1, 0),
        )),
        Either::Left(true)
    ));

    let board = board.execute(Command::State).right().unwrap();
    assert!(*board.get(&Position::origin()).unwrap() == Piece::new(Circle, Red));
    assert!(*board.get(&Position::new(1, 0)).unwrap() == Piece::new(Circle, Yellow));
}

#[test]
fn first_place_anywhere() {
    let mut board = Board::new();
    assert!(board.place(Piece::new(Square, Purple), Position::new(i64::MIN, i64::MAX)));
    assert_eq!(
        board.get(&Position::new(i64::MIN, i64::MAX)),
        Some(&Piece::new(Square, Purple))
    );
    assert_eq!(board.get(&Position::origin()), None);
}

#[test]
fn duplicate_neighbor_refused() {
    let mut board = Board::new();
    assert!(board.place(Piece::new(Circle, Red), Position::origin()));
    assert!(!board.place(Piece::new(Circle, Red), Position::new(0, 1)));
    assert_eq!(board.get(&Position::new(0, 1)), None);
}

#[test]
fn unrelated_neighbor_refused() {
    let mut board = Board::new();
    assert!(board.place(Piece::new(Circle, Red), Position::origin()));
    assert!(!board.place(Piece::new(Star4, Blue), Position::new(1, 0)));
    assert_eq!(board.get(&Position::new(1, 0)), None);
}

#[test]
fn opposite_pair_of_different_kinds_refused() {
    let mut board = Board::new();
    assert!(board.place(Piece::new(Circle, Blue), Position::new(0, -1)));
    assert!(board.place(Piece::new(Circle, Green), Position::new(-1, -1)));
    assert!(board.place(Piece::new(Circle, Yellow), Position::new(-1, 0)));
    assert!(board.place(Piece::new(Circle, Red), Position::new(-1, 1)));
    assert!(board.place(Piece::new(Diamond, Red), Position::new(0, 1)));
    // Above: same shape; below: same color.
    assert!(!board.place(Piece::new(Circle, Red), Position::origin()));
    assert_eq!(board.get(&Position::origin()), None);
}

#[test]
fn isolated_piece_refused() {
    let mut board = Board::new();
    assert!(board.place(Piece::new(Circle, Red), Position::origin()));
    assert!(!board.place(Piece::new(Circle, Blue), Position::new(1, 1)));
    assert!(!board.place(Piece::new(Circle, Blue), Position::new(2, 0)));
    assert_eq!(board.get(&Position::new(1, 1)), None);
}

#[test]
fn edge_of_grid_has_no_neighbor_beyond() {
    let mut board = Board::new();
    assert!(board.place(Piece::new(Circle, Red), Position::new(i64::MAX, i64::MIN)));
    assert!(board.place(Piece::new(Circle, Blue), Position::new(i64::MAX, i64::MIN + 1)));
    assert!(!board.place(Piece::new(Circle, Green), Position::new(i64::MIN, i64::MIN)));
}

#[test]
fn get_twice_gives_the_same() {
    let mut board = Board::new();
    assert!(board.place(Piece::new(Circle, Red), Position::origin()));
    let first = board.get(&Position::origin()).copied();
    let second = board.get(&Position::origin()).copied();
    assert_eq!(first, second);
    assert_eq!(first, Some(Piece::new(Circle, Red)));
    assert_eq!(board.get(&Position::new(3, 3)), board.get(&Position::new(3, 3)));
}

#[test]
fn remove_then_place_other() {
    let mut board = Board::new();
    assert!(board.place(Piece::new(Circle, Red), Position::origin()));
    assert!(board.place(Piece::new(Circle, Blue), Position::new(1, 0)));
    assert_eq!(board.remove(&Position::new(1, 0)), Some(Piece::new(Circle, Blue)));
    assert_eq!(board.get(&Position::new(1, 0)), None);
    assert_eq!(board.remove(&Position::new(1, 0)), None);
    assert!(board.place(Piece::new(Star8, Red), Position::new(1, 0)));
    assert_eq!(board.get(&Position::new(1, 0)), Some(&Piece::new(Star8, Red)));
}

#[test]
fn place_overwrites_when_rule_allows() {
    let mut board = Board::new();
    assert!(board.place(Piece::new(Circle, Red), Position::origin()));
    assert!(board.place(Piece::new(Circle, Blue), Position::new(1, 0)));
    assert!(board.place(Piece::new(Circle, Green), Position::new(1, 0)));
    assert_eq!(board.get(&Position::new(1, 0)), Some(&Piece::new(Circle, Green)));
}

#[test]
fn remove_last_piece_resets_bootstrap() {
    let mut board = Board::new();
    assert!(board.place(Piece::new(Circle, Red), Position::origin()));
    assert_eq!(board.remove(&Position::origin()), Some(Piece::new(Circle, Red)));
    assert!(board.place(Piece::new(Square, Blue), Position::new(40, 40)));
}

#[test]
fn execute_refused_place() {
    let mut board = Board::new();
    board.place(Piece::new(Circle, Red), Position::origin());
    assert!(matches!(
        board.execute(Command::Place(Piece::new(Circle, Red), Position::new(0, 1))),
        Either::Left(false)
    ));
    let board = board.execute(Command::State).right().unwrap();
    assert_eq!(board.get(&Position::new(0, 1)), None);
}

#[test]
fn position_accessors() {
    let p = Position::new(-4, 9);
    assert_eq!(p.x(), -4);
    assert_eq!(p.y(), 9);
    assert_eq!(Position::origin(), Position::new(0, 0));
}

#[test]
fn default_board_is_empty() {
    let mut board = Board::default();
    assert_eq!(board.get(&Position::origin()), None);
    assert!(board.place(Piece::new(Star4, Green), Position::new(7, -3)));
}
