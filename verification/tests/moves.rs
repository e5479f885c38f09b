use sternhalma::Board;
use sternhalma::HexCoord;
use sternhalma::SideOfStar;
use sternhalma::Spot;

#[test]
fn move_from_empty_start_is_refused() {
    let mut b = Board::new(2);
    let before = b.clone();
    assert!(!b.make_move(HexCoord::new(0, 0), HexCoord::new(1, 0)));
    assert_eq!(b, before);
}

#[test]
fn move_onto_occupied_end_is_refused() {
    let mut b = Board::new(2);
    // two side-A pieces in the starting zone
    let start = HexCoord::new(4, -8);
    let end = HexCoord::new(4, -7);
    assert_eq!(b.get(&start).copied(), Some(Spot::Player(SideOfStar::A)));
    assert_eq!(b.get(&end).copied(), Some(Spot::Player(SideOfStar::A)));
    let before = b.clone();
    assert!(!b.make_move(start, end));
    assert_eq!(b, before);
}

#[test]
fn shift_to_adjacent_empty_cell() {
    let mut b = Board::new(2);
    let start = HexCoord::new(0, 0);
    let end = HexCoord::new(1, 0);
    b.put_player(start, SideOfStar::A);
    assert!(b.make_move(start, end));
    assert_eq!(b.get(&start).copied(), Some(Spot::Empty));
    assert_eq!(b.get(&end).copied(), Some(Spot::Player(SideOfStar::A)));
}

#[test]
fn single_jump_over_any_piece() {
    let mut b = Board::new(2);
    b.put_player(HexCoord::new(0, 0), SideOfStar::A);
    b.put_player(HexCoord::new(1, 0), SideOfStar::D);
    assert_eq!(b.get(&HexCoord::new(2, 0)).copied(), Some(Spot::Empty));
    assert!(b.make_move(HexCoord::new(0, 0), HexCoord::new(2, 0)));
    assert_eq!(b.get(&HexCoord::new(0, 0)).copied(), Some(Spot::Empty));
    assert_eq!(b.get(&HexCoord::new(2, 0)).copied(), Some(Spot::Player(SideOfStar::A)));
}

#[test]
fn single_jump_over_own_piece() {
    let mut b = Board::new(2);
    b.put_player(HexCoord::new(0, 0), SideOfStar::A);
    b.put_player(HexCoord::new(1, 0), SideOfStar::A);
    assert!(b.make_move(HexCoord::new(0, 0), HexCoord::new(2, 0)));
}

#[test]
fn chained_jump_in_one_move() {
    let mut b = Board::new(2);
    // a clear row with pieces to hop over: each single jump is valid
    let start = HexCoord::new(-4, -4);
    b.put_player(start, SideOfStar::A);
    b.put_player(HexCoord::new(-3, -4), SideOfStar::D);
    b.put_player(HexCoord::new(-1, -4), SideOfStar::D);
    b.put_player(HexCoord::new(1, -4), SideOfStar::D);
    for h in [-2i32, 0, 2] {
        assert_eq!(b.get(&HexCoord::new(h, -4)).copied(), Some(Spot::Empty));
    }
    // three hops in a single call
    assert!(b.make_move(start, HexCoord::new(2, -4)));
    assert_eq!(b.get(&start).copied(), Some(Spot::Empty));
    assert_eq!(b.get(&HexCoord::new(2, -4)).copied(), Some(Spot::Player(SideOfStar::A)));
}

#[test]
fn no_path_means_no_move() {
    let mut b = Board::new(2);
    // a piece of side A deep in its zone has no jump to the center
    let before = b.clone();
    assert!(!b.make_move(HexCoord::new(1, -5), HexCoord::new(0, 0)));
    assert_eq!(b, before);
}

#[test]
fn jump_needs_an_occupied_middle() {
    let mut b = Board::new(2);
    b.put_player(HexCoord::new(0, 0), SideOfStar::A);
    // (1, 0) is empty, so the landing cell two steps away is unreachable
    assert!(!b.make_move(HexCoord::new(0, 0), HexCoord::new(2, 0)));
}

#[test]
fn moves_to_or_from_absent_coordinates_are_refused() {
    let mut b = Board::new(2);
    b.put_player(HexCoord::new(4, -1), SideOfStar::A);
    b.put_player(HexCoord::new(5, -1), SideOfStar::D);
    let before = b.clone();
    // the landing cell (6, -1) lies outside the star
    assert!(!b.make_move(HexCoord::new(4, -1), HexCoord::new(6, -1)));
    assert!(!b.make_move(HexCoord::new(20, 20), HexCoord::new(0, 0)));
    assert_eq!(b, before);
}

#[test]
fn validate_move_leaves_the_board_unchanged() {
    let mut b = Board::new(2);
    b.put_player(HexCoord::new(0, 0), SideOfStar::A);
    let before = b.clone();
    assert!(b.validate_move(HexCoord::new(0, 0), HexCoord::new(0, 1)));
    assert!(!b.validate_move(HexCoord::new(0, 0), HexCoord::new(0, 2)));
    assert_eq!(b, before);
}
