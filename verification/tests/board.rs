use sternhalma::Board;
use sternhalma::HexCoord;
use sternhalma::SideOfStar;
use sternhalma::Spot;
use sternhalma::board::gen_board;
use sternhalma::board::gen_players;
use sternhalma::board::start_zone_coords;
use sternhalma::SideOfStar::A;
use sternhalma::SideOfStar::B;
use sternhalma::SideOfStar::C;
use sternhalma::SideOfStar::D;
use sternhalma::SideOfStar::E;
use sternhalma::SideOfStar::F;

#[test]
fn board_always_has_121_cells() {
    for n in [0usize, 1, 2, 3, 4, 5, 6, 7] {
        assert_eq!(Board::new(n).board.len(), 121);
    }
    assert_eq!(gen_board().len(), 121);
}

#[test]
fn creation_is_deterministic() {
    for n in [2usize, 3, 4, 6] {
        let b1 = Board::new(n);
        let b2 = Board::new(n);
        assert_eq!(b1, b2);
    }
}

#[test]
fn active_sides_match_player_count() {
    assert_eq!(Board::new(2).players, vec![A, D]);
    assert_eq!(Board::new(3).players, vec![A, C, E]);
    assert_eq!(Board::new(4).players, vec![A, B, D, E]);
    assert_eq!(Board::new(6).players, vec![A, B, C, D, E, F]);
    // invalid counts fall back to two players
    assert_eq!(Board::new(0).players, vec![A, D]);
    assert_eq!(Board::new(5).players, vec![A, D]);
}

#[test]
fn turn_starts_on_an_active_side() {
    for n in [2usize, 3, 4, 6, 5] {
        let b = Board::new(n);
        assert!(b.contains_side(b.turn));
        assert_eq!(b.turn, SideOfStar::A);
    }
}

#[test]
fn gen_players_table() {
    assert_eq!(gen_players(2), vec![A, D]);
    assert_eq!(gen_players(3), vec![A, C, E]);
    assert_eq!(gen_players(4), vec![A, B, D, E]);
    assert_eq!(gen_players(6), vec![A, B, C, D, E, F]);
    assert_eq!(gen_players(17), vec![A, D]);
}

#[test]
fn starting_zones_are_seeded() {
    let b = Board::new(2);
    // both active sides hold their ten tip cells
    for side in [SideOfStar::A, SideOfStar::D] {
        let zone = start_zone_coords(side);
        assert_eq!(zone.len(), 10);
        for c in zone {
            assert_eq!(b.get(&c).copied(), Some(Spot::Player(side)));
        }
    }
    // an inactive side's zone is empty
    for c in start_zone_coords(SideOfStar::B) {
        assert_eq!(b.get(&c).copied(), Some(Spot::Empty));
    }
    // the center of the board is empty
    assert_eq!(b.get(&HexCoord::new(0, 0)).copied(), Some(Spot::Empty));
}

#[test]
fn get_and_writes_ignore_absent_coordinates() {
    let mut b = Board::new(2);
    let off = HexCoord::new(9, 9);
    assert!(!b.is_valid(off));
    assert!(b.is_valid(HexCoord::new(0, 0)));
    assert_eq!(b.get(&off).copied(), None);
    let before = b.clone();
    b.put_player(off, SideOfStar::A);
    b.remove_player(off);
    b.swap(off, HexCoord::new(0, 0));
    assert_eq!(b, before);
}

#[test]
fn put_and_remove_change_one_cell() {
    let mut b = Board::new(2);
    let c = HexCoord::new(0, 0);
    b.put_player(c, SideOfStar::C);
    assert_eq!(b.get(&c).copied(), Some(Spot::Player(SideOfStar::C)));
    b.remove_player(c);
    assert_eq!(b.get(&c).copied(), Some(Spot::Empty));
}

#[test]
fn swap_exchanges_two_cells() {
    let mut b = Board::new(2);
    let c1 = HexCoord::new(0, 0);
    let c2 = HexCoord::new(1, 0);
    b.put_player(c1, SideOfStar::E);
    b.swap(c1, c2);
    assert_eq!(b.get(&c1).copied(), Some(Spot::Empty));
    assert_eq!(b.get(&c2).copied(), Some(Spot::Player(SideOfStar::E)));
}

#[test]
fn turn_rotation_cycles_two_players() {
    let mut b = Board::new(2);
    assert_eq!(b.turn, SideOfStar::A);
    b.start_next_turn();
    assert_eq!(b.turn, SideOfStar::D);
    b.start_next_turn();
    assert_eq!(b.turn, SideOfStar::A);
}

#[test]
fn turn_rotation_cycles_three_players() {
    let mut b = Board::new(3);
    b.start_next_turn();
    assert_eq!(b.turn, SideOfStar::C);
    b.start_next_turn();
    assert_eq!(b.turn, SideOfStar::E);
    b.start_next_turn();
    assert_eq!(b.turn, SideOfStar::A);
}

#[test]
fn setup_is_idempotent() {
    for n in [2usize, 3, 4, 6] {
        let b1 = Board::new(n);
        let mut b2 = b1.clone();
        b2.setup_players();
        assert_eq!(b1, b2);
    }
}

#[test]
fn toggling_a_side_off_clears_exactly_its_zone() {
    let mut b = Board::new(6);
    let before = b.clone();
    b.remove_side(SideOfStar::F);
    b.setup_players();
    let zone = start_zone_coords(SideOfStar::F);
    for (coord, spot) in &b.board {
        if zone.contains(coord) {
            assert_eq!(*spot, Spot::Empty);
        } else {
            assert_eq!(Some(*spot), before.get(coord).copied());
        }
    }
}

#[test]
fn toggling_a_side_on_seeds_its_zone() {
    let mut b = Board::new(2);
    b.add_side(SideOfStar::C);
    assert!(b.contains_side(SideOfStar::C));
    b.setup_players();
    for c in start_zone_coords(SideOfStar::C) {
        assert_eq!(b.get(&c).copied(), Some(Spot::Player(SideOfStar::C)));
    }
}
