use sternhalma::HexCoord;
use sternhalma::Phase;
use sternhalma::Player;
use sternhalma::SideOfStar;
use sternhalma::Spot;
use sternhalma::SideOfStar::A;
use sternhalma::SideOfStar::B;
use sternhalma::SideOfStar::C;
use sternhalma::SideOfStar::D;
use sternhalma::SideOfStar::E;
use sternhalma::SideOfStar::F;

#[test]
fn coordinate_arithmetic() {
    let a = HexCoord::new(2, -3);
    let b = HexCoord::new(-1, 5);
    assert_eq!(a.add(b), HexCoord::new(1, 2));
    assert_eq!(a.neg(), HexCoord::new(-2, 3));
    assert_eq!(a.sub(b), HexCoord::new(3, -8));
    assert_eq!(a.mul(2), HexCoord::new(4, -6));
    assert_eq!(HexCoord::default(), HexCoord::new(0, 0));
}

#[test]
fn neighbor_offsets() {
    let c = HexCoord::new(0, 0);
    let expected = vec![
        HexCoord::new(1, 0),
        HexCoord::new(1, -1),
        HexCoord::new(0, -1),
        HexCoord::new(-1, 0),
        HexCoord::new(-1, 1),
        HexCoord::new(0, 1),
    ];
    assert_eq!(c.neighbors(), expected);
}

#[test]
fn jump_neighbor_offsets() {
    let c = HexCoord::new(3, -2);
    let expected = vec![
        HexCoord::new(5, -2),
        HexCoord::new(5, -4),
        HexCoord::new(3, -4),
        HexCoord::new(1, -2),
        HexCoord::new(1, 0),
        HexCoord::new(3, 0),
    ];
    assert_eq!(c.jump_neighbors(), expected);
}

#[test]
fn triangle_sizes() {
    assert_eq!(HexCoord::new(4, -8).triangle_tip_up(13).len(), 91);
    assert_eq!(HexCoord::new(4, -8).triangle_tip_up(4).len(), 10);
    assert_eq!(HexCoord::new(5, -1).triangle_tip_down(4).len(), 10);
    assert_eq!(HexCoord::new(0, 0).triangle_tip_up(0).len(), 0);
}

#[test]
fn triangle_small_contents() {
    let up = HexCoord::new(0, 0).triangle_tip_up(2);
    assert_eq!(
        up,
        vec![HexCoord::new(0, 0), HexCoord::new(0, 1), HexCoord::new(-1, 1)]
    );
    let down = HexCoord::new(0, 0).triangle_tip_down(2);
    assert_eq!(
        down,
        vec![HexCoord::new(0, 0), HexCoord::new(0, -1), HexCoord::new(1, -1)]
    );
}

#[test]
fn side_forward_cycles() {
    assert_eq!(A.forward(), B);
    assert_eq!(B.forward(), C);
    assert_eq!(C.forward(), D);
    assert_eq!(D.forward(), E);
    assert_eq!(E.forward(), F);
    assert_eq!(F.forward(), A);
}

#[test]
fn side_opposite_pairs() {
    assert_eq!(A.opposite(), D);
    assert_eq!(B.opposite(), E);
    assert_eq!(C.opposite(), F);
    assert_eq!(D.opposite(), A);
    assert_eq!(E.opposite(), B);
    assert_eq!(F.opposite(), C);
}

#[test]
fn side_all_lists_six() {
    assert_eq!(SideOfStar::all(), vec![A, B, C, D, E, F]);
    assert_eq!(Player::default(), A);
}

#[test]
fn spot_queries() {
    assert!(Spot::Empty.is_empty());
    assert!(!Spot::Empty.is_full());
    assert!(Spot::Player(SideOfStar::C).is_full());
    assert!(!Spot::Player(SideOfStar::C).is_empty());
    assert_eq!(Spot::default(), Spot::Empty);
}

#[test]
fn phase_walk() {
    assert_eq!(Phase::Start.next(), Phase::GameSetup);
    assert_eq!(Phase::GameSetup.next(), Phase::GamePlay);
    assert_eq!(Phase::GamePlay.previous(), Phase::GameSetup);
    assert_eq!(Phase::GameSetup.previous(), Phase::Start);
}
