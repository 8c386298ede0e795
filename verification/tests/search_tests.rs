use nchess::board::{Board, Player, Position};
use nchess::constant::{KILL, MAX, MIN};

#[test]
fn king_only_mate_scenario() {
    let mut board = Board::from_fen("4k4/9/9/9/9/9/9/4p4/9/5K3 b - - 0 1");
    assert_eq!(board.turn, Player::Black);
    let (value, pv) = board.alpha_beta_pvs(2, MIN, MAX);
    // The pawn steps to e1 and the lone Red King is mated with one ply of
    // remaining depth: a mate-band score, seen as a win by the side to move.
    assert_eq!(value, -(KILL - 1));
    assert!(!pv.is_empty());
    let mating = pv[0];
    assert_eq!(mating.player, Player::Black);
    assert_eq!(mating.from, Position::new(7, 4));
    assert_eq!(mating.to, Position::new(8, 4));
}

#[test]
fn mate_scores_shrink_with_depth() {
    // Red to move with no legal reply at all: every search depth reports the
    // mate band, and deeper searches report strictly lower scores.
    let mut board = Board::from_fen("3krr3/9/9/9/9/9/9/9/4p4/4K4 w - - 0 1");
    let moves = board.generate_move();
    let mut legal = 0;
    for m in &moves {
        let mut b = board;
        b.apply_move(m);
        if !b.is_checked(Player::Red) {
            legal += 1;
        }
        b.undo_move(m);
    }
    assert_eq!(legal, 0);
    let (v1, pv1) = board.alpha_beta_pvs(1, MIN, MAX);
    let (v2, pv2) = board.alpha_beta_pvs(2, MIN, MAX);
    let (v3, pv3) = board.alpha_beta_pvs(3, MIN, MAX);
    assert_eq!(v1, KILL - 1);
    assert_eq!(v2, KILL - 2);
    assert_eq!(v3, KILL - 3);
    assert!(v3 < v2 && v2 < v1);
    assert!(pv1.is_empty() && pv2.is_empty() && pv3.is_empty());
}

#[test]
fn search_keeps_board_intact() {
    let original = Board::init();
    let mut board = Board::init();
    let _ = board.alpha_beta_pvs(3, MIN, MAX);
    assert_eq!(board.chesses, original.chesses);
    assert_eq!(board.turn, original.turn);
}

#[test]
fn pv_moves_are_legal() {
    let mut board = Board::init();
    let (_, pv) = board.alpha_beta_pvs(3, MIN, MAX);
    // The PV is leaf move first, root move last: replay it from the root and
    // check that every move is generated and leaves the mover safe.
    let mut b = Board::init();
    for m in pv.iter().rev() {
        assert!(b.generate_move().contains(m));
        b.apply_move(m);
        assert!(!b.is_checked(b.turn.next()));
    }
}

#[test]
fn iterative_deepening_finds_a_root_move() {
    let mut board = Board::init();
    let (value, best) = board.iterative_deepening(3);
    assert!(MIN <= value && value <= MAX);
    let m = best.expect("the opening position has legal moves");
    assert!(Board::init().generate_move().contains(&m));
}
