use nchess::board::{Board, Chess, ChessType, Player, Position};
use nchess::zobrist::Zobristable;

#[test]
fn test_zobrist() {
    println!(
        "{}",
        Zobristable::new().unwrap().calc_chesses(&Board::init().chesses)
    );
}

#[test]
fn test_zobrist_move() {
    let zorbis_table = Zobristable::new().unwrap();
    let hash = zorbis_table.calc_chesses(&Board::init().chesses);
    let m = nchess::board::Move {
        player: Player::Red,
        from: Position::new(0, 0),
        to: Position::new(2, 0),
        chess: Chess::Black(ChessType::Rook),
        capture: Chess::Empty,
    };
    assert_ne!(hash, zorbis_table.apply_move(hash, &m));
    let hash_after = zorbis_table.undo_move(zorbis_table.apply_move(hash, &m), &m);
    assert_eq!(hash, hash_after);
}

#[test]
fn zobrist_of_empty_board_is_zero() {
    let z = Zobristable::new().unwrap();
    assert_eq!(z.calc_chesses(&Board::empty().chesses), 0);
}

#[test]
fn zobrist_incremental_matches_recompute() {
    let z = Zobristable::new().unwrap();
    let board = Board::init();
    let hash = z.calc_chesses(&board.chesses);
    for m in board.generate_move() {
        let mut b = Board::init();
        b.apply_move(&m);
        let incremental = z.apply_move(hash, &m);
        let from_scratch = z.calc_chesses(&b.chesses);
        assert_eq!(incremental, from_scratch);
        b.undo_move(&m);
        assert_eq!(z.undo_move(incremental, &m), hash);
    }
}
