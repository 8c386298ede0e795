use nchess::board::{Board, Chess, ChessType, Move, Player, Position};
use nchess::constant::{MAX, MIN};

#[test]
fn test_generate_move() {
    assert_eq!(
        Board::init().generate_move().len(),
        5 + 24 + 4 + 4 + 4 + 2 + 1
    );
}

#[test]
fn test_evaluate() {
    let mut board = Board::init();
    board.apply_move(&Move {
        player: Player::Red,
        from: Position::new(9, 8),
        to: Position::new(7, 8),
        chess: Chess::Red(ChessType::Rook),
        capture: Chess::Empty,
    });
    assert_eq!(board.evaluate(Player::Red), 7);
}

#[test]
fn test_alpha_beta_pvs() {
    println!("{:?}", Board::init().alpha_beta_pvs(1, MIN, MAX));
    println!("{:?}", Board::init().alpha_beta_pvs(2, MIN, MAX));
    println!("{:?}", Board::init().alpha_beta_pvs(3, MIN, MAX));
    println!("{:?}", Board::init().alpha_beta_pvs(4, MIN, MAX));
}

#[test]
fn test_from_fen() {
    let fen = "rnb1kabnr/4a4/1c5c1/p1p3p2/4N4/8p/P1P3P1P/2C4C1/9/RNBAKAB1R w - - 0 1 moves e5d7";
    println!("{:?}", Board::from_fen(fen).chesses);
}

#[test]
fn test_king_eye_to_eye() {
    let board = Board::from_fen("rnbakabnr/9/1c5c1/9/9/9/9/1C5C1/9/RNBAKABNR w - - 0 1");
    println!("{:?}", board.chesses);
    println!("{}", board.king_eye_to_eye());
    let board = Board::init();
    println!("{}", board.king_eye_to_eye());
}

#[test]
fn flying_general_scenario() {
    let board = Board::from_fen("rnbakabnr/9/1c5c1/9/9/9/9/1C5C1/9/RNBAKABNR w - - 0 1");
    assert!(board.king_eye_to_eye());
    assert!(!Board::init().king_eye_to_eye());
}

#[test]
fn fen_round_trip_piece_counts() {
    let board = Board::from_fen("rnbakabnr/9/1c5c1/9/9/9/9/1C5C1/9/RNBAKABNR w - - 0 1");
    let mut red = 0;
    let mut black = 0;
    for i in 0..10 {
        for j in 0..9 {
            let c = board.chess_at(Position::new(i, j));
            if c.belong_to(Player::Red) {
                red += 1;
            }
            if c.belong_to(Player::Black) {
                black += 1;
            }
        }
    }
    assert_eq!(red, 9 + 2);
    assert_eq!(black, 9 + 2);
}

#[test]
fn from_fen_start_position_matches_init() {
    let parsed = Board::from_fen("rnbakabnr/9/1c5c1/p1p1p1p1p/9/9/P1P1P1P1P/1C5C1/9/RNBAKABNR w - - 0 1");
    let init = Board::init();
    assert_eq!(parsed.chesses, init.chesses);
    assert_eq!(parsed.turn, Player::Red);
    let black_parsed = Board::from_fen("9/9/9/9/9/9/9/9/9/4K4 b - - 0 1");
    assert_eq!(black_parsed.turn, Player::Black);
}

#[test]
fn make_undo_restores_board() {
    let original = Board::init();
    for m in original.generate_move() {
        let mut b = Board::init();
        b.apply_move(&m);
        b.undo_move(&m);
        assert_eq!(b.chesses, original.chesses);
        assert_eq!(b.turn, original.turn);
    }
}

#[test]
fn generated_moves_stay_on_board() {
    let board = Board::from_fen("rnbakabnr/9/1c5c1/p1p1p1p1p/9/9/P1P1P1P1P/1C5C1/9/RNBAKABNR b - - 0 1");
    for m in board.generate_move() {
        assert!(m.to.row >= 0 && m.to.row < 10 && m.to.col >= 0 && m.to.col < 9);
        assert!(board.chess_at(m.from).belong_to(Player::Black));
        assert!(!board.chess_at(m.to).belong_to(Player::Black));
        if let Some(kind) = m.chess.chess_type() {
            match kind {
                ChessType::Bishop => assert!(m.to.row <= 4),
                ChessType::King | ChessType::Advisor => {
                    assert!(m.to.row <= 2 && m.to.col >= 3 && m.to.col <= 5)
                }
                _ => {}
            }
        }
    }
}

#[test]
fn evaluation_symmetry() {
    let boards = [
        Board::init(),
        Board::from_fen("rnbakabnr/9/1c5c1/9/9/9/9/1C5C1/9/RNBAKABNR w - - 0 1"),
        Board::from_fen("4k4/9/9/9/9/9/9/4p4/9/5K3 b - - 0 1"),
    ];
    for b in boards.iter() {
        assert_eq!(b.evaluate(Player::Red) + b.evaluate(Player::Black), 6);
    }
}

#[test]
fn coordinate_codec_round_trip() {
    let p = Position::new(9, 0);
    assert_eq!(p.to_coords(), "a0");
    assert_eq!(Position::from_coords("a0"), Some(Position::new(9, 0)));
    assert_eq!(Position::from_coords("i9"), Some(Position::new(0, 8)));
    assert_eq!(Position::from_coords("e5"), Some(Position::new(4, 4)));
    assert_eq!(Position::from_coords("j0"), None);
    assert_eq!(Position::from_coords("a"), None);
    assert_eq!(Position::from_coords("a00"), None);
    for row in 0..10 {
        for col in 0..9 {
            let pos = Position::new(row, col);
            assert_eq!(Position::from_coords(&pos.to_coords()), Some(pos));
        }
    }
}

#[test]
fn move_validity_shape() {
    assert!(!Move::stay().is_valid());
    let m = Move {
        player: Player::Red,
        from: Position::new(9, 8),
        to: Position::new(7, 8),
        chess: Chess::Red(ChessType::Rook),
        capture: Chess::Empty,
    };
    assert!(m.is_valid());
}
