use nchess::board::{Board, Chess, ChessType, Player, Position};
use nchess::engine::{parse_i32, GoOutcome, UCCIEngine};

const START_FEN: &str = "rnbakabnr/9/1c5c1/p1p1p1p1p/9/9/P1P1P1P1P/1C5C1/9/RNBAKABNR w - - 0 1";

#[test]
fn book_line_parsing() {
    let mut engine = UCCIEngine::new().unwrap();
    assert!(!engine.load_book_line(""));
    assert!(!engine.load_book_line("b2d2"));
    assert!(!engine.load_book_line("b2d2 10"));
    assert!(!engine.load_book_line("b2d2 x 9/9/9/9/9/9/9/9/9/9 w - - 0 1"));
    assert_eq!(engine.book.len(), 0);
    assert!(engine.load_book_line(&format!("b2d2 10 {}", START_FEN)));
    assert_eq!(engine.book.len(), 1);
    assert_eq!(engine.book[0].best_move, "b2d2");
    assert_eq!(engine.book[0].weight, 10);
}

#[test]
fn book_probe_hits_the_loaded_position() {
    let mut engine = UCCIEngine::new().unwrap();
    assert_eq!(engine.search_in_book(), None);
    assert!(engine.load_book_line(&format!("b2d2 10 {}", START_FEN)));
    // The engine starts from the standard opening position, which is the
    // position the loaded line describes.
    assert_eq!(engine.search_in_book(), Some("b2d2".to_string()));
    assert!(engine.apply_coord_move("b2d2"));
    assert_eq!(engine.search_in_book(), None);
}

#[test]
fn book_stays_sorted_under_loading() {
    let mut engine = UCCIEngine::new().unwrap();
    assert!(engine.load_book_line(&format!("b2d2 1 {}", START_FEN)));
    assert!(engine.load_book_line("h2e2 2 4k4/9/9/9/9/9/9/4p4/9/5K3 b - - 0 1"));
    assert!(engine.load_book_line("a0a1 3 rnbakabnr/9/1c5c1/9/9/9/9/1C5C1/9/RNBAKABNR w - - 0 1"));
    assert!(engine.load_book_line(&format!("c3c4 4 {}", START_FEN)));
    for w in engine.book.windows(2) {
        assert!(w[0].zobrist_value <= w[1].zobrist_value);
    }
    assert_eq!(engine.book.len(), 4);
}

#[test]
fn coordinate_moves_update_the_board() {
    let mut engine = UCCIEngine::new().unwrap();
    assert!(engine.apply_coord_move("b2e2"));
    // The cannon from b2 lands on e2 and the turn passes to Black.
    assert_eq!(
        engine.board.chess_at(Position::new(7, 4)),
        Chess::Red(ChessType::Cannon)
    );
    assert_eq!(engine.board.chess_at(Position::new(7, 1)), Chess::Empty);
    assert_eq!(engine.board.turn, Player::Black);
    assert!(!engine.apply_coord_move("zz"));
    assert!(!engine.apply_coord_move("b2z9"));
}

#[test]
fn go_finds_a_legal_best_move_without_book() {
    let mut engine = UCCIEngine::new().unwrap();
    match engine.go(2) {
        GoOutcome::Best(_, m) => {
            assert!(Board::init().generate_move().contains(&m));
            assert!(m.is_valid());
        }
        other => panic!("expected a searched best move, got {:?}", other),
    }
}

#[test]
fn go_prefers_the_book() {
    let mut engine = UCCIEngine::new().unwrap();
    assert!(engine.load_book_line(&format!("b2d2 10 {}", START_FEN)));
    match engine.go(2) {
        GoOutcome::BookMove(s) => assert_eq!(s, "b2d2"),
        other => panic!("expected a book move, got {:?}", other),
    }
}

#[test]
fn go_reports_no_move_when_mated() {
    let mut engine = UCCIEngine::new().unwrap();
    engine.board = Board::from_fen("3krr3/9/9/9/9/9/9/9/4p4/4K4 w - - 0 1");
    match engine.go(2) {
        GoOutcome::NoMove => {}
        other => panic!("expected no move, got {:?}", other),
    }
}

#[test]
fn weight_parsing() {
    assert_eq!(parse_i32("0"), Some(0));
    assert_eq!(parse_i32("12345"), Some(12345));
    assert_eq!(parse_i32("-17"), Some(-17));
    assert_eq!(parse_i32("+17"), Some(17));
    assert_eq!(parse_i32("2147483647"), Some(i32::MAX));
    assert_eq!(parse_i32("2147483648"), None);
    assert_eq!(parse_i32("-2147483648"), Some(i32::MIN));
    assert_eq!(parse_i32("-2147483649"), None);
    assert_eq!(parse_i32(""), None);
    assert_eq!(parse_i32("-"), None);
    assert_eq!(parse_i32("1x"), None);
    assert_eq!(parse_i32("99999999999999999999"), None);
}
