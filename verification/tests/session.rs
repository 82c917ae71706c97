use chess_session::codec::save_file_name;
use chess_session::{get_unix_timestamp, Board, Game, GameStatus, Player};

fn start_fen() -> String {
    String::from("rnbqkbnr/pppppppp/8/8/8/8/PPPPPPPP/RNBQKBNR w KQkq - 0 1")
}

#[test]
fn fresh_board_prints_standard_start() {
    let b = Board::default();
    assert_eq!(b.to_fen(), start_fen());
}

#[test]
fn encoding_round_trip_start() {
    let b = Board::default();
    let f = b.to_fen();
    let b2 = Board::from_fen(&f);
    assert_eq!(b2.to_fen(), f);
}

#[test]
fn encoding_round_trip_after_moves() {
    let mut g = Game::default();
    assert!(g.make_move("e2e4"));
    assert!(g.make_move("c7c5"));
    let f = g.current_fen();
    let b2 = Board::from_fen(&f);
    assert_eq!(b2.to_fen(), f);
}

#[test]
fn invalid_encoding_falls_back_to_start() {
    let junk = String::from("this is not a position");
    assert_eq!(Board::from_fen(&junk).to_fen(), start_fen());
    let no_kings = String::from("8/8/8/8/8/8/8/8 w - - 0 1");
    assert_eq!(Board::from_fen(&no_kings).to_fen(), start_fen());
    let zero_fullmove = String::from(
        "rnbqkbnr/pppppppp/8/8/8/8/PPPPPPPP/RNBQKBNR w KQkq - 0 0",
    );
    assert_eq!(Board::from_fen(&zero_fullmove).to_fen(), start_fen());
    let bad_castling = String::from("rnbqkbnr/pppppppp/8/8/8/8/PPPPPPPP/RNBQKBNR w Xq - 0 1");
    assert_eq!(Board::from_fen(&bad_castling).to_fen(), start_fen());
}

#[test]
fn first_move_switches_turn_and_is_recorded() {
    let mut g = Game::default();
    assert_eq!(g.current_turn(), Player::White);
    assert!(g.make_move("e2e4"));
    assert_eq!(g.current_turn(), Player::Black);
    assert_eq!(g.last_move(), Some(String::from("e2e4")));
    assert_eq!(g.history_len(), 1);
}

#[test]
fn illegal_move_leaves_session_unchanged() {
    let mut g = Game::default();
    let doc_before = g.save_document();
    let fen_before = g.current_fen();
    assert!(!g.make_move("e2e5"));
    assert_eq!(g.history_len(), 0);
    assert_eq!(g.current_turn(), Player::White);
    assert_eq!(g.last_move(), None);
    assert_eq!(g.current_fen(), fen_before);
    assert_eq!(g.save_document(), doc_before);
}

#[test]
fn status_is_deterministic() {
    let mut g = Game::default();
    assert_eq!(g.status(), g.status());
    assert!(g.make_move("e2e4"));
    assert_eq!(g.status(), g.status());
}

#[test]
fn fools_mate_is_checkmate_and_rejects_all_moves() {
    let mut g = Game::default();
    assert!(g.make_move("f2f3"));
    assert!(g.make_move("e7e5"));
    assert!(g.make_move("g2g4"));
    assert!(g.make_move("d8h4"));
    assert_eq!(g.status(), GameStatus::Checkmate);
    let before = g.save_document();
    assert!(!g.make_move("e2e4"));
    assert!(!g.make_move("a2a3"));
    assert!(!g.make_move("g1f3"));
    assert_eq!(g.save_document(), before);
}

#[test]
fn stalemate_is_detected() {
    let f = String::from("7k/5Q2/6K1/8/8/8/8/8 b - - 0 1");
    let b = Board::from_fen(&f);
    assert!(b.is_stalemate());
    assert!(!b.is_checkmate());
}

#[test]
fn continuing_game_is_neither_mate_nor_stalemate() {
    let g = Game::default();
    assert_eq!(g.status(), GameStatus::Continuing);
}

#[test]
fn replaying_history_reproduces_current_position() {
    let mut g = Game::default();
    let tokens = ["e2e4", "e7e5", "g1f3", "b8c6"];
    for t in tokens {
        assert!(g.make_move(t));
    }
    let mut b = Board::default();
    for t in tokens {
        let next = b.make_move(t);
        b = next.expect("replayed move must be accepted");
    }
    assert_eq!(b.to_fen(), g.current_fen());
}

#[test]
fn move_validation_agrees_with_application() {
    let b = Board::default();
    assert!(b.move_is_valid("e2e4"));
    assert!(!b.move_is_valid("e2e5"));
    assert!(b.move_from_uci("e2e4").is_some());
    assert!(b.move_from_uci("e2e5").is_none());
    let mut b2 = Board::default();
    assert!(b2.make_move("e2e4").is_some());
    assert!(b2.make_move("e2e5").is_none());
}

#[test]
fn score_is_zero() {
    assert_eq!(Board::default().score(), 0);
}

#[test]
fn pretty_rendering_of_start_position() {
    let b = Board::default();
    let expected = "8 | r n b q k b n r \n\
                    7 | p p p p p p p p \n\
                    6 | - - - - - - - - \n\
                    5 | - - - - - - - - \n\
                    4 | - - - - - - - - \n\
                    3 | - - - - - - - - \n\
                    2 | P P P P P P P P \n\
                    1 | R N B Q K B N R \n  ------------------\n    a b c d e f g h";
    assert_eq!(b.to_pretty_string(), expected);
}

#[test]
fn save_document_of_fresh_session() {
    let g = Game::default();
    let expected = format!(
        "{{\"position\":\"{}\",\"history\":[],\"date\":{}}}",
        start_fen(),
        g.created_at()
    );
    assert_eq!(g.save_document(), expected);
}

#[test]
fn save_document_records_history() {
    let mut g = Game::default();
    assert!(g.make_move("e2e4"));
    let doc = g.save_document();
    let expected = format!(
        "{{\"position\":\"{}\",\"history\":[{{\"fen\":\"{}\",\"uci_move\":\"e2e4\"}}],\"date\":{}}}",
        g.current_fen(),
        g.current_fen(),
        g.created_at()
    );
    assert_eq!(doc, expected);
}

#[test]
fn save_file_name_shape() {
    assert_eq!(save_file_name(1700000000), "saves/1700000000.save");
    assert_eq!(save_file_name(0), "saves/0.save");
}

#[test]
fn document_round_trip_fresh() {
    let g = Game::default();
    let doc = g.save_document();
    let g2 = Game::from_document(doc.as_str()).expect("own document must parse");
    assert_eq!(g2.current_fen(), g.current_fen());
    assert_eq!(g2.history_len(), 0);
    assert_eq!(g2.created_at(), g.created_at());
}

#[test]
fn document_round_trip_with_history() {
    let mut g = Game::default();
    assert!(g.make_move("e2e4"));
    assert!(g.make_move("e7e5"));
    let doc = g.save_document();
    let g2 = Game::from_document(doc.as_str()).expect("own document must parse");
    assert_eq!(g2.current_fen(), g.current_fen());
    assert_eq!(g2.history_len(), 2);
    assert_eq!(g2.last_move(), Some(String::from("e7e5")));
    assert_eq!(g2.save_document(), doc);
}

#[test]
fn malformed_documents_are_rejected() {
    assert!(Game::from_document("").is_none());
    assert!(Game::from_document("garbage").is_none());
    assert!(Game::from_document("{\"position\":\"x\",\"history\":[],\"date\":}").is_none());
    assert!(Game::from_document("{\"position\":\"x\",\"history\":[],\"date\":01}").is_none());
    assert!(Game::from_document("{\"position\":\"x\",\"history\":[],\"date\":5").is_none());
    assert!(Game::from_document("{\"position\":\"x\",\"history\":[,],\"date\":5}").is_none());
    assert!(Game::from_document("{\"position\":\"x\",\"history\":[],\"date\":5}x").is_none());
}

#[test]
fn document_strings_unescape_and_reescape() {
    let doc = "{\"position\":\"x\",\"history\":[{\"fen\":\"a\\\\b\",\"uci_move\":\"c\\\"d\"}],\"date\":5}";
    let g = Game::from_document(doc).expect("escaped document must parse");
    assert_eq!(g.last_move(), Some(String::from("c\"d")));
    assert_eq!(g.created_at(), 5);
    assert_eq!(g.current_fen(), start_fen());
    let doc2 = g.save_document();
    let expected = format!(
        "{{\"position\":\"{}\",\"history\":[{{\"fen\":\"a\\\\b\",\"uci_move\":\"c\\\"d\"}}],\"date\":5}}",
        start_fen()
    );
    assert_eq!(doc2, expected);
}

#[test]
fn unix_timestamp_of_given_time() {
    let t = std::time::UNIX_EPOCH + std::time::Duration::from_secs(42);
    assert_eq!(get_unix_timestamp(Some(t)), 42);
    assert!(get_unix_timestamp(None) > 0);
}

#[test]
fn promotion_token_is_applied() {
    let f = String::from("8/P6k/8/8/8/8/7K/8 w - - 0 1");
    let mut b = Board::from_fen(&f);
    assert_eq!(b.to_fen(), f);
    let next = b.make_move("a7a8q");
    let next = next.expect("promotion must be a legal move here");
    assert!(next.to_fen().starts_with("Q7/"));
}

#[test]
fn side_to_move_is_read_from_the_encoding() {
    let f = String::from("rnbqkbnr/pppppppp/8/8/4P3/8/PPPP1PPP/RNBQKBNR b KQkq - 0 1");
    let b = Board::from_fen(&f);
    assert_eq!(b.current_turn(), Player::Black);
    assert_eq!(Board::default().current_turn(), Player::White);
}

#[test]
fn semantically_invalid_position_falls_back() {
    let nine_pawns = String::from("rnbqkbnr/pppppppp/8/8/8/7P/PPPPPPPP/RNBQKBNR w KQkq - 0 1");
    assert_eq!(Board::from_fen(&nine_pawns).to_fen(), start_fen());
}

#[test]
fn replay_skips_nothing_after_rejected_moves() {
    let mut g = Game::default();
    assert!(g.make_move("e2e4"));
    assert!(!g.make_move("e2e4"));
    assert!(g.make_move("e7e5"));
    assert_eq!(g.history_len(), 2);
    let mut b = Board::default();
    b = b.make_move("e2e4").expect("first move replays");
    b = b.make_move("e7e5").expect("second move replays");
    assert_eq!(b.to_fen(), g.current_fen());
}

#[test]
fn capturable_king_encoding_falls_back() {
    let exposed = String::from("k6R/8/8/8/8/8/8/K7 w - - 0 1");
    assert_eq!(Board::from_fen(&exposed).to_fen(), start_fen());
}

#[test]
fn counter_edge_rejects_moves() {
    let edge = String::from("k7/8/8/8/8/8/8/K7 w - - 32767 100");
    let mut b = Board::from_fen(&edge);
    assert_eq!(b.to_fen(), edge);
    assert!(b.make_move("a1b1").is_none());
    let near = String::from("k7/8/8/8/8/8/8/K7 w - - 100 32768");
    let mut b2 = Board::from_fen(&near);
    assert_eq!(b2.to_fen(), near);
    assert!(b2.make_move("a1b1").is_none());
}

#[test]
fn turn_flips_only_on_success() {
    let mut g = Game::default();
    assert!(!g.make_move("h2h5"));
    assert_eq!(g.current_turn(), Player::White);
    assert!(g.make_move("h2h4"));
    assert_eq!(g.current_turn(), Player::Black);
    assert!(g.make_move("g8f6"));
    assert_eq!(g.current_turn(), Player::White);
}
