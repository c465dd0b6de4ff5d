//! The evaluator and the searcher, exercised on real boards of the rules
//! engine.

use std::str::FromStr;

use playchess::eval::{eval_from_fen, eval_piecescore_simple, evaluate, force_king_to_corner, INFINITY};
use playchess::rules::{board_pieces, moves_of, parse_move, side_of, status_of};
use playchess::search::Bot;
use playchess::types::{Move, Piece, PieceKind, Side, Status};

const SCHOLARS_MATE: &str = "r1bqkb1r/pppp1Qpp/2n2n2/4p3/2B1P3/8/PPPP1PPP/RNB1K1NR b KQkq - 0 4";
const FOOLS_MATE: &str = "rnb1kbnr/pppp1ppp/8/4p3/6Pq/5P2/PPPPP2P/RNBQKBNR w KQkq - 1 3";
const STALEMATE: &str = "k7/8/1Q6/8/8/8/8/7K b - - 0 1";
const MATE_IN_ONE: &str = "r1bqkb1r/pppp1ppp/2n2n2/4p2Q/2B1P3/8/PPPP1PPP/RNB1K1NR w KQkq - 4 4";
const MATE_IN_THREE_PLIES: &str = "6k1/8/R7/1R6/8/8/8/7K w - - 0 1";
const KQ_VS_K: &str = "8/8/8/4k3/8/8/3Q4/4K3 w - - 0 1";

#[test]
fn it_works() {
    let result = 2 + 2;
    assert_eq!(result, 4);
}

#[test]
fn lib_it_works() {
    let result = 2 + 2;
    assert_eq!(result, 4);
}

#[test]
fn evaluate_start_position_is_zero() {
    let board = chess::Board::default();
    assert_eq!(evaluate(&board), 0);
}

#[test]
fn evaluate_checkmate_black_to_move_is_positive_sentinel() {
    let board = chess::Board::from_str(SCHOLARS_MATE).expect("valid FEN");
    assert_eq!(board.status(), chess::BoardStatus::Checkmate);
    assert_eq!(evaluate(&board), INFINITY);
}

#[test]
fn evaluate_checkmate_white_to_move_is_negative_sentinel() {
    let board = chess::Board::from_str(FOOLS_MATE).expect("valid FEN");
    assert_eq!(board.status(), chess::BoardStatus::Checkmate);
    assert_eq!(evaluate(&board), -INFINITY);
}

#[test]
fn evaluate_stalemate_is_zero() {
    let board = chess::Board::from_str(STALEMATE).expect("valid FEN");
    assert_eq!(board.status(), chess::BoardStatus::Stalemate);
    assert_eq!(evaluate(&board), 0);
}

#[test]
fn eval_from_fen_matches_evaluate() {
    let board = chess::Board::default();
    let fen = "rnbqkbnr/pppppppp/8/8/8/8/PPPPPPPP/RNBQKBNR w KQkq - 0 1";
    assert_eq!(eval_from_fen(fen), Some(evaluate(&board)));
    assert_eq!(eval_from_fen("not a fen"), None);
}

#[test]
fn eval_piecescore_simple_start_is_zero_and_counts_material() {
    let board = chess::Board::default();
    assert_eq!(eval_piecescore_simple(&board), 0);
    // King and queen against a bare king: queen 90, no-pawn penalty -5 on
    // both sides cancels out.
    let kq = chess::Board::from_str(KQ_VS_K).expect("valid FEN");
    assert_eq!(eval_piecescore_simple(&kq), 90);
}

#[test]
fn force_king_to_corner_center_and_corner() {
    // White king on d4 (square 27) sits at the center, Black king on a1
    // (square 0) in the corner; the black distance is returned first.
    assert_eq!(force_king_to_corner(27, 0), (6, 0));
    assert_eq!(force_king_to_corner(0, 27), (0, 6));
}

#[test]
fn board_pieces_reads_the_start_position() {
    let board = chess::Board::default();
    let sqs = board_pieces(&board);
    assert_eq!(sqs.len(), 64);
    assert_eq!(sqs[0], Some(Piece { kind: PieceKind::Rook, side: Side::White }));
    assert_eq!(sqs[4], Some(Piece { kind: PieceKind::King, side: Side::White }));
    assert_eq!(sqs[12], Some(Piece { kind: PieceKind::Pawn, side: Side::White }));
    assert_eq!(sqs[27], None);
    assert_eq!(sqs[59], Some(Piece { kind: PieceKind::Queen, side: Side::Black }));
    assert_eq!(sqs[63], Some(Piece { kind: PieceKind::Rook, side: Side::Black }));
}

#[test]
fn side_and_status_of_boards() {
    let board = chess::Board::default();
    assert_eq!(side_of(&board), Side::White);
    assert_eq!(status_of(&board), Status::Ongoing);
    let mate = chess::Board::from_str(SCHOLARS_MATE).expect("valid FEN");
    assert_eq!(side_of(&mate), Side::Black);
    assert_eq!(status_of(&mate), Status::Checkmate);
    let stale = chess::Board::from_str(STALEMATE).expect("valid FEN");
    assert_eq!(status_of(&stale), Status::Stalemate);
}

#[test]
fn moves_of_start_position_has_twenty_moves() {
    let board = chess::Board::default();
    let moves = moves_of(&board);
    assert_eq!(moves.len(), 20);
    for m in &moves {
        assert!(m.from < 64 && m.to < 64);
    }
}

#[test]
fn parse_move_reads_san() {
    let board = chess::Board::default();
    assert_eq!(
        parse_move(&board, "e4"),
        Some(Move { from: 12, to: 28, promotion: None })
    );
    assert_eq!(
        parse_move(&board, "Nf3"),
        Some(Move { from: 6, to: 21, promotion: None })
    );
    assert_eq!(parse_move(&board, "zzz"), None);
    assert_eq!(parse_move(&board, "Qh5"), None);
}

#[test]
fn search_is_deterministic() {
    let board = chess::Board::default();
    let bot = Bot::new(Side::White, 3, false);
    let first = bot.negamax(&board, 3, -INFINITY, INFINITY, 1);
    let second = bot.negamax(&board, 3, -INFINITY, INFINITY, 1);
    assert_eq!(first.0, second.0);
    assert_eq!(first.1, second.1);
    assert_eq!(first.2, second.2);
}

#[test]
fn search_start_position_returns_a_legal_quiet_move() {
    let board = chess::Board::default();
    let bot = Bot::new(Side::White, 2, false);
    let (score, best, nodes) = bot.negamax(&board, 2, -INFINITY, INFINITY, 1);
    let best = best.expect("the start position has moves");
    let legal = moves_of(&board);
    assert!(legal.contains(&best));
    assert!(score.abs() < 2000);
    assert!(nodes > 0);
}

#[test]
fn node_count_grows_with_depth() {
    let board = chess::Board::default();
    let bot = Bot::new(Side::White, 3, false);
    let shallow = bot.negamax(&board, 1, -INFINITY, INFINITY, 1).2;
    let middle = bot.negamax(&board, 2, -INFINITY, INFINITY, 1).2;
    let deep = bot.negamax(&board, 3, -INFINITY, INFINITY, 1).2;
    assert!(shallow <= middle);
    assert!(middle <= deep);
    assert_eq!(shallow, 20);
}

#[test]
fn mate_in_one_outranks_mate_in_three() {
    let bot = Bot::new(Side::White, 3, false);
    let near = chess::Board::from_str(MATE_IN_ONE).expect("valid FEN");
    let far = chess::Board::from_str(MATE_IN_THREE_PLIES).expect("valid FEN");
    let (near_score, near_move, _) = bot.negamax(&near, 3, -INFINITY, INFINITY, 1);
    let (far_score, far_move, _) = bot.negamax(&far, 3, -INFINITY, INFINITY, 1);
    assert_eq!(near_score, INFINITY);
    assert_eq!(far_score, INFINITY - 1);
    assert!(near_score > far_score);
    assert!(near_move.is_some());
    assert!(far_move.is_some());
}

#[test]
fn pruning_and_plain_order_agree_on_the_score() {
    let board = chess::Board::default();
    let bot = Bot::new(Side::White, 3, false);
    let ordered = bot.negamax(&board, 3, -INFINITY, INFINITY, 1);
    let plain = bot.negamax_no_moveorder(&board, 3, -INFINITY, INFINITY, 1);
    assert_eq!(ordered.0, plain.0);
}

#[test]
fn queen_endgame_scores_strongly_positive() {
    let board = chess::Board::from_str(KQ_VS_K).expect("valid FEN");
    let bot = Bot::new(Side::White, 3, false);
    let (score, best, _) = bot.negamax(&board, 3, -INFINITY, INFINITY, 1);
    let best = best.expect("White has moves");
    assert!(moves_of(&board).contains(&best));
    assert!(score > 400);
}

#[test]
fn get_move_picks_the_searched_move_and_falls_back_when_stuck() {
    let board = chess::Board::default();
    let bot = Bot::new(Side::White, 2, false);
    let chosen = bot.get_move(&board);
    let (_, best, _) = bot.negamax(&board, 2, -INFINITY, INFINITY, 1);
    assert_eq!(Some(chosen), best);
    // On a finished game there is no move; the placeholder a1a2 comes back.
    let mate = chess::Board::from_str(SCHOLARS_MATE).expect("valid FEN");
    let black_bot = Bot::new(Side::Black, 2, false);
    assert_eq!(
        black_bot.get_move(&mate),
        Move { from: 0, to: 8, promotion: None }
    );
}

#[test]
fn bot_eval_matches_evaluate() {
    let board = chess::Board::default();
    let bot = Bot::new(Side::Black, 1, false);
    assert_eq!(bot.eval(&board), evaluate(&board));
    assert_eq!(bot.color, Side::Black);
}
