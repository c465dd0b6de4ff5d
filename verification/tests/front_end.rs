//! The setup and front-end helpers: text interpretation, coordinate
//! mapping, click handling, and board rendering.

use std::str::FromStr;

use playchess::rules::board_pieces;
use playchess::setup::{
    parse_depth_choice, parse_player_choice, parse_u8, parse_visual_choice, str_eq, trim_newline,
    GameVisual, Player, PlayerType,
};
use playchess::types::{Move, PieceKind, Side};
use playchess::ui::{
    board_lines, board_square_to_canvas_square, canvas_coord_to_canvas_square,
    canvas_square_to_board_square, handle_click, initial_pov, movegen, movegen_empty,
    ClickOutcome,
};

#[test]
fn str_eq_compares_contents() {
    assert!(str_eq("human", "human"));
    assert!(!str_eq("human", "humane"));
    assert!(!str_eq("bot", "bOt"));
    assert!(str_eq("", ""));
}

#[test]
fn player_choice_is_exactly_human_or_bot() {
    assert_eq!(parse_player_choice("human"), Some(PlayerType::Human));
    assert_eq!(parse_player_choice("bot"), Some(PlayerType::Bot));
    assert_eq!(parse_player_choice("Human"), None);
    assert_eq!(parse_player_choice(""), None);
}

#[test]
fn visual_choice_is_exactly_commandline_or_gui() {
    assert_eq!(parse_visual_choice("commandline"), Some(GameVisual::CommandLine));
    assert_eq!(parse_visual_choice("gui"), Some(GameVisual::Gui));
    assert_eq!(parse_visual_choice("window"), None);
}

#[test]
fn parse_u8_reads_decimal_bytes() {
    assert_eq!(parse_u8("3"), Some(3));
    assert_eq!(parse_u8("007"), Some(7));
    assert_eq!(parse_u8("+17"), Some(17));
    assert_eq!(parse_u8("255"), Some(255));
    assert_eq!(parse_u8("256"), None);
    assert_eq!(parse_u8("99999999999999999999"), None);
    assert_eq!(parse_u8(""), None);
    assert_eq!(parse_u8("+"), None);
    assert_eq!(parse_u8("12x"), None);
    assert_eq!(parse_u8("-3"), None);
}

#[test]
fn depth_choice_falls_back_to_three() {
    assert_eq!(parse_depth_choice("5"), 5);
    assert_eq!(parse_depth_choice("junk"), 3);
    assert_eq!(parse_depth_choice(""), 3);
}

#[test]
fn trim_newline_strips_line_breaks() {
    let mut a = String::from("bot\n");
    trim_newline(&mut a);
    assert_eq!(a, "bot");
    let mut b = String::from("bot\r\n");
    trim_newline(&mut b);
    assert_eq!(b, "bot");
    let mut c = String::from("bot");
    trim_newline(&mut c);
    assert_eq!(c, "bot");
    let mut d = String::from("\n");
    trim_newline(&mut d);
    assert_eq!(d, "");
}

#[test]
fn players_know_their_kind() {
    let human = Player::new_human(Side::White);
    assert!(human.is_human());
    let bot = Player::new_bot(Side::Black, 2, false);
    assert!(!bot.is_human());
    let board = chess::Board::default();
    // A bot player must be told to move only on its own turn; here White's
    // opening move comes from a white bot.
    let white_bot = Player::new_bot(Side::White, 2, false);
    let mv = white_bot.bot_move(&board);
    assert!(mv.from < 64 && mv.to < 64);
}

#[test]
fn canvas_coordinates_map_to_tiles() {
    assert_eq!(canvas_coord_to_canvas_square(250, 730, 1), (2, 7));
    assert_eq!(canvas_coord_to_canvas_square(0, 0, 2), (0, 0));
    assert_eq!(canvas_coord_to_canvas_square(799, 799, 1), (7, 7));
}

#[test]
fn tiles_map_to_squares_and_back() {
    // From White's point of view the tile (4, 6) shows e2, square 12.
    assert_eq!(canvas_square_to_board_square((4, 6), 1), 12);
    assert_eq!(board_square_to_canvas_square(12, 1), (4, 6));
    // Rotated, the same tile shows d7.
    assert_eq!(canvas_square_to_board_square((4, 6), 2), 51);
    assert_eq!(board_square_to_canvas_square(51, 2), (4, 6));
}

#[test]
fn initial_pov_faces_the_human() {
    assert_eq!(initial_pov(true, true), 1);
    assert_eq!(initial_pov(false, true), 2);
    assert_eq!(initial_pov(true, false), 1);
    assert_eq!(initial_pov(false, false), 1);
}

#[test]
fn movegen_lists_moves_of_one_square() {
    let board = chess::Board::default();
    let pawn_moves = movegen(&board, 12, Side::White);
    assert_eq!(pawn_moves.len(), 2);
    assert!(pawn_moves.contains(&Move { from: 12, to: 20, promotion: None }));
    assert!(pawn_moves.contains(&Move { from: 12, to: 28, promotion: None }));
    let empty_square = movegen(&board, 27, Side::White);
    assert_eq!(empty_square.len(), 0);
    assert_eq!(movegen_empty().len(), 0);
}

#[test]
fn clicks_select_play_and_reselect() {
    let board = chess::Board::default();
    let sqs = board_pieces(&board);
    let legal = movegen(&board, 12, Side::White);
    // Nothing selected yet: the click selects the e2 tile.
    let select = handle_click(false, (-1, -1), (4, 6), 1, &sqs, Side::White, &movegen_empty());
    assert_eq!(select, ClickOutcome::Select { field: (4, 6), square: 12 });
    // e2 selected, e4 clicked: the pawn move is played.
    let play = handle_click(true, (4, 6), (4, 4), 1, &sqs, Side::White, &legal);
    assert_eq!(play, ClickOutcome::Play { mv: Move { from: 12, to: 28, promotion: None } });
    // e2 selected, d2 clicked: no move ends there, so the selection moves.
    let reselect = handle_click(true, (4, 6), (3, 6), 1, &sqs, Side::White, &legal);
    assert_eq!(reselect, ClickOutcome::Reselect { field: (3, 6), square: 11 });
    // The selected tile clicked again: nothing happens.
    let ignore = handle_click(true, (4, 6), (4, 6), 1, &sqs, Side::White, &legal);
    assert_eq!(ignore, ClickOutcome::Ignore);
}

#[test]
fn promotion_clicks_ask_for_a_queen() {
    let board = chess::Board::from_str("8/4P2k/8/8/8/8/8/4K3 w - - 0 1").expect("valid FEN");
    let sqs = board_pieces(&board);
    let legal = movegen(&board, 52, Side::White);
    // e7 selected, e8 clicked: the pawn promotes.
    let play = handle_click(true, (4, 1), (4, 0), 1, &sqs, Side::White, &legal);
    assert_eq!(
        play,
        ClickOutcome::Play {
            mv: Move { from: 52, to: 60, promotion: Some(PieceKind::Queen) },
        }
    );
}

#[test]
fn board_lines_show_the_start_position() {
    let board = chess::Board::default();
    let sqs = board_pieces(&board);
    let lines = board_lines(&sqs);
    assert_eq!(lines.len(), 8);
    assert_eq!(lines[0], "8 |r |n |b |q |k |b |n |r |");
    assert_eq!(lines[1], "7 |p |p |p |p |p |p |p |p |");
    assert_eq!(lines[3], "5 |  |  |  |  |  |  |  |  |");
    assert_eq!(lines[6], "2 |P |P |P |P |P |P |P |P |");
    assert_eq!(lines[7], "1 |R |N |B |Q |K |B |N |R |");
}
