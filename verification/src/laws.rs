//! The engine's laws: properties of the evaluator and the searcher, proved
//! once and for all over the searcher's mathematical definition.
//!
//! The searcher runs on boards the rules engine produces, and its laws hold
//! on the game trees such boards span. `sound_tree` writes down what the
//! rules engine guarantees of every position in such a tree: 64 squares, a
//! legal move whenever the game is not over, and the turn alternating with
//! every move. `mate_free` marks the trees in which no checkmate occurs.

use vstd::prelude::*;

use crate::eval::{
    count_pieces, lemma_evaluate_bounds, mirror_square, spec_evaluate, INFINITY,
};
use crate::rules::{board_after, board_moves, board_squares, board_state, board_turn};
use crate::search::{
    captures_in, correct_mate, is_capture, noncaptures_in, spec_minimax, spec_minimax_children,
    spec_move_order, spec_negamax, spec_search_children,
};
use crate::types::{Move, Piece, PieceKind, Side, Status};

verus! {

/// A bound every static evaluation of a checkmate-free position respects:
/// far below the mate sentinel, whatever the search depth.
pub const EVAL_BOUND: i32 = 2000000;

/// What the rules engine guarantees of every position within `depth` plies
/// of `b`: the board has 64 squares, an ongoing position has a legal move,
/// and playing a move passes the turn to the other side.
pub open spec fn sound_tree(b: chess::Board, depth: nat) -> bool
    decreases depth,
{
    &&& board_squares(b).len() == 64
    &&& (board_state(b) == Status::Ongoing ==> board_moves(b).len() > 0)
    &&& (depth > 0 ==> forall|i: int|
        0 <= i < board_moves(b).len() ==> board_turn(
            board_after(b, #[trigger] board_moves(b)[i]),
        ) == board_turn(b).spec_other() && sound_tree(
            board_after(b, board_moves(b)[i]),
            (depth - 1) as nat,
        ))
}

/// No position within `depth` plies of `b` is a checkmate.
pub open spec fn mate_free(b: chess::Board, depth: nat) -> bool
    decreases depth,
{
    &&& board_state(b) != Status::Checkmate
    &&& (depth > 0 ==> forall|i: int|
        0 <= i < board_moves(b).len() ==> mate_free(
            board_after(b, #[trigger] board_moves(b)[i]),
            (depth - 1) as nat,
        ))
}

proof fn lemma_captures_in_subset(ms: Seq<Move>, sqs: Seq<Option<Piece>>, turn: Side)
    ensures
        forall|x: Move| captures_in(ms, sqs, turn).contains(x) ==> ms.contains(x),
        forall|x: Move| noncaptures_in(ms, sqs, turn).contains(x) ==> ms.contains(x),
    decreases ms.len(),
{
    if ms.len() > 0 {
        lemma_captures_in_subset(ms.drop_last(), sqs, turn);
        let sub_c = captures_in(ms.drop_last(), sqs, turn);
        let sub_n = noncaptures_in(ms.drop_last(), sqs, turn);
        assert forall|x: Move| captures_in(ms, sqs, turn).contains(x) implies ms.contains(x) by {
            let caps = captures_in(ms, sqs, turn);
            let k = choose|k: int| 0 <= k < caps.len() && caps[k] == x;
            if is_capture(sqs, turn, ms.last()) && k == sub_c.len() {
                assert(ms[ms.len() - 1] == x);
            } else {
                assert(sub_c.contains(x)) by {
                    assert(sub_c[k] == x);
                }
                assert(ms.drop_last().contains(x));
                let i = choose|i: int| 0 <= i < ms.drop_last().len() && ms.drop_last()[i] == x;
                assert(ms[i] == x);
            }
        }
        assert forall|x: Move| noncaptures_in(ms, sqs, turn).contains(x) implies ms.contains(x) by {
            let quiets = noncaptures_in(ms, sqs, turn);
            let k = choose|k: int| 0 <= k < quiets.len() && quiets[k] == x;
            if !is_capture(sqs, turn, ms.last()) && k == sub_n.len() {
                assert(ms[ms.len() - 1] == x);
            } else {
                assert(sub_n.contains(x)) by {
                    assert(sub_n[k] == x);
                }
                assert(ms.drop_last().contains(x));
                let i = choose|i: int| 0 <= i < ms.drop_last().len() && ms.drop_last()[i] == x;
                assert(ms[i] == x);
            }
        }
    }
}

/// Every move the searcher examines is a legal move of the board.
pub proof fn lemma_move_order_subset(b: chess::Board, captures_first: bool)
    ensures
        forall|j: int|
            0 <= j < spec_move_order(b, captures_first).len() ==> board_moves(b).contains(
                #[trigger] spec_move_order(b, captures_first)[j],
            ),
        spec_move_order(b, captures_first).len() == board_moves(b).len(),
{
    let ms = board_moves(b);
    let sqs = board_squares(b);
    let turn = board_turn(b);
    crate::search::lemma_parts_len(ms, sqs, turn);
    if captures_first {
        lemma_captures_in_subset(ms, sqs, turn);
        let caps = captures_in(ms, sqs, turn);
        let quiets = noncaptures_in(ms, sqs, turn);
        assert forall|j: int|
            0 <= j < spec_move_order(b, captures_first).len() implies board_moves(b).contains(
            #[trigger] spec_move_order(b, captures_first)[j],
        ) by {
            if j < caps.len() {
                assert(caps.contains(caps[j]));
                assert(spec_move_order(b, captures_first)[j] == caps[j]);
            } else {
                assert(quiets.contains(quiets[j - caps.len()]));
                assert(spec_move_order(b, captures_first)[j] == quiets[j - caps.len()]);
            }
        }
    } else {
        assert forall|j: int|
            0 <= j < spec_move_order(b, captures_first).len() implies board_moves(b).contains(
            #[trigger] spec_move_order(b, captures_first)[j],
        ) by {
            assert(board_moves(b)[j] == spec_move_order(b, captures_first)[j]);
        }
    }
}

/// The guarantees of `sound_tree` and `mate_free` pass from a board to the
/// boards one searched move away.
proof fn lemma_tree_step(b: chess::Board, depth: nat, captures_first: bool, j: int)
    requires
        sound_tree(b, depth),
        depth > 0,
        0 <= j < spec_move_order(b, captures_first).len(),
    ensures
        sound_tree(board_after(b, spec_move_order(b, captures_first)[j]), (depth - 1) as nat),
        board_turn(board_after(b, spec_move_order(b, captures_first)[j])) == board_turn(
            b,
        ).spec_other(),
        mate_free(b, depth) ==> mate_free(
            board_after(b, spec_move_order(b, captures_first)[j]),
            (depth - 1) as nat,
        ),
{
    lemma_move_order_subset(b, captures_first);
    let m = spec_move_order(b, captures_first)[j];
    assert(board_moves(b).contains(m));
    let i = choose|i: int| 0 <= i < board_moves(b).len() && board_moves(b)[i] == m;
    assert(sound_tree(board_after(b, board_moves(b)[i]), (depth - 1) as nat));
    if mate_free(b, depth) {
        assert(mate_free(board_after(b, board_moves(b)[i]), (depth - 1) as nat));
    }
}

/// The image of the mate correction: whatever a child within the sentinel
/// band returns, the corrected score stays in the band and never reaches
/// its negative edge.
proof fn lemma_corrected_image(cs: int, bot_depth: int)
    requires
        -(INFINITY as int) <= cs <= INFINITY as int,
        0 <= bot_depth <= 255,
    ensures
        -(INFINITY as int) + 1 <= correct_mate(cs, bot_depth) <= INFINITY as int,
        correct_mate(cs, bot_depth) == INFINITY as int ==> cs == -(INFINITY as int),
{
}

/// Every search value stays within the sentinel band on a sound tree, and
/// a node that is searched below the leaves values strictly above the
/// band's negative edge.
pub proof fn lemma_negamax_bounds(
    b: chess::Board,
    depth: nat,
    alpha: int,
    beta: int,
    obj: int,
    bot_depth: int,
    captures_first: bool,
)
    requires
        sound_tree(b, depth),
        obj == 1 || obj == -1,
        0 <= bot_depth <= 255,
    ensures
        ({
            let v = spec_negamax(b, depth, alpha, beta, obj, bot_depth, captures_first);
            &&& -(INFINITY as int) <= v.0 <= INFINITY as int
            &&& (depth > 0 && board_state(b) == Status::Ongoing ==> -(INFINITY as int) + 1 <= v.0)
        }),
    decreases depth, 1int, 0int,
{
    if depth == 0 || board_state(b) != Status::Ongoing {
        lemma_evaluate_bounds(board_squares(b), board_turn(b), board_state(b));
    } else {
        lemma_move_order_subset(b, captures_first);
        lemma_fold_bounds(
            b,
            spec_move_order(b, captures_first),
            0,
            depth,
            alpha,
            beta,
            i32::MIN as int,
            None,
            0,
            obj,
            bot_depth,
            captures_first,
        );
    }
}

/// The fold over children keeps its running best within the band once one
/// child has been examined.
proof fn lemma_fold_bounds(
    b: chess::Board,
    moves: Seq<Move>,
    i: int,
    depth: nat,
    alpha: int,
    beta: int,
    best: int,
    best_move: Option<Move>,
    count: nat,
    obj: int,
    bot_depth: int,
    captures_first: bool,
)
    requires
        sound_tree(b, depth),
        depth > 0,
        moves == spec_move_order(b, captures_first),
        0 <= i <= moves.len(),
        obj == 1 || obj == -1,
        0 <= bot_depth <= 255,
        best == i32::MIN as int || -(INFINITY as int) + 1 <= best <= INFINITY as int,
    ensures
        ({
            let v = spec_search_children(
                b,
                moves,
                i,
                depth,
                alpha,
                beta,
                best,
                best_move,
                count,
                obj,
                bot_depth,
                captures_first,
            );
            &&& (best == i32::MIN as int && i >= moves.len() ==> v.0 == best)
            &&& (best != i32::MIN as int || i < moves.len() ==> -(INFINITY as int) + 1 <= v.0
                <= INFINITY as int)
        }),
    decreases depth, 0int, moves.len() - i,
{
    if i < 0 || i >= moves.len() {
    } else {
        lemma_tree_step(b, depth, captures_first, i);
        let child_board = board_after(b, moves[i]);
        lemma_negamax_bounds(
            child_board,
            (depth - 1) as nat,
            -beta,
            -alpha,
            -obj,
            bot_depth,
            captures_first,
        );
        let child = spec_negamax(
            child_board,
            (depth - 1) as nat,
            -beta,
            -alpha,
            -obj,
            bot_depth,
            captures_first,
        );
        lemma_corrected_image(child.0, bot_depth);
        let corrected = correct_mate(child.0, bot_depth);
        let new_best = if corrected > best {
            corrected
        } else {
            best
        };
        let new_alpha = if corrected > alpha {
            corrected
        } else {
            alpha
        };
        if new_alpha >= beta {
        } else {
            lemma_fold_bounds(
                b,
                moves,
                i + 1,
                depth,
                new_alpha,
                beta,
                new_best,
                if corrected > best {
                    Some(moves[i])
                } else {
                    best_move
                },
                count + child.2,
                obj,
                bot_depth,
                captures_first,
            );
        }
    }
}

/// The fold of the exhaustive search never lowers its running best, its
/// result is either that best or a score within the evaluation bound, and
/// it reaches at least the bound's negative edge once one child is seen.
proof fn lemma_mm_fold_props(
    b: chess::Board,
    moves: Seq<Move>,
    i: int,
    depth: nat,
    best: int,
    best_move: Option<Move>,
    count: nat,
    obj: int,
    bot_depth: int,
    captures_first: bool,
)
    requires
        sound_tree(b, depth),
        mate_free(b, depth),
        depth > 0,
        moves == spec_move_order(b, captures_first),
        0 <= i <= moves.len(),
        obj == 1 || obj == -1,
        0 <= bot_depth <= 255,
    ensures
        ({
            let vm = spec_minimax_children(
                b,
                moves,
                i,
                depth,
                best,
                best_move,
                count,
                obj,
                bot_depth,
                captures_first,
            );
            &&& vm.0 >= best
            &&& (vm.0 <= EVAL_BOUND as int || vm.0 == best)
            &&& (i < moves.len() ==> vm.0 >= -(EVAL_BOUND as int))
        }),
    decreases depth, 0int, moves.len() - i,
{
    if i < 0 || i >= moves.len() {
    } else {
        lemma_tree_step(b, depth, captures_first, i);
        let child = board_after(b, moves[i]);
        lemma_ab_matches_minimax(
            child,
            (depth - 1) as nat,
            -(INFINITY as int),
            INFINITY as int,
            -obj,
            bot_depth,
            captures_first,
        );
        let tc = spec_minimax(child, (depth - 1) as nat, -obj, bot_depth, captures_first).0;
        assert(INFINITY as int - 1 - bot_depth > EVAL_BOUND as int);
        assert(correct_mate(tc, bot_depth) == -tc);
        let corrected = -tc;
        let new_best = if corrected > best {
            corrected
        } else {
            best
        };
        lemma_mm_fold_props(
            b,
            moves,
            i + 1,
            depth,
            new_best,
            if corrected > best {
                Some(moves[i])
            } else {
                best_move
            },
            count + spec_minimax(child, (depth - 1) as nat, -obj, bot_depth, captures_first).2,
            obj,
            bot_depth,
            captures_first,
        );
    }
}

/// The heart of the alpha-beta equivalence: walking the same children, the
/// pruning fold and the exhaustive fold return the same score and move
/// whenever the pruning fold's answer lands strictly inside its original
/// window, and the pruning fold's answer bounds the exhaustive one from the
/// correct side when it lands on or outside an edge.
proof fn lemma_ab_children(
    b: chess::Board,
    moves: Seq<Move>,
    i: int,
    depth: nat,
    alpha0: int,
    alpha: int,
    beta: int,
    best_ab: int,
    move_ab: Option<Move>,
    cnt_ab: nat,
    best_mm: int,
    move_mm: Option<Move>,
    cnt_mm: nat,
    obj: int,
    bot_depth: int,
    captures_first: bool,
)
    requires
        sound_tree(b, depth),
        mate_free(b, depth),
        depth > 0,
        moves == spec_move_order(b, captures_first),
        0 <= i <= moves.len(),
        obj == 1 || obj == -1,
        0 <= bot_depth <= 255,
        -(INFINITY as int) <= alpha0 <= INFINITY as int,
        -(INFINITY as int) <= beta <= INFINITY as int,
        alpha0 < beta,
        alpha == if best_ab > alpha0 {
            best_ab
        } else {
            alpha0
        },
        alpha < beta,
        best_ab == i32::MIN as int || -(EVAL_BOUND as int) <= best_ab <= EVAL_BOUND as int,
        best_mm <= best_ab,
        best_ab > alpha0 ==> best_mm == best_ab && move_mm == move_ab,
    ensures
        ({
            let va = spec_search_children(
                b,
                moves,
                i,
                depth,
                alpha,
                beta,
                best_ab,
                move_ab,
                cnt_ab,
                obj,
                bot_depth,
                captures_first,
            );
            let vm = spec_minimax_children(
                b,
                moves,
                i,
                depth,
                best_mm,
                move_mm,
                cnt_mm,
                obj,
                bot_depth,
                captures_first,
            );
            &&& va.0 >= best_ab
            &&& (va.0 <= EVAL_BOUND as int || va.0 == best_ab)
            &&& (i < moves.len() ==> va.0 >= -(EVAL_BOUND as int))
            &&& (va.0 >= beta ==> vm.0 >= va.0)
            &&& (va.0 <= alpha0 ==> vm.0 <= va.0)
            &&& (alpha0 < va.0 < beta ==> va.0 == vm.0 && va.1 == vm.1)
        }),
    decreases depth, 0int, moves.len() - i,
{
    if i < 0 || i >= moves.len() {
    } else {
        lemma_tree_step(b, depth, captures_first, i);
        let child = board_after(b, moves[i]);
        lemma_ab_matches_minimax(
            child,
            (depth - 1) as nat,
            -beta,
            -alpha,
            -obj,
            bot_depth,
            captures_first,
        );
        let vc = spec_negamax(
            child,
            (depth - 1) as nat,
            -beta,
            -alpha,
            -obj,
            bot_depth,
            captures_first,
        ).0;
        let tc = spec_minimax(child, (depth - 1) as nat, -obj, bot_depth, captures_first).0;
        assert(INFINITY as int - 1 - bot_depth > EVAL_BOUND as int);
        let c_ab = correct_mate(vc, bot_depth);
        let c_true = correct_mate(tc, bot_depth);
        assert(c_ab == -vc && c_true == -tc);
        let new_best_ab = if c_ab > best_ab {
            c_ab
        } else {
            best_ab
        };
        let new_move_ab = if c_ab > best_ab {
            Some(moves[i])
        } else {
            move_ab
        };
        let new_alpha = if c_ab > alpha {
            c_ab
        } else {
            alpha
        };
        let new_best_mm = if c_true > best_mm {
            c_true
        } else {
            best_mm
        };
        let new_move_mm = if c_true > best_mm {
            Some(moves[i])
        } else {
            move_mm
        };
        let cm = spec_minimax(child, (depth - 1) as nat, -obj, bot_depth, captures_first);
        if vc <= -beta {
            // The child failed low against its own window, so the pruning
            // fold cuts off here with a score of at least beta, while the
            // true score of this child is at least as high.
            assert(tc <= vc);
            assert(c_true >= c_ab >= beta);
            assert(new_alpha >= beta);
            lemma_mm_fold_props(
                b,
                moves,
                i + 1,
                depth,
                new_best_mm,
                new_move_mm,
                cnt_mm + cm.2,
                obj,
                bot_depth,
                captures_first,
            );
        } else if vc >= -alpha {
            // The child failed high against its own window: its corrected
            // score cannot beat alpha, and its true score is even lower,
            // so neither fold's state changes in a way the claims can see.
            assert(tc >= vc);
            assert(c_true <= c_ab <= alpha);
            assert(new_alpha == alpha);
            assert(new_best_ab <= alpha);
            lemma_ab_children(
                b,
                moves,
                i + 1,
                depth,
                alpha0,
                if new_best_ab > alpha0 {
                    new_best_ab
                } else {
                    alpha0
                },
                beta,
                new_best_ab,
                new_move_ab,
                cnt_ab + spec_negamax(
                    child,
                    (depth - 1) as nat,
                    -beta,
                    -alpha,
                    -obj,
                    bot_depth,
                    captures_first,
                ).2,
                new_best_mm,
                new_move_mm,
                cnt_mm + cm.2,
                obj,
                bot_depth,
                captures_first,
            );
            assert(if new_best_ab > alpha0 {
                new_best_ab
            } else {
                alpha0
            } == new_alpha);
        } else {
            // The child's score lies strictly inside its window: pruning
            // and exhaustive search agree on it exactly, and both folds
            // adopt it as their new best.
            assert(vc == tc);
            assert(c_ab == c_true);
            assert(alpha < c_ab < beta);
            assert(c_ab > best_ab && c_true > best_mm);
            assert(new_best_ab == c_ab && new_best_mm == c_ab);
            assert(new_alpha == c_ab);
            assert(new_alpha < beta);
            lemma_ab_children(
                b,
                moves,
                i + 1,
                depth,
                alpha0,
                new_alpha,
                beta,
                new_best_ab,
                new_move_ab,
                cnt_ab + spec_negamax(
                    child,
                    (depth - 1) as nat,
                    -beta,
                    -alpha,
                    -obj,
                    bot_depth,
                    captures_first,
                ).2,
                new_best_mm,
                new_move_mm,
                cnt_mm + cm.2,
                obj,
                bot_depth,
                captures_first,
            );
        }
    }
}

/// Fail-soft correctness of alpha-beta against the exhaustive search, on a
/// sound, checkmate-free tree: a score strictly inside the window is exact
/// (move included), a score on or beyond an edge bounds the true score
/// from that side, and all values stay within the evaluation bound.
pub proof fn lemma_ab_matches_minimax(
    b: chess::Board,
    depth: nat,
    alpha: int,
    beta: int,
    obj: int,
    bot_depth: int,
    captures_first: bool,
)
    requires
        sound_tree(b, depth),
        mate_free(b, depth),
        obj == 1 || obj == -1,
        0 <= bot_depth <= 255,
        -(INFINITY as int) <= alpha <= INFINITY as int,
        -(INFINITY as int) <= beta <= INFINITY as int,
        alpha < beta,
    ensures
        ({
            let v = spec_negamax(b, depth, alpha, beta, obj, bot_depth, captures_first);
            let t = spec_minimax(b, depth, obj, bot_depth, captures_first);
            &&& -(EVAL_BOUND as int) <= v.0 <= EVAL_BOUND as int
            &&& -(EVAL_BOUND as int) <= t.0 <= EVAL_BOUND as int
            &&& (v.0 <= alpha ==> t.0 <= v.0)
            &&& (v.0 >= beta ==> t.0 >= v.0)
            &&& (alpha < v.0 < beta ==> v.0 == t.0 && v.1 == t.1)
        }),
    decreases depth, 1int, 0int,
{
    if depth == 0 || board_state(b) != Status::Ongoing {
        lemma_evaluate_bounds(board_squares(b), board_turn(b), board_state(b));
    } else {
        lemma_move_order_subset(b, captures_first);
        lemma_ab_children(
            b,
            spec_move_order(b, captures_first),
            0,
            depth,
            alpha,
            alpha,
            beta,
            i32::MIN as int,
            None,
            0,
            i32::MIN as int,
            None,
            0,
            obj,
            bot_depth,
            captures_first,
        );
        lemma_mm_fold_props(
            b,
            spec_move_order(b, captures_first),
            0,
            depth,
            i32::MIN as int,
            None,
            0,
            obj,
            bot_depth,
            captures_first,
        );
    }
}

/// Alpha-beta equivalence: searched with the full window, the pruning
/// search of a sound, checkmate-free tree returns exactly the score and
/// the move of the exhaustive search over the same ordered tree. Pruning
/// changes only the node count.
pub proof fn lemma_alpha_beta_equivalence(
    b: chess::Board,
    depth: nat,
    obj: int,
    bot_depth: int,
    captures_first: bool,
)
    requires
        sound_tree(b, depth),
        mate_free(b, depth),
        obj == 1 || obj == -1,
        0 <= bot_depth <= 255,
    ensures
        spec_negamax(
            b,
            depth,
            -(INFINITY as int),
            INFINITY as int,
            obj,
            bot_depth,
            captures_first,
        ).0 == spec_minimax(b, depth, obj, bot_depth, captures_first).0,
        spec_negamax(
            b,
            depth,
            -(INFINITY as int),
            INFINITY as int,
            obj,
            bot_depth,
            captures_first,
        ).1 == spec_minimax(b, depth, obj, bot_depth, captures_first).1,
{
    lemma_ab_matches_minimax(
        b,
        depth,
        -(INFINITY as int),
        INFINITY as int,
        obj,
        bot_depth,
        captures_first,
    );
}

/// A tree sound to some depth is sound to every smaller depth.
pub proof fn lemma_sound_tree_mono(b: chess::Board, d1: nat, d2: nat)
    requires
        sound_tree(b, d1),
        d2 <= d1,
    ensures
        sound_tree(b, d2),
    decreases d1,
{
    if d2 > 0 {
        assert forall|i: int| 0 <= i < board_moves(b).len() implies board_turn(
            board_after(b, #[trigger] board_moves(b)[i]),
        ) == board_turn(b).spec_other() && sound_tree(
            board_after(b, board_moves(b)[i]),
            (d2 - 1) as nat,
        ) by {
            lemma_sound_tree_mono(board_after(b, board_moves(b)[i]), (d1 - 1) as nat, (d2 - 1) as nat);
        }
    }
}

/// Every search of a sound tree visits at least one node.
proof fn lemma_minimax_count_pos(
    b: chess::Board,
    depth: nat,
    obj: int,
    bot_depth: int,
    captures_first: bool,
)
    requires
        sound_tree(b, depth),
    ensures
        spec_minimax(b, depth, obj, bot_depth, captures_first).2 >= 1,
    decreases depth, 1int, 0int,
{
    if depth == 0 || board_state(b) != Status::Ongoing {
    } else {
        lemma_move_order_subset(b, captures_first);
        lemma_mm_fold_count_ge(
            b,
            spec_move_order(b, captures_first),
            0,
            depth,
            i32::MIN as int,
            None,
            0,
            obj,
            bot_depth,
            captures_first,
        );
    }
}

/// The exhaustive fold adds at least one visited node per remaining child.
proof fn lemma_mm_fold_count_ge(
    b: chess::Board,
    moves: Seq<Move>,
    i: int,
    depth: nat,
    best: int,
    best_move: Option<Move>,
    count: nat,
    obj: int,
    bot_depth: int,
    captures_first: bool,
)
    requires
        sound_tree(b, depth),
        depth > 0,
        moves == spec_move_order(b, captures_first),
        0 <= i <= moves.len(),
    ensures
        spec_minimax_children(
            b,
            moves,
            i,
            depth,
            best,
            best_move,
            count,
            obj,
            bot_depth,
            captures_first,
        ).2 >= count + (moves.len() - i),
    decreases depth, 0int, moves.len() - i,
{
    if i < 0 || i >= moves.len() {
    } else {
        lemma_tree_step(b, depth, captures_first, i);
        let child = board_after(b, moves[i]);
        lemma_minimax_count_pos(child, (depth - 1) as nat, -obj, bot_depth, captures_first);
        let cm = spec_minimax(child, (depth - 1) as nat, -obj, bot_depth, captures_first);
        let corrected = correct_mate(cm.0, bot_depth);
        lemma_mm_fold_count_ge(
            b,
            moves,
            i + 1,
            depth,
            if corrected > best {
                corrected
            } else {
                best
            },
            if corrected > best {
                Some(moves[i])
            } else {
                best_move
            },
            count + cm.2,
            obj,
            bot_depth,
            captures_first,
        );
    }
}

/// Searching one ply deeper never shrinks any child's subtree, so the two
/// exhaustive folds over the same children keep their counts ordered.
proof fn lemma_mm_fold_count_mono(
    b: chess::Board,
    moves: Seq<Move>,
    i: int,
    depth: nat,
    best1: int,
    move1: Option<Move>,
    cnt1: nat,
    best2: int,
    move2: Option<Move>,
    cnt2: nat,
    obj: int,
    bot_depth: int,
    captures_first: bool,
)
    requires
        sound_tree(b, (depth + 1) as nat),
        depth >= 1,
        moves == spec_move_order(b, captures_first),
        0 <= i <= moves.len(),
        cnt1 >= cnt2,
    ensures
        spec_minimax_children(
            b,
            moves,
            i,
            (depth + 1) as nat,
            best1,
            move1,
            cnt1,
            obj,
            bot_depth,
            captures_first,
        ).2 >= spec_minimax_children(
            b,
            moves,
            i,
            depth,
            best2,
            move2,
            cnt2,
            obj,
            bot_depth,
            captures_first,
        ).2,
    decreases depth, 0int, moves.len() - i,
{
    if i < 0 || i >= moves.len() {
    } else {
        lemma_tree_step(b, (depth + 1) as nat, captures_first, i);
        let child = board_after(b, moves[i]);
        lemma_node_count_monotone(child, (depth - 1) as nat, -obj, bot_depth, captures_first);
        let cm1 = spec_minimax(child, depth, -obj, bot_depth, captures_first);
        let cm2 = spec_minimax(child, (depth - 1) as nat, -obj, bot_depth, captures_first);
        let c1 = correct_mate(cm1.0, bot_depth);
        let c2 = correct_mate(cm2.0, bot_depth);
        lemma_mm_fold_count_mono(
            b,
            moves,
            i + 1,
            depth,
            if c1 > best1 {
                c1
            } else {
                best1
            },
            if c1 > best1 {
                Some(moves[i])
            } else {
                move1
            },
            cnt1 + cm1.2,
            if c2 > best2 {
                c2
            } else {
                best2
            },
            if c2 > best2 {
                Some(moves[i])
            } else {
                move2
            },
            cnt2 + cm2.2,
            obj,
            bot_depth,
            captures_first,
        );
    }
}

/// Node-count monotonicity: on a sound tree, the exhaustive search one ply
/// deeper visits at least as many nodes as the shallower search of the same
/// position.
pub proof fn lemma_node_count_monotone(
    b: chess::Board,
    depth: nat,
    obj: int,
    bot_depth: int,
    captures_first: bool,
)
    requires
        sound_tree(b, (depth + 1) as nat),
    ensures
        spec_minimax(b, (depth + 1) as nat, obj, bot_depth, captures_first).2 >= spec_minimax(
            b,
            depth,
            obj,
            bot_depth,
            captures_first,
        ).2,
    decreases depth, 1int, 0int,
{
    if board_state(b) != Status::Ongoing {
    } else {
        lemma_move_order_subset(b, captures_first);
        if depth == 0 {
            lemma_mm_fold_count_ge(
                b,
                spec_move_order(b, captures_first),
                0,
                1,
                i32::MIN as int,
                None,
                0,
                obj,
                bot_depth,
                captures_first,
            );
        } else {
            lemma_mm_fold_count_mono(
                b,
                spec_move_order(b, captures_first),
                0,
                depth,
                i32::MIN as int,
                None,
                0,
                i32::MIN as int,
                None,
                0,
                obj,
                bot_depth,
                captures_first,
            );
        }
    }
}

/// The sign of the side to move: the objective a searcher maximizing for
/// that side passes down.
pub open spec fn side_sign(s: Side) -> int {
    if s == Side::White {
        1int
    } else {
        -1int
    }
}

/// Whether the side to move can deliver checkmate with a single move.
pub open spec fn has_mate_in_one(b: chess::Board) -> bool {
    exists|i: int|
        0 <= i < board_moves(b).len() && board_state(
            board_after(b, #[trigger] board_moves(b)[i]),
        ) == Status::Checkmate
}

/// The fold of the pruning fold over children reaches the sentinel once an
/// immediate mate lies ahead or the running best is the sentinel already.
proof fn lemma_fold_mate(
    b: chess::Board,
    moves: Seq<Move>,
    i: int,
    depth: nat,
    alpha: int,
    best: int,
    best_move: Option<Move>,
    count: nat,
    obj: int,
    bot_depth: int,
    captures_first: bool,
)
    requires
        sound_tree(b, depth),
        depth > 0,
        board_state(b) == Status::Ongoing,
        moves == spec_move_order(b, captures_first),
        0 <= i <= moves.len(),
        obj == side_sign(board_turn(b)),
        0 <= bot_depth <= 255,
        alpha == if best > -(INFINITY as int) {
            best
        } else {
            -(INFINITY as int)
        },
        best == INFINITY as int || (best < INFINITY as int && exists|j: int|
            i <= j < moves.len() && board_state(board_after(b, #[trigger] moves[j]))
                == Status::Checkmate),
    ensures
        spec_search_children(
            b,
            moves,
            i,
            depth,
            alpha,
            INFINITY as int,
            best,
            best_move,
            count,
            obj,
            bot_depth,
            captures_first,
        ).0 == INFINITY as int,
    decreases depth, 0int, moves.len() - i,
{
    if i >= moves.len() {
    } else {
        lemma_tree_step(b, depth, captures_first, i);
        let child = board_after(b, moves[i]);
        lemma_negamax_bounds(
            child,
            (depth - 1) as nat,
            -(INFINITY as int),
            -alpha,
            -obj,
            bot_depth,
            captures_first,
        );
        let vc = spec_negamax(
            child,
            (depth - 1) as nat,
            -(INFINITY as int),
            -alpha,
            -obj,
            bot_depth,
            captures_first,
        ).0;
        lemma_corrected_image(vc, bot_depth);
        let corrected = correct_mate(vc, bot_depth);
        if best == INFINITY as int {
        } else if board_state(child) == Status::Checkmate {
            assert(vc == -obj * spec_evaluate(
                board_squares(child),
                board_turn(child),
                Status::Checkmate,
            ));
            assert(board_turn(child) == board_turn(b).spec_other());
            assert(vc == -(INFINITY as int));
            assert(corrected == INFINITY as int);
        } else if corrected == INFINITY as int {
        } else {
            let j = choose|j: int|
                i <= j < moves.len() && board_state(board_after(b, #[trigger] moves[j]))
                    == Status::Checkmate;
            assert(j >= i + 1);
            let new_best = if corrected > best {
                corrected
            } else {
                best
            };
            let new_alpha = if corrected > alpha {
                corrected
            } else {
                alpha
            };
            assert(new_alpha < INFINITY as int);
            lemma_fold_mate(
                b,
                moves,
                i + 1,
                depth,
                new_alpha,
                new_best,
                if corrected > best {
                    Some(moves[i])
                } else {
                    best_move
                },
                count + spec_negamax(
                    child,
                    (depth - 1) as nat,
                    -(INFINITY as int),
                    -alpha,
                    -obj,
                    bot_depth,
                    captures_first,
                ).2,
                obj,
                bot_depth,
                captures_first,
            );
        }
    }
}

/// A full-window search of a position with mate in one scores exactly the
/// sentinel, whatever the depth beyond one ply.
pub proof fn lemma_mate_in_one_scores_sentinel(
    b: chess::Board,
    depth: nat,
    bot_depth: int,
    captures_first: bool,
)
    requires
        sound_tree(b, depth),
        depth >= 1,
        board_state(b) == Status::Ongoing,
        has_mate_in_one(b),
        0 <= bot_depth <= 255,
    ensures
        spec_negamax(
            b,
            depth,
            -(INFINITY as int),
            INFINITY as int,
            side_sign(board_turn(b)),
            bot_depth,
            captures_first,
        ).0 == INFINITY as int,
{
    lemma_move_order_subset(b, captures_first);
    let ms = spec_move_order(b, captures_first);
    let k = choose|k: int|
        0 <= k < board_moves(b).len() && board_state(
            board_after(b, #[trigger] board_moves(b)[k]),
        ) == Status::Checkmate;
    // The mate move appears somewhere in the searched order: the searched
    // order is a permutation of the legal moves.
    assert(exists|j: int|
        0 <= j < ms.len() && board_state(board_after(b, #[trigger] ms[j])) == Status::Checkmate) by {
        lemma_order_is_permutation(b, captures_first, k);
    }
    lemma_fold_mate(
        b,
        ms,
        0,
        depth,
        -(INFINITY as int),
        i32::MIN as int,
        None,
        0,
        side_sign(board_turn(b)),
        bot_depth,
        captures_first,
    );
}

/// Every legal move appears in the searched order.
proof fn lemma_order_is_permutation(b: chess::Board, captures_first: bool, k: int)
    requires
        0 <= k < board_moves(b).len(),
    ensures
        exists|j: int|
            0 <= j < spec_move_order(b, captures_first).len() && spec_move_order(
                b,
                captures_first,
            )[j] == board_moves(b)[k],
{
    let ms = board_moves(b);
    let sqs = board_squares(b);
    let turn = board_turn(b);
    crate::search::lemma_parts_len(ms, sqs, turn);
    if captures_first {
        let caps = captures_in(ms, sqs, turn);
        let quiets = noncaptures_in(ms, sqs, turn);
        lemma_parts_cover(ms, sqs, turn, k);
        if caps.contains(ms[k]) {
            let j = choose|j: int| 0 <= j < caps.len() && caps[j] == ms[k];
            assert(spec_move_order(b, captures_first)[j] == ms[k]);
        } else {
            let j = choose|j: int| 0 <= j < quiets.len() && quiets[j] == ms[k];
            assert(spec_move_order(b, captures_first)[caps.len() + j] == ms[k]);
        }
    } else {
        assert(spec_move_order(b, captures_first)[k] == ms[k]);
    }
}

/// Every move of a list lands in its captures part or its rest part.
proof fn lemma_parts_cover(ms: Seq<Move>, sqs: Seq<Option<Piece>>, turn: Side, k: int)
    requires
        0 <= k < ms.len(),
    ensures
        captures_in(ms, sqs, turn).contains(ms[k]) || noncaptures_in(ms, sqs, turn).contains(
            ms[k],
        ),
    decreases ms.len(),
{
    if k == ms.len() - 1 {
        if is_capture(sqs, turn, ms.last()) {
            let caps = captures_in(ms, sqs, turn);
            assert(caps[caps.len() - 1] == ms[k]);
            assert(caps.contains(ms[k]));
        } else {
            let quiets = noncaptures_in(ms, sqs, turn);
            assert(quiets[quiets.len() - 1] == ms[k]);
            assert(quiets.contains(ms[k]));
        }
    } else {
        lemma_parts_cover(ms.drop_last(), sqs, turn, k);
        assert(ms.drop_last()[k] == ms[k]);
        if captures_in(ms.drop_last(), sqs, turn).contains(ms[k]) {
            let sub = captures_in(ms.drop_last(), sqs, turn);
            let j = choose|j: int| 0 <= j < sub.len() && sub[j] == ms[k];
            let caps = captures_in(ms, sqs, turn);
            assert(caps[j] == ms[k]);
            assert(caps.contains(ms[k]));
        } else {
            let sub = noncaptures_in(ms.drop_last(), sqs, turn);
            let j = choose|j: int| 0 <= j < sub.len() && sub[j] == ms[k];
            let quiets = noncaptures_in(ms, sqs, turn);
            assert(quiets[j] == ms[k]);
            assert(quiets.contains(ms[k]));
        }
    }
}

/// The pruning fold over children none of which is an immediate mate never
/// reaches the sentinel.
proof fn lemma_fold_no_mate(
    b: chess::Board,
    moves: Seq<Move>,
    i: int,
    depth: nat,
    alpha: int,
    best: int,
    best_move: Option<Move>,
    count: nat,
    obj: int,
    bot_depth: int,
    captures_first: bool,
)
    requires
        sound_tree(b, depth),
        depth > 0,
        board_state(b) == Status::Ongoing,
        moves == spec_move_order(b, captures_first),
        0 <= i <= moves.len(),
        obj == 1 || obj == -1,
        0 <= bot_depth <= 255,
        forall|j: int|
            0 <= j < moves.len() ==> board_state(board_after(b, #[trigger] moves[j]))
                != Status::Checkmate,
        best <= INFINITY as int - 1,
    ensures
        spec_search_children(
            b,
            moves,
            i,
            depth,
            alpha,
            INFINITY as int,
            best,
            best_move,
            count,
            obj,
            bot_depth,
            captures_first,
        ).0 <= INFINITY as int - 1,
    decreases depth, 0int, moves.len() - i,
{
    if i >= moves.len() {
    } else {
        lemma_tree_step(b, depth, captures_first, i);
        let child = board_after(b, moves[i]);
        lemma_negamax_bounds(
            child,
            (depth - 1) as nat,
            -(INFINITY as int),
            -alpha,
            -obj,
            bot_depth,
            captures_first,
        );
        let vc = spec_negamax(
            child,
            (depth - 1) as nat,
            -(INFINITY as int),
            -alpha,
            -obj,
            bot_depth,
            captures_first,
        ).0;
        let corrected = correct_mate(vc, bot_depth);
        // The child is not a checkmate, so its score stays strictly above
        // the negated sentinel, and the corrected score below the sentinel.
        assert(vc > -(INFINITY as int)) by {
            if (depth - 1) as nat == 0 || board_state(child) != Status::Ongoing {
                lemma_evaluate_bounds(board_squares(child), board_turn(child), board_state(child));
            }
        }
        assert(corrected <= INFINITY as int - 1);
        let new_best = if corrected > best {
            corrected
        } else {
            best
        };
        let new_alpha = if corrected > alpha {
            corrected
        } else {
            alpha
        };
        if new_alpha >= INFINITY as int {
        } else {
            lemma_fold_no_mate(
                b,
                moves,
                i + 1,
                depth,
                new_alpha,
                new_best,
                if corrected > best {
                    Some(moves[i])
                } else {
                    best_move
                },
                count + spec_negamax(
                    child,
                    (depth - 1) as nat,
                    -(INFINITY as int),
                    -alpha,
                    -obj,
                    bot_depth,
                    captures_first,
                ).2,
                obj,
                bot_depth,
                captures_first,
            );
        }
    }
}

/// A full-window search of a position with no mate in one scores strictly
/// below the sentinel.
pub proof fn lemma_no_mate_in_one_below_sentinel(
    b: chess::Board,
    depth: nat,
    obj: int,
    bot_depth: int,
    captures_first: bool,
)
    requires
        sound_tree(b, depth),
        depth >= 1,
        board_state(b) == Status::Ongoing,
        !has_mate_in_one(b),
        obj == 1 || obj == -1,
        0 <= bot_depth <= 255,
    ensures
        spec_negamax(
            b,
            depth,
            -(INFINITY as int),
            INFINITY as int,
            obj,
            bot_depth,
            captures_first,
        ).0 <= INFINITY as int - 1,
{
    lemma_move_order_subset(b, captures_first);
    let ms = spec_move_order(b, captures_first);
    assert forall|j: int|
        0 <= j < ms.len() implies board_state(board_after(b, #[trigger] ms[j]))
        != Status::Checkmate by {
        assert(board_moves(b).contains(ms[j]));
        let k = choose|k: int| 0 <= k < board_moves(b).len() && board_moves(b)[k] == ms[j];
        assert(!(board_state(board_after(b, board_moves(b)[k])) == Status::Checkmate));
    }
    lemma_fold_no_mate(
        b,
        ms,
        0,
        depth,
        -(INFINITY as int),
        i32::MIN as int,
        None,
        0,
        obj,
        bot_depth,
        captures_first,
    );
}

/// Mate-distance ordering: a position where the side to move mates at once
/// scores strictly higher than any position that offers no immediate mate —
/// in particular higher than one whose fastest forced mate takes three
/// plies.
pub proof fn lemma_mate_distance_ordering(
    b1: chess::Board,
    b2: chess::Board,
    depth1: nat,
    depth2: nat,
    obj2: int,
    bot_depth: int,
    captures_first: bool,
)
    requires
        sound_tree(b1, depth1),
        sound_tree(b2, depth2),
        depth1 >= 1,
        depth2 >= 1,
        board_state(b1) == Status::Ongoing,
        board_state(b2) == Status::Ongoing,
        has_mate_in_one(b1),
        !has_mate_in_one(b2),
        obj2 == 1 || obj2 == -1,
        0 <= bot_depth <= 255,
    ensures
        spec_negamax(
            b1,
            depth1,
            -(INFINITY as int),
            INFINITY as int,
            side_sign(board_turn(b1)),
            bot_depth,
            captures_first,
        ).0 > spec_negamax(
            b2,
            depth2,
            -(INFINITY as int),
            INFINITY as int,
            obj2,
            bot_depth,
            captures_first,
        ).0,
{
    lemma_mate_in_one_scores_sentinel(b1, depth1, bot_depth, captures_first);
    lemma_no_mate_in_one_below_sentinel(b2, depth2, obj2, bot_depth, captures_first);
}

/// The fold over children only ever adopts moves from its list, and adopts
/// one as soon as a child is examined with nothing adopted yet.
proof fn lemma_fold_move_legal(
    b: chess::Board,
    moves: Seq<Move>,
    i: int,
    depth: nat,
    alpha: int,
    beta: int,
    best: int,
    best_move: Option<Move>,
    count: nat,
    obj: int,
    bot_depth: int,
    captures_first: bool,
)
    requires
        sound_tree(b, depth),
        depth > 0,
        moves == spec_move_order(b, captures_first),
        0 <= i <= moves.len(),
        obj == 1 || obj == -1,
        0 <= bot_depth <= 255,
        best_move matches Some(m0) ==> board_moves(b).contains(m0),
        best == i32::MIN as int <==> best_move is None,
    ensures
        ({
            let v = spec_search_children(
                b,
                moves,
                i,
                depth,
                alpha,
                beta,
                best,
                best_move,
                count,
                obj,
                bot_depth,
                captures_first,
            );
            &&& (v.1 matches Some(m) ==> board_moves(b).contains(m))
            &&& (best_move is Some ==> v.1 is Some)
            &&& (i < moves.len() ==> v.1 is Some)
        }),
    decreases depth, 0int, moves.len() - i,
{
    if i < 0 || i >= moves.len() {
    } else {
        lemma_move_order_subset(b, captures_first);
        lemma_tree_step(b, depth, captures_first, i);
        let child = board_after(b, moves[i]);
        lemma_negamax_bounds(
            child,
            (depth - 1) as nat,
            -beta,
            -alpha,
            -obj,
            bot_depth,
            captures_first,
        );
        let vc = spec_negamax(
            child,
            (depth - 1) as nat,
            -beta,
            -alpha,
            -obj,
            bot_depth,
            captures_first,
        );
        lemma_corrected_image(vc.0, bot_depth);
        let corrected = correct_mate(vc.0, bot_depth);
        assert(corrected > i32::MIN as int);
        let new_best = if corrected > best {
            corrected
        } else {
            best
        };
        let new_move = if corrected > best {
            Some(moves[i])
        } else {
            best_move
        };
        let new_alpha = if corrected > alpha {
            corrected
        } else {
            alpha
        };
        if new_alpha >= beta {
        } else {
            lemma_fold_move_legal(
                b,
                moves,
                i + 1,
                depth,
                new_alpha,
                beta,
                new_best,
                new_move,
                count + vc.2,
                obj,
                bot_depth,
                captures_first,
            );
        }
    }
}

/// The move the search returns is always a legal move of the searched
/// board, and it is absent exactly when the search stops at once: at depth
/// zero, or on a finished game.
pub proof fn lemma_search_move_legal(
    b: chess::Board,
    depth: nat,
    alpha: int,
    beta: int,
    obj: int,
    bot_depth: int,
    captures_first: bool,
)
    requires
        sound_tree(b, depth),
        obj == 1 || obj == -1,
        0 <= bot_depth <= 255,
    ensures
        ({
            let v = spec_negamax(b, depth, alpha, beta, obj, bot_depth, captures_first);
            &&& (v.1 matches Some(m) ==> board_moves(b).contains(m))
            &&& (v.1 is None <==> depth == 0 || board_state(b) != Status::Ongoing)
        }),
{
    if depth == 0 || board_state(b) != Status::Ongoing {
    } else {
        lemma_move_order_subset(b, captures_first);
        lemma_fold_move_legal(
            b,
            spec_move_order(b, captures_first),
            0,
            depth,
            alpha,
            beta,
            i32::MIN as int,
            None,
            0,
            obj,
            bot_depth,
            captures_first,
        );
    }
}

/// The same piece for the other side.
pub open spec fn flip_square(sq: Option<Piece>) -> Option<Piece> {
    match sq {
        None => None,
        Some(p) => Some(Piece { kind: p.kind, side: p.side.spec_other() }),
    }
}

/// A board in mirror symmetry: every square holds the opposite-color twin
/// of what its vertically mirrored square holds. The starting position is
/// such a board.
pub open spec fn mirror_symmetric(sqs: Seq<Option<Piece>>) -> bool {
    sqs.len() == 64 && forall|i: int|
        0 <= i < 64 ==> sqs[i] == flip_square(#[trigger] sqs[mirror_square(i)])
}

/// Whether a square holds a piece of the given kind and side.
pub open spec fn piece_matches(sq: Option<Piece>, k: PieceKind, s: Side) -> bool {
    match sq {
        Some(p) => p.kind == k && p.side == s,
        None => false,
    }
}

/// How many pieces of the given kind and side the squares `lo..hi` hold.
spec fn count_range(sqs: Seq<Option<Piece>>, k: PieceKind, s: Side, lo: int, hi: int) -> int
    decreases hi - lo,
{
    if lo >= hi {
        0
    } else {
        count_range(sqs, k, s, lo, hi - 1) + if piece_matches(sqs[hi - 1], k, s) {
            1int
        } else {
            0int
        }
    }
}

proof fn lemma_count_is_range(sqs: Seq<Option<Piece>>, k: PieceKind, s: Side, n: int)
    requires
        0 <= n <= sqs.len(),
    ensures
        count_range(sqs, k, s, 0, n) == count_pieces(sqs.take(n), k, s),
    decreases n,
{
    if n > 0 {
        lemma_count_is_range(sqs, k, s, n - 1);
        assert(sqs.take(n).drop_last() =~= sqs.take(n - 1));
        assert(sqs.take(n).last() == sqs[n - 1]);
    }
}

proof fn lemma_count_range_split(
    sqs: Seq<Option<Piece>>,
    k: PieceKind,
    s: Side,
    lo: int,
    mid: int,
    hi: int,
)
    requires
        lo <= mid <= hi,
    ensures
        count_range(sqs, k, s, lo, hi) == count_range(sqs, k, s, lo, mid) + count_range(
            sqs,
            k,
            s,
            mid,
            hi,
        ),
    decreases hi - mid,
{
    if mid < hi {
        lemma_count_range_split(sqs, k, s, lo, mid, hi - 1);
    }
}

/// The mirror map swaps a rank with its vertical twin, square by square.
proof fn lemma_mirror_rank_counts(
    sqs: Seq<Option<Piece>>,
    k: PieceKind,
    s: Side,
    r: int,
    c: int,
)
    requires
        mirror_symmetric(sqs),
        0 <= r < 8,
        0 <= c <= 8,
    ensures
        count_range(sqs, k, s, 8 * r, 8 * r + c) == count_range(
            sqs,
            k,
            s.spec_other(),
            8 * (7 - r),
            8 * (7 - r) + c,
        ),
    decreases c,
{
    if c > 0 {
        lemma_mirror_rank_counts(sqs, k, s, r, c - 1);
        let i = 8 * r + (c - 1);
        assert(mirror_square(i) == 8 * (7 - r) + (c - 1));
        assert(sqs[i] == flip_square(sqs[mirror_square(i)]));
        assert(piece_matches(sqs[i], k, s) == piece_matches(
            sqs[8 * (7 - r) + (c - 1)],
            k,
            s.spec_other(),
        ));
    }
}

/// On a mirror-symmetric board both sides field the same pieces.
pub proof fn lemma_symmetric_counts(sqs: Seq<Option<Piece>>, k: PieceKind)
    requires
        mirror_symmetric(sqs),
    ensures
        count_pieces(sqs, k, Side::White) == count_pieces(sqs, k, Side::Black),
{
    lemma_count_is_range(sqs, k, Side::White, 64);
    lemma_count_is_range(sqs, k, Side::Black, 64);
    assert(sqs.take(64) =~= sqs);
    lemma_mirror_rank_counts(sqs, k, Side::White, 0, 8);
    lemma_mirror_rank_counts(sqs, k, Side::White, 1, 8);
    lemma_mirror_rank_counts(sqs, k, Side::White, 2, 8);
    lemma_mirror_rank_counts(sqs, k, Side::White, 3, 8);
    lemma_mirror_rank_counts(sqs, k, Side::White, 4, 8);
    lemma_mirror_rank_counts(sqs, k, Side::White, 5, 8);
    lemma_mirror_rank_counts(sqs, k, Side::White, 6, 8);
    lemma_mirror_rank_counts(sqs, k, Side::White, 7, 8);
    lemma_count_range_split(sqs, k, Side::White, 0, 8, 64);
    lemma_count_range_split(sqs, k, Side::White, 8, 16, 64);
    lemma_count_range_split(sqs, k, Side::White, 16, 24, 64);
    lemma_count_range_split(sqs, k, Side::White, 24, 32, 64);
    lemma_count_range_split(sqs, k, Side::White, 32, 40, 64);
    lemma_count_range_split(sqs, k, Side::White, 40, 48, 64);
    lemma_count_range_split(sqs, k, Side::White, 48, 56, 64);
    lemma_count_range_split(sqs, k, Side::Black, 0, 8, 64);
    lemma_count_range_split(sqs, k, Side::Black, 8, 16, 64);
    lemma_count_range_split(sqs, k, Side::Black, 16, 24, 64);
    lemma_count_range_split(sqs, k, Side::Black, 24, 32, 64);
    lemma_count_range_split(sqs, k, Side::Black, 32, 40, 64);
    lemma_count_range_split(sqs, k, Side::Black, 40, 48, 64);
    lemma_count_range_split(sqs, k, Side::Black, 48, 56, 64);
}

/// The signed table contribution of the squares `lo..hi`.
spec fn pst_range(sqs: Seq<Option<Piece>>, phase: int, lo: int, hi: int) -> int
    decreases hi - lo,
{
    if lo >= hi {
        0
    } else {
        pst_range(sqs, phase, lo, hi - 1) + crate::eval::pst_term(sqs[hi - 1], hi - 1, phase)
    }
}

proof fn lemma_pst_is_range(sqs: Seq<Option<Piece>>, phase: int, n: int)
    requires
        0 <= n <= sqs.len(),
    ensures
        pst_range(sqs, phase, 0, n) == crate::eval::pst_sum(sqs.take(n), phase),
    decreases n,
{
    if n > 0 {
        lemma_pst_is_range(sqs, phase, n - 1);
        assert(sqs.take(n).drop_last() =~= sqs.take(n - 1));
        assert(sqs.take(n).last() == sqs[n - 1]);
    }
}

proof fn lemma_pst_range_split(sqs: Seq<Option<Piece>>, phase: int, lo: int, mid: int, hi: int)
    requires
        lo <= mid <= hi,
    ensures
        pst_range(sqs, phase, lo, hi) == pst_range(sqs, phase, lo, mid) + pst_range(
            sqs,
            phase,
            mid,
            hi,
        ),
    decreases hi - mid,
{
    if mid < hi {
        lemma_pst_range_split(sqs, phase, lo, mid, hi - 1);
    }
}

/// Mirrored squares contribute opposite table terms.
proof fn lemma_mirror_rank_pst(sqs: Seq<Option<Piece>>, phase: int, r: int, c: int)
    requires
        mirror_symmetric(sqs),
        0 <= r < 8,
        0 <= c <= 8,
    ensures
        pst_range(sqs, phase, 8 * r, 8 * r + c) == -pst_range(
            sqs,
            phase,
            8 * (7 - r),
            8 * (7 - r) + c,
        ),
    decreases c,
{
    if c > 0 {
        lemma_mirror_rank_pst(sqs, phase, r, c - 1);
        let i = 8 * r + (c - 1);
        let m = 8 * (7 - r) + (c - 1);
        assert(mirror_square(i) == m);
        assert(mirror_square(m) == i);
        assert(sqs[i] == flip_square(sqs[m]));
        assert(crate::eval::pst_term(sqs[i], i, phase) == -crate::eval::pst_term(
            sqs[m],
            m,
            phase,
        ));
    }
}

/// On a mirror-symmetric board the positional terms cancel exactly.
pub proof fn lemma_symmetric_pst(sqs: Seq<Option<Piece>>, phase: int)
    requires
        mirror_symmetric(sqs),
    ensures
        crate::eval::pst_sum(sqs, phase) == 0,
{
    lemma_pst_is_range(sqs, phase, 64);
    assert(sqs.take(64) =~= sqs);
    lemma_mirror_rank_pst(sqs, phase, 0, 8);
    lemma_mirror_rank_pst(sqs, phase, 1, 8);
    lemma_mirror_rank_pst(sqs, phase, 2, 8);
    lemma_mirror_rank_pst(sqs, phase, 3, 8);
    lemma_pst_range_split(sqs, phase, 0, 8, 64);
    lemma_pst_range_split(sqs, phase, 8, 16, 64);
    lemma_pst_range_split(sqs, phase, 16, 24, 64);
    lemma_pst_range_split(sqs, phase, 24, 32, 64);
    lemma_pst_range_split(sqs, phase, 32, 40, 64);
    lemma_pst_range_split(sqs, phase, 40, 48, 64);
    lemma_pst_range_split(sqs, phase, 48, 56, 64);
}

proof fn lemma_count_at_index(sqs: Seq<Option<Piece>>, k: PieceKind, s: Side, i: int)
    requires
        0 <= i < sqs.len(),
        piece_matches(sqs[i], k, s),
    ensures
        count_pieces(sqs, k, s) >= 1,
    decreases sqs.len(),
{
    if i < sqs.len() - 1 {
        lemma_count_at_index(sqs.drop_last(), k, s, i);
    }
}

proof fn lemma_count_two_indices(sqs: Seq<Option<Piece>>, k: PieceKind, s: Side, i: int, j: int)
    requires
        0 <= i < j < sqs.len(),
        piece_matches(sqs[i], k, s),
        piece_matches(sqs[j], k, s),
    ensures
        count_pieces(sqs, k, s) >= 2,
    decreases sqs.len(),
{
    if j < sqs.len() - 1 {
        lemma_count_two_indices(sqs.drop_last(), k, s, i, j);
    } else {
        lemma_count_at_index(sqs.drop_last(), k, s, i);
    }
}

proof fn lemma_king_square_finds(sqs: Seq<Option<Piece>>, s: Side, j: int, i0: int)
    requires
        0 <= j <= i0 < sqs.len(),
        piece_matches(sqs[i0], PieceKind::King, s),
        forall|m: int| j <= m < i0 ==> !piece_matches(#[trigger] sqs[m], PieceKind::King, s),
    ensures
        crate::eval::king_square_from(sqs, s, j) == i0,
    decreases i0 - j,
{
    if j < i0 {
        lemma_king_square_finds(sqs, s, j + 1, i0);
    }
}

/// A side with exactly one king has its king square at that king.
proof fn lemma_unique_king_square(sqs: Seq<Option<Piece>>, s: Side, i0: int)
    requires
        0 <= i0 < sqs.len(),
        piece_matches(sqs[i0], PieceKind::King, s),
        count_pieces(sqs, PieceKind::King, s) == 1,
    ensures
        crate::eval::king_square(sqs, s) == i0,
{
    assert forall|m: int|
        0 <= m < i0 implies !piece_matches(#[trigger] sqs[m], PieceKind::King, s) by {
        if piece_matches(sqs[m], PieceKind::King, s) {
            lemma_count_two_indices(sqs, PieceKind::King, s, m, i0);
        }
    }
    lemma_king_square_finds(sqs, s, 0, i0);
}

proof fn lemma_count_exists(sqs: Seq<Option<Piece>>, k: PieceKind, s: Side)
    requires
        count_pieces(sqs, k, s) > 0,
    ensures
        exists|i: int| 0 <= i < sqs.len() && piece_matches(#[trigger] sqs[i], k, s),
    decreases sqs.len(),
{
    if sqs.len() > 0 {
        if piece_matches(sqs.last(), k, s) {
            assert(piece_matches(sqs[sqs.len() - 1], k, s));
        } else {
            lemma_count_exists(sqs.drop_last(), k, s);
            let i = choose|i: int|
                0 <= i < sqs.drop_last().len() && piece_matches(#[trigger] sqs.drop_last()[i], k, s);
            assert(piece_matches(sqs[i], k, s));
        }
    }
}

/// Mirroring a square keeps its distance from the center.
proof fn lemma_mirror_center_distance(i: int)
    requires
        0 <= i < 64,
    ensures
        0 <= mirror_square(i) < 64,
        mirror_square(mirror_square(i)) == i,
        crate::eval::center_distance(mirror_square(i)) == crate::eval::center_distance(i),
{
    assert(mirror_square(i) % 8 == i % 8 && mirror_square(i) / 8 == 7 - i / 8) by (nonlinear_arith)
        requires
            0 <= i < 64,
    ;
}

/// Symmetry: a mirror-symmetric position that is not a checkmate — both
/// sides fielding the same pieces on mirrored squares, one king each —
/// evaluates to exactly zero, whoever is to move. The starting position is
/// the prime example.
pub proof fn lemma_symmetric_evaluate(sqs: Seq<Option<Piece>>, turn: Side, status: Status)
    requires
        mirror_symmetric(sqs),
        count_pieces(sqs, PieceKind::King, Side::White) == 1,
        status != Status::Checkmate,
    ensures
        spec_evaluate(sqs, turn, status) == 0,
{
    if status != Status::Stalemate {
        lemma_symmetric_counts(sqs, PieceKind::Pawn);
        lemma_symmetric_counts(sqs, PieceKind::Knight);
        lemma_symmetric_counts(sqs, PieceKind::Bishop);
        lemma_symmetric_counts(sqs, PieceKind::Rook);
        lemma_symmetric_counts(sqs, PieceKind::Queen);
        lemma_symmetric_counts(sqs, PieceKind::King);
        if !(crate::eval::material_base(sqs, Side::White) == 0 && crate::eval::material_base(
            sqs,
            Side::Black,
        ) == 0) {
            // The positional terms cancel.
            lemma_symmetric_pst(sqs, 0);
            lemma_symmetric_pst(sqs, 1);
            vstd::arithmetic::div_mod::lemma_div_basics(24);
            // The kings sit on mirrored squares, equally far from the center.
            lemma_count_exists(sqs, PieceKind::King, Side::White);
            let iw = choose|i: int|
                0 <= i < sqs.len() && piece_matches(#[trigger] sqs[i], PieceKind::King, Side::White);
            lemma_unique_king_square(sqs, Side::White, iw);
            lemma_mirror_center_distance(iw);
            let ib = mirror_square(iw);
            assert(sqs[ib] == flip_square(sqs[mirror_square(ib)]));
            assert(piece_matches(sqs[ib], PieceKind::King, Side::Black));
            lemma_unique_king_square(sqs, Side::Black, ib);
        }
    }
}

/// Stalemate is always a draw: the evaluation of any stalemate position is
/// exactly zero.
pub proof fn lemma_evaluate_stalemate(sqs: Seq<Option<Piece>>, turn: Side)
    ensures
        spec_evaluate(sqs, turn, Status::Stalemate) == 0,
{
}

/// Checkmate is always the sentinel: positive when Black is the mated side
/// to move, negative when White is.
pub proof fn lemma_evaluate_checkmate(sqs: Seq<Option<Piece>>, turn: Side)
    ensures
        spec_evaluate(sqs, turn, Status::Checkmate) == if turn == Side::Black {
            INFINITY as int
        } else {
            -(INFINITY as int)
        },
{
}

} // verus!
