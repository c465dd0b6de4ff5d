//! The searcher: fixed-depth negamax with alpha-beta pruning, capturing
//! moves searched first, and a mate-distance correction that prefers the
//! shortest forced mate.
//!
//! `spec_negamax` is the mathematical definition of the search, written
//! over the trusted names of the rules engine; `Bot::negamax` is proved to
//! return exactly its value, so two searches of one board always agree.

use vstd::prelude::*;

use crate::eval::{evaluate, spec_evaluate, INFINITY};
use crate::rules::{
    board_after, board_moves, board_pieces, board_squares, board_state, board_turn, decode_moves,
    legal_moves_raw, make_move, move_view, side_of, status_of,
};
use crate::types::{is_board, Move, Piece, Side, Status};

verus! {

/// Whether a move lands on a square held by the opponent of `turn`. En
/// passant is not counted: its destination square is empty, exactly as the
/// rules engine's occupancy masks see it.
pub open spec fn is_capture(sqs: Seq<Option<Piece>>, turn: Side, m: Move) -> bool {
    m.to < 64 && match sqs[m.to as int] {
        Some(p) => p.side != turn,
        None => false,
    }
}

/// The capturing moves of a list, in their original order.
pub open spec fn captures_in(ms: Seq<Move>, sqs: Seq<Option<Piece>>, turn: Side) -> Seq<Move>
    decreases ms.len(),
{
    if ms.len() == 0 {
        Seq::empty()
    } else {
        let rest = captures_in(ms.drop_last(), sqs, turn);
        if is_capture(sqs, turn, ms.last()) {
            rest.push(ms.last())
        } else {
            rest
        }
    }
}

/// The non-capturing moves of a list, in their original order.
pub open spec fn noncaptures_in(ms: Seq<Move>, sqs: Seq<Option<Piece>>, turn: Side) -> Seq<Move>
    decreases ms.len(),
{
    if ms.len() == 0 {
        Seq::empty()
    } else {
        let rest = noncaptures_in(ms.drop_last(), sqs, turn);
        if !is_capture(sqs, turn, ms.last()) {
            rest.push(ms.last())
        } else {
            rest
        }
    }
}

proof fn lemma_parts_step(ms: Seq<Move>, sqs: Seq<Option<Piece>>, turn: Side, i: int)
    requires
        0 <= i < ms.len(),
    ensures
        captures_in(ms.take(i + 1), sqs, turn) == if is_capture(sqs, turn, ms[i]) {
            captures_in(ms.take(i), sqs, turn).push(ms[i])
        } else {
            captures_in(ms.take(i), sqs, turn)
        },
        noncaptures_in(ms.take(i + 1), sqs, turn) == if !is_capture(sqs, turn, ms[i]) {
            noncaptures_in(ms.take(i), sqs, turn).push(ms[i])
        } else {
            noncaptures_in(ms.take(i), sqs, turn)
        },
{
    assert(ms.take(i + 1).drop_last() =~= ms.take(i));
    assert(ms.take(i + 1).last() == ms[i]);
}

/// Splitting a move list into captures and the rest loses no move.
pub proof fn lemma_parts_len(ms: Seq<Move>, sqs: Seq<Option<Piece>>, turn: Side)
    ensures
        captures_in(ms, sqs, turn).len() + noncaptures_in(ms, sqs, turn).len() == ms.len(),
    decreases ms.len(),
{
    if ms.len() > 0 {
        lemma_parts_len(ms.drop_last(), sqs, turn);
    }
}

/// The order the searcher examines the legal moves in: captures first and
/// the rest after, each group in generator order; or plain generator order.
pub open spec fn spec_move_order(b: chess::Board, captures_first: bool) -> Seq<Move> {
    if captures_first {
        captures_in(board_moves(b), board_squares(b), board_turn(b)) + noncaptures_in(
            board_moves(b),
            board_squares(b),
            board_turn(b),
        )
    } else {
        board_moves(b)
    }
}

/// The sign flip a parent applies to a child's score. A score within the
/// configured search horizon of the mate sentinel is a forced mate; it
/// shrinks by one on the way up, so a shorter mate outranks a longer one.
pub open spec fn correct_mate(child_score: int, bot_depth: int) -> int {
    if child_score >= INFINITY - 1 - bot_depth {
        -(child_score - 1)
    } else {
        -child_score
    }
}

/// A node count clipped to what a 32-bit counter can report.
pub open spec fn cap32(n: nat) -> u32 {
    if n <= u32::MAX {
        n as u32
    } else {
        u32::MAX
    }
}

proof fn lemma_cap32_add(a: nat, b: nat)
    ensures
        cap32(a + b) == if cap32(a) as nat + cap32(b) as nat > u32::MAX {
            u32::MAX
        } else {
            (cap32(a) as nat + cap32(b) as nat) as u32
        },
{
}

/// The value, move and node count of the depth-bounded negamax search with
/// alpha-beta pruning, defined recursively over the rules engine's names.
pub open spec fn spec_negamax(
    b: chess::Board,
    depth: nat,
    alpha: int,
    beta: int,
    obj: int,
    bot_depth: int,
    captures_first: bool,
) -> (int, Option<Move>, nat)
    decreases depth, 1int, 0int,
{
    if depth == 0 || board_state(b) != Status::Ongoing {
        (obj * spec_evaluate(board_squares(b), board_turn(b), board_state(b)), None::<Move>, 1nat)
    } else {
        spec_search_children(
            b,
            spec_move_order(b, captures_first),
            0,
            depth,
            alpha,
            beta,
            i32::MIN as int,
            None::<Move>,
            0nat,
            obj,
            bot_depth,
            captures_first,
        )
    }
}

/// The fold of the search over the children from index `i` on: recurse on
/// each child with negated and swapped bounds, apply the mate correction,
/// keep the first strict maximum, raise alpha, and stop at a cutoff.
pub open spec fn spec_search_children(
    b: chess::Board,
    moves: Seq<Move>,
    i: int,
    depth: nat,
    alpha: int,
    beta: int,
    best: int,
    best_move: Option<Move>,
    count: nat,
    obj: int,
    bot_depth: int,
    captures_first: bool,
) -> (int, Option<Move>, nat)
    decreases depth, 0int, moves.len() - i,
{
    if i < 0 || i >= moves.len() || depth == 0 {
        (best, best_move, count)
    } else {
        let child = spec_negamax(
            board_after(b, moves[i]),
            (depth - 1) as nat,
            -beta,
            -alpha,
            -obj,
            bot_depth,
            captures_first,
        );
        let corrected = correct_mate(child.0, bot_depth);
        let new_best = if corrected > best {
            corrected
        } else {
            best
        };
        let new_move = if corrected > best {
            Some(moves[i])
        } else {
            best_move
        };
        let new_alpha = if corrected > alpha {
            corrected
        } else {
            alpha
        };
        let new_count = count + child.2;
        if new_alpha >= beta {
            (new_best, new_move, new_count)
        } else {
            spec_search_children(
                b,
                moves,
                i + 1,
                depth,
                new_alpha,
                beta,
                new_best,
                new_move,
                new_count,
                obj,
                bot_depth,
                captures_first,
            )
        }
    }
}

/// The value, move and node count of the exhaustive search: the same fold
/// without bounds, so every child is examined.
pub open spec fn spec_minimax(
    b: chess::Board,
    depth: nat,
    obj: int,
    bot_depth: int,
    captures_first: bool,
) -> (int, Option<Move>, nat)
    decreases depth, 1int, 0int,
{
    if depth == 0 || board_state(b) != Status::Ongoing {
        (obj * spec_evaluate(board_squares(b), board_turn(b), board_state(b)), None::<Move>, 1nat)
    } else {
        spec_minimax_children(
            b,
            spec_move_order(b, captures_first),
            0,
            depth,
            i32::MIN as int,
            None::<Move>,
            0nat,
            obj,
            bot_depth,
            captures_first,
        )
    }
}

/// The fold of the exhaustive search over the children from index `i` on.
pub open spec fn spec_minimax_children(
    b: chess::Board,
    moves: Seq<Move>,
    i: int,
    depth: nat,
    best: int,
    best_move: Option<Move>,
    count: nat,
    obj: int,
    bot_depth: int,
    captures_first: bool,
) -> (int, Option<Move>, nat)
    decreases depth, 0int, moves.len() - i,
{
    if i < 0 || i >= moves.len() || depth == 0 {
        (best, best_move, count)
    } else {
        let child = spec_minimax(
            board_after(b, moves[i]),
            (depth - 1) as nat,
            -obj,
            bot_depth,
            captures_first,
        );
        let corrected = correct_mate(child.0, bot_depth);
        let new_best = if corrected > best {
            corrected
        } else {
            best
        };
        let new_move = if corrected > best {
            Some(moves[i])
        } else {
            best_move
        };
        spec_minimax_children(
            b,
            moves,
            i + 1,
            depth,
            new_best,
            new_move,
            count + child.2,
            obj,
            bot_depth,
            captures_first,
        )
    }
}

/// What a full-window search from the root returns for a bot configured
/// with the given depth and objective.
pub open spec fn spec_root_search(b: chess::Board, depth: u8, obj: int) -> (int, Option<Move>, nat) {
    spec_negamax(
        b,
        depth as nat,
        -(INFINITY as int),
        INFINITY as int,
        obj,
        depth as int,
        true,
    )
}

/// Whether a move lands on a square the opponent holds, executably.
fn is_capture_x(sqs: &Vec<Option<Piece>>, turn: Side, m: &Move) -> (r: bool)
    requires
        is_board(sqs@),
    ensures
        r == is_capture(sqs@, turn, *m),
{
    if m.to < 64 {
        match sqs[m.to as usize] {
            Some(p) => p.side != turn,
            None => false,
        }
    } else {
        false
    }
}

/// The order the searcher walks the move list in: the indices of the
/// capturing moves first, then the rest, each group in original order.
#[verifier::loop_isolation(false)]
fn order_moves(decoded: &Vec<Move>, sqs: &Vec<Option<Piece>>, turn: Side) -> (r: Vec<usize>)
    requires
        is_board(sqs@),
    ensures
        r@.len() == decoded@.len(),
        forall|j: int|
            0 <= j < r@.len() ==> (#[trigger] r@[j]) < decoded@.len() && decoded@[r@[j] as int]
                == (captures_in(decoded@, sqs@, turn) + noncaptures_in(decoded@, sqs@, turn))[j],
{
    let ghost caps = captures_in(decoded@, sqs@, turn);
    let ghost quiets = noncaptures_in(decoded@, sqs@, turn);
    proof {
        lemma_parts_len(decoded@, sqs@, turn);
    }
    let mut order: Vec<usize> = Vec::new();
    let mut i: usize = 0;
    while i < decoded.len()
        invariant
            i <= decoded@.len(),
            order@.len() == captures_in(decoded@.take(i as int), sqs@, turn).len(),
            order@.len() <= i,
            forall|j: int|
                0 <= j < order@.len() ==> (#[trigger] order@[j]) < decoded@.len()
                    && decoded@[order@[j] as int] == captures_in(decoded@.take(i as int), sqs@, turn)[j],
        decreases decoded@.len() - i,
    {
        proof {
            lemma_parts_step(decoded@, sqs@, turn, i as int);
        }
        if is_capture_x(sqs, turn, &decoded[i]) {
            order.push(i);
        }
        i = i + 1;
    }
    proof {
        assert(decoded@.take(decoded@.len() as int) =~= decoded@);
    }
    let ghost ncaps = order@.len() as int;
    let mut i: usize = 0;
    while i < decoded.len()
        invariant
            i <= decoded@.len(),
            ncaps == caps.len(),
            order@.len() == caps.len() + noncaptures_in(decoded@.take(i as int), sqs@, turn).len(),
            order@.len() <= caps.len() + i,
            forall|j: int|
                0 <= j < ncaps ==> (#[trigger] order@[j]) < decoded@.len()
                    && decoded@[order@[j] as int] == caps[j],
            forall|j: int|
                ncaps <= j < order@.len() ==> (#[trigger] order@[j]) < decoded@.len()
                    && decoded@[order@[j] as int] == noncaptures_in(
                    decoded@.take(i as int),
                    sqs@,
                    turn,
                )[j - ncaps],
        decreases decoded@.len() - i,
    {
        proof {
            lemma_parts_step(decoded@, sqs@, turn, i as int);
        }
        if !is_capture_x(sqs, turn, &decoded[i]) {
            order.push(i);
        }
        i = i + 1;
    }
    proof {
        assert(decoded@.take(decoded@.len() as int) =~= decoded@);
        assert forall|j: int| 0 <= j < order@.len() implies (#[trigger] order@[j]) < decoded@.len()
            && decoded@[order@[j] as int] == (caps + quiets)[j] by {
            if j < ncaps {
                assert(decoded@[order@[j] as int] == caps[j]);
            } else {
                assert(decoded@[order@[j] as int] == quiets[j - ncaps]);
            }
        }
    }
    order
}

/// A fixed-depth chess player: it evaluates positions for its color and
/// picks moves by negamax search.
pub struct Bot {
    pub color: Side,
    objective: i32,
    depth: u8,
    _debug: bool,
}

impl Bot {
    /// The color the bot plays.
    pub closed spec fn spec_color(self) -> Side {
        self.color
    }

    /// The sign the bot maximizes for: +1 as White, -1 as Black.
    pub closed spec fn spec_objective(self) -> int {
        self.objective as int
    }

    /// The configured search depth in plies.
    pub closed spec fn spec_depth(self) -> u8 {
        self.depth
    }

    /// A bot as `new` builds it: the objective matches the color.
    pub closed spec fn wf(self) -> bool {
        self.spec_objective() == if self.color == Side::White {
            1int
        } else {
            -1int
        }
    }

    /// Make a bot that plays the given color and searches to the given
    /// depth.
    pub fn new(color: Side, depth: u8, _debug: bool) -> (r: Bot)
        ensures
            r.spec_color() == color,
            r.spec_depth() == depth,
            r.wf(),
            r.spec_objective() == if color == Side::White {
                1int
            } else {
                -1int
            },
    {
        Bot {
            color,
            objective: if matches!(color, Side::White) {
                1
            } else {
                -1
            },
            depth,
            _debug,
        }
    }

    /// The bot's static evaluation of a board, White-positive.
    pub fn eval(&self, board: &chess::Board) -> (r: i32)
        ensures
            r == spec_evaluate(board_squares(*board), board_turn(*board), board_state(*board)),
            -INFINITY <= r <= INFINITY,
    {
        evaluate(board)
    }

    /// Depth-bounded negamax with alpha-beta pruning, captures searched
    /// first: returns exactly the value, move and clipped node count of
    /// `spec_negamax`, so the search is a pure function of its arguments.
    #[verifier::loop_isolation(false)]
    pub fn negamax(
        &self,
        board: &chess::Board,
        depth: u8,
        alpha: i32,
        beta: i32,
        player_obj: i32,
    ) -> (r: (i32, Option<Move>, u32))
        requires
            player_obj == 1 || player_obj == -1,
            -INFINITY <= alpha <= INFINITY,
            -INFINITY <= beta <= INFINITY,
        ensures
            ({
                let s = spec_negamax(
                    *board,
                    depth as nat,
                    alpha as int,
                    beta as int,
                    player_obj as int,
                    self.spec_depth() as int,
                    true,
                );
                r.0 == s.0 && r.1 == s.1 && r.2 == cap32(s.2)
            }),
            -INFINITY <= r.0 <= INFINITY,
        decreases depth,
    {
        let status = status_of(board);
        if depth == 0 || !matches!(status, Status::Ongoing) {
            let e = evaluate(board);
            let score = if player_obj == 1 {
                e
            } else {
                -e
            };
            return (score, None, 1);
        }
        let ghost target = spec_negamax(
            *board,
            depth as nat,
            alpha as int,
            beta as int,
            player_obj as int,
            self.spec_depth() as int,
            true,
        );
        let raw = legal_moves_raw(board);
        let decoded = decode_moves(board, &raw);
        let sqs = board_pieces(board);
        let turn = side_of(board);
        let order = order_moves(&decoded, &sqs, turn);
        let ghost ordered = spec_move_order(*board, true);
        proof {
            assert(ordered == captures_in(decoded@, sqs@, turn) + noncaptures_in(
                decoded@,
                sqs@,
                turn,
            ));
            lemma_parts_len(decoded@, sqs@, turn);
        }
        let threshold: i32 = INFINITY - 1 - (self.depth as i32);
        let mut best_score: i32 = i32::MIN;
        let mut best_move: Option<Move> = None;
        let mut count: u32 = 0;
        let ghost mut exact_count: nat = 0nat;
        let mut al: i32 = alpha;
        let mut j: usize = 0;
        while j < order.len()
            invariant
                j <= order@.len(),
                -INFINITY <= al <= INFINITY,
                j == 0 ==> best_score == i32::MIN && best_move is None && count == 0 && exact_count
                    == 0 && al == alpha,
                j > 0 ==> -INFINITY <= best_score <= INFINITY,
                count == cap32(exact_count),
                spec_search_children(
                    *board,
                    ordered,
                    j as int,
                    depth as nat,
                    al as int,
                    beta as int,
                    best_score as int,
                    best_move,
                    exact_count,
                    player_obj as int,
                    self.spec_depth() as int,
                    true,
                ) == target,
            decreases order@.len() - j,
        {
            let ghost inv_al = al;
            let ghost inv_best = best_score;
            let ghost inv_move = best_move;
            let ghost inv_count = exact_count;
            let idx = order[j];
            let m = &raw[idx];
            proof {
                assert(decoded@[idx as int] == ordered[j as int]);
                assert(move_view(raw@[idx as int]) == board_moves(*board)[idx as int]);
                assert(board_moves(*board).contains(move_view(*m))) by {
                    assert(board_moves(*board)[idx as int] == move_view(*m));
                }
            }
            let child_board = make_move(board, m);
            let (child_score, _child_move, c) = self.negamax(
                &child_board,
                depth - 1,
                -beta,
                -al,
                -player_obj,
            );
            let ghost s_child = spec_negamax(
                board_after(*board, ordered[j as int]),
                (depth - 1) as nat,
                -(beta as int),
                -(al as int),
                -(player_obj as int),
                self.spec_depth() as int,
                true,
            );
            let corrected: i32 = if child_score >= threshold {
                -(child_score - 1)
            } else {
                -child_score
            };
            proof {
                assert(corrected as int == correct_mate(child_score as int, self.spec_depth() as int));
                lemma_cap32_add(exact_count, s_child.2);
            }
            if corrected > best_score {
                best_score = corrected;
                best_move = Some(decoded[idx]);
            }
            if corrected > al {
                al = corrected;
            }
            count = if count > u32::MAX - c {
                u32::MAX
            } else {
                count + c
            };
            proof {
                exact_count = inv_count + s_child.2;
                assert(spec_search_children(
                    *board,
                    ordered,
                    j as int,
                    depth as nat,
                    inv_al as int,
                    beta as int,
                    inv_best as int,
                    inv_move,
                    inv_count,
                    player_obj as int,
                    self.spec_depth() as int,
                    true,
                ) == if al as int >= beta as int {
                    (best_score as int, best_move, exact_count)
                } else {
                    spec_search_children(
                        *board,
                        ordered,
                        j + 1,
                        depth as nat,
                        al as int,
                        beta as int,
                        best_score as int,
                        best_move,
                        exact_count,
                        player_obj as int,
                        self.spec_depth() as int,
                        true,
                    )
                });
            }
            if al >= beta {
                return (best_score, best_move, count);
            }
            j = j + 1;
        }
        (best_score, best_move, count)
    }

    /// The same search without the capture-first ordering: children are
    /// examined in plain generator order, still with pruning.
    #[verifier::loop_isolation(false)]
    pub fn negamax_no_moveorder(
        &self,
        board: &chess::Board,
        depth: u8,
        alpha: i32,
        beta: i32,
        player_obj: i32,
    ) -> (r: (i32, Option<Move>, u32))
        requires
            player_obj == 1 || player_obj == -1,
            -INFINITY <= alpha <= INFINITY,
            -INFINITY <= beta <= INFINITY,
        ensures
            ({
                let s = spec_negamax(
                    *board,
                    depth as nat,
                    alpha as int,
                    beta as int,
                    player_obj as int,
                    self.spec_depth() as int,
                    false,
                );
                r.0 == s.0 && r.1 == s.1 && r.2 == cap32(s.2)
            }),
            -INFINITY <= r.0 <= INFINITY,
        decreases depth,
    {
        let status = status_of(board);
        if depth == 0 || !matches!(status, Status::Ongoing) {
            let e = evaluate(board);
            let score = if player_obj == 1 {
                e
            } else {
                -e
            };
            return (score, None, 1);
        }
        let ghost target = spec_negamax(
            *board,
            depth as nat,
            alpha as int,
            beta as int,
            player_obj as int,
            self.spec_depth() as int,
            false,
        );
        let raw = legal_moves_raw(board);
        let decoded = decode_moves(board, &raw);
        let ghost ordered = spec_move_order(*board, false);
        let threshold: i32 = INFINITY - 1 - (self.depth as i32);
        let mut best_score: i32 = i32::MIN;
        let mut best_move: Option<Move> = None;
        let mut count: u32 = 0;
        let ghost mut exact_count: nat = 0nat;
        let mut al: i32 = alpha;
        let mut j: usize = 0;
        while j < decoded.len()
            invariant
                j <= decoded@.len(),
                -INFINITY <= al <= INFINITY,
                j == 0 ==> best_score == i32::MIN && best_move is None && count == 0 && exact_count
                    == 0 && al == alpha,
                j > 0 ==> -INFINITY <= best_score <= INFINITY,
                count == cap32(exact_count),
                spec_search_children(
                    *board,
                    ordered,
                    j as int,
                    depth as nat,
                    al as int,
                    beta as int,
                    best_score as int,
                    best_move,
                    exact_count,
                    player_obj as int,
                    self.spec_depth() as int,
                    false,
                ) == target,
            decreases decoded@.len() - j,
        {
            let ghost inv_al = al;
            let ghost inv_best = best_score;
            let ghost inv_move = best_move;
            let ghost inv_count = exact_count;
            let m = &raw[j];
            proof {
                assert(decoded@[j as int] == ordered[j as int]);
                assert(board_moves(*board).contains(move_view(*m))) by {
                    assert(board_moves(*board)[j as int] == move_view(*m));
                }
            }
            let child_board = make_move(board, m);
            let (child_score, _child_move, c) = self.negamax_no_moveorder(
                &child_board,
                depth - 1,
                -beta,
                -al,
                -player_obj,
            );
            let ghost s_child = spec_negamax(
                board_after(*board, ordered[j as int]),
                (depth - 1) as nat,
                -(beta as int),
                -(al as int),
                -(player_obj as int),
                self.spec_depth() as int,
                false,
            );
            let corrected: i32 = if child_score >= threshold {
                -(child_score - 1)
            } else {
                -child_score
            };
            proof {
                assert(corrected as int == correct_mate(child_score as int, self.spec_depth() as int));
                lemma_cap32_add(exact_count, s_child.2);
            }
            if corrected > best_score {
                best_score = corrected;
                best_move = Some(decoded[j]);
            }
            if corrected > al {
                al = corrected;
            }
            count = if count > u32::MAX - c {
                u32::MAX
            } else {
                count + c
            };
            proof {
                exact_count = inv_count + s_child.2;
                assert(spec_search_children(
                    *board,
                    ordered,
                    j as int,
                    depth as nat,
                    inv_al as int,
                    beta as int,
                    inv_best as int,
                    inv_move,
                    inv_count,
                    player_obj as int,
                    self.spec_depth() as int,
                    false,
                ) == if al as int >= beta as int {
                    (best_score as int, best_move, exact_count)
                } else {
                    spec_search_children(
                        *board,
                        ordered,
                        j + 1,
                        depth as nat,
                        al as int,
                        beta as int,
                        best_score as int,
                        best_move,
                        exact_count,
                        player_obj as int,
                        self.spec_depth() as int,
                        false,
                    )
                });
            }
            if al >= beta {
                return (best_score, best_move, count);
            }
            j = j + 1;
        }
        (best_score, best_move, count)
    }

    /// Search the board to the configured depth with a full window and
    /// return the chosen move; when the position admits no move at all,
    /// the harmless placeholder a1a2 is returned, as a caller must treat a
    /// terminal position separately anyway.
    pub fn get_move(&self, board: &chess::Board) -> (r: Move)
        requires
            self.wf(),
        ensures
            ({
                let s = spec_root_search(*board, self.spec_depth(), self.spec_objective());
                r == match s.1 {
                    Some(m) => m,
                    None => Move { from: 0, to: 8, promotion: None },
                }
            }),
    {
        let (_pos_score, best_move, _positions) = self.negamax(
            board,
            self.depth,
            -INFINITY,
            INFINITY,
            self.objective,
        );
        match best_move {
            Some(m) => m,
            None => Move { from: 0, to: 8, promotion: None },
        }
    }
}

} // verus!
