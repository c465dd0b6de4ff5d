//! The static position evaluator: a signed score from White's point of view,
//! blending material, piece-square tables interpolated by game phase, pair
//! bonuses, an endgame boost for pawns, and a term that rewards driving a
//! starved opponent's king away from the center.

use vstd::prelude::*;

use crate::rules::{
    board_from_fen, board_pieces, board_squares, board_state, board_turn, fen_board, side_of,
    status_of,
};
use crate::tables::{lemma_pst_bounds, PST};
use crate::types::{is_board, kind_idx, kind_index, Piece, PieceKind, Side, Status};

verus! {

/// The finite stand-in for an infinite score: the value of a checkmate
/// before any mate-distance correction. Kept two below `i32::MAX` so that
/// the search may negate scores and subtract mate-distance steps without
/// overflow.
pub const INFINITY: i32 = i32::MAX - 2;

/// Base value of a pawn; all other piece values are multiples of it.
pub const PAWN_VALUE: i32 = 100;

/// The material of one side at the start of a game: eight pawns, two each
/// of rook, bishop and knight, and one queen.
pub const TOTAL_PIECE_VALUE: i32 = 3900;

/// Truncating division, the semantics of `/` on machine integers: the
/// quotient is rounded toward zero. Spec division `/` is Euclidean, so the
/// two differ on negative dividends. Meaningful for `b > 0`.
pub open spec fn trunc_div(a: int, b: int) -> int {
    if a >= 0 {
        a / b
    } else {
        -((-a) / b)
    }
}

/// Executable truncating division on wide integers.
pub fn div_trunc(a: i64, b: i64) -> (r: i64)
    requires
        b > 0,
        a > i64::MIN,
    ensures
        r == trunc_div(a as int, b as int),
{
    if a >= 0 {
        a / b
    } else {
        -((-a) / b)
    }
}

/// How many pieces of the given kind and side the squares hold.
pub open spec fn count_pieces(sqs: Seq<Option<Piece>>, k: PieceKind, s: Side) -> nat
    decreases sqs.len(),
{
    if sqs.len() == 0 {
        0
    } else {
        count_pieces(sqs.drop_last(), k, s) + match sqs.last() {
            Some(p) => if p.kind == k && p.side == s {
                1nat
            } else {
                0nat
            },
            None => 0nat,
        }
    }
}

pub proof fn lemma_count_le_len(sqs: Seq<Option<Piece>>, k: PieceKind, s: Side)
    ensures
        count_pieces(sqs, k, s) <= sqs.len(),
    decreases sqs.len(),
{
    if sqs.len() > 0 {
        lemma_count_le_len(sqs.drop_last(), k, s);
    }
}

/// Count the pieces of one kind and side on the board.
pub fn count_kind(sqs: &Vec<Option<Piece>>, k: PieceKind, s: Side) -> (r: u32)
    requires
        is_board(sqs@),
    ensures
        r == count_pieces(sqs@, k, s),
        r <= 64,
{
    let mut cnt: u32 = 0;
    let mut i: usize = 0;
    while i < 64
        invariant
            is_board(sqs@),
            i <= 64,
            cnt == count_pieces(sqs@.take(i as int), k, s),
            cnt <= i,
        decreases 64 - i,
    {
        proof {
            assert(sqs@.take(i + 1).drop_last() =~= sqs@.take(i as int));
            assert(sqs@.take(i + 1).last() == sqs@[i as int]);
        }
        match sqs[i] {
            Some(p) => {
                if p.kind == k && p.side == s {
                    cnt = cnt + 1;
                }
            },
            None => {},
        }
        i = i + 1;
    }
    proof {
        assert(sqs@.take(64) =~= sqs@);
    }
    cnt
}

/// Base material of one side: piece counts times base values, pawns 100,
/// knights and bishops 300, rooks 500, queens 900.
pub open spec fn material_base(sqs: Seq<Option<Piece>>, s: Side) -> int {
    count_pieces(sqs, PieceKind::Pawn, s) * 100int + count_pieces(sqs, PieceKind::Knight, s)
        * 300int + count_pieces(sqs, PieceKind::Bishop, s) * 300int + count_pieces(
        sqs,
        PieceKind::Rook,
        s,
    ) * 500int + count_pieces(sqs, PieceKind::Queen, s) * 900int
}

/// The game-phase scalar before clamping: one point per minor piece, two
/// per rook, four per queen, both sides together.
pub open spec fn game_phase(sqs: Seq<Option<Piece>>) -> int {
    count_pieces(sqs, PieceKind::Knight, Side::White) + count_pieces(
        sqs,
        PieceKind::Knight,
        Side::Black,
    ) + count_pieces(sqs, PieceKind::Bishop, Side::White) + count_pieces(
        sqs,
        PieceKind::Bishop,
        Side::Black,
    ) + 2int * (count_pieces(sqs, PieceKind::Rook, Side::White) + count_pieces(
        sqs,
        PieceKind::Rook,
        Side::Black,
    )) + 4int * (count_pieces(sqs, PieceKind::Queen, Side::White) + count_pieces(
        sqs,
        PieceKind::Queen,
        Side::Black,
    ))
}

/// One side's material after the flat adjustments and the endgame pawn
/// boost: a penalty for having no pawns, penalties for knight and rook
/// pairs, a bonus for the bishop pair, and extra pawn value growing as the
/// side's own material shrinks.
pub open spec fn material_adjusted(sqs: Seq<Option<Piece>>, s: Side) -> int {
    let pawns = count_pieces(sqs, PieceKind::Pawn, s) as int;
    let knights = count_pieces(sqs, PieceKind::Knight, s) as int;
    let bishops = count_pieces(sqs, PieceKind::Bishop, s) as int;
    let rooks = count_pieces(sqs, PieceKind::Rook, s) as int;
    let base = material_base(sqs, s);
    let endgame_factor = TOTAL_PIECE_VALUE - base;
    base + (if pawns == 0 {
        -50int
    } else {
        0int
    }) + (if knights == 2 {
        -10int
    } else {
        0int
    }) + (if bishops == 2 {
        50int
    } else {
        0int
    }) + (if rooks == 2 {
        -10int
    } else {
        0int
    }) + trunc_div(pawns * endgame_factor * 100, 3900)
}

/// Mirror a square index vertically: the square seen from the other side
/// of the board, same file, rank flipped.
pub open spec fn mirror_square(i: int) -> int {
    i % 8 + 8 * (7 - i / 8)
}

/// The signed table contribution of one square, for phase 0 (middle game)
/// or 1 (end game): White pieces read the table at their own square and
/// count positively, Black pieces read the mirrored square and count
/// negatively.
pub open spec fn pst_term(sq: Option<Piece>, i: int, phase: int) -> int {
    match sq {
        None => 0,
        Some(p) => {
            let idx = if p.side == Side::White {
                i
            } else {
                mirror_square(i)
            };
            let v = PST[kind_index(p.kind)][phase][idx] as int;
            if p.side == Side::White {
                v
            } else {
                -v
            }
        },
    }
}

/// The summed table contribution of all squares for one phase.
pub open spec fn pst_sum(sqs: Seq<Option<Piece>>, phase: int) -> int
    decreases sqs.len(),
{
    if sqs.len() == 0 {
        0
    } else {
        pst_sum(sqs.drop_last(), phase) + pst_term(sqs.last(), sqs.len() - 1, phase)
    }
}

pub proof fn lemma_pst_sum_bounds(sqs: Seq<Option<Piece>>, phase: int)
    requires
        sqs.len() <= 64,
        phase == 0 || phase == 1,
    ensures
        -200 * sqs.len() <= pst_sum(sqs, phase) <= 200 * sqs.len(),
    decreases sqs.len(),
{
    lemma_pst_bounds();
    if sqs.len() > 0 {
        lemma_pst_sum_bounds(sqs.drop_last(), phase);
        let i = sqs.len() - 1;
        assert(0 <= mirror_square(i) < 64);
    }
}

/// Both phase sums of the piece-square tables, in one pass over the board.
pub fn pst_totals(sqs: &Vec<Option<Piece>>) -> (r: (i64, i64))
    requires
        is_board(sqs@),
    ensures
        r.0 == pst_sum(sqs@, 0),
        r.1 == pst_sum(sqs@, 1),
{
    let mut mg: i64 = 0;
    let mut eg: i64 = 0;
    let mut i: usize = 0;
    proof {
        lemma_pst_bounds();
    }
    while i < 64
        invariant
            is_board(sqs@),
            i <= 64,
            mg == pst_sum(sqs@.take(i as int), 0),
            eg == pst_sum(sqs@.take(i as int), 1),
            -200 * i <= mg <= 200 * i,
            -200 * i <= eg <= 200 * i,
            forall|k: int, p: int, j: int|
                0 <= k < 6 && 0 <= p < 2 && 0 <= j < 64 ==> -200 <= #[trigger] PST[k][p][j] <= 200,
        decreases 64 - i,
    {
        proof {
            assert(sqs@.take(i + 1).drop_last() =~= sqs@.take(i as int));
            assert(sqs@.take(i + 1).last() == sqs@[i as int]);
        }
        match sqs[i] {
            Some(p) => {
                let idx: usize = if matches!(p.side, Side::White) {
                    i
                } else {
                    i % 8 + 8 * (7 - i / 8)
                };
                assert(idx == if p.side == Side::White {
                    i as int
                } else {
                    mirror_square(i as int)
                });
                let k: usize = kind_idx(p.kind);
                let mg_v: i32 = PST[k][0][idx];
                let eg_v: i32 = PST[k][1][idx];
                if matches!(p.side, Side::White) {
                    mg = mg + mg_v as i64;
                    eg = eg + eg_v as i64;
                } else {
                    mg = mg - mg_v as i64;
                    eg = eg - eg_v as i64;
                }
            },
            None => {},
        }
        i = i + 1;
    }
    proof {
        assert(sqs@.take(64) =~= sqs@);
    }
    (mg, eg)
}

/// The lowest square index holding the king of the given side, searching
/// from square `i` upward; 64 if there is none. A board produced by the
/// rules engine always has both kings, so 64 only arises on boards no game
/// can reach.
pub open spec fn king_square_from(sqs: Seq<Option<Piece>>, s: Side, i: int) -> int
    decreases sqs.len() - i,
{
    if i < 0 || i >= sqs.len() {
        64
    } else {
        match sqs[i] {
            Some(p) => if p.kind == PieceKind::King && p.side == s {
                i
            } else {
                king_square_from(sqs, s, i + 1)
            },
            None => king_square_from(sqs, s, i + 1),
        }
    }
}

/// The square of the given side's king: the lowest index holding it, or 64
/// if the board has no such king.
pub open spec fn king_square(sqs: Seq<Option<Piece>>, s: Side) -> int {
    king_square_from(sqs, s, 0)
}

pub proof fn lemma_king_square_range(sqs: Seq<Option<Piece>>, s: Side, i: int)
    requires
        0 <= i,
        sqs.len() <= 64,
    ensures
        0 <= king_square_from(sqs, s, i) <= 64,
    decreases sqs.len() - i,
{
    if 0 <= i < sqs.len() {
        lemma_king_square_range(sqs, s, i + 1);
    }
}

/// Find the given side's king on the board; 64 if absent.
pub fn find_king(sqs: &Vec<Option<Piece>>, s: Side) -> (r: u8)
    requires
        is_board(sqs@),
    ensures
        r == king_square(sqs@, s),
        r <= 64,
{
    let mut i: usize = 0;
    while i < 64
        invariant
            is_board(sqs@),
            i <= 64,
            king_square(sqs@, s) == king_square_from(sqs@, s, i as int),
        decreases 64 - i,
    {
        match sqs[i] {
            Some(p) => {
                if matches!(p.kind, PieceKind::King) && (matches!(p.side, Side::White)
                    == matches!(s, Side::White)) {
                    proof {
                        lemma_king_square_range(sqs@, s, i as int);
                    }
                    return i as u8;
                }
            },
            None => {},
        }
        i = i + 1;
    }
    64
}

/// Distance of a square from the central 2x2 block of the board, file and
/// rank distances summed.
pub open spec fn center_distance(idx: int) -> int {
    let x = idx % 8;
    let y = idx / 8;
    (if 3 - x > x - 4 {
        3 - x
    } else {
        x - 4
    }) + (if 3 - y > y - 4 {
        3 - y
    } else {
        y - 4
    })
}

/// Center distances of the two kings, given their square indices: first the
/// Black king's distance, then the White king's, as the evaluator consumes
/// them.
pub fn force_king_to_corner(king_w_idx: i32, king_b_idx: i32) -> (r: (i32, i32))
    requires
        0 <= king_w_idx,
        0 <= king_b_idx,
    ensures
        r.0 == center_distance(king_b_idx as int),
        r.1 == center_distance(king_w_idx as int),
{
    let king_w_x = king_w_idx % 8;
    let king_w_y = king_w_idx / 8;
    let king_b_x = king_b_idx % 8;
    let king_b_y = king_b_idx / 8;
    let center_distance_b_x = if 3 - king_b_x > king_b_x - 4 {
        3 - king_b_x
    } else {
        king_b_x - 4
    };
    let center_distance_b_y = if 3 - king_b_y > king_b_y - 4 {
        3 - king_b_y
    } else {
        king_b_y - 4
    };
    let center_distance_b = center_distance_b_x + center_distance_b_y;
    let center_distance_w_x = if 3 - king_w_x > king_w_x - 4 {
        3 - king_w_x
    } else {
        king_w_x - 4
    };
    let center_distance_w_y = if 3 - king_w_y > king_w_y - 4 {
        3 - king_w_y
    } else {
        king_w_y - 4
    };
    let center_distance_w = center_distance_w_x + center_distance_w_y;
    (center_distance_b, center_distance_w)
}

/// The endgame king term: reward pushing the king of a side with little
/// material away from the center, from White's point of view.
pub open spec fn king_pressure(sqs: Seq<Option<Piece>>) -> int {
    let endgame_factor_w = TOTAL_PIECE_VALUE - material_base(sqs, Side::White);
    let endgame_factor_b = TOTAL_PIECE_VALUE - material_base(sqs, Side::Black);
    let cd_w = center_distance(king_square(sqs, Side::White));
    let cd_b = center_distance(king_square(sqs, Side::Black));
    trunc_div(cd_b * endgame_factor_b * 2, 100) - trunc_div(cd_w * endgame_factor_w * 2, 100)
}

/// The blended piece-square score: middle-game and end-game sums weighted
/// by the clamped game phase.
pub open spec fn pst_blend(sqs: Seq<Option<Piece>>) -> int {
    let phase = game_phase(sqs);
    let mg_phase = if phase > 24 {
        24int
    } else {
        phase
    };
    let eg_phase = 24 - mg_phase;
    trunc_div(pst_sum(sqs, 0) * mg_phase + pst_sum(sqs, 1) * eg_phase, 24)
}

/// The full static evaluation, White-positive. Stalemate is a draw;
/// checkmate is the mate sentinel for whichever side delivered it; a board
/// with no material at all is a dead draw; otherwise material, tables and
/// king pressure are summed.
pub open spec fn spec_evaluate(sqs: Seq<Option<Piece>>, turn: Side, status: Status) -> int {
    if status == Status::Stalemate {
        0
    } else if status == Status::Checkmate {
        if turn == Side::Black {
            INFINITY as int
        } else {
            -(INFINITY as int)
        }
    } else if material_base(sqs, Side::White) == 0 && material_base(sqs, Side::Black) == 0 {
        0
    } else {
        material_adjusted(sqs, Side::White) - material_adjusted(sqs, Side::Black) + pst_blend(sqs)
            + king_pressure(sqs)
    }
}

/// Every evaluation fits comfortably inside the sentinel band: only a
/// checkmate reaches `INFINITY` in magnitude.
pub proof fn lemma_evaluate_bounds(sqs: Seq<Option<Piece>>, turn: Side, status: Status)
    requires
        is_board(sqs),
    ensures
        -(INFINITY as int) <= spec_evaluate(sqs, turn, status) <= INFINITY as int,
        status != Status::Checkmate ==> -2000000 <= spec_evaluate(sqs, turn, status) <= 2000000,
{
    if status == Status::Stalemate || status == Status::Checkmate {
    } else {
        lemma_material_adjusted_bounds(sqs, Side::White);
        lemma_material_adjusted_bounds(sqs, Side::Black);
        lemma_pst_blend_bounds(sqs);
        lemma_king_pressure_bounds(sqs);
    }
}

pub proof fn lemma_material_base_bounds(sqs: Seq<Option<Piece>>, s: Side)
    requires
        is_board(sqs),
    ensures
        0 <= material_base(sqs, s) <= 134400,
{
    lemma_count_le_len(sqs, PieceKind::Pawn, s);
    lemma_count_le_len(sqs, PieceKind::Knight, s);
    lemma_count_le_len(sqs, PieceKind::Bishop, s);
    lemma_count_le_len(sqs, PieceKind::Rook, s);
    lemma_count_le_len(sqs, PieceKind::Queen, s);
}

/// A quotient bound: when the dividend stays within `m` times the divisor,
/// the truncated quotient stays within `m`.
proof fn lemma_trunc_div_bound(a: int, b: int, m: int)
    requires
        b > 0,
        0 <= m,
        -(m * b) <= a <= m * b,
    ensures
        -m <= trunc_div(a, b) <= m,
{
    if a >= 0 {
        vstd::arithmetic::div_mod::lemma_div_pos_is_pos(a, b);
        vstd::arithmetic::div_mod::lemma_div_is_ordered(a, m * b, b);
        vstd::arithmetic::div_mod::lemma_div_by_multiple(m, b);
    } else {
        vstd::arithmetic::div_mod::lemma_div_pos_is_pos(-a, b);
        vstd::arithmetic::div_mod::lemma_div_is_ordered(-a, m * b, b);
        vstd::arithmetic::div_mod::lemma_div_by_multiple(m, b);
    }
}

pub proof fn lemma_material_adjusted_bounds(sqs: Seq<Option<Piece>>, s: Side)
    requires
        is_board(sqs),
    ensures
        -400000 <= material_adjusted(sqs, s) <= 400000,
{
    lemma_material_base_bounds(sqs, s);
    lemma_count_le_len(sqs, PieceKind::Pawn, s);
    let pawns = count_pieces(sqs, PieceKind::Pawn, s) as int;
    let endgame_factor = TOTAL_PIECE_VALUE - material_base(sqs, s);
    assert(-130500 <= endgame_factor <= 3900);
    assert(-250000 * 3900 <= pawns * endgame_factor * 100 <= 250000 * 3900) by (nonlinear_arith)
        requires
            0 <= pawns <= 64,
            -130500 <= endgame_factor <= 3900,
    ;
    lemma_trunc_div_bound(pawns * endgame_factor * 100, 3900, 250000);
}

pub proof fn lemma_pst_blend_bounds(sqs: Seq<Option<Piece>>)
    requires
        is_board(sqs),
    ensures
        -25600 <= pst_blend(sqs) <= 25600,
{
    lemma_pst_sum_bounds(sqs, 0);
    lemma_pst_sum_bounds(sqs, 1);
    let phase = game_phase(sqs);
    let mg_phase = if phase > 24 {
        24int
    } else {
        phase
    };
    assert(0 <= mg_phase <= 24);
    let blended = pst_sum(sqs, 0) * mg_phase + pst_sum(sqs, 1) * (24 - mg_phase);
    assert(-12800 * 24 <= pst_sum(sqs, 0) * mg_phase <= 12800 * 24) by (nonlinear_arith)
        requires
            -12800 <= pst_sum(sqs, 0) <= 12800,
            0 <= mg_phase <= 24,
    ;
    assert(-12800 * 24 <= pst_sum(sqs, 1) * (24 - mg_phase) <= 12800 * 24) by (nonlinear_arith)
        requires
            -12800 <= pst_sum(sqs, 1) <= 12800,
            0 <= mg_phase <= 24,
    ;
    lemma_trunc_div_bound(blended, 24, 25600);
}

pub proof fn lemma_center_distance_range(idx: int)
    requires
        0 <= idx <= 64,
    ensures
        0 <= center_distance(idx) <= 7,
{
}

pub proof fn lemma_king_pressure_bounds(sqs: Seq<Option<Piece>>)
    requires
        is_board(sqs),
    ensures
        -40000 <= king_pressure(sqs) <= 40000,
{
    lemma_material_base_bounds(sqs, Side::White);
    lemma_material_base_bounds(sqs, Side::Black);
    lemma_king_square_range(sqs, Side::White, 0);
    lemma_king_square_range(sqs, Side::Black, 0);
    lemma_center_distance_range(king_square(sqs, Side::White));
    lemma_center_distance_range(king_square(sqs, Side::Black));
    let endgame_factor_w = TOTAL_PIECE_VALUE - material_base(sqs, Side::White);
    let endgame_factor_b = TOTAL_PIECE_VALUE - material_base(sqs, Side::Black);
    let cd_w = center_distance(king_square(sqs, Side::White));
    let cd_b = center_distance(king_square(sqs, Side::Black));
    assert(-20000 * 100 <= cd_b * endgame_factor_b * 2 <= 20000 * 100) by (nonlinear_arith)
        requires
            0 <= cd_b <= 7,
            -130500 <= endgame_factor_b <= 3900,
    ;
    assert(-20000 * 100 <= cd_w * endgame_factor_w * 2 <= 20000 * 100) by (nonlinear_arith)
        requires
            0 <= cd_w <= 7,
            -130500 <= endgame_factor_w <= 3900,
    ;
    lemma_trunc_div_bound(cd_b * endgame_factor_b * 2, 100, 20000);
    lemma_trunc_div_bound(cd_w * endgame_factor_w * 2, 100, 20000);
}

/// One side's base material, executably.
fn material_base_x(sqs: &Vec<Option<Piece>>, s: Side) -> (r: i64)
    requires
        is_board(sqs@),
    ensures
        r == material_base(sqs@, s),
        0 <= r <= 134400,
{
    let pawns = count_kind(sqs, PieceKind::Pawn, s);
    let knights = count_kind(sqs, PieceKind::Knight, s);
    let bishops = count_kind(sqs, PieceKind::Bishop, s);
    let rooks = count_kind(sqs, PieceKind::Rook, s);
    let queens = count_kind(sqs, PieceKind::Queen, s);
    pawns as i64 * 100 + knights as i64 * 300 + bishops as i64 * 300 + rooks as i64 * 500
        + queens as i64 * 900
}

/// One side's adjusted material, executably.
fn material_adjusted_x(sqs: &Vec<Option<Piece>>, s: Side) -> (r: i64)
    requires
        is_board(sqs@),
    ensures
        r == material_adjusted(sqs@, s),
        -400000 <= r <= 400000,
{
    let pawns = count_kind(sqs, PieceKind::Pawn, s);
    let knights = count_kind(sqs, PieceKind::Knight, s);
    let bishops = count_kind(sqs, PieceKind::Bishop, s);
    let rooks = count_kind(sqs, PieceKind::Rook, s);
    let base = material_base_x(sqs, s);
    let endgame_factor: i64 = TOTAL_PIECE_VALUE as i64 - base;
    let mut mat: i64 = base;
    if pawns == 0 {
        mat = mat - 50;
    }
    if knights == 2 {
        mat = mat - 10;
    }
    if bishops == 2 {
        mat = mat + 50;
    }
    if rooks == 2 {
        mat = mat - 10;
    }
    proof {
        assert(-250000 * 39 <= pawns * endgame_factor <= 250000 * 39) by (nonlinear_arith)
            requires
                0 <= pawns <= 64,
                -130500 <= endgame_factor <= 3900,
        ;
    }
    let boost = div_trunc(pawns as i64 * endgame_factor * 100, 3900);
    proof {
        lemma_material_adjusted_bounds(sqs@, s);
    }
    mat + boost
}

/// The blended piece-square score, executably.
fn pst_blend_x(sqs: &Vec<Option<Piece>>) -> (r: i64)
    requires
        is_board(sqs@),
    ensures
        r == pst_blend(sqs@),
        -25600 <= r <= 25600,
{
    let knights_w = count_kind(sqs, PieceKind::Knight, Side::White);
    let knights_b = count_kind(sqs, PieceKind::Knight, Side::Black);
    let bishops_w = count_kind(sqs, PieceKind::Bishop, Side::White);
    let bishops_b = count_kind(sqs, PieceKind::Bishop, Side::Black);
    let rooks_w = count_kind(sqs, PieceKind::Rook, Side::White);
    let rooks_b = count_kind(sqs, PieceKind::Rook, Side::Black);
    let queens_w = count_kind(sqs, PieceKind::Queen, Side::White);
    let queens_b = count_kind(sqs, PieceKind::Queen, Side::Black);
    let gamephase: i64 = knights_w as i64 + knights_b as i64 + bishops_w as i64 + bishops_b as i64
        + 2 * (rooks_w as i64 + rooks_b as i64) + 4 * (queens_w as i64 + queens_b as i64);
    let (mg_sum, eg_sum) = pst_totals(sqs);
    let mg_phase: i64 = if gamephase > 24 {
        24
    } else {
        gamephase
    };
    let eg_phase: i64 = 24 - mg_phase;
    proof {
        assert(gamephase == game_phase(sqs@));
        lemma_pst_sum_bounds(sqs@, 0);
        lemma_pst_sum_bounds(sqs@, 1);
        lemma_pst_blend_bounds(sqs@);
        assert(-12800 * 24 <= mg_sum * mg_phase <= 12800 * 24) by (nonlinear_arith)
            requires
                -12800 <= mg_sum <= 12800,
                0 <= mg_phase <= 24,
        ;
        assert(-12800 * 24 <= eg_sum * eg_phase <= 12800 * 24) by (nonlinear_arith)
            requires
                -12800 <= eg_sum <= 12800,
                0 <= eg_phase <= 24,
        ;
    }
    div_trunc(mg_sum * mg_phase + eg_sum * eg_phase, 24)
}

/// The endgame king term, executably.
fn king_pressure_x(sqs: &Vec<Option<Piece>>) -> (r: i64)
    requires
        is_board(sqs@),
    ensures
        r == king_pressure(sqs@),
        -40000 <= r <= 40000,
{
    let king_w_idx = find_king(sqs, Side::White);
    let king_b_idx = find_king(sqs, Side::Black);
    let (king_corner_score_w, king_corner_score_b) = force_king_to_corner(
        king_w_idx as i32,
        king_b_idx as i32,
    );
    let endgame_factor_w: i64 = TOTAL_PIECE_VALUE as i64 - material_base_x(sqs, Side::White);
    let endgame_factor_b: i64 = TOTAL_PIECE_VALUE as i64 - material_base_x(sqs, Side::Black);
    proof {
        lemma_king_square_range(sqs@, Side::White, 0);
        lemma_king_square_range(sqs@, Side::Black, 0);
        lemma_center_distance_range(king_square(sqs@, Side::White));
        lemma_center_distance_range(king_square(sqs@, Side::Black));
        lemma_king_pressure_bounds(sqs@);
        assert(-20000 * 50 <= king_corner_score_w * endgame_factor_b <= 20000 * 50)
            by (nonlinear_arith)
            requires
                0 <= king_corner_score_w <= 7,
                -130500 <= endgame_factor_b <= 3900,
        ;
        assert(-20000 * 50 <= king_corner_score_b * endgame_factor_w <= 20000 * 50)
            by (nonlinear_arith)
            requires
                0 <= king_corner_score_b <= 7,
                -130500 <= endgame_factor_w <= 3900,
        ;
    }
    div_trunc(king_corner_score_w as i64 * endgame_factor_b * 2, 100) - div_trunc(
        king_corner_score_b as i64 * endgame_factor_w * 2,
        100,
    )
}

/// The full static evaluation of a board model, White-positive: the
/// executable form of `spec_evaluate`.
pub fn evaluate_position(sqs: &Vec<Option<Piece>>, turn: Side, status: Status) -> (r: i32)
    requires
        is_board(sqs@),
    ensures
        r == spec_evaluate(sqs@, turn, status),
{
    match status {
        Status::Stalemate => 0,
        Status::Checkmate => {
            if matches!(turn, Side::Black) {
                INFINITY
            } else {
                -INFINITY
            }
        },
        Status::Ongoing => {
            let mat_w_base = material_base_x(sqs, Side::White);
            let mat_b_base = material_base_x(sqs, Side::Black);
            if mat_w_base == 0 && mat_b_base == 0 {
                return 0;
            }
            let mat_w = material_adjusted_x(sqs, Side::White);
            let mat_b = material_adjusted_x(sqs, Side::Black);
            let pst_adjusted = pst_blend_x(sqs);
            let endgame_force_king = king_pressure_x(sqs);
            (mat_w - mat_b + pst_adjusted + endgame_force_king) as i32
        },
    }
}

/// The static evaluation of a rules-engine board, White-positive. The
/// score always fits in the sentinel band, and only a checkmate reaches
/// `INFINITY` in magnitude.
pub fn evaluate(board: &chess::Board) -> (r: i32)
    ensures
        r == spec_evaluate(board_squares(*board), board_turn(*board), board_state(*board)),
        -INFINITY <= r <= INFINITY,
        board_state(*board) != Status::Checkmate ==> -2000000 <= r <= 2000000,
{
    let sqs = board_pieces(board);
    let turn = side_of(board);
    let status = status_of(board);
    proof {
        lemma_evaluate_bounds(sqs@, turn, status);
    }
    evaluate_position(&sqs, turn, status)
}

/// Evaluate the position a FEN text describes; nothing when the text is
/// not a valid FEN.
pub fn eval_from_fen(fen: &str) -> (r: Option<i32>)
    ensures
        match fen_board(fen@) {
            Some(b) => r matches Some(v) && v == spec_evaluate(
                board_squares(b),
                board_turn(b),
                board_state(b),
            ),
            None => r is None,
        },
{
    match board_from_fen(fen) {
        Some(b) => Some(evaluate(&b)),
        None => None,
    }
}

/// A bare material count on a smaller scale: pawn 10, minor pieces 30,
/// rook 50, queen 90, with the same flat pair adjustments as the full
/// evaluation scaled down tenfold.
pub open spec fn spec_piecescore_simple(sqs: Seq<Option<Piece>>) -> int {
    side_piecescore_simple(sqs, Side::White) - side_piecescore_simple(sqs, Side::Black)
}

/// One side's share of the simple material count.
pub open spec fn side_piecescore_simple(sqs: Seq<Option<Piece>>, s: Side) -> int {
    let pawns = count_pieces(sqs, PieceKind::Pawn, s) as int;
    let knights = count_pieces(sqs, PieceKind::Knight, s) as int;
    let bishops = count_pieces(sqs, PieceKind::Bishop, s) as int;
    let rooks = count_pieces(sqs, PieceKind::Rook, s) as int;
    let queens = count_pieces(sqs, PieceKind::Queen, s) as int;
    pawns * 10 + (if pawns == 0 {
        -5int
    } else {
        0int
    }) + knights * 30 + (if knights == 2 {
        -1int
    } else {
        0int
    }) + bishops * 30 + (if bishops == 2 {
        5int
    } else {
        0int
    }) + rooks * 50 + (if rooks == 2 {
        -1int
    } else {
        0int
    }) + queens * 90
}

fn side_piecescore_simple_x(sqs: &Vec<Option<Piece>>, s: Side) -> (r: i32)
    requires
        is_board(sqs@),
    ensures
        r == side_piecescore_simple(sqs@, s),
        -7 <= r <= 13450,
{
    let pawns = count_kind(sqs, PieceKind::Pawn, s);
    let knights = count_kind(sqs, PieceKind::Knight, s);
    let bishops = count_kind(sqs, PieceKind::Bishop, s);
    let rooks = count_kind(sqs, PieceKind::Rook, s);
    let queens = count_kind(sqs, PieceKind::Queen, s);
    let mut mat: i32 = pawns as i32 * 10 + knights as i32 * 30 + bishops as i32 * 30 + rooks as i32
        * 50 + queens as i32 * 90;
    if pawns == 0 {
        mat = mat - 5;
    }
    if knights == 2 {
        mat = mat - 1;
    }
    if bishops == 2 {
        mat = mat + 5;
    }
    if rooks == 2 {
        mat = mat - 1;
    }
    mat
}

/// The simple material count of a rules-engine board, White-positive.
pub fn eval_piecescore_simple(board: &chess::Board) -> (r: i32)
    ensures
        r == spec_piecescore_simple(board_squares(*board)),
{
    let sqs = board_pieces(board);
    side_piecescore_simple_x(&sqs, Side::White) - side_piecescore_simple_x(&sqs, Side::Black)
}

} // verus!
