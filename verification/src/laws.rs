//! The general laws of the engine, stated and proved over the spec
//! predicates that the executable functions' contracts use.

use vstd::prelude::*;

use crate::board::{Board, Coord, SquareState, Team, on_board_xy};
use crate::moves::{
    bishop_dest, knight_dest, landable, occupied_by, occupied_by_opponent, path_clear, pawn_dest,
    pawn_dir, ray_col, ray_hit, ray_row, rook_dest, slide_dest_dir, square_empty, Direction,
};

verus! {

/// A rook on an otherwise-empty board reaches exactly the other squares of
/// its row and of its column.
pub proof fn lemma_rook_on_empty_board(b: Board, o: Coord, t: Team, c: Coord)
    requires
        b.wf(),
        o.spec_on_board(),
        c.spec_on_board(),
        forall|x: int, y: int|
            on_board_xy(x, y) && !(x == o.col as int && y == o.row as int)
                ==> square_empty((#[trigger] b.at_xy(x, y)).occupancy),
    ensures
        rook_dest(b, o, t, c) <==> (c != o && (c.col == o.col || c.row == o.row)),
{
    if slide_dest_dir(b, o, t, Direction::East, c) {
        let k = slide_witness(b, o, t, Direction::East, c);
        assert(k * 1 == k && k * 0 == 0) by (nonlinear_arith);
    }
    if slide_dest_dir(b, o, t, Direction::West, c) {
        let k = slide_witness(b, o, t, Direction::West, c);
        assert(k * -1 == -k && k * 0 == 0) by (nonlinear_arith);
    }
    if slide_dest_dir(b, o, t, Direction::North, c) {
        let k = slide_witness(b, o, t, Direction::North, c);
        assert(k * 1 == k && k * 0 == 0) by (nonlinear_arith);
    }
    if slide_dest_dir(b, o, t, Direction::South, c) {
        let k = slide_witness(b, o, t, Direction::South, c);
        assert(k * -1 == -k && k * 0 == 0) by (nonlinear_arith);
    }
    if c != o && (c.col == o.col || c.row == o.row) {
        if c.row == o.row && c.col > o.col {
            empty_board_ray(b, o, t, Direction::East, c.col - o.col, c);
        } else if c.row == o.row && c.col < o.col {
            empty_board_ray(b, o, t, Direction::West, o.col - c.col, c);
        } else if c.col == o.col && c.row > o.row {
            empty_board_ray(b, o, t, Direction::North, c.row - o.row, c);
        } else {
            assert(ray_hit(o, Direction::South, o.row - c.row, c));
            empty_board_ray(b, o, t, Direction::South, o.row - c.row, c);
        }
    }
}

/// A bishop on an otherwise-empty board reaches exactly the other squares
/// of its two diagonals.
pub proof fn lemma_bishop_on_empty_board(b: Board, o: Coord, t: Team, c: Coord)
    requires
        b.wf(),
        o.spec_on_board(),
        c.spec_on_board(),
        forall|x: int, y: int|
            on_board_xy(x, y) && !(x == o.col as int && y == o.row as int)
                ==> square_empty((#[trigger] b.at_xy(x, y)).occupancy),
    ensures
        bishop_dest(b, o, t, c) <==> (c != o
            && (c.col + c.row == o.col + o.row
                || c.col as int - c.row as int == o.col as int - o.row as int)),
{
    if slide_dest_dir(b, o, t, Direction::NorthEast, c) {
        let k = slide_witness(b, o, t, Direction::NorthEast, c);
        assert(k * 1 == k) by (nonlinear_arith);
    }
    if slide_dest_dir(b, o, t, Direction::NorthWest, c) {
        let k = slide_witness(b, o, t, Direction::NorthWest, c);
        assert(k * 1 == k && k * -1 == -k) by (nonlinear_arith);
    }
    if slide_dest_dir(b, o, t, Direction::SouthEast, c) {
        let k = slide_witness(b, o, t, Direction::SouthEast, c);
        assert(k * 1 == k && k * -1 == -k) by (nonlinear_arith);
    }
    if slide_dest_dir(b, o, t, Direction::SouthWest, c) {
        let k = slide_witness(b, o, t, Direction::SouthWest, c);
        assert(k * -1 == -k) by (nonlinear_arith);
    }
    if c != o {
        if c.col as int - c.row as int == o.col as int - o.row as int && c.col > o.col {
            empty_board_ray(b, o, t, Direction::NorthEast, c.col - o.col, c);
        } else if c.col as int - c.row as int == o.col as int - o.row as int && c.col < o.col {
            empty_board_ray(b, o, t, Direction::SouthWest, o.col - c.col, c);
        } else if c.col + c.row == o.col + o.row && c.col > o.col {
            empty_board_ray(b, o, t, Direction::SouthEast, c.col - o.col, c);
        } else if c.col + c.row == o.col + o.row && c.col < o.col {
            empty_board_ray(b, o, t, Direction::NorthWest, o.col - c.col, c);
        }
    }
}

/// Extracts the step count of a slide destination.
proof fn slide_witness(b: Board, o: Coord, t: Team, d: Direction, c: Coord) -> (k: int)
    requires
        slide_dest_dir(b, o, t, d, c),
    ensures
        1 <= k <= 7,
        ray_hit(o, d, k, c),
        path_clear(b, o, d, k),
        landable(b.spec_at(c).occupancy, t),
{
    choose|k: int|
        1 <= k <= 7 && #[trigger] ray_hit(o, d, k, c) && c.spec_on_board()
            && path_clear(b, o, d, k) && landable(b.spec_at(c).occupancy, t)
}

/// On a board empty but for the origin, `c` at `k` steps along `d` is a
/// slide destination.
proof fn empty_board_ray(b: Board, o: Coord, t: Team, d: Direction, k: int, c: Coord)
    requires
        b.wf(),
        o.spec_on_board(),
        c.spec_on_board(),
        c != o,
        1 <= k <= 7,
        ray_hit(o, d, k, c),
        forall|x: int, y: int|
            on_board_xy(x, y) && !(x == o.col as int && y == o.row as int)
                ==> square_empty((#[trigger] b.at_xy(x, y)).occupancy),
    ensures
        slide_dest_dir(b, o, t, d, c),
{
    assert forall|j: int| 1 <= j < k
        implies on_board_xy(#[trigger] ray_col(o, d, j), ray_row(o, d, j))
            && square_empty(b.at_xy(ray_col(o, d, j), ray_row(o, d, j)).occupancy) by {
        lemma_ray_between(o, d, j, k, c);
        lemma_ray_square_not_origin(o, d, j);
    }
    assert(path_clear(b, o, d, k));
    assert(square_empty(b.spec_at(c).occupancy));
    assert(landable(b.spec_at(c).occupancy, t));
    assert(1 <= k <= 7 && ray_hit(o, d, k, c) && c.spec_on_board() && path_clear(b, o, d, k)
        && landable(b.spec_at(c).occupancy, t));
}

/// A square strictly between the origin and an on-board ray square is on
/// the board, and is not the origin.
proof fn lemma_ray_between(o: Coord, d: Direction, j: int, k: int, c: Coord)
    requires
        o.spec_on_board(),
        c.spec_on_board(),
        1 <= j < k,
        ray_hit(o, d, k, c),
    ensures
        on_board_xy(ray_col(o, d, j), ray_row(o, d, j)),
{
    assert(j * 1 == j && j * -1 == -j && j * 0 == 0 && k * 1 == k && k * -1 == -k && k * 0 == 0)
        by (nonlinear_arith);
}

/// A positive number of steps along any direction leaves the origin's
/// coordinates.
proof fn lemma_ray_square_not_origin(o: Coord, d: Direction, j: int)
    requires
        1 <= j,
    ensures
        !(ray_col(o, d, j) == o.col as int && ray_row(o, d, j) == o.row as int),
{
    assert(j * 1 == j && j * -1 == -j && j * 0 == 0) by (nonlinear_arith);
}

/// Any piece standing at distance `k` along a ray stops the slide there: no
/// square strictly beyond it is a destination.
pub proof fn lemma_blocker_stops_ray(
    b: Board,
    o: Coord,
    t: Team,
    d: Direction,
    k: int,
    j: int,
    c: Coord,
)
    requires
        b.wf(),
        o.spec_on_board(),
        1 <= k < j,
        on_board_xy(ray_col(o, d, k), ray_row(o, d, k)),
        !square_empty(b.at_xy(ray_col(o, d, k), ray_row(o, d, k)).occupancy),
        ray_hit(o, d, j, c),
    ensures
        !slide_dest_dir(b, o, t, d, c),
{
    if slide_dest_dir(b, o, t, d, c) {
        let kk = slide_witness(b, o, t, d, c);
        crate::moves::lemma_ray_hit_unique(o, d, kk, j, c);
        assert(square_empty(b.at_xy(ray_col(o, d, k), ray_row(o, d, k)).occupancy));
    }
}

/// A same-team blocker's own square is never a destination of the slide.
pub proof fn lemma_same_team_blocker_excluded(
    b: Board,
    o: Coord,
    t: Team,
    d: Direction,
    k: int,
    c: Coord,
)
    requires
        b.wf(),
        o.spec_on_board(),
        1 <= k <= 7,
        on_board_xy(ray_col(o, d, k), ray_row(o, d, k)),
        occupied_by(b.at_xy(ray_col(o, d, k), ray_row(o, d, k)).occupancy, t),
        ray_hit(o, d, k, c),
    ensures
        !slide_dest_dir(b, o, t, d, c),
{
    if slide_dest_dir(b, o, t, d, c) {
        let kk = slide_witness(b, o, t, d, c);
        assert(b.spec_at(c) == b.at_xy(ray_col(o, d, k), ray_row(o, d, k)));
        assert(!landable(b.spec_at(c).occupancy, t));
    }
}

/// An opposing blocker's square, reached over a clear path, is a
/// destination: the capture is included.
pub proof fn lemma_opponent_blocker_captured(
    b: Board,
    o: Coord,
    t: Team,
    d: Direction,
    k: int,
    c: Coord,
)
    requires
        b.wf(),
        o.spec_on_board(),
        1 <= k <= 7,
        on_board_xy(ray_col(o, d, k), ray_row(o, d, k)),
        occupied_by_opponent(b.at_xy(ray_col(o, d, k), ray_row(o, d, k)).occupancy, t),
        path_clear(b, o, d, k),
        ray_hit(o, d, k, c),
    ensures
        slide_dest_dir(b, o, t, d, c),
{
    assert(c.spec_on_board());
    assert(b.spec_at(c) == b.at_xy(ray_col(o, d, k), ray_row(o, d, k)));
    assert(landable(b.spec_at(c).occupancy, t));
    assert(1 <= k <= 7 && ray_hit(o, d, k, c) && c.spec_on_board() && path_clear(b, o, d, k)
        && landable(b.spec_at(c).occupancy, t));
}

/// A knight's jump shape, expressed on coordinates.
pub open spec fn knight_jump(o: Coord, c: Coord) -> bool {
    ||| (c.col as int == o.col + 1 && c.row as int == o.row + 2)
    ||| (c.col as int == o.col + 2 && c.row as int == o.row + 1)
    ||| (c.col as int == o.col + 2 && c.row as int == o.row - 1)
    ||| (c.col as int == o.col + 1 && c.row as int == o.row - 2)
    ||| (c.col as int == o.col - 1 && c.row as int == o.row - 2)
    ||| (c.col as int == o.col - 2 && c.row as int == o.row - 1)
    ||| (c.col as int == o.col - 2 && c.row as int == o.row + 1)
    ||| (c.col as int == o.col - 1 && c.row as int == o.row + 2)
}

/// The knight's destinations are exactly the jump-shaped squares that are
/// on the board and not held by the knight's own team.
pub proof fn lemma_knight_characterisation(b: Board, o: Coord, t: Team, c: Coord)
    requires
        b.wf(),
        o.spec_on_board(),
    ensures
        knight_dest(b, o, t, c) <==> (knight_jump(o, c) && c.spec_on_board()
            && landable(b.spec_at(c).occupancy, t)),
{
}

/// A pawn whose forward square is occupied by any piece has no forward
/// destination there.
pub proof fn lemma_pawn_forward_blocked(b: Board, o: Coord, t: Team, c: Coord)
    requires
        b.wf(),
        o.spec_on_board(),
        on_board_xy(o.col as int, o.row + pawn_dir(t)),
        !square_empty(b.at_xy(o.col as int, o.row + pawn_dir(t)).occupancy),
        c.col == o.col,
        c.row as int == o.row + pawn_dir(t),
    ensures
        !pawn_dest(b, o, t, c),
{
}

/// A pawn's diagonal square occupied by an opposing piece is a capture
/// destination.
pub proof fn lemma_pawn_diagonal_capture(b: Board, o: Coord, t: Team, dx: int, c: Coord)
    requires
        b.wf(),
        o.spec_on_board(),
        dx == -1 || dx == 1,
        on_board_xy(o.col + dx, o.row + pawn_dir(t)),
        occupied_by_opponent(b.at_xy(o.col + dx, o.row + pawn_dir(t)).occupancy, t),
        c.col as int == o.col + dx,
        c.row as int == o.row + pawn_dir(t),
    ensures
        pawn_dest(b, o, t, c),
{
}

/// A pawn's diagonal square that is empty, or held by its own team, is
/// never a destination.
pub proof fn lemma_pawn_diagonal_not_capturable(b: Board, o: Coord, t: Team, dx: int, c: Coord)
    requires
        b.wf(),
        o.spec_on_board(),
        dx == -1 || dx == 1,
        !occupied_by_opponent(b.at_xy(o.col + dx, o.row + pawn_dir(t)).occupancy, t),
        c.col as int == o.col + dx,
        c.row as int == o.row + pawn_dir(t),
    ensures
        !pawn_dest(b, o, t, c),
{
}

/// Clearing the highlights leaves a board with no highlights; since
/// clearing a board that has none is a no-op that reports nothing, clearing
/// twice in a row makes the second call a no-op.
pub proof fn lemma_cleared_has_no_highlights(prev: Board, next: Board)
    requires
        prev.wf(),
        next.wf(),
        forall|x: int, y: int|
            on_board_xy(x, y) ==> #[trigger] next.at_xy(x, y)
                == (SquareState { occupancy: prev.at_xy(x, y).occupancy, highlighted: false }),
    ensures
        next.no_highlights(),
{
}

} // verus!
