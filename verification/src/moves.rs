//! Move generation: for a piece kind, its origin square and the occupancy
//! of the board, the set of pseudo-legal destination squares.
//!
//! Each policy is characterised by a spec predicate (`slide_dest_dir`,
//! `knight_dest`, `king_dest`, `pawn_dest`); the executable generator
//! returns a vector whose membership is exactly the predicate.

use vstd::prelude::*;

use crate::board::{Board, Coord, Occupancy, PieceKind, Team, on_board_xy};

verus! {

/// Whether the occupancy holds a piece of team `t`.
pub open spec fn occupied_by(occ: Occupancy, t: Team) -> bool {
    match occ {
        Occupancy::Occupied { team, .. } => team == t,
        Occupancy::Empty => false,
    }
}

/// Whether the occupancy holds a piece of the team opposing `t`.
pub open spec fn occupied_by_opponent(occ: Occupancy, t: Team) -> bool {
    match occ {
        Occupancy::Occupied { team, .. } => team != t,
        Occupancy::Empty => false,
    }
}

/// Whether the square is empty.
pub open spec fn square_empty(occ: Occupancy) -> bool {
    occ is Empty
}

/// Whether a piece of team `t` may land on a square of this occupancy:
/// it is empty or holds an opposing piece (a capture).
pub open spec fn landable(occ: Occupancy, t: Team) -> bool {
    !occupied_by(occ, t)
}

/// Whether stepping from `o` by (dx, dy) stays on the board and reaches a
/// square a piece of team `t` may land on.
pub open spec fn offset_ok(b: Board, o: Coord, t: Team, dx: int, dy: int) -> bool {
    on_board_xy(o.col + dx, o.row + dy)
    && landable(b.at_xy(o.col + dx, o.row + dy).occupancy, t)
}

/// Whether `c` is the destination reached from `o` by the single step
/// (dx, dy): the step stays on the board and the target is landable.
pub open spec fn offset_dest(b: Board, o: Coord, t: Team, dx: int, dy: int, c: Coord) -> bool {
    offset_ok(b, o, t, dx, dy)
    && c.col as int == o.col + dx
    && c.row as int == o.row + dy
}

/// The knight's destinations: the eight (1, 2)-shaped jumps, kept on the
/// board, excluding squares held by the knight's own team. Knights jump, so
/// no path is checked.
pub open spec fn knight_dest(b: Board, o: Coord, t: Team, c: Coord) -> bool {
    ||| offset_dest(b, o, t, 1, 2, c)
    ||| offset_dest(b, o, t, 2, 1, c)
    ||| offset_dest(b, o, t, 2, -1, c)
    ||| offset_dest(b, o, t, 1, -2, c)
    ||| offset_dest(b, o, t, -1, -2, c)
    ||| offset_dest(b, o, t, -2, -1, c)
    ||| offset_dest(b, o, t, -2, 1, c)
    ||| offset_dest(b, o, t, -1, 2, c)
}

/// The king's destinations: the eight unit steps around the origin, kept on
/// the board, excluding squares held by the king's own team. No check-safety
/// filtering is applied.
pub open spec fn king_dest(b: Board, o: Coord, t: Team, c: Coord) -> bool {
    ||| offset_dest(b, o, t, 0, 1, c)
    ||| offset_dest(b, o, t, 1, 1, c)
    ||| offset_dest(b, o, t, 1, 0, c)
    ||| offset_dest(b, o, t, 1, -1, c)
    ||| offset_dest(b, o, t, 0, -1, c)
    ||| offset_dest(b, o, t, -1, -1, c)
    ||| offset_dest(b, o, t, -1, 0, c)
    ||| offset_dest(b, o, t, -1, 1, c)
}

/// A ray direction for a sliding piece. North is toward increasing row,
/// East toward increasing column.
#[derive(Clone, Copy, PartialEq, Eq, Structural, Debug)]
pub enum Direction {
    North,
    South,
    East,
    West,
    NorthEast,
    NorthWest,
    SouthEast,
    SouthWest,
}

/// The column step of one move along `d`.
pub open spec fn delta_col(d: Direction) -> int {
    match d {
        Direction::North => 0,
        Direction::South => 0,
        Direction::East => 1,
        Direction::West => -1,
        Direction::NorthEast => 1,
        Direction::NorthWest => -1,
        Direction::SouthEast => 1,
        Direction::SouthWest => -1,
    }
}

/// The row step of one move along `d`.
pub open spec fn delta_row(d: Direction) -> int {
    match d {
        Direction::North => 1,
        Direction::South => -1,
        Direction::East => 0,
        Direction::West => 0,
        Direction::NorthEast => 1,
        Direction::NorthWest => 1,
        Direction::SouthEast => -1,
        Direction::SouthWest => -1,
    }
}

/// The column of the square `k` steps from `o` along `d`.
pub open spec fn ray_col(o: Coord, d: Direction, k: int) -> int {
    o.col + k * delta_col(d)
}

/// The row of the square `k` steps from `o` along `d`.
pub open spec fn ray_row(o: Coord, d: Direction, k: int) -> int {
    o.row + k * delta_row(d)
}

/// Whether `c` is the square `k` steps from `o` along `d`.
pub open spec fn ray_hit(o: Coord, d: Direction, k: int, c: Coord) -> bool {
    c.col as int == ray_col(o, d, k) && c.row as int == ray_row(o, d, k)
}

/// Whether every square strictly between `o` and the square `k` steps along
/// `d` is on the board and empty.
pub open spec fn path_clear(b: Board, o: Coord, d: Direction, k: int) -> bool {
    forall|j: int|
        1 <= j < k ==> on_board_xy(#[trigger] ray_col(o, d, j), ray_row(o, d, j))
            && square_empty(b.at_xy(ray_col(o, d, j), ray_row(o, d, j)).occupancy)
}

/// Whether `c` is a destination of a slide from `o` along the single
/// direction `d` for team `t`: some number of steps reaches `c` on the
/// board, every square strictly before it is empty, and `c` itself is
/// landable (empty, or an opposing piece to capture).
pub open spec fn slide_dest_dir(b: Board, o: Coord, t: Team, d: Direction, c: Coord) -> bool {
    exists|k: int|
        1 <= k <= 7 && #[trigger] ray_hit(o, d, k, c) && c.spec_on_board()
            && path_clear(b, o, d, k) && landable(b.spec_at(c).occupancy, t)
}

/// The rook's destinations: slides along the four straight directions.
pub open spec fn rook_dest(b: Board, o: Coord, t: Team, c: Coord) -> bool {
    ||| slide_dest_dir(b, o, t, Direction::North, c)
    ||| slide_dest_dir(b, o, t, Direction::South, c)
    ||| slide_dest_dir(b, o, t, Direction::East, c)
    ||| slide_dest_dir(b, o, t, Direction::West, c)
}

/// The bishop's destinations: slides along the four diagonal directions.
pub open spec fn bishop_dest(b: Board, o: Coord, t: Team, c: Coord) -> bool {
    ||| slide_dest_dir(b, o, t, Direction::NorthEast, c)
    ||| slide_dest_dir(b, o, t, Direction::NorthWest, c)
    ||| slide_dest_dir(b, o, t, Direction::SouthEast, c)
    ||| slide_dest_dir(b, o, t, Direction::SouthWest, c)
}

/// The queen's destinations: the union of the rook's and the bishop's.
pub open spec fn queen_dest(b: Board, o: Coord, t: Team, c: Coord) -> bool {
    rook_dest(b, o, t, c) || bishop_dest(b, o, t, c)
}

/// Once a ray has left the board it does not return: a later step along the
/// same direction is off the board as well.
pub proof fn lemma_ray_off_board(o: Coord, d: Direction, k: int, j: int)
    requires
        o.spec_on_board(),
        1 <= k <= j,
        !on_board_xy(ray_col(o, d, k), ray_row(o, d, k)),
    ensures
        !on_board_xy(ray_col(o, d, j), ray_row(o, d, j)),
{
    assert(ray_col(o, d, k) == o.col + k * delta_col(d));
    assert(ray_col(o, d, j) == o.col + j * delta_col(d));
    assert(ray_row(o, d, k) == o.row + k * delta_row(d));
    assert(ray_row(o, d, j) == o.row + j * delta_row(d));
    match d {
        Direction::North => {
            assert(k * 0 == 0 && j * 0 == 0 && k * 1 == k && j * 1 == j) by (nonlinear_arith);
        }
        Direction::South => {
            assert(k * 0 == 0 && j * 0 == 0 && k * -1 == -k && j * -1 == -j) by (nonlinear_arith);
        }
        Direction::East => {
            assert(k * 1 == k && j * 1 == j && k * 0 == 0 && j * 0 == 0) by (nonlinear_arith);
        }
        Direction::West => {
            assert(k * -1 == -k && j * -1 == -j && k * 0 == 0 && j * 0 == 0) by (nonlinear_arith);
        }
        Direction::NorthEast => {
            assert(k * 1 == k && j * 1 == j) by (nonlinear_arith);
        }
        Direction::NorthWest => {
            assert(k * -1 == -k && j * -1 == -j && k * 1 == k && j * 1 == j) by (nonlinear_arith);
        }
        Direction::SouthEast => {
            assert(k * 1 == k && j * 1 == j && k * -1 == -k && j * -1 == -j) by (nonlinear_arith);
        }
        Direction::SouthWest => {
            assert(k * -1 == -k && j * -1 == -j) by (nonlinear_arith);
        }
    }
}

/// Two step counts that reach the same square along the same direction are
/// equal.
pub proof fn lemma_ray_hit_unique(o: Coord, d: Direction, k: int, j: int, c: Coord)
    requires
        1 <= k,
        1 <= j,
        ray_hit(o, d, k, c),
        ray_hit(o, d, j, c),
    ensures
        k == j,
{
    match d {
        Direction::North | Direction::South => {
            assert(o.row + k * delta_row(d) == o.row + j * delta_row(d));
        }
        _ => {
            assert(o.col + k * delta_col(d) == o.col + j * delta_col(d));
        }
    }
}

/// A positive number of steps along any direction leaves the origin square.
pub proof fn lemma_ray_not_origin(o: Coord, d: Direction, k: int, c: Coord)
    requires
        1 <= k,
        ray_hit(o, d, k, c),
    ensures
        c != o,
{
    match d {
        Direction::North | Direction::South => {
            assert(c.row as int == o.row + k * delta_row(d));
        }
        _ => {
            assert(c.col as int == o.col + k * delta_col(d));
        }
    }
}

/// Membership in a pushed sequence: the old members plus the pushed value.
pub(crate) proof fn lemma_push_contains<A>(s: Seq<A>, x: A, y: A)
    ensures
        s.push(x).contains(y) <==> s.contains(y) || y == x,
{
    if s.push(x).contains(y) {
        let i = choose|i: int| 0 <= i < s.push(x).len() && s.push(x)[i] == y;
        if i < s.len() {
            assert(s[i] == y);
        }
    }
    if s.contains(y) {
        let i = choose|i: int| 0 <= i < s.len() && s[i] == y;
        assert(s.push(x)[i] == y);
    }
    assert(s.push(x)[s.len() as int] == x);
}

/// Appends the destination reached from `o` by the single step (dx, dy), if
/// that step stays on the board and its target is landable for team `t`.
fn push_offset_dest(b: &Board, o: Coord, t: Team, dx: i8, dy: i8, out: &mut Vec<Coord>)
    requires
        b.wf(),
        o.spec_on_board(),
        -2 <= dx as int <= 2,
        -2 <= dy as int <= 2,
        forall|i: int| 0 <= i < old(out)@.len() ==> (#[trigger] old(out)@[i]).spec_on_board(),
    ensures
        forall|c: Coord|
            #[trigger] final(out)@.contains(c) <==> old(out)@.contains(c)
                || offset_dest(*b, o, t, dx as int, dy as int, c),
        final(out)@.len() <= old(out)@.len() + 1,
        forall|i: int| 0 <= i < final(out)@.len() ==> (#[trigger] final(out)@[i]).spec_on_board(),
{
    let x: i16 = o.col as i16 + dx as i16;
    let y: i16 = o.row as i16 + dy as i16;
    if 0 <= x && x < 8 && 0 <= y && y < 8 {
        let c = Coord { col: x as u8, row: y as u8 };
        let sq = b.at(c);
        let ok = match sq.occupancy {
            Occupancy::Empty => true,
            Occupancy::Occupied { team, .. } => !(team == t),
        };
        if ok {
            let ghost prev = out@;
            out.push(c);
            proof {
                assert(offset_dest(*b, o, t, dx as int, dy as int, c));
                assert forall|c2: Coord|
                    #[trigger] out@.contains(c2) <==> prev.contains(c2)
                        || offset_dest(*b, o, t, dx as int, dy as int, c2) by {
                    lemma_push_contains(prev, c, c2);
                    if offset_dest(*b, o, t, dx as int, dy as int, c2) {
                        assert(c2.col == c.col && c2.row == c.row);
                        assert(c2 == c);
                    }
                }
            }
        } else {
            proof {
                assert forall|c2: Coord|
                    offset_dest(*b, o, t, dx as int, dy as int, c2) implies false by {
                    assert(!landable(b.at_xy(o.col + dx as int, o.row + dy as int).occupancy, t));
                }
            }
        }
    } else {
        proof {
            assert(!on_board_xy(o.col + dx as int, o.row + dy as int));
        }
    }
}

/// The row direction a pawn of team `t` advances in: White toward
/// increasing row, Black toward decreasing row.
pub open spec fn pawn_dir(t: Team) -> int {
    match t {
        Team::White => 1,
        Team::Black => -1,
    }
}

/// Whether `c` is the pawn's forward-move destination from `o`: one square
/// ahead, on the board, and empty (the forward move never captures).
pub open spec fn pawn_forward_dest(b: Board, o: Coord, t: Team, c: Coord) -> bool {
    on_board_xy(o.col as int, o.row + pawn_dir(t))
    && square_empty(b.at_xy(o.col as int, o.row + pawn_dir(t)).occupancy)
    && c.col == o.col
    && c.row as int == o.row + pawn_dir(t)
}

/// Whether `c` is a pawn capture destination from `o` toward column offset
/// `dx`: one square diagonally ahead, on the board, and occupied by an
/// opposing piece (the diagonal step is capture-only).
pub open spec fn pawn_capture_dest(b: Board, o: Coord, t: Team, dx: int, c: Coord) -> bool {
    on_board_xy(o.col + dx, o.row + pawn_dir(t))
    && occupied_by_opponent(b.at_xy(o.col + dx, o.row + pawn_dir(t)).occupancy, t)
    && c.col as int == o.col + dx
    && c.row as int == o.row + pawn_dir(t)
}

/// The pawn's destinations: the forward move onto an empty square, and the
/// two diagonal captures. No double step from the start rank and no en
/// passant.
pub open spec fn pawn_dest(b: Board, o: Coord, t: Team, c: Coord) -> bool {
    ||| pawn_forward_dest(b, o, t, c)
    ||| pawn_capture_dest(b, o, t, -1, c)
    ||| pawn_capture_dest(b, o, t, 1, c)
}

/// Whether `c` is a pseudo-legal destination for a piece of the given kind
/// and team standing at `o`.
pub open spec fn piece_dest(b: Board, o: Coord, kind: PieceKind, t: Team, c: Coord) -> bool {
    match kind {
        PieceKind::Pawn => pawn_dest(b, o, t, c),
        PieceKind::Rook => rook_dest(b, o, t, c),
        PieceKind::Knight => knight_dest(b, o, t, c),
        PieceKind::Bishop => bishop_dest(b, o, t, c),
        PieceKind::Queen => queen_dest(b, o, t, c),
        PieceKind::King => king_dest(b, o, t, c),
    }
}

/// A slide destination is an on-board square other than the origin.
proof fn lemma_slide_props(b: Board, o: Coord, t: Team, d: Direction, c: Coord)
    requires
        slide_dest_dir(b, o, t, d, c),
    ensures
        c.spec_on_board(),
        c != o,
{
    let k = choose|k: int|
        1 <= k <= 7 && #[trigger] ray_hit(o, d, k, c) && c.spec_on_board()
            && path_clear(b, o, d, k) && landable(b.spec_at(c).occupancy, t);
    lemma_ray_not_origin(o, d, k, c);
}

/// Every pseudo-legal destination is an on-board square other than the
/// origin; in particular a piece never moves onto its own square.
pub proof fn lemma_piece_dest_props(b: Board, o: Coord, kind: PieceKind, t: Team, c: Coord)
    requires
        piece_dest(b, o, kind, t, c),
    ensures
        c.spec_on_board(),
        c != o,
{
    match kind {
        PieceKind::Rook | PieceKind::Bishop | PieceKind::Queen => {
            if slide_dest_dir(b, o, t, Direction::North, c) {
                lemma_slide_props(b, o, t, Direction::North, c);
            }
            if slide_dest_dir(b, o, t, Direction::South, c) {
                lemma_slide_props(b, o, t, Direction::South, c);
            }
            if slide_dest_dir(b, o, t, Direction::East, c) {
                lemma_slide_props(b, o, t, Direction::East, c);
            }
            if slide_dest_dir(b, o, t, Direction::West, c) {
                lemma_slide_props(b, o, t, Direction::West, c);
            }
            if slide_dest_dir(b, o, t, Direction::NorthEast, c) {
                lemma_slide_props(b, o, t, Direction::NorthEast, c);
            }
            if slide_dest_dir(b, o, t, Direction::NorthWest, c) {
                lemma_slide_props(b, o, t, Direction::NorthWest, c);
            }
            if slide_dest_dir(b, o, t, Direction::SouthEast, c) {
                lemma_slide_props(b, o, t, Direction::SouthEast, c);
            }
            if slide_dest_dir(b, o, t, Direction::SouthWest, c) {
                lemma_slide_props(b, o, t, Direction::SouthWest, c);
            }
        }
        PieceKind::Pawn | PieceKind::Knight | PieceKind::King => {
        }
    }
}

/// A slide destination depends only on occupancy, never on highlight flags:
/// it carries over to any board with the same occupancy everywhere.
proof fn lemma_slide_same_occupancy(a: Board, b: Board, o: Coord, t: Team, d: Direction, c: Coord)
    requires
        a.wf(),
        b.wf(),
        forall|x: int, y: int|
            on_board_xy(x, y) ==> (#[trigger] a.at_xy(x, y)).occupancy == b.at_xy(x, y).occupancy,
        slide_dest_dir(a, o, t, d, c),
    ensures
        slide_dest_dir(b, o, t, d, c),
{
    let k = choose|k: int|
        1 <= k <= 7 && #[trigger] ray_hit(o, d, k, c) && c.spec_on_board()
            && path_clear(a, o, d, k) && landable(a.spec_at(c).occupancy, t);
    assert forall|j: int| 1 <= j < k
        implies on_board_xy(#[trigger] ray_col(o, d, j), ray_row(o, d, j))
            && square_empty(b.at_xy(ray_col(o, d, j), ray_row(o, d, j)).occupancy) by {
        assert(on_board_xy(ray_col(o, d, j), ray_row(o, d, j)));
        assert(a.at_xy(ray_col(o, d, j), ray_row(o, d, j)).occupancy
            == b.at_xy(ray_col(o, d, j), ray_row(o, d, j)).occupancy);
    }
    assert(path_clear(b, o, d, k));
    assert(landable(b.spec_at(c).occupancy, t));
    assert(1 <= k <= 7 && ray_hit(o, d, k, c) && c.spec_on_board() && path_clear(b, o, d, k)
        && landable(b.spec_at(c).occupancy, t));
}

/// Pseudo-legal destinations depend only on occupancy, never on highlight
/// flags: two boards that agree on every square's occupancy generate the
/// same destinations.
pub proof fn lemma_dest_same_occupancy(
    a: Board,
    b: Board,
    o: Coord,
    kind: PieceKind,
    t: Team,
    c: Coord,
)
    requires
        a.wf(),
        b.wf(),
        o.spec_on_board(),
        forall|x: int, y: int|
            on_board_xy(x, y) ==> (#[trigger] a.at_xy(x, y)).occupancy == b.at_xy(x, y).occupancy,
    ensures
        piece_dest(a, o, kind, t, c) == piece_dest(b, o, kind, t, c),
{
    match kind {
        PieceKind::Rook | PieceKind::Bishop | PieceKind::Queen => {
            if slide_dest_dir(a, o, t, Direction::North, c) {
                lemma_slide_same_occupancy(a, b, o, t, Direction::North, c);
            }
            if slide_dest_dir(a, o, t, Direction::South, c) {
                lemma_slide_same_occupancy(a, b, o, t, Direction::South, c);
            }
            if slide_dest_dir(a, o, t, Direction::East, c) {
                lemma_slide_same_occupancy(a, b, o, t, Direction::East, c);
            }
            if slide_dest_dir(a, o, t, Direction::West, c) {
                lemma_slide_same_occupancy(a, b, o, t, Direction::West, c);
            }
            if slide_dest_dir(a, o, t, Direction::NorthEast, c) {
                lemma_slide_same_occupancy(a, b, o, t, Direction::NorthEast, c);
            }
            if slide_dest_dir(a, o, t, Direction::NorthWest, c) {
                lemma_slide_same_occupancy(a, b, o, t, Direction::NorthWest, c);
            }
            if slide_dest_dir(a, o, t, Direction::SouthEast, c) {
                lemma_slide_same_occupancy(a, b, o, t, Direction::SouthEast, c);
            }
            if slide_dest_dir(a, o, t, Direction::SouthWest, c) {
                lemma_slide_same_occupancy(a, b, o, t, Direction::SouthWest, c);
            }
            if slide_dest_dir(b, o, t, Direction::North, c) {
                lemma_slide_same_occupancy(b, a, o, t, Direction::North, c);
            }
            if slide_dest_dir(b, o, t, Direction::South, c) {
                lemma_slide_same_occupancy(b, a, o, t, Direction::South, c);
            }
            if slide_dest_dir(b, o, t, Direction::East, c) {
                lemma_slide_same_occupancy(b, a, o, t, Direction::East, c);
            }
            if slide_dest_dir(b, o, t, Direction::West, c) {
                lemma_slide_same_occupancy(b, a, o, t, Direction::West, c);
            }
            if slide_dest_dir(b, o, t, Direction::NorthEast, c) {
                lemma_slide_same_occupancy(b, a, o, t, Direction::NorthEast, c);
            }
            if slide_dest_dir(b, o, t, Direction::NorthWest, c) {
                lemma_slide_same_occupancy(b, a, o, t, Direction::NorthWest, c);
            }
            if slide_dest_dir(b, o, t, Direction::SouthEast, c) {
                lemma_slide_same_occupancy(b, a, o, t, Direction::SouthEast, c);
            }
            if slide_dest_dir(b, o, t, Direction::SouthWest, c) {
                lemma_slide_same_occupancy(b, a, o, t, Direction::SouthWest, c);
            }
        }
        PieceKind::Pawn | PieceKind::Knight | PieceKind::King => {
        }
    }
}

/// The executable column and row steps of one move along `d`.
fn direction_delta(d: Direction) -> (r: (i8, i8))
    ensures
        r.0 as int == delta_col(d),
        r.1 as int == delta_row(d),
{
    match d {
        Direction::North => (0, 1),
        Direction::South => (0, -1),
        Direction::East => (1, 0),
        Direction::West => (-1, 0),
        Direction::NorthEast => (1, 1),
        Direction::NorthWest => (-1, 1),
        Direction::SouthEast => (1, -1),
        Direction::SouthWest => (-1, -1),
    }
}

/// Appends the destinations of a slide from `o` along `d` for team `t`:
/// walks the ray one square at a time, adding empty squares, adding an
/// opposing piece's square as a capture and stopping, and stopping without
/// adding at a same-team piece or the board edge.
fn ray_destinations(b: &Board, o: Coord, t: Team, d: Direction, out: &mut Vec<Coord>)
    requires
        b.wf(),
        o.spec_on_board(),
        forall|i: int| 0 <= i < old(out)@.len() ==> (#[trigger] old(out)@[i]).spec_on_board(),
    ensures
        forall|c: Coord|
            #[trigger] final(out)@.contains(c) <==> old(out)@.contains(c)
                || slide_dest_dir(*b, o, t, d, c),
        forall|i: int| 0 <= i < final(out)@.len() ==> (#[trigger] final(out)@[i]).spec_on_board(),
{
    let (dc, dr) = direction_delta(d);
    let mut x: i16 = o.col as i16;
    let mut y: i16 = o.row as i16;
    let mut k: u8 = 0;
    let mut done: bool = false;
    while k < 7 && !done
        invariant
            b.wf(),
            o.spec_on_board(),
            dc as int == delta_col(d),
            dr as int == delta_row(d),
            0 <= k <= 7,
            x as int == ray_col(o, d, k as int),
            y as int == ray_row(o, d, k as int),
            !done ==> path_clear(*b, o, d, k as int + 1),
            !done ==> on_board_xy(x as int, y as int),
            !done ==> (forall|c: Coord|
                #[trigger] out@.contains(c) <==> old(out)@.contains(c)
                    || (slide_dest_dir(*b, o, t, d, c)
                        && (exists|j: int| 1 <= j <= k as int && #[trigger] ray_hit(o, d, j, c)))),
            done ==> (forall|c: Coord|
                #[trigger] out@.contains(c) <==> old(out)@.contains(c)
                    || slide_dest_dir(*b, o, t, d, c)),
            forall|i: int| 0 <= i < out@.len() ==> (#[trigger] out@[i]).spec_on_board(),
        decreases 7 - k as int,
    {
        let ghost k0 = k as int;
        let ghost pre = out@;
        x = x + dc as i16;
        y = y + dr as i16;
        k = k + 1;
        proof {
            assert((k0 + 1) * delta_col(d) == k0 * delta_col(d) + delta_col(d)) by (nonlinear_arith);
            assert((k0 + 1) * delta_row(d) == k0 * delta_row(d) + delta_row(d)) by (nonlinear_arith);
            assert(x as int == ray_col(o, d, k as int));
            assert(y as int == ray_row(o, d, k as int));
        }
        if x < 0 || x >= 8 || y < 0 || y >= 8 {
            done = true;
            proof {
                assert(!on_board_xy(ray_col(o, d, k as int), ray_row(o, d, k as int)));
                assert forall|c: Coord|
                    #[trigger] out@.contains(c) <==> old(out)@.contains(c)
                        || slide_dest_dir(*b, o, t, d, c) by {
                    if slide_dest_dir(*b, o, t, d, c) {
                        let kk = choose|kk: int|
                            1 <= kk <= 7 && #[trigger] ray_hit(o, d, kk, c) && c.spec_on_board()
                                && path_clear(*b, o, d, kk)
                                && landable(b.spec_at(c).occupancy, t);
                        if kk >= k as int {
                            lemma_ray_off_board(o, d, k as int, kk);
                            assert(false);
                        }
                        assert(1 <= kk <= k0 && ray_hit(o, d, kk, c));
                    }
                }
            }
        } else {
            let c = Coord { col: x as u8, row: y as u8 };
            proof {
                assert(ray_hit(o, d, k as int, c));
                assert(c.spec_on_board());
            }
            let sq = b.at(c);
            match sq.occupancy {
                Occupancy::Empty => {
                    out.push(c);
                    proof {
                        assert(path_clear(*b, o, d, k as int));
                        assert(landable(b.spec_at(c).occupancy, t));
                        assert(slide_dest_dir(*b, o, t, d, c));
                        assert forall|j: int| 1 <= j < k as int + 1
                            implies on_board_xy(#[trigger] ray_col(o, d, j), ray_row(o, d, j))
                                && square_empty(b.at_xy(ray_col(o, d, j), ray_row(o, d, j)).occupancy) by {
                            if j == k as int {
                                assert(ray_col(o, d, j) == x as int && ray_row(o, d, j) == y as int);
                            }
                        }
                        assert(path_clear(*b, o, d, k as int + 1));
                        assert forall|c2: Coord|
                            #[trigger] out@.contains(c2) <==> old(out)@.contains(c2)
                                || (slide_dest_dir(*b, o, t, d, c2)
                                    && (exists|j: int| 1 <= j <= k as int && #[trigger] ray_hit(o, d, j, c2))) by {
                            lemma_push_contains(pre, c, c2);
                            if out@.contains(c2) {
                                if pre.contains(c2) && !old(out)@.contains(c2) {
                                    let jj = choose|jj: int|
                                        1 <= jj <= k0 && #[trigger] ray_hit(o, d, jj, c2);
                                    assert(1 <= jj <= k as int && ray_hit(o, d, jj, c2));
                                }
                            }
                            if slide_dest_dir(*b, o, t, d, c2)
                                && (exists|j: int| 1 <= j <= k as int && #[trigger] ray_hit(o, d, j, c2)) {
                                let jj = choose|jj: int|
                                    1 <= jj <= k as int && #[trigger] ray_hit(o, d, jj, c2);
                                if jj <= k0 {
                                    assert(pre.contains(c2));
                                } else {
                                    assert(ray_hit(o, d, k as int, c2));
                                    assert(c2.col == c.col && c2.row == c.row);
                                    assert(c2 == c);
                                }
                            }
                        }
                    }
                }
                Occupancy::Occupied { team: other, .. } => {
                    let capture = !(other == t);
                    if capture {
                        out.push(c);
                    }
                    done = true;
                    proof {
                        assert(b.spec_at(c).occupancy == sq.occupancy);
                        assert(ray_col(o, d, k as int) == c.col as int);
                        assert(ray_row(o, d, k as int) == c.row as int);
                        assert(!square_empty(b.at_xy(ray_col(o, d, k as int), ray_row(o, d, k as int)).occupancy));
                        assert forall|c2: Coord|
                            #[trigger] out@.contains(c2) <==> old(out)@.contains(c2)
                                || slide_dest_dir(*b, o, t, d, c2) by {
                            if capture {
                                lemma_push_contains(pre, c, c2);
                                assert(path_clear(*b, o, d, k as int));
                                assert(landable(b.spec_at(c).occupancy, t));
                                assert(slide_dest_dir(*b, o, t, d, c));
                            }
                            if slide_dest_dir(*b, o, t, d, c2) {
                                let kk = choose|kk: int|
                                    1 <= kk <= 7 && #[trigger] ray_hit(o, d, kk, c2) && c2.spec_on_board()
                                        && path_clear(*b, o, d, kk)
                                        && landable(b.spec_at(c2).occupancy, t);
                                if kk > k as int {
                                    assert(1 <= k as int && (k as int) < kk);
                                    assert(square_empty(b.at_xy(ray_col(o, d, k as int), ray_row(o, d, k as int)).occupancy));
                                    assert(false);
                                } else if kk == k as int {
                                    lemma_ray_hit_unique(o, d, kk, k as int, c2);
                                    assert(c2.col == c.col && c2.row == c.row);
                                    assert(c2 == c);
                                    if !capture {
                                        assert(occupied_by(b.spec_at(c).occupancy, t));
                                        assert(!landable(b.spec_at(c2).occupancy, t));
                                        assert(false);
                                    }
                                } else {
                                    assert(1 <= kk <= k0 && ray_hit(o, d, kk, c2));
                                }
                            }
                        }
                    }
                }
            }
        }
    }
    proof {
        if !done {
            assert(k == 7);
            assert forall|c: Coord|
                #[trigger] out@.contains(c) <==> old(out)@.contains(c)
                    || slide_dest_dir(*b, o, t, d, c) by {
                if slide_dest_dir(*b, o, t, d, c) {
                    let kk = choose|kk: int|
                        1 <= kk <= 7 && #[trigger] ray_hit(o, d, kk, c) && c.spec_on_board()
                            && path_clear(*b, o, d, kk)
                            && landable(b.spec_at(c).occupancy, t);
                    assert(1 <= kk <= 7 && ray_hit(o, d, kk, c));
                }
            }
        }
    }
}

/// Appends the knight's destinations from `o` for team `t`.
fn knight_destinations(b: &Board, o: Coord, t: Team, out: &mut Vec<Coord>)
    requires
        b.wf(),
        o.spec_on_board(),
        forall|i: int| 0 <= i < old(out)@.len() ==> (#[trigger] old(out)@[i]).spec_on_board(),
    ensures
        forall|c: Coord|
            #[trigger] final(out)@.contains(c) <==> old(out)@.contains(c)
                || knight_dest(*b, o, t, c),
        final(out)@.len() <= old(out)@.len() + 8,
        forall|i: int| 0 <= i < final(out)@.len() ==> (#[trigger] final(out)@[i]).spec_on_board(),
{
    push_offset_dest(b, o, t, 1, 2, out);
    push_offset_dest(b, o, t, 2, 1, out);
    push_offset_dest(b, o, t, 2, -1, out);
    push_offset_dest(b, o, t, 1, -2, out);
    push_offset_dest(b, o, t, -1, -2, out);
    push_offset_dest(b, o, t, -2, -1, out);
    push_offset_dest(b, o, t, -2, 1, out);
    push_offset_dest(b, o, t, -1, 2, out);
}

/// Appends the king's destinations from `o` for team `t`.
fn king_destinations(b: &Board, o: Coord, t: Team, out: &mut Vec<Coord>)
    requires
        b.wf(),
        o.spec_on_board(),
        forall|i: int| 0 <= i < old(out)@.len() ==> (#[trigger] old(out)@[i]).spec_on_board(),
    ensures
        forall|c: Coord|
            #[trigger] final(out)@.contains(c) <==> old(out)@.contains(c)
                || king_dest(*b, o, t, c),
        final(out)@.len() <= old(out)@.len() + 8,
        forall|i: int| 0 <= i < final(out)@.len() ==> (#[trigger] final(out)@[i]).spec_on_board(),
{
    push_offset_dest(b, o, t, 0, 1, out);
    push_offset_dest(b, o, t, 1, 1, out);
    push_offset_dest(b, o, t, 1, 0, out);
    push_offset_dest(b, o, t, 1, -1, out);
    push_offset_dest(b, o, t, 0, -1, out);
    push_offset_dest(b, o, t, -1, -1, out);
    push_offset_dest(b, o, t, -1, 0, out);
    push_offset_dest(b, o, t, -1, 1, out);
}

/// Appends the pawn's destinations from `o` for team `t`: the forward move
/// if the square ahead is empty, and each diagonal capture whose square
/// holds an opposing piece.
fn pawn_destinations(b: &Board, o: Coord, t: Team, out: &mut Vec<Coord>)
    requires
        b.wf(),
        o.spec_on_board(),
        forall|i: int| 0 <= i < old(out)@.len() ==> (#[trigger] old(out)@[i]).spec_on_board(),
    ensures
        forall|c: Coord|
            #[trigger] final(out)@.contains(c) <==> old(out)@.contains(c)
                || pawn_dest(*b, o, t, c),
        forall|i: int| 0 <= i < final(out)@.len() ==> (#[trigger] final(out)@[i]).spec_on_board(),
{
    let dir: i16 = match t {
        Team::White => 1,
        Team::Black => -1,
    };
    proof {
        assert(dir as int == pawn_dir(t));
    }
    let fy: i16 = o.row as i16 + dir;
    let ghost g0 = out@;
    // Forward move: only onto an empty square.
    if 0 <= fy && fy < 8 {
        let c = Coord { col: o.col, row: fy as u8 };
        let sq = b.at(c);
        let is_empty = match sq.occupancy {
            Occupancy::Empty => true,
            Occupancy::Occupied { .. } => false,
        };
        if is_empty {
            out.push(c);
            proof {
                assert(pawn_forward_dest(*b, o, t, c));
                assert forall|c2: Coord|
                    #[trigger] out@.contains(c2) <==> g0.contains(c2)
                        || pawn_forward_dest(*b, o, t, c2) by {
                    lemma_push_contains(g0, c, c2);
                    if pawn_forward_dest(*b, o, t, c2) {
                        assert(c2.col == c.col && c2.row == c.row);
                        assert(c2 == c);
                    }
                }
            }
        } else {
            proof {
                assert(!square_empty(b.at_xy(o.col as int, o.row + pawn_dir(t)).occupancy));
            }
        }
    }
    let ghost g1 = out@;
    proof {
        assert(forall|c2: Coord|
            #[trigger] g1.contains(c2) <==> g0.contains(c2) || pawn_forward_dest(*b, o, t, c2));
    }
    // Diagonal captures: only onto an opposing piece.
    let mut side: usize = 0;
    while side < 2
        invariant
            b.wf(),
            o.spec_on_board(),
            side <= 2,
            dir as int == pawn_dir(t),
            fy as int == o.row + pawn_dir(t),
            side == 0 ==> out@ == g1,
            side == 1 ==> (forall|c2: Coord|
                #[trigger] out@.contains(c2) <==> g1.contains(c2)
                    || pawn_capture_dest(*b, o, t, -1, c2)),
            side >= 2 ==> (forall|c2: Coord|
                #[trigger] out@.contains(c2) <==> g1.contains(c2)
                    || pawn_capture_dest(*b, o, t, -1, c2)
                    || pawn_capture_dest(*b, o, t, 1, c2)),
            forall|i: int| 0 <= i < out@.len() ==> (#[trigger] out@[i]).spec_on_board(),
        decreases 2 - side,
    {
        let dx: i16 = if side == 0 {
            -1
        } else {
            1
        };
        let ghost gpre = out@;
        let cx: i16 = o.col as i16 + dx;
        if 0 <= cx && cx < 8 && 0 <= fy && fy < 8 {
            let c = Coord { col: cx as u8, row: fy as u8 };
            let sq = b.at(c);
            let capture = match sq.occupancy {
                Occupancy::Empty => false,
                Occupancy::Occupied { team, .. } => !(team == t),
            };
            if capture {
                out.push(c);
                proof {
                    assert(pawn_capture_dest(*b, o, t, dx as int, c));
                    assert forall|c2: Coord|
                        #[trigger] out@.contains(c2) <==> gpre.contains(c2)
                            || pawn_capture_dest(*b, o, t, dx as int, c2) by {
                        lemma_push_contains(gpre, c, c2);
                        if pawn_capture_dest(*b, o, t, dx as int, c2) {
                            assert(c2.col == c.col && c2.row == c.row);
                            assert(c2 == c);
                        }
                    }
                }
            } else {
                proof {
                    assert(!occupied_by_opponent(
                        b.at_xy(o.col + dx as int, o.row + pawn_dir(t)).occupancy, t));
                }
            }
        } else {
            proof {
                assert(!on_board_xy(o.col + dx as int, o.row + pawn_dir(t)));
            }
        }
        side = side + 1;
    }
}

/// The destinations of a piece of the given kind and team standing at
/// `origin`: the vector's membership is exactly `piece_dest`. The order is
/// the fixed scan order of the policy (ray by ray, offset by offset), so it
/// is deterministic for a given board.
pub fn destinations(b: &Board, origin: Coord, kind: PieceKind, team: Team) -> (r: Vec<Coord>)
    requires
        b.wf(),
        origin.spec_on_board(),
    ensures
        forall|c: Coord| #[trigger] r@.contains(c) <==> piece_dest(*b, origin, kind, team, c),
        forall|i: int| 0 <= i < r@.len() ==> (#[trigger] r@[i]).spec_on_board(),
        kind is Knight ==> r@.len() <= 8,
        kind is King ==> r@.len() <= 8,
{
    let mut out: Vec<Coord> = Vec::new();
    match kind {
        PieceKind::Pawn => {
            pawn_destinations(b, origin, team, &mut out);
        }
        PieceKind::Rook => {
            ray_destinations(b, origin, team, Direction::North, &mut out);
            ray_destinations(b, origin, team, Direction::South, &mut out);
            ray_destinations(b, origin, team, Direction::East, &mut out);
            ray_destinations(b, origin, team, Direction::West, &mut out);
        }
        PieceKind::Knight => {
            knight_destinations(b, origin, team, &mut out);
        }
        PieceKind::Bishop => {
            ray_destinations(b, origin, team, Direction::NorthEast, &mut out);
            ray_destinations(b, origin, team, Direction::NorthWest, &mut out);
            ray_destinations(b, origin, team, Direction::SouthEast, &mut out);
            ray_destinations(b, origin, team, Direction::SouthWest, &mut out);
        }
        PieceKind::Queen => {
            ray_destinations(b, origin, team, Direction::North, &mut out);
            ray_destinations(b, origin, team, Direction::South, &mut out);
            ray_destinations(b, origin, team, Direction::East, &mut out);
            ray_destinations(b, origin, team, Direction::West, &mut out);
            ray_destinations(b, origin, team, Direction::NorthEast, &mut out);
            ray_destinations(b, origin, team, Direction::NorthWest, &mut out);
            ray_destinations(b, origin, team, Direction::SouthEast, &mut out);
            ray_destinations(b, origin, team, Direction::SouthWest, &mut out);
        }
        PieceKind::King => {
            king_destinations(b, origin, team, &mut out);
        }
    }
    out
}

} // verus!
