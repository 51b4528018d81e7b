//! The board grid and square-state store: the single source of truth for
//! occupancy and highlight state of the 64 squares.

use vstd::prelude::*;

verus! {

/// One of the two sides of the game.
#[derive(Clone, Copy, PartialEq, Eq, Structural, Debug)]
pub enum Team {
    White,
    Black,
}

impl Team {
    /// The opposing team.
    pub open spec fn spec_opposite(self) -> Team {
        match self {
            Team::White => Team::Black,
            Team::Black => Team::White,
        }
    }

    /// Returns the opposing team.
    pub fn opposite(self) -> (r: Team)
        ensures
            r == self.spec_opposite(),
    {
        match self {
            Team::White => Team::Black,
            Team::Black => Team::White,
        }
    }
}

/// The archetype of a piece; it selects the move-generation policy.
#[derive(Clone, Copy, PartialEq, Eq, Structural, Debug)]
pub enum PieceKind {
    Pawn,
    Rook,
    Knight,
    Bishop,
    Queen,
    King,
}

/// What a square holds: nothing, or a piece of some kind and team together
/// with an opaque identifier that the rendering collaborator uses to address
/// the piece's visual entity.
#[derive(Clone, Copy, PartialEq, Eq, Structural, Debug)]
pub enum Occupancy {
    Empty,
    Occupied { kind: PieceKind, team: Team, id: u64 },
}

/// The full state of one square: its occupancy plus the transient highlight
/// flag that marks it as a currently offered destination.
#[derive(Clone, Copy, PartialEq, Eq, Structural, Debug)]
pub struct SquareState {
    pub occupancy: Occupancy,
    pub highlighted: bool,
}

/// A board coordinate: column and row. Only values with both components
/// below 8 name a square of the board.
#[derive(Clone, Copy, PartialEq, Eq, Structural, Debug)]
pub struct Coord {
    pub col: u8,
    pub row: u8,
}

/// Whether the integer pair (x, y) names a square of the 8x8 board.
pub open spec fn on_board_xy(x: int, y: int) -> bool {
    0 <= x < 8 && 0 <= y < 8
}

impl Coord {
    /// Whether this coordinate names a square of the 8x8 board.
    pub open spec fn spec_on_board(self) -> bool {
        on_board_xy(self.col as int, self.row as int)
    }

    /// Bounds check against the 8x8 grid.
    pub fn is_on_board(self) -> (r: bool)
        ensures
            r == self.spec_on_board(),
    {
        self.col < 8 && self.row < 8
    }
}

/// The errors of the engine. All are local and recoverable; no operation
/// terminates the process on bad input.
#[derive(Clone, Copy, PartialEq, Eq, Structural, Debug)]
pub enum ChessError {
    /// A coordinate outside the 8x8 grid was handed in.
    OutOfBounds,
    /// A commit was attempted against a square that is not currently
    /// highlighted; the board is left unchanged.
    IllegalDestination,
    /// A destination was chosen while no selection is active; the event is
    /// benign and the board is left unchanged.
    NoActiveSelection,
}

/// The piece kind of the back rank at column `x` in the starting
/// arrangement: rook, knight, bishop, queen (column 3), king (column 4),
/// bishop, knight, rook.
pub open spec fn start_back_rank(x: int) -> PieceKind {
    if x == 0 || x == 7 {
        PieceKind::Rook
    } else if x == 1 || x == 6 {
        PieceKind::Knight
    } else if x == 2 || x == 5 {
        PieceKind::Bishop
    } else if x == 3 {
        PieceKind::Queen
    } else {
        PieceKind::King
    }
}

/// The occupancy of square (x, y) in the standard starting arrangement:
/// row 0 the White back rank, row 1 White pawns, row 6 Black pawns, row 7
/// the Black back rank, rows 2 to 5 empty. Piece identifiers are the
/// row-major index of the starting square.
pub open spec fn start_occupancy(x: int, y: int) -> Occupancy {
    let id = (y * 8 + x) as u64;
    if y == 0 {
        Occupancy::Occupied { kind: start_back_rank(x), team: Team::White, id }
    } else if y == 1 {
        Occupancy::Occupied { kind: PieceKind::Pawn, team: Team::White, id }
    } else if y == 6 {
        Occupancy::Occupied { kind: PieceKind::Pawn, team: Team::Black, id }
    } else if y == 7 {
        Occupancy::Occupied { kind: start_back_rank(x), team: Team::Black, id }
    } else {
        Occupancy::Empty
    }
}

/// Builds the starting state of the square at (x, y).
fn start_square(x: u8, y: u8) -> (r: SquareState)
    requires
        x < 8,
        y < 8,
    ensures
        r == (SquareState { occupancy: start_occupancy(x as int, y as int), highlighted: false }),
{
    let id: u64 = (y as u64) * 8 + (x as u64);
    let occupancy: Occupancy = if y == 0 || y == 7 {
        let team = if y == 0 {
            Team::White
        } else {
            Team::Black
        };
        let kind = if x == 0 || x == 7 {
            PieceKind::Rook
        } else if x == 1 || x == 6 {
            PieceKind::Knight
        } else if x == 2 || x == 5 {
            PieceKind::Bishop
        } else if x == 3 {
            PieceKind::Queen
        } else {
            PieceKind::King
        };
        Occupancy::Occupied { kind, team, id }
    } else if y == 1 {
        Occupancy::Occupied { kind: PieceKind::Pawn, team: Team::White, id }
    } else if y == 6 {
        Occupancy::Occupied { kind: PieceKind::Pawn, team: Team::Black, id }
    } else {
        Occupancy::Empty
    };
    SquareState { occupancy, highlighted: false }
}

/// The opaque identifier stored in an occupied square.
pub open spec fn occ_id(occ: Occupancy) -> u64
    recommends
        occ is Occupied,
{
    match occ {
        Occupancy::Occupied { id, .. } => id,
        Occupancy::Empty => 0,
    }
}

/// The identifier captured by moving onto a square of the given occupancy:
/// the occupant's identifier if there is one.
pub open spec fn captured_of(occ: Occupancy) -> Option<u64> {
    match occ {
        Occupancy::Occupied { id, .. } => Some(id),
        Occupancy::Empty => None,
    }
}

/// What a successful commit reports back for the rendering collaborator:
/// which piece moved and which piece, if any, was captured and is to be
/// removed.
#[derive(Clone, Copy, PartialEq, Eq, Debug)]
pub struct MoveRecord {
    /// Identifier of the piece that moved; its visual entity is to be
    /// relocated to the destination.
    pub piece_id: u64,
    /// Identifier of the captured piece, if the destination was occupied.
    pub captured_id: Option<u64>,
}

/// The 8x8 board: a fully populated mapping from coordinate to square state.
#[derive(Debug)]
pub struct Board {
    squares: Vec<SquareState>,
}

impl Board {
    /// Well-formedness: all 64 squares are present.
    pub closed spec fn wf(self) -> bool {
        self.squares@.len() == 64
    }

    /// The state of the square at integer coordinates (x, y).
    pub closed spec fn at_xy(self, x: int, y: int) -> SquareState
        recommends
            self.wf(),
            on_board_xy(x, y),
    {
        self.squares@[y * 8 + x]
    }

    /// The state of the square at coordinate `c`.
    pub open spec fn spec_at(self, c: Coord) -> SquareState
        recommends
            self.wf(),
            c.spec_on_board(),
    {
        self.at_xy(c.col as int, c.row as int)
    }

    /// Whether no square of the board carries the highlight flag.
    pub open spec fn no_highlights(self) -> bool {
        forall|x: int, y: int|
            on_board_xy(x, y) ==> !(#[trigger] self.at_xy(x, y)).highlighted
    }

    /// Creates the board in the standard chess starting arrangement with no
    /// square highlighted.
    pub fn starting() -> (r: Board)
        ensures
            r.wf(),
            forall|x: int, y: int|
                on_board_xy(x, y) ==> #[trigger] r.at_xy(x, y)
                    == (SquareState { occupancy: start_occupancy(x, y), highlighted: false }),
    {
        let mut squares: Vec<SquareState> = Vec::new();
        let mut i: usize = 0;
        while i < 64
            invariant
                i <= 64,
                squares@.len() == i,
                forall|j: int|
                    0 <= j < i ==> #[trigger] squares@[j]
                        == (SquareState { occupancy: start_occupancy(j % 8, j / 8), highlighted: false }),
            decreases 64 - i,
        {
            let x: u8 = (i % 8) as u8;
            let y: u8 = (i / 8) as u8;
            let s = start_square(x, y);
            squares.push(s);
            i += 1;
        }
        let b = Board { squares };
        proof {
            assert forall|x: int, y: int| on_board_xy(x, y)
                implies #[trigger] b.at_xy(x, y)
                    == (SquareState { occupancy: start_occupancy(x, y), highlighted: false }) by {
                let j = y * 8 + x;
                assert(0 <= j < 64);
                assert(j % 8 == x && j / 8 == y);
            }
        }
        b
    }

    /// Reads the square at `c`; fails on an out-of-range coordinate.
    pub fn get(&self, c: Coord) -> (r: Result<SquareState, ChessError>)
        requires
            self.wf(),
        ensures
            c.spec_on_board() ==> r == Ok::<SquareState, ChessError>(self.spec_at(c)),
            !c.spec_on_board() ==> r == Err::<SquareState, ChessError>(ChessError::OutOfBounds),
    {
        if c.is_on_board() {
            let idx: usize = (c.row as usize) * 8 + (c.col as usize);
            Ok(self.squares[idx])
        } else {
            Err(ChessError::OutOfBounds)
        }
    }

    /// Reads the square at an on-board coordinate.
    pub fn at(&self, c: Coord) -> (r: SquareState)
        requires
            self.wf(),
            c.spec_on_board(),
        ensures
            r == self.spec_at(c),
    {
        let idx: usize = (c.row as usize) * 8 + (c.col as usize);
        self.squares[idx]
    }

    /// Writes the square at `c`; fails on an out-of-range coordinate, in
    /// which case the board is unchanged.
    pub fn set(&mut self, c: Coord, s: SquareState) -> (r: Result<(), ChessError>)
        requires
            old(self).wf(),
        ensures
            final(self).wf(),
            c.spec_on_board() ==> r == Ok::<(), ChessError>(())
                && (forall|x: int, y: int|
                    on_board_xy(x, y) ==> #[trigger] final(self).at_xy(x, y)
                        == (if x == c.col as int && y == c.row as int {
                            s
                        } else {
                            old(self).at_xy(x, y)
                        })),
            !c.spec_on_board() ==> r == Err::<(), ChessError>(ChessError::OutOfBounds)
                && *final(self) == *old(self),
    {
        if c.is_on_board() {
            let idx: usize = (c.row as usize) * 8 + (c.col as usize);
            self.squares[idx] = s;
            proof {
                assert forall|x: int, y: int| on_board_xy(x, y)
                    implies #[trigger] self.at_xy(x, y)
                        == (if x == c.col as int && y == c.row as int {
                            s
                        } else {
                            old(self).at_xy(x, y)
                        }) by {
                    if x == c.col as int && y == c.row as int {
                        assert(y * 8 + x == idx as int);
                    } else {
                        assert(y * 8 + x != idx as int);
                    }
                }
            }
            Ok(())
        } else {
            Err(ChessError::OutOfBounds)
        }
    }

    /// Marks every coordinate of `dests` as highlighted. Per the selection
    /// discipline a previous highlight set must have been cleared first.
    /// Occupancy is untouched; afterwards a square is highlighted exactly
    /// when it is in `dests`.
    pub fn apply(&mut self, dests: &Vec<Coord>)
        requires
            old(self).wf(),
            old(self).no_highlights(),
            forall|i: int| 0 <= i < dests@.len() ==> (#[trigger] dests@[i]).spec_on_board(),
        ensures
            final(self).wf(),
            forall|x: int, y: int|
                on_board_xy(x, y) ==> #[trigger] final(self).at_xy(x, y)
                    == (SquareState {
                        occupancy: old(self).at_xy(x, y).occupancy,
                        highlighted: dests@.contains(Coord { col: x as u8, row: y as u8 }),
                    }),
    {
        let ghost orig = *self;
        let mut i: usize = 0;
        while i < dests.len()
            invariant
                self.wf(),
                orig.wf(),
                i <= dests@.len(),
                forall|j: int| 0 <= j < dests@.len() ==> (#[trigger] dests@[j]).spec_on_board(),
                forall|x: int, y: int|
                    on_board_xy(x, y) ==> #[trigger] self.at_xy(x, y)
                        == (SquareState {
                            occupancy: orig.at_xy(x, y).occupancy,
                            highlighted: exists|j: int|
                                0 <= j < i && dests@[j] == (Coord { col: x as u8, row: y as u8 }),
                        }),
            decreases dests@.len() - i,
        {
            let c = dests[i];
            let cur = self.at(c);
            let _ = self.set(c, SquareState { occupancy: cur.occupancy, highlighted: true });
            proof {
                assert forall|x: int, y: int| on_board_xy(x, y)
                    implies #[trigger] self.at_xy(x, y)
                        == (SquareState {
                            occupancy: orig.at_xy(x, y).occupancy,
                            highlighted: exists|j: int|
                                0 <= j < i + 1 && dests@[j] == (Coord { col: x as u8, row: y as u8 }),
                        }) by {
                    let cxy = Coord { col: x as u8, row: y as u8 };
                    if x == c.col as int && y == c.row as int {
                        assert(c == cxy);
                        assert(dests@[i as int] == cxy);
                    } else {
                        assert(forall|j: int|
                            0 <= j < i + 1 && #[trigger] dests@[j] == cxy ==> 0 <= j < i);
                    }
                }
            }
            i += 1;
        }
        proof {
            assert forall|x: int, y: int| on_board_xy(x, y)
                implies #[trigger] self.at_xy(x, y)
                    == (SquareState {
                        occupancy: orig.at_xy(x, y).occupancy,
                        highlighted: dests@.contains(Coord { col: x as u8, row: y as u8 }),
                    }) by {
                let cxy = Coord { col: x as u8, row: y as u8 };
                assert(dests@.contains(cxy) == exists|j: int|
                    0 <= j < dests@.len() && dests@[j] == cxy);
            }
        }
    }

    /// Removes the highlight flag from every square and returns, in board
    /// scan order, the coordinates that were highlighted (the markers to
    /// hide). On a board with no highlights this is a no-op that returns
    /// nothing.
    pub fn clear_all(&mut self) -> (r: Vec<Coord>)
        requires
            old(self).wf(),
        ensures
            final(self).wf(),
            forall|x: int, y: int|
                on_board_xy(x, y) ==> #[trigger] final(self).at_xy(x, y)
                    == (SquareState { occupancy: old(self).at_xy(x, y).occupancy, highlighted: false }),
            forall|c: Coord|
                r@.contains(c) <==> c.spec_on_board() && old(self).spec_at(c).highlighted,
            old(self).no_highlights() ==> *final(self) == *old(self) && r@.len() == 0,
    {
        let ghost orig = *self;
        let mut r: Vec<Coord> = Vec::new();
        let mut i: usize = 0;
        while i < 64
            invariant
                self.wf(),
                orig.wf(),
                i <= 64,
                forall|x: int, y: int|
                    on_board_xy(x, y) ==> #[trigger] self.at_xy(x, y)
                        == (if y * 8 + x < i {
                            SquareState { occupancy: orig.at_xy(x, y).occupancy, highlighted: false }
                        } else {
                            orig.at_xy(x, y)
                        }),
                forall|c: Coord|
                    #[trigger] r@.contains(c) <==> c.spec_on_board()
                        && ((c.row as int) * 8 + c.col as int) < i
                        && orig.spec_at(c).highlighted,
                orig.no_highlights() ==> *self == orig && r@.len() == 0,
            decreases 64 - i,
        {
            let x: u8 = (i % 8) as u8;
            let y: u8 = (i / 8) as u8;
            let c = Coord { col: x, row: y };
            proof {
                assert(y as int * 8 + x as int == i as int);
            }
            let cur = self.at(c);
            if cur.highlighted {
                proof {
                    assert(orig.at_xy(x as int, y as int).highlighted);
                    assert(!orig.no_highlights());
                }
                let _ = self.set(c, SquareState { occupancy: cur.occupancy, highlighted: false });
                let ghost old_r = r@;
                r.push(c);
                proof {
                    assert(r@ == old_r.push(c));
                    assert forall|c2: Coord|
                        #[trigger] r@.contains(c2) <==> c2.spec_on_board()
                            && ((c2.row as int) * 8 + c2.col as int) < i + 1
                            && orig.spec_at(c2).highlighted by {
                        if r@.contains(c2) {
                            let j = choose|j: int| 0 <= j < r@.len() && r@[j] == c2;
                            if j < old_r.len() {
                                assert(old_r[j] == c2);
                                assert(old_r.contains(c2));
                            } else {
                                assert(c2 == c);
                            }
                        }
                        if c2.spec_on_board() && ((c2.row as int) * 8 + c2.col as int) < i + 1
                            && orig.spec_at(c2).highlighted {
                            if ((c2.row as int) * 8 + c2.col as int) < i {
                                assert(old_r.contains(c2));
                                let j = choose|j: int| 0 <= j < old_r.len() && old_r[j] == c2;
                                assert(r@[j] == c2);
                                assert(r@.contains(c2));
                            } else {
                                assert(c2.col as int == x as int && c2.row as int == y as int);
                                assert(c2 == c);
                                assert(r@[old_r.len() as int] == c2);
                                assert(r@.contains(c2));
                            }
                        }
                    }
                }
            } else {
                proof {
                    assert forall|c2: Coord|
                        #[trigger] r@.contains(c2) <==> c2.spec_on_board()
                            && ((c2.row as int) * 8 + c2.col as int) < i + 1
                            && orig.spec_at(c2).highlighted by {
                        if c2.spec_on_board() && (c2.row as int) * 8 + c2.col as int == i {
                            assert(c2 == c);
                            assert(!orig.spec_at(c2).highlighted);
                        }
                    }
                }
            }
            i += 1;
        }
        proof {
            assert forall|c: Coord|
                #[trigger] r@.contains(c) <==> c.spec_on_board() && orig.spec_at(c).highlighted by {
                if c.spec_on_board() {
                    assert(((c.row as int) * 8 + c.col as int) < 64);
                }
            }
        }
        r
    }

    /// Commits a move: requires that the origin holds a piece; succeeds
    /// exactly when the destination is an on-board square other than the
    /// origin that currently carries the highlight flag. On success the
    /// destination takes the origin's occupant (capturing whatever was
    /// there), the origin becomes empty, and the record names the moved and
    /// captured piece identifiers. On failure the board is unchanged.
    pub fn commit(&mut self, origin: Coord, destination: Coord) -> (r: Result<MoveRecord, ChessError>)
        requires
            old(self).wf(),
            origin.spec_on_board(),
            old(self).spec_at(origin).occupancy is Occupied,
        ensures
            final(self).wf(),
            !(destination.spec_on_board() && old(self).spec_at(destination).highlighted
                && destination != origin)
                ==> r == Err::<MoveRecord, ChessError>(ChessError::IllegalDestination)
                    && *final(self) == *old(self),
            (destination.spec_on_board() && old(self).spec_at(destination).highlighted
                && destination != origin)
                ==> r == Ok::<MoveRecord, ChessError>(MoveRecord {
                        piece_id: occ_id(old(self).spec_at(origin).occupancy),
                        captured_id: captured_of(old(self).spec_at(destination).occupancy),
                    })
                    && (forall|x: int, y: int|
                        on_board_xy(x, y) ==> #[trigger] final(self).at_xy(x, y)
                            == (if x == destination.col as int && y == destination.row as int {
                                SquareState {
                                    occupancy: old(self).spec_at(origin).occupancy,
                                    highlighted: false,
                                }
                            } else if x == origin.col as int && y == origin.row as int {
                                SquareState { occupancy: Occupancy::Empty, highlighted: false }
                            } else {
                                old(self).at_xy(x, y)
                            })),
    {
        if !destination.is_on_board() {
            return Err(ChessError::IllegalDestination);
        }
        if destination.col == origin.col && destination.row == origin.row {
            return Err(ChessError::IllegalDestination);
        }
        let dest_state = self.at(destination);
        if !dest_state.highlighted {
            return Err(ChessError::IllegalDestination);
        }
        let origin_state = self.at(origin);
        let piece_id = match origin_state.occupancy {
            Occupancy::Occupied { id, .. } => id,
            Occupancy::Empty => 0,
        };
        let captured_id = match dest_state.occupancy {
            Occupancy::Occupied { id, .. } => Some(id),
            Occupancy::Empty => None,
        };
        let _ = self.set(
            destination,
            SquareState { occupancy: origin_state.occupancy, highlighted: false },
        );
        let _ = self.set(
            origin,
            SquareState { occupancy: Occupancy::Empty, highlighted: false },
        );
        Ok(MoveRecord { piece_id, captured_id })
    }
}

} // verus!
