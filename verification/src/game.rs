//! The per-gesture selection state machine: selecting a piece computes and
//! highlights its destinations, choosing a highlighted destination commits
//! the move, and deselecting clears the highlights without mutating
//! occupancy.

use vstd::prelude::*;

use crate::board::{
    Board, ChessError, Coord, MoveRecord, Occupancy, PieceKind, SquareState, Team, captured_of,
    occ_id, on_board_xy, start_occupancy,
};
use crate::moves::{destinations, lemma_dest_same_occupancy, lemma_piece_dest_props, piece_dest};

verus! {

/// The active selection: the selected piece's square, kind and team. It
/// lives for one select-to-(move-or-cancel) gesture.
#[derive(Clone, Copy, PartialEq, Eq, Structural, Debug)]
pub struct SelectionContext {
    pub origin: Coord,
    pub kind: PieceKind,
    pub team: Team,
}

/// Whether the occupancy holds a piece of exactly this kind and team.
pub open spec fn holds_piece(occ: Occupancy, kind: PieceKind, team: Team) -> bool {
    match occ {
        Occupancy::Occupied { kind: k, team: t, .. } => k == kind && t == team,
        Occupancy::Empty => false,
    }
}

/// What a piece-selected event produced: the markers to hide (the previous
/// selection's highlights) and the markers to show (the new destinations).
#[derive(Debug)]
pub struct SelectionUpdate {
    pub hidden: Vec<Coord>,
    pub shown: Vec<Coord>,
}

/// What a successful destination choice produced: the commit record, the
/// destination the moved piece's visual entity relocates to, and the
/// markers to hide.
#[derive(Debug)]
pub struct MoveOutcome {
    pub record: MoveRecord,
    pub destination: Coord,
    pub hidden: Vec<Coord>,
}

/// The engine: the board plus the at-most-one active selection.
#[derive(Debug)]
pub struct Game {
    board: Board,
    selection: Option<SelectionContext>,
}

impl Game {
    /// The current board.
    pub closed spec fn spec_board(self) -> Board {
        self.board
    }

    /// The current selection, if one is active.
    pub closed spec fn spec_selection(self) -> Option<SelectionContext> {
        self.selection
    }

    /// Whether the highlight flags of `b` mark exactly the destinations of
    /// the selection `sel`.
    pub open spec fn selection_marks(b: Board, sel: SelectionContext) -> bool {
        forall|x: int, y: int|
            on_board_xy(x, y) ==> ((#[trigger] b.at_xy(x, y)).highlighted
                <==> piece_dest(b, sel.origin, sel.kind, sel.team,
                        Coord { col: x as u8, row: y as u8 }))
    }

    /// The state-machine invariant: the board is well formed; with no
    /// selection no square is highlighted; with an active selection the
    /// selected square holds the selected piece and the highlight flags
    /// mark exactly its destinations.
    pub open spec fn inv(self) -> bool {
        &&& self.spec_board().wf()
        &&& match self.spec_selection() {
            Option::None => self.spec_board().no_highlights(),
            Option::Some(sel) => {
                &&& sel.origin.spec_on_board()
                &&& holds_piece(self.spec_board().spec_at(sel.origin).occupancy, sel.kind, sel.team)
                &&& Self::selection_marks(self.spec_board(), sel)
            }
        }
    }

    /// A fresh game: the starting board, no selection, no highlights.
    pub fn new() -> (g: Game)
        ensures
            g.inv(),
            g.spec_selection() is None,
            forall|x: int, y: int|
                on_board_xy(x, y) ==> #[trigger] g.spec_board().at_xy(x, y)
                    == (SquareState { occupancy: start_occupancy(x, y), highlighted: false }),
    {
        let board = Board::starting();
        Game { board, selection: None }
    }

    /// Reads the square at `c`; fails on an out-of-range coordinate.
    pub fn square(&self, c: Coord) -> (r: Result<SquareState, ChessError>)
        requires
            self.inv(),
        ensures
            c.spec_on_board() ==> r == Ok::<SquareState, ChessError>(self.spec_board().spec_at(c)),
            !c.spec_on_board() ==> r == Err::<SquareState, ChessError>(ChessError::OutOfBounds),
    {
        self.board.get(c)
    }

    /// Whether a selection is currently active.
    pub fn has_selection(&self) -> (r: bool)
        ensures
            r == (self.spec_selection() is Some),
    {
        self.selection.is_some()
    }

    /// Handles a piece-selected event at coordinate `c`. An off-board
    /// coordinate is rejected with `OutOfBounds` and nothing changes.
    /// Otherwise any previous selection's highlights are cleared first
    /// (their coordinates are returned in `hidden`); then, if `c` holds a
    /// piece, it becomes the active selection and its destinations are
    /// highlighted and returned in `shown`; if `c` is empty the gesture
    /// ends deselected with nothing shown.
    pub fn on_piece_selected(&mut self, c: Coord) -> (r: Result<SelectionUpdate, ChessError>)
        requires
            old(self).inv(),
        ensures
            final(self).inv(),
            !c.spec_on_board() ==> r is Err
                && r->Err_0 == ChessError::OutOfBounds
                && *final(self) == *old(self),
            c.spec_on_board() ==> {
                &&& r is Ok
                &&& forall|x: int, y: int|
                    on_board_xy(x, y) ==> (#[trigger] final(self).spec_board().at_xy(x, y)).occupancy
                        == old(self).spec_board().at_xy(x, y).occupancy
                &&& (forall|cc: Coord|
                    #[trigger] r->Ok_0.hidden@.contains(cc)
                        <==> cc.spec_on_board() && old(self).spec_board().spec_at(cc).highlighted)
                &&& (match old(self).spec_board().spec_at(c).occupancy {
                    Occupancy::Empty => {
                        &&& final(self).spec_selection() is None
                        &&& final(self).spec_board().no_highlights()
                        &&& r->Ok_0.shown@.len() == 0
                    }
                    Occupancy::Occupied { kind, team, .. } => {
                        &&& final(self).spec_selection()
                            == Some(SelectionContext { origin: c, kind, team })
                        &&& (forall|cc: Coord|
                            #[trigger] r->Ok_0.shown@.contains(cc) <==> piece_dest(
                                old(self).spec_board(), c, kind, team, cc))
                    }
                })
            },
    {
        if !c.is_on_board() {
            return Err(ChessError::OutOfBounds);
        }
        let ghost orig = *self;
        let hidden = self.board.clear_all();
        self.selection = None;
        let sq = self.board.at(c);
        match sq.occupancy {
            Occupancy::Empty => {
                Ok(SelectionUpdate { hidden, shown: Vec::new() })
            }
            Occupancy::Occupied { kind, team, .. } => {
                let ghost cleared = self.board;
                let shown = destinations(&self.board, c, kind, team);
                proof {
                    assert forall|cc: Coord|
                        #[trigger] shown@.contains(cc) <==> piece_dest(
                            orig.spec_board(), c, kind, team, cc) by {
                        lemma_dest_same_occupancy(
                            cleared, orig.spec_board(), c, kind, team, cc);
                    }
                }
                self.board.apply(&shown);
                self.selection = Some(SelectionContext { origin: c, kind, team });
                proof {
                    let sel = SelectionContext { origin: c, kind, team };
                    assert forall|x: int, y: int| on_board_xy(x, y)
                        implies ((#[trigger] self.board.at_xy(x, y)).highlighted
                            <==> piece_dest(self.board, sel.origin, sel.kind, sel.team,
                                    Coord { col: x as u8, row: y as u8 })) by {
                        let cc = Coord { col: x as u8, row: y as u8 };
                        lemma_dest_same_occupancy(cleared, self.board, c, kind, team, cc);
                    }
                    assert(Self::selection_marks(self.board, sel));
                }
                Ok(SelectionUpdate { hidden, shown })
            }
        }
    }

    /// Handles a deselection event: clears the selection and every
    /// highlight, returning the coordinates whose markers are to be hidden.
    /// Occupancy never changes. With no active selection this is a no-op
    /// that returns nothing.
    pub fn on_deselected(&mut self) -> (hidden: Vec<Coord>)
        requires
            old(self).inv(),
        ensures
            final(self).inv(),
            final(self).spec_selection() is None,
            forall|x: int, y: int|
                on_board_xy(x, y) ==> #[trigger] final(self).spec_board().at_xy(x, y)
                    == (SquareState {
                        occupancy: old(self).spec_board().at_xy(x, y).occupancy,
                        highlighted: false,
                    }),
            forall|cc: Coord|
                #[trigger] hidden@.contains(cc)
                    <==> cc.spec_on_board() && old(self).spec_board().spec_at(cc).highlighted,
            old(self).spec_selection() is None ==> *final(self) == *old(self)
                && hidden@.len() == 0,
    {
        let hidden = self.board.clear_all();
        self.selection = None;
        hidden
    }

    /// Handles a destination-chosen event at coordinate `c`. With no active
    /// selection the event is benign: `NoActiveSelection` and nothing
    /// changes. With a selection, the move commits exactly when `c` is one
    /// of the selection's destinations; otherwise `IllegalDestination` and
    /// nothing changes. On success the piece leaves its origin, occupies
    /// `c` (capturing any occupant, whose identifier is reported), every
    /// highlight is cleared, and the selection ends.
    pub fn on_destination_chosen(&mut self, c: Coord) -> (r: Result<MoveOutcome, ChessError>)
        requires
            old(self).inv(),
        ensures
            final(self).inv(),
            old(self).spec_selection() is None ==> r is Err
                && r->Err_0 == ChessError::NoActiveSelection
                && *final(self) == *old(self),
            forall|sel: SelectionContext|
                old(self).spec_selection() == Some(sel) ==> {
                    &&& !piece_dest(old(self).spec_board(), sel.origin, sel.kind, sel.team, c)
                        ==> r is Err
                            && r->Err_0 == ChessError::IllegalDestination
                            && *final(self) == *old(self)
                    &&& #[trigger] piece_dest(old(self).spec_board(), sel.origin, sel.kind,
                            sel.team, c) ==> {
                        &&& r is Ok
                        &&& r->Ok_0.record == (MoveRecord {
                            piece_id: occ_id(old(self).spec_board().spec_at(sel.origin).occupancy),
                            captured_id: captured_of(old(self).spec_board().spec_at(c).occupancy),
                        })
                        &&& r->Ok_0.destination == c
                        &&& (forall|cc: Coord|
                            #[trigger] r->Ok_0.hidden@.contains(cc) <==> cc.spec_on_board()
                                && old(self).spec_board().spec_at(cc).highlighted)
                        &&& final(self).spec_selection() is None
                        &&& (forall|x: int, y: int|
                            on_board_xy(x, y) ==> #[trigger] final(self).spec_board().at_xy(x, y)
                                == (if x == c.col as int && y == c.row as int {
                                    SquareState {
                                        occupancy: old(self).spec_board().spec_at(sel.origin)
                                            .occupancy,
                                        highlighted: false,
                                    }
                                } else if x == sel.origin.col as int && y == sel.origin.row as int {
                                    SquareState {
                                        occupancy: Occupancy::Empty,
                                        highlighted: false,
                                    }
                                } else {
                                    SquareState {
                                        occupancy: old(self).spec_board().at_xy(x, y).occupancy,
                                        highlighted: false,
                                    }
                                }))
                    }
                },
    {
        let sel = match self.selection {
            Option::None => {
                return Err(ChessError::NoActiveSelection);
            }
            Option::Some(sel) => sel,
        };
        let ghost orig = *self;
        proof {
            if piece_dest(orig.spec_board(), sel.origin, sel.kind, sel.team, c) {
                lemma_piece_dest_props(orig.spec_board(), sel.origin, sel.kind, sel.team, c);
            }
        }
        let res = self.board.commit(sel.origin, c);
        match res {
            Result::Err(_) => {
                proof {
                    // A highlighted on-board square other than the origin is
                    // exactly a destination of the selection.
                    if piece_dest(orig.spec_board(), sel.origin, sel.kind, sel.team, c) {
                        assert(orig.spec_board().spec_at(c).highlighted);
                        assert(false);
                    }
                }
                Err(ChessError::IllegalDestination)
            }
            Result::Ok(record) => {
                proof {
                    assert(orig.spec_board().spec_at(c).highlighted);
                    assert(piece_dest(orig.spec_board(), sel.origin, sel.kind, sel.team, c));
                }
                let mut hidden = self.board.clear_all();
                let ghost mid = hidden@;
                hidden.push(c);
                self.selection = None;
                proof {
                    assert forall|cc: Coord|
                        #[trigger] hidden@.contains(cc) <==> cc.spec_on_board()
                            && orig.spec_board().spec_at(cc).highlighted by {
                        crate::moves::lemma_push_contains(mid, c, cc);
                        if cc == c {
                            assert(orig.spec_board().spec_at(c).highlighted);
                        }
                    }
                }
                Ok(MoveOutcome { record, destination: c, hidden })
            }
        }
    }
}

} // verus!
