//! A game between two seats: whose turn it is, what a move does, and when the game
//! is over. Reading a human's column and showing the board are left to the caller.

use vstd::prelude::*;
use crate::board::{Board, Piece};
use crate::engine::{Engine, SEARCH_DEPTH};
use crate::grid::{dropped, empty_grid, has_room, placed, settled};
use crate::lines::outcome;
use crate::human::Human;
use crate::search::exhaustive;

verus! {

/// Who holds a seat.
pub enum Player {
    Human(Human),
    Engine(Engine),
}

/// What a move led to.
#[derive(Clone, Copy, PartialEq, Eq, Structural, Debug)]
pub enum Progress {
    /// The piece was dropped and the other side is to move.
    Next,
    /// The column was full: no piece was dropped and the same side is to move.
    Again,
    /// The board is full and nobody has won.
    Draw,
    /// The piece made four in a line for this side.
    Won(Piece),
}

/// A game: the two seats, the board, and the side to move (0 for `O`, who begins,
/// 1 for `X`).
pub struct Game {
    pub x: Player,
    pub o: Player,
    pub board: Board,
    pub turn: usize,
}

/// The side that moves on turn `turn`.
pub open spec fn side(turn: usize) -> Piece {
    if turn == 0 {
        Piece::O
    } else {
        Piece::X
    }
}

/// What an outcome of the board means for the game.
pub open spec fn progress(end: Option<Piece>) -> Progress {
    match end {
        None => Progress::Next,
        Some(Piece::Empty) => Progress::Draw,
        Some(winner) => Progress::Won(winner),
    }
}

impl Game {
    /// Whether the game can go on from here: a turn of 0 or 1, a last move on the
    /// board and a board under gravity.
    pub open spec fn wf(&self) -> bool {
        &&& self.turn < 2
        &&& self.board.last_move < 7
        &&& settled(self.board@)
    }

    /// Whether nobody has won and the board is not full.
    pub open spec fn open(&self) -> bool {
        outcome(self.board@, self.board.last_move as int) is None
    }

    /// Whether a human holds the seat of the side to move.
    pub open spec fn awaits_human(&self) -> bool {
        if self.turn == 0 {
            self.o is Human
        } else {
            self.x is Human
        }
    }

    /// Whether `after` has the seats of `self`.
    pub open spec fn same_seats(&self, after: &Game) -> bool {
        self.x == after.x && self.o == after.o
    }

    /// A new game on an empty board, both seats held by humans, `O` to move.
    pub fn new() -> (game: Game)
        ensures
            game.wf(),
            game.turn == 0,
            game.x is Human,
            game.o is Human,
            game.board@ == empty_grid(),
            game.board.last_move == 0,
            game.board.eval == 0,
    {
        Game { x: Player::Human(Human), o: Player::Human(Human), board: Board::new(), turn: 0 }
    }

    /// Whether the game is one that can go on: what [`Game::wf`] says.
    pub fn is_playable(&self) -> (r: bool)
        ensures
            r == self.wf(),
    {
        self.turn < 2 && self.board.last_move < 7 && self.board.is_settled()
    }

    /// Whether the game is over: somebody has won or the board is full.
    pub fn is_over(&self) -> (r: bool)
        requires
            self.board.last_move < 7,
        ensures
            r == !self.open(),
    {
        self.board.is_terminal().is_some()
    }

    /// The side to move.
    pub fn piece_to_move(&self) -> (piece: Piece)
        ensures
            piece == side(self.turn),
    {
        if self.turn == 0 {
            Piece::O
        } else {
            Piece::X
        }
    }

    /// Whether the seat of the side to move is held by a human.
    pub fn human_to_move(&self) -> (r: bool)
        ensures
            r == self.awaits_human(),
    {
        let seat = if self.turn == 0 { &self.o } else { &self.x };
        match seat {
            Player::Human(_) => true,
            Player::Engine(_) => false,
        }
    }

    /// What the position after a move of the side to move means, with the turn
    /// passed on where the game goes on.
    fn after_move(&mut self) -> (r: Progress)
        requires
            old(self).turn < 2,
            old(self).board.last_move < 7,
        ensures
            r == progress(outcome(old(self).board@, old(self).board.last_move as int)),
            final(self).board == old(self).board,
            old(self).same_seats(final(self)),
            final(self).turn == (if r == Progress::Next {
                (1 - old(self).turn) as usize
            } else {
                old(self).turn
            }),
    {
        match self.board.is_terminal() {
            None => {
                self.turn = 1 - self.turn;
                Progress::Next
            },
            Some(Piece::Empty) => Progress::Draw,
            Some(winner) => Progress::Won(winner),
        }
    }

    /// A move of the side to move into column `column`. A full column refuses the
    /// piece and the game stays as it is; else the piece drops, and the turn passes
    /// on unless the game is over.
    pub fn play(&mut self, column: usize) -> (r: Progress)
        requires
            old(self).wf(),
            column < 7,
        ensures
            final(self).wf(),
            old(self).same_seats(final(self)),
            final(self).board@ == placed(old(self).board@, column as int, side(old(self).turn)),
            final(self).board.eval == old(self).board.eval,
            !has_room(old(self).board@, column as int) ==> r == Progress::Again && final(self).turn
                == old(self).turn && final(self).board.last_move == old(self).board.last_move,
            has_room(old(self).board@, column as int) ==> final(self).board.last_move == column
                && r == progress(outcome(final(self).board@, column as int)) && final(self).turn
                == (if r == Progress::Next {
                (1 - old(self).turn) as usize
            } else {
                old(self).turn
            }),
    {
        let piece = self.piece_to_move();
        if self.board.insert_piece(column, piece).is_err() {
            return Progress::Again;
        }
        self.after_move()
    }

    /// The engine's move for the side to move: the column that its search names
    /// takes the piece, the board keeps the score, and the turn passes on unless
    /// the game is over.
    pub fn play_engine(&mut self) -> (r: Progress)
        requires
            old(self).wf(),
            old(self).open(),
            !old(self).awaits_human(),
        ensures
            final(self).wf(),
            old(self).same_seats(final(self)),
            ({
                let found = exhaustive(
                    old(self).board@,
                    old(self).board.last_move as int,
                    side(old(self).turn),
                    SEARCH_DEPTH as nat,
                );
                &&& found.column < 7
                &&& has_room(old(self).board@, found.column as int)
                &&& final(self).board@ == dropped(
                    old(self).board@,
                    found.column as int,
                    side(old(self).turn),
                )
                &&& final(self).board.last_move == found.column
                &&& final(self).board.eval == found.score
            }),
            r != Progress::Again,
            r == progress(outcome(final(self).board@, final(self).board.last_move as int)),
            final(self).turn == (if r == Progress::Next {
                (1 - old(self).turn) as usize
            } else {
                old(self).turn
            }),
    {
        let piece = self.piece_to_move();
        let seat = if self.turn == 0 { &self.o } else { &self.x };
        if let Player::Engine(engine) = seat {
            engine.make_move(&mut self.board, piece);
        }
        self.after_move()
    }
}

impl Default for Game {
    fn default() -> (game: Game)
        ensures
            game.wf(),
            game.turn == 0,
            game.x is Human,
            game.o is Human,
            game.board@ == empty_grid(),
            game.board.last_move == 0,
            game.board.eval == 0,
    {
        Self::new()
    }
}

} // verus!
