use vstd::prelude::*;

verus! {

/// One of the two sides.
#[derive(Clone, Copy, Debug, PartialEq, Eq, Structural)]
pub enum Color {
    White,
    Black,
}

/// The kind of a chess piece.
#[derive(Clone, Copy, Debug, PartialEq, Eq, Structural)]
pub enum PieceKind {
    Pawn,
    Knight,
    Bishop,
    Rook,
    Queen,
    King,
}

/// A piece: its side and its kind.
#[derive(Clone, Copy, Debug, PartialEq, Eq, Structural)]
pub struct Piece {
    pub color: Color,
    pub kind: PieceKind,
}

/// A square of the board: `file` 0..8 stands for a..h, `rank` 0..8 for 1..8.
#[derive(Clone, Copy, Debug, PartialEq, Eq, Structural, Hash)]
pub struct Square {
    pub file: u8,
    pub rank: u8,
}

/// A move, meaningful relative to the position it was generated from.
#[derive(Clone, Copy, Debug, PartialEq, Eq, Structural)]
pub struct Move {
    pub from: Square,
    pub to: Square,
    pub promotion: Option<PieceKind>,
    pub is_castle: bool,
    pub is_en_passant: bool,
}

/// The four independent castling rights.
#[derive(Clone, Copy, Debug, PartialEq, Eq, Structural)]
pub struct CastlingRights {
    pub white_king_side: bool,
    pub white_queen_side: bool,
    pub black_king_side: bool,
    pub black_queen_side: bool,
}

/// Why a game ended in a draw by rule.
#[derive(Clone, Copy, Debug, PartialEq, Eq, Structural)]
pub enum DrawReason {
    FiftyMove,
    Repetition,
    InsufficientMaterial,
}

/// The overall status of a game.
#[derive(Clone, Copy, Debug, PartialEq, Eq, Structural)]
pub enum GameStatus {
    InProgress,
    Checkmate(Color),
    Stalemate,
    DrawByRule(DrawReason),
}

/// The recoverable errors of the engine.
#[derive(Clone, Copy, Debug, PartialEq, Eq, Structural)]
pub enum ChessError {
    InvalidSquare,
    IllegalMove,
    ParseError,
    GameOver,
}

pub open spec fn opponent(c: Color) -> Color {
    match c {
        Color::White => Color::Black,
        Color::Black => Color::White,
    }
}

impl Color {
    /// The other side.
    pub fn opposite(self) -> (r: Color)
        ensures
            r == opponent(self),
    {
        match self {
            Color::White => Color::Black,
            Color::Black => Color::White,
        }
    }
}

impl Square {
    pub open spec fn valid(self) -> bool {
        self.file < 8 && self.rank < 8
    }

    /// The square at `file` (0 = a) and `rank` (0 = first rank).
    pub fn new(file: u8, rank: u8) -> (r: Result<Square, ChessError>)
        ensures
            file < 8 && rank < 8 ==> r == Ok::<Square, ChessError>(Square { file, rank }),
            !(file < 8 && rank < 8) ==> r == Err::<Square, ChessError>(ChessError::InvalidSquare),
    {
        if file < 8 && rank < 8 {
            Ok(Square { file, rank })
        } else {
            Err(ChessError::InvalidSquare)
        }
    }
}

impl CastlingRights {
    pub open spec fn king_side(self, c: Color) -> bool {
        match c {
            Color::White => self.white_king_side,
            Color::Black => self.black_king_side,
        }
    }

    pub open spec fn queen_side(self, c: Color) -> bool {
        match c {
            Color::White => self.white_queen_side,
            Color::Black => self.black_queen_side,
        }
    }
}

} // verus!
