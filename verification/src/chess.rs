//! The chess piece set: piece kinds, the team a piece belongs to, and the
//! one-character encoding that [`crate::board::Board`] uses for each square.

use vstd::prelude::*;

use crate::board::{Board, ConfigError};

verus! {

/// The identity of a chess piece.
#[derive(Clone, Copy, Debug, PartialEq, Eq, Structural)]
pub enum ChessPieceType {
    King,
    Queen,
    Rook,
    Bishop,
    Knight,
    Pawn,
}

/// The side a piece belongs to, tagged with the piece's kind, or `Empty`
/// for a square that holds no piece at all.
///
/// Keeping the kind inside the team variant makes "a kind without a team"
/// and "a team without a kind" unrepresentable.
#[derive(Clone, Copy, Debug, PartialEq, Eq, Structural)]
pub enum ChessPieceTeam {
    White(ChessPieceType),
    Black(ChessPieceType),
    Empty,
}

/// One square's content: a teamed piece, or nothing.
#[derive(Clone, Copy, Debug, PartialEq, Eq, Structural)]
pub struct ChessPiece(pub ChessPieceTeam);

/// The error a failed [`ChessPiece::decode`] reports: the character that
/// matches no piece and is not the empty-square marker.
#[derive(Clone, Copy, Debug, PartialEq, Eq, Structural)]
pub struct PieceTryFromError(pub char);

/// The piece a character stands for: `.` is the empty square, the letters
/// `k q r b n p` are the black pieces, their uppercase forms the white
/// pieces, and every other character stands for nothing.
pub open spec fn decode_spec(c: char) -> Option<ChessPiece> {
    if c == '.' {
        Some(ChessPiece(ChessPieceTeam::Empty))
    } else if c == 'k' {
        Some(ChessPiece(ChessPieceTeam::Black(ChessPieceType::King)))
    } else if c == 'q' {
        Some(ChessPiece(ChessPieceTeam::Black(ChessPieceType::Queen)))
    } else if c == 'r' {
        Some(ChessPiece(ChessPieceTeam::Black(ChessPieceType::Rook)))
    } else if c == 'b' {
        Some(ChessPiece(ChessPieceTeam::Black(ChessPieceType::Bishop)))
    } else if c == 'n' {
        Some(ChessPiece(ChessPieceTeam::Black(ChessPieceType::Knight)))
    } else if c == 'p' {
        Some(ChessPiece(ChessPieceTeam::Black(ChessPieceType::Pawn)))
    } else if c == 'K' {
        Some(ChessPiece(ChessPieceTeam::White(ChessPieceType::King)))
    } else if c == 'Q' {
        Some(ChessPiece(ChessPieceTeam::White(ChessPieceType::Queen)))
    } else if c == 'R' {
        Some(ChessPiece(ChessPieceTeam::White(ChessPieceType::Rook)))
    } else if c == 'B' {
        Some(ChessPiece(ChessPieceTeam::White(ChessPieceType::Bishop)))
    } else if c == 'N' {
        Some(ChessPiece(ChessPieceTeam::White(ChessPieceType::Knight)))
    } else if c == 'P' {
        Some(ChessPiece(ChessPieceTeam::White(ChessPieceType::Pawn)))
    } else {
        None
    }
}

/// The lowercase letter of a piece kind.
pub open spec fn kind_char(t: ChessPieceType) -> char {
    match t {
        ChessPieceType::King => 'k',
        ChessPieceType::Queen => 'q',
        ChessPieceType::Rook => 'r',
        ChessPieceType::Bishop => 'b',
        ChessPieceType::Knight => 'n',
        ChessPieceType::Pawn => 'p',
    }
}

/// The uppercase letter of a piece kind.
pub open spec fn kind_char_upper(t: ChessPieceType) -> char {
    match t {
        ChessPieceType::King => 'K',
        ChessPieceType::Queen => 'Q',
        ChessPieceType::Rook => 'R',
        ChessPieceType::Bishop => 'B',
        ChessPieceType::Knight => 'N',
        ChessPieceType::Pawn => 'P',
    }
}

/// The character a piece renders as: `.` for the empty square, the kind's
/// lowercase letter for a black piece, its uppercase letter for a white one.
pub open spec fn encode_spec(p: ChessPiece) -> char {
    match p.0 {
        ChessPieceTeam::Empty => '.',
        ChessPieceTeam::White(t) => kind_char_upper(t),
        ChessPieceTeam::Black(t) => kind_char(t),
    }
}

impl ChessPiece {
    /// The content of a square that holds no piece.
    pub fn none() -> (r: ChessPiece)
        ensures
            r == ChessPiece(ChessPieceTeam::Empty),
    {
        ChessPiece(ChessPieceTeam::Empty)
    }

    /// Maps a character to the piece it stands for, or reports the
    /// character when it stands for none.
    pub fn decode(c: char) -> (r: Result<ChessPiece, PieceTryFromError>)
        ensures
            r is Ok <==> decode_spec(c) is Some,
            r is Ok ==> r->Ok_0 == decode_spec(c)->Some_0,
            r is Err ==> r->Err_0 == PieceTryFromError(c),
    {
        match c {
            '.' => Ok(ChessPiece(ChessPieceTeam::Empty)),
            'k' => Ok(ChessPiece(ChessPieceTeam::Black(ChessPieceType::King))),
            'q' => Ok(ChessPiece(ChessPieceTeam::Black(ChessPieceType::Queen))),
            'r' => Ok(ChessPiece(ChessPieceTeam::Black(ChessPieceType::Rook))),
            'b' => Ok(ChessPiece(ChessPieceTeam::Black(ChessPieceType::Bishop))),
            'n' => Ok(ChessPiece(ChessPieceTeam::Black(ChessPieceType::Knight))),
            'p' => Ok(ChessPiece(ChessPieceTeam::Black(ChessPieceType::Pawn))),
            'K' => Ok(ChessPiece(ChessPieceTeam::White(ChessPieceType::King))),
            'Q' => Ok(ChessPiece(ChessPieceTeam::White(ChessPieceType::Queen))),
            'R' => Ok(ChessPiece(ChessPieceTeam::White(ChessPieceType::Rook))),
            'B' => Ok(ChessPiece(ChessPieceTeam::White(ChessPieceType::Bishop))),
            'N' => Ok(ChessPiece(ChessPieceTeam::White(ChessPieceType::Knight))),
            'P' => Ok(ChessPiece(ChessPieceTeam::White(ChessPieceType::Pawn))),
            _ => Err(PieceTryFromError(c)),
        }
    }

    /// The character this piece renders as.
    pub fn encode(self) -> (c: char)
        ensures
            c == encode_spec(self),
            decode_spec(c) == Some(self),
    {
        match self.0 {
            ChessPieceTeam::Empty => '.',
            ChessPieceTeam::Black(ChessPieceType::King) => 'k',
            ChessPieceTeam::Black(ChessPieceType::Queen) => 'q',
            ChessPieceTeam::Black(ChessPieceType::Rook) => 'r',
            ChessPieceTeam::Black(ChessPieceType::Bishop) => 'b',
            ChessPieceTeam::Black(ChessPieceType::Knight) => 'n',
            ChessPieceTeam::Black(ChessPieceType::Pawn) => 'p',
            ChessPieceTeam::White(ChessPieceType::King) => 'K',
            ChessPieceTeam::White(ChessPieceType::Queen) => 'Q',
            ChessPieceTeam::White(ChessPieceType::Rook) => 'R',
            ChessPieceTeam::White(ChessPieceType::Bishop) => 'B',
            ChessPieceTeam::White(ChessPieceType::Knight) => 'N',
            ChessPieceTeam::White(ChessPieceType::Pawn) => 'P',
        }
    }
    /// The one-character string this piece renders as; its single
    /// character is [`encode_spec`] of the piece.
    pub fn encode_str(self) -> (r: &'static str)
        ensures
            r@ == seq![encode_spec(self)],
    {
        match self.0 {
            ChessPieceTeam::Empty => {
                proof {
                    reveal_strlit(".");
                    assert("."@ =~= seq![encode_spec(self)]);
                }
                "."
            },
            ChessPieceTeam::Black(ChessPieceType::King) => {
                proof {
                    reveal_strlit("k");
                    assert("k"@ =~= seq![encode_spec(self)]);
                }
                "k"
            },
            ChessPieceTeam::Black(ChessPieceType::Queen) => {
                proof {
                    reveal_strlit("q");
                    assert("q"@ =~= seq![encode_spec(self)]);
                }
                "q"
            },
            ChessPieceTeam::Black(ChessPieceType::Rook) => {
                proof {
                    reveal_strlit("r");
                    assert("r"@ =~= seq![encode_spec(self)]);
                }
                "r"
            },
            ChessPieceTeam::Black(ChessPieceType::Bishop) => {
                proof {
                    reveal_strlit("b");
                    assert("b"@ =~= seq![encode_spec(self)]);
                }
                "b"
            },
            ChessPieceTeam::Black(ChessPieceType::Knight) => {
                proof {
                    reveal_strlit("n");
                    assert("n"@ =~= seq![encode_spec(self)]);
                }
                "n"
            },
            ChessPieceTeam::Black(ChessPieceType::Pawn) => {
                proof {
                    reveal_strlit("p");
                    assert("p"@ =~= seq![encode_spec(self)]);
                }
                "p"
            },
            ChessPieceTeam::White(ChessPieceType::King) => {
                proof {
                    reveal_strlit("K");
                    assert("K"@ =~= seq![encode_spec(self)]);
                }
                "K"
            },
            ChessPieceTeam::White(ChessPieceType::Queen) => {
                proof {
                    reveal_strlit("Q");
                    assert("Q"@ =~= seq![encode_spec(self)]);
                }
                "Q"
            },
            ChessPieceTeam::White(ChessPieceType::Rook) => {
                proof {
                    reveal_strlit("R");
                    assert("R"@ =~= seq![encode_spec(self)]);
                }
                "R"
            },
            ChessPieceTeam::White(ChessPieceType::Bishop) => {
                proof {
                    reveal_strlit("B");
                    assert("B"@ =~= seq![encode_spec(self)]);
                }
                "B"
            },
            ChessPieceTeam::White(ChessPieceType::Knight) => {
                proof {
                    reveal_strlit("N");
                    assert("N"@ =~= seq![encode_spec(self)]);
                }
                "N"
            },
            ChessPieceTeam::White(ChessPieceType::Pawn) => {
                proof {
                    reveal_strlit("P");
                    assert("P"@ =~= seq![encode_spec(self)]);
                }
                "P"
            },
        }
    }

    /// Returns an all-empty `width` x `height` board, exactly as
    /// [`Board::new`] does.
    pub fn empty_board(width: usize, height: usize) -> (r: Result<Board, ConfigError>)
        ensures
            r is Ok <==> (1 <= width && 1 <= height),
            r is Err ==> r->Err_0 == (ConfigError { width, height }),
            r is Ok ==> ({
                let b = r->Ok_0;
                &&& b.wf()
                &&& b.width == width
                &&& b.height == height
                &&& forall|x: int, y: int|
                    b.in_bounds(x, y) ==> #[trigger] b.cell(x, y) == ChessPiece(
                        ChessPieceTeam::Empty,
                    )
            }),
    {
        Board::new(width, height)
    }

    /// The piece that belongs at column `x` of row `y` in the standard
    /// starting arrangement; see [`starting_cell`].
    pub fn starting_piece(x: usize, y: usize) -> (p: ChessPiece)
        requires
            1 <= x <= 8,
            1 <= y <= 8,
        ensures
            p == starting_cell(x as int, y as int),
    {
        if y == 1 {
            ChessPiece(ChessPieceTeam::Black(Self::home_rank_piece_type(x)))
        } else if y == 2 {
            ChessPiece(ChessPieceTeam::Black(ChessPieceType::Pawn))
        } else if y == 7 {
            ChessPiece(ChessPieceTeam::White(ChessPieceType::Pawn))
        } else if y == 8 {
            ChessPiece(ChessPieceTeam::White(Self::home_rank_piece_type(x)))
        } else {
            ChessPiece(ChessPieceTeam::Empty)
        }
    }

    /// The kind that stands in column `x` of a home rank; see
    /// [`home_rank_kind`].
    fn home_rank_piece_type(x: usize) -> (t: ChessPieceType)
        requires
            1 <= x <= 8,
        ensures
            t == home_rank_kind(x as int),
    {
        if x == 1 || x == 8 {
            ChessPieceType::Rook
        } else if x == 2 || x == 7 {
            ChessPieceType::Knight
        } else if x == 3 || x == 6 {
            ChessPieceType::Bishop
        } else if x == 4 {
            ChessPieceType::Queen
        } else {
            ChessPieceType::King
        }
    }

    /// Returns the 8x8 board in the standard starting arrangement: black
    /// pieces on rows 1 and 2, white pieces on rows 7 and 8, every other
    /// square empty.
    pub fn default_board() -> (b: Board)
        ensures
            b.wf(),
            b.width == 8,
            b.height == 8,
            forall|x: int, y: int|
                b.in_bounds(x, y) ==> #[trigger] b.cell(x, y) == starting_cell(x, y),
    {
        let mut grid: Vec<Vec<ChessPiece>> = Vec::new();
        let mut y: usize = 1;
        while y <= 8
            invariant
                1 <= y <= 9,
                grid@.len() == y - 1,
                forall|i: int| 0 <= i < y - 1 ==> (#[trigger] grid@[i])@.len() == 8,
                forall|i: int, j: int|
                    0 <= i < y - 1 && 0 <= j < 8 ==> #[trigger] grid@[i]@[j] == starting_cell(
                        j + 1,
                        i + 1,
                    ),
            decreases 9 - y,
        {
            let mut row: Vec<ChessPiece> = Vec::new();
            let mut x: usize = 1;
            while x <= 8
                invariant
                    1 <= x <= 9,
                    1 <= y <= 8,
                    row@.len() == x - 1,
                    forall|j: int|
                        0 <= j < x - 1 ==> #[trigger] row@[j] == starting_cell(j + 1, y as int),
                decreases 9 - x,
            {
                row.push(Self::starting_piece(x, y));
                x = x + 1;
            }
            grid.push(row);
            y = y + 1;
        }
        Board { board: grid, width: 8, height: 8 }
    }
}

/// The kind of the piece in column `x` of a home rank (the top and
/// bottom rows of the standard starting arrangement).
pub open spec fn home_rank_kind(x: int) -> ChessPieceType {
    if x == 1 || x == 8 {
        ChessPieceType::Rook
    } else if x == 2 || x == 7 {
        ChessPieceType::Knight
    } else if x == 3 || x == 6 {
        ChessPieceType::Bishop
    } else if x == 4 {
        ChessPieceType::Queen
    } else {
        ChessPieceType::King
    }
}

/// The piece at column `x` of row `y` in the standard starting
/// arrangement on an 8x8 board: black home rank on row 1, black pawns on
/// row 2, white pawns on row 7, white home rank on row 8.
pub open spec fn starting_cell(x: int, y: int) -> ChessPiece {
    if y == 1 {
        ChessPiece(ChessPieceTeam::Black(home_rank_kind(x)))
    } else if y == 2 {
        ChessPiece(ChessPieceTeam::Black(ChessPieceType::Pawn))
    } else if y == 7 {
        ChessPiece(ChessPieceTeam::White(ChessPieceType::Pawn))
    } else if y == 8 {
        ChessPiece(ChessPieceTeam::White(home_rank_kind(x)))
    } else {
        ChessPiece(ChessPieceTeam::Empty)
    }
}

/// Decoding a valid character and encoding the piece again gives the
/// character back: the alphabet has one character per piece and the
/// mappings are mutually inverse.
pub proof fn lemma_encode_decode(c: char)
    requires
        decode_spec(c) is Some,
    ensures
        encode_spec(decode_spec(c)->Some_0) == c,
{
}

/// Encoding any piece and decoding the character again gives the piece
/// back: every representable piece survives the round trip.
pub proof fn lemma_decode_encode(p: ChessPiece)
    ensures
        decode_spec(encode_spec(p)) == Some(p),
{
}

} // verus!
