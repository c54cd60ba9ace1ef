//! A rectangular board of [`ChessPiece`] squares with bounds-checked
//! access, placement and relocation.
//!
//! Coordinates are 1-based: a position `(x, y)` names column `x` of row
//! `y`, with `(1, 1)` the top-left square, and is inside a board exactly
//! when `1 <= x <= width` and `1 <= y <= height`. Every fallible
//! operation checks its positions against the board's own dimensions and
//! leaves the board untouched when the check fails.

use vstd::prelude::*;
use vstd::string::{StrSliceExecFns, StringExecFns};

use crate::chess::{decode_spec, encode_spec, ChessPiece, ChessPieceTeam};

verus! {

/// The lines of `s`: each newline character ends a line, and a nonempty
/// remainder after the last newline is a final line of its own. The text
/// `"ab\ncd"` and the text `"ab\ncd\n"` both split into the two lines
/// `"ab"` and `"cd"`.
pub open spec fn line_split(s: Seq<char>) -> Seq<Seq<char>>
    decreases s.len(),
{
    if s.len() == 0 {
        seq![]
    } else if s[0] == '\n' {
        seq![Seq::<char>::empty()] + line_split(s.drop_first())
    } else {
        let rest = line_split(s.drop_first());
        if rest.len() == 0 {
            seq![seq![s[0]]]
        } else {
            seq![seq![s[0]] + rest[0]] + rest.drop_first()
        }
    }
}

/// `ls` with `prefix` prepended to its first line; a nonempty `prefix`
/// becomes a line of its own when `ls` has none.
spec fn join_first(prefix: Seq<char>, ls: Seq<Seq<char>>) -> Seq<Seq<char>> {
    if ls.len() == 0 {
        if prefix.len() == 0 {
            seq![]
        } else {
            seq![prefix]
        }
    } else {
        seq![prefix + ls[0]] + ls.drop_first()
    }
}

proof fn lemma_join_first_empty_prefix(ls: Seq<Seq<char>>)
    ensures
        join_first(Seq::<char>::empty(), ls) == ls,
{
    if ls.len() == 0 {
        assert(join_first(Seq::<char>::empty(), ls) =~= ls);
    } else {
        assert(Seq::<char>::empty() + ls[0] =~= ls[0]);
        assert(join_first(Seq::<char>::empty(), ls) =~= ls);
    }
}

proof fn lemma_join_first_step(prefix: Seq<char>, c: char, t: Seq<char>)
    requires
        c != '\n',
    ensures
        join_first(prefix, line_split(seq![c] + t)) == join_first(prefix.push(c), line_split(t)),
{
    let s = seq![c] + t;
    assert(s[0] == c);
    assert(s.drop_first() =~= t);
    let rest = line_split(t);
    if rest.len() == 0 {
        assert(line_split(s) =~= seq![seq![c]]);
        assert(prefix + seq![c] =~= prefix.push(c));
        assert(join_first(prefix, line_split(s)) =~= join_first(prefix.push(c), rest));
    } else {
        assert(line_split(s) =~= seq![seq![c] + rest[0]] + rest.drop_first());
        assert(prefix + (seq![c] + rest[0]) =~= prefix.push(c) + rest[0]);
        assert((seq![seq![c] + rest[0]] + rest.drop_first())[0] == seq![c] + rest[0]);
        assert((seq![seq![c] + rest[0]] + rest.drop_first()).drop_first() =~= rest.drop_first());
        assert(join_first(prefix, line_split(s)) =~= join_first(prefix.push(c), rest));
    }
}

proof fn lemma_join_first_newline(prefix: Seq<char>, t: Seq<char>)
    ensures
        join_first(prefix, line_split(seq!['\n'] + t)) == seq![prefix] + join_first(
            Seq::<char>::empty(),
            line_split(t),
        ),
{
    let s = seq!['\n'] + t;
    assert(s[0] == '\n');
    assert(s.drop_first() =~= t);
    let rest = line_split(t);
    assert(line_split(s) =~= seq![Seq::<char>::empty()] + rest);
    lemma_join_first_empty_prefix(rest);
    if rest.len() == 0 {
        assert(prefix + Seq::<char>::empty() =~= prefix);
        assert(join_first(prefix, line_split(s)) =~= seq![prefix]);
        assert(seq![prefix] + rest =~= seq![prefix]);
    } else {
        assert((seq![Seq::<char>::empty()] + rest)[0] == Seq::<char>::empty());
        assert(prefix + Seq::<char>::empty() =~= prefix);
        assert((seq![Seq::<char>::empty()] + rest).drop_first() =~= rest);
        assert(join_first(prefix, line_split(s)) =~= seq![prefix] + rest);
    }
}

/// The views of a sequence of character vectors.
spec fn views_of(lines: Seq<Vec<char>>) -> Seq<Seq<char>> {
    lines.map_values(|l: Vec<char>| l@)
}

/// Whether `s` parses as a board: at least one line, a nonempty first
/// line, every line of the first line's length, and every character
/// standing for a piece.
pub open spec fn parse_ok(s: Seq<char>) -> bool {
    let ls = line_split(s);
    &&& ls.len() >= 1
    &&& ls[0].len() >= 1
    &&& forall|i: int| 0 <= i < ls.len() ==> (#[trigger] ls[i]).len() == ls[0].len()
    &&& forall|i: int, j: int|
        0 <= i < ls.len() && 0 <= j < ls[i].len() ==> decode_spec(#[trigger] ls[i][j]) is Some
}

/// The characters one row renders as: each square's character in order,
/// left to right.
pub open spec fn row_chars(row: Seq<ChessPiece>) -> Seq<char> {
    row.map_values(|p: ChessPiece| encode_spec(p))
}

/// The characters one row contributes to a rendered board: the row's
/// characters, then a newline.
pub open spec fn render_row_spec(row: Seq<ChessPiece>) -> Seq<char> {
    row_chars(row).push('\n')
}

/// The text a grid renders as: each row's characters followed by a
/// newline, top row first.
pub open spec fn render_spec(rows: Seq<Seq<ChessPiece>>) -> Seq<char>
    decreases rows.len(),
{
    if rows.len() == 0 {
        Seq::empty()
    } else {
        render_row_spec(rows[0]) + render_spec(rows.drop_first())
    }
}

proof fn lemma_render_spec_add(a: Seq<Seq<ChessPiece>>, b: Seq<Seq<ChessPiece>>)
    ensures
        render_spec(a + b) == render_spec(a) + render_spec(b),
    decreases a.len(),
{
    if a.len() == 0 {
        assert(a + b =~= b);
        assert(render_spec(a) + render_spec(b) =~= render_spec(b));
    } else {
        assert((a + b).drop_first() =~= a.drop_first() + b);
        lemma_render_spec_add(a.drop_first(), b);
        assert((a + b)[0] == a[0]);
        assert(render_row_spec(a[0]) + (render_spec(a.drop_first()) + render_spec(b)) =~= (
        render_row_spec(a[0]) + render_spec(a.drop_first())) + render_spec(b));
    }
}

/// The lines a grid renders as, one line of characters per row, without
/// the newline terminators.
spec fn rendered_lines(rows: Seq<Seq<ChessPiece>>) -> Seq<Seq<char>> {
    rows.map_values(|row: Seq<ChessPiece>| row_chars(row))
}

proof fn lemma_line_split_terminated(a: Seq<char>, t: Seq<char>)
    requires
        forall|j: int| 0 <= j < a.len() ==> a[j] != '\n',
    ensures
        line_split(a + seq!['\n'] + t) == seq![a] + line_split(t),
    decreases a.len(),
{
    if a.len() == 0 {
        let s = seq!['\n'] + t;
        assert(a + seq!['\n'] + t =~= s);
        assert(s[0] == '\n');
        assert(s.drop_first() =~= t);
        assert(a =~= Seq::<char>::empty());
        assert(line_split(a + seq!['\n'] + t) =~= seq![a] + line_split(t));
    } else {
        let s = a + seq!['\n'] + t;
        assert(s[0] == a[0]);
        assert(s.drop_first() =~= a.drop_first() + seq!['\n'] + t);
        lemma_line_split_terminated(a.drop_first(), t);
        let rest = line_split(s.drop_first());
        assert(rest =~= seq![a.drop_first()] + line_split(t));
        assert(rest[0] == a.drop_first());
        assert(rest.drop_first() =~= line_split(t));
        assert(seq![s[0]] + rest[0] =~= a);
        assert(line_split(s) =~= seq![a] + line_split(t));
    }
}

proof fn lemma_line_split_of_render(rows: Seq<Seq<ChessPiece>>)
    ensures
        line_split(render_spec(rows)) == rendered_lines(rows),
    decreases rows.len(),
{
    if rows.len() == 0 {
        assert(render_spec(rows) =~= Seq::<char>::empty());
        assert(line_split(Seq::<char>::empty()) =~= Seq::<Seq<char>>::empty());
        assert(rendered_lines(rows) =~= Seq::<Seq<char>>::empty());
    } else {
        let head = row_chars(rows[0]);
        let rest = render_spec(rows.drop_first());
        assert(render_row_spec(rows[0]) =~= head + seq!['\n']);
        assert(render_spec(rows) =~= head + seq!['\n'] + rest);
        assert forall|j: int| 0 <= j < head.len() implies head[j] != '\n' by {
            assert(head[j] == encode_spec(rows[0][j]));
        }
        lemma_line_split_terminated(head, rest);
        lemma_line_split_of_render(rows.drop_first());
        assert(rendered_lines(rows) =~= seq![head] + rendered_lines(rows.drop_first()));
        assert(line_split(render_spec(rows)) =~= rendered_lines(rows));
    }
}

/// The parse/render round trip: the text a well-formed board renders as
/// parses back to the very same board — the first line's length is the
/// board's width, there is one line per row, and decoding the character
/// at column `x` of line `y` gives exactly the piece on square `(x, y)`.
/// Together with the contract of [`Board::parse`], parsing a rendered
/// board therefore succeeds and rebuilds equal width, height and
/// per-square content.
pub proof fn lemma_parse_render_roundtrip(b: Board)
    requires
        b.wf(),
    ensures
        parse_ok(render_spec(b.rows())),
        line_split(render_spec(b.rows())).len() == b.height,
        line_split(render_spec(b.rows()))[0].len() == b.width,
        forall|x: int, y: int|
            b.in_bounds(x, y) ==> decode_spec(
                #[trigger] line_split(render_spec(b.rows()))[y - 1][x - 1],
            ) == Some(b.cell(x, y)),
{
    lemma_line_split_of_render(b.rows());
    let ls = line_split(render_spec(b.rows()));
    assert(ls.len() == b.height);
    assert forall|i: int| 0 <= i < ls.len() implies (#[trigger] ls[i]).len() == b.width by {
        assert(ls[i] == row_chars(b.rows()[i]));
        assert(b.rows()[i] == b.board@[i]@);
    }
    assert forall|x: int, y: int| b.in_bounds(x, y) implies decode_spec(
        #[trigger] ls[y - 1][x - 1],
    ) == Some(b.cell(x, y)) by {
        assert(b.rows()[y - 1] == b.board@[y - 1]@);
        assert(ls[y - 1] == row_chars(b.rows()[y - 1]));
        assert(ls[y - 1][x - 1] == encode_spec(b.cell(x, y)));
        crate::chess::lemma_decode_encode(b.cell(x, y));
    }
}

/// A column/row coordinate pair, 1-based.
///
/// [`Pos::new`] only hands out a position after checking it against a
/// pair of board dimensions; the board operations check again against
/// their own board, so a stale position can never reach a square outside
/// the grid.
#[derive(Clone, Copy, Debug, PartialEq, Eq, Structural)]
pub struct Pos {
    /// The column, counted from 1 at the left edge.
    pub x: usize,
    /// The row, counted from 1 at the top edge.
    pub y: usize,
}

impl Pos {
    /// Validates `(x, y)` against the dimensions `width` x `height` and
    /// returns the position only when it lies inside them.
    pub fn new(x: usize, y: usize, width: usize, height: usize) -> (r: Option<Pos>)
        ensures
            r is Some <==> (1 <= x <= width && 1 <= y <= height),
            r is Some ==> r->Some_0 == (Pos { x, y }),
    {
        if 1 <= x && x <= width && 1 <= y && y <= height {
            Some(Pos { x, y })
        } else {
            None
        }
    }

    /// The column of this position.
    pub fn x(self) -> (r: usize)
        ensures
            r == self.x,
    {
        self.x
    }

    /// The row of this position.
    pub fn y(self) -> (r: usize)
        ensures
            r == self.y,
    {
        self.y
    }
}

/// The error a bounds-checked board operation reports: the position that
/// was attempted and the dimensions of the board that rejected it.
#[derive(Clone, Copy, Debug, PartialEq, Eq, Structural)]
pub struct OutOfBoundsError {
    /// The attempted column.
    pub x: usize,
    /// The attempted row.
    pub y: usize,
    /// The board's width.
    pub width: usize,
    /// The board's height.
    pub height: usize,
}

/// The error [`Board::new`] reports when asked for a board with a zero
/// width or height.
#[derive(Clone, Copy, Debug, PartialEq, Eq, Structural)]
pub struct ConfigError {
    /// The requested width.
    pub width: usize,
    /// The requested height.
    pub height: usize,
}

/// The error [`Board::parse`] reports, with 1-based line and column
/// numbers into the text it was given.
#[derive(Clone, Copy, Debug, PartialEq, Eq, Structural)]
pub enum ParseError {
    /// A character that stands for no piece, at the first position
    /// (reading each line left to right, top line first) where one
    /// occurs.
    InvalidChar {
        /// The offending character.
        character: char,
        /// The 1-based line it stands on.
        line: usize,
        /// The 1-based column it stands in.
        column: usize,
    },
    /// The first line whose length disagrees with the first line's
    /// length, which fixes the board's width.
    InconsistentRowLength {
        /// The 1-based number of the offending line.
        line: usize,
        /// The first line's length.
        expected: usize,
        /// The offending line's length.
        found: usize,
    },
    /// The text has no lines at all, or its first line is empty, so no
    /// board with a positive width and height could hold it.
    EmptyBoard,
}

/// A row-major grid of pieces together with its dimensions.
///
/// Well-formed boards ([`Board::wf`]) have at least one column and one
/// row, exactly `height` rows, and exactly `width` pieces in every row;
/// every operation of this module preserves that shape.
#[derive(Clone, Debug)]
pub struct Board {
    /// The rows, top row first; each row holds its squares left to right.
    pub board: Vec<Vec<ChessPiece>>,
    /// The number of columns in every row.
    pub width: usize,
    /// The number of rows.
    pub height: usize,
}

impl Board {
    /// The shape invariant: positive dimensions, `height` rows, and
    /// `width` squares in every row.
    pub open spec fn wf(self) -> bool {
        &&& 1 <= self.width
        &&& 1 <= self.height
        &&& self.board@.len() == self.height
        &&& forall|y: int|
            0 <= y < self.board@.len() ==> (#[trigger] self.board@[y])@.len() == self.width
    }

    /// Whether the 1-based position `(x, y)` lies inside this board.
    pub open spec fn in_bounds(self, x: int, y: int) -> bool {
        &&& 1 <= x <= self.width
        &&& 1 <= y <= self.height
    }

    /// The piece at the 1-based position `(x, y)`.
    pub open spec fn cell(self, x: int, y: int) -> ChessPiece {
        self.board@[y - 1]@[x - 1]
    }

    /// The grid as a sequence of rows of pieces.
    pub open spec fn rows(self) -> Seq<Seq<ChessPiece>> {
        self.board@.map_values(|r: Vec<ChessPiece>| r@)
    }

    /// Returns a `width` x `height` board whose every square is empty, or
    /// a [`ConfigError`] when either dimension is zero.
    pub fn new(width: usize, height: usize) -> (r: Result<Board, ConfigError>)
        ensures
            r is Ok <==> (1 <= width && 1 <= height),
            r is Err ==> r->Err_0 == (ConfigError { width, height }),
            r is Ok ==> ({
                let b = r->Ok_0;
                &&& b.wf()
                &&& b.width == width
                &&& b.height == height
                &&& forall|x: int, y: int|
                    b.in_bounds(x, y) ==> #[trigger] b.cell(x, y) == ChessPiece(
                        ChessPieceTeam::Empty,
                    )
            }),
    {
        if width == 0 || height == 0 {
            return Err(ConfigError { width, height });
        }
        let mut grid: Vec<Vec<ChessPiece>> = Vec::new();
        let mut y: usize = 0;
        while y < height
            invariant
                y <= height,
                grid@.len() == y,
                forall|i: int| 0 <= i < y ==> (#[trigger] grid@[i])@.len() == width,
                forall|i: int, j: int|
                    0 <= i < y && 0 <= j < width ==> #[trigger] grid@[i]@[j] == ChessPiece(
                        ChessPieceTeam::Empty,
                    ),
            decreases height - y,
        {
            let mut row: Vec<ChessPiece> = Vec::new();
            let mut x: usize = 0;
            while x < width
                invariant
                    x <= width,
                    row@.len() == x,
                    forall|j: int|
                        0 <= j < x ==> #[trigger] row@[j] == ChessPiece(ChessPieceTeam::Empty),
                decreases width - x,
            {
                row.push(ChessPiece::none());
                x = x + 1;
            }
            grid.push(row);
            y = y + 1;
        }
        Ok(Board { board: grid, width, height })
    }

    /// Validates `(x, y)` against this board's own dimensions, as
    /// [`Pos::new`] does.
    pub fn pos(&self, x: usize, y: usize) -> (r: Option<Pos>)
        ensures
            r is Some <==> self.in_bounds(x as int, y as int),
            r is Some ==> r->Some_0 == (Pos { x, y }),
    {
        Pos::new(x, y, self.width, self.height)
    }

    /// The piece at `pos`, or an [`OutOfBoundsError`] naming `pos` and
    /// this board's dimensions when `pos` lies outside them.
    pub fn get(&self, pos: Pos) -> (r: Result<ChessPiece, OutOfBoundsError>)
        requires
            self.wf(),
        ensures
            r is Ok <==> self.in_bounds(pos.x as int, pos.y as int),
            r is Ok ==> r->Ok_0 == self.cell(pos.x as int, pos.y as int),
            r is Err ==> r->Err_0 == (OutOfBoundsError {
                x: pos.x,
                y: pos.y,
                width: self.width,
                height: self.height,
            }),
    {
        if 1 <= pos.x && pos.x <= self.width && 1 <= pos.y && pos.y <= self.height {
            Ok(self.board[pos.y - 1][pos.x - 1])
        } else {
            Err(OutOfBoundsError { x: pos.x, y: pos.y, width: self.width, height: self.height })
        }
    }

    /// Grants write access to the square at `pos`, which must be inside
    /// the board. Whatever the caller writes through the handle becomes
    /// the content of that square; every other square keeps its piece.
    pub fn get_mut(&mut self, pos: Pos) -> (r: &mut ChessPiece)
        requires
            old(self).wf(),
            old(self).in_bounds(pos.x as int, pos.y as int),
        ensures
            *r == old(self).cell(pos.x as int, pos.y as int),
            final(self).wf(),
            final(self).width == old(self).width,
            final(self).height == old(self).height,
            final(self).cell(pos.x as int, pos.y as int) == *final(r),
            forall|x: int, y: int|
                old(self).in_bounds(x, y) && !(x == pos.x && y == pos.y)
                    ==> #[trigger] final(self).cell(x, y) == old(self).cell(x, y),
    {
        let yi: usize = pos.y - 1;
        let xi: usize = pos.x - 1;
        &mut self.board[yi][xi]
    }

    /// Overwrites the square at `pos` with `piece` and leaves every other
    /// square untouched, or reports an [`OutOfBoundsError`] naming `pos`
    /// and this board's dimensions — and changes nothing — when `pos`
    /// lies outside them.
    pub fn put_piece(&mut self, piece: &ChessPiece, pos: Pos) -> (r: Result<
        (),
        OutOfBoundsError,
    >)
        requires
            old(self).wf(),
        ensures
            final(self).wf(),
            final(self).width == old(self).width,
            final(self).height == old(self).height,
            r is Ok <==> old(self).in_bounds(pos.x as int, pos.y as int),
            r is Ok ==> final(self).cell(pos.x as int, pos.y as int) == *piece,
            r is Ok ==> forall|x: int, y: int|
                old(self).in_bounds(x, y) && !(x == pos.x && y == pos.y)
                    ==> #[trigger] final(self).cell(x, y) == old(self).cell(x, y),
            r is Err ==> *final(self) == *old(self),
            r is Err ==> r->Err_0 == (OutOfBoundsError {
                x: pos.x,
                y: pos.y,
                width: old(self).width,
                height: old(self).height,
            }),
    {
        if !(1 <= pos.x && pos.x <= self.width && 1 <= pos.y && pos.y <= self.height) {
            return Err(
                OutOfBoundsError { x: pos.x, y: pos.y, width: self.width, height: self.height },
            );
        }
        let yi: usize = pos.y - 1;
        let xi: usize = pos.x - 1;
        self.board[yi][xi] = *piece;
        Ok(())
    }

    /// Moves the piece at `old_pos` to `new_pos`: the destination square
    /// takes the source's piece (overwriting its own), the source square
    /// becomes empty, and moving a square onto itself leaves its piece in
    /// place. Both positions are validated against this board's own
    /// dimensions before anything is written; if either lies outside —
    /// the source is reported first — the board is left exactly as it
    /// was.
    pub fn move_piece(&mut self, old_pos: Pos, new_pos: Pos) -> (r: Result<
        (),
        OutOfBoundsError,
    >)
        requires
            old(self).wf(),
        ensures
            final(self).wf(),
            final(self).width == old(self).width,
            final(self).height == old(self).height,
            r is Ok <==> (old(self).in_bounds(old_pos.x as int, old_pos.y as int) && old(
                self,
            ).in_bounds(new_pos.x as int, new_pos.y as int)),
            r is Err ==> *final(self) == *old(self),
            !old(self).in_bounds(old_pos.x as int, old_pos.y as int) ==> r is Err && r->Err_0
                == (OutOfBoundsError {
                x: old_pos.x,
                y: old_pos.y,
                width: old(self).width,
                height: old(self).height,
            }),
            old(self).in_bounds(old_pos.x as int, old_pos.y as int) && !old(self).in_bounds(
                new_pos.x as int,
                new_pos.y as int,
            ) ==> r is Err && r->Err_0 == (OutOfBoundsError {
                x: new_pos.x,
                y: new_pos.y,
                width: old(self).width,
                height: old(self).height,
            }),
            r is Ok ==> final(self).cell(new_pos.x as int, new_pos.y as int) == old(self).cell(
                old_pos.x as int,
                old_pos.y as int,
            ),
            r is Ok && !(old_pos.x == new_pos.x && old_pos.y == new_pos.y) ==> final(self).cell(
                old_pos.x as int,
                old_pos.y as int,
            ) == ChessPiece(ChessPieceTeam::Empty),
            r is Ok ==> forall|x: int, y: int|
                old(self).in_bounds(x, y) && !(x == old_pos.x && y == old_pos.y) && !(x == new_pos.x
                    && y == new_pos.y) ==> #[trigger] final(self).cell(x, y) == old(self).cell(
                    x,
                    y,
                ),
            r is Ok && old_pos.x == new_pos.x && old_pos.y == new_pos.y ==> forall|x: int, y: int|
                old(self).in_bounds(x, y) ==> #[trigger] final(self).cell(x, y) == old(self).cell(
                    x,
                    y,
                ),
    {
        if !(1 <= old_pos.x && old_pos.x <= self.width && 1 <= old_pos.y && old_pos.y
            <= self.height) {
            return Err(
                OutOfBoundsError {
                    x: old_pos.x,
                    y: old_pos.y,
                    width: self.width,
                    height: self.height,
                },
            );
        }
        if !(1 <= new_pos.x && new_pos.x <= self.width && 1 <= new_pos.y && new_pos.y
            <= self.height) {
            return Err(
                OutOfBoundsError {
                    x: new_pos.x,
                    y: new_pos.y,
                    width: self.width,
                    height: self.height,
                },
            );
        }
        let oyi: usize = old_pos.y - 1;
        let oxi: usize = old_pos.x - 1;
        let nyi: usize = new_pos.y - 1;
        let nxi: usize = new_pos.x - 1;
        let moved: ChessPiece = self.board[oyi][oxi];
        self.board[oyi][oxi] = ChessPiece::none();
        self.board[nyi][nxi] = moved;
        Ok(())
    }

    /// The board's textual form: `height` lines of `width` characters,
    /// each line one row top to bottom, each character the encoding of
    /// the corresponding square, and a newline after every line.
    pub fn render(&self) -> (r: String)
        requires
            self.wf(),
        ensures
            r@ == render_spec(self.rows()),
    {
        let mut out: String = String::new();
        let mut y: usize = 0;
        while y < self.height
            invariant
                self.wf(),
                y <= self.height,
                out@ == render_spec(self.rows().take(y as int)),
            decreases self.height - y,
        {
            let ghost row: Seq<ChessPiece> = self.rows()[y as int];
            proof {
                assert(out@ + row_chars(row).take(0) =~= out@);
            }
            let mut x: usize = 0;
            while x < self.width
                invariant
                    self.wf(),
                    y < self.height,
                    x <= self.width,
                    row == self.rows()[y as int],
                    out@ == render_spec(self.rows().take(y as int)) + row_chars(row).take(
                        x as int,
                    ),
                decreases self.width - x,
            {
                let piece: ChessPiece = self.board[y][x];
                out.append(piece.encode_str());
                proof {
                    assert(piece == row[x as int]);
                    assert(row_chars(row).take(x as int + 1) =~= row_chars(row).take(x as int)
                        + seq![encode_spec(piece)]);
                    assert(out@ =~= render_spec(self.rows().take(y as int)) + row_chars(row).take(
                        x as int + 1,
                    ));
                }
                x = x + 1;
            }
            out.append("\n");
            proof {
                reveal_strlit("\n");
                assert("\n"@ =~= seq!['\n']);
                assert(row_chars(row).take(self.width as int) =~= row_chars(row));
                assert(out@ =~= render_spec(self.rows().take(y as int)) + render_row_spec(row));
                lemma_render_spec_add(self.rows().take(y as int), seq![row]);
                assert(seq![row].drop_first() =~= Seq::<Seq<ChessPiece>>::empty());
                assert(seq![row][0] == row);
                assert(render_spec(Seq::<Seq<ChessPiece>>::empty()) =~= Seq::<char>::empty());
                assert(render_spec(seq![row]) =~= render_row_spec(row));
                assert(self.rows().take(y as int + 1) =~= self.rows().take(y as int) + seq![row]);
            }
            y = y + 1;
        }
        proof {
            assert(self.rows().take(self.height as int) =~= self.rows());
        }
        out
    }

    /// Parses a textual board: each line of `s` becomes one row of
    /// pieces, decoded character by character.
    ///
    /// The first line's length fixes the width. Parsing fails with
    /// [`ParseError::EmptyBoard`] when the text has no lines or its
    /// first line is empty, with [`ParseError::InconsistentRowLength`]
    /// at the first line whose length disagrees with the width, and
    /// otherwise with [`ParseError::InvalidChar`] at the first character
    /// (per line, top to bottom, then left to right) that stands for no
    /// piece. Ragged input is rejected before any character is judged.
    pub fn parse(s: &str) -> (r: Result<Board, ParseError>)
        ensures
            r is Ok <==> parse_ok(s@),
            r is Ok ==> ({
                let b = r->Ok_0;
                let ls = line_split(s@);
                &&& b.wf()
                &&& b.width == ls[0].len()
                &&& b.height == ls.len()
                &&& forall|x: int, y: int|
                    b.in_bounds(x, y) ==> #[trigger] b.cell(x, y) == decode_spec(
                        ls[y - 1][x - 1],
                    )->Some_0
            }),
            r is Err ==> ({
                let ls = line_split(s@);
                match r->Err_0 {
                    ParseError::EmptyBoard => ls.len() == 0 || ls[0].len() == 0,
                    ParseError::InconsistentRowLength { line, expected, found } => {
                        &&& ls.len() >= 1
                        &&& ls[0].len() >= 1
                        &&& 2 <= line <= ls.len()
                        &&& expected == ls[0].len()
                        &&& found == ls[line - 1].len()
                        &&& found != expected
                        &&& forall|k: int| 0 <= k < line - 1 ==> (#[trigger] ls[k]).len() == expected
                    },
                    ParseError::InvalidChar { character, line, column } => {
                        &&& ls.len() >= 1
                        &&& ls[0].len() >= 1
                        &&& forall|i: int| 0 <= i < ls.len() ==> (#[trigger] ls[i]).len() == ls[0].len()
                        &&& 1 <= line <= ls.len()
                        &&& 1 <= column <= ls[0].len()
                        &&& character == ls[line - 1][column - 1]
                        &&& decode_spec(character) is None
                        &&& forall|i: int, j: int|
                            0 <= i < line - 1 && 0 <= j < ls[0].len() ==> decode_spec(
                                #[trigger] ls[i][j],
                            ) is Some
                        &&& forall|j: int|
                            0 <= j < column - 1 ==> decode_spec(#[trigger] ls[line - 1][j]) is Some
                    },
                }
            }),
    {
        let n: usize = s.unicode_len();
        let mut lines: Vec<Vec<char>> = Vec::new();
        let mut cur: Vec<char> = Vec::new();
        let mut i: usize = 0;
        proof {
            lemma_join_first_empty_prefix(line_split(s@));
            assert(s@.skip(0) =~= s@);
            assert(views_of(lines@) =~= Seq::<Seq<char>>::empty());
            assert(line_split(s@) =~= views_of(lines@) + join_first(
                cur@,
                line_split(s@.skip(0)),
            ));
        }
        while i < n
            invariant
                i <= n,
                n == s@.len(),
                line_split(s@) == views_of(lines@) + join_first(
                    cur@,
                    line_split(s@.skip(i as int)),
                ),
            decreases n - i,
        {
            let c: char = s.get_char(i);
            proof {
                assert(s@.skip(i as int) =~= seq![c] + s@.skip(i as int + 1));
            }
            if c == '\n' {
                proof {
                    lemma_join_first_newline(cur@, s@.skip(i as int + 1));
                }
                let ghost lines0 = lines@;
                let ghost cur0 = cur@;
                lines.push(cur);
                cur = Vec::new();
                proof {
                    assert(views_of(lines@) =~= views_of(lines0) + seq![cur0]);
                    assert((views_of(lines0) + seq![cur0]) + join_first(
                        cur@,
                        line_split(s@.skip(i as int + 1)),
                    ) =~= views_of(lines0) + (seq![cur0] + join_first(
                        cur@,
                        line_split(s@.skip(i as int + 1)),
                    )));
                }
            } else {
                proof {
                    lemma_join_first_step(cur@, c, s@.skip(i as int + 1));
                }
                cur.push(c);
            }
            i = i + 1;
        }
        proof {
            assert(s@.skip(n as int) =~= Seq::<char>::empty());
            assert(line_split(Seq::<char>::empty()) =~= Seq::<Seq<char>>::empty());
        }
        if cur.len() > 0 {
            let ghost lines0 = lines@;
            let ghost cur0 = cur@;
            lines.push(cur);
            proof {
                assert(views_of(lines@) =~= views_of(lines0) + seq![cur0]);
                assert(line_split(s@) =~= views_of(lines@));
            }
        } else {
            proof {
                assert(views_of(lines@) + join_first(cur@, Seq::<Seq<char>>::empty()) =~= views_of(
                    lines@,
                ));
            }
        }
        let ghost ls = line_split(s@);
        proof {
            assert(ls == views_of(lines@));
        }
        if lines.len() == 0 {
            return Err(ParseError::EmptyBoard);
        }
        let width: usize = lines[0].len();
        proof {
            assert(ls[0] == lines@[0]@);
        }
        if width == 0 {
            return Err(ParseError::EmptyBoard);
        }
        let height: usize = lines.len();
        let mut k: usize = 1;
        while k < height
            invariant
                1 <= k <= height,
                ls == line_split(s@),
                ls == views_of(lines@),
                lines@.len() == height,
                height == ls.len(),
                width == ls[0].len(),
                1 <= width,
                forall|t: int| 0 <= t < k ==> (#[trigger] ls[t]).len() == width,
            decreases height - k,
        {
            let found: usize = lines[k].len();
            proof {
                assert(ls[k as int] == lines@[k as int]@);
            }
            if found != width {
                proof {
                    assert(!parse_ok(s@)) by {
                        assert(line_split(s@)[k as int].len() != line_split(s@)[0].len());
                    }
                }
                return Err(
                    ParseError::InconsistentRowLength { line: k + 1, expected: width, found },
                );
            }
            k = k + 1;
        }
        let mut grid: Vec<Vec<ChessPiece>> = Vec::new();
        let mut y: usize = 0;
        while y < height
            invariant
                y <= height,
                ls == line_split(s@),
                ls == views_of(lines@),
                lines@.len() == height,
                height == ls.len(),
                width == ls[0].len(),
                1 <= width,
                1 <= height,
                forall|t: int| 0 <= t < height ==> (#[trigger] ls[t]).len() == width,
                grid@.len() == y,
                forall|u: int| 0 <= u < y ==> (#[trigger] grid@[u])@.len() == width,
                forall|u: int, v: int|
                    0 <= u < y && 0 <= v < width ==> decode_spec(#[trigger] ls[u][v]) is Some,
                forall|u: int, v: int|
                    0 <= u < y && 0 <= v < width ==> #[trigger] grid@[u]@[v] == decode_spec(
                        ls[u][v],
                    )->Some_0,
            decreases height - y,
        {
            let mut row: Vec<ChessPiece> = Vec::new();
            let mut x: usize = 0;
            while x < width
                invariant
                    y < height,
                    x <= width,
                    ls == line_split(s@),
                    ls == views_of(lines@),
                    lines@.len() == height,
                    height == ls.len(),
                    width == ls[0].len(),
                    1 <= width,
                    1 <= height,
                    forall|t: int| 0 <= t < height ==> (#[trigger] ls[t]).len() == width,
                    grid@.len() == y,
                    forall|u: int| 0 <= u < y ==> (#[trigger] grid@[u])@.len() == width,
                    forall|u: int, v: int|
                        0 <= u < y && 0 <= v < width ==> decode_spec(#[trigger] ls[u][v]) is Some,
                    forall|u: int, v: int|
                        0 <= u < y && 0 <= v < width ==> #[trigger] grid@[u]@[v] == decode_spec(
                            ls[u][v],
                        )->Some_0,
                    row@.len() == x,
                    forall|v: int| 0 <= v < x ==> decode_spec(#[trigger] ls[y as int][v]) is Some,
                    forall|v: int|
                        0 <= v < x ==> #[trigger] row@[v] == decode_spec(ls[y as int][v])->Some_0,
                decreases width - x,
            {
                proof {
                    assert(ls[y as int] == lines@[y as int]@);
                }
                let c: char = lines[y][x];
                proof {
                    assert(c == ls[y as int][x as int]);
                }
                match ChessPiece::decode(c) {
                    Ok(p) => {
                        row.push(p);
                    },
                    Err(_) => {
                        proof {
                            assert(!parse_ok(s@)) by {
                                assert(decode_spec(line_split(s@)[y as int][x as int]) is None);
                            }
                        }
                        return Err(
                            ParseError::InvalidChar { character: c, line: y + 1, column: x + 1 },
                        );
                    },
                }
                x = x + 1;
            }
            let ghost grid0 = grid@;
            let ghost row0 = row@;
            grid.push(row);
            proof {
                assert(forall|u: int| 0 <= u < y ==> #[trigger] grid@[u] == grid0[u]);
                assert(grid@[y as int]@ == row0);
            }
            y = y + 1;
        }
        Ok(Board { board: grid, width, height })
    }
}

} // verus!
