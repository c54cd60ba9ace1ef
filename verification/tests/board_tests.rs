use easychess::board::{Board, ConfigError, OutOfBoundsError, ParseError, Pos};
use easychess::chess::{ChessPiece, ChessPieceTeam, ChessPieceType};

const START: &str = "rnbqkbnr
pppppppp
........
........
........
........
PPPPPPPP
RNBQKBNR";

#[test]
fn it_works() {
    let chesboardstr = "rnbqkbnr
pppppppp
........
........
........
........
PPPPPPPP
RNBQKBNR";
    Board::parse(chesboardstr).unwrap();
}

#[test]
fn new_rejects_zero_dimensions() {
    assert_eq!(
        Board::new(0, 5).unwrap_err(),
        ConfigError { width: 0, height: 5 }
    );
    assert_eq!(
        Board::new(5, 0).unwrap_err(),
        ConfigError { width: 5, height: 0 }
    );
    assert_eq!(
        Board::new(0, 0).unwrap_err(),
        ConfigError { width: 0, height: 0 }
    );
}

#[test]
fn new_board_is_empty() {
    let board = Board::new(3, 4).unwrap();
    assert_eq!(board.width, 3);
    assert_eq!(board.height, 4);
    for x in 1..=3 {
        for y in 1..=4 {
            let pos = board.pos(x, y).unwrap();
            assert_eq!(board.get(pos).unwrap(), ChessPiece(ChessPieceTeam::Empty));
        }
    }
}

#[test]
fn pos_validates_against_the_given_bounds() {
    assert!(Pos::new(0, 1, 8, 8).is_none());
    assert!(Pos::new(1, 0, 8, 8).is_none());
    assert!(Pos::new(9, 1, 8, 8).is_none());
    assert!(Pos::new(1, 9, 8, 8).is_none());
    let pos = Pos::new(3, 7, 8, 8).unwrap();
    assert_eq!(pos.x(), 3);
    assert_eq!(pos.y(), 7);
}

#[test]
fn get_succeeds_on_every_in_bounds_position() {
    let board = Board::parse(START).unwrap();
    for x in 1..=8 {
        for y in 1..=8 {
            let pos = board.pos(x, y).unwrap();
            assert!(board.get(pos).is_ok());
        }
    }
}

#[test]
fn get_reports_an_out_of_bounds_position() {
    let board = Board::new(3, 3).unwrap();
    // A position that was valid for some larger board, but not for this one.
    let stale = Pos::new(5, 2, 9, 9).unwrap();
    assert_eq!(
        board.get(stale).unwrap_err(),
        OutOfBoundsError { x: 5, y: 2, width: 3, height: 3 }
    );
}

#[test]
fn put_piece_changes_only_the_target_square() {
    let mut board = Board::new(3, 3).unwrap();
    let queen = ChessPiece(ChessPieceTeam::White(ChessPieceType::Queen));
    let target = board.pos(1, 1).unwrap();
    board.put_piece(&queen, target).unwrap();
    assert_eq!(board.render(), "Q..\n...\n...\n");
    for x in 1..=3 {
        for y in 1..=3 {
            let pos = board.pos(x, y).unwrap();
            let expected = if x == 1 && y == 1 {
                queen
            } else {
                ChessPiece(ChessPieceTeam::Empty)
            };
            assert_eq!(board.get(pos).unwrap(), expected);
        }
    }
}

#[test]
fn put_piece_out_of_bounds_leaves_the_board_unchanged() {
    let mut board = Board::parse(START).unwrap();
    let before = board.render();
    let rook = ChessPiece(ChessPieceTeam::White(ChessPieceType::Rook));
    let stale = Pos::new(9, 9, 9, 9).unwrap();
    assert_eq!(
        board.put_piece(&rook, stale).unwrap_err(),
        OutOfBoundsError { x: 9, y: 9, width: 8, height: 8 }
    );
    assert_eq!(board.render(), before);
}

#[test]
fn move_piece_moves_and_clears_the_source() {
    let mut board = Board::parse(START).unwrap();
    let from = board.pos(5, 7).unwrap();
    let to = board.pos(5, 5).unwrap();
    board.move_piece(from, to).unwrap();
    assert_eq!(
        board.get(to).unwrap(),
        ChessPiece(ChessPieceTeam::White(ChessPieceType::Pawn))
    );
    assert_eq!(board.get(from).unwrap(), ChessPiece(ChessPieceTeam::Empty));
    assert_eq!(
        board.render(),
        "rnbqkbnr\npppppppp\n........\n........\n....P...\n........\nPPPP.PPP\nRNBQKBNR\n"
    );
}

#[test]
fn move_piece_with_a_bad_endpoint_is_atomic() {
    let mut board = Board::parse(START).unwrap();
    let before = board.render();
    let good = board.pos(1, 1).unwrap();
    let stale = Pos::new(9, 4, 9, 9).unwrap();
    // The source is reported first when it is the one out of bounds.
    assert_eq!(
        board.move_piece(stale, good).unwrap_err(),
        OutOfBoundsError { x: 9, y: 4, width: 8, height: 8 }
    );
    assert_eq!(board.render(), before);
    // An out-of-bounds destination is reported too, and changes nothing.
    assert_eq!(
        board.move_piece(good, stale).unwrap_err(),
        OutOfBoundsError { x: 9, y: 4, width: 8, height: 8 }
    );
    assert_eq!(board.render(), before);
}

#[test]
fn move_piece_onto_itself_keeps_the_piece() {
    let mut board = Board::new(3, 3).unwrap();
    let queen = ChessPiece(ChessPieceTeam::White(ChessPieceType::Queen));
    let square = board.pos(2, 2).unwrap();
    board.put_piece(&queen, square).unwrap();
    let before = board.render();
    board.move_piece(square, square).unwrap();
    assert_eq!(board.get(square).unwrap(), queen);
    assert_eq!(board.render(), before);
}

#[test]
fn get_mut_writes_through_to_the_board() {
    let mut board = Board::new(2, 2).unwrap();
    let knight = ChessPiece(ChessPieceTeam::Black(ChessPieceType::Knight));
    let pos = board.pos(2, 1).unwrap();
    let square = board.get_mut(pos);
    *square = knight;
    assert_eq!(board.get(pos).unwrap(), knight);
    assert_eq!(board.render(), ".n\n..\n");
}

#[test]
fn parse_the_starting_arrangement() {
    let board = Board::parse(START).unwrap();
    assert_eq!(board.width, 8);
    assert_eq!(board.height, 8);
    let rendered = board.render();
    let lines: Vec<&str> = rendered.lines().collect();
    let expected: Vec<&str> = START.lines().collect();
    assert_eq!(lines, expected);
    let black_king = board.get(board.pos(5, 1).unwrap()).unwrap();
    assert_eq!(
        black_king,
        ChessPiece(ChessPieceTeam::Black(ChessPieceType::King))
    );
    let white_king = board.get(board.pos(5, 8).unwrap()).unwrap();
    assert_eq!(
        white_king,
        ChessPiece(ChessPieceTeam::White(ChessPieceType::King))
    );
}

#[test]
fn parse_after_render_reproduces_the_board() {
    for text in [START, "Q..\n.n.\n..P", "K"] {
        let board = Board::parse(text).unwrap();
        let again = Board::parse(board.render().as_str()).unwrap();
        assert_eq!(again.width, board.width);
        assert_eq!(again.height, board.height);
        for x in 1..=board.width {
            for y in 1..=board.height {
                let pos = board.pos(x, y).unwrap();
                assert_eq!(again.get(pos).unwrap(), board.get(pos).unwrap());
            }
        }
        assert_eq!(again.render(), board.render());
    }
}

#[test]
fn parse_rejects_ragged_rows() {
    assert_eq!(
        Board::parse("ab\nabc").unwrap_err(),
        ParseError::InconsistentRowLength { line: 2, expected: 2, found: 3 }
    );
}

#[test]
fn parse_rejects_the_first_invalid_character() {
    assert_eq!(
        Board::parse("..\n.x").unwrap_err(),
        ParseError::InvalidChar { character: 'x', line: 2, column: 2 }
    );
    assert_eq!(
        Board::parse("z.").unwrap_err(),
        ParseError::InvalidChar { character: 'z', line: 1, column: 1 }
    );
}

#[test]
fn parse_rejects_text_without_a_usable_first_line() {
    assert_eq!(Board::parse("").unwrap_err(), ParseError::EmptyBoard);
    assert_eq!(Board::parse("\n").unwrap_err(), ParseError::EmptyBoard);
    assert_eq!(Board::parse("\n..").unwrap_err(), ParseError::EmptyBoard);
}

#[test]
fn parse_accepts_an_optional_trailing_newline() {
    let bare = Board::parse("K").unwrap();
    let terminated = Board::parse("K\n").unwrap();
    assert_eq!(bare.width, 1);
    assert_eq!(bare.height, 1);
    assert_eq!(terminated.width, 1);
    assert_eq!(terminated.height, 1);
    assert_eq!(bare.render(), terminated.render());
}
