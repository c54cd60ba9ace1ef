use easychess::board::Board;
use easychess::chess::{ChessPiece, ChessPieceTeam, ChessPieceType};

#[test]
fn empty_board_matches_board_new() {
    let board = ChessPiece::empty_board(4, 2).unwrap();
    assert_eq!(board.width, 4);
    assert_eq!(board.height, 2);
    assert_eq!(board.render(), "....\n....\n");
    assert!(ChessPiece::empty_board(0, 2).is_err());
}

#[test]
fn default_board_is_the_starting_arrangement() {
    let board = ChessPiece::default_board();
    assert_eq!(board.width, 8);
    assert_eq!(board.height, 8);
    assert_eq!(
        board.render(),
        "rnbqkbnr\npppppppp\n........\n........\n........\n........\nPPPPPPPP\nRNBQKBNR\n"
    );
}

#[test]
fn starting_piece_places_the_royals() {
    assert_eq!(
        ChessPiece::starting_piece(5, 1),
        ChessPiece(ChessPieceTeam::Black(ChessPieceType::King))
    );
    assert_eq!(
        ChessPiece::starting_piece(4, 8),
        ChessPiece(ChessPieceTeam::White(ChessPieceType::Queen))
    );
    assert_eq!(
        ChessPiece::starting_piece(3, 5),
        ChessPiece(ChessPieceTeam::Empty)
    );
    assert_eq!(
        ChessPiece::starting_piece(1, 2),
        ChessPiece(ChessPieceTeam::Black(ChessPieceType::Pawn))
    );
}

#[test]
fn default_board_round_trips_through_text() {
    let board = ChessPiece::default_board();
    let parsed = Board::parse(board.render().as_str()).unwrap();
    assert_eq!(parsed.render(), board.render());
}
