use easychess::chess::{ChessPiece, ChessPieceTeam, ChessPieceType, PieceTryFromError};

fn all_pieces() -> Vec<ChessPiece> {
    let kinds = [
        ChessPieceType::King,
        ChessPieceType::Queen,
        ChessPieceType::Rook,
        ChessPieceType::Bishop,
        ChessPieceType::Knight,
        ChessPieceType::Pawn,
    ];
    let mut pieces = vec![ChessPiece(ChessPieceTeam::Empty)];
    for kind in kinds {
        pieces.push(ChessPiece(ChessPieceTeam::White(kind)));
        pieces.push(ChessPiece(ChessPieceTeam::Black(kind)));
    }
    pieces
}

#[test]
fn encode_after_decode_gives_the_character_back() {
    for c in ['.', 'k', 'q', 'r', 'b', 'n', 'p', 'K', 'Q', 'R', 'B', 'N', 'P'] {
        let piece = ChessPiece::decode(c).unwrap();
        assert_eq!(piece.encode(), c);
    }
}

#[test]
fn decode_after_encode_gives_the_piece_back() {
    for piece in all_pieces() {
        let c = piece.encode();
        assert_eq!(ChessPiece::decode(c).unwrap(), piece);
    }
}

#[test]
fn decode_maps_case_to_team() {
    assert_eq!(
        ChessPiece::decode('K').unwrap(),
        ChessPiece(ChessPieceTeam::White(ChessPieceType::King))
    );
    assert_eq!(
        ChessPiece::decode('k').unwrap(),
        ChessPiece(ChessPieceTeam::Black(ChessPieceType::King))
    );
    assert_eq!(
        ChessPiece::decode('.').unwrap(),
        ChessPiece(ChessPieceTeam::Empty)
    );
    assert_eq!(ChessPiece::none(), ChessPiece(ChessPieceTeam::Empty));
}

#[test]
fn decode_rejects_an_unknown_character() {
    assert_eq!(ChessPiece::decode('x').unwrap_err(), PieceTryFromError('x'));
    assert_eq!(ChessPiece::decode(' ').unwrap_err(), PieceTryFromError(' '));
    assert_eq!(ChessPiece::decode('\n').unwrap_err(), PieceTryFromError('\n'));
}

#[test]
fn encode_str_matches_encode() {
    for piece in all_pieces() {
        let s = piece.encode_str();
        assert_eq!(s.chars().collect::<Vec<char>>(), vec![piece.encode()]);
    }
}
