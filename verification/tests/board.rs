use chess_fen::board::{adjacent_digits, known_chars, rank_row};
use chess_fen::{Board, Color, Piece, PieceType, PlacementError};

const START: &str = "rnbqkbnr/pppppppp/8/8/8/8/PPPPPPPP/RNBQKBNR";

fn piece(piece_type: PieceType, color: Color) -> Option<Piece> {
    Some(Piece { piece_type, color })
}

#[test]
fn piece_letters_are_read() {
    assert_eq!(Piece::from_letter('P'), piece(PieceType::Pawn, Color::White));
    assert_eq!(Piece::from_letter('N'), piece(PieceType::Knight, Color::White));
    assert_eq!(Piece::from_letter('B'), piece(PieceType::Bishop, Color::White));
    assert_eq!(Piece::from_letter('R'), piece(PieceType::Rook, Color::White));
    assert_eq!(Piece::from_letter('Q'), piece(PieceType::Queen, Color::White));
    assert_eq!(Piece::from_letter('K'), piece(PieceType::King, Color::White));
    assert_eq!(Piece::from_letter('p'), piece(PieceType::Pawn, Color::Black));
    assert_eq!(Piece::from_letter('n'), piece(PieceType::Knight, Color::Black));
    assert_eq!(Piece::from_letter('b'), piece(PieceType::Bishop, Color::Black));
    assert_eq!(Piece::from_letter('r'), piece(PieceType::Rook, Color::Black));
    assert_eq!(Piece::from_letter('q'), piece(PieceType::Queen, Color::Black));
    assert_eq!(Piece::from_letter('k'), piece(PieceType::King, Color::Black));
}

#[test]
fn other_characters_are_no_pieces() {
    for c in ['a', 'x', '1', '8', '/', ' ', '-', 'é', 'O', 'o'] {
        assert_eq!(Piece::from_letter(c), None);
    }
}

#[test]
fn piece_symbols_are_read_back() {
    let kinds = [
        PieceType::Pawn,
        PieceType::Knight,
        PieceType::Bishop,
        PieceType::Rook,
        PieceType::Queen,
        PieceType::King,
    ];
    for kind in kinds {
        for color in [Color::White, Color::Black] {
            let p = Piece { piece_type: kind, color };
            let symbol = p.symbol();
            assert_eq!(symbol.chars().count(), 1);
            assert_eq!(Piece::from_letter(symbol.chars().next().unwrap()), Some(p));
        }
    }
    assert_eq!(Piece { piece_type: PieceType::Knight, color: Color::White }.symbol(), "N");
    assert_eq!(Piece { piece_type: PieceType::Queen, color: Color::Black }.symbol(), "q");
}

#[test]
fn starting_placement_is_read() {
    let board = Board::from_fen(START).unwrap();
    let back = [
        PieceType::Rook,
        PieceType::Knight,
        PieceType::Bishop,
        PieceType::Queen,
        PieceType::King,
        PieceType::Bishop,
        PieceType::Knight,
        PieceType::Rook,
    ];
    let mut file: usize = 0;
    while file < 8 {
        assert_eq!(board.get_tile(file, 0), piece(back[file], Color::Black));
        assert_eq!(board.get_tile(file, 1), piece(PieceType::Pawn, Color::Black));
        let mut rank: usize = 2;
        while rank < 6 {
            assert_eq!(board.get_tile(file, rank), None);
            rank += 1;
        }
        assert_eq!(board.get_tile(file, 6), piece(PieceType::Pawn, Color::White));
        assert_eq!(board.get_tile(file, 7), piece(back[file], Color::White));
        file += 1;
    }
}

#[test]
fn tiles_off_the_board_are_empty() {
    let board = Board::from_fen(START).unwrap();
    assert_eq!(board.get_tile(8, 0), None);
    assert_eq!(board.get_tile(0, 8), None);
    assert_eq!(board.get_tile(8, 8), None);
    assert_eq!(board.get_tile(usize::MAX, 0), None);
    assert_eq!(board.get_tile(0, usize::MAX), None);
}

#[test]
fn tile_index_is_rank_times_eight_plus_file() {
    let board = Board::from_fen("8/8/8/8/2P5/8/8/7k").unwrap();
    assert_eq!(board.squares[4 * 8 + 2], piece(PieceType::Pawn, Color::White));
    assert_eq!(board.squares[7 * 8 + 7], piece(PieceType::King, Color::Black));
    assert_eq!(board.get_tile(2, 4), piece(PieceType::Pawn, Color::White));
    assert_eq!(board.get_tile(4, 2), None);
    assert_eq!(board.get_tile(7, 7), piece(PieceType::King, Color::Black));
}

#[test]
fn placements_are_written_back() {
    let placements = vec![
        START,
        "8/8/8/8/8/8/8/8",
        "r3k2r/Pppp1ppp/1b3nbN/nP6/BBP1P3/q4N2/Pp1P2PP/R2Q1RK1",
        "5bnr/pp1p1ppp/nbrp4/1k2pQN1/2B1q3/6N1/PPPRPPPP/R1B1K3",
        "p7/1p6/2p5/3p4/4p3/5p2/6p1/7p",
        "1p1p1p1p/p1p1p1p1/7K/k7/3Qq3/2N2n2/1B4b1/R6r",
    ];
    for placement in placements {
        let board = Board::from_fen(placement).unwrap();
        assert_eq!(board.fen(), placement);
    }
}

#[test]
fn empty_board_is_written() {
    let board = Board { squares: [None; 64] };
    assert_eq!(board.fen(), "8/8/8/8/8/8/8/8");
    assert_eq!(Board::from_fen("8/8/8/8/8/8/8/8"), Ok(board));
}

#[test]
fn built_board_is_written_and_read_back() {
    let mut squares = [None; 64];
    squares[0] = piece(PieceType::Rook, Color::Black);
    squares[7] = piece(PieceType::Rook, Color::Black);
    squares[8 + 3] = piece(PieceType::Pawn, Color::Black);
    squares[4 * 8 + 4] = piece(PieceType::Pawn, Color::White);
    squares[4 * 8 + 5] = piece(PieceType::Knight, Color::White);
    squares[63] = piece(PieceType::King, Color::White);
    let board = Board { squares };
    assert_eq!(board.fen(), "r6r/3p4/8/8/4PN2/8/8/7K");
    assert_eq!(Board::from_fen(&board.fen()), Ok(board));
}

#[test]
fn ranks_are_written() {
    let board = Board::from_fen("r3k2r/8/1b3nbN/nP6/BBP1P3/q4N2/Pp1P2PP/RNBQKBNR").unwrap();
    assert_eq!(board.rank_fen(0), "r3k2r");
    assert_eq!(board.rank_fen(1), "8");
    assert_eq!(board.rank_fen(2), "1b3nbN");
    assert_eq!(board.rank_fen(3), "nP6");
    assert_eq!(board.rank_fen(7), "RNBQKBNR");
}

#[test]
fn wrong_rank_count() {
    assert_eq!(Board::from_fen(""), Err(PlacementError::WrongRankCount));
    assert_eq!(Board::from_fen("8"), Err(PlacementError::WrongRankCount));
    assert_eq!(Board::from_fen("8/8/8/8/8/8/8"), Err(PlacementError::WrongRankCount));
    assert_eq!(Board::from_fen("8/8/8/8/8/8/8/8/8"), Err(PlacementError::WrongRankCount));
    assert_eq!(Board::from_fen("8/8/8/8/8/8/8/8/"), Err(PlacementError::WrongRankCount));
    assert_eq!(Board::from_fen("x/44/7"), Err(PlacementError::WrongRankCount));
}

#[test]
fn unknown_character() {
    assert_eq!(Board::from_fen("8/8/8/8/8/8/8/7x"), Err(PlacementError::UnknownCharacter));
    assert_eq!(Board::from_fen("9/8/8/8/8/8/8/8"), Err(PlacementError::UnknownCharacter));
    assert_eq!(Board::from_fen("80/8/8/8/8/8/8/8"), Err(PlacementError::UnknownCharacter));
    assert_eq!(Board::from_fen("8/8/8/8 /8/8/8/8"), Err(PlacementError::UnknownCharacter));
    assert_eq!(Board::from_fen("8/8/8/8/8/8/8/-"), Err(PlacementError::UnknownCharacter));
}

#[test]
fn adjacent_digits_are_rejected() {
    assert_eq!(Board::from_fen("8/8/8/8/8/8/8/44"), Err(PlacementError::AdjacentDigits));
    assert_eq!(Board::from_fen("11111111/8/8/8/8/8/8/8"), Err(PlacementError::AdjacentDigits));
    assert_eq!(Board::from_fen("8/8/p16/8/8/8/8/8"), Err(PlacementError::AdjacentDigits));
    assert_eq!(Board::from_fen("8/8/88/8/8/8/8/8"), Err(PlacementError::AdjacentDigits));
}

#[test]
fn wrong_rank_width() {
    assert_eq!(Board::from_fen("8/8/8/8/8/8/8/7"), Err(PlacementError::WrongRankWidth));
    assert_eq!(Board::from_fen("8/8/8/8/8/8/8/"), Err(PlacementError::WrongRankWidth));
    assert_eq!(Board::from_fen("8/8/8/8/8/8/8/8p"), Err(PlacementError::WrongRankWidth));
    assert_eq!(Board::from_fen("8/8/8/8/8/8/8/p8"), Err(PlacementError::WrongRankWidth));
    assert_eq!(Board::from_fen("ppppppppp/8/8/8/8/8/8/8"), Err(PlacementError::WrongRankWidth));
    assert_eq!(Board::from_fen("ppppppp/8/8/8/8/8/8/8"), Err(PlacementError::WrongRankWidth));
    assert_eq!(Board::from_fen("///////"), Err(PlacementError::WrongRankWidth));
}

#[test]
fn placement_errors_in_order() {
    // An unknown character anywhere comes before two adjacent digits
    // anywhere, and those before a rank of the wrong width.
    assert_eq!(Board::from_fen("7/44/8/8/8/8/8/x7"), Err(PlacementError::UnknownCharacter));
    assert_eq!(Board::from_fen("7/8/8/8/8/8/8/44"), Err(PlacementError::AdjacentDigits));
    assert_eq!(Board::from_fen("7/8/8/8/8/8/8/8"), Err(PlacementError::WrongRankWidth));
}

#[test]
fn rank_characters() {
    assert!(known_chars(""));
    assert!(known_chars("rnbqkbnrPNBRQK12345678"));
    assert!(!known_chars("0"));
    assert!(!known_chars("9"));
    assert!(!known_chars("pp/pp"));
    assert!(!known_chars("ppx"));
}

#[test]
fn digits_side_by_side() {
    assert!(!adjacent_digits(""));
    assert!(!adjacent_digits("8"));
    assert!(!adjacent_digits("1p1p1p1p"));
    assert!(adjacent_digits("44"));
    assert!(adjacent_digits("p11"));
    assert!(adjacent_digits("11p"));
    assert!(!adjacent_digits("90"));
    assert!(!adjacent_digits("1x1"));
}

#[test]
fn rank_rows() {
    assert_eq!(rank_row("8"), Some([None; 8]));
    assert_eq!(
        rank_row("2P5"),
        Some([None, None, piece(PieceType::Pawn, Color::White), None, None, None, None, None])
    );
    assert_eq!(
        rank_row("k6K"),
        Some([
            piece(PieceType::King, Color::Black),
            None,
            None,
            None,
            None,
            None,
            None,
            piece(PieceType::King, Color::White),
        ])
    );
    assert_eq!(rank_row("44"), Some([None; 8]));
    assert_eq!(rank_row("7"), None);
    assert_eq!(rank_row(""), None);
    assert_eq!(rank_row("8p"), None);
    assert_eq!(rank_row("p8"), None);
    assert_eq!(rank_row("88"), None);
}
