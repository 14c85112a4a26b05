use chessboard::{ChessError, Color, GameState, Move, Piece, PieceKind, Square};

const START: &str = "rnbqkbnr/pppppppp/8/8/8/8/PPPPPPPP/RNBQKBNR w KQkq - 0 1";

fn same_position(a: &GameState, b: &GameState) -> bool {
    a.position.board == b.position.board
        && a.position.side_to_move == b.position.side_to_move
        && a.position.castling == b.position.castling
        && a.position.en_passant == b.position.en_passant
        && a.halfmove_clock == b.halfmove_clock
        && a.fullmove_number == b.fullmove_number
}

#[test]
fn standard_setup_serializes_as_expected() {
    let g = GameState::standard_setup();
    assert_eq!(g.to_serialized(), START);
}

#[test]
fn serialization_round_trips_through_a_game() {
    let mut g = GameState::standard_setup();
    let moves = [
        Move { from: Square { file: 4, rank: 1 }, to: Square { file: 4, rank: 3 }, promotion: None, is_castle: false, is_en_passant: false },
        Move { from: Square { file: 6, rank: 7 }, to: Square { file: 5, rank: 5 }, promotion: None, is_castle: false, is_en_passant: false },
        Move { from: Square { file: 6, rank: 0 }, to: Square { file: 5, rank: 2 }, promotion: None, is_castle: false, is_en_passant: false },
    ];
    for (k, m) in moves.iter().enumerate() {
        assert_eq!(g.apply_move(*m), Ok(()));
        let text = g.to_serialized();
        let back = GameState::from_serialized(&text).unwrap();
        assert!(same_position(&g, &back));
        assert_eq!(back.to_serialized(), text);
        if k == 0 {
            assert_eq!(text, "rnbqkbnr/pppppppp/8/8/4P3/8/PPPP1PPP/RNBQKBNR b KQkq e3 0 1");
        }
    }
    assert_eq!(g.to_serialized(), "rnbqkb1r/pppppppp/5n2/8/4P3/5N2/PPPP1PPP/RNBQKB1R b KQkq - 2 2");
}

#[test]
fn parsed_position_is_playable() {
    let g = GameState::from_serialized("4k3/8/8/8/8/8/8/4K2R w K - 12 40").unwrap();
    assert_eq!(g.side_to_move(), Color::White);
    assert_eq!(g.halfmove_clock, 12);
    assert_eq!(g.fullmove_number, 40);
    assert!(g.position.castling.white_king_side);
    assert!(!g.position.castling.black_queen_side);
    assert_eq!(g.piece_at(Square { file: 7, rank: 0 }).unwrap(), Some(Piece { color: Color::White, kind: PieceKind::Rook }));
    let castle = Move { from: Square { file: 4, rank: 0 }, to: Square { file: 6, rank: 0 }, promotion: None, is_castle: true, is_en_passant: false };
    assert!(g.is_legal(castle));
}

#[test]
fn malformed_text_is_a_parse_error() {
    let bad = [
        "",
        "hello",
        "rnbqkbnr/pppppppp/8/8/8/8/PPPPPPPP/RNBQKBNR",
        "rnbqkbnr/pppppppp/8/8/8/8/PPPPPPPP/RNBQKBNR x KQkq - 0 1",
        "rnbqkbnr/ppppppppp/8/8/8/8/PPPPPPPP/RNBQKBNR w KQkq - 0 1",
        "rnbqkbnr/pppppppp/9/8/8/8/PPPPPPPP/RNBQKBNR w KQkq - 0 1",
        "rnbqkbnr/pppppppp/8/8/8/8/PPPPPPPP w KQkq - 0 1",
        "rnbqkbnr/pppppppp/8/8/8/8/PPPPPPPP/RNBQKBNR w KQkq i3 0 1",
        "rnbqkbnr/pppppppp/8/8/8/8/PPPPPPPP/RNBQKBNR w KQkq - 0 4294967296",
        "rnbqkbnr/pppppppp/8/8/8/8/PPPPPPPP/RNBQKBNR w KQkq - 0 1 ",
        "rnbqkbnr/pppppppp/8/8/8/8/PPPPPPPP/RNBQKBNR w QK - 0 1",
    ];
    for text in bad.iter() {
        assert_eq!(GameState::from_serialized(text).err(), Some(ChessError::ParseError), "{}", text);
    }
    let big = GameState::from_serialized("rnbqkbnr/pppppppp/8/8/8/8/PPPPPPPP/RNBQKBNR w - - 0 4294967295").unwrap();
    assert_eq!(big.fullmove_number, u32::MAX);
    assert!(!big.position.castling.white_king_side);
}
