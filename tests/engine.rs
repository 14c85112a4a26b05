use chessboard::{ChessError, Color, GameState, GameStatus, Move, Piece, PieceKind, Square};

fn sq(file: u8, rank: u8) -> Square {
    Square { file, rank }
}

fn plain(ff: u8, fr: u8, tf: u8, tr: u8) -> Move {
    Move { from: sq(ff, fr), to: sq(tf, tr), promotion: None, is_castle: false, is_en_passant: false }
}

fn empty_game() -> GameState {
    let mut g = GameState::standard_setup();
    for r in 0..8u8 {
        for f in 0..8u8 {
            g.set(sq(f, r), None).unwrap();
        }
    }
    g.position.castling.white_king_side = false;
    g.position.castling.white_queen_side = false;
    g.position.castling.black_king_side = false;
    g.position.castling.black_queen_side = false;
    g
}

fn put(g: &mut GameState, f: u8, r: u8, color: Color, kind: PieceKind) {
    g.set(sq(f, r), Some(Piece { color, kind })).unwrap();
}

fn count(g: &GameState, color: Color) -> usize {
    let mut n = 0;
    for r in 0..8u8 {
        for f in 0..8u8 {
            if let Some(p) = g.piece_at(sq(f, r)).unwrap() {
                if p.color == color {
                    n += 1;
                }
            }
        }
    }
    n
}

#[test]
fn standard_opening_has_twenty_legal_moves() {
    let g = GameState::standard_setup();
    assert_eq!(g.legal_moves().len(), 20);
    assert_eq!(g.pseudo_legal_moves().len(), 20);
    assert_eq!(g.status(), GameStatus::InProgress);
}

#[test]
fn scholars_mate_ends_in_checkmate_for_white() {
    let mut g = GameState::standard_setup();
    let line = [
        plain(4, 1, 4, 3),
        plain(4, 6, 4, 4),
        plain(5, 0, 2, 3),
        plain(1, 7, 2, 5),
        plain(3, 0, 7, 4),
        plain(6, 7, 5, 5),
        plain(7, 4, 5, 6),
    ];
    for m in line.iter() {
        assert_eq!(g.apply_move(*m), Ok(()));
    }
    assert!(g.is_in_check());
    assert!(g.legal_moves().is_empty());
    assert_eq!(g.status(), GameStatus::Checkmate(Color::White));
    assert_eq!(g.history.len(), 7);
    assert_eq!(g.fullmove_number, 4);
    assert_eq!(g.apply_move(plain(4, 7, 4, 6)), Err(ChessError::GameOver));
}

#[test]
fn king_without_moves_and_not_in_check_is_stalemate() {
    let mut g = empty_game();
    put(&mut g, 7, 7, Color::Black, PieceKind::King);
    put(&mut g, 6, 5, Color::White, PieceKind::Queen);
    put(&mut g, 5, 6, Color::White, PieceKind::King);
    g.position.side_to_move = Color::Black;
    assert!(!g.is_in_check());
    assert!(g.legal_moves().is_empty());
    assert_eq!(g.status(), GameStatus::Stalemate);
}

#[test]
fn castling_refused_while_in_check() {
    let mut g = empty_game();
    put(&mut g, 4, 0, Color::White, PieceKind::King);
    put(&mut g, 7, 0, Color::White, PieceKind::Rook);
    put(&mut g, 4, 7, Color::Black, PieceKind::King);
    put(&mut g, 4, 5, Color::Black, PieceKind::Rook);
    g.position.castling.white_king_side = true;
    let castle = Move { from: sq(4, 0), to: sq(6, 0), promotion: None, is_castle: true, is_en_passant: false };
    assert!(g.pseudo_legal_moves().contains(&castle));
    assert!(!g.is_legal(castle));
    assert!(!g.legal_moves().contains(&castle));
    // with the checking rook gone, castling is legal
    g.set(sq(4, 5), None).unwrap();
    put(&mut g, 0, 5, Color::Black, PieceKind::Rook);
    assert!(g.is_legal(castle));
    assert_eq!(g.apply_move(castle), Ok(()));
    assert_eq!(g.piece_at(sq(6, 0)).unwrap(), Some(Piece { color: Color::White, kind: PieceKind::King }));
    assert_eq!(g.piece_at(sq(5, 0)).unwrap(), Some(Piece { color: Color::White, kind: PieceKind::Rook }));
    assert_eq!(g.piece_at(sq(7, 0)).unwrap(), None);
    assert!(!g.position.castling.white_king_side);
}

#[test]
fn en_passant_only_right_after_double_push() {
    let mut g = GameState::standard_setup();
    for m in [plain(4, 1, 4, 3), plain(0, 6, 0, 5), plain(4, 3, 4, 4), plain(3, 6, 3, 4)] {
        assert_eq!(g.apply_move(m), Ok(()));
    }
    assert_eq!(g.position.en_passant, Some(sq(3, 5)));
    let ep = Move { from: sq(4, 4), to: sq(3, 5), promotion: None, is_castle: false, is_en_passant: true };
    assert!(g.legal_moves().contains(&ep));
    // one ply later the capture is gone
    let mut later = GameState::standard_setup();
    for m in [plain(4, 1, 4, 3), plain(0, 6, 0, 5), plain(4, 3, 4, 4), plain(3, 6, 3, 4), plain(6, 0, 5, 2), plain(0, 5, 0, 4)] {
        assert_eq!(later.apply_move(m), Ok(()));
    }
    assert_eq!(later.position.en_passant, None);
    assert!(!later.legal_moves().contains(&ep));
    assert_eq!(later.apply_move(ep), Err(ChessError::IllegalMove));
    // taking it in time removes the pawn beside the destination
    let black_before = count(&g, Color::Black);
    assert_eq!(g.apply_move(ep), Ok(()));
    assert_eq!(g.piece_at(sq(3, 4)).unwrap(), None);
    assert_eq!(count(&g, Color::Black), black_before - 1);
    assert_eq!(g.halfmove_clock, 0);
}

#[test]
fn capture_removes_exactly_one_enemy_piece() {
    let mut g = GameState::standard_setup();
    for m in [plain(4, 1, 4, 3), plain(3, 6, 3, 4)] {
        assert_eq!(g.apply_move(m), Ok(()));
        assert_eq!(count(&g, Color::White), 16);
        assert_eq!(count(&g, Color::Black), 16);
    }
    assert_eq!(g.apply_move(plain(4, 3, 3, 4)), Ok(()));
    assert_eq!(count(&g, Color::Black), 15);
    assert_eq!(count(&g, Color::White), 16);
}

#[test]
fn invalid_square_is_reported() {
    let g = GameState::standard_setup();
    assert_eq!(g.piece_at(sq(8, 0)), Err(ChessError::InvalidSquare));
    assert_eq!(g.pseudo_legal_moves_from(sq(0, 9)).err(), Some(ChessError::InvalidSquare));
    assert_eq!(Square::new(3, 8), Err(ChessError::InvalidSquare));
    assert_eq!(Square::new(3, 7), Ok(sq(3, 7)));
    assert_eq!(g.pseudo_legal_moves_from(sq(6, 0)).unwrap().len(), 2);
}

#[test]
fn illegal_move_leaves_state_unchanged() {
    let mut g = GameState::standard_setup();
    assert_eq!(g.apply_move(plain(4, 1, 4, 4)), Err(ChessError::IllegalMove));
    assert_eq!(g.history.len(), 0);
    assert_eq!(g.side_to_move(), Color::White);
}

#[test]
fn promotion_offers_four_kinds() {
    let mut g = empty_game();
    put(&mut g, 4, 0, Color::White, PieceKind::King);
    put(&mut g, 4, 7, Color::Black, PieceKind::King);
    put(&mut g, 0, 6, Color::White, PieceKind::Pawn);
    let moves = g.pseudo_legal_moves_from(sq(0, 6)).unwrap();
    assert_eq!(moves.len(), 4);
    let m = Move { from: sq(0, 6), to: sq(0, 7), promotion: Some(PieceKind::Knight), is_castle: false, is_en_passant: false };
    assert_eq!(g.apply_move(m), Ok(()));
    assert_eq!(g.piece_at(sq(0, 7)).unwrap(), Some(Piece { color: Color::White, kind: PieceKind::Knight }));
}

#[test]
fn bare_kings_are_a_draw() {
    let mut g = empty_game();
    put(&mut g, 4, 0, Color::White, PieceKind::King);
    put(&mut g, 4, 7, Color::Black, PieceKind::King);
    put(&mut g, 2, 2, Color::White, PieceKind::Bishop);
    assert_eq!(g.status(), GameStatus::DrawByRule(chessboard::DrawReason::InsufficientMaterial));
    put(&mut g, 2, 3, Color::White, PieceKind::Rook);
    assert_eq!(g.status(), GameStatus::InProgress);
    g.halfmove_clock = 100;
    assert_eq!(g.status(), GameStatus::DrawByRule(chessboard::DrawReason::FiftyMove));
}

#[test]
fn threefold_repetition_is_a_draw() {
    let mut g = GameState::standard_setup();
    let shuffle = [plain(6, 0, 5, 2), plain(6, 7, 5, 5), plain(5, 2, 6, 0), plain(5, 5, 6, 7)];
    for m in shuffle.iter() {
        assert_eq!(g.apply_move(*m), Ok(()));
    }
    assert_eq!(g.status(), GameStatus::InProgress);
    for m in shuffle.iter() {
        assert_eq!(g.apply_move(*m), Ok(()));
    }
    assert_eq!(g.status(), GameStatus::DrawByRule(chessboard::DrawReason::Repetition));
}
