use chess_core::board::NO_EN_PASSANT;
use chess_core::fen::FenError;
use chess_core::play::FLAG_CASTLE_KING;
use chess_core::play::FLAG_DOUBLE_PUSH;
use chess_core::play::FLAG_EN_PASSANT;
use chess_core::play::FLAG_PROMO_BISHOP;
use chess_core::play::FLAG_PROMO_KNIGHT;
use chess_core::play::FLAG_PROMO_QUEEN;
use chess_core::play::FLAG_PROMO_ROOK;
use chess_core::play::FLAG_QUIET;
use chess_core::Colour;
use chess_core::Match;
use chess_core::Piece;
use chess_core::PieceType;
use chess_core::Play;

const START_FEN: &str = "rnbqkbnr/pppppppp/8/8/8/8/PPPPPPPP/RNBQKBNR w KQkq -";

fn total_moves(m: &Match) -> usize {
    let mut count = 0;
    for idx in 0..64u8 {
        count += m.get_moves(idx).len();
    }
    count
}

#[test]
fn piece_codec_round_trip() {
    for kind in 0..=6u8 {
        for colour in 0..=1u8 {
            let p = Piece::new(kind, colour);
            assert_eq!(p.get_type(), PieceType::from_code(kind).unwrap());
            if colour == 0 {
                assert_eq!(p.get_colour(), Colour::White);
            } else {
                assert_eq!(p.get_colour(), Colour::Black);
            }
        }
    }
}

#[test]
fn piece_glyphs() {
    assert_eq!(Piece::new(1, 0).to_glyph(), 'P');
    assert_eq!(Piece::new(1, 1).to_glyph(), 'p');
    assert_eq!(Piece::new(6, 0).to_glyph(), 'K');
    assert_eq!(Piece::new(5, 1).to_glyph(), 'q');
    assert_eq!(Piece::new(0, 0).to_glyph(), ' ');
}

#[test]
fn piece_type_from_code_rejects_unknown() {
    assert_eq!(PieceType::from_code(7), None);
    assert_eq!(Colour::from_code(2), None);
}

#[test]
fn empty_match_is_blank() {
    let m = Match::empty();
    for sq in 0..64 {
        assert_eq!(m.board[sq].0, 0);
    }
    assert_eq!(m.turn, 0);
    assert_eq!(m.castling_rights, 0);
    assert_eq!(m.en_passant, 0);
}

#[test]
fn play_default_is_sentinel() {
    let p = Play::default();
    assert_eq!((p.org, p.dst, p.flag), (255, 255, 0));
}

#[test]
fn default_match_serializes_to_start_fen() {
    let m = Match::default();
    assert_eq!(m.to_fen(), START_FEN);
}

#[test]
fn round_trip_start_position() {
    let m = Match::from_fen(START_FEN);
    assert_eq!(m.to_fen(), START_FEN);
}

#[test]
fn round_trip_various_positions() {
    let fens = [
        "rnbqkbnr/p1pppppp/8/Pp6/8/8/1PPPPPPP/RNBQKBNR w KQkq b6",
        "4k3/8/8/8/8/8/8/R3K2R w KQ -",
        "8/8/8/8/8/8/8/8 w - -",
        "r3k2r/8/8/3pP3/8/8/8/R3K2R b Kq d6",
        "4k3/P7/8/8/8/8/8/4K3 w - -",
    ];
    for fen in fens {
        let m = Match::from_fen(fen);
        assert_eq!(m.to_fen(), fen);
    }
}

#[test]
fn parse_reports_field_errors() {
    assert_eq!(
        Match::try_from_fen("rnbqkbnr/pppppppp/8/8/8/8/PPPPPPPP/RNBQKBN w KQkq -").unwrap_err(),
        FenError::BadRank
    );
    assert_eq!(
        Match::try_from_fen("rnbqkbnr/pppppppp/8/8/8/8/8/PPPPPPPP/RNBQKBNR w KQkq -").unwrap_err(),
        FenError::BadRank
    );
    assert_eq!(
        Match::try_from_fen("xnbqkbnr/pppppppp/8/8/8/8/PPPPPPPP/RNBQKBNR w KQkq -").unwrap_err(),
        FenError::BadPiece
    );
    assert_eq!(
        Match::try_from_fen("rnbqkbnr/pppppppp/8/8/8/8/PPPPPPPP/RNBQKBNR").unwrap_err(),
        FenError::BadFieldCount
    );
    assert_eq!(
        Match::try_from_fen("rnbqkbnr/pppppppp/8/8/8/8/PPPPPPPP/RNBQKBNR x KQkq -").unwrap_err(),
        FenError::BadTurn
    );
    assert_eq!(
        Match::try_from_fen("rnbqkbnr/pppppppp/8/8/8/8/PPPPPPPP/RNBQKBNR w xQkq -").unwrap_err(),
        FenError::BadCastling
    );
    assert_eq!(
        Match::try_from_fen("rnbqkbnr/pppppppp/8/8/8/8/PPPPPPPP/RNBQKBNR w KQkq i9").unwrap_err(),
        FenError::BadEnPassant
    );
}

#[test]
fn parse_ignores_clock_fields() {
    let m = Match::from_fen("rnbqkbnr/pppppppp/8/8/8/8/PPPPPPPP/RNBQKBNR w KQkq - 0 1");
    assert_eq!(m.to_fen(), START_FEN);
}

#[test]
fn starting_position_has_twenty_moves() {
    let m = Match::default();
    assert_eq!(total_moves(&m), 20);
}

#[test]
fn perft_depth_two_is_four_hundred() {
    let m = Match::default();
    let mut total = 0;
    for idx in 0..64u8 {
        for play in m.get_moves(idx) {
            let mut next = m;
            next.execute(play);
            total += total_moves(&next);
        }
    }
    assert_eq!(total, 400);
}

#[test]
fn double_push_sets_en_passant_then_clears() {
    let mut m = Match::default();
    // e2-e4
    m.execute(Play { org: 12, dst: 28, flag: FLAG_DOUBLE_PUSH });
    assert_eq!(m.en_passant, 20);
    // knight g8-f6
    m.execute(Play { org: 62, dst: 45, flag: FLAG_QUIET });
    assert_eq!(m.en_passant, NO_EN_PASSANT);
}

#[test]
fn en_passant_capture_offered_and_executed() {
    // black just pushed b7-b5 past the white a5 pawn
    let fen = "rnbqkbnr/p1pppppp/8/Pp6/8/8/1PPPPPPP/RNBQKBNR w KQkq b6 0 1";
    let m = Match::from_fen(fen);
    assert_eq!(m.en_passant, 41);
    let moves = m.get_moves(32);
    let ep = Play { org: 32, dst: 41, flag: FLAG_EN_PASSANT };
    assert!(moves.contains(&ep));
    let mut next = m;
    next.execute(ep);
    // the b5 pawn is gone, the capturing pawn stands on b6
    assert_eq!(next.board[33].0, 0);
    assert_eq!(next.board[41].0, 1);
    assert_eq!(next.turn, 1);
}

#[test]
fn en_passant_flag_not_offered_later() {
    // same position but with the target already expired
    let m = Match::from_fen("rnbqkbnr/p1pppppp/8/Pp6/8/8/1PPPPPPP/RNBQKBNR w KQkq -");
    let moves = m.get_moves(32);
    assert!(moves.iter().all(|p| p.flag != FLAG_EN_PASSANT));
}

#[test]
fn castling_rights_only_ever_shrink() {
    let mut m = Match::from_fen("r3k2r/8/8/8/8/8/8/R3K2R w KQkq -");
    let mut rights = m.castling_rights;
    let script = [
        Play { org: 4, dst: 12, flag: FLAG_QUIET },  // white king up
        Play { org: 63, dst: 55, flag: FLAG_QUIET }, // black h-rook up
        Play { org: 0, dst: 8, flag: FLAG_QUIET },   // white a-rook up
        Play { org: 56, dst: 48, flag: FLAG_QUIET }, // black a-rook up
    ];
    for play in script {
        m.execute(play);
        let new_rights = m.castling_rights;
        assert_eq!(new_rights & rights, new_rights);
        rights = new_rights;
    }
    assert_eq!(rights, 0);
}

#[test]
fn king_side_castle_moves_rook() {
    let mut m = Match::from_fen("4k3/8/8/8/8/8/8/R3K2R w KQ -");
    let moves = m.get_moves(4);
    let castle = Play { org: 4, dst: 6, flag: FLAG_CASTLE_KING };
    assert!(moves.contains(&castle));
    m.execute(castle);
    assert_eq!(m.board[6].0, 6); // king on g1
    assert_eq!(m.board[5].0, 4); // rook on f1
    assert_eq!(m.board[7].0, 0); // h1 empty
    assert_eq!(m.board[4].0, 0); // e1 empty
    assert_eq!(m.castling_rights, 0);
}

#[test]
fn castle_through_check_excluded() {
    // black rook on f2 covers f1: king-side castle must not be offered
    let m = Match::from_fen("4k3/8/8/8/8/8/5r2/4K2R w K -");
    let moves = m.get_moves(4);
    assert!(moves.iter().all(|p| p.flag != FLAG_CASTLE_KING));
}

#[test]
fn checked_king_moves_stay_safe() {
    // black rook on e2 checks the white king on e1
    let m = Match::from_fen("4k3/8/8/8/8/8/4r3/4K3 w - -");
    let moves = m.get_moves(4);
    let mut dsts: Vec<u8> = moves.iter().map(|p| p.dst).collect();
    dsts.sort();
    // d1, f1, and the rook capture on e2; d2 and f2 stay attacked
    assert_eq!(dsts, vec![3, 5, 12]);
}

#[test]
fn pinned_piece_cannot_expose_king() {
    // the white bishop on e2 shields the king from the e8 rook
    let m = Match::from_fen("4r1k1/8/8/8/8/8/4B3/4K3 w - -");
    let moves = m.get_moves(12);
    assert!(moves.is_empty());
}

#[test]
fn promotion_offers_four_moves() {
    let m = Match::from_fen("4k3/P7/8/8/8/8/8/4K3 w - -");
    let moves = m.get_moves(48);
    assert_eq!(moves.len(), 4);
    let mut flags: Vec<u8> = moves.iter().map(|p| p.flag).collect();
    flags.sort();
    assert_eq!(
        flags,
        vec![FLAG_PROMO_KNIGHT, FLAG_PROMO_BISHOP, FLAG_PROMO_ROOK, FLAG_PROMO_QUEEN]
    );
    assert!(moves.iter().all(|p| p.dst == 56));
}

#[test]
fn promotion_replaces_piece() {
    let mut m = Match::from_fen("4k3/P7/8/8/8/8/8/4K3 w - -");
    m.execute(Play { org: 48, dst: 56, flag: FLAG_PROMO_QUEEN });
    assert_eq!(m.board[56].0, 5); // white queen on a8
    assert_eq!(m.board[48].0, 0);
}

#[test]
fn fen_after_first_move_records_en_passant_target() {
    let mut m = Match::default();
    m.execute(Play { org: 12, dst: 28, flag: FLAG_DOUBLE_PUSH });
    assert_eq!(
        m.to_fen(),
        "rnbqkbnr/pppppppp/8/8/4P3/8/PPPP1PPP/RNBQKBNR b KQkq e3"
    );
}

#[test]
fn knight_on_its_home_square_has_two_moves() {
    let m = Match::default();
    let moves = m.get_moves(1);
    let mut dsts: Vec<u8> = moves.iter().map(|p| p.dst).collect();
    dsts.sort();
    assert_eq!(dsts, vec![16, 18]); // a3 and c3
}

#[test]
fn rook_ray_stops_at_blockers() {
    let m = Match::from_fen("4k3/8/8/8/R2p4/8/8/4K3 w - -");
    let moves = m.get_moves(24); // rook on a4
    // up the a-file, down to a1..a3, and along the rank up to the d4 capture
    assert_eq!(moves.len(), 3 + 4 + 3);
    assert!(moves.iter().any(|p| p.dst == 27)); // captures d4
    assert!(moves.iter().all(|p| p.dst != 28)); // never past it
}

#[test]
fn wrong_turn_or_empty_square_yields_no_moves() {
    let m = Match::default();
    assert!(m.get_moves(48).is_empty()); // black pawn, white to move
    assert!(m.get_moves(24).is_empty()); // empty square
    assert!(m.get_moves(200).is_empty()); // out of range
}
