use lesserpyon::game::{is_illegal, pick, te_from_input, Sikou};
use lesserpyon::{KomaInf, Kyokumen, Te};
use KomaInf::{EFU, EGI, EHI, EKA, EKE, EKI, EKY, EMP, EOU, SFU, SGI, SHI, SKA, SKE, SKI, SKY, SOU};

fn hirate() -> [[KomaInf; 9]; 9] {
    [
        [EKY, EKE, EGI, EKI, EOU, EKI, EGI, EKE, EKY],
        [EMP, EHI, EMP, EMP, EMP, EMP, EMP, EKA, EMP],
        [EFU, EFU, EFU, EFU, EFU, EFU, EFU, EFU, EFU],
        [EMP, EMP, EMP, EMP, EMP, EMP, EMP, EMP, EMP],
        [EMP, EMP, EMP, EMP, EMP, EMP, EMP, EMP, EMP],
        [EMP, EMP, EMP, EMP, EMP, EMP, EMP, EMP, EMP],
        [SFU, SFU, SFU, SFU, SFU, SFU, SFU, SFU, SFU],
        [EMP, SKA, EMP, EMP, EMP, EMP, EMP, SHI, EMP],
        [SKY, SKE, SGI, SKI, SOU, SKI, SGI, SKE, SKY],
    ]
}

fn empty_board() -> [[KomaInf; 9]; 9] {
    [[EMP; 9]; 9]
}

/// The row and column of the picture that hold square `sq`.
fn cell(sq: usize) -> (usize, usize) {
    (sq % 16 - 1, 9 - sq / 16)
}

fn same_maps(a: &Kyokumen, b: &Kyokumen) -> bool {
    a.control_s == b.control_s && a.control_e == b.control_e
}

#[test]
fn set_up_places_the_pieces() {
    let k = Kyokumen::from_3(0, hirate(), [0; 40]);
    assert_eq!(k.ban[0x59], SOU);
    assert_eq!(k.ban[0x51], EOU);
    assert_eq!(k.ban[0x88], SKA);
    assert_eq!(k.ban[0x28], SHI);
    assert_eq!(k.ban[0x82], EHI);
    assert_eq!(k.ban[0x22], EKA);
    assert_eq!(k.ban[0x99], SKY);
    assert_eq!(k.ban[0x00], KomaInf::Wall);
    assert_eq!(k.ban[0x5a], KomaInf::Wall);
    assert_eq!(k.banpadding, [KomaInf::Wall; 16]);
    assert_eq!(k.king_s, 0x59);
    assert_eq!(k.king_e, 0x51);
    assert_eq!(k.tesu, 0);
}

#[test]
fn set_up_computes_the_attack_maps() {
    let k = Kyokumen::from_3(0, hirate(), [0; 40]);
    // Only the pawn on 7g reaches 7f: step bit 6.
    assert_eq!(k.control_s[0x76], 1 << 6);
    // The rook on 2h slides up to its own pawn on 2g (slide bit 16 + 6).
    assert_eq!(k.control_s[0x27] & (1 << 22), 1 << 22);
    assert_eq!(k.control_s[0x26] & (1 << 22), 0);
    // Nothing of the second player reaches 5e.
    assert_eq!(k.control_e[0x55], 0);
    assert!(k.is_control_e(0x54));
    assert!(!k.is_control_s(0x54));
}

#[test]
fn queries_on_the_starting_position() {
    let k = Kyokumen::from_3(0, hirate(), [0; 40]);
    assert!(k.is_s(0x77));
    assert!(k.is_e(0x73));
    assert!(!k.is_exists(0x55));
    assert!(k.is_exists_s_or_e(0x51, KomaInf::Enemy));
    assert!(k.can_move(6, 0x76));
    assert!(!k.can_move(1, 0x76));
    assert!(k.can_jump(6, 0x77));
    assert!(k.can_promote(0x28));
    assert!(!k.can_promote(0x59));
    assert_eq!(Kyokumen::get_offset_sq(0x55, 1), 0x54);
    assert_eq!(k.get_koma_by_offset_sq(0x78, 1), SFU);
    assert_eq!(k.search(0x55, -1), 0x53);
    assert_eq!(k.search(0x55, 1), 0x57);
    assert_eq!(k.koma_at(-3), KomaInf::Wall);
    assert!(k.walls_intact());
    assert!(k.kings_placed());
    assert!(k.ready(KomaInf::Self_));
    assert!(k.ready(KomaInf::Enemy));
}

#[test]
fn thirty_moves_from_the_start() {
    let mut k = Kyokumen::from_3(0, hirate(), [0; 40]);
    let mut buf = [Te::default(); 600];
    assert_eq!(k.make_legal_moves(KomaInf::Self_, &mut buf, &mut None), 30);
    let mut buf = [Te::default(); 600];
    assert_eq!(k.make_legal_moves(KomaInf::Enemy, &mut buf, &mut None), 30);
    let moves = k.legal_moves(KomaInf::Self_, &None);
    assert_eq!(moves.len(), 30);
    assert!(moves.contains(&Te::from_4(0x77, 0x76, SFU, EMP)));
    assert!(moves.contains(&Te::from_4(0x28, 0x68, SHI, EMP)));
    assert!(!moves.contains(&Te::from_4(0x88, 0x77, SKA, EMP)));
}

#[test]
fn no_pins_at_the_start() {
    let k = Kyokumen::from_3(0, hirate(), [0; 40]);
    let mut pin = [5isize; 176];
    k.make_pin_inf(&mut pin);
    for sq in 0x11..=0x99 {
        assert_eq!(pin[sq], 0);
    }
    assert_eq!(pin[0x10], 5);
    assert_eq!(pin[0x9a], 5);
}

#[test]
fn a_pinned_piece_keeps_its_line() {
    let mut b = empty_board();
    for (sq, p) in [(0x59, SOU), (0x51, EOU), (0x52, EKI), (0x55, SHI)] {
        let (r, c) = cell(sq);
        b[r][c] = p;
    }
    let k = Kyokumen::from_3(0, b, [0; 40]);
    let mut pin = [0isize; 176];
    k.make_pin_inf(&mut pin);
    assert_eq!(pin[0x52], -1);
    assert_eq!(pin[0x53], 0);
}

#[test]
fn a_first_player_piece_is_pinned_too() {
    let mut b = empty_board();
    for (sq, p) in [(0x59, SOU), (0x11, EOU), (0x58, SKI), (0x55, EHI)] {
        let (r, c) = cell(sq);
        b[r][c] = p;
    }
    let k = Kyokumen::from_3(0, b, [0; 40]);
    let mut pin = [0isize; 176];
    k.make_pin_inf(&mut pin);
    assert_eq!(pin[0x58], -1);
    for q in 0..176 {
        if q != 0x58 {
            assert_eq!(pin[q], 0);
        }
    }
}

#[test]
fn a_pinned_gold_keeps_to_its_file() {
    let mut b = empty_board();
    for (sq, p) in [(0x59, SOU), (0x11, EOU), (0x58, SKI), (0x55, EHI)] {
        let (r, c) = cell(sq);
        b[r][c] = p;
    }
    let mut k = Kyokumen::from_3(0, b, [0; 40]);
    let mut buf = [Te::default(); 600];
    assert_eq!(k.make_legal_moves(KomaInf::Self_, &mut buf, &mut None), 5);
    let moves = k.legal_moves(KomaInf::Self_, &None);
    assert!(moves.contains(&Te::from_4(0x58, 0x57, SKI, EMP)));
    assert!(!moves.contains(&Te::from_4(0x58, 0x48, SKI, EMP)));
}

#[test]
fn dragon_and_horse_slide() {
    let mut b = empty_board();
    for (sq, p) in [(0x99, KomaInf::SRY), (0x19, SOU), (0x11, EOU)] {
        let (r, c) = cell(sq);
        b[r][c] = p;
    }
    let mut k = Kyokumen::from_3(0, b, [0; 40]);
    let mut buf = [Te::default(); 600];
    assert_eq!(k.make_legal_moves(KomaInf::Self_, &mut buf, &mut None), 19);
    let mut b = empty_board();
    for (sq, p) in [(0x55, KomaInf::SUM), (0x19, SOU), (0x91, EOU)] {
        let (r, c) = cell(sq);
        b[r][c] = p;
    }
    let k = Kyokumen::from_3(0, b, [0; 40]);
    let moves = {
        let mut k = k;
        k.legal_moves(KomaInf::Self_, &None)
    };
    assert!(moves.contains(&Te::from_4(0x55, 0x11, KomaInf::SUM, EMP)));
    assert!(moves.contains(&Te::from_4(0x55, 0x54, KomaInf::SUM, EMP)));
    assert!(!moves.contains(&Te::from_4(0x55, 0x53, KomaInf::SUM, EMP)));
}

#[test]
fn pawn_drop_mate_is_not_generated() {
    let mut b = empty_board();
    for (sq, p) in [(0x11, EOU), (0x21, EKE), (0x22, EGI), (0x13, SKI), (0x59, SOU)] {
        let (r, c) = cell(sq);
        b[r][c] = p;
    }
    let mut hand = [0usize; 40];
    hand[17] = 1;
    let mut k = Kyokumen::from_3(0, b, hand);
    let moves = k.legal_moves(KomaInf::Self_, &None);
    assert!(!moves.contains(&Te::from_4(0, 0x12, SFU, EMP)));
    assert!(moves.contains(&Te::from_4(0, 0x55, SFU, EMP)));
    assert_eq!(k.ban[0x12], EMP);
}

#[test]
fn answering_a_check_leaves_the_position() {
    let mut b = empty_board();
    for (sq, p) in [(0x59, SOU), (0x51, EOU), (0x52, EKY), (0x49, SKI)] {
        let (r, c) = cell(sq);
        b[r][c] = p;
    }
    let mut hand = [0usize; 40];
    hand[17] = 1;
    let mut k = Kyokumen::from_3(0, b, hand);
    let before = Kyokumen::from_3(0, b, hand);
    assert_ne!(k.control_e[0x59], 0);
    let moves = k.legal_moves(KomaInf::Self_, &None);
    assert_eq!(k.ban, before.ban);
    assert!(same_maps(&k, &before));
    assert!(moves.contains(&Te::from_4(0x49, 0x58, SKI, EMP)));
    assert!(moves.contains(&Te::from_4(0, 0x55, SFU, EMP)));
    assert!(!moves.contains(&Te::from_4(0, 0x52, SFU, EMP)));
    for i in 0..moves.len() {
        for j in i + 1..moves.len() {
            assert_ne!(moves[i], moves[j]);
        }
    }
}

#[test]
fn pawn_push_updates_board_and_maps() {
    let mut k = Kyokumen::from_3(0, hirate(), [0; 40]);
    let te = Te::from_4(0x77, 0x76, SFU, EMP);
    k.move_(KomaInf::Self_, &te);
    assert_eq!(k.ban[0x77], EMP);
    assert_eq!(k.ban[0x76], SFU);
    assert_eq!(k.tesu, 1);
    assert_eq!(k.king_s, 0x59);
    let mut b = hirate();
    let (r, c) = cell(0x77);
    b[r][c] = EMP;
    let (r, c) = cell(0x76);
    b[r][c] = SFU;
    let fresh = Kyokumen::from_3(1, b, [0; 40]);
    assert!(same_maps(&k, &fresh));
    // The bishop on 8h now sees along the opened diagonal to 3c.
    assert_ne!(k.control_s[0x33] & (1 << 23), 0);
}

#[test]
fn capture_with_promotion_goes_to_hand() {
    let mut b = empty_board();
    for (sq, p) in [(0x59, SOU), (0x51, EOU), (0x28, SHI), (0x23, EFU), (0x33, EKI)] {
        let (r, c) = cell(sq);
        b[r][c] = p;
    }
    let mut k = Kyokumen::from_3(10, b, [0; 40]);
    let te = Te::from_5(0x28, 0x23, SHI, EFU, 1);
    k.move_(KomaInf::Self_, &te);
    assert_eq!(k.ban[0x28], EMP);
    assert_eq!(k.ban[0x23], KomaInf::SRY);
    assert_eq!(k.hand[17], 1);
    assert_eq!(k.tesu, 11);
    let mut b2 = empty_board();
    for (sq, p) in [(0x59, SOU), (0x51, EOU), (0x23, KomaInf::SRY), (0x33, EKI)] {
        let (r, c) = cell(sq);
        b2[r][c] = p;
    }
    let mut hand = [0usize; 40];
    hand[17] = 1;
    let fresh = Kyokumen::from_3(11, b2, hand);
    assert!(same_maps(&k, &fresh));
}

#[test]
fn taking_a_promoted_piece_gives_back_its_kind() {
    let mut b = empty_board();
    for (sq, p) in [(0x59, SOU), (0x51, EOU), (0x57, SKI), (0x56, KomaInf::EUM)] {
        let (r, c) = cell(sq);
        b[r][c] = p;
    }
    let mut k = Kyokumen::from_3(0, b, [0; 40]);
    k.move_(KomaInf::Self_, &Te::from_4(0x57, 0x56, SKI, KomaInf::EUM));
    assert_eq!(k.hand[16 + 6], 1);
    assert_eq!(k.ban[0x56], SKI);
}

#[test]
fn drop_and_king_move_keep_maps_in_step() {
    let mut b = empty_board();
    for (sq, p) in [(0x59, SOU), (0x51, EOU), (0x22, EKA)] {
        let (r, c) = cell(sq);
        b[r][c] = p;
    }
    let mut hand = [0usize; 40];
    hand[17] = 2;
    let mut k = Kyokumen::from_3(0, b, hand);
    k.move_(KomaInf::Self_, &Te::from_4(0, 0x55, SFU, EMP));
    assert_eq!(k.hand[17], 1);
    assert_eq!(k.ban[0x55], SFU);
    k.move_(KomaInf::Enemy, &Te::from_4(0x51, 0x42, EOU, EMP));
    assert_eq!(k.king_e, 0x42);
    assert_eq!(k.tesu, 2);
    let mut b2 = empty_board();
    for (sq, p) in [(0x59, SOU), (0x42, EOU), (0x22, EKA), (0x55, SFU)] {
        let (r, c) = cell(sq);
        b2[r][c] = p;
    }
    let mut hand2 = [0usize; 40];
    hand2[17] = 1;
    let fresh = Kyokumen::from_3(2, b2, hand2);
    assert!(same_maps(&k, &fresh));
}

#[test]
fn check_by_a_rook_is_answered_by_king_moves_and_interposition() {
    let mut b = empty_board();
    for (sq, p) in [(0x59, SOU), (0x51, EOU), (0x49, SKI), (0x55, EHI)] {
        let (r, c) = cell(sq);
        b[r][c] = p;
    }
    let mut k = Kyokumen::from_3(0, b, [0; 40]);
    assert_ne!(k.control_e[0x59], 0);
    assert!(k.ready(KomaInf::Self_));
    let moves = k.legal_moves(KomaInf::Self_, &None);
    assert_eq!(moves.len(), 4);
    assert!(moves.contains(&Te::from_4(0x49, 0x58, SKI, EMP)));
    assert!(moves.contains(&Te::from_4(0x59, 0x48, SOU, EMP)));
    assert!(moves.contains(&Te::from_4(0x59, 0x68, SOU, EMP)));
    assert!(moves.contains(&Te::from_4(0x59, 0x69, SOU, EMP)));
    let mut buf = [Te::default(); 600];
    let pin = [0isize; 176];
    let kiki = k.control_e[0x59];
    assert_eq!(k.anti_check(KomaInf::Self_, &mut buf, &pin, kiki), 4);
}

#[test]
fn a_check_from_the_side_is_answered() {
    let mut b = empty_board();
    for (sq, p) in [(0x59, SOU), (0x51, EOU), (0x69, EKI)] {
        let (r, c) = cell(sq);
        b[r][c] = p;
    }
    let mut k = Kyokumen::from_3(0, b, [0; 40]);
    assert_ne!(k.control_e[0x59], 0);
    assert!(k.ready(KomaInf::Self_));
    let moves = k.legal_moves(KomaInf::Self_, &None);
    assert!(moves.contains(&Te::from_4(0x59, 0x69, SOU, EKI)));
}

#[test]
fn illegal_means_not_in_the_list() {
    let mut buf = [Te::default(); 600];
    buf[0] = Te::from_4(0x77, 0x76, SFU, EMP);
    buf[1] = Te::from_4(0x27, 0x26, SFU, EMP);
    assert!(!is_illegal(Te::from_4(0x27, 0x26, SFU, EFU), 2, &mut buf));
    assert!(is_illegal(Te::from_4(0x27, 0x25, SFU, EMP), 2, &mut buf));
    assert!(is_illegal(Te::from_4(0x27, 0x26, SFU, EMP), 1, &mut buf));
}

#[test]
fn typed_moves_are_read_as_decimal() {
    let k = Kyokumen::from_3(0, hirate(), [0; 40]);
    let chars: Vec<char> = "7776\n".chars().collect();
    let te = te_from_input(&k, &chars).unwrap();
    assert_eq!(te.from, 77);
    assert_eq!(te.to, 76);
    assert_eq!(te.koma, KomaInf::Wall.as_u8());
    assert_eq!(te.promote, 0);
    let chars: Vec<char> = "0155".chars().collect();
    let te = te_from_input(&k, &chars).unwrap();
    assert_eq!(te.from, 0);
    assert_eq!(te.to, 55);
    assert_eq!(te.koma, SFU.as_u8());
    assert_eq!(te.capture, k.ban[55].as_u8());
    let chars: Vec<char> = "7".chars().collect();
    assert!(te_from_input(&k, &chars).is_none());
}

#[test]
fn a_trailing_star_promotes() {
    let k = Kyokumen::from_3(0, hirate(), [0; 40]);
    let chars: Vec<char> = "2324*\n".chars().collect();
    let te = te_from_input(&k, &chars).unwrap();
    assert_eq!(te.from, 23);
    assert_eq!(te.to, 24);
    assert_eq!(te.promote, 1);
    let chars: Vec<char> = "2324\n".chars().collect();
    assert_eq!(te_from_input(&k, &chars).unwrap().promote, 0);
}

#[test]
fn pick_takes_the_index_modulo_the_count() {
    let mut buf = [Te::default(); 600];
    buf[0] = Te::from_4(0x77, 0x76, SFU, EMP);
    buf[1] = Te::from_4(0x27, 0x26, SFU, EMP);
    buf[2] = Te::from_4(0x17, 0x16, SFU, EMP);
    assert_eq!(pick(&buf, 3, 7), buf[1]);
    assert_eq!(pick(&buf, 3, 9), buf[0]);
}

#[test]
fn the_thinker_plays_a_generated_move() {
    let mut k = Kyokumen::from_3(0, hirate(), [0; 40]);
    let mut buf = [Te::default(); 600];
    let n = k.make_legal_moves(KomaInf::Enemy, &mut buf, &mut None);
    let te = Sikou::default().think(KomaInf::Enemy, &mut k);
    assert!(!is_illegal(te, n, &mut buf));
}

/// The 9 x 9 picture of a position's board.
fn picture(k: &Kyokumen) -> [[KomaInf; 9]; 9] {
    let mut b = empty_board();
    for r in 0..9 {
        for c in 0..9 {
            b[r][c] = k.ban[16 * (9 - c) + r + 1];
        }
    }
    b
}

#[test]
fn every_generated_move_keeps_the_maps_in_agreement() {
    for side in [KomaInf::Self_, KomaInf::Enemy] {
        let mut k = Kyokumen::from_3(0, hirate(), [0; 40]);
        let moves = k.legal_moves(side, &None);
        assert_eq!(moves.len(), 30);
        for te in moves.iter() {
            let mut played = Kyokumen::from_3(0, hirate(), [0; 40]);
            assert!(played.playable(side, te));
            played.move_(side, te);
            assert!(played.walls_intact());
            assert!(played.kings_placed());
            let fresh = Kyokumen::from_3(1, picture(&played), played.hand);
            assert!(same_maps(&played, &fresh));
        }
    }
}

#[test]
fn generating_out_of_check_leaves_the_position() {
    let mut k = Kyokumen::from_3(0, hirate(), [0; 40]);
    let before = Kyokumen::from_3(0, hirate(), [0; 40]);
    let mut buf = [Te::default(); 600];
    k.make_legal_moves(KomaInf::Self_, &mut buf, &mut None);
    assert_eq!(k.ban, before.ban);
    assert!(same_maps(&k, &before));
    assert_eq!(k.hand, before.hand);
}

#[test]
fn a_short_game_keeps_the_maps_in_agreement() {
    let mut k = Kyokumen::from_3(0, hirate(), [0; 40]);
    let mut side = KomaInf::Self_;
    for ply in 0..40 {
        assert!(k.ready(side));
        let moves = k.legal_moves(side, &None);
        if moves.is_empty() {
            break;
        }
        let te = moves[(ply * 7 + 3) % moves.len()];
        assert!(k.playable(side, &te));
        k.move_(side, &te);
        let fresh = Kyokumen::from_3(k.tesu, picture(&k), k.hand);
        assert!(same_maps(&k, &fresh));
        side = if side == KomaInf::Self_ { KomaInf::Enemy } else { KomaInf::Self_ };
    }
}

#[test]
fn playable_refuses_what_move_cannot_take() {
    let k = Kyokumen::from_3(0, hirate(), [0; 40]);
    assert!(k.playable(KomaInf::Self_, &Te::from_4(0x77, 0x76, SFU, EMP)));
    assert!(!k.playable(KomaInf::Self_, &Te::from_4(0x77, 0x7a, SFU, EMP)));
    assert!(!k.playable(KomaInf::Self_, &Te::from_4(0, 0x55, SFU, EMP)));
    assert!(!k.playable(KomaInf::Self_, &Te::from_4(0x7a, 0x76, SFU, EMP)));
    let mut odd = Te::from_4(0x77, 0x76, SFU, EMP);
    odd.koma = 13;
    assert!(!k.playable(KomaInf::Self_, &odd));
}

#[test]
fn a_gold_in_hand_drops_on_every_empty_square() {
    let mut b = empty_board();
    for (sq, p) in [(0x59, SOU), (0x11, EOU)] {
        let (r, c) = cell(sq);
        b[r][c] = p;
    }
    let mut hand = [0usize; 40];
    hand[21] = 1;
    let mut k = Kyokumen::from_3(0, b, hand);
    assert!(k.ready(KomaInf::Self_));
    let moves = k.legal_moves(KomaInf::Self_, &None);
    assert_eq!(moves.len(), 84);
    for file in 1..=9usize {
        for rank in 1..=9usize {
            let sq = file * 16 + rank;
            if sq != 0x59 && sq != 0x11 {
                assert!(moves.contains(&Te::from_4(0, sq, SKI, EMP)));
            }
        }
    }
    for sq in [0x48, 0x58, 0x68, 0x49, 0x69] {
        assert!(moves.contains(&Te::from_4(0x59, sq, SOU, EMP)));
    }
}

#[test]
fn a_rook_check_is_answered_by_capture_escape_and_drops() {
    let mut b = empty_board();
    for (sq, p) in [(0x59, SOU), (0x11, EOU), (0x55, EHI), (0x77, SKA)] {
        let (r, c) = cell(sq);
        b[r][c] = p;
    }
    let mut hand = [0usize; 40];
    hand[21] = 1;
    let mut k = Kyokumen::from_3(0, b, hand);
    assert_ne!(k.control_e[0x59], 0);
    assert!(k.ready(KomaInf::Self_));
    let moves = k.legal_moves(KomaInf::Self_, &None);
    assert_eq!(moves.len(), 8);
    assert!(moves.contains(&Te::from_4(0x77, 0x55, SKA, EHI)));
    for sq in [0x48, 0x68, 0x49, 0x69] {
        assert!(moves.contains(&Te::from_4(0x59, sq, SOU, EMP)));
    }
    for sq in [0x56, 0x57, 0x58] {
        assert!(moves.contains(&Te::from_4(0, sq, SKI, EMP)));
    }
}

#[test]
fn generating_twice_with_the_same_pins_gives_the_same_moves() {
    let mut b = empty_board();
    for (sq, p) in [(0x59, SOU), (0x11, EOU), (0x58, SKI), (0x55, EHI)] {
        let (r, c) = cell(sq);
        b[r][c] = p;
    }
    let mut k = Kyokumen::from_3(0, b, [0; 40]);
    let mut first = [Te::default(); 600];
    let mut second = [Te::default(); 600];
    let mut pin = None;
    let n1 = k.make_legal_moves(KomaInf::Self_, &mut first, &mut pin);
    let n2 = k.make_legal_moves(KomaInf::Self_, &mut second, &mut pin);
    assert_eq!(n1, n2);
    assert!(first[..n1] == second[..n2]);
}

#[test]
fn a_pawn_is_not_dropped_on_a_file_that_has_one() {
    let mut b = empty_board();
    for (sq, p) in [(0x59, SOU), (0x11, EOU), (0x57, SFU)] {
        let (r, c) = cell(sq);
        b[r][c] = p;
    }
    let mut hand = [0usize; 40];
    hand[17] = 1;
    let mut k = Kyokumen::from_3(0, b, hand);
    let moves = k.legal_moves(KomaInf::Self_, &None);
    assert_eq!(moves.len(), 70);
    for rank in 1..=9usize {
        assert!(!moves.contains(&Te::from_4(0, 0x50 + rank, SFU, EMP)));
    }
    assert!(!moves.contains(&Te::from_4(0, 0x31, SFU, EMP)));
    assert!(moves.contains(&Te::from_4(0, 0x32, SFU, EMP)));
    assert!(moves.contains(&Te::from_4(0x57, 0x56, SFU, EMP)));
}

fn board_of(pieces: &[(usize, KomaInf)]) -> [[KomaInf; 9]; 9] {
    let mut b = empty_board();
    for &(sq, p) in pieces {
        let (r, c) = cell(sq);
        b[r][c] = p;
    }
    b
}

fn some_positions() -> Vec<([[KomaInf; 9]; 9], [usize; 40])> {
    let mut gold = [0usize; 40];
    gold[21] = 1;
    vec![
        (hirate(), [0; 40]),
        (board_of(&[(0x59, SOU), (0x11, EOU), (0x55, EHI), (0x77, SKA)]), gold),
        (board_of(&[(0x59, SOU), (0x11, EOU), (0x58, SKI), (0x55, EHI)]), [0; 40]),
        (board_of(&[(0x99, KomaInf::SRY), (0x19, SOU), (0x11, EOU)]), [0; 40]),
        (board_of(&[(0x59, SOU), (0x51, EOU), (0x49, SKI), (0x55, EHI), (0x37, EKA)]), gold),
    ]
}

#[test]
fn no_generated_move_leaves_the_king_attacked() {
    for (b, hand) in some_positions() {
        let mut k = Kyokumen::from_3(0, b, hand);
        let moves = k.legal_moves(KomaInf::Self_, &None);
        for te in moves.iter() {
            let mut played = Kyokumen::from_3(0, b, hand);
            played.move_(KomaInf::Self_, te);
            assert_eq!(played.control_e[played.king_s], 0);
        }
    }
}

#[test]
fn no_move_is_generated_twice() {
    for (b, hand) in some_positions() {
        let mut k = Kyokumen::from_3(0, b, hand);
        let mut buf = [Te::default(); 600];
        let n = k.make_legal_moves(KomaInf::Self_, &mut buf, &mut None);
        for i in 0..n {
            for j in i + 1..n {
                assert!(buf[i] != buf[j]);
            }
        }
    }
}

#[test]
fn the_computed_pins_give_the_same_moves() {
    for (b, hand) in some_positions() {
        let mut k = Kyokumen::from_3(0, b, hand);
        let mut pin = [0isize; 176];
        k.make_pin_inf(&mut pin);
        let mut b1 = [Te::default(); 600];
        let mut b2 = [Te::default(); 600];
        let n1 = k.make_legal_moves(KomaInf::Self_, &mut b1, &mut Some(pin));
        let n2 = k.make_legal_moves(KomaInf::Self_, &mut b2, &mut None);
        assert_eq!(n1, n2);
        for i in 0..n1 {
            assert_eq!((b1[i].from, b1[i].to, b1[i].koma, b1[i].capture, b1[i].promote), (b2[i].from, b2[i].to, b2[i].koma, b2[i].capture, b2[i].promote));
        }
    }
}

#[test]
fn a_piece_moves_where_its_map_shows_it() {
    let b = board_of(&[(0x99, KomaInf::SRY), (0x19, SOU), (0x11, EOU)]);
    let mut k = Kyokumen::from_3(0, b, [0; 40]);
    let moves = k.legal_moves(KomaInf::Self_, &None);
    let mut dragon = 0;
    for te in moves.iter().filter(|t| t.from == 0x99) {
        dragon += 1;
        assert_ne!(k.control_s[te.to as usize], 0);
    }
    assert_eq!(dragon, 16);
}
