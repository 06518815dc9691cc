use lesserpyon::koma_moves::KomaMoves;
use lesserpyon::logic::Logic;
use lesserpyon::{KomaInf, KomaInfo, Te};

#[test]
fn codes_round_trip() {
    assert_eq!(KomaInf::SOU.as_u8(), 24);
    assert_eq!(KomaInf::EOU.as_u8(), 40);
    assert_eq!(KomaInf::Wall.as_u8(), 48);
    assert_eq!(KomaInf::from_u8(17), Some(KomaInf::SFU));
    assert_eq!(KomaInf::from_u8(46), Some(KomaInf::EUM));
    assert_eq!(KomaInf::from_u8(13), None);
    assert_eq!(KomaInf::from_u8(49), None);
    assert_eq!(KomaInf::from_usize(300), None);
    assert_eq!(KomaInf::from_usize(31), Some(KomaInf::SRY));
    assert_eq!(KomaInf::from_isize(-1), None);
    assert_eq!(KomaInf::from_isize(33), Some(KomaInf::EFU));
    assert_eq!(KomaInf::EHI.as_usize(), 39);
}

#[test]
fn bit_operations_on_codes() {
    assert_eq!(KomaInf::FU.bitor(KomaInf::Self_), KomaInf::SFU);
    assert_eq!(KomaInf::HI.bitor(KomaInf::Enemy), KomaInf::EHI);
    assert_eq!(KomaInf::SKI.bitand(KomaInf::Self_), KomaInf::Self_);
    assert_eq!(KomaInf::SKI.bitand(KomaInf::Enemy), KomaInf::EMP);
    assert_eq!(KomaInf::ERY.bitand(KomaInf::SRY), KomaInf::RY);
    assert!(KomaInf::EGI.meets(KomaInf::Enemy));
    assert!(!KomaInf::EGI.meets(KomaInf::Self_));
    assert!(KomaInf::Wall.meets(KomaInf::Self_));
}

#[test]
fn promoted_bit_is_the_king_code() {
    assert_eq!(KomaInfo::Promoted.to_koma_inf(), KomaInf::OU);
    assert_eq!(KomaInfo::Empty.to_koma_inf(), KomaInf::EMP);
    assert_eq!(KomaInfo::Promoted.as_u8(), 8);
}

#[test]
fn stood_tests_for_anything() {
    assert!(5usize.stood());
    assert!(!0usize.stood());
    assert!(KomaInf::SFU.stood());
    assert!(!KomaInf::EMP.stood());
}

#[test]
fn move_tables() {
    assert_eq!(KomaMoves::direct(0), 17);
    assert_eq!(KomaMoves::direct(9), -18);
    assert!(KomaMoves::can_move(6, KomaInf::SFU));
    assert!(!KomaMoves::can_move(1, KomaInf::SFU));
    assert!(KomaMoves::can_move(1, KomaInf::EFU));
    assert!(KomaMoves::can_move(8, KomaInf::SKE));
    assert!(KomaMoves::can_jump(6, KomaInf::SKY));
    assert!(!KomaMoves::can_jump(6, KomaInf::SFU));
    assert!(KomaMoves::can_jump(0, KomaInf::EUM));
    assert!(KomaMoves::can_move(1, KomaInf::EUM));
    assert!(!KomaMoves::can_jump(1, KomaInf::EUM));
    assert!(KomaMoves::can_promote(KomaInf::SGI));
    assert!(!KomaMoves::can_promote(KomaInf::SKI));
    assert!(!KomaMoves::can_promote(KomaInf::STO));
}

#[test]
fn moves_compare_by_squares_piece_and_promotion() {
    let a = Te::from_7(0x77, 0x76, KomaInf::SFU, KomaInf::EMP, 0, 3, 100);
    let b = Te::from_4(0x77, 0x76, KomaInf::SFU, KomaInf::EFU);
    assert_eq!(a, b);
    let c = Te::from_5(0x77, 0x76, KomaInf::SFU, KomaInf::EMP, 1);
    assert_ne!(a, c);
    assert_eq!(a.from, 0x77);
    assert_eq!(a.to, 0x76);
    assert_eq!(a.koma, 17);
    assert_eq!(a.kind, 3);
    assert_eq!(a.value, 100);
    assert_eq!(b.capture, 33);
}

#[test]
fn default_move_is_null() {
    let t = Te::default();
    assert!(t.is_null());
    assert_eq!(t.koma, 0);
    assert!(!Te::from_4(0, 0x55, KomaInf::SFU, KomaInf::EMP).is_null());
    assert!(Te::from_4(0x100, 0x200, KomaInf::SFU, KomaInf::EMP).is_null());
}
