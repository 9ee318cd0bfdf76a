use gnet::connection::ack::{AckError, AckMask};
use gnet::connection::parcel::ParcelIndex;

#[test]
fn ack_mask_acknowledges_initial() {
    let ack_mask = AckMask::new(12.into());
    ack_mask.acknowledges(12.into());
}

#[test]
fn ack_mask_acknowledges_next() {
    let mut ack_mask = AckMask::saturated(12.into());
    ack_mask.ack(13.into()).unwrap();
    ack_mask.acknowledges(12.into());
    assert!(ack_mask.acknowledges(13.into()))
}

#[test]
fn ack_mask_acknowledges_prev() {
    let mut ack_mask = AckMask::new(12.into());
    ack_mask.ack(11.into()).unwrap();
    ack_mask.acknowledges(12.into());
    assert!(ack_mask.acknowledges(11.into()))
}

#[test]
fn ack_mask_acknowledges_sequential() {
    let mut ack_mask = AckMask::saturated(0.into());
    for i in 1..=u8::MAX {
        ack_mask.ack(i.into()).unwrap();
        assert!(ack_mask.acknowledges(i.into()));
        assert!(ack_mask.acknowledges((i - 1).into()));
    }
}

#[test]
fn ack_mask_error_on_large_jump() {
    let mut ack_mask = AckMask::new(12.into());
    ack_mask.ack(82.into())
        .expect_err("Acknowledging more 70 indices ahead did not raise error.");
}

#[test]
fn ack_refuses_to_slide_past_unacknowledged_indices() {
    let mut ack_mask = AckMask::new(ParcelIndex(0));
    assert_eq!(ack_mask.ack(ParcelIndex(1)), Err(AckError));
    assert_eq!(ack_mask, AckMask::new(ParcelIndex(0)));
    let mut full = AckMask::saturated(ParcelIndex(0));
    assert_eq!(full.ack(ParcelIndex(65)), Err(AckError));
    assert_eq!(full.ack(ParcelIndex(64)), Ok(()));
    assert_eq!(full, AckMask { last_index: ParcelIndex(64), mask: 1 << 63 });
}

#[test]
fn new_mask_acknowledges_only_its_index() {
    let mask = AckMask::new(ParcelIndex(200));
    assert!(mask.acknowledges(ParcelIndex(200)));
    for i in 0..=u8::MAX {
        if i != 200 {
            assert!(!mask.acknowledges(ParcelIndex(i)));
        }
    }
}

#[test]
fn ack_sets_bit_of_older_index() {
    let mut mask = AckMask::new(ParcelIndex(10));
    mask.ack(ParcelIndex(7)).unwrap();
    assert_eq!(mask.mask, 0b100);
    assert_eq!(mask.last_index, ParcelIndex(10));
}

#[test]
fn ack_ignores_index_far_behind() {
    let mut mask = AckMask::new(ParcelIndex(100));
    mask.ack(ParcelIndex(0)).unwrap();
    assert_eq!(mask, AckMask::new(ParcelIndex(100)));
    assert!(!mask.acknowledges(ParcelIndex(0)));
}

#[test]
fn ack_slides_window_forward() {
    let mut mask = AckMask::saturated(ParcelIndex(0));
    mask.ack(ParcelIndex(1)).unwrap();
    mask.ack(ParcelIndex(3)).unwrap();
    assert_eq!(mask.last_index, ParcelIndex(3));
    // Index 2 (bit 0) was not received, index 1 (bit 1) was.
    assert_eq!(mask.mask & 0b11, 0b10);
    assert!(!mask.acknowledges(ParcelIndex(2)));
    assert!(mask.acknowledges(ParcelIndex(1)));
}

#[test]
fn ack_refuses_to_skip_unreceived_index() {
    let mut mask = AckMask { last_index: ParcelIndex(64), mask: 0x7FFF_FFFF_FFFF_FFFF };
    assert_eq!(mask.ack(ParcelIndex(66)), Err(AckError));
    assert_eq!(mask, AckMask { last_index: ParcelIndex(64), mask: 0x7FFF_FFFF_FFFF_FFFF });
}

#[test]
fn unchecked_ack_slides_without_check() {
    let mut mask = AckMask::new(ParcelIndex(12));
    mask.unchecked_ack(ParcelIndex(82));
    assert_eq!(mask.last_index, ParcelIndex(82));
    assert_eq!(mask.mask, 0);
    let mut mask = AckMask::new(ParcelIndex(12));
    mask.unchecked_ack(ParcelIndex(14));
    assert_eq!(mask.mask, 0b10);
}

#[test]
fn ack_mask_le_bytes_round_trip() {
    let mask = AckMask { last_index: ParcelIndex(0xAB), mask: 0x0102_0304_0506_0708 };
    let bytes = mask.to_le_bytes();
    assert_eq!(bytes, [8, 7, 6, 5, 4, 3, 2, 1, 0xAB]);
    assert_eq!(AckMask::from_le_bytes(bytes), mask);
    let be = mask.to_be_bytes();
    assert_eq!(be, [0xAB, 1, 2, 3, 4, 5, 6, 7, 8]);
    assert_eq!(AckMask::from_be_bytes(be), mask);
}

#[test]
fn index_distance_of_offset_is_offset() {
    for i in [0u8, 1, 100, 200, 255] {
        for k in 0..=u8::MAX {
            let base = ParcelIndex(i);
            assert_eq!(ParcelIndex::dist(base.plus(k), base), k);
        }
    }
    assert_eq!(ParcelIndex(255).next(), ParcelIndex(0));
    assert_eq!(ParcelIndex(3).minus(5), ParcelIndex(254));
    assert_eq!(ParcelIndex::from_le_bytes([9]).to_be_bytes(), [9]);
    let raw: u8 = ParcelIndex(77).into();
    assert_eq!(raw, 77);
}
