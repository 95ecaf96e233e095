use webrtc_lib::utils::SequenceNumber;

fn test_packet_id_u16(a: u16, b: u16, result: bool, clipping_window: Option<u16>) {
    let a = SequenceNumber { packet_id: a };
    let b = SequenceNumber { packet_id: b };
    assert_eq!(a.is_less(&b, clipping_window), result);
}

fn test_packet_difference_u16(a: u16, b: u16, expected: u16, clipping_window: Option<u16>) {
    let a = SequenceNumber { packet_id: a };
    let b = SequenceNumber { packet_id: b };
    assert_eq!(a.difference(&b, clipping_window), expected);
    assert_eq!(b.difference(&a, clipping_window), expected);
}

fn test_packet_id_u32(a: u32, b: u32, result: bool, clipping_window: Option<u32>) {
    let a = SequenceNumber { packet_id: a };
    let b = SequenceNumber { packet_id: b };
    assert_eq!(a.is_less(&b, clipping_window), result);
}

fn test_packet_difference_u32(a: u32, b: u32, expected: u32, clipping_window: Option<u32>) {
    let a = SequenceNumber { packet_id: a };
    let b = SequenceNumber { packet_id: b };
    assert_eq!(a.difference(&b, clipping_window), expected);
    assert_eq!(b.difference(&a, clipping_window), expected);
}

#[test]
fn packet_id_packet_id_is_less_basic() {
    test_packet_id_u16(2, 3, true, None);
    test_packet_id_u16(4, 3, false, None);

    test_packet_id_u32(2, 3, true, None);
    test_packet_id_u32(4, 3, false, None);
}

#[test]
fn packet_id_packet_id_is_less_clipping() {
    test_packet_id_u16(0xFFFF, 0, false, None);
    test_packet_id_u16(0xFFFF, 1, false, None);
    test_packet_id_u16(0xFFFF, 2, false, None);
    test_packet_id_u16(0xFFFF, 2, true, Some(4));
    test_packet_id_u16(0xFFFF, 2, false, Some(2));
    test_packet_id_u16(2, 0xFFFF, false, Some(4));

    for i in 1..0x2Fu16 {
        test_packet_id_u16(i.wrapping_add(0xFFF0), i.wrapping_add(0xFFF1), true, Some(2));
        test_packet_id_u16(i.wrapping_add(0xFFF0), i.wrapping_add(0xFFF5), true, Some(6));

        test_packet_id_u16(i.wrapping_add(0xFFF6), i.wrapping_add(0xFFF0), false, Some(6));
        test_packet_id_u16(i.wrapping_add(0xFFF0), i.wrapping_add(0xFFF6), true, Some(6));
    }

    test_packet_id_u32(0xFFFF_FFFF, 0, false, None);
    test_packet_id_u32(0xFFFF_FFFF, 1, false, None);
    test_packet_id_u32(0xFFFF_FFFF, 2, false, None);
    test_packet_id_u32(0xFFFF_FFFF, 2, true, Some(4));
    test_packet_id_u32(0xFFFF_FFFF, 2, false, Some(2));
    test_packet_id_u32(2, 0xFFFF_FFFF, false, Some(4));

    for i in 1..0x2Fu32 {
        test_packet_id_u32(i.wrapping_add(0xFFFF_FFF0), i.wrapping_add(0xFFFF_FFF1), true, Some(2));
        test_packet_id_u32(i.wrapping_add(0xFFFF_FFF0), i.wrapping_add(0xFFFF_FFF5), true, Some(6));

        test_packet_id_u32(i.wrapping_add(0xFFFF_FFF6), i.wrapping_add(0xFFFF_FFF0), false, Some(6));
        test_packet_id_u32(i.wrapping_add(0xFFFF_FFF0), i.wrapping_add(0xFFFF_FFF6), true, Some(6));
    }
}

#[test]
fn packet_id_packet_id_difference() {
    test_packet_difference_u16(0, 0, 0, None);
    test_packet_difference_u16(0xFFFF, 0, 0xFFFF, None);
    test_packet_difference_u16(0xFFFF, 0, 1, Some(1));

    for i in 0..0xFFu16 {
        test_packet_difference_u16(0xFF8F_u16.wrapping_add(i), 0xFF9F_u16.wrapping_add(i), 16, Some(16));
    }

    test_packet_difference_u32(0, 0, 0, None);
    test_packet_difference_u32(0xFFFF_FFFF, 0, 0xFFFF_FFFF, None);
    test_packet_difference_u32(0xFFFF_FFFF, 0, 1, Some(1));

    for i in 0..0xFFu32 {
        test_packet_difference_u32(0xFFFF_FF8F_u32.wrapping_add(i), 0xFFFF_FF9F_u32.wrapping_add(i), 16, Some(16));
    }
}

#[test]
fn packet_id_u8_and_u64() {
    let a = SequenceNumber { packet_id: 0xFFu8 };
    let b = SequenceNumber { packet_id: 1u8 };
    assert!(a.is_less(&b, Some(4)));
    assert_eq!(a.difference(&b, Some(4)), 2);
    let c = SequenceNumber { packet_id: 10u64 };
    let d = SequenceNumber { packet_id: 3u64 };
    assert!(!c.is_less(&d, None));
    assert_eq!(c.difference(&d, None), 7);
}

#[test]
fn packet_id_add_sub_wrap() {
    let a = SequenceNumber::new(0xFFFFu16);
    assert_eq!(a.add(2).packet_id, 1);
    assert_eq!(SequenceNumber::new(1u16).sub(3).packet_id, 0xFFFE);
    assert!(SequenceNumber::new(7u16).eq_id(&7));
    assert!(!SequenceNumber::new(7u16).eq_id(&8));
    assert_eq!(SequenceNumber::from(5u32).packet_id, 5);
}
