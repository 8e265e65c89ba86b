use e1_20::Uid;

#[test]
fn uid_bytes_are_big_endian() {
    let u = Uid::new(0x1234, 0x56789ABC);
    assert_eq!(u.uid_serialize(), [0x12, 0x34, 0x56, 0x78, 0x9A, 0xBC]);
    assert_eq!(Uid::from_bytes(&[0x12, 0x34, 0x56, 0x78, 0x9A, 0xBC]), u);
    assert_eq!(Uid::from_bytes(&[0xFF, 0xFF, 0xFF, 0xFF, 0xFF, 0xFF, 0x00]), Uid::new(0xFFFF, 0xFFFF_FFFF));
}

#[test]
fn uid_as_one_number() {
    let u = Uid::new(0x1234, 0x56789ABC);
    assert_eq!(u.get_as_64(), 0x1234_5678_9ABC);
    assert_eq!(Uid::new_from_64(0x1234_5678_9ABC), u);
    assert_eq!(Uid::new_from_64(0xFFFF_1234_5678_9ABC), u);
    assert_eq!(u.get_mfg(), 0x1234);
    assert_eq!(u.get_dev(), 0x56789ABC);
}

#[test]
fn setters_leave_the_identifier_alone() {
    let u = Uid::new(1, 2);
    u.set_mfg(7);
    u.set_dev(9);
    u.set_from_64(0x1234_5678_9ABC);
    assert_eq!(u, Uid::new(1, 2));
}

#[test]
fn midpoint_is_between_and_rounds_down() {
    let a = Uid::new(0, 0);
    let b = Uid::new(0x7FFF, 0xFFFF_FFFF);
    assert_eq!(a.get_midpoint(&b), Uid::new(0x3FFF, 0xFFFF_FFFF));
    assert_eq!(b.get_midpoint(&a), Uid::new(0x3FFF, 0xFFFF_FFFF));
    assert_eq!(a.get_midpoint(&a), a);
    assert_eq!(b.get_midpoint(&b), b);
    let c = Uid::new(1, 0);
    let d = Uid::new(1, 1);
    assert_eq!(c.get_midpoint(&d), c);
    assert_eq!(d.get_midpoint(&c), c);
    let e = Uid::new(0, 0xFFFF_FFFF);
    let f = Uid::new(1, 1);
    assert_eq!(e.get_midpoint(&f), Uid::new(1, 0));
}

#[test]
fn order_is_the_order_of_the_48_bit_values() {
    let ids = [
        Uid::new(0, 0),
        Uid::new(0, 1),
        Uid::new(0, 0xFFFF_FFFF),
        Uid::new(1, 0),
        Uid::new(1, 5),
        Uid::new(0x7FFF, 0xFFFF_FFFF),
        Uid::new(0xFFFF, 0),
    ];
    for a in ids {
        for b in ids {
            assert_eq!(a < b, a.get_as_64() < b.get_as_64());
            assert_eq!(a <= b, a.get_as_64() <= b.get_as_64());
            assert_eq!(a > b, a.get_as_64() > b.get_as_64());
            assert_eq!(a == b, a.get_as_64() == b.get_as_64());
            assert_eq!(a.partial_cmp(&b), a.get_as_64().partial_cmp(&b.get_as_64()));
            assert_eq!(e1_20::uid_order::uid_less(&a, &b), a.get_as_64() < b.get_as_64());
        }
    }
    assert!(Uid::new(1, 0xFFFF_FFFF) < Uid::new(2, 0));
    assert!(Uid::new(2, 0) > Uid::new(1, 0xFFFF_FFFF));
}

#[test]
fn text_form_is_read_and_written() {
    assert_eq!(Uid::from_string("044E:00123456".to_string()), Uid::new(0x044E, 0x0012_3456));
    assert_eq!(Uid::from_string("3638:08101AD8".to_string()), Uid::new(0x3638, 0x0810_1AD8));
    assert_eq!(Uid::from_string("ffff:ffffffff".to_string()), Uid::new(0xFFFF, 0xFFFF_FFFF));
    assert_eq!(Uid::from_string("044E:123456".to_string()), Uid::new(0x044E, 0x0012_3456));
    assert_eq!(Uid::from_string("+12F:+7".to_string()), Uid::new(0x012F, 7));
    assert_eq!(Uid::from_string("044E:0000000000000001".to_string()), Uid::new(0x044E, 1));
    assert_eq!(Uid::from_string("044E:100000000".to_string()), Uid::new(0x044E, 0));
    assert_eq!(Uid::new(0x3638, 0x0810_1AD8).to_string(), "3638:08101AD8");
    assert_eq!(Uid::new(0, 0xA).to_string(), "0000:0000000A");
    assert_eq!(Uid::new(0xFFFF, 0xFFFF_FFFF).to_string(), "FFFF:FFFFFFFF");
    let u = Uid::new(0x646F, 0x000F_B190);
    assert_eq!(Uid::from_string(u.to_string()), u);
}

#[test]
fn text_that_is_no_number_reads_as_zero() {
    assert_eq!(Uid::from_string("zzzz:00000012".to_string()), Uid::new(0, 0x12));
    assert_eq!(Uid::from_string("044E:".to_string()), Uid::new(0x044E, 0));
    assert_eq!(Uid::from_string("044E:123456789".to_string()), Uid::new(0x044E, 0));
    assert_eq!(Uid::from_string("044E:12 4".to_string()), Uid::new(0x044E, 0));
    assert_eq!(Uid::from_string("-123:-1".to_string()), Uid::new(0, 0));
    assert_eq!(Uid::from_string("+++1:+".to_string()), Uid::new(0, 0));
    assert_eq!(Uid::from_string("12_4:1_2".to_string()), Uid::new(0, 0));
    assert_eq!(Uid::from_string("0001x00000002".to_string()), Uid::new(1, 2));
}
