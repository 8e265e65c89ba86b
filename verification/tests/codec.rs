use e1_20::{Pkt, Uid, GET_COMMAND, STATUS_MESSAGES};

#[test]
fn it_works() {
    let result = 2 + 2;
    assert_eq!(result, 4);
}

#[test]
fn test_serialize_deserialize() {
    let mut testpkt = Pkt::new();

    testpkt.message_length = 25;
    testpkt.destination = Uid::new(0x1234, 0x56789ABC);
    testpkt.source = Uid::new(0xCBA9, 0x87654321);
    testpkt.port_or_response_type = 1;
    testpkt.cc = GET_COMMAND;
    testpkt.pid = STATUS_MESSAGES;
    testpkt.pdl = 1;
    testpkt.pd = vec![0x55];

    testpkt.set_checksum();

    println!("{:?}", testpkt);

    assert_eq!(true, testpkt.test_checksum());

    let buf = testpkt.serialize();

    println!("{:X?}", buf);

    let testpkt2 = Pkt::deserialize(buf);

    println!("{:?}", testpkt2);

    let testpkt2 = testpkt2.unwrap();

    assert_eq!(true, testpkt2.test_checksum());

    assert_eq!(testpkt.checksum, testpkt2.checksum);
}

fn sample_packet() -> Pkt {
    let mut p = Pkt::new();
    p.destination = Uid::new(0x1234, 0x56789ABC);
    p.source = Uid::new(0xCBA9, 0x87654321);
    p.tn = 7;
    p.port_or_response_type = 1;
    p.message_count = 2;
    p.subdevice = 0x0102;
    p.cc = GET_COMMAND;
    p.pid = STATUS_MESSAGES;
    p.pdl = 3;
    p.pd = vec![0x55, 0x00, 0xFF];
    p.set_message_length();
    p.set_checksum();
    p
}

#[test]
fn serialize_lays_out_every_field() {
    let p = sample_packet();
    let buf = p.serialize();
    let body: Vec<u8> = vec![
        0xCC, 0x01, 27, 0x12, 0x34, 0x56, 0x78, 0x9A, 0xBC, 0xCB, 0xA9, 0x87, 0x65, 0x43, 0x21, 7,
        1, 2, 0x01, 0x02, 0x20, 0x00, 0x30, 3, 0x55, 0x00, 0xFF,
    ];
    let sum: u32 = body.iter().map(|b| *b as u32).sum();
    assert_eq!(sum, 0x07CA);
    let mut expected = body.clone();
    expected.push(0x07);
    expected.push(0xCA);
    assert_eq!(buf, expected);
    assert_eq!(p.checksum, 0x07CA);
    assert_eq!(p.message_length, 27);
}

#[test]
fn round_trip_reproduces_every_field() {
    let p = sample_packet();
    let q = Pkt::deserialize(p.serialize()).unwrap();
    assert_eq!(q.start, p.start);
    assert_eq!(q.substart, p.substart);
    assert_eq!(q.message_length, p.message_length);
    assert_eq!(q.destination, p.destination);
    assert_eq!(q.source, p.source);
    assert_eq!(q.tn, p.tn);
    assert_eq!(q.port_or_response_type, p.port_or_response_type);
    assert_eq!(q.message_count, p.message_count);
    assert_eq!(q.subdevice, p.subdevice);
    assert_eq!(q.cc, p.cc);
    assert_eq!(q.pid, p.pid);
    assert_eq!(q.pdl, p.pdl);
    assert_eq!(q.pd, p.pd);
    assert_eq!(q.checksum, p.checksum);
    assert!(q.test_checksum());
}

#[test]
fn round_trip_with_longest_payload() {
    let mut p = Pkt::new();
    p.pdl = 231;
    p.pd = vec![0xFF; 231];
    assert_eq!(p.set_message_length(), 255);
    p.set_checksum();
    let buf = p.serialize();
    assert_eq!(buf.len(), 257);
    let q = Pkt::deserialize(buf).unwrap();
    assert_eq!(q.pd, p.pd);
    assert_eq!(q.checksum, p.checksum);
    assert!(q.test_checksum());
}

#[test]
fn checksum_wraps_at_sixteen_bits() {
    let mut p = Pkt::new();
    p.destination = Uid::new(0xFFFF, 0xFFFF_FFFF);
    p.source = Uid::new(0xFFFF, 0xFFFF_FFFF);
    p.pd = vec![0xFF; 300];
    let c = p.set_checksum();
    let sum: u32 = 0xCC + 0x01 + 12 * 0xFF + 300 * 0xFF;
    assert!(sum > 0xFFFF);
    assert_eq!(c as u32, sum % 0x1_0000);
    assert!(p.test_checksum());
}

#[test]
fn flipping_a_byte_breaks_the_checksum() {
    let p = sample_packet();
    let buf = p.serialize();
    for i in 0..buf.len() {
        if i == 2 {
            continue;
        }
        let mut bad = buf.clone();
        bad[i] ^= 0x01;
        match Pkt::deserialize(bad) {
            None => {}
            Some(q) => assert!(!q.test_checksum(), "byte {}", i),
        }
    }
}

#[test]
fn deserialize_rejects_short_input() {
    assert!(Pkt::deserialize(Vec::new()).is_none());
    assert!(Pkt::deserialize(vec![0xCC; 13]).is_none());
    assert!(Pkt::deserialize(vec![0; 23]).is_none());
    let p = sample_packet();
    let mut buf = p.serialize();
    buf.pop();
    assert!(Pkt::deserialize(buf.clone()).is_none());
    buf.pop();
    buf.pop();
    assert!(Pkt::deserialize(buf).is_none());
}

#[test]
fn deserialize_reads_checksum_at_message_length() {
    let mut buf = vec![0u8; 30];
    buf[2] = 4;
    buf[4] = 0xAB;
    buf[5] = 0xCD;
    let p = Pkt::deserialize(buf).unwrap();
    assert_eq!(p.message_length, 4);
    assert_eq!(p.checksum, 0xABCD);
    assert_eq!(p.pdl, 0);
    assert!(p.pd.is_empty());
}

#[test]
fn new_packet_has_start_codes_only() {
    let p = Pkt::new();
    assert_eq!(p.start, 0xCC);
    assert_eq!(p.substart, 0x01);
    assert_eq!(p.message_length, 0);
    assert_eq!(p.destination, Uid::new(0, 0));
    assert_eq!(p.source, Uid::new(0, 0));
    assert_eq!(p.pdl, 0);
    assert!(p.pd.is_empty());
    assert_eq!(p.checksum, 0);
    assert!(!p.test_checksum());
}

#[test]
fn changed_message_length_can_go_unnoticed() {
    let mut p = Pkt::new();
    p.tn = 24;
    p.pdl = 2;
    p.pd = vec![0x01, 0x00];
    assert_eq!(p.set_message_length(), 26);
    assert_eq!(p.set_checksum(), 0x0102);
    let mut buf = p.serialize();
    assert_eq!(buf.len(), 28);
    buf[2] = 24;
    let q = Pkt::deserialize(buf).unwrap();
    assert_eq!(q.message_length, 24);
    assert_eq!(q.checksum, 0x0100);
    assert!(q.test_checksum());
}
