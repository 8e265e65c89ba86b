use e1_20::{
    discover_on_muting_bus, discover_simulated, do_discovery_through, FnTransport, MutingBus,
    Transport, do_discovery_algo, do_discovery_node, encode_branch_reply, fake_rdm, mute_acknowledged, send_mute_message, DiscoveryResponse,
    Pkt, Uid, DISCOVERY_COMMAND, DISCOVERY_COMMAND_RESPONSE, DISC_MUTE, DISC_UNIQUE_BRANCH,
    DISC_UN_MUTE, RESPONSE_TYPE_ACK, RESPONSE_TYPE_NACK_REASON,
};
use std::cell::RefCell;

fn known_devices() -> Vec<Uid> {
    vec![
        Uid::new(0x3638, 0x08101AD8),
        Uid::new(0x646F, 0x000E8E22),
        Uid::new(0x646F, 0x000FB190),
        Uid::new(0x3638, 0x27106D31),
        Uid::new(0x3638, 0x0B101307),
        Uid::new(0x646F, 0x000FB118),
        Uid::new(0x6574, 0x1B69D0FE),
        Uid::new(0x646F, 0x000FA98D),
        Uid::new(0x3638, 0x4110280F),
        Uid::new(0x3638, 0x0B101323),
    ]
}

fn branch_reply(uid: Uid, preamble: usize) -> Vec<u8> {
    let mut buffer: Vec<u8> = vec![0xFE; preamble];
    buffer.push(0xAA);
    let mut crc: u16 = 0;
    for b in uid.uid_serialize() {
        buffer.push(b | 0xAA);
        buffer.push(b | 0x55);
        crc = crc.wrapping_add((b | 0xAA) as u16);
        crc = crc.wrapping_add((b | 0x55) as u16);
    }
    for b in crc.to_be_bytes() {
        buffer.push(b | 0xAA);
        buffer.push(b | 0x55);
    }
    buffer
}

fn mute_ack(from: Uid, to: Uid, tn: u8) -> Vec<u8> {
    let mut response = Pkt::new();
    response.source = from;
    response.destination = to;
    response.tn = tn;
    response.port_or_response_type = RESPONSE_TYPE_ACK;
    response.cc = DISCOVERY_COMMAND_RESPONSE;
    response.pid = DISC_MUTE;
    response.set_message_length();
    response.set_checksum();
    response.serialize()
}

fn in_range(uid: &Uid, min: &Uid, max: &Uid) -> bool {
    uid.get_as_64() >= min.get_as_64() && uid.get_as_64() <= max.get_as_64()
}

fn answer(devices: &[Uid], muted: &[Uid], data: &[u8]) -> (Option<Vec<u8>>, Option<Uid>) {
    let packet = Pkt::deserialize(data.to_vec()).unwrap();
    assert!(packet.test_checksum());
    assert_eq!(packet.cc, DISCOVERY_COMMAND);
    if packet.pid == DISC_UNIQUE_BRANCH {
        let min = Uid::from_bytes(&packet.pd[0..6]);
        let max = Uid::from_bytes(&packet.pd[6..12]);
        let found: Vec<Uid> = devices
            .iter()
            .filter(|u| in_range(u, &min, &max) && !muted.contains(u))
            .copied()
            .collect();
        return match found.len() {
            0 => (None, None),
            1 => (Some(branch_reply(found[0], 7)), None),
            _ => (Some(data.to_vec()), None),
        };
    }
    if packet.pid == DISC_MUTE {
        for uid in devices {
            if packet.destination == *uid {
                return (Some(mute_ack(*uid, packet.source, packet.tn)), Some(*uid));
            }
        }
    }
    (None, None)
}

fn sorted(mut v: Vec<Uid>) -> Vec<Uid> {
    v.sort_by_key(|u| u.get_as_64());
    v
}

#[test]
fn discovery_finds_the_ten_known_devices() {
    let my_uid = Uid::new(0x044E, 0x01);
    let found = do_discovery_algo(fake_rdm, &my_uid, true, false);
    assert_eq!(found.len(), 10);
    assert_eq!(sorted(found.clone()), sorted(known_devices()));
    let by_traversal = vec![
        Uid::new(0x3638, 0x08101AD8),
        Uid::new(0x3638, 0x0B101307),
        Uid::new(0x3638, 0x0B101323),
        Uid::new(0x3638, 0x27106D31),
        Uid::new(0x3638, 0x4110280F),
        Uid::new(0x646F, 0x000E8E22),
        Uid::new(0x646F, 0x000FA98D),
        Uid::new(0x646F, 0x000FB118),
        Uid::new(0x646F, 0x000FB190),
        Uid::new(0x6574, 0x1B69D0FE),
    ];
    assert_eq!(found, by_traversal);
}

#[test]
fn discovery_without_unmute_finds_the_same() {
    let my_uid = Uid::new(0x044E, 0x01);
    let found = do_discovery_algo(fake_rdm, &my_uid, false, false);
    assert_eq!(sorted(found), sorted(known_devices()));
}

fn run_on_muting_bus(devices: Vec<Uid>, do_mute: bool, repeat_disc: bool) -> (Vec<Uid>, usize) {
    let muted: RefCell<Vec<Uid>> = RefCell::new(Vec::new());
    let frames: RefCell<usize> = RefCell::new(0);
    let bus = |data: &[u8]| -> Option<Vec<u8>> {
        *frames.borrow_mut() += 1;
        let packet = Pkt::deserialize(data.to_vec()).unwrap();
        if packet.pid == DISC_UN_MUTE {
            muted.borrow_mut().clear();
            return None;
        }
        let (reply, newly_muted) = answer(&devices, &muted.borrow(), data);
        if let Some(uid) = newly_muted {
            muted.borrow_mut().push(uid);
        }
        reply
    };
    let found = do_discovery_algo(bus, &Uid::new(0x044E, 0x01), do_mute, repeat_disc);
    let sent = *frames.borrow();
    (found, sent)
}

#[test]
fn discovery_on_a_muting_bus_finds_each_device_once() {
    let devices = vec![
        Uid::new(0x7FFF, 0xFFFF_FFFF),
        Uid::new(0, 0),
        Uid::new(0, 1),
        Uid::new(0x1234, 0x0000_0007),
        Uid::new(0x1234, 0x0000_0008),
        Uid::new(0x1234, 0x0000_0009),
        Uid::new(0x3FFF, 0xFFFF_FFFF),
        Uid::new(0x4000, 0x0000_0000),
        Uid::new(0x7FFF, 0xFFFF_FFFE),
    ];
    for repeat in [false, true] {
        for unmute in [false, true] {
            let (found, _) = run_on_muting_bus(devices.clone(), unmute, repeat);
            assert_eq!(found.len(), devices.len());
            assert_eq!(sorted(found.clone()), sorted(devices.clone()));
            assert_eq!(found, sorted(devices.clone()));
        }
    }
}

#[test]
fn discovery_on_an_empty_bus_finds_nothing() {
    let (found, sent) = run_on_muting_bus(Vec::new(), false, false);
    assert!(found.is_empty());
    assert_eq!(sent, 1);
    let (found, sent) = run_on_muting_bus(Vec::new(), true, false);
    assert!(found.is_empty());
    assert_eq!(sent, 2);
}

#[test]
fn empty_search_is_retried_twice() {
    let (found, sent) = run_on_muting_bus(Vec::new(), false, true);
    assert!(found.is_empty());
    assert_eq!(sent, 3);
    let (found, sent) = run_on_muting_bus(Vec::new(), true, true);
    assert!(found.is_empty());
    assert_eq!(sent, 4);
}

#[test]
fn single_device_takes_one_query_and_one_mute() {
    let only = Uid::new(0x0102, 0x0304_0506);
    let (found, sent) = run_on_muting_bus(vec![only], false, true);
    assert_eq!(found, vec![only]);
    assert_eq!(sent, 2);
}

fn always_colliding(data: &[u8]) -> Option<Vec<u8>> {
    Some(data.to_vec())
}

#[test]
fn persistent_contention_ends_with_nothing_found() {
    let lone = Uid::new(5, 5);
    let frames: RefCell<usize> = RefCell::new(0);
    let bus = |data: &[u8]| -> Option<Vec<u8>> {
        *frames.borrow_mut() += 1;
        always_colliding(data)
    };
    let mut tn: u8 = 0;
    let found = e1_20::do_discovery_recursion(&mut FnTransport { f: &bus }, &Uid::new(1, 1), &lone, &lone, &mut tn, false, 48);
    assert!(found.is_empty());
    assert_eq!(*frames.borrow(), 1);
    assert_eq!(tn, 1);
    let next = Uid::new(5, 6);
    let found = e1_20::do_discovery_recursion(&mut FnTransport { f: &bus }, &Uid::new(1, 1), &lone, &next, &mut tn, false, 3);
    assert!(found.is_empty());
    assert_eq!(*frames.borrow(), 1 + 7);
}

#[test]
fn unacknowledged_device_is_dropped() {
    let only = Uid::new(0x0102, 0x0304_0506);
    let frames: RefCell<Vec<u16>> = RefCell::new(Vec::new());
    let bus = |data: &[u8]| -> Option<Vec<u8>> {
        let packet = Pkt::deserialize(data.to_vec()).unwrap();
        frames.borrow_mut().push(packet.pid);
        if packet.pid == DISC_UNIQUE_BRANCH {
            Some(branch_reply(only, 0))
        } else {
            None
        }
    };
    let found = do_discovery_algo(bus, &Uid::new(0x044E, 0x01), false, false);
    assert!(found.is_empty());
    assert_eq!(*frames.borrow(), vec![DISC_UNIQUE_BRANCH, DISC_MUTE]);
}

#[test]
fn branch_query_frame_is_laid_out_as_specified() {
    let seen: RefCell<Vec<Vec<u8>>> = RefCell::new(Vec::new());
    let bus = |data: &[u8]| -> Option<Vec<u8>> {
        seen.borrow_mut().push(data.to_vec());
        None
    };
    let mut tn: u8 = 255;
    let resp = do_discovery_node(
        &mut FnTransport { f: &bus },
        &Uid::new(0x044E, 0x0000_0001),
        &Uid::new(0, 0),
        &Uid::new(0x7FFF, 0xFFFF_FFFF),
        &mut tn,
    );
    assert_eq!(resp, DiscoveryResponse::Silence);
    assert_eq!(tn, 0);
    let frames = seen.borrow();
    assert_eq!(frames.len(), 1);
    let expected: Vec<u8> = vec![
        0xCC, 0x01, 36, 0xFF, 0xFF, 0xFF, 0xFF, 0xFF, 0xFF, 0x04, 0x4E, 0x00, 0x00, 0x00, 0x01,
        0x00, 0x01, 0x00, 0x00, 0x00, 0x10, 0x00, 0x01, 0x0C, 0x00, 0x00, 0x00, 0x00, 0x00, 0x00,
        0x7F, 0xFF, 0xFF, 0xFF, 0xFF, 0xFF, 0x0C, 0xD6,
    ];
    assert_eq!(frames[0], expected);
}

#[test]
fn mute_exchange_checks_every_field_of_the_reply() {
    let target = Uid::new(0x3638, 0x08101AD8);
    let me = Uid::new(0x044E, 0x01);
    assert!(mute_acknowledged(Some(mute_ack(target, me, 3)), &target));
    assert!(!mute_acknowledged(None, &target));
    assert!(!mute_acknowledged(Some(Vec::new()), &target));
    assert!(!mute_acknowledged(Some(mute_ack(Uid::new(0x3638, 0x08101AD9), me, 3)), &target));
    let mut bad = mute_ack(target, me, 3);
    bad[15] ^= 0x40;
    assert!(!mute_acknowledged(Some(bad), &target));
    for (rt, cc, pid) in [
        (RESPONSE_TYPE_NACK_REASON, DISCOVERY_COMMAND_RESPONSE, DISC_MUTE),
        (RESPONSE_TYPE_ACK, DISCOVERY_COMMAND, DISC_MUTE),
        (RESPONSE_TYPE_ACK, DISCOVERY_COMMAND_RESPONSE, DISC_UN_MUTE),
    ] {
        let mut p = Pkt::new();
        p.source = target;
        p.port_or_response_type = rt;
        p.cc = cc;
        p.pid = pid;
        p.set_message_length();
        p.set_checksum();
        assert!(!mute_acknowledged(Some(p.serialize()), &target));
    }
    let seen: RefCell<Vec<Vec<u8>>> = RefCell::new(Vec::new());
    let bus = |data: &[u8]| -> Option<Vec<u8>> {
        seen.borrow_mut().push(data.to_vec());
        Some(mute_ack(target, me, 0))
    };
    let mut tn: u8 = 9;
    assert!(send_mute_message(&mut FnTransport { f: &bus }, &me, &target, &mut tn));
    assert_eq!(tn, 10);
    let sent = Pkt::deserialize(seen.borrow()[0].clone()).unwrap();
    assert_eq!(sent.destination, target);
    assert_eq!(sent.source, me);
    assert_eq!(sent.tn, 10);
    assert_eq!(sent.pid, DISC_MUTE);
    assert_eq!(sent.cc, DISCOVERY_COMMAND);
    assert_eq!(sent.pdl, 0);
    assert_eq!(sent.message_length, 24);
    assert!(sent.test_checksum());
}

#[test]
fn branch_reply_decodes_to_the_identifier() {
    let uid = Uid::new(0x3638, 0x08101AD8);
    let reply = branch_reply(uid, 2);
    assert_eq!(reply.len(), 19);
    assert_eq!(&reply[0..5], &[0xFE, 0xFE, 0xAA, 0x36 | 0xAA, 0x36 | 0x55]);
    assert_eq!(DiscoveryResponse::from_bytes(&reply), DiscoveryResponse::Unique(uid));
    assert_eq!(DiscoveryResponse::from_reply(&Some(reply.clone())), DiscoveryResponse::Unique(uid));
    for i in 15..19 {
        let mut bad = reply.clone();
        bad[i] = 0x00;
        assert_eq!(DiscoveryResponse::from_bytes(&bad), DiscoveryResponse::Contention);
    }
    assert_eq!(DiscoveryResponse::from_bytes(&[]), DiscoveryResponse::Silence);
    assert_eq!(DiscoveryResponse::from_reply(&None), DiscoveryResponse::Silence);
    assert_eq!(DiscoveryResponse::from_reply(&Some(Vec::new())), DiscoveryResponse::Silence);
}

#[test]
fn branch_reply_without_preamble_or_too_short() {
    let uid = Uid::new(0xFFFF, 0x0000_0000);
    assert_eq!(DiscoveryResponse::from_bytes(&branch_reply(uid, 0)), DiscoveryResponse::Unique(uid));
    let mut short = branch_reply(uid, 3);
    short.pop();
    assert_eq!(DiscoveryResponse::from_bytes(&short), DiscoveryResponse::Contention);
    assert_eq!(DiscoveryResponse::from_bytes(&[0xFE; 40]), DiscoveryResponse::Contention);
    assert_eq!(DiscoveryResponse::from_bytes(&[0xAA]), DiscoveryResponse::Contention);
    let mut noisy = vec![0x01, 0x02];
    noisy.extend(branch_reply(uid, 1));
    assert_eq!(DiscoveryResponse::from_bytes(&noisy), DiscoveryResponse::Contention);
    let mut stray = branch_reply(uid, 3);
    stray[1] = 0x00;
    assert_eq!(DiscoveryResponse::from_bytes(&stray), DiscoveryResponse::Contention);
    let with_zero_in_front: [u8; 18] = [
        0x00, 0xAA, 0xBE, 0x77, 0xBA, 0x7D, 0xAA, 0x5D, 0xBA, 0x55, 0xBA, 0x5F, 0xFA, 0xDD, 0xAF,
        0x57, 0xFA, 0x77,
    ];
    assert_eq!(DiscoveryResponse::from_bytes(&with_zero_in_front), DiscoveryResponse::Contention);
    assert_eq!(
        DiscoveryResponse::from_bytes(&with_zero_in_front[1..]),
        DiscoveryResponse::Unique(Uid::new(0x3638, 0x08101AD8))
    );
    let mut two_delimiters = vec![0xFE, 0xAA];
    two_delimiters.extend(branch_reply(uid, 0));
    assert_ne!(DiscoveryResponse::from_bytes(&two_delimiters), DiscoveryResponse::Unique(uid));
}

#[test]
fn simulated_bus_replies_as_the_fixture_does() {
    let me = Uid::new(0x044E, 0x01);
    let queries = [
        (Uid::new(0, 0), Uid::new(0x7FFF, 0xFFFF_FFFF)),
        (Uid::new(0, 0), Uid::new(0x3637, 0xFFFF_FFFF)),
        (Uid::new(0x3638, 0x08101AD8), Uid::new(0x3638, 0x08101AD8)),
        (Uid::new(0x3638, 0x08101AD9), Uid::new(0x3638, 0x0B101307)),
        (Uid::new(0x3638, 0x0B101307), Uid::new(0x3638, 0x0B101323)),
        (Uid::new(0x6574, 0x1B69D0FE), Uid::new(0x7FFF, 0xFFFF_FFFF)),
        (Uid::new(0x6574, 0x1B69D0FF), Uid::new(0x7FFF, 0xFFFF_FFFF)),
    ];
    for (low, high) in queries {
        let mut pd = low.uid_serialize().to_vec();
        pd.extend(high.uid_serialize());
        let frame = e1_20::discovery_command(Uid::new(0xFFFF, 0xFFFF_FFFF), me, 5, DISC_UNIQUE_BRANCH, pd);
        assert_eq!(fake_rdm(&frame), answer(&known_devices(), &[], &frame).0);
    }
    let lone = {
        let mut pd = Uid::new(0x6574, 0).uid_serialize().to_vec();
        pd.extend(Uid::new(0x7FFF, 0xFFFF_FFFF).uid_serialize());
        e1_20::discovery_command(Uid::new(0xFFFF, 0xFFFF_FFFF), me, 5, DISC_UNIQUE_BRANCH, pd)
    };
    assert_eq!(fake_rdm(&lone), Some(branch_reply(Uid::new(0x6574, 0x1B69D0FE), 7)));
    for target in [Uid::new(0x3638, 0x08101AD8), Uid::new(0x3638, 0x08101AD9)] {
        let frame = e1_20::discovery_command(target, me, 9, DISC_MUTE, Vec::new());
        assert_eq!(fake_rdm(&frame), answer(&known_devices(), &[], &frame).0);
    }
    let ack = fake_rdm(&e1_20::discovery_command(Uid::new(0x646F, 0x000FB190), me, 9, DISC_MUTE, Vec::new()));
    assert_eq!(ack, Some(mute_ack(Uid::new(0x646F, 0x000FB190), me, 9)));
    assert!(mute_acknowledged(ack, &Uid::new(0x646F, 0x000FB190)));
    let unmute = e1_20::discovery_command(Uid::new(0xFFFF, 0xFFFF_FFFF), me, 1, DISC_UN_MUTE, Vec::new());
    assert_eq!(fake_rdm(&unmute), None);
}

#[test]
fn branch_reply_is_encoded_byte_for_byte() {
    let uid = Uid::new(0x3638, 0x08101AD8);
    assert_eq!(
        encode_branch_reply(uid, 0),
        vec![
            0xAA, 0xBE, 0x77, 0xBA, 0x7D, 0xAA, 0x5D, 0xBA, 0x55, 0xBA, 0x5F, 0xFA, 0xDD, 0xAF,
            0x57, 0xFA, 0x77
        ]
    );
    for n in [0usize, 1, 7, 24] {
        let reply = encode_branch_reply(uid, n);
        assert_eq!(reply, branch_reply(uid, n));
        assert_eq!(reply.len(), n + 17);
        assert_eq!(DiscoveryResponse::from_bytes(&reply), DiscoveryResponse::Unique(uid));
    }
}

#[test]
fn discovery_on_the_simulated_bus_returns_the_ten_in_order() {
    let me = Uid::new(0x044E, 0x01);
    for do_mute in [false, true] {
        for repeat in [false, true] {
            let found = discover_simulated(&me, do_mute, repeat);
            assert_eq!(found, sorted(known_devices()));
            assert_eq!(found, do_discovery_algo(fake_rdm, &me, do_mute, repeat));
        }
    }
}

#[test]
fn discovery_on_the_muting_bus_returns_every_device_once() {
    let devices = vec![
        Uid::new(0x7FFF, 0xFFFF_FFFF),
        Uid::new(0, 0),
        Uid::new(0, 1),
        Uid::new(0x1234, 0x0000_0007),
        Uid::new(0x1234, 0x0000_0008),
        Uid::new(0x3FFF, 0xFFFF_FFFF),
        Uid::new(0x4000, 0x0000_0000),
    ];
    let me = Uid::new(0x044E, 0x01);
    for do_mute in [false, true] {
        for repeat in [false, true] {
            let found = discover_on_muting_bus(devices.clone(), &me, do_mute, repeat);
            assert_eq!(found, sorted(devices.clone()));
        }
    }
    assert!(discover_on_muting_bus(Vec::new(), &me, true, true).is_empty());
    let mut bus = MutingBus::new(known_devices());
    let found = do_discovery_through(&mut bus, &me, false, false);
    assert_eq!(found, sorted(known_devices()));
    assert!(bus.unmuted.is_empty());
    assert_eq!(bus.devices, known_devices());
    assert!(do_discovery_through(&mut bus, &me, false, true).is_empty());
    assert_eq!(do_discovery_through(&mut bus, &me, true, false), sorted(known_devices()));
}

#[test]
fn muting_bus_stops_answering_for_a_muted_device() {
    let me = Uid::new(0x044E, 0x01);
    let a = Uid::new(1, 1);
    let b = Uid::new(1, 2);
    let mut bus = MutingBus::new(vec![a, b]);
    let query = {
        let mut pd = Uid::new(0, 0).uid_serialize().to_vec();
        pd.extend(Uid::new(0x7FFF, 0xFFFF_FFFF).uid_serialize());
        e1_20::discovery_command(Uid::new(0xFFFF, 0xFFFF_FFFF), me, 1, DISC_UNIQUE_BRANCH, pd)
    };
    let both = bus.send(&query);
    assert_eq!(DiscoveryResponse::from_reply(&both), DiscoveryResponse::Contention);
    let ack = bus.send(&e1_20::discovery_command(a, me, 2, DISC_MUTE, Vec::new()));
    assert_eq!(ack, Some(mute_ack(a, me, 2)));
    assert_eq!(bus.unmuted, vec![b]);
    assert_eq!(DiscoveryResponse::from_reply(&bus.send(&query)), DiscoveryResponse::Unique(b));
    assert_eq!(bus.send(&e1_20::discovery_command(Uid::new(9, 9), me, 3, DISC_MUTE, Vec::new())), None);
    assert!(bus.send(&e1_20::discovery_command(b, me, 4, DISC_MUTE, Vec::new())).is_some());
    assert_eq!(bus.send(&query), None);
    assert!(bus.send(&e1_20::discovery_command(a, me, 5, DISC_MUTE, Vec::new())).is_some());
    let unmute = e1_20::discovery_command(Uid::new(0xFFFF, 0xFFFF_FFFF), me, 6, DISC_UN_MUTE, Vec::new());
    assert_eq!(bus.send(&unmute), None);
    assert_eq!(bus.unmuted, vec![a, b]);
    assert_eq!(DiscoveryResponse::from_reply(&bus.send(&query)), DiscoveryResponse::Contention);
}

#[test]
fn stray_byte_before_the_delimiter_is_contention() {
    let bus = |_data: &[u8]| -> Option<Vec<u8>> {
        Some(vec![
            0x00, 0xAA, 0xBE, 0x77, 0xBA, 0x7D, 0xAA, 0x5D, 0xBA, 0x55, 0xBA, 0x5F, 0xFA, 0xDD,
            0xAF, 0x57, 0xFA, 0x77,
        ])
    };
    let mut tn: u8 = 0;
    let resp = do_discovery_node(
        &mut FnTransport { f: &bus },
        &Uid::new(0x044E, 0x01),
        &Uid::new(0, 0),
        &Uid::new(0x7FFF, 0xFFFF_FFFF),
        &mut tn,
    );
    assert_eq!(resp, DiscoveryResponse::Contention);
    let clean = |_data: &[u8]| -> Option<Vec<u8>> {
        Some(vec![
            0xFE, 0xAA, 0xBE, 0x77, 0xBA, 0x7D, 0xAA, 0x5D, 0xBA, 0x55, 0xBA, 0x5F, 0xFA, 0xDD,
            0xAF, 0x57, 0xFA, 0x77,
        ])
    };
    let resp = do_discovery_node(
        &mut FnTransport { f: &clean },
        &Uid::new(0x044E, 0x01),
        &Uid::new(0, 0),
        &Uid::new(0x7FFF, 0xFFFF_FFFF),
        &mut tn,
    );
    assert_eq!(resp, DiscoveryResponse::Unique(Uid::new(0x3638, 0x08101AD8)));
}
