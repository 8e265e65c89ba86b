//! A simulated bus with ten devices that are never muted: what it replies
//! to one frame, as a function of the frame alone.

use vstd::prelude::*;
use crate::branch::{DELIMITER, PREAMBLE, branch_reply, doubled, reply_view};
use crate::checksum::sum_bytes;
use crate::codec_laws::lemma_round_trip_checked;
use crate::constants::{
    DISCOVERY_COMMAND_RESPONSE,
    DISC_MUTE,
    DISC_UNIQUE_BRANCH,
    RESPONSE_TYPE_ACK,
    SC_RDM,
    SC_SUB_MESSAGE,
};
use crate::outcome::acknowledges_mute;
use crate::packet::{Pkt, PktView, be16, malformed, parse_frame};
use crate::uid::{Uid, uid_from_bytes, within};

verus! {

/// Number of filler bytes in a reply of the simulated bus.
pub const SIMULATED_PREAMBLE: usize = 7;

/// The devices on the simulated bus.
pub open spec fn ten_devices() -> Seq<Uid> {
    seq![
        Uid { mfg: 0x3638, dev: 0x08101AD8 },
        Uid { mfg: 0x646F, dev: 0x000E8E22 },
        Uid { mfg: 0x646F, dev: 0x000FB190 },
        Uid { mfg: 0x3638, dev: 0x27106D31 },
        Uid { mfg: 0x3638, dev: 0x0B101307 },
        Uid { mfg: 0x646F, dev: 0x000FB118 },
        Uid { mfg: 0x6574, dev: 0x1B69D0FE },
        Uid { mfg: 0x646F, dev: 0x000FA98D },
        Uid { mfg: 0x3638, dev: 0x4110280F },
        Uid { mfg: 0x3638, dev: 0x0B101323 },
    ]
}

/// The devices of `devices` that lie in `[low, high]`, in the order of the
/// list.
pub open spec fn in_range(devices: Seq<Uid>, low: Uid, high: Uid) -> Seq<Uid>
    decreases devices.len(),
{
    if devices.len() == 0 {
        Seq::<Uid>::empty()
    } else {
        let rest = in_range(devices.drop_last(), low, high);
        if within(devices.last(), low, high) {
            rest.push(devices.last())
        } else {
            rest
        }
    }
}

/// A preamble of `n` filler bytes.
pub open spec fn preamble(n: nat) -> Seq<u8> {
    Seq::new(n, |i: int| 0xFEu8)
}

/// The frame by which the device `from` acknowledges a mute to `to`: an
/// empty discovery response for the mute parameter, with the transaction
/// number of the mute, its length and checksum set.
pub open spec fn acknowledgement(from: Uid, to: Uid, tn: u8) -> PktView {
    let bare = PktView {
        start: SC_RDM,
        substart: SC_SUB_MESSAGE,
        message_length: 24,
        destination: to,
        source: from,
        tn,
        port_or_response_type: RESPONSE_TYPE_ACK,
        message_count: 0,
        subdevice: 0,
        cc: DISCOVERY_COMMAND_RESPONSE,
        pid: DISC_MUTE,
        pdl: 0,
        pd: Seq::<u8>::empty(),
        checksum: 0,
    };
    bare.with_checksum(bare.expected_checksum())
}

/// The frame by which a device acknowledges a mute does acknowledge it.
pub proof fn lemma_acknowledgement(from: Uid, to: Uid, tn: u8)
    ensures
        acknowledges_mute(Some(acknowledgement(from, to, tn).frame()), from),
{
    let ack = acknowledgement(from, to, tn);
    lemma_round_trip_checked(ack.with_checksum(0));
    assert(ack.with_checksum(0).with_checksum(ack.with_checksum(0).expected_checksum()) == ack);
}

/// What a bus with the devices `devices`, none of them ever muted, replies
/// to a frame. To a branch query: nothing where no device lies in the
/// range, the reply of the device where exactly one does, and the frame
/// itself, which reads as contention, where several do. To a mute addressed
/// to one of the devices: its acknowledgement. Nothing otherwise.
pub open spec fn simulated_reply(devices: Seq<Uid>, frame: Seq<u8>) -> Option<Seq<u8>> {
    match parse_frame(frame) {
        None => None,
        Some(p) => if p.pid == DISC_UNIQUE_BRANCH {
            let low = uid_from_bytes(p.pd.subrange(0, 6));
            let high = uid_from_bytes(p.pd.subrange(6, 12));
            let found = in_range(devices, low, high);
            if found.len() == 0 {
                None
            } else if found.len() == 1 {
                Some(branch_reply(preamble(SIMULATED_PREAMBLE as nat), found[0]))
            } else {
                Some(frame)
            }
        } else if p.pid == DISC_MUTE && devices.contains(p.destination) {
            Some(acknowledgement(p.destination, p.source, p.tn).frame())
        } else {
            None
        },
    }
}

/// The devices on the simulated bus.
pub fn known_devices() -> (list: Vec<Uid>)
    ensures
        list@ == ten_devices(),
{
    let mut list: Vec<Uid> = Vec::new();
    list.push(Uid::new(0x3638, 0x08101AD8));
    list.push(Uid::new(0x646F, 0x000E8E22));
    list.push(Uid::new(0x646F, 0x000FB190));
    list.push(Uid::new(0x3638, 0x27106D31));
    list.push(Uid::new(0x3638, 0x0B101307));
    list.push(Uid::new(0x646F, 0x000FB118));
    list.push(Uid::new(0x6574, 0x1B69D0FE));
    list.push(Uid::new(0x646F, 0x000FA98D));
    list.push(Uid::new(0x3638, 0x4110280F));
    list.push(Uid::new(0x3638, 0x0B101323));
    assert(list@ =~= ten_devices());
    list
}

/// Selects the devices that lie in `[min, max]`.
pub fn devices_in_range(devices: &Vec<Uid>, min: &Uid, max: &Uid) -> (found: Vec<Uid>)
    ensures
        found@ == in_range(devices@, *min, *max),
{
    let mut found: Vec<Uid> = Vec::new();
    let low = min.get_as_64();
    let high = max.get_as_64();
    let mut i: usize = 0;
    while i < devices.len()
        invariant
            i <= devices@.len(),
            low == min.value(),
            high == max.value(),
            found@ == in_range(devices@.take(i as int), *min, *max),
        decreases devices@.len() - i,
    {
        let uid = devices[i];
        let v = uid.get_as_64();
        proof {
            assert(devices@.take(i + 1).drop_last() =~= devices@.take(i as int));
        }
        if low <= v && v <= high {
            found.push(uid);
        }
        i += 1;
    }
    assert(devices@.take(devices@.len() as int) =~= devices@);
    found
}

/// Tells whether `uid` is one of `devices`.
pub fn is_listed(devices: &Vec<Uid>, uid: &Uid) -> (listed: bool)
    ensures
        listed == devices@.contains(*uid),
{
    let mut i: usize = 0;
    while i < devices.len()
        invariant
            i <= devices@.len(),
            forall|j: int| 0 <= j < i ==> devices@[j] != *uid,
        decreases devices@.len() - i,
    {
        if devices[i] == *uid {
            return true;
        }
        i += 1;
    }
    false
}

/// Appends the two wire bytes of each byte of `bytes`.
pub fn push_doubled(out: &mut Vec<u8>, bytes: &[u8])
    ensures
        final(out)@ == old(out)@ + doubled(bytes@),
{
    let mut i: usize = 0;
    assert(out@ =~= old(out)@ + doubled(bytes@.take(0)));
    while i < bytes.len()
        invariant
            i <= bytes@.len(),
            out@ == old(out)@ + doubled(bytes@.take(i as int)),
        decreases bytes@.len() - i,
    {
        let b = bytes[i];
        out.push(b | 0xAA);
        out.push(b | 0x55);
        i += 1;
        assert(out@ =~= old(out)@ + doubled(bytes@.take(i as int)));
    }
    assert(bytes@.take(bytes@.len() as int) =~= bytes@);
}

/// The reply of one device: `preamble` bytes 0xFE, the delimiter,
/// identifier and checksum doubled.
pub fn encode_branch_reply(uid: Uid, preamble: usize) -> (reply: Vec<u8>)
    ensures
        reply@ == branch_reply(Seq::new(preamble as nat, |i: int| 0xFEu8), uid),
{
    let mut reply: Vec<u8> = Vec::new();
    let mut i: usize = 0;
    assert(reply@ =~= Seq::new(0nat, |k: int| 0xFEu8));
    while i < preamble
        invariant
            i <= preamble,
            reply@ == Seq::new(i as nat, |k: int| 0xFEu8),
        decreases preamble - i,
    {
        reply.push(PREAMBLE);
        i += 1;
        assert(reply@ =~= Seq::new(i as nat, |k: int| 0xFEu8));
    }
    reply.push(DELIMITER);
    let id = uid.uid_serialize();
    let mut wire: Vec<u8> = Vec::new();
    push_doubled(&mut wire, id.as_slice());
    assert(wire@ =~= doubled(uid.bytes()));
    assert(wire@.take(12) =~= wire@);
    let sum = sum_bytes(wire.as_slice(), 12);
    let mut trailer: Vec<u8> = Vec::new();
    trailer.push((sum / 0x100) as u8);
    trailer.push((sum % 0x100) as u8);
    assert(trailer@ =~= be16(sum));
    push_doubled(&mut reply, id.as_slice());
    push_doubled(&mut reply, trailer.as_slice());
    reply
}

/// Builds the frame by which `from` acknowledges a mute to `to`.
pub fn encode_acknowledgement(from: Uid, to: Uid, tn: u8) -> (frame: Vec<u8>)
    ensures
        frame@ == acknowledgement(from, to, tn).frame(),
{
    let mut response = Pkt::new();
    response.source = from;
    response.destination = to;
    response.tn = tn;
    response.port_or_response_type = RESPONSE_TYPE_ACK;
    response.cc = DISCOVERY_COMMAND_RESPONSE;
    response.pid = DISC_MUTE;
    response.set_message_length();
    response.set_checksum();
    response.serialize()
}

/// What the simulated bus replies to one frame.
pub fn fake_rdm(data: &[u8]) -> (reply: Option<Vec<u8>>)
    requires
        !malformed(data@),
        parse_frame(data@).unwrap().pid == DISC_UNIQUE_BRANCH ==> parse_frame(
            data@,
        ).unwrap().pd.len() >= 12,
    ensures
        reply_view(reply) == simulated_reply(ten_devices(), data@),
{
    let packet = match Pkt::deserialize(vstd::slice::slice_to_vec(data)) {
        Some(packet) => packet,
        None => {
            return None;
        },
    };
    let uid_list = known_devices();
    if packet.pid == DISC_UNIQUE_BRANCH {
        let min = Uid::from_bytes(vstd::slice::slice_subrange(packet.pd.as_slice(), 0, 6));
        let max = Uid::from_bytes(vstd::slice::slice_subrange(packet.pd.as_slice(), 6, 12));
        let uid_found = devices_in_range(&uid_list, &min, &max);
        if uid_found.len() == 0 {
            None
        } else if uid_found.len() == 1 {
            Some(encode_branch_reply(uid_found[0], SIMULATED_PREAMBLE))
        } else {
            Some(vstd::slice::slice_to_vec(data))
        }
    } else if packet.pid == DISC_MUTE && is_listed(&uid_list, &packet.destination) {
        Some(encode_acknowledgement(packet.destination, packet.source, packet.tn))
    } else {
        None
    }
}

} // verus!
