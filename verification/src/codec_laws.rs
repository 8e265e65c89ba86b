//! What holds of the frame codec for every packet: reading back what was
//! written, and the checksum's answer to a changed byte.

use vstd::prelude::*;
use crate::checksum::{
    byte_sum,
    checksum16,
    lemma_byte_sum_bound,
    lemma_byte_sum_concat,
    lemma_byte_sum_update,
};
use crate::packet::{PktView, be16, from_be16, lemma_expected_checksum, malformed, parse_frame};
use crate::uid::uid_from_bytes;

verus! {

/// Six bytes spell an identifier whose bytes they are.
pub proof fn lemma_uid_bytes_back(b: Seq<u8>)
    requires
        b.len() == 6,
    ensures
        uid_from_bytes(b).bytes() == b,
{
    assert(uid_from_bytes(b).bytes() =~= b);
}

/// Reading a frame that is not malformed and writing the header and the
/// parameter data of the result gives back the bytes that were read.
pub proof fn lemma_parse_body(s: Seq<u8>)
    requires
        !malformed(s),
    ensures
        parse_frame(s).unwrap().body() == s.subrange(0, 24 + s[23]),
        parse_frame(s).unwrap().pd.len() == s[23],
{
    let q = parse_frame(s).unwrap();
    lemma_uid_bytes_back(s.subrange(3, 9));
    lemma_uid_bytes_back(s.subrange(9, 15));
    assert(be16(q.subdevice) =~= seq![s[18], s[19]]);
    assert(be16(q.pid) =~= seq![s[21], s[22]]);
    assert(q.header() =~= s.subrange(0, 24));
    assert(q.body() =~= s.subrange(0, 24 + s[23]));
}

/// The bytes of the header, one by one.
pub proof fn lemma_header_bytes(v: PktView)
    ensures
        v.header().len() == 24,
        v.header()[0] == v.start,
        v.header()[1] == v.substart,
        v.header()[2] == v.message_length,
        v.header().subrange(3, 9) == v.destination.bytes(),
        v.header().subrange(9, 15) == v.source.bytes(),
        v.header()[15] == v.tn,
        v.header()[16] == v.port_or_response_type,
        v.header()[17] == v.message_count,
        v.header()[18] == be16(v.subdevice)[0],
        v.header()[19] == be16(v.subdevice)[1],
        v.header()[20] == v.cc,
        v.header()[21] == be16(v.pid)[0],
        v.header()[22] == be16(v.pid)[1],
        v.header()[23] == v.pdl,
{
    let a = seq![v.start, v.substart, v.message_length];
    let b = a + v.destination.bytes();
    let c = b + v.source.bytes();
    let d = c + seq![v.tn, v.port_or_response_type, v.message_count];
    let e = d + be16(v.subdevice);
    let f = e + seq![v.cc];
    let g = f + be16(v.pid);
    let h = g + seq![v.pdl];
    assert(h == v.header());
    assert(b.len() == 9 && c.len() == 15 && d.len() == 18 && e.len() == 20 && f.len() == 21
        && g.len() == 23 && h.len() == 24);
    assert(c.subrange(3, 9) =~= v.destination.bytes());
    assert(c.subrange(9, 15) =~= v.source.bytes());
    assert(h.subrange(3, 9) =~= c.subrange(3, 9));
    assert(h.subrange(9, 15) =~= c.subrange(9, 15));
    assert(h[15] == d[15] && h[16] == d[16] && h[17] == d[17]);
    assert(h[18] == e[18] && h[19] == e[19]);
    assert(h[20] == f[20]);
    assert(h[21] == g[21] && h[22] == g[22]);
    assert(h[0] == a[0] && h[1] == a[1] && h[2] == a[2]);
}

/// Round trip: the frame of a well-formed packet reads back as that packet,
/// every field and the checksum included, so that a packet whose checksum
/// holds reads back as one whose checksum holds.
pub proof fn lemma_round_trip(v: PktView)
    requires
        v.well_formed(),
    ensures
        !malformed(v.frame()),
        parse_frame(v.frame()) == Some(v),
        v.checksum_ok() ==> parse_frame(v.frame()).unwrap().checksum_ok(),
{
    let h = v.header();
    let s = v.frame();
    let n = v.pdl as int;
    lemma_header_bytes(v);
    crate::uid::lemma_bytes_roundtrip(v.destination);
    crate::uid::lemma_bytes_roundtrip(v.source);
    assert(s.len() == 26 + n);
    assert(s.subrange(0, 24) =~= h);
    assert forall|k: int| 0 <= k < 24 implies s[k] == h[k] by {
        assert(s[k] == s.subrange(0, 24)[k]);
    }
    assert(s.subrange(3, 9) =~= h.subrange(3, 9));
    assert(s.subrange(9, 15) =~= h.subrange(9, 15));
    assert(s.subrange(24, 24 + n) =~= v.pd);
    assert(s[24 + n] == be16(v.checksum)[0]);
    assert(s[25 + n] == be16(v.checksum)[1]);
    let q = parse_frame(s).unwrap();
    assert(q.subdevice == v.subdevice);
    assert(q.pid == v.pid);
    assert(q.checksum == v.checksum);
    assert(q.pd == v.pd);
    assert(q.destination == v.destination);
    assert(q.source == v.source);
}

/// Round trip after the checksum was computed: the frame reads back as the
/// packet, and its checksum holds.
pub proof fn lemma_round_trip_checked(v: PktView)
    requires
        v.well_formed(),
    ensures
        ({
            let sent = v.with_checksum(v.expected_checksum());
            &&& parse_frame(sent.frame()) == Some(sent)
            &&& sent.checksum_ok()
        }),
{
    let sent = v.with_checksum(v.expected_checksum());
    lemma_round_trip(sent);
    assert(sent.with_checksum(0) == v.with_checksum(0));
}

/// Two byte sums less than 2^16 apart, and not equal, differ modulo 2^16.
proof fn lemma_sums_differ(x: nat, y: nat)
    requires
        x != y,
        x - y < 0x1_0000,
        y - x < 0x1_0000,
    ensures
        x % 0x1_0000 != y % 0x1_0000,
{
}

/// What a changed frame reads as, where it can be read: the bytes of its
/// header and parameter data, and the sums of these before and after.
proof fn lemma_changed_frame(v: PktView, i: int, b: u8)
    requires
        v.well_formed(),
        0 <= i < v.frame().len(),
        !malformed(v.frame().update(i, b)),
    ensures
        v.frame().len() == 26 + v.pdl,
        v.body() == v.frame().subrange(0, 24 + v.pdl),
        v.expected_checksum() == checksum16(v.body()),
        ({
            let t = v.frame().update(i, b);
            let q = parse_frame(t).unwrap();
            &&& q.body() == t.subrange(0, 24 + t[23])
            &&& q.expected_checksum() == checksum16(q.body())
            &&& q.checksum == from_be16(t[t[2] as int], t[t[2] + 1])
        }),
{
    let t = v.frame().update(i, b);
    lemma_round_trip(v);
    lemma_expected_checksum(v);
    lemma_parse_body(t);
    lemma_parse_body(v.frame());
    lemma_expected_checksum(parse_frame(t).unwrap());
}

/// A changed byte of the checksum is noticed.
proof fn lemma_changed_trailer(v: PktView, i: int, b: u8)
    requires
        v.well_formed(),
        v.checksum_ok(),
        24 + v.pdl <= i < v.frame().len(),
        b != v.frame()[i],
        !malformed(v.frame().update(i, b)),
    ensures
        !parse_frame(v.frame().update(i, b)).unwrap().checksum_ok(),
{
    let s = v.frame();
    let t = s.update(i, b);
    let n = v.pdl as int;
    let q = parse_frame(t).unwrap();
    lemma_changed_frame(v, i, b);
    assert(q.body() =~= v.body());
    assert(be16(v.checksum) =~= seq![s[24 + n], s[25 + n]]);
    assert(v.checksum == from_be16(s[24 + n], s[25 + n]));
    assert(q.checksum == from_be16(t[24 + n], t[25 + n]));
    assert(q.checksum != v.checksum);
}

/// A changed byte of the header or the parameter data, other than the two
/// lengths, is noticed.
proof fn lemma_changed_field(v: PktView, i: int, b: u8)
    requires
        v.well_formed(),
        v.checksum_ok(),
        0 <= i < 24 + v.pdl,
        i != 2,
        i != 23,
        b != v.frame()[i],
        !malformed(v.frame().update(i, b)),
    ensures
        !parse_frame(v.frame().update(i, b)).unwrap().checksum_ok(),
{
    let s = v.frame();
    let t = s.update(i, b);
    let q = parse_frame(t).unwrap();
    lemma_changed_frame(v, i, b);
    assert(q.checksum == v.checksum);
    assert(q.body() =~= v.body().update(i, b));
    lemma_byte_sum_update(v.body(), i, b);
    lemma_sums_differ(byte_sum(q.body()), byte_sum(v.body()));
}

/// A changed parameter data length is noticed.
proof fn lemma_changed_pdl(v: PktView, b: u8)
    requires
        v.well_formed(),
        v.checksum_ok(),
        b != v.frame()[23],
        !malformed(v.frame().update(23, b)),
    ensures
        !parse_frame(v.frame().update(23, b)).unwrap().checksum_ok(),
{
    let s = v.frame();
    let t = s.update(23, b);
    let n = v.pdl as int;
    let m = b as int;
    let q = parse_frame(t).unwrap();
    lemma_changed_frame(v, 23, b);
    lemma_header_bytes(v);
    assert(s[23] == v.body()[23]);
    assert(v.body()[23] == v.header()[23]);
    assert(q.checksum == v.checksum);
    let x = byte_sum(q.body());
    let y = byte_sum(v.body());
    if m < n {
        let kept = v.body().subrange(0, 24 + m);
        let dropped = v.body().subrange(24 + m, 24 + n);
        assert(v.body() =~= kept + dropped);
        lemma_byte_sum_concat(kept, dropped);
        lemma_byte_sum_bound(dropped);
        assert(q.body() =~= kept.update(23, b));
        lemma_byte_sum_update(kept, 23, b);
        assert(kept[23] == v.pdl);
        lemma_sums_differ(x, y);
    } else {
        let held = s.subrange(0, 24 + m);
        let added = s.subrange(24 + n, 24 + m);
        assert(held =~= v.body() + added);
        lemma_byte_sum_concat(v.body(), added);
        lemma_byte_sum_bound(added);
        assert(q.body() =~= held.update(23, b));
        lemma_byte_sum_update(held, 23, b);
        assert(held[23] == v.pdl);
        lemma_sums_differ(x, y);
    }
}

/// Checksum sensitivity: in the frame of a well-formed packet whose
/// checksum holds, replace one byte, any but the message length, by another
/// value. What comes out cannot be read, or reads as a packet whose
/// checksum does not hold.
pub proof fn lemma_changed_byte_fails_checksum(v: PktView, i: int, b: u8)
    requires
        v.well_formed(),
        v.checksum_ok(),
        0 <= i < v.frame().len(),
        i != 2,
        b != v.frame()[i],
    ensures
        match parse_frame(v.frame().update(i, b)) {
            None => true,
            Some(q) => !q.checksum_ok(),
        },
{
    if !malformed(v.frame().update(i, b)) {
        lemma_expected_checksum(v);
        if i >= 24 + v.pdl {
            lemma_changed_trailer(v, i, b);
        } else if i != 23 {
            lemma_changed_field(v, i, b);
        } else {
            lemma_changed_pdl(v, b);
        }
    }
}

} // verus!
