//! The command frame: a fixed header of 24 bytes, the parameter data, and a
//! two-byte additive checksum.

use vstd::prelude::*;
use crate::checksum::{byte_sum, checksum16, sum_bytes, lemma_byte_sum_concat};
use crate::constants::{SC_RDM, SC_SUB_MESSAGE};
use crate::uid::{Uid, uid_from_bytes};

verus! {

/// Number of bytes of a frame that precede the parameter data.
pub const HEADER_LEN: usize = 24;

/// A command frame with every field of the wire format, the computed ones
/// included, so that it can hold an incoming frame as it was received.
#[derive(Clone, Debug)]
pub struct Pkt {
    pub start: u8,
    pub substart: u8,
    pub message_length: u8,
    pub destination: Uid,
    pub source: Uid,
    pub tn: u8,
    pub port_or_response_type: u8,
    pub message_count: u8,
    pub subdevice: u16,
    pub cc: u8,
    pub pid: u16,
    pub pdl: u8,
    pub pd: Vec<u8>,
    pub checksum: u16,
}

/// The mathematical value of a [`Pkt`].
pub struct PktView {
    pub start: u8,
    pub substart: u8,
    pub message_length: u8,
    pub destination: Uid,
    pub source: Uid,
    pub tn: u8,
    pub port_or_response_type: u8,
    pub message_count: u8,
    pub subdevice: u16,
    pub cc: u8,
    pub pid: u16,
    pub pdl: u8,
    pub pd: Seq<u8>,
    pub checksum: u16,
}

impl View for Pkt {
    type V = PktView;

    open spec fn view(&self) -> PktView {
        PktView {
            start: self.start,
            substart: self.substart,
            message_length: self.message_length,
            destination: self.destination,
            source: self.source,
            tn: self.tn,
            port_or_response_type: self.port_or_response_type,
            message_count: self.message_count,
            subdevice: self.subdevice,
            cc: self.cc,
            pid: self.pid,
            pdl: self.pdl,
            pd: self.pd@,
            checksum: self.checksum,
        }
    }
}

/// The two big-endian bytes of a 16-bit number.
pub open spec fn be16(x: u16) -> Seq<u8> {
    seq![(x / 0x100) as u8, (x % 0x100) as u8]
}

/// The 16-bit number that two big-endian bytes spell.
pub open spec fn from_be16(hi: u8, lo: u8) -> u16 {
    (hi as int * 0x100 + lo as int) as u16
}

impl PktView {
    /// The 24 bytes of the fixed header.
    pub open spec fn header(self) -> Seq<u8> {
        seq![self.start, self.substart, self.message_length] + self.destination.bytes()
            + self.source.bytes() + seq![self.tn, self.port_or_response_type, self.message_count]
            + be16(self.subdevice) + seq![self.cc] + be16(self.pid) + seq![self.pdl]
    }

    /// The frame without its checksum trailer: header and parameter data.
    pub open spec fn body(self) -> Seq<u8> {
        self.header() + self.pd
    }

    /// The serialized frame: header, parameter data, checksum.
    pub open spec fn frame(self) -> Seq<u8> {
        self.body() + be16(self.checksum)
    }

    /// The same packet with another checksum.
    pub open spec fn with_checksum(self, c: u16) -> PktView {
        PktView { checksum: c, ..self }
    }

    /// The checksum that the packet ought to carry: the sum, modulo 2^16, of
    /// the bytes of its frame serialized with a checksum of zero.
    pub open spec fn expected_checksum(self) -> u16 {
        checksum16(self.with_checksum(0).frame())
    }

    /// The stored checksum is the one that the packet ought to carry.
    pub open spec fn checksum_ok(self) -> bool {
        self.checksum == self.expected_checksum()
    }

    /// The length fields agree with the parameter data: the data has `pdl`
    /// bytes and the message length counts header and data.
    pub open spec fn well_formed(self) -> bool {
        &&& self.pd.len() == self.pdl
        &&& self.message_length == self.pdl + 24
    }
}

/// A byte sequence is too short to be read as a frame: it lacks part of the
/// fixed header, two bytes at the offset that its message length names, or
/// part of the parameter data that its header announces.
pub open spec fn malformed(s: Seq<u8>) -> bool {
    s.len() < 24 || s.len() < s[2] + 2 || s.len() < 24 + s[23]
}

/// The packet that a byte sequence spells, if any. The checksum is read
/// from the two bytes at the offset that the message length names.
pub open spec fn parse_frame(s: Seq<u8>) -> Option<PktView> {
    if malformed(s) {
        None
    } else {
        Some(
            PktView {
                start: s[0],
                substart: s[1],
                message_length: s[2],
                destination: uid_from_bytes(s.subrange(3, 9)),
                source: uid_from_bytes(s.subrange(9, 15)),
                tn: s[15],
                port_or_response_type: s[16],
                message_count: s[17],
                subdevice: from_be16(s[18], s[19]),
                cc: s[20],
                pid: from_be16(s[21], s[22]),
                pdl: s[23],
                pd: s.subrange(24, 24 + s[23]),
                checksum: from_be16(s[s[2] as int], s[s[2] + 1]),
            },
        )
    }
}

/// The expected checksum is the checksum of header and parameter data.
pub proof fn lemma_expected_checksum(v: PktView)
    ensures
        v.expected_checksum() == checksum16(v.body()),
        v.header().len() == 24,
        v.body().len() == 24 + v.pd.len(),
        v.frame().len() == 26 + v.pd.len(),
{
    let z = v.with_checksum(0);
    assert(z.body() == v.body());
    lemma_byte_sum_concat(z.body(), be16(0));
    assert(byte_sum(be16(0)) == 0) by {
        assert(be16(0).drop_last() =~= seq![0u8]);
        assert(seq![0u8].drop_last() =~= Seq::<u8>::empty());
        reveal_with_fuel(byte_sum, 3);
    }
}

/// Appends the six bytes of an identifier.
pub fn push_uid(out: &mut Vec<u8>, uid: Uid)
    ensures
        final(out)@ == old(out)@ + uid.bytes(),
{
    let bytes = uid.uid_serialize();
    out.push(bytes[0]);
    out.push(bytes[1]);
    out.push(bytes[2]);
    out.push(bytes[3]);
    out.push(bytes[4]);
    out.push(bytes[5]);
    assert(out@ =~= old(out)@ + uid.bytes());
}

impl Pkt {
    /// An empty command frame: the two start codes set, everything else zero.
    pub fn new() -> (p: Pkt)
        ensures
            p@ == (PktView {
                start: SC_RDM,
                substart: SC_SUB_MESSAGE,
                message_length: 0,
                destination: Uid { mfg: 0, dev: 0 },
                source: Uid { mfg: 0, dev: 0 },
                tn: 0,
                port_or_response_type: 0,
                message_count: 0,
                subdevice: 0,
                cc: 0,
                pid: 0,
                pdl: 0,
                pd: Seq::<u8>::empty(),
                checksum: 0,
            }),
    {
        let p = Pkt {
            start: SC_RDM,
            substart: SC_SUB_MESSAGE,
            message_length: 0,
            destination: Uid::new(0, 0),
            source: Uid::new(0, 0),
            tn: 0,
            port_or_response_type: 0,
            message_count: 0,
            subdevice: 0,
            cc: 0,
            pid: 0,
            pdl: 0,
            pd: Vec::new(),
            checksum: 0,
        };
        assert(p.pd@ =~= Seq::<u8>::empty());
        p
    }

    /// Writes the frame: header, parameter data, checksum.
    pub fn serialize(&self) -> (data: Vec<u8>)
        ensures
            data@ == self@.frame(),
    {
        let mut data: Vec<u8> = Vec::new();
        data.push(self.start);
        data.push(self.substart);
        data.push(self.message_length);
        push_uid(&mut data, self.destination);
        push_uid(&mut data, self.source);
        data.push(self.tn);
        data.push(self.port_or_response_type);
        data.push(self.message_count);
        data.push((self.subdevice / 0x100) as u8);
        data.push((self.subdevice % 0x100) as u8);
        data.push(self.cc);
        data.push((self.pid / 0x100) as u8);
        data.push((self.pid % 0x100) as u8);
        data.push(self.pdl);
        assert(data@ =~= self@.header());
        let mut k: usize = 0;
        while k < self.pd.len()
            invariant
                k <= self.pd@.len(),
                data@ == self@.header() + self.pd@.take(k as int),
            decreases self.pd@.len() - k,
        {
            data.push(self.pd[k]);
            k += 1;
            assert(data@ =~= self@.header() + self.pd@.take(k as int));
        }
        assert(self.pd@.take(self.pd@.len() as int) =~= self.pd@);
        data.push((self.checksum / 0x100) as u8);
        data.push((self.checksum % 0x100) as u8);
        assert(data@ =~= self@.frame());
        data
    }

    /// Reads a frame. Gives nothing where the bytes are too short for the
    /// header, the parameter data or the checksum that they announce.
    pub fn deserialize(data: Vec<u8>) -> (parsed: Option<Pkt>)
        ensures
            parsed.is_none() <==> malformed(data@),
            match parsed {
                Some(p) => parse_frame(data@) == Some(p@),
                None => parse_frame(data@).is_none(),
            },
    {
        let n = data.len();
        if n < HEADER_LEN {
            return None;
        }
        let message_length = data[2];
        let pdl = data[23];
        if n < message_length as usize + 2 || n < HEADER_LEN + pdl as usize {
            return None;
        }
        let destination = Uid::from_bytes(vstd::slice::slice_subrange(data.as_slice(), 3, 9));
        let source = Uid::from_bytes(vstd::slice::slice_subrange(data.as_slice(), 9, 15));
        let mut pd: Vec<u8> = Vec::new();
        let mut k: usize = 0;
        while k < pdl as usize
            invariant
                k <= pdl,
                24 + pdl <= data@.len(),
                pd@ == data@.subrange(24, 24 + k),
            decreases pdl - k,
        {
            pd.push(data[HEADER_LEN + k]);
            k += 1;
            assert(pd@ =~= data@.subrange(24, 24 + k));
        }
        let at = message_length as usize;
        let p = Pkt {
            start: data[0],
            substart: data[1],
            message_length,
            destination,
            source,
            tn: data[15],
            port_or_response_type: data[16],
            message_count: data[17],
            subdevice: data[18] as u16 * 0x100 + data[19] as u16,
            cc: data[20],
            pid: data[21] as u16 * 0x100 + data[22] as u16,
            pdl,
            pd,
            checksum: data[at] as u16 * 0x100 + data[at + 1] as u16,
        };
        Some(p)
    }

    /// Computes the checksum of the frame, stores it in the packet and
    /// returns it.
    pub fn set_checksum(&mut self) -> (c: u16)
        ensures
            c == old(self)@.expected_checksum(),
            final(self)@ == old(self)@.with_checksum(c),
            final(self)@.checksum_ok(),
    {
        self.checksum = 0;
        let data = self.serialize();
        proof {
            lemma_expected_checksum(old(self)@);
            lemma_expected_checksum(self@);
            assert(self@ == old(self)@.with_checksum(0));
            assert(data@.take(data@.len() as int) =~= data@);
        }
        let c = sum_bytes(data.as_slice(), data.len());
        self.checksum = c;
        proof {
            assert(self@.with_checksum(0) == old(self)@.with_checksum(0));
        }
        c
    }

    /// Tells whether the stored checksum is the one that the frame ought to
    /// carry.
    pub fn test_checksum(&self) -> (ok: bool)
        ensures
            ok == self@.checksum_ok(),
    {
        let data = self.serialize();
        proof {
            lemma_expected_checksum(self@);
            assert(data@.take(data@.len() - 2) =~= self@.body());
        }
        let c = sum_bytes(data.as_slice(), data.len() - 2);
        self.checksum == c
    }

    /// Derives the message length from the parameter data length and
    /// returns it.
    pub fn set_message_length(&mut self) -> (len: u8)
        requires
            old(self).pdl <= 231,
        ensures
            len == old(self).pdl + 24,
            final(self)@ == (PktView { message_length: len, ..old(self)@ }),
    {
        self.message_length = self.pdl + 24;
        self.message_length
    }
}

} // verus!
