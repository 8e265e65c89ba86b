//! Device identifiers: a 16-bit manufacturer id and a 32-bit device id, read
//! together as one 48-bit unsigned number.

use vstd::prelude::*;

verus! {

/// A device identifier.
#[derive(Copy, Clone, Debug, PartialEq, Eq, Structural)]
pub struct Uid {
    pub mfg: u16,
    pub dev: u32,
}

/// The identifier whose 48-bit value is `v` modulo 2^48.
pub open spec fn uid_of_value(v: int) -> Uid {
    Uid { mfg: ((v / 0x1_0000_0000) % 0x1_0000) as u16, dev: (v % 0x1_0000_0000) as u32 }
}

/// The identifier `d` lies in the range `[low, high]`.
pub open spec fn within(d: Uid, low: Uid, high: Uid) -> bool {
    low.value() <= d.value() <= high.value()
}

/// The identifiers of `found` come in ascending order, so that none comes
/// twice.
pub open spec fn ascending(found: Seq<Uid>) -> bool {
    forall|i: int, j: int| 0 <= i < j < found.len() ==> found[i].value() < found[j].value()
}

/// The arithmetic midpoint of two numbers, rounded down toward the smaller.
pub open spec fn midpoint_value(a: int, b: int) -> int {
    if a <= b {
        a + (b - a) / 2
    } else {
        b + (a - b) / 2
    }
}

/// The identifier that six big-endian bytes spell: two for the manufacturer,
/// four for the device.
pub open spec fn uid_from_bytes(b: Seq<u8>) -> Uid
    recommends
        b.len() >= 6,
{
    Uid {
        mfg: (b[0] as int * 0x100 + b[1] as int) as u16,
        dev: (b[2] as int * 0x100_0000 + b[3] as int * 0x1_0000 + b[4] as int * 0x100
            + b[5] as int) as u32,
    }
}

impl Uid {
    /// The identifier as one 48-bit number: the manufacturer id above the
    /// device id.
    pub open spec fn value(self) -> int {
        self.mfg as int * 0x1_0000_0000 + self.dev as int
    }

    /// The identifier halfway between `self` and `top`, rounded down toward
    /// the smaller of the two.
    pub open spec fn midpoint(self, top: Uid) -> Uid {
        uid_of_value(midpoint_value(self.value(), top.value()))
    }

    /// The six big-endian bytes of the identifier.
    pub open spec fn bytes(self) -> Seq<u8> {
        seq![
            (self.mfg / 0x100) as u8,
            (self.mfg % 0x100) as u8,
            (self.dev / 0x100_0000) as u8,
            ((self.dev / 0x1_0000) % 0x100) as u8,
            ((self.dev / 0x100) % 0x100) as u8,
            (self.dev % 0x100) as u8,
        ]
    }

    pub fn new(mfg: u16, dev: u32) -> (uid: Uid)
        ensures
            uid.mfg == mfg,
            uid.dev == dev,
    {
        Uid { mfg, dev }
    }

    /// Writes the identifier as six big-endian bytes.
    pub fn uid_serialize(self) -> (out: [u8; 6])
        ensures
            out@ == self.bytes(),
    {
        let out: [u8; 6] = [
            (self.mfg / 0x100) as u8,
            (self.mfg % 0x100) as u8,
            (self.dev / 0x100_0000) as u8,
            ((self.dev / 0x1_0000) % 0x100) as u8,
            ((self.dev / 0x100) % 0x100) as u8,
            (self.dev % 0x100) as u8,
        ];
        assert(out@ =~= self.bytes());
        out
    }

    /// Reads an identifier from the first six bytes of `data`.
    pub fn from_bytes(data: &[u8]) -> (uid: Uid)
        requires
            data@.len() >= 6,
        ensures
            uid == uid_from_bytes(data@),
    {
        let mfg: u16 = data[0] as u16 * 0x100 + data[1] as u16;
        let dev: u32 = data[2] as u32 * 0x100_0000 + data[3] as u32 * 0x1_0000 + data[4] as u32
            * 0x100 + data[5] as u32;
        Uid { mfg, dev }
    }

    /// Has no effect on the caller's identifier: the receiver is a copy.
    pub fn set_mfg(self, mfg_id: u16) {
        let mut copy = self;
        copy.mfg = mfg_id;
    }

    /// Has no effect on the caller's identifier: the receiver is a copy.
    pub fn set_dev(self, dev_id: u32) {
        let mut copy = self;
        copy.dev = dev_id;
    }

    /// Has no effect on the caller's identifier: the receiver is a copy.
    pub fn set_from_64(self, val: u64) {
        let mut copy = self;
        copy.mfg = ((val / 0x1_0000_0000) % 0x1_0000) as u16;
        copy.dev = (val % 0x1_0000_0000) as u32;
    }

    pub fn get_mfg(self) -> (mfg: u16)
        ensures
            mfg == self.mfg,
    {
        self.mfg
    }

    pub fn get_dev(self) -> (dev: u32)
        ensures
            dev == self.dev,
    {
        self.dev
    }

    /// The identifier as one number below 2^48.
    pub fn get_as_64(self) -> (v: u64)
        ensures
            v == self.value(),
            v < 0x1_0000_0000_0000,
    {
        self.mfg as u64 * 0x1_0000_0000 + self.dev as u64
    }

    /// The identifier of the low 48 bits of `val`; higher bits are dropped.
    pub fn new_from_64(val: u64) -> (uid: Uid)
        ensures
            uid == uid_of_value(val as int),
            uid.value() == val % 0x1_0000_0000_0000,
    {
        Uid { mfg: ((val / 0x1_0000_0000) % 0x1_0000) as u16, dev: (val % 0x1_0000_0000) as u32 }
    }

    /// The identifier halfway between `self` and `top`, rounded down toward
    /// the smaller of the two.
    pub fn get_midpoint(self, top: &Uid) -> (mid: Uid)
        ensures
            mid == self.midpoint(*top),
            mid.value() == midpoint_value(self.value(), top.value()),
            self.value() <= top.value() ==> self.value() <= mid.value() <= top.value(),
            top.value() <= self.value() ==> top.value() <= mid.value() <= self.value(),
            self == *top ==> mid == self,
    {
        if self == *top {
            return self;
        }
        let bot_64: u64 = self.get_as_64();
        let top_64: u64 = top.get_as_64();
        let mid_64: u64 = if top_64 >= bot_64 {
            (top_64 - bot_64) / 2 + bot_64
        } else {
            (bot_64 - top_64) / 2 + top_64
        };
        Uid::new_from_64(mid_64)
    }
}

/// An identifier is determined by its 48-bit value.
pub proof fn lemma_value_injective(a: Uid, b: Uid)
    ensures
        a.value() == b.value() <==> a == b,
        0 <= a.value() < 0x1_0000_0000_0000,
        uid_of_value(a.value()) == a,
{
}

/// The midpoint of two identifiers has the midpoint of their values, which
/// lies between them, and strictly so where they are two or more apart:
/// both halves of such a range are narrower than the range.
pub proof fn lemma_midpoint_value(a: Uid, b: Uid)
    ensures
        a.midpoint(b).value() == midpoint_value(a.value(), b.value()),
        a.value() <= b.value() ==> a.value() <= a.midpoint(b).value() <= b.value(),
        b.value() <= a.value() ==> b.value() <= a.midpoint(b).value() <= a.value(),
        a.midpoint(a) == a,
        a.value() + 2 <= b.value() ==> a.value() < a.midpoint(b).value() < b.value(),
{
}

/// Reading back the six bytes of an identifier gives the identifier.
pub proof fn lemma_bytes_roundtrip(a: Uid)
    ensures
        a.bytes().len() == 6,
        uid_from_bytes(a.bytes()) == a,
{
}

} // verus!
