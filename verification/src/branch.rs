//! The reply to a branch query: filler bytes, a delimiter, then the
//! identifier and its checksum with every byte sent twice under two masks.

use vstd::prelude::*;
use crate::checksum::{checksum16, sum_bytes};
use crate::packet::{be16, from_be16};
use crate::uid::{Uid, uid_from_bytes};

verus! {

/// Filler byte of the preamble.
pub const PREAMBLE: u8 = 0xFE;

/// Byte that ends the preamble.
pub const DELIMITER: u8 = 0xAA;

/// Number of wire bytes that follow the delimiter: twelve for the
/// identifier, four for the checksum.
pub const ENCODED_LEN: usize = 16;

/// What a branch query brought back.
#[derive(Copy, Clone, Debug, PartialEq, Eq, Structural)]
pub enum DiscoveryResponse {
    /// No reply, or an empty one: no device is in the range.
    Silence,
    /// One device replied and its checksum holds.
    Unique(Uid),
    /// Something was received that does not hold together: several devices
    /// replied at once.
    Contention,
}

/// Number of filler bytes that `data` begins with.
pub open spec fn preamble_len(data: Seq<u8>) -> int
    decreases data.len(),
{
    if data.len() == 0 || data[0] != PREAMBLE {
        0
    } else {
        1 + preamble_len(data.drop_first())
    }
}

/// The bytes that pairs of wire bytes stand for: each is the bitwise AND of
/// the two bytes of its pair.
pub open spec fn pair_and(wire: Seq<u8>) -> Seq<u8> {
    Seq::new(wire.len() / 2, |i: int| wire[2 * i] & wire[2 * i + 1])
}

/// The two wire bytes of each byte of `bytes`: the byte under the mask
/// `0xAA`, then under the mask `0x55`.
pub open spec fn doubled(bytes: Seq<u8>) -> Seq<u8> {
    Seq::new(2 * bytes.len(), |i: int| if i % 2 == 0 {
        bytes[i / 2] | 0xAAu8
    } else {
        bytes[i / 2] | 0x55u8
    })
}

/// How a received byte sequence is classified. Nothing is silence. A
/// preamble of filler bytes, the delimiter and sixteen wire bytes whose
/// checksum holds are the single reply of a device. Anything else is
/// contention: a byte after the preamble that is not the delimiter, fewer
/// than sixteen bytes after it, or a checksum that does not hold.
pub open spec fn classify_bytes(data: Seq<u8>) -> DiscoveryResponse {
    let n = preamble_len(data);
    let p = n + 1;
    if data.len() == 0 {
        DiscoveryResponse::Silence
    } else if n >= data.len() || data[n] != DELIMITER {
        DiscoveryResponse::Contention
    } else if data.len() < p + 16 {
        DiscoveryResponse::Contention
    } else {
        let id = pair_and(data.subrange(p, p + 12));
        let sum = pair_and(data.subrange(p + 12, p + 16));
        if from_be16(sum[0], sum[1]) == checksum16(data.subrange(p, p + 12)) {
            DiscoveryResponse::Unique(uid_from_bytes(id))
        } else {
            DiscoveryResponse::Contention
        }
    }
}

/// The bytes of a reply, if there was one.
pub open spec fn reply_view(reply: Option<Vec<u8>>) -> Option<Seq<u8>> {
    match reply {
        Some(data) => Some(data@),
        None => None,
    }
}

/// How the outcome of one exchange is classified: no reply is silence.
pub open spec fn classify_reply(reply: Option<Seq<u8>>) -> DiscoveryResponse {
    match reply {
        None => DiscoveryResponse::Silence,
        Some(data) => classify_bytes(data),
    }
}

/// After `i` filler bytes the preamble goes on as that of the rest does.
proof fn lemma_preamble_skip(data: Seq<u8>, i: int)
    requires
        0 <= i <= data.len(),
        forall|j: int| 0 <= j < i ==> data[j] == PREAMBLE,
    ensures
        preamble_len(data) == i + preamble_len(data.skip(i)),
    decreases i,
{
    if i == 0 {
        assert(data.skip(0) =~= data);
    } else {
        lemma_preamble_skip(data.drop_first(), i - 1);
        assert(data.drop_first().skip(i - 1) =~= data.skip(i));
    }
}

/// The reply of the device `id` to a branch query as the wire format has
/// it: the filler bytes `fill`, the delimiter, the six bytes of the
/// identifier doubled, and the checksum of these twelve wire bytes, doubled
/// too.
pub open spec fn branch_reply(fill: Seq<u8>, id: Uid) -> Seq<u8> {
    fill + seq![DELIMITER] + doubled(id.bytes()) + doubled(be16(checksum16(doubled(id.bytes()))))
}

/// The bitwise AND of the two wire bytes of a byte is the byte.
pub proof fn lemma_pair_and_doubled(bytes: Seq<u8>)
    ensures
        pair_and(doubled(bytes)) == bytes,
{
    assert forall|i: int| 0 <= i < bytes.len() implies #[trigger] pair_and(doubled(bytes))[i]
        == bytes[i] by {
        let v = bytes[i];
        assert(doubled(bytes)[2 * i] == v | 0xAAu8);
        assert(doubled(bytes)[2 * i + 1] == v | 0x55u8);
        assert((v | 0xAAu8) & (v | 0x55u8) == v) by (bit_vector);
    }
    assert(pair_and(doubled(bytes)) =~= bytes);
}

/// A reply in the wire format, with a preamble of filler bytes only, is
/// classified as the single reply of the device that sent it.
pub proof fn lemma_branch_reply_is_unique(fill: Seq<u8>, id: Uid)
    requires
        forall|i: int| 0 <= i < fill.len() ==> fill[i] == PREAMBLE,
    ensures
        classify_bytes(branch_reply(fill, id)) == DiscoveryResponse::Unique(id),
{
    let data = branch_reply(fill, id);
    let wire = doubled(id.bytes());
    let sum = checksum16(wire);
    let p: int = fill.len() as int + 1;
    crate::uid::lemma_bytes_roundtrip(id);
    assert(data.len() == p + 16);
    assert(preamble_len(data) == fill.len() && data[fill.len() as int] == DELIMITER) by {
        lemma_preamble_skip(data, fill.len() as int);
        assert(data.skip(fill.len() as int)[0] == DELIMITER);
    }
    assert(data.subrange(p, p + 12) =~= wire);
    assert(data.subrange(p + 12, p + 16) =~= doubled(be16(sum)));
    lemma_pair_and_doubled(id.bytes());
    lemma_pair_and_doubled(be16(sum));
    assert(from_be16(be16(sum)[0], be16(sum)[1]) == sum);
}

impl DiscoveryResponse {
    /// Classifies the bytes that came back from a branch query.
    pub fn from_bytes(data: &[u8]) -> (resp: DiscoveryResponse)
        ensures
            resp == classify_bytes(data@),
    {
        let n = data.len();
        if n == 0 {
            return DiscoveryResponse::Silence;
        }
        let mut fill: usize = 0;
        while fill < n && data[fill] == PREAMBLE
            invariant
                fill <= n,
                n == data@.len(),
                forall|j: int| 0 <= j < fill ==> data@[j] == PREAMBLE,
            decreases n - fill,
        {
            fill += 1;
        }
        proof {
            lemma_preamble_skip(data@, fill as int);
            if fill < n {
                assert(data@.skip(fill as int)[0] == data@[fill as int]);
            }
            assert(fill == preamble_len(data@));
        }
        if fill == n || data[fill] != DELIMITER {
            return DiscoveryResponse::Contention;
        }
        let p: usize = fill + 1;
        if n - p < ENCODED_LEN {
            return DiscoveryResponse::Contention;
        }
        let mfg: u16 = (data[p] & data[p + 1]) as u16 * 0x100 + (data[p + 2] & data[p + 3]) as u16;
        let dev: u32 = (data[p + 4] & data[p + 5]) as u32 * 0x100_0000 + (data[p + 6] & data[p
            + 7]) as u32 * 0x1_0000 + (data[p + 8] & data[p + 9]) as u32 * 0x100 + (data[p + 10]
            & data[p + 11]) as u32;
        let stored: u16 = (data[p + 12] & data[p + 13]) as u16 * 0x100 + (data[p + 14] & data[p
            + 15]) as u16;
        let payload = vstd::slice::slice_subrange(data, p, p + 12);
        proof {
            assert(payload@.take(12) =~= data@.subrange(p as int, p + 12));
        }
        let computed = sum_bytes(payload, 12);
        if stored == computed {
            DiscoveryResponse::Unique(Uid { mfg, dev })
        } else {
            DiscoveryResponse::Contention
        }
    }

    /// Classifies the outcome of one branch query: no reply is silence.
    pub fn from_reply(reply: &Option<Vec<u8>>) -> (resp: DiscoveryResponse)
        ensures
            resp == classify_reply(reply_view(*reply)),
    {
        match reply {
            None => DiscoveryResponse::Silence,
            Some(data) => DiscoveryResponse::from_bytes(data.as_slice()),
        }
    }
}

} // verus!
