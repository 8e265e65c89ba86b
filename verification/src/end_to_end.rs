//! What a discovery run finds on the simulated bus. Its devices are never
//! muted, so a device that sat on a midpoint of the search would answer in
//! both halves. The ten devices sit on none, and far enough apart for the
//! depth of the search: a run finds each of them once, in ascending order.

use vstd::prelude::*;
use crate::branch::{
    DiscoveryResponse,
    classify_bytes,
    classify_reply,
    lemma_branch_reply_is_unique,
    preamble_len,
    reply_view,
};
use crate::codec_laws::lemma_header_bytes;
use crate::constants::{DISC_MUTE, DISC_UNIQUE_BRANCH};
use crate::outcome::{
    Progress,
    acknowledges_mute,
    branch_frame,
    branch_outcome,
    broadcast_uid,
    command_view,
    discovery_outcome,
    exchanged,
    found_if,
    highest_uid,
    lemma_branch,
    lemma_command_reads_back,
    lemma_retry_first,
    lemma_split_halves,
    lowest_uid,
    mute_frame,
    mute_outcome,
    node_outcome,
    settled,
    reply_outcome,
    retry_outcome,
    search_outcome,
    sendable,
    split_outcome,
    unmute_outcome,
};
use crate::discovery::{do_discovery_algo, transport_model};
use crate::simulated::{
    SIMULATED_PREAMBLE,
    fake_rdm,
    in_range,
    lemma_acknowledgement,
    preamble,
    simulated_reply,
    ten_devices,
};
use crate::uid::{
    Uid,
    ascending,
    lemma_bytes_roundtrip,
    lemma_midpoint_value,
    lemma_value_injective,
    within,
};

verus! {

/// The simulated bus as a bus model without state: it admits the one reply
/// that the devices give to the frame.
pub open spec fn simulated_bus(devices: Seq<Uid>) -> spec_fn(
    (),
    Seq<u8>,
    Option<Seq<u8>>,
    (),
) -> bool {
    |before: (), frame: Seq<u8>, reply: Option<Seq<u8>>, after: ()|
        reply == simulated_reply(devices, frame)
}

/// Whatever its state, the bus replies to every sendable frame as the
/// devices `devices`, never muted, do.
pub open spec fn replies_as_simulated<S>(
    model: spec_fn(S, Seq<u8>, Option<Seq<u8>>, S) -> bool,
    devices: Seq<Uid>,
) -> bool {
    forall|before: S, frame: Seq<u8>, reply: Option<Seq<u8>>, after: S|
        #[trigger] exchanged(model, before, frame, reply, after) && sendable(frame) ==> reply
            == simulated_reply(devices, frame)
}

/// The devices lie in the searched space, more than 16 apart from one
/// another, and none just below a multiple of 32. No midpoint of the search
/// then falls on a device in a range that holds another.
pub open spec fn well_spaced(devices: Seq<Uid>) -> bool {
    &&& forall|i: int|
        0 <= i < devices.len() ==> (#[trigger] devices[i]).mfg < 0x8000 && (devices[i].value() + 1)
            % 32 != 0
    &&& forall|i: int, j: int|
        0 <= i < devices.len() && 0 <= j < devices.len() && i != j ==> far_apart(
            #[trigger] devices[i],
            #[trigger] devices[j],
        )
}

/// Two identifiers are more than 16 apart.
pub open spec fn far_apart(a: Uid, b: Uid) -> bool {
    a.value() - b.value() > 16 || b.value() - a.value() > 16
}

/// The width of the ranges that a search with `depth` halvings left looks
/// at, after the first: a power of two.
pub open spec fn grid(depth: nat) -> int
    decreases depth,
{
    if depth <= 1 {
        1
    } else {
        2 * grid((depth - 1) as nat)
    }
}

/// The range `[low, high]` is the one that a search with `depth` halvings
/// left looks at in place `m` from the left: it ends just below the
/// multiple `m + 1` of the grid, and starts just below the multiple `m`, or
/// at zero.
pub open spec fn shaped(low: Uid, high: Uid, depth: nat, m: int) -> bool {
    &&& depth >= 1
    &&& m >= 0
    &&& high.value() + 1 == (m + 1) * grid(depth)
    &&& low.value() + 1 == m * grid(depth) || (m == 0 && low.value() == 0)
}

/// `found` lists the devices of `[low, high]`: each once, in ascending
/// order, and nothing else.
pub open spec fn lists(devices: Seq<Uid>, low: Uid, high: Uid, found: Seq<Uid>) -> bool {
    &&& ascending(found)
    &&& forall|d: Uid| #[trigger] found.contains(d) <==> devices.contains(d) && within(d, low, high)
}

/// The grid is positive, and a multiple of 32 once it is above 16.
proof fn lemma_grid(depth: nat)
    ensures
        grid(depth) >= 1,
        grid(depth) <= 16 || grid(depth) % 32 == 0,
        depth >= 2 ==> grid(depth) == 2 * grid((depth - 1) as nat),
    decreases depth,
{
    if depth > 1 {
        lemma_grid((depth - 1) as nat);
        let g = grid((depth - 1) as nat);
        if g <= 16 {
            lemma_grid_small((depth - 1) as nat);
        }
    }
}

/// A grid of at most 16 is one of five values.
proof fn lemma_grid_small(depth: nat)
    ensures
        grid(depth) <= 16 ==> grid(depth) == 1 || grid(depth) == 2 || grid(depth) == 4 || grid(
            depth,
        ) == 8 || grid(depth) == 16,
    decreases depth,
{
    if depth > 1 {
        lemma_grid_small((depth - 1) as nat);
        lemma_grid((depth - 1) as nat);
    }
}

/// What lies in a range are the devices of the list that are within it,
/// and none twice where the list holds none twice.
pub proof fn lemma_in_range(devices: Seq<Uid>, low: Uid, high: Uid)
    ensures
        forall|d: Uid| #[trigger]
            in_range(devices, low, high).contains(d) <==> devices.contains(d) && within(d, low, high),
        devices.no_duplicates() ==> in_range(devices, low, high).no_duplicates(),
    decreases devices.len(),
{
    let r = in_range(devices, low, high);
    if devices.len() > 0 {
        let front = devices.drop_last();
        let last = devices.last();
        let rest = in_range(front, low, high);
        lemma_in_range(front, low, high);
        assert forall|d: Uid| #[trigger] r.contains(d) <==> devices.contains(d) && within(
            d,
            low,
            high,
        ) by {
            if r.contains(d) {
                let k = choose|k: int| 0 <= k < r.len() && r[k] == d;
                if k < rest.len() {
                    assert(rest[k] == d);
                    assert(rest.contains(d));
                    let n = choose|n: int| 0 <= n < front.len() && front[n] == d;
                    assert(devices[n] == d);
                } else {
                    assert(d == last);
                    assert(devices[devices.len() - 1] == d);
                }
            }
            if devices.contains(d) && within(d, low, high) {
                let n = choose|n: int| 0 <= n < devices.len() && devices[n] == d;
                if n < front.len() {
                    assert(front[n] == d);
                    assert(front.contains(d));
                    assert(rest.contains(d));
                    let k = choose|k: int| 0 <= k < rest.len() && rest[k] == d;
                    assert(r[k] == d);
                } else {
                    assert(r[r.len() - 1] == d);
                }
            }
        }
        if devices.no_duplicates() {
            assert(front.no_duplicates());
            if within(last, low, high) {
                assert forall|i: int, j: int| 0 <= i < r.len() && 0 <= j < r.len() && i != j implies r[i]
                    != r[j] by {
                    if i < rest.len() && j < rest.len() {
                        assert(rest[i] != rest[j]);
                    } else {
                        let k = if i < rest.len() {
                            i
                        } else {
                            j
                        };
                        assert(rest.contains(rest[k]));
                        if rest[k] == last {
                            let n = choose|n: int| 0 <= n < front.len() && front[n] == last;
                            assert(devices[n] == devices[devices.len() - 1]);
                        }
                    }
                }
            }
        }
    }
}

/// Devices that are well spaced are all different, far apart and off the
/// multiples of 32.
proof fn lemma_well_spaced(devices: Seq<Uid>, a: Uid, b: Uid)
    requires
        well_spaced(devices),
        devices.contains(a),
        devices.contains(b),
    ensures
        devices.no_duplicates(),
        a != b ==> far_apart(a, b),
        (a.value() + 1) % 32 != 0,
        a.mfg < 0x8000,
{
    let i = choose|i: int| 0 <= i < devices.len() && devices[i] == a;
    let j = choose|j: int| 0 <= j < devices.len() && devices[j] == b;
    assert(devices[i].mfg < 0x8000);
    assert forall|x: int, y: int| 0 <= x < devices.len() && 0 <= y < devices.len() && x
        != y implies devices[x] != devices[y] by {
        assert(far_apart(devices[x], devices[y]));
    }
    if a != b {
        assert(far_apart(devices[i], devices[j]));
    }
}

/// The ten devices are well spaced.
pub proof fn lemma_ten_devices_well_spaced()
    ensures
        well_spaced(ten_devices()),
{
    let t = ten_devices();
    assert(t.len() == 10);
    assert(t[0].value() == 0x3638_0810_1AD8);
    assert(t[1].value() == 0x646F_000E_8E22);
    assert(t[2].value() == 0x646F_000F_B190);
    assert(t[3].value() == 0x3638_2710_6D31);
    assert(t[4].value() == 0x3638_0B10_1307);
    assert(t[5].value() == 0x646F_000F_B118);
    assert(t[6].value() == 0x6574_1B69_D0FE);
    assert(t[7].value() == 0x646F_000F_A98D);
    assert(t[8].value() == 0x3638_4110_280F);
    assert(t[9].value() == 0x3638_0B10_1323);
}

/// On a bus that replies as the devices do, the reply to a branch query is
/// classified by the number of devices in its range.
proof fn lemma_simulated_node<S>(
    model: spec_fn(S, Seq<u8>, Option<Seq<u8>>, S) -> bool,
    devices: Seq<Uid>,
    source: Uid,
    low: Uid,
    high: Uid,
    before: Progress<S>,
    resp: DiscoveryResponse,
    asked: Progress<S>,
)
    requires
        replies_as_simulated(model, devices),
        node_outcome(model, source, low, high, before, resp, asked),
    ensures
        resp == node_answer(in_range(devices, low, high)),
{
    let reply = choose|reply: Option<Seq<u8>>| #[trigger]
        exchanged(model, before.bus, branch_frame(source, low, high, asked.tn), reply, asked.bus)
            && resp == classify_reply(reply);
    let frame = branch_frame(source, low, high, asked.tn);
    let pd = low.bytes() + high.bytes();
    let v = command_view(broadcast_uid(), source, asked.tn, DISC_UNIQUE_BRANCH, pd);
    lemma_bytes_roundtrip(low);
    lemma_bytes_roundtrip(high);
    lemma_command_reads_back(broadcast_uid(), source, asked.tn, DISC_UNIQUE_BRANCH, pd);
    assert(pd.subrange(0, 6) =~= low.bytes());
    assert(pd.subrange(6, 12) =~= high.bytes());
    assert(sendable(frame));
    assert(reply == simulated_reply(devices, frame));
    let r = in_range(devices, low, high);
    if r.len() == 1 {
        lemma_branch_reply_is_unique(preamble(SIMULATED_PREAMBLE as nat), r[0]);
    } else if r.len() >= 2 {
        lemma_command_starts(broadcast_uid(), source, asked.tn, DISC_UNIQUE_BRANCH, pd);
        assert(preamble_len(frame) == 0);
        assert(classify_bytes(frame) == DiscoveryResponse::Contention);
    }
}

/// How the reply of never muted devices to a branch query is classified:
/// silence where none is in the range, the single reply of the device
/// where one is, contention where several are.
pub open spec fn node_answer(present: Seq<Uid>) -> DiscoveryResponse {
    if present.len() == 0 {
        DiscoveryResponse::Silence
    } else if present.len() == 1 {
        DiscoveryResponse::Unique(present[0])
    } else {
        DiscoveryResponse::Contention
    }
}

/// The frame of a discovery command starts with the start code.
proof fn lemma_command_starts(destination: Uid, source: Uid, tn: u8, pid: u16, pd: Seq<u8>)
    ensures
        command_view(destination, source, tn, pid, pd).frame().len() > 0,
        command_view(destination, source, tn, pid, pd).frame()[0] == 0xCC,
{
    reveal(command_view);
    let v = command_view(destination, source, tn, pid, pd);
    lemma_header_bytes(v);
    assert(v.frame()[0] == v.header()[0]);
}

/// On a bus that replies as the devices do, one of them acknowledges its
/// mute.
proof fn lemma_simulated_mute<S>(
    model: spec_fn(S, Seq<u8>, Option<Seq<u8>>, S) -> bool,
    devices: Seq<Uid>,
    source: Uid,
    target: Uid,
    before: Progress<S>,
    ok: bool,
    after: Progress<S>,
)
    requires
        replies_as_simulated(model, devices),
        devices.contains(target),
        mute_outcome(model, source, target, before, ok, after),
    ensures
        ok,
{
    let reply = choose|reply: Option<Seq<u8>>| #[trigger]
        exchanged(model, before.bus, mute_frame(source, target, after.tn), reply, after.bus) && ok
            == acknowledges_mute(reply, target);
    let frame = mute_frame(source, target, after.tn);
    lemma_command_reads_back(target, source, after.tn, DISC_MUTE, Seq::<u8>::empty());
    assert(sendable(frame));
    assert(reply == simulated_reply(devices, frame));
    lemma_acknowledgement(target, source, after.tn);
}

/// One search lists the devices of its range.
proof fn lemma_search_lists<S>(
    model: spec_fn(S, Seq<u8>, Option<Seq<u8>>, S) -> bool,
    devices: Seq<Uid>,
    source: Uid,
    low: Uid,
    high: Uid,
    repeat: bool,
    depth: nat,
    m: int,
    before: Progress<S>,
    found: Seq<Uid>,
    after: Progress<S>,
)
    requires
        replies_as_simulated(model, devices),
        well_spaced(devices),
        shaped(low, high, depth, m),
        search_outcome(model, source, low, high, repeat, depth, before, found, after),
    ensures
        lists(devices, low, high, found),
    decreases depth, 1nat,
{
    let (resp, asked) = choose|resp: DiscoveryResponse, asked: Progress<S>|
        #![trigger node_outcome(model, source, low, high, before, resp, asked)]
        node_outcome(model, source, low, high, before, resp, asked) && reply_outcome(
            model,
            source,
            low,
            high,
            repeat,
            depth,
            resp,
            asked,
            found,
            after,
        );
    lemma_simulated_node(model, devices, source, low, high, before, resp, asked);
    lemma_reply_lists(model, devices, source, low, high, repeat, depth, m, resp, asked, found, after);
}

/// What follows the reply to a branch query lists the devices of the
/// range.
proof fn lemma_reply_lists<S>(
    model: spec_fn(S, Seq<u8>, Option<Seq<u8>>, S) -> bool,
    devices: Seq<Uid>,
    source: Uid,
    low: Uid,
    high: Uid,
    repeat: bool,
    depth: nat,
    m: int,
    resp: DiscoveryResponse,
    asked: Progress<S>,
    found: Seq<Uid>,
    after: Progress<S>,
)
    requires
        replies_as_simulated(model, devices),
        well_spaced(devices),
        shaped(low, high, depth, m),
        resp == node_answer(in_range(devices, low, high)),
        reply_outcome(model, source, low, high, repeat, depth, resp, asked, found, after),
    ensures
        lists(devices, low, high, found),
    decreases depth, 0nat,
{
    let r = in_range(devices, low, high);
    lemma_in_range(devices, low, high);
    match resp {
        DiscoveryResponse::Silence => {
            assert(found =~= Seq::<Uid>::empty());
            assert forall|d: Uid| #[trigger] found.contains(d) <==> devices.contains(d) && within(
                d,
                low,
                high,
            ) by {
                if devices.contains(d) && within(d, low, high) {
                    assert(r.contains(d));
                }
            }
        },
        DiscoveryResponse::Unique(id) => {
            assert(r[0] == id);
            assert(r.contains(id));
            let ok = mute_outcome(model, source, id, asked, true, after) && found == found_if(
                true,
                id,
            );
            lemma_simulated_mute(model, devices, source, id, asked, ok, after);
            assert(found =~= seq![id]);
            assert(found[0] == id);
            assert forall|d: Uid| #[trigger] found.contains(d) <==> devices.contains(d) && within(
                d,
                low,
                high,
            ) by {
                if devices.contains(d) && within(d, low, high) {
                    assert(r.contains(d));
                    let k = choose|k: int| 0 <= k < r.len() && r[k] == d;
                    assert(d == id);
                }
            }
        },
        DiscoveryResponse::Contention => {
            let a = r[0];
            let b = r[1];
            assert(r.contains(a) && r.contains(b));
            lemma_well_spaced(devices, a, b);
            assert(a != b);
            lemma_grid(depth);
            assert(depth >= 2) by {
                if depth == 1 {
                    assert(grid(depth) == 1);
                    assert((m + 1) * 1 == m + 1);
                    assert(m * 1 == m);
                }
            }
            assert(low != high);
            lemma_split_lists(
                model,
                devices,
                source,
                low,
                high,
                repeat,
                (depth - 1) as nat,
                m,
                a,
                b,
                asked,
                found,
                after,
            );
        },
    }
}

/// The midpoint of a range that holds two devices is no device.
proof fn lemma_midpoint_is_free(devices: Seq<Uid>, low: Uid, high: Uid, depth: nat, m: int, a: Uid, b: Uid)
    requires
        well_spaced(devices),
        depth >= 1,
        shaped(low, high, depth + 1, m),
        devices.contains(a) && within(a, low, high),
        devices.contains(b) && within(b, low, high),
        a != b,
    ensures
        low.midpoint(high).value() + 1 == (2 * m + 1) * grid(depth),
        shaped(low, low.midpoint(high), depth, 2 * m),
        shaped(low.midpoint(high), high, depth, 2 * m + 1),
        !devices.contains(low.midpoint(high)),
{
    let q = grid(depth + 1);
    let h = grid(depth);
    let mid = low.midpoint(high);
    lemma_grid(depth + 1);
    lemma_grid(depth);
    lemma_midpoint_value(low, high);
    assert(q == 2 * h);
    assert((m + 1) * q == m * q + q) by (nonlinear_arith);
    assert(m * q == (2 * m) * h) by (nonlinear_arith)
        requires
            q == 2 * h,
    ;
    assert((2 * m + 1) * h == (2 * m) * h + h) by (nonlinear_arith);
    assert((2 * m + 2) * h == (2 * m + 1) * h + h) by (nonlinear_arith);
    assert(m == 0 ==> m * q == 0);
    assert(mid.value() + 1 == (2 * m + 1) * h);
    assert(mid.value() - low.value() <= h && high.value() - mid.value() <= h);
    if devices.contains(mid) {
        let other = if a == mid {
            b
        } else {
            a
        };
        lemma_well_spaced(devices, mid, other);
        lemma_value_injective(mid, other);
        if h > 16 {
            let k = h / 32;
            assert(h == 32 * k);
            assert((2 * m + 1) * h == 32 * ((2 * m + 1) * k)) by (nonlinear_arith)
                requires
                    h == 32 * k,
            ;
            assert((32 * ((2 * m + 1) * k)) % 32 == 0);
        }
    }
}

/// The search of the two halves of a range that holds two devices lists
/// the devices of the range.
proof fn lemma_split_lists<S>(
    model: spec_fn(S, Seq<u8>, Option<Seq<u8>>, S) -> bool,
    devices: Seq<Uid>,
    source: Uid,
    low: Uid,
    high: Uid,
    repeat: bool,
    depth: nat,
    m: int,
    a: Uid,
    b: Uid,
    before: Progress<S>,
    found: Seq<Uid>,
    after: Progress<S>,
)
    requires
        replies_as_simulated(model, devices),
        well_spaced(devices),
        depth >= 1,
        shaped(low, high, depth + 1, m),
        devices.contains(a) && within(a, low, high),
        devices.contains(b) && within(b, low, high),
        a != b,
        split_outcome(model, source, low, high, repeat, depth, before, found, after),
    ensures
        lists(devices, low, high, found),
    decreases depth, 4nat,
{
    let mid = low.midpoint(high);
    lemma_midpoint_is_free(devices, low, high, depth, m, a, b);
    lemma_midpoint_value(low, high);
    let halves = lemma_split_halves(model, source, low, high, repeat, depth, before, found, after);
    let left = halves.0.found;
    let between = halves.0.at;
    let right = halves.1.found;
    lemma_branch_lists(model, devices, source, low, mid, repeat, depth, 2 * m, before, left, between);
    lemma_branch_lists(model, devices, source, mid, high, repeat, depth, 2 * m + 1, between, right, after);
    assert forall|i: int| 0 <= i < left.len() implies (#[trigger] left[i]).value() < mid.value() by {
        assert(left.contains(left[i]));
        lemma_value_injective(left[i], mid);
    }
    assert forall|j: int| 0 <= j < right.len() implies (#[trigger] right[j]).value()
        > mid.value() by {
        assert(right.contains(right[j]));
        lemma_value_injective(right[j], mid);
    }
    assert forall|i: int, j: int| 0 <= i < j < found.len() implies found[i].value()
        < found[j].value() by {
        if j < left.len() {
            assert(found[i] == left[i] && found[j] == left[j]);
        } else if i >= left.len() {
            assert(found[i] == right[i - left.len()] && found[j] == right[j - left.len()]);
        } else {
            assert(found[i] == left[i] && found[j] == right[j - left.len()]);
        }
    }
    assert forall|d: Uid| #[trigger] found.contains(d) <==> devices.contains(d) && within(
        d,
        low,
        high,
    ) by {
        if found.contains(d) {
            let k = choose|k: int| 0 <= k < found.len() && found[k] == d;
            if k < left.len() {
                assert(left[k] == d);
                assert(left.contains(d));
            } else {
                assert(right[k - left.len()] == d);
                assert(right.contains(d));
            }
        }
        if devices.contains(d) && within(d, low, high) {
            if d.value() <= mid.value() {
                assert(left.contains(d));
                let k = choose|k: int| 0 <= k < left.len() && left[k] == d;
                assert(found[k] == d);
            } else {
                assert(right.contains(d));
                let k = choose|k: int| 0 <= k < right.len() && right[k] == d;
                assert(found[left.len() + k] == d);
            }
        }
    }
}

/// The search of a range with its retries lists the devices of the range.
proof fn lemma_branch_lists<S>(
    model: spec_fn(S, Seq<u8>, Option<Seq<u8>>, S) -> bool,
    devices: Seq<Uid>,
    source: Uid,
    low: Uid,
    high: Uid,
    repeat: bool,
    depth: nat,
    m: int,
    before: Progress<S>,
    found: Seq<Uid>,
    after: Progress<S>,
)
    requires
        replies_as_simulated(model, devices),
        well_spaced(devices),
        shaped(low, high, depth, m),
        branch_outcome(model, source, low, high, repeat, depth, before, found, after),
    ensures
        lists(devices, low, high, found),
    decreases depth, 3nat,
{
    lemma_branch(model, source, low, high, repeat, depth, before, found, after);
    lemma_retry_lists(model, devices, source, low, high, repeat, depth, m, 2, before, found, after);
}

/// A search with retries left lists the devices of the range.
proof fn lemma_retry_lists<S>(
    model: spec_fn(S, Seq<u8>, Option<Seq<u8>>, S) -> bool,
    devices: Seq<Uid>,
    source: Uid,
    low: Uid,
    high: Uid,
    repeat: bool,
    depth: nat,
    m: int,
    tries: nat,
    before: Progress<S>,
    found: Seq<Uid>,
    after: Progress<S>,
)
    requires
        replies_as_simulated(model, devices),
        well_spaced(devices),
        shaped(low, high, depth, m),
        retry_outcome(model, source, low, high, repeat, depth, tries, before, found, after),
    ensures
        lists(devices, low, high, found),
    decreases depth, 2nat, tries,
{
    let next = lemma_retry_first(model, source, low, high, repeat, depth, tries, before, found, after);
    lemma_search_lists(model, devices, source, low, high, repeat, depth, m, before, next.found, next.at);
    if !settled(repeat, tries, next) {
        lemma_retry_lists(
            model,
            devices,
            source,
            low,
            high,
            repeat,
            depth,
            m,
            (tries - 1) as nat,
            next.at,
            found,
            after,
        );
    }
}

/// On a bus that replies as well spaced devices, never muted, do, a
/// discovery run returns every device, each once, in ascending order, and
/// nothing else.
pub proof fn lemma_run_lists_the_devices<S>(
    model: spec_fn(S, Seq<u8>, Option<Seq<u8>>, S) -> bool,
    devices: Seq<Uid>,
    source: Uid,
    do_mute: bool,
    repeat: bool,
    before: S,
    found: Seq<Uid>,
    after: S,
)
    requires
        replies_as_simulated(model, devices),
        well_spaced(devices),
        discovery_outcome(model, source, do_mute, repeat, before, found, after),
    ensures
        ascending(found),
        found.no_duplicates(),
        forall|d: Uid| found.contains(d) <==> devices.contains(d),
        found.to_set() == devices.to_set(),
{
    let (started, ended) = choose|started: Progress<S>, ended: Progress<S>|
        #![trigger
            unmute_outcome(model, source, do_mute, Progress { bus: before, tn: 0 }, started),
            branch_outcome(model, source, lowest_uid(), highest_uid(), repeat, 48, started, found, ended)]
        unmute_outcome(model, source, do_mute, Progress { bus: before, tn: 0 }, started)
            && branch_outcome(
            model,
            source,
            lowest_uid(),
            highest_uid(),
            repeat,
            48,
            started,
            found,
            ended,
        ) && ended.bus == after;
    assert(shaped(lowest_uid(), highest_uid(), 48, 0)) by {
        reveal_with_fuel(grid, 49);
    }
    lemma_branch_lists(
        model,
        devices,
        source,
        lowest_uid(),
        highest_uid(),
        repeat,
        48,
        0,
        started,
        found,
        ended,
    );
    assert forall|d: Uid| found.contains(d) <==> devices.contains(d) by {
        if devices.contains(d) {
            lemma_well_spaced(devices, d, d);
            assert(within(d, lowest_uid(), highest_uid()));
        }
    }
    assert forall|i: int, j: int| 0 <= i < found.len() && 0 <= j < found.len() && i
        != j implies found[i] != found[j] by {
        if i < j {
            assert(found[i].value() < found[j].value());
        } else {
            assert(found[j].value() < found[i].value());
        }
    }
    assert(found.to_set() =~= devices.to_set());
}

/// End to end: a discovery run on the simulated bus with its ten devices,
/// with or without the opening un-mute and with or without retries,
/// returns the ten devices, each once, in ascending order.
pub proof fn lemma_simulated_run_finds_the_ten(
    source: Uid,
    do_mute: bool,
    repeat: bool,
    found: Seq<Uid>,
)
    requires
        discovery_outcome(simulated_bus(ten_devices()), source, do_mute, repeat, (), found, ()),
    ensures
        ascending(found),
        found.no_duplicates(),
        forall|d: Uid| found.contains(d) <==> ten_devices().contains(d),
        found.to_set() == ten_devices().to_set(),
{
    lemma_ten_devices_well_spaced();
    lemma_run_lists_the_devices(
        simulated_bus(ten_devices()),
        ten_devices(),
        source,
        do_mute,
        repeat,
        (),
        found,
        (),
    );
}

/// The simulated bus, taken as a transport function, replies as the ten
/// devices do.
pub proof fn lemma_fake_rdm_replies_as_simulated()
    ensures
        replies_as_simulated(transport_model(fake_rdm), ten_devices()),
{
    let model = transport_model(fake_rdm);
    assert forall|before: (), frame: Seq<u8>, reply: Option<Seq<u8>>, after: ()|
        #[trigger] exchanged(model, before, frame, reply, after) && sendable(frame) implies reply
        == simulated_reply(ten_devices(), frame) by {
        let (sent, got) = choose|sent: &[u8], got: Option<Vec<u8>>|
            sent@ == frame && reply_view(got) == reply && call_ensures(fake_rdm, (sent,), got);
        assert(call_ensures(fake_rdm, (sent,), got));
    }
}

/// Runs a discovery on the simulated bus. It returns the ten devices, each
/// once, in ascending order.
pub fn discover_simulated(my_uid: &Uid, do_mute: bool, repeat_disc: bool) -> (tod: Vec<Uid>)
    ensures
        ascending(tod@),
        tod@.no_duplicates(),
        forall|d: Uid| tod@.contains(d) <==> ten_devices().contains(d),
        tod@.to_set() == ten_devices().to_set(),
{
    let tod = do_discovery_algo(fake_rdm, my_uid, do_mute, repeat_disc);
    proof {
        lemma_fake_rdm_replies_as_simulated();
        lemma_ten_devices_well_spaced();
        lemma_run_lists_the_devices(
            transport_model(fake_rdm),
            ten_devices(),
            *my_uid,
            do_mute,
            repeat_disc,
            (),
            tod@,
            (),
        );
    }
    tod
}

} // verus!
