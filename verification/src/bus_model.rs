//! An ideal bus, and what the discovery finds on it. On the ideal bus a
//! branch query is answered by silence where no unmuted device is in the
//! range, by one sound reply where exactly one is, and by contention where
//! several are; a mute is acknowledged by the device it names, which stays
//! silent from then on.

use vstd::prelude::*;
use crate::branch::{
    DiscoveryResponse,
    branch_reply,
    classify_bytes,
    classify_reply,
    lemma_branch_reply_is_unique,
    preamble_len,
};
use crate::completion::{answered, answers, lemma_discovery_completes};
use crate::constants::{
    DISC_MUTE,
    DISC_UNIQUE_BRANCH,
    DISC_UN_MUTE,
};
use crate::outcome::{
    Progress,
    acknowledges_mute,
    branch_frame,
    branch_outcome,
    command_view,
    broadcast_uid,
    discovery_outcome,
    exchanged,
    found_if,
    highest_uid,
    lemma_branch,
    lemma_command_reads_back,
    lemma_retry_first,
    lemma_split_halves,
    lowest_uid,
    mute_frame,
    mute_outcome,
    node_outcome,
    settled,
    reply_outcome,
    retry_outcome,
    search_outcome,
    split_outcome,
    unmute_frame,
    unmute_outcome,
};
use crate::packet::parse_frame;
use crate::simulated::{acknowledgement, lemma_acknowledgement};
use crate::uid::{
    Uid,
    ascending,
    lemma_bytes_roundtrip,
    lemma_midpoint_value,
    lemma_value_injective,
    uid_from_bytes,
    within,
};

verus! {

/// The device `d` answers a branch query over `[low, high]`: it is in the
/// range and not muted.
pub open spec fn replies(unmuted: Set<Uid>, low: Uid, high: Uid, d: Uid) -> bool {
    unmuted.contains(d) && within(d, low, high)
}

/// At most one device answers a branch query over `[low, high]`.
pub open spec fn at_most_one_replies(unmuted: Set<Uid>, low: Uid, high: Uid) -> bool {
    forall|a: Uid, b: Uid|
        #![trigger replies(unmuted, low, high, a), replies(unmuted, low, high, b)]
        replies(unmuted, low, high, a) && replies(unmuted, low, high, b) ==> a == b
}

/// The classified reply that the ideal bus gives to a branch query.
pub open spec fn ideal_answer(unmuted: Set<Uid>, low: Uid, high: Uid, resp: DiscoveryResponse) -> bool {
    match resp {
        DiscoveryResponse::Silence => forall|d: Uid| !#[trigger] replies(unmuted, low, high, d),
        DiscoveryResponse::Unique(id) => replies(unmuted, low, high, id) && at_most_one_replies(
            unmuted,
            low,
            high,
        ),
        DiscoveryResponse::Contention => !at_most_one_replies(unmuted, low, high),
    }
}

/// One exchange on the ideal bus with the devices `devices`, of which
/// `before` are not muted. A branch query leaves the bus as it was and is
/// answered as the unmuted devices in its range call for. A mute silences
/// the device it names, which acknowledges it if it is on the bus. An
/// un-mute makes every device answer again. Anything else changes nothing.
pub open spec fn ideal_exchange(
    devices: Set<Uid>,
    before: Set<Uid>,
    frame: Seq<u8>,
    reply: Option<Seq<u8>>,
    after: Set<Uid>,
) -> bool {
    match parse_frame(frame) {
        None => after == before,
        Some(p) => if p.pid == DISC_UNIQUE_BRANCH && p.pd.len() == 12 {
            &&& after == before
            &&& ideal_answer(
                before,
                uid_from_bytes(p.pd.subrange(0, 6)),
                uid_from_bytes(p.pd.subrange(6, 12)),
                classify_reply(reply),
            )
        } else if p.pid == DISC_MUTE {
            &&& after == before.remove(p.destination)
            &&& devices.contains(p.destination) ==> acknowledges_mute(reply, p.destination)
        } else if p.pid == DISC_UN_MUTE {
            after == devices
        } else {
            after == before
        },
    }
}

/// The ideal bus with the devices `devices`, as a bus model whose state is
/// the set of devices that are not muted.
pub open spec fn ideal_bus(devices: Set<Uid>) -> spec_fn(
    Set<Uid>,
    Seq<u8>,
    Option<Seq<u8>>,
    Set<Uid>,
) -> bool {
    |before: Set<Uid>, frame: Seq<u8>, reply: Option<Seq<u8>>, after: Set<Uid>|
        ideal_exchange(devices, before, frame, reply, after)
}

/// The ideal bus answers every frame in every state: some reply and some
/// next state are admitted, so that what is proved of its runs is proved of
/// something.
pub proof fn lemma_ideal_bus_answers(devices: Set<Uid>, before: Set<Uid>, frame: Seq<u8>)
    ensures
        exists|reply: Option<Seq<u8>>, after: Set<Uid>|
            ideal_exchange(devices, before, frame, reply, after),
{
    let silent: Option<Seq<u8>> = None;
    match parse_frame(frame) {
        None => {
            assert(ideal_exchange(devices, before, frame, silent, before));
        },
        Some(p) => {
            if p.pid == DISC_UNIQUE_BRANCH && p.pd.len() == 12 {
                let low = uid_from_bytes(p.pd.subrange(0, 6));
                let high = uid_from_bytes(p.pd.subrange(6, 12));
                if forall|d: Uid| !#[trigger] replies(before, low, high, d) {
                    assert(ideal_exchange(devices, before, frame, silent, before));
                } else if at_most_one_replies(before, low, high) {
                    let id = choose|d: Uid| #[trigger] replies(before, low, high, d);
                    let data = branch_reply(Seq::<u8>::empty(), id);
                    lemma_branch_reply_is_unique(Seq::<u8>::empty(), id);
                    assert(ideal_exchange(devices, before, frame, Some(data), before));
                } else {
                    let noise = seq![0u8];
                    assert(classify_bytes(noise) == DiscoveryResponse::Contention) by {
                        assert(preamble_len(noise) == 0);
                    }
                    assert(ideal_exchange(devices, before, frame, Some(noise), before));
                }
            } else if p.pid == DISC_MUTE {
                let ack = acknowledgement(p.destination, p.source, p.tn);
                lemma_acknowledgement(p.destination, p.source, p.tn);
                assert(ideal_exchange(
                    devices,
                    before,
                    frame,
                    Some(ack.frame()),
                    before.remove(p.destination),
                ));
            } else if p.pid == DISC_UN_MUTE {
                assert(ideal_exchange(devices, before, frame, silent, devices));
            } else {
                assert(ideal_exchange(devices, before, frame, silent, before));
            }
        },
    }
}

/// The widest range that `depth` halvings resolve whatever it holds.
pub open spec fn resolvable_width(depth: nat) -> int
    decreases depth,
{
    if depth == 0 {
        0
    } else if depth == 1 {
        1
    } else {
        2 * resolvable_width((depth - 1) as nat)
    }
}

/// A search of `[low, high]` with `depth` halvings left will resolve the
/// range: it is narrow enough, or at most one device answers in it.
pub open spec fn resolvable(unmuted: Set<Uid>, low: Uid, high: Uid, depth: nat) -> bool {
    ||| high.value() - low.value() <= resolvable_width(depth)
    ||| at_most_one_replies(unmuted, low, high)
}

/// A step swept the range `[low, high]`: it found each unmuted device of
/// the range once, in ascending order, and no other, and left these muted
/// and the rest as they were.
pub open spec fn swept(before: Set<Uid>, low: Uid, high: Uid, found: Seq<Uid>, after: Set<Uid>) -> bool {
    &&& ascending(found)
    &&& forall|d: Uid| #[trigger] found.contains(d) <==> replies(before, low, high, d)
    &&& forall|d: Uid| #[trigger] after.contains(d) <==> before.contains(d) && !within(d, low, high)
}

/// On the ideal bus a branch query changes nothing and is answered as the
/// unmuted devices in its range call for.
proof fn lemma_ideal_branch(
    devices: Set<Uid>,
    before: Set<Uid>,
    source: Uid,
    low: Uid,
    high: Uid,
    tn: u8,
    reply: Option<Seq<u8>>,
    after: Set<Uid>,
)
    requires
        ideal_exchange(devices, before, branch_frame(source, low, high, tn), reply, after),
    ensures
        after == before,
        ideal_answer(before, low, high, classify_reply(reply)),
{
    let pd = low.bytes() + high.bytes();
    let v = command_view(broadcast_uid(), source, tn, DISC_UNIQUE_BRANCH, pd);
    lemma_bytes_roundtrip(low);
    lemma_bytes_roundtrip(high);
    lemma_command_reads_back(broadcast_uid(), source, tn, DISC_UNIQUE_BRANCH, pd);
    assert(pd.subrange(0, 6) =~= low.bytes());
    assert(pd.subrange(6, 12) =~= high.bytes());
}

/// On the ideal bus a mute silences its target, which acknowledges it if
/// it is on the bus.
proof fn lemma_ideal_mute(
    devices: Set<Uid>,
    before: Set<Uid>,
    source: Uid,
    target: Uid,
    tn: u8,
    reply: Option<Seq<u8>>,
    after: Set<Uid>,
)
    requires
        ideal_exchange(devices, before, mute_frame(source, target, tn), reply, after),
    ensures
        after == before.remove(target),
        devices.contains(target) ==> acknowledges_mute(reply, target),
{
    lemma_command_reads_back(target, source, tn, DISC_MUTE, Seq::<u8>::empty());
}

/// On the ideal bus an un-mute makes every device answer again.
proof fn lemma_ideal_unmute(
    devices: Set<Uid>,
    before: Set<Uid>,
    source: Uid,
    tn: u8,
    reply: Option<Seq<u8>>,
    after: Set<Uid>,
)
    requires
        ideal_exchange(devices, before, unmute_frame(source, tn), reply, after),
    ensures
        after == devices,
{
    lemma_command_reads_back(broadcast_uid(), source, tn, DISC_UN_MUTE, Seq::<u8>::empty());
}

/// On the ideal bus one search sweeps a range that is resolvable.
proof fn lemma_search_sweeps(
    devices: Set<Uid>,
    source: Uid,
    low: Uid,
    high: Uid,
    repeat: bool,
    depth: nat,
    before: Progress<Set<Uid>>,
    found: Seq<Uid>,
    after: Progress<Set<Uid>>,
)
    requires
        low.value() <= high.value(),
        before.bus.subset_of(devices),
        resolvable(before.bus, low, high, depth),
        search_outcome(ideal_bus(devices), source, low, high, repeat, depth, before, found, after),
    ensures
        swept(before.bus, low, high, found, after.bus),
    decreases depth, 1nat,
{
    let model = ideal_bus(devices);
    let (resp, asked) = choose|resp: DiscoveryResponse, asked: Progress<Set<Uid>>|
        #![trigger node_outcome(model, source, low, high, before, resp, asked)]
        node_outcome(model, source, low, high, before, resp, asked) && reply_outcome(
            model,
            source,
            low,
            high,
            repeat,
            depth,
            resp,
            asked,
            found,
            after,
        );
    let reply = choose|reply: Option<Seq<u8>>| #[trigger]
        exchanged(model, before.bus, branch_frame(source, low, high, asked.tn), reply, asked.bus)
            && resp == classify_reply(reply);
    lemma_ideal_branch(devices, before.bus, source, low, high, asked.tn, reply, asked.bus);
    lemma_reply_sweeps(devices, source, low, high, repeat, depth, resp, asked, found, after);
}

/// On the ideal bus a mute that follows a single reply finds the device
/// that replied and leaves it muted.
proof fn lemma_unique_sweeps(
    devices: Set<Uid>,
    source: Uid,
    low: Uid,
    high: Uid,
    id: Uid,
    asked: Progress<Set<Uid>>,
    ok: bool,
    found: Seq<Uid>,
    after: Progress<Set<Uid>>,
)
    requires
        asked.bus.subset_of(devices),
        ideal_answer(asked.bus, low, high, DiscoveryResponse::Unique(id)),
        mute_outcome(ideal_bus(devices), source, id, asked, ok, after),
        found == found_if(ok, id),
    ensures
        swept(asked.bus, low, high, found, after.bus),
{
    let model = ideal_bus(devices);
    let ack = choose|ack: Option<Seq<u8>>| #[trigger]
        exchanged(model, asked.bus, mute_frame(source, id, after.tn), ack, after.bus) && ok
            == acknowledges_mute(ack, id);
    lemma_ideal_mute(devices, asked.bus, source, id, after.tn, ack, after.bus);
    assert(replies(asked.bus, low, high, id));
    assert(ok);
    assert(found =~= seq![id]);
    assert(found[0] == id);
    assert forall|d: Uid| #[trigger] found.contains(d) <==> replies(asked.bus, low, high, d) by {
        if replies(asked.bus, low, high, d) {
            assert(d == id);
        }
    }
    assert forall|d: Uid| #[trigger]
        after.bus.contains(d) <==> asked.bus.contains(d) && !within(d, low, high) by {
        if asked.bus.contains(d) && within(d, low, high) {
            assert(replies(asked.bus, low, high, d));
        }
    }
}

/// On the ideal bus what follows the reply to a branch query sweeps a
/// range that is resolvable.
proof fn lemma_reply_sweeps(
    devices: Set<Uid>,
    source: Uid,
    low: Uid,
    high: Uid,
    repeat: bool,
    depth: nat,
    resp: DiscoveryResponse,
    asked: Progress<Set<Uid>>,
    found: Seq<Uid>,
    after: Progress<Set<Uid>>,
)
    requires
        low.value() <= high.value(),
        asked.bus.subset_of(devices),
        resolvable(asked.bus, low, high, depth),
        ideal_answer(asked.bus, low, high, resp),
        reply_outcome(ideal_bus(devices), source, low, high, repeat, depth, resp, asked, found, after),
    ensures
        swept(asked.bus, low, high, found, after.bus),
    decreases depth, 0nat,
{
    let model = ideal_bus(devices);
    match resp {
        DiscoveryResponse::Silence => {
            assert(found =~= Seq::<Uid>::empty());
            assert forall|d: Uid| #[trigger]
                after.bus.contains(d) <==> asked.bus.contains(d) && !within(d, low, high) by {
                assert(!replies(asked.bus, low, high, d));
            }
        },
        DiscoveryResponse::Unique(id) => {
            let ok = mute_outcome(model, source, id, asked, true, after) && found == found_if(
                true,
                id,
            );
            lemma_unique_sweeps(devices, source, low, high, id, asked, ok, found, after);
        },
        DiscoveryResponse::Contention => {
            let (a, b) = choose|a: Uid, b: Uid|
                #![trigger replies(asked.bus, low, high, a), replies(asked.bus, low, high, b)]
                replies(asked.bus, low, high, a) && replies(asked.bus, low, high, b) && a != b;
            lemma_value_injective(a, b);
            lemma_value_injective(low, high);
            assert(low != high);
            assert(depth > 0);
            lemma_split_sweeps(devices, source, low, high, repeat, (depth - 1) as nat, asked, found, after);
        },
    }
}

/// On the ideal bus the search of the two halves of a range sweeps it,
/// where the range is narrow enough for one more halving than is left.
proof fn lemma_split_sweeps(
    devices: Set<Uid>,
    source: Uid,
    low: Uid,
    high: Uid,
    repeat: bool,
    depth: nat,
    before: Progress<Set<Uid>>,
    found: Seq<Uid>,
    after: Progress<Set<Uid>>,
)
    requires
        low.value() < high.value(),
        before.bus.subset_of(devices),
        high.value() - low.value() <= resolvable_width(depth + 1),
        split_outcome(ideal_bus(devices), source, low, high, repeat, depth, before, found, after),
    ensures
        swept(before.bus, low, high, found, after.bus),
    decreases depth, 4nat,
{
    let model = ideal_bus(devices);
    let mid = low.midpoint(high);
    lemma_midpoint_value(low, high);
    let halves = lemma_split_halves(model, source, low, high, repeat, depth, before, found, after);
    let left = halves.0.found;
    let between = halves.0.at;
    let right = halves.1.found;
    let width = high.value() - low.value();
    assert(resolvable(before.bus, low, mid, depth)) by {
        if width >= 2 {
            assert(depth >= 1);
        }
    }
    lemma_branch_sweeps(devices, source, low, mid, repeat, depth, before, left, between);
    assert(resolvable(between.bus, mid, high, depth)) by {
        if width == 1 {
            assert(mid == low) by {
                lemma_value_injective(mid, low);
            }
            assert forall|a: Uid, b: Uid|
                #![trigger replies(between.bus, mid, high, a), replies(between.bus, mid, high, b)]
                replies(between.bus, mid, high, a) && replies(between.bus, mid, high, b) implies a
                == b by {
                lemma_value_injective(a, high);
                lemma_value_injective(b, high);
            }
        } else {
            assert(depth >= 1);
        }
    }
    lemma_branch_sweeps(devices, source, mid, high, repeat, depth, between, right, after);
    assert forall|i: int, j: int| 0 <= i < j < found.len() implies found[i].value()
        < found[j].value() by {
        if j < left.len() {
            assert(found[i] == left[i] && found[j] == left[j]);
        } else if i >= left.len() {
            assert(found[i] == right[i - left.len()] && found[j] == right[j - left.len()]);
        } else {
            assert(found[i] == left[i] && found[j] == right[j - left.len()]);
            assert(left.contains(left[i]));
            assert(right.contains(right[j - left.len()]));
            assert(between.bus.contains(right[j - left.len()]));
        }
    }
    assert forall|d: Uid| #[trigger] found.contains(d) <==> replies(before.bus, low, high, d) by {
        if found.contains(d) {
            let k = choose|k: int| 0 <= k < found.len() && found[k] == d;
            if k < left.len() {
                assert(left[k] == d);
                assert(left.contains(d));
            } else {
                assert(right[k - left.len()] == d);
                assert(right.contains(d));
            }
        }
        if replies(before.bus, low, high, d) {
            if d.value() <= mid.value() {
                assert(left.contains(d));
                let k = choose|k: int| 0 <= k < left.len() && left[k] == d;
                assert(found[k] == d);
            } else {
                assert(between.bus.contains(d));
                assert(right.contains(d));
                let k = choose|k: int| 0 <= k < right.len() && right[k] == d;
                assert(found[left.len() + k] == d);
            }
        }
    }
}

/// On the ideal bus the search of a range with its retries sweeps a range
/// that is resolvable.
proof fn lemma_branch_sweeps(
    devices: Set<Uid>,
    source: Uid,
    low: Uid,
    high: Uid,
    repeat: bool,
    depth: nat,
    before: Progress<Set<Uid>>,
    found: Seq<Uid>,
    after: Progress<Set<Uid>>,
)
    requires
        low.value() <= high.value(),
        before.bus.subset_of(devices),
        resolvable(before.bus, low, high, depth),
        branch_outcome(ideal_bus(devices), source, low, high, repeat, depth, before, found, after),
    ensures
        swept(before.bus, low, high, found, after.bus),
    decreases depth, 3nat,
{
    lemma_branch(ideal_bus(devices), source, low, high, repeat, depth, before, found, after);
    lemma_retry_sweeps(devices, source, low, high, repeat, depth, 2, before, found, after);
}

/// On the ideal bus a search with retries left sweeps a range that is
/// resolvable: a retry follows only a search that found nothing, and finds
/// nothing in its turn.
proof fn lemma_retry_sweeps(
    devices: Set<Uid>,
    source: Uid,
    low: Uid,
    high: Uid,
    repeat: bool,
    depth: nat,
    tries: nat,
    before: Progress<Set<Uid>>,
    found: Seq<Uid>,
    after: Progress<Set<Uid>>,
)
    requires
        low.value() <= high.value(),
        before.bus.subset_of(devices),
        resolvable(before.bus, low, high, depth),
        retry_outcome(ideal_bus(devices), source, low, high, repeat, depth, tries, before, found, after),
    ensures
        swept(before.bus, low, high, found, after.bus),
    decreases depth, 2nat, tries,
{
    let model = ideal_bus(devices);
    let origin = before.bus;
    let next = lemma_retry_first(model, source, low, high, repeat, depth, tries, before, found, after);
    let then = next.at;
    lemma_search_sweeps(devices, source, low, high, repeat, depth, before, next.found, then);
    if !settled(repeat, tries, next) {
        assert forall|d: Uid| !#[trigger] replies(origin, low, high, d) by {
            if replies(origin, low, high, d) {
                assert(next.found.contains(d));
            }
        }
        assert forall|d: Uid| !#[trigger] replies(then.bus, low, high, d) by {
            if replies(then.bus, low, high, d) {
                assert(then.bus.contains(d));
            }
        }
        assert(then.bus.subset_of(devices)) by {
            assert forall|d: Uid| then.bus.contains(d) implies devices.contains(d) by {
                assert(origin.contains(d));
            }
        }
        lemma_retry_sweeps(
            devices,
            source,
            low,
            high,
            repeat,
            depth,
            (tries - 1) as nat,
            then,
            found,
            after,
        );
        assert forall|d: Uid| #[trigger] found.contains(d) <==> replies(origin, low, high, d) by {
            if found.contains(d) {
                assert(replies(then.bus, low, high, d));
            }
        }
        assert forall|d: Uid| #[trigger]
            after.bus.contains(d) <==> origin.contains(d) && !within(d, low, high) by {
            if origin.contains(d) && !within(d, low, high) {
                assert(then.bus.contains(d));
            }
            if after.bus.contains(d) {
                assert(then.bus.contains(d));
            }
        }
    }
}

/// The full identifier space is narrow enough for 48 halvings.
proof fn lemma_full_space_resolvable()
    ensures
        highest_uid().value() - lowest_uid().value() <= resolvable_width(48),
{
    reveal_with_fuel(resolvable_width, 49);
}

/// Coverage: on the ideal bus, with devices whose manufacturer ids are
/// below `0x8000`, a discovery run that starts with every device unmuted,
/// or that opens with the broadcast un-mute, returns every device of the
/// bus exactly once and nothing else, and leaves every device muted.
pub proof fn lemma_discovery_finds_every_device(
    devices: Set<Uid>,
    source: Uid,
    do_mute: bool,
    repeat: bool,
    initial: Set<Uid>,
    found: Seq<Uid>,
    after: Set<Uid>,
)
    requires
        forall|d: Uid| devices.contains(d) ==> d.mfg < 0x8000,
        initial.subset_of(devices),
        do_mute || initial == devices,
        discovery_outcome(ideal_bus(devices), source, do_mute, repeat, initial, found, after),
    ensures
        ascending(found),
        found.no_duplicates(),
        forall|d: Uid| found.contains(d) <==> devices.contains(d),
        found.to_set() == devices,
        forall|d: Uid| !after.contains(d),
{
    let model = ideal_bus(devices);
    let low = lowest_uid();
    let high = highest_uid();
    let (started, ended) = choose|started: Progress<Set<Uid>>, ended: Progress<Set<Uid>>|
        #![trigger
            unmute_outcome(model, source, do_mute, Progress { bus: initial, tn: 0 }, started),
            branch_outcome(model, source, lowest_uid(), highest_uid(), repeat, 48, started, found, ended)]
        unmute_outcome(model, source, do_mute, Progress { bus: initial, tn: 0 }, started)
            && branch_outcome(
            model,
            source,
            lowest_uid(),
            highest_uid(),
            repeat,
            48,
            started,
            found,
            ended,
        ) && ended.bus == after;
    if do_mute {
        let reply = choose|reply: Option<Seq<u8>>| #[trigger]
            exchanged(model, initial, unmute_frame(source, started.tn), reply, started.bus);
        lemma_ideal_unmute(devices, initial, source, started.tn, reply, started.bus);
    }
    assert(started.bus == devices);
    lemma_full_space_resolvable();
    lemma_branch_sweeps(devices, source, low, high, repeat, 48, started, found, ended);
    assert forall|d: Uid| found.contains(d) <==> devices.contains(d) by {
        if devices.contains(d) {
            assert(within(d, low, high));
            assert(replies(devices, low, high, d));
        }
    }
    assert(found.to_set() =~= devices);
    assert forall|d: Uid| !after.contains(d) by {
        if after.contains(d) {
            assert(devices.contains(d));
            assert(within(d, low, high));
        }
    }
}

/// The ideal bus is a bus that answers.
pub proof fn lemma_ideal_bus_is_total(devices: Set<Uid>)
    ensures
        answers(ideal_bus(devices)),
{
    let model = ideal_bus(devices);
    assert forall|before: Set<Uid>, frame: Seq<u8>| #[trigger] answered(model, before, frame) by {
        lemma_ideal_bus_answers(devices, before, frame);
        let (reply, after) = choose|reply: Option<Seq<u8>>, after: Set<Uid>|
            ideal_exchange(devices, before, frame, reply, after);
        assert(exchanged(model, before, frame, reply, after));
    }
}

/// Termination and coverage: on the ideal bus, with devices whose
/// manufacturer ids are below `0x8000` and all unmuted, a discovery run has
/// an outcome, and what it returns is every device of the bus, each once.
pub proof fn lemma_ideal_run_finds_every_device(
    devices: Set<Uid>,
    source: Uid,
    do_mute: bool,
    repeat: bool,
) -> (end: (Seq<Uid>, Set<Uid>))
    requires
        forall|d: Uid| devices.contains(d) ==> d.mfg < 0x8000,
    ensures
        discovery_outcome(ideal_bus(devices), source, do_mute, repeat, devices, end.0, end.1),
        ascending(end.0),
        end.0.no_duplicates(),
        end.0.to_set() == devices,
{
    lemma_ideal_bus_is_total(devices);
    let end = lemma_discovery_completes(ideal_bus(devices), source, do_mute, repeat, devices);
    lemma_discovery_finds_every_device(devices, source, do_mute, repeat, devices, end.0, end.1);
    end
}

} // verus!
