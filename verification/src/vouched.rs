//! What holds of a discovery run on any bus: no device is made up. Each
//! device that a run returns answered a branch query alone, with a sound
//! checksum, and acknowledged the mute that followed.

use vstd::prelude::*;
use crate::branch::{DiscoveryResponse, classify_reply};
use crate::outcome::{
    Progress,
    acknowledges_mute,
    branch_frame,
    branch_outcome,
    discovery_outcome,
    exchanged,
    found_if,
    highest_uid,
    lemma_branch,
    lemma_retry_first,
    lemma_split_halves,
    lowest_uid,
    mute_frame,
    mute_outcome,
    node_outcome,
    settled,
    reply_outcome,
    retry_outcome,
    search_outcome,
    split_outcome,
    unmute_outcome,
};
use crate::uid::Uid;

verus! {

/// The bus gave, to some branch query of `source`, a reply that is
/// classified as the single reply of the device `d`.
pub open spec fn announced<S>(
    model: spec_fn(S, Seq<u8>, Option<Seq<u8>>, S) -> bool,
    source: Uid,
    d: Uid,
) -> bool {
    exists|before: S, low: Uid, high: Uid, tn: u8, reply: Option<Seq<u8>>, after: S| #[trigger]
        exchanged(model, before, branch_frame(source, low, high, tn), reply, after)
            && classify_reply(reply) == DiscoveryResponse::Unique(d)
}

/// The bus gave, to some mute that `source` sent to the device `d`, a reply
/// that acknowledges it.
pub open spec fn confirmed<S>(
    model: spec_fn(S, Seq<u8>, Option<Seq<u8>>, S) -> bool,
    source: Uid,
    d: Uid,
) -> bool {
    exists|before: S, tn: u8, reply: Option<Seq<u8>>, after: S| #[trigger]
        exchanged(model, before, mute_frame(source, d, tn), reply, after) && acknowledges_mute(
            reply,
            d,
        )
}

/// Every device of `found` was announced and confirmed.
pub open spec fn vouched<S>(
    model: spec_fn(S, Seq<u8>, Option<Seq<u8>>, S) -> bool,
    source: Uid,
    found: Seq<Uid>,
) -> bool {
    forall|i: int|
        0 <= i < found.len() ==> announced(model, source, #[trigger] found[i]) && confirmed(
            model,
            source,
            found[i],
        )
}

/// What one search finds was announced and confirmed.
proof fn lemma_search_vouched<S>(
    model: spec_fn(S, Seq<u8>, Option<Seq<u8>>, S) -> bool,
    source: Uid,
    low: Uid,
    high: Uid,
    repeat: bool,
    depth: nat,
    before: Progress<S>,
    found: Seq<Uid>,
    after: Progress<S>,
)
    requires
        search_outcome(model, source, low, high, repeat, depth, before, found, after),
    ensures
        vouched(model, source, found),
    decreases depth, 1nat,
{
    let (resp, asked) = choose|resp: DiscoveryResponse, asked: Progress<S>|
        #![trigger node_outcome(model, source, low, high, before, resp, asked)]
        node_outcome(model, source, low, high, before, resp, asked) && reply_outcome(
            model,
            source,
            low,
            high,
            repeat,
            depth,
            resp,
            asked,
            found,
            after,
        );
    match resp {
        DiscoveryResponse::Silence => {},
        DiscoveryResponse::Unique(id) => {
            let ok = mute_outcome(model, source, id, asked, true, after) && found == found_if(
                true,
                id,
            );
            if ok {
                let reply = choose|reply: Option<Seq<u8>>| #[trigger]
                    exchanged(
                        model,
                        before.bus,
                        branch_frame(source, low, high, asked.tn),
                        reply,
                        asked.bus,
                    ) && resp == classify_reply(reply);
                assert(announced(model, source, id));
                let ack = choose|ack: Option<Seq<u8>>| #[trigger]
                    exchanged(model, asked.bus, mute_frame(source, id, after.tn), ack, after.bus)
                        && true == acknowledges_mute(ack, id);
                assert(confirmed(model, source, id));
                assert(found =~= seq![id]);
            }
        },
        DiscoveryResponse::Contention => {
            if !(depth == 0 || low == high) {
                lemma_split_vouched(
                    model,
                    source,
                    low,
                    high,
                    repeat,
                    (depth - 1) as nat,
                    asked,
                    found,
                    after,
                );
            }
        },
    }
}

/// What the search of the two halves of a range finds was announced and
/// confirmed.
proof fn lemma_split_vouched<S>(
    model: spec_fn(S, Seq<u8>, Option<Seq<u8>>, S) -> bool,
    source: Uid,
    low: Uid,
    high: Uid,
    repeat: bool,
    depth: nat,
    before: Progress<S>,
    found: Seq<Uid>,
    after: Progress<S>,
)
    requires
        split_outcome(model, source, low, high, repeat, depth, before, found, after),
    ensures
        vouched(model, source, found),
    decreases depth, 4nat,
{
    let mid = low.midpoint(high);
    let halves = lemma_split_halves(model, source, low, high, repeat, depth, before, found, after);
    let left = halves.0.found;
    let between = halves.0.at;
    let right = halves.1.found;
    lemma_branch_vouched(model, source, low, mid, repeat, depth, before, left, between);
    lemma_branch_vouched(model, source, mid, high, repeat, depth, between, right, after);
    assert forall|i: int| 0 <= i < found.len() implies announced(model, source, #[trigger] found[i])
        && confirmed(model, source, found[i]) by {
        if i < left.len() {
            assert(found[i] == left[i]);
        } else {
            assert(found[i] == right[i - left.len()]);
        }
    }
}

/// What the search of a range with its retries finds was announced and
/// confirmed.
proof fn lemma_branch_vouched<S>(
    model: spec_fn(S, Seq<u8>, Option<Seq<u8>>, S) -> bool,
    source: Uid,
    low: Uid,
    high: Uid,
    repeat: bool,
    depth: nat,
    before: Progress<S>,
    found: Seq<Uid>,
    after: Progress<S>,
)
    requires
        branch_outcome(model, source, low, high, repeat, depth, before, found, after),
    ensures
        vouched(model, source, found),
    decreases depth, 3nat,
{
    lemma_branch(model, source, low, high, repeat, depth, before, found, after);
    lemma_retry_vouched(model, source, low, high, repeat, depth, 2, before, found, after);
}

/// What a search with retries left finds was announced and confirmed.
proof fn lemma_retry_vouched<S>(
    model: spec_fn(S, Seq<u8>, Option<Seq<u8>>, S) -> bool,
    source: Uid,
    low: Uid,
    high: Uid,
    repeat: bool,
    depth: nat,
    tries: nat,
    before: Progress<S>,
    found: Seq<Uid>,
    after: Progress<S>,
)
    requires
        retry_outcome(model, source, low, high, repeat, depth, tries, before, found, after),
    ensures
        vouched(model, source, found),
    decreases depth, 2nat, tries,
{
    let next = lemma_retry_first(model, source, low, high, repeat, depth, tries, before, found, after);
    lemma_search_vouched(model, source, low, high, repeat, depth, before, next.found, next.at);
    if !settled(repeat, tries, next) {
        lemma_retry_vouched(
            model,
            source,
            low,
            high,
            repeat,
            depth,
            (tries - 1) as nat,
            next.at,
            found,
            after,
        );
    }
}

/// No device is made up: on any bus, each device that a discovery run
/// returns answered a branch query alone and acknowledged a mute. On a bus
/// that never answers so, a run returns nothing.
pub proof fn lemma_discovery_vouched<S>(
    model: spec_fn(S, Seq<u8>, Option<Seq<u8>>, S) -> bool,
    source: Uid,
    do_mute: bool,
    repeat: bool,
    before: S,
    found: Seq<Uid>,
    after: S,
)
    requires
        discovery_outcome(model, source, do_mute, repeat, before, found, after),
    ensures
        vouched(model, source, found),
        (forall|d: Uid| !announced(model, source, d)) ==> found.len() == 0,
        (forall|d: Uid| !confirmed(model, source, d)) ==> found.len() == 0,
{
    let (started, ended) = choose|started: Progress<S>, ended: Progress<S>|
        #![trigger
            unmute_outcome(model, source, do_mute, Progress { bus: before, tn: 0 }, started),
            branch_outcome(model, source, lowest_uid(), highest_uid(), repeat, 48, started, found, ended)]
        unmute_outcome(model, source, do_mute, Progress { bus: before, tn: 0 }, started)
            && branch_outcome(
            model,
            source,
            lowest_uid(),
            highest_uid(),
            repeat,
            48,
            started,
            found,
            ended,
        ) && ended.bus == after;
    lemma_branch_vouched(model, source, lowest_uid(), highest_uid(), repeat, 48, started, found, ended);
    if found.len() > 0 {
        assert(announced(model, source, found[0]));
        assert(confirmed(model, source, found[0]));
    }
}

} // verus!
