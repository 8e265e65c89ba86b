//! A discovery run completes on every bus that answers: whatever the bus
//! replies, the search has an outcome.

use vstd::prelude::*;
use crate::branch::{DiscoveryResponse, classify_reply};
use crate::outcome::{
    Progress,
    Step,
    acknowledges_mute,
    branch_frame,
    branch_outcome,
    discovery_outcome,
    exchanged,
    found_if,
    highest_uid,
    lemma_branch,
    lemma_discovery,
    lemma_mute,
    lemma_node,
    lemma_reply_exhausted,
    lemma_reply_silence,
    lemma_reply_split,
    lemma_reply_unique,
    lemma_retry_again,
    lemma_retry_done,
    lemma_search,
    lemma_split,
    lemma_unmute,
    lowest_uid,
    mute_frame,
    next_tn,
    settled,
    retry_outcome,
    search_outcome,
    split_outcome,
    unmute_frame,
    unmute_outcome,
};
use crate::uid::Uid;

verus! {

/// In the state `before` the bus admits some reply to `frame`.
pub open spec fn answered<S>(
    model: spec_fn(S, Seq<u8>, Option<Seq<u8>>, S) -> bool,
    before: S,
    frame: Seq<u8>,
) -> bool {
    exists|reply: Option<Seq<u8>>, after: S| exchanged(model, before, frame, reply, after)
}

/// The bus admits some reply to every frame in every state.
pub open spec fn answers<S>(model: spec_fn(S, Seq<u8>, Option<Seq<u8>>, S) -> bool) -> bool {
    forall|before: S, frame: Seq<u8>| #[trigger] answered(model, before, frame)
}

/// A search has an outcome.
pub proof fn lemma_search_completes<S>(
    model: spec_fn(S, Seq<u8>, Option<Seq<u8>>, S) -> bool,
    source: Uid,
    low: Uid,
    high: Uid,
    repeat: bool,
    depth: nat,
    before: Progress<S>,
) -> (end: (Seq<Uid>, Progress<S>))
    requires
        answers(model),
    ensures
        search_outcome(model, source, low, high, repeat, depth, before, end.0, end.1),
    decreases depth, 1nat,
{
    let tn = next_tn(before.tn);
    let frame = branch_frame(source, low, high, tn);
    assert(answered(model, before.bus, frame));
    let (reply, bus) = choose|reply: Option<Seq<u8>>, bus: S|
        exchanged(model, before.bus, frame, reply, bus);
    let asked = Progress { bus, tn };
    let resp = classify_reply(reply);
    lemma_node(model, source, low, high, before, reply, asked);
    let end = match resp {
        DiscoveryResponse::Silence => {
            lemma_reply_silence(model, source, low, high, repeat, depth, asked);
            (Seq::<Uid>::empty(), asked)
        },
        DiscoveryResponse::Unique(id) => {
            let tn2 = next_tn(tn);
            let mute = mute_frame(source, id, tn2);
            assert(answered(model, asked.bus, mute));
            let (ack, bus2) = choose|ack: Option<Seq<u8>>, bus2: S|
                exchanged(model, asked.bus, mute, ack, bus2);
            let after = Progress { bus: bus2, tn: tn2 };
            let ok = acknowledges_mute(ack, id);
            lemma_mute(model, source, id, asked, ack, after);
            lemma_reply_unique(model, source, low, high, repeat, depth, id, asked, ok, after);
            (found_if(ok, id), after)
        },
        DiscoveryResponse::Contention => {
            if depth == 0 || low == high {
                lemma_reply_exhausted(model, source, low, high, repeat, depth, asked);
                (Seq::<Uid>::empty(), asked)
            } else {
                let halves = lemma_split_completes(
                    model,
                    source,
                    low,
                    high,
                    repeat,
                    (depth - 1) as nat,
                    asked,
                );
                lemma_reply_split(model, source, low, high, repeat, depth, asked, halves.0, halves.1);
                halves
            }
        },
    };
    lemma_search(model, source, low, high, repeat, depth, before, resp, asked, end.0, end.1);
    end
}

/// The search of the two halves of a range has an outcome.
pub proof fn lemma_split_completes<S>(
    model: spec_fn(S, Seq<u8>, Option<Seq<u8>>, S) -> bool,
    source: Uid,
    low: Uid,
    high: Uid,
    repeat: bool,
    depth: nat,
    before: Progress<S>,
) -> (end: (Seq<Uid>, Progress<S>))
    requires
        answers(model),
    ensures
        split_outcome(model, source, low, high, repeat, depth, before, end.0, end.1),
    decreases depth, 4nat,
{
    let mid = low.midpoint(high);
    let left = lemma_branch_completes(model, source, low, mid, repeat, depth, before);
    let right = lemma_branch_completes(model, source, mid, high, repeat, depth, left.1);
    lemma_split(model, source, low, high, repeat, depth, before, left.0, left.1, right.0, right.1);
    (left.0 + right.0, right.1)
}

/// The search of a range with its retries has an outcome.
pub proof fn lemma_branch_completes<S>(
    model: spec_fn(S, Seq<u8>, Option<Seq<u8>>, S) -> bool,
    source: Uid,
    low: Uid,
    high: Uid,
    repeat: bool,
    depth: nat,
    before: Progress<S>,
) -> (end: (Seq<Uid>, Progress<S>))
    requires
        answers(model),
    ensures
        branch_outcome(model, source, low, high, repeat, depth, before, end.0, end.1),
    decreases depth, 3nat,
{
    let end = lemma_retry_completes(model, source, low, high, repeat, depth, 2, before);
    lemma_branch(model, source, low, high, repeat, depth, before, end.0, end.1);
    end
}

/// A search with retries left has an outcome.
pub proof fn lemma_retry_completes<S>(
    model: spec_fn(S, Seq<u8>, Option<Seq<u8>>, S) -> bool,
    source: Uid,
    low: Uid,
    high: Uid,
    repeat: bool,
    depth: nat,
    tries: nat,
    before: Progress<S>,
) -> (end: (Seq<Uid>, Progress<S>))
    requires
        answers(model),
    ensures
        retry_outcome(model, source, low, high, repeat, depth, tries, before, end.0, end.1),
    decreases depth, 2nat, tries,
{
    let next = lemma_search_completes(model, source, low, high, repeat, depth, before);
    if settled(repeat, tries, Step { found: next.0, at: next.1 }) {
        lemma_retry_done(model, source, low, high, repeat, depth, tries, before, next.0, next.1);
        next
    } else {
        let end = lemma_retry_completes(
            model,
            source,
            low,
            high,
            repeat,
            depth,
            (tries - 1) as nat,
            next.1,
        );
        lemma_retry_again(
            model,
            source,
            low,
            high,
            repeat,
            depth,
            tries,
            before,
            next.0,
            next.1,
            end.0,
            end.1,
        );
        end
    }
}

/// Completion: on a bus that answers every frame, a discovery run has an
/// outcome from every state, with or without the opening un-mute and with
/// or without retries.
pub proof fn lemma_discovery_completes<S>(
    model: spec_fn(S, Seq<u8>, Option<Seq<u8>>, S) -> bool,
    source: Uid,
    do_mute: bool,
    repeat: bool,
    before: S,
) -> (end: (Seq<Uid>, S))
    requires
        answers(model),
    ensures
        discovery_outcome(model, source, do_mute, repeat, before, end.0, end.1),
{
    let zero = Progress { bus: before, tn: 0 };
    let started = if do_mute {
        let frame = unmute_frame(source, next_tn(0));
        assert(answered(model, before, frame));
        let (reply, bus) = choose|reply: Option<Seq<u8>>, bus: S|
            exchanged(model, before, frame, reply, bus);
        let started = Progress { bus, tn: next_tn(0) };
        lemma_unmute(model, source, zero, reply, started);
        started
    } else {
        zero
    };
    assert(unmute_outcome(model, source, do_mute, zero, started));
    let end = lemma_branch_completes(model, source, lowest_uid(), highest_uid(), repeat, 48, started);
    lemma_discovery(model, source, do_mute, repeat, before, started, end.0, end.1);
    (end.0, end.1.bus)
}

} // verus!
