//! What a discovery run is: the frames it sends, and the relation between
//! the replies of the bus and the devices it finds. The bus is a model, a
//! relation between its state before an exchange, the frame, the reply and
//! its state after, so that the same relation speaks of a transport
//! function and of an ideal bus.

use vstd::prelude::*;
use crate::branch::{DiscoveryResponse, classify_reply};
use crate::codec_laws::lemma_round_trip_checked;
use crate::constants::{
    DISCOVERY_COMMAND,
    DISCOVERY_COMMAND_RESPONSE,
    DISC_MUTE,
    DISC_UNIQUE_BRANCH,
    DISC_UN_MUTE,
    RESPONSE_TYPE_ACK,
    SC_RDM,
    SC_SUB_MESSAGE,
};
use crate::packet::{PktView, malformed, parse_frame};
use crate::uid::Uid;

verus! {

/// The address that every device listens to.
pub open spec fn broadcast_uid() -> Uid {
    Uid { mfg: 0xFFFF, dev: 0xFFFF_FFFF }
}

/// The lowest identifier of the searched space.
pub open spec fn lowest_uid() -> Uid {
    Uid { mfg: 0, dev: 0 }
}

/// The highest identifier of the searched space.
pub open spec fn highest_uid() -> Uid {
    Uid { mfg: 0x7FFF, dev: 0xFFFF_FFFF }
}

/// The transaction number after `tn`: one more, wrapping at 8 bits.
pub open spec fn next_tn(tn: u8) -> u8 {
    if tn == 255 {
        0
    } else {
        (tn + 1) as u8
    }
}

/// The discovery command with the given addresses, transaction number,
/// parameter id and parameter data, its length and checksum set.
#[verifier::opaque]
pub open spec fn command_view(
    destination: Uid,
    source: Uid,
    tn: u8,
    pid: u16,
    pd: Seq<u8>,
) -> PktView
    recommends
        pd.len() <= 231,
{
    let bare = PktView {
        start: SC_RDM,
        substart: SC_SUB_MESSAGE,
        message_length: (pd.len() + 24) as u8,
        destination,
        source,
        tn,
        port_or_response_type: 1,
        message_count: 0,
        subdevice: 0,
        cc: DISCOVERY_COMMAND,
        pid,
        pdl: pd.len() as u8,
        pd,
        checksum: 0,
    };
    bare.with_checksum(bare.expected_checksum())
}

/// The broadcast frame that asks the devices between `low` and `high` to
/// reply.
pub open spec fn branch_frame(source: Uid, low: Uid, high: Uid, tn: u8) -> Seq<u8> {
    command_view(broadcast_uid(), source, tn, DISC_UNIQUE_BRANCH, low.bytes() + high.bytes()).frame()
}

/// The frame that tells the device `target` to stop replying to branch
/// queries.
pub open spec fn mute_frame(source: Uid, target: Uid, tn: u8) -> Seq<u8> {
    command_view(target, source, tn, DISC_MUTE, Seq::<u8>::empty()).frame()
}

/// The broadcast frame that tells every device to reply to branch queries
/// again.
pub open spec fn unmute_frame(source: Uid, tn: u8) -> Seq<u8> {
    command_view(broadcast_uid(), source, tn, DISC_UN_MUTE, Seq::<u8>::empty()).frame()
}

/// A frame that a transport must take: it can be read, and where it is a
/// branch query its parameter data holds two identifiers. Every frame of a
/// discovery run is one.
pub open spec fn sendable(frame: Seq<u8>) -> bool {
    &&& !malformed(frame)
    &&& parse_frame(frame).unwrap().pid == DISC_UNIQUE_BRANCH ==> parse_frame(
        frame,
    ).unwrap().pd.len() >= 12
}

/// A reply acknowledges the mute of `target`: it is a frame with a sound
/// checksum, from `target`, of response type "acknowledge", command class
/// "discovery response" and the parameter id of the mute command.
pub open spec fn acknowledges_mute(reply: Option<Seq<u8>>, target: Uid) -> bool {
    match reply {
        None => false,
        Some(data) => match parse_frame(data) {
            None => false,
            Some(p) => {
                &&& p.checksum_ok()
                &&& p.port_or_response_type == RESPONSE_TYPE_ACK
                &&& p.source == target
                &&& p.cc == DISCOVERY_COMMAND_RESPONSE
                &&& p.pid == DISC_MUTE
            },
        },
    }
}

/// Where a discovery run stands: the state of the bus and the transaction
/// number of the last frame sent.
pub struct Progress<S> {
    pub bus: S,
    pub tn: u8,
}

/// One exchange that the bus model admits: in state `before`, the frame may
/// be answered by `reply`, leaving the bus in state `after`.
pub open spec fn exchanged<S>(
    model: spec_fn(S, Seq<u8>, Option<Seq<u8>>, S) -> bool,
    before: S,
    frame: Seq<u8>,
    reply: Option<Seq<u8>>,
    after: S,
) -> bool {
    model(before, frame, reply, after)
}

/// What a step of a run yielded and where the run stood after it.
pub struct Step<S> {
    pub found: Seq<Uid>,
    pub at: Progress<S>,
}

/// The two halves of a range taken together: what the lower half yielded,
/// then what the upper half yielded, and the run where the upper half left
/// it.
pub open spec fn joined<S>(lower: Step<S>, upper: Step<S>) -> Step<S> {
    Step { found: lower.found + upper.found, at: upper.at }
}

/// A search needs no retry: retries are off, it found something, or none
/// of the `tries` retries is left.
pub open spec fn settled<S>(repeat: bool, tries: nat, step: Step<S>) -> bool {
    !repeat || step.found.len() > 0 || tries == 0
}

/// One branch query over `[low, high]` and its classified reply.
pub open spec fn node_outcome<S>(
    model: spec_fn(S, Seq<u8>, Option<Seq<u8>>, S) -> bool,
    source: Uid,
    low: Uid,
    high: Uid,
    before: Progress<S>,
    resp: DiscoveryResponse,
    after: Progress<S>,
) -> bool {
    &&& after.tn == next_tn(before.tn)
    &&& exists|reply: Option<Seq<u8>>| #[trigger]
        exchanged(model, before.bus, branch_frame(source, low, high, after.tn), reply, after.bus)
            && resp == classify_reply(reply)
}

/// One mute command to `target` and whether it was acknowledged.
pub open spec fn mute_outcome<S>(
    model: spec_fn(S, Seq<u8>, Option<Seq<u8>>, S) -> bool,
    source: Uid,
    target: Uid,
    before: Progress<S>,
    ok: bool,
    after: Progress<S>,
) -> bool {
    &&& after.tn == next_tn(before.tn)
    &&& exists|reply: Option<Seq<u8>>| #[trigger]
        exchanged(model, before.bus, mute_frame(source, target, after.tn), reply, after.bus)
            && ok == acknowledges_mute(reply, target)
}

/// The optional opening of a run: where `do_mute` is set, one broadcast
/// un-mute whose reply is ignored.
pub open spec fn unmute_outcome<S>(
    model: spec_fn(S, Seq<u8>, Option<Seq<u8>>, S) -> bool,
    source: Uid,
    do_mute: bool,
    before: Progress<S>,
    after: Progress<S>,
) -> bool {
    if do_mute {
        &&& after.tn == next_tn(before.tn)
        &&& exists|reply: Option<Seq<u8>>| #[trigger]
            exchanged(model, before.bus, unmute_frame(source, after.tn), reply, after.bus)
    } else {
        after == before
    }
}

/// One search of the range `[low, high]` that may still be halved `depth`
/// times: a branch query, then what its reply calls for.
pub open spec fn search_outcome<S>(
    model: spec_fn(S, Seq<u8>, Option<Seq<u8>>, S) -> bool,
    source: Uid,
    low: Uid,
    high: Uid,
    repeat: bool,
    depth: nat,
    before: Progress<S>,
    found: Seq<Uid>,
    after: Progress<S>,
) -> bool
    decreases depth, 1nat,
{
    exists|resp: DiscoveryResponse, asked: Progress<S>|
        #![trigger node_outcome(model, source, low, high, before, resp, asked)]
        node_outcome(model, source, low, high, before, resp, asked) && reply_outcome(
            model,
            source,
            low,
            high,
            repeat,
            depth,
            resp,
            asked,
            found,
            after,
        )
}

/// What follows a classified reply. Silence ends the search with nothing
/// found. A single reply is followed by a mute of that device, which is
/// found if it acknowledges, and otherwise dropped. Contention halves the
/// range at its midpoint, unless the range is a single point or `depth` is
/// used up, in which case nothing is found.
pub open spec fn reply_outcome<S>(
    model: spec_fn(S, Seq<u8>, Option<Seq<u8>>, S) -> bool,
    source: Uid,
    low: Uid,
    high: Uid,
    repeat: bool,
    depth: nat,
    resp: DiscoveryResponse,
    asked: Progress<S>,
    found: Seq<Uid>,
    after: Progress<S>,
) -> bool
    decreases depth, 0nat,
{
    match resp {
        DiscoveryResponse::Silence => found == Seq::<Uid>::empty() && after == asked,
        DiscoveryResponse::Unique(id) => {
            ||| mute_outcome(model, source, id, asked, true, after) && found == found_if(true, id)
            ||| mute_outcome(model, source, id, asked, false, after) && found == found_if(
                false,
                id,
            )
        },
        DiscoveryResponse::Contention => if depth == 0 || low == high {
            found == Seq::<Uid>::empty() && after == asked
        } else {
            split_outcome(model, source, low, high, repeat, (depth - 1) as nat, asked, found, after)
        },
    }
}

/// The device that a mute confirmed, or nothing.
pub open spec fn found_if(ok: bool, id: Uid) -> Seq<Uid> {
    if ok {
        seq![id]
    } else {
        Seq::<Uid>::empty()
    }
}

/// The search of the two halves of `[low, high]`: the lower half up to the
/// midpoint, then the upper half from the midpoint on. What the lower half
/// yields comes first.
pub open spec fn split_outcome<S>(
    model: spec_fn(S, Seq<u8>, Option<Seq<u8>>, S) -> bool,
    source: Uid,
    low: Uid,
    high: Uid,
    repeat: bool,
    depth: nat,
    before: Progress<S>,
    found: Seq<Uid>,
    after: Progress<S>,
) -> bool
    decreases depth, 4nat,
{
    exists|lower: Step<S>, upper: Step<S>|
        #![trigger joined(lower, upper)]
        branch_outcome(
            model,
            source,
            low,
            low.midpoint(high),
            repeat,
            depth,
            before,
            lower.found,
            lower.at,
        ) && branch_outcome(
            model,
            source,
            low.midpoint(high),
            high,
            repeat,
            depth,
            lower.at,
            upper.found,
            upper.at,
        ) && (Step { found, at: after }) == joined(lower, upper)
}

/// The search of one range with its retries: where `repeat` is set and a
/// search finds nothing, the range is searched again, up to two more times,
/// and the last search made is the one that counts.
pub open spec fn branch_outcome<S>(
    model: spec_fn(S, Seq<u8>, Option<Seq<u8>>, S) -> bool,
    source: Uid,
    low: Uid,
    high: Uid,
    repeat: bool,
    depth: nat,
    before: Progress<S>,
    found: Seq<Uid>,
    after: Progress<S>,
) -> bool
    decreases depth, 3nat,
{
    retry_outcome(model, source, low, high, repeat, depth, 2, before, found, after)
}

/// A search of the range with `tries` retries left: its result stands
/// where it is settled, and otherwise the range is searched again with one
/// retry less.
pub open spec fn retry_outcome<S>(
    model: spec_fn(S, Seq<u8>, Option<Seq<u8>>, S) -> bool,
    source: Uid,
    low: Uid,
    high: Uid,
    repeat: bool,
    depth: nat,
    tries: nat,
    before: Progress<S>,
    found: Seq<Uid>,
    after: Progress<S>,
) -> bool
    decreases depth, 2nat, tries,
{
    exists|next: Step<S>|
        #![trigger settled(repeat, tries, next)]
        search_outcome(model, source, low, high, repeat, depth, before, next.found, next.at)
            && if settled(repeat, tries, next) {
            found == next.found && after == next.at
        } else {
            retry_outcome(
                model,
                source,
                low,
                high,
                repeat,
                depth,
                (tries - 1) as nat,
                next.at,
                found,
                after,
            )
        }
}

/// A whole discovery run from the bus state `before`: the optional un-mute,
/// then the search of the full identifier space with its retries.
pub open spec fn discovery_outcome<S>(
    model: spec_fn(S, Seq<u8>, Option<Seq<u8>>, S) -> bool,
    source: Uid,
    do_mute: bool,
    repeat: bool,
    before: S,
    found: Seq<Uid>,
    after: S,
) -> bool {
    exists|started: Progress<S>, ended: Progress<S>|
        #![trigger
            unmute_outcome(model, source, do_mute, Progress { bus: before, tn: 0 }, started),
            branch_outcome(model, source, lowest_uid(), highest_uid(), repeat, 48, started, found, ended)]
        unmute_outcome(model, source, do_mute, Progress { bus: before, tn: 0 }, started)
            && branch_outcome(
            model,
            source,
            lowest_uid(),
            highest_uid(),
            repeat,
            48,
            started,
            found,
            ended,
        ) && ended.bus == after
}

/// The frame of a discovery command reads back as the command.
pub proof fn lemma_command_reads_back(destination: Uid, source: Uid, tn: u8, pid: u16, pd: Seq<u8>)
    requires
        pd.len() <= 231,
    ensures
        ({
            let v = command_view(destination, source, tn, pid, pd);
            &&& parse_frame(v.frame()) == Some(v)
            &&& v.checksum_ok()
            &&& v.destination == destination
            &&& v.source == source
            &&& v.tn == tn
            &&& v.pid == pid
            &&& v.pd == pd
            &&& v.cc == DISCOVERY_COMMAND
        }),
{
    reveal(command_view);
    let v = command_view(destination, source, tn, pid, pd);
    lemma_round_trip_checked(v.with_checksum(0));
    assert(v.with_checksum(0).with_checksum(v.with_checksum(0).expected_checksum()) == v);
}

/// The frames of a discovery run are frames that a transport must take.
pub proof fn lemma_frames_are_sendable(source: Uid, low: Uid, high: Uid, target: Uid, tn: u8)
    ensures
        sendable(branch_frame(source, low, high, tn)),
        sendable(mute_frame(source, target, tn)),
        sendable(unmute_frame(source, tn)),
{
    lemma_command_reads_back(
        broadcast_uid(),
        source,
        tn,
        DISC_UNIQUE_BRANCH,
        low.bytes() + high.bytes(),
    );
    lemma_command_reads_back(target, source, tn, DISC_MUTE, Seq::<u8>::empty());
    lemma_command_reads_back(broadcast_uid(), source, tn, DISC_UN_MUTE, Seq::<u8>::empty());
}

/// A branch query that the bus answers with `reply` has the outcome that
/// the reply is classified as.
pub proof fn lemma_node<S>(
    model: spec_fn(S, Seq<u8>, Option<Seq<u8>>, S) -> bool,
    source: Uid,
    low: Uid,
    high: Uid,
    before: Progress<S>,
    reply: Option<Seq<u8>>,
    after: Progress<S>,
)
    requires
        after.tn == next_tn(before.tn),
        exchanged(model, before.bus, branch_frame(source, low, high, after.tn), reply, after.bus),
    ensures
        node_outcome(model, source, low, high, before, classify_reply(reply), after),
{
    let resp = classify_reply(reply);
    let stated = exists|reply: Option<Seq<u8>>| #[trigger]
        exchanged(model, before.bus, branch_frame(source, low, high, after.tn), reply, after.bus)
            && resp == classify_reply(reply);
    assert(stated);
}

/// A mute command that the bus answers with `reply` succeeds where the
/// reply acknowledges it.
pub proof fn lemma_mute<S>(
    model: spec_fn(S, Seq<u8>, Option<Seq<u8>>, S) -> bool,
    source: Uid,
    target: Uid,
    before: Progress<S>,
    reply: Option<Seq<u8>>,
    after: Progress<S>,
)
    requires
        after.tn == next_tn(before.tn),
        exchanged(model, before.bus, mute_frame(source, target, after.tn), reply, after.bus),
    ensures
        mute_outcome(model, source, target, before, acknowledges_mute(reply, target), after),
{
    let ok = acknowledges_mute(reply, target);
    let stated = exists|reply: Option<Seq<u8>>| #[trigger]
        exchanged(model, before.bus, mute_frame(source, target, after.tn), reply, after.bus)
            && ok == acknowledges_mute(reply, target);
    assert(stated);
}

/// A broadcast un-mute that the bus answers in any way opens a run.
pub proof fn lemma_unmute<S>(
    model: spec_fn(S, Seq<u8>, Option<Seq<u8>>, S) -> bool,
    source: Uid,
    before: Progress<S>,
    reply: Option<Seq<u8>>,
    after: Progress<S>,
)
    requires
        after.tn == next_tn(before.tn),
        exchanged(model, before.bus, unmute_frame(source, after.tn), reply, after.bus),
    ensures
        unmute_outcome(model, source, true, before, after),
{
    let stated = exists|reply: Option<Seq<u8>>| #[trigger]
        exchanged(model, before.bus, unmute_frame(source, after.tn), reply, after.bus);
    assert(stated);
}

/// An opening followed by the search of the full identifier space is a
/// discovery run.
pub proof fn lemma_discovery<S>(
    model: spec_fn(S, Seq<u8>, Option<Seq<u8>>, S) -> bool,
    source: Uid,
    do_mute: bool,
    repeat: bool,
    before: S,
    started: Progress<S>,
    found: Seq<Uid>,
    ended: Progress<S>,
)
    requires
        unmute_outcome(model, source, do_mute, Progress { bus: before, tn: 0 }, started),
        branch_outcome(model, source, lowest_uid(), highest_uid(), repeat, 48, started, found, ended),
    ensures
        discovery_outcome(model, source, do_mute, repeat, before, found, ended.bus),
{
    let after = ended.bus;
    let stated = exists|started: Progress<S>, ended: Progress<S>|
        #![trigger
            unmute_outcome(model, source, do_mute, Progress { bus: before, tn: 0 }, started),
            branch_outcome(model, source, lowest_uid(), highest_uid(), repeat, 48, started, found, ended)]
        unmute_outcome(model, source, do_mute, Progress { bus: before, tn: 0 }, started)
            && branch_outcome(
            model,
            source,
            lowest_uid(),
            highest_uid(),
            repeat,
            48,
            started,
            found,
            ended,
        ) && ended.bus == after;
    assert(stated);
}

/// Silence ends a search with nothing found.
pub proof fn lemma_reply_silence<S>(
    model: spec_fn(S, Seq<u8>, Option<Seq<u8>>, S) -> bool,
    source: Uid,
    low: Uid,
    high: Uid,
    repeat: bool,
    depth: nat,
    asked: Progress<S>,
)
    ensures
        reply_outcome(
            model,
            source,
            low,
            high,
            repeat,
            depth,
            DiscoveryResponse::Silence,
            asked,
            Seq::<Uid>::empty(),
            asked,
        ),
{
}

/// A single reply is followed by a mute, and the device is found if the
/// mute is acknowledged.
pub proof fn lemma_reply_unique<S>(
    model: spec_fn(S, Seq<u8>, Option<Seq<u8>>, S) -> bool,
    source: Uid,
    low: Uid,
    high: Uid,
    repeat: bool,
    depth: nat,
    id: Uid,
    asked: Progress<S>,
    ok: bool,
    after: Progress<S>,
)
    requires
        mute_outcome(model, source, id, asked, ok, after),
    ensures
        reply_outcome(
            model,
            source,
            low,
            high,
            repeat,
            depth,
            DiscoveryResponse::Unique(id),
            asked,
            found_if(ok, id),
            after,
        ),
{
}

/// Contention in a range that cannot be halved ends a search with nothing
/// found.
pub proof fn lemma_reply_exhausted<S>(
    model: spec_fn(S, Seq<u8>, Option<Seq<u8>>, S) -> bool,
    source: Uid,
    low: Uid,
    high: Uid,
    repeat: bool,
    depth: nat,
    asked: Progress<S>,
)
    requires
        depth == 0 || low == high,
    ensures
        reply_outcome(
            model,
            source,
            low,
            high,
            repeat,
            depth,
            DiscoveryResponse::Contention,
            asked,
            Seq::<Uid>::empty(),
            asked,
        ),
{
}

/// Contention in a range that can be halved is followed by the search of
/// its two halves.
pub proof fn lemma_reply_split<S>(
    model: spec_fn(S, Seq<u8>, Option<Seq<u8>>, S) -> bool,
    source: Uid,
    low: Uid,
    high: Uid,
    repeat: bool,
    depth: nat,
    asked: Progress<S>,
    found: Seq<Uid>,
    after: Progress<S>,
)
    requires
        depth > 0,
        low != high,
        split_outcome(model, source, low, high, repeat, (depth - 1) as nat, asked, found, after),
    ensures
        reply_outcome(
            model,
            source,
            low,
            high,
            repeat,
            depth,
            DiscoveryResponse::Contention,
            asked,
            found,
            after,
        ),
{
}

/// A search is a branch query followed by what its reply calls for.
pub proof fn lemma_search<S>(
    model: spec_fn(S, Seq<u8>, Option<Seq<u8>>, S) -> bool,
    source: Uid,
    low: Uid,
    high: Uid,
    repeat: bool,
    depth: nat,
    before: Progress<S>,
    resp: DiscoveryResponse,
    asked: Progress<S>,
    found: Seq<Uid>,
    after: Progress<S>,
)
    requires
        node_outcome(model, source, low, high, before, resp, asked),
        reply_outcome(model, source, low, high, repeat, depth, resp, asked, found, after),
    ensures
        search_outcome(model, source, low, high, repeat, depth, before, found, after),
{
    assert(exists|resp: DiscoveryResponse, asked: Progress<S>|
        #![trigger node_outcome(model, source, low, high, before, resp, asked)]
        node_outcome(model, source, low, high, before, resp, asked) && reply_outcome(
            model,
            source,
            low,
            high,
            repeat,
            depth,
            resp,
            asked,
            found,
            after,
        ));
}

/// The search of a range that can be halved is the search of its lower half
/// followed by the search of its upper half.
pub proof fn lemma_split<S>(
    model: spec_fn(S, Seq<u8>, Option<Seq<u8>>, S) -> bool,
    source: Uid,
    low: Uid,
    high: Uid,
    repeat: bool,
    depth: nat,
    before: Progress<S>,
    left: Seq<Uid>,
    between: Progress<S>,
    right: Seq<Uid>,
    after: Progress<S>,
)
    requires
        branch_outcome(model, source, low, low.midpoint(high), repeat, depth, before, left, between),
        branch_outcome(model, source, low.midpoint(high), high, repeat, depth, between, right, after),
    ensures
        split_outcome(model, source, low, high, repeat, depth, before, left + right, after),
{
    let lower = Step { found: left, at: between };
    let upper = Step { found: right, at: after };
    assert((Step { found: left + right, at: after }) == joined(lower, upper));
}

/// The halves of a split: what the lower and the upper half yielded.
pub proof fn lemma_split_halves<S>(
    model: spec_fn(S, Seq<u8>, Option<Seq<u8>>, S) -> bool,
    source: Uid,
    low: Uid,
    high: Uid,
    repeat: bool,
    depth: nat,
    before: Progress<S>,
    found: Seq<Uid>,
    after: Progress<S>,
) -> (halves: (Step<S>, Step<S>))
    requires
        split_outcome(model, source, low, high, repeat, depth, before, found, after),
    ensures
        branch_outcome(
            model,
            source,
            low,
            low.midpoint(high),
            repeat,
            depth,
            before,
            halves.0.found,
            halves.0.at,
        ),
        branch_outcome(
            model,
            source,
            low.midpoint(high),
            high,
            repeat,
            depth,
            halves.0.at,
            halves.1.found,
            halves.1.at,
        ),
        found == halves.0.found + halves.1.found,
        after == halves.1.at,
{
    choose|lower: Step<S>, upper: Step<S>|
        #![trigger joined(lower, upper)]
        branch_outcome(
            model,
            source,
            low,
            low.midpoint(high),
            repeat,
            depth,
            before,
            lower.found,
            lower.at,
        ) && branch_outcome(
            model,
            source,
            low.midpoint(high),
            high,
            repeat,
            depth,
            lower.at,
            upper.found,
            upper.at,
        ) && (Step { found, at: after }) == joined(lower, upper)
}

/// A search that is settled is the search of the range with its retries.
pub proof fn lemma_retry_done<S>(
    model: spec_fn(S, Seq<u8>, Option<Seq<u8>>, S) -> bool,
    source: Uid,
    low: Uid,
    high: Uid,
    repeat: bool,
    depth: nat,
    tries: nat,
    before: Progress<S>,
    found: Seq<Uid>,
    after: Progress<S>,
)
    requires
        search_outcome(model, source, low, high, repeat, depth, before, found, after),
        settled(repeat, tries, Step { found, at: after }),
    ensures
        retry_outcome(model, source, low, high, repeat, depth, tries, before, found, after),
{
    let next = Step { found, at: after };
    assert(settled(repeat, tries, next));
}

/// A search that is not settled is followed by the searches of the
/// retries that are left.
pub proof fn lemma_retry_again<S>(
    model: spec_fn(S, Seq<u8>, Option<Seq<u8>>, S) -> bool,
    source: Uid,
    low: Uid,
    high: Uid,
    repeat: bool,
    depth: nat,
    tries: nat,
    before: Progress<S>,
    first: Seq<Uid>,
    then: Progress<S>,
    found: Seq<Uid>,
    after: Progress<S>,
)
    requires
        search_outcome(model, source, low, high, repeat, depth, before, first, then),
        !settled(repeat, tries, Step { found: first, at: then }),
        retry_outcome(model, source, low, high, repeat, depth, (tries - 1) as nat, then, found, after),
    ensures
        retry_outcome(model, source, low, high, repeat, depth, tries, before, found, after),
{
    let next = Step { found: first, at: then };
    assert(!settled(repeat, tries, next));
}

/// The first search of a range with its retries: what it yielded, and that
/// it stands where it is settled and is otherwise followed by the retries
/// that are left.
pub proof fn lemma_retry_first<S>(
    model: spec_fn(S, Seq<u8>, Option<Seq<u8>>, S) -> bool,
    source: Uid,
    low: Uid,
    high: Uid,
    repeat: bool,
    depth: nat,
    tries: nat,
    before: Progress<S>,
    found: Seq<Uid>,
    after: Progress<S>,
) -> (next: Step<S>)
    requires
        retry_outcome(model, source, low, high, repeat, depth, tries, before, found, after),
    ensures
        search_outcome(model, source, low, high, repeat, depth, before, next.found, next.at),
        settled(repeat, tries, next) ==> found == next.found && after == next.at,
        !settled(repeat, tries, next) ==> retry_outcome(
            model,
            source,
            low,
            high,
            repeat,
            depth,
            (tries - 1) as nat,
            next.at,
            found,
            after,
        ),
{
    choose|next: Step<S>|
        #![trigger settled(repeat, tries, next)]
        search_outcome(model, source, low, high, repeat, depth, before, next.found, next.at)
            && if settled(repeat, tries, next) {
            found == next.found && after == next.at
        } else {
            retry_outcome(
                model,
                source,
                low,
                high,
                repeat,
                depth,
                (tries - 1) as nat,
                next.at,
                found,
                after,
            )
        }
}

/// The search of a range with its retries is a search with two retries
/// left.
pub proof fn lemma_branch<S>(
    model: spec_fn(S, Seq<u8>, Option<Seq<u8>>, S) -> bool,
    source: Uid,
    low: Uid,
    high: Uid,
    repeat: bool,
    depth: nat,
    before: Progress<S>,
    found: Seq<Uid>,
    after: Progress<S>,
)
    ensures
        branch_outcome(model, source, low, high, repeat, depth, before, found, after)
            == retry_outcome(model, source, low, high, repeat, depth, 2, before, found, after),
{
}

} // verus!
