//! The discovery engine: a bisection search over the identifier space that
//! asks whole ranges of devices to reply, mutes each device that replies
//! alone, and halves every range in which several reply at once.

use vstd::prelude::*;
use crate::branch::{DiscoveryResponse, reply_view};
use crate::constants::{
    DISCOVERY_COMMAND,
    DISCOVERY_COMMAND_RESPONSE,
    DISC_MUTE,
    DISC_UNIQUE_BRANCH,
    DISC_UN_MUTE,
    RESPONSE_TYPE_ACK,
};
use crate::outcome::{
    Progress,
    acknowledges_mute,
    branch_outcome,
    command_view,
    discovery_outcome,
    exchanged,
    found_if,
    lemma_branch,
    lemma_discovery,
    lemma_frames_are_sendable,
    lemma_mute,
    lemma_node,
    lemma_reply_exhausted,
    lemma_reply_silence,
    lemma_reply_split,
    lemma_reply_unique,
    lemma_retry_again,
    lemma_retry_done,
    lemma_search,
    lemma_split,
    lemma_unmute,
    mute_outcome,
    next_tn,
    node_outcome,
    search_outcome,
    sendable,
};
use crate::packet::{Pkt, push_uid};
use crate::uid::Uid;

verus! {

/// Number of times a range may be halved below the full identifier space:
/// the bit width of an identifier.
pub const MAX_DEPTH: u8 = 48;

/// The bus model of a transport function: it keeps no state, and admits
/// every reply that the function may give to the frame. The engine asks
/// of a transport only that it takes every frame that is `sendable`.
pub open spec fn transport_model<F: Fn(&[u8]) -> Option<Vec<u8>>>(f: F) -> spec_fn(
    (),
    Seq<u8>,
    Option<Seq<u8>>,
    (),
) -> bool {
    |before: (), frame: Seq<u8>, reply: Option<Seq<u8>>, after: ()|
        exists|sent: &[u8], got: Option<Vec<u8>>|
            sent@ == frame && reply_view(got) == reply && call_ensures(f, (sent,), got)
}

/// A bus as the engine sees it: something that takes a frame and gives
/// the reply, if any, and whose replies may depend on the frames that it
/// took before.
pub trait Transport {
    /// What the bus remembers from one exchange to the next.
    type State;

    /// The exchanges that the bus admits.
    spec fn model(&self) -> spec_fn(Self::State, Seq<u8>, Option<Seq<u8>>, Self::State) -> bool;

    /// What the bus remembers now.
    spec fn state(&self) -> Self::State;

    /// The bus can take a frame.
    spec fn ready(&self) -> bool;

    /// Hands one frame to the bus and returns what came back.
    fn send(&mut self, frame: &[u8]) -> (reply: Option<Vec<u8>>)
        requires
            old(self).ready(),
            sendable(frame@),
        ensures
            final(self).ready(),
            final(self).model() == old(self).model(),
            exchanged(
                old(self).model(),
                old(self).state(),
                frame@,
                reply_view(reply),
                final(self).state(),
            ),
    ;
}

/// A transport function as a bus without state.
pub struct FnTransport<F> {
    pub f: F,
}

impl<F: Fn(&[u8]) -> Option<Vec<u8>>> Transport for FnTransport<F> {
    type State = ();

    open spec fn model(&self) -> spec_fn((), Seq<u8>, Option<Seq<u8>>, ()) -> bool {
        transport_model(self.f)
    }

    open spec fn state(&self) -> () {
        ()
    }

    open spec fn ready(&self) -> bool {
        forall|b: &[u8]| sendable(b@) ==> call_requires(self.f, (b,))
    }

    fn send(&mut self, frame: &[u8]) -> (reply: Option<Vec<u8>>) {
        let reply = (self.f)(frame);
        assert(call_ensures(self.f, (frame,), reply));
        reply
    }
}

/// Builds the frame of a discovery command.
pub fn discovery_command(destination: Uid, source: Uid, tn: u8, pid: u16, pd: Vec<u8>) -> (frame:
    Vec<u8>)
    requires
        pd@.len() <= 231,
    ensures
        frame@ == command_view(destination, source, tn, pid, pd@).frame(),
{
    let mut output_pkt = Pkt::new();
    output_pkt.destination = destination;
    output_pkt.source = source;
    output_pkt.tn = tn;
    output_pkt.port_or_response_type = 0x01;
    output_pkt.cc = DISCOVERY_COMMAND;
    output_pkt.pid = pid;
    output_pkt.pdl = pd.len() as u8;
    output_pkt.pd = pd;
    output_pkt.set_message_length();
    output_pkt.set_checksum();
    proof {
        reveal(command_view);
    }
    output_pkt.serialize()
}

/// Tells whether a reply acknowledges the mute of `target`.
pub fn mute_acknowledged(reply: Option<Vec<u8>>, target: &Uid) -> (ok: bool)
    ensures
        ok == acknowledges_mute(reply_view(reply), *target),
{
    match reply {
        None => false,
        Some(data) => {
            match Pkt::deserialize(data) {
                None => false,
                Some(data_pkt) => {
                    data_pkt.test_checksum() && data_pkt.port_or_response_type
                        == RESPONSE_TYPE_ACK && data_pkt.source == *target && data_pkt.cc
                        == DISCOVERY_COMMAND_RESPONSE && data_pkt.pid == DISC_MUTE
                },
            }
        },
    }
}

/// Sends one branch query over `[min, max]` and classifies the reply.
pub fn do_discovery_node<T: Transport>(
    t: &mut T,
    my_uid: &Uid,
    min: &Uid,
    max: &Uid,
    tn: &mut u8,
) -> (resp: DiscoveryResponse)
    requires
        old(t).ready(),
    ensures
        final(t).ready(),
        final(t).model() == old(t).model(),
        node_outcome(
            old(t).model(),
            *my_uid,
            *min,
            *max,
            Progress { bus: old(t).state(), tn: *old(tn) },
            resp,
            Progress { bus: final(t).state(), tn: *final(tn) },
        ),
{
    let ghost model = t.model();
    let ghost before = Progress { bus: t.state(), tn: *tn };
    *tn = tn.wrapping_add(1);
    assert(*tn == next_tn(before.tn));
    let mut pd: Vec<u8> = Vec::new();
    push_uid(&mut pd, *min);
    push_uid(&mut pd, *max);
    assert(pd@ =~= min.bytes() + max.bytes());
    let frame = discovery_command(Uid::new(0xFFFF, 0xFFFF_FFFF), *my_uid, *tn, DISC_UNIQUE_BRANCH, pd);
    proof {
        lemma_frames_are_sendable(*my_uid, *min, *max, *my_uid, *tn);
    }
    let reply = t.send(frame.as_slice());
    proof {
        lemma_node(
            model,
            *my_uid,
            *min,
            *max,
            before,
            reply_view(reply),
            Progress { bus: t.state(), tn: *tn },
        );
    }
    DiscoveryResponse::from_reply(&reply)
}

/// Sends a mute command to `uid` and tells whether it was acknowledged.
pub fn send_mute_message<T: Transport>(
    t: &mut T,
    my_uid: &Uid,
    uid: &Uid,
    tn: &mut u8,
) -> (ok: bool)
    requires
        old(t).ready(),
    ensures
        final(t).ready(),
        final(t).model() == old(t).model(),
        mute_outcome(
            old(t).model(),
            *my_uid,
            *uid,
            Progress { bus: old(t).state(), tn: *old(tn) },
            ok,
            Progress { bus: final(t).state(), tn: *final(tn) },
        ),
{
    let ghost model = t.model();
    let ghost before = Progress { bus: t.state(), tn: *tn };
    *tn = tn.wrapping_add(1);
    assert(*tn == next_tn(before.tn));
    let pd: Vec<u8> = Vec::new();
    assert(pd@ =~= Seq::<u8>::empty());
    let frame = discovery_command(*uid, *my_uid, *tn, DISC_MUTE, pd);
    proof {
        lemma_frames_are_sendable(*my_uid, *uid, *uid, *uid, *tn);
    }
    let reply = t.send(frame.as_slice());
    proof {
        lemma_mute(
            model,
            *my_uid,
            *uid,
            before,
            reply_view(reply),
            Progress { bus: t.state(), tn: *tn },
        );
    }
    mute_acknowledged(reply, uid)
}

/// Searches the range `[min, max]`, which may still be halved `depth`
/// times, and returns the devices found in it, lower half first.
pub fn do_discovery_recursion<T: Transport>(
    t: &mut T,
    my_uid: &Uid,
    min: &Uid,
    max: &Uid,
    tn: &mut u8,
    repeat_disc: bool,
    depth: u8,
) -> (tod: Vec<Uid>)
    requires
        old(t).ready(),
    ensures
        final(t).ready(),
        final(t).model() == old(t).model(),
        search_outcome(
            old(t).model(),
            *my_uid,
            *min,
            *max,
            repeat_disc,
            depth as nat,
            Progress { bus: old(t).state(), tn: *old(tn) },
            tod@,
            Progress { bus: final(t).state(), tn: *final(tn) },
        ),
    decreases depth, 0nat,
{
    let ghost model = t.model();
    let ghost before = Progress { bus: t.state(), tn: *tn };
    let resp = do_discovery_node(t, my_uid, min, max, tn);
    let ghost asked = Progress { bus: t.state(), tn: *tn };
    let mut tod: Vec<Uid> = Vec::new();
    assert(tod@ =~= Seq::<Uid>::empty());
    let ghost d = depth as nat;
    match resp {
        DiscoveryResponse::Silence => {
            proof {
                lemma_reply_silence(model, *my_uid, *min, *max, repeat_disc, d, asked);
            }
        },
        DiscoveryResponse::Unique(found_uid) => {
            let ok = send_mute_message(t, my_uid, &found_uid, tn);
            if ok {
                tod.push(found_uid);
            }
            proof {
                assert(tod@ =~= found_if(ok, found_uid));
                lemma_reply_unique(
                    model,
                    *my_uid,
                    *min,
                    *max,
                    repeat_disc,
                    d,
                    found_uid,
                    asked,
                    ok,
                    Progress { bus: t.state(), tn: *tn },
                );
            }
        },
        DiscoveryResponse::Contention => {
            if depth > 0 && !(*min == *max) {
                let mid = min.get_midpoint(max);
                let mut left = search_branch(t, my_uid, min, &mid, tn, repeat_disc, depth - 1);
                let ghost between = Progress { bus: t.state(), tn: *tn };
                let mut right = search_branch(t, my_uid, &mid, max, tn, repeat_disc, depth - 1);
                let ghost l = left@;
                let ghost r = right@;
                tod.append(&mut left);
                tod.append(&mut right);
                proof {
                    let after = Progress { bus: t.state(), tn: *tn };
                    assert(tod@ =~= l + r);
                    lemma_split(
                        model,
                        *my_uid,
                        *min,
                        *max,
                        repeat_disc,
                        (d - 1) as nat,
                        asked,
                        l,
                        between,
                        r,
                        after,
                    );
                    lemma_reply_split(model, *my_uid, *min, *max, repeat_disc, d, asked, tod@, after);
                }
            } else {
                proof {
                    lemma_reply_exhausted(model, *my_uid, *min, *max, repeat_disc, d, asked);
                }
            }
        },
    }
    proof {
        let after = Progress { bus: t.state(), tn: *tn };
        lemma_search(model, *my_uid, *min, *max, repeat_disc, d, before, resp, asked, tod@, after);
    }
    tod
}

/// Searches one range with the retries that `repeat_disc` asks for.
pub fn search_branch<T: Transport>(
    t: &mut T,
    my_uid: &Uid,
    min: &Uid,
    max: &Uid,
    tn: &mut u8,
    repeat_disc: bool,
    depth: u8,
) -> (found: Vec<Uid>)
    requires
        old(t).ready(),
    ensures
        final(t).ready(),
        final(t).model() == old(t).model(),
        branch_outcome(
            old(t).model(),
            *my_uid,
            *min,
            *max,
            repeat_disc,
            depth as nat,
            Progress { bus: old(t).state(), tn: *old(tn) },
            found@,
            Progress { bus: final(t).state(), tn: *final(tn) },
        ),
    decreases depth, 1nat,
{
    let ghost model = t.model();
    let ghost before = Progress { bus: t.state(), tn: *tn };
    let ghost d = depth as nat;
    let first = do_discovery_recursion(t, my_uid, min, max, tn, repeat_disc, depth);
    let ghost then1 = Progress { bus: t.state(), tn: *tn };
    if !repeat_disc || first.len() > 0 {
        proof {
            lemma_retry_done(model, *my_uid, *min, *max, repeat_disc, d, 2, before, first@, then1);
            lemma_branch(model, *my_uid, *min, *max, repeat_disc, d, before, first@, then1);
        }
        return first;
    }
    let second = do_discovery_recursion(t, my_uid, min, max, tn, repeat_disc, depth);
    let ghost then2 = Progress { bus: t.state(), tn: *tn };
    if second.len() > 0 {
        proof {
            lemma_retry_done(model, *my_uid, *min, *max, repeat_disc, d, 1, then1, second@, then2);
            lemma_retry_again(
                model,
                *my_uid,
                *min,
                *max,
                repeat_disc,
                d,
                2,
                before,
                first@,
                then1,
                second@,
                then2,
            );
            lemma_branch(model, *my_uid, *min, *max, repeat_disc, d, before, second@, then2);
        }
        return second;
    }
    let third = do_discovery_recursion(t, my_uid, min, max, tn, repeat_disc, depth);
    proof {
        let after = Progress { bus: t.state(), tn: *tn };
        lemma_retry_done(model, *my_uid, *min, *max, repeat_disc, d, 0, then2, third@, after);
        lemma_retry_again(
            model,
            *my_uid,
            *min,
            *max,
            repeat_disc,
            d,
            1,
            then1,
            second@,
            then2,
            third@,
            after,
        );
        lemma_retry_again(
            model,
            *my_uid,
            *min,
            *max,
            repeat_disc,
            d,
            2,
            before,
            first@,
            then1,
            third@,
            after,
        );
        lemma_branch(model, *my_uid, *min, *max, repeat_disc, d, before, third@, after);
    }
    third
}

/// Runs the discovery on a bus: an optional broadcast un-mute, then the
/// search of the full identifier space. Returns the devices in the order
/// in which they were found.
pub fn do_discovery_through<T: Transport>(
    t: &mut T,
    my_uid: &Uid,
    do_mute: bool,
    repeat_disc: bool,
) -> (tod: Vec<Uid>)
    requires
        old(t).ready(),
    ensures
        final(t).ready(),
        final(t).model() == old(t).model(),
        discovery_outcome(
            old(t).model(),
            *my_uid,
            do_mute,
            repeat_disc,
            old(t).state(),
            tod@,
            final(t).state(),
        ),
{
    let ghost model = t.model();
    let ghost initial = t.state();
    let mut tn: u8 = 0;
    if do_mute {
        tn = tn.wrapping_add(1);
        let pd: Vec<u8> = Vec::new();
        assert(pd@ =~= Seq::<u8>::empty());
        let frame = discovery_command(Uid::new(0xFFFF, 0xFFFF_FFFF), *my_uid, tn, DISC_UN_MUTE, pd);
        proof {
            lemma_frames_are_sendable(*my_uid, *my_uid, *my_uid, *my_uid, tn);
        }
        let reply = t.send(frame.as_slice());
        proof {
            lemma_unmute(
                model,
                *my_uid,
                Progress { bus: initial, tn: 0 },
                reply_view(reply),
                Progress { bus: t.state(), tn: tn },
            );
        }
    }
    let ghost started = Progress { bus: t.state(), tn: tn };
    let min: Uid = Uid::new(0, 0);
    let max: Uid = Uid::new(0x7FFF, 0xFFFF_FFFF);
    let tod = search_branch(t, my_uid, &min, &max, &mut tn, repeat_disc, MAX_DEPTH);
    proof {
        lemma_discovery(
            model,
            *my_uid,
            do_mute,
            repeat_disc,
            initial,
            started,
            tod@,
            Progress { bus: t.state(), tn: tn },
        );
    }
    tod
}

/// Runs the discovery through a transport function: an optional broadcast
/// un-mute, then the search of the full identifier space. Returns the
/// devices in the order in which they were found.
pub fn do_discovery_algo<F: Fn(&[u8]) -> Option<Vec<u8>>>(
    f: F,
    my_uid: &Uid,
    do_mute: bool,
    repeat_disc: bool,
) -> (tod: Vec<Uid>)
    requires
        forall|b: &[u8]| sendable(b@) ==> call_requires(f, (b,)),
    ensures
        discovery_outcome(transport_model(f), *my_uid, do_mute, repeat_disc, (), tod@, ()),
{
    let mut t = FnTransport { f };
    do_discovery_through(&mut t, my_uid, do_mute, repeat_disc)
}

} // verus!
