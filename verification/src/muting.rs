//! A bus that mutes: a simulated bus whose devices stop answering branch
//! queries once they were muted. It is the ideal bus, and a discovery run
//! on it returns every device, each once.

use vstd::prelude::*;
use crate::branch::{DiscoveryResponse, classify_bytes, lemma_branch_reply_is_unique, preamble_len};
use crate::bus_model::{
    at_most_one_replies,
    ideal_bus,
    ideal_exchange,
    lemma_discovery_finds_every_device,
    replies,
};
use crate::constants::{DISC_MUTE, DISC_UNIQUE_BRANCH, DISC_UN_MUTE};
use crate::discovery::{Transport, do_discovery_through};
use crate::end_to_end::lemma_in_range;
use crate::packet::Pkt;
use crate::simulated::{
    SIMULATED_PREAMBLE,
    devices_in_range,
    encode_acknowledgement,
    encode_branch_reply,
    is_listed,
    lemma_acknowledgement,
    preamble,
};
use crate::uid::{Uid, ascending};

verus! {

/// A bus with the devices `devices`, of which `unmuted` still answer
/// branch queries.
pub struct MutingBus {
    pub devices: Vec<Uid>,
    pub unmuted: Vec<Uid>,
}

/// The list without the device `d`.
pub open spec fn removed(list: Seq<Uid>, d: Uid) -> Seq<Uid>
    decreases list.len(),
{
    if list.len() == 0 {
        Seq::<Uid>::empty()
    } else {
        let rest = removed(list.drop_last(), d);
        if list.last() == d {
            rest
        } else {
            rest.push(list.last())
        }
    }
}

/// What is left of a list without `d` are its devices other than `d`, and
/// none twice where the list holds none twice.
pub proof fn lemma_removed(list: Seq<Uid>, d: Uid)
    ensures
        forall|x: Uid| #[trigger] removed(list, d).contains(x) <==> list.contains(x) && x != d,
        list.no_duplicates() ==> removed(list, d).no_duplicates(),
    decreases list.len(),
{
    let r = removed(list, d);
    if list.len() > 0 {
        let front = list.drop_last();
        let last = list.last();
        let rest = removed(front, d);
        lemma_removed(front, d);
        assert forall|x: Uid| #[trigger] r.contains(x) <==> list.contains(x) && x != d by {
            if r.contains(x) {
                let k = choose|k: int| 0 <= k < r.len() && r[k] == x;
                if k < rest.len() {
                    assert(rest[k] == x);
                    assert(rest.contains(x));
                    let n = choose|n: int| 0 <= n < front.len() && front[n] == x;
                    assert(list[n] == x);
                } else {
                    assert(x == last);
                    assert(list[list.len() - 1] == x);
                }
            }
            if list.contains(x) && x != d {
                let n = choose|n: int| 0 <= n < list.len() && list[n] == x;
                if n < front.len() {
                    assert(front[n] == x);
                    assert(front.contains(x));
                    assert(rest.contains(x));
                    let k = choose|k: int| 0 <= k < rest.len() && rest[k] == x;
                    assert(r[k] == x);
                } else {
                    assert(r[r.len() - 1] == x);
                }
            }
        }
        if list.no_duplicates() {
            assert(front.no_duplicates());
            if last != d {
                assert forall|i: int, j: int| 0 <= i < r.len() && 0 <= j < r.len() && i != j implies r[i]
                    != r[j] by {
                    if i < rest.len() && j < rest.len() {
                        assert(rest[i] != rest[j]);
                    } else {
                        let k = if i < rest.len() {
                            i
                        } else {
                            j
                        };
                        assert(rest.contains(rest[k]));
                        if rest[k] == last {
                            let n = choose|n: int| 0 <= n < front.len() && front[n] == last;
                            assert(list[n] == list[list.len() - 1]);
                        }
                    }
                }
            }
        }
    }
}

/// Copies a list of devices.
pub fn copy_of(list: &Vec<Uid>) -> (out: Vec<Uid>)
    ensures
        out@ == list@,
{
    let mut out: Vec<Uid> = Vec::new();
    let mut i: usize = 0;
    while i < list.len()
        invariant
            i <= list@.len(),
            out@ == list@.take(i as int),
        decreases list@.len() - i,
    {
        out.push(list[i]);
        i += 1;
        assert(out@ =~= list@.take(i as int));
    }
    assert(list@.take(list@.len() as int) =~= list@);
    out
}

/// Copies a list of devices but for the device `d`.
pub fn without(list: &Vec<Uid>, d: &Uid) -> (out: Vec<Uid>)
    ensures
        out@ == removed(list@, *d),
{
    let mut out: Vec<Uid> = Vec::new();
    let mut i: usize = 0;
    while i < list.len()
        invariant
            i <= list@.len(),
            out@ == removed(list@.take(i as int), *d),
        decreases list@.len() - i,
    {
        proof {
            assert(list@.take(i + 1).drop_last() =~= list@.take(i as int));
        }
        if !(list[i] == *d) {
            out.push(list[i]);
        }
        i += 1;
    }
    assert(list@.take(list@.len() as int) =~= list@);
    out
}

impl MutingBus {
    /// A bus with the given devices, none of them muted.
    pub fn new(devices: Vec<Uid>) -> (bus: MutingBus)
        requires
            devices@.no_duplicates(),
        ensures
            bus.ready(),
            bus.devices@ == devices@,
            bus.unmuted@ == devices@,
    {
        let unmuted = copy_of(&devices);
        MutingBus { devices, unmuted }
    }
}

impl Transport for MutingBus {
    type State = Set<Uid>;

    open spec fn model(&self) -> spec_fn(Set<Uid>, Seq<u8>, Option<Seq<u8>>, Set<Uid>) -> bool {
        ideal_bus(self.devices@.to_set())
    }

    open spec fn state(&self) -> Set<Uid> {
        self.unmuted@.to_set()
    }

    open spec fn ready(&self) -> bool {
        self.devices@.no_duplicates() && self.unmuted@.no_duplicates()
    }

    fn send(&mut self, frame: &[u8]) -> (reply: Option<Vec<u8>>) {
        let ghost all = self.devices@.to_set();
        let ghost before = self.unmuted@.to_set();
        let packet = match Pkt::deserialize(vstd::slice::slice_to_vec(frame)) {
            Some(packet) => packet,
            None => {
                return None;
            },
        };
        if packet.pid == DISC_UNIQUE_BRANCH {
            if packet.pd.len() != 12 {
                assert(ideal_exchange(all, before, frame@, None, before));
                return None;
            }
            let min = Uid::from_bytes(vstd::slice::slice_subrange(packet.pd.as_slice(), 0, 6));
            let max = Uid::from_bytes(vstd::slice::slice_subrange(packet.pd.as_slice(), 6, 12));
            let found = devices_in_range(&self.unmuted, &min, &max);
            proof {
                lemma_in_range(self.unmuted@, min, max);
                assert forall|d: Uid| #[trigger]
                    replies(before, min, max, d) <==> found@.contains(d) by {}
            }
            if found.len() == 0 {
                assert(ideal_exchange(all, before, frame@, None, before));
                None
            } else if found.len() == 1 {
                let reply = encode_branch_reply(found[0], SIMULATED_PREAMBLE);
                proof {
                    lemma_branch_reply_is_unique(preamble(SIMULATED_PREAMBLE as nat), found@[0]);
                    assert(found@.contains(found@[0]));
                    assert forall|a: Uid, b: Uid|
                        #![trigger replies(before, min, max, a), replies(before, min, max, b)]
                        replies(before, min, max, a) && replies(before, min, max, b) implies a
                        == b by {
                        assert(found@.contains(a) && found@.contains(b));
                    }
                    assert(ideal_exchange(all, before, frame@, Some(reply@), before));
                }
                Some(reply)
            } else {
                let mut noise: Vec<u8> = Vec::new();
                noise.push(0);
                proof {
                    assert(noise@ =~= seq![0u8]);
                    assert(preamble_len(noise@) == 0);
                    assert(classify_bytes(noise@) == DiscoveryResponse::Contention);
                    assert(found@.contains(found@[0]) && found@.contains(found@[1]));
                    assert(found@[0] != found@[1]);
                    assert(replies(before, min, max, found@[0]) && replies(
                        before,
                        min,
                        max,
                        found@[1],
                    ));
                    assert(!at_most_one_replies(before, min, max));
                    assert(ideal_exchange(all, before, frame@, Some(noise@), before));
                }
                Some(noise)
            }
        } else if packet.pid == DISC_MUTE {
            let target = packet.destination;
            let listed = is_listed(&self.devices, &target);
            let left = without(&self.unmuted, &target);
            proof {
                lemma_removed(self.unmuted@, target);
                assert(left@.to_set() =~= before.remove(target));
                lemma_acknowledgement(target, packet.source, packet.tn);
            }
            self.unmuted = left;
            if listed {
                let reply = encode_acknowledgement(target, packet.source, packet.tn);
                assert(ideal_exchange(all, before, frame@, Some(reply@), before.remove(target)));
                Some(reply)
            } else {
                assert(ideal_exchange(all, before, frame@, None, before.remove(target)));
                None
            }
        } else if packet.pid == DISC_UN_MUTE {
            self.unmuted = copy_of(&self.devices);
            assert(ideal_exchange(all, before, frame@, None, all));
            None
        } else {
            assert(ideal_exchange(all, before, frame@, None, before));
            None
        }
    }
}

/// Runs a discovery on a bus that mutes, with the given devices, all in the
/// searched space and none muted at the start. It returns every device,
/// each once, in ascending order, and nothing else.
pub fn discover_on_muting_bus(
    devices: Vec<Uid>,
    my_uid: &Uid,
    do_mute: bool,
    repeat_disc: bool,
) -> (tod: Vec<Uid>)
    requires
        devices@.no_duplicates(),
        forall|i: int| 0 <= i < devices@.len() ==> devices@[i].mfg < 0x8000,
    ensures
        ascending(tod@),
        tod@.no_duplicates(),
        forall|d: Uid| tod@.contains(d) <==> devices@.contains(d),
        tod@.to_set() == devices@.to_set(),
{
    let ghost all = devices@.to_set();
    let mut bus = MutingBus::new(devices);
    let tod = do_discovery_through(&mut bus, my_uid, do_mute, repeat_disc);
    proof {
        lemma_discovery_finds_every_device(all, *my_uid, do_mute, repeat_disc, all, tod@, bus.state());
    }
    tod
}

} // verus!
