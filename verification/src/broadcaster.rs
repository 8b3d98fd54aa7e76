//! Fan-out of one message to the delivery channels of the registered clients.
//!
//! A broadcast offers the message to every registered client, each once,
//! leaving out at most one identity: the sender, where the sender is not to
//! see its own message. A channel that refuses the message is noted and
//! skipped; it never stops the delivery to the others.

use crate::channel::push;
use crate::frame::Message;
use crate::registry::{Client, Registry};
use vstd::prelude::*;

verus! {

/// What became of one offer of a message to one client.
#[derive(Debug, Clone, Copy, PartialEq, Eq)]
pub struct Delivery {
    /// The client the message was offered to.
    pub recipient: u128,
    /// Whether the client's channel took the message.
    pub accepted: bool,
}

/// Whether a broadcast that leaves out `exclude` offers its message to
/// `identity`.
pub open spec fn is_served(exclude: Option<u128>, identity: u128) -> bool {
    exclude != Some(identity)
}

/// Those of `ids` that a broadcast leaving out `exclude` serves, in order.
pub open spec fn served(ids: Seq<u128>, exclude: Option<u128>) -> Seq<u128> {
    ids.filter(|id: u128| is_served(exclude, id))
}

/// The identities a broadcast over `entries` offers its message to: all that
/// are registered, but for the one left out.
pub open spec fn recipients(entries: Map<u128, Client>, exclude: Option<u128>) -> Set<u128> {
    match exclude {
        Some(sender) => entries.dom().remove(sender),
        None => entries.dom(),
    }
}

/// The identities a report speaks of, in order.
pub open spec fn attempted(report: Seq<Delivery>) -> Seq<u128> {
    report.map_values(|d: Delivery| d.recipient)
}

/// The identities whose channels refused the message, in order.
pub open spec fn refused(report: Seq<Delivery>) -> Seq<u128> {
    attempted(report.filter(|d: Delivery| !d.accepted))
}

/// Offers `message` to the delivery channel of every registered client except
/// `exclude`, each exactly once, and reports on each offer. The registry is
/// not changed, and a refusing channel does not end the loop.
pub fn broadcast(registry: &Registry, message: &Message, exclude: Option<u128>) -> (report: Vec<
    Delivery,
>)
    ensures
        attempted(report@).no_duplicates(),
        attempted(report@).to_set() == recipients(registry@, exclude),
{
    let ids = registry.snapshot();
    let mut report: Vec<Delivery> = Vec::new();
    let mut i: usize = 0;
    while i < ids.len()
        invariant
            i <= ids@.len(),
            ids@.to_set() == registry@.dom(),
            attempted(report@) == served(ids@.take(i as int), exclude),
        decreases ids@.len() - i,
    {
        let recipient = ids[i];
        let skip = match exclude {
            Some(sender) => sender == recipient,
            None => false,
        };
        proof {
            let before = ids@.take(i as int);
            assert(ids@.take(i as int + 1) =~= before.push(recipient));
            before.lemma_filter_push(recipient, |id: u128| is_served(exclude, id));
            assert(ids@.contains(recipient));
            assert(ids@.to_set().contains(recipient));
        }
        if !skip {
            match registry.get(recipient) {
                Some(client) => {
                    let ghost earlier = report@;
                    let accepted = push(&client.sender, message.duplicate());
                    report.push(Delivery { recipient, accepted });
                    proof {
                        assert(attempted(report@) =~= attempted(earlier).push(recipient));
                    }
                },
                None => {
                    proof {
                        assert(false);
                    }
                },
            }
        }
        i += 1;
    }
    proof {
        assert(ids@.take(i as int) =~= ids@);
        lemma_served(ids@, exclude);
        assert(attempted(report@).to_set() =~= recipients(registry@, exclude)) by {
            assert forall|id: u128|
                attempted(report@).to_set().contains(id) <==> recipients(
                    registry@,
                    exclude,
                ).contains(id) by {
                assert(ids@.to_set().contains(id) <==> ids@.contains(id));
                assert(served(ids@, exclude).contains(id) <==> ids@.contains(id) && exclude
                    != Some(id));
            }
        }
    }
    report
}

/// The clients of a report whose channels refused the message: those whose
/// consumer end is gone.
pub fn rejected(report: &Vec<Delivery>) -> (dead: Vec<u128>)
    ensures
        dead@ == refused(report@),
{
    let mut dead: Vec<u128> = Vec::new();
    let mut i: usize = 0;
    while i < report.len()
        invariant
            i <= report@.len(),
            dead@ == refused(report@.take(i as int)),
        decreases report@.len() - i,
    {
        let delivery = report[i];
        proof {
            let before = report@.take(i as int);
            assert(report@.take(i as int + 1) =~= before.push(delivery));
            before.lemma_filter_push(delivery, |d: Delivery| !d.accepted);
            if !delivery.accepted {
                assert(attempted(before.filter(|d: Delivery| !d.accepted).push(delivery))
                    =~= attempted(before.filter(|d: Delivery| !d.accepted)).push(
                    delivery.recipient,
                ));
            }
        }
        if !delivery.accepted {
            dead.push(delivery.recipient);
        }
        i += 1;
    }
    proof {
        assert(report@.take(i as int) =~= report@);
    }
    dead
}

/// Of a list of identities a broadcast serves exactly those other than the
/// one left out, and where the list names none twice it serves none twice.
pub proof fn lemma_served(ids: Seq<u128>, exclude: Option<u128>)
    ensures
        forall|id: u128| #[trigger]
            served(ids, exclude).contains(id) <==> ids.contains(id) && exclude != Some(id),
        ids.no_duplicates() ==> served(ids, exclude).no_duplicates(),
        exclude is None ==> served(ids, exclude) == ids,
    decreases ids.len(),
{
    let keep = |id: u128| is_served(exclude, id);
    if ids.len() == 0 {
        reveal(Seq::filter);
        assert(served(ids, exclude) =~= ids);
    } else {
        let front = ids.drop_last();
        let last = ids.last();
        lemma_served(front, exclude);
        assert(ids =~= front.push(last));
        front.lemma_filter_push(last, keep);
        let out = served(ids, exclude);
        let sub = served(front, exclude);
        assert forall|id: u128| #[trigger]
            out.contains(id) <==> ids.contains(id) && exclude != Some(id) by {
            if out.contains(id) {
                let k = choose|k: int| 0 <= k < out.len() && out[k] == id;
                if k < sub.len() {
                    assert(sub[k] == id);
                    assert(sub.contains(id));
                    let j = choose|j: int| 0 <= j < front.len() && front[j] == id;
                    assert(ids[j] == id);
                } else {
                    assert(ids[ids.len() - 1] == id);
                }
            }
            if ids.contains(id) && exclude != Some(id) {
                let j = choose|j: int| 0 <= j < ids.len() && ids[j] == id;
                if j < front.len() {
                    assert(front[j] == id);
                    assert(front.contains(id));
                    assert(sub.contains(id));
                    let k = choose|k: int| 0 <= k < sub.len() && sub[k] == id;
                    assert(out[k] == id);
                } else {
                    assert(out[out.len() - 1] == id);
                }
            }
        }
        if ids.no_duplicates() {
            assert(front.no_duplicates());
            if is_served(exclude, last) {
                assert forall|a: int, b: int|
                    0 <= a < out.len() && 0 <= b < out.len() && a != b implies out[a] != out[b] by {
                    if a < sub.len() && b < sub.len() {
                    } else {
                        let inner = if a < sub.len() { a } else { b };
                        assert(sub.contains(sub[inner]));
                        let j = choose|j: int| 0 <= j < front.len() && front[j] == sub[inner];
                        assert(ids[j] != ids[ids.len() - 1]);
                    }
                }
            }
        }
        if exclude is None {
            assert(out =~= ids);
        }
    }
}

/// Every client registered at the time of a broadcast is among those it
/// offers the message to, except the one identity left out; nobody else is.
pub proof fn lemma_broadcast_reaches_all(entries: Map<u128, Client>, exclude: Option<u128>)
    ensures
        forall|id: u128| #[trigger]
            recipients(entries, exclude).contains(id) <==> entries.contains_key(id) && exclude
                != Some(id),
        exclude is None ==> recipients(entries, exclude) == entries.dom(),
{
}

/// Once a client has been removed, no broadcast offers it anything, whoever is
/// left out, and every other client is served as before.
pub proof fn lemma_departed_is_not_served(
    entries: Map<u128, Client>,
    departed: u128,
    exclude: Option<u128>,
)
    ensures
        !recipients(entries.remove(departed), exclude).contains(departed),
        forall|id: u128|
            id != departed ==> (#[trigger] recipients(entries.remove(departed), exclude).contains(
                id,
            ) <==> recipients(entries, exclude).contains(id)),
{
}

} // verus!
