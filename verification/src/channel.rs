//! The result channel: the ordered, unbounded hand-off of items from the
//! worker to the consumer, over a flume channel, together with the sender
//! loop and the collector that drains received items into a stored result
//! set.

use vstd::prelude::*;

use crate::entries::ScandirResult;
use crate::entries::ScandirResults;

verus! {

#[verifier::external_type_specification]
#[verifier::external_body]
#[verifier::reject_recursive_types(T)]
pub struct ExSender<T>(flume::Sender<T>);

#[verifier::external_type_specification]
#[verifier::external_body]
#[verifier::reject_recursive_types(T)]
pub struct ExReceiver<T>(flume::Receiver<T>);

/// Relies on flume::Sender::send: on an unbounded channel it enqueues the
/// item without blocking and fails only when every receiver is gone.
#[verifier::external_body]
fn send_item(tx: &flume::Sender<ScandirResult>, item: ScandirResult) -> (ok: bool) {
    tx.send(item).is_ok()
}

/// Relies on flume::Receiver::try_recv: hands out the next queued item in
/// the order sent, or nothing when the channel is empty or disconnected.
#[verifier::external_body]
fn try_recv_item(rx: &flume::Receiver<ScandirResult>) -> (r: Option<ScandirResult>) {
    rx.try_recv().ok()
}

/// Sends the items into the channel, in their given order; reports how
/// many the channel accepted.
pub fn send_all(tx: &flume::Sender<ScandirResult>, items: Vec<ScandirResult>) -> (sent: usize)
    ensures
        sent <= items@.len(),
{
    let total = items.len();
    let mut rest = items;
    let mut sent: usize = 0;
    while rest.len() > 0
        invariant
            total == items@.len(),
            rest@.len() <= total,
            sent <= total - rest@.len(),
        decreases rest@.len(),
    {
        let item = rest.remove(0);
        if send_item(tx, item) {
            sent = sent + 1;
        }
    }
    sent
}

/// Relies on flume::Receiver::len: the number of items queued at this
/// moment (another thread may queue more at any time).
#[verifier::external_body]
fn queued_len(rx: &flume::Receiver<ScandirResult>) -> (n: usize) {
    rx.len()
}

/// Drains the items the channel held when the call began into the stored
/// result set: entries land in `results`, error records in `errors`, in
/// arrival order; nothing already stored moves — the result set only
/// grows.
pub fn drain_into(rx: &flume::Receiver<ScandirResult>, acc: &mut ScandirResults)
    ensures
        final(acc).results@.len() >= old(acc).results@.len(),
        final(acc).errors@.len() >= old(acc).errors@.len(),
        forall|i: int|
            0 <= i < old(acc).results@.len() ==> final(acc).results@[i] == old(acc).results@[i],
        forall|i: int|
            0 <= i < old(acc).errors@.len() ==> final(acc).errors@[i] == old(acc).errors@[i],
{
    let mut remaining = queued_len(rx);
    while remaining > 0
        invariant
            acc.results@.len() >= old(acc).results@.len(),
            acc.errors@.len() >= old(acc).errors@.len(),
            forall|i: int|
                0 <= i < old(acc).results@.len() ==> acc.results@[i] == old(acc).results@[i],
            forall|i: int|
                0 <= i < old(acc).errors@.len() ==> acc.errors@[i] == old(acc).errors@[i],
        decreases remaining,
    {
        match try_recv_item(rx) {
            Some(item) => {
                acc.push(item);
                remaining = remaining - 1;
            },
            None => { return ; },
        }
    }
}

} // verus!
