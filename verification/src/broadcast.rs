//! A one-sender, many-receivers broadcast of the latest message, as state
//! that the sender and the receivers consult and update.  Each party
//! registers its task when it first looks at the state; the answers name
//! the tasks to wake up.

use vstd::prelude::*;

verus! {

/// The state shared by the sender and the receivers.
pub struct Broadcast<T> {
    rx_tasks: Vec<bool>,
    tx_task: bool,
    next_id: usize,
    rx_count: usize,
    tx_present: bool,
    message: Option<T>,
}

/// A receiver, by its slot.
pub struct Receiver {
    id: usize,
}

/// The sender.
pub struct Sender {}

/// What a receiver gets when it polls.
pub enum BroadcastPoll<'a, T> {
    /// The sender is gone: no more messages.
    End,
    /// No message yet.
    NotReady,
    /// The latest message.
    Ready(&'a T),
}

impl<T> Broadcast<T> {
    /// Receiver slots with a registered task.
    pub closed spec fn rx_tasks(&self) -> Seq<bool> {
        self.rx_tasks@
    }

    /// The sender registered its task.
    pub closed spec fn tx_task(&self) -> bool {
        self.tx_task
    }

    /// The slot of the next receiver.
    pub closed spec fn next_id(&self) -> usize {
        self.next_id
    }

    /// Number of receivers alive.
    pub closed spec fn rx_count(&self) -> usize {
        self.rx_count
    }

    /// The sender is alive.
    pub closed spec fn tx_present(&self) -> bool {
        self.tx_present
    }

    /// The latest message sent.
    pub closed spec fn message(&self) -> Option<T> {
        self.message
    }

    /// The slots with a registered task, as indices.
    fn registered(&self) -> (res: Vec<usize>)
        ensures
            forall|i: int|
                0 <= i < res@.len() ==> (#[trigger] res@[i]) < self.rx_tasks().len() && self.rx_tasks()[res@[i] as int],
            forall|j: int|
                0 <= j < self.rx_tasks().len() && self.rx_tasks()[j] ==> res@.contains(j as usize),
    {
        let mut res: Vec<usize> = Vec::new();
        let mut i: usize = 0;
        while i < self.rx_tasks.len()
            invariant
                i <= self.rx_tasks@.len(),
                forall|k: int|
                    0 <= k < res@.len() ==> (#[trigger] res@[k]) < self.rx_tasks@.len() && self.rx_tasks@[res@[k] as int],
                forall|j: int| 0 <= j < i && self.rx_tasks@[j] ==> res@.contains(j as usize),
            decreases self.rx_tasks@.len() - i,
        {
            let ghost before = res@;
            if self.rx_tasks[i] {
                res.push(i);
                proof {
                    assert(res@[res@.len() - 1] == i);
                    assert forall|j: int| 0 <= j < i && self.rx_tasks@[j] implies res@.contains(
                        j as usize,
                    ) by {
                        let k = choose|k: int| 0 <= k < before.len() && before[k] == j as usize;
                        assert(res@[k] == before[k]);
                    }
                }
            }
            i = i + 1;
        }
        res
    }
}

/// A broadcast for up to `max_receivers` receivers (slots 1 to
/// `max_receivers`), with its first receiver and its sender.
pub fn broadcaster<T>(max_receivers: usize) -> (res: (Broadcast<T>, Receiver, Sender))
    requires
        max_receivers < usize::MAX,
    ensures
        res.0.rx_tasks().len() == max_receivers + 1,
        forall|i: int| 0 <= i < res.0.rx_tasks().len() ==> !res.0.rx_tasks()[i],
        !res.0.tx_task(),
        res.0.next_id() == 2,
        res.0.rx_count() == 1,
        res.0.tx_present(),
        res.0.message() is None,
        res.1.id() == 1,
{
    let mut rx_tasks: Vec<bool> = Vec::new();
    let mut i: usize = 0;
    while i <= max_receivers
        invariant
            i <= max_receivers + 1,
            max_receivers < usize::MAX,
            rx_tasks@.len() == i,
            forall|j: int| 0 <= j < i ==> !rx_tasks@[j],
        decreases max_receivers + 1 - i,
    {
        rx_tasks.push(false);
        i = i + 1;
    }
    let b = Broadcast {
        rx_tasks,
        tx_task: false,
        next_id: 2,
        rx_count: 1,
        tx_present: true,
        message: None,
    };
    (b, Receiver { id: 1 }, Sender {})
}

impl Receiver {
    /// The receiver's slot.
    pub closed spec fn id(&self) -> usize {
        self.id
    }

    /// Another receiver of the same broadcast, in the next slot.  A slot
    /// must be left.
    pub fn clone_in<T>(&self, b: &mut Broadcast<T>) -> (res: Receiver)
        requires
            old(b).next_id() < old(b).rx_tasks().len(),
            old(b).rx_count() < usize::MAX,
        ensures
            res.id() == old(b).next_id(),
            final(b).next_id() == old(b).next_id() + 1,
            final(b).rx_count() == old(b).rx_count() + 1,
            final(b).rx_tasks() == old(b).rx_tasks(),
            final(b).tx_task() == old(b).tx_task(),
            final(b).tx_present() == old(b).tx_present(),
            final(b).message() == old(b).message(),
    {
        let id = b.next_id;
        let _len = b.rx_tasks.len();
        b.next_id = b.next_id + 1;
        b.rx_count = b.rx_count + 1;
        Receiver { id }
    }

    /// Registers the receiver's task, if not yet.
    fn fill_task_if_empty<T>(&self, b: &mut Broadcast<T>)
        requires
            self.id() < old(b).rx_tasks().len(),
        ensures
            final(b).rx_tasks() == old(b).rx_tasks().update(self.id() as int, true),
            final(b).tx_task() == old(b).tx_task(),
            final(b).next_id() == old(b).next_id(),
            final(b).rx_count() == old(b).rx_count(),
            final(b).tx_present() == old(b).tx_present(),
            final(b).message() == old(b).message(),
    {
        if !b.rx_tasks[self.id] {
            b.rx_tasks.set(self.id, true);
        } else {
            proof {
                assert(b.rx_tasks@ =~= old(b).rx_tasks@.update(self.id as int, true));
            }
        }
    }

    /// The sender is still there.  Registers the receiver's task.
    pub fn is_sender_present<T>(&self, b: &mut Broadcast<T>) -> (res: bool)
        requires
            self.id() < old(b).rx_tasks().len(),
        ensures
            res == old(b).tx_present(),
            final(b).rx_tasks() == old(b).rx_tasks().update(self.id() as int, true),
            final(b).tx_task() == old(b).tx_task(),
            final(b).next_id() == old(b).next_id(),
            final(b).rx_count() == old(b).rx_count(),
            final(b).tx_present() == old(b).tx_present(),
            final(b).message() == old(b).message(),
    {
        self.fill_task_if_empty(b);
        b.tx_present
    }

    /// Polls for the latest message: the end once the sender is gone.
    /// Registers the receiver's task.
    pub fn poll<'a, T>(&self, b: &'a mut Broadcast<T>) -> (res: BroadcastPoll<'a, T>)
        requires
            self.id() < old(b).rx_tasks().len(),
        ensures
            !old(b).tx_present() ==> res is End,
            old(b).tx_present() && old(b).message() is None ==> res is NotReady,
            old(b).tx_present() ==> (old(b).message() matches Some(m) ==> (res matches BroadcastPoll::Ready(
                x,
            ) && *x == m)),
            final(b).rx_tasks() == old(b).rx_tasks().update(self.id() as int, true),
            final(b).tx_task() == old(b).tx_task(),
            final(b).next_id() == old(b).next_id(),
            final(b).rx_count() == old(b).rx_count(),
            final(b).tx_present() == old(b).tx_present(),
    {
        self.fill_task_if_empty(b);
        if !b.tx_present {
            return BroadcastPoll::End;
        }
        match &b.message {
            Some(x) => BroadcastPoll::Ready(x),
            None => BroadcastPoll::NotReady,
        }
    }

    /// The receiver goes away: its task is unregistered and the count of
    /// receivers drops; answers whether it was the last one (the sender is
    /// then to be woken up).
    pub fn drop_in<T>(self, b: &mut Broadcast<T>) -> (res: bool)
        requires
            self.id() < old(b).rx_tasks().len(),
            old(b).rx_count() >= 1,
        ensures
            res == (old(b).rx_count() == 1),
            final(b).rx_count() == old(b).rx_count() - 1,
            final(b).rx_tasks() == old(b).rx_tasks().update(self.id() as int, false),
            final(b).tx_task() == old(b).tx_task(),
            final(b).next_id() == old(b).next_id(),
            final(b).tx_present() == old(b).tx_present(),
            final(b).message() == old(b).message(),
    {
        b.rx_tasks.set(self.id, false);
        let n_rx = b.rx_count;
        b.rx_count = b.rx_count - 1;
        n_rx == 1
    }
}

impl Sender {
    /// Some receiver is still there.  Registers the sender's task.
    pub fn are_receivers_present<T>(&self, b: &mut Broadcast<T>) -> (res: bool)
        ensures
            res == (old(b).rx_count() > 0),
            final(b).tx_task(),
            final(b).rx_tasks() == old(b).rx_tasks(),
            final(b).next_id() == old(b).next_id(),
            final(b).rx_count() == old(b).rx_count(),
            final(b).tx_present() == old(b).tx_present(),
            final(b).message() == old(b).message(),
    {
        b.tx_task = true;
        b.rx_count > 0
    }

    /// Sends `item`: it replaces the latest message.  Answers the slots of
    /// the receivers to wake up.
    pub fn start_send<T>(&mut self, b: &mut Broadcast<T>, item: T) -> (res: Vec<usize>)
        ensures
            final(b).message() == Some(item),
            final(b).tx_task(),
            final(b).rx_tasks() == old(b).rx_tasks(),
            final(b).next_id() == old(b).next_id(),
            final(b).rx_count() == old(b).rx_count(),
            final(b).tx_present() == old(b).tx_present(),
            forall|j: int|
                0 <= j < old(b).rx_tasks().len() && old(b).rx_tasks()[j] ==> res@.contains(
                    j as usize,
                ),
            forall|i: int|
                0 <= i < res@.len() ==> (#[trigger] res@[i]) < old(b).rx_tasks().len() && old(b).rx_tasks()[res@[i] as int],
    {
        b.tx_task = true;
        b.message = Some(item);
        let res = b.registered();
        proof {
            assert(b.rx_tasks() == old(b).rx_tasks());
        }
        res
    }

    /// The sender goes away: the message is dropped and the receivers learn
    /// that it is gone.  Answers the slots of the receivers to wake up.
    pub fn drop_in<T>(self, b: &mut Broadcast<T>) -> (res: Vec<usize>)
        ensures
            !final(b).tx_present(),
            !final(b).tx_task(),
            final(b).message() is None,
            final(b).rx_tasks() == old(b).rx_tasks(),
            final(b).next_id() == old(b).next_id(),
            final(b).rx_count() == old(b).rx_count(),
            forall|j: int|
                0 <= j < old(b).rx_tasks().len() && old(b).rx_tasks()[j] ==> res@.contains(
                    j as usize,
                ),
            forall|i: int|
                0 <= i < res@.len() ==> (#[trigger] res@[i]) < old(b).rx_tasks().len() && old(b).rx_tasks()[res@[i] as int],
    {
        b.tx_task = false;
        b.message = None;
        b.tx_present = false;
        let res = b.registered();
        proof {
            assert(b.rx_tasks() == old(b).rx_tasks());
        }
        res
    }
}

/// How many of the steps are `v`.
pub open spec fn count_of(steps: Seq<int>, v: int) -> int
    decreases steps.len(),
{
    if steps.len() == 0 {
        0
    } else {
        count_of(steps.drop_last(), v) + if steps.last() == v { 1int } else { 0int }
    }
}

/// A run of calls on one broadcast: `Receiver::clone_in` makes a receiver
/// (step 1), a receiver's `drop_in` ends one (step -1), and every other call
/// (`is_sender_present`, `poll`, `are_receivers_present`, `start_send`,
/// the sender's `drop_in`) leaves the count (step 0), as their contracts
/// say.  The receivers alive are those there at first, plus those made,
/// less those dropped; so once every receiver made has been dropped,
/// `are_receivers_present` answers `false`.
pub proof fn lemma_receivers_counted<T>(states: Seq<Broadcast<T>>, steps: Seq<int>)
    requires
        states.len() == steps.len() + 1,
        forall|k: int|
            0 <= k < steps.len() ==> (#[trigger] steps[k] == 1 || steps[k] == -1 || steps[k] == 0)
                && states[k + 1].rx_count() == states[k].rx_count() + steps[k],
    ensures
        states.last().rx_count() == states[0].rx_count() + count_of(steps, 1) - count_of(steps, -1),
        count_of(steps, -1) == states[0].rx_count() + count_of(steps, 1) ==> !(
        states.last().rx_count() > 0),
    decreases steps.len(),
{
    if steps.len() > 0 {
        let n = steps.len() - 1;
        let ss = states.drop_last();
        let st = steps.drop_last();
        assert forall|k: int| 0 <= k < st.len() implies (#[trigger] st[k] == 1 || st[k] == -1 || st[k] == 0)
            && ss[k + 1].rx_count() == ss[k].rx_count() + st[k] by {
            assert(steps[k] == st[k]);
            assert(ss[k + 1] == states[k + 1]);
        }
        lemma_receivers_counted(ss, st);
        assert(steps[n] == 1 || steps[n] == -1 || steps[n] == 0);
        assert(ss.last() == states[n]);
        assert(states.last() == states[n + 1]);
    }
}

/// Once the sender went away (`Sender::drop_in` leaves no sender), the
/// receivers' calls (`clone_in`, `is_sender_present`, `poll`, `drop_in`)
/// keep it so: `is_sender_present` then answers `false` and `poll`
/// answers `End` for good.
pub proof fn lemma_sender_gone_for_good<T>(states: Seq<Broadcast<T>>)
    requires
        states.len() >= 1,
        !states[0].tx_present(),
        forall|k: int|
            0 <= k < states.len() - 1 ==> #[trigger] states[k + 1].tx_present() == states[k].tx_present(),
    ensures
        forall|k: int| 0 <= k < states.len() ==> !(#[trigger] states[k].tx_present()),
    decreases states.len(),
{
    if states.len() > 1 {
        let ss = states.drop_last();
        assert forall|k: int| 0 <= k < ss.len() - 1 implies #[trigger] ss[k + 1].tx_present()
            == ss[k].tx_present() by {
            assert(ss[k + 1] == states[k + 1]);
        }
        lemma_sender_gone_for_good(ss);
        assert forall|k: int| 0 <= k < states.len() implies !(#[trigger] states[k].tx_present()) by {
            if k < ss.len() {
                assert(ss[k] == states[k]);
            } else {
                let j = k - 1;
                assert(!ss[j].tx_present());
                assert(ss[j] == states[j]);
                assert(states[j + 1].tx_present() == states[j].tx_present());
                assert(j + 1 == k);
            }
        }
    }
}

} // verus!
