//! Single-slot asynchronous wake primitive.
//!
//! A channel is one cell holding a dirty flag and a waker-registration flag.
//! `notify` sets the flag and consumes the registered waker; a poll registers
//! the waker and takes the flag. Several notifications between two polls
//! collapse into a single ready event (coalescing, not queuing).
//!
//! Cells live in a [`ChannelTable`]; a [`Sender`] and a [`Receiver`] are
//! handles naming the one cell they share, so equality and hashing of handles
//! go by shared identity, and the waking of the host task (the part that
//! touches a real `Waker`) is left to the caller, who is told by `notify`
//! whether a registered waiter must be woken.

use vstd::prelude::*;

verus! {

/// State of one notification slot: `set` is the pending-event flag, `waker`
/// records whether the consuming task has registered a waiter since the last
/// wake.
#[derive(Clone, Copy, PartialEq, Eq, Structural, Debug)]
pub struct NotifyCell {
    pub set: bool,
    pub waker: bool,
}

/// The cell after a notification: the event is pending and the waiter, which
/// the notifier hands back to the host to wake, is consumed.
pub open spec fn notified(c: NotifyCell) -> NotifyCell {
    NotifyCell { set: true, waker: false }
}

/// The cell after `n` consecutive notifications.
pub open spec fn notified_n(c: NotifyCell, n: nat) -> NotifyCell
    decreases n,
{
    if n == 0 {
        c
    } else {
        notified(notified_n(c, (n - 1) as nat))
    }
}

/// The cell after one poll: the flag is taken and the waiter is registered.
pub open spec fn polled(c: NotifyCell) -> NotifyCell {
    NotifyCell { set: false, waker: true }
}

/// Whether a poll of cell `c` yields a ready event.
pub open spec fn poll_yields(c: NotifyCell) -> bool {
    c.set
}

/// Coalescing law: any run of one or more notifications between two polls
/// leaves exactly one ready event — the next poll yields it, and a further
/// poll without an intervening notification yields nothing.
pub proof fn lemma_notify_coalesces(c: NotifyCell, n: nat)
    requires
        n >= 1,
    ensures
        poll_yields(notified_n(c, n)),
        !poll_yields(polled(notified_n(c, n))),
    decreases n,
{
    if n > 1 {
        lemma_notify_coalesces(c, (n - 1) as nat);
    }
}

/// Result of polling a [`Receiver`]: either one coalesced ready event, or
/// nothing until the next notification.
#[derive(Clone, Copy, PartialEq, Eq, Structural, Debug)]
pub enum NotifyPoll {
    Ready,
    Pending,
}

/// Storage for notification cells; handles address cells by index.
pub struct ChannelTable {
    cells: Vec<NotifyCell>,
}

/// Writer-side handle of a channel.
#[derive(Clone, Copy, PartialEq, Eq, Structural, Hash, Debug)]
pub struct Sender {
    id: usize,
}

/// Reader-side handle of a channel.
#[derive(Clone, Copy, PartialEq, Eq, Structural, Hash, Debug)]
pub struct Receiver {
    id: usize,
}

impl ChannelTable {
    /// The cells, as a sequence indexed by cell id.
    pub closed spec fn cells(self) -> Seq<NotifyCell> {
        self.cells@
    }

    /// An empty table with no channels yet.
    pub fn new() -> (t: ChannelTable)
        ensures
            t.cells() == Seq::<NotifyCell>::empty(),
    {
        let t = ChannelTable { cells: Vec::new() };
        proof {
            assert(t.cells() =~= Seq::<NotifyCell>::empty());
        }
        t
    }
}

impl Sender {
    /// The index of the cell this handle names.
    pub closed spec fn cell_index(self) -> int {
        self.id as int
    }

    /// Mark the shared cell dirty and consume its registered waiter.
    ///
    /// Returns whether a waiter was registered, in which case the caller must
    /// wake the consuming task. Notifying repeatedly before the receiver is
    /// polled again is equivalent to notifying once.
    pub fn notify(&self, table: &mut ChannelTable) -> (wake: bool)
        requires
            0 <= self.cell_index() < old(table).cells().len(),
        ensures
            final(table).cells() == old(table).cells().update(
                self.cell_index(),
                notified(old(table).cells()[self.cell_index()]),
            ),
            wake == old(table).cells()[self.cell_index()].waker,
    {
        let wake = table.cells[self.id].waker;
        table.cells.set(self.id, NotifyCell { set: true, waker: false });
        wake
    }
}

impl Receiver {
    /// The index of the cell this handle names.
    pub closed spec fn cell_index(self) -> int {
        self.id as int
    }

    /// Register the consuming task as waiting, then take the pending flag.
    ///
    /// Yields `Ready` exactly when a notification arrived since the last
    /// `Ready`; afterwards the flag is clear, so no second event fires
    /// without a fresh notification.
    pub fn poll_next(&self, table: &mut ChannelTable) -> (r: NotifyPoll)
        requires
            0 <= self.cell_index() < old(table).cells().len(),
        ensures
            final(table).cells() == old(table).cells().update(
                self.cell_index(),
                polled(old(table).cells()[self.cell_index()]),
            ),
            r is Ready <==> poll_yields(old(table).cells()[self.cell_index()]),
    {
        let was_set = table.cells[self.id].set;
        table.cells.set(self.id, NotifyCell { set: false, waker: true });
        if was_set {
            NotifyPoll::Ready
        } else {
            NotifyPoll::Pending
        }
    }
}

/// Create a channel: one fresh cell, clean and with no waiter, shared by the
/// returned sender/receiver pair. The two handles name the same cell; handle
/// equality and hashing go by this shared identity.
pub fn channel(table: &mut ChannelTable) -> (r: (Sender, Receiver))
    ensures
        final(table).cells() == old(table).cells().push(
            NotifyCell { set: false, waker: false },
        ),
        r.0.cell_index() == old(table).cells().len(),
        r.1.cell_index() == old(table).cells().len(),
{
    let id = table.cells.len();
    table.cells.push(NotifyCell { set: false, waker: false });
    (Sender { id }, Receiver { id })
}

} // verus!
