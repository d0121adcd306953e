//! A simple one-shot channel.
//!
//! [`channel`] returns a connected [`Sender`] and [`Receiver`], each a
//! use-once handle over one shared cell.  The cell holds at most one value,
//! guarded by a mutex, together with a liveness count of the handles that
//! still reference it; a handle observes "peer disconnected" exactly when
//! the count says it is the only one left.  The count is read and changed
//! only under the same lock that guards the slot, and a sender wakes the
//! receiver only after its own decrement, so a blocked receive observes a
//! send or a disconnect promptly rather than hanging.

use std::sync::Arc;
use std::time::Duration;
use vstd::prelude::*;

verus! {

#[verifier::external_type_specification]
#[verifier::external_body]
#[verifier::reject_recursive_types(R)]
#[verifier::reject_recursive_types(T)]
pub struct ExMutex<R, T: ?Sized>(parking_lot::lock_api::Mutex<R, T>);

#[verifier::external_type_specification]
#[verifier::external_body]
pub struct ExRawMutex(parking_lot::RawMutex);

#[verifier::external_type_specification]
#[verifier::external_body]
pub struct ExCondvar(parking_lot::Condvar);

/// What one endpoint's terminal operation finds in the shared cell, once
/// the peer is known to be gone and the state is this side's alone.
struct State<T> {
    /// The transferred value: `None` until the sender deposits it, `None`
    /// again after the receiver takes it.
    slot: Option<T>,
    /// How many live endpoint handles still reference the shared state;
    /// starts at 2 and each handle's disposal decrements it once.
    liveness: u32,
}

impl<T> State<T> {
    /// True while the peer endpoint still holds its reference, i.e. while
    /// a receive must keep waiting.
    fn peer_live(&self) -> (r: bool)
        ensures
            r == (self.liveness > 1),
    {
        self.liveness > 1
    }
}

/// The disconnect decision on a liveness count drawn under the lock: the
/// peer endpoint is gone exactly when this handle, counting itself, is
/// the only live one left.
pub fn peer_gone(liveness: u32) -> (r: bool)
    ensures
        r == (liveness <= 1),
{
    liveness <= 1
}

/// The shared state of one channel: the slot and liveness count under a
/// single lock, and the condition variable a blocked receive waits on.
#[verifier::reject_recursive_types(T)]
struct Shared<T> {
    state: parking_lot::Mutex<State<T>>,
    signal: parking_lot::Condvar,
}

/// Holds the lock on a channel's [`State`] while an endpoint reads or
/// changes it.  The guard type of `parking_lot` cannot be declared to the
/// verifier (its type carries a bound on an outside trait), so it is held
/// opaquely; releasing this value releases the lock.
#[verifier::external_body]
#[verifier::reject_recursive_types(T)]
struct StateGuard<'a, T> {
    guard: parking_lot::MutexGuard<'a, State<T>>,
}

/// Relies on `parking_lot::Mutex::new` (the `lock_api` constructor).
#[verifier::external_body]
fn new_mutex<T>(value: T) -> (r: parking_lot::Mutex<T>)
    opens_invariants none
    no_unwind
{
    parking_lot::Mutex::new(value)
}

/// Relies on `parking_lot::Condvar::new`.
#[verifier::external_body]
fn new_condvar() -> (r: parking_lot::Condvar)
    opens_invariants none
    no_unwind
{
    parking_lot::Condvar::new()
}

/// Relies on `std::sync::Arc::clone`: the clone shares the same
/// allocation, so in the spec model (where an `Arc` stands for its
/// pointee) it is the same value.
#[verifier::external_body]
fn arc_clone<T>(arc: &Arc<T>) -> (r: Arc<T>)
    ensures
        r == *arc,
{
    Arc::clone(arc)
}

/// Relies on `lock_api::Mutex::lock`: blocks until the lock is held and
/// yields the guard.
#[verifier::external_body]
fn lock_state<'a, T>(shared: &'a Shared<T>) -> (guard: StateGuard<'a, T>)
    opens_invariants none
    no_unwind
{
    StateGuard { guard: shared.state.lock() }
}

/// Relies on the mutex guard's `Deref`: reads the liveness count of the
/// locked state.  What it holds at that moment was decided by both
/// endpoints, so nothing is promised of the value.
#[verifier::external_body]
fn guard_liveness<T>(guard: &StateGuard<T>) -> (r: u32)
    opens_invariants none
    no_unwind
{
    guard.guard.liveness
}

/// Relies on the mutex guard's `DerefMut`: overwrites the liveness count
/// of the locked state.
#[verifier::external_body]
fn guard_set_liveness<T>(guard: &mut StateGuard<T>, liveness: u32)
    opens_invariants none
    no_unwind
{
    guard.guard.liveness = liveness;
}

/// Relies on the mutex guard's `DerefMut` and `Option::take`: empties the
/// slot of the locked state and hands out what it held.
#[verifier::external_body]
fn guard_take_slot<T>(guard: &mut StateGuard<T>) -> (r: Option<T>)
    opens_invariants none
    no_unwind
{
    guard.guard.slot.take()
}

/// Relies on the mutex guard's `DerefMut`: deposits the value in the slot
/// of the locked state.
#[verifier::external_body]
fn guard_store_slot<T>(guard: &mut StateGuard<T>, value: T)
    opens_invariants none
    no_unwind
{
    guard.guard.slot = Some(value);
}

/// Relies on `parking_lot::Condvar::wait_while`: releases the lock, blocks
/// until woken, re-acquires the lock and re-checks the condition on every
/// wake (`parking_lot` documents that waits do not return spuriously), and
/// returns only once the locked state says the peer endpoint is gone.
#[verifier::external_body]
fn wait_while_peer_lives<T>(
    condvar: &parking_lot::Condvar,
    guard: &mut StateGuard<T>,
)
    opens_invariants none
{
    condvar.wait_while(&mut guard.guard, |s: &mut State<T>| s.peer_live());
}

/// Relies on `parking_lot::Condvar::wait_while_for`: as
/// [`wait_while_peer_lives`], but bounded by a deadline computed from
/// `timeout`; returns whether that deadline passed first.  (For a
/// `timeout` too large to fit a deadline, `parking_lot` waits without
/// bound.)
#[verifier::external_body]
fn wait_while_peer_lives_for<T>(
    condvar: &parking_lot::Condvar,
    guard: &mut StateGuard<T>,
    timeout: Duration,
) -> (timed_out: bool)
    opens_invariants none
{
    condvar.wait_while_for(&mut guard.guard, |s: &mut State<T>| s.peer_live(), timeout).timed_out()
}

/// The sending half of a one-shot channel.
///
/// Senders are created by the [`channel`] function.  The shared handle is
/// dropped before the notifier, so by the time the receiver is woken the
/// liveness count has already fallen.
#[verifier::reject_recursive_types(T)]
pub struct Sender<T> {
    shared: Arc<Shared<T>>,
    notifier: NotifyOnDrop<T>,
}

/// Wakes the receiver when dropped; held by the sender as its last field
/// so the wake-up follows the liveness decrement of [`Sender`]'s disposal.
#[verifier::reject_recursive_types(T)]
struct NotifyOnDrop<T> {
    signal: Arc<Shared<T>>,
}

impl<T> Drop for NotifyOnDrop<T> {
    /// Relies on `parking_lot::Condvar::notify_one`: wakes a receiver
    /// blocked in `recv` or `recv_timeout` so it re-checks the liveness
    /// count that the sender's disposal has just lowered.
    #[verifier::external_body]
    fn drop(&mut self)
        opens_invariants none
        no_unwind
    {
        let _ = self.signal.signal.notify_one();
    }
}

/// The receiving half of a one-shot channel.
///
/// Receivers are created by the [`channel`] function.
#[verifier::reject_recursive_types(T)]
pub struct Receiver<T> {
    shared: Arc<Shared<T>>,
}

/// True when the two handles reference the same shared state, as the two
/// halves returned by one [`channel`] call do.
pub closed spec fn connected<T>(sender: &Sender<T>, receiver: &Receiver<T>) -> bool {
    sender.shared == receiver.shared
}

/// Creates a new one-shot channel.
///
/// Two halves are returned; a sender and a receiver.  Each half is
/// separately owned and can be sent across threads.  The shared cell
/// starts empty, with both handles counted as live.
pub fn channel<T>() -> (r: (Sender<T>, Receiver<T>))
    ensures
        connected(&r.0, &r.1),
{
    let shared = Arc::new(
        Shared {
            state: new_mutex(State { slot: None, liveness: 2 }),
            signal: new_condvar(),
        },
    );
    let shared2 = arc_clone(&shared);
    let notifier_handle = arc_clone(&shared);
    (
        Sender { shared, notifier: NotifyOnDrop { signal: notifier_handle } },
        Receiver { shared: shared2 },
    )
}

/// The error returned by [`Sender::send`].
#[derive(Debug, Copy, Clone, PartialEq, Eq, Structural)]
pub enum SendError<T> {
    /// The receiving half was already gone; carries back the undelivered
    /// value.
    Disconnected(T),
}

impl<T> SendError<T> {
    /// Consumes this error and unwraps the inner value.
    pub fn into_inner(self) -> (r: T)
        ensures
            self == SendError::Disconnected(r),
    {
        match self {
            SendError::Disconnected(value) => value,
        }
    }
}

/// The error returned by [`Receiver::recv`].
#[derive(Debug, Copy, Clone, PartialEq, Eq, Structural)]
pub enum RecvError {
    /// The sending half is gone and no value was ever sent.
    Disconnected,
}

/// The error returned by [`Receiver::recv_timeout`].
#[derive(Debug, Copy, Clone, PartialEq, Eq, Structural)]
pub enum RecvTimeoutError {
    /// The bound elapsed with no value yet; the peer may still be alive.
    TimedOut,
    /// The sending half is gone and no value was ever sent.
    Disconnected,
}

/// What a receive resolves to once this side holds the shared state alone:
/// the value, if the sender deposited one before it was disposed of, and
/// otherwise the given disconnect error.
fn settle<T, E>(slot: Option<T>, disconnect_err: E) -> (r: Result<T, E>)
    ensures
        match slot {
            Some(v) => r == Ok::<T, E>(v),
            None => r == Err::<T, E>(disconnect_err),
        },
{
    match slot {
        Some(value) => Ok(value),
        None => Err(disconnect_err),
    }
}

impl<T> Sender<T> {
    /// Sends a value through the one-shot channel, consuming this handle.
    ///
    /// If the receiving end of the channel has been dropped then an `Err`
    /// is returned carrying the provided value back unchanged.  Whether
    /// the receiver is still there is decided by the concurrent peer, but
    /// every failure hands the value back.
    pub fn send(self, value: T) -> (r: Result<(), SendError<T>>)
        ensures
            r matches Err(e) ==> e == SendError::Disconnected(value),
    {
        let mut guard = lock_state(&self.shared);
        let liveness: u32 = guard_liveness(&guard);
        if peer_gone(liveness) {
            return Err(SendError::Disconnected(value));
        }
        guard_store_slot(&mut guard, value);
        Ok(())
        // Disposal of `self` now decrements the liveness count under the
        // lock and then wakes the receiver.
    }

    /// Returns `true` if this `Sender` is disconnected, i.e. it is the
    /// sole remaining handle on the shared state.  Does not consume the
    /// handle.
    pub fn is_disconnected(&self) -> bool {
        let guard = lock_state(&self.shared);
        let liveness: u32 = guard_liveness(&guard);
        peer_gone(liveness)
    }
}

impl<T> Drop for Sender<T> {
    /// Counts this handle's disposal out of the liveness count, under the
    /// same lock that guards the slot.  The contained notifier drops right
    /// after and wakes the receiver.
    fn drop(&mut self)
        opens_invariants none
        no_unwind
    {
        let mut guard = lock_state(&self.shared);
        let n: u32 = guard_liveness(&guard);
        if n > 0 {
            guard_set_liveness(&mut guard, n - 1);
        }
    }
}

impl<T> Receiver<T> {
    /// Blocks the current thread until a value is received or the channel
    /// is disconnected, consuming this handle.
    pub fn recv(self) -> (r: Result<T, RecvError>)
        ensures
            r matches Err(e) ==> e == RecvError::Disconnected,
    {
        let mut guard = lock_state(&self.shared);
        wait_while_peer_lives(&self.shared.signal, &mut guard);
        let slot = guard_take_slot(&mut guard);
        settle(slot, RecvError::Disconnected)
    }

    /// Blocks the current thread until a value is received, but only for a
    /// limited time.  Consumes this handle on every outcome, a timeout
    /// included.
    ///
    /// If the channel is disconnected before the timeout has elapsed then
    /// this method will wake up and return an `Err`.
    pub fn recv_timeout(self, timeout: Duration) -> (r: Result<T, RecvTimeoutError>)
        ensures
            r matches Err(e) ==> (e == RecvTimeoutError::TimedOut || e
                == RecvTimeoutError::Disconnected),
    {
        let mut guard = lock_state(&self.shared);
        let timed_out = wait_while_peer_lives_for(&self.shared.signal, &mut guard, timeout);
        if timed_out {
            return Err(RecvTimeoutError::TimedOut);
        }
        let slot = guard_take_slot(&mut guard);
        settle(slot, RecvTimeoutError::Disconnected)
    }

    /// Returns `true` if this receiver is disconnected, i.e. it is the
    /// sole remaining handle on the shared state.  Does not consume the
    /// handle.
    pub fn is_disconnected(&self) -> bool {
        let guard = lock_state(&self.shared);
        let liveness: u32 = guard_liveness(&guard);
        peer_gone(liveness)
    }
}

impl<T> Drop for Receiver<T> {
    /// Counts this handle's disposal out of the liveness count, under the
    /// same lock that guards the slot.  Nothing waits on a receiver's
    /// disposal, so no wake-up is needed.
    fn drop(&mut self)
        opens_invariants none
        no_unwind
    {
        let mut guard = lock_state(&self.shared);
        let n: u32 = guard_liveness(&guard);
        if n > 0 {
            guard_set_liveness(&mut guard, n - 1);
        }
    }
}

} // verus!
