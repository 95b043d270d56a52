//! Hand-off of catalog scans made on another thread, and when to rescan.

use vstd::prelude::*;
use std::sync::mpsc::{Receiver, Sender};
use std::time::{Duration, Instant};

use crate::catalog::AppEntry;

verus! {

/// Seconds after a scan before showing the window scans again.
pub const RESCAN_INTERVAL_SECS: u64 = 30;

#[verifier::external_type_specification]
#[verifier::external_body]
#[verifier::reject_recursive_types(T)]
pub struct ExSender<T>(Sender<T>);

#[verifier::external_type_specification]
#[verifier::external_body]
#[verifier::reject_recursive_types(T)]
pub struct ExReceiver<T>(Receiver<T>);

#[verifier::external_type_specification]
#[verifier::external_body]
pub struct ExInstant(Instant);

/// Makes a channel with `std::sync::mpsc::channel`.
#[verifier::external_body]
fn channel<T>() -> (Sender<T>, Receiver<T>) {
    std::sync::mpsc::channel()
}

/// Clones a sender with `Sender::clone`.
#[verifier::external_body]
fn clone_sender<T>(tx: &Sender<T>) -> Sender<T> {
    tx.clone()
}

/// The messages waiting in `rx`, oldest first, taken with
/// `Receiver::try_iter` (which stops at the first moment none is waiting).
/// Nothing is said of them: they depend on other threads.
#[verifier::external_body]
fn pending<T>(rx: &Receiver<T>) -> Vec<T> {
    rx.try_iter().collect()
}

/// The current time, from `Instant::now`.
#[verifier::external_body]
fn now() -> Instant {
    Instant::now()
}

/// The time since `since`, from `Instant::elapsed`.
#[verifier::external_body]
fn elapsed(since: &Instant) -> Duration {
    since.elapsed()
}

/// The whole milliseconds in `d`, from `Duration::as_millis`.
#[verifier::external_body]
fn whole_millis(d: &Duration) -> u128 {
    d.as_millis()
}

/// A scan started `elapsed_ms` milliseconds ago is stale.
pub open spec fn rescan_due_spec(elapsed_ms: u128) -> bool {
    elapsed_ms >= RESCAN_INTERVAL_SECS * 1000
}

/// Whether a scan started `elapsed_ms` milliseconds ago is stale.
pub fn rescan_due(elapsed_ms: u128) -> (due: bool)
    ensures
        due == rescan_due_spec(elapsed_ms),
{
    elapsed_ms >= (RESCAN_INTERVAL_SECS as u128) * 1000
}

/// The last of `batches`, if any: the newest scan supersedes older ones.
pub fn latest<T>(batches: Vec<T>) -> (last: Option<T>)
    ensures
        batches@.len() == 0 ==> last is None,
        batches@.len() > 0 ==> last == Some(batches@.last()),
{
    let mut batches = batches;
    batches.pop()
}

/// Receives scans made on other threads and remembers when the last one was
/// started.
pub struct Scanner {
    tx: Sender<Vec<AppEntry>>,
    rx: Receiver<Vec<AppEntry>>,
    last: Instant,
    starts: Ghost<Seq<Instant>>,
}

impl Scanner {
    /// The instants at which this scanner's scans started, oldest first: each
    /// start reads the clock and hands out a sender for the scan's result.
    pub closed spec fn scan_starts(&self) -> Seq<Instant> {
        self.starts@
    }

    /// How many scans this scanner has started.
    pub open spec fn scans_started(&self) -> nat {
        self.scan_starts().len()
    }

    /// The instant the rescan interval is measured from.
    pub closed spec fn rescan_origin(&self) -> Instant {
        self.last
    }

    /// A scanner whose first scan starts now; the caller runs that scan and
    /// sends its result through `sender`. Which instant the clock gives is not
    /// stated.
    pub fn new() -> (s: Scanner)
        ensures
            s.scans_started() == 1,
            s.rescan_origin() == s.scan_starts().last(),
    {
        let (tx, rx) = channel();
        let t = now();
        Scanner { tx, rx, last: t, starts: Ghost(Seq::<Instant>::empty().push(t)) }
    }

    /// Where a scan sends its result.
    pub fn sender(&self) -> Sender<Vec<AppEntry>> {
        clone_sender(&self.tx)
    }

    /// Starts a scan now: the rescan interval is measured again from the
    /// instant the clock gives, and the caller runs the scan and sends its
    /// result through the sender returned. Which instant that is, is the
    /// clock's and is not stated.
    pub fn force(&mut self) -> (tx: Sender<Vec<AppEntry>>)
        ensures
            final(self).scan_starts() == old(self).scan_starts().push(final(self).rescan_origin()),
    {
        let t = now();
        self.starts = Ghost(self.starts@.push(t));
        self.last = t;
        self.sender()
    }

    /// Starts a scan if the rescan interval has passed since `rescan_origin`:
    /// returns where to send it, or none when no scan is due. Whether one is
    /// due depends on the clock; either way, a scan is started exactly when a
    /// sender is returned.
    pub fn refresh(&mut self) -> (tx: Option<Sender<Vec<AppEntry>>>)
        ensures
            tx is Some ==> final(self).scan_starts() == old(self).scan_starts().push(
                final(self).rescan_origin(),
            ),
            tx is None ==> *final(self) == *old(self),
    {
        let since = elapsed(&self.last);
        self.refresh_after(whole_millis(&since))
    }

    /// Starts a scan if `elapsed_ms`, the time since the last one started, is
    /// at least the rescan interval: returns where to send it, or none.
    pub fn refresh_after(&mut self, elapsed_ms: u128) -> (tx: Option<Sender<Vec<AppEntry>>>)
        ensures
            tx is Some == rescan_due_spec(elapsed_ms),
            tx is Some ==> final(self).scan_starts() == old(self).scan_starts().push(
                final(self).rescan_origin(),
            ),
            tx is None ==> *final(self) == *old(self),
    {
        if rescan_due(elapsed_ms) {
            Some(self.force())
        } else {
            None
        }
    }

    /// The newest scan received since the last call, if any.
    pub fn drain(&self) -> Option<Vec<AppEntry>> {
        latest(pending(&self.rx))
    }
}

} // verus!
