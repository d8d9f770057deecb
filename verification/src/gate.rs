//! A lock for readers and writers that honors cancellation and prefers writers.

use crate::context::OperationContext;
use crate::provider_error::ProviderError;
use std::time::Duration;
use vstd::prelude::*;
use vstd::rwlock::{RwLock, RwLockPredicate};

verus! {

/// `std::sync::Condvar::wait_timeout` on a condition that nothing signals: returns
/// after about the given time. Nothing is claimed of it.
#[verifier::external_body]
fn pause(nanos: u64) {
    let lock = std::sync::Mutex::new(());
    let signal = std::sync::Condvar::new();
    let guard = lock.lock().unwrap_or_else(|poisoned| poisoned.into_inner());
    let _waited = signal.wait_timeout(guard, Duration::from_nanos(nanos));
}

/// Who holds the lock and who waits to write.
#[derive(Clone, Copy, Debug, PartialEq, Eq, Structural)]
pub struct GateState {
    pub active_readers: u64,
    pub writer_active: bool,
    pub waiting_writers: u64,
}

impl GateState {
    /// A writer holds the lock alone.
    pub open spec fn exclusive(&self) -> bool {
        self.writer_active ==> self.active_readers == 0
    }

    /// Nobody holds the lock or waits.
    pub open spec fn idle() -> GateState {
        GateState { active_readers: 0, writer_active: false, waiting_writers: 0 }
    }

    pub open spec fn admits_reader(&self) -> bool {
        !self.writer_active && self.waiting_writers == 0
    }

    pub open spec fn admits_writer(&self) -> bool {
        !self.writer_active && self.active_readers == 0
    }

    pub open spec fn with_reader(self) -> GateState {
        GateState { active_readers: (self.active_readers + 1) as u64, ..self }
    }

    pub open spec fn with_waiting_writer(self) -> GateState {
        GateState { waiting_writers: (self.waiting_writers + 1) as u64, ..self }
    }

    pub open spec fn without_waiting_writer(self) -> GateState {
        if self.waiting_writers == 0 {
            self
        } else {
            GateState { waiting_writers: (self.waiting_writers - 1) as u64, ..self }
        }
    }

    pub open spec fn with_writer(self) -> GateState {
        GateState { writer_active: true, ..self.without_waiting_writer() }
    }

    pub open spec fn without_reader(self) -> GateState {
        if self.active_readers == 0 {
            self
        } else {
            GateState { active_readers: (self.active_readers - 1) as u64, ..self }
        }
    }

    pub open spec fn without_writer(self) -> GateState {
        GateState { writer_active: false, ..self }
    }

    /// Lets a reader in, unless a writer holds the lock or waits for it.
    pub fn enter_reader(&mut self) -> (result: Result<bool, ProviderError>)
        ensures
            match result {
                Ok(true) => old(self).admits_reader() && old(self).active_readers < u64::MAX
                    && *final(self) == old(self).with_reader(),
                Ok(false) => !old(self).admits_reader() && *final(self) == *old(self),
                Err(error) => error == ProviderError::LockPoisoned && old(self).admits_reader()
                    && old(self).active_readers == u64::MAX && *final(self) == *old(self),
            },
    {
        if self.writer_active || self.waiting_writers != 0 {
            return Ok(false);
        }
        match self.active_readers.checked_add(1) {
            Some(count) => {
                self.active_readers = count;
                Ok(true)
            },
            None => Err(ProviderError::LockPoisoned),
        }
    }

    /// Announces a writer.
    pub fn announce_writer(&mut self) -> (result: Result<(), ProviderError>)
        ensures
            match result {
                Ok(_) => old(self).waiting_writers < u64::MAX && *final(self)
                    == old(self).with_waiting_writer(),
                Err(error) => error == ProviderError::LockPoisoned && old(self).waiting_writers
                    == u64::MAX && *final(self) == *old(self),
            },
    {
        match self.waiting_writers.checked_add(1) {
            Some(count) => {
                self.waiting_writers = count;
                Ok(())
            },
            None => Err(ProviderError::LockPoisoned),
        }
    }

    /// Lets an announced writer in, once nobody else holds the lock.
    pub fn enter_writer(&mut self) -> (entered: bool)
        ensures
            entered == old(self).admits_writer(),
            *final(self) == if entered {
                old(self).with_writer()
            } else {
                *old(self)
            },
    {
        if self.writer_active || self.active_readers != 0 {
            return false;
        }
        self.withdraw_writer();
        self.writer_active = true;
        true
    }

    /// Takes back the announcement of a writer.
    pub fn withdraw_writer(&mut self)
        ensures
            *final(self) == old(self).without_waiting_writer(),
    {
        self.waiting_writers = self.waiting_writers.saturating_sub(1);
    }

    pub fn leave_reader(&mut self)
        ensures
            *final(self) == old(self).without_reader(),
    {
        self.active_readers = self.active_readers.saturating_sub(1);
    }

    pub fn leave_writer(&mut self)
        ensures
            *final(self) == old(self).without_writer(),
    {
        self.writer_active = false;
    }
}

/// No step of the lock lets a reader in beside a writer, or a second writer in.
pub proof fn lemma_gate_stays_exclusive(state: GateState)
    requires
        state.exclusive(),
    ensures
        GateState::idle().exclusive(),
        state.admits_reader() ==> state.with_reader().exclusive(),
        state.admits_writer() ==> !state.writer_active && state.with_writer().exclusive(),
        state.with_waiting_writer().exclusive(),
        state.without_waiting_writer().exclusive(),
        state.without_reader().exclusive(),
        state.without_writer().exclusive(),
{
}

/// New readers cannot starve a writer: while one is announced no reader enters,
/// and once the readers inside have left, it is let in.
pub proof fn lemma_waiting_writer_is_preferred(state: GateState)
    requires
        state.waiting_writers > 0,
    ensures
        !state.admits_reader(),
        !state.without_reader().admits_reader(),
        !state.writer_active && state.active_readers <= 1 ==> state.without_reader().admits_writer(),
{
}

/// A writer that gives up leaves the lock as it found it.
pub proof fn lemma_withdrawn_writer_leaves_no_trace(state: GateState)
    requires
        state.waiting_writers < u64::MAX,
    ensures
        state.with_waiting_writer().without_waiting_writer() == state,
{
}

/// Whoever leaves gives back what entering took.
pub proof fn lemma_leaving_undoes_entering(state: GateState)
    requires
        state.exclusive(),
    ensures
        state.admits_reader() && state.active_readers < u64::MAX
            ==> state.with_reader().without_reader() == state,
        state.admits_writer() && state.waiting_writers < u64::MAX
            ==> state.with_waiting_writer().with_writer().without_writer() == state,
{
}

/// The invariant of a lock's state.
pub struct Exclusion;

impl RwLockPredicate<GateState> for Exclusion {
    open spec fn inv(self, state: GateState) -> bool {
        state.exclusive()
    }
}

/// A lock that honors cancellation and prefers writers.
pub struct RuntimeGate {
    state: RwLock<GateState, Exclusion>,
}

/// What a reader holds. Release it to leave the lock.
#[must_use]
pub struct RuntimeReadGuard<'a> {
    gate: &'a RuntimeGate,
}

/// What a writer holds. Release it to leave the lock.
#[must_use]
pub struct RuntimeWriteGuard<'a> {
    gate: &'a RuntimeGate,
}

impl<'a> RuntimeReadGuard<'a> {
    /// The lock that the reader entered.
    pub closed spec fn entered(&self) -> RuntimeGate {
        *self.gate
    }

    pub fn release(self) {
        let (mut state, handle) = self.gate.state.acquire_write();
        state.leave_reader();
        handle.release_write(state);
    }
}

impl<'a> RuntimeWriteGuard<'a> {
    /// The lock that the writer entered.
    pub closed spec fn entered(&self) -> RuntimeGate {
        *self.gate
    }

    pub fn release(self) {
        let (mut state, handle) = self.gate.state.acquire_write();
        state.leave_writer();
        handle.release_write(state);
    }
}

/// Whether a wait ended for one of the reasons for which it may.
pub open spec fn ends_wait(error: ProviderError) -> bool {
    error == ProviderError::OperationCancelled || error == ProviderError::OperationDeadline || error
        == ProviderError::LockPoisoned
}

impl RuntimeGate {
    pub fn new() -> RuntimeGate {
        RuntimeGate {
            state: RwLock::new(
                GateState { active_readers: 0, writer_active: false, waiting_writers: 0 },
                Ghost(Exclusion),
            ),
        }
    }

    /// Enters as a reader, or stops with the operation. A lock that cannot be had
    /// in as many tries as a counter holds counts as poisoned.
    pub fn read(&self, context: &OperationContext) -> (result: Result<
        RuntimeReadGuard<'_>,
        ProviderError,
    >)
        ensures
            match result {
                Ok(guard) => guard.entered() == *self,
                Err(error) => ends_wait(error),
            },
    {
        let mut polls: u64 = u64::MAX;
        while polls > 0
            decreases polls,
        {
            polls = polls - 1;
            if let Err(error) = context.check() {
                return Err(error);
            }
            let (mut state, handle) = self.state.acquire_write();
            let entered = state.enter_reader();
            handle.release_write(state);
            match entered {
                Ok(true) => {
                    return Ok(RuntimeReadGuard { gate: self });
                },
                Ok(false) => {},
                Err(error) => {
                    return Err(error);
                },
            }
            match context.next_wait() {
                Ok(nanos) => pause(nanos),
                Err(error) => {
                    return Err(error);
                },
            }
        }
        Err(ProviderError::LockPoisoned)
    }

    /// Enters as a writer, or stops with the operation.
    pub fn write(&self, context: &OperationContext) -> (result: Result<
        RuntimeWriteGuard<'_>,
        ProviderError,
    >)
        ensures
            match result {
                Ok(guard) => guard.entered() == *self,
                Err(error) => ends_wait(error),
            },
    {
        let (mut state, handle) = self.state.acquire_write();
        let announced = state.announce_writer();
        handle.release_write(state);
        if let Err(error) = announced {
            return Err(error);
        }
        let mut polls: u64 = u64::MAX;
        while polls > 0
            decreases polls,
        {
            polls = polls - 1;
            if let Err(error) = context.check() {
                self.withdraw();
                return Err(error);
            }
            let (mut state, handle) = self.state.acquire_write();
            let entered = state.enter_writer();
            handle.release_write(state);
            if entered {
                return Ok(RuntimeWriteGuard { gate: self });
            }
            match context.next_wait() {
                Ok(nanos) => pause(nanos),
                Err(error) => {
                    self.withdraw();
                    return Err(error);
                },
            }
        }
        self.withdraw();
        Err(ProviderError::LockPoisoned)
    }

    /// Takes back the announcement of a writer that gives up.
    fn withdraw(&self) {
        let (mut state, handle) = self.state.acquire_write();
        state.withdraw_writer();
        handle.release_write(state);
    }
}

} // verus!
