//! Cancellation, deadlines, and capture budgets of one operation.

use crate::provider_error::ProviderError;
use crate::text::{concat3, decimal, decimal_text};
use std::sync::atomic::AtomicBool;
use std::sync::Arc;
use std::time::{Duration, Instant};
use vstd::prelude::*;
use vstd::rwlock::{RwLock, RwLockPredicate};
use vstd::string::StringExecFns;

verus! {

/// `std::time::Instant`: a moment, with nothing claimed of when it is.
#[verifier::external_type_specification]
#[verifier::external_body]
pub struct ExInstant(std::time::Instant);

/// `std::time::Instant::now`: the current moment. Nothing is claimed of it.
#[verifier::external_body]
pub(crate) fn now() -> Instant {
    Instant::now()
}

/// `std::time::Instant::checked_add`: the moment a duration after another, where
/// there is one. Nothing more is claimed of it.
#[verifier::external_body]
fn moment_after(moment: Instant, duration: Duration) -> Option<Instant> {
    moment.checked_add(duration)
}

/// `std::time::Instant::saturating_duration_since`: the time from one moment to
/// another. Nothing is claimed of it.
#[verifier::external_body]
pub(crate) fn time_between(earlier: Instant, later: Instant) -> Duration {
    later.saturating_duration_since(earlier)
}

/// `std::time::Duration::as_nanos`: the length of a duration. Nothing is claimed
/// of it.
#[verifier::external_body]
pub(crate) fn nanoseconds(duration: &Duration) -> u128 {
    duration.as_nanos()
}

/// `std::time::Duration::from_secs`: a duration of whole seconds.
#[verifier::external_body]
fn seconds(count: u64) -> Duration {
    Duration::from_secs(count)
}

// ---------------------------------------------------------------------------
// Limits
// ---------------------------------------------------------------------------
/// Finite capture budgets of one operation. Entry limits apply to each capture;
/// reads and retained results are charged to counters of the whole operation.
#[derive(Clone, Copy, Debug, PartialEq, Eq, Structural)]
pub struct CaptureLimits {
    pub max_entries: u64,
    pub max_file_bytes: u64,
    pub max_aggregate_bytes: u64,
    pub max_depth: u64,
    pub max_resource_entries: u64,
    pub max_retained_bytes: u64,
}

impl CaptureLimits {
    pub open spec fn standard() -> CaptureLimits {
        CaptureLimits {
            max_entries: 100_000,
            max_file_bytes: 67_108_864,
            max_aggregate_bytes: 4_294_967_296,
            max_depth: 128,
            max_resource_entries: 10_000,
            max_retained_bytes: 4_294_967_296,
        }
    }

    pub fn builder() -> (result: CaptureLimitsBuilder)
        ensures
            result.limits() == CaptureLimits::standard(),
    {
        CaptureLimitsBuilder(CaptureLimits::default())
    }
}

impl Default for CaptureLimits {
    fn default() -> (result: Self)
        ensures
            result == CaptureLimits::standard(),
    {
        CaptureLimits {
            max_entries: 100_000,
            max_file_bytes: 64 * 1024 * 1024,
            max_aggregate_bytes: 4 * 1024 * 1024 * 1024,
            max_depth: 128,
            max_resource_entries: 10_000,
            max_retained_bytes: 4 * 1024 * 1024 * 1024,
        }
    }
}

/// Builder for [`CaptureLimits`]. All values are exact inclusive maxima.
#[derive(Clone, Copy, Debug)]
pub struct CaptureLimitsBuilder(CaptureLimits);

impl CaptureLimitsBuilder {
    /// The limits built so far.
    pub closed spec fn limits(&self) -> CaptureLimits {
        self.0
    }

    pub fn max_entries(self, value: u64) -> (result: Self)
        ensures
            result.limits() == (CaptureLimits { max_entries: value, ..self.limits() }),
    {
        CaptureLimitsBuilder(CaptureLimits { max_entries: value, ..self.0 })
    }

    pub fn max_file_bytes(self, value: u64) -> (result: Self)
        ensures
            result.limits() == (CaptureLimits { max_file_bytes: value, ..self.limits() }),
    {
        CaptureLimitsBuilder(CaptureLimits { max_file_bytes: value, ..self.0 })
    }

    pub fn max_aggregate_bytes(self, value: u64) -> (result: Self)
        ensures
            result.limits() == (CaptureLimits { max_aggregate_bytes: value, ..self.limits() }),
    {
        CaptureLimitsBuilder(CaptureLimits { max_aggregate_bytes: value, ..self.0 })
    }

    pub fn max_depth(self, value: u64) -> (result: Self)
        ensures
            result.limits() == (CaptureLimits { max_depth: value, ..self.limits() }),
    {
        CaptureLimitsBuilder(CaptureLimits { max_depth: value, ..self.0 })
    }

    pub fn max_resource_entries(self, value: u64) -> (result: Self)
        ensures
            result.limits() == (CaptureLimits { max_resource_entries: value, ..self.limits() }),
    {
        CaptureLimitsBuilder(CaptureLimits { max_resource_entries: value, ..self.0 })
    }

    pub fn max_retained_bytes(self, value: u64) -> (result: Self)
        ensures
            result.limits() == (CaptureLimits { max_retained_bytes: value, ..self.limits() }),
    {
        CaptureLimitsBuilder(CaptureLimits { max_retained_bytes: value, ..self.0 })
    }

    pub fn build(self) -> (result: CaptureLimits)
        ensures
            result == self.limits(),
    {
        self.0
    }
}

/// The budget that a capture ran out of.
#[derive(Clone, Copy, Debug, PartialEq, Eq, Structural)]
pub enum CaptureLimitKind {
    Entries,
    FileBytes,
    AggregateBytes,
    Depth,
    ResourceEntries,
    RetainedBytes,
    ArithmeticOverflow,
}

impl CaptureLimitKind {
    pub open spec fn name(self) -> Seq<char> {
        match self {
            CaptureLimitKind::Entries => "entries"@,
            CaptureLimitKind::FileBytes => "file_bytes"@,
            CaptureLimitKind::AggregateBytes => "aggregate_bytes"@,
            CaptureLimitKind::Depth => "depth"@,
            CaptureLimitKind::ResourceEntries => "resource_entries"@,
            CaptureLimitKind::RetainedBytes => "retained_bytes"@,
            CaptureLimitKind::ArithmeticOverflow => "arithmetic_overflow"@,
        }
    }

    pub fn as_str(self) -> (result: &'static str)
        ensures
            result@ == self.name(),
    {
        match self {
            CaptureLimitKind::Entries => "entries",
            CaptureLimitKind::FileBytes => "file_bytes",
            CaptureLimitKind::AggregateBytes => "aggregate_bytes",
            CaptureLimitKind::Depth => "depth",
            CaptureLimitKind::ResourceEntries => "resource_entries",
            CaptureLimitKind::RetainedBytes => "retained_bytes",
            CaptureLimitKind::ArithmeticOverflow => "arithmetic_overflow",
        }
    }
}

/// A capture budget violation.
#[derive(Clone, Copy, Debug, PartialEq, Eq, Structural)]
pub struct CaptureLimitExceeded {
    pub kind: CaptureLimitKind,
    pub limit: u64,
    pub attempted: u64,
}

impl CaptureLimitExceeded {
    /// The violation as text.
    pub fn to_text(&self) -> (result: String)
        ensures
            result@ == "capture limit exceeded ("@ + self.kind.name() + "): attempted "@ + decimal(
                self.attempted as nat,
            ) + ", limit "@ + decimal(self.limit as nat),
    {
        concat3("capture limit exceeded (", self.kind.as_str(), "): attempted ").concat(
            decimal_text(self.attempted).as_str(),
        ).concat(", limit ").concat(decimal_text(self.limit).as_str())
    }
}

/// The violation of a budget by an attempted amount, if it is one.
pub open spec fn violation(
    kind: CaptureLimitKind,
    maximum: u64,
    attempted: u64,
) -> Option<CaptureLimitExceeded> {
    if attempted > maximum {
        Some(CaptureLimitExceeded { kind, limit: maximum, attempted })
    } else {
        None
    }
}

/// The violation of adding to a counter, if it is one.
pub open spec fn charge_violation(
    kind: CaptureLimitKind,
    maximum: u64,
    current: u64,
    amount: u64,
) -> Option<CaptureLimitExceeded> {
    if current + amount > u64::MAX {
        Some(
            CaptureLimitExceeded {
                kind: CaptureLimitKind::ArithmeticOverflow,
                limit: u64::MAX,
                attempted: u64::MAX,
            },
        )
    } else {
        violation(kind, maximum, (current + amount) as u64)
    }
}

/// Checks an amount against an inclusive maximum.
pub fn check_limit(attempted: u64, maximum: u64, kind: CaptureLimitKind) -> (result: Result<
    (),
    CaptureLimitExceeded,
>)
    ensures
        match result {
            Ok(_) => violation(kind, maximum, attempted) is None,
            Err(error) => violation(kind, maximum, attempted) == Some(error),
        },
{
    if attempted > maximum {
        Err(CaptureLimitExceeded { kind, limit: maximum, attempted })
    } else {
        Ok(())
    }
}

/// Adds to a counter unless that exceeds the maximum. A refused charge leaves the
/// counter as it was.
pub fn charge(counter: &mut u64, amount: u64, maximum: u64, kind: CaptureLimitKind) -> (result:
    Result<(), CaptureLimitExceeded>)
    ensures
        match result {
            Ok(_) => charge_violation(kind, maximum, *old(counter), amount) is None
                && *final(counter) == *old(counter) + amount,
            Err(error) => charge_violation(kind, maximum, *old(counter), amount) == Some(error)
                && *final(counter) == *old(counter),
        },
{
    let current = *counter;
    match current.checked_add(amount) {
        None => Err(
            CaptureLimitExceeded {
                kind: CaptureLimitKind::ArithmeticOverflow,
                limit: u64::MAX,
                attempted: u64::MAX,
            },
        ),
        Some(attempted) => {
            if attempted > maximum {
                return Err(CaptureLimitExceeded { kind, limit: maximum, attempted });
            }
            *counter = attempted;
            Ok(())
        },
    }
}

/// What one operation has used of its budgets, and the first violation of one.
#[derive(Clone, Copy, Debug, PartialEq, Eq)]
pub struct CaptureUsage {
    pub aggregate: u64,
    pub retained: u64,
    pub exceeded: Option<CaptureLimitExceeded>,
}

/// The first of two violations.
pub open spec fn first_violation(
    recorded: Option<CaptureLimitExceeded>,
    result: Result<(), CaptureLimitExceeded>,
) -> Option<CaptureLimitExceeded> {
    match (recorded, result) {
        (None, Err(error)) => Some(error),
        _ => recorded,
    }
}

impl CaptureUsage {
    /// The counters are within the limits.
    pub open spec fn within(&self, limits: CaptureLimits) -> bool {
        self.aggregate <= limits.max_aggregate_bytes && self.retained <= limits.max_retained_bytes
    }

    /// Keeps the first violation of the operation.
    pub fn record(&mut self, result: Result<(), CaptureLimitExceeded>) -> (same: Result<
        (),
        CaptureLimitExceeded,
    >)
        ensures
            same == result,
            final(self).aggregate == old(self).aggregate,
            final(self).retained == old(self).retained,
            final(self).exceeded == first_violation(old(self).exceeded, result),
    {
        if let Err(error) = result {
            if self.exceeded.is_none() {
                self.exceeded = Some(error);
            }
        }
        result
    }

    /// The first violation as an error, if there was one.
    pub fn limit_error(&self) -> (result: Option<ProviderError>)
        ensures
            result == match self.exceeded {
                Some(error) => Some(ProviderError::CaptureLimitExceeded(error)),
                None => None,
            },
    {
        match self.exceeded {
            Some(error) => Some(ProviderError::CaptureLimitExceeded(error)),
            None => None,
        }
    }

    /// Charges bytes read.
    pub fn charge_read(&mut self, bytes: u64, limits: CaptureLimits) -> (result: Result<
        (),
        CaptureLimitExceeded,
    >)
        requires
            old(self).within(limits),
        ensures
            final(self).within(limits),
            final(self).retained == old(self).retained,
            final(self).exceeded == first_violation(old(self).exceeded, result),
            match result {
                Ok(_) => final(self).aggregate == old(self).aggregate + bytes,
                Err(error) => final(self).aggregate == old(self).aggregate && charge_violation(
                    CaptureLimitKind::AggregateBytes,
                    limits.max_aggregate_bytes,
                    old(self).aggregate,
                    bytes,
                ) == Some(error),
            },
    {
        let mut counter = self.aggregate;
        let result = charge(
            &mut counter,
            bytes,
            limits.max_aggregate_bytes,
            CaptureLimitKind::AggregateBytes,
        );
        self.aggregate = counter;
        self.record(result)
    }

    /// Charges bytes newly retained.
    pub fn charge_retained(&mut self, bytes: u64, limits: CaptureLimits) -> (result: Result<
        (),
        CaptureLimitExceeded,
    >)
        requires
            old(self).within(limits),
        ensures
            final(self).within(limits),
            final(self).aggregate == old(self).aggregate,
            final(self).exceeded == first_violation(old(self).exceeded, result),
            match result {
                Ok(_) => final(self).retained == old(self).retained + bytes,
                Err(error) => final(self).retained == old(self).retained && charge_violation(
                    CaptureLimitKind::RetainedBytes,
                    limits.max_retained_bytes,
                    old(self).retained,
                    bytes,
                ) == Some(error),
            },
    {
        let mut counter = self.retained;
        let result = charge(
            &mut counter,
            bytes,
            limits.max_retained_bytes,
            CaptureLimitKind::RetainedBytes,
        );
        self.retained = counter;
        self.record(result)
    }
}

impl RwLockPredicate<CaptureUsage> for CaptureLimits {
    open spec fn inv(self, usage: CaptureUsage) -> bool {
        usage.within(self)
    }
}

// ---------------------------------------------------------------------------
// Cancellation
// ---------------------------------------------------------------------------
#[derive(Clone, Copy, Debug, PartialEq, Eq, Structural)]
pub enum OperationStopReason {
    Cancelled,
    Deadline,
}

/// Why an operation is to stop, if it is. An explicit cancellation counts before
/// the deadline.
pub fn stop_reason_of(cancelled: bool, elapsed: bool) -> (result: Option<OperationStopReason>)
    ensures
        result == if cancelled {
            Some(OperationStopReason::Cancelled)
        } else if elapsed {
            Some(OperationStopReason::Deadline)
        } else {
            None
        },
{
    if cancelled {
        Some(OperationStopReason::Cancelled)
    } else if elapsed {
        Some(OperationStopReason::Deadline)
    } else {
        None
    }
}

/// The error that an operation stops with.
pub open spec fn stop_error(reason: Option<OperationStopReason>) -> Result<(), ProviderError> {
    match reason {
        Some(OperationStopReason::Cancelled) => Err(ProviderError::OperationCancelled),
        Some(OperationStopReason::Deadline) => Err(ProviderError::OperationDeadline),
        None => Ok(()),
    }
}

/// Stops an operation for a reason, if there is one.
pub fn check_reason(reason: Option<OperationStopReason>) -> (result: Result<(), ProviderError>)
    ensures
        result == stop_error(reason),
{
    match reason {
        Some(OperationStopReason::Cancelled) => Err(ProviderError::OperationCancelled),
        Some(OperationStopReason::Deadline) => Err(ProviderError::OperationDeadline),
        None => Ok(()),
    }
}

/// A token that cancels an operation. Clones share the cancellation.
#[derive(Debug)]
pub struct OperationCancellation {
    cancelled: Arc<AtomicBool>,
    deadline: Option<OperationDeadline>,
}

impl Clone for OperationCancellation {
    fn clone(&self) -> (result: Self)
        ensures
            result.flag() == self.flag(),
            result.bound() == self.bound(),
    {
        OperationCancellation { cancelled: self.cancelled.clone(), deadline: self.deadline }
    }
}

impl OperationCancellation {
    /// The deadline that the token carries.
    pub closed spec fn bound(&self) -> Option<OperationDeadline> {
        self.deadline
    }

    /// The flag that a cancellation sets. Tokens with one flag are cancelled together.
    pub closed spec fn flag(&self) -> Arc<AtomicBool> {
        self.cancelled
    }

    /// A token that is not cancelled and has no deadline.
    pub fn new() -> (result: OperationCancellation)
        ensures
            result.bound() is None,
    {
        OperationCancellation { cancelled: Arc::new(AtomicBool::new(false)), deadline: None }
    }

    /// A token that shares this one's cancellation and stops at a deadline too.
    pub fn with_deadline(&self, deadline: OperationDeadline) -> (result: OperationCancellation)
        ensures
            result.bound() == Some(deadline),
            result.flag() == self.flag(),
    {
        OperationCancellation { cancelled: self.cancelled.clone(), deadline: Some(deadline) }
    }

    /// Cancels the operation.
    pub fn cancel(&self) {
        self.cancelled.store(true, std::sync::atomic::Ordering::SeqCst);
    }

    /// Whether the operation was cancelled. Without a deadline this is the only
    /// reason to stop.
    pub fn is_cancelled(&self) -> bool {
        self.cancelled.load(std::sync::atomic::Ordering::SeqCst)
    }

    /// Why the operation is to stop, if it is.
    pub fn stop_reason(&self) -> (result: Option<OperationStopReason>)
        ensures
            self.bound() is None ==> result != Some(OperationStopReason::Deadline),
    {
        let elapsed = match self.deadline {
            Some(deadline) => deadline.is_elapsed(),
            None => false,
        };
        stop_reason_of(self.is_cancelled(), elapsed)
    }
}

/// The absolute monotonic deadline of one operation.
#[derive(Clone, Copy, Debug, PartialEq, Eq)]
pub struct OperationDeadline(Instant);

impl OperationDeadline {
    /// The moment of the deadline.
    pub closed spec fn moment(&self) -> Instant {
        self.0
    }

    pub fn at(instant: Instant) -> (result: Self)
        ensures
            result.moment() == instant,
    {
        OperationDeadline(instant)
    }

    /// The deadline a duration from now. Nothing is claimed of the current moment.
    pub fn after(duration: Duration) -> Self {
        let start = now();
        Self::starting(start, moment_after(start, duration))
    }

    /// The deadline at the end of a duration that starts now, or at its start where
    /// time ends before it.
    fn starting(start: Instant, end: Option<Instant>) -> (result: OperationDeadline)
        ensures
            result.moment() == match end {
                Some(moment) => moment,
                None => start,
            },
    {
        match end {
            Some(moment) => OperationDeadline(moment),
            None => OperationDeadline(start),
        }
    }

    pub fn instant(self) -> (result: Instant)
        ensures
            result == self.moment(),
    {
        self.0
    }

    /// The time that is left.
    pub fn remaining(self) -> Duration {
        time_between(now(), self.0)
    }

    /// Whether no time is left.
    pub fn is_elapsed(self) -> bool {
        no_time_left(nanoseconds(&self.remaining()))
    }
}

/// Whether a deadline has passed, by the time that is left until it. One that is
/// reached has passed.
pub fn no_time_left(remaining_nanos: u128) -> (result: bool)
    ensures
        result == (remaining_nanos == 0),
{
    remaining_nanos == 0
}

/// The longest wait between two looks at the cancellation, in nanoseconds.
pub const CANCELLATION_POLL_NANOS: u64 = 10_000_000;

/// The next wait of an operation that has some time left.
pub fn capped_wait(remaining_nanos: u128) -> (result: u64)
    ensures
        result == if remaining_nanos < CANCELLATION_POLL_NANOS {
            remaining_nanos as int
        } else {
            CANCELLATION_POLL_NANOS as int
        },
{
    if remaining_nanos < CANCELLATION_POLL_NANOS as u128 {
        remaining_nanos as u64
    } else {
        CANCELLATION_POLL_NANOS
    }
}

// ---------------------------------------------------------------------------
// Contexts
// ---------------------------------------------------------------------------
/// Cancellation, deadline, and budgets of one runtime call. Clones share the
/// cancellation and the use of the budgets.
pub struct OperationContext {
    cancellation: OperationCancellation,
    deadline: OperationDeadline,
    budget: Arc<Budget>,
}

impl Clone for OperationContext {
    fn clone(&self) -> (result: Self)
        ensures
            result.cancellation_model().flag() == self.cancellation_model().flag(),
            result.deadline_model() == self.deadline_model(),
            result.limits_model() == self.limits_model(),
            result.shares_budget(*self),
    {
        proof {
            use_type_invariant(self);
        }
        OperationContext {
            cancellation: self.cancellation.clone(),
            deadline: self.deadline,
            budget: self.budget.clone(),
        }
    }
}

/// The budgets of one operation and what it has used of them.
struct Budget {
    limits: CaptureLimits,
    usage: RwLock<CaptureUsage, CaptureLimits>,
}

impl Budget {
    #[verifier::type_invariant]
    spec fn guards_usage(&self) -> bool {
        self.usage.pred() == self.limits
    }
}

/// What a violation may be, whatever the operation has used before.
pub open spec fn may_violate(
    error: CaptureLimitExceeded,
    kind: CaptureLimitKind,
    maximum: u64,
    amount: u64,
) -> bool {
    ||| maximum + amount > u64::MAX && error == (CaptureLimitExceeded {
        kind: CaptureLimitKind::ArithmeticOverflow,
        limit: u64::MAX,
        attempted: u64::MAX,
    })
    ||| error.kind == kind && error.limit == maximum && error.attempted > maximum
        && error.attempted >= amount && error.attempted - amount <= maximum
}

/// Whether a result reports a violation.
pub open spec fn reports(
    result: Result<(), ProviderError>,
    violation: Option<CaptureLimitExceeded>,
) -> bool {
    match violation {
        Some(error) => result == Err::<(), _>(ProviderError::CaptureLimitExceeded(error)),
        None => result is Ok,
    }
}

fn reported(result: Result<(), CaptureLimitExceeded>) -> (same: Result<(), ProviderError>)
    ensures
        match result {
            Ok(_) => same is Ok,
            Err(error) => same == Err::<(), _>(ProviderError::CaptureLimitExceeded(error)),
        },
{
    match result {
        Ok(_) => Ok(()),
        Err(error) => Err(ProviderError::CaptureLimitExceeded(error)),
    }
}

impl OperationContext {
    /// The token of an operation stops at its deadline.
    #[verifier::type_invariant]
    spec fn stops_at_deadline(&self) -> bool {
        self.cancellation.bound() == Some(self.deadline)
    }

    /// Whether two contexts charge the same budgets.
    pub closed spec fn shares_budget(&self, other: OperationContext) -> bool {
        self.budget == other.budget
    }

    /// The budgets of the operation.
    pub closed spec fn limits_model(&self) -> CaptureLimits {
        self.budget.limits
    }

    /// The deadline of the operation.
    pub closed spec fn deadline_model(&self) -> OperationDeadline {
        self.deadline
    }

    /// Binds a token to a deadline and the standard budgets.
    pub fn new(cancellation: &OperationCancellation, deadline: OperationDeadline) -> (result: Self)
        ensures
            result.limits_model() == CaptureLimits::standard(),
            result.deadline_model() == deadline,
            result.cancellation_model().bound() == Some(deadline),
            result.cancellation_model().flag() == cancellation.flag(),
    {
        Self::with_capture_limits(cancellation, deadline, CaptureLimits::default())
    }

    /// Binds a token to a deadline and explicit budgets.
    pub fn with_capture_limits(
        cancellation: &OperationCancellation,
        deadline: OperationDeadline,
        limits: CaptureLimits,
    ) -> (result: Self)
        ensures
            result.limits_model() == limits,
            result.deadline_model() == deadline,
            result.cancellation_model().bound() == Some(deadline),
            result.cancellation_model().flag() == cancellation.flag(),
    {
        let usage = CaptureUsage { aggregate: 0, retained: 0, exceeded: None };
        OperationContext {
            cancellation: cancellation.with_deadline(deadline),
            deadline,
            budget: Arc::new(Budget { limits, usage: RwLock::new(usage, Ghost(limits)) }),
        }
    }

    pub fn cancellation(&self) -> (result: &OperationCancellation)
        ensures
            *result == self.cancellation_model(),
            result.bound() == Some(self.deadline_model()),
    {
        proof {
            use_type_invariant(self);
        }
        &self.cancellation
    }

    /// The token of the operation.
    pub closed spec fn cancellation_model(&self) -> OperationCancellation {
        self.cancellation
    }

    pub fn deadline(&self) -> (result: OperationDeadline)
        ensures
            result == self.deadline_model(),
    {
        self.deadline
    }

    pub fn capture_limits(&self) -> (result: CaptureLimits)
        ensures
            result == self.limits_model(),
    {
        self.budget.limits
    }

    /// Stops an operation that was cancelled or whose deadline has passed.
    pub fn check(&self) -> (result: Result<(), ProviderError>)
        ensures
            exists|reason: Option<OperationStopReason>| result == #[trigger] stop_error(reason),
    {
        let reason = self.cancellation.stop_reason();
        check_reason(reason)
    }

    pub fn check_depth(&self, depth: u64) -> (result: Result<(), ProviderError>)
        ensures
            reports(
                result,
                violation(CaptureLimitKind::Depth, self.limits_model().max_depth, depth),
            ),
    {
        reported(check_limit(depth, self.budget.limits.max_depth, CaptureLimitKind::Depth))
    }

    pub fn check_file_bytes(&self, bytes: u64) -> (result: Result<(), ProviderError>)
        ensures
            reports(
                result,
                violation(CaptureLimitKind::FileBytes, self.limits_model().max_file_bytes, bytes),
            ),
    {
        reported(check_limit(bytes, self.budget.limits.max_file_bytes, CaptureLimitKind::FileBytes))
    }

    /// Keeps the first violation of the operation, for all clones.
    pub fn record_limit(&self, result: Result<(), CaptureLimitExceeded>) -> (same: Result<
        (),
        ProviderError,
    >)
        ensures
            match result {
                Ok(_) => same is Ok,
                Err(error) => same == Err::<(), _>(ProviderError::CaptureLimitExceeded(error)),
            },
    {
        proof {
            use_type_invariant(&*self.budget);
        }
        let (mut usage, handle) = self.budget.usage.acquire_write();
        let recorded = usage.record(result);
        handle.release_write(usage);
        reported(recorded)
    }

    /// Checks the number of entries of one capture.
    pub fn check_entries(&self, entries: u64) -> (result: Result<(), ProviderError>)
        ensures
            reports(
                result,
                violation(CaptureLimitKind::Entries, self.limits_model().max_entries, entries),
            ),
    {
        self.record_limit(check_limit(entries, self.budget.limits.max_entries, CaptureLimitKind::Entries))
    }

    /// Checks the number of resource entries of one capture.
    pub fn check_resource_entries(&self, entries: u64) -> (result: Result<(), ProviderError>)
        ensures
            reports(
                result,
                violation(
                    CaptureLimitKind::ResourceEntries,
                    self.limits_model().max_resource_entries,
                    entries,
                ),
            ),
    {
        self.record_limit(
            check_limit(
                entries,
                self.budget.limits.max_resource_entries,
                CaptureLimitKind::ResourceEntries,
            ),
        )
    }

    /// Charges bytes read by the operation. More than the budget is always
    /// refused; what is refused is not charged.
    pub fn charge_read(&self, bytes: u64) -> (result: Result<(), ProviderError>)
        ensures
            bytes == 0 ==> result is Ok,
            match result {
                Ok(_) => bytes <= self.limits_model().max_aggregate_bytes,
                Err(ProviderError::CaptureLimitExceeded(error)) => may_violate(
                    error,
                    CaptureLimitKind::AggregateBytes,
                    self.limits_model().max_aggregate_bytes,
                    bytes,
                ),
                Err(_) => false,
            },
    {
        proof {
            use_type_invariant(&*self.budget);
        }
        let (mut usage, handle) = self.budget.usage.acquire_write();
        let result = usage.charge_read(bytes, self.budget.limits);
        handle.release_write(usage);
        reported(result)
    }

    /// Charges bytes that the operation newly retains.
    pub fn charge_retained(&self, bytes: u64) -> (result: Result<(), ProviderError>)
        ensures
            bytes == 0 ==> result is Ok,
            match result {
                Ok(_) => bytes <= self.limits_model().max_retained_bytes,
                Err(ProviderError::CaptureLimitExceeded(error)) => may_violate(
                    error,
                    CaptureLimitKind::RetainedBytes,
                    self.limits_model().max_retained_bytes,
                    bytes,
                ),
                Err(_) => false,
            },
    {
        proof {
            use_type_invariant(&*self.budget);
        }
        let (mut usage, handle) = self.budget.usage.acquire_write();
        let result = usage.charge_retained(bytes, self.budget.limits);
        handle.release_write(usage);
        reported(result)
    }

    /// What the operation has used so far; always within its budgets.
    pub fn usage(&self) -> (result: CaptureUsage)
        ensures
            result.within(self.limits_model()),
    {
        proof {
            use_type_invariant(&*self.budget);
        }
        let handle = self.budget.usage.acquire_read();
        let usage = *handle.borrow();
        handle.release_read();
        usage
    }

    /// The first violation of the operation, if there was one.
    pub fn capture_limit_error(&self) -> (result: Option<ProviderError>)
        ensures
            result is Some ==> result->0 is CaptureLimitExceeded,
    {
        self.usage().limit_error()
    }

    /// The next wait of the operation in nanoseconds, unless it is to stop.
    pub fn next_wait(&self) -> (result: Result<u64, ProviderError>)
        ensures
            match result {
                Ok(nanos) => nanos <= CANCELLATION_POLL_NANOS,
                Err(error) => error == ProviderError::OperationCancelled || error
                    == ProviderError::OperationDeadline,
            },
    {
        if let Err(error) = self.check() {
            return Err(error);
        }
        Ok(capped_wait(nanoseconds(&self.deadline.remaining())))
    }

    /// A bounded context for internal work without a caller.
    pub fn internal() -> (result: Self)
        ensures
            result.limits_model() == CaptureLimits::standard(),
            result.cancellation_model().bound() == Some(result.deadline_model()),
    {
        Self::new(
            &OperationCancellation::new(),
            OperationDeadline::after(seconds(24 * 60 * 60)),
        )
    }
}

/// A refused charge leaves the use of the budgets as it was, and the first
/// violation stays recorded.
pub proof fn lemma_refused_charge_consumes_nothing(
    before: CaptureUsage,
    after: CaptureUsage,
    limits: CaptureLimits,
    bytes: u64,
    error: CaptureLimitExceeded,
)
    requires
        before.within(limits),
        charge_violation(
            CaptureLimitKind::AggregateBytes,
            limits.max_aggregate_bytes,
            before.aggregate,
            bytes,
        ) == Some(error),
        after.aggregate == before.aggregate,
        after.retained == before.retained,
        after.exceeded == first_violation(before.exceeded, Err(error)),
    ensures
        after.within(limits),
        after.exceeded is Some,
        before.exceeded is Some ==> after.exceeded == before.exceeded,
        forall|smaller: u64|
            before.aggregate + smaller <= limits.max_aggregate_bytes
                ==> #[trigger] charge_violation(
                CaptureLimitKind::AggregateBytes,
                limits.max_aggregate_bytes,
                after.aggregate,
                smaller,
            ) is None,
{
}

} // verus!
