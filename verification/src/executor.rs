//! Running one job: attempts, retries and what each attempt reports.
//!
//! A job is attempted at most `max_retries` times. Every attempt yields one
//! result document. A success or an internal error ends the run; a
//! measurement error is retried after a random delay until the attempts are
//! used up.

use crate::clock::random_between;
use crate::error::ProddleError;
use crate::operation::{string_views, Operation};
use vstd::prelude::*;

verus! {

/// How one attempt of a measurement ended.
#[derive(Debug, Clone, Copy, PartialEq, Eq, Structural)]
pub enum Outcome {
    /// The measurement produced a result.
    Success,
    /// The probe failed; it may succeed when tried again.
    MeasurementError,
    /// The measurement could not be carried out at all.
    InternalError,
}

/// What follows an attempt: the count of attempts left that its document
/// carries, where it carries one, and whether the run goes on.
#[derive(Debug, Clone, Copy, PartialEq, Eq, Structural)]
pub struct Verdict {
    pub remaining_attempts: Option<i32>,
    pub retry: bool,
}

/// What a [`ResultDocument`] holds.
pub struct ResultDocumentView {
    pub timestamp: i64,
    pub vantage_hostname: Seq<char>,
    pub vantage_ip_address: Seq<char>,
    pub measurement_class: Seq<char>,
    pub measurement_domain: Seq<char>,
    pub outcome: Outcome,
    pub remaining_attempts: Option<i32>,
}

/// What the agent records of one attempt besides what the measurement
/// itself found: when and where it ran, what it measured, how it ended and,
/// after a measurement error, how many attempts are left.
#[derive(Debug)]
pub struct ResultDocument {
    pub timestamp: i64,
    pub vantage_hostname: String,
    pub vantage_ip_address: String,
    pub measurement_class: String,
    pub measurement_domain: String,
    pub outcome: Outcome,
    pub remaining_attempts: Option<i32>,
}

impl View for ResultDocument {
    type V = ResultDocumentView;

    open spec fn view(&self) -> ResultDocumentView {
        ResultDocumentView {
            timestamp: self.timestamp,
            vantage_hostname: self.vantage_hostname@,
            vantage_ip_address: self.vantage_ip_address@,
            measurement_class: self.measurement_class@,
            measurement_domain: self.measurement_domain@,
            outcome: self.outcome,
            remaining_attempts: self.remaining_attempts,
        }
    }
}

/// What a [`MeasurementRun`] holds.
pub struct MeasurementRunView {
    pub max_retries: i32,
    pub attempts: i32,
    pub finished: bool,
}

/// The course of one job through its attempts.
#[derive(Debug)]
pub struct MeasurementRun {
    max_retries: i32,
    attempts: i32,
    finished: bool,
}

/// A run that has made no attempt yet.
pub open spec fn fresh(max_retries: i32) -> MeasurementRunView {
    MeasurementRunView { max_retries, attempts: 0, finished: max_retries <= 0 }
}

/// Whether the run is in a state that a run can reach.
pub open spec fn run_valid(run: MeasurementRunView) -> bool {
    &&& 0 <= run.attempts
    &&& run.attempts <= run.max_retries || run.attempts == 0
    &&& run.attempts >= run.max_retries ==> run.finished
}

/// What an attempt's document says of the attempts left.
pub open spec fn verdict_of(run: MeasurementRunView, outcome: Outcome) -> Verdict {
    match outcome {
        Outcome::MeasurementError => Verdict {
            remaining_attempts: Some((run.max_retries - 1 - run.attempts) as i32),
            retry: run.attempts + 1 < run.max_retries,
        },
        _ => Verdict { remaining_attempts: None, retry: false },
    }
}

/// The run after an attempt ended with `outcome`.
pub open spec fn after_attempt(run: MeasurementRunView, outcome: Outcome) -> MeasurementRunView {
    MeasurementRunView {
        max_retries: run.max_retries,
        attempts: (run.attempts + 1) as i32,
        finished: !verdict_of(run, outcome).retry,
    }
}

/// The verdicts of the attempts that a run makes when its attempts end as
/// `outcomes` say, one after the other; outcomes beyond the run's end are
/// not looked at.
pub open spec fn verdicts(run: MeasurementRunView, outcomes: Seq<Outcome>) -> Seq<Verdict>
    decreases outcomes.len(),
{
    if run.finished || outcomes.len() == 0 {
        Seq::empty()
    } else {
        seq![verdict_of(run, outcomes[0])] + verdicts(
            after_attempt(run, outcomes[0]),
            outcomes.drop_first(),
        )
    }
}

/// The state of a run after its attempts ended as `outcomes` say.
pub open spec fn run_after(run: MeasurementRunView, outcomes: Seq<Outcome>) -> MeasurementRunView
    decreases outcomes.len(),
{
    if run.finished || outcomes.len() == 0 {
        run
    } else {
        run_after(after_attempt(run, outcomes[0]), outcomes.drop_first())
    }
}

/// A run whose attempts all end in a measurement error makes exactly the
/// attempts it has left, the last with no attempt remaining, and is
/// finished then.
pub proof fn lemma_never_succeeding(run: MeasurementRunView, outcomes: Seq<Outcome>)
    requires
        run_valid(run),
        !run.finished,
        outcomes.len() >= run.max_retries - run.attempts,
        forall|i: int| 0 <= i < outcomes.len() ==> outcomes[i] == Outcome::MeasurementError,
    ensures
        verdicts(run, outcomes).len() == run.max_retries - run.attempts,
        verdicts(run, outcomes).last().remaining_attempts == Some(0i32),
        forall|i: int|
            0 <= i < verdicts(run, outcomes).len() ==> (#[trigger] verdicts(
                run,
                outcomes,
            )[i]).remaining_attempts == Some((run.max_retries - 1 - run.attempts - i) as i32),
        run_after(run, outcomes).finished,
    decreases outcomes.len(),
{
    let next = after_attempt(run, outcomes[0]);
    let rest = outcomes.drop_first();
    let all = verdicts(run, outcomes);
    assert(run_after(run, outcomes) == run_after(next, rest));
    if !next.finished {
        lemma_never_succeeding(next, rest);
        assert forall|i: int| 0 <= i < all.len() implies (#[trigger] all[i]).remaining_attempts
            == Some((run.max_retries - 1 - run.attempts - i) as i32) by {
            if i > 0 {
                assert(all[i] == verdicts(next, rest)[i - 1]);
            }
        }
        assert(all.last() == verdicts(next, rest).last());
    } else {
        assert(verdicts(next, rest) =~= Seq::<Verdict>::empty());
        assert(all =~= seq![verdict_of(run, outcomes[0])]);
        assert(run_after(next, rest) == next);
    }
}

/// A job that never succeeds yields exactly `max_retries` documents, the
/// last carrying no remaining attempt, and is not tried again.
pub proof fn lemma_retry_bound(max_retries: i32, outcomes: Seq<Outcome>)
    requires
        max_retries > 0,
        outcomes.len() >= max_retries,
        forall|i: int| 0 <= i < outcomes.len() ==> outcomes[i] == Outcome::MeasurementError,
    ensures
        verdicts(fresh(max_retries), outcomes).len() == max_retries,
        verdicts(fresh(max_retries), outcomes).last().remaining_attempts == Some(0i32),
        run_after(fresh(max_retries), outcomes).finished,
{
    lemma_never_succeeding(fresh(max_retries), outcomes);
}

/// Tells an attempt's outcome from the markers its document carries: an
/// internal error outweighs a measurement error, and a document with
/// neither is a success.
pub fn classify(internal_error: bool, measurement_error: bool) -> (outcome: Outcome)
    ensures
        outcome == if internal_error {
            Outcome::InternalError
        } else if measurement_error {
            Outcome::MeasurementError
        } else {
            Outcome::Success
        },
{
    if internal_error {
        Outcome::InternalError
    } else if measurement_error {
        Outcome::MeasurementError
    } else {
        Outcome::Success
    }
}

impl View for MeasurementRun {
    type V = MeasurementRunView;

    closed spec fn view(&self) -> MeasurementRunView {
        MeasurementRunView {
            max_retries: self.max_retries,
            attempts: self.attempts,
            finished: self.finished,
        }
    }
}

impl MeasurementRun {
    /// Whether the run is in a state that a run can reach, as every run is.
    pub open spec fn wf(&self) -> bool {
        run_valid(self@)
    }

    /// Starts a run of at most `max_retries` attempts; with none allowed the
    /// run is finished at once.
    pub fn new(max_retries: i32) -> (run: MeasurementRun)
        ensures
            run.wf(),
            run@ == fresh(max_retries),
    {
        MeasurementRun { max_retries, attempts: 0, finished: max_retries <= 0 }
    }

    /// Whether the run is over: no further attempt is to be made.
    pub fn is_finished(&self) -> (finished: bool)
        ensures
            finished == self@.finished,
    {
        self.finished
    }

    /// Takes note of how an attempt ended and says what its document
    /// carries and whether another attempt follows.
    pub fn record(&mut self, outcome: Outcome) -> (verdict: Verdict)
        requires
            old(self).wf(),
            !old(self)@.finished,
        ensures
            final(self).wf(),
            verdict == verdict_of(old(self)@, outcome),
            final(self)@ == after_attempt(old(self)@, outcome),
    {
        let verdict = match outcome {
            Outcome::MeasurementError => Verdict {
                remaining_attempts: Some(self.max_retries - 1 - self.attempts),
                retry: self.attempts + 1 < self.max_retries,
            },
            _ => Verdict { remaining_attempts: None, retry: false },
        };
        self.attempts = self.attempts + 1;
        self.finished = !verdict.retry;
        verdict
    }
}

/// Records an attempt of `operation` made at `timestamp` on the agent
/// `hostname` at `ip_address`, which ended with `outcome` and to which the
/// run gave `verdict`.
pub fn document(
    operation: &Operation,
    hostname: &str,
    ip_address: &str,
    timestamp: i64,
    outcome: Outcome,
    verdict: Verdict,
) -> (document: ResultDocument)
    ensures
        document@ == (ResultDocumentView {
            timestamp,
            vantage_hostname: hostname@,
            vantage_ip_address: ip_address@,
            measurement_class: operation@.measurement_class,
            measurement_domain: operation@.domain,
            outcome,
            remaining_attempts: verdict.remaining_attempts,
        }),
{
    ResultDocument {
        timestamp,
        vantage_hostname: hostname.to_owned(),
        vantage_ip_address: ip_address.to_owned(),
        measurement_class: operation.measurement_class.clone(),
        measurement_domain: operation.domain.clone(),
        outcome,
        remaining_attempts: verdict.remaining_attempts,
    }
}

/// The shortest delay before a retry, in seconds.
pub const RETRY_DELAY_MIN: u64 = 10;

/// The bound that a delay before a retry stays under, in seconds.
pub const RETRY_DELAY_BOUND: u64 = 20;

/// Draws the delay in seconds to wait before a retry.
pub fn retry_delay() -> (seconds: u64)
    ensures
        RETRY_DELAY_MIN <= seconds < RETRY_DELAY_BOUND,
{
    random_between(RETRY_DELAY_MIN, RETRY_DELAY_BOUND)
}

/// The measurement classes that an agent can run, by name.
#[derive(Debug)]
pub struct MeasurementRegistry {
    classes: Vec<String>,
}

impl View for MeasurementRegistry {
    type V = Seq<Seq<char>>;

    closed spec fn view(&self) -> Seq<Seq<char>> {
        string_views(self.classes@)
    }
}

impl MeasurementRegistry {
    /// Makes a registry without any class.
    pub fn new() -> (registry: MeasurementRegistry)
        ensures
            registry@ == Seq::<Seq<char>>::empty(),
    {
        let registry = MeasurementRegistry { classes: Vec::new() };
        assert(registry@ =~= Seq::<Seq<char>>::empty());
        registry
    }

    /// Registers a class under `name` and returns the index it is
    /// registered at.
    pub fn register(&mut self, name: String) -> (index: usize)
        ensures
            final(self)@ == old(self)@.push(name@),
            index == old(self)@.len(),
    {
        let ghost before = self@;
        let index = self.classes.len();
        self.classes.push(name);
        assert(self@ =~= before.push(name@));
        index
    }

    /// Looks up the class registered under `name`: the index of the first
    /// such class, or an error that carries the name if there is none.
    pub fn resolve(&self, name: &String) -> (found: Result<usize, ProddleError>)
        ensures
            match found {
                Ok(index) => {
                    &&& index < self@.len()
                    &&& self@[index as int] == name@
                    &&& forall|i: int| 0 <= i < index ==> self@[i] != name@
                },
                Err(error) => {
                    &&& !self@.contains(name@)
                    &&& error matches ProddleError::UnknownMeasurementClass(unknown)
                    &&& unknown@ == name@
                },
            },
    {
        let mut i: usize = 0;
        while i < self.classes.len()
            invariant
                i <= self.classes.len(),
                forall|j: int| 0 <= j < i ==> self@[j] != name@,
            decreases self.classes.len() - i,
        {
            if self.classes[i] == *name {
                return Ok(i);
            }
            i += 1;
        }
        Err(ProddleError::UnknownMeasurementClass(name.clone()))
    }
}

} // verus!
