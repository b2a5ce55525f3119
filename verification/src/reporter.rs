//! The progress reporter: what an observer is told while one transfer runs.
//!
//! A reporter is a small state machine. The transfer engine tells it when a
//! job is set up, how far the job has come, when its label changes and when it
//! is done; the reporter answers each of these with the line to show, if any.
//! Progress lines are rate limited, the others are not.
//!
//! The reporter reads no clock. Every call that depends on time takes the
//! current reading of a monotonic clock, in nanoseconds since an origin of the
//! caller's choosing.

use vstd::prelude::*;
use vstd::string::*;

use crate::text::{append_decimal, decimal_digits};

verus! {

/// The shortest time between two progress lines, in milliseconds.
pub const PROGRESS_INTERVAL_MILLIS: u128 = 1000;

/// Nanoseconds in a millisecond.
pub const NANOS_PER_MILLI: u128 = 1_000_000;

/// Whole milliseconds from the clock reading `last_update` to the reading
/// `now`; zero where the clock reads earlier than it did.
pub open spec fn elapsed_millis(last_update: u128, now: u128) -> int {
    if now >= last_update {
        (now - last_update) / (NANOS_PER_MILLI as int)
    } else {
        0
    }
}

/// Whether a progress line is due at `now`, the last one (or the setup)
/// having been at `last_update`.
pub open spec fn progress_due(last_update: u128, now: u128) -> bool {
    elapsed_millis(last_update, now) >= PROGRESS_INTERVAL_MILLIS
}

/// How the total size is shown: its decimal numeral, or a placeholder while it
/// is not known.
pub open spec fn total_text(max_progress: Option<u64>) -> Seq<char> {
    match max_progress {
        Some(bytes) => decimal_digits(bytes as nat),
        None => "{unknown}"@,
    }
}

/// The line of a progress tick: the bytes that have arrived, the total, and
/// the label in square brackets.
pub open spec fn progress_line(current: u64, max_progress: Option<u64>, message: Seq<char>) -> Seq<
    char,
> {
    decimal_digits(current as nat) + " of "@ + total_text(max_progress) + " bytes ["@ + message
        + "]"@
}

/// The line of a change of label.
pub open spec fn message_line(message: Seq<char>) -> Seq<char> {
    "test file: Message changed to: "@ + message
}

/// The line that ends a job.
pub open spec fn done_line() -> Seq<char> {
    "test file: [DONE]"@
}

/// What a reporter knows of the job it follows.
pub ghost struct ProgressState {
    /// The clock reading at setup or at the last progress line.
    pub last_update: u128,
    /// The total size, once it is known.
    pub max_progress: Option<u64>,
    /// The label of the job: the one given at setup, or the last one that
    /// was set since.
    pub message: Seq<char>,
}

/// The state of a reporter after `setup`.
pub open spec fn after_setup(now: u128, max_progress: Option<u64>, message: Seq<char>) -> Option<
    ProgressState,
> {
    Some(ProgressState { last_update: now, max_progress, message })
}

/// The state of a reporter after a progress tick at `now`, and the line it
/// emits.
pub open spec fn after_progress(state: Option<ProgressState>, now: u128, current: u64) -> (
    Option<ProgressState>,
    Option<Seq<char>>,
) {
    match state {
        None => (None, None),
        Some(job) => if progress_due(job.last_update, now) {
            (
                Some(ProgressState { last_update: now, ..job }),
                Some(progress_line(current, job.max_progress, job.message)),
            )
        } else {
            (state, None)
        },
    }
}

/// The state of a reporter after a change of label: the new label takes the
/// place of the old one; nothing else changes, and a reporter that follows no
/// job still follows none.
pub open spec fn after_set_message(state: Option<ProgressState>, message: Seq<char>) -> Option<
    ProgressState,
> {
    match state {
        None => None,
        Some(job) => Some(ProgressState { message, ..job }),
    }
}

/// The text of a line that may be absent.
pub open spec fn line_text(line: Option<String>) -> Option<Seq<char>> {
    match line {
        Some(text) => Some(text@),
        None => None,
    }
}

/// The state kept while a job is followed.
#[derive(Debug)]
struct SimpleReporterPrivate {
    last_update: u128,
    max_progress: Option<u64>,
    message: String,
}

impl View for SimpleReporterPrivate {
    type V = ProgressState;

    closed spec fn view(&self) -> ProgressState {
        ProgressState {
            last_update: self.last_update,
            max_progress: self.max_progress,
            message: self.message@,
        }
    }
}

/// A progress reporter for one job at a time.
#[derive(Debug)]
pub struct SimpleReporter {
    private: Option<SimpleReporterPrivate>,
}

impl View for SimpleReporter {
    type V = Option<ProgressState>;

    /// The state of the job that is followed, or nothing between jobs.
    closed spec fn view(&self) -> Option<ProgressState> {
        match self.private {
            Some(state) => Some(state@),
            None => None,
        }
    }
}

impl SimpleReporter {
    /// A reporter that follows no job yet.
    pub fn create() -> (reporter: Self)
        ensures
            reporter@ is None,
    {
        Self { private: None }
    }

    /// Whether a job is being followed.
    pub fn is_active(&self) -> (active: bool)
        ensures
            active == (self@ is Some),
    {
        self.private.is_some()
    }

    /// Begins to follow a job at the clock reading `now`. What was known of an
    /// earlier job is replaced.
    pub fn setup(&mut self, now: u128, max_progress: Option<u64>, message: &str)
        ensures
            final(self)@ == after_setup(now, max_progress, message@),
    {
        let message = String::from_str(message);
        self.private = Some(SimpleReporterPrivate { last_update: now, max_progress, message });
    }

    /// Takes note that `current` bytes have arrived by the clock reading
    /// `now`. Gives the line to show where one is due, and nothing otherwise
    /// or while no job is followed.
    pub fn progress(&mut self, now: u128, current: u64) -> (line: Option<String>)
        ensures
            (final(self)@, line_text(line)) == after_progress(old(self)@, now, current),
    {
        match &mut self.private {
            None => None,
            Some(state) => {
                if now >= state.last_update && (now - state.last_update) / NANOS_PER_MILLI
                    >= PROGRESS_INTERVAL_MILLIS {
                    let mut line = String::new();
                    append_decimal(&mut line, current);
                    line.append(" of ");
                    match state.max_progress {
                        Some(bytes) => append_decimal(&mut line, bytes),
                        None => line.append("{unknown}"),
                    }
                    line.append(" bytes [");
                    line.append(state.message.as_str());
                    line.append("]");
                    state.last_update = now;
                    Some(line)
                } else {
                    None
                }
            },
        }
    }

    /// Takes note of a new label and gives the line that tells of it. The
    /// line is due at once, whenever this is called and whether or not a job
    /// is followed.
    pub fn set_message(&mut self, message: &str) -> (line: String)
        ensures
            final(self)@ == after_set_message(old(self)@, message@),
            line@ == message_line(message@),
    {
        match &mut self.private {
            None => {},
            Some(state) => {
                state.message = String::from_str(message);
            },
        }
        let mut line = String::from_str("test file: Message changed to: ");
        line.append(message);
        line
    }

    /// Ends the job: forgets what was known of it and gives the closing line.
    pub fn done(&mut self) -> (line: String)
        ensures
            final(self)@ is None,
            line@ == done_line(),
    {
        self.private = None;
        String::from_str("test file: [DONE]")
    }
}

/// Progress lines are rate limited.
///
/// While a job is followed, a progress tick that comes less than a second
/// after the setup or the last progress line emits nothing and changes
/// nothing. A tick that comes a second after it or later emits one line, and
/// the second is counted anew from that tick: another tick less than a second
/// after it emits nothing.
pub proof fn lemma_progress_is_rate_limited(
    job: ProgressState,
    now: u128,
    current: u64,
    later: u128,
    later_current: u64,
)
    ensures
        now < job.last_update + PROGRESS_INTERVAL_MILLIS * NANOS_PER_MILLI ==> after_progress(
            Some(job),
            now,
            current,
        ) == (Some(job), None::<Seq<char>>),
        now >= job.last_update + PROGRESS_INTERVAL_MILLIS * NANOS_PER_MILLI ==> after_progress(
            Some(job),
            now,
            current,
        ) == (
            after_setup(now, job.max_progress, job.message),
            Some(progress_line(current, job.max_progress, job.message)),
        ),
        now >= job.last_update + PROGRESS_INTERVAL_MILLIS * NANOS_PER_MILLI && later < now
            + PROGRESS_INTERVAL_MILLIS * NANOS_PER_MILLI ==> after_progress(
            after_progress(Some(job), now, current).0,
            later,
            later_current,
        ).1 is None,
{
}

/// The clock readings at which progress lines are emitted when the ticks
/// `ticks`, each a clock reading and a number of bytes, come one after the
/// other to a reporter in the state `state`.
pub open spec fn emission_times(state: Option<ProgressState>, ticks: Seq<(u128, u64)>) -> Seq<u128>
    decreases ticks.len(),
{
    if ticks.len() == 0 {
        Seq::empty()
    } else {
        let after = after_progress(state, ticks[0].0, ticks[0].1);
        let rest = emission_times(after.0, ticks.drop_first());
        if after.1 is Some {
            seq![ticks[0].0] + rest
        } else {
            rest
        }
    }
}

/// Progress does not flood the observer.
///
/// Whatever ticks come and however fast, the first progress line is emitted a
/// second or more after the setup or the last line before it, any two lines
/// that follow each other are a second or more apart, and a reporter that
/// follows no job emits none.
pub proof fn lemma_progress_lines_are_a_second_apart(
    state: Option<ProgressState>,
    ticks: Seq<(u128, u64)>,
)
    ensures
        state is None ==> emission_times(state, ticks).len() == 0,
        state is Some && emission_times(state, ticks).len() > 0 ==> emission_times(state, ticks)[0]
            >= state->Some_0.last_update + PROGRESS_INTERVAL_MILLIS * NANOS_PER_MILLI,
        forall|k: int|
            1 <= k < emission_times(state, ticks).len() ==> #[trigger] emission_times(
                state,
                ticks,
            )[k] >= emission_times(state, ticks)[k - 1] + PROGRESS_INTERVAL_MILLIS
                * NANOS_PER_MILLI,
    decreases ticks.len(),
{
    if ticks.len() > 0 {
        let times = emission_times(state, ticks);
        let after = after_progress(state, ticks[0].0, ticks[0].1);
        let rest = emission_times(after.0, ticks.drop_first());
        lemma_progress_lines_are_a_second_apart(after.0, ticks.drop_first());
        if after.1 is Some {
            assert forall|k: int| 1 <= k < times.len() implies #[trigger] times[k] >= times[k - 1]
                + PROGRESS_INTERVAL_MILLIS * NANOS_PER_MILLI by {
                assert(times[k] == rest[k - 1]);
                if k > 1 {
                    assert(times[k - 1] == rest[k - 2]);
                }
            }
        }
    }
}

/// A change of label leaves the rate limit alone: whether a progress tick
/// emits a line, and the clock reading kept afterwards, are the same with
/// and without a change of label before the tick.
pub proof fn lemma_set_message_keeps_the_rate_limit(
    state: Option<ProgressState>,
    message: Seq<char>,
    now: u128,
    current: u64,
)
    ensures
        after_progress(after_set_message(state, message), now, current).1 is Some
            <==> after_progress(state, now, current).1 is Some,
        after_progress(after_set_message(state, message), now, current).0 == after_set_message(
            after_progress(state, now, current).0,
            message,
        ),
{
}

/// After `done`, progress is ignored: while no job is followed, a progress
/// tick emits nothing and changes nothing, whatever the clock reads.
pub proof fn lemma_progress_without_job_is_ignored(now: u128, current: u64)
    ensures
        after_progress(None, now, current) == (None::<ProgressState>, None::<Seq<char>>),
{
}

} // verus!
