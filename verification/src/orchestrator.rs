//! The download orchestrator: one sequential pass over the days of a run.
//!
//! The orchestrator decides; a driver acts. The driver asks for the next
//! [`Step`], telling the orchestrator which day it is. Where the step is a
//! fetch, the driver performs it, waits for its outcome and shows the line
//! that [`FetchOutcome::log_line`] gives for it, success or failure alike,
//! before it asks again. Where the step is a stop, the run is over.

use vstd::prelude::*;
use vstd::string::*;

use crate::date::{
    day_number, days_from, iso_string, lemma_days_from_consecutive, lemma_days_from_distinct, Date,
    DateError, DateRange,
};
use crate::reporter::SimpleReporter;

verus! {

/// The static configuration of a run.
#[derive(Debug)]
pub struct Config {
    /// The first day to fetch.
    pub start_date: Date,
    /// The largest number of days to walk through.
    pub max_days: usize,
    /// What every address begins with.
    pub url_prefix: String,
    /// Where the transfer engine puts what it has fetched.
    pub download_folder: String,
    /// How many jobs the transfer engine may run at a time.
    pub concurrency: u16,
}

/// How a fetch ended.
#[derive(Debug, PartialEq, Eq)]
pub enum FetchOutcome {
    /// The report was stored; the payload says where.
    Success(String),
    /// The fetch failed; the payload says why.
    Failure(String),
}

/// One unit of work: an address, and the reporter that follows its transfer.
#[derive(Debug)]
pub struct FetchJob {
    /// Where the report is fetched from.
    pub url: String,
    /// The reporter of this job and of no other.
    pub reporter: SimpleReporter,
}

/// Where a run stands.
#[derive(Clone, Copy, Debug, PartialEq, Eq, Structural)]
pub enum Phase {
    /// Days may still be fetched.
    Running,
    /// The run is over: it came to the current day.
    ReachedToday,
    /// The run is over: it ran out of days.
    Exhausted,
}

/// What the driver is to do next.
#[derive(Debug)]
pub enum Step {
    /// Perform this job, then ask again.
    Fetch(FetchJob),
    /// Stop: the next day of the run is the current day.
    ReachedToday,
    /// Stop: every day of the run has been dealt with.
    Exhausted,
}

/// A step, as far as the run is concerned.
pub ghost enum Decision {
    Fetch { url: Seq<char> },
    ReachedToday,
    Exhausted,
}

/// A run, as far as its steps are concerned.
pub ghost struct RunState {
    /// The configuration the run was started with.
    pub config: Config,
    /// The days not yet looked at, in order.
    pub pending: Seq<Date>,
    /// Whether the run goes on, and if not, why.
    pub phase: Phase,
}

/// The address of the report of `date`.
pub open spec fn report_url_text(prefix: Seq<char>, date: Date) -> Seq<char> {
    prefix + "/DPA_Sales_Report_FS/DPA_sales_report_"@ + date.iso_text() + ".xls"@
}

/// The line that tells of an outcome.
pub open spec fn outcome_line(outcome: FetchOutcome) -> Seq<char> {
    match outcome {
        FetchOutcome::Success(stored) => "Success: "@ + stored@,
        FetchOutcome::Failure(reason) => "Error: "@ + reason@,
    }
}

/// The line that tells that the run came to the current day.
pub open spec fn reached_today_line() -> Seq<char> {
    "reached today"@
}

/// The state of a run before its first step.
pub open spec fn initial_state(config: Config) -> RunState {
    RunState {
        config,
        pending: days_from(config.start_date, config.max_days as nat),
        phase: Phase::Running,
    }
}

/// One step of a run on the day `today`: the state it leaves and what it
/// decides.
///
/// A run that is over stays over. A run that goes on looks at its next day:
/// it ends where there is none, it ends without a fetch where that day is
/// `today`, and it fetches that day's report otherwise.
pub open spec fn after_advance(state: RunState, today: Date) -> (RunState, Decision) {
    match state.phase {
        Phase::ReachedToday => (state, Decision::ReachedToday),
        Phase::Exhausted => (state, Decision::Exhausted),
        Phase::Running => if state.pending.len() == 0 {
            (RunState { phase: Phase::Exhausted, ..state }, Decision::Exhausted)
        } else if state.pending[0] == today {
            (
                RunState {
                    phase: Phase::ReachedToday,
                    pending: state.pending.drop_first(),
                    ..state
                },
                Decision::ReachedToday,
            )
        } else {
            let url = report_url_text(state.config.url_prefix@, state.pending[0]);
            (RunState { pending: state.pending.drop_first(), ..state }, Decision::Fetch { url })
        },
    }
}

/// The address of the report of `date`.
pub fn report_url(prefix: &str, date: Date) -> (url: String)
    requires
        date.is_valid(),
    ensures
        url@ == report_url_text(prefix@, date),
{
    let mut url = String::from_str(prefix);
    url.append("/DPA_Sales_Report_FS/DPA_sales_report_");
    let day = iso_string(date);
    url.append(day.as_str());
    url.append(".xls");
    url
}

impl FetchOutcome {
    /// The line to show for this outcome.
    pub fn log_line(&self) -> (line: String)
        ensures
            line@ == outcome_line(*self),
    {
        match self {
            FetchOutcome::Success(stored) => {
                let mut line = String::from_str("Success: ");
                line.append(stored.as_str());
                line
            },
            FetchOutcome::Failure(reason) => {
                let mut line = String::from_str("Error: ");
                line.append(reason.as_str());
                line
            },
        }
    }
}

impl View for Step {
    type V = Decision;

    /// What the step decides. The reporter of a fetch is no part of the
    /// decision; [`Orchestrator::advance`] says of it that it follows no job.
    open spec fn view(&self) -> Decision {
        match *self {
            Step::Fetch(job) => Decision::Fetch { url: job.url@ },
            Step::ReachedToday => Decision::ReachedToday,
            Step::Exhausted => Decision::Exhausted,
        }
    }
}

impl Step {
    /// The line to show for this step: one for the stop at the current day,
    /// none for any other step.
    pub fn log_line(&self) -> (line: Option<String>)
        ensures
            *self is ReachedToday ==> line is Some && line->Some_0@ == reached_today_line(),
            !(*self is ReachedToday) ==> line is None,
    {
        match self {
            Step::ReachedToday => Some(String::from_str("reached today")),
            _ => None,
        }
    }
}

/// The orchestrator of one run.
#[derive(Debug)]
pub struct Orchestrator {
    config: Config,
    range: DateRange,
    phase: Phase,
}

impl View for Orchestrator {
    type V = RunState;

    closed spec fn view(&self) -> RunState {
        RunState { config: self.config, pending: self.range@, phase: self.phase }
    }
}

impl Orchestrator {
    /// An orchestrator at the start of the run that `config` describes. A
    /// start date that is no day of the calendar is refused.
    pub fn new(config: Config) -> (made: Result<Orchestrator, DateError>)
        ensures
            config.start_date.is_valid() ==> made is Ok && made->Ok_0@ == initial_state(config),
            !config.start_date.is_valid() ==> made is Err && made->Err_0 == DateError::InvalidDate,
    {
        match DateRange::new(config.start_date, config.max_days) {
            Ok(range) => Ok(Orchestrator { config, range, phase: Phase::Running }),
            Err(refused) => Err(refused),
        }
    }

    /// The configuration of the run.
    pub fn config(&self) -> (config: &Config)
        ensures
            *config == self@.config,
    {
        &self.config
    }

    /// Where the run stands.
    pub fn phase(&self) -> (phase: Phase)
        ensures
            phase == self@.phase,
    {
        self.phase
    }

    /// Decides the next step of the run on the day `today`.
    ///
    /// A fetch comes with a reporter of its own that follows no job yet.
    pub fn advance(&mut self, today: Date) -> (step: Step)
        ensures
            (final(self)@, step@) == after_advance(old(self)@, today),
            step matches Step::Fetch(job) ==> job.reporter@ is None,
    {
        match self.phase {
            Phase::ReachedToday => Step::ReachedToday,
            Phase::Exhausted => Step::Exhausted,
            Phase::Running => {
                match self.range.next() {
                    None => {
                        self.phase = Phase::Exhausted;
                        Step::Exhausted
                    },
                    Some(date) => {
                        if date == today {
                            self.phase = Phase::ReachedToday;
                            Step::ReachedToday
                        } else {
                            let url = report_url(self.config.url_prefix.as_str(), date);
                            Step::Fetch(FetchJob { url, reporter: SimpleReporter::create() })
                        }
                    },
                }
            },
        }
    }
}

/// The state of a run after `steps` steps, the current day being `today` at
/// each of them.
pub open spec fn state_after(state: RunState, today: Date, steps: nat) -> RunState
    decreases steps,
{
    if steps == 0 {
        state
    } else {
        state_after(after_advance(state, today).0, today, (steps - 1) as nat)
    }
}

/// What the step at place `index` of a run decides, counted from zero, the
/// current day being `today` at each step.
pub open spec fn decision_at(state: RunState, today: Date, index: nat) -> Decision {
    after_advance(state_after(state, today, index), today).1
}

/// A run stops at the current day.
///
/// Where the current day is among the days of a run, the run fetches the
/// reports of the days before it, in order and one per step, then stops
/// without a fetch for the current day, and no later step fetches anything.
/// Every day that is fetched lies before the current day: neither the current
/// day nor any day after it is ever fetched.
pub proof fn lemma_run_stops_at_today(config: Config, today: Date, place: int)
    requires
        config.start_date.is_valid(),
        0 <= place < initial_state(config).pending.len(),
        initial_state(config).pending[place] == today,
    ensures
        forall|i: nat|
            i < place ==> #[trigger] decision_at(initial_state(config), today, i) == (
            Decision::Fetch {
                url: report_url_text(config.url_prefix@, initial_state(config).pending[i as int]),
            }),
        forall|i: nat|
            i >= place ==> #[trigger] decision_at(initial_state(config), today, i)
                == Decision::ReachedToday,
        forall|i: nat|
            i > place ==> #[trigger] state_after(initial_state(config), today, i).phase
                == Phase::ReachedToday,
        forall|i: int|
            0 <= i < place ==> day_number(#[trigger] initial_state(config).pending[i]) < day_number(
                today,
            ),
{
    let state = initial_state(config);
    lemma_days_from_consecutive(config.start_date, config.max_days as nat);
    assert forall|j: int| 0 <= j < place implies state.pending[j] != today by {
        lemma_days_from_distinct(config.start_date, config.max_days as nat, j, place);
    }
    lemma_run_stops_at_first_match(state, today, place);
}

/// A run stops at the first of its days that is the current day.
///
/// This is [`lemma_run_stops_at_today`] for a run at any point of its course:
/// where `place` is the first place among the days still before it at which
/// the current day stands, the run fetches the days before that place, then
/// stops for good.
pub proof fn lemma_run_stops_at_first_match(state: RunState, today: Date, place: int)
    requires
        state.phase == Phase::Running,
        0 <= place < state.pending.len(),
        state.pending[place] == today,
        forall|j: int| 0 <= j < place ==> state.pending[j] != today,
    ensures
        forall|i: nat|
            i < place ==> #[trigger] decision_at(state, today, i) == (Decision::Fetch {
                url: report_url_text(state.config.url_prefix@, state.pending[i as int]),
            }),
        forall|i: nat|
            i >= place ==> #[trigger] decision_at(state, today, i) == Decision::ReachedToday,
        forall|i: nat|
            i > place ==> #[trigger] state_after(state, today, i).phase == Phase::ReachedToday,
    decreases place,
{
    let next = after_advance(state, today).0;
    if place == 0 {
        assert forall|i: nat| i > place implies #[trigger] state_after(state, today, i).phase
            == Phase::ReachedToday by {
            lemma_stopped_run_stays(next, today, (i - 1) as nat);
        }
        assert forall|i: nat| i >= place implies #[trigger] decision_at(state, today, i)
            == Decision::ReachedToday by {
            if i > 0 {
                lemma_stopped_run_stays(next, today, (i - 1) as nat);
            }
        }
    } else {
        assert forall|j: int| 0 <= j < place - 1 implies next.pending[j] != today by {
            assert(next.pending[j] == state.pending[j + 1]);
        }
        lemma_run_stops_at_first_match(next, today, place - 1);
        assert forall|i: nat| i < place implies #[trigger] decision_at(state, today, i) == (
        Decision::Fetch {
            url: report_url_text(state.config.url_prefix@, state.pending[i as int]),
        }) by {
            if i > 0 {
                assert(decision_at(state, today, i) == decision_at(next, today, (i - 1) as nat));
            }
        }
        assert forall|i: nat| i >= place implies #[trigger] decision_at(state, today, i)
            == Decision::ReachedToday by {
            assert(decision_at(state, today, i) == decision_at(next, today, (i - 1) as nat));
        }
        assert forall|i: nat| i > place implies #[trigger] state_after(state, today, i).phase
            == Phase::ReachedToday by {
            assert(state_after(state, today, i) == state_after(next, today, (i - 1) as nat));
        }
    }
}

/// A run that never comes to the current day fetches every day it has.
///
/// Where the current day is none of the days that a run still has before it,
/// the run fetches the reports of all of them, in order and one per step,
/// then stops, and no later step fetches anything.
pub proof fn lemma_run_exhausts_its_days(state: RunState, today: Date)
    requires
        state.phase == Phase::Running,
        forall|j: int| 0 <= j < state.pending.len() ==> state.pending[j] != today,
    ensures
        forall|i: nat|
            i < state.pending.len() ==> #[trigger] decision_at(state, today, i) == (
            Decision::Fetch {
                url: report_url_text(state.config.url_prefix@, state.pending[i as int]),
            }),
        forall|i: nat|
            i >= state.pending.len() ==> #[trigger] decision_at(state, today, i)
                == Decision::Exhausted,
    decreases state.pending.len(),
{
    let next = after_advance(state, today).0;
    if state.pending.len() == 0 {
        assert forall|i: nat| i >= state.pending.len() implies #[trigger] decision_at(
            state,
            today,
            i,
        ) == Decision::Exhausted by {
            if i > 0 {
                lemma_stopped_run_stays(next, today, (i - 1) as nat);
            }
        }
    } else {
        assert forall|j: int| 0 <= j < next.pending.len() implies next.pending[j] != today by {
            assert(next.pending[j] == state.pending[j + 1]);
        }
        lemma_run_exhausts_its_days(next, today);
        assert forall|i: nat| i < state.pending.len() implies #[trigger] decision_at(
            state,
            today,
            i,
        ) == (Decision::Fetch {
            url: report_url_text(state.config.url_prefix@, state.pending[i as int]),
        }) by {
            if i > 0 {
                assert(decision_at(state, today, i) == decision_at(next, today, (i - 1) as nat));
            }
        }
        assert forall|i: nat| i >= state.pending.len() implies #[trigger] decision_at(
            state,
            today,
            i,
        ) == Decision::Exhausted by {
            assert(decision_at(state, today, i) == decision_at(next, today, (i - 1) as nat));
        }
    }
}

/// What the steps of a run decide when they take place on the days `todays`,
/// the first step on the first of them, the next on the next, and so on.
pub open spec fn decisions(state: RunState, todays: Seq<Date>) -> Seq<Decision>
    decreases todays.len(),
{
    if todays.len() == 0 {
        Seq::empty()
    } else {
        let after = after_advance(state, todays[0]);
        seq![after.1] + decisions(after.0, todays.drop_first())
    }
}

/// Each day of a run is compared with the current day of its own step.
///
/// The current day may change while a run goes on. Where the days of the run
/// before `place` each differ from the current day of the step that looks at
/// them, those steps fetch them, in order and one per step. Where the day at
/// `place` is the current day of its step, that step and all after it stop at
/// the current day; where there is no day at `place`, that step and all after
/// it stop for want of days.
pub proof fn lemma_each_day_meets_the_day_of_its_step(
    state: RunState,
    todays: Seq<Date>,
    place: int,
)
    requires
        state.phase == Phase::Running,
        0 <= place <= todays.len(),
        place <= state.pending.len(),
        forall|j: int| 0 <= j < place ==> state.pending[j] != todays[j],
    ensures
        decisions(state, todays).len() == todays.len(),
        forall|i: int|
            0 <= i < place ==> #[trigger] decisions(state, todays)[i] == (Decision::Fetch {
                url: report_url_text(state.config.url_prefix@, state.pending[i]),
            }),
        place < todays.len() && place < state.pending.len() && state.pending[place]
            == todays[place] ==> forall|i: int|
            place <= i < todays.len() ==> #[trigger] decisions(state, todays)[i]
                == Decision::ReachedToday,
        place < todays.len() && place == state.pending.len() ==> forall|i: int|
            place <= i < todays.len() ==> #[trigger] decisions(state, todays)[i]
                == Decision::Exhausted,
    decreases todays.len(),
{
    if todays.len() > 0 {
        let all = decisions(state, todays);
        let after = after_advance(state, todays[0]);
        let later = todays.drop_first();
        let rest = decisions(after.0, later);
        assert(all =~= seq![after.1] + rest);
        if after.0.phase != Phase::Running {
            lemma_stopped_run_repeats_its_stop(after.0, later);
            assert forall|i: int| 0 <= i < todays.len() implies #[trigger] all[i] == after.1 by {
                if i > 0 {
                    assert(all[i] == rest[i - 1]);
                }
            }
        } else {
            let ahead = if place > 0 {
                place - 1
            } else {
                0
            };
            assert forall|j: int| 0 <= j < ahead implies after.0.pending[j] != later[j] by {
                assert(after.0.pending[j] == state.pending[j + 1]);
                assert(later[j] == todays[j + 1]);
            }
            lemma_each_day_meets_the_day_of_its_step(after.0, later, ahead);
            assert forall|i: int| 0 <= i < place implies #[trigger] all[i] == (Decision::Fetch {
                url: report_url_text(state.config.url_prefix@, state.pending[i]),
            }) by {
                if i > 0 {
                    assert(all[i] == rest[i - 1]);
                    assert(after.0.pending[i - 1] == state.pending[i]);
                }
            }
            if place > 0 && place < todays.len() {
                if place < state.pending.len() {
                    assert(after.0.pending[ahead] == state.pending[place]);
                    assert(later[ahead] == todays[place]);
                }
                assert forall|i: int| place <= i < todays.len() implies all[i] == rest[i - 1] by {}
            }
        }
    }
}

/// A run that is over repeats its stop at every further step, on whatever
/// days those steps take place.
pub proof fn lemma_stopped_run_repeats_its_stop(state: RunState, todays: Seq<Date>)
    requires
        state.phase != Phase::Running,
    ensures
        decisions(state, todays).len() == todays.len(),
        forall|i: int|
            0 <= i < todays.len() ==> #[trigger] decisions(state, todays)[i] == (if state.phase
                == Phase::ReachedToday {
                Decision::ReachedToday
            } else {
                Decision::Exhausted
            }),
    decreases todays.len(),
{
    if todays.len() > 0 {
        let all = decisions(state, todays);
        let rest = decisions(state, todays.drop_first());
        lemma_stopped_run_repeats_its_stop(state, todays.drop_first());
        assert(all =~= seq![after_advance(state, todays[0]).1] + rest);
        assert forall|i: int| 0 <= i < todays.len() implies #[trigger] all[i] == (if state.phase
            == Phase::ReachedToday {
            Decision::ReachedToday
        } else {
            Decision::Exhausted
        }) by {
            if i > 0 {
                assert(all[i] == rest[i - 1]);
            }
        }
    }
}

/// A run that is over stays over: a further step, on whatever day it takes
/// place, leaves the run as it is and repeats the stop, and so does any
/// number of further steps.
pub proof fn lemma_stopped_run_stays(state: RunState, today: Date, steps: nat)
    requires
        state.phase != Phase::Running,
    ensures
        forall|day: Date| (#[trigger] after_advance(state, day)).0 == state,
        forall|day: Date| !((#[trigger] after_advance(state, day)).1 is Fetch),
        state_after(state, today, steps) == state,
        decision_at(state, today, steps) == (if state.phase == Phase::ReachedToday {
            Decision::ReachedToday
        } else {
            Decision::Exhausted
        }),
    decreases steps,
{
    if steps > 0 {
        lemma_stopped_run_stays(state, today, (steps - 1) as nat);
    }
}

} // verus!
