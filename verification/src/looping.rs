//! Repeating jobs: `/loop [Nm] REQUEST` sends a request again and again.
//!
//! Times are nanoseconds on a monotonic clock of the caller's choice, and intervals
//! whole seconds.

use crate::encoding::{byte_len, byte_length};
use crate::events::{AgentEvent, AgentEventView};
use crate::controls::{AdapterControl, ControlView};
use crate::session::{Effect, EffectView};
use crate::text::{
    append_decimal, append_text, blank, decimal, digit, is_blank, is_digit, parse_number, parse_u64,
    same, slice, slice_to_string, to_chars, to_text, trim, trimmed, word_end, word_length,
};
use vstd::prelude::*;

verus! {

pub const USAGE: &'static str = "/loop [Nm] REQUEST | /loop stop";

/// The nanoseconds of a second.
pub const SECOND: u128 = 1_000_000_000;

/// The last time that the clock can show: it counts seconds in 63 bits.
pub const LAST_TIME: u128 = 9_223_372_036_854_775_807_999_999_999;

#[derive(Clone, Debug, Eq, PartialEq)]
pub enum Command {
    Show,
    Stop,
    Start { interval: u64, prompt: String },
}

/// What a command holds.
pub enum CommandView {
    Show,
    Stop,
    Start { interval: u64, prompt: Seq<char> },
}

impl View for Command {
    type V = CommandView;

    open spec fn view(&self) -> CommandView {
        match self {
            Command::Show => CommandView::Show,
            Command::Stop => CommandView::Stop,
            Command::Start { interval, prompt } => CommandView::Start {
                interval: *interval,
                prompt: prompt@,
            },
        }
    }
}

/// Whether a word is meant as an interval.
pub open spec fn is_numeric(word: Seq<char>) -> bool {
    word.len() > 0 && (is_digit(word[0]) || word[0] == '-' || word[0] == '+')
}

/// The interval that a word such as `5m` or `5` names: positive whole minutes that
/// the clock can still reach from `now`.
pub open spec fn interval_of(word: Seq<char>, now: u128) -> Option<u64> {
    let minutes = if word.len() > 0 && word.last() == 'm' {
        word.drop_last()
    } else {
        word
    };
    match parse_number(minutes, u64::MAX as nat) {
        Some(n) if 0 < n && n * 60 <= u64::MAX && now + n * 60 * SECOND <= LAST_TIME => Some(
            (n * 60) as u64,
        ),
        _ => None,
    }
}

/// Whether a text can be sent again and again: not empty, at most 16000 bytes, and
/// no command itself.
pub open spec fn is_request(prompt: Seq<char>) -> bool {
    prompt.len() > 0 && byte_len(prompt) <= 16_000 && prompt[0] != '/'
}

/// What the text behind `/loop` asks for, or what is wrong with it.
pub open spec fn parsed(input: Seq<char>, now: u128) -> Result<CommandView, Seq<char>> {
    let written = trim(input);
    let first = written.take(word_length(written));
    let rest = if word_length(written) < written.len() {
        written.skip(word_length(written) + 1)
    } else {
        Seq::empty()
    };
    let timed = is_numeric(first);
    let prompt = if timed {
        trim(rest)
    } else {
        written
    };
    if written.len() == 0 {
        Ok(CommandView::Show)
    } else if written == "stop"@ {
        Ok(CommandView::Stop)
    } else if timed && interval_of(first, now) is None {
        Err(
            "interval must be positive whole minutes; usage: /loop [Nm] REQUEST | /loop stop"@,
        )
    } else if !is_request(prompt) {
        Err("provide a request (up to 16000 bytes); usage: /loop [Nm] REQUEST | /loop stop"@)
    } else {
        Ok(
            CommandView::Start {
                interval: if timed {
                    interval_of(first, now).unwrap()
                } else {
                    0
                },
                prompt,
            },
        )
    }
}

fn read_interval(word: &Vec<char>, now: u128) -> (interval: Option<u64>)
    ensures
        interval == interval_of(word@, now),
{
    let end: usize = if word.len() > 0 && word[word.len() - 1] == 'm' {
        word.len() - 1
    } else {
        word.len()
    };
    let digits = slice_to_string(word, 0, end);
    assert(digits@ =~= if word@.len() > 0 && word@.last() == 'm' {
        word@.drop_last()
    } else {
        word@
    });
    match parse_u64(digits.as_str(), u64::MAX) {
        Some(n) => if n == 0 || n > u64::MAX / 60 || now > LAST_TIME || (n * 60) as u128 * SECOND
            > LAST_TIME - now {
            None
        } else {
            Some(n * 60)
        },
        None => None,
    }
}

impl Command {
    /// Reads the text behind `/loop`.
    pub fn parse(input: &str, now: u128) -> (command: Result<Command, String>)
        ensures
            match command {
                Ok(found) => parsed(input@, now) == Ok::<CommandView, Seq<char>>(found@),
                Err(problem) => parsed(input@, now) == Err::<CommandView, Seq<char>>(problem@),
            },
    {
        let written = trimmed(&to_chars(input));
        if written.len() == 0 {
            return Ok(Command::Show);
        }
        if same(to_text(&written).as_str(), "stop") {
            return Ok(Command::Stop);
        }
        let end = word_end(&written);
        let first = slice(&written, 0, end);
        assert(first@ =~= written@.take(word_length(written@)));
        let timed: bool = first.len() > 0 && (digit(first[0]) || first[0] == '-' || first[0] == '+');
        let interval: u64 = if timed {
            match read_interval(&first, now) {
                Some(interval) => interval,
                None => {
                    return Err(
                        "interval must be positive whole minutes; usage: /loop [Nm] REQUEST | /loop stop".to_owned(),
                    );
                },
            }
        } else {
            0
        };
        let prompt = if timed {
            let start: usize = if end < written.len() {
                end + 1
            } else {
                end
            };
            let rest = slice(&written, start, written.len());
            assert(rest@ =~= if word_length(written@) < written@.len() {
                written@.skip(word_length(written@) + 1)
            } else {
                Seq::empty()
            });
            trimmed(&rest)
        } else {
            written
        };
        let text = to_text(&prompt);
        if prompt.len() == 0 || byte_length(text.as_str()) > 16_000 || prompt[0] == '/' {
            return Err(
                "provide a request (up to 16000 bytes); usage: /loop [Nm] REQUEST | /loop stop".to_owned(),
            );
        }
        Ok(Command::Start { interval, prompt: text })
    }
}

/// A request that is sent again and again.
#[derive(Debug)]
pub struct Job {
    pub prompt: String,
    pub target: usize,
    pub interval: u64,
    due: u128,
    running: bool,
}

/// The state of a job.
pub struct JobView {
    pub prompt: Seq<char>,
    pub target: usize,
    pub interval: u64,
    /// When it may start next.
    pub due: u128,
    /// It has been sent and is not done.
    pub running: bool,
}

impl View for Job {
    type V = JobView;

    closed spec fn view(&self) -> JobView {
        JobView {
            prompt: self.prompt@,
            target: self.target,
            interval: self.interval,
            due: self.due,
            running: self.running,
        }
    }
}

/// Whether a job may start.
pub open spec fn may_start(job: JobView, now: u128, busy: bool) -> bool {
    !job.running && !busy && now >= job.due
}

/// The job after it was sent.
pub open spec fn started(job: JobView, now: u128) -> JobView {
    JobView { running: true, due: (now + job.interval * SECOND) as u128, ..job }
}

/// Whether an event ends a job: the end of the relay batch, or outside a relay the
/// end of the turn.
pub open spec fn ends_job(event: AgentEventView, relay: bool) -> bool {
    event is BatchComplete || (!relay && event is TurnComplete)
}

/// The job after an event.
pub open spec fn observed(job: JobView, event: AgentEventView, relay: bool) -> JobView {
    if ends_job(event, relay) {
        JobView { running: false, ..job }
    } else {
        job
    }
}

/// The line that shows a job.
pub open spec fn job_line(job: JobView) -> Seq<char> {
    let cadence = if job.interval == 0 {
        "after each completed job"@
    } else {
        "every "@ + decimal((job.interval / 60) as nat) + "m"@
    };
    "loop "@ + cadence + " · agent "@ + decimal((job.target + 1) as nat) + " · "@ + job.prompt
        + " · /loop stop"@
}

/// A job never overlaps itself: once sent it may not start again before an event
/// that ends it, whatever the time.
pub proof fn law_jobs_do_not_overlap(
    job: JobView,
    now: u128,
    event: AgentEventView,
    relay: bool,
    later: u128,
    busy: bool,
)
    requires
        now + job.interval * SECOND <= LAST_TIME,
        !ends_job(event, relay),
    ensures
        !may_start(started(job, now), later, busy),
        !may_start(observed(started(job, now), event, relay), later, busy),
{
}

/// The interval runs from start to start, and a late start is not caught up: a
/// finished job may start again exactly from its last start plus the interval on.
pub proof fn law_intervals_run_from_start_to_start(
    job: JobView,
    now: u128,
    event: AgentEventView,
    relay: bool,
    later: u128,
)
    requires
        now + job.interval * SECOND <= LAST_TIME,
        ends_job(event, relay),
    ensures
        may_start(observed(started(job, now), event, relay), later, false) <==> later >= now
            + job.interval * SECOND,
{
}

impl Job {
    pub fn new(prompt: String, target: usize, interval: u64, now: u128) -> (job: Self)
        ensures
            job@ == (JobView { prompt: prompt@, target, interval, due: now, running: false }),
    {
        Job { prompt, target, interval, due: now, running: false }
    }

    pub fn ready(&self, now: u128, busy: bool) -> (yes: bool)
        ensures
            yes == may_start(self@, now, busy),
    {
        !self.running && !busy && now >= self.due
    }

    /// The job was sent.
    pub fn dispatched(&mut self, now: u128)
        requires
            now + old(self)@.interval * SECOND <= LAST_TIME,
        ensures
            final(self)@ == started(old(self)@, now),
    {
        self.running = true;
        self.due = now + self.interval as u128 * SECOND;
    }

    pub fn observe(&mut self, event: &AgentEvent, relay: bool)
        ensures
            final(self)@ == observed(old(self)@, event@, relay),
    {
        match event {
            AgentEvent::BatchComplete { elapsed } => {
                self.running = false;
            },
            AgentEvent::TurnComplete { slot } => {
                if !relay {
                    self.running = false;
                }
            },
            _ => {},
        }
    }

    pub fn status(&self) -> (line: String)
        requires
            self@.target < usize::MAX,
        ensures
            line@ == job_line(self@),
    {
        let mut line = to_chars("loop ");
        if self.interval == 0 {
            append_text(&mut line, "after each completed job");
        } else {
            let mut cadence = to_chars("every ");
            append_decimal(&mut cadence, self.interval / 60);
            append_text(&mut cadence, "m");
            crate::text::append_chars(&mut line, &cadence);
        }
        append_text(&mut line, " · agent ");
        append_decimal(&mut line, (self.target + 1) as u64);
        append_text(&mut line, " · ");
        append_text(&mut line, self.prompt.as_str());
        append_text(&mut line, " · /loop stop");
        to_text(&line)
    }
}

/// The contents of an optional job.
pub open spec fn job_in(job: Option<Job>) -> Option<JobView> {
    match job {
        Some(value) => Some(value@),
        None => None,
    }
}

/// The job and whether the agents are busy, after an event. A changed roster or a
/// failed agent invalidates the retained recipient and run.
pub open spec fn followed(job: Option<JobView>, busy: bool, event: AgentEventView, relay: bool) -> (
    Option<JobView>,
    bool,
) {
    let seen = match job {
        Some(value) => Some(observed(value, event, relay)),
        None => None,
    };
    match event {
        AgentEventView::TurnStarted { slot } => (seen, true),
        AgentEventView::BatchComplete { elapsed } => (seen, false),
        AgentEventView::TurnComplete { slot } => (seen, busy && relay),
        AgentEventView::Failed { slot, started, detail } => (None, false),
        AgentEventView::UsageLimitReached { slot, detail } => (None, false),
        AgentEventView::RosterUpdated { update } => (None, busy),
        _ => (seen, busy),
    }
}

/// Track the complete job rather than the idle gap between relay peers.
pub fn observe(job: &mut Option<Job>, busy: &mut bool, event: &AgentEvent, relay: bool)
    ensures
        (job_in(*final(job)), *final(busy)) == followed(job_in(*old(job)), *old(busy), event@, relay),
{
    if let Some(mut value) = job.take() {
        value.observe(event, relay);
        *job = Some(value);
    }
    match event {
        AgentEvent::TurnStarted { slot } => {
            *busy = true;
        },
        AgentEvent::BatchComplete { elapsed } => {
            *busy = false;
        },
        AgentEvent::TurnComplete { slot } => {
            if !relay {
                *busy = false;
            }
        },
        AgentEvent::Failed { slot, started, detail } => {
            *job = None;
            *busy = false;
        },
        AgentEvent::UsageLimitReached { slot, detail } => {
            *job = None;
            *busy = false;
        },
        AgentEvent::RosterUpdated { update } => {
            *job = None;
        },
        _ => {},
    }
}

/// What is repeated, and whether the agents are busy.
pub struct RepeaterView {
    pub job: Option<JobView>,
    pub busy: bool,
}

/// The repeated request of a conversation.
#[derive(Debug)]
pub struct Repeater {
    job: Option<Job>,
    busy: bool,
}

impl View for Repeater {
    type V = RepeaterView;

    closed spec fn view(&self) -> RepeaterView {
        RepeaterView { job: job_in(self.job), busy: self.busy }
    }
}

/// What the text behind `/loop` does, and what the person is told. A new job takes the
/// place of the one before.
pub open spec fn asked(repeater: RepeaterView, text: Seq<char>, target: usize, now: u128) -> (
    RepeaterView,
    Seq<char>,
) {
    match parsed(text, now) {
        Err(problem) => (repeater, problem),
        Ok(CommandView::Show) => match repeater.job {
            Some(job) => (repeater, job_line(job)),
            None => (repeater, "no active loop"@),
        },
        Ok(CommandView::Stop) => match repeater.job {
            Some(_) => (RepeaterView { job: None, ..repeater }, "loop stopped"@),
            None => (repeater, "no active loop"@),
        },
        Ok(CommandView::Start { interval, prompt }) => {
            let job = JobView { prompt, target, interval, due: now, running: false };
            (RepeaterView { job: Some(job), ..repeater }, job_line(job))
        },
    }
}

/// The agent that is asked now, and for what. A job is not started where the clock
/// cannot show the time of its next start.
pub open spec fn due_now(repeater: RepeaterView, now: u128) -> Option<(usize, Seq<char>)> {
    match repeater.job {
        Some(job) if may_start(job, now, repeater.busy) && now + job.interval * SECOND
            <= LAST_TIME => Some((job.target, job.prompt)),
        _ => None,
    }
}

/// What is repeated, after what is due was asked for.
pub open spec fn after_due(repeater: RepeaterView, now: u128) -> RepeaterView {
    if due_now(repeater, now) is Some {
        RepeaterView { job: Some(started(repeater.job->0, now)), ..repeater }
    } else {
        repeater
    }
}

/// Whether something that the conversation asks for ends the repetition: a request of
/// the person, a cancellation, a goal, a changed or saved roster, or the end.
pub open spec fn ends_repetition(effect: EffectView) -> bool {
    match effect {
        EffectView::Send(control) => !(control is Permission || control is SetStrategy
            || control is SetMode || control is SetModel),
        EffectView::SaveRoster(_) => true,
        EffectView::AddAgent(_) => true,
        EffectView::EndLoop => true,
        EffectView::Goal(text) => !is_blank(text),
        EffectView::Quit => true,
        _ => false,
    }
}

/// A new loop asks the recipient that it was made for, and takes the place of whatever
/// was repeated: at once where the agents are not busy, and not while they are. Having
/// asked, it does not ask again by itself.
pub proof fn law_a_loop_asks_its_recipient(
    repeater: RepeaterView,
    text: Seq<char>,
    target: usize,
    now: u128,
)
    requires
        parsed(text, now) is Ok,
        parsed(text, now)->Ok_0 is Start,
        now <= LAST_TIME,
    ensures
        ({
            let (after, line) = asked(repeater, text, target, now);
            &&& !repeater.busy ==> due_now(after, now) == Some(
                (target, parsed(text, now)->Ok_0->prompt),
            )
            &&& repeater.busy ==> due_now(after, now) is None
            &&& due_now(after_due(after, now), now) is None
        }),
{
}

impl Repeater {
    pub fn new() -> (repeater: Self)
        ensures
            repeater@ == (RepeaterView { job: None, busy: false }),
    {
        Repeater { job: None, busy: false }
    }

    /// Handles the text behind `/loop`. Gives what the person is told.
    pub fn ask(&mut self, text: &str, target: usize, now: u128) -> (line: String)
        requires
            target < usize::MAX,
            old(self)@.job matches Some(job) ==> job.target < usize::MAX,
        ensures
            (final(self)@, line@) == asked(old(self)@, text@, target, now),
    {
        match Command::parse(text, now) {
            Err(problem) => problem,
            Ok(Command::Show) => match &self.job {
                Some(job) => job.status(),
                None => "no active loop".to_owned(),
            },
            Ok(Command::Stop) => if self.job.is_some() {
                self.job = None;
                "loop stopped".to_owned()
            } else {
                "no active loop".to_owned()
            },
            Ok(Command::Start { interval, prompt }) => {
                let job = Job::new(prompt, target, interval, now);
                let line = job.status();
                self.job = Some(job);
                line
            },
        }
    }

    /// The agent to ask now, and for what.
    pub fn take_due(&mut self, now: u128) -> (due: Option<(usize, String)>)
        ensures
            match due {
                Some(request) => due_now(old(self)@, now) == Some((request.0, request.1@)),
                None => due_now(old(self)@, now) is None,
            },
            final(self)@ == after_due(old(self)@, now),
    {
        match self.job.take() {
            Some(mut job) => {
                let reached: bool = now <= LAST_TIME && job.interval as u128 * SECOND <= LAST_TIME
                    - now;
                let due = if job.ready(now, self.busy) && reached {
                    job.dispatched(now);
                    Some((job.target, job.prompt.clone()))
                } else {
                    None
                };
                self.job = Some(job);
                due
            },
            None => None,
        }
    }

    /// Follows an event of the agents.
    pub fn follow(&mut self, event: &AgentEvent, relay: bool)
        ensures
            (final(self)@.job, final(self)@.busy) == followed(
                old(self)@.job,
                old(self)@.busy,
                event@,
                relay,
            ),
    {
        let mut job = self.job.take();
        let mut busy: bool = self.busy;
        observe(&mut job, &mut busy, event, relay);
        self.job = job;
        self.busy = busy;
    }

    /// Follows what the conversation asks for.
    pub fn heed(&mut self, effect: &Effect)
        ensures
            final(self)@ == if ends_repetition(effect@) {
                RepeaterView { job: None, ..old(self)@ }
            } else {
                old(self)@
            },
    {
        let ends = match effect {
            Effect::Send(control) => match control {
                AdapterControl::Permission { slot, request_id, answer } => false,
                AdapterControl::SetStrategy(strategy) => false,
                AdapterControl::SetMode(mode) => false,
                AdapterControl::SetModel { slot, model } => false,
                _ => true,
            },
            Effect::SaveRoster(slots) => true,
            Effect::AddAgent(name) => true,
            Effect::EndLoop => true,
            Effect::Goal(text) => !blank(text.as_str()),
            Effect::Quit => true,
            _ => false,
        };
        if ends {
            self.job = None;
        }
    }

    /// Ends the repetition, as a change of the settings does.
    pub fn stop(&mut self)
        ensures
            final(self)@ == (RepeaterView { job: None, ..old(self)@ }),
    {
        self.job = None;
    }
}

/// A loop survives the turns that it starts, and is over when an agent fails, reaches its
/// limit or the roster changes, since its recipient may be gone. The agents are busy from
/// the start of a turn to its end, and within a relay to the end of the batch.
pub proof fn law_a_loop_is_over_when_its_agents_change(
    job: JobView,
    busy: bool,
    event: AgentEventView,
    relay: bool,
)
    ensures
        followed(Some(job), busy, event, relay).0 is None <==> event is Failed || event
            is UsageLimitReached || event is RosterUpdated,
        followed(Some(job), busy, event, relay).0 matches Some(after) ==> after.prompt == job.prompt
            && after.target == job.target && after.interval == job.interval && after.due == job.due,
        followed(None, busy, event, relay).0 is None,
        event is TurnStarted ==> followed(Some(job), busy, event, relay).1,
        event is BatchComplete || event is Failed || event is UsageLimitReached ==> !followed(
            Some(job),
            busy,
            event,
            relay,
        ).1,
        event is TurnComplete && !relay ==> !followed(Some(job), busy, event, relay).1,
        event is TurnComplete && relay || event is Text || event is Tool || event is RosterUpdated
            ==> followed(Some(job), busy, event, relay).1 == busy,
{
}

/// To say something else ends a repetition, and so do a cancellation, a change of who takes
/// part and the end. An answer to an agent and a change of its mode, model or strategy do not.
pub proof fn law_saying_something_else_ends_a_repetition(control: ControlView)
    ensures
        control is Prompt || control is Queue || control is Direct || control is Cancel || control
            is Drop || control is Reload || control is Swap || control is Add || control is Stop
            ==> ends_repetition(EffectView::Send(control)),
        control is Permission || control is SetMode || control is SetModel || control is SetStrategy
            ==> !ends_repetition(EffectView::Send(control)),
        ends_repetition(EffectView::EndLoop),
        ends_repetition(EffectView::Quit),
{
}

/// To stop leaves nothing to repeat, to look changes nothing, and what cannot be read
/// changes nothing.
pub proof fn law_only_a_stop_ends_a_loop_by_word(
    repeater: RepeaterView,
    text: Seq<char>,
    target: usize,
    now: u128,
)
    ensures
        parsed(text, now) is Ok && parsed(text, now)->Ok_0 is Stop ==> asked(
            repeater,
            text,
            target,
            now,
        ).0.job is None && asked(repeater, text, target, now).0.busy == repeater.busy,
        parsed(text, now) is Ok && parsed(text, now)->Ok_0 is Show ==> asked(
            repeater,
            text,
            target,
            now,
        ).0 == repeater,
        parsed(text, now) is Err ==> asked(repeater, text, target, now) == (
            repeater,
            parsed(text, now)->Err_0,
        ),
{
}

} // verus!
