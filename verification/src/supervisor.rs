//! The process supervisor's decision core: from the current state and one
//! observed event to the next state and the one action to perform. The
//! surrounding threads spawn, wait, sleep and signal; every decision about
//! restarting, backing off and stopping is made here.
use vstd::prelude::*;
use crate::RESTART_DELAY_MS;

verus! {

/// Where the supervised server child stands.
#[derive(PartialEq, Eq, Structural, Clone, Copy)]
pub enum SupervisorState {
    /// A spawn is due now.
    Starting,
    /// A child runs, known by its process id.
    Running { pid: u32 },
    /// An unrequested exit was seen; a new spawn is due once the delay has
    /// elapsed.
    Backoff,
    /// A deliberate stop: no child runs and none will be spawned again.
    Stopped,
    /// The server binary could not be started at all; retrying cannot
    /// succeed, so the loop reports and ends.
    Failed,
}

/// What the surrounding threads observed.
#[derive(PartialEq, Eq, Structural, Clone, Copy)]
pub enum SupervisorEvent {
    /// The spawn succeeded and produced this child.
    SpawnedOk { pid: u32 },
    /// The spawn failed outright (for example, a missing binary).
    SpawnFailed,
    /// The wait on the child returned: the child exited.
    Exited,
    /// The restart delay has elapsed.
    DelayElapsed,
    /// A deliberate stop was requested.
    KillRequested,
}

/// The one action the caller performs after a step.
#[derive(PartialEq, Eq, Structural, Clone, Copy)]
pub enum SupervisorAction {
    /// Start the server child now.
    Spawn,
    /// Sleep this many milliseconds, then report `DelayElapsed`.
    Sleep { ms: u64 },
    /// Send the termination signal to this child.
    Terminate { pid: u32 },
    /// Surface the unrecoverable spawn failure to the user.
    ReportFatal,
    DoNothing,
}

/// The supervisor: its state, and the stop sentinel that a kill request sets.
/// The sentinel and the termination signal are decided in one step, so a
/// restart in flight cannot resurrect a child after a kill.
#[derive(PartialEq, Eq, Structural, Clone, Copy)]
pub struct Supervisor {
    pub state: SupervisorState,
    pub stop_requested: bool,
}

/// The transition relation. A kill terminates the running child (if any) and
/// sets the sentinel for good; an exit backs off for the fixed delay unless a
/// stop was requested; a spawn that loses the race against a kill is
/// terminated at once; a spawn failure is final.
pub open spec fn spec_step(s: Supervisor, e: SupervisorEvent) -> (Supervisor, SupervisorAction) {
    match e {
        SupervisorEvent::KillRequested => (
            Supervisor { state: SupervisorState::Stopped, stop_requested: true },
            match s.state {
                SupervisorState::Running { pid } => SupervisorAction::Terminate { pid },
                _ => SupervisorAction::DoNothing,
            },
        ),
        SupervisorEvent::SpawnedOk { pid } => if s.stop_requested {
            (
                Supervisor { state: SupervisorState::Stopped, stop_requested: true },
                SupervisorAction::Terminate { pid },
            )
        } else {
            (
                Supervisor { state: SupervisorState::Running { pid }, stop_requested: false },
                SupervisorAction::DoNothing,
            )
        },
        SupervisorEvent::SpawnFailed => (
            Supervisor { state: SupervisorState::Failed, stop_requested: s.stop_requested },
            SupervisorAction::ReportFatal,
        ),
        SupervisorEvent::Exited => if s.stop_requested {
            (
                Supervisor { state: SupervisorState::Stopped, stop_requested: true },
                SupervisorAction::DoNothing,
            )
        } else {
            (
                Supervisor { state: SupervisorState::Backoff, stop_requested: false },
                SupervisorAction::Sleep { ms: RESTART_DELAY_MS },
            )
        },
        SupervisorEvent::DelayElapsed => if s.stop_requested {
            (
                Supervisor { state: SupervisorState::Stopped, stop_requested: true },
                SupervisorAction::DoNothing,
            )
        } else if s.state is Backoff {
            (
                Supervisor { state: SupervisorState::Starting, stop_requested: false },
                SupervisorAction::Spawn,
            )
        } else {
            (s, SupervisorAction::DoNothing)
        },
    }
}

impl Supervisor {
    /// A fresh supervisor: about to spawn, no stop requested.
    pub fn new() -> (r: (Supervisor, SupervisorAction))
        ensures
            r.0 == (Supervisor { state: SupervisorState::Starting, stop_requested: false }),
            r.1 == SupervisorAction::Spawn,
    {
        (
            Supervisor { state: SupervisorState::Starting, stop_requested: false },
            SupervisorAction::Spawn,
        )
    }

    /// Takes one observed event and decides the next state and action.
    pub fn step(&mut self, e: SupervisorEvent) -> (a: SupervisorAction)
        ensures
            (*final(self), a) == spec_step(*old(self), e),
    {
        let (next, action) = match e {
            SupervisorEvent::KillRequested => (
                Supervisor { state: SupervisorState::Stopped, stop_requested: true },
                match self.state {
                    SupervisorState::Running { pid } => SupervisorAction::Terminate { pid },
                    _ => SupervisorAction::DoNothing,
                },
            ),
            SupervisorEvent::SpawnedOk { pid } => if self.stop_requested {
                (
                    Supervisor { state: SupervisorState::Stopped, stop_requested: true },
                    SupervisorAction::Terminate { pid },
                )
            } else {
                (
                    Supervisor { state: SupervisorState::Running { pid }, stop_requested: false },
                    SupervisorAction::DoNothing,
                )
            },
            SupervisorEvent::SpawnFailed => (
                Supervisor {
                    state: SupervisorState::Failed,
                    stop_requested: self.stop_requested,
                },
                SupervisorAction::ReportFatal,
            ),
            SupervisorEvent::Exited => if self.stop_requested {
                (
                    Supervisor { state: SupervisorState::Stopped, stop_requested: true },
                    SupervisorAction::DoNothing,
                )
            } else {
                (
                    Supervisor { state: SupervisorState::Backoff, stop_requested: false },
                    SupervisorAction::Sleep { ms: RESTART_DELAY_MS },
                )
            },
            SupervisorEvent::DelayElapsed => if self.stop_requested {
                (
                    Supervisor { state: SupervisorState::Stopped, stop_requested: true },
                    SupervisorAction::DoNothing,
                )
            } else if matches!(self.state, SupervisorState::Backoff) {
                (
                    Supervisor { state: SupervisorState::Starting, stop_requested: false },
                    SupervisorAction::Spawn,
                )
            } else {
                (*self, SupervisorAction::DoNothing)
            },
        };
        *self = next;
        action
    }

    /// A deliberate stop: sets the sentinel and terminates the running child
    /// in the same step.
    pub fn try_kill(&mut self) -> (a: SupervisorAction)
        ensures
            (*final(self), a) == spec_step(*old(self), SupervisorEvent::KillRequested),
            final(self).stop_requested,
    {
        self.step(SupervisorEvent::KillRequested)
    }
}

/// Running a whole sequence of events.
pub open spec fn run(s: Supervisor, es: Seq<SupervisorEvent>) -> Supervisor
    decreases es.len(),
{
    if es.len() == 0 {
        s
    } else {
        run(spec_step(s, es[0]).0, es.drop_first())
    }
}

/// The actions a whole sequence of events produces, in order.
pub open spec fn run_actions(s: Supervisor, es: Seq<SupervisorEvent>) -> Seq<SupervisorAction>
    decreases es.len(),
{
    if es.len() == 0 {
        Seq::empty()
    } else {
        seq![spec_step(s, es[0]).1] + run_actions(spec_step(s, es[0]).0, es.drop_first())
    }
}

/// An unrequested exit never respawns at once: it asks for the fixed delay,
/// and a spawn is issued only for an elapsed delay out of the backoff state.
/// The restart rate is therefore bounded by the delay.
pub proof fn lemma_restart_is_delayed(s: Supervisor)
    requires
        !s.stop_requested,
    ensures
        spec_step(s, SupervisorEvent::Exited).1 == (SupervisorAction::Sleep {
            ms: RESTART_DELAY_MS,
        }),
        spec_step(s, SupervisorEvent::Exited).0.state is Backoff,
        forall|e: SupervisorEvent|
            #[trigger] spec_step(s, e).1 == SupervisorAction::Spawn ==> e
                == SupervisorEvent::DelayElapsed && s.state is Backoff,
{
}

proof fn lemma_run_actions_len(s: Supervisor, es: Seq<SupervisorEvent>)
    ensures
        run_actions(s, es).len() == es.len(),
    decreases es.len(),
{
    if es.len() > 0 {
        lemma_run_actions_len(spec_step(s, es[0]).0, es.drop_first());
    }
}

/// Once a stop is requested it is never forgotten, nothing is ever spawned
/// again, and a child delivered by a racing spawn is terminated in the same
/// step: after `try_kill`, at most the one child a lost race delivered can
/// ever have existed, and it does not survive its own arrival event.
pub proof fn lemma_kill_is_final(s: Supervisor, es: Seq<SupervisorEvent>)
    requires
        s.stop_requested,
    ensures
        run(s, es).stop_requested,
        forall|i: int|
            0 <= i < es.len() ==> #[trigger] run_actions(s, es)[i] != SupervisorAction::Spawn,
        forall|i: int|
            0 <= i < es.len() && es[i] is SpawnedOk ==> #[trigger] run_actions(s, es)[i] == (
            SupervisorAction::Terminate { pid: es[i]->SpawnedOk_pid }),
    decreases es.len(),
{
    if es.len() > 0 {
        let s1 = spec_step(s, es[0]).0;
        assert(s1.stop_requested);
        lemma_kill_is_final(s1, es.drop_first());
        let acts = run_actions(s, es);
        lemma_run_actions_len(s, es);
        lemma_run_actions_len(s1, es.drop_first());
        assert(acts == seq![spec_step(s, es[0]).1] + run_actions(s1, es.drop_first()));
        assert forall|i: int| 0 <= i < es.len() implies #[trigger] acts[i]
            != SupervisorAction::Spawn by {
            if i > 0 {
                assert(acts[i] == run_actions(s1, es.drop_first())[i - 1]);
                assert(es.drop_first()[i - 1] == es[i]);
            }
        }
        assert forall|i: int|
            0 <= i < es.len() && es[i] is SpawnedOk implies #[trigger] acts[i] == (
        SupervisorAction::Terminate { pid: es[i]->SpawnedOk_pid }) by {
            if i > 0 {
                assert(acts[i] == run_actions(s1, es.drop_first())[i - 1]);
                assert(es.drop_first()[i - 1] == es[i]);
            }
        }
    }
}


// ---------------------------------------------------------------------------
// The endpoint announcement in the server's output.
// ---------------------------------------------------------------------------

pub open spec fn is_space(c: char) -> bool {
    c == ' ' || c == '\t'
}

/// Length of `s` with trailing spaces dropped.
pub open spec fn trim_end_len(s: Seq<char>) -> int
    decreases s.len(),
{
    if s.len() > 0 && is_space(s.last()) {
        trim_end_len(s.drop_last())
    } else {
        s.len() as int
    }
}

/// One past the last space of `s`, or 0 when there is none.
pub open spec fn last_space_end(s: Seq<char>) -> int
    decreases s.len(),
{
    if s.len() == 0 {
        0
    } else if is_space(s.last()) {
        s.len() as int
    } else {
        last_space_end(s.drop_last())
    }
}

/// The last whitespace-separated token of `s`.
pub open spec fn last_token(s: Seq<char>) -> Seq<char> {
    s.take(trim_end_len(s)).skip(last_space_end(s.take(trim_end_len(s))))
}

/// Whether `s` starts with `p`.
pub open spec fn starts_with(s: Seq<char>, p: Seq<char>) -> bool {
    s.len() >= p.len() && s.take(p.len() as int) == p
}

/// The line with which the server announces where it listens.
pub open spec fn endpoint_prefix() -> Seq<char> {
    "EngineFS server started at"@
}

/// The endpoint a log line announces: on the announcement line, its last
/// whitespace-separated token.
pub open spec fn spec_endpoint_of(line: Seq<char>) -> Option<Seq<char>> {
    if starts_with(line, endpoint_prefix()) && last_token(line).len() > 0 {
        Some(last_token(line))
    } else {
        None
    }
}

proof fn lemma_trim_bounds(s: Seq<char>)
    ensures
        0 <= trim_end_len(s) <= s.len(),
    decreases s.len(),
{
    if s.len() > 0 && is_space(s.last()) {
        lemma_trim_bounds(s.drop_last());
    }
}

proof fn lemma_last_space_bounds(s: Seq<char>)
    ensures
        0 <= last_space_end(s) <= s.len(),
    decreases s.len(),
{
    if s.len() > 0 && !is_space(s.last()) {
        lemma_last_space_bounds(s.drop_last());
    }
}

/// Reads the announced endpoint off one line of server output, if this line
/// carries it.
pub fn detect_endpoint(line: &str) -> (r: Option<String>)
    ensures
        match r {
            Some(e) => spec_endpoint_of(line@) == Some(e@),
            None => spec_endpoint_of(line@) is None,
        },
{
    let cs = crate::text::chars_of(line);
    let prefix = crate::text::chars_of("EngineFS server started at");
    if cs.len() < prefix.len() {
        return None;
    }
    let mut k: usize = 0;
    while k < prefix.len()
        invariant
            k <= prefix@.len() <= cs@.len(),
            cs@ == line@,
            prefix@ == endpoint_prefix(),
            forall|i: int| 0 <= i < k ==> cs@[i] == prefix@[i],
        decreases prefix@.len() - k,
    {
        if cs[k] != prefix[k] {
            proof {
                if starts_with(line@, endpoint_prefix()) {
                    assert(line@.take(prefix@.len() as int)[k as int] == line@[k as int]);
                }
            }
            return None;
        }
        k = k + 1;
    }
    proof {
        assert(line@.take(prefix@.len() as int) =~= prefix@);
    }
    // drop trailing spaces
    let mut t: usize = cs.len();
    proof {
        assert(cs@.take(cs@.len() as int) =~= cs@);
        lemma_trim_bounds(cs@);
    }
    while t > 0 && (cs[t - 1] == ' ' || cs[t - 1] == '\t')
        invariant
            t <= cs@.len(),
            cs@ == line@,
            trim_end_len(cs@) == trim_end_len(cs@.take(t as int)),
        decreases t,
    {
        proof {
            assert(cs@.take(t as int).last() == cs@[t - 1]);
            assert(cs@.take(t as int).drop_last() =~= cs@.take(t - 1 as int));
        }
        t = t - 1;
    }
    proof {
        if t > 0 {
            assert(cs@.take(t as int).last() == cs@[t - 1]);
        }
        assert(trim_end_len(cs@.take(t as int)) == t);
    }
    // find the token start: one past the last space before `t`
    let ghost trimmed = cs@.take(t as int);
    let mut b: usize = t;
    proof {
        assert(trimmed.take(t as int) =~= trimmed);
        lemma_last_space_bounds(trimmed);
    }
    while b > 0 && !(cs[b - 1] == ' ' || cs[b - 1] == '\t')
        invariant
            b <= t <= cs@.len(),
            cs@ == line@,
            trimmed == cs@.take(t as int),
            last_space_end(trimmed) == last_space_end(trimmed.take(b as int)),
            forall|i: int| 0 <= i < b ==> trimmed[i] == cs@[i],
        decreases b,
    {
        proof {
            assert(trimmed.take(b as int).last() == cs@[b - 1]);
            assert(trimmed.take(b as int).drop_last() =~= trimmed.take(b - 1 as int));
        }
        b = b - 1;
    }
    proof {
        if b > 0 {
            assert(trimmed.take(b as int).last() == cs@[b - 1]);
        }
        assert(last_space_end(trimmed) == b);
    }
    if b == t {
        proof {
            assert(last_token(line@).len() == 0);
        }
        return None;
    }
    let token = crate::json::vec_slice(&cs, b, t);
    proof {
        assert(token@ =~= last_token(line@));
    }
    Some(crate::text::string_of(&token))
}

} // verus!
