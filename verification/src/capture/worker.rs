//! The course of one capture session, from opening the device to announcing
//! that the session is over.
//!
//! The toolkit's handles have to stay on one thread. A [`Worker`] decides what
//! that thread does next: it names an [`Action`], the thread carries it out
//! and hands back a [`Reply`].
//!
//!   1. Open the device.
//!   2. Resolve the [`Target`] to a pid: given, looked up by name, or spawned.
//!   3. Attach, create the script, install the message handler.
//!   4. Load the script, and resume a process that was spawned.
//!   5. Announce the start to the handler, then report it to whoever waits for
//!      it.
//!   6. Wait until the user stops the session or the watchdog sees it
//!      detached.
//!   7. Unload, announce the end.
//!
//! What fails before the start is announced is reported to whoever waits for
//! the start, and the session is over.

use std::time::Duration;
use vstd::prelude::*;

use super::handle::start_result;
use super::{CaptureConfig, CaptureView};
use crate::discover::{
    find_by_name, find_main_by_name, heads_its_name, is_main, lookup_finds_a_process_of_the_name,
    lookup_gives_the_first_that_fits, main_lookup_gives_the_first_with_a_foreign_parent,
    main_pid_by_name, main_process_is_no_child_of_its_name, name_fits, named, pid_by_name,
    process_views, NameMatch, ProcessInfo, ProcessView,
};
use crate::error::{Error, ErrorView};
use crate::target::{DetachReason, DetachReasonView, Target, TargetView};

verus! {

/// What the thread that owns the session has to do next.
#[derive(Debug)]
pub enum Action {
    /// Open the device that the configuration selects.
    OpenDevice,
    /// List the processes on the device, with their parents if asked for.
    ListProcesses { with_parents: bool },
    /// Spawn the program that the configuration names.
    SpawnProgram,
    /// Attach to a process.
    Attach(u32),
    /// Create the script that the configuration holds.
    CreateScript,
    /// Have the script's messages delivered to the handler.
    InstallHandler,
    /// Load the script.
    LoadScript,
    /// Let a spawned process run.
    Resume(u32),
    /// Tell the handler that the session runs.
    AnnounceStarted(u32),
    /// Tell whoever waits for the start that the session runs.
    ReportStarted(u32),
    /// Wait for a stop request, for as long as the watchdog interval.
    AwaitStop,
    /// Ask the session whether it is detached.
    CheckDetached,
    /// Unload the script; whether that succeeds does not matter.
    UnloadScript,
    /// Tell whoever waits for the start that it failed.
    ReportFailure(Error),
    /// Tell the handler that the session is over.
    AnnounceDetached(DetachReason),
    /// Nothing: the session is over and everybody knows.
    Nothing,
}

/// [`Action`] with its texts as character sequences.
pub enum ActionView {
    OpenDevice,
    ListProcesses { with_parents: bool },
    SpawnProgram,
    Attach(u32),
    CreateScript,
    InstallHandler,
    LoadScript,
    Resume(u32),
    AnnounceStarted(u32),
    ReportStarted(u32),
    AwaitStop,
    CheckDetached,
    UnloadScript,
    ReportFailure(ErrorView),
    AnnounceDetached(DetachReasonView),
    Nothing,
}

impl View for Action {
    type V = ActionView;

    open spec fn view(&self) -> ActionView {
        match self {
            Action::OpenDevice => ActionView::OpenDevice,
            Action::ListProcesses { with_parents } => ActionView::ListProcesses {
                with_parents: *with_parents,
            },
            Action::SpawnProgram => ActionView::SpawnProgram,
            Action::Attach(pid) => ActionView::Attach(*pid),
            Action::CreateScript => ActionView::CreateScript,
            Action::InstallHandler => ActionView::InstallHandler,
            Action::LoadScript => ActionView::LoadScript,
            Action::Resume(pid) => ActionView::Resume(*pid),
            Action::AnnounceStarted(pid) => ActionView::AnnounceStarted(*pid),
            Action::ReportStarted(pid) => ActionView::ReportStarted(*pid),
            Action::AwaitStop => ActionView::AwaitStop,
            Action::CheckDetached => ActionView::CheckDetached,
            Action::UnloadScript => ActionView::UnloadScript,
            Action::ReportFailure(e) => ActionView::ReportFailure(e@),
            Action::AnnounceDetached(reason) => ActionView::AnnounceDetached(reason@),
            Action::Nothing => ActionView::Nothing,
        }
    }
}

/// What carrying out an action gave.
#[derive(Debug)]
pub enum Reply {
    /// It is done.
    Done,
    /// The toolkit refused, and says why.
    Failed(String),
    /// The processes on the device, and how their names are compared there.
    Processes { found: Vec<ProcessInfo>, rule: NameMatch },
    /// The program runs under this pid, suspended.
    Spawned(u32),
    /// The user stopped the session or dropped its handle.
    StopRequested,
    /// Nobody stopped the session within the watchdog interval.
    TimedOut,
    /// Whether the session is detached.
    Detached(bool),
}

/// [`Reply`] with its contents as mathematical values.
pub enum ReplyView {
    Done,
    Failed(Seq<char>),
    Processes { found: Seq<ProcessView>, rule: NameMatch },
    Spawned(u32),
    StopRequested,
    TimedOut,
    Detached(bool),
}

impl View for Reply {
    type V = ReplyView;

    open spec fn view(&self) -> ReplyView {
        match self {
            Reply::Done => ReplyView::Done,
            Reply::Failed(e) => ReplyView::Failed(e@),
            Reply::Processes { found, rule } => ReplyView::Processes {
                found: process_views(found@),
                rule: *rule,
            },
            Reply::Spawned(pid) => ReplyView::Spawned(*pid),
            Reply::StopRequested => ReplyView::StopRequested,
            Reply::TimedOut => ReplyView::TimedOut,
            Reply::Detached(b) => ReplyView::Detached(*b),
        }
    }
}

/// A process that the session is about, and whether the session spawned it.
#[derive(Debug, Clone, Copy, PartialEq, Eq, Structural)]
pub struct Process {
    pub pid: u32,
    pub spawned: bool,
}

/// A process to be looked up by name.
#[derive(Debug)]
pub struct Lookup {
    pub name: String,
    /// Only the main one of several processes with the name will do.
    pub main: bool,
}

/// [`Lookup`] with its name as a character sequence.
pub struct LookupView {
    pub name: Seq<char>,
    pub main: bool,
}

impl View for Lookup {
    type V = LookupView;

    open spec fn view(&self) -> LookupView {
        LookupView { name: self.name@, main: self.main }
    }
}

/// How far a session has come.
#[derive(Debug)]
pub enum Phase {
    Opening,
    Listing(Lookup),
    Spawning,
    Attaching(Process),
    Creating(Process),
    Installing(Process),
    Loading(Process),
    Resuming(u32),
    Starting(u32),
    Ready(u32),
    Waiting,
    Checking,
    Unloading,
    Failing(Error),
    Detaching(DetachReason),
    Ended,
}

/// [`Phase`] with its texts as character sequences.
pub enum PhaseView {
    Opening,
    Listing(LookupView),
    Spawning,
    Attaching(Process),
    Creating(Process),
    Installing(Process),
    Loading(Process),
    Resuming(u32),
    Starting(u32),
    Ready(u32),
    Waiting,
    Checking,
    Unloading,
    Failing(ErrorView),
    Detaching(DetachReasonView),
    Ended,
}

impl View for Phase {
    type V = PhaseView;

    open spec fn view(&self) -> PhaseView {
        match self {
            Phase::Opening => PhaseView::Opening,
            Phase::Listing(lookup) => PhaseView::Listing(lookup@),
            Phase::Spawning => PhaseView::Spawning,
            Phase::Attaching(p) => PhaseView::Attaching(*p),
            Phase::Creating(p) => PhaseView::Creating(*p),
            Phase::Installing(p) => PhaseView::Installing(*p),
            Phase::Loading(p) => PhaseView::Loading(*p),
            Phase::Resuming(pid) => PhaseView::Resuming(*pid),
            Phase::Starting(pid) => PhaseView::Starting(*pid),
            Phase::Ready(pid) => PhaseView::Ready(*pid),
            Phase::Waiting => PhaseView::Waiting,
            Phase::Checking => PhaseView::Checking,
            Phase::Unloading => PhaseView::Unloading,
            Phase::Failing(e) => PhaseView::Failing(e@),
            Phase::Detaching(reason) => PhaseView::Detaching(reason@),
            Phase::Ended => PhaseView::Ended,
        }
    }
}

/// What is to be done in a phase.
pub open spec fn action_in(phase: PhaseView) -> ActionView {
    match phase {
        PhaseView::Opening => ActionView::OpenDevice,
        PhaseView::Listing(lookup) => ActionView::ListProcesses { with_parents: lookup.main },
        PhaseView::Spawning => ActionView::SpawnProgram,
        PhaseView::Attaching(p) => ActionView::Attach(p.pid),
        PhaseView::Creating(_) => ActionView::CreateScript,
        PhaseView::Installing(_) => ActionView::InstallHandler,
        PhaseView::Loading(_) => ActionView::LoadScript,
        PhaseView::Resuming(pid) => ActionView::Resume(pid),
        PhaseView::Starting(pid) => ActionView::AnnounceStarted(pid),
        PhaseView::Ready(pid) => ActionView::ReportStarted(pid),
        PhaseView::Waiting => ActionView::AwaitStop,
        PhaseView::Checking => ActionView::CheckDetached,
        PhaseView::Unloading => ActionView::UnloadScript,
        PhaseView::Failing(e) => ActionView::ReportFailure(e),
        PhaseView::Detaching(reason) => ActionView::AnnounceDetached(reason),
        PhaseView::Ended => ActionView::Nothing,
    }
}

/// The pid that a lookup gives among the processes on the device.
pub open spec fn looked_up(
    lookup: LookupView,
    rule: NameMatch,
    ps: Seq<ProcessView>,
) -> Option<u32> {
    if lookup.main {
        main_pid_by_name(ps, lookup.name, rule)
    } else {
        pid_by_name(ps, lookup.name, rule)
    }
}

/// Where the session goes once the device is open: straight to a given pid, or
/// to finding or making the process.
pub open spec fn resolving(target: TargetView) -> PhaseView {
    match target {
        TargetView::Pid(pid) => PhaseView::Attaching(Process { pid, spawned: false }),
        TargetView::Name(name) => PhaseView::Listing(LookupView { name, main: false }),
        TargetView::MainByName(name) => PhaseView::Listing(LookupView { name, main: true }),
        TargetView::Spawn { .. } => PhaseView::Spawning,
    }
}

/// Where the session goes once the script is loaded.
pub open spec fn loaded(cfg: CaptureView, p: Process) -> PhaseView {
    if p.spawned && cfg.resume_after_spawn {
        PhaseView::Resuming(p.pid)
    } else {
        PhaseView::Starting(p.pid)
    }
}

/// Whether a reply answers what is to be done in a phase.
pub open spec fn answers(phase: PhaseView, reply: ReplyView) -> bool {
    match phase {
        PhaseView::Listing(_) => reply is Processes,
        PhaseView::Spawning => reply is Spawned || reply is Failed,
        PhaseView::Starting(_) => reply is Done,
        PhaseView::Ready(_) => reply is Done,
        PhaseView::Waiting => reply is StopRequested || reply is TimedOut,
        PhaseView::Checking => reply is Detached,
        PhaseView::Failing(_) => reply is Done,
        PhaseView::Detaching(_) => reply is Done,
        PhaseView::Ended => false,
        _ => reply is Done || reply is Failed,
    }
}

/// The phase that follows. A reply that answers nothing changes nothing.
pub open spec fn next_phase(cfg: CaptureView, phase: PhaseView, reply: ReplyView) -> PhaseView {
    match (phase, reply) {
        (PhaseView::Opening, ReplyView::Done) => resolving(cfg.target),
        (PhaseView::Listing(lookup), ReplyView::Processes { found, rule }) => match looked_up(
            lookup,
            rule,
            found,
        ) {
            Some(pid) => PhaseView::Attaching(Process { pid, spawned: false }),
            None => PhaseView::Failing(ErrorView::ProcessNotFound(lookup.name)),
        },
        (PhaseView::Spawning, ReplyView::Spawned(pid)) => PhaseView::Attaching(
            Process { pid, spawned: true },
        ),
        (PhaseView::Attaching(p), ReplyView::Done) => PhaseView::Creating(p),
        (PhaseView::Creating(p), ReplyView::Done) => PhaseView::Installing(p),
        (PhaseView::Installing(p), ReplyView::Done) => PhaseView::Loading(p),
        (PhaseView::Loading(p), ReplyView::Done) => loaded(cfg, p),
        (PhaseView::Resuming(pid), ReplyView::Done) => PhaseView::Starting(pid),
        (PhaseView::Starting(pid), ReplyView::Done) => PhaseView::Ready(pid),
        (PhaseView::Ready(_), ReplyView::Done) => PhaseView::Waiting,
        (PhaseView::Waiting, ReplyView::StopRequested) => PhaseView::Unloading,
        (PhaseView::Waiting, ReplyView::TimedOut) => PhaseView::Checking,
        (PhaseView::Checking, ReplyView::Detached(true)) => PhaseView::Detaching(
            DetachReasonView::Detected,
        ),
        (PhaseView::Checking, ReplyView::Detached(false)) => PhaseView::Waiting,
        (PhaseView::Unloading, ReplyView::Done) => PhaseView::Detaching(DetachReasonView::Stopped),
        (PhaseView::Unloading, ReplyView::Failed(_)) => PhaseView::Detaching(
            DetachReasonView::Stopped,
        ),
        (PhaseView::Failing(_), ReplyView::Done) => PhaseView::Ended,
        (PhaseView::Detaching(_), ReplyView::Done) => PhaseView::Ended,
        (_, ReplyView::Failed(e)) => if answers(phase, reply) {
            PhaseView::Failing(ErrorView::Frida(e))
        } else {
            phase
        },
        _ => phase,
    }
}

/// Finds the process that a lookup asks for among the processes on the device.
pub fn resolve_target(lookup: &Lookup, rule: NameMatch, ps: &[ProcessInfo]) -> (r: Result<
    u32,
    Error,
>)
    ensures
        match looked_up(lookup@, rule, process_views(ps@)) {
            Some(pid) => r is Ok && r->Ok_0 == pid,
            None => r is Err && r->Err_0@ == ErrorView::ProcessNotFound(lookup.name@),
        },
{
    if lookup.main {
        find_main_by_name(ps, lookup.name.as_str(), rule)
    } else {
        find_by_name(ps, lookup.name.as_str(), rule)
    }
}

/// Decides the course of one session.
#[derive(Debug)]
pub struct Worker {
    pub cfg: CaptureConfig,
    pub phase: Phase,
}

impl Worker {
    /// A session that has not begun.
    pub fn new(cfg: CaptureConfig) -> (r: Worker)
        ensures
            r.cfg == cfg,
            r.phase@ == PhaseView::Opening,
    {
        Worker { cfg, phase: Phase::Opening }
    }

    /// What is to be done now.
    pub fn action(&self) -> (r: Action)
        ensures
            r@ == action_in(self.phase@),
    {
        match &self.phase {
            Phase::Opening => Action::OpenDevice,
            Phase::Listing(lookup) => Action::ListProcesses { with_parents: lookup.main },
            Phase::Spawning => Action::SpawnProgram,
            Phase::Attaching(p) => Action::Attach(p.pid),
            Phase::Creating(_) => Action::CreateScript,
            Phase::Installing(_) => Action::InstallHandler,
            Phase::Loading(_) => Action::LoadScript,
            Phase::Resuming(pid) => Action::Resume(*pid),
            Phase::Starting(pid) => Action::AnnounceStarted(*pid),
            Phase::Ready(pid) => Action::ReportStarted(*pid),
            Phase::Waiting => Action::AwaitStop,
            Phase::Checking => Action::CheckDetached,
            Phase::Unloading => Action::UnloadScript,
            Phase::Failing(e) => Action::ReportFailure(e.clone()),
            Phase::Detaching(reason) => Action::AnnounceDetached(reason.clone()),
            Phase::Ended => Action::Nothing,
        }
    }

    /// Where the session goes once the device is open.
    fn resolving(&self) -> (r: Phase)
        ensures
            r@ == resolving(self.cfg.target@),
    {
        match &self.cfg.target {
            Target::Pid(pid) => Phase::Attaching(Process { pid: *pid, spawned: false }),
            Target::Name(name) => Phase::Listing(Lookup { name: name.clone(), main: false }),
            Target::MainByName(name) => Phase::Listing(Lookup { name: name.clone(), main: true }),
            Target::Spawn { program: _, args: _ } => Phase::Spawning,
        }
    }

    /// Where the session goes once the script is loaded.
    fn loaded(&self, p: Process) -> (r: Phase)
        ensures
            r@ == loaded(self.cfg@, p),
    {
        if p.spawned && self.cfg.resume_after_spawn {
            Phase::Resuming(p.pid)
        } else {
            Phase::Starting(p.pid)
        }
    }

    /// Takes what carrying out the action gave, and moves on.
    pub fn on_reply(&mut self, reply: Reply)
        ensures
            final(self).cfg == old(self).cfg,
            final(self).phase@ == next_phase(old(self).cfg@, old(self).phase@, reply@),
    {
        let next = match (&self.phase, reply) {
            (Phase::Opening, Reply::Done) => self.resolving(),
            (Phase::Listing(lookup), Reply::Processes { found, rule }) => match resolve_target(
                lookup,
                rule,
                found.as_slice(),
            ) {
                Ok(pid) => Phase::Attaching(Process { pid, spawned: false }),
                Err(e) => Phase::Failing(e),
            },
            (Phase::Spawning, Reply::Spawned(pid)) => Phase::Attaching(
                Process { pid, spawned: true },
            ),
            (Phase::Attaching(p), Reply::Done) => Phase::Creating(*p),
            (Phase::Creating(p), Reply::Done) => Phase::Installing(*p),
            (Phase::Installing(p), Reply::Done) => Phase::Loading(*p),
            (Phase::Loading(p), Reply::Done) => self.loaded(*p),
            (Phase::Resuming(pid), Reply::Done) => Phase::Starting(*pid),
            (Phase::Starting(pid), Reply::Done) => Phase::Ready(*pid),
            (Phase::Ready(_), Reply::Done) => Phase::Waiting,
            (Phase::Waiting, Reply::StopRequested) => Phase::Unloading,
            (Phase::Waiting, Reply::TimedOut) => Phase::Checking,
            (Phase::Checking, Reply::Detached(true)) => Phase::Detaching(DetachReason::Detected),
            (Phase::Checking, Reply::Detached(false)) => Phase::Waiting,
            (Phase::Unloading, Reply::Done) => Phase::Detaching(DetachReason::Stopped),
            (Phase::Unloading, Reply::Failed(_)) => Phase::Detaching(DetachReason::Stopped),
            (Phase::Failing(_), Reply::Done) => Phase::Ended,
            (Phase::Detaching(_), Reply::Done) => Phase::Ended,
            (Phase::Opening, Reply::Failed(e)) => Phase::Failing(Error::Frida(e)),
            (Phase::Spawning, Reply::Failed(e)) => Phase::Failing(Error::Frida(e)),
            (Phase::Attaching(_), Reply::Failed(e)) => Phase::Failing(Error::Frida(e)),
            (Phase::Creating(_), Reply::Failed(e)) => Phase::Failing(Error::Frida(e)),
            (Phase::Installing(_), Reply::Failed(e)) => Phase::Failing(Error::Frida(e)),
            (Phase::Loading(_), Reply::Failed(e)) => Phase::Failing(Error::Frida(e)),
            (Phase::Resuming(_), Reply::Failed(e)) => Phase::Failing(Error::Frida(e)),
            _ => return,
        };
        self.phase = next;
    }
}

/// The phase a session is in after these replies.
pub open spec fn phase_after(cfg: CaptureView, replies: Seq<ReplyView>) -> PhaseView
    decreases replies.len(),
{
    if replies.len() == 0 {
        PhaseView::Opening
    } else {
        next_phase(cfg, phase_after(cfg, replies.drop_last()), replies.last())
    }
}

/// Every reply answers the action it is given for.
pub open spec fn all_answer(cfg: CaptureView, replies: Seq<ReplyView>) -> bool
    decreases replies.len(),
{
    replies.len() == 0 || {
        &&& all_answer(cfg, replies.drop_last())
        &&& answers(phase_after(cfg, replies.drop_last()), replies.last())
    }
}

/// A number that grows as a session moves on. Waiting and checking take turns.
pub open spec fn stage(phase: PhaseView) -> nat {
    match phase {
        PhaseView::Opening => 0,
        PhaseView::Listing(_) => 1,
        PhaseView::Spawning => 1,
        PhaseView::Attaching(_) => 2,
        PhaseView::Creating(_) => 3,
        PhaseView::Installing(_) => 4,
        PhaseView::Loading(_) => 5,
        PhaseView::Resuming(_) => 6,
        PhaseView::Starting(_) => 7,
        PhaseView::Ready(_) => 8,
        PhaseView::Waiting => 9,
        PhaseView::Checking => 9,
        PhaseView::Unloading => 10,
        PhaseView::Failing(_) => 10,
        PhaseView::Detaching(_) => 11,
        PhaseView::Ended => 12,
    }
}

/// What holds of a session in every phase it can be in: it is about the
/// process that the target asks for, and a process is resumed only if the
/// session spawned it and was not told to leave it suspended.
pub open spec fn consistent(cfg: CaptureView, phase: PhaseView) -> bool {
    match phase {
        PhaseView::Listing(lookup) => match cfg.target {
            TargetView::Name(name) => lookup == (LookupView { name, main: false }),
            TargetView::MainByName(name) => lookup == (LookupView { name, main: true }),
            _ => false,
        },
        PhaseView::Spawning => cfg.target is Spawn,
        PhaseView::Attaching(p) => right_process(cfg, p),
        PhaseView::Creating(p) => right_process(cfg, p),
        PhaseView::Installing(p) => right_process(cfg, p),
        PhaseView::Loading(p) => right_process(cfg, p),
        PhaseView::Resuming(_) => cfg.target is Spawn && cfg.resume_after_spawn,
        PhaseView::Starting(pid) => cfg.target matches TargetView::Pid(given) ==> pid == given,
        PhaseView::Ready(pid) => cfg.target matches TargetView::Pid(given) ==> pid == given,
        _ => true,
    }
}

/// A process that the target may stand for: the given pid, and spawned exactly
/// if the target is a program to spawn.
pub open spec fn right_process(cfg: CaptureView, p: Process) -> bool {
    &&& p.spawned == cfg.target is Spawn
    &&& cfg.target matches TargetView::Pid(given) ==> p.pid == given
}

/// [`consistent`] holds throughout, whatever is replied. In particular a
/// process is resumed only if the session spawned it and `resume_after_spawn`
/// is set.
pub proof fn session_stays_consistent(cfg: CaptureView, replies: Seq<ReplyView>)
    ensures
        consistent(cfg, phase_after(cfg, replies)),
    decreases replies.len(),
{
    if replies.len() > 0 {
        session_stays_consistent(cfg, replies.drop_last());
    }
}

/// A session never goes back, except that waiting and checking take turns; a
/// reply that answers takes it forward.
pub proof fn session_moves_forward(cfg: CaptureView, phase: PhaseView, reply: ReplyView)
    ensures
        stage(phase) <= stage(next_phase(cfg, phase, reply)),
        answers(phase, reply) && stage(phase) != stage(PhaseView::Waiting) ==> stage(phase)
            < stage(next_phase(cfg, phase, reply)),
        !answers(phase, reply) ==> next_phase(cfg, phase, reply) == phase,
{
}

/// The stage after fewer replies is not beyond the stage after more of them,
/// and is behind it unless the session waits all along.
proof fn lemma_stages(cfg: CaptureView, replies: Seq<ReplyView>, i: int)
    requires
        all_answer(cfg, replies),
        0 <= i < replies.len(),
    ensures
        stage(phase_after(cfg, replies.take(i))) <= stage(phase_after(cfg, replies)),
        stage(phase_after(cfg, replies.take(i))) == stage(phase_after(cfg, replies)) ==> stage(
            phase_after(cfg, replies),
        ) == stage(PhaseView::Waiting),
    decreases replies.len(),
{
    let init = replies.drop_last();
    session_moves_forward(cfg, phase_after(cfg, init), replies.last());
    if i < init.len() {
        lemma_stages(cfg, init, i);
        assert(init.take(i) =~= replies.take(i));
    } else {
        assert(replies.take(i) =~= init);
    }
}

/// No step of a session is taken twice, but for the waiting and the checking:
/// after more replies a session that does not wait is further on.
pub proof fn no_step_is_repeated(cfg: CaptureView, replies: Seq<ReplyView>, i: int, j: int)
    requires
        all_answer(cfg, replies),
        0 <= i < j <= replies.len(),
    ensures
        stage(phase_after(cfg, replies.take(i))) < stage(phase_after(cfg, replies.take(j)))
            || stage(phase_after(cfg, replies.take(i))) == stage(
            phase_after(cfg, replies.take(j)),
        ) == stage(PhaseView::Waiting),
{
    lemma_answered_prefix(cfg, replies, j);
    lemma_stages(cfg, replies.take(j), i);
    assert(replies.take(j).take(i) =~= replies.take(i));
}

/// What whoever waits for the start is told in a phase, if anything.
pub open spec fn report_in(phase: PhaseView) -> Option<Result<u32, ErrorView>> {
    match action_in(phase) {
        ActionView::ReportStarted(pid) => Some(Ok(pid)),
        ActionView::ReportFailure(e) => Some(Err(e)),
        _ => None,
    }
}

/// The handler hears of the start before whoever waits for it does, and of the
/// same pid: where a start comes to success by what a session reports, the
/// handler's `on_started` was called earlier in the session.
pub proof fn handler_hears_of_the_start_first(
    cfg: CaptureView,
    replies: Seq<ReplyView>,
    j: int,
    timeout: Duration,
    pid: u32,
)
    requires
        0 <= j <= replies.len(),
        start_result(report_in(phase_after(cfg, replies.take(j))), timeout) == Ok::<
            u32,
            ErrorView,
        >(pid),
    ensures
        exists|i: int|
            0 <= i < j && action_in(#[trigger] phase_after(cfg, replies.take(i)))
                == ActionView::AnnounceStarted(pid),
{
    lemma_ready_after_starting(cfg, replies, j, pid);
    let i = choose|i: int|
        0 <= i < j && #[trigger] phase_after(cfg, replies.take(i)) == PhaseView::Starting(pid);
    assert(action_in(phase_after(cfg, replies.take(i))) == ActionView::AnnounceStarted(pid));
}

/// A session is ready for the pid whose start it announced.
proof fn lemma_ready_after_starting(cfg: CaptureView, replies: Seq<ReplyView>, j: int, pid: u32)
    requires
        0 <= j <= replies.len(),
        phase_after(cfg, replies.take(j)) == PhaseView::Ready(pid),
    ensures
        exists|i: int|
            0 <= i < j && #[trigger] phase_after(cfg, replies.take(i)) == PhaseView::Starting(pid),
    decreases j,
{
    assert(j > 0);
    assert(replies.take(j).drop_last() =~= replies.take(j - 1));
    let before = phase_after(cfg, replies.take(j - 1));
    if before is Ready {
        lemma_ready_after_starting(cfg, replies, j - 1, pid);
        let i = choose|i: int|
            0 <= i < j - 1 && #[trigger] phase_after(cfg, replies.take(i)) == PhaseView::Starting(
                pid,
            );
        assert(phase_after(cfg, replies.take(i)) == PhaseView::Starting(pid));
    } else {
        assert(before == PhaseView::Starting(pid));
    }
}

/// A spawned process that is not to be left suspended was resumed before the
/// handler hears of its start, and the script was loaded before that, all for
/// the same pid.
pub proof fn spawned_process_is_resumed_before_the_start(
    cfg: CaptureView,
    replies: Seq<ReplyView>,
    j: int,
    pid: u32,
)
    requires
        0 <= j <= replies.len(),
        cfg.target is Spawn,
        cfg.resume_after_spawn,
        phase_after(cfg, replies.take(j)) == PhaseView::Starting(pid),
    ensures
        exists|k: int, i: int|
            {
                &&& 0 <= k < i < j
                &&& #[trigger] phase_after(cfg, replies.take(k)) == PhaseView::Loading(
                    Process { pid, spawned: true },
                )
                &&& #[trigger] phase_after(cfg, replies.take(i)) == PhaseView::Resuming(pid)
            },
    decreases j,
{
    assert(j > 0);
    assert(replies.take(j).drop_last() =~= replies.take(j - 1));
    let before = phase_after(cfg, replies.take(j - 1));
    session_stays_consistent(cfg, replies.take(j - 1));
    if before is Starting {
        spawned_process_is_resumed_before_the_start(cfg, replies, j - 1, pid);
        let (k, i) = choose|k: int, i: int|
            {
                &&& 0 <= k < i < j - 1
                &&& #[trigger] phase_after(cfg, replies.take(k)) == PhaseView::Loading(
                    Process { pid, spawned: true },
                )
                &&& #[trigger] phase_after(cfg, replies.take(i)) == PhaseView::Resuming(pid)
            };
        assert(phase_after(cfg, replies.take(k)) is Loading);
        assert(phase_after(cfg, replies.take(i)) is Resuming);
    } else {
        assert(before == PhaseView::Resuming(pid));
        lemma_resumed_after_loading(cfg, replies, j - 1, pid);
        let k = choose|k: int|
            0 <= k < j - 1 && #[trigger] phase_after(cfg, replies.take(k)) == PhaseView::Loading(
                Process { pid, spawned: true },
            );
        assert(phase_after(cfg, replies.take(k)) is Loading);
        assert(phase_after(cfg, replies.take(j - 1)) is Resuming);
    }
}

/// A process is resumed after the script was loaded into it.
proof fn lemma_resumed_after_loading(cfg: CaptureView, replies: Seq<ReplyView>, j: int, pid: u32)
    requires
        0 <= j <= replies.len(),
        phase_after(cfg, replies.take(j)) == PhaseView::Resuming(pid),
    ensures
        exists|k: int|
            0 <= k < j && #[trigger] phase_after(cfg, replies.take(k)) == PhaseView::Loading(
                Process { pid, spawned: true },
            ),
    decreases j,
{
    assert(j > 0);
    assert(replies.take(j).drop_last() =~= replies.take(j - 1));
    let before = phase_after(cfg, replies.take(j - 1));
    if before is Resuming {
        lemma_resumed_after_loading(cfg, replies, j - 1, pid);
        let k = choose|k: int|
            0 <= k < j - 1 && #[trigger] phase_after(cfg, replies.take(k)) == PhaseView::Loading(
                Process { pid, spawned: true },
            );
        assert(phase_after(cfg, replies.take(k)) is Loading);
    } else {
        assert(before == PhaseView::Loading(Process { pid, spawned: true }));
    }
}

/// A script that is loaded without fail starts the session in order: a process
/// is resumed if and only if the target is a program to spawn and it is not to
/// be left suspended; then the handler hears of the start, then whoever waits
/// for it, and the session waits.
pub proof fn start_goes_in_order(cfg: CaptureView, p: Process)
    requires
        consistent(cfg, PhaseView::Loading(p)),
    ensures
        ({
            let done = ReplyView::Done;
            let resumes = cfg.target is Spawn && cfg.resume_after_spawn;
            let p1 = next_phase(cfg, PhaseView::Loading(p), done);
            let p2 = if resumes {
                next_phase(cfg, p1, done)
            } else {
                p1
            };
            let p3 = next_phase(cfg, p2, done);
            &&& resumes <==> p1 is Resuming
            &&& resumes ==> action_in(p1) == ActionView::Resume(p.pid)
            &&& action_in(p2) == ActionView::AnnounceStarted(p.pid)
            &&& action_in(p3) == ActionView::ReportStarted(p.pid)
            &&& next_phase(cfg, p3, done) is Waiting
        }),
{
}

/// Starting, getting ready, failing and detaching each happen at most once in
/// a session, so the handler hears of the start and of the end at most once,
/// and whoever waits for the start gets one answer: no session that announced
/// its start reports a failure, and the other way round. A session that failed
/// to start is over, and its end is not announced.
pub proof fn announcements_come_once(cfg: CaptureView, replies: Seq<ReplyView>, i: int, j: int)
    requires
        all_answer(cfg, replies),
        0 <= i < j <= replies.len(),
    ensures
        phase_after(cfg, replies.take(i)) is Starting ==> !(phase_after(cfg, replies.take(j))
            is Starting) && !(phase_after(cfg, replies.take(j)) is Failing),
        phase_after(cfg, replies.take(i)) is Ready ==> report_in(
            phase_after(cfg, replies.take(j)),
        ) is None,
        phase_after(cfg, replies.take(i)) is Failing ==> phase_after(cfg, replies.take(j))
            is Ended,
        phase_after(cfg, replies.take(i)) is Detaching ==> phase_after(cfg, replies.take(j))
            is Ended,
{
    lemma_answered_prefix(cfg, replies, j);
    let upto = replies.take(j);
    lemma_stages(cfg, upto, i);
    assert(upto.take(i) =~= replies.take(i));
    if started(phase_after(cfg, replies.take(i))) {
        lemma_no_failure_after_start(cfg, replies, i, j);
    }
    if phase_after(cfg, replies.take(i)) is Failing {
        lemma_over_after_failure(cfg, replies, i, j);
    }
}

/// After a failure to start a session reports it, and is over.
proof fn lemma_over_after_failure(cfg: CaptureView, replies: Seq<ReplyView>, i: int, j: int)
    requires
        0 <= i <= j <= replies.len(),
        phase_after(cfg, replies.take(i)) is Failing,
    ensures
        phase_after(cfg, replies.take(j)) is Failing || phase_after(cfg, replies.take(j)) is Ended,
    decreases j - i,
{
    if i < j {
        lemma_over_after_failure(cfg, replies, i, j - 1);
        assert(replies.take(j).drop_last() =~= replies.take(j - 1));
    }
}

/// Only a session that started announces its end: one that failed before
/// reaches the caller of the start as an error, and the handler hears nothing
/// of it.
pub proof fn only_a_started_session_detaches(cfg: CaptureView, replies: Seq<ReplyView>, j: int)
    requires
        0 <= j <= replies.len(),
        phase_after(cfg, replies.take(j)) is Detaching,
    ensures
        exists|i: int|
            0 <= i < j && #[trigger] phase_after(cfg, replies.take(i)) is Starting,
{
    lemma_started_before(cfg, replies, j);
}

/// A phase behind the announcement of the start.
spec fn runs(phase: PhaseView) -> bool {
    phase is Ready || phase is Waiting || phase is Checking || phase is Unloading || phase
        is Detaching
}

/// The announcement of the start came first.
proof fn lemma_started_before(cfg: CaptureView, replies: Seq<ReplyView>, j: int)
    requires
        0 <= j <= replies.len(),
        runs(phase_after(cfg, replies.take(j))),
    ensures
        exists|i: int|
            0 <= i < j && #[trigger] phase_after(cfg, replies.take(i)) is Starting,
    decreases j,
{
    assert(j > 0);
    assert(replies.take(j).drop_last() =~= replies.take(j - 1));
    let before = phase_after(cfg, replies.take(j - 1));
    if runs(before) {
        lemma_started_before(cfg, replies, j - 1);
        let i = choose|i: int|
            0 <= i < j - 1 && #[trigger] phase_after(cfg, replies.take(i)) is Starting;
        assert(phase_after(cfg, replies.take(i)) is Starting);
    } else {
        assert(before is Starting);
    }
}

/// After its start a session does not fail any more.
proof fn lemma_no_failure_after_start(cfg: CaptureView, replies: Seq<ReplyView>, i: int, j: int)
    requires
        0 <= i <= j <= replies.len(),
        started(phase_after(cfg, replies.take(i))),
    ensures
        started(phase_after(cfg, replies.take(j))),
    decreases j - i,
{
    if i < j {
        lemma_no_failure_after_start(cfg, replies, i, j - 1);
        assert(replies.take(j).drop_last() =~= replies.take(j - 1));
    }
}

/// A phase in which the start has been announced or is being announced.
pub open spec fn started(phase: PhaseView) -> bool {
    match phase {
        PhaseView::Starting(_) => true,
        PhaseView::Ready(_) => true,
        PhaseView::Waiting => true,
        PhaseView::Checking => true,
        PhaseView::Unloading => true,
        PhaseView::Detaching(_) => true,
        PhaseView::Ended => true,
        _ => false,
    }
}

/// The first replies of a run that answers throughout answer throughout.
proof fn lemma_answered_prefix(cfg: CaptureView, replies: Seq<ReplyView>, n: int)
    requires
        all_answer(cfg, replies),
        0 <= n <= replies.len(),
    ensures
        all_answer(cfg, replies.take(n)),
    decreases replies.len(),
{
    if n < replies.len() {
        lemma_answered_prefix(cfg, replies.drop_last(), n);
        assert(replies.drop_last().take(n) =~= replies.take(n));
    } else {
        assert(replies.take(n) =~= replies);
    }
}

/// A session says why it ended, truly: `Stopped` only after it was asked to
/// stop and the script was unloaded, and `Detected` only after the session was
/// seen detached. Nothing fails while a session runs, so no session ends with
/// an error.
pub proof fn detach_reason_is_true(cfg: CaptureView, phase: PhaseView, reply: ReplyView)
    requires
        !(phase is Detaching),
    ensures
        next_phase(cfg, phase, reply) matches PhaseView::Detaching(reason) ==> match reason {
            DetachReasonView::Stopped => phase is Unloading,
            DetachReasonView::Detected => phase is Checking && reply == ReplyView::Detached(true),
            DetachReasonView::Error(_) => false,
        },
        next_phase(cfg, phase, reply) is Unloading && !(phase is Unloading) ==> phase is Waiting
            && reply is StopRequested,
{
}

/// A session is over once its end was announced, or its failure to start was
/// reported; from there on nothing more is done.
pub proof fn session_ends_announced(cfg: CaptureView, phase: PhaseView, reply: ReplyView)
    ensures
        next_phase(cfg, phase, reply) is Ended ==> phase is Ended || phase is Detaching || phase
            is Failing,
        phase is Ended ==> next_phase(cfg, phase, reply) is Ended,
        action_in(PhaseView::Ended) is Nothing,
{
}

/// The start of a spawned process is announced only once the script is loaded
/// and the process runs, unless it is to be left suspended.
pub proof fn started_process_runs(cfg: CaptureView, phase: PhaseView, reply: ReplyView)
    requires
        consistent(cfg, phase),
        !(phase is Starting),
    ensures
        next_phase(cfg, phase, reply) is Starting ==> {
            ||| phase is Resuming
            ||| phase is Loading && !(cfg.target is Spawn && cfg.resume_after_spawn)
        },
{
}

/// A session that is asked to stop while it waits unloads its script, announces
/// that it was stopped, and is over, whether or not the unloading succeeds.
pub proof fn stop_ends_the_session(cfg: CaptureView, unloaded: ReplyView)
    requires
        unloaded is Done || unloaded is Failed,
    ensures
        ({
            let p1 = next_phase(cfg, PhaseView::Waiting, ReplyView::StopRequested);
            let p2 = next_phase(cfg, p1, unloaded);
            &&& action_in(p1) is UnloadScript
            &&& action_in(p2) == ActionView::AnnounceDetached(DetachReasonView::Stopped)
            &&& next_phase(cfg, p2, ReplyView::Done) is Ended
        }),
{
}

/// A session that looks its target up by name attaches to a process of that
/// name, or reports that there is none; if only the main process will do, its
/// parent is no process of the name.
pub proof fn lookup_attaches_to_the_name(
    cfg: CaptureView,
    lookup: LookupView,
    rule: NameMatch,
    ps: Seq<ProcessView>,
)
    ensures
        match next_phase(
            cfg,
            PhaseView::Listing(lookup),
            ReplyView::Processes { found: ps, rule },
        ) {
            PhaseView::Attaching(p) => !p.spawned && exists|i: int|
                {
                    &&& 0 <= i < ps.len()
                    &&& named(#[trigger] ps[i], lookup.name, rule)
                    &&& ps[i].pid == p.pid
                    &&& lookup.main ==> is_main(ps, lookup.name, rule, ps[i])
                },
            PhaseView::Failing(e) => {
                &&& e == ErrorView::ProcessNotFound(lookup.name)
                &&& forall|i: int|
                    0 <= i < ps.len() ==> !(if lookup.main {
                        is_main(ps, lookup.name, rule, #[trigger] ps[i])
                    } else {
                        named(ps[i], lookup.name, rule)
                    })
            },
            _ => false,
        },
{
    lookup_finds_a_process_of_the_name(ps, lookup.name, rule);
    main_process_is_no_child_of_its_name(ps, lookup.name, rule);
}

/// What a session asks for after these replies.
pub open spec fn asked(cfg: CaptureView, replies: Seq<ReplyView>) -> ActionView {
    action_in(phase_after(cfg, replies))
}

/// The phase after one more reply.
proof fn lemma_one_more_reply(cfg: CaptureView, replies: Seq<ReplyView>, reply: ReplyView)
    ensures
        phase_after(cfg, replies.push(reply)) == next_phase(cfg, phase_after(cfg, replies), reply),
{
    assert(replies.push(reply).drop_last() =~= replies);
}

/// A session first asks for the device. Once it is open, a session for a given
/// pid asks to attach to exactly that pid; one for a name asks for the
/// processes, with their parents if the main one is wanted; one for a program
/// asks to spawn it.
pub proof fn target_decides_what_follows_the_device(cfg: CaptureView, replies: Seq<ReplyView>)
    ensures
        asked(cfg, Seq::empty()) is OpenDevice,
        asked(cfg, replies) is OpenDevice ==> match cfg.target {
            TargetView::Pid(pid) => asked(cfg, replies.push(ReplyView::Done)) == ActionView::Attach(
                pid,
            ),
            TargetView::Name(_) => asked(cfg, replies.push(ReplyView::Done)) == (
            ActionView::ListProcesses { with_parents: false }),
            TargetView::MainByName(_) => asked(cfg, replies.push(ReplyView::Done)) == (
            ActionView::ListProcesses { with_parents: true }),
            TargetView::Spawn { .. } => asked(cfg, replies.push(ReplyView::Done)) is SpawnProgram,
        },
{
    lemma_one_more_reply(cfg, replies, ReplyView::Done);
}

/// A session that spawned a program asks to attach to exactly the pid that the
/// spawning gave.
pub proof fn spawned_pid_is_attached_to(cfg: CaptureView, replies: Seq<ReplyView>, pid: u32)
    requires
        asked(cfg, replies) is SpawnProgram,
    ensures
        asked(cfg, replies.push(ReplyView::Spawned(pid))) == ActionView::Attach(pid),
{
    lemma_one_more_reply(cfg, replies, ReplyView::Spawned(pid));
}

/// A session that looks for a name asks to attach to exactly the pid of the
/// first process whose name fits, or reports that there is none.
pub proof fn first_fitting_pid_is_attached_to(
    cfg: CaptureView,
    replies: Seq<ReplyView>,
    name: Seq<char>,
    rule: NameMatch,
    ps: Seq<ProcessView>,
)
    requires
        asked(cfg, replies) is ListProcesses,
        cfg.target == TargetView::Name(name),
    ensures
        match asked(cfg, replies.push(ReplyView::Processes { found: ps, rule })) {
            ActionView::Attach(pid) => exists|i: int|
                {
                    &&& 0 <= i < ps.len()
                    &&& (#[trigger] ps[i]).pid == pid
                    &&& name_fits(ps[i].name, name, rule)
                    &&& forall|j: int|
                        0 <= j < i ==> !name_fits((#[trigger] ps[j]).name, name, rule)
                },
            ActionView::ReportFailure(e) => {
                &&& e == ErrorView::ProcessNotFound(name)
                &&& forall|j: int|
                    0 <= j < ps.len() ==> !name_fits((#[trigger] ps[j]).name, name, rule)
            },
            _ => false,
        },
{
    let reply = ReplyView::Processes { found: ps, rule };
    session_stays_consistent(cfg, replies);
    lemma_one_more_reply(cfg, replies, reply);
    lookup_gives_the_first_that_fits(ps, name, rule);
}

/// A session that looks for the main process of a name asks to attach to
/// exactly the pid of the first process whose name fits and whose parent is
/// known and has none of the pids of that name, or reports that there is none.
pub proof fn main_pid_is_attached_to(
    cfg: CaptureView,
    replies: Seq<ReplyView>,
    name: Seq<char>,
    rule: NameMatch,
    ps: Seq<ProcessView>,
)
    requires
        asked(cfg, replies) is ListProcesses,
        cfg.target == TargetView::MainByName(name),
    ensures
        match asked(cfg, replies.push(ReplyView::Processes { found: ps, rule })) {
            ActionView::Attach(pid) => exists|i: int|
                {
                    &&& 0 <= i < ps.len()
                    &&& (#[trigger] ps[i]).pid == pid
                    &&& heads_its_name(ps, name, rule, i)
                    &&& forall|j: int| 0 <= j < i ==> !heads_its_name(ps, name, rule, j)
                },
            ActionView::ReportFailure(e) => {
                &&& e == ErrorView::ProcessNotFound(name)
                &&& forall|j: int| !heads_its_name(ps, name, rule, j)
            },
            _ => false,
        },
{
    let reply = ReplyView::Processes { found: ps, rule };
    session_stays_consistent(cfg, replies);
    lemma_one_more_reply(cfg, replies, reply);
    main_lookup_gives_the_first_with_a_foreign_parent(ps, name, rule);
}

/// The actions of a session follow each other by what is replied: from
/// attaching to waiting when all goes well, from waiting to the announced end,
/// and to the report of the very failure where the toolkit refuses something
/// before the start. A reply to something else changes nothing.
pub proof fn actions_follow_each_other(
    cfg: CaptureView,
    replies: Seq<ReplyView>,
    reply: ReplyView,
)
    ensures
        ({
            let next = asked(cfg, replies.push(reply));
            match (asked(cfg, replies), reply) {
                (ActionView::Attach(_), ReplyView::Done) => next is CreateScript,
                (ActionView::CreateScript, ReplyView::Done) => next is InstallHandler,
                (ActionView::InstallHandler, ReplyView::Done) => next is LoadScript,
                (ActionView::LoadScript, ReplyView::Done) => if cfg.target is Spawn
                    && cfg.resume_after_spawn {
                    next is Resume
                } else {
                    next is AnnounceStarted
                },
                (ActionView::Resume(pid), ReplyView::Done) => next == ActionView::AnnounceStarted(
                    pid,
                ),
                (ActionView::AnnounceStarted(pid), ReplyView::Done) => next
                    == ActionView::ReportStarted(pid),
                (ActionView::ReportStarted(_), ReplyView::Done) => next is AwaitStop,
                (ActionView::AwaitStop, ReplyView::StopRequested) => next is UnloadScript,
                (ActionView::AwaitStop, ReplyView::TimedOut) => next is CheckDetached,
                (ActionView::CheckDetached, ReplyView::Detached(detached)) => if detached {
                    next == ActionView::AnnounceDetached(DetachReasonView::Detected)
                } else {
                    next is AwaitStop
                },
                (ActionView::UnloadScript, ReplyView::Done) => next
                    == ActionView::AnnounceDetached(DetachReasonView::Stopped),
                (ActionView::UnloadScript, ReplyView::Failed(_)) => next
                    == ActionView::AnnounceDetached(DetachReasonView::Stopped),
                (ActionView::ReportFailure(_), ReplyView::Done) => next is Nothing,
                (ActionView::AnnounceDetached(_), ReplyView::Done) => next is Nothing,
                (ActionView::Nothing, _) => next is Nothing,
                (ActionView::OpenDevice, ReplyView::Failed(e)) => next
                    == ActionView::ReportFailure(ErrorView::Frida(e)),
                (ActionView::SpawnProgram, ReplyView::Failed(e)) => next
                    == ActionView::ReportFailure(ErrorView::Frida(e)),
                (ActionView::Attach(_), ReplyView::Failed(e)) => next == ActionView::ReportFailure(
                    ErrorView::Frida(e),
                ),
                (ActionView::CreateScript, ReplyView::Failed(e)) => next
                    == ActionView::ReportFailure(ErrorView::Frida(e)),
                (ActionView::InstallHandler, ReplyView::Failed(e)) => next
                    == ActionView::ReportFailure(ErrorView::Frida(e)),
                (ActionView::LoadScript, ReplyView::Failed(e)) => next
                    == ActionView::ReportFailure(ErrorView::Frida(e)),
                (ActionView::Resume(_), ReplyView::Failed(e)) => next == ActionView::ReportFailure(
                    ErrorView::Frida(e),
                ),
                (ActionView::OpenDevice, ReplyView::Done) => true,
                (ActionView::SpawnProgram, ReplyView::Spawned(_)) => true,
                (ActionView::ListProcesses { .. }, ReplyView::Processes { .. }) => true,
                (same, _) => next == same,
            }
        }),
{
    session_stays_consistent(cfg, replies);
    lemma_one_more_reply(cfg, replies, reply);
}

/// The process that a phase is about, while it is about one.
spec fn process_in(phase: PhaseView) -> Option<u32> {
    match phase {
        PhaseView::Attaching(p) => Some(p.pid),
        PhaseView::Creating(p) => Some(p.pid),
        PhaseView::Installing(p) => Some(p.pid),
        PhaseView::Loading(p) => Some(p.pid),
        PhaseView::Resuming(pid) => Some(pid),
        PhaseView::Starting(pid) => Some(pid),
        PhaseView::Ready(pid) => Some(pid),
        _ => None,
    }
}

/// A phase is about a process that the session asked to attach to.
proof fn lemma_attached_before(cfg: CaptureView, replies: Seq<ReplyView>, j: int, pid: u32)
    requires
        0 <= j <= replies.len(),
        process_in(phase_after(cfg, replies.take(j))) == Some(pid),
    ensures
        exists|i: int|
            0 <= i <= j && #[trigger] asked(cfg, replies.take(i)) == ActionView::Attach(pid),
    decreases j,
{
    let phase = phase_after(cfg, replies.take(j));
    if phase is Attaching {
        assert(asked(cfg, replies.take(j)) == ActionView::Attach(pid));
    } else {
        assert(j > 0);
        assert(replies.take(j).drop_last() =~= replies.take(j - 1));
        lemma_attached_before(cfg, replies, j - 1, pid);
        let i = choose|i: int|
            0 <= i <= j - 1 && #[trigger] asked(cfg, replies.take(i)) == ActionView::Attach(pid);
        assert(asked(cfg, replies.take(i)) == ActionView::Attach(pid));
    }
}

/// Whatever pid a session asks to resume, announces or reports, it asked to
/// attach to that pid before.
pub proof fn later_pids_are_the_attached_one(
    cfg: CaptureView,
    replies: Seq<ReplyView>,
    j: int,
    pid: u32,
)
    requires
        0 <= j <= replies.len(),
        asked(cfg, replies.take(j)) == ActionView::Resume(pid) || asked(cfg, replies.take(j))
            == ActionView::AnnounceStarted(pid) || asked(cfg, replies.take(j))
            == ActionView::ReportStarted(pid),
    ensures
        exists|i: int|
            0 <= i < j && #[trigger] asked(cfg, replies.take(i)) == ActionView::Attach(pid),
{
    lemma_attached_before(cfg, replies, j, pid);
    let i = choose|i: int|
        0 <= i <= j && #[trigger] asked(cfg, replies.take(i)) == ActionView::Attach(pid);
    assert(asked(cfg, replies.take(i)) == ActionView::Attach(pid));
}

/// Once a session is about a process it is about no other.
proof fn lemma_one_process(cfg: CaptureView, replies: Seq<ReplyView>, i: int, j: int, pid: u32)
    requires
        0 <= i <= j <= replies.len(),
        process_in(phase_after(cfg, replies.take(i))) == Some(pid),
    ensures
        process_in(phase_after(cfg, replies.take(j))) matches Some(other) ==> other == pid,
        stage(phase_after(cfg, replies.take(j))) >= stage(phase_after(cfg, replies.take(i))),
    decreases j - i,
{
    if i < j {
        lemma_one_process(cfg, replies, i, j - 1, pid);
        assert(replies.take(j).drop_last() =~= replies.take(j - 1));
    }
}

/// A session asks to attach to one process only.
pub proof fn one_process_is_attached_to(
    cfg: CaptureView,
    replies: Seq<ReplyView>,
    i: int,
    j: int,
    pid: u32,
    other: u32,
)
    requires
        0 <= i <= j <= replies.len(),
        asked(cfg, replies.take(i)) == ActionView::Attach(pid),
        asked(cfg, replies.take(j)) == ActionView::Attach(other),
    ensures
        pid == other,
{
    lemma_one_process(cfg, replies, i, j, pid);
}

/// The views of actions, replies, lookups and phases keep what they hold.
pub proof fn views_keep_the_session(
    pid: u32,
    b: bool,
    text: String,
    e: Error,
    reason: DetachReason,
    found: Vec<ProcessInfo>,
    rule: NameMatch,
    p: Process,
    lookup: Lookup,
)
    ensures
        (Action::ListProcesses { with_parents: b })@ == (ActionView::ListProcesses {
            with_parents: b,
        }),
        Action::Attach(pid)@ == ActionView::Attach(pid),
        Action::Resume(pid)@ == ActionView::Resume(pid),
        Action::AnnounceStarted(pid)@ == ActionView::AnnounceStarted(pid),
        Action::ReportStarted(pid)@ == ActionView::ReportStarted(pid),
        Action::ReportFailure(e)@ == ActionView::ReportFailure(e@),
        Action::AnnounceDetached(reason)@ == ActionView::AnnounceDetached(reason@),
        Action::OpenDevice@ is OpenDevice,
        Action::SpawnProgram@ is SpawnProgram,
        Action::CreateScript@ is CreateScript,
        Action::InstallHandler@ is InstallHandler,
        Action::LoadScript@ is LoadScript,
        Action::AwaitStop@ is AwaitStop,
        Action::CheckDetached@ is CheckDetached,
        Action::UnloadScript@ is UnloadScript,
        Action::Nothing@ is Nothing,
        Reply::Done@ is Done,
        Reply::Failed(text)@ == ReplyView::Failed(text@),
        (Reply::Processes { found, rule })@ == (ReplyView::Processes {
            found: process_views(found@),
            rule,
        }),
        Reply::Spawned(pid)@ == ReplyView::Spawned(pid),
        Reply::StopRequested@ is StopRequested,
        Reply::TimedOut@ is TimedOut,
        Reply::Detached(b)@ == ReplyView::Detached(b),
        lookup@.name == lookup.name@,
        lookup@.main == lookup.main,
        Phase::Opening@ is Opening,
        Phase::Listing(lookup)@ == PhaseView::Listing(lookup@),
        Phase::Spawning@ is Spawning,
        Phase::Attaching(p)@ == PhaseView::Attaching(p),
        Phase::Creating(p)@ == PhaseView::Creating(p),
        Phase::Installing(p)@ == PhaseView::Installing(p),
        Phase::Loading(p)@ == PhaseView::Loading(p),
        Phase::Resuming(pid)@ == PhaseView::Resuming(pid),
        Phase::Starting(pid)@ == PhaseView::Starting(pid),
        Phase::Ready(pid)@ == PhaseView::Ready(pid),
        Phase::Failing(e)@ == PhaseView::Failing(e@),
        Phase::Detaching(reason)@ == PhaseView::Detaching(reason@),
{
}

/// What a session is about to do is what its phase says, with the very pid or
/// error that the phase holds.
pub proof fn action_is_that_of_the_phase(w: &Worker, r: Action)
    requires
        call_ensures(Worker::action, (w,), r),
    ensures
        match w.phase {
            Phase::Opening => r is OpenDevice,
            Phase::Listing(lookup) => r is ListProcesses && r->with_parents == lookup.main,
            Phase::Spawning => r is SpawnProgram,
            Phase::Attaching(p) => r is Attach && r->Attach_0 == p.pid,
            Phase::Creating(_) => r is CreateScript,
            Phase::Installing(_) => r is InstallHandler,
            Phase::Loading(_) => r is LoadScript,
            Phase::Resuming(pid) => r is Resume && r->Resume_0 == pid,
            Phase::Starting(pid) => r is AnnounceStarted && r->AnnounceStarted_0 == pid,
            Phase::Ready(pid) => r is ReportStarted && r->ReportStarted_0 == pid,
            Phase::Waiting => r is AwaitStop,
            Phase::Checking => r is CheckDetached,
            Phase::Unloading => r is UnloadScript,
            Phase::Failing(e) => r is ReportFailure && r->ReportFailure_0@ == e@,
            Phase::Detaching(reason) => r is AnnounceDetached && r->AnnounceDetached_0@ == reason@,
            Phase::Ended => r is Nothing,
        },
{
}

/// Each reply moves a session on: a pid that is given, found or spawned is the
/// one that the next phases are about, all along to the wait; what the toolkit
/// refuses before that is what is reported; the end is announced with its
/// reason. A reply to something else changes nothing.
pub proof fn replies_move_the_session_on()
    ensures
        forall|w: &mut Worker, reply: Reply| #[trigger]
            call_ensures(Worker::on_reply, (w, reply), ()) ==> {
                let cfg = (*w).cfg;
                let after = (*final(w)).phase;
                &&& (*final(w)).cfg == cfg
                &&& match ((*w).phase, reply) {
                    (Phase::Opening, Reply::Done) => match cfg.target {
                        Target::Pid(pid) => after == Phase::Attaching(
                            Process { pid, spawned: false },
                        ),
                        Target::Name(name) => after is Listing && after->Listing_0.name@ == name@
                            && !after->Listing_0.main,
                        Target::MainByName(name) => after is Listing && after->Listing_0.name@
                            == name@ && after->Listing_0.main,
                        Target::Spawn { .. } => after is Spawning,
                    },
                    (Phase::Spawning, Reply::Spawned(pid)) => after == Phase::Attaching(
                        Process { pid, spawned: true },
                    ),
                    (Phase::Listing(lookup), Reply::Processes { found, rule }) => {
                        ||| after matches Phase::Attaching(p) && !p.spawned && exists|i: int|
                            0 <= i < found@.len() && (#[trigger] found@[i]).pid == p.pid
                                && name_fits(found@[i].name@, lookup.name@, rule)
                        ||| after matches Phase::Failing(e) && e@ == ErrorView::ProcessNotFound(
                            lookup.name@,
                        )
                    },
                    (Phase::Attaching(p), Reply::Done) => after == Phase::Creating(p),
                    (Phase::Creating(p), Reply::Done) => after == Phase::Installing(p),
                    (Phase::Installing(p), Reply::Done) => after == Phase::Loading(p),
                    (Phase::Loading(p), Reply::Done) => if p.spawned && cfg.resume_after_spawn {
                        after == Phase::Resuming(p.pid)
                    } else {
                        after == Phase::Starting(p.pid)
                    },
                    (Phase::Resuming(pid), Reply::Done) => after == Phase::Starting(pid),
                    (Phase::Starting(pid), Reply::Done) => after == Phase::Ready(pid),
                    (Phase::Ready(_), Reply::Done) => after is Waiting,
                    (Phase::Waiting, Reply::StopRequested) => after is Unloading,
                    (Phase::Waiting, Reply::TimedOut) => after is Checking,
                    (Phase::Checking, Reply::Detached(detached)) => if detached {
                        after is Detaching && after->Detaching_0 is Detected
                    } else {
                        after is Waiting
                    },
                    (Phase::Unloading, Reply::Done) => after is Detaching
                        && after->Detaching_0 is Stopped,
                    (Phase::Unloading, Reply::Failed(_)) => after is Detaching
                        && after->Detaching_0 is Stopped,
                    (Phase::Failing(_), Reply::Done) => after is Ended,
                    (Phase::Detaching(_), Reply::Done) => after is Ended,
                    (Phase::Opening, Reply::Failed(t)) => fails_with(after, t@),
                    (Phase::Spawning, Reply::Failed(t)) => fails_with(after, t@),
                    (Phase::Attaching(_), Reply::Failed(t)) => fails_with(after, t@),
                    (Phase::Creating(_), Reply::Failed(t)) => fails_with(after, t@),
                    (Phase::Installing(_), Reply::Failed(t)) => fails_with(after, t@),
                    (Phase::Loading(_), Reply::Failed(t)) => fails_with(after, t@),
                    (Phase::Resuming(_), Reply::Failed(t)) => fails_with(after, t@),
                    (same, _) => after@ == same@,
                }
            },
{
    assert forall|w: &mut Worker, reply: Reply| #[trigger]
        call_ensures(Worker::on_reply, (w, reply), ()) implies ((*w).phase matches Phase::Listing(
        lookup,
    ) ==> reply matches Reply::Processes { found, rule } ==> {
        let after = (*final(w)).phase;
        ||| after matches Phase::Attaching(p) && !p.spawned && exists|i: int|
            0 <= i < found@.len() && (#[trigger] found@[i]).pid == p.pid && name_fits(
                found@[i].name@,
                lookup.name@,
                rule,
            )
        ||| after matches Phase::Failing(e) && e@ == ErrorView::ProcessNotFound(lookup.name@)
    }) by {
        if let Phase::Listing(lookup) = (*w).phase {
            if let Reply::Processes { found, rule } = reply {
                let ps = process_views(found@);
                lookup_attaches_to_the_name((*w).cfg@, lookup@, rule, ps);
                if let Phase::Attaching(p) = (*final(w)).phase {
                    let i = choose|i: int|
                        {
                            &&& 0 <= i < ps.len()
                            &&& named(#[trigger] ps[i], lookup@.name, rule)
                            &&& ps[i].pid == p.pid
                            &&& lookup@.main ==> is_main(ps, lookup@.name, rule, ps[i])
                        };
                    assert(ps[i] == found@[i]@);
                    assert(found@[i].pid == p.pid);
                }
            }
        }
    }
}

/// A phase that reports that the toolkit refused with this text.
pub open spec fn fails_with(phase: Phase, t: Seq<char>) -> bool {
    phase matches Phase::Failing(Error::Frida(text)) && text@ == t
}

} // verus!
