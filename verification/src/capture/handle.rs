//! The caller's side of a running session: stopping it once, and what a start
//! or a stop came to.

use std::time::Duration;
use vstd::prelude::*;

use crate::error::{Error, ErrorView};
use crate::text::join;

verus! {

/// What is left to do to stop a session.
#[derive(Debug, Clone, Copy, PartialEq, Eq, Structural)]
pub struct StopPlan {
    /// Send the worker the stop signal.
    pub signal: bool,
    /// Wait until the worker is through.
    pub join: bool,
}

/// What the handle of a running session keeps track of: the process, and that
/// the session is stopped only once.
#[derive(Debug)]
pub struct CaptureHandle {
    signal: bool,
    worker: bool,
    pid: u32,
}

impl CaptureHandle {
    /// The process the session is attached to.
    pub closed spec fn process(self) -> u32 {
        self.pid
    }

    /// What is left to do to stop the session.
    pub closed spec fn left(self) -> StopPlan {
        StopPlan { signal: self.signal, join: self.worker }
    }

    /// The handle of a session that runs.
    pub fn new(pid: u32) -> (r: CaptureHandle)
        ensures
            r.process() == pid,
            r.left() == (StopPlan { signal: true, join: true }),
    {
        CaptureHandle { signal: true, worker: true, pid }
    }

    /// The pid attached to, or spawned.
    pub fn pid(&self) -> (r: u32)
        ensures
            r == self.process(),
    {
        self.pid
    }

    /// Takes what is left to do to stop the session; a second time that is
    /// nothing.
    pub fn take_stop(&mut self) -> (r: StopPlan)
        ensures
            r == old(self).left(),
            final(self).left() == (StopPlan { signal: false, join: false }),
            final(self).process() == old(self).process(),
    {
        let plan = StopPlan { signal: self.signal, join: self.worker };
        self.signal = false;
        self.worker = false;
        plan
    }
}

/// What stopping a session came to, given how the worker ended: on its own, or
/// in a panic with this payload.
pub fn stop_outcome(joined: Result<(), String>) -> (r: Result<(), Error>)
    ensures
        match joined {
            Ok(_) => r is Ok,
            Err(payload) => r is Err && r->Err_0@ == ErrorView::WorkerPanic(payload@),
        },
{
    match joined {
        Ok(_) => Ok(()),
        Err(payload) => Err(Error::WorkerPanic(payload)),
    }
}

/// What a start comes to, given what the worker reported within the timeout, if
/// anything: the pid, the failure as it was reported, or that the time ran
/// out.
pub open spec fn start_result(
    report: Option<Result<u32, ErrorView>>,
    timeout: Duration,
) -> Result<u32, ErrorView> {
    match report {
        Some(outcome) => outcome,
        None => Err(ErrorView::StartTimeout(timeout)),
    }
}

/// A report of the worker, with an error as a mathematical value.
pub open spec fn report_view(report: Option<Result<u32, Error>>) -> Option<
    Result<u32, ErrorView>,
> {
    match report {
        Some(Ok(pid)) => Some(Ok(pid)),
        Some(Err(e)) => Some(Err(e@)),
        None => None,
    }
}

/// What starting a session came to, given what the worker reported within the
/// timeout, if anything.
pub fn start_outcome(report: Option<Result<u32, Error>>, timeout: Duration) -> (r: Result<
    CaptureHandle,
    Error,
>)
    ensures
        match start_result(report_view(report), timeout) {
            Ok(pid) => {
                &&& r is Ok
                &&& r->Ok_0.process() == pid
                &&& r->Ok_0.left() == (StopPlan { signal: true, join: true })
            },
            Err(e) => r is Err && r->Err_0@ == e,
        },
{
    match report {
        Some(Ok(pid)) => Ok(CaptureHandle::new(pid)),
        Some(Err(e)) => Err(e),
        None => Err(Error::StartTimeout(timeout)),
    }
}

/// The worker could not be spawned.
pub fn spawn_failed(e: &str) -> (r: Error)
    ensures
        r@ == ErrorView::Frida("spawn worker: "@ + e@),
{
    Error::Frida(join("spawn worker: ", e))
}

/// A start succeeds with the very pid that the worker reports, fails with the
/// very error that it reports, and without a report says how long it waited.
pub proof fn start_follows_the_report(pid: u32, e: Error, timeout: Duration)
    ensures
        start_result(report_view(Some(Ok(pid))), timeout) == Ok::<u32, ErrorView>(pid),
        start_result(report_view(Some(Err(e))), timeout) == Err::<u32, ErrorView>(e@),
        start_result(report_view(None), timeout) == Err::<u32, ErrorView>(
            ErrorView::StartTimeout(timeout),
        ),
{
}

/// The handle of a session that started has the very pid that was reported, and
/// a start that failed or took too long fails with what was reported or with
/// how long it waited.
pub proof fn handles_have_the_reported_pid(
    report: Option<Result<u32, Error>>,
    timeout: Duration,
    r: Result<CaptureHandle, Error>,
    pid: u32,
)
    requires
        call_ensures(start_outcome, (report, timeout), r),
    ensures
        match report {
            Some(Ok(p)) => r is Ok && (call_ensures(CaptureHandle::pid, (&r->Ok_0,), pid) ==> pid
                == p),
            Some(Err(e)) => r is Err && r->Err_0@ == e@,
            None => r is Err && r->Err_0 is StartTimeout && r->Err_0->StartTimeout_0 == timeout,
        },
{
}

/// A handle is stopped once: the first time there is a signal to send and a
/// worker to wait for, from then on there is neither. Its pid stays.
pub proof fn handles_are_stopped_once()
    ensures
        forall|pid: u32, r: CaptureHandle| #[trigger] call_ensures(CaptureHandle::new, (pid,), r)
            ==> r.left().signal && r.left().join && r.process() == pid,
        forall|h: &mut CaptureHandle, r: StopPlan| #[trigger]
            call_ensures(CaptureHandle::take_stop, (h,), r) ==> {
                &&& r.signal == (*h).left().signal
                &&& r.join == (*h).left().join
                &&& !(*final(h)).left().signal
                &&& !(*final(h)).left().join
                &&& (*final(h)).process() == (*h).process()
            },
{
}

/// A worker that ended on its own was stopped well; one that panicked gives an
/// error with its payload. One that could not be spawned gives the reason.
pub proof fn ends_of_the_worker_are_told(joined: Result<(), String>, r: Result<(), Error>)
    requires
        call_ensures(stop_outcome, (joined,), r),
    ensures
        joined is Ok <==> r is Ok,
        joined matches Err(payload) ==> r->Err_0 is WorkerPanic && r->Err_0->WorkerPanic_0@
            == payload@,
        forall|e: &str, f: Error| #[trigger]
            call_ensures(spawn_failed, (e,), f) ==> f is Frida && f->Frida_0@ == "spawn worker: "@
                + e@,
{
}

} // verus!
