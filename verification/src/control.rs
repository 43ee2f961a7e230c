//! When scans run: one at a time, and a new request ends the one that runs.

use vstd::prelude::*;

verus! {

/// A request to the scanner.
#[derive(Clone, Copy, PartialEq, Eq, Structural, Debug)]
pub enum DiscoverySignal {
    ScanNow,
}

/// What the channel of requests holds.
#[derive(Clone, Copy, PartialEq, Eq, Structural, Debug)]
pub enum Request {
    /// A request.
    Signal(DiscoverySignal),
    /// None yet.
    Quiet,
    /// No more will come.
    Closed,
}

/// What the scanner does next.
#[derive(Clone, Copy, PartialEq, Eq, Structural, Debug)]
pub enum ScannerStep {
    /// Waits for a request.
    Wait,
    /// Begins a scan, after ending any that still runs.
    Begin,
    /// Waits a moment for the scan that runs.
    Poll,
    /// Ends the scan that runs.
    Cancel,
    /// Waits for the scan that runs to end.
    Join,
    /// Ends.
    Quit,
}

/// The scanner between scans: whether a scan was asked for while another ran.
pub struct Scanner {
    pub pending: bool,
}

/// What an idle scanner does, given what the channel holds.
pub open spec fn idle(pending: bool, request: Request) -> ScannerStep {
    if pending {
        ScannerStep::Begin
    } else {
        match request {
            Request::Signal(_) => ScannerStep::Begin,
            Request::Quiet => ScannerStep::Wait,
            Request::Closed => ScannerStep::Quit,
        }
    }
}

/// What a scanner does while a scan runs or has finished.
pub open spec fn running(finished: bool, request: Request) -> ScannerStep {
    if finished {
        ScannerStep::Join
    } else {
        match request {
            Request::Signal(_) => ScannerStep::Cancel,
            Request::Quiet => ScannerStep::Poll,
            Request::Closed => ScannerStep::Join,
        }
    }
}

impl Scanner {
    /// A scanner of which nothing was asked yet.
    pub fn new() -> (r: Scanner)
        ensures
            !r.pending,
    {
        Scanner { pending: false }
    }

    /// What the scanner does when no scan runs. Where a scan is pending, the
    /// channel need not be looked at.
    pub fn idle_step(&mut self, request: Request) -> (r: ScannerStep)
        ensures
            r == idle(old(self).pending, request),
            !final(self).pending,
    {
        let pending = self.pending;
        self.pending = false;
        if pending {
            return ScannerStep::Begin;
        }
        match request {
            Request::Signal(_) => ScannerStep::Begin,
            Request::Quiet => ScannerStep::Wait,
            Request::Closed => ScannerStep::Quit,
        }
    }

    /// What the scanner does while a scan runs or has finished.
    pub fn running_step(&mut self, finished: bool, request: Request) -> (r: ScannerStep)
        ensures
            r == running(finished, request),
            final(self).pending == (old(self).pending || r == ScannerStep::Cancel),
    {
        if finished {
            return ScannerStep::Join;
        }
        match request {
            Request::Signal(_) => {
                self.pending = true;
                ScannerStep::Cancel
            },
            Request::Quiet => ScannerStep::Poll,
            Request::Closed => ScannerStep::Join,
        }
    }
}

/// Whether a scan is asked for after a step of a scanner.
pub open spec fn pending_after(pending: bool, step: ScannerStep) -> bool {
    pending || step == ScannerStep::Cancel
}

/// A request is never lost: one that ends a scan begins the next as soon as no
/// scan runs.
pub proof fn law_request_kept(pending: bool, signal: DiscoverySignal, later: Request)
    ensures
        idle(
            pending_after(pending, running(false, Request::Signal(signal))),
            later,
        ) == ScannerStep::Begin,
{
}

// ---------------------------------------------------------------------------
// The stages of a scan
// ---------------------------------------------------------------------------

/// The stages by which more is learned of the devices that a scan found.
#[derive(Clone, Copy, PartialEq, Eq, Structural, Debug)]
pub enum Stage {
    /// Listens to announcements.
    Announcements,
    /// Looks for names.
    Names,
    /// Searches for descriptions by UPnP.
    Descriptions,
    /// Searches for web services.
    Services,
    /// Asks for the options that devices want.
    Options,
    /// Reads pages.
    Pages,
    /// Judges the devices.
    Judgement,
    /// Takes the last announcements and keeps the devices.
    Conclusion,
    /// Is over.
    Over,
}

/// The first stage; none where the scan was cancelled.
pub open spec fn stage_first(cancelled: bool) -> Stage {
    if cancelled {
        Stage::Over
    } else {
        Stage::Announcements
    }
}

/// The stage behind a stage. A scan that is cancelled is over, but what was
/// judged is also concluded.
pub open spec fn stage_after(stage: Stage, cancelled: bool) -> Stage {
    match stage {
        Stage::Judgement => Stage::Conclusion,
        Stage::Conclusion => Stage::Over,
        _ if cancelled => Stage::Over,
        Stage::Announcements => Stage::Names,
        Stage::Names => Stage::Descriptions,
        Stage::Descriptions => Stage::Services,
        Stage::Services => Stage::Options,
        Stage::Options => Stage::Pages,
        Stage::Pages => Stage::Judgement,
        Stage::Over => Stage::Over,
    }
}

/// The first stage.
pub fn first_stage(cancelled: bool) -> (r: Stage)
    ensures
        r == stage_first(cancelled),
{
    if cancelled {
        Stage::Over
    } else {
        Stage::Announcements
    }
}

/// The stage behind a stage.
pub fn next_stage(stage: Stage, cancelled: bool) -> (r: Stage)
    ensures
        r == stage_after(stage, cancelled),
{
    match stage {
        Stage::Judgement => Stage::Conclusion,
        Stage::Conclusion => Stage::Over,
        _ if cancelled => Stage::Over,
        Stage::Announcements => Stage::Names,
        Stage::Names => Stage::Descriptions,
        Stage::Descriptions => Stage::Services,
        Stage::Services => Stage::Options,
        Stage::Options => Stage::Pages,
        Stage::Pages => Stage::Judgement,
        Stage::Over => Stage::Over,
    }
}

/// The place of a stage in the order of all stages.
pub open spec fn stage_place(stage: Stage) -> nat {
    match stage {
        Stage::Announcements => 0,
        Stage::Names => 1,
        Stage::Descriptions => 2,
        Stage::Services => 3,
        Stage::Options => 4,
        Stage::Pages => 5,
        Stage::Judgement => 6,
        Stage::Conclusion => 7,
        Stage::Over => 8,
    }
}

/// A scan goes through its stages in order and ends; one that is not cancelled
/// leaves none out, and one that is cancelled before its devices are judged is
/// not concluded.
pub proof fn law_stages_in_order(stage: Stage, cancelled: bool)
    ensures
        stage != Stage::Over ==> stage_place(stage_after(stage, cancelled)) > stage_place(stage),
        stage != Stage::Over && !cancelled ==> stage_place(stage_after(stage, false)) == stage_place(
            stage,
        ) + 1,
        cancelled && stage_after(stage, cancelled) == Stage::Conclusion ==> stage
            == Stage::Judgement,
        stage_after(Stage::Over, cancelled) == Stage::Over,
{
}

/// What the scanner does on a request: without a scan it begins one, and while
/// one runs it ends that first; when no more requests come it quits, once the
/// scan has ended.
pub proof fn law_scanner_steps(signal: DiscoverySignal, pending: bool)
    ensures
        idle(false, Request::Signal(signal)) == ScannerStep::Begin,
        idle(true, Request::Quiet) == ScannerStep::Begin,
        idle(false, Request::Quiet) == ScannerStep::Wait,
        idle(false, Request::Closed) == ScannerStep::Quit,
        running(false, Request::Signal(signal)) == ScannerStep::Cancel,
        running(false, Request::Quiet) == ScannerStep::Poll,
        running(false, Request::Closed) == ScannerStep::Join,
        running(true, Request::Quiet) == ScannerStep::Join,
        pending_after(pending, ScannerStep::Cancel),
        pending_after(pending, ScannerStep::Poll) == pending,
        stage_first(true) == Stage::Over,
        stage_first(false) == Stage::Announcements,
{
}

} // verus!
