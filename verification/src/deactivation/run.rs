//! The decisions of a deactivation run that follow its outside steps: how
//! the overlay-layer cleanup ends in each mode, the steps of the switch to
//! the decoy system profile, and the report of a run.
//!
//! A run checks the state (`deactivation_start`), marks the system
//! deactivating, cleans the overlay layer (`cleanup_outcome`), unmounts the
//! overlays (`unmount_overlays`), cleans the real disk where wanted
//! (`post_unmount_cleanup_wanted`), switches to the decoy profile
//! (`decoy_start` and the steps after it) and marks the system inactive;
//! `completed_report` is its report.  `run_step` keeps that order: from the
//! phase and what the last outside step gave, it says what to do next, and
//! after any failure once the state was changed it writes back the active
//! state the run found (`law_failed_run_restores_state`).
use crate::deactivation::{
    cannot_deactivate_error, check_cleanup_report, cleanup_errors_error, cleanup_unverified_error,
    deactivation_start, post_unmount_cleanup_wanted, CleanupMode, CleanupReport, DeactivationMode,
    DeactivationReport, DeactivationStart, ElapsedTime, PostUnmountCleanupReport, SystemState,
};
use crate::error::{concat, err_message, ErrView, NailsError, Result};
use crate::path::{join_spec, path_join};
use vstd::prelude::*;

verus! {

/// How the overlay-layer cleanup ends for a run: in normal mode a failed
/// cleanup, or one with errors or a failed verification, stops the run; in
/// emergency mode a failed cleanup is replaced by an empty fast report and
/// errors in a report do not stop it.
pub fn cleanup_outcome(mode: DeactivationMode, cleanup: Result<CleanupReport>) -> (r: Result<
    CleanupReport,
>)
    ensures
        mode == DeactivationMode::Normal ==> match cleanup {
            Err(e) => r matches Err(x) && x.deep_view() == e.deep_view(),
            Ok(rep) => if rep.errors@.len() > 0 {
                r matches Err(x) && x.deep_view() == cleanup_errors_error(rep.errors.deep_view())
            } else if rep.verification_passed == Some(false) {
                r matches Err(x) && x.deep_view() == cleanup_unverified_error()
            } else {
                r == Ok::<CleanupReport, NailsError>(rep)
            },
        },
        mode == DeactivationMode::Emergency ==> match cleanup {
            Err(_) => r matches Ok(x) && x.mode == CleanupMode::Fast && x.cleaned_items@.len() == 0
                && x.errors@.len() == 0 && x.verification_passed is None
                && x.duration.millis_spec() == 0,
            Ok(rep) => r == Ok::<CleanupReport, NailsError>(rep),
        },
{
    match mode {
        DeactivationMode::Normal => match cleanup {
            Err(e) => Err(e),
            Ok(rep) => match check_cleanup_report(&rep) {
                Err(e) => Err(e),
                Ok(()) => Ok(rep),
            },
        },
        DeactivationMode::Emergency => match cleanup {
            Err(_) => Ok(CleanupReport::new(CleanupMode::Fast)),
            Ok(rep) => Ok(rep),
        },
    }
}

/// A step of the switch to the decoy system profile.
pub enum DecoyStep {
    /// Point `/run/current-system` at this profile.
    PrepareLink(String),
    /// Ask whether this switch script exists.
    CheckScript(String),
    /// Run this switch script with `switch`.
    RunScript(String),
    /// The switch is over, with this error if it failed.
    Done(Option<NailsError>),
}

/// The model of a decoy step: the path it names, or the error it ends with.
pub enum DecoyStepView {
    PrepareLink(Seq<char>),
    CheckScript(Seq<char>),
    RunScript(Seq<char>),
    Done(Option<ErrView>),
}

impl DeepView for DecoyStep {
    type V = DecoyStepView;

    open spec fn deep_view(&self) -> DecoyStepView {
        match self {
            DecoyStep::PrepareLink(p) => DecoyStepView::PrepareLink(p@),
            DecoyStep::CheckScript(p) => DecoyStepView::CheckScript(p@),
            DecoyStep::RunScript(p) => DecoyStepView::RunScript(p@),
            DecoyStep::Done(e) => DecoyStepView::Done(
                match e {
                    Some(x) => Some(x.deep_view()),
                    None => None,
                },
            ),
        }
    }
}

/// The switch script of a system profile.
pub open spec fn switch_script_spec(profile: Seq<char>) -> Seq<char> {
    join_spec(profile, "bin/switch-to-configuration"@)
}

/// The first step of the decoy switch: none when it is not wanted, an
/// error when no system profile is available, else preparing the link to
/// the profile.
pub fn decoy_start(restore: bool, profile: Option<&str>) -> (r: DecoyStep)
    ensures
        r.deep_view() == (if !restore {
            DecoyStepView::Done(None)
        } else {
            match profile {
                Some(p) => DecoyStepView::PrepareLink(p@),
                None => DecoyStepView::Done(
                    Some(ErrView::NixOS("No system profile available for decoy switch"@)),
                ),
            }
        }),
{
    if !restore {
        return DecoyStep::Done(None);
    }
    match profile {
        Some(p) => DecoyStep::PrepareLink(String::from_str(p)),
        None => DecoyStep::Done(
            Some(
                NailsError::NixOSError(
                    String::from_str("No system profile available for decoy switch"),
                ),
            ),
        ),
    }
}

/// The step after preparing the link: its failure ends the switch with an
/// error; else the switch script is checked, unless it is not to be run.
pub fn decoy_after_link(profile: &str, link: Result<()>, execute_script: bool) -> (r: DecoyStep)
    ensures
        r.deep_view() == (match link {
            Err(e) => DecoyStepView::Done(
                Some(
                    ErrView::NixOS(
                        "Failed to prepare /run/current-system for NixOS switch: "@ + err_message(
                            e.deep_view(),
                        ),
                    ),
                ),
            ),
            Ok(()) => if execute_script {
                DecoyStepView::CheckScript(switch_script_spec(profile@))
            } else {
                DecoyStepView::Done(None)
            },
        }),
{
    match link {
        Err(e) => {
            let t = e.message();
            let m = concat("Failed to prepare /run/current-system for NixOS switch: ", t.as_str());
            DecoyStep::Done(Some(NailsError::NixOSError(m)))
        },
        Ok(()) => if execute_script {
            DecoyStep::CheckScript(path_join(profile, "bin/switch-to-configuration"))
        } else {
            DecoyStep::Done(None)
        },
    }
}

/// The step after asking whether the switch script exists: an error answer
/// ends the switch with it, a missing script with an error; else the
/// script runs, unless the host is not to be touched.
pub fn decoy_after_check(script: &str, exists: Result<bool>, skip_host: bool) -> (r: DecoyStep)
    ensures
        r.deep_view() == (match exists {
            Err(e) => DecoyStepView::Done(Some(e.deep_view())),
            Ok(false) => DecoyStepView::Done(
                Some(ErrView::NixOS("System profile switch script missing: "@ + script@)),
            ),
            Ok(true) => if skip_host {
                DecoyStepView::Done(None)
            } else {
                DecoyStepView::RunScript(script@)
            },
        }),
{
    match exists {
        Err(e) => DecoyStep::Done(Some(e)),
        Ok(false) => DecoyStep::Done(
            Some(NailsError::NixOSError(concat("System profile switch script missing: ", script))),
        ),
        Ok(true) => if skip_host {
            DecoyStep::Done(None)
        } else {
            DecoyStep::RunScript(String::from_str(script))
        },
    }
}

/// How the switch ends once the script ran: `ran` is whether it exited
/// successfully with its error output, or the text of the failure to
/// start it.
pub fn decoy_after_run(ran: std::result::Result<(bool, String), String>) -> (r: Option<NailsError>)
    ensures
        match ran {
            Ok((true, _)) => r is None,
            Ok((false, stderr)) => r matches Some(e) && e.deep_view() == ErrView::NixOS(
                "System profile switch failed: "@ + stderr@,
            ),
            Err(t) => r matches Some(e) && e.deep_view() == ErrView::NixOS(
                "System profile switch failed: "@ + t@,
            ),
        },
{
    match ran {
        Ok((true, _)) => None,
        Ok((false, stderr)) => Some(
            NailsError::NixOSError(concat("System profile switch failed: ", stderr.as_str())),
        ),
        Err(t) => Some(NailsError::NixOSError(concat("System profile switch failed: ", t.as_str()))),
    }
}

/// The report of a run on a system that was already inactive: the default
/// (empty, fast) cleanup report, nothing unmounted, no real-disk cleanup.
pub fn already_inactive_report(duration: ElapsedTime) -> (r: DeactivationReport)
    ensures
        r.was_already_inactive,
        r.final_state is Inactive,
        r.unmounted_overlays@.len() == 0,
        r.cleanup_report.mode == CleanupMode::Fast,
        r.cleanup_report.cleaned_items@.len() == 0,
        r.cleanup_report.errors@.len() == 0,
        r.cleanup_report.verification_passed is None,
        r.cleanup_report.duration.millis_spec() == 0,
        !r.post_unmount_cleanup.was_performed,
        r.post_unmount_cleanup.cleaned_items@.len() == 0,
        r.post_unmount_cleanup.warnings@.len() == 0,
        r.duration == duration,
{
    DeactivationReport {
        cleanup_report: CleanupReport::new(CleanupMode::Fast),
        unmounted_overlays: Vec::new(),
        duration,
        final_state: SystemState::Inactive,
        was_already_inactive: true,
        post_unmount_cleanup: PostUnmountCleanupReport::default(),
    }
}

/// The report of a completed run: the system is inactive, with what the
/// phases gave.
pub fn completed_report(
    cleanup: CleanupReport,
    unmounted: Vec<String>,
    duration: ElapsedTime,
    post_unmount: PostUnmountCleanupReport,
) -> (r: DeactivationReport)
    ensures
        !r.was_already_inactive,
        r.final_state is Inactive,
        r.cleanup_report == cleanup,
        r.unmounted_overlays == unmounted,
        r.duration == duration,
        r.post_unmount_cleanup == post_unmount,
{
    DeactivationReport {
        cleanup_report: cleanup,
        unmounted_overlays: unmounted,
        duration,
        final_state: SystemState::Inactive,
        was_already_inactive: false,
        post_unmount_cleanup: post_unmount,
    }
}

} // verus!

verus! {

/// Where a deactivation run stands, with what the earlier steps gave.  Each
/// phase after the first holds the state that the run found (the active
/// state that a failure restores).
pub enum RunPhase {
    /// Waiting for the current state.
    Start,
    /// Waiting for the system to be marked deactivating; the overlays to
    /// unmount.
    MarkingDeactivating(SystemState, Vec<String>),
    /// Waiting for the overlay-layer cleanup; the overlays to unmount.
    Cleaning(SystemState, Vec<String>),
    /// Waiting for the overlays to be unmounted; the cleanup report.
    Unmounting(SystemState, CleanupReport),
    /// Waiting for the real-disk cleanup; the cleanup report and the
    /// overlays unmounted.
    CleaningDisk(SystemState, CleanupReport, Vec<String>),
    /// Waiting for the switch to the decoy profile; what the earlier steps
    /// gave.
    Switching(SystemState, CleanupReport, Vec<String>, PostUnmountCleanupReport),
    /// Waiting for the system to be marked inactive; what the earlier steps
    /// gave.
    MarkingInactive(SystemState, CleanupReport, Vec<String>, PostUnmountCleanupReport),
    /// The run is over.
    Done,
}

/// What a run is told once an outside step is over.
pub enum RunEvent {
    /// The current state was read.
    StateRead(SystemState),
    /// Writing the state that the run asked for ended so.
    Marked(Result<()>),
    /// The overlay-layer cleanup ended so.
    Cleaned(Result<CleanupReport>),
    /// Unmounting the overlays ended so.
    Unmounted(Result<Vec<String>>),
    /// The real-disk cleanup gave this report.
    DiskCleaned(PostUnmountCleanupReport),
    /// The switch to the decoy profile (see `decoy_start`) ended, with this
    /// error if it failed.
    Switched(Option<NailsError>),
}

/// What a run does next.
pub enum RunAction {
    /// Mark the system as deactivating (started now).
    MarkDeactivating,
    /// Clean the overlay layer (thoroughly in normal mode, fast in
    /// emergency mode).
    CleanOverlayLayer,
    /// Unmount these overlays (see `unmount_overlays`).
    UnmountOverlays(Vec<String>),
    /// Clean the real disk (see `execute_post_unmount_cleanup`).
    CleanRealDisk,
    /// Switch to the decoy profile (see `decoy_start`).
    SwitchToDecoy,
    /// Clear the overlay status and mark the system inactive.
    MarkInactive,
    /// The run is over with this outcome; the state was not changed by it
    /// unless it succeeded.
    Stop(Result<DeactivationReport>),
    /// Write this state back, then the run is over with this error.
    RollBack(SystemState, NailsError),
}

/// The error for an event that does not belong to the phase.
pub open spec fn unexpected_event_error() -> ErrView {
    ErrView::InvalidState("Unexpected event for the deactivation phase"@)
}

fn unexpected_event() -> (e: NailsError)
    ensures
        e.deep_view() == unexpected_event_error(),
{
    NailsError::InvalidState(String::from_str("Unexpected event for the deactivation phase"))
}

/// The state that the run found, once it has begun to change it.
pub open spec fn origin(phase: RunPhase) -> Option<SystemState> {
    match phase {
        RunPhase::MarkingDeactivating(o, _) => Some(o),
        RunPhase::Cleaning(o, _) => Some(o),
        RunPhase::Unmounting(o, _) => Some(o),
        RunPhase::CleaningDisk(o, _, _) => Some(o),
        RunPhase::Switching(o, _, _, _) => Some(o),
        RunPhase::MarkingInactive(o, _, _, _) => Some(o),
        _ => None,
    }
}

/// Whether an event is the one that the phase waits for.
pub open spec fn event_fits(phase: RunPhase, event: RunEvent) -> bool {
    match (phase, event) {
        (RunPhase::Start, RunEvent::StateRead(_)) => true,
        (RunPhase::MarkingDeactivating(_, _), RunEvent::Marked(_)) => true,
        (RunPhase::Cleaning(_, _), RunEvent::Cleaned(_)) => true,
        (RunPhase::Unmounting(_, _), RunEvent::Unmounted(_)) => true,
        (RunPhase::CleaningDisk(_, _, _), RunEvent::DiskCleaned(_)) => true,
        (RunPhase::Switching(_, _, _, _), RunEvent::Switched(_)) => true,
        (RunPhase::MarkingInactive(_, _, _, _), RunEvent::Marked(_)) => true,
        _ => false,
    }
}

/// The error with which a cleanup that does not let the run go on stops it
/// (see `cleanup_outcome`).
pub open spec fn cleanup_stop_error(c: Result<CleanupReport>) -> ErrView {
    match c {
        Err(e) => e.deep_view(),
        Ok(rep) => if rep.errors@.len() > 0 {
            cleanup_errors_error(rep.errors.deep_view())
        } else {
            cleanup_unverified_error()
        },
    }
}

/// The report of a run that found the system already inactive (see
/// `already_inactive_report`).
pub open spec fn is_already_inactive_report(r: DeactivationReport, duration: ElapsedTime) -> bool {
    &&& r.was_already_inactive
    &&& r.final_state is Inactive
    &&& r.unmounted_overlays@.len() == 0
    &&& r.cleanup_report.mode == CleanupMode::Fast
    &&& r.cleanup_report.cleaned_items@.len() == 0
    &&& r.cleanup_report.errors@.len() == 0
    &&& r.cleanup_report.verification_passed is None
    &&& r.cleanup_report.duration.millis_spec() == 0
    &&& !r.post_unmount_cleanup.was_performed
    &&& r.post_unmount_cleanup.cleaned_items@.len() == 0
    &&& r.post_unmount_cleanup.warnings@.len() == 0
    &&& r.duration == duration
}

/// Whether the overlay-layer cleanup lets the run go on (see
/// `cleanup_outcome`): always in emergency mode, and in normal mode for a
/// cleanup that succeeded with no errors and no failed verification.
pub open spec fn cleanup_outcome_ok(mode: DeactivationMode, c: Result<CleanupReport>) -> bool {
    match mode {
        DeactivationMode::Emergency => true,
        DeactivationMode::Normal => match c {
            Ok(rep) => rep.errors@.len() == 0 && rep.verification_passed != Some(false),
            Err(_) => false,
        },
    }
}

/// What every step of a run keeps: the run never goes back to its start;
/// it is over exactly when it stops or rolls back; it rolls back to the state
/// it found, and stops with an error only before it changed the state; the
/// state it found is an active one and stays with it; and it marks the
/// system inactive only after the switch to the decoy profile succeeded.
pub open spec fn run_laws(phase: RunPhase, event: RunEvent, r: (RunPhase, RunAction)) -> bool {
    &&& !(r.0 is Start)
    &&& (r.1 is Stop || r.1 is RollBack) <==> r.0 is Done
    &&& r.1 matches RunAction::RollBack(s, _) ==> origin(phase) == Some(s)
    &&& r.1 matches RunAction::Stop(res) ==> (res is Err ==> origin(phase) is None)
    &&& phase is Start ==> (origin(r.0) matches Some(o) ==> (event == RunEvent::StateRead(o)
        && o is Active))
    &&& origin(phase) is Some && !(r.0 is Done) ==> origin(r.0) == origin(phase)
    &&& r.1 is MarkInactive ==> (phase is Switching && (event matches RunEvent::Switched(f)
        && f is None))
}

/// The phase before step `i` of a run whose steps gave `steps`.
pub open spec fn phase_before(steps: Seq<(RunPhase, RunAction)>, i: int) -> RunPhase {
    if i == 0 {
        RunPhase::Start
    } else {
        steps[i - 1].0
    }
}

/// Whether `steps` are what the steps of one run gave for `events`: each
/// keeps `run_laws` from the phase before it, and only the last ends the run.
pub open spec fn is_run(events: Seq<RunEvent>, steps: Seq<(RunPhase, RunAction)>) -> bool {
    &&& events.len() == steps.len()
    &&& steps.len() > 0
    &&& forall|i: int|
        0 <= i < steps.len() ==> run_laws(phase_before(steps, i), events[i], #[trigger] steps[i])
    &&& forall|i: int| 0 <= i < steps.len() - 1 ==> !((#[trigger] steps[i]).0 is Done)
}

proof fn lemma_run_keeps_found_state(events: Seq<RunEvent>, steps: Seq<(RunPhase, RunAction)>, i: int)
    requires
        is_run(events, steps),
        0 <= i < steps.len() - 1,
    ensures
        events[0] matches RunEvent::StateRead(s0) && s0 is Active && origin(steps[i].0) == Some(
            s0,
        ),
    decreases i,
{
    assert(run_laws(phase_before(steps, i), events[i], steps[i]));
    assert(!(steps[i].0 is Done));
    if i > 0 {
        lemma_run_keeps_found_state(events, steps, i - 1);
    }
}

/// A run that ends in an error leaves the state as it found it: where it
/// rolls back, it writes back exactly the (active) state it read at its
/// start; where it stops with an error, that was its first step, so it
/// wrote no state at all.
pub proof fn law_failed_run_restores_state(events: Seq<RunEvent>, steps: Seq<(RunPhase, RunAction)>)
    requires
        is_run(events, steps),
    ensures
        steps.last().1 matches RunAction::RollBack(s, _) ==> (events[0] == RunEvent::StateRead(s)
            && s is Active),
        steps.last().1 matches RunAction::Stop(res) ==> (res is Err ==> steps.len() == 1),
{
    let n = steps.len() - 1;
    assert(run_laws(phase_before(steps, n), events[n], steps[n]));
    if n > 0 {
        lemma_run_keeps_found_state(events, steps, n - 1);
    }
}

/// One step of a deactivation run: from the phase and what the last
/// outside step gave, the next phase and what to do.  `elapsed` is the
/// run's duration so far, for its report; `disk_cleanup_enabled` is the
/// configuration's real-disk cleanup switch.
///
/// The order it keeps: an active system is first marked deactivating, then
/// the overlay layer is cleaned, the overlays are unmounted after a cleanup
/// that does not stop the run, the real disk is cleaned after that (in
/// normal mode, where enabled), the decoy profile is switched to, and only
/// once the switch succeeded is the system marked inactive.  Once the run
/// has changed the state, any failure writes back the active state it found
/// (`RollBack`); before that, a failure stops it with the state untouched.
/// So a run that ends in an error never leaves the system marked inactive
/// or deactivating.
pub fn run_step(
    mode: DeactivationMode,
    disk_cleanup_enabled: bool,
    phase: RunPhase,
    event: RunEvent,
    elapsed: ElapsedTime,
) -> (r: (RunPhase, RunAction))
    ensures
        run_laws(phase, event, r),
        r.1 matches RunAction::Stop(res) ==> (res matches Ok(rep) ==> ((phase is Start
            && rep.was_already_inactive) || (phase is MarkingInactive && (event matches RunEvent::Marked(m)
            && m is Ok)))),
        !event_fits(phase, event) ==> (r.0 is Done && match origin(phase) {
            Some(o) => r.1 matches RunAction::RollBack(s, e) && s == o && e.deep_view()
                == unexpected_event_error(),
            None => r.1 matches RunAction::Stop(res) && (res matches Err(e) && e.deep_view()
                == unexpected_event_error()),
        }),
        event matches RunEvent::StateRead(s) ==> (phase is Start ==> (if s is Active {
            r.1 is MarkDeactivating && (r.0 matches RunPhase::MarkingDeactivating(o, v) && o == s
                && v.deep_view() == s->overlays.deep_view())
        } else if s is Inactive && mode == DeactivationMode::Normal {
            r.0 is Done && (r.1 matches RunAction::Stop(res) && (res matches Ok(rep)
                && is_already_inactive_report(rep, elapsed)))
        } else {
            r.0 is Done && (r.1 matches RunAction::Stop(res) && (res matches Err(e)
                && e.deep_view() == cannot_deactivate_error(s)))
        })),
        event matches RunEvent::Marked(m) ==> (phase matches RunPhase::MarkingDeactivating(o, v)
            ==> match m {
            Ok(_) => r == (RunPhase::Cleaning(o, v), RunAction::CleanOverlayLayer),
            Err(e) => r.0 is Done && (r.1 matches RunAction::RollBack(s, x) && s == o
                && x.deep_view() == e.deep_view()),
        }),
        event matches RunEvent::Cleaned(c) ==> (phase matches RunPhase::Cleaning(o, ovs) ==> (
        if cleanup_outcome_ok(mode, c) {
            r.1 == RunAction::UnmountOverlays(ovs) && (r.0 matches RunPhase::Unmounting(o2, x)
                && o2 == o && (c matches Ok(rep) ==> x == rep) && (c is Err ==> (x.mode
                == CleanupMode::Fast && x.cleaned_items@.len() == 0 && x.errors@.len() == 0
                && x.verification_passed is None && x.duration.millis_spec() == 0)))
        } else {
            r.0 is Done && (r.1 matches RunAction::RollBack(s, x) && s == o && x.deep_view()
                == cleanup_stop_error(c))
        })),
        event matches RunEvent::Unmounted(u) ==> (phase matches RunPhase::Unmounting(o, rep)
            ==> match u {
            Ok(v) => if mode == DeactivationMode::Normal && disk_cleanup_enabled {
                r == (RunPhase::CleaningDisk(o, rep, v), RunAction::CleanRealDisk)
            } else {
                r.1 is SwitchToDecoy && (r.0 matches RunPhase::Switching(o2, c2, v2, d) && o2 == o
                    && c2 == rep && v2 == v && !d.was_performed && d.cleaned_items@.len() == 0
                    && d.warnings@.len() == 0)
            },
            Err(e) => r.0 is Done && (r.1 matches RunAction::RollBack(s, x) && s == o
                && x.deep_view() == e.deep_view()),
        }),
        event matches RunEvent::DiskCleaned(d) ==> (phase matches RunPhase::CleaningDisk(o, rep, v)
            ==> r == (RunPhase::Switching(o, rep, v, d), RunAction::SwitchToDecoy)),
        event matches RunEvent::Switched(f) ==> (phase matches RunPhase::Switching(o, c, v, d)
            ==> match f {
            None => r == (RunPhase::MarkingInactive(o, c, v, d), RunAction::MarkInactive),
            Some(e) => r.0 is Done && (r.1 matches RunAction::RollBack(s, x) && s == o
                && x.deep_view() == e.deep_view()),
        }),
        event matches RunEvent::Marked(m) ==> (phase matches RunPhase::MarkingInactive(o, c, v, d)
            ==> match m {
            Ok(_) => r.0 is Done && (r.1 matches RunAction::Stop(res) && (res matches Ok(rep)
                && !rep.was_already_inactive && rep.final_state is Inactive && rep.cleanup_report
                == c && rep.unmounted_overlays == v && rep.post_unmount_cleanup == d
                && rep.duration == elapsed)),
            Err(e) => r.0 is Done && (r.1 matches RunAction::RollBack(s, x) && s == o
                && x.deep_view() == e.deep_view()),
        }),
{
    match (phase, event) {
        (RunPhase::Start, RunEvent::StateRead(s)) => match deactivation_start(mode, &s) {
            Ok(DeactivationStart::AlreadyInactive) => (
                RunPhase::Done,
                RunAction::Stop(Ok(already_inactive_report(elapsed))),
            ),
            Ok(DeactivationStart::Proceed(ovs)) => (
                RunPhase::MarkingDeactivating(s, ovs),
                RunAction::MarkDeactivating,
            ),
            Err(e) => (RunPhase::Done, RunAction::Stop(Err(e))),
        },
        (RunPhase::MarkingDeactivating(o, ovs), RunEvent::Marked(m)) => match m {
            Ok(()) => (RunPhase::Cleaning(o, ovs), RunAction::CleanOverlayLayer),
            Err(e) => (RunPhase::Done, RunAction::RollBack(o, e)),
        },
        (RunPhase::Cleaning(o, ovs), RunEvent::Cleaned(c)) => match cleanup_outcome(mode, c) {
            Ok(rep) => (RunPhase::Unmounting(o, rep), RunAction::UnmountOverlays(ovs)),
            Err(e) => (RunPhase::Done, RunAction::RollBack(o, e)),
        },
        (RunPhase::Unmounting(o, rep), RunEvent::Unmounted(u)) => match u {
            Ok(v) => if post_unmount_cleanup_wanted(mode, disk_cleanup_enabled) {
                (RunPhase::CleaningDisk(o, rep, v), RunAction::CleanRealDisk)
            } else {
                (
                    RunPhase::Switching(o, rep, v, PostUnmountCleanupReport::default()),
                    RunAction::SwitchToDecoy,
                )
            },
            Err(e) => (RunPhase::Done, RunAction::RollBack(o, e)),
        },
        (RunPhase::CleaningDisk(o, rep, v), RunEvent::DiskCleaned(d)) => (
            RunPhase::Switching(o, rep, v, d),
            RunAction::SwitchToDecoy,
        ),
        (RunPhase::Switching(o, rep, v, d), RunEvent::Switched(f)) => match f {
            None => (RunPhase::MarkingInactive(o, rep, v, d), RunAction::MarkInactive),
            Some(e) => (RunPhase::Done, RunAction::RollBack(o, e)),
        },
        (RunPhase::MarkingInactive(o, rep, v, d), RunEvent::Marked(m)) => match m {
            Ok(()) => (RunPhase::Done, RunAction::Stop(Ok(completed_report(rep, v, elapsed, d)))),
            Err(e) => (RunPhase::Done, RunAction::RollBack(o, e)),
        },
        (RunPhase::MarkingDeactivating(o, _), _) => (
            RunPhase::Done,
            RunAction::RollBack(o, unexpected_event()),
        ),
        (RunPhase::Cleaning(o, _), _) => (RunPhase::Done, RunAction::RollBack(o, unexpected_event())),
        (RunPhase::Unmounting(o, _), _) => (RunPhase::Done, RunAction::RollBack(o, unexpected_event())),
        (RunPhase::CleaningDisk(o, _, _), _) => (
            RunPhase::Done,
            RunAction::RollBack(o, unexpected_event()),
        ),
        (RunPhase::Switching(o, _, _, _), _) => (
            RunPhase::Done,
            RunAction::RollBack(o, unexpected_event()),
        ),
        (RunPhase::MarkingInactive(o, _, _, _), _) => (
            RunPhase::Done,
            RunAction::RollBack(o, unexpected_event()),
        ),
        _ => (RunPhase::Done, RunAction::Stop(Err(unexpected_event()))),
    }
}

} // verus!
