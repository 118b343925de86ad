//! Deactivation: reports, phase decisions and overlay unmounting.
//!
//! Deactivation runs in phases: the state is checked (an inactive system
//! needs nothing in normal mode and is an error in emergency mode), the
//! overlay layer is cleaned (a cleanup with errors, or one whose
//! verification failed, stops deactivation with the overlays still
//! mounted), the overlays are unmounted in reverse mount order (after a
//! failure, the ones already unmounted are mounted again from the metadata
//! read before their unmount), and in normal mode the real disk
//! is cleaned afterwards.  The report of a run renders as text.
use crate::error::{concat, rv, ErrView, NailsError, Result};
use crate::text::{
    append_decimal, append_digit, append_signed_decimal, decimal, digit_char, join_with, joined,
    lemma_decimal_injective, signed_decimal,
};
use vstd::prelude::*;

pub mod post_unmount;
pub mod run;
pub mod unmount;

pub use unmount::{rollback_unmounts, unmount_overlays, unmount_single_overlay};

verus! {

/// How deactivation behaves.
///
/// `Normal` runs every step, stops on cleanup errors and is idempotent on
/// an inactive system; `Emergency` cleans on a best-effort basis, skips
/// the real-disk cleanup and refuses a system that is not active.
#[derive(Debug, Clone, Copy, PartialEq, Eq, Structural)]
pub enum DeactivationMode {
    /// All steps, with a thorough and verified cleanup.
    Normal,
    /// Only the essential steps; cleanup errors are not fatal.
    Emergency,
}

/// A length of time, in whole seconds and the nanoseconds beyond them.
#[derive(Debug, Clone, Copy)]
pub struct ElapsedTime {
    secs: u64,
    nanos: u32,
}

impl ElapsedTime {
    #[verifier::type_invariant]
    spec fn nanos_below_second(self) -> bool {
        self.nanos < 1_000_000_000
    }

    /// Whole seconds.
    pub closed spec fn secs_spec(self) -> u64 {
        self.secs
    }

    /// Nanoseconds beyond the whole seconds (below one second).
    pub closed spec fn nanos_spec(self) -> u32 {
        self.nanos
    }

    /// The time in milliseconds.
    pub open spec fn millis_spec(self) -> int {
        self.secs_spec() * 1000 + self.nanos_spec() / 1_000_000
    }

    /// A time of `millis` milliseconds.
    pub fn from_millis(millis: u64) -> (r: ElapsedTime)
        ensures
            r.secs_spec() == millis / 1000,
            r.nanos_spec() == (millis % 1000) * 1_000_000,
            r.millis_spec() == millis,
    {
        ElapsedTime { secs: millis / 1000, nanos: ((millis % 1000) as u32) * 1_000_000 }
    }

    /// A time of `secs` seconds and `nanos` nanoseconds, whole seconds of
    /// `nanos` carried into `secs` (as `Duration::new` does; the carry must
    /// fit, where `Duration::new` panics).
    pub fn new(secs: u64, nanos: u32) -> (r: ElapsedTime)
        requires
            secs + nanos / 1_000_000_000 <= u64::MAX,
        ensures
            r.secs_spec() == secs + nanos / 1_000_000_000,
            r.nanos_spec() == nanos % 1_000_000_000,
    {
        let carry = (nanos / 1_000_000_000) as u64;
        ElapsedTime { secs: secs + carry, nanos: nanos % 1_000_000_000 }
    }

    /// Whole seconds.
    pub fn as_secs(&self) -> (r: u64)
        ensures
            r == self.secs_spec(),
    {
        self.secs
    }

    /// Nanoseconds beyond the whole seconds.
    pub fn subsec_nanos(&self) -> (r: u32)
        ensures
            r == self.nanos_spec(),
            r < 1_000_000_000,
    {
        proof {
            use_type_invariant(self);
        }
        self.nanos
    }
}

/// Whether `d` is a power of ten.
pub open spec fn power_of_ten(d: nat) -> bool
    decreases d,
{
    if d <= 1 {
        d == 1
    } else {
        d % 10 == 0 && power_of_ten(d / 10)
    }
}

/// The digits of the fraction `f / (10 * divisor)` after the decimal point,
/// up to the last one that is not zero (`divisor` is the place value of the
/// first digit).
pub open spec fn fraction_digits(f: nat, divisor: nat) -> Seq<char>
    decreases divisor,
{
    if f == 0 || divisor == 0 {
        Seq::empty()
    } else {
        seq![digit_char(f / divisor)] + fraction_digits(f % divisor, divisor / 10)
    }
}

/// A number shown as its whole part, then, where the fraction is not
/// zero, a point and the fraction's digits, then a unit.
pub open spec fn shown_decimal(whole: nat, frac: nat, divisor: nat, unit: Seq<char>) -> Seq<char> {
    decimal(whole) + (if frac == 0 {
        Seq::empty()
    } else {
        "."@ + fraction_digits(frac, divisor)
    }) + unit
}

/// The text of a duration of `secs` seconds and `nanos` nanoseconds in the
/// largest unit in which it is at least one (`s`, `ms`, `µs`, `ns`), with
/// the fraction of that unit written out to its last digit that is not
/// zero, as `Debug` of `std::time::Duration` writes it (such as `150ms`
/// or `1.5s`).
pub open spec fn duration_debug_text(secs: u64, nanos: u32) -> Seq<char> {
    if secs > 0 {
        shown_decimal(secs as nat, nanos as nat, 100_000_000, "s"@)
    } else if nanos >= 1_000_000 {
        shown_decimal((nanos / 1_000_000) as nat, (nanos % 1_000_000) as nat, 100_000, "ms"@)
    } else if nanos >= 1_000 {
        shown_decimal((nanos / 1_000) as nat, (nanos % 1_000) as nat, 100, "µs"@)
    } else {
        decimal(nanos as nat) + "ns"@
    }
}

/// A duration of whole seconds shows as their number followed by `s`.
pub proof fn law_duration_text_whole_seconds(secs: u64)
    requires
        secs > 0,
    ensures
        duration_debug_text(secs, 0) == decimal(secs as nat) + "s"@,
{
    assert(duration_debug_text(secs, 0) =~= decimal(secs as nat) + "s"@);
}

/// A duration of at least a second with a whole number of tenths shows its
/// seconds in full, a point, the tenths digit, and `s` (75.5 seconds is
/// `75.5s`).
pub proof fn law_duration_text_tenths(secs: u64, tenths: u32)
    requires
        secs > 0,
        0 < tenths < 10,
    ensures
        duration_debug_text(secs, (tenths * 100_000_000) as u32) == decimal(secs as nat) + "."@
            + seq![digit_char(tenths as nat)] + "s"@,
{
    let n = (tenths * 100_000_000) as nat;
    assert(n / 100_000_000 == tenths && n % 100_000_000 == 0) by (nonlinear_arith)
        requires
            n == tenths * 100_000_000,
    ;
    assert(fraction_digits(0, 10_000_000) =~= Seq::<char>::empty());
    assert(fraction_digits(n, 100_000_000) =~= seq![digit_char(tenths as nat)]);
    assert(duration_debug_text(secs, n as u32) =~= decimal(secs as nat) + "."@ + seq![
        digit_char(tenths as nat),
    ] + "s"@);
}

/// A duration under a second of whole milliseconds shows their number
/// followed by `ms`.
pub proof fn law_duration_text_millis(ms: u32)
    requires
        0 < ms < 1000,
    ensures
        duration_debug_text(0, (ms * 1_000_000) as u32) == decimal(ms as nat) + "ms"@,
{
    let n = (ms * 1_000_000) as nat;
    assert(n / 1_000_000 == ms && n % 1_000_000 == 0 && n >= 1_000_000) by (nonlinear_arith)
        requires
            n == ms * 1_000_000,
            ms > 0,
    ;
    assert(duration_debug_text(0, n as u32) =~= decimal(ms as nat) + "ms"@);
}

/// Different numbers of whole seconds show differently.
pub proof fn law_duration_text_tells_seconds_apart(a: u64, b: u64)
    requires
        a > 0,
        b > 0,
        a != b,
    ensures
        duration_debug_text(a, 0) != duration_debug_text(b, 0),
{
    law_duration_text_whole_seconds(a);
    law_duration_text_whole_seconds(b);
    if duration_debug_text(a, 0) == duration_debug_text(b, 0) {
        reveal_strlit("s");
        assert((decimal(a as nat) + "s"@).drop_last() =~= decimal(a as nat));
        assert((decimal(b as nat) + "s"@).drop_last() =~= decimal(b as nat));
        lemma_decimal_injective(a as nat, b as nat);
    }
}

/// Appends the digits of a fraction (see `fraction_digits`).
fn append_fraction(out: &mut String, f: u32, divisor: u32)
    requires
        power_of_ten(divisor as nat),
        f < 10 * divisor,
    ensures
        final(out)@ == old(out)@ + fraction_digits(f as nat, divisor as nat),
    decreases divisor,
{
    if f == 0 {
        assert(final(out)@ =~= old(out)@ + fraction_digits(f as nat, divisor as nat));
        return;
    }
    let d = f / divisor;
    let rest = f % divisor;
    assert(d < 10) by (nonlinear_arith)
        requires
            f < 10 * divisor,
            d == f / divisor,
            divisor > 0,
    ;
    append_digit(out, d as u64);
    if divisor == 1 {
        assert(rest == 0);
        assert(fraction_digits(rest as nat, 0) =~= Seq::<char>::empty());
        assert(final(out)@ =~= old(out)@ + fraction_digits(f as nat, divisor as nat));
        return;
    }
    let next = divisor / 10;
    assert(rest < 10 * next) by (nonlinear_arith)
        requires
            rest == f % divisor,
            divisor > 0,
            divisor % 10 == 0,
            next == divisor / 10,
    ;
    append_fraction(out, rest, next);
    assert(final(out)@ =~= old(out)@ + fraction_digits(f as nat, divisor as nat));
}

/// Appends a point and the digits of a fraction that is not zero.
fn append_fraction_part(out: &mut String, f: u32, divisor: u32)
    requires
        power_of_ten(divisor as nat),
        f < 10 * divisor,
    ensures
        final(out)@ == old(out)@ + (if f == 0 {
            Seq::empty()
        } else {
            "."@ + fraction_digits(f as nat, divisor as nat)
        }),
{
    if f > 0 {
        out.append(".");
        append_fraction(out, f, divisor);
        assert(final(out)@ =~= old(out)@ + ("."@ + fraction_digits(f as nat, divisor as nat)));
    } else {
        assert(final(out)@ =~= old(out)@ + Seq::<char>::empty());
    }
}

/// Formats a duration the way `Debug` of `std::time::Duration` does (see
/// `duration_debug_text`).
fn duration_text(secs: u64, nanos: u32) -> (r: String)
    requires
        nanos < 1_000_000_000,
    ensures
        r@ == duration_debug_text(secs, nanos),
{
    let mut out = String::new();
    if secs > 0 {
        assert(power_of_ten(100_000_000)) by {
            reveal_with_fuel(power_of_ten, 10);
        }
        append_decimal(&mut out, secs);
        append_fraction_part(&mut out, nanos, 100_000_000);
        out.append("s");
    } else if nanos >= 1_000_000 {
        assert(power_of_ten(100_000)) by {
            reveal_with_fuel(power_of_ten, 10);
        }
        append_decimal(&mut out, (nanos / 1_000_000) as u64);
        append_fraction_part(&mut out, nanos % 1_000_000, 100_000);
        out.append("ms");
    } else if nanos >= 1_000 {
        assert(power_of_ten(100)) by {
            reveal_with_fuel(power_of_ten, 10);
        }
        append_decimal(&mut out, (nanos / 1_000) as u64);
        append_fraction_part(&mut out, nanos % 1_000, 100);
        out.append("µs");
    } else {
        append_decimal(&mut out, nanos as u64);
        out.append("ns");
    }
    assert(out@ =~= duration_debug_text(secs, nanos));
    out
}

/// The lifecycle state of the system.
#[derive(Debug, Clone, PartialEq, Eq)]
pub enum SystemState {
    /// No overlay is active.
    Inactive,
    /// Overlays are mounted (activation time in milliseconds since the Unix epoch).
    Active { activated_at: i64, overlays: Vec<String> },
    /// Activation is under way (start time in milliseconds since the Unix epoch).
    Activating { started_at: i64 },
    /// Deactivation is under way (start time in milliseconds since the Unix epoch).
    Deactivating { started_at: i64 },
}

impl SystemState {
    /// Whether the state is `Active`.
    pub fn is_active(&self) -> (r: bool)
        ensures
            r == (self is Active),
    {
        match self {
            SystemState::Active { .. } => true,
            _ => false,
        }
    }
}

/// The name of a state's variant.
pub open spec fn state_label(s: SystemState) -> Seq<char> {
    match s {
        SystemState::Inactive => "Inactive"@,
        SystemState::Active { .. } => "Active"@,
        SystemState::Activating { .. } => "Activating"@,
        SystemState::Deactivating { .. } => "Deactivating"@,
    }
}

/// The name of a state's variant.
pub fn state_label_text(s: &SystemState) -> (r: String)
    ensures
        r@ == state_label(*s),
{
    match s {
        SystemState::Inactive => String::from_str("Inactive"),
        SystemState::Active { .. } => String::from_str("Active"),
        SystemState::Activating { .. } => String::from_str("Activating"),
        SystemState::Deactivating { .. } => String::from_str("Deactivating"),
    }
}

/// The `Debug` text of a state that is not `Active`: its variant's name,
/// with its start time where it has one (as `Deactivating { started_at: 5 }`).
pub open spec fn idle_state_text(s: SystemState) -> Seq<char> {
    match s {
        SystemState::Activating { started_at } => "Activating"@ + " { started_at: "@
            + signed_decimal(started_at as int) + " }"@,
        SystemState::Deactivating { started_at } => "Deactivating"@ + " { started_at: "@
            + signed_decimal(started_at as int) + " }"@,
        _ => state_label(s),
    }
}

/// How thoroughly artifacts are cleaned.
#[derive(Debug, Clone, Copy, PartialEq, Eq, Structural)]
pub enum CleanupMode {
    /// Best-effort cleanup.
    Fast,
    /// Cleanup followed, if asked, by a verification pass.
    Thorough { verify_cleanup: bool },
}

/// What an artifact cleanup did.
#[derive(Debug, Clone)]
pub struct CleanupReport {
    /// The mode the cleanup ran in.
    pub mode: CleanupMode,
    /// Descriptions of what was cleaned.
    pub cleaned_items: Vec<String>,
    /// Descriptions of what failed.
    pub errors: Vec<String>,
    /// The verification outcome, where a verification ran.
    pub verification_passed: Option<bool>,
    /// How long the cleanup took.
    pub duration: ElapsedTime,
}

impl CleanupReport {
    /// An empty report for a cleanup in `mode`.
    pub fn new(mode: CleanupMode) -> (r: CleanupReport)
        ensures
            r.mode == mode,
            r.cleaned_items@.len() == 0,
            r.errors@.len() == 0,
            r.verification_passed is None,
            r.duration.millis_spec() == 0,
    {
        CleanupReport {
            mode,
            cleaned_items: Vec::new(),
            errors: Vec::new(),
            verification_passed: None,
            duration: ElapsedTime::from_millis(0),
        }
    }

    /// Records a cleaned item.
    pub fn add_cleaned(&mut self, item: &str)
        ensures
            final(self).cleaned_items.deep_view() == old(self).cleaned_items.deep_view().push(
                item@,
            ),
            final(self).errors == old(self).errors,
            final(self).mode == old(self).mode,
            final(self).verification_passed == old(self).verification_passed,
            final(self).duration == old(self).duration,
    {
        let ghost before = self.cleaned_items.deep_view();
        self.cleaned_items.push(String::from_str(item));
        assert(self.cleaned_items.deep_view() =~= before.push(item@));
    }
}

impl Default for CleanupReport {
    /// An empty report of a fast cleanup.
    fn default() -> (r: CleanupReport)
        ensures
            r.mode == CleanupMode::Fast,
            r.cleaned_items@.len() == 0,
            r.errors@.len() == 0,
            r.verification_passed is None,
            r.duration.millis_spec() == 0,
    {
        CleanupReport::new(CleanupMode::Fast)
    }
}

/// What the cleanup of the real disk did after the overlays were unmounted.
#[derive(Debug, Clone)]
pub struct PostUnmountCleanupReport {
    /// Descriptions of what was cleaned.
    pub cleaned_items: Vec<String>,
    /// Warnings about what could not be cleaned.
    pub warnings: Vec<String>,
    /// Whether this cleanup ran at all.
    pub was_performed: bool,
}

impl Default for PostUnmountCleanupReport {
    /// A cleanup that did not run.
    fn default() -> (r: PostUnmountCleanupReport)
        ensures
            r.cleaned_items@.len() == 0,
            r.warnings@.len() == 0,
            !r.was_performed,
    {
        PostUnmountCleanupReport {
            cleaned_items: Vec::new(),
            warnings: Vec::new(),
            was_performed: false,
        }
    }
}

/// The report of a deactivation.
#[derive(Debug, Clone)]
pub struct DeactivationReport {
    /// The cleanup of the overlay layer.
    pub cleanup_report: CleanupReport,
    /// The overlays unmounted, in the order they were unmounted.
    pub unmounted_overlays: Vec<String>,
    /// How long deactivation took.
    pub duration: ElapsedTime,
    /// The state after deactivation.
    pub final_state: SystemState,
    /// Whether the system was already inactive (nothing was done).
    pub was_already_inactive: bool,
    /// The cleanup of the real disk after unmounting.
    pub post_unmount_cleanup: PostUnmountCleanupReport,
}

/// Each item on a line of its own after `marker`.
pub open spec fn item_lines(marker: Seq<char>, items: Seq<Seq<char>>) -> Seq<char>
    decreases items.len(),
{
    if items.len() == 0 {
        Seq::empty()
    } else {
        item_lines(marker, items.drop_last()) + marker + items.last() + "\n"@
    }
}

/// The text of a deactivation report.
pub open spec fn report_text_spec(r: DeactivationReport) -> Seq<char> {
    if r.was_already_inactive {
        "✓ Already inactive - no action needed\n"@
    } else {
        "Deactivation Report\n===================\nDuration: "@ + duration_debug_text(
            r.duration.secs_spec(),
            r.duration.nanos_spec(),
        ) + "\nFinal State: "@ + idle_state_text(r.final_state) + "\n\nPhase 1 - Overlay Cleanup:\n"@
            + item_lines("  ✓ "@, r.cleanup_report.cleaned_items.deep_view())
            + "\nUnmounted Overlays:\n"@ + item_lines("  ✓ "@, r.unmounted_overlays.deep_view()) + (
        if r.post_unmount_cleanup.was_performed {
            "\nPhase 2 - Real Disk Cleanup:\n"@ + item_lines(
                "  ✓ "@,
                r.post_unmount_cleanup.cleaned_items.deep_view(),
            ) + item_lines("  ⚠ "@, r.post_unmount_cleanup.warnings.deep_view())
        } else {
            Seq::empty()
        }) + (if r.final_state is Inactive {
            "\n✓ Deactivation complete\n"@
        } else {
            Seq::empty()
        })
    }
}

/// Appends each item on a line of its own after `marker`.
fn append_item_lines(out: &mut String, marker: &str, items: &Vec<String>)
    ensures
        final(out)@ == old(out)@ + item_lines(marker@, items.deep_view()),
{
    let ghost iv = items.deep_view();
    let ghost start = out@;
    let mut i: usize = 0;
    assert(iv.take(0) =~= Seq::<Seq<char>>::empty());
    assert(start + Seq::<char>::empty() =~= start);
    while i < items.len()
        invariant
            iv == items.deep_view(),
            i <= items@.len(),
            out@ == start + item_lines(marker@, iv.take(i as int)),
        decreases items@.len() - i,
    {
        assert(iv.take(i as int + 1).drop_last() =~= iv.take(i as int));
        assert(iv[i as int] == items@[i as int]@);
        out.append(marker);
        out.append(items[i].as_str());
        out.append("\n");
        assert(out@ =~= start + item_lines(marker@, iv.take(i as int + 1)));
        i = i + 1;
    }
    assert(iv.take(items@.len() as int) =~= iv);
}

impl DeactivationReport {
    /// Whether deactivation ended with the system inactive.
    pub fn is_successful(&self) -> (r: bool)
        ensures
            r == (self.final_state is Inactive),
    {
        match self.final_state {
            SystemState::Inactive => true,
            _ => false,
        }
    }

    /// The text of the report (what `Display` shows in the application).
    pub fn report_text(&self) -> (r: String)
        ensures
            r@ == report_text_spec(*self),
    {
        if self.was_already_inactive {
            return String::from_str("✓ Already inactive - no action needed\n");
        }
        let mut out = String::from_str("Deactivation Report\n===================\nDuration: ");
        let d = duration_text(self.duration.as_secs(), self.duration.subsec_nanos());
        out.append(d.as_str());
        out.append("\nFinal State: ");
        append_state_text(&mut out, &self.final_state);
        out.append("\n\nPhase 1 - Overlay Cleanup:\n");
        append_item_lines(&mut out, "  ✓ ", &self.cleanup_report.cleaned_items);
        out.append("\nUnmounted Overlays:\n");
        append_item_lines(&mut out, "  ✓ ", &self.unmounted_overlays);
        let ghost before_post = out@;
        if self.post_unmount_cleanup.was_performed {
            out.append("\nPhase 2 - Real Disk Cleanup:\n");
            append_item_lines(&mut out, "  ✓ ", &self.post_unmount_cleanup.cleaned_items);
            append_item_lines(&mut out, "  ⚠ ", &self.post_unmount_cleanup.warnings);
        } else {
            assert(out@ =~= before_post + Seq::<char>::empty());
        }
        let ghost before_end = out@;
        if self.is_successful() {
            out.append("\n✓ Deactivation complete\n");
        } else {
            assert(out@ =~= before_end + Seq::<char>::empty());
        }
        assert(out@ =~= report_text_spec(*self));
        out
    }
}

/// How a deactivation run begins, once the current state is known.
pub enum DeactivationStart {
    /// Nothing to do: the system is already inactive.
    AlreadyInactive,
    /// Deactivate; these overlays are to be unmounted (in reverse order).
    Proceed(Vec<String>),
}

/// The error for a state that deactivation cannot start from.
pub open spec fn cannot_deactivate_error(s: SystemState) -> ErrView {
    ErrView::InvalidState(
        "Cannot deactivate from state "@ + idle_state_text(s) + ". Must be ACTIVE."@,
    )
}

/// Appends the text of a state's start time as `{ started_at: n }` shows it.
fn append_started_at(out: &mut String, name: &str, started_at: i64)
    ensures
        final(out)@ == old(out)@ + name@ + " { started_at: "@ + signed_decimal(started_at as int)
            + " }"@,
{
    let ghost start = out@;
    out.append(name);
    out.append(" { started_at: ");
    append_signed_decimal(out, started_at);
    out.append(" }");
    assert(out@ =~= start + name@ + " { started_at: "@ + signed_decimal(started_at as int)
        + " }"@);
}

/// Appends the text of a state, with its start time where it has one.
fn append_state_text(out: &mut String, s: &SystemState)
    ensures
        final(out)@ == old(out)@ + idle_state_text(*s),
{
    match s {
        SystemState::Activating { started_at } => append_started_at(out, "Activating", *started_at),
        SystemState::Deactivating { started_at } => append_started_at(
            out,
            "Deactivating",
            *started_at,
        ),
        _ => {
            let label = state_label_text(s);
            out.append(label.as_str());
        },
    }
}

/// The first decision of a deactivation run: an inactive system needs
/// nothing in normal mode and is refused in emergency mode, an active
/// system proceeds with its overlays, any other state is refused.
pub fn deactivation_start(mode: DeactivationMode, state: &SystemState) -> (r: Result<
    DeactivationStart,
>)
    ensures
        state is Inactive && mode == DeactivationMode::Normal ==> r matches Ok(
            DeactivationStart::AlreadyInactive,
        ),
        state is Active ==> (r matches Ok(DeactivationStart::Proceed(v)) && v.deep_view()
            == state->overlays.deep_view()),
        (state is Deactivating || state is Activating || (state is Inactive && mode
            == DeactivationMode::Emergency)) ==> (r matches Err(e) && e.deep_view()
            == cannot_deactivate_error(*state)),
{
    match state {
        SystemState::Inactive => {
            match mode {
                DeactivationMode::Normal => Ok(DeactivationStart::AlreadyInactive),
                DeactivationMode::Emergency => {
                    let mut m = String::from_str("Cannot deactivate from state ");
                    m.append("Inactive");
                    m.append(". Must be ACTIVE.");
                    assert(idle_state_text(*state) == "Inactive"@);
                    assert(m@ =~= "Cannot deactivate from state "@ + idle_state_text(*state)
                        + ". Must be ACTIVE."@);
                    Err(NailsError::InvalidState(m))
                },
            }
        },
        SystemState::Active { overlays, .. } => {
            Ok(DeactivationStart::Proceed(crate::keymap::clone_strings(overlays)))
        },
        SystemState::Activating { started_at } => {
            let mut m = String::from_str("Cannot deactivate from state ");
            append_started_at(&mut m, "Activating", *started_at);
            m.append(". Must be ACTIVE.");
            assert(m@ =~= "Cannot deactivate from state "@ + idle_state_text(*state)
                + ". Must be ACTIVE."@);
            Err(NailsError::InvalidState(m))
        },
        SystemState::Deactivating { started_at } => {
            let mut m = String::from_str("Cannot deactivate from state ");
            append_started_at(&mut m, "Deactivating", *started_at);
            m.append(". Must be ACTIVE.");
            assert(m@ =~= "Cannot deactivate from state "@ + idle_state_text(*state)
                + ". Must be ACTIVE."@);
            Err(NailsError::InvalidState(m))
        },
    }
}

/// The error for a cleanup that reported errors.
pub open spec fn cleanup_errors_error(errors: Seq<Seq<char>>) -> ErrView {
    ErrView::Cleanup(
        "Cleanup had "@ + decimal(errors.len()) + " error(s): "@ + joined(errors, "; "@)
            + ". Overlays remain mounted. State: ACTIVE"@,
    )
}

/// The error for a cleanup whose verification failed.
pub open spec fn cleanup_unverified_error() -> ErrView {
    ErrView::Cleanup(
        "Cleanup verification failed: forensic artifacts may remain. Overlays remain mounted. State: ACTIVE"@,
    )
}

/// Whether the overlay-layer cleanup allows deactivation to go on: a
/// cleanup with errors, or whose verification failed, does not.
pub fn check_cleanup_report(report: &CleanupReport) -> (r: Result<()>)
    ensures
        rv(r) == (if report.errors@.len() > 0 {
            Err(cleanup_errors_error(report.errors.deep_view()))
        } else if report.verification_passed == Some(false) {
            Err(cleanup_unverified_error())
        } else {
            Ok::<(), ErrView>(())
        }),
{
    if report.errors.len() > 0 {
        let mut m = String::from_str("Cleanup had ");
        append_decimal(&mut m, report.errors.len() as u64);
        m.append(" error(s): ");
        let summary = join_with(&report.errors, "; ");
        m.append(summary.as_str());
        m.append(". Overlays remain mounted. State: ACTIVE");
        assert(report.errors.deep_view().len() == report.errors@.len());
        return Err(NailsError::CleanupError(m));
    }
    match report.verification_passed {
        Some(false) => Err(
            NailsError::CleanupError(
                String::from_str(
                    "Cleanup verification failed: forensic artifacts may remain. Overlays remain mounted. State: ACTIVE",
                ),
            ),
        ),
        _ => Ok(()),
    }
}

/// Whether the real disk is cleaned after unmounting: only in normal mode,
/// and only where the configuration enables it.
pub fn post_unmount_cleanup_wanted(mode: DeactivationMode, enabled: bool) -> (r: bool)
    ensures
        r == (mode == DeactivationMode::Normal && enabled),
{
    match mode {
        DeactivationMode::Normal => enabled,
        DeactivationMode::Emergency => false,
    }
}

} // verus!
