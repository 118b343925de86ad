//! Error type of the library.
//!
//! Every fallible operation returns `Result<T, NailsError>`.  The text that
//! each variant displays is given by `NailsError::message`, whose contract
//! states it exactly.
use vstd::prelude::*;
use vstd::std_specs::convert::FromSpecImpl;

verus! {

/// Kind of an input/output error (the kinds that the library produces or reads).
#[derive(Clone, Copy, Debug, PartialEq, Eq, Structural)]
pub enum IoErrorKind {
    NotFound,
    PermissionDenied,
    AlreadyExists,
    InvalidInput,
    InvalidData,
    Other,
}

/// An input/output error: its kind and the text it displays.
#[derive(Clone, Debug)]
pub struct IoError {
    pub kind: IoErrorKind,
    pub message: String,
}

impl IoError {
    /// An error of the given kind that displays `message`.
    pub fn new(kind: IoErrorKind, message: String) -> (r: IoError)
        ensures
            r.kind == kind,
            r.message@ == message@,
    {
        IoError { kind, message }
    }

    /// An error of kind `Other` that displays `message`.
    pub fn other(message: &str) -> (r: IoError)
        ensures
            r.kind == IoErrorKind::Other,
            r.message@ == message@,
    {
        IoError { kind: IoErrorKind::Other, message: String::from_str(message) }
    }

    /// The kind of the error.
    pub fn kind(&self) -> (r: IoErrorKind)
        ensures
            r == self.kind,
    {
        self.kind
    }
}

/// Declares `std::io::Error` so that conversions from it can be written.
#[verifier::external_type_specification]
#[verifier::external_body]
pub struct ExStdIoError(std::io::Error);

/// Reads the kind of a `std::io::Error` (`std::io::Error::kind`), mapping the
/// kinds the library distinguishes and every other kind to `Other`.
#[verifier::external_body]
fn std_io_error_kind(e: &std::io::Error) -> IoErrorKind {
    match e.kind() {
        std::io::ErrorKind::NotFound => IoErrorKind::NotFound,
        std::io::ErrorKind::PermissionDenied => IoErrorKind::PermissionDenied,
        std::io::ErrorKind::AlreadyExists => IoErrorKind::AlreadyExists,
        std::io::ErrorKind::InvalidInput => IoErrorKind::InvalidInput,
        std::io::ErrorKind::InvalidData => IoErrorKind::InvalidData,
        _ => IoErrorKind::Other,
    }
}

/// The text that a `std::io::Error` displays (`ToString::to_string`).
#[verifier::external_body]
fn std_io_error_text(e: &std::io::Error) -> String {
    e.to_string()
}

impl From<std::io::Error> for IoError {
    fn from(e: std::io::Error) -> (r: IoError) {
        IoError { kind: std_io_error_kind(&e), message: std_io_error_text(&e) }
    }
}

impl FromSpecImpl<std::io::Error> for IoError {
    /// The kind and text come from the outside error and are not modelled.
    open spec fn obeys_from_spec() -> bool {
        false
    }

    open spec fn from_spec(v: std::io::Error) -> IoError {
        arbitrary()
    }
}

/// Errors of NAILS operations.
#[derive(Debug)]
pub enum NailsError {
    /// The operation needs root privileges or filesystem access.
    PermissionDenied(String),
    /// The operation is invalid for the current state.
    InvalidState(String),
    /// An overlay mount or unmount failed.
    OverlayError(String),
    /// A NixOS operation failed.
    NixOSError(String),
    /// Pre-flight checks failed: pairs of check name and message.
    PreFlightCheckFailed(Vec<(String, String)>),
    /// A configuration error.
    ConfigError(String),
    /// An invalid argument or option.
    InvalidArgument(String),
    /// The target is already mounted.
    AlreadyMounted { path: String },
    /// The mount point is busy.
    MountBusy { path: String, suggestion: String },
    /// Unmounting failed.
    UnmountError { path: String, reason: String },
    /// Disabling swap failed.
    SwapDisableFailed,
    /// A NixOS profile was not found.
    NixOSProfileNotFound { profile: String },
    /// Building a NixOS profile failed.
    NixOSBuildFailed { profile: String },
    /// Switching to a NixOS profile failed.
    NixOSSwitchFailed { profile: String },
    /// Artifact cleanup failed.
    CleanupError(String),
    /// An input/output error.
    IoError(IoError),
}

/// The model of an error: each variant with its texts.
pub enum ErrView {
    PermissionDenied(Seq<char>),
    InvalidState(Seq<char>),
    Overlay(Seq<char>),
    NixOS(Seq<char>),
    PreFlightCheckFailed(Seq<(Seq<char>, Seq<char>)>),
    Config(Seq<char>),
    InvalidArgument(Seq<char>),
    AlreadyMounted(Seq<char>),
    MountBusy(Seq<char>, Seq<char>),
    Unmount(Seq<char>, Seq<char>),
    SwapDisableFailed,
    ProfileNotFound(Seq<char>),
    BuildFailed(Seq<char>),
    SwitchFailed(Seq<char>),
    Cleanup(Seq<char>),
    Io(IoErrorKind, Seq<char>),
}

impl DeepView for NailsError {
    type V = ErrView;

    open spec fn deep_view(&self) -> ErrView {
        match self {
            NailsError::PermissionDenied(s) => ErrView::PermissionDenied(s@),
            NailsError::InvalidState(s) => ErrView::InvalidState(s@),
            NailsError::OverlayError(s) => ErrView::Overlay(s@),
            NailsError::NixOSError(s) => ErrView::NixOS(s@),
            NailsError::PreFlightCheckFailed(v) => ErrView::PreFlightCheckFailed(v.deep_view()),
            NailsError::ConfigError(s) => ErrView::Config(s@),
            NailsError::InvalidArgument(s) => ErrView::InvalidArgument(s@),
            NailsError::AlreadyMounted { path } => ErrView::AlreadyMounted(path@),
            NailsError::MountBusy { path, suggestion } => ErrView::MountBusy(path@, suggestion@),
            NailsError::UnmountError { path, reason } => ErrView::Unmount(path@, reason@),
            NailsError::SwapDisableFailed => ErrView::SwapDisableFailed,
            NailsError::NixOSProfileNotFound { profile } => ErrView::ProfileNotFound(profile@),
            NailsError::NixOSBuildFailed { profile } => ErrView::BuildFailed(profile@),
            NailsError::NixOSSwitchFailed { profile } => ErrView::SwitchFailed(profile@),
            NailsError::CleanupError(s) => ErrView::Cleanup(s@),
            NailsError::IoError(e) => ErrView::Io(e.kind, e.message@),
        }
    }
}

/// The model of a result: the value and the error taken by their deep views.
pub open spec fn rv<T: DeepView>(r: Result<T>) -> std::result::Result<T::V, ErrView> {
    match r {
        Ok(v) => Ok(v.deep_view()),
        Err(e) => Err(e.deep_view()),
    }
}

/// Result of NAILS operations.
pub type Result<T> = std::result::Result<T, NailsError>;

impl From<IoError> for NailsError {
    fn from(e: IoError) -> (r: NailsError) {
        NailsError::IoError(e)
    }
}

impl FromSpecImpl<IoError> for NailsError {
    open spec fn obeys_from_spec() -> bool {
        true
    }

    open spec fn from_spec(v: IoError) -> NailsError {
        NailsError::IoError(v)
    }
}

impl From<std::io::Error> for NailsError {
    fn from(e: std::io::Error) -> (r: NailsError) {
        NailsError::IoError(IoError::from(e))
    }
}

impl FromSpecImpl<std::io::Error> for NailsError {
    /// The kind and text come from the outside error and are not modelled.
    open spec fn obeys_from_spec() -> bool {
        false
    }

    open spec fn from_spec(v: std::io::Error) -> NailsError {
        arbitrary()
    }
}

/// `a` followed by `b`.
pub fn concat(a: &str, b: &str) -> (r: String)
    ensures
        r@ == a@ + b@,
{
    let mut s = String::from_str(a);
    s.append(b);
    s
}

/// One line of the pre-flight failure listing.
pub open spec fn preflight_line(name: Seq<char>, msg: Seq<char>) -> Seq<char> {
    "  - ["@ + name + "] "@ + msg
}

/// The pre-flight failure listing: one line per failed check, joined by newlines.
pub open spec fn preflight_listing(errors: Seq<(Seq<char>, Seq<char>)>) -> Seq<char>
    decreases errors.len(),
{
    if errors.len() == 0 {
        Seq::<char>::empty()
    } else if errors.len() == 1 {
        preflight_line(errors[0].0, errors[0].1)
    } else {
        preflight_listing(errors.drop_last()) + "\n"@ + preflight_line(
            errors.last().0,
            errors.last().1,
        )
    }
}

/// Formats pre-flight check failures, one `  - [name] message` line each.
pub fn format_preflight_errors(errors: &Vec<(String, String)>) -> (r: String)
    ensures
        r@ == preflight_listing(errors.deep_view()),
{
    let ghost ev = errors.deep_view();
    let mut out = String::new();
    let mut i: usize = 0;
    while i < errors.len()
        invariant
            ev == errors.deep_view(),
            ev.len() == errors@.len(),
            i <= errors@.len(),
            out@ == preflight_listing(ev.take(i as int)),
        decreases errors@.len() - i,
    {
        assert(ev.take(i as int + 1).drop_last() =~= ev.take(i as int));
        assert(ev[i as int] == (errors@[i as int].0@, errors@[i as int].1@));
        if i > 0 {
            out.append("\n");
        }
        out.append("  - [");
        out.append(errors[i].0.as_str());
        out.append("] ");
        out.append(errors[i].1.as_str());
        proof {
            if i == 0 {
                assert(ev.take(0) =~= Seq::<(Seq<char>, Seq<char>)>::empty());
                assert(out@ =~= preflight_line(ev[0].0, ev[0].1));
            } else {
                assert(out@ =~= preflight_listing(ev.take(i as int)) + "\n"@ + preflight_line(
                    ev[i as int].0,
                    ev[i as int].1,
                ));
            }
        }
        i = i + 1;
    }
    assert(ev.take(errors@.len() as int) =~= ev);
    out
}

/// The text an error displays, from its model.
pub open spec fn err_message(e: ErrView) -> Seq<char> {
    match e {
        ErrView::PermissionDenied(s) => "Permission denied: "@ + s,
        ErrView::InvalidState(s) => "Invalid state: "@ + s,
        ErrView::Overlay(s) => "Overlay operation failed: "@ + s,
        ErrView::NixOS(s) => "NixOS operation failed: "@ + s,
        ErrView::PreFlightCheckFailed(v) => "Pre-flight checks failed:\n"@ + preflight_listing(v),
        ErrView::Config(s) => "Configuration error: "@ + s,
        ErrView::InvalidArgument(s) => "Invalid argument: "@ + s,
        ErrView::AlreadyMounted(path) => "Already mounted: "@ + path,
        ErrView::MountBusy(path, suggestion) => "Mount busy: "@ + path + "\nSuggestion: "@
            + suggestion,
        ErrView::Unmount(path, reason) => "Unmount failed: "@ + path + "\nReason: "@ + reason,
        ErrView::SwapDisableFailed => "Swap disable failed"@,
        ErrView::ProfileNotFound(profile) => "NixOS profile not found: "@ + profile,
        ErrView::BuildFailed(profile) => "NixOS build failed for profile: "@ + profile,
        ErrView::SwitchFailed(profile) => "NixOS switch failed for profile: "@ + profile,
        ErrView::Cleanup(s) => "Cleanup failed: "@ + s,
        ErrView::Io(_, message) => message,
    }
}

impl NailsError {
    /// The text this error displays.
    pub open spec fn message_spec(&self) -> Seq<char> {
        err_message(self.deep_view())
    }

    /// The text this error displays (what `Display` shows in the application).
    pub fn message(&self) -> (r: String)
        ensures
            r@ == self.message_spec(),
    {
        match self {
            NailsError::PermissionDenied(s) => concat("Permission denied: ", s.as_str()),
            NailsError::InvalidState(s) => concat("Invalid state: ", s.as_str()),
            NailsError::OverlayError(s) => concat("Overlay operation failed: ", s.as_str()),
            NailsError::NixOSError(s) => concat("NixOS operation failed: ", s.as_str()),
            NailsError::PreFlightCheckFailed(v) => {
                let listing = format_preflight_errors(v);
                concat("Pre-flight checks failed:\n", listing.as_str())
            },
            NailsError::ConfigError(s) => concat("Configuration error: ", s.as_str()),
            NailsError::InvalidArgument(s) => concat("Invalid argument: ", s.as_str()),
            NailsError::AlreadyMounted { path } => concat("Already mounted: ", path.as_str()),
            NailsError::MountBusy { path, suggestion } => {
                let mut r = concat("Mount busy: ", path.as_str());
                r.append("\nSuggestion: ");
                r.append(suggestion.as_str());
                r
            },
            NailsError::UnmountError { path, reason } => {
                let mut r = concat("Unmount failed: ", path.as_str());
                r.append("\nReason: ");
                r.append(reason.as_str());
                r
            },
            NailsError::SwapDisableFailed => String::from_str("Swap disable failed"),
            NailsError::NixOSProfileNotFound { profile } => concat(
                "NixOS profile not found: ",
                profile.as_str(),
            ),
            NailsError::NixOSBuildFailed { profile } => concat(
                "NixOS build failed for profile: ",
                profile.as_str(),
            ),
            NailsError::NixOSSwitchFailed { profile } => concat(
                "NixOS switch failed for profile: ",
                profile.as_str(),
            ),
            NailsError::CleanupError(s) => concat("Cleanup failed: ", s.as_str()),
            NailsError::IoError(e) => e.message.clone(),
        }
    }
}

} // verus!
