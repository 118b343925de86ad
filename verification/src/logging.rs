//! Logging confined to the hidden volume.
//!
//! `LoggingManager` decides where logs go and when they rotate: the log
//! directory must lie inside the hidden volume once `..` and `.` are
//! resolved, the current log rotates once it exceeds its size limit, and
//! numbered logs older than the retention period are deleted.  Installing
//! the JSON subscriber that writes the log is done by the application.
use crate::clock::current_time_millis;
use crate::error::{concat, err_message, rv, ErrView, IoErrorKind, NailsError, Result};
use crate::filesystem::mock::{
    create_directory_model, exists_at, file_size_model, pkey, removal_failure, rename_file_model, write_file_model,
    MockView,
};
use crate::filesystem::Filesystem;
use crate::path::{
    components, comps_view, file_name_of, has_root, join_spec, lemma_file_name_of_join,
    lemma_file_name_of_normal_form, path_components, path_file_name,
    path_join, path_starts_with, plain_comps, plain_name, render, render_components, starts_with,
    Comp, PathComponent,
};
use crate::text::{append_decimal, decimal, has_prefix, lemma_decimal_injective, lemma_decimal_no_slash};
use vstd::prelude::*;

verus! {

/// Default maximum size of the current log, in megabytes.
pub const DEFAULT_MAX_LOG_SIZE_MB: u64 = 10;

/// Default retention period of numbered logs, in days.
pub const DEFAULT_RETENTION_DAYS: u64 = 7;

/// Manages logging that writes only inside the hidden volume.
#[derive(Debug, Clone)]
pub struct LoggingManager {
    /// Directory where log files are written.
    pub log_path: String,
    /// Root of the hidden volume mount.
    pub hidden_volume_path: String,
    /// Maximum size of the current log, in megabytes.
    pub max_log_size_mb: u64,
    /// Retention period of numbered logs, in days.
    pub retention_days: u64,
}

/// The validated configuration that `LoggingManager::init` returns.
#[derive(Debug, Clone)]
pub struct LoggingConfig {
    /// Path of the log file (inside the hidden volume).
    pub log_file_path: String,
}

/// The names kept by resolving a component list: a root clears them, `..`
/// drops the last one (if any), `.` is ignored, a name is appended.
pub open spec fn clean_names(cs: Seq<Comp>) -> Seq<Seq<char>>
    decreases cs.len(),
{
    if cs.len() == 0 {
        Seq::<Seq<char>>::empty()
    } else {
        let st = clean_names(cs.drop_last());
        match cs.last() {
            Comp::Root => Seq::<Seq<char>>::empty(),
            Comp::Cur => st,
            Comp::Parent => if st.len() > 0 {
                st.drop_last()
            } else {
                st
            },
            Comp::Normal(x) => st.push(x),
        }
    }
}

/// The cleaned text of a path: `/` when it is absolute, then the kept names.
pub open spec fn clean_path_spec(p: Seq<char>) -> Seq<char> {
    let body = plain_comps(clean_names(components(p)));
    if has_root(p) {
        render(seq![Comp::Root] + body)
    } else {
        render(body)
    }
}

/// Whether the cleaned log path lies inside the cleaned hidden-volume path.
pub open spec fn log_path_allowed(log_path: Seq<char>, hidden: Seq<char>) -> bool {
    starts_with(clean_path_spec(log_path), clean_path_spec(hidden))
}

/// The error for a log path outside the hidden volume.
pub open spec fn outside_volume_error(log_path: Seq<char>) -> ErrView {
    ErrView::InvalidState("Log path must be on hidden volume: "@ + log_path)
}

/// Resolves `..` and `.` in a path without touching the filesystem.
///
/// A `..` at the top of the path is dropped; symbolic links are not followed.
pub fn clean_path(path: &str) -> (r: String)
    ensures
        r@ == clean_path_spec(path@),
{
    let cs = path_components(path);
    let ghost cv = comps_view(cs@);
    let mut names: Vec<String> = Vec::new();
    let mut i: usize = 0;
    while i < cs.len()
        invariant
            cv == comps_view(cs@),
            i <= cs@.len(),
            names@.map_values(|s: String| s@) == clean_names(cv.take(i as int)),
        decreases cs@.len() - i,
    {
        let ghost before = names@;
        assert(cv.take(i as int + 1).drop_last() =~= cv.take(i as int));
        assert(cv.take(i as int + 1).last() == cs@[i as int]@);
        match &cs[i] {
            PathComponent::ParentDir => {
                if names.len() > 0 {
                    names.pop();
                    assert(names@.map_values(|s: String| s@) =~= before.map_values(
                        |s: String| s@,
                    ).drop_last());
                }
            },
            PathComponent::Normal(c) => {
                names.push(c.clone());
                assert(names@.map_values(|s: String| s@) =~= before.map_values(|s: String| s@).push(
                    c@,
                ));
            },
            PathComponent::RootDir => {
                names = Vec::new();
                assert(names@.map_values(|s: String| s@) =~= Seq::<Seq<char>>::empty());
            },
            PathComponent::CurDir => {},
        }
        i = i + 1;
    }
    assert(cv.take(cs@.len() as int) =~= cv);
    let ghost kept = clean_names(cv);
    let mut out: Vec<PathComponent> = Vec::new();
    let pc = crate::path::chars_of(path);
    let absolute = pc.len() > 0 && pc[0] == '/';
    if absolute {
        out.push(PathComponent::RootDir);
    }
    let ghost pre = comps_view(out@);
    let mut j: usize = 0;
    while j < names.len()
        invariant
            names@.map_values(|s: String| s@) == kept,
            j <= names@.len(),
            comps_view(out@) == pre + plain_comps(kept.take(j as int)),
        decreases names@.len() - j,
    {
        let ghost before = out@;
        out.push(PathComponent::Normal(names[j].clone()));
        assert(plain_comps(kept.take(j as int + 1)) =~= plain_comps(kept.take(j as int)).push(
            Comp::Normal(kept[j as int]),
        ));
        assert(comps_view(out@) =~= comps_view(before).push(Comp::Normal(kept[j as int])));
        j = j + 1;
    }
    assert(kept.take(names@.len() as int) =~= kept);
    proof {
        if absolute {
            assert(pre =~= seq![Comp::Root]);
        } else {
            assert(pre =~= Seq::<Comp>::empty());
            assert(Seq::<Comp>::empty() + plain_comps(kept) =~= plain_comps(kept));
        }
    }
    render_components(&out)
}

impl LoggingManager {
    /// A manager with the default size limit and retention period.
    pub fn new(log_path: String, hidden_volume_path: String) -> (r: LoggingManager)
        ensures
            r.log_path@ == log_path@,
            r.hidden_volume_path@ == hidden_volume_path@,
            r.max_log_size_mb == DEFAULT_MAX_LOG_SIZE_MB,
            r.retention_days == DEFAULT_RETENTION_DAYS,
    {
        LoggingManager {
            log_path,
            hidden_volume_path,
            max_log_size_mb: DEFAULT_MAX_LOG_SIZE_MB,
            retention_days: DEFAULT_RETENTION_DAYS,
        }
    }

    /// Checks that the log path lies inside the hidden volume, after `..`
    /// and `.` are resolved in both paths and by whole components (so
    /// `/mnt/hidden-volume-fake` is not inside `/mnt/hidden-volume`), and
    /// that the log path is not a symbolic link (which could lead outside
    /// the volume).  Whether it is a link is the filesystem's answer; an
    /// error answer is returned as it is.
    pub fn validate_log_path<F: Filesystem>(&self, fs: &F) -> (r: Result<()>)
        ensures
            !log_path_allowed(self.log_path@, self.hidden_volume_path@) ==> rv(r) == Err::<
                (),
                ErrView,
            >(outside_volume_error(self.log_path@)),
            exists|link: std::result::Result<bool, ErrView>|
                rv(r) == #[trigger] validation_outcome(
                    log_path_allowed(self.log_path@, self.hidden_volume_path@),
                    self.log_path@,
                    link,
                ),
            F::follows_model() ==> rv(r) == validation_outcome(
                log_path_allowed(self.log_path@, self.hidden_volume_path@),
                self.log_path@,
                Ok(
                    fs.model().paths.contains_key(pkey(self.log_path@))
                        && fs.model().paths[pkey(self.log_path@)].is_symlink,
                ),
            ),
    {
        match self.check_within_volume() {
            Ok(()) => {},
            Err(e) => {
                let ghost no: std::result::Result<bool, ErrView> = Ok(false);
                assert(rv(Err::<(), NailsError>(e)) == validation_outcome(
                    false,
                    self.log_path@,
                    no,
                ));
                return Err(e);
            },
        }
        match fs.is_symlink(self.log_path.as_str()) {
            Ok(true) => {
                let e = NailsError::InvalidState(String::from_str("Log path must not be a symlink"));
                assert(rv(Err::<(), NailsError>(e)) == validation_outcome(
                    true,
                    self.log_path@,
                    Ok(true),
                ));
                Err(e)
            },
            Ok(false) => {
                assert(rv(Ok::<(), NailsError>(())) == validation_outcome(
                    true,
                    self.log_path@,
                    Ok(false),
                ));
                Ok(())
            },
            Err(e) => {
                assert(rv(Err::<(), NailsError>(e)) == validation_outcome(
                    true,
                    self.log_path@,
                    Err(e.deep_view()),
                ));
                Err(e)
            },
        }
    }

    /// The path part of `validate_log_path`: the log path lies inside the
    /// hidden volume.
    fn check_within_volume(&self) -> (r: Result<()>)
        ensures
            rv(r) == (if log_path_allowed(self.log_path@, self.hidden_volume_path@) {
                Ok::<(), ErrView>(())
            } else {
                Err(outside_volume_error(self.log_path@))
            }),
    {
        let cleaned_log = clean_path(self.log_path.as_str());
        let cleaned_hidden = clean_path(self.hidden_volume_path.as_str());
        if !path_starts_with(cleaned_log.as_str(), cleaned_hidden.as_str()) {
            let m = concat("Log path must be on hidden volume: ", self.log_path.as_str());
            return Err(NailsError::InvalidState(m));
        }
        Ok(())
    }
}

/// The current log file of a log directory.
pub open spec fn log_file_spec(log_path: Seq<char>) -> Seq<char> {
    join_spec(log_path, "nails.log"@)
}

/// The `n`-th rotated log of a log directory (`nails.log.n`).
pub open spec fn numbered_log_spec(log_path: Seq<char>, n: nat) -> Seq<char> {
    join_spec(log_path, "nails.log."@ + decimal(n))
}

/// The size above which the current log rotates: the limit in bytes, or
/// `u64::MAX` where the limit in bytes does not fit in a `u64`.
pub open spec fn rotation_threshold(max_log_size_mb: u64) -> int {
    if max_log_size_mb * 1048576 <= u64::MAX {
        max_log_size_mb * 1048576
    } else {
        u64::MAX as int
    }
}

/// The renames that shift the numbered logs, in the order they are made:
/// `nails.log.(d-1)` to `nails.log.d` first, down to `nails.log.1` to
/// `nails.log.2`, for a retention of `d` days.
pub open spec fn rotation_plan_spec(log_path: Seq<char>, retention_days: nat) -> Seq<
    (Seq<char>, Seq<char>),
> {
    let n: nat = if retention_days >= 1 {
        (retention_days - 1) as nat
    } else {
        0
    };
    Seq::new(
        n,
        |j: int|
            (
                numbered_log_spec(log_path, (retention_days - 1 - j) as nat),
                numbered_log_spec(log_path, (retention_days - j) as nat),
            ),
    )
}

/// Whole days from `modified` to `now` (both in milliseconds), rounded toward zero.
pub open spec fn age_days(now: i64, modified: i64) -> int {
    let d = now - modified;
    if d >= 0 {
        d / 86400000
    } else {
        -((-d) / 86400000)
    }
}

/// Whether a log modified at `modified` is past the retention period at `now`.
pub open spec fn retention_expired(now: i64, modified: i64, retention_days: u64) -> bool {
    age_days(now, modified) > (retention_days as i64) as int
}

/// Whether a directory entry is a rotated log (its name begins with `nails.log.`).
pub open spec fn rotated_log_name(entry: Seq<char>) -> bool {
    match file_name_of(entry) {
        Some(n) => "nails.log."@.is_prefix_of(n),
        None => false,
    }
}

/// The current log file of a log directory.
pub fn log_file_path(log_path: &str) -> (r: String)
    ensures
        r@ == log_file_spec(log_path@),
{
    path_join(log_path, "nails.log")
}

/// The `n`-th rotated log of a log directory.
pub fn numbered_log_path(log_path: &str, n: u64) -> (r: String)
    ensures
        r@ == numbered_log_spec(log_path@, n as nat),
{
    let mut name = String::from_str("nails.log.");
    append_decimal(&mut name, n);
    path_join(log_path, name.as_str())
}

/// The renames that shift the numbered logs, highest first, so that no
/// log is overwritten before it has moved.
pub fn rotation_plan(log_path: &str, retention_days: u64) -> (r: Vec<(String, String)>)
    ensures
        r@.len() == rotation_plan_spec(log_path@, retention_days as nat).len(),
        forall|j: int|
            0 <= j < r@.len() ==> (r@[j].0@, r@[j].1@) == rotation_plan_spec(
                log_path@,
                retention_days as nat,
            )[j],
{
    let ghost plan = rotation_plan_spec(log_path@, retention_days as nat);
    let mut out: Vec<(String, String)> = Vec::new();
    if retention_days <= 1 {
        return out;
    }
    let mut i: u64 = retention_days - 1;
    while i >= 1
        invariant
            1 < retention_days,
            plan == rotation_plan_spec(log_path@, retention_days as nat),
            plan.len() == retention_days - 1,
            i < retention_days,
            out@.len() == retention_days - 1 - i,
            forall|j: int| 0 <= j < out@.len() ==> (out@[j].0@, out@[j].1@) == plan[j],
        decreases i,
    {
        let from = numbered_log_path(log_path, i);
        let to = numbered_log_path(log_path, i + 1);
        let ghost k = out@.len() as int;
        out.push((from, to));
        assert((out@[k].0@, out@[k].1@) == plan[k]);
        i = i - 1;
    }
    out
}

/// Whether a log of `file_size` bytes exceeds the limit of `max_log_size_mb`
/// megabytes (a limit too large for a `u64` in bytes is never exceeded).
pub fn exceeds_size_limit(file_size: u64, max_log_size_mb: u64) -> (r: bool)
    ensures
        r == (file_size > rotation_threshold(max_log_size_mb)),
{
    let threshold = match max_log_size_mb.checked_mul(1024) {
        Some(kb) => match kb.checked_mul(1024) {
            Some(b) => b,
            None => u64::MAX,
        },
        None => u64::MAX,
    };
    file_size > threshold
}

/// Whole days from `modified` to `now` (milliseconds), rounded toward zero.
pub fn log_age_days(now: i64, modified: i64) -> (r: i64)
    ensures
        r == age_days(now, modified),
{
    let d: i128 = now as i128 - modified as i128;
    if d >= 0 {
        let q: i128 = d / 86400000;
        assert(q <= d) by (nonlinear_arith)
            requires
                d >= 0,
                q == d / 86400000,
        ;
        q as i64
    } else {
        let q: i128 = (-d) / 86400000;
        assert(q <= -d) by (nonlinear_arith)
            requires
                d < 0,
                q == (-d) / 86400000,
        ;
        assert(q >= 0) by (nonlinear_arith)
            requires
                d < 0,
                q == (-d) / 86400000,
        ;
        (-q) as i64
    }
}

/// Whether a log modified at `modified` is past `retention_days` at `now`.
pub fn log_retention_expired(now: i64, modified: i64, retention_days: u64) -> (r: bool)
    ensures
        r == retention_expired(now, modified, retention_days),
{
    log_age_days(now, modified) > retention_days as i64
}

/// Whether a directory entry is a rotated log.
pub fn is_rotated_log_name(entry: &str) -> (r: bool)
    ensures
        r == rotated_log_name(entry@),
{
    match path_file_name(entry) {
        Some(n) => has_prefix(n.as_str(), "nails.log."),
        None => false,
    }
}

/// Whether an error is an input/output error of kind `PermissionDenied`.
pub fn is_permission_denied(err: &NailsError) -> (r: bool)
    ensures
        r == (err.deep_view() matches ErrView::Io(k, _) && k == IoErrorKind::PermissionDenied),
{
    match err {
        NailsError::IoError(io) => match io.kind() {
            IoErrorKind::PermissionDenied => true,
            _ => false,
        },
        _ => false,
    }
}

/// The log file path of a configuration, or the error.
pub open spec fn config_result_view(r: Result<LoggingConfig>) -> std::result::Result<
    Seq<char>,
    ErrView,
> {
    match r {
        Ok(c) => Ok(c.log_file_path@),
        Err(e) => Err(e.deep_view()),
    }
}

/// How `validate_log_path` ends: outside the volume is refused first, then
/// a symbolic link, and an error answer to the link question is returned.
pub open spec fn validation_outcome(
    allowed: bool,
    log_path: Seq<char>,
    link: std::result::Result<bool, ErrView>,
) -> std::result::Result<(), ErrView> {
    if !allowed {
        Err(outside_volume_error(log_path))
    } else {
        match link {
            Err(e) => Err(e),
            Ok(true) => Err(ErrView::InvalidState("Log path must not be a symlink"@)),
            Ok(false) => Ok(()),
        }
    }
}

/// The error when the log directory cannot be created.
pub open spec fn creation_error(log_path: Seq<char>, e: ErrView) -> ErrView {
    ErrView::InvalidState("Log directory cannot be created: "@ + log_path + ": "@ + err_message(e))
}

/// How `init` ends for the filesystem's answers: whether the hidden volume
/// exists, whether the log directory exists, whether it is a symbolic link
/// (asked only when it exists) and how its creation went (tried only when
/// it is missing); an error answer ends `init` with that error.
pub open spec fn init_outcome(
    allowed: bool,
    log_path: Seq<char>,
    mounted: std::result::Result<bool, ErrView>,
    exists: std::result::Result<bool, ErrView>,
    symlink: std::result::Result<bool, ErrView>,
    created: std::result::Result<(), ErrView>,
) -> std::result::Result<Seq<char>, ErrView> {
    if !allowed {
        Err(outside_volume_error(log_path))
    } else {
        match mounted {
            Err(e) => Err(e),
            Ok(false) => Err(ErrView::InvalidState("Hidden volume not mounted"@)),
            Ok(true) => match exists {
                Err(e) => Err(e),
                Ok(false) => match created {
                    Err(e) => Err(creation_error(log_path, e)),
                    Ok(()) => Ok(log_file_spec(log_path)),
                },
                Ok(true) => match symlink {
                    Err(e) => Err(e),
                    Ok(true) => Err(ErrView::InvalidState("Log path must not be a symlink"@)),
                    Ok(false) => Ok(log_file_spec(log_path)),
                },
            },
        }
    }
}

/// The size check for a size answer of the filesystem.
pub open spec fn rotation_check_outcome(
    size: std::result::Result<u64, ErrView>,
    max_log_size_mb: u64,
) -> std::result::Result<bool, ErrView> {
    match size {
        Ok(s) => Ok(s > rotation_threshold(max_log_size_mb)),
        Err(e) => Err(e),
    }
}

/// How rotation ends for the filesystem's answers: the size of the current
/// log, then (when it exceeds the limit) moving it to `nails.log.1` and
/// writing the new empty log.
pub open spec fn rotation_outcome(
    size: std::result::Result<u64, ErrView>,
    max_log_size_mb: u64,
    moved: std::result::Result<(), ErrView>,
    written: std::result::Result<(), ErrView>,
) -> std::result::Result<(), ErrView> {
    match rotation_check_outcome(size, max_log_size_mb) {
        Err(e) => Err(e),
        Ok(false) => Ok(()),
        Ok(true) => match moved {
            Err(e) => Err(e),
            Ok(()) => written,
        },
    }
}

/// What `init` does with the log directory once the hidden volume is mounted.
#[derive(Debug, Clone, Copy, PartialEq, Eq, Structural)]
pub enum LogDirectoryAction {
    /// The directory is missing and is created.
    Create,
    /// The directory exists and is used as it is.
    UseExisting,
}

/// The decision `init` takes on the log directory: create it when it is
/// missing, refuse it when it is a symbolic link, else use it.
pub fn log_directory_action(log_path_exists: bool, log_path_is_symlink: bool) -> (r: Result<
    LogDirectoryAction,
>)
    ensures
        !log_path_exists ==> r == Ok::<LogDirectoryAction, NailsError>(LogDirectoryAction::Create),
        log_path_exists && log_path_is_symlink ==> (r matches Err(e) && e.deep_view()
            == ErrView::InvalidState("Log path must not be a symlink"@)),
        log_path_exists && !log_path_is_symlink ==> r == Ok::<LogDirectoryAction, NailsError>(
            LogDirectoryAction::UseExisting,
        ),
{
    if !log_path_exists {
        Ok(LogDirectoryAction::Create)
    } else if log_path_is_symlink {
        Err(NailsError::InvalidState(String::from_str("Log path must not be a symlink")))
    } else {
        Ok(LogDirectoryAction::UseExisting)
    }
}

/// Whether some rotated-log entry that the model lists for `log_path` has
/// the key `k` (so that retention may delete it).
pub open spec fn retention_names(s: MockView, log_path: Seq<char>, k: Seq<char>) -> bool {
    let entries = s.directory_contents[pkey(log_path)];
    s.directory_contents.contains_key(pkey(log_path)) && exists|i: int|
        0 <= i < entries.len() && rotated_log_name(#[trigger] entries[i]) && pkey(entries[i]) == k
}

/// Whether the path and content at key `k` are the same in `s` and `t`.
pub open spec fn same_at(s: MockView, t: MockView, k: Seq<char>) -> bool {
    &&& s.paths.contains_key(k) == t.paths.contains_key(k)
    &&& s.paths.contains_key(k) ==> s.paths[k] == t.paths[k]
    &&& s.file_contents.contains_key(k) == t.file_contents.contains_key(k)
    &&& s.file_contents.contains_key(k) ==> s.file_contents[k] == t.file_contents[k]
}

/// The current log and a rotated log never share a key: their file names
/// differ (`nails.log` against a name beginning with `nails.log.`).
pub proof fn lemma_rotated_entry_is_not_current_log(entry: Seq<char>, log_path: Seq<char>)
    requires
        rotated_log_name(entry),
    ensures
        pkey(entry) != pkey(log_file_spec(log_path)),
{
    reveal_strlit("nails.log");
    reveal_strlit("nails.log.");
    let cur = log_file_spec(log_path);
    assert(plain_name("nails.log"@)) by {
        assert(!"nails.log"@.contains('/')) by {
            assert forall|i: int| 0 <= i < "nails.log"@.len() implies "nails.log"@[i] != '/' by {}
        }
    }
    lemma_file_name_of_join(log_path, "nails.log"@);
    if pkey(entry) == pkey(cur) {
        lemma_file_name_of_normal_form(entry);
        lemma_file_name_of_normal_form(cur);
        assert(file_name_of(entry) == Some("nails.log"@));
        assert(!"nails.log."@.is_prefix_of("nails.log"@));
    }
}

/// A numbered log is a rotated log, so it never shares the current log's key.
pub proof fn lemma_numbered_log_is_rotated(log_path: Seq<char>, n: nat)
    ensures
        rotated_log_name(numbered_log_spec(log_path, n)),
        pkey(numbered_log_spec(log_path, n)) != pkey(log_file_spec(log_path)),
        file_name_of(numbered_log_spec(log_path, n)) == Some("nails.log."@ + decimal(n)),
{
    reveal_strlit("nails.log.");
    let name = "nails.log."@ + decimal(n);
    lemma_decimal_no_slash(n);
    assert(plain_name(name)) by {
        assert forall|i: int| 0 <= i < name.len() implies name[i] != '/' by {
            if i >= 10 {
                assert(name[i] == decimal(n)[i - 10]);
            }
        }
        assert(name.len() > 2);
    }
    lemma_file_name_of_join(log_path, name);
    assert("nails.log."@.is_prefix_of(name)) by {
        assert(name.subrange(0, 10) =~= "nails.log."@);
    }
    lemma_rotated_entry_is_not_current_log(numbered_log_spec(log_path, n), log_path);
}

/// Different numbers give rotated logs with different keys.
pub proof fn lemma_numbered_keys_distinct(log_path: Seq<char>, a: nat, b: nat)
    requires
        a != b,
    ensures
        pkey(numbered_log_spec(log_path, a)) != pkey(numbered_log_spec(log_path, b)),
{
    lemma_numbered_log_is_rotated(log_path, a);
    lemma_numbered_log_is_rotated(log_path, b);
    if pkey(numbered_log_spec(log_path, a)) == pkey(numbered_log_spec(log_path, b)) {
        lemma_file_name_of_normal_form(numbered_log_spec(log_path, a));
        lemma_file_name_of_normal_form(numbered_log_spec(log_path, b));
        lemma_suffix_cancel("nails.log."@, decimal(a), decimal(b));
        lemma_decimal_injective(a, b);
    }
}

/// Whether, from `s` to `t`, the rotated log numbered `n` (existing in `s`,
/// with content, and not configured to fail a rename) has moved up to
/// number `n + 1`.
pub open spec fn shifted_up(s: MockView, t: MockView, log_path: Seq<char>, n: nat) -> bool {
    let kn = pkey(numbered_log_spec(log_path, n));
    let kn1 = pkey(numbered_log_spec(log_path, n + 1));
    exists_at(s.paths, kn) && !s.rename_should_fail.contains(kn) && s.file_contents.contains_key(kn)
        ==> t.file_contents.contains_key(kn1) && t.file_contents[kn1] == s.file_contents[kn]
}

/// Whether `q` is the key of a rotated log numbered from 1 to `days` (or
/// of `nails.log.1`, which rotation always writes).
pub open spec fn numbered_key(log_path: Seq<char>, days: nat, q: Seq<char>) -> bool {
    exists|n: nat|
        1 <= n && (n <= days || n == 1) && #[trigger] pkey(numbered_log_spec(log_path, n)) == q
}

/// The moves of a rotation from `s` to `m`: each rotated log numbered from
/// 1 to `days - 1` has shifted up, the current log's content is now
/// `nails.log.1`, and the current log exists and is empty.
pub open spec fn rotation_moves(s: MockView, m: MockView, log_path: Seq<char>, days: nat) -> bool {
    let klog = pkey(log_file_spec(log_path));
    let k1 = pkey(numbered_log_spec(log_path, 1));
    &&& forall|n: nat| 1 <= n < days ==> #[trigger] shifted_up(s, m, log_path, n)
    &&& s.file_contents.contains_key(klog) ==> m.file_contents.contains_key(k1)
        && m.file_contents[k1] == s.file_contents[klog]
    &&& exists_at(m.paths, klog) && m.file_contents.contains_key(klog) && m.file_contents[klog]
        == Seq::<char>::empty()
}

/// Retention from `m` to `t` in the model, for some reading of the clock
/// (see `retention_done`); nothing changes when the directory is not
/// listed.
pub open spec fn retention_applied(m: MockView, t: MockView, log_path: Seq<char>, days: u64) -> bool {
    if m.directory_contents.contains_key(pkey(log_path)) {
        exists|now: i64|
            #[trigger] retention_done(
                m,
                t,
                m.directory_contents[pkey(log_path)],
                days,
                now,
                false,
            )
    } else {
        t == m
    }
}

/// What a due rotation leaves in the model, from `s` to `t`, beyond
/// `due_rotation_model`: on success, the moves of `rotation_moves` followed
/// by retention; on failure the numbered logs have still shifted up; a
/// failed move of the current log leaves it as it was, and after a failed
/// write the current log gets its content back from `nails.log.1` (where
/// that rename is not configured to fail).
pub open spec fn rotation_effects(
    s: MockView,
    t: MockView,
    log_path: Seq<char>,
    days: u64,
    ok: bool,
) -> bool {
    let klog = pkey(log_file_spec(log_path));
    let k1 = pkey(numbered_log_spec(log_path, 1));
    &&& ok ==> exists|m: MockView|
        #[trigger] rotation_moves(s, m, log_path, days as nat) && retention_applied(
            m,
            t,
            log_path,
            days,
        )
    &&& !ok ==> forall|n: nat| 1 <= n < days ==> #[trigger] shifted_up(s, t, log_path, n)
    &&& s.rename_should_fail.contains(klog) ==> same_at(s, t, klog)
    &&& !ok ==> t == (MockView { paths: t.paths, file_contents: t.file_contents, ..s })
    &&& !ok ==> forall|q: Seq<char>|
        !numbered_key(log_path, days as nat, q) && q != klog ==> #[trigger] same_at(s, t, q)
    &&& s.rename_should_fail.contains(klog) ==> (exists_at(t.paths, k1) ==> exists_at(s.paths, k1))
    &&& !s.rename_should_fail.contains(klog) && s.write_should_fail.contains(klog)
        && !s.rename_should_fail.contains(k1) && s.file_contents.contains_key(klog) ==> (
    t.file_contents.contains_key(klog) && t.file_contents[klog] == s.file_contents[klog])
}

/// One move of a rotation: `nails.log.n` is renamed to `nails.log.(n+1)`
/// where it exists.
pub open spec fn shift_step(s: MockView, log_path: Seq<char>, n: nat) -> MockView {
    if exists_at(s.paths, pkey(numbered_log_spec(log_path, n))) {
        rename_file_model(s, numbered_log_spec(log_path, n), numbered_log_spec(log_path, n + 1)).0
    } else {
        s
    }
}

/// The model after the first `i` moves of a rotation with `days` retention
/// days, the highest-numbered log first.
pub open spec fn shifted_state(s: MockView, log_path: Seq<char>, days: nat, i: nat) -> MockView
    decreases i,
{
    if i == 0 {
        s
    } else {
        shift_step(shifted_state(s, log_path, days, (i - 1) as nat), log_path, (days - i) as nat)
    }
}

/// The model after all moves of the numbered logs of a rotation.
pub open spec fn all_shifted(s: MockView, log_path: Seq<char>, days: nat) -> MockView {
    shifted_state(s, log_path, days, rotation_plan_spec(log_path, days).len())
}

/// The model once the current log has been moved to `nails.log.1` and a
/// fresh one written, before retention.
pub open spec fn rotated_state(s: MockView, log_path: Seq<char>, days: nat) -> MockView {
    let moved = rename_file_model(
        all_shifted(s, log_path, days),
        log_file_spec(log_path),
        numbered_log_spec(log_path, 1),
    ).0;
    write_file_model(moved, log_file_spec(log_path), ""@).0
}

/// The model that a due rotation that fails leaves: the numbered logs have
/// moved; where the current log could not be moved nothing more happened,
/// and where the fresh log could not be written `nails.log.1` was moved back
/// to the current log.  Retention does not run.
pub open spec fn failed_rotation_state(s: MockView, log_path: Seq<char>, days: nat) -> MockView {
    let m1 = all_shifted(s, log_path, days);
    let (m2, moved) = rename_file_model(
        m1,
        log_file_spec(log_path),
        numbered_log_spec(log_path, 1),
    );
    if moved is Err {
        m1
    } else {
        rename_file_model(m2, numbered_log_spec(log_path, 1), log_file_spec(log_path)).0
    }
}

/// Retention never deletes the current log: no rotated-log entry that it
/// may delete has the current log's key.
pub proof fn law_retention_spares_current_log(s: MockView, log_path: Seq<char>)
    ensures
        !retention_names(s, log_path, pkey(log_file_spec(log_path))),
{
    let entries = s.directory_contents[pkey(log_path)];
    assert forall|i: int|
        0 <= i < entries.len() && rotated_log_name(#[trigger] entries[i]) implies pkey(entries[i])
        != pkey(log_file_spec(log_path)) by {
        lemma_rotated_entry_is_not_current_log(entries[i], log_path);
    }
}

/// What a rotation that is due leaves in the model, from state `s` to state
/// `t` with result `r`: it fails where renaming or writing the current log
/// is configured to fail; otherwise it succeeds, and the current log exists
/// and is empty.
pub open spec fn due_rotation_model(
    s: MockView,
    t: MockView,
    log_path: Seq<char>,
    r: std::result::Result<(), ErrView>,
) -> bool {
    let log = log_file_spec(log_path);
    let k = pkey(log);
    &&& r == (if s.rename_should_fail.contains(k) {
        Err(
            ErrView::Io(
                IoErrorKind::PermissionDenied,
                "Mock: rename_file configured to fail for "@ + log,
            ),
        )
    } else if s.write_should_fail.contains(k) {
        Err(ErrView::Io(IoErrorKind::PermissionDenied, "Mock write failure for "@ + log))
    } else {
        Ok(())
    })
    &&& r is Ok ==> exists_at(t.paths, k) && t.file_contents.contains_key(k)
        && t.file_contents[k] == Seq::<char>::empty()
}

/// Whether some rotated-log entry of `entries` has the key `k`.
pub open spec fn names_rotated(entries: Seq<Seq<char>>, k: Seq<char>) -> bool {
    exists|i: int|
        0 <= i < entries.len() && rotated_log_name(#[trigger] entries[i]) && pkey(entries[i]) == k
}

/// Whether the model configures a modification time for key `k` that is
/// past the retention period at `now`.
pub open spec fn expired_key(s: MockView, k: Seq<char>, days: u64, now: i64) -> bool {
    s.modified_times.contains_key(k) && retention_expired(now, s.modified_times[k], days)
}

/// Whether the model configures a modification time for key `k` that is
/// within the retention period at `now`.
pub open spec fn kept_key(s: MockView, k: Seq<char>, days: u64, now: i64) -> bool {
    s.modified_times.contains_key(k) && !retention_expired(now, s.modified_times[k], days)
}

/// Whether the path at key `k` is gone in `t`: no content and not existing.
pub open spec fn removed_at(t: MockView, k: Seq<char>) -> bool {
    !t.file_contents.contains_key(k) && !exists_at(t.paths, k)
}

/// What retention leaves at key `k`, from `s` to `t`, for the listed
/// `entries` and the clock reading `now`: a key that no rotated entry
/// names, or whose removal is configured to fail, or whose configured time
/// is within the period, is as it was; one whose configured time is past
/// the period and whose removal is not configured to fail is gone.
pub open spec fn retention_at(
    s: MockView,
    t: MockView,
    entries: Seq<Seq<char>>,
    days: u64,
    now: i64,
    k: Seq<char>,
) -> bool {
    &&& !names_rotated(entries, k) ==> same_at(s, t, k)
    &&& names_rotated(entries, k) && (s.remove_should_fail.contains(k) || kept_key(s, k, days, now))
        ==> same_at(s, t, k)
    &&& names_rotated(entries, k) && !s.remove_should_fail.contains(k) && expired_key(
        s,
        k,
        days,
        now,
    ) ==> removed_at(t, k)
}

/// Whether no rotated entry with a configured time past the period at
/// `now` has its removal configured to fail.
pub open spec fn no_failed_removal(s: MockView, entries: Seq<Seq<char>>, days: u64, now: i64) -> bool {
    forall|j: int|
        0 <= j < entries.len() && rotated_log_name(#[trigger] entries[j])
            && s.remove_should_fail.contains(pkey(entries[j])) ==> !expired_key(
            s,
            pkey(entries[j]),
            days,
            now,
        )
}

/// Retention from `s` to `t` at the clock reading `now`: `retention_at`
/// for every key, and, when it succeeded, no failed removal was due.
pub open spec fn retention_done(
    s: MockView,
    t: MockView,
    entries: Seq<Seq<char>>,
    days: u64,
    now: i64,
    ok: bool,
) -> bool {
    &&& forall|k: Seq<char>| #[trigger] retention_at(s, t, entries, days, now, k)
    &&& ok ==> no_failed_removal(s, entries, days, now)
}

/// Whether the model configures a modification time for every rotated
/// entry of `entries`.
pub open spec fn all_times_configured(s: MockView, entries: Seq<Seq<char>>) -> bool {
    forall|j: int|
        0 <= j < entries.len() && rotated_log_name(#[trigger] entries[j])
            ==> s.modified_times.contains_key(pkey(entries[j]))
}

/// Whether `e` is the configured removal failure of a listed rotated log.
pub open spec fn retention_failure(s: MockView, entries: Seq<Seq<char>>, e: ErrView) -> bool {
    exists|i: int|
        0 <= i < entries.len() && rotated_log_name(#[trigger] entries[i])
            && s.remove_should_fail.contains(pkey(entries[i])) && e == removal_failure(
            "remove_file"@,
            entries[i],
        )
}

proof fn lemma_names_rotated_step(ev: Seq<Seq<char>>, i: int)
    requires
        0 <= i < ev.len(),
    ensures
        forall|k: Seq<char>|
            #[trigger] names_rotated(ev.take(i + 1), k) == (names_rotated(ev.take(i), k) || (
            rotated_log_name(ev[i]) && pkey(ev[i]) == k)),
{
    assert forall|k: Seq<char>|
        #[trigger] names_rotated(ev.take(i + 1), k) == (names_rotated(ev.take(i), k) || (
        rotated_log_name(ev[i]) && pkey(ev[i]) == k)) by {
        if names_rotated(ev.take(i + 1), k) {
            let j = choose|j: int|
                0 <= j < ev.take(i + 1).len() && rotated_log_name(#[trigger] ev.take(i + 1)[j])
                    && pkey(ev.take(i + 1)[j]) == k;
            if j < i {
                assert(ev.take(i)[j] == ev.take(i + 1)[j]);
            }
        }
        if names_rotated(ev.take(i), k) {
            let j = choose|j: int|
                0 <= j < ev.take(i).len() && rotated_log_name(#[trigger] ev.take(i)[j]) && pkey(
                    ev.take(i)[j],
                ) == k;
            assert(ev.take(i + 1)[j] == ev.take(i)[j]);
        }
        if rotated_log_name(ev[i]) && pkey(ev[i]) == k {
            assert(ev.take(i + 1)[i] == ev[i]);
        }
    }
}

impl LoggingManager {
    /// Validates the log path, checks that the hidden volume is mounted,
    /// creates the log directory if it is missing (a symbolic link there is
    /// refused, and a directory that cannot be created is refused with
    /// `InvalidState`), validates again and returns the log file path.
    ///
    /// The outcome is the one that some answers of the filesystem give (see
    /// `init_outcome`); so logging is set up only where the filesystem said
    /// the hidden volume exists.
    pub fn init<F: Filesystem>(&self, fs: &mut F) -> (r: Result<LoggingConfig>)
        ensures
            !log_path_allowed(self.log_path@, self.hidden_volume_path@) ==> (r matches Err(e)
                && e.deep_view() == outside_volume_error(self.log_path@)),
            r matches Ok(c) ==> (log_path_allowed(self.log_path@, self.hidden_volume_path@)
                && c.log_file_path@ == log_file_spec(self.log_path@)),
            exists|
                m: std::result::Result<bool, ErrView>,
                e: std::result::Result<bool, ErrView>,
                s: std::result::Result<bool, ErrView>,
                c: std::result::Result<(), ErrView>,
            |
                config_result_view(r) == #[trigger] init_outcome(
                    log_path_allowed(self.log_path@, self.hidden_volume_path@),
                    self.log_path@,
                    m,
                    e,
                    s,
                    c,
                ),
            F::follows_model() ==> config_result_view(r) == init_outcome(
                log_path_allowed(self.log_path@, self.hidden_volume_path@),
                self.log_path@,
                Ok(exists_at(old(fs).model().paths, pkey(self.hidden_volume_path@))),
                Ok(exists_at(old(fs).model().paths, pkey(self.log_path@))),
                Ok(
                    old(fs).model().paths.contains_key(pkey(self.log_path@))
                        && old(fs).model().paths[pkey(self.log_path@)].is_symlink,
                ),
                create_directory_model(old(fs).model(), self.log_path@).1,
            ),
            F::follows_model() ==> final(fs).model() == (if log_path_allowed(
                self.log_path@,
                self.hidden_volume_path@,
            ) && exists_at(old(fs).model().paths, pkey(self.hidden_volume_path@)) && !exists_at(
                old(fs).model().paths,
                pkey(self.log_path@),
            ) {
                create_directory_model(old(fs).model(), self.log_path@).0
            } else {
                old(fs).model()
            }),
    {
        let ghost allowed = log_path_allowed(self.log_path@, self.hidden_volume_path@);
        let ghost nb: std::result::Result<bool, ErrView> = Ok(false);
        let ghost nc: std::result::Result<(), ErrView> = Ok(());
        match self.check_within_volume() {
            Ok(()) => {},
            Err(e) => {
                assert(config_result_view(Err(e)) == init_outcome(
                    allowed,
                    self.log_path@,
                    nb,
                    nb,
                    nb,
                    nc,
                ));
                return Err(e);
            },
        }
        let mounted = match fs.path_exists(self.hidden_volume_path.as_str()) {
            Ok(b) => b,
            Err(e) => {
                assert(config_result_view(Err(e)) == init_outcome(
                    allowed,
                    self.log_path@,
                    Err(e.deep_view()),
                    nb,
                    nb,
                    nc,
                ));
                return Err(e);
            },
        };
        if !mounted {
            let e = NailsError::InvalidState(String::from_str("Hidden volume not mounted"));
            assert(config_result_view(Err(e)) == init_outcome(
                allowed,
                self.log_path@,
                Ok(false),
                nb,
                nb,
                nc,
            ));
            return Err(e);
        }
        let exists = match fs.path_exists(self.log_path.as_str()) {
            Ok(b) => b,
            Err(e) => {
                assert(config_result_view(Err(e)) == init_outcome(
                    allowed,
                    self.log_path@,
                    Ok(true),
                    Err(e.deep_view()),
                    nb,
                    nc,
                ));
                return Err(e);
            },
        };
        let symlink = if exists {
            match fs.is_symlink(self.log_path.as_str()) {
                Ok(b) => b,
                Err(e) => {
                    assert(config_result_view(Err(e)) == init_outcome(
                        allowed,
                        self.log_path@,
                        Ok(true),
                        Ok(true),
                        Err(e.deep_view()),
                        nc,
                    ));
                    return Err(e);
                },
            }
        } else {
            false
        };
        let ghost sym: std::result::Result<bool, ErrView> = Ok(symlink);
        match log_directory_action(exists, symlink) {
            Ok(LogDirectoryAction::Create) => match fs.create_directory(self.log_path.as_str()) {
                Ok(()) => {},
                Err(e) => {
                    let mut m = concat("Log directory cannot be created: ", self.log_path.as_str());
                    m.append(": ");
                    let t = e.message();
                    m.append(t.as_str());
                    let ce = NailsError::InvalidState(m);
                    assert(config_result_view(Err(ce)) == init_outcome(
                        allowed,
                        self.log_path@,
                        Ok(true),
                        Ok(false),
                        sym,
                        Err(e.deep_view()),
                    ));
                    return Err(ce);
                },
            },
            Ok(LogDirectoryAction::UseExisting) => {},
            Err(e) => {
                assert(config_result_view(Err(e)) == init_outcome(
                    allowed,
                    self.log_path@,
                    Ok(true),
                    Ok(true),
                    sym,
                    nc,
                ));
                return Err(e);
            },
        }
        match self.check_within_volume() {
            Ok(()) => {},
            Err(e) => {
                return Err(e);
            },
        }
        let config = LoggingConfig { log_file_path: log_file_path(self.log_path.as_str()) };
        assert(config_result_view(Ok(config)) == init_outcome(
            allowed,
            self.log_path@,
            Ok(true),
            Ok(exists),
            sym,
            nc,
        ));
        Ok(config)
    }

    /// Whether the current log exceeds the size limit (see `exceeds_size_limit`).
    ///
    /// The result is the verdict on some size answer of the filesystem, or
    /// its error (see `rotation_check_outcome`).
    pub fn should_rotate<F: Filesystem>(&self, fs: &F) -> (r: Result<bool>)
        ensures
            exists|size: std::result::Result<u64, ErrView>|
                rv(r) == #[trigger] rotation_check_outcome(size, self.max_log_size_mb),
            rotation_threshold(self.max_log_size_mb) == u64::MAX ==> !(r matches Ok(true)),
            F::follows_model() ==> rv(r) == rotation_check_outcome(
                file_size_model(fs.model(), log_file_spec(self.log_path@)),
                self.max_log_size_mb,
            ),
    {
        let log_file = log_file_path(self.log_path.as_str());
        let size = match fs.file_size(log_file.as_str()) {
            Ok(s) => s,
            Err(e) => {
                assert(rv(Err::<bool, NailsError>(e)) == rotation_check_outcome(
                    Err(e.deep_view()),
                    self.max_log_size_mb,
                ));
                return Err(e);
            },
        };
        let r = exceeds_size_limit(size, self.max_log_size_mb);
        assert(rv(Ok::<bool, NailsError>(r)) == rotation_check_outcome(
            Ok(size),
            self.max_log_size_mb,
        ));
        Ok(r)
    }

    /// Rotates the logs when the current one exceeds the size limit: the
    /// numbered logs shift up (see `rotation_plan`; a failed rename is
    /// skipped), the current log becomes `nails.log.1`, an empty current
    /// log is written (if that fails the rename is undone) and the
    /// retention policy is enforced.
    ///
    /// The outcome is the one that some answers of the filesystem give (see
    /// `rotation_outcome`): failures while shifting the numbered logs or
    /// enforcing retention do not make rotation fail.  In the model, a log
    /// within the size limit, or whose size cannot be read, is left as it
    /// is, and so is everything else; a rotation that is due fails only
    /// where moving or writing the current log is configured to fail, and
    /// otherwise leaves an empty current log (see `due_rotation_model`),
    /// with the old log as `nails.log.1` and each numbered log moved up one
    /// before retention runs; after a failure, retention does not run (see
    /// `rotation_effects`).
    pub fn rotate_logs<F: Filesystem>(&self, fs: &mut F) -> (r: Result<()>)
        ensures
            exists|
                size: std::result::Result<u64, ErrView>,
                moved: std::result::Result<(), ErrView>,
                written: std::result::Result<(), ErrView>,
            | rv(r) == #[trigger] rotation_outcome(size, self.max_log_size_mb, moved, written),
            F::follows_model() && !(rotation_check_outcome(
                file_size_model(old(fs).model(), log_file_spec(self.log_path@)),
                self.max_log_size_mb,
            ) matches Ok(true)) ==> final(fs).model() == old(fs).model() && rv(r) == (
            match rotation_check_outcome(
                file_size_model(old(fs).model(), log_file_spec(self.log_path@)),
                self.max_log_size_mb,
            ) {
                Err(e) => Err::<(), ErrView>(e),
                _ => Ok(()),
            }),
            F::follows_model() && rotation_check_outcome(
                file_size_model(old(fs).model(), log_file_spec(self.log_path@)),
                self.max_log_size_mb,
            ) == Ok::<bool, ErrView>(true) ==> due_rotation_model(
                old(fs).model(),
                final(fs).model(),
                self.log_path@,
                rv(r),
            ),
            F::follows_model() && rotation_check_outcome(
                file_size_model(old(fs).model(), log_file_spec(self.log_path@)),
                self.max_log_size_mb,
            ) == Ok::<bool, ErrView>(true) ==> rotation_effects(
                old(fs).model(),
                final(fs).model(),
                self.log_path@,
                self.retention_days,
                r is Ok,
            ),
            F::follows_model() && rotation_check_outcome(
                file_size_model(old(fs).model(), log_file_spec(self.log_path@)),
                self.max_log_size_mb,
            ) == Ok::<bool, ErrView>(true) && r is Err ==> final(fs).model()
                == failed_rotation_state(
                old(fs).model(),
                self.log_path@,
                self.retention_days as nat,
            ),
            F::follows_model() && rotation_check_outcome(
                file_size_model(old(fs).model(), log_file_spec(self.log_path@)),
                self.max_log_size_mb,
            ) == Ok::<bool, ErrView>(true) && r is Ok ==> retention_applied(
                rotated_state(old(fs).model(), self.log_path@, self.retention_days as nat),
                final(fs).model(),
                self.log_path@,
                self.retention_days,
            ),
    {
        let ghost ok: std::result::Result<(), ErrView> = Ok(());
        let ghost s0 = fs.model();
        let ghost k = pkey(log_file_spec(self.log_path@));
        match self.should_rotate(fs) {
            Ok(false) => {
                let ghost size = choose|size: std::result::Result<u64, ErrView>|
                    rv(Ok::<bool, NailsError>(false)) == #[trigger] rotation_check_outcome(
                        size,
                        self.max_log_size_mb,
                    );
                assert(rv(Ok::<(), NailsError>(())) == rotation_outcome(
                    size,
                    self.max_log_size_mb,
                    ok,
                    ok,
                ));
                return Ok(());
            },
            Err(e) => {
                let ghost size = choose|size: std::result::Result<u64, ErrView>|
                    rv(Err::<bool, NailsError>(e)) == #[trigger] rotation_check_outcome(
                        size,
                        self.max_log_size_mb,
                    );
                assert(rv(Err::<(), NailsError>(e)) == rotation_outcome(
                    size,
                    self.max_log_size_mb,
                    ok,
                    ok,
                ));
                return Err(e);
            },
            Ok(true) => {},
        }
        let ghost size = choose|size: std::result::Result<u64, ErrView>|
            rv(Ok::<bool, NailsError>(true)) == #[trigger] rotation_check_outcome(
                size,
                self.max_log_size_mb,
            );
        let log_file = log_file_path(self.log_path.as_str());
        let plan = rotation_plan(self.log_path.as_str(), self.retention_days);
        let ghost lp = self.log_path@;
        let ghost rd = self.retention_days as nat;
        let mut i: usize = 0;
        while i < plan.len()
            invariant
                i <= plan@.len(),
                lp == self.log_path@,
                rd == self.retention_days as nat,
                k == pkey(log_file_spec(lp)),
                plan@.len() == rotation_plan_spec(lp, rd).len(),
                forall|j: int|
                    0 <= j < plan@.len() ==> (plan@[j].0@, plan@[j].1@) == rotation_plan_spec(
                        lp,
                        rd,
                    )[j],
                F::follows_model() ==> fs.model().rename_should_fail == s0.rename_should_fail
                    && fs.model().write_should_fail == s0.write_should_fail && same_at(
                    s0,
                    fs.model(),
                    k,
                ),
                F::follows_model() ==> forall|n: nat|
                    rd - i <= n < rd && 1 <= n ==> #[trigger] shifted_up(s0, fs.model(), lp, n),
                F::follows_model() ==> forall|n: nat|
                    n + i < rd ==> #[trigger] same_at(
                        s0,
                        fs.model(),
                        pkey(numbered_log_spec(lp, n)),
                    ),
                F::follows_model() ==> fs.model() == (MockView {
                    paths: fs.model().paths,
                    file_contents: fs.model().file_contents,
                    ..s0
                }),
                F::follows_model() ==> forall|q: Seq<char>|
                    !numbered_key(lp, rd, q) ==> #[trigger] same_at(s0, fs.model(), q),
                F::follows_model() ==> (exists_at(fs.model().paths, pkey(numbered_log_spec(lp, 1)))
                    ==> exists_at(s0.paths, pkey(numbered_log_spec(lp, 1)))),
                F::follows_model() ==> fs.model() == shifted_state(s0, lp, rd, i as nat),
            decreases plan.len() - i,
        {
            let from = plan[i].0.as_str();
            let to = plan[i].1.as_str();
            let ghost cur = fs.model();
            let ghost src: nat = (rd - 1 - i) as nat;
            let ghost kf = pkey(numbered_log_spec(lp, src));
            let ghost kt = pkey(numbered_log_spec(lp, src + 1));
            proof {
                assert((plan@[i as int].0@, plan@[i as int].1@) == rotation_plan_spec(lp, rd)[i as int]);
                assert(from@ == numbered_log_spec(lp, src));
                assert(to@ == numbered_log_spec(lp, src + 1));
                lemma_numbered_log_is_rotated(lp, (rd - 1 - i) as nat);
                lemma_numbered_log_is_rotated(lp, (rd - i) as nat);
                lemma_numbered_keys_distinct(lp, src, src + 1);
            }
            let present = match fs.path_exists(from) {
                Ok(b) => b,
                Err(_) => false,
            };
            if present {
                let _ = fs.rename_file(from, to);
            }
            proof {
                if F::follows_model() {
                    let t = fs.model();
                    assert(t == shift_step(cur, lp, src));
                    assert(shifted_state(s0, lp, rd, (i + 1) as nat) == shift_step(
                        shifted_state(s0, lp, rd, i as nat),
                        lp,
                        src,
                    ));
                    assert forall|q: Seq<char>| q != kf && q != kt implies same_at(cur, t, q) by {}
                    assert forall|n: nat|
                        rd - (i + 1) <= n < rd && 1 <= n implies #[trigger] shifted_up(
                        s0,
                        t,
                        lp,
                        n,
                    ) by {
                        if n == src {
                            assert(same_at(s0, cur, kf));
                        } else {
                            lemma_numbered_keys_distinct(lp, n + 1, src);
                            lemma_numbered_keys_distinct(lp, n + 1, src + 1);
                            assert(shifted_up(s0, cur, lp, n));
                            assert(same_at(cur, t, pkey(numbered_log_spec(lp, n + 1))));
                        }
                    }
                    assert forall|n: nat| n + (i + 1) < rd implies #[trigger] same_at(
                        s0,
                        t,
                        pkey(numbered_log_spec(lp, n)),
                    ) by {
                        lemma_numbered_keys_distinct(lp, n, src);
                        lemma_numbered_keys_distinct(lp, n, src + 1);
                        assert(same_at(s0, cur, pkey(numbered_log_spec(lp, n))));
                        assert(same_at(cur, t, pkey(numbered_log_spec(lp, n))));
                    }
                    assert(same_at(cur, t, k));
                    assert(pkey(numbered_log_spec(lp, src)) == kf);
                    assert(pkey(numbered_log_spec(lp, src + 1)) == kt);
                    assert(numbered_key(lp, rd, kf));
                    assert(numbered_key(lp, rd, kt));
                    assert forall|q: Seq<char>| !numbered_key(lp, rd, q) implies #[trigger] same_at(
                        s0,
                        t,
                        q,
                    ) by {
                        assert(same_at(s0, cur, q));
                        assert(same_at(cur, t, q));
                    }
                    let k1 = pkey(numbered_log_spec(lp, 1));
                    if src != 1 {
                        lemma_numbered_keys_distinct(lp, src, 1);
                        lemma_numbered_keys_distinct(lp, src + 1, 1);
                        assert(same_at(cur, t, k1));
                    }
                }
            }
            i = i + 1;
        }
        let log_1 = numbered_log_path(self.log_path.as_str(), 1);
        let ghost m1 = fs.model();
        let ghost k1 = pkey(numbered_log_spec(lp, 1));
        proof {
            lemma_numbered_log_is_rotated(self.log_path@, 1);
            if F::follows_model() {
                assert forall|n: nat| 1 <= n < rd implies #[trigger] shifted_up(s0, m1, lp, n) by {
                    assert(rd - plan@.len() <= n);
                }
            }
        }
        match fs.rename_file(log_file.as_str(), log_1.as_str()) {
            Ok(()) => {},
            Err(e) => {
                proof {
                    if F::follows_model() {
                        assert(fs.model() == m1);
                        assert(exists_at(s0.paths, k));
                        assert(s0.rename_should_fail.contains(k));
                        assert(same_at(s0, fs.model(), k));
                    }
                }
                assert(rv(Err::<(), NailsError>(e)) == rotation_outcome(
                    size,
                    self.max_log_size_mb,
                    Err(e.deep_view()),
                    ok,
                ));
                return Err(e);
            },
        }
        let ghost m2 = fs.model();
        proof {
            if F::follows_model() {
                assert(exists_at(s0.paths, k));
                assert(!s0.rename_should_fail.contains(k));
                assert forall|n: nat| 1 <= n < rd implies #[trigger] shifted_up(s0, m2, lp, n) by {
                    lemma_numbered_keys_distinct(lp, n + 1, 1);
                    lemma_numbered_log_is_rotated(lp, n + 1);
                    assert(shifted_up(s0, m1, lp, n));
                }
            }
        }
        match fs.write_file_content(log_file.as_str(), "") {
            Ok(()) => {},
            Err(e) => {
                let _ = fs.rename_file(log_1.as_str(), log_file.as_str());
                proof {
                    if F::follows_model() {
                        let t = fs.model();
                        assert forall|n: nat| 1 <= n < rd implies #[trigger] shifted_up(s0, t, lp, n) by {
                            lemma_numbered_keys_distinct(lp, n + 1, 1);
                            lemma_numbered_log_is_rotated(lp, n + 1);
                            assert(shifted_up(s0, m2, lp, n));
                        }
                        assert(pkey(numbered_log_spec(lp, 1)) == k1);
                        assert(numbered_key(lp, rd, k1));
                        assert forall|q: Seq<char>|
                            !numbered_key(lp, rd, q) && q != k implies #[trigger] same_at(s0, t, q) by {
                            assert(same_at(s0, m1, q));
                            assert(same_at(m1, m2, q));
                            assert(same_at(m2, t, q));
                        }
                    }
                }
                assert(rv(Err::<(), NailsError>(e)) == rotation_outcome(
                    size,
                    self.max_log_size_mb,
                    ok,
                    Err(e.deep_view()),
                ));
                return Err(e);
            },
        }
        let ghost before_retention = fs.model();
        proof {
            reveal_strlit("");
            if F::follows_model() {
                assert forall|n: nat| 1 <= n < rd implies #[trigger] shifted_up(
                    s0,
                    before_retention,
                    lp,
                    n,
                ) by {
                    lemma_numbered_log_is_rotated(lp, n + 1);
                    assert(shifted_up(s0, m2, lp, n));
                }
                assert(same_at(s0, m1, k));
                assert(m2 == rename_file_model(m1, log_file_spec(lp), numbered_log_spec(lp, 1)).0);
                if s0.file_contents.contains_key(k) {
                    assert(m2.file_contents.contains_key(k1));
                    assert(m2.file_contents[k1] == s0.file_contents[k]);
                    assert(before_retention.file_contents[k1] == s0.file_contents[k]);
                }
                assert(exists_at(before_retention.paths, k));
                assert(before_retention.file_contents[k] == Seq::<char>::empty());
                assert(rotation_moves(s0, before_retention, lp, rd));
            }
        }
        let _retention = self.enforce_retention(fs);
        proof {
            law_retention_spares_current_log(before_retention, self.log_path@);
            if F::follows_model() {
                assert(same_at(before_retention, fs.model(), k));
                assert(before_retention.file_contents[k] == Seq::<char>::empty());
                if before_retention.directory_contents.contains_key(pkey(lp)) {
                    let now = choose|now: i64|
                        #[trigger] retention_done(
                            before_retention,
                            fs.model(),
                            before_retention.directory_contents[pkey(lp)],
                            self.retention_days,
                            now,
                            _retention is Ok,
                        );
                    assert(retention_done(
                        before_retention,
                        fs.model(),
                        before_retention.directory_contents[pkey(lp)],
                        self.retention_days,
                        now,
                        false,
                    ));
                }
                assert(retention_applied(before_retention, fs.model(), lp, self.retention_days));
            }
        }
        assert(rv(Ok::<(), NailsError>(())) == rotation_outcome(size, self.max_log_size_mb, ok, ok));
        Ok(())
    }

    /// Retention against the clock reading `now` (milliseconds since the
    /// Unix epoch): deletes the rotated logs (entries named `nails.log.*`)
    /// of the log directory whose modification time is past the retention
    /// period at `now`.  Every listed log is tried; when reading a
    /// modification time or deleting a log fails, the first such error is
    /// returned once all have been tried.
    ///
    /// In the model, for a listed directory: `retention_done` at `now`; an
    /// error is the configured removal failure of a listed rotated log; and
    /// where every listed rotated log has a configured time, it succeeds
    /// exactly when no due removal is configured to fail.
    pub fn enforce_retention_at<F: Filesystem>(&self, fs: &mut F, now: i64) -> (r: Result<()>)
        ensures
            F::follows_model() && !old(fs).model().directory_contents.contains_key(
                pkey(self.log_path@),
            ) ==> rv(r) == Err::<(), ErrView>(
                ErrView::Io(
                    IoErrorKind::NotFound,
                    "Mock: directory contents not configured for "@ + self.log_path@,
                ),
            ) && final(fs).model() == old(fs).model(),
            F::follows_model() && old(fs).model().directory_contents.contains_key(
                pkey(self.log_path@),
            ) ==> retention_done(
                old(fs).model(),
                final(fs).model(),
                old(fs).model().directory_contents[pkey(self.log_path@)],
                self.retention_days,
                now,
                r is Ok,
            ),
            F::follows_model() && old(fs).model().directory_contents.contains_key(
                pkey(self.log_path@),
            ) ==> (r matches Err(e) ==> retention_failure(
                old(fs).model(),
                old(fs).model().directory_contents[pkey(self.log_path@)],
                e.deep_view(),
            )),
            F::follows_model() && old(fs).model().directory_contents.contains_key(
                pkey(self.log_path@),
            ) && all_times_configured(
                old(fs).model(),
                old(fs).model().directory_contents[pkey(self.log_path@)],
            ) ==> (r is Ok <==> no_failed_removal(
                old(fs).model(),
                old(fs).model().directory_contents[pkey(self.log_path@)],
                self.retention_days,
                now,
            )),
            F::follows_model() ==> final(fs).model() == (MockView {
                paths: final(fs).model().paths,
                file_contents: final(fs).model().file_contents,
                ..old(fs).model()
            }),
            F::follows_model() ==> forall|k: Seq<char>|
                !retention_names(old(fs).model(), self.log_path@, k) ==> #[trigger] same_at(
                    old(fs).model(),
                    final(fs).model(),
                    k,
                ),
    {
        let ghost s0 = fs.model();
        let entries = match fs.list_directory(self.log_path.as_str()) {
            Ok(v) => v,
            Err(e) => return Err(e),
        };
        let ghost ev = entries.deep_view();
        let ghost days = self.retention_days;
        let mut failure: Option<NailsError> = None;
        let mut i: usize = 0;
        proof {
            assert forall|k: Seq<char>| #[trigger] retention_at(s0, s0, ev.take(0), days, now, k) by {
                if names_rotated(ev.take(0), k) {
                    let j = choose|j: int|
                        0 <= j < ev.take(0).len() && rotated_log_name(#[trigger] ev.take(0)[j])
                            && pkey(ev.take(0)[j]) == k;
                }
            }
        }
        while i < entries.len()
            invariant
                i <= entries@.len(),
                ev == entries.deep_view(),
                ev.len() == entries@.len(),
                days == self.retention_days,
                F::follows_model() ==> s0.directory_contents.contains_key(pkey(self.log_path@))
                    && ev == s0.directory_contents[pkey(self.log_path@)],
                F::follows_model() ==> fs.model() == (MockView {
                    paths: fs.model().paths,
                    file_contents: fs.model().file_contents,
                    ..s0
                }),
                F::follows_model() ==> forall|k: Seq<char>|
                    !retention_names(s0, self.log_path@, k) ==> #[trigger] same_at(
                        s0,
                        fs.model(),
                        k,
                    ),
                F::follows_model() ==> forall|k: Seq<char>|
                    #[trigger] retention_at(s0, fs.model(), ev.take(i as int), days, now, k),
                F::follows_model() ==> (failure matches Some(e) ==> retention_failure(
                    s0,
                    ev,
                    e.deep_view(),
                )),
                F::follows_model() && failure is Some ==> exists|j: int|
                    0 <= j < i && rotated_log_name(#[trigger] ev[j])
                        && s0.remove_should_fail.contains(pkey(ev[j])) && (!s0.modified_times.contains_key(
                        pkey(ev[j]),
                    ) || expired_key(s0, pkey(ev[j]), days, now)),
                F::follows_model() && failure is None ==> no_failed_removal(
                    s0,
                    ev.take(i as int),
                    days,
                    now,
                ),
            decreases entries.len() - i,
        {
            let entry = entries[i].as_str();
            let ghost cur = fs.model();
            let ghost ke = pkey(entry@);
            proof {
                assert(ev[i as int] == entry@);
                lemma_names_rotated_step(ev, i as int);
                assert(ev.take(i as int + 1).drop_last() =~= ev.take(i as int));
            }
            if is_rotated_log_name(entry) {
                match fs.modified_time(entry) {
                    Ok(m) => {
                        if log_retention_expired(now, m, self.retention_days) {
                            match fs.remove_file(entry) {
                                Ok(()) => {},
                                Err(e) => {
                                    proof {
                                        if F::follows_model() {
                                            assert(retention_failure(s0, ev, e.deep_view())) by {
                                                assert(0 <= i < ev.len() && rotated_log_name(ev[i as int])
                                                    && s0.remove_should_fail.contains(pkey(ev[i as int]))
                                                    && e.deep_view() == removal_failure(
                                                    "remove_file"@,
                                                    ev[i as int],
                                                ));
                                            }
                                        }
                                    }
                                    if failure.is_none() {
                                        failure = Some(e);
                                    }
                                },
                            }
                        }
                    },
                    Err(e) => {
                        if failure.is_none() {
                            failure = Some(e);
                        }
                    },
                }
            }
            proof {
                if F::follows_model() {
                    let t = fs.model();
                    assert forall|k: Seq<char>|
                        #[trigger] retention_at(s0, t, ev.take(i as int + 1), days, now, k) by {
                        assert(retention_at(s0, cur, ev.take(i as int), days, now, k));
                        if k != ke {
                            assert(same_at(cur, t, k));
                        }
                    }
                    assert forall|k: Seq<char>|
                        !retention_names(s0, self.log_path@, k) implies #[trigger] same_at(
                        s0,
                        t,
                        k,
                    ) by {
                        assert(retention_at(s0, t, ev.take(i as int + 1), days, now, k));
                        if names_rotated(ev.take(i as int + 1), k) {
                            let j = choose|j: int|
                                0 <= j < ev.take(i as int + 1).len() && rotated_log_name(
                                    #[trigger] ev.take(i as int + 1)[j],
                                ) && pkey(ev.take(i as int + 1)[j]) == k;
                            assert(ev.take(i as int + 1)[j] == ev[j]);
                        }
                    }
                    if failure is None {
                        assert forall|j: int|
                            0 <= j < ev.take(i as int + 1).len() && rotated_log_name(
                                #[trigger] ev.take(i as int + 1)[j],
                            ) && s0.remove_should_fail.contains(pkey(ev.take(i as int + 1)[j]))
                                implies !expired_key(s0, pkey(ev.take(i as int + 1)[j]), days, now) by {
                            if j < i {
                                assert(ev.take(i as int + 1)[j] == ev.take(i as int)[j]);
                            }
                        }
                    }
                }
            }
            i = i + 1;
        }
        proof {
            assert(ev.take(entries@.len() as int) =~= ev);
            if F::follows_model() {
                assert(retention_done(s0, fs.model(), ev, days, now, failure is None));
            }
        }
        match failure {
            Some(e) => Err(e),
            None => Ok(()),
        }
    }

    /// Deletes the rotated logs (entries named `nails.log.*`) of the log
    /// directory that are past the retention period, by modification time
    /// against one reading of the clock.  Every listed log is tried; when
    /// reading a modification time or deleting a log fails, the first such
    /// error is returned once all have been tried.
    ///
    /// It reads the clock once and runs `enforce_retention_at` with that
    /// reading.  In the model, with `now` the time that was read: each listed rotated log whose configured time is past the
    /// retention period at `now` is gone unless its removal is configured to
    /// fail, every other path stays as it was (see `retention_done`), and
    /// the error, if any, is the configured removal failure of a listed
    /// rotated log.
    pub fn enforce_retention<F: Filesystem>(&self, fs: &mut F) -> (r: Result<()>)
        ensures
            F::follows_model() && !old(fs).model().directory_contents.contains_key(
                pkey(self.log_path@),
            ) ==> rv(r) == Err::<(), ErrView>(
                ErrView::Io(
                    IoErrorKind::NotFound,
                    "Mock: directory contents not configured for "@ + self.log_path@,
                ),
            ) && final(fs).model() == old(fs).model(),
            F::follows_model() && old(fs).model().directory_contents.contains_key(
                pkey(self.log_path@),
            ) ==> exists|now: i64|
                #[trigger] retention_done(
                    old(fs).model(),
                    final(fs).model(),
                    old(fs).model().directory_contents[pkey(self.log_path@)],
                    self.retention_days,
                    now,
                    r is Ok,
                ),
            F::follows_model() && old(fs).model().directory_contents.contains_key(
                pkey(self.log_path@),
            ) ==> (r matches Err(e) ==> retention_failure(
                old(fs).model(),
                old(fs).model().directory_contents[pkey(self.log_path@)],
                e.deep_view(),
            )),
            F::follows_model() ==> final(fs).model() == (MockView {
                paths: final(fs).model().paths,
                file_contents: final(fs).model().file_contents,
                ..old(fs).model()
            }),
            F::follows_model() ==> forall|k: Seq<char>|
                !retention_names(old(fs).model(), self.log_path@, k) ==> #[trigger] same_at(
                    old(fs).model(),
                    final(fs).model(),
                    k,
                ),
    {
        let now = current_time_millis();
        self.enforce_retention_at(fs, now)
    }
}

proof fn lemma_suffix_cancel(p: Seq<char>, a: Seq<char>, b: Seq<char>)
    requires
        p + a == p + b,
    ensures
        a == b,
{
    assert(a =~= (p + a).skip(p.len() as int));
    assert(b =~= (p + b).skip(p.len() as int));
}

/// Different numbers name different rotated logs.
pub proof fn lemma_numbered_log_injective(log_path: Seq<char>, a: nat, b: nat)
    requires
        numbered_log_spec(log_path, a) == numbered_log_spec(log_path, b),
    ensures
        a == b,
{
    reveal_strlit("nails.log.");
    let ra = "nails.log."@ + decimal(a);
    let rb = "nails.log."@ + decimal(b);
    assert(ra[0] == 'n' && rb[0] == 'n');
    if log_path.len() > 0 && log_path.last() != '/' {
        assert(log_path + seq!['/'] + ra =~= (log_path + seq!['/']) + ra);
        assert(log_path + seq!['/'] + rb =~= (log_path + seq!['/']) + rb);
        lemma_suffix_cancel(log_path + seq!['/'], ra, rb);
    } else {
        lemma_suffix_cancel(log_path, ra, rb);
    }
    lemma_suffix_cancel("nails.log."@, decimal(a), decimal(b));
    lemma_decimal_injective(a, b);
}

/// Shifting the numbered logs never overwrites a log before it has moved:
/// no rename writes to a path that a later rename still reads.
pub proof fn law_rotation_never_overwrites(log_path: Seq<char>, retention_days: nat)
    ensures
        forall|j: int, k: int|
            0 <= j < k < rotation_plan_spec(log_path, retention_days).len() ==> (
            #[trigger] rotation_plan_spec(log_path, retention_days)[j]).1 != (
            #[trigger] rotation_plan_spec(log_path, retention_days)[k]).0,
{
    let plan = rotation_plan_spec(log_path, retention_days);
    assert forall|j: int, k: int| 0 <= j < k < plan.len() implies (#[trigger] plan[j]).1 != (
    #[trigger] plan[k]).0 by {
        if plan[j].1 == plan[k].0 {
            lemma_numbered_log_injective(
                log_path,
                (retention_days - j) as nat,
                (retention_days - 1 - k) as nat,
            );
        }
    }
}

proof fn lemma_clean_names_plain(cs: Seq<Comp>)
    requires
        forall|i: int| 0 <= i < cs.len() ==> (#[trigger] cs[i] matches Comp::Normal(x) ==> plain_name(x)),
    ensures
        forall|i: int| 0 <= i < clean_names(cs).len() ==> plain_name(#[trigger] clean_names(cs)[i]),
    decreases cs.len(),
{
    if cs.len() > 0 {
        let c1 = cs.drop_last();
        assert forall|i: int| 0 <= i < c1.len() implies (#[trigger] c1[i] matches Comp::Normal(
            x,
        ) ==> plain_name(x)) by {
            assert(c1[i] == cs[i]);
        }
        lemma_clean_names_plain(c1);
        let st = clean_names(c1);
        assert(cs[cs.len() - 1] == cs.last());
        assert forall|i: int| 0 <= i < clean_names(cs).len() implies plain_name(
            #[trigger] clean_names(cs)[i],
        ) by {
            if i < st.len() {
                match cs.last() {
                    Comp::Parent => {
                        assert(clean_names(cs)[i] == st[i]);
                    },
                    Comp::Normal(x) => {
                        assert(clean_names(cs)[i] == st.push(x)[i]);
                    },
                    _ => {},
                }
            }
        }
    }
}

proof fn lemma_clean_names_append(pre: Seq<Comp>, names: Seq<Seq<char>>)
    ensures
        clean_names(pre + plain_comps(names)) == clean_names(pre) + names,
    decreases names.len(),
{
    if names.len() == 0 {
        assert(pre + plain_comps(names) =~= pre);
        assert(clean_names(pre) + names =~= clean_names(pre));
    } else {
        let n1 = names.drop_last();
        lemma_clean_names_append(pre, n1);
        let all = pre + plain_comps(names);
        assert(all.drop_last() =~= pre + plain_comps(n1));
        assert(all.last() == Comp::Normal(names.last()));
        assert((clean_names(pre) + n1).push(names.last()) =~= clean_names(pre) + names);
    }
}

/// The components that a cleaned path has: a root when the path is
/// absolute, then the kept names; so no `.` or `..` is left in it.
pub proof fn law_clean_path_resolves_traversal(p: Seq<char>)
    ensures
        components(clean_path_spec(p)) == (if has_root(p) {
            seq![Comp::Root]
        } else {
            Seq::<Comp>::empty()
        }) + plain_comps(clean_names(components(p))),
        has_root(clean_path_spec(p)) == has_root(p),
        forall|i: int|
            0 <= i < components(clean_path_spec(p)).len() ==> #[trigger] components(
                clean_path_spec(p),
            )[i] != Comp::Parent && components(clean_path_spec(p))[i] != Comp::Cur,
{
    let names = clean_names(components(p));
    crate::path::lemma_components_plain(p);
    lemma_clean_names_plain(components(p));
    crate::path::lemma_components_of_render_plain(has_root(p), names);
    if !has_root(p) {
        assert(Seq::<Comp>::empty() + plain_comps(names) =~= plain_comps(names));
    }
    let cs = components(clean_path_spec(p));
    let pre = if has_root(p) {
        seq![Comp::Root]
    } else {
        Seq::<Comp>::empty()
    };
    assert forall|i: int| 0 <= i < cs.len() implies #[trigger] cs[i] != Comp::Parent && cs[i]
        != Comp::Cur by {
        if i >= pre.len() {
            assert(cs[i] == plain_comps(names)[i - pre.len()]);
        }
    }
}

/// Cleaning a cleaned path changes nothing.
pub proof fn law_clean_path_idempotent(p: Seq<char>)
    ensures
        clean_path_spec(clean_path_spec(p)) == clean_path_spec(p),
{
    let names = clean_names(components(p));
    let pre = if has_root(p) {
        seq![Comp::Root]
    } else {
        Seq::<Comp>::empty()
    };
    law_clean_path_resolves_traversal(p);
    lemma_clean_names_append(pre, names);
    assert(clean_names(pre) =~= Seq::<Seq<char>>::empty()) by {
        if has_root(p) {
            assert(pre.drop_last() =~= Seq::<Comp>::empty());
        }
    }
    assert(clean_names(pre) + names =~= names);
}

} // verus!
