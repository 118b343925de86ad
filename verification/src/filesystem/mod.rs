//! Filesystem abstraction.
//!
//! `Filesystem` is the interface through which NAILS reaches the machine:
//! mounts, swap, paths, files, NixOS profiles.  The application crate
//! implements it with system calls; `MockFilesystem` implements it with
//! in-memory state and is verified here.  Paths are passed as text.
use crate::error::{concat, rv, ErrView, IoErrorKind, NailsError, Result};
use crate::filesystem::mock::{
    bind_mount_model, copy_tree_model, create_directory_model, create_symlink_model, empty_mock,
    exists_at, file_size_model, find_files_model, get_permissions_model, info_at,
    mount_overlay_model, mount_time, probe_model, read_file_model, secure_delete_model, mount_tmpfs_model, pkey, removal_failure, remove_dir_model,
    remove_file_model, rename_file_model, set_permissions_model, switch_profile_model,
    unmount_bind_model, unmount_model, unmount_tmpfs_model, writable_at, write_file_model, MockView,
};
use crate::path::{components, parent_of, path_eq, path_less, path_lt, path_parent, path_starts_with, starts_with};
use vstd::prelude::*;

pub mod mock;
pub mod submount;
pub mod laws;
pub mod tables;

pub use mock::{MockFilesystem, MockOp};

verus! {

/// Mount metadata of an overlay.
#[derive(Clone, Debug)]
pub struct MountInfo {
    /// Read-only base layer.
    pub lower: String,
    /// Writable upper layer.
    pub upper: String,
    /// Work directory of the overlay.
    pub work: String,
    /// Mount point.
    pub target: String,
    /// When the mount happened, in milliseconds since the Unix epoch.
    pub mounted_at: i64,
}

/// Model of `MountInfo`.
pub struct MountInfoView {
    pub lower: Seq<char>,
    pub upper: Seq<char>,
    pub work: Seq<char>,
    pub target: Seq<char>,
    pub mounted_at: i64,
}

impl DeepView for MountInfo {
    type V = MountInfoView;

    open spec fn deep_view(&self) -> MountInfoView {
        MountInfoView {
            lower: self.lower@,
            upper: self.upper@,
            work: self.work@,
            target: self.target@,
            mounted_at: self.mounted_at,
        }
    }
}

impl MountInfo {
    /// A copy of the metadata.
    pub fn duplicate(&self) -> (r: MountInfo)
        ensures
            r.deep_view() == self.deep_view(),
    {
        MountInfo {
            lower: self.lower.clone(),
            upper: self.upper.clone(),
            work: self.work.clone(),
            target: self.target.clone(),
            mounted_at: self.mounted_at,
        }
    }
}

/// Filesystem and NixOS operations used by NAILS.
///
/// Operations are idempotent where the operation allows it: `unmount` of a
/// path that is not mounted succeeds, `swap_disable` with swap already off
/// succeeds.
///
/// Each operation states what it does in the model of a filesystem that
/// `MockView` describes, for an implementation that follows the model
/// (`follows_model`).  `MockFilesystem` follows it, and proves so; an
/// implementation on a real machine follows no model here, and nothing is
/// promised of what it answers.
pub trait Filesystem: Sized {
    /// The state of this filesystem as `MockView` describes one; an
    /// implementation that does not follow the model has none.
    open spec fn model(&self) -> MockView {
        empty_mock()
    }

    /// Whether this filesystem behaves as the model of `MockFilesystem`
    /// says (each operation's `*_model` function); false unless an
    /// implementation says otherwise.
    open spec fn follows_model() -> bool {
        false
    }

    /// Mounts an overlay of `lower` (first element primary), `upper` and `work` at `target`.
    fn mount_overlay(&mut self, lower: &[&str], upper: &str, work: &str, target: &str) -> (r: Result<
        (),
    >)
        ensures
            Self::follows_model() ==> ((final(self).model(), rv(r)) == mount_overlay_model(
                old(self).model(),
                lower@.map_values(|x: &str| x@),
                upper@,
                work@,
                target@,
                mount_time(final(self).model(), target@),
            )),
    ;

    /// Unmounts `target` (idempotent); `force` overrides a busy mount point.
    fn unmount(&mut self, target: &str, force: bool) -> (r: Result<()>)
        ensures
            Self::follows_model() ==> ((final(self).model(), rv(r)) == unmount_model(old(self).model(), target@, force)),
    ;

    /// Whether `target` is a mount point.
    fn is_mounted(&self, target: &str) -> (r: Result<bool>)
        ensures
            Self::follows_model() ==> (rv(r) == Ok::<bool, ErrView>(self.model().mounted.contains(pkey(target@)))),
    ;

    /// The filesystem type at a mount point, `None` if it is not one.
    fn get_filesystem_type(&self, target: &str) -> (r: Result<Option<String>>)
        ensures
            Self::follows_model() ==> (rv(r) == Ok::<Option<Seq<char>>, ErrView>(
                if self.model().filesystem_types.contains_key(pkey(target@)) {
                    Some(self.model().filesystem_types[pkey(target@)])
                } else {
                    None
                },
            )),
    ;

    /// Whether `target` holds an overlay mount.
    fn is_overlay_mounted(&self, target: &str) -> (r: Result<bool>)
        ensures
            Self::follows_model() ==> (rv(r) == Ok::<bool, ErrView>(self.model().mounted_overlays.contains_key(pkey(target@)))),
    ;

    /// Mount metadata of an overlay mounted at `target`.
    fn get_mount_info(&self, target: &str) -> (r: Option<MountInfo>)
        ensures
            Self::follows_model() ==> (r.deep_view() == (if self.model().mounted_overlays.contains_key(pkey(target@)) {
                Some(self.model().mounted_overlays[pkey(target@)])
            } else {
                None
            })),
    ;

    /// Whether swap is enabled.
    fn swap_is_enabled(&self) -> (r: Result<bool>)
        ensures
            Self::follows_model() ==> (rv(r) == Ok::<bool, ErrView>(self.model().swap_enabled)),
    ;

    /// Disables swap (idempotent).
    fn swap_disable(&mut self) -> (r: Result<()>)
        ensures
            Self::follows_model() ==> (final(self).model() == (MockView { swap_enabled: false, ..old(self).model() })),
            Self::follows_model() ==> (r is Ok),
    ;

    /// Bind-mounts `source` at `target`.
    fn bind_mount(&mut self, source: &str, target: &str) -> (r: Result<()>)
        ensures
            Self::follows_model() ==> ((final(self).model(), rv(r)) == bind_mount_model(old(self).model(), source@, target@)),
    ;

    /// Removes a bind mount (idempotent).
    fn unmount_bind(&mut self, target: &str) -> (r: Result<()>)
        ensures
            Self::follows_model() ==> ((final(self).model(), rv(r)) == unmount_bind_model(old(self).model(), target@)),
    ;

    /// Mounts a tmpfs of the given size at `target`.
    fn mount_tmpfs(&mut self, target: &str, size: &str) -> (r: Result<()>)
        ensures
            Self::follows_model() ==> ((final(self).model(), rv(r)) == mount_tmpfs_model(old(self).model(), target@, size@)),
    ;

    /// Unmounts a tmpfs (idempotent).
    fn unmount_tmpfs(&mut self, target: &str) -> (r: Result<()>)
        ensures
            Self::follows_model() ==> ((final(self).model(), rv(r)) == unmount_tmpfs_model(old(self).model(), target@)),
    ;

    /// Whether a path exists.
    fn path_exists(&self, path: &str) -> (r: Result<bool>)
        ensures
            Self::follows_model() ==> (rv(r) == Ok::<bool, ErrView>(exists_at(self.model().paths, pkey(path@)))),
    ;

    /// Whether a path is a directory.
    fn is_directory(&self, path: &str) -> (r: Result<bool>)
        ensures
            Self::follows_model() ==> (rv(r) == Ok::<bool, ErrView>(
                self.model().paths.contains_key(pkey(path@)) && self.model().paths[pkey(path@)].is_directory,
            )),
    ;

    /// Whether a path is a symbolic link.
    fn is_symlink(&self, path: &str) -> (r: Result<bool>)
        ensures
            Self::follows_model() ==> (rv(r) == Ok::<bool, ErrView>(
                self.model().paths.contains_key(pkey(path@)) && self.model().paths[pkey(path@)].is_symlink,
            )),
    ;

    /// Creates a symbolic link at `link` pointing to `target` (idempotent).
    fn create_symlink(&mut self, target: &str, link: &str) -> (r: Result<()>)
        ensures
            Self::follows_model() ==> ((final(self).model(), rv(r)) == create_symlink_model(old(self).model(), target@, link@)),
    ;

    /// Free space in bytes of the filesystem holding `path`.
    fn get_free_space(&self, path: &str) -> (r: Result<u64>)
        ensures
            Self::follows_model() ==> (rv(r) == Ok::<u64, ErrView>(info_at(self.model().paths, pkey(path@)).free_space)),
    ;

    /// Creates a directory and its parents.
    fn create_directory(&mut self, path: &str) -> (r: Result<()>)
        ensures
            Self::follows_model() ==> ((final(self).model(), rv(r)) == create_directory_model(old(self).model(), path@)),
    ;

    /// Sets the Unix permission bits of a path.
    fn set_permissions(&mut self, path: &str, mode: u32) -> (r: Result<()>)
        ensures
            Self::follows_model() ==> ((final(self).model(), rv(r)) == set_permissions_model(old(self).model(), path@, mode)),
    ;

    /// The Unix permission bits of a path (masked to 0o7777).
    fn get_permissions(&self, path: &str) -> (r: Result<u32>)
        ensures
            Self::follows_model() ==> (rv(r) == get_permissions_model(self.model(), path@)),
    ;

    /// Whether a path is readable.
    fn is_readable(&self, path: &str) -> (r: Result<bool>)
        ensures
            Self::follows_model() ==> (rv(r) == Ok::<bool, ErrView>(
                self.model().paths.contains_key(pkey(path@)) && self.model().paths[pkey(path@)].is_readable,
            )),
    ;

    /// Whether a path is writable.
    fn is_writable(&self, path: &str) -> (r: Result<bool>)
        ensures
            Self::follows_model() ==> (rv(r) == Ok::<bool, ErrView>(writable_at(self.model().paths, pkey(path@)))),
    ;

    /// Whether a NixOS profile exists.
    fn nixos_profile_exists(&self, profile: &str) -> (r: Result<bool>)
        ensures
            Self::follows_model() ==> (rv(r) == Ok::<bool, ErrView>(self.model().nixos_profiles.contains(profile@))),
    ;

    /// Builds a NixOS profile.
    fn nixos_build_profile(&mut self, profile: &str) -> (r: Result<()>)
        ensures
            Self::follows_model() ==> (final(self).model() == (MockView {
                nixos_profiles: old(self).model().nixos_profiles.insert(profile@),
                ..old(self).model()
            })),
            Self::follows_model() ==> (r is Ok),
    ;

    /// Switches to a NixOS profile.
    fn nixos_switch_profile(&mut self, profile: &str) -> (r: Result<()>)
        ensures
            Self::follows_model() ==> ((final(self).model(), rv(r)) == switch_profile_model(old(self).model(), profile@)),
    ;

    /// The current NixOS profile.
    fn nixos_get_current_profile(&self) -> (r: Result<String>)
        ensures
            Self::follows_model() ==> (rv(r) == (match self.model().current_profile {
                Some(p) => Ok::<Seq<char>, ErrView>(p),
                None => Err(ErrView::InvalidState("No NixOS profile is currently active"@)),
            })),
    ;

    /// Whether a NAILS-related process is running.
    fn nails_process_running(&self) -> (r: Result<bool>)
        ensures
            Self::follows_model() ==> (rv(r) == Ok::<bool, ErrView>(self.model().nails_process_running)),
    ;

    /// The text of a file.
    fn read_file_content(&self, path: &str) -> (r: Result<String>)
        ensures
            Self::follows_model() ==> rv(r) == read_file_model(self.model(), path@),
    ;

    /// Files under `dir` whose name contains `pattern` (recursive).
    fn find_files_with_pattern(&self, dir: &str, pattern: &str) -> (r: Result<Vec<String>>)
        ensures
            Self::follows_model() ==> (rv(r) == Ok::<Seq<Seq<char>>, ErrView>(find_files_model(self.model(), dir@, pattern@))),
    ;

    /// Writes a file (atomically: temporary file, then rename).
    fn write_file_content(&mut self, path: &str, content: &str) -> (r: Result<()>)
        ensures
            Self::follows_model() ==> ((final(self).model(), rv(r)) == write_file_model(old(self).model(), path@, content@)),
    ;

    /// Entries of a directory (not recursive).
    fn list_directory(&self, dir: &str) -> (r: Result<Vec<String>>)
        ensures
            Self::follows_model() ==> (rv(r) == (if self.model().directory_contents.contains_key(pkey(dir@)) {
                Ok::<Seq<Seq<char>>, ErrView>(self.model().directory_contents[pkey(dir@)])
            } else {
                Err(
                    ErrView::Io(
                        IoErrorKind::NotFound,
                        "Mock: directory contents not configured for "@ + dir@,
                    ),
                )
            })),
    ;

    /// Top-level real directories under `/`, sorted.
    fn enumerate_root_directories(&self) -> (r: Result<Vec<String>>)
        ensures
            Self::follows_model() ==> (r matches Ok(v) && v.deep_view().to_multiset() == self.model().root_directories.filter(
                |d: Seq<char>| root_dir_kept(self.model().root_symlinks, d),
            ).to_multiset() && sorted_by_path(v.deep_view())),
    ;

    /// Size of a file in bytes.
    fn file_size(&self, path: &str) -> (r: Result<u64>)
        ensures
            Self::follows_model() ==> (rv(r) == file_size_model(self.model(), path@)),
    ;

    /// Renames a file, replacing the destination.
    fn rename_file(&mut self, from: &str, to: &str) -> (r: Result<()>)
        ensures
            Self::follows_model() ==> ((final(self).model(), rv(r)) == rename_file_model(old(self).model(), from@, to@)),
    ;

    /// Removes a file.
    fn remove_file(&mut self, path: &str) -> (r: Result<()>)
        ensures
            Self::follows_model() ==> ((final(self).model(), rv(r)) == remove_file_model(old(self).model(), path@)),
    ;

    /// Removes an empty directory.
    fn remove_directory(&mut self, path: &str) -> (r: Result<()>)
        ensures
            Self::follows_model() ==> ((final(self).model(), rv(r)) == remove_dir_model(old(self).model(), path@, "remove_directory"@)),
    ;

    /// Removes a directory and its contents.
    fn remove_dir_all(&mut self, path: &str) -> (r: Result<()>)
        ensures
            Self::follows_model() ==> ((final(self).model(), rv(r)) == remove_dir_model(old(self).model(), path@, "remove_dir_all"@)),
    ;

    /// Overwrites a file (zeros, random, zeros) and removes it.
    fn secure_delete(&mut self, path: &str) -> (r: Result<()>)
        ensures
            Self::follows_model() ==> (final(self).model(), rv(r)) == secure_delete_model(
                old(self).model(),
                path@,
            ),
    ;

    /// Securely deletes a directory and its contents.
    fn secure_delete_dir_all(&mut self, path: &str) -> (r: Result<()>)
        ensures
            Self::follows_model() ==> ((final(self).model(), rv(r)) == (if old(self).model().remove_should_fail.contains(pkey(path@)) {
                (old(self).model(), Err(removal_failure("secure_delete_dir_all"@, path@)))
            } else {
                remove_dir_model(old(self).model(), path@, "remove_dir_all"@)
            })),
    ;

    /// Whether the filesystem of `dir` supports symbolic links.
    fn supports_symlinks(&self, dir: &str) -> (r: Result<bool>)
        ensures
            Self::follows_model() ==> (rv(r) == Ok::<bool, ErrView>(
                if self.model().symlink_support.contains_key(pkey(dir@)) {
                    self.model().symlink_support[pkey(dir@)]
                } else {
                    true
                },
            )),
    ;

    /// Modification time of a file, in milliseconds since the Unix epoch.
    fn modified_time(&self, path: &str) -> (r: Result<i64>)
        ensures
            Self::follows_model() ==> (r is Ok),
            Self::follows_model() ==> (self.model().modified_times.contains_key(pkey(path@)) ==> rv(r) == Ok::<i64, ErrView>(
                self.model().modified_times[pkey(path@)],
            )),
    ;

    /// Copies a directory tree, keeping attributes.
    fn copy_tree(&mut self, src: &str, dst: &str) -> (r: Result<()>)
        ensures
            Self::follows_model() ==> ((final(self).model(), rv(r)) == copy_tree_model(old(self).model(), src@, dst@)),
    ;

    /// Total size in bytes of a directory's contents.
    fn get_directory_size(&self, path: &str) -> (r: Result<u64>)
        ensures
            Self::follows_model() ==> (rv(r) == Ok::<u64, ErrView>(
                if self.model().directory_sizes.contains_key(pkey(path@)) {
                    self.model().directory_sizes[pkey(path@)]
                } else {
                    0
                },
            )),
    ;

    /// `(mount point, source)` pairs of bind mounts nested under `target`.
    fn find_submount_sources(&self, target: &str) -> (r: Result<Vec<(String, String)>>)
        ensures
            Self::follows_model() ==> rv(r) == Ok::<Seq<(Seq<char>, Seq<char>)>, ErrView>(
                if self.model().submount_sources.contains_key(pkey(target@)) {
                    self.model().submount_sources[pkey(target@)]
                } else {
                    Seq::empty()
                },
            ),
    ;
}

/// Which overlay directory a precondition concerns.
#[derive(Clone, Copy, Debug, PartialEq, Eq, Structural)]
pub enum DirRole {
    Upper,
    Work,
}

/// What the filesystem says about a directory that an overlay needs.
#[derive(Clone, Copy, Debug, PartialEq, Eq, Structural)]
pub enum DirProbe {
    /// The directory exists.
    Exists,
    /// It is missing and has no parent.
    MissingNoParent,
    /// It is missing and so is its parent.
    MissingParentAbsent,
    /// It is missing and its parent is not writable.
    MissingParentNotWritable,
    /// It is missing and can be created in its writable parent.
    Creatable,
}

pub open spec fn role_name(role: DirRole) -> Seq<char> {
    match role {
        DirRole::Upper => "Upper"@,
        DirRole::Work => "Work"@,
    }
}

/// The error that a probe of a required directory yields, if any.
pub open spec fn probe_error_spec(role: DirRole, path: Seq<char>, probe: DirProbe) -> Option<ErrView> {
    match probe {
        DirProbe::Exists => None,
        DirProbe::Creatable => None,
        DirProbe::MissingParentAbsent => Some(
            ErrView::Overlay(
                role_name(role) + " directory not found and parent doesn't exist: "@ + path,
            ),
        ),
        DirProbe::MissingParentNotWritable => Some(
            ErrView::PermissionDenied(
                role_name(role) + " directory not found and parent not writable: "@ + path,
            ),
        ),
        DirProbe::MissingNoParent => Some(
            ErrView::Overlay(role_name(role) + " directory not found: "@ + path),
        ),
    }
}

/// The outcome of the mount preconditions for the given answers.
pub open spec fn preconditions_verdict(
    lower: Seq<char>,
    lower_exists: bool,
    upper: Seq<char>,
    upper_probe: DirProbe,
    work: Seq<char>,
    work_probe: DirProbe,
    target: Seq<char>,
    target_overlay: bool,
) -> std::result::Result<(), ErrView> {
    if !lower_exists {
        Err(ErrView::Overlay("Lower directory not found: "@ + lower))
    } else if probe_error_spec(DirRole::Upper, upper, upper_probe) is Some {
        Err(probe_error_spec(DirRole::Upper, upper, upper_probe).unwrap())
    } else if probe_error_spec(DirRole::Work, work, work_probe) is Some {
        Err(probe_error_spec(DirRole::Work, work, work_probe).unwrap())
    } else if target_overlay {
        Err(ErrView::AlreadyMounted(target))
    } else {
        Ok(())
    }
}

/// The error for a missing lower directory.
pub fn lower_missing_error(lower: &str) -> (r: NailsError)
    ensures
        r.deep_view() == ErrView::Overlay("Lower directory not found: "@ + lower@),
{
    NailsError::OverlayError(concat("Lower directory not found: ", lower))
}

/// The error that a probe of a required directory yields, if any.
pub fn probe_error(role: DirRole, path: &str, probe: DirProbe) -> (r: Option<NailsError>)
    ensures
        r matches Some(e) ==> probe_error_spec(role, path@, probe) == Some(e.deep_view()),
        r is None ==> probe_error_spec(role, path@, probe) is None,
{
    let name = match role {
        DirRole::Upper => "Upper",
        DirRole::Work => "Work",
    };
    match probe {
        DirProbe::Exists => None,
        DirProbe::Creatable => None,
        DirProbe::MissingParentAbsent => {
            let mut m = concat(name, " directory not found and parent doesn't exist: ");
            m.append(path);
            Some(NailsError::OverlayError(m))
        },
        DirProbe::MissingParentNotWritable => {
            let mut m = concat(name, " directory not found and parent not writable: ");
            m.append(path);
            Some(NailsError::PermissionDenied(m))
        },
        DirProbe::MissingNoParent => {
            let mut m = concat(name, " directory not found: ");
            m.append(path);
            Some(NailsError::OverlayError(m))
        },
    }
}

/// The outcome of the mount preconditions for the given answers.
pub fn check_preconditions(
    lower: &str,
    lower_exists: bool,
    upper: &str,
    upper_probe: DirProbe,
    work: &str,
    work_probe: DirProbe,
    target: &str,
    target_overlay: bool,
) -> (r: Result<()>)
    ensures
        crate::error::rv(r) == preconditions_verdict(
            lower@,
            lower_exists,
            upper@,
            upper_probe,
            work@,
            work_probe,
            target@,
            target_overlay,
        ),
{
    if !lower_exists {
        return Err(lower_missing_error(lower));
    }
    if let Some(e) = probe_error(DirRole::Upper, upper, upper_probe) {
        return Err(e);
    }
    if let Some(e) = probe_error(DirRole::Work, work, work_probe) {
        return Err(e);
    }
    if target_overlay {
        return Err(NailsError::AlreadyMounted { path: String::from_str(target) });
    }
    Ok(())
}

impl DeepView for DirProbe {
    type V = DirProbe;

    open spec fn deep_view(&self) -> DirProbe {
        *self
    }
}

/// The probe that the filesystem's answers give: whether the directory
/// exists, then (for a missing one with a parent) whether the parent exists
/// and whether it is writable; an error answer ends the probe.
pub open spec fn probe_outcome(
    path: Seq<char>,
    exists: std::result::Result<bool, ErrView>,
    parent_exists: std::result::Result<bool, ErrView>,
    parent_writable: std::result::Result<bool, ErrView>,
) -> std::result::Result<DirProbe, ErrView> {
    match exists {
        Err(e) => Err(e),
        Ok(true) => Ok(DirProbe::Exists),
        Ok(false) => match parent_of(path) {
            None => Ok(DirProbe::MissingNoParent),
            Some(_) => match parent_exists {
                Err(e) => Err(e),
                Ok(false) => Ok(DirProbe::MissingParentAbsent),
                Ok(true) => match parent_writable {
                    Err(e) => Err(e),
                    Ok(false) => Ok(DirProbe::MissingParentNotWritable),
                    Ok(true) => Ok(DirProbe::Creatable),
                },
            },
        },
    }
}

/// Probes a directory that an overlay needs: whether it exists, and if not,
/// whether it could be created (its parent exists and is writable).
///
/// The result is the probe that some answers of the filesystem give (see
/// `probe_outcome`); which answers come back is up to the filesystem.
pub fn probe_directory<F: Filesystem>(fs: &F, path: &str) -> (r: Result<DirProbe>)
    ensures
        exists|
            a: std::result::Result<bool, ErrView>,
            b: std::result::Result<bool, ErrView>,
            c: std::result::Result<bool, ErrView>,
        | rv(r) == #[trigger] probe_outcome(path@, a, b, c),
        F::follows_model() ==> rv(r) == Ok::<DirProbe, ErrView>(probe_model(fs.model(), path@)),
{
    let ghost no: std::result::Result<bool, ErrView> = Ok(false);
    let exists = match fs.path_exists(path) {
        Ok(b) => b,
        Err(e) => {
            assert(rv(Err::<DirProbe, NailsError>(e)) == probe_outcome(
                path@,
                Err(e.deep_view()),
                no,
                no,
            ));
            return Err(e);
        },
    };
    if exists {
        assert(rv(Ok::<DirProbe, NailsError>(DirProbe::Exists)) == probe_outcome(
            path@,
            Ok(true),
            no,
            no,
        ));
        return Ok(DirProbe::Exists);
    }
    match path_parent(path) {
        None => {
            assert(rv(Ok::<DirProbe, NailsError>(DirProbe::MissingNoParent)) == probe_outcome(
                path@,
                Ok(false),
                no,
                no,
            ));
            Ok(DirProbe::MissingNoParent)
        },
        Some(parent) => {
            let pe = match fs.path_exists(parent.as_str()) {
                Ok(b) => b,
                Err(e) => {
                    assert(rv(Err::<DirProbe, NailsError>(e)) == probe_outcome(
                        path@,
                        Ok(false),
                        Err(e.deep_view()),
                        no,
                    ));
                    return Err(e);
                },
            };
            if !pe {
                assert(rv(Ok::<DirProbe, NailsError>(DirProbe::MissingParentAbsent))
                    == probe_outcome(path@, Ok(false), Ok(false), no));
                return Ok(DirProbe::MissingParentAbsent);
            }
            let pw = match fs.is_writable(parent.as_str()) {
                Ok(b) => b,
                Err(e) => {
                    assert(rv(Err::<DirProbe, NailsError>(e)) == probe_outcome(
                        path@,
                        Ok(false),
                        Ok(true),
                        Err(e.deep_view()),
                    ));
                    return Err(e);
                },
            };
            if !pw {
                assert(rv(Ok::<DirProbe, NailsError>(DirProbe::MissingParentNotWritable))
                    == probe_outcome(path@, Ok(false), Ok(true), Ok(false)));
                return Ok(DirProbe::MissingParentNotWritable);
            }
            assert(rv(Ok::<DirProbe, NailsError>(DirProbe::Creatable)) == probe_outcome(
                path@,
                Ok(false),
                Ok(true),
                Ok(true),
            ));
            Ok(DirProbe::Creatable)
        },
    }
}

/// The outcome of the mount preconditions for the filesystem's answers: the
/// lower directory's existence, the probes of the upper and work
/// directories and whether the target is an overlay, in that order; an
/// error answer ends the check.  With every answer given it is
/// `preconditions_verdict`.
pub open spec fn mount_check_outcome(
    lower: Seq<char>,
    upper: Seq<char>,
    work: Seq<char>,
    target: Seq<char>,
    lower_exists: std::result::Result<bool, ErrView>,
    upper_probe: std::result::Result<DirProbe, ErrView>,
    work_probe: std::result::Result<DirProbe, ErrView>,
    target_overlay: std::result::Result<bool, ErrView>,
) -> std::result::Result<(), ErrView> {
    match lower_exists {
        Err(e) => Err(e),
        Ok(false) => Err(ErrView::Overlay("Lower directory not found: "@ + lower)),
        Ok(true) => match upper_probe {
            Err(e) => Err(e),
            Ok(u) => if probe_error_spec(DirRole::Upper, upper, u) is Some {
                Err(probe_error_spec(DirRole::Upper, upper, u).unwrap())
            } else {
                match work_probe {
                    Err(e) => Err(e),
                    Ok(w) => if probe_error_spec(DirRole::Work, work, w) is Some {
                        Err(probe_error_spec(DirRole::Work, work, w).unwrap())
                    } else {
                        match target_overlay {
                            Err(e) => Err(e),
                            Ok(true) => Err(ErrView::AlreadyMounted(target)),
                            Ok(false) => Ok(()),
                        }
                    },
                }
            },
        },
    }
}

/// Checks everything an overlay mount needs before it is attempted: the
/// lower directory exists, the upper and work directories exist or can be
/// created in a writable parent, and the target is not already an overlay.
///
/// The outcome is the one that some answers of the filesystem give (see
/// `mount_check_outcome`); which answers come back is up to the filesystem.
pub fn verify_mount_preconditions<F: Filesystem>(
    fs: &F,
    lower: &str,
    upper: &str,
    work: &str,
    target: &str,
) -> (r: Result<()>)
    ensures
        exists|
            a: std::result::Result<bool, ErrView>,
            b: std::result::Result<DirProbe, ErrView>,
            c: std::result::Result<DirProbe, ErrView>,
            d: std::result::Result<bool, ErrView>,
        | rv(r) == #[trigger] mount_check_outcome(lower@, upper@, work@, target@, a, b, c, d),
        F::follows_model() ==> rv(r) == preconditions_verdict(
            lower@,
            exists_at(fs.model().paths, pkey(lower@)),
            upper@,
            probe_model(fs.model(), upper@),
            work@,
            probe_model(fs.model(), work@),
            target@,
            fs.model().mounted_overlays.contains_key(pkey(target@)),
        ),
{
    let ghost nb: std::result::Result<bool, ErrView> = Ok(false);
    let ghost np: std::result::Result<DirProbe, ErrView> = Ok(DirProbe::Exists);
    let lower_exists = match fs.path_exists(lower) {
        Ok(b) => b,
        Err(e) => {
            assert(rv(Err::<(), NailsError>(e)) == mount_check_outcome(
                lower@, upper@, work@, target@, Err(e.deep_view()), np, np, nb,
            ));
            return Err(e);
        },
    };
    if !lower_exists {
        let e = lower_missing_error(lower);
        assert(rv(Err::<(), NailsError>(e)) == mount_check_outcome(
            lower@, upper@, work@, target@, Ok(false), np, np, nb,
        ));
        return Err(e);
    }
    let upper_probe = match probe_directory(fs, upper) {
        Ok(p) => p,
        Err(e) => {
            assert(rv(Err::<(), NailsError>(e)) == mount_check_outcome(
                lower@, upper@, work@, target@, Ok(true), Err(e.deep_view()), np, nb,
            ));
            return Err(e);
        },
    };
    let ghost up: std::result::Result<DirProbe, ErrView> = Ok(upper_probe);
    if let Some(e) = probe_error(DirRole::Upper, upper, upper_probe) {
        assert(rv(Err::<(), NailsError>(e)) == mount_check_outcome(
            lower@, upper@, work@, target@, Ok(true), up, np, nb,
        ));
        return Err(e);
    }
    let work_probe = match probe_directory(fs, work) {
        Ok(p) => p,
        Err(e) => {
            assert(rv(Err::<(), NailsError>(e)) == mount_check_outcome(
                lower@, upper@, work@, target@, Ok(true), up, Err(e.deep_view()), nb,
            ));
            return Err(e);
        },
    };
    let ghost wp: std::result::Result<DirProbe, ErrView> = Ok(work_probe);
    if let Some(e) = probe_error(DirRole::Work, work, work_probe) {
        assert(rv(Err::<(), NailsError>(e)) == mount_check_outcome(
            lower@, upper@, work@, target@, Ok(true), up, wp, nb,
        ));
        return Err(e);
    }
    let overlay = match fs.is_overlay_mounted(target) {
        Ok(b) => b,
        Err(e) => {
            assert(rv(Err::<(), NailsError>(e)) == mount_check_outcome(
                lower@, upper@, work@, target@, Ok(true), up, wp, Err(e.deep_view()),
            ));
            return Err(e);
        },
    };
    if overlay {
        let e = NailsError::AlreadyMounted { path: String::from_str(target) };
        assert(rv(Err::<(), NailsError>(e)) == mount_check_outcome(
            lower@, upper@, work@, target@, Ok(true), up, wp, Ok(true),
        ));
        return Err(e);
    }
    assert(rv(Ok::<(), NailsError>(())) == mount_check_outcome(
        lower@, upper@, work@, target@, Ok(true), up, wp, Ok(false),
    ));
    Ok(())
}

/// Whether some text of `list` names the same path as `d`.
pub open spec fn names_path_in(list: Seq<Seq<char>>, d: Seq<char>) -> bool {
    exists|j: int| 0 <= j < list.len() && components(list[j]) == components(d)
}

/// Whether a directory under `/` takes part in overlay enumeration: it is not
/// one of the symbolic links and not under the NAILS runtime directory.
pub open spec fn root_dir_kept(symlinks: Seq<Seq<char>>, d: Seq<char>) -> bool {
    !names_path_in(symlinks, d) && !starts_with(d, "/run/nails"@)
}

/// A list in `Path` order.
pub open spec fn sorted_by_path(s: Seq<Seq<char>>) -> bool {
    forall|i: int, j: int| 0 <= i < j < s.len() ==> !path_lt(#[trigger] s[j], #[trigger] s[i])
}

proof fn lemma_filter_push_text(v: Seq<Seq<char>>, pred: spec_fn(Seq<char>) -> bool, e: Seq<char>)
    ensures
        pred(e) ==> v.push(e).filter(pred) == v.filter(pred).push(e),
        !pred(e) ==> v.push(e).filter(pred) == v.filter(pred),
{
    reveal(Seq::filter);
    assert(v.push(e).drop_last() =~= v);
}

/// Whether some text of `list` names the same path as `d`.
pub fn contains_path(list: &Vec<String>, d: &str) -> (r: bool)
    ensures
        r == names_path_in(list.deep_view(), d@),
{
    let mut i: usize = 0;
    while i < list.len()
        invariant
            i <= list@.len(),
            forall|j: int| 0 <= j < i ==> components(list.deep_view()[j]) != components(d@),
        decreases list@.len() - i,
    {
        if path_eq(list[i].as_str(), d) {
            assert(list.deep_view()[i as int] == list@[i as int]@);
            return true;
        }
        i = i + 1;
    }
    false
}

/// The directories under `/` that overlay enumeration uses: symbolic links
/// and the NAILS runtime directory left out, the rest in `Path` order.
pub fn select_root_directories(dirs: &Vec<String>, symlinks: &Vec<String>) -> (r: Vec<String>)
    ensures
        r.deep_view().to_multiset() == dirs.deep_view().filter(
            |d: Seq<char>| root_dir_kept(symlinks.deep_view(), d),
        ).to_multiset(),
        sorted_by_path(r.deep_view()),
{
    let ghost dv = dirs.deep_view();
    let ghost pred = |d: Seq<char>| root_dir_kept(symlinks.deep_view(), d);
    let mut kept: Vec<String> = Vec::new();
    let mut i: usize = 0;
    assert(dv.take(0).filter(pred) =~= Seq::<Seq<char>>::empty()) by {
        reveal(Seq::filter);
    }
    while i < dirs.len()
        invariant
            i <= dirs@.len(),
            dv == dirs.deep_view(),
            pred == (|d: Seq<char>| root_dir_kept(symlinks.deep_view(), d)),
            kept.deep_view() == dv.take(i as int).filter(pred),
        decreases dirs@.len() - i,
    {
        let d = &dirs[i];
        let linked = contains_path(symlinks, d.as_str());
        let runtime = path_starts_with(d.as_str(), "/run/nails");
        proof {
            lemma_filter_push_text(dv.take(i as int), pred, dv[i as int]);
            assert(dv.take(i as int).push(dv[i as int]) =~= dv.take(i as int + 1));
            assert(dv[i as int] == d@);
        }
        if !linked && !runtime {
            let ghost before = kept.deep_view();
            kept.push(d.clone());
            assert(kept.deep_view() =~= before.push(d@));
        }
        i = i + 1;
    }
    assert(dv.take(dirs@.len() as int) =~= dv);
    let ghost kv = kept.deep_view();
    let mut out: Vec<String> = Vec::new();
    let mut i: usize = 0;
    assert(kv.take(0) =~= Seq::<Seq<char>>::empty());
    assert(out.deep_view() =~= Seq::<Seq<char>>::empty());
    while i < kept.len()
        invariant
            i <= kept@.len(),
            kv == kept.deep_view(),
            out.deep_view().to_multiset() == kv.take(i as int).to_multiset(),
            sorted_by_path(out.deep_view()),
        decreases kept@.len() - i,
    {
        let x = &kept[i];
        let ghost ov = out.deep_view();
        let mut p: usize = 0;
        while p < out.len() && !path_less(x.as_str(), out[p].as_str())
            invariant
                p <= out@.len(),
                ov == out.deep_view(),
                forall|j: int| 0 <= j < p ==> !path_lt(x@, #[trigger] ov[j]),
            decreases out@.len() - p,
        {
            p = p + 1;
        }
        proof {
            assert(p < out@.len() ==> path_lt(x@, ov[p as int]));
        }
        out.insert(p, x.clone());
        proof {
            let nv = out.deep_view();
            assert(nv =~= ov.insert(p as int, x@));
            vstd::seq_lib::to_multiset_insert(ov, p as int, x@);
            vstd::seq_lib::to_multiset_build(kv.take(i as int), x@);
            assert(kv.take(i as int + 1) =~= kv.take(i as int).push(kv[i as int]));
            assert(kv[i as int] == x@);
            assert forall|a: int, b: int| 0 <= a < b < nv.len() implies !path_lt(
                #[trigger] nv[b],
                #[trigger] nv[a],
            ) by {
                if b < p {
                    assert(nv[a] == ov[a] && nv[b] == ov[b]);
                } else if b == p {
                    assert(nv[a] == ov[a]);
                } else if a == p {
                    assert(nv[b] == ov[b - 1]);
                    if path_lt(nv[b], x@) {
                        crate::path::lemma_path_lt_transitive(ov[b - 1], x@, ov[p as int]);
                        if b - 1 > p {
                            assert(!path_lt(ov[b - 1], ov[p as int]));
                        } else {
                            crate::path::lemma_comps_lt_irreflexive_path(ov[p as int]);
                        }
                    }
                } else if a < p {
                    assert(nv[a] == ov[a] && nv[b] == ov[b - 1]);
                } else {
                    assert(nv[a] == ov[a - 1] && nv[b] == ov[b - 1]);
                }
            }
        }
        i = i + 1;
    }
    assert(kv.take(kept@.len() as int) =~= kv);
    out
}

} // verus!
