//! In-memory filesystem for tests (no root privileges needed).
//!
//! Every path-keyed piece of state is keyed by the canonical text of the
//! path (`path::normal_form`), so two texts that name the same path reach
//! the same entry, as `PathBuf` keys do.  The operations change the state
//! exactly as their contracts state; the model of the state is `MockView`.
use crate::clock::current_time_millis;
use crate::error::{concat, rv, ErrView, IoError, IoErrorKind, NailsError, Result};
use crate::filesystem::{
    check_preconditions, preconditions_verdict, root_dir_kept, select_root_directories,
    sorted_by_path, DirProbe, Filesystem, MountInfo, MountInfoView,
};
use crate::keymap::{KeyMap, KeySet};
use crate::path::{
    comps_view, normal_form, normalize_path, parent_of, path_components, path_eq, path_parent,
    render, render_components, Comp, PathComponent, components, dup_component,
};
use vstd::prelude::*;

verus! {

/// Free space reported for a path that has no explicit value (1 TiB).
pub const DEFAULT_MOCK_FREE_SPACE_BYTES: u64 = 1099511627776;

/// Metadata of a path in the mock.
#[derive(Clone, Copy, Debug)]
pub struct PathInfo {
    pub exists: bool,
    pub is_directory: bool,
    pub is_symlink: bool,
    pub is_readable: bool,
    pub is_writable: bool,
    /// Free space, or the explicit file size set by `mock_set_file_size`.
    pub free_space: u64,
}

impl DeepView for PathInfo {
    type V = PathInfo;

    open spec fn deep_view(&self) -> PathInfo {
        *self
    }
}

/// Metadata of a path that has no entry yet.
pub open spec fn default_info() -> PathInfo {
    PathInfo {
        exists: false,
        is_directory: false,
        is_symlink: false,
        is_readable: true,
        is_writable: true,
        free_space: DEFAULT_MOCK_FREE_SPACE_BYTES,
    }
}

impl Default for PathInfo {
    /// Metadata of a path that has no entry yet.
    fn default() -> (r: PathInfo)
        ensures
            r == default_info(),
    {
        PathInfo {
            exists: false,
            is_directory: false,
            is_symlink: false,
            is_readable: true,
            is_writable: true,
            free_space: DEFAULT_MOCK_FREE_SPACE_BYTES,
        }
    }
}

/// Operations recorded for tests that check call order.
#[derive(Debug, Clone, PartialEq, Eq)]
pub enum MockOp {
    MountOverlay { target: String },
    WriteFile { path: String },
    CopyTree { src: String, dst: String },
    Unmount { target: String, force: bool },
    SecureDelete { path: String },
}

/// Model of `MockOp`.
pub enum MockOpView {
    MountOverlay(Seq<char>),
    WriteFile(Seq<char>),
    CopyTree(Seq<char>, Seq<char>),
    Unmount(Seq<char>, bool),
    SecureDelete(Seq<char>),
}

impl DeepView for MockOp {
    type V = MockOpView;

    open spec fn deep_view(&self) -> MockOpView {
        match self {
            MockOp::MountOverlay { target } => MockOpView::MountOverlay(target@),
            MockOp::WriteFile { path } => MockOpView::WriteFile(path@),
            MockOp::CopyTree { src, dst } => MockOpView::CopyTree(src@, dst@),
            MockOp::Unmount { target, force } => MockOpView::Unmount(target@, *force),
            MockOp::SecureDelete { path } => MockOpView::SecureDelete(path@),
        }
    }
}

/// The state of a `MockFilesystem`.  Path keys are canonical path texts.
pub struct MockView {
    pub mounted: Set<Seq<char>>,
    pub swap_enabled: bool,
    pub paths: Map<Seq<char>, PathInfo>,
    pub busy: Set<Seq<char>>,
    pub nixos_profiles: Set<Seq<char>>,
    pub current_profile: Option<Seq<char>>,
    pub mount_should_fail: Set<Seq<char>>,
    pub unmount_should_fail: Set<Seq<char>>,
    pub unmount_graceful_fails: Set<Seq<char>>,
    pub nails_process_running: bool,
    pub file_contents: Map<Seq<char>, Seq<char>>,
    /// Search results by directory key, then by pattern.
    pub files_with_pattern: Map<Seq<char>, Map<Seq<char>, Seq<Seq<char>>>>,
    pub mounted_overlays: Map<Seq<char>, MountInfoView>,
    pub tmpfs_mounts: Set<Seq<char>>,
    /// Bind mount sources by target key.
    pub bind_mounts: Map<Seq<char>, Seq<char>>,
    pub written_files: Map<Seq<char>, Seq<char>>,
    pub remove_should_fail: Set<Seq<char>>,
    pub directory_contents: Map<Seq<char>, Seq<Seq<char>>>,
    pub write_should_fail: Set<Seq<char>>,
    pub rename_should_fail: Set<Seq<char>>,
    pub permissions_should_fail: Set<Seq<char>>,
    pub explicit_file_sizes: Set<Seq<char>>,
    pub modified_times: Map<Seq<char>, i64>,
    pub permissions: Map<Seq<char>, u32>,
    pub root_directories: Seq<Seq<char>>,
    pub root_symlinks: Seq<Seq<char>>,
    pub symlink_targets: Map<Seq<char>, Seq<char>>,
    pub symlink_support: Map<Seq<char>, bool>,
    pub filesystem_types: Map<Seq<char>, Seq<char>>,
    pub op_log: Seq<MockOpView>,
    pub copy_tree_should_fail: Set<Seq<char>>,
    pub directory_sizes: Map<Seq<char>, u64>,
    pub submount_sources: Map<Seq<char>, Seq<(Seq<char>, Seq<char>)>>,
}

/// The key of a path.
pub open spec fn pkey(p: Seq<char>) -> Seq<char> {
    normal_form(p)
}

/// The metadata of a key, or the default metadata.
pub open spec fn info_at(m: Map<Seq<char>, PathInfo>, k: Seq<char>) -> PathInfo {
    if m.contains_key(k) {
        m[k]
    } else {
        default_info()
    }
}

/// Whether the mock says a key exists (absent keys do not).
pub open spec fn exists_at(m: Map<Seq<char>, PathInfo>, k: Seq<char>) -> bool {
    m.contains_key(k) && m[k].exists
}

/// Whether the mock says a key is writable (absent keys are not).
pub open spec fn writable_at(m: Map<Seq<char>, PathInfo>, k: Seq<char>) -> bool {
    m.contains_key(k) && m[k].is_writable
}

/// Mock filesystem with in-memory state.
///
/// A clone is an independent copy, and operations that change the state
/// take `&mut self`.
#[derive(Debug, Clone)]
pub struct MockFilesystem {
    mounted: KeySet,
    swap_enabled: bool,
    paths: KeyMap<PathInfo>,
    busy: KeySet,
    nixos_profiles: KeySet,
    current_profile: Option<String>,
    mount_should_fail: KeySet,
    unmount_should_fail: KeySet,
    unmount_graceful_fails: KeySet,
    nails_process_running: bool,
    file_contents: KeyMap<String>,
    files_with_pattern: KeyMap<KeyMap<Vec<String>>>,
    mounted_overlays: KeyMap<MountInfo>,
    tmpfs_mounts: KeySet,
    bind_mounts: KeyMap<String>,
    written_files: KeyMap<String>,
    remove_should_fail: KeySet,
    directory_contents: KeyMap<Vec<String>>,
    write_should_fail: KeySet,
    rename_should_fail: KeySet,
    permissions_should_fail: KeySet,
    explicit_file_sizes: KeySet,
    modified_times: KeyMap<i64>,
    permissions: KeyMap<u32>,
    root_directories: Vec<String>,
    root_symlinks: Vec<String>,
    symlink_targets: KeyMap<String>,
    symlink_support: KeyMap<bool>,
    filesystem_types: KeyMap<String>,
    op_log: Vec<MockOp>,
    copy_tree_should_fail: KeySet,
    directory_sizes: KeyMap<u64>,
    submount_sources: KeyMap<Vec<(String, String)>>,
}

impl View for MockFilesystem {
    type V = MockView;

    closed spec fn view(&self) -> MockView {
        MockView {
            mounted: self.mounted.view(),
            swap_enabled: self.swap_enabled,
            paths: self.paths.dview(),
            busy: self.busy.view(),
            nixos_profiles: self.nixos_profiles.view(),
            current_profile: match self.current_profile {
                Some(p) => Some(p@),
                None => None,
            },
            mount_should_fail: self.mount_should_fail.view(),
            unmount_should_fail: self.unmount_should_fail.view(),
            unmount_graceful_fails: self.unmount_graceful_fails.view(),
            nails_process_running: self.nails_process_running,
            file_contents: self.file_contents.dview(),
            files_with_pattern: self.files_with_pattern.dview(),
            mounted_overlays: self.mounted_overlays.dview(),
            tmpfs_mounts: self.tmpfs_mounts.view(),
            bind_mounts: self.bind_mounts.dview(),
            written_files: self.written_files.dview(),
            remove_should_fail: self.remove_should_fail.view(),
            directory_contents: self.directory_contents.dview(),
            write_should_fail: self.write_should_fail.view(),
            rename_should_fail: self.rename_should_fail.view(),
            permissions_should_fail: self.permissions_should_fail.view(),
            explicit_file_sizes: self.explicit_file_sizes.view(),
            modified_times: self.modified_times.dview(),
            permissions: self.permissions.dview(),
            root_directories: self.root_directories.deep_view(),
            root_symlinks: self.root_symlinks.deep_view(),
            symlink_targets: self.symlink_targets.dview(),
            symlink_support: self.symlink_support.dview(),
            filesystem_types: self.filesystem_types.dview(),
            op_log: self.op_log.deep_view(),
            copy_tree_should_fail: self.copy_tree_should_fail.view(),
            directory_sizes: self.directory_sizes.dview(),
            submount_sources: self.submount_sources.dview(),
        }
    }
}

/// The state of a new mock: everything empty, swap off, no process running.
pub open spec fn empty_mock() -> MockView {
    MockView {
        mounted: Set::empty(),
        swap_enabled: false,
        paths: Map::empty(),
        busy: Set::empty(),
        nixos_profiles: Set::empty(),
        current_profile: None,
        mount_should_fail: Set::empty(),
        unmount_should_fail: Set::empty(),
        unmount_graceful_fails: Set::empty(),
        nails_process_running: false,
        file_contents: Map::empty(),
        files_with_pattern: Map::empty(),
        mounted_overlays: Map::empty(),
        tmpfs_mounts: Set::empty(),
        bind_mounts: Map::empty(),
        written_files: Map::empty(),
        remove_should_fail: Set::empty(),
        directory_contents: Map::empty(),
        write_should_fail: Set::empty(),
        rename_should_fail: Set::empty(),
        permissions_should_fail: Set::empty(),
        explicit_file_sizes: Set::empty(),
        modified_times: Map::empty(),
        permissions: Map::empty(),
        root_directories: Seq::empty(),
        root_symlinks: Seq::empty(),
        symlink_targets: Map::empty(),
        symlink_support: Map::empty(),
        filesystem_types: Map::empty(),
        op_log: Seq::empty(),
        copy_tree_should_fail: Set::empty(),
        directory_sizes: Map::empty(),
        submount_sources: Map::empty(),
    }
}

/// Probe of a directory needed by an overlay, as the mock answers it.
pub open spec fn probe_model(s: MockView, p: Seq<char>) -> DirProbe {
    if exists_at(s.paths, pkey(p)) {
        DirProbe::Exists
    } else {
        match parent_of(p) {
            None => DirProbe::MissingNoParent,
            Some(par) => if !exists_at(s.paths, pkey(par)) {
                DirProbe::MissingParentAbsent
            } else if !writable_at(s.paths, pkey(par)) {
                DirProbe::MissingParentNotWritable
            } else {
                DirProbe::Creatable
            },
        }
    }
}

/// When the overlay at `target` was mounted, as the state records it.
pub open spec fn mount_time(s: MockView, target: Seq<char>) -> i64 {
    if s.mounted_overlays.contains_key(pkey(target)) {
        s.mounted_overlays[pkey(target)].mounted_at
    } else {
        0
    }
}

/// `mount_overlay`: a configured failure, then at least one lower layer,
/// then the mount preconditions; on success the target is mounted, its
/// metadata recorded (at time `now`) and the mount logged.
pub open spec fn mount_overlay_model(
    s: MockView,
    lower: Seq<Seq<char>>,
    upper: Seq<char>,
    work: Seq<char>,
    target: Seq<char>,
    now: i64,
) -> (MockView, std::result::Result<(), ErrView>) {
    let k = pkey(target);
    if s.mount_should_fail.contains(k) {
        (s, Err(ErrView::Overlay("Mock mount failure for testing: "@ + target)))
    } else if lower.len() == 0 {
        (s, Err(ErrView::Overlay("mount_overlay requires at least one lower layer"@)))
    } else {
        let v = preconditions_verdict(
            lower[0],
            exists_at(s.paths, pkey(lower[0])),
            upper,
            probe_model(s, upper),
            work,
            probe_model(s, work),
            target,
            s.mounted_overlays.contains_key(k),
        );
        if v is Err {
            (s, v)
        } else {
            (
                MockView {
                    mounted: s.mounted.insert(k),
                    mounted_overlays: s.mounted_overlays.insert(
                        k,
                        MountInfoView {
                            lower: lower[0],
                            upper: upper,
                            work: work,
                            target: target,
                            mounted_at: now,
                        },
                    ),
                    op_log: s.op_log.push(MockOpView::MountOverlay(target)),
                    ..s
                },
                Ok(()),
            )
        }
    }
}

/// `unmount`: the request is logged; configured failures first, then
/// idempotent on a path that is not mounted, then a busy check unless
/// forced; on success the mount and its overlay metadata are gone.
pub open spec fn unmount_model(s: MockView, target: Seq<char>, force: bool) -> (
    MockView,
    std::result::Result<(), ErrView>,
) {
    let k = pkey(target);
    let s = MockView { op_log: s.op_log.push(MockOpView::Unmount(target, force)), ..s };
    if s.unmount_should_fail.contains(k) {
        (s, Err(ErrView::Unmount(target, "Mock unmount failure for testing"@)))
    } else if s.unmount_graceful_fails.contains(k) && !force {
        (s, Err(ErrView::Unmount(target, "Mock graceful unmount failure (force would succeed)"@)))
    } else if !s.mounted.contains(k) {
        (s, Ok(()))
    } else if s.busy.contains(k) && !force {
        (s, Err(ErrView::MountBusy(target, "Use force=true to override or close open files"@)))
    } else {
        (
            MockView {
                mounted: s.mounted.remove(k),
                mounted_overlays: s.mounted_overlays.remove(k),
                ..s
            },
            Ok(()),
        )
    }
}

pub open spec fn is_size_digit(c: char) -> bool {
    '0' <= c <= '9'
}

pub open spec fn is_size_unit(c: char) -> bool {
    c == 'K' || c == 'M' || c == 'G' || c == 'k' || c == 'm' || c == 'g'
}

/// A tmpfs size: decimal digits with an optional unit letter K, M or G.
pub open spec fn valid_tmpfs_size(s: Seq<char>) -> bool {
    &&& s.len() > 0
    &&& forall|i: int| 0 <= i < s.len() - 1 ==> is_size_digit(#[trigger] s[i])
    &&& (is_size_digit(s.last()) || (s.len() > 1 && is_size_unit(s.last())))
}

/// Marks a key as an existing directory.
pub open spec fn mark_dir(s: MockView, k: Seq<char>) -> MockView {
    MockView {
        paths: s.paths.insert(
            k,
            PathInfo { exists: true, is_directory: true, ..info_at(s.paths, k) },
        ),
        ..s
    }
}

/// Marks a key writable if it has an entry.
pub open spec fn mark_writable(s: MockView, k: Seq<char>) -> MockView {
    if s.paths.contains_key(k) {
        MockView { paths: s.paths.insert(k, PathInfo { is_writable: true, ..s.paths[k] }), ..s }
    } else {
        s
    }
}

/// `create_directory` for the directory with components `cs` and key `k`:
/// a missing parent is created first (its own parent must be writable) and
/// then made writable; an existing parent must be writable.
pub open spec fn create_dir_model(s: MockView, cs: Seq<Comp>, k: Seq<char>) -> (
    MockView,
    std::result::Result<(), ErrView>,
)
    decreases cs.len(),
{
    if cs.len() > 0 && cs.last() != Comp::Root {
        let par = cs.drop_last();
        let pk = normal_form(render(par));
        if !exists_at(s.paths, pk) {
            if par.len() > 0 && par.last() != Comp::Root && !writable_at(
                s.paths,
                normal_form(render(par.drop_last())),
            ) {
                (
                    s,
                    Err(
                        ErrView::PermissionDenied(
                            "Parent directory not writable: "@ + render(par.drop_last()),
                        ),
                    ),
                )
            } else {
                let (s1, r1) = create_dir_model(s, par, pk);
                if r1 is Err {
                    (s1, r1)
                } else {
                    (mark_dir(mark_writable(s1, pk), k), Ok(()))
                }
            }
        } else if !writable_at(s.paths, pk) {
            (s, Err(ErrView::PermissionDenied("Parent directory not writable: "@ + render(par))))
        } else {
            (mark_dir(s, k), Ok(()))
        }
    } else {
        (mark_dir(s, k), Ok(()))
    }
}

/// `create_directory(p)`.
pub open spec fn create_directory_model(s: MockView, p: Seq<char>) -> (
    MockView,
    std::result::Result<(), ErrView>,
) {
    create_dir_model(s, components(p), pkey(p))
}

/// `mount_tmpfs`: the size must be valid, the target not already a tmpfs;
/// a missing target directory is created; then the target is mounted.
pub open spec fn mount_tmpfs_model(s: MockView, target: Seq<char>, size: Seq<char>) -> (
    MockView,
    std::result::Result<(), ErrView>,
) {
    let k = pkey(target);
    if !valid_tmpfs_size(size) {
        (s, Err(ErrView::Overlay("Invalid tmpfs size format: "@ + size)))
    } else if s.tmpfs_mounts.contains(k) {
        (s, Err(ErrView::AlreadyMounted(target)))
    } else {
        let (s1, r1) = if !exists_at(s.paths, k) {
            create_directory_model(s, target)
        } else {
            (s, Ok(()))
        };
        if r1 is Err {
            (s1, r1)
        } else {
            (
                MockView { tmpfs_mounts: s1.tmpfs_mounts.insert(k), mounted: s1.mounted.insert(k), ..s1 },
                Ok(()),
            )
        }
    }
}

/// `unmount_tmpfs`: idempotent when no tmpfs is mounted there.
pub open spec fn unmount_tmpfs_model(s: MockView, target: Seq<char>) -> (
    MockView,
    std::result::Result<(), ErrView>,
) {
    let k = pkey(target);
    if !s.tmpfs_mounts.contains(k) {
        (s, Ok(()))
    } else if s.unmount_should_fail.contains(k) {
        (s, Err(ErrView::Unmount(target, "Mock: unmount_tmpfs configured to fail"@)))
    } else {
        (MockView { tmpfs_mounts: s.tmpfs_mounts.remove(k), mounted: s.mounted.remove(k), ..s }, Ok(()))
    }
}

/// `bind_mount`.
pub open spec fn bind_mount_model(s: MockView, source: Seq<char>, target: Seq<char>) -> (
    MockView,
    std::result::Result<(), ErrView>,
) {
    let k = pkey(target);
    if s.mount_should_fail.contains(k) {
        (s, Err(ErrView::Overlay("Mock bind mount failure for testing: "@ + target)))
    } else if !exists_at(s.paths, pkey(source)) {
        (s, Err(ErrView::Overlay("Bind mount source not found: "@ + source)))
    } else if s.bind_mounts.contains_key(k) {
        (s, Err(ErrView::AlreadyMounted(target)))
    } else {
        (
            MockView { bind_mounts: s.bind_mounts.insert(k, source), mounted: s.mounted.insert(k), ..s },
            Ok(()),
        )
    }
}

/// `unmount_bind`: idempotent when nothing is bind-mounted there.
pub open spec fn unmount_bind_model(s: MockView, target: Seq<char>) -> (
    MockView,
    std::result::Result<(), ErrView>,
) {
    let k = pkey(target);
    if !s.bind_mounts.contains_key(k) {
        (s, Ok(()))
    } else if s.unmount_should_fail.contains(k) {
        (s, Err(ErrView::Unmount(target, "Mock: unmount_bind configured to fail"@)))
    } else {
        (MockView { bind_mounts: s.bind_mounts.remove(k), mounted: s.mounted.remove(k), ..s }, Ok(()))
    }
}

/// `create_symlink`: idempotent for a link that already points to `target`.
pub open spec fn create_symlink_model(s: MockView, target: Seq<char>, link: Seq<char>) -> (
    MockView,
    std::result::Result<(), ErrView>,
) {
    let k = pkey(link);
    if s.paths.contains_key(k) && s.paths[k].exists && s.paths[k].is_symlink {
        if s.symlink_targets.contains_key(k) && pkey(s.symlink_targets[k]) == pkey(target) {
            (s, Ok(()))
        } else {
            (
                s,
                Err(
                    ErrView::Io(
                        IoErrorKind::AlreadyExists,
                        "Symlink at "@ + link + " already exists pointing to a different target"@,
                    ),
                ),
            )
        }
    } else if s.paths.contains_key(k) && s.paths[k].exists {
        (
            s,
            Err(
                ErrView::Io(
                    IoErrorKind::AlreadyExists,
                    "Path already exists (not a symlink) at "@ + link,
                ),
            ),
        )
    } else {
        (
            MockView {
                paths: s.paths.insert(
                    k,
                    PathInfo { exists: true, is_symlink: true, ..info_at(s.paths, k) },
                ),
                symlink_targets: s.symlink_targets.insert(k, target),
                ..s
            },
            Ok(()),
        )
    }
}

/// `write_file_content`.
pub open spec fn write_file_model(s: MockView, path: Seq<char>, content: Seq<char>) -> (
    MockView,
    std::result::Result<(), ErrView>,
) {
    let k = pkey(path);
    if s.write_should_fail.contains(k) {
        (s, Err(ErrView::Io(IoErrorKind::PermissionDenied, "Mock write failure for "@ + path)))
    } else {
        (
            MockView {
                paths: s.paths.insert(k, PathInfo { exists: true, ..info_at(s.paths, k) }),
                written_files: s.written_files.insert(k, content),
                file_contents: s.file_contents.insert(k, content),
                op_log: s.op_log.push(MockOpView::WriteFile(path)),
                ..s
            },
            Ok(()),
        )
    }
}

/// `rename_file`: the metadata and content of `from` move to `to`.
pub open spec fn rename_file_model(s: MockView, from: Seq<char>, to: Seq<char>) -> (
    MockView,
    std::result::Result<(), ErrView>,
) {
    let kf = pkey(from);
    let kt = pkey(to);
    if s.rename_should_fail.contains(kf) {
        (
            s,
            Err(
                ErrView::Io(
                    IoErrorKind::PermissionDenied,
                    "Mock: rename_file configured to fail for "@ + from,
                ),
            ),
        )
    } else if !exists_at(s.paths, kf) {
        (s, Err(ErrView::Io(IoErrorKind::NotFound, "Source file not found: "@ + from)))
    } else {
        (
            MockView {
                paths: s.paths.remove(kf).insert(kt, PathInfo { exists: true, ..s.paths[kf] }),
                file_contents: if s.file_contents.contains_key(kf) {
                    s.file_contents.remove(kf).insert(kt, s.file_contents[kf])
                } else {
                    s.file_contents
                },
                ..s
            },
            Ok(()),
        )
    }
}

/// `read_file_content`: the configured content of a file.
pub open spec fn read_file_model(s: MockView, path: Seq<char>) -> std::result::Result<
    Seq<char>,
    ErrView,
> {
    if s.file_contents.contains_key(pkey(path)) {
        Ok(s.file_contents[pkey(path)])
    } else {
        Err(ErrView::Io(IoErrorKind::NotFound, "File not found in mock: "@ + path))
    }
}

/// `secure_delete`: the request is logged; a configured failure, else as
/// `remove_file`.
pub open spec fn secure_delete_model(s: MockView, path: Seq<char>) -> (
    MockView,
    std::result::Result<(), ErrView>,
) {
    let s = MockView { op_log: s.op_log.push(MockOpView::SecureDelete(path)), ..s };
    if s.remove_should_fail.contains(pkey(path)) {
        (s, Err(removal_failure("secure_delete"@, path)))
    } else {
        remove_file_model(s, path)
    }
}

/// Marks a key as no longer existing, if it has an entry.
pub open spec fn mark_absent(s: MockView, k: Seq<char>) -> MockView {
    if s.paths.contains_key(k) {
        MockView { paths: s.paths.insert(k, PathInfo { exists: false, ..s.paths[k] }), ..s }
    } else {
        s
    }
}

/// The error of a configured removal failure.
pub open spec fn removal_failure(op: Seq<char>, path: Seq<char>) -> ErrView {
    ErrView::Io(
        IoErrorKind::PermissionDenied,
        "Mock: "@ + op + " configured to fail for "@ + path,
    )
}

/// `remove_file`: the path no longer exists and its content is gone.
pub open spec fn remove_file_model(s: MockView, path: Seq<char>) -> (
    MockView,
    std::result::Result<(), ErrView>,
) {
    let k = pkey(path);
    if s.remove_should_fail.contains(k) {
        (s, Err(removal_failure("remove_file"@, path)))
    } else {
        (MockView { file_contents: s.file_contents.remove(k), ..mark_absent(s, k) }, Ok(()))
    }
}

/// `remove_directory` and `remove_dir_all` (named by `op`): the path no longer exists.
pub open spec fn remove_dir_model(s: MockView, path: Seq<char>, op: Seq<char>) -> (
    MockView,
    std::result::Result<(), ErrView>,
) {
    let k = pkey(path);
    if s.remove_should_fail.contains(k) {
        (s, Err(removal_failure(op, path)))
    } else {
        (mark_absent(s, k), Ok(()))
    }
}

/// `nixos_switch_profile`.
pub open spec fn switch_profile_model(s: MockView, profile: Seq<char>) -> (
    MockView,
    std::result::Result<(), ErrView>,
) {
    if !s.nixos_profiles.contains(profile) {
        (s, Err(ErrView::ProfileNotFound(profile)))
    } else {
        (MockView { current_profile: Some(profile), ..s }, Ok(()))
    }
}

/// `set_permissions`.
pub open spec fn set_permissions_model(s: MockView, path: Seq<char>, mode: u32) -> (
    MockView,
    std::result::Result<(), ErrView>,
) {
    let k = pkey(path);
    if !exists_at(s.paths, k) {
        (s, Err(ErrView::Io(IoErrorKind::NotFound, "Path does not exist: "@ + path)))
    } else {
        (MockView { permissions: s.permissions.insert(k, mode), ..s }, Ok(()))
    }
}

/// `get_permissions`: an error for a path recorded as absent, else the
/// permissions set, else 0o755.
pub open spec fn get_permissions_model(s: MockView, path: Seq<char>) -> std::result::Result<
    u32,
    ErrView,
> {
    let k = pkey(path);
    if s.paths.contains_key(k) && !s.paths[k].exists {
        Err(ErrView::Io(IoErrorKind::NotFound, "Path does not exist: "@ + path))
    } else if s.permissions.contains_key(k) {
        Ok(s.permissions[k])
    } else {
        Ok(0o755u32)
    }
}

/// `file_size`: an explicit size wins, then the UTF-8 length of the content, else 0.
pub open spec fn file_size_model(s: MockView, path: Seq<char>) -> std::result::Result<u64, ErrView> {
    let k = pkey(path);
    if !exists_at(s.paths, k) {
        Err(ErrView::Io(IoErrorKind::NotFound, "File not found: "@ + path))
    } else if s.explicit_file_sizes.contains(k) {
        Ok(s.paths[k].free_space)
    } else if s.file_contents.contains_key(k) {
        Ok((vstd::utf8::encode_utf8(s.file_contents[k]).len() as usize) as u64)
    } else {
        Ok(0)
    }
}

/// Whether a pattern-search result is kept: it exists, or the mock has no entry for it.
pub open spec fn search_hit_kept(s: MockView, f: Seq<char>) -> bool {
    !s.paths.contains_key(pkey(f)) || s.paths[pkey(f)].exists
}

/// `find_files_with_pattern`: the configured results that still exist.
pub open spec fn find_files_model(s: MockView, dir: Seq<char>, pattern: Seq<char>) -> Seq<Seq<char>> {
    let k = pkey(dir);
    let configured = if s.files_with_pattern.contains_key(k) && s.files_with_pattern[k].contains_key(
        pattern,
    ) {
        s.files_with_pattern[k][pattern]
    } else {
        Seq::<Seq<char>>::empty()
    };
    configured.filter(|f: Seq<char>| search_hit_kept(s, f))
}

/// `copy_tree`: the copy is logged, then fails if configured to.
pub open spec fn copy_tree_model(s: MockView, src: Seq<char>, dst: Seq<char>) -> (
    MockView,
    std::result::Result<(), ErrView>,
) {
    let s1 = MockView { op_log: s.op_log.push(MockOpView::CopyTree(src, dst)), ..s };
    if s.copy_tree_should_fail.contains(pkey(src)) {
        (s1, Err(ErrView::Io(IoErrorKind::Other, "Mock copy_tree failure for "@ + src)))
    } else {
        (s1, Ok(()))
    }
}

/// `reset`: every part of the state is emptied, as in a new mock.
pub open spec fn reset_model(s: MockView) -> MockView {
    empty_mock()
}

impl Default for MockFilesystem {
    /// A mock with empty state (as `new`).
    fn default() -> (r: MockFilesystem)
        ensures
            r@ == empty_mock(),
    {
        MockFilesystem::new()
    }
}

impl MockFilesystem {
    /// A mock with empty state.
    pub fn new() -> (r: Self)
        ensures
            r@ == empty_mock(),
    {
        let r = MockFilesystem {
            mounted: KeySet::new(),
            swap_enabled: false,
            paths: KeyMap::new(),
            busy: KeySet::new(),
            nixos_profiles: KeySet::new(),
            current_profile: None,
            mount_should_fail: KeySet::new(),
            unmount_should_fail: KeySet::new(),
            unmount_graceful_fails: KeySet::new(),
            nails_process_running: false,
            file_contents: KeyMap::new(),
            files_with_pattern: KeyMap::new(),
            mounted_overlays: KeyMap::new(),
            tmpfs_mounts: KeySet::new(),
            bind_mounts: KeyMap::new(),
            written_files: KeyMap::new(),
            remove_should_fail: KeySet::new(),
            directory_contents: KeyMap::new(),
            write_should_fail: KeySet::new(),
            rename_should_fail: KeySet::new(),
            permissions_should_fail: KeySet::new(),
            explicit_file_sizes: KeySet::new(),
            modified_times: KeyMap::new(),
            permissions: KeyMap::new(),
            root_directories: Vec::new(),
            root_symlinks: Vec::new(),
            symlink_targets: KeyMap::new(),
            symlink_support: KeyMap::new(),
            filesystem_types: KeyMap::new(),
            op_log: Vec::new(),
            copy_tree_should_fail: KeySet::new(),
            directory_sizes: KeyMap::new(),
            submount_sources: KeyMap::new(),
        };
        assert(r@.root_directories =~= Seq::<Seq<char>>::empty());
        assert(r@.root_symlinks =~= Seq::<Seq<char>>::empty());
        assert(r@.op_log =~= Seq::<MockOpView>::empty());
        r
    }

    /// Clears the test state (see `reset_model` for what stays).
    pub fn reset(&mut self)
        ensures
            final(self)@ == reset_model(old(self)@),
    {
        self.mounted.clear();
        self.swap_enabled = false;
        self.paths.clear();
        self.busy.clear();
        self.nixos_profiles.clear();
        self.current_profile = None;
        self.mount_should_fail.clear();
        self.unmount_should_fail.clear();
        self.mounted_overlays.clear();
        self.tmpfs_mounts.clear();
        self.bind_mounts.clear();
        self.written_files.clear();
        self.remove_should_fail.clear();
        self.directory_contents.clear();
        self.write_should_fail.clear();
        self.rename_should_fail.clear();
        self.explicit_file_sizes.clear();
        self.modified_times.clear();
        self.permissions.clear();
        self.symlink_targets.clear();
        self.symlink_support.clear();
        self.op_log = Vec::new();
        self.copy_tree_should_fail.clear();
        self.directory_sizes.clear();
        self.submount_sources.clear();
        self.unmount_graceful_fails.clear();
        self.nails_process_running = false;
        self.file_contents.clear();
        self.files_with_pattern.clear();
        self.root_directories = Vec::new();
        self.root_symlinks = Vec::new();
        self.filesystem_types.clear();
        self.permissions_should_fail.clear();
        assert(self@.op_log =~= Seq::<MockOpView>::empty());
        assert(self@.root_directories =~= Seq::<Seq<char>>::empty());
        assert(self@.root_symlinks =~= Seq::<Seq<char>>::empty());
        assert(self@ =~= empty_mock());
    }

    /// The metadata of a key, or the default metadata.
    fn info_of(&self, key: &str) -> (r: PathInfo)
        ensures
            r == info_at(self@.paths, key@),
    {
        match self.paths.get(key) {
            Some(i) => *i,
            None => PathInfo::default(),
        }
    }

    /// Sets whether a path is mounted; unmarking it also drops its overlay metadata.
    pub fn mock_set_mounted(&mut self, path: &str, mounted: bool)
        ensures
            final(self)@ == (MockView {
                mounted: if mounted {
                    old(self)@.mounted.insert(pkey(path@))
                } else {
                    old(self)@.mounted.remove(pkey(path@))
                },
                mounted_overlays: if mounted {
                    old(self)@.mounted_overlays
                } else {
                    old(self)@.mounted_overlays.remove(pkey(path@))
                },
                ..old(self)@
            }),
    {
        let key = normalize_path(path);
        if mounted {
            self.mounted.insert(key.as_str());
        } else {
            self.mounted.remove(key.as_str());
            self.mounted_overlays.remove(key.as_str());
        }
    }

    /// Sets whether a path holds an overlay mount.  Marking records metadata
    /// with lower `path`, upper `/mock-upper<path>`, work `/mock-work<path>`,
    /// target `path` and the current time.
    pub fn mock_set_overlay_mounted(&mut self, path: &str, mounted: bool)
        ensures
            mounted ==> final(self)@ == (MockView {
                mounted: old(self)@.mounted.insert(pkey(path@)),
                mounted_overlays: old(self)@.mounted_overlays.insert(
                    pkey(path@),
                    MountInfoView {
                        lower: path@,
                        upper: "/mock-upper"@ + path@,
                        work: "/mock-work"@ + path@,
                        target: path@,
                        mounted_at: final(self)@.mounted_overlays[pkey(path@)].mounted_at,
                    },
                ),
                ..old(self)@
            }),
            !mounted ==> final(self)@ == (MockView {
                mounted: old(self)@.mounted.remove(pkey(path@)),
                mounted_overlays: old(self)@.mounted_overlays.remove(pkey(path@)),
                ..old(self)@
            }),
    {
        self.mock_set_mounted(path, mounted);
        let key = normalize_path(path);
        if mounted {
            let now = current_time_millis();
            let info = MountInfo {
                lower: String::from_str(path),
                upper: concat("/mock-upper", path),
                work: concat("/mock-work", path),
                target: String::from_str(path),
                mounted_at: now,
            };
            self.mounted_overlays.insert(key.as_str(), info);
        } else {
            self.mounted_overlays.remove(key.as_str());
            assert(self@.mounted_overlays =~= old(self)@.mounted_overlays.remove(pkey(path@)));
        }
    }

    /// Sets whether a path is busy (has open files).
    pub fn mock_set_busy(&mut self, path: &str, busy: bool)
        ensures
            final(self)@ == (MockView {
                busy: if busy {
                    old(self)@.busy.insert(pkey(path@))
                } else {
                    old(self)@.busy.remove(pkey(path@))
                },
                ..old(self)@
            }),
    {
        let key = normalize_path(path);
        if busy {
            self.busy.insert(key.as_str());
        } else {
            self.busy.remove(key.as_str());
        }
    }

    /// Sets whether swap is enabled.
    pub fn mock_set_swap_enabled(&mut self, enabled: bool)
        ensures
            final(self)@ == (MockView { swap_enabled: enabled, ..old(self)@ }),
    {
        self.swap_enabled = enabled;
    }

    /// Sets whether a path exists.
    pub fn mock_set_path_exists(&mut self, path: &str, exists: bool)
        ensures
            final(self)@ == (MockView {
                paths: old(self)@.paths.insert(
                    pkey(path@),
                    PathInfo { exists: exists, ..info_at(old(self)@.paths, pkey(path@)) },
                ),
                ..old(self)@
            }),
    {
        let key = normalize_path(path);
        let mut info = self.info_of(key.as_str());
        info.exists = exists;
        self.paths.insert(key.as_str(), info);
    }

    /// Marks a path as existing, a directory exactly when `type_str` is `"directory"`.
    pub fn mock_set_path_type(&mut self, path: &str, type_str: &str)
        ensures
            final(self)@ == (MockView {
                paths: old(self)@.paths.insert(
                    pkey(path@),
                    PathInfo {
                        exists: true,
                        is_directory: type_str@ == "directory"@,
                        ..info_at(old(self)@.paths, pkey(path@))
                    },
                ),
                ..old(self)@
            }),
    {
        let key = normalize_path(path);
        let mut info = self.info_of(key.as_str());
        info.exists = true;
        let t = String::from_str(type_str);
        let d = String::from_str("directory");
        info.is_directory = t.eq(&d);
        self.paths.insert(key.as_str(), info);
    }

    /// Sets whether a path is writable.
    pub fn mock_set_writable(&mut self, path: &str, writable: bool)
        ensures
            final(self)@ == (MockView {
                paths: old(self)@.paths.insert(
                    pkey(path@),
                    PathInfo { is_writable: writable, ..info_at(old(self)@.paths, pkey(path@)) },
                ),
                ..old(self)@
            }),
    {
        let key = normalize_path(path);
        let mut info = self.info_of(key.as_str());
        info.is_writable = writable;
        self.paths.insert(key.as_str(), info);
    }

    /// Sets whether a path is readable.
    pub fn mock_set_readable(&mut self, path: &str, readable: bool)
        ensures
            final(self)@ == (MockView {
                paths: old(self)@.paths.insert(
                    pkey(path@),
                    PathInfo { is_readable: readable, ..info_at(old(self)@.paths, pkey(path@)) },
                ),
                ..old(self)@
            }),
    {
        let key = normalize_path(path);
        let mut info = self.info_of(key.as_str());
        info.is_readable = readable;
        self.paths.insert(key.as_str(), info);
    }

    /// Marks a path as existing and sets whether it is a symbolic link.
    pub fn mock_set_is_symlink(&mut self, path: &str, is_symlink: bool)
        ensures
            final(self)@ == (MockView {
                paths: old(self)@.paths.insert(
                    pkey(path@),
                    PathInfo {
                        exists: true,
                        is_symlink: is_symlink,
                        ..info_at(old(self)@.paths, pkey(path@))
                    },
                ),
                ..old(self)@
            }),
    {
        let key = normalize_path(path);
        let mut info = self.info_of(key.as_str());
        info.exists = true;
        info.is_symlink = is_symlink;
        self.paths.insert(key.as_str(), info);
    }

    /// Sets whether the filesystem of a directory supports symbolic links.
    pub fn mock_set_supports_symlinks(&mut self, path: &str, supports: bool)
        ensures
            final(self)@ == (MockView {
                symlink_support: old(self)@.symlink_support.insert(pkey(path@), supports),
                ..old(self)@
            }),
    {
        let key = normalize_path(path);
        self.symlink_support.insert(key.as_str(), supports);
    }

    /// Sets the filesystem type of a mount point.
    pub fn mock_set_filesystem_type(&mut self, path: &str, fstype: &str)
        ensures
            final(self)@ == (MockView {
                filesystem_types: old(self)@.filesystem_types.insert(pkey(path@), fstype@),
                ..old(self)@
            }),
    {
        let key = normalize_path(path);
        self.filesystem_types.insert(key.as_str(), String::from_str(fstype));
    }

    /// Makes `copy_tree` fail for a source path.
    pub fn mock_set_copy_tree_should_fail(&mut self, src: &str)
        ensures
            final(self)@ == (MockView {
                copy_tree_should_fail: old(self)@.copy_tree_should_fail.insert(pkey(src@)),
                ..old(self)@
            }),
    {
        let key = normalize_path(src);
        self.copy_tree_should_fail.insert(key.as_str());
    }

    /// Sets the size reported for a directory.
    pub fn mock_set_directory_size(&mut self, path: &str, size: u64)
        ensures
            final(self)@ == (MockView {
                directory_sizes: old(self)@.directory_sizes.insert(pkey(path@), size),
                ..old(self)@
            }),
    {
        let key = normalize_path(path);
        self.directory_sizes.insert(key.as_str(), size);
    }

    /// Sets the submount sources reported for a target directory.
    pub fn mock_set_submount_sources(&mut self, target: &str, sources: Vec<(String, String)>)
        ensures
            final(self)@ == (MockView {
                submount_sources: old(self)@.submount_sources.insert(
                    pkey(target@),
                    sources.deep_view(),
                ),
                ..old(self)@
            }),
    {
        let key = normalize_path(target);
        self.submount_sources.insert(key.as_str(), sources);
    }

    /// Sets the free space of a path.
    pub fn mock_set_free_space(&mut self, path: &str, bytes: u64)
        ensures
            final(self)@ == (MockView {
                paths: old(self)@.paths.insert(
                    pkey(path@),
                    PathInfo { free_space: bytes, ..info_at(old(self)@.paths, pkey(path@)) },
                ),
                ..old(self)@
            }),
    {
        let key = normalize_path(path);
        let mut info = self.info_of(key.as_str());
        info.free_space = bytes;
        self.paths.insert(key.as_str(), info);
    }

    /// Sets whether a NixOS profile exists.
    pub fn mock_set_nixos_profile_exists(&mut self, profile: &str, exists: bool)
        ensures
            final(self)@ == (MockView {
                nixos_profiles: if exists {
                    old(self)@.nixos_profiles.insert(profile@)
                } else {
                    old(self)@.nixos_profiles.remove(profile@)
                },
                ..old(self)@
            }),
    {
        if exists {
            self.nixos_profiles.insert(profile);
        } else {
            self.nixos_profiles.remove(profile);
        }
    }

    /// Sets whether mounting at a path fails.
    pub fn mock_set_mount_should_fail(&mut self, path: &str, should_fail: bool)
        ensures
            final(self)@ == (MockView {
                mount_should_fail: if should_fail {
                    old(self)@.mount_should_fail.insert(pkey(path@))
                } else {
                    old(self)@.mount_should_fail.remove(pkey(path@))
                },
                ..old(self)@
            }),
    {
        let key = normalize_path(path);
        if should_fail {
            self.mount_should_fail.insert(key.as_str());
        } else {
            self.mount_should_fail.remove(key.as_str());
        }
    }

    /// Sets whether unmounting a path fails (graceful or forced).
    pub fn mock_set_unmount_should_fail(&mut self, path: &str, should_fail: bool)
        ensures
            final(self)@ == (MockView {
                unmount_should_fail: if should_fail {
                    old(self)@.unmount_should_fail.insert(pkey(path@))
                } else {
                    old(self)@.unmount_should_fail.remove(pkey(path@))
                },
                ..old(self)@
            }),
    {
        let key = normalize_path(path);
        if should_fail {
            self.unmount_should_fail.insert(key.as_str());
        } else {
            self.unmount_should_fail.remove(key.as_str());
        }
    }

    /// Sets whether a graceful unmount of a path fails (a forced one then succeeds).
    pub fn mock_set_unmount_graceful_fails(&mut self, path: &str, should_fail: bool)
        ensures
            final(self)@ == (MockView {
                unmount_graceful_fails: if should_fail {
                    old(self)@.unmount_graceful_fails.insert(pkey(path@))
                } else {
                    old(self)@.unmount_graceful_fails.remove(pkey(path@))
                },
                ..old(self)@
            }),
    {
        let key = normalize_path(path);
        if should_fail {
            self.unmount_graceful_fails.insert(key.as_str());
        } else {
            self.unmount_graceful_fails.remove(key.as_str());
        }
    }

    /// Sets whether a NAILS process is running.
    pub fn mock_set_nails_process_running(&mut self, running: bool)
        ensures
            final(self)@ == (MockView { nails_process_running: running, ..old(self)@ }),
    {
        self.nails_process_running = running;
    }

    /// Sets the text returned when a file is read.
    pub fn mock_set_file_content(&mut self, path: &str, content: &str)
        ensures
            final(self)@ == (MockView {
                file_contents: old(self)@.file_contents.insert(pkey(path@), content@),
                ..old(self)@
            }),
    {
        let key = normalize_path(path);
        self.file_contents.insert(key.as_str(), String::from_str(content));
    }

    /// Marks a file as existing with an explicit size (which takes precedence
    /// over the length of its content in `file_size`).
    pub fn mock_set_file_size(&mut self, path: &str, size: u64)
        ensures
            final(self)@ == (MockView {
                paths: old(self)@.paths.insert(
                    pkey(path@),
                    PathInfo {
                        exists: true,
                        free_space: size,
                        ..info_at(old(self)@.paths, pkey(path@))
                    },
                ),
                explicit_file_sizes: old(self)@.explicit_file_sizes.insert(pkey(path@)),
                ..old(self)@
            }),
    {
        let key = normalize_path(path);
        let mut info = self.info_of(key.as_str());
        info.exists = true;
        info.free_space = size;
        self.paths.insert(key.as_str(), info);
        self.explicit_file_sizes.insert(key.as_str());
    }

    /// Sets whether renaming a file fails.
    pub fn mock_set_rename_should_fail(&mut self, path: &str, should_fail: bool)
        ensures
            final(self)@ == (MockView {
                rename_should_fail: if should_fail {
                    old(self)@.rename_should_fail.insert(pkey(path@))
                } else {
                    old(self)@.rename_should_fail.remove(pkey(path@))
                },
                ..old(self)@
            }),
    {
        let key = normalize_path(path);
        if should_fail {
            self.rename_should_fail.insert(key.as_str());
        } else {
            self.rename_should_fail.remove(key.as_str());
        }
    }

    /// Records whether setting permissions on a path should fail.
    pub fn mock_set_permissions_should_fail(&mut self, path: &str, should_fail: bool)
        ensures
            final(self)@ == (MockView {
                permissions_should_fail: if should_fail {
                    old(self)@.permissions_should_fail.insert(pkey(path@))
                } else {
                    old(self)@.permissions_should_fail.remove(pkey(path@))
                },
                ..old(self)@
            }),
    {
        let key = normalize_path(path);
        if should_fail {
            self.permissions_should_fail.insert(key.as_str());
        } else {
            self.permissions_should_fail.remove(key.as_str());
        }
    }

    /// Sets the modification time of a file (milliseconds since the Unix epoch).
    pub fn mock_set_modified_time(&mut self, path: &str, modified_time: i64)
        ensures
            final(self)@ == (MockView {
                modified_times: old(self)@.modified_times.insert(pkey(path@), modified_time),
                ..old(self)@
            }),
    {
        let key = normalize_path(path);
        self.modified_times.insert(key.as_str(), modified_time);
    }

    /// Sets whether writing a file fails.
    pub fn mock_set_write_should_fail(&mut self, path: &str, should_fail: bool)
        ensures
            final(self)@ == (MockView {
                write_should_fail: if should_fail {
                    old(self)@.write_should_fail.insert(pkey(path@))
                } else {
                    old(self)@.write_should_fail.remove(pkey(path@))
                },
                ..old(self)@
            }),
    {
        let key = normalize_path(path);
        if should_fail {
            self.write_should_fail.insert(key.as_str());
        } else {
            self.write_should_fail.remove(key.as_str());
        }
    }

    /// Sets whether removing a path fails.
    pub fn mock_set_remove_should_fail(&mut self, path: &str, should_fail: bool)
        ensures
            final(self)@ == (MockView {
                remove_should_fail: if should_fail {
                    old(self)@.remove_should_fail.insert(pkey(path@))
                } else {
                    old(self)@.remove_should_fail.remove(pkey(path@))
                },
                ..old(self)@
            }),
    {
        let key = normalize_path(path);
        if should_fail {
            self.remove_should_fail.insert(key.as_str());
        } else {
            self.remove_should_fail.remove(key.as_str());
        }
    }

    /// Sets the results of a pattern search in a directory.
    pub fn mock_set_files_with_pattern(&mut self, dir: &str, pattern: &str, files: &[&str])
        ensures
            final(self)@ == (MockView {
                files_with_pattern: old(self)@.files_with_pattern.insert(
                    pkey(dir@),
                    (if old(self)@.files_with_pattern.contains_key(pkey(dir@)) {
                        old(self)@.files_with_pattern[pkey(dir@)]
                    } else {
                        Map::empty()
                    }).insert(pattern@, files@.map_values(|f: &str| f@)),
                ),
                ..old(self)@
            }),
    {
        let key = normalize_path(dir);
        let ghost fv = files@.map_values(|f: &str| f@);
        let mut list: Vec<String> = Vec::new();
        let mut i: usize = 0;
        while i < files.len()
            invariant
                i <= files@.len(),
                list@.len() == i,
                fv == files@.map_values(|f: &str| f@),
                forall|j: int| 0 <= j < i ==> (#[trigger] list@[j])@ == fv[j],
            decreases files@.len() - i,
        {
            list.push(String::from_str(files[i]));
            i = i + 1;
        }
        assert(list.deep_view() =~= fv);
        let ghost old_fwp = self@.files_with_pattern;
        let mut inner = match self.files_with_pattern.remove(key.as_str()) {
            Some(m) => m,
            None => KeyMap::new(),
        };
        let ghost inner_old = inner.dview();
        assert(inner_old == (if old_fwp.contains_key(key@) {
            old_fwp[key@]
        } else {
            Map::<Seq<char>, Seq<Seq<char>>>::empty()
        }));
        inner.insert(pattern, list);
        self.files_with_pattern.insert(key.as_str(), inner);
        assert(self@.files_with_pattern =~= old_fwp.insert(key@, inner_old.insert(pattern@, fv)));
    }

    /// Makes a directory creatable: its parent exists, is a directory, and is
    /// writable exactly when `creatable`.  A path without parent is left alone.
    pub fn mock_set_directory_creatable(&mut self, path: &str, creatable: bool)
        ensures
            parent_of(path@) matches Some(par) ==> final(self)@ == (MockView {
                paths: old(self)@.paths.insert(
                    pkey(par),
                    PathInfo {
                        exists: true,
                        is_directory: true,
                        is_writable: creatable,
                        ..info_at(old(self)@.paths, pkey(par))
                    },
                ),
                ..old(self)@
            }),
            parent_of(path@) is None ==> final(self)@ == old(self)@,
    {
        match path_parent(path) {
            Some(parent) => {
                let key = normalize_path(parent.as_str());
                let mut info = self.info_of(key.as_str());
                info.exists = true;
                info.is_directory = true;
                info.is_writable = creatable;
                self.paths.insert(key.as_str(), info);
            },
            None => {},
        }
    }

    /// Sets the entries returned when a directory is listed.
    pub fn mock_set_directory_contents(&mut self, dir: &str, contents: Vec<String>)
        ensures
            final(self)@ == (MockView {
                directory_contents: old(self)@.directory_contents.insert(
                    pkey(dir@),
                    contents.deep_view(),
                ),
                ..old(self)@
            }),
    {
        let key = normalize_path(dir);
        self.directory_contents.insert(key.as_str(), contents);
    }

    /// Sets the real directories under `/` that enumeration starts from.
    pub fn mock_set_root_directories(&mut self, dirs: Vec<String>)
        ensures
            final(self)@ == (MockView { root_directories: dirs.deep_view(), ..old(self)@ }),
    {
        self.root_directories = dirs;
    }

    /// Sets the symbolic links under `/` that enumeration leaves out.
    pub fn mock_set_root_symlinks(&mut self, symlinks: Vec<String>)
        ensures
            final(self)@ == (MockView { root_symlinks: symlinks.deep_view(), ..old(self)@ }),
    {
        self.root_symlinks = symlinks;
    }
}

/// The first `m` components.
fn prefix_components(cs: &Vec<PathComponent>, m: usize) -> (r: Vec<PathComponent>)
    requires
        m <= cs@.len(),
    ensures
        comps_view(r@) == comps_view(cs@).take(m as int),
        r@.len() == m,
{
    let mut r: Vec<PathComponent> = Vec::new();
    let mut i: usize = 0;
    while i < m
        invariant
            i <= m <= cs@.len(),
            r@.len() == i,
            forall|j: int| 0 <= j < i ==> (#[trigger] r@[j])@ == cs@[j]@,
        decreases m - i,
    {
        r.push(dup_component(&cs[i]));
        i = i + 1;
    }
    assert(comps_view(r@) =~= comps_view(cs@).take(m as int));
    r
}

fn is_root_component(c: &PathComponent) -> (r: bool)
    ensures
        r == (c@ == Comp::Root),
{
    match c {
        PathComponent::RootDir => true,
        _ => false,
    }
}

/// Whether a tmpfs size is valid (see `valid_tmpfs_size`).
pub fn is_valid_tmpfs_size(size: &str) -> (r: bool)
    ensures
        r == valid_tmpfs_size(size@),
{
    let cs = crate::path::chars_of(size);
    let n = cs.len();
    if n == 0 {
        return false;
    }
    let mut i: usize = 0;
    while i < n - 1
        invariant
            n == cs@.len(),
            cs@ == size@,
            n > 0,
            i <= n - 1,
            forall|j: int| 0 <= j < i ==> is_size_digit(#[trigger] size@[j]),
        decreases n - 1 - i,
    {
        let c = cs[i];
        if !('0' <= c && c <= '9') {
            return false;
        }
        i = i + 1;
    }
    let last = cs[n - 1];
    let unit = last == 'K' || last == 'M' || last == 'G' || last == 'k' || last == 'm' || last
        == 'g';
    ('0' <= last && last <= '9') || (n > 1 && unit)
}

impl MockFilesystem {
    fn exists_key(&self, key: &str) -> (r: bool)
        ensures
            r == exists_at(self@.paths, key@),
    {
        match self.paths.get(key) {
            Some(i) => i.exists,
            None => false,
        }
    }

    fn writable_key(&self, key: &str) -> (r: bool)
        ensures
            r == writable_at(self@.paths, key@),
    {
        match self.paths.get(key) {
            Some(i) => i.is_writable,
            None => false,
        }
    }

    /// Probe of a directory needed by an overlay.
    fn probe(&self, p: &str) -> (r: DirProbe)
        ensures
            r == probe_model(self@, p@),
    {
        let key = normalize_path(p);
        if self.exists_key(key.as_str()) {
            return DirProbe::Exists;
        }
        match path_parent(p) {
            None => DirProbe::MissingNoParent,
            Some(par) => {
                let pk = normalize_path(par.as_str());
                if !self.exists_key(pk.as_str()) {
                    DirProbe::MissingParentAbsent
                } else if !self.writable_key(pk.as_str()) {
                    DirProbe::MissingParentNotWritable
                } else {
                    DirProbe::Creatable
                }
            },
        }
    }

    /// Mounts an overlay (see `mount_overlay_model`).
    pub fn mount_overlay(&mut self, lower: &[&str], upper: &str, work: &str, target: &str) -> (r:
        Result<()>)
        ensures
            (final(self)@, rv(r)) == mount_overlay_model(
                old(self)@,
                lower@.map_values(|x: &str| x@),
                upper@,
                work@,
                target@,
                mount_time(final(self)@, target@),
            ),
    {
        let key = normalize_path(target);
        if self.mount_should_fail.contains(key.as_str()) {
            return Err(NailsError::OverlayError(concat("Mock mount failure for testing: ", target)));
        }
        if lower.len() == 0 {
            return Err(
                NailsError::OverlayError(
                    String::from_str("mount_overlay requires at least one lower layer"),
                ),
            );
        }
        let ghost lv = lower@.map_values(|x: &str| x@);
        assert(lv[0] == lower[0]@);
        let lower_key = normalize_path(lower[0]);
        let lower_exists = self.exists_key(lower_key.as_str());
        let up = self.probe(upper);
        let wp = self.probe(work);
        let overlay = self.mounted_overlays.contains_key(key.as_str());
        check_preconditions(lower[0], lower_exists, upper, up, work, wp, target, overlay)?;
        let now = current_time_millis();
        let info = MountInfo {
            lower: String::from_str(lower[0]),
            upper: String::from_str(upper),
            work: String::from_str(work),
            target: String::from_str(target),
            mounted_at: now,
        };
        self.mounted.insert(key.as_str());
        self.mounted_overlays.insert(key.as_str(), info);
        self.op_log.push(MockOp::MountOverlay { target: String::from_str(target) });
        assert(self@.op_log =~= old(self)@.op_log.push(MockOpView::MountOverlay(target@)));
        Ok(())
    }

    /// Unmounts (see `unmount_model`).
    pub fn unmount(&mut self, target: &str, force: bool) -> (r: Result<()>)
        ensures
            (final(self)@, rv(r)) == unmount_model(old(self)@, target@, force),
    {
        self.op_log.push(MockOp::Unmount { target: String::from_str(target), force });
        assert(self@.op_log =~= old(self)@.op_log.push(MockOpView::Unmount(target@, force)));
        let key = normalize_path(target);
        if self.unmount_should_fail.contains(key.as_str()) {
            return Err(
                NailsError::UnmountError {
                    path: String::from_str(target),
                    reason: String::from_str("Mock unmount failure for testing"),
                },
            );
        }
        if self.unmount_graceful_fails.contains(key.as_str()) && !force {
            return Err(
                NailsError::UnmountError {
                    path: String::from_str(target),
                    reason: String::from_str("Mock graceful unmount failure (force would succeed)"),
                },
            );
        }
        if !self.mounted.contains(key.as_str()) {
            return Ok(());
        }
        if self.busy.contains(key.as_str()) && !force {
            return Err(
                NailsError::MountBusy {
                    path: String::from_str(target),
                    suggestion: String::from_str("Use force=true to override or close open files"),
                },
            );
        }
        self.mounted.remove(key.as_str());
        self.mounted_overlays.remove(key.as_str());
        Ok(())
    }

    /// Whether a path is mounted.
    pub fn is_mounted(&self, target: &str) -> (r: Result<bool>)
        ensures
            rv(r) == Ok::<bool, ErrView>(self@.mounted.contains(pkey(target@))),
    {
        let key = normalize_path(target);
        Ok(self.mounted.contains(key.as_str()))
    }

    /// The filesystem type recorded for a mount point.
    pub fn get_filesystem_type(&self, target: &str) -> (r: Result<Option<String>>)
        ensures
            rv(r) == Ok::<Option<Seq<char>>, ErrView>(
                if self@.filesystem_types.contains_key(pkey(target@)) {
                    Some(self@.filesystem_types[pkey(target@)])
                } else {
                    None
                },
            ),
    {
        let key = normalize_path(target);
        match self.filesystem_types.get(key.as_str()) {
            Some(t) => Ok(Some(t.clone())),
            None => Ok(None),
        }
    }

    /// Whether a path holds an overlay mount.
    pub fn is_overlay_mounted(&self, target: &str) -> (r: Result<bool>)
        ensures
            rv(r) == Ok::<bool, ErrView>(self@.mounted_overlays.contains_key(pkey(target@))),
    {
        let key = normalize_path(target);
        Ok(self.mounted_overlays.contains_key(key.as_str()))
    }

    /// Metadata of the overlay at a path.
    pub fn get_mount_info(&self, target: &str) -> (r: Option<MountInfo>)
        ensures
            r.deep_view() == (if self@.mounted_overlays.contains_key(pkey(target@)) {
                Some(self@.mounted_overlays[pkey(target@)])
            } else {
                None
            }),
    {
        let key = normalize_path(target);
        match self.mounted_overlays.get(key.as_str()) {
            Some(i) => Some(i.duplicate()),
            None => None,
        }
    }

    /// Whether swap is enabled.
    pub fn swap_is_enabled(&self) -> (r: Result<bool>)
        ensures
            rv(r) == Ok::<bool, ErrView>(self@.swap_enabled),
    {
        Ok(self.swap_enabled)
    }

    /// Disables swap (idempotent).
    pub fn swap_disable(&mut self) -> (r: Result<()>)
        ensures
            final(self)@ == (MockView { swap_enabled: false, ..old(self)@ }),
            r is Ok,
    {
        self.swap_enabled = false;
        Ok(())
    }

    fn set_writable_if_present(&mut self, key: &str)
        ensures
            final(self)@ == mark_writable(old(self)@, key@),
    {
        match self.paths.get(key) {
            Some(i) => {
                let mut info = *i;
                info.is_writable = true;
                self.paths.insert(key, info);
            },
            None => {},
        }
    }

    fn mark_directory(&mut self, key: &str)
        ensures
            final(self)@ == mark_dir(old(self)@, key@),
    {
        let mut info = self.info_of(key);
        info.exists = true;
        info.is_directory = true;
        self.paths.insert(key, info);
    }

    fn create_dir_rec(&mut self, cs: &Vec<PathComponent>, key: &str) -> (r: Result<()>)
        ensures
            (final(self)@, rv(r)) == create_dir_model(old(self)@, comps_view(cs@), key@),
        decreases cs@.len(),
    {
        let n = cs.len();
        let ghost cv = comps_view(cs@);
        if n > 0 && !is_root_component(&cs[n - 1]) {
            assert(cv.last() == cs@[n - 1]@);
            let par = prefix_components(cs, n - 1);
            assert(comps_view(par@) =~= cv.drop_last());
            let par_text = render_components(&par);
            let pk = normalize_path(par_text.as_str());
            if !self.exists_key(pk.as_str()) {
                let pn = par.len();
                if pn > 0 && !is_root_component(&par[pn - 1]) {
                    assert(comps_view(par@).last() == par@[pn - 1]@);
                    let gp = prefix_components(&par, pn - 1);
                    assert(comps_view(gp@) =~= comps_view(par@).drop_last());
                    let gp_text = render_components(&gp);
                    let gpk = normalize_path(gp_text.as_str());
                    if !self.writable_key(gpk.as_str()) {
                        return Err(
                            NailsError::PermissionDenied(
                                concat("Parent directory not writable: ", gp_text.as_str()),
                            ),
                        );
                    }
                }
                self.create_dir_rec(&par, pk.as_str())?;
                self.set_writable_if_present(pk.as_str());
            } else if !self.writable_key(pk.as_str()) {
                return Err(
                    NailsError::PermissionDenied(
                        concat("Parent directory not writable: ", par_text.as_str()),
                    ),
                );
            }
        }
        self.mark_directory(key);
        Ok(())
    }

    /// Creates a directory (see `create_dir_model`).
    pub fn create_directory(&mut self, path: &str) -> (r: Result<()>)
        ensures
            (final(self)@, rv(r)) == create_directory_model(old(self)@, path@),
    {
        let cs = path_components(path);
        let key = normalize_path(path);
        self.create_dir_rec(&cs, key.as_str())
    }

    /// Mounts a tmpfs (see `mount_tmpfs_model`).
    pub fn mount_tmpfs(&mut self, target: &str, size: &str) -> (r: Result<()>)
        ensures
            (final(self)@, rv(r)) == mount_tmpfs_model(old(self)@, target@, size@),
    {
        if !is_valid_tmpfs_size(size) {
            return Err(NailsError::OverlayError(concat("Invalid tmpfs size format: ", size)));
        }
        let key = normalize_path(target);
        if self.tmpfs_mounts.contains(key.as_str()) {
            return Err(NailsError::AlreadyMounted { path: String::from_str(target) });
        }
        if !self.exists_key(key.as_str()) {
            self.create_directory(target)?;
        }
        self.tmpfs_mounts.insert(key.as_str());
        self.mounted.insert(key.as_str());
        Ok(())
    }

    /// Unmounts a tmpfs (see `unmount_tmpfs_model`).
    pub fn unmount_tmpfs(&mut self, target: &str) -> (r: Result<()>)
        ensures
            (final(self)@, rv(r)) == unmount_tmpfs_model(old(self)@, target@),
    {
        let key = normalize_path(target);
        if !self.tmpfs_mounts.contains(key.as_str()) {
            return Ok(());
        }
        if self.unmount_should_fail.contains(key.as_str()) {
            return Err(
                NailsError::UnmountError {
                    path: String::from_str(target),
                    reason: String::from_str("Mock: unmount_tmpfs configured to fail"),
                },
            );
        }
        self.tmpfs_mounts.remove(key.as_str());
        self.mounted.remove(key.as_str());
        Ok(())
    }

    /// Bind-mounts (see `bind_mount_model`).
    pub fn bind_mount(&mut self, source: &str, target: &str) -> (r: Result<()>)
        ensures
            (final(self)@, rv(r)) == bind_mount_model(old(self)@, source@, target@),
    {
        let key = normalize_path(target);
        if self.mount_should_fail.contains(key.as_str()) {
            return Err(
                NailsError::OverlayError(concat("Mock bind mount failure for testing: ", target)),
            );
        }
        let source_key = normalize_path(source);
        if !self.exists_key(source_key.as_str()) {
            return Err(NailsError::OverlayError(concat("Bind mount source not found: ", source)));
        }
        if self.bind_mounts.contains_key(key.as_str()) {
            return Err(NailsError::AlreadyMounted { path: String::from_str(target) });
        }
        self.bind_mounts.insert(key.as_str(), String::from_str(source));
        self.mounted.insert(key.as_str());
        Ok(())
    }

    /// Removes a bind mount (see `unmount_bind_model`).
    pub fn unmount_bind(&mut self, target: &str) -> (r: Result<()>)
        ensures
            (final(self)@, rv(r)) == unmount_bind_model(old(self)@, target@),
    {
        let key = normalize_path(target);
        if !self.bind_mounts.contains_key(key.as_str()) {
            return Ok(());
        }
        if self.unmount_should_fail.contains(key.as_str()) {
            return Err(
                NailsError::UnmountError {
                    path: String::from_str(target),
                    reason: String::from_str("Mock: unmount_bind configured to fail"),
                },
            );
        }
        self.bind_mounts.remove(key.as_str());
        self.mounted.remove(key.as_str());
        Ok(())
    }
}

proof fn lemma_filter_push(v: Seq<Seq<char>>, pred: spec_fn(Seq<char>) -> bool, e: Seq<char>)
    ensures
        pred(e) ==> v.push(e).filter(pred) == v.filter(pred).push(e),
        !pred(e) ==> v.push(e).filter(pred) == v.filter(pred),
{
    reveal(Seq::filter);
    assert(v.push(e).drop_last() =~= v);
}

/// A copy of an operation log entry.
fn dup_op(op: &MockOp) -> (r: MockOp)
    ensures
        r.deep_view() == op.deep_view(),
{
    match op {
        MockOp::MountOverlay { target } => MockOp::MountOverlay { target: target.clone() },
        MockOp::WriteFile { path } => MockOp::WriteFile { path: path.clone() },
        MockOp::CopyTree { src, dst } => MockOp::CopyTree { src: src.clone(), dst: dst.clone() },
        MockOp::Unmount { target, force } => MockOp::Unmount { target: target.clone(), force: *force },
        MockOp::SecureDelete { path } => MockOp::SecureDelete { path: path.clone() },
    }
}

impl MockFilesystem {
    /// Whether a path exists (absent entries do not).
    pub fn path_exists(&self, path: &str) -> (r: Result<bool>)
        ensures
            rv(r) == Ok::<bool, ErrView>(exists_at(self@.paths, pkey(path@))),
    {
        let key = normalize_path(path);
        Ok(self.exists_key(key.as_str()))
    }

    /// Whether a path is a directory (absent entries are not).
    pub fn is_directory(&self, path: &str) -> (r: Result<bool>)
        ensures
            rv(r) == Ok::<bool, ErrView>(
                self@.paths.contains_key(pkey(path@)) && self@.paths[pkey(path@)].is_directory,
            ),
    {
        let key = normalize_path(path);
        match self.paths.get(key.as_str()) {
            Some(i) => Ok(i.is_directory),
            None => Ok(false),
        }
    }

    /// Whether a path is a symbolic link (absent entries are not).
    pub fn is_symlink(&self, path: &str) -> (r: Result<bool>)
        ensures
            rv(r) == Ok::<bool, ErrView>(
                self@.paths.contains_key(pkey(path@)) && self@.paths[pkey(path@)].is_symlink,
            ),
    {
        let key = normalize_path(path);
        match self.paths.get(key.as_str()) {
            Some(i) => Ok(i.is_symlink),
            None => Ok(false),
        }
    }

    /// Whether a directory's filesystem supports symbolic links (default yes).
    pub fn supports_symlinks(&self, dir: &str) -> (r: Result<bool>)
        ensures
            rv(r) == Ok::<bool, ErrView>(
                if self@.symlink_support.contains_key(pkey(dir@)) {
                    self@.symlink_support[pkey(dir@)]
                } else {
                    true
                },
            ),
    {
        let key = normalize_path(dir);
        match self.symlink_support.get(key.as_str()) {
            Some(b) => Ok(*b),
            None => Ok(true),
        }
    }

    /// Creates a symbolic link (see `create_symlink_model`).
    pub fn create_symlink(&mut self, target: &str, link: &str) -> (r: Result<()>)
        ensures
            (final(self)@, rv(r)) == create_symlink_model(old(self)@, target@, link@),
    {
        let key = normalize_path(link);
        match self.paths.get(key.as_str()) {
            Some(info) => {
                if info.exists && info.is_symlink {
                    let same = match self.symlink_targets.get(key.as_str()) {
                        Some(t) => {
                            let a = normalize_path(t.as_str());
                            let b = normalize_path(target);
                            a.eq(&b)
                        },
                        None => false,
                    };
                    if same {
                        return Ok(());
                    }
                    let mut m = concat("Symlink at ", link);
                    m.append(" already exists pointing to a different target");
                    return Err(NailsError::IoError(IoError::new(IoErrorKind::AlreadyExists, m)));
                } else if info.exists {
                    let m = concat("Path already exists (not a symlink) at ", link);
                    return Err(NailsError::IoError(IoError::new(IoErrorKind::AlreadyExists, m)));
                }
            },
            None => {},
        }
        let mut info = self.info_of(key.as_str());
        info.exists = true;
        info.is_symlink = true;
        self.paths.insert(key.as_str(), info);
        self.symlink_targets.insert(key.as_str(), String::from_str(target));
        Ok(())
    }

    /// Free space of a path (default 1 TiB).
    pub fn get_free_space(&self, path: &str) -> (r: Result<u64>)
        ensures
            rv(r) == Ok::<u64, ErrView>(info_at(self@.paths, pkey(path@)).free_space),
    {
        let key = normalize_path(path);
        Ok(self.info_of(key.as_str()).free_space)
    }

    /// Sets permissions (see `set_permissions_model`).
    pub fn set_permissions(&mut self, path: &str, mode: u32) -> (r: Result<()>)
        ensures
            (final(self)@, rv(r)) == set_permissions_model(old(self)@, path@, mode),
    {
        let key = normalize_path(path);
        if !self.exists_key(key.as_str()) {
            let m = concat("Path does not exist: ", path);
            return Err(NailsError::IoError(IoError::new(IoErrorKind::NotFound, m)));
        }
        self.permissions.insert(key.as_str(), mode);
        Ok(())
    }

    /// Permissions of a path (see `get_permissions_model`).
    pub fn get_permissions(&self, path: &str) -> (r: Result<u32>)
        ensures
            rv(r) == get_permissions_model(self@, path@),
    {
        let key = normalize_path(path);
        match self.paths.get(key.as_str()) {
            Some(i) => {
                if !i.exists {
                    let m = concat("Path does not exist: ", path);
                    return Err(NailsError::IoError(IoError::new(IoErrorKind::NotFound, m)));
                }
            },
            None => {},
        }
        match self.permissions.get(key.as_str()) {
            Some(m) => Ok(*m),
            None => Ok(0o755),
        }
    }

    /// Whether a path is readable (absent entries are not).
    pub fn is_readable(&self, path: &str) -> (r: Result<bool>)
        ensures
            rv(r) == Ok::<bool, ErrView>(
                self@.paths.contains_key(pkey(path@)) && self@.paths[pkey(path@)].is_readable,
            ),
    {
        let key = normalize_path(path);
        match self.paths.get(key.as_str()) {
            Some(i) => Ok(i.is_readable),
            None => Ok(false),
        }
    }

    /// Whether a path is writable (absent entries are not).
    pub fn is_writable(&self, path: &str) -> (r: Result<bool>)
        ensures
            rv(r) == Ok::<bool, ErrView>(writable_at(self@.paths, pkey(path@))),
    {
        let key = normalize_path(path);
        Ok(self.writable_key(key.as_str()))
    }

    /// Whether a NixOS profile exists.
    pub fn nixos_profile_exists(&self, profile: &str) -> (r: Result<bool>)
        ensures
            rv(r) == Ok::<bool, ErrView>(self@.nixos_profiles.contains(profile@)),
    {
        Ok(self.nixos_profiles.contains(profile))
    }

    /// Builds a NixOS profile: afterwards it exists.
    pub fn nixos_build_profile(&mut self, profile: &str) -> (r: Result<()>)
        ensures
            final(self)@ == (MockView {
                nixos_profiles: old(self)@.nixos_profiles.insert(profile@),
                ..old(self)@
            }),
            r is Ok,
    {
        self.nixos_profiles.insert(profile);
        Ok(())
    }

    /// Switches to a NixOS profile (see `switch_profile_model`).
    pub fn nixos_switch_profile(&mut self, profile: &str) -> (r: Result<()>)
        ensures
            (final(self)@, rv(r)) == switch_profile_model(old(self)@, profile@),
    {
        if !self.nixos_profiles.contains(profile) {
            return Err(NailsError::NixOSProfileNotFound { profile: String::from_str(profile) });
        }
        self.current_profile = Some(String::from_str(profile));
        Ok(())
    }

    /// The current NixOS profile.
    pub fn nixos_get_current_profile(&self) -> (r: Result<String>)
        ensures
            rv(r) == (match self@.current_profile {
                Some(p) => Ok::<Seq<char>, ErrView>(p),
                None => Err(ErrView::InvalidState("No NixOS profile is currently active"@)),
            }),
    {
        match &self.current_profile {
            Some(p) => Ok(p.clone()),
            None => Err(
                NailsError::InvalidState(String::from_str("No NixOS profile is currently active")),
            ),
        }
    }

    /// Whether a NAILS process is running.
    pub fn nails_process_running(&self) -> (r: Result<bool>)
        ensures
            rv(r) == Ok::<bool, ErrView>(self@.nails_process_running),
    {
        Ok(self.nails_process_running)
    }

    /// The text of a file.
    pub fn read_file_content(&self, path: &str) -> (r: Result<String>)
        ensures
            rv(r) == read_file_model(self@, path@),
    {
        let key = normalize_path(path);
        match self.file_contents.get(key.as_str()) {
            Some(c) => Ok(c.clone()),
            None => {
                let m = concat("File not found in mock: ", path);
                Err(NailsError::IoError(IoError::new(IoErrorKind::NotFound, m)))
            },
        }
    }

    /// The configured search results that still exist (see `find_files_model`).
    pub fn find_files_with_pattern(&self, dir: &str, pattern: &str) -> (r: Result<Vec<String>>)
        ensures
            rv(r) == Ok::<Seq<Seq<char>>, ErrView>(find_files_model(self@, dir@, pattern@)),
    {
        let key = normalize_path(dir);
        let empty: Vec<String> = Vec::new();
        let files: &Vec<String> = match self.files_with_pattern.get(key.as_str()) {
            Some(inner) => match inner.get(pattern) {
                Some(f) => f,
                None => &empty,
            },
            None => &empty,
        };
        let ghost fv = files.deep_view();
        let ghost pred = |f: Seq<char>| search_hit_kept(self@, f);
        assert(fv == (if self@.files_with_pattern.contains_key(pkey(dir@))
            && self@.files_with_pattern[pkey(dir@)].contains_key(pattern@) {
            self@.files_with_pattern[pkey(dir@)][pattern@]
        } else {
            Seq::<Seq<char>>::empty()
        })) by {
            assert(empty.deep_view() =~= Seq::<Seq<char>>::empty());
        }
        let mut out: Vec<String> = Vec::new();
        let mut i: usize = 0;
        assert(fv.take(0).filter(pred) =~= Seq::<Seq<char>>::empty()) by {
            reveal(Seq::filter);
        }
        while i < files.len()
            invariant
                i <= files@.len(),
                fv == files.deep_view(),
                pred == (|f: Seq<char>| search_hit_kept(self@, f)),
                out.deep_view() == fv.take(i as int).filter(pred),
            decreases files@.len() - i,
        {
            let f = &files[i];
            let fk = normalize_path(f.as_str());
            let keep = match self.paths.get(fk.as_str()) {
                Some(info) => info.exists,
                None => true,
            };
            proof {
                lemma_filter_push(fv.take(i as int), pred, fv[i as int]);
                assert(fv.take(i as int).push(fv[i as int]) =~= fv.take(i as int + 1));
                assert(fv[i as int] == f@);
            }
            if keep {
                let ghost before = out.deep_view();
                out.push(f.clone());
                assert(out.deep_view() =~= before.push(f@));
            }
            i = i + 1;
        }
        assert(fv.take(files@.len() as int) =~= fv);
        Ok(out)
    }

    /// Writes a file (see `write_file_model`).
    pub fn write_file_content(&mut self, path: &str, content: &str) -> (r: Result<()>)
        ensures
            (final(self)@, rv(r)) == write_file_model(old(self)@, path@, content@),
    {
        let key = normalize_path(path);
        if self.write_should_fail.contains(key.as_str()) {
            let m = concat("Mock write failure for ", path);
            return Err(NailsError::IoError(IoError::new(IoErrorKind::PermissionDenied, m)));
        }
        let mut info = self.info_of(key.as_str());
        info.exists = true;
        self.paths.insert(key.as_str(), info);
        self.written_files.insert(key.as_str(), String::from_str(content));
        self.file_contents.insert(key.as_str(), String::from_str(content));
        self.op_log.push(MockOp::WriteFile { path: String::from_str(path) });
        assert(self@.op_log =~= old(self)@.op_log.push(MockOpView::WriteFile(path@)));
        Ok(())
    }

    /// The configured entries of a directory.
    pub fn list_directory(&self, dir: &str) -> (r: Result<Vec<String>>)
        ensures
            rv(r) == (if self@.directory_contents.contains_key(pkey(dir@)) {
                Ok::<Seq<Seq<char>>, ErrView>(self@.directory_contents[pkey(dir@)])
            } else {
                Err(
                    ErrView::Io(
                        IoErrorKind::NotFound,
                        "Mock: directory contents not configured for "@ + dir@,
                    ),
                )
            }),
    {
        let key = normalize_path(dir);
        match self.directory_contents.get(key.as_str()) {
            Some(v) => Ok(crate::keymap::clone_strings(v)),
            None => {
                let m = concat("Mock: directory contents not configured for ", dir);
                Err(NailsError::IoError(IoError::new(IoErrorKind::NotFound, m)))
            },
        }
    }

    /// Size of a file (see `file_size_model`).
    pub fn file_size(&self, path: &str) -> (r: Result<u64>)
        ensures
            rv(r) == file_size_model(self@, path@),
    {
        let key = normalize_path(path);
        if !self.exists_key(key.as_str()) {
            let m = concat("File not found: ", path);
            return Err(NailsError::IoError(IoError::new(IoErrorKind::NotFound, m)));
        }
        let info = self.info_of(key.as_str());
        if self.explicit_file_sizes.contains(key.as_str()) {
            return Ok(info.free_space);
        }
        match self.file_contents.get(key.as_str()) {
            Some(c) => {
                let n = c.as_str().len();
                Ok(n as u64)
            },
            None => Ok(0),
        }
    }

    /// Renames a file (see `rename_file_model`).
    pub fn rename_file(&mut self, from: &str, to: &str) -> (r: Result<()>)
        ensures
            (final(self)@, rv(r)) == rename_file_model(old(self)@, from@, to@),
    {
        let kf = normalize_path(from);
        let kt = normalize_path(to);
        if self.rename_should_fail.contains(kf.as_str()) {
            let m = concat("Mock: rename_file configured to fail for ", from);
            return Err(NailsError::IoError(IoError::new(IoErrorKind::PermissionDenied, m)));
        }
        if !self.exists_key(kf.as_str()) {
            let m = concat("Source file not found: ", from);
            return Err(NailsError::IoError(IoError::new(IoErrorKind::NotFound, m)));
        }
        match self.paths.remove(kf.as_str()) {
            Some(i) => {
                let mut info = i;
                info.exists = true;
                self.paths.insert(kt.as_str(), info);
            },
            None => {},
        }
        let ghost contents_before = self@.file_contents;
        match self.file_contents.remove(kf.as_str()) {
            Some(c) => {
                self.file_contents.insert(kt.as_str(), c);
            },
            None => {
                assert(self@.file_contents =~= contents_before);
            },
        }
        Ok(())
    }

    /// Removes a file (see `remove_file_model`).
    pub fn remove_file(&mut self, path: &str) -> (r: Result<()>)
        ensures
            (final(self)@, rv(r)) == remove_file_model(old(self)@, path@),
    {
        let key = normalize_path(path);
        if self.remove_should_fail.contains(key.as_str()) {
            let mut m = concat("Mock: ", "remove_file");
            m.append(" configured to fail for ");
            m.append(path);
            return Err(NailsError::IoError(IoError::new(IoErrorKind::PermissionDenied, m)));
        }
        self.mark_key_absent(key.as_str());
        self.file_contents.remove(key.as_str());
        Ok(())
    }

    fn mark_key_absent(&mut self, key: &str)
        ensures
            final(self)@ == mark_absent(old(self)@, key@),
    {
        match self.paths.get(key) {
            Some(i) => {
                let mut info = *i;
                info.exists = false;
                self.paths.insert(key, info);
            },
            None => {},
        }
    }

    /// Removes an empty directory (see `remove_dir_model`).
    pub fn remove_directory(&mut self, path: &str) -> (r: Result<()>)
        ensures
            (final(self)@, rv(r)) == remove_dir_model(old(self)@, path@, "remove_directory"@),
    {
        let key = normalize_path(path);
        if self.remove_should_fail.contains(key.as_str()) {
            let mut m = concat("Mock: ", "remove_directory");
            m.append(" configured to fail for ");
            m.append(path);
            return Err(NailsError::IoError(IoError::new(IoErrorKind::PermissionDenied, m)));
        }
        self.mark_key_absent(key.as_str());
        Ok(())
    }

    /// Removes a directory tree (see `remove_dir_model`).
    pub fn remove_dir_all(&mut self, path: &str) -> (r: Result<()>)
        ensures
            (final(self)@, rv(r)) == remove_dir_model(old(self)@, path@, "remove_dir_all"@),
    {
        let key = normalize_path(path);
        if self.remove_should_fail.contains(key.as_str()) {
            let mut m = concat("Mock: ", "remove_dir_all");
            m.append(" configured to fail for ");
            m.append(path);
            return Err(NailsError::IoError(IoError::new(IoErrorKind::PermissionDenied, m)));
        }
        self.mark_key_absent(key.as_str());
        Ok(())
    }

    /// Securely deletes a file: a configured failure, else `remove_file`.
    pub fn secure_delete(&mut self, path: &str) -> (r: Result<()>)
        ensures
            (final(self)@, rv(r)) == secure_delete_model(old(self)@, path@),
    {
        self.op_log.push(MockOp::SecureDelete { path: String::from_str(path) });
        assert(self@.op_log =~= old(self)@.op_log.push(MockOpView::SecureDelete(path@)));
        let key = normalize_path(path);
        if self.remove_should_fail.contains(key.as_str()) {
            let mut m = concat("Mock: ", "secure_delete");
            m.append(" configured to fail for ");
            m.append(path);
            return Err(NailsError::IoError(IoError::new(IoErrorKind::PermissionDenied, m)));
        }
        self.remove_file(path)
    }

    /// Securely deletes a directory tree: a configured failure, else `remove_dir_all`.
    pub fn secure_delete_dir_all(&mut self, path: &str) -> (r: Result<()>)
        ensures
            (final(self)@, rv(r)) == (if old(self)@.remove_should_fail.contains(pkey(path@)) {
                (old(self)@, Err(removal_failure("secure_delete_dir_all"@, path@)))
            } else {
                remove_dir_model(old(self)@, path@, "remove_dir_all"@)
            }),
    {
        let key = normalize_path(path);
        if self.remove_should_fail.contains(key.as_str()) {
            let mut m = concat("Mock: ", "secure_delete_dir_all");
            m.append(" configured to fail for ");
            m.append(path);
            return Err(NailsError::IoError(IoError::new(IoErrorKind::PermissionDenied, m)));
        }
        self.remove_dir_all(path)
    }

    /// Modification time of a file: the configured time, else the current time.
    pub fn modified_time(&self, path: &str) -> (r: Result<i64>)
        ensures
            r is Ok,
            self@.modified_times.contains_key(pkey(path@)) ==> rv(r) == Ok::<i64, ErrView>(
                self@.modified_times[pkey(path@)],
            ),
    {
        let key = normalize_path(path);
        match self.modified_times.get(key.as_str()) {
            Some(t) => Ok(*t),
            None => Ok(current_time_millis()),
        }
    }

    /// Copies a tree (see `copy_tree_model`).
    pub fn copy_tree(&mut self, src: &str, dst: &str) -> (r: Result<()>)
        ensures
            (final(self)@, rv(r)) == copy_tree_model(old(self)@, src@, dst@),
    {
        self.op_log.push(MockOp::CopyTree { src: String::from_str(src), dst: String::from_str(dst) });
        assert(self@.op_log =~= old(self)@.op_log.push(MockOpView::CopyTree(src@, dst@)));
        let key = normalize_path(src);
        if self.copy_tree_should_fail.contains(key.as_str()) {
            let m = concat("Mock copy_tree failure for ", src);
            return Err(NailsError::IoError(IoError::new(IoErrorKind::Other, m)));
        }
        Ok(())
    }

    /// The configured size of a directory (default 0).
    pub fn get_directory_size(&self, path: &str) -> (r: Result<u64>)
        ensures
            rv(r) == Ok::<u64, ErrView>(
                if self@.directory_sizes.contains_key(pkey(path@)) {
                    self@.directory_sizes[pkey(path@)]
                } else {
                    0
                },
            ),
    {
        let key = normalize_path(path);
        match self.directory_sizes.get(key.as_str()) {
            Some(n) => Ok(*n),
            None => Ok(0),
        }
    }

    /// The configured submount sources of a target (default none).
    pub fn find_submount_sources(&self, target: &str) -> (r: Result<Vec<(String, String)>>)
        ensures
            rv(r) == Ok::<Seq<(Seq<char>, Seq<char>)>, ErrView>(
                if self@.submount_sources.contains_key(pkey(target@)) {
                    self@.submount_sources[pkey(target@)]
                } else {
                    Seq::empty()
                },
            ),
    {
        let key = normalize_path(target);
        match self.submount_sources.get(key.as_str()) {
            Some(v) => Ok(crate::keymap::clone_string_pairs(v)),
            None => {
                let v: Vec<(String, String)> = Vec::new();
                assert(v.deep_view() =~= Seq::<(Seq<char>, Seq<char>)>::empty());
                Ok(v)
            },
        }
    }

    /// The content written to a file by `write_file_content`.
    pub fn get_written_content(&self, path: &str) -> (r: Option<String>)
        ensures
            r.deep_view() == (if self@.written_files.contains_key(pkey(path@)) {
                Some(self@.written_files[pkey(path@)])
            } else {
                None
            }),
    {
        let key = normalize_path(path);
        match self.written_files.get(key.as_str()) {
            Some(c) => Some(c.clone()),
            None => None,
        }
    }

    /// The operation log.
    pub fn mock_ops(&self) -> (r: Vec<MockOp>)
        ensures
            r.deep_view() == self@.op_log,
    {
        let mut r: Vec<MockOp> = Vec::new();
        let mut i: usize = 0;
        while i < self.op_log.len()
            invariant
                i <= self.op_log@.len(),
                r@.len() == i,
                forall|j: int| 0 <= j < i ==> (#[trigger] r@[j]).deep_view()
                    == self.op_log@[j].deep_view(),
            decreases self.op_log@.len() - i,
        {
            r.push(dup_op(&self.op_log[i]));
            i = i + 1;
        }
        assert(r.deep_view() =~= self.op_log.deep_view());
        r
    }

    /// The mounted paths (canonical texts), each once.
    pub fn get_mounted_paths(&self) -> (r: Vec<String>)
        ensures
            r@.len() == self@.mounted.len(),
            forall|k: Seq<char>| #![auto] self@.mounted.contains(k) <==> exists|i: int|
                0 <= i < r@.len() && r@[i]@ == k,
    {
        self.mounted.elements()
    }

    /// Metadata of the overlay at a path.
    pub fn mock_get_mount_info(&self, target: &str) -> (r: Option<MountInfo>)
        ensures
            r.deep_view() == (if self@.mounted_overlays.contains_key(pkey(target@)) {
                Some(self@.mounted_overlays[pkey(target@)])
            } else {
                None
            }),
    {
        self.get_mount_info(target)
    }

    /// Permissions set on a path by `set_permissions`.
    pub fn mock_get_permissions(&self, path: &str) -> (r: Option<u32>)
        ensures
            r == (if self@.permissions.contains_key(pkey(path@)) {
                Some(self@.permissions[pkey(path@)])
            } else {
                None
            }),
    {
        let key = normalize_path(path);
        match self.permissions.get(key.as_str()) {
            Some(m) => Some(*m),
            None => None,
        }
    }

    /// Target recorded by `create_symlink` for a link.
    pub fn mock_get_symlink_target(&self, link: &str) -> (r: Option<String>)
        ensures
            r.deep_view() == (if self@.symlink_targets.contains_key(pkey(link@)) {
                Some(self@.symlink_targets[pkey(link@)])
            } else {
                None
            }),
    {
        let key = normalize_path(link);
        match self.symlink_targets.get(key.as_str()) {
            Some(t) => Some(t.clone()),
            None => None,
        }
    }
}

impl MockFilesystem {
    /// The configured root directories without the configured symbolic links
    /// and the NAILS runtime directory, in `Path` order.
    pub fn enumerate_root_directories(&self) -> (r: Result<Vec<String>>)
        ensures
            r matches Ok(v) && v.deep_view().to_multiset() == self@.root_directories.filter(
                |d: Seq<char>| root_dir_kept(self@.root_symlinks, d),
            ).to_multiset() && sorted_by_path(v.deep_view()),
    {
        Ok(select_root_directories(&self.root_directories, &self.root_symlinks))
    }
}

impl Filesystem for MockFilesystem {
    open spec fn model(&self) -> MockView {
        self@
    }

    open spec fn follows_model() -> bool {
        true
    }

    fn mount_overlay(&mut self, lower: &[&str], upper: &str, work: &str, target: &str) -> Result<
        (),
    > {
        MockFilesystem::mount_overlay(self, lower, upper, work, target)
    }

    fn unmount(&mut self, target: &str, force: bool) -> Result<()> {
        MockFilesystem::unmount(self, target, force)
    }

    fn is_mounted(&self, target: &str) -> Result<bool> {
        MockFilesystem::is_mounted(self, target)
    }

    fn get_filesystem_type(&self, target: &str) -> Result<Option<String>> {
        MockFilesystem::get_filesystem_type(self, target)
    }

    fn is_overlay_mounted(&self, target: &str) -> Result<bool> {
        MockFilesystem::is_overlay_mounted(self, target)
    }

    fn get_mount_info(&self, target: &str) -> Option<MountInfo> {
        MockFilesystem::get_mount_info(self, target)
    }

    fn swap_is_enabled(&self) -> Result<bool> {
        MockFilesystem::swap_is_enabled(self)
    }

    fn swap_disable(&mut self) -> Result<()> {
        MockFilesystem::swap_disable(self)
    }

    fn bind_mount(&mut self, source: &str, target: &str) -> Result<()> {
        MockFilesystem::bind_mount(self, source, target)
    }

    fn unmount_bind(&mut self, target: &str) -> Result<()> {
        MockFilesystem::unmount_bind(self, target)
    }

    fn mount_tmpfs(&mut self, target: &str, size: &str) -> Result<()> {
        MockFilesystem::mount_tmpfs(self, target, size)
    }

    fn unmount_tmpfs(&mut self, target: &str) -> Result<()> {
        MockFilesystem::unmount_tmpfs(self, target)
    }

    fn path_exists(&self, path: &str) -> Result<bool> {
        MockFilesystem::path_exists(self, path)
    }

    fn is_directory(&self, path: &str) -> Result<bool> {
        MockFilesystem::is_directory(self, path)
    }

    fn is_symlink(&self, path: &str) -> Result<bool> {
        MockFilesystem::is_symlink(self, path)
    }

    fn create_symlink(&mut self, target: &str, link: &str) -> Result<()> {
        MockFilesystem::create_symlink(self, target, link)
    }

    fn get_free_space(&self, path: &str) -> Result<u64> {
        MockFilesystem::get_free_space(self, path)
    }

    fn create_directory(&mut self, path: &str) -> Result<()> {
        MockFilesystem::create_directory(self, path)
    }

    fn set_permissions(&mut self, path: &str, mode: u32) -> Result<()> {
        MockFilesystem::set_permissions(self, path, mode)
    }

    fn get_permissions(&self, path: &str) -> Result<u32> {
        MockFilesystem::get_permissions(self, path)
    }

    fn is_readable(&self, path: &str) -> Result<bool> {
        MockFilesystem::is_readable(self, path)
    }

    fn is_writable(&self, path: &str) -> Result<bool> {
        MockFilesystem::is_writable(self, path)
    }

    fn nixos_profile_exists(&self, profile: &str) -> Result<bool> {
        MockFilesystem::nixos_profile_exists(self, profile)
    }

    fn nixos_build_profile(&mut self, profile: &str) -> Result<()> {
        MockFilesystem::nixos_build_profile(self, profile)
    }

    fn nixos_switch_profile(&mut self, profile: &str) -> Result<()> {
        MockFilesystem::nixos_switch_profile(self, profile)
    }

    fn nixos_get_current_profile(&self) -> Result<String> {
        MockFilesystem::nixos_get_current_profile(self)
    }

    fn nails_process_running(&self) -> Result<bool> {
        MockFilesystem::nails_process_running(self)
    }

    fn read_file_content(&self, path: &str) -> Result<String> {
        MockFilesystem::read_file_content(self, path)
    }

    fn find_files_with_pattern(&self, dir: &str, pattern: &str) -> Result<Vec<String>> {
        MockFilesystem::find_files_with_pattern(self, dir, pattern)
    }

    fn write_file_content(&mut self, path: &str, content: &str) -> Result<()> {
        MockFilesystem::write_file_content(self, path, content)
    }

    fn list_directory(&self, dir: &str) -> Result<Vec<String>> {
        MockFilesystem::list_directory(self, dir)
    }

    fn enumerate_root_directories(&self) -> Result<Vec<String>> {
        MockFilesystem::enumerate_root_directories(self)
    }

    fn file_size(&self, path: &str) -> Result<u64> {
        MockFilesystem::file_size(self, path)
    }

    fn rename_file(&mut self, from: &str, to: &str) -> Result<()> {
        MockFilesystem::rename_file(self, from, to)
    }

    fn remove_file(&mut self, path: &str) -> Result<()> {
        MockFilesystem::remove_file(self, path)
    }

    fn remove_directory(&mut self, path: &str) -> Result<()> {
        MockFilesystem::remove_directory(self, path)
    }

    fn remove_dir_all(&mut self, path: &str) -> Result<()> {
        MockFilesystem::remove_dir_all(self, path)
    }

    fn secure_delete(&mut self, path: &str) -> Result<()> {
        MockFilesystem::secure_delete(self, path)
    }

    fn secure_delete_dir_all(&mut self, path: &str) -> Result<()> {
        MockFilesystem::secure_delete_dir_all(self, path)
    }

    fn supports_symlinks(&self, dir: &str) -> Result<bool> {
        MockFilesystem::supports_symlinks(self, dir)
    }

    fn modified_time(&self, path: &str) -> Result<i64> {
        MockFilesystem::modified_time(self, path)
    }

    fn copy_tree(&mut self, src: &str, dst: &str) -> Result<()> {
        MockFilesystem::copy_tree(self, src, dst)
    }

    fn get_directory_size(&self, path: &str) -> Result<u64> {
        MockFilesystem::get_directory_size(self, path)
    }

    fn find_submount_sources(&self, target: &str) -> Result<Vec<(String, String)>> {
        MockFilesystem::find_submount_sources(self, target)
    }
}

} // verus!
