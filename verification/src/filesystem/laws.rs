//! What the in-memory filesystem guarantees across operations.
//!
//! Each law is stated over the state model (`MockView`) and the models of
//! the operations, which the operations' own contracts use.
use crate::error::ErrView;
use crate::filesystem::mock::{
    create_directory_model, empty_mock, exists_at, get_permissions_model, mount_overlay_model,
    mount_tmpfs_model, pkey, remove_file_model, rename_file_model, reset_model,
    set_permissions_model, switch_profile_model, unmount_bind_model, unmount_model,
    unmount_tmpfs_model, write_file_model, bind_mount_model, MockView,
};
use crate::filesystem::mock::{probe_model, writable_at, MockOpView};
use crate::filesystem::{
    mount_check_outcome, preconditions_verdict, probe_outcome, DirProbe, MountInfoView,
};
use crate::path::parent_of;
use vstd::prelude::*;

verus! {

/// A successful overlay mount leaves the target mounted, with metadata
/// naming the first lower layer, the upper and work directories, the
/// target and the mount time.
pub proof fn law_mount_overlay_records_mount(
    s: MockView,
    lower: Seq<Seq<char>>,
    upper: Seq<char>,
    work: Seq<char>,
    target: Seq<char>,
    now: i64,
)
    requires
        mount_overlay_model(s, lower, upper, work, target, now).1 is Ok,
    ensures
        ({
            let t = mount_overlay_model(s, lower, upper, work, target, now).0;
            &&& t.mounted.contains(pkey(target))
            &&& t.mounted_overlays.contains_key(pkey(target))
            &&& t.mounted_overlays[pkey(target)] == (MountInfoView {
                lower: lower[0],
                upper,
                work,
                target,
                mounted_at: now,
            })
        }),
{
}

/// An overlay that was just mounted can be unmounted (by force, unless
/// unmounting it is configured to fail); afterwards it is neither mounted
/// nor has metadata, and the rest of the state is as the mount left it.
pub proof fn law_mount_then_unmount(
    s: MockView,
    lower: Seq<Seq<char>>,
    upper: Seq<char>,
    work: Seq<char>,
    target: Seq<char>,
    now: i64,
)
    requires
        mount_overlay_model(s, lower, upper, work, target, now).1 is Ok,
        !s.unmount_should_fail.contains(pkey(target)),
    ensures
        ({
            let t = mount_overlay_model(s, lower, upper, work, target, now).0;
            let (u, r) = unmount_model(t, target, true);
            &&& r is Ok
            &&& !u.mounted.contains(pkey(target))
            &&& !u.mounted_overlays.contains_key(pkey(target))
            &&& u == (MockView {
                mounted: t.mounted.remove(pkey(target)),
                mounted_overlays: t.mounted_overlays.remove(pkey(target)),
                op_log: t.op_log.push(MockOpView::Unmount(target, true)),
                ..t
            })
        }),
{
}

/// Unmounting is idempotent: once an unmount succeeded, unmounting the same
/// target again succeeds and changes nothing but the log of requests.
pub proof fn law_unmount_idempotent(s: MockView, target: Seq<char>, force: bool)
    requires
        unmount_model(s, target, force).1 is Ok,
    ensures
        ({
            let t = unmount_model(s, target, force).0;
            &&& !t.mounted.contains(pkey(target))
            &&& unmount_model(t, target, force) == (
                MockView { op_log: t.op_log.push(MockOpView::Unmount(target, force)), ..t },
                Ok::<(), ErrView>(()),
            )
        }),
{
}

/// Unmounting a tmpfs is idempotent.
pub proof fn law_unmount_tmpfs_idempotent(s: MockView, target: Seq<char>)
    requires
        unmount_tmpfs_model(s, target).1 is Ok,
    ensures
        ({
            let t = unmount_tmpfs_model(s, target).0;
            &&& !t.tmpfs_mounts.contains(pkey(target))
            &&& unmount_tmpfs_model(t, target) == (t, Ok::<(), ErrView>(()))
        }),
{
}

/// Removing a bind mount is idempotent.
pub proof fn law_unmount_bind_idempotent(s: MockView, target: Seq<char>)
    requires
        unmount_bind_model(s, target).1 is Ok,
    ensures
        ({
            let t = unmount_bind_model(s, target).0;
            &&& !t.bind_mounts.contains_key(pkey(target))
            &&& unmount_bind_model(t, target) == (t, Ok::<(), ErrView>(()))
        }),
{
}

/// A tmpfs that was just mounted is mounted, and can be unmounted again
/// unless unmounting it is configured to fail.
pub proof fn law_tmpfs_mount_then_unmount(s: MockView, target: Seq<char>, size: Seq<char>)
    requires
        mount_tmpfs_model(s, target, size).1 is Ok,
        !s.unmount_should_fail.contains(pkey(target)),
    ensures
        ({
            let t = mount_tmpfs_model(s, target, size).0;
            let (u, r) = unmount_tmpfs_model(t, target);
            &&& t.tmpfs_mounts.contains(pkey(target))
            &&& t.mounted.contains(pkey(target))
            &&& r is Ok
            &&& !u.tmpfs_mounts.contains(pkey(target))
            &&& !u.mounted.contains(pkey(target))
        }),
{
    lemma_create_directory_keeps_failures(s, target);
}

/// Creating a directory changes only path metadata.
pub proof fn lemma_create_directory_keeps_failures(s: MockView, p: Seq<char>)
    ensures
        create_directory_model(s, p).0 == (MockView { paths: create_directory_model(s, p).0.paths, ..s }),
{
    lemma_create_dir_keeps(s, crate::path::components(p), pkey(p));
}

proof fn lemma_create_dir_keeps(s: MockView, cs: Seq<crate::path::Comp>, k: Seq<char>)
    ensures
        crate::filesystem::mock::create_dir_model(s, cs, k).0 == (MockView {
            paths: crate::filesystem::mock::create_dir_model(s, cs, k).0.paths,
            ..s
        }),
    decreases cs.len(),
{
    if cs.len() > 0 && cs.last() != crate::path::Comp::Root {
        let par = cs.drop_last();
        let pk = crate::path::normal_form(crate::path::render(par));
        lemma_create_dir_keeps(s, par, pk);
    }
}

/// A bind mount that was just made is recorded with its source, and can be
/// removed again unless unmounting it is configured to fail.
pub proof fn law_bind_mount_then_unmount(s: MockView, source: Seq<char>, target: Seq<char>)
    requires
        bind_mount_model(s, source, target).1 is Ok,
        !s.unmount_should_fail.contains(pkey(target)),
    ensures
        ({
            let t = bind_mount_model(s, source, target).0;
            let (u, r) = unmount_bind_model(t, target);
            &&& t.bind_mounts.contains_key(pkey(target))
            &&& t.bind_mounts[pkey(target)] == source
            &&& r is Ok
            &&& !u.bind_mounts.contains_key(pkey(target))
            &&& !u.mounted.contains(pkey(target))
        }),
{
}

/// A successful write makes the file exist and reading it gives what was
/// written (reads see `file_contents`).
pub proof fn law_write_then_read(s: MockView, path: Seq<char>, content: Seq<char>)
    requires
        write_file_model(s, path, content).1 is Ok,
    ensures
        ({
            let t = write_file_model(s, path, content).0;
            &&& exists_at(t.paths, pkey(path))
            &&& t.file_contents.contains_key(pkey(path))
            &&& t.file_contents[pkey(path)] == content
            &&& t.written_files[pkey(path)] == content
        }),
{
}

/// A successful rename moves a file: the target exists with the source's
/// content, and the source (when it is another path) no longer exists.
pub proof fn law_rename_moves_content(s: MockView, from: Seq<char>, to: Seq<char>)
    requires
        rename_file_model(s, from, to).1 is Ok,
    ensures
        ({
            let t = rename_file_model(s, from, to).0;
            &&& exists_at(t.paths, pkey(to))
            &&& s.file_contents.contains_key(pkey(from)) ==> t.file_contents.contains_key(pkey(to))
                && t.file_contents[pkey(to)] == s.file_contents[pkey(from)]
            &&& pkey(from) != pkey(to) ==> !exists_at(t.paths, pkey(from))
                && !t.file_contents.contains_key(pkey(from))
        }),
{
}

/// After a successful removal the file does not exist and has no content.
pub proof fn law_remove_makes_absent(s: MockView, path: Seq<char>)
    requires
        remove_file_model(s, path).1 is Ok,
    ensures
        ({
            let t = remove_file_model(s, path).0;
            &&& !exists_at(t.paths, pkey(path))
            &&& !t.file_contents.contains_key(pkey(path))
        }),
{
}

/// A directory that was created exists and is a directory.
pub proof fn law_create_directory_exists(s: MockView, p: Seq<char>)
    requires
        create_directory_model(s, p).1 is Ok,
    ensures
        ({
            let t = create_directory_model(s, p).0;
            &&& exists_at(t.paths, pkey(p))
            &&& t.paths[pkey(p)].is_directory
        }),
{
}

/// Permissions that were set are the permissions read back.
pub proof fn law_set_then_get_permissions(s: MockView, path: Seq<char>, mode: u32)
    requires
        set_permissions_model(s, path, mode).1 is Ok,
    ensures
        get_permissions_model(set_permissions_model(s, path, mode).0, path) == Ok::<u32, ErrView>(
            mode,
        ),
{
}

/// Switching to a profile that exists makes it the current profile; one
/// that does not exist is refused and nothing changes.
pub proof fn law_switch_profile(s: MockView, profile: Seq<char>)
    ensures
        s.nixos_profiles.contains(profile) ==> switch_profile_model(s, profile).0.current_profile
            == Some(profile),
        !s.nixos_profiles.contains(profile) ==> switch_profile_model(s, profile) == (
            s,
            Err::<(), ErrView>(ErrView::ProfileNotFound(profile)),
        ),
{
}

/// Once a profile is built (added), switching to it succeeds.
pub proof fn law_build_then_switch(s: MockView, profile: Seq<char>)
    ensures
        ({
            let built = MockView { nixos_profiles: s.nixos_profiles.insert(profile), ..s };
            let (t, r) = switch_profile_model(built, profile);
            &&& r is Ok
            &&& t.current_profile == Some(profile)
        }),
{
}

/// Reset gives the state of a new mock; resetting twice is resetting once.
pub proof fn law_reset(s: MockView)
    ensures
        reset_model(s) == empty_mock(),
        reset_model(reset_model(s)) == reset_model(s),
{
}

/// The mock answers the probe of a directory as the generic probe decides
/// on the mock's answers to its three questions.
pub proof fn law_mock_probe_matches_generic_probe(s: MockView, p: Seq<char>)
    ensures
        ({
            let par = parent_of(p);
            let parent_exists = match par {
                Some(x) => exists_at(s.paths, pkey(x)),
                None => false,
            };
            let parent_writable = match par {
                Some(x) => writable_at(s.paths, pkey(x)),
                None => false,
            };
            Ok::<DirProbe, ErrView>(probe_model(s, p)) == probe_outcome(
                p,
                Ok(exists_at(s.paths, pkey(p))),
                Ok(parent_exists),
                Ok(parent_writable),
            )
        }),
{
}

/// With every answer given, the generic mount check reaches the verdict
/// that the mock's overlay mount applies.
pub proof fn law_mount_check_matches_verdict(
    lower: Seq<char>,
    lower_exists: bool,
    upper: Seq<char>,
    upper_probe: DirProbe,
    work: Seq<char>,
    work_probe: DirProbe,
    target: Seq<char>,
    target_overlay: bool,
)
    ensures
        mount_check_outcome(
            lower,
            upper,
            work,
            target,
            Ok(lower_exists),
            Ok(upper_probe),
            Ok(work_probe),
            Ok(target_overlay),
        ) == preconditions_verdict(
            lower,
            lower_exists,
            upper,
            upper_probe,
            work,
            work_probe,
            target,
            target_overlay,
        ),
{
}

} // verus!
