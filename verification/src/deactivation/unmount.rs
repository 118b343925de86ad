//! Unmounting overlays for deactivation, with remounting on failure.
use crate::error::{rv, ErrView, NailsError, Result};
use crate::filesystem::mock::{mount_overlay_model, mount_time, pkey, unmount_model, MockOpView, MockView};
use crate::filesystem::{Filesystem, MountInfo, MountInfoView};
use vstd::prelude::*;

verus! {

/// The outcome of unmounting gracefully, then by force if that failed.
pub open spec fn graceful_then_force(
    graceful: std::result::Result<(), ErrView>,
    forced: std::result::Result<(), ErrView>,
) -> std::result::Result<(), ErrView> {
    match graceful {
        Ok(()) => Ok(()),
        Err(_) => forced,
    }
}

/// Unmounting `p` in the model: gracefully, then by force if that failed.
pub open spec fn unmount_with_fallback_model(s: MockView, p: Seq<char>) -> (
    MockView,
    std::result::Result<(), ErrView>,
) {
    let (s1, g) = unmount_model(s, p, false);
    match g {
        Ok(()) => (s1, g),
        Err(_) => unmount_model(s1, p, true),
    }
}

/// The model state once the mount at key `k` is gone: the mount and its
/// overlay metadata are removed if it was mounted.
pub open spec fn unmounted_state(s: MockView, k: Seq<char>) -> MockView {
    if s.mounted.contains(k) {
        MockView { mounted: s.mounted.remove(k), mounted_overlays: s.mounted_overlays.remove(k), ..s }
    } else {
        s
    }
}

/// The error of an unmount that the model is configured to fail.
pub open spec fn configured_unmount_error(p: Seq<char>) -> ErrView {
    ErrView::Unmount(p, "Mock unmount failure for testing"@)
}

/// Whether a graceful unmount of `p` fails in the model: a configured
/// failure, a configured graceful-only failure, or a busy mount.
pub open spec fn graceful_unmount_fails(s: MockView, p: Seq<char>) -> bool {
    let k = pkey(p);
    s.unmount_should_fail.contains(k) || s.unmount_graceful_fails.contains(k) || (s.mounted.contains(
        k,
    ) && s.busy.contains(k))
}

/// The unmount requests of a fallback in the model's log: the graceful
/// request, then the forced one only when the graceful one failed.
pub open spec fn unmount_requests(s: MockView, p: Seq<char>) -> MockView {
    MockView {
        op_log: if graceful_unmount_fails(s, p) {
            s.op_log.push(MockOpView::Unmount(p, false)).push(MockOpView::Unmount(p, true))
        } else {
            s.op_log.push(MockOpView::Unmount(p, false))
        },
        ..s
    }
}

/// With the fallback to force, an unmount in the model asks gracefully
/// first and by force only when that failed (`unmount_requests`); it fails
/// only where a failure is configured, and otherwise the mount is gone.
pub proof fn lemma_unmount_with_fallback(s: MockView, p: Seq<char>)
    ensures
        unmount_with_fallback_model(s, p) == (if s.unmount_should_fail.contains(pkey(p)) {
            (unmount_requests(s, p), Err::<(), ErrView>(configured_unmount_error(p)))
        } else {
            (unmounted_state(unmount_requests(s, p), pkey(p)), Ok::<(), ErrView>(()))
        }),
{
    let k = pkey(p);
    let g = unmount_model(s, p, false);
    if graceful_unmount_fails(s, p) {
        let f = unmount_model(g.0, p, true);
        assert(f.0 =~= (if s.unmount_should_fail.contains(k) {
            unmount_requests(s, p)
        } else {
            unmounted_state(unmount_requests(s, p), k)
        }));
    } else {
        assert(g.0 =~= unmounted_state(unmount_requests(s, p), k));
    }
}

/// Unmounting overlays one after another in the model (in the order
/// given): each is unmounted until one whose failure is configured, whose
/// error ends the sequence with the state as it then is; otherwise the
/// result lists them all.
pub open spec fn unmount_sequence_model(s: MockView, order: Seq<Seq<char>>) -> (
    MockView,
    std::result::Result<Seq<Seq<char>>, ErrView>,
)
    decreases order.len(),
{
    if order.len() == 0 {
        (s, Ok(Seq::empty()))
    } else if s.unmount_should_fail.contains(pkey(order[0])) {
        (unmount_requests(s, order[0]), Err(configured_unmount_error(order[0])))
    } else {
        let rest = unmount_sequence_model(
            unmounted_state(unmount_requests(s, order[0]), pkey(order[0])),
            order.subrange(1, order.len() as int),
        );
        (
            rest.0,
            match rest.1 {
                Ok(v) => Ok(seq![order[0]] + v),
                Err(e) => Err(e),
            },
        )
    }
}

/// Whether every overlay with mount metadata in the model is mounted.
pub open spec fn metadata_only_when_mounted(s: MockView) -> bool {
    forall|k: Seq<char>| #[trigger] s.mounted_overlays.contains_key(k) ==> s.mounted.contains(k)
}

/// Mounting and unmounting overlays keep overlay metadata only for mounted
/// paths.
pub proof fn law_overlay_mounts_keep_metadata_for_mounted(
    s: MockView,
    lower: Seq<Seq<char>>,
    upper: Seq<char>,
    work: Seq<char>,
    target: Seq<char>,
    now: i64,
    force: bool,
)
    requires
        metadata_only_when_mounted(s),
    ensures
        metadata_only_when_mounted(mount_overlay_model(s, lower, upper, work, target, now).0),
        metadata_only_when_mounted(unmount_model(s, target, force).0),
{
    let m = mount_overlay_model(s, lower, upper, work, target, now).0;
    assert forall|k: Seq<char>| #[trigger] m.mounted_overlays.contains_key(k) implies m.mounted.contains(
        k,
    ) by {
        if k != pkey(target) {
            assert(s.mounted_overlays.contains_key(k));
        }
    }
    let u = unmount_model(s, target, force).0;
    assert forall|k: Seq<char>| #[trigger] u.mounted_overlays.contains_key(k) implies u.mounted.contains(
        k,
    ) by {
        assert(s.mounted_overlays.contains_key(k));
    }
}

/// Whether some overlay of `order` has the key `k`.
pub open spec fn names_key(order: Seq<Seq<char>>, k: Seq<char>) -> bool {
    exists|i: int| 0 <= i < order.len() && pkey(#[trigger] order[i]) == k
}

/// Unmounting overlays of which none is configured to fail succeeds and
/// lists them all in order; afterwards none of them is mounted, and every
/// other mount is as it was.
pub proof fn law_unmount_sequence_succeeds(s: MockView, order: Seq<Seq<char>>)
    requires
        forall|i: int|
            0 <= i < order.len() ==> !s.unmount_should_fail.contains(pkey(#[trigger] order[i])),
    ensures
        unmount_sequence_model(s, order).1 == Ok::<Seq<Seq<char>>, ErrView>(order),
        forall|i: int|
            0 <= i < order.len() ==> !unmount_sequence_model(s, order).0.mounted.contains(
                pkey(#[trigger] order[i]),
            ),
        forall|k: Seq<char>|
            !names_key(order, k) ==> (#[trigger] unmount_sequence_model(s, order).0.mounted.contains(k)
                == s.mounted.contains(k)),
    decreases order.len(),
{
    if order.len() > 0 {
        let p = order[0];
        let s1 = unmounted_state(unmount_requests(s, p), pkey(p));
        let rest = order.subrange(1, order.len() as int);
        assert forall|i: int| 0 <= i < rest.len() implies !s1.unmount_should_fail.contains(
            pkey(#[trigger] rest[i]),
        ) by {
            assert(rest[i] == order[i + 1]);
        }
        law_unmount_sequence_succeeds(s1, rest);
        let fin = unmount_sequence_model(s, order).0;
        assert(seq![p] + rest =~= order);
        assert forall|i: int| 0 <= i < order.len() implies !fin.mounted.contains(
            pkey(#[trigger] order[i]),
        ) by {
            if i > 0 {
                assert(rest[i - 1] == order[i]);
            } else if names_key(rest, pkey(p)) {
                let j = choose|j: int| 0 <= j < rest.len() && pkey(#[trigger] rest[j]) == pkey(p);
                assert(!fin.mounted.contains(pkey(rest[j])));
            }
        }
        assert forall|k: Seq<char>| !names_key(order, k) implies (#[trigger] fin.mounted.contains(k)
            == s.mounted.contains(k)) by {
            assert(pkey(order[0]) != k);
            if names_key(rest, k) {
                let j = choose|j: int| 0 <= j < rest.len() && pkey(#[trigger] rest[j]) == k;
                assert(rest[j] == order[j + 1]);
            }
        }
    } else {
        assert(order =~= Seq::<Seq<char>>::empty());
    }
}

/// When the overlay at `j` is the first of `order` configured to fail,
/// unmounting the sequence fails with its error; the overlays before it are
/// no longer mounted, and every mount that none of them names (the failing
/// overlay's and those after it among them) is as it was.
pub proof fn law_unmount_sequence_stops_at_failure(s: MockView, order: Seq<Seq<char>>, j: int)
    requires
        0 <= j < order.len(),
        s.unmount_should_fail.contains(pkey(order[j])),
        forall|i: int| 0 <= i < j ==> !s.unmount_should_fail.contains(pkey(#[trigger] order[i])),
    ensures
        unmount_sequence_model(s, order).1 == Err::<Seq<Seq<char>>, ErrView>(
            configured_unmount_error(order[j]),
        ),
        forall|i: int|
            0 <= i < j ==> !unmount_sequence_model(s, order).0.mounted.contains(
                pkey(#[trigger] order[i]),
            ),
        forall|k: Seq<char>|
            !names_key(order.take(j), k) ==> (#[trigger] unmount_sequence_model(
                s,
                order,
            ).0.mounted.contains(k) == s.mounted.contains(k)),
    decreases j,
{
    if j > 0 {
        let p = order[0];
        let s1 = unmounted_state(unmount_requests(s, p), pkey(p));
        let rest = order.subrange(1, order.len() as int);
        assert(rest[j - 1] == order[j]);
        assert forall|i: int| 0 <= i < j - 1 implies !s1.unmount_should_fail.contains(
            pkey(#[trigger] rest[i]),
        ) by {
            assert(rest[i] == order[i + 1]);
        }
        law_unmount_sequence_stops_at_failure(s1, rest, j - 1);
        let fin = unmount_sequence_model(s, order).0;
        assert forall|i: int| 0 <= i < j implies !fin.mounted.contains(pkey(#[trigger] order[i])) by {
            if i > 0 {
                assert(rest[i - 1] == order[i]);
            } else if names_key(rest.take(j - 1), pkey(p)) {
                let m = choose|m: int|
                    0 <= m < rest.take(j - 1).len() && pkey(#[trigger] rest.take(j - 1)[m]) == pkey(
                        p,
                    );
                assert(rest.take(j - 1)[m] == rest[m]);
                assert(!fin.mounted.contains(pkey(rest[m])));
            }
        }
        assert forall|k: Seq<char>| !names_key(order.take(j), k) implies (
        #[trigger] fin.mounted.contains(k) == s.mounted.contains(k)) by {
            assert(order.take(j)[0] == order[0]);
            assert(pkey(order[0]) != k);
            if names_key(rest.take(j - 1), k) {
                let m = choose|m: int|
                    0 <= m < rest.take(j - 1).len() && pkey(#[trigger] rest.take(j - 1)[m]) == k;
                assert(rest.take(j - 1)[m] == order.take(j)[m + 1]);
            }
        }
    } else {
        assert forall|k: Seq<char>| !names_key(order.take(j), k) implies (
        #[trigger] unmount_sequence_model(s, order).0.mounted.contains(k) == s.mounted.contains(
            k,
        )) by {}
    }
}

/// Unmounts one overlay: gracefully first, then by force if that fails.
///
/// The outcome is the one that some answers of the filesystem give (see
/// `graceful_then_force`); in the model, it is
/// `unmount_with_fallback_model`.
pub fn unmount_single_overlay<F: Filesystem>(fs: &mut F, path: &str) -> (r: Result<()>)
    ensures
        exists|a: std::result::Result<(), ErrView>, b: std::result::Result<(), ErrView>|
            rv(r) == #[trigger] graceful_then_force(a, b),
        F::follows_model() ==> (final(fs).model(), rv(r)) == unmount_with_fallback_model(
            old(fs).model(),
            path@,
        ),
{
    match fs.unmount(path, false) {
        Ok(()) => {
            assert(rv(Ok::<(), NailsError>(())) == graceful_then_force(Ok(()), Ok(())));
            Ok(())
        },
        Err(e) => {
            let forced = fs.unmount(path, true);
            assert(rv(forced) == graceful_then_force(Err(e.deep_view()), rv(forced)));
            forced
        },
    }
}

/// One remount attempt in the model, from state `s` to state `t`: an
/// overlay that still has metadata is mounted again from it (lower, upper,
/// work and target as recorded, at the time the new state records), with
/// whatever outcome `mount_overlay_model` gives; one without metadata
/// leaves the state as it is.
pub open spec fn remount_attempt(s: MockView, t: MockView, u: Seq<char>) -> bool {
    let k = pkey(u);
    if s.mounted_overlays.contains_key(k) {
        let info = s.mounted_overlays[k];
        t == mount_overlay_model(
            s,
            seq![info.lower],
            info.upper,
            info.work,
            info.target,
            mount_time(t, info.target),
        ).0
    } else {
        t == s
    }
}

/// Rolling back in the model from `s` to `t`: a remount attempt for each
/// overlay of `us`, the last first.
pub open spec fn rollback_model(s: MockView, t: MockView, us: Seq<Seq<char>>) -> bool
    decreases us.len(),
{
    if us.len() == 0 {
        t == s
    } else {
        exists|m: MockView|
            rollback_model(s, m, us.subrange(1, us.len() as int)) && #[trigger] remount_attempt(
                m,
                t,
                us[0],
            )
    }
}

/// Remounts overlays that were unmounted, last unmounted first, from the
/// mount metadata the filesystem still has; an overlay without metadata,
/// or whose remount fails, is skipped.  Always succeeds.
///
/// In the model, it is a remount attempt for each of them (see
/// `rollback_model`); where none of them has metadata left, nothing
/// changes.
pub fn rollback_unmounts<F: Filesystem>(fs: &mut F, unmounted: &Vec<String>) -> (r: Result<()>)
    ensures
        r is Ok,
        F::follows_model() ==> rollback_model(
            old(fs).model(),
            final(fs).model(),
            unmounted.deep_view(),
        ),
        F::follows_model() && (forall|j: int|
            0 <= j < unmounted@.len() ==> !old(fs).model().mounted_overlays.contains_key(
                pkey(#[trigger] unmounted@[j]@),
            )) ==> final(fs).model() == old(fs).model(),
{
    let ghost s0 = fs.model();
    let ghost uv = unmounted.deep_view();
    proof {
        assert(uv.subrange(unmounted@.len() as int, uv.len() as int) =~= Seq::<Seq<char>>::empty());
    }
    let ghost none_left = forall|j: int|
        0 <= j < unmounted@.len() ==> !s0.mounted_overlays.contains_key(
            pkey(#[trigger] unmounted@[j]@),
        );
    let mut i: usize = unmounted.len();
    while i > 0
        invariant
            i <= unmounted@.len(),
            none_left == (forall|j: int|
                0 <= j < unmounted@.len() ==> !s0.mounted_overlays.contains_key(
                    pkey(#[trigger] unmounted@[j]@),
                )),
            F::follows_model() && none_left ==> fs.model() == s0,
            uv == unmounted.deep_view(),
            uv.len() == unmounted@.len(),
            F::follows_model() ==> rollback_model(
                s0,
                fs.model(),
                uv.subrange(i as int, uv.len() as int),
            ),
        decreases i,
    {
        i = i - 1;
        let ghost cur = fs.model();
        let ghost u = unmounted@[i as int]@;
        proof {
            assert(uv[i as int] == u);
            let rest = uv.subrange(i as int, uv.len() as int);
            assert(rest[0] == u);
            assert(rest.subrange(1, rest.len() as int) =~= uv.subrange(
                i as int + 1,
                uv.len() as int,
            ));
        }
        match fs.get_mount_info(unmounted[i].as_str()) {
            Some(info) => {
                proof {
                    if F::follows_model() && none_left {
                        assert(!s0.mounted_overlays.contains_key(pkey(unmounted@[i as int]@)));
                    }
                }
                let lowers: Vec<&str> = vec![info.lower.as_str()];
                proof {
                    assert(lowers@.map_values(|x: &str| x@) =~= seq![info.lower@]);
                }
                let _ = fs.mount_overlay(
                    lowers.as_slice(),
                    info.upper.as_str(),
                    info.work.as_str(),
                    info.target.as_str(),
                );
                proof {
                    if F::follows_model() {
                        assert(remount_attempt(cur, fs.model(), u));
                    }
                }
            },
            None => {
                proof {
                    if F::follows_model() {
                        assert(remount_attempt(cur, fs.model(), u));
                    }
                }
            },
        }
    }
    proof {
        assert(uv.subrange(0, uv.len() as int) =~= uv);
    }
    Ok(())
}

/// The mount metadata that unmounting `order` in the model finds, in
/// unmount order, for the overlays it unmounts before it stops (see
/// `unmount_sequence_model`): each one's metadata as it stands just before
/// its unmount, where it has any.
pub open spec fn unmount_captures(s: MockView, order: Seq<Seq<char>>) -> Seq<MountInfoView>
    decreases order.len(),
{
    if order.len() == 0 || s.unmount_should_fail.contains(pkey(order[0])) {
        Seq::empty()
    } else {
        let k = pkey(order[0]);
        let c = if s.mounted_overlays.contains_key(k) {
            seq![s.mounted_overlays[k]]
        } else {
            Seq::<MountInfoView>::empty()
        };
        c + unmount_captures(
            unmounted_state(unmount_requests(s, order[0]), k),
            order.subrange(1, order.len() as int),
        )
    }
}

/// Whether `info` is the record of some mount of `s`.
pub open spec fn recorded_in(s: MockView, info: MountInfoView) -> bool {
    exists|k: Seq<char>| s.mounted_overlays.contains_key(k) && s.mounted_overlays[k] == info
}

/// The metadata that unmounting finds is metadata that the state held
/// before: each record captured is the record of some mount of `s`.
pub proof fn law_captures_are_prior_records(s: MockView, order: Seq<Seq<char>>)
    ensures
        forall|i: int|
            0 <= i < unmount_captures(s, order).len() ==> recorded_in(
                s,
                #[trigger] unmount_captures(s, order)[i],
            ),
    decreases order.len(),
{
    if order.len() > 0 && !s.unmount_should_fail.contains(pkey(order[0])) {
        let k = pkey(order[0]);
        let s1 = unmounted_state(unmount_requests(s, order[0]), k);
        let rest = order.subrange(1, order.len() as int);
        law_captures_are_prior_records(s1, rest);
        let c = if s.mounted_overlays.contains_key(k) {
            seq![s.mounted_overlays[k]]
        } else {
            Seq::<MountInfoView>::empty()
        };
        let tail = unmount_captures(s1, rest);
        assert(unmount_captures(s, order) == c + tail);
        assert forall|i: int| 0 <= i < (c + tail).len() implies recorded_in(
            s,
            #[trigger] (c + tail)[i],
        ) by {
            if i < c.len() {
                assert(s.mounted_overlays[k] == (c + tail)[i]);
            } else {
                let j = i - c.len();
                assert((c + tail)[i] == tail[j]);
                assert(recorded_in(s1, tail[j]));
                let k2 = choose|k2: Seq<char>|
                    s1.mounted_overlays.contains_key(k2) && s1.mounted_overlays[k2] == tail[j];
                assert(s.mounted_overlays.contains_key(k2) && s.mounted_overlays[k2] == tail[j]);
            }
        }
    }
}

/// Mounting an overlay again from its metadata in the model, from `s` to
/// `t`, with whatever outcome `mount_overlay_model` gives.
pub open spec fn remount_from(s: MockView, t: MockView, info: MountInfoView) -> bool {
    t == mount_overlay_model(
        s,
        seq![info.lower],
        info.upper,
        info.work,
        info.target,
        mount_time(t, info.target),
    ).0
}

/// Remounting from each of `infos` in the model, the last first, from `s`
/// to `t`.
pub open spec fn remounts_model(s: MockView, t: MockView, infos: Seq<MountInfoView>) -> bool
    decreases infos.len(),
{
    if infos.len() == 0 {
        t == s
    } else {
        exists|m: MockView|
            remounts_model(s, m, infos.subrange(1, infos.len() as int)) && #[trigger] remount_from(
                m,
                t,
                infos[0],
            )
    }
}

/// Whether two mount records name the same lower, upper and work layers
/// and the same target.
pub open spec fn same_layers(a: MountInfoView, b: MountInfoView) -> bool {
    a.lower == b.lower && a.upper == b.upper && a.work == b.work && a.target == b.target
}

/// Remounting from recorded metadata brings nothing else back: every
/// overlay that is mounted after the remounts and was not before is
/// mounted at the target of one of the records, with exactly that
/// record's lower, upper and work layers (as `get_mount_info` then reads
/// them); and every overlay mounted before stays as it was.
pub proof fn law_remounts_restore_recorded_layers(
    s: MockView,
    t: MockView,
    infos: Seq<MountInfoView>,
)
    requires
        remounts_model(s, t, infos),
    ensures
        forall|k: Seq<char>|
            #![trigger t.mounted_overlays.contains_key(k)]
            t.mounted_overlays.contains_key(k) && !s.mounted_overlays.contains_key(k) ==> exists|
                i: int,
            |
                0 <= i < infos.len() && pkey(infos[i].target) == k && #[trigger] same_layers(
                    t.mounted_overlays[k],
                    infos[i],
                ),
        forall|k: Seq<char>|
            #[trigger] s.mounted_overlays.contains_key(k) ==> t.mounted_overlays.contains_key(k)
                && t.mounted_overlays[k] == s.mounted_overlays[k],
    decreases infos.len(),
{
    if infos.len() > 0 {
        let rest = infos.subrange(1, infos.len() as int);
        let m = choose|m: MockView| remounts_model(s, m, rest) && #[trigger] remount_from(
            m,
            t,
            infos[0],
        );
        law_remounts_restore_recorded_layers(s, m, rest);
        let info = infos[0];
        let k0 = pkey(info.target);
        assert forall|k: Seq<char>| #[trigger]
            m.mounted_overlays.contains_key(k) implies t.mounted_overlays.contains_key(k)
            && t.mounted_overlays[k] == m.mounted_overlays[k] by {}
        assert forall|k: Seq<char>|
            t.mounted_overlays.contains_key(k) && !s.mounted_overlays.contains_key(k) implies exists|
                i: int,
            |
                0 <= i < infos.len() && pkey(infos[i].target) == k && #[trigger] same_layers(
                    t.mounted_overlays[k],
                    infos[i],
                ) by {
            if m.mounted_overlays.contains_key(k) {
                let i = choose|i: int|
                    0 <= i < rest.len() && pkey(rest[i].target) == k && #[trigger] same_layers(
                        m.mounted_overlays[k],
                        rest[i],
                    );
                assert(rest[i] == infos[i + 1]);
                assert(same_layers(t.mounted_overlays[k], infos[i + 1]));
            } else {
                assert(k == k0);
                assert(same_layers(t.mounted_overlays[k], infos[0]));
            }
        }
    }
}

/// Mounts each overlay of `infos` again from its metadata, the last first;
/// a failed remount is skipped.
fn remount_captured<F: Filesystem>(fs: &mut F, infos: &Vec<MountInfo>)
    ensures
        F::follows_model() ==> remounts_model(old(fs).model(), final(fs).model(), infos.deep_view()),
{
    let ghost s0 = fs.model();
    let ghost iv = infos.deep_view();
    proof {
        assert(iv.subrange(infos@.len() as int, iv.len() as int) =~= Seq::<MountInfoView>::empty());
    }
    let mut i: usize = infos.len();
    while i > 0
        invariant
            i <= infos@.len(),
            iv == infos.deep_view(),
            iv.len() == infos@.len(),
            F::follows_model() ==> remounts_model(s0, fs.model(), iv.subrange(i as int, iv.len() as int)),
        decreases i,
    {
        i = i - 1;
        let ghost cur = fs.model();
        let info = &infos[i];
        proof {
            assert(iv[i as int] == info.deep_view());
            let rest = iv.subrange(i as int, iv.len() as int);
            assert(rest[0] == iv[i as int]);
            assert(rest.subrange(1, rest.len() as int) =~= iv.subrange(i as int + 1, iv.len() as int));
        }
        let lowers: Vec<&str> = vec![info.lower.as_str()];
        proof {
            assert(lowers@.map_values(|x: &str| x@) =~= seq![info.lower@]);
        }
        let _ = fs.mount_overlay(
            lowers.as_slice(),
            info.upper.as_str(),
            info.work.as_str(),
            info.target.as_str(),
        );
        proof {
            if F::follows_model() {
                assert(remount_from(cur, fs.model(), iv[i as int]));
            }
        }
    }
    proof {
        assert(iv.subrange(0, iv.len() as int) =~= iv);
    }
}

/// Unmounts overlays in reverse of the given (mount) order.  Each overlay's
/// mount metadata is read before it is unmounted; when one cannot be
/// unmounted, the ones already unmounted are mounted again from that
/// metadata, the last first, and the failing unmount's error is returned.
/// On success the result lists the overlays in the order they were
/// unmounted, which is the given list reversed.
///
/// In the model, the unmounting is `unmount_sequence_model` over the
/// reversed list, and after a failure the overlays it unmounted are mounted
/// again from the metadata it found (`unmount_captures`, `remounts_model`).
pub fn unmount_overlays<F: Filesystem>(fs: &mut F, overlays: &Vec<String>) -> (r: Result<
    Vec<String>,
>)
    ensures
        r matches Ok(v) ==> v.deep_view() == overlays.deep_view().reverse(),
        r is Err ==> overlays@.len() > 0,
        r matches Err(e) ==> exists|a: std::result::Result<(), ErrView>, b: std::result::Result<(), ErrView>|
            #[trigger] graceful_then_force(a, b) == Err::<(), ErrView>(e.deep_view()),
        F::follows_model() ==> ({
            let u = unmount_sequence_model(old(fs).model(), overlays.deep_view().reverse());
            &&& rv(r) == u.1
            &&& u.1 is Ok ==> final(fs).model() == u.0
            &&& u.1 is Err ==> remounts_model(
                u.0,
                final(fs).model(),
                unmount_captures(old(fs).model(), overlays.deep_view().reverse()),
            )
            &&& u.1 is Err ==> forall|k: Seq<char>|
                #![trigger final(fs).model().mounted_overlays.contains_key(k)]
                final(fs).model().mounted_overlays.contains_key(k)
                    && !u.0.mounted_overlays.contains_key(k) ==> exists|k2: Seq<char>|
                    old(fs).model().mounted_overlays.contains_key(k2) && pkey(
                        old(fs).model().mounted_overlays[k2].target,
                    ) == k && #[trigger] same_layers(
                        final(fs).model().mounted_overlays[k],
                        old(fs).model().mounted_overlays[k2],
                    )
        }),
{
    let ghost ov = overlays.deep_view();
    let ghost order = ov.reverse();
    let ghost s0 = fs.model();
    let ghost tracking = F::follows_model();
    assert(ov.len() == overlays@.len());
    let mut unmounted: Vec<String> = Vec::new();
    let mut captured: Vec<MountInfo> = Vec::new();
    let mut i: usize = overlays.len();
    proof {
        assert(order.skip(0) =~= order);
        assert(Seq::<Seq<char>>::empty() + Seq::<Seq<char>>::empty() =~= Seq::<Seq<char>>::empty());
        assert(captured.deep_view() =~= Seq::<MountInfoView>::empty());
        assert(Seq::<MountInfoView>::empty() + unmount_captures(s0, order) =~= unmount_captures(
            s0,
            order,
        ));
    }
    while i > 0
        invariant
            ov == overlays.deep_view(),
            order == ov.reverse(),
            ov.len() == overlays@.len(),
            i <= overlays@.len(),
            unmounted.deep_view() == order.take(overlays@.len() - i),
            tracking == F::follows_model(),
            s0 == old(fs).model(),
            tracking ==> fs.model().unmount_should_fail == s0.unmount_should_fail,
            tracking ==> unmount_sequence_model(s0, order) == ({
                let t = unmount_sequence_model(fs.model(), order.skip(overlays@.len() - i));
                (
                    t.0,
                    match t.1 {
                        Ok(v) => Ok(unmounted.deep_view() + v),
                        Err(e) => Err(e),
                    },
                )
            }),
            tracking ==> unmount_captures(s0, order) == captured.deep_view() + unmount_captures(
                fs.model(),
                order.skip(overlays@.len() - i),
            ),
        decreases i,
    {
        i = i - 1;
        let ghost cur = fs.model();
        let ghost n = overlays@.len() as int;
        let ghost k = n - 1 - i;
        proof {
            assert(order.len() == n);
            assert(order[k] == ov[i as int]);
            assert(ov[i as int] == overlays@[i as int]@);
            assert(order.skip(k).len() > 0);
            assert(order.skip(k)[0] == order[k]);
            assert(order.skip(k).subrange(1, order.skip(k).len() as int) =~= order.skip(k + 1));
            lemma_unmount_with_fallback(cur, overlays@[i as int]@);
        }
        let info = fs.get_mount_info(overlays[i].as_str());
        match unmount_single_overlay(fs, overlays[i].as_str()) {
            Ok(()) => {
                let ghost before = unmounted.deep_view();
                let ghost cbefore = captured.deep_view();
                unmounted.push(overlays[i].clone());
                match info {
                    Some(inf) => {
                        captured.push(inf);
                    },
                    None => {},
                }
                proof {
                    assert(unmounted.deep_view() =~= before.push(order[k]));
                    assert(unmounted.deep_view() =~= order.take(n - i));
                    if tracking {
                        let t2 = unmount_sequence_model(fs.model(), order.skip(k + 1));
                        match t2.1 {
                            Ok(v) => {
                                assert(before + (seq![order[k]] + v) =~= unmounted.deep_view()
                                    + v);
                            },
                            Err(e) => {},
                        }
                        let kk = pkey(order[k]);
                        let c = if cur.mounted_overlays.contains_key(kk) {
                            seq![cur.mounted_overlays[kk]]
                        } else {
                            Seq::<MountInfoView>::empty()
                        };
                        assert(captured.deep_view() =~= cbefore + c);
                        assert(cbefore + (c + unmount_captures(fs.model(), order.skip(k + 1))) =~= (
                        cbefore + c) + unmount_captures(fs.model(), order.skip(k + 1)));
                    }
                }
            },
            Err(e) => {
                proof {
                    if tracking {
                        assert(cur.unmount_should_fail.contains(pkey(order[k])));
                        assert(fs.model() == unmount_requests(cur, order[k]));
                        assert(e.deep_view() == configured_unmount_error(order[k]));
                        assert(unmount_captures(cur, order.skip(k)) =~= Seq::<MountInfoView>::empty());
                        assert(captured.deep_view() + Seq::<MountInfoView>::empty()
                            =~= captured.deep_view());
                    }
                }
                remount_captured(fs, &captured);
                proof {
                    if tracking {
                        assert(unmount_sequence_model(cur, order.skip(k)) == (
                            unmount_requests(cur, order[k]),
                            Err::<Seq<Seq<char>>, ErrView>(configured_unmount_error(order[k])),
                        ));
                        assert(rv(Err::<Vec<String>, NailsError>(e)) == Err::<
                            Seq<Seq<char>>,
                            ErrView,
                        >(configured_unmount_error(order[k])));
                        assert(unmount_sequence_model(s0, order) == (
                            unmount_requests(cur, order[k]),
                            Err::<Seq<Seq<char>>, ErrView>(configured_unmount_error(order[k])),
                        ));
                        let u0 = unmount_sequence_model(s0, order).0;
                        let caps = unmount_captures(s0, order);
                        let fin = fs.model();
                        law_remounts_restore_recorded_layers(u0, fin, caps);
                        law_captures_are_prior_records(s0, order);
                        assert forall|kk: Seq<char>|
                            #![trigger fin.mounted_overlays.contains_key(kk)]
                            fin.mounted_overlays.contains_key(kk)
                                && !u0.mounted_overlays.contains_key(kk) implies exists|k2: Seq<char>|
                            s0.mounted_overlays.contains_key(k2) && pkey(
                                s0.mounted_overlays[k2].target,
                            ) == kk && #[trigger] same_layers(
                                fin.mounted_overlays[kk],
                                s0.mounted_overlays[k2],
                            ) by {
                            let i = choose|i: int|
                                0 <= i < caps.len() && pkey(caps[i].target) == kk
                                    && #[trigger] same_layers(fin.mounted_overlays[kk], caps[i]);
                            assert(recorded_in(s0, caps[i]));
                            let k2 = choose|k2: Seq<char>|
                                s0.mounted_overlays.contains_key(k2)
                                    && s0.mounted_overlays[k2] == caps[i];
                            assert(same_layers(fin.mounted_overlays[kk], s0.mounted_overlays[k2]));
                        }
                    }
                    let (a, b) = choose|
                        a: std::result::Result<(), ErrView>,
                        b: std::result::Result<(), ErrView>,
                    | rv(Err::<(), NailsError>(e)) == #[trigger] graceful_then_force(a, b);
                    assert(graceful_then_force(a, b) == Err::<(), ErrView>(e.deep_view()));
                }
                return Err(e);
            },
        }
    }
    proof {
        if ov.len() > 0 {
            assert(ov.reverse().len() == ov.len());
        } else {
            assert(ov.reverse() =~= Seq::<Seq<char>>::empty());
        }
        assert(ov.reverse().take(overlays@.len() as int) =~= ov.reverse());
        assert(order.skip(overlays@.len() as int) =~= Seq::<Seq<char>>::empty());
        assert(unmounted.deep_view() + Seq::<Seq<char>>::empty() =~= unmounted.deep_view());
    }
    Ok(unmounted)
}

} // verus!
