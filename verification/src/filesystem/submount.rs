//! Submount discovery for overlays with several lower layers.
//!
//! The mount table (the text of `/proc/self/mountinfo`) is read by the
//! application; this module parses it and decides which mounts under a
//! target have to become extra lower layers, and from which source.
use crate::keymap::KeyMap;
use crate::path::{
    chars_of, component_range, components, comps_view, has_root, join_spec, lemma_components_of_render_plain,
    lemma_components_plain, path_components, path_eq, plain_comps, plain_name,
    path_join, path_less, path_lt, path_starts_with, render, render_components, starts_with, Comp,
    PathComponent,
};
use crate::text::has_prefix;
use vstd::prelude::*;

verus! {

/// Unicode white space (the `White_Space` property that `str::split_whitespace` uses).
pub open spec fn is_space(c: char) -> bool {
    ||| '\u{9}' <= c <= '\u{d}'
    ||| c == ' '
    ||| c == '\u{85}'
    ||| c == '\u{a0}'
    ||| c == '\u{1680}'
    ||| '\u{2000}' <= c <= '\u{200a}'
    ||| c == '\u{2028}'
    ||| c == '\u{2029}'
    ||| c == '\u{202f}'
    ||| c == '\u{205f}'
    ||| c == '\u{3000}'
}

/// The text split at every character that `sep` holds of, empty pieces included.
pub open spec fn split_by(s: Seq<char>, sep: spec_fn(char) -> bool) -> Seq<Seq<char>>
    decreases s.len(),
{
    if s.len() == 0 {
        seq![Seq::<char>::empty()]
    } else {
        let t = split_by(s.drop_last(), sep);
        if sep(s.last()) {
            t.push(Seq::<char>::empty())
        } else {
            t.update(t.len() - 1, t.last().push(s.last()))
        }
    }
}

pub proof fn lemma_split_by_nonempty(s: Seq<char>, sep: spec_fn(char) -> bool)
    ensures
        split_by(s, sep).len() >= 1,
    decreases s.len(),
{
    if s.len() > 0 {
        lemma_split_by_nonempty(s.drop_last(), sep);
    }
}

/// The pieces that are not empty.
pub open spec fn nonempty_pieces(parts: Seq<Seq<char>>) -> Seq<Seq<char>>
    decreases parts.len(),
{
    if parts.len() == 0 {
        Seq::<Seq<char>>::empty()
    } else {
        let r = nonempty_pieces(parts.drop_last());
        if parts.last().len() > 0 {
            r.push(parts.last())
        } else {
            r
        }
    }
}

/// The lines of a text (pieces between newlines).
pub open spec fn text_lines(s: Seq<char>) -> Seq<Seq<char>> {
    split_by(s, |c: char| c == '\n')
}

/// The words of a text: the runs of characters that are not white space.
pub open spec fn words(s: Seq<char>) -> Seq<Seq<char>> {
    nonempty_pieces(split_by(s, |c: char| is_space(c)))
}

/// The fields of each line of a mount table.
pub open spec fn mount_records(text: Seq<char>) -> Seq<Seq<Seq<char>>> {
    text_lines(text).map_values(|l: Seq<char>| words(l))
}

/// Whether a character is Unicode white space.
pub fn is_space_char(c: char) -> (r: bool)
    ensures
        r == is_space(c),
{
    ('\u{9}' <= c && c <= '\u{d}') || c == ' ' || c == '\u{85}' || c == '\u{a0}' || c == '\u{1680}'
        || ('\u{2000}' <= c && c <= '\u{200a}') || c == '\u{2028}' || c == '\u{2029}' || c
        == '\u{202f}' || c == '\u{205f}' || c == '\u{3000}'
}

/// The lines of a text.
pub fn split_lines(s: &str) -> (r: Vec<String>)
    ensures
        r.deep_view() == text_lines(s@),
{
    let ghost sep = |c: char| c == '\n';
    let cs = chars_of(s);
    let n = cs.len();
    let mut out: Vec<String> = Vec::new();
    let mut start: usize = 0;
    let mut i: usize = 0;
    assert(s@.take(0) =~= Seq::<char>::empty());
    assert(s@.subrange(0, 0) =~= Seq::<char>::empty());
    assert(split_by(Seq::<char>::empty(), sep) =~= out.deep_view().push(Seq::<char>::empty()));
    while i < n
        invariant
            n == cs@.len(),
            cs@ == s@,
            start <= i <= n,
            sep == (|c: char| c == '\n'),
            split_by(s@.take(i as int), sep) == out.deep_view().push(
                s@.subrange(start as int, i as int),
            ),
        decreases n - i,
    {
        let c = cs[i];
        proof {
            assert(s@.take(i as int + 1).drop_last() =~= s@.take(i as int));
            assert(s@.take(i as int + 1).last() == c);
        }
        if c == '\n' {
            let piece = String::from_str(s.substring_char(start, i));
            let ghost before = out.deep_view();
            out.push(piece);
            proof {
                assert(out.deep_view() =~= before.push(s@.subrange(start as int, i as int)));
                assert(s@.subrange(i as int + 1, i as int + 1) =~= Seq::<char>::empty());
            }
            start = i + 1;
        } else {
            proof {
                let t = split_by(s@.take(i as int), sep);
                lemma_split_by_nonempty(s@.take(i as int), sep);
                assert(s@.subrange(start as int, i as int + 1) =~= s@.subrange(
                    start as int,
                    i as int,
                ).push(c));
                assert(t.update(t.len() - 1, t.last().push(c)) =~= out.deep_view().push(
                    s@.subrange(start as int, i as int + 1),
                ));
            }
        }
        i = i + 1;
    }
    let piece = String::from_str(s.substring_char(start, n));
    let ghost before = out.deep_view();
    out.push(piece);
    proof {
        assert(s@.take(n as int) =~= s@);
        assert(out.deep_view() =~= before.push(s@.subrange(start as int, n as int)));
    }
    out
}

proof fn lemma_nonempty_step(done: Seq<Seq<char>>, part: Seq<char>)
    ensures
        nonempty_pieces(done.push(part)) == (if part.len() > 0 {
            nonempty_pieces(done).push(part)
        } else {
            nonempty_pieces(done)
        }),
{
    assert(done.push(part).drop_last() =~= done);
}

/// The words of a text (`str::split_whitespace`).
pub fn split_words(s: &str) -> (r: Vec<String>)
    ensures
        r.deep_view() == words(s@),
{
    let ghost sep = |c: char| is_space(c);
    let cs = chars_of(s);
    let n = cs.len();
    let mut out: Vec<String> = Vec::new();
    let mut start: usize = 0;
    let mut i: usize = 0;
    let ghost mut done: Seq<Seq<char>> = Seq::empty();
    assert(s@.take(0) =~= Seq::<char>::empty());
    assert(s@.subrange(0, 0) =~= Seq::<char>::empty());
    assert(split_by(Seq::<char>::empty(), sep) =~= done.push(Seq::<char>::empty()));
    while i < n
        invariant
            n == cs@.len(),
            cs@ == s@,
            start <= i <= n,
            sep == (|c: char| is_space(c)),
            split_by(s@.take(i as int), sep) == done.push(s@.subrange(start as int, i as int)),
            out.deep_view() == nonempty_pieces(done),
        decreases n - i,
    {
        let c = cs[i];
        proof {
            assert(s@.take(i as int + 1).drop_last() =~= s@.take(i as int));
            assert(s@.take(i as int + 1).last() == c);
        }
        if is_space_char(c) {
            proof {
                lemma_nonempty_step(done, s@.subrange(start as int, i as int));
            }
            if i > start {
                let piece = String::from_str(s.substring_char(start, i));
                let ghost before = out.deep_view();
                out.push(piece);
                proof {
                    assert(out.deep_view() =~= before.push(s@.subrange(start as int, i as int)));
                }
            }
            proof {
                done = done.push(s@.subrange(start as int, i as int));
                assert(s@.subrange(i as int + 1, i as int + 1) =~= Seq::<char>::empty());
            }
            start = i + 1;
        } else {
            proof {
                let t = split_by(s@.take(i as int), sep);
                lemma_split_by_nonempty(s@.take(i as int), sep);
                assert(s@.subrange(start as int, i as int + 1) =~= s@.subrange(
                    start as int,
                    i as int,
                ).push(c));
                assert(t.update(t.len() - 1, t.last().push(c)) =~= done.push(
                    s@.subrange(start as int, i as int + 1),
                ));
            }
        }
        i = i + 1;
    }
    proof {
        assert(s@.take(n as int) =~= s@);
        lemma_nonempty_step(done, s@.subrange(start as int, n as int));
    }
    if n > start {
        let piece = String::from_str(s.substring_char(start, n));
        let ghost before = out.deep_view();
        out.push(piece);
        proof {
            assert(out.deep_view() =~= before.push(s@.subrange(start as int, n as int)));
        }
    }
    out
}

/// The fields of each line of a mount table.
pub fn parse_mount_records(text: &str) -> (r: Vec<Vec<String>>)
    ensures
        r.deep_view() == mount_records(text@),
{
    let lines = split_lines(text);
    let ghost lv = lines.deep_view();
    let mut out: Vec<Vec<String>> = Vec::new();
    let mut i: usize = 0;
    while i < lines.len()
        invariant
            lv == lines.deep_view(),
            lv == text_lines(text@),
            i <= lines@.len(),
            out.deep_view() == lv.take(i as int).map_values(|l: Seq<char>| words(l)),
        decreases lines@.len() - i,
    {
        let ws = split_words(lines[i].as_str());
        let ghost before = out.deep_view();
        out.push(ws);
        proof {
            assert(lines@[i as int]@ == lv[i as int]);
            assert(out.deep_view() =~= before.push(words(lv[i as int])));
            assert(lv.take(i as int + 1).map_values(|l: Seq<char>| words(l)) =~= lv.take(
                i as int,
            ).map_values(|l: Seq<char>| words(l)).push(words(lv[i as int])));
        }
        i = i + 1;
    }
    assert(lv.take(lines@.len() as int) =~= lv);
    out
}

/// The number of components of a path.
pub open spec fn comp_count(p: Seq<char>) -> nat {
    components(p).len()
}

/// The mount point of the root of each device (records whose root field is
/// `/`), by device id; of several, the first with the fewest components.
pub open spec fn root_mounts(recs: Seq<Seq<Seq<char>>>) -> Map<Seq<char>, Seq<char>>
    decreases recs.len(),
{
    if recs.len() == 0 {
        Map::empty()
    } else {
        let m = root_mounts(recs.drop_last());
        let r = recs.last();
        if r.len() >= 5 && r[3] == "/"@ && (!m.contains_key(r[2]) || comp_count(r[4]) < comp_count(
            m[r[2]],
        )) {
            m.insert(r[2], r[4])
        } else {
            m
        }
    }
}

/// Device id and root field of the last record mounted at `target`.
pub open spec fn target_record(recs: Seq<Seq<Seq<char>>>, target: Seq<char>) -> Option<
    (Seq<char>, Seq<char>),
>
    decreases recs.len(),
{
    if recs.len() == 0 {
        None
    } else {
        let r = recs.last();
        if r.len() >= 5 && components(r[4]) == components(target) {
            Some((r[2], r[3]))
        } else {
            target_record(recs.drop_last(), target)
        }
    }
}

/// A root field without its leading `/`.
pub open spec fn strip_leading_slash(x: Seq<char>) -> Seq<char> {
    if x.len() > 0 && x[0] == '/' {
        x.skip(1)
    } else {
        x
    }
}

/// Where the content of a mount lies under the root mount of its device.
pub open spec fn under_root(root_mount: Seq<char>, fs_root: Seq<char>) -> Seq<char> {
    join_spec(root_mount, strip_leading_slash(fs_root))
}

/// The directory that backs the target: its device's root mount joined
/// with its root field.
pub open spec fn backing_root(recs: Seq<Seq<Seq<char>>>, target: Seq<char>) -> Option<Seq<char>> {
    match target_record(recs, target) {
        Some((d, fr)) => if root_mounts(recs).contains_key(d) {
            if fr == "/"@ {
                Some(root_mounts(recs)[d])
            } else {
                Some(under_root(root_mounts(recs)[d], fr))
            }
        } else {
            None
        },
        None => None,
    }
}

/// Index of the first `-` field, or -1.
pub open spec fn dash_index(r: Seq<Seq<char>>) -> int
    decreases r.len(),
{
    if r.len() == 0 {
        -1
    } else {
        let d = dash_index(r.drop_last());
        if d >= 0 {
            d
        } else if r.last() == "-"@ {
            r.len() - 1
        } else {
            -1
        }
    }
}

/// The mount source: the second field after the `-` separator.
pub open spec fn record_source(r: Seq<Seq<char>>) -> Option<Seq<char>> {
    let p = dash_index(r);
    if 0 <= p && p + 2 < r.len() {
        Some(r[p + 2])
    } else {
        None
    }
}

/// A path with the trailing components `rel` removed (the root when nothing
/// is left): the path itself when `rel` is empty, nothing when `rel` does
/// not end it.
pub open spec fn strip_suffix_opt(source: Seq<char>, rel: Seq<Comp>) -> Option<Seq<char>> {
    let sc = components(source);
    if rel.len() == 0 {
        Some(source)
    } else if rel.len() > sc.len() || sc.skip(sc.len() - rel.len()) != rel {
        None
    } else {
        let pre = render(sc.take(sc.len() - rel.len()));
        if pre.len() == 0 {
            Some("/"@)
        } else {
            Some(pre)
        }
    }
}

/// `strip_suffix_opt`, or the path itself where `rel` does not end it.
pub open spec fn strip_suffix_comps(source: Seq<char>, rel: Seq<Comp>) -> Seq<char> {
    match strip_suffix_opt(source, rel) {
        Some(p) => p,
        None => source,
    }
}

/// Stripping succeeds exactly when the part is empty or a trailing run of
/// the path's components.
pub proof fn law_strip_suffix_some_iff_trailing(source: Seq<char>, rel: Seq<Comp>)
    ensures
        strip_suffix_opt(source, rel) is Some <==> (rel.len() == 0 || (rel.len() <= components(
            source,
        ).len() && components(source).skip(components(source).len() - rel.len()) == rel)),
{
}

/// Stripping a trailing part (shorter than the path) from an absolute path
/// of plain names leaves a path that, joined with that part again, has the
/// components of the original path.
pub proof fn law_strip_suffix_rejoins(source: Seq<char>, rel: Seq<Comp>)
    requires
        has_root(source),
        forall|i: int|
            0 < i < components(source).len() ==> #[trigger] components(source)[i] is Normal,
        rel.len() < components(source).len(),
    ensures
        strip_suffix_opt(source, rel) matches Some(p) ==> components(p) + rel == components(
            source,
        ),
{
    let sc = components(source);
    if rel.len() == 0 {
        assert(components(source) + rel =~= components(source));
        return;
    }
    if sc.skip(sc.len() - rel.len()) != rel {
        return;
    }
    lemma_components_plain(source);
    let m = sc.len() - rel.len();
    let names = Seq::new((m - 1) as nat, |i: int| sc[i + 1]->Normal_0);
    assert forall|i: int| 0 <= i < names.len() implies plain_name(#[trigger] names[i]) by {
        assert(sc[i + 1] is Normal);
    }
    assert(sc.take(m) =~= seq![Comp::Root] + plain_comps(names)) by {
        assert forall|i: int| 0 <= i < m implies sc.take(m)[i] == (seq![Comp::Root] + plain_comps(
            names,
        ))[i] by {
            if i > 0 {
                assert(sc[i] is Normal);
            }
        }
    }
    lemma_components_of_render_plain(true, names);
    let pre = render(sc.take(m));
    assert(has_root(pre));
    assert(sc.take(m) + rel =~= sc);
}

/// Whether a same-device submount only shows again what the target shows:
/// its source, with the path below the target removed, is the backing root.
pub open spec fn target_equivalent(
    recs: Seq<Seq<Seq<char>>>,
    target: Seq<char>,
    dev: Seq<char>,
    mp: Seq<char>,
    sp: Seq<char>,
) -> bool {
    match (target_record(recs, target), backing_root(recs, target)) {
        (Some((td, _)), Some(b)) => td == dev && components(b) == components(
            strip_suffix_comps(sp, components(mp).skip(comp_count(target) as int)),
        ),
        _ => false,
    }
}

/// The source of a device-backed submount, resolved through the root mount
/// of its device; none for a whole-device mount, a mount backed by itself,
/// a target-equivalent one, or a device without a root mount.
pub open spec fn device_entry(
    recs: Seq<Seq<Seq<char>>>,
    target: Seq<char>,
    r: Seq<Seq<char>>,
) -> Option<(Seq<char>, Seq<char>)> {
    let m = root_mounts(recs);
    if !m.contains_key(r[2]) || r[3] == "/"@ {
        None
    } else {
        let sp = under_root(m[r[2]], r[3]);
        if components(sp) == components(r[4]) {
            None
        } else if target_equivalent(recs, target, r[2], r[4], sp) {
            None
        } else {
            Some((r[4], sp))
        }
    }
}

/// The entry a record gives: mounts strictly under the target with a path
/// source (used as it is) or a `/dev/` source (resolved); others give none.
pub open spec fn submount_entry(
    recs: Seq<Seq<Seq<char>>>,
    target: Seq<char>,
    r: Seq<Seq<char>>,
) -> Option<(Seq<char>, Seq<char>)> {
    if r.len() < 5 || !starts_with(r[4], target) || components(r[4]) == components(target) {
        None
    } else {
        match record_source(r) {
            None => None,
            Some(src) => if "/"@.is_prefix_of(src) && !"/dev/"@.is_prefix_of(src) {
                Some((r[4], src))
            } else if "/dev/"@.is_prefix_of(src) {
                device_entry(recs, target, r)
            } else {
                None
            },
        }
    }
}

/// The entries of the records `upto`, in order.
pub open spec fn collect_entries(
    recs: Seq<Seq<Seq<char>>>,
    target: Seq<char>,
    upto: Seq<Seq<Seq<char>>>,
) -> Seq<(Seq<char>, Seq<char>)>
    decreases upto.len(),
{
    if upto.len() == 0 {
        Seq::empty()
    } else {
        let rest = collect_entries(recs, target, upto.drop_last());
        match submount_entry(recs, target, upto.last()) {
            Some(e) => rest.push(e),
            None => rest,
        }
    }
}

/// Inserts an entry after every entry whose mount point does not sort after it.
pub open spec fn insert_by_mount(s: Seq<(Seq<char>, Seq<char>)>, e: (Seq<char>, Seq<char>)) -> Seq<
    (Seq<char>, Seq<char>),
>
    decreases s.len(),
{
    if s.len() == 0 {
        seq![e]
    } else if path_lt(e.0, s[0].0) {
        seq![e] + s
    } else {
        seq![s[0]] + insert_by_mount(s.drop_first(), e)
    }
}

/// Entries stably sorted by mount point in `Path` order.
pub open spec fn sort_by_mount(s: Seq<(Seq<char>, Seq<char>)>) -> Seq<(Seq<char>, Seq<char>)>
    decreases s.len(),
{
    if s.len() == 0 {
        Seq::empty()
    } else {
        insert_by_mount(sort_by_mount(s.drop_last()), s.last())
    }
}

/// The submount sources under `target` that a mount table gives, sorted by mount point.
pub open spec fn submount_sources_spec(mountinfo: Seq<char>, target: Seq<char>) -> Seq<
    (Seq<char>, Seq<char>),
> {
    let recs = mount_records(mountinfo);
    sort_by_mount(collect_entries(recs, target, recs))
}

proof fn lemma_dash_prefix(r: Seq<Seq<char>>, k: int)
    requires
        0 <= k <= r.len(),
        dash_index(r.take(k)) >= 0,
    ensures
        dash_index(r) == dash_index(r.take(k)),
    decreases r.len() - k,
{
    if k < r.len() {
        assert(r.take(k + 1).drop_last() =~= r.take(k));
        lemma_dash_prefix(r, k + 1);
    } else {
        assert(r.take(k) =~= r);
    }
}

/// Index of the first `-` field.
fn dash_position(r: &Vec<String>) -> (p: Option<usize>)
    ensures
        p matches Some(i) ==> i == dash_index(r.deep_view()) && i < r@.len(),
        p is None ==> dash_index(r.deep_view()) == -1,
{
    let ghost rv = r.deep_view();
    let dash = String::from_str("-");
    let mut i: usize = 0;
    assert(rv.take(0) =~= Seq::<Seq<char>>::empty());
    while i < r.len()
        invariant
            rv == r.deep_view(),
            dash@ == "-"@,
            i <= r@.len(),
            dash_index(rv.take(i as int)) == -1,
        decreases r@.len() - i,
    {
        assert(rv.take(i as int + 1).drop_last() =~= rv.take(i as int));
        assert(rv[i as int] == r@[i as int]@);
        if r[i].eq(&dash) {
            proof {
                lemma_dash_prefix(rv, i as int + 1);
            }
            return Some(i);
        }
        i = i + 1;
    }
    assert(rv.take(r@.len() as int) =~= rv);
    None
}

/// The root mount of each device (see `root_mounts`).
fn device_root_mounts(recs: &Vec<Vec<String>>) -> (m: KeyMap<String>)
    ensures
        m.dview() == root_mounts(recs.deep_view()),
{
    let ghost rv = recs.deep_view();
    let slash = String::from_str("/");
    let mut m: KeyMap<String> = KeyMap::new();
    let mut i: usize = 0;
    assert(rv.take(0) =~= Seq::<Seq<Seq<char>>>::empty());
    while i < recs.len()
        invariant
            rv == recs.deep_view(),
            slash@ == "/"@,
            i <= recs@.len(),
            m.dview() == root_mounts(rv.take(i as int)),
        decreases recs@.len() - i,
    {
        let r = &recs[i];
        assert(rv.take(i as int + 1).drop_last() =~= rv.take(i as int));
        assert(rv[i as int] == r.deep_view());
        if r.len() >= 5 && r[3].eq(&slash) {
            assert(r.deep_view()[3] == r@[3]@ && r.deep_view()[2] == r@[2]@ && r.deep_view()[4]
                == r@[4]@);
            let dev = r[2].as_str();
            let mp = r[4].as_str();
            let replace = match m.get(dev) {
                Some(existing) => path_components(mp).len() < path_components(existing.as_str()).len(),
                None => true,
            };
            if replace {
                m.insert(dev, String::from_str(mp));
            }
        }
        i = i + 1;
    }
    assert(rv.take(recs@.len() as int) =~= rv);
    m
}

/// Device id and root field of the last record mounted at `target`.
fn find_target_record(recs: &Vec<Vec<String>>, target: &str) -> (t: Option<(String, String)>)
    ensures
        t.deep_view() == target_record(recs.deep_view(), target@),
{
    let ghost rv = recs.deep_view();
    let mut t: Option<(String, String)> = None;
    let mut i: usize = 0;
    assert(rv.take(0) =~= Seq::<Seq<Seq<char>>>::empty());
    while i < recs.len()
        invariant
            rv == recs.deep_view(),
            i <= recs@.len(),
            t.deep_view() == target_record(rv.take(i as int), target@),
        decreases recs@.len() - i,
    {
        let r = &recs[i];
        assert(rv.take(i as int + 1).drop_last() =~= rv.take(i as int));
        assert(rv[i as int] == r.deep_view());
        if r.len() >= 5 && path_eq(r[4].as_str(), target) {
            assert(r.deep_view()[3] == r@[3]@ && r.deep_view()[2] == r@[2]@ && r.deep_view()[4]
                == r@[4]@);
            t = Some((r[2].clone(), r[3].clone()));
        } else {
            proof {
                if r@.len() >= 5 {
                    assert(r.deep_view()[4] == r@[4]@);
                }
            }
        }
        i = i + 1;
    }
    assert(rv.take(recs@.len() as int) =~= rv);
    t
}

/// A root field without its leading `/`.
fn without_leading_slash(x: &str) -> (r: String)
    ensures
        r@ == strip_leading_slash(x@),
{
    let n = x.unicode_len();
    if n > 0 && x.get_char(0) == '/' {
        String::from_str(x.substring_char(1, n))
    } else {
        String::from_str(x)
    }
}

/// Where the content of a mount lies under its device's root mount.
fn resolve_under_root(root_mount: &str, fs_root: &str) -> (r: String)
    ensures
        r@ == under_root(root_mount@, fs_root@),
{
    let rel = without_leading_slash(fs_root);
    path_join(root_mount, rel.as_str())
}

/// The directory that backs the target (see `backing_root`).
fn target_backing_root(
    recs: &Vec<Vec<String>>,
    roots: &KeyMap<String>,
    tinfo: &Option<(String, String)>,
    target: &str,
) -> (b: Option<String>)
    requires
        roots.dview() == root_mounts(recs.deep_view()),
        tinfo.deep_view() == target_record(recs.deep_view(), target@),
    ensures
        b.deep_view() == backing_root(recs.deep_view(), target@),
{
    match tinfo {
        Some((d, fr)) => match roots.get(d.as_str()) {
            Some(root) => {
                if fr.as_str().unicode_len() == 1 && fr.as_str().get_char(0) == '/' {
                    proof {
                        assert(fr@ =~= "/"@) by {
                            reveal_strlit("/");
                        }
                    }
                    Some(root.clone())
                } else {
                    proof {
                        reveal_strlit("/");
                        if fr@ == "/"@ {
                            assert(fr@.len() == 1 && fr@[0] == '/');
                        }
                    }
                    Some(resolve_under_root(root.as_str(), fr.as_str()))
                }
            },
            None => None,
        },
        None => None,
    }
}

/// A path with trailing components removed (see `strip_suffix_opt`).
fn strip_suffix_path(source: &str, rel: &Vec<PathComponent>) -> (r: Option<String>)
    ensures
        match r {
            Some(p) => strip_suffix_opt(source@, comps_view(rel@)) == Some(p@),
            None => strip_suffix_opt(source@, comps_view(rel@)) is None,
        },
{
    let sc = path_components(source);
    let ghost sv = comps_view(sc@);
    let ghost rv = comps_view(rel@);
    if rel.len() == 0 {
        return Some(String::from_str(source));
    }
    if rel.len() > sc.len() {
        return None;
    }
    let n = sc.len();
    let start = n - rel.len();
    let mut i: usize = 0;
    while i < rel.len()
        invariant
            sv == comps_view(sc@),
            sv == components(source@),
            n == sc@.len(),
            rv == comps_view(rel@),
            start + rel@.len() == sc@.len(),
            i <= rel@.len(),
            forall|j: int| 0 <= j < i ==> sv.skip(start as int)[j] == rv[j],
        decreases rel@.len() - i,
    {
        if !crate::path::component_eq(&sc[start + i], &rel[i]) {
            proof {
                assert(sv.skip(start as int)[i as int] != rv[i as int]);
            }
            return None;
        }
        i = i + 1;
    }
    assert(sv.skip(start as int) =~= rv);
    let pre = component_range(&sc, 0, start);
    assert(sv.subrange(0, start as int) =~= sv.take(start as int));
    let text = render_components(&pre);
    if text.as_str().unicode_len() == 0 {
        proof {
            reveal_strlit("/");
        }
        Some(String::from_str("/"))
    } else {
        Some(text)
    }
}

/// The entry a record gives (see `submount_entry`).
fn entry_of_record(
    recs: &Vec<Vec<String>>,
    roots: &KeyMap<String>,
    tinfo: &Option<(String, String)>,
    backing: &Option<String>,
    target: &str,
    r: &Vec<String>,
) -> (e: Option<(String, String)>)
    requires
        roots.dview() == root_mounts(recs.deep_view()),
        tinfo.deep_view() == target_record(recs.deep_view(), target@),
        backing.deep_view() == backing_root(recs.deep_view(), target@),
    ensures
        e.deep_view() == submount_entry(recs.deep_view(), target@, r.deep_view()),
{
    let ghost rv = r.deep_view();
    let ghost all = recs.deep_view();
    if r.len() < 5 {
        return None;
    }
    assert(rv[2] == r@[2]@ && rv[3] == r@[3]@ && rv[4] == r@[4]@);
    let mp = r[4].as_str();
    if !path_starts_with(mp, target) || path_eq(mp, target) {
        return None;
    }
    let src = match dash_position(r) {
        Some(p) => {
            if p < r.len() - 2 {
                assert(rv[p + 2] == r@[p + 2]@);
                r[p + 2].as_str()
            } else {
                return None;
            }
        },
        None => return None,
    };
    let is_path = has_prefix(src, "/");
    let is_dev = has_prefix(src, "/dev/");
    if is_path && !is_dev {
        return Some((String::from_str(mp), String::from_str(src)));
    }
    if !is_dev {
        return None;
    }
    let dev = r[2].as_str();
    let fr = r[3].as_str();
    let root = match roots.get(dev) {
        Some(x) => x,
        None => return None,
    };
    if fr.unicode_len() == 1 && fr.get_char(0) == '/' {
        proof {
            assert(fr@ =~= "/"@) by {
                reveal_strlit("/");
            }
        }
        return None;
    }
    proof {
        reveal_strlit("/");
        if fr@ == "/"@ {
            assert(fr@.len() == 1 && fr@[0] == '/');
        }
    }
    let sp = resolve_under_root(root.as_str(), fr);
    if path_eq(sp.as_str(), mp) {
        return None;
    }
    let same_device = match tinfo {
        Some((td, _)) => td.as_str().unicode_len() == dev.unicode_len() && has_prefix(
            dev,
            td.as_str(),
        ),
        None => false,
    };
    proof {
        if let Some((td, _)) = tinfo {
            if same_device {
                assert(td@ =~= dev@);
            }
        }
    }
    if same_device {
        match backing {
            Some(b) => {
                let mc = path_components(mp);
                let tlen = path_components(target).len();
                let rel = component_range(&mc, tlen, mc.len());
                proof {
                    assert(comps_view(mc@).subrange(tlen as int, mc@.len() as int) =~= comps_view(
                        mc@,
                    ).skip(tlen as int));
                }
                let extra = match strip_suffix_path(sp.as_str(), &rel) {
                    Some(p) => p,
                    None => String::from_str(sp.as_str()),
                };
                if path_eq(b.as_str(), extra.as_str()) {
                    return None;
                }
            },
            None => {},
        }
    }
    Some((String::from_str(mp), sp))
}

proof fn lemma_insert_at(s: Seq<(Seq<char>, Seq<char>)>, e: (Seq<char>, Seq<char>), j: int)
    requires
        0 <= j <= s.len(),
        forall|k: int| 0 <= k < j ==> !path_lt(e.0, #[trigger] s[k].0),
        j < s.len() ==> path_lt(e.0, s[j].0),
    ensures
        insert_by_mount(s, e) == s.insert(j, e),
    decreases j,
{
    if s.len() == 0 {
        assert(s.insert(j, e) =~= seq![e]);
    } else if j == 0 {
        assert(s.insert(0, e) =~= seq![e] + s);
    } else {
        assert(!path_lt(e.0, s[0].0));
        let t = s.drop_first();
        assert forall|k: int| 0 <= k < j - 1 implies !path_lt(e.0, #[trigger] t[k].0) by {
            assert(t[k] == s[k + 1]);
        }
        lemma_insert_at(t, e, j - 1);
        assert(seq![s[0]] + t.insert(j - 1, e) =~= s.insert(j, e));
    }
}

/// Entries stably sorted by mount point (see `sort_by_mount`).
fn sort_entries_by_mount(v: &Vec<(String, String)>) -> (r: Vec<(String, String)>)
    ensures
        r.deep_view() == sort_by_mount(v.deep_view()),
{
    let ghost vv = v.deep_view();
    let mut out: Vec<(String, String)> = Vec::new();
    let mut i: usize = 0;
    assert(vv.take(0) =~= Seq::<(Seq<char>, Seq<char>)>::empty());
    while i < v.len()
        invariant
            vv == v.deep_view(),
            i <= v@.len(),
            out.deep_view() == sort_by_mount(vv.take(i as int)),
        decreases v@.len() - i,
    {
        let e = (v[i].0.clone(), v[i].1.clone());
        let ghost ev = (e.0@, e.1@);
        assert(vv[i as int] == ev);
        let ghost ov = out.deep_view();
        let mut j: usize = 0;
        while j < out.len() && !path_less(e.0.as_str(), out[j].0.as_str())
            invariant
                ov == out.deep_view(),
                ev == (e.0@, e.1@),
                j <= out@.len(),
                forall|k: int| 0 <= k < j ==> !path_lt(ev.0, #[trigger] ov[k].0),
            decreases out@.len() - j,
        {
            assert(ov[j as int].0 == out@[j as int].0@);
            j = j + 1;
        }
        proof {
            if j < out@.len() {
                assert(ov[j as int].0 == out@[j as int].0@);
            }
            lemma_insert_at(ov, ev, j as int);
            assert(vv.take(i as int + 1).drop_last() =~= vv.take(i as int));
        }
        out.insert(j, e);
        assert(out.deep_view() =~= ov.insert(j as int, ev));
        i = i + 1;
    }
    assert(vv.take(v@.len() as int) =~= vv);
    out
}

/// The submount sources under `target` in a mount table (the text of
/// `/proc/self/mountinfo`), as pairs of mount point and source, sorted by
/// mount point.
///
/// A first pass finds the root mount of each device and the record of the
/// target; a second pass takes the mounts strictly under the target: a
/// path source is used as it is, a `/dev/` source is resolved through the
/// root mount of its device, and pseudo-filesystems are left out, as are
/// whole-device mounts, mounts backed by themselves and same-device mounts
/// that show again what the target shows.
pub fn parse_submount_sources(mountinfo: &str, target: &str) -> (r: Vec<(String, String)>)
    ensures
        r.deep_view() == submount_sources_spec(mountinfo@, target@),
{
    let recs = parse_mount_records(mountinfo);
    let ghost rv = recs.deep_view();
    let roots = device_root_mounts(&recs);
    let tinfo = find_target_record(&recs, target);
    let backing = target_backing_root(&recs, &roots, &tinfo, target);
    let mut found: Vec<(String, String)> = Vec::new();
    let mut i: usize = 0;
    assert(rv.take(0) =~= Seq::<Seq<Seq<char>>>::empty());
    while i < recs.len()
        invariant
            rv == recs.deep_view(),
            rv == mount_records(mountinfo@),
            roots.dview() == root_mounts(rv),
            tinfo.deep_view() == target_record(rv, target@),
            backing.deep_view() == backing_root(rv, target@),
            i <= recs@.len(),
            found.deep_view() == collect_entries(rv, target@, rv.take(i as int)),
        decreases recs@.len() - i,
    {
        let e = entry_of_record(&recs, &roots, &tinfo, &backing, target, &recs[i]);
        assert(rv.take(i as int + 1).drop_last() =~= rv.take(i as int));
        assert(rv[i as int] == recs@[i as int].deep_view());
        match e {
            Some(p) => {
                let ghost before = found.deep_view();
                found.push(p);
                assert(found.deep_view() =~= before.push(e.deep_view().unwrap()));
            },
            None => {},
        }
        i = i + 1;
    }
    assert(rv.take(recs@.len() as int) =~= rv);
    sort_entries_by_mount(&found)
}

/// Entries in `Path` order of their mount points.
pub open spec fn mounts_sorted(s: Seq<(Seq<char>, Seq<char>)>) -> bool {
    forall|a: int, b: int| 0 <= a < b < s.len() ==> !path_lt(#[trigger] s[b].0, #[trigger] s[a].0)
}

proof fn lemma_insert_by_mount(s: Seq<(Seq<char>, Seq<char>)>, e: (Seq<char>, Seq<char>))
    requires
        mounts_sorted(s),
    ensures
        mounts_sorted(insert_by_mount(s, e)),
        insert_by_mount(s, e).to_multiset() == s.to_multiset().insert(e),
    decreases s.len(),
{
    broadcast use vstd::seq_lib::group_to_multiset_ensures;

    if s.len() == 0 {
        assert(seq![e] =~= Seq::<(Seq<char>, Seq<char>)>::empty().push(e));
    } else if path_lt(e.0, s[0].0) {
        let r = seq![e] + s;
        assert(r =~= s.insert(0, e));
        vstd::seq_lib::to_multiset_insert(s, 0, e);
        assert forall|a: int, b: int| 0 <= a < b < r.len() implies !path_lt(
            #[trigger] r[b].0,
            #[trigger] r[a].0,
        ) by {
            if a == 0 {
                assert(r[b] == s[b - 1]);
                if path_lt(s[b - 1].0, e.0) {
                    crate::path::lemma_path_lt_transitive(s[b - 1].0, e.0, s[0].0);
                    if b - 1 > 0 {
                        assert(!path_lt(s[b - 1].0, s[0].0));
                    } else {
                        crate::path::lemma_comps_lt_irreflexive_path(s[0].0);
                    }
                }
            } else {
                assert(r[a] == s[a - 1] && r[b] == s[b - 1]);
            }
        }
    } else {
        let t = s.drop_first();
        assert forall|a: int, b: int| 0 <= a < b < t.len() implies !path_lt(
            #[trigger] t[b].0,
            #[trigger] t[a].0,
        ) by {
            assert(t[a] == s[a + 1] && t[b] == s[b + 1]);
        }
        lemma_insert_by_mount(t, e);
        let it = insert_by_mount(t, e);
        let r = seq![s[0]] + it;
        assert(r =~= it.insert(0, s[0]));
        vstd::seq_lib::to_multiset_insert(it, 0, s[0]);
        assert(s =~= t.insert(0, s[0]));
        vstd::seq_lib::to_multiset_insert(t, 0, s[0]);
        assert(r.to_multiset() =~= s.to_multiset().insert(e));
        assert forall|a: int, b: int| 0 <= a < b < r.len() implies !path_lt(
            #[trigger] r[b].0,
            #[trigger] r[a].0,
        ) by {
            if a == 0 {
                let x = r[b];
                assert(x == it[b - 1]);
                assert(it.contains(x));
                assert(it.to_multiset().count(x) > 0);
                if x != e {
                    assert(t.to_multiset().count(x) > 0);
                    assert(t.contains(x));
                    let k = choose|k: int| 0 <= k < t.len() && t[k] == x;
                    assert(s[k + 1] == x);
                }
            } else {
                assert(r[a] == it[a - 1] && r[b] == it[b - 1]);
            }
        }
    }
}

/// Sorting by mount point yields entries in `Path` order, and the same
/// entries (with their multiplicities).
pub proof fn law_sort_by_mount(s: Seq<(Seq<char>, Seq<char>)>)
    ensures
        mounts_sorted(sort_by_mount(s)),
        sort_by_mount(s).to_multiset() == s.to_multiset(),
    decreases s.len(),
{
    broadcast use vstd::seq_lib::group_to_multiset_ensures;

    if s.len() > 0 {
        law_sort_by_mount(s.drop_last());
        lemma_insert_by_mount(sort_by_mount(s.drop_last()), s.last());
        assert(s =~= s.drop_last().push(s.last()));
    }
}

/// Whether an entry's mount point lies strictly under the target.
pub open spec fn strictly_under(e: (Seq<char>, Seq<char>), target: Seq<char>) -> bool {
    starts_with(e.0, target) && components(e.0) != components(target)
}

/// Whether the mount point of `e` is the fifth field of one of the records
/// `recs` that has at least five fields.
pub open spec fn mount_point_recorded(e: (Seq<char>, Seq<char>), recs: Seq<Seq<Seq<char>>>) -> bool {
    exists|j: int| 0 <= j < recs.len() && (#[trigger] recs[j]).len() >= 5 && recs[j][4] == e.0
}

proof fn lemma_collected_under(
    recs: Seq<Seq<Seq<char>>>,
    target: Seq<char>,
    upto: Seq<Seq<Seq<char>>>,
)
    ensures
        forall|i: int|
            0 <= i < collect_entries(recs, target, upto).len() ==> strictly_under(
                #[trigger] collect_entries(recs, target, upto)[i],
                target,
            ),
        forall|i: int|
            0 <= i < collect_entries(recs, target, upto).len() ==> mount_point_recorded(
                #[trigger] collect_entries(recs, target, upto)[i],
                upto,
            ),
    decreases upto.len(),
{
    if upto.len() > 0 {
        lemma_collected_under(recs, target, upto.drop_last());
        let rest = collect_entries(recs, target, upto.drop_last());
        let r = upto.last();
        assert forall|i: int| 0 <= i < rest.len() implies mount_point_recorded(
            #[trigger] rest[i],
            upto,
        ) by {
            assert(mount_point_recorded(rest[i], upto.drop_last()));
            let j = choose|j: int|
                0 <= j < upto.drop_last().len() && (#[trigger] upto.drop_last()[j]).len() >= 5
                    && upto.drop_last()[j][4] == rest[i].0;
            assert(upto.drop_last()[j] == upto[j]);
        }
        match submount_entry(recs, target, r) {
            Some(e) => {
                assert(e.0 == r[4]);
                assert(collect_entries(recs, target, upto) == rest.push(e));
                assert(upto[upto.len() - 1] == r);
                assert(mount_point_recorded(e, upto));
                assert forall|i: int| 0 <= i < rest.len() + 1 implies strictly_under(
                    #[trigger] rest.push(e)[i],
                    target,
                ) && mount_point_recorded(rest.push(e)[i], upto) by {
                    if i < rest.len() {
                        assert(rest.push(e)[i] == rest[i]);
                    }
                }
            },
            None => {},
        }
    }
}

/// The submount sources of a mount table lie strictly under the target,
/// come in `Path` order of their mount points, are exactly the entries
/// that the records give, each as often as a record gives it, and each
/// mount point is the fifth field of a record with at least five fields.
pub proof fn law_submount_sources(mountinfo: Seq<char>, target: Seq<char>)
    ensures
        ({
            let recs = mount_records(mountinfo);
            let r = submount_sources_spec(mountinfo, target);
            &&& mounts_sorted(r)
            &&& r.to_multiset() == collect_entries(recs, target, recs).to_multiset()
            &&& forall|i: int| 0 <= i < r.len() ==> strictly_under(#[trigger] r[i], target)
            &&& forall|i: int| 0 <= i < r.len() ==> mount_point_recorded(#[trigger] r[i], recs)
        }),
{
    broadcast use vstd::seq_lib::group_to_multiset_ensures;

    let recs = mount_records(mountinfo);
    let c = collect_entries(recs, target, recs);
    let r = submount_sources_spec(mountinfo, target);
    law_sort_by_mount(c);
    lemma_collected_under(recs, target, recs);
    assert forall|i: int| 0 <= i < r.len() implies strictly_under(#[trigger] r[i], target) by {
        assert(r.contains(r[i]));
        assert(r.to_multiset().count(r[i]) > 0);
        assert(c.contains(r[i]));
        let k = choose|k: int| 0 <= k < c.len() && c[k] == r[i];
        assert(strictly_under(c[k], target));
    }
    assert forall|i: int| 0 <= i < r.len() implies mount_point_recorded(#[trigger] r[i], recs) by {
        assert(r.contains(r[i]));
        assert(r.to_multiset().count(r[i]) > 0);
        assert(c.contains(r[i]));
        let k = choose|k: int| 0 <= k < c.len() && c[k] == r[i];
        assert(mount_point_recorded(c[k], recs));
    }
}

} // verus!
