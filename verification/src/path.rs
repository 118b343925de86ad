//! Unix path model.
//!
//! Paths are handled as text.  Their meaning follows the component rules of
//! `std::path::Path` on Unix: a leading `/` is the root, empty parts and `.`
//! parts are dropped (except a leading `.` of a relative path), and `..` is a
//! parent reference.  Two paths are the same path when their components are
//! equal, which is how path-keyed state is compared throughout the crate.
use vstd::prelude::*;

verus! {

/// A path component (the model of `std::path::Component` on Unix).
pub enum Comp {
    Root,
    Cur,
    Parent,
    Normal(Seq<char>),
}

/// Executable path component.
pub enum PathComponent {
    RootDir,
    CurDir,
    ParentDir,
    Normal(String),
}

impl View for PathComponent {
    type V = Comp;

    open spec fn view(&self) -> Comp {
        match self {
            PathComponent::RootDir => Comp::Root,
            PathComponent::CurDir => Comp::Cur,
            PathComponent::ParentDir => Comp::Parent,
            PathComponent::Normal(s) => Comp::Normal(s@),
        }
    }
}

pub open spec fn comps_view(v: Seq<PathComponent>) -> Seq<Comp> {
    v.map_values(|c: PathComponent| c@)
}

/// The text split at every `/`, empty pieces included.
pub open spec fn split_parts(s: Seq<char>) -> Seq<Seq<char>>
    decreases s.len(),
{
    if s.len() == 0 {
        seq![Seq::<char>::empty()]
    } else {
        let t = split_parts(s.drop_last());
        if s.last() == '/' {
            t.push(Seq::<char>::empty())
        } else {
            t.update(t.len() - 1, t.last().push(s.last()))
        }
    }
}

pub proof fn lemma_split_parts_nonempty(s: Seq<char>)
    ensures
        split_parts(s).len() >= 1,
    decreases s.len(),
{
    if s.len() > 0 {
        lemma_split_parts_nonempty(s.drop_last());
    }
}

/// A piece of the text that yields a component after the first one.
pub open spec fn keep_part(p: Seq<char>) -> bool {
    p.len() > 0 && p != seq!['.']
}

pub open spec fn part_comp(p: Seq<char>) -> Comp {
    if p == seq!['.', '.'] {
        Comp::Parent
    } else {
        Comp::Normal(p)
    }
}

pub open spec fn body_comps(parts: Seq<Seq<char>>) -> Seq<Comp>
    decreases parts.len(),
{
    if parts.len() == 0 {
        Seq::<Comp>::empty()
    } else {
        let r = body_comps(parts.drop_last());
        if keep_part(parts.last()) {
            r.push(part_comp(parts.last()))
        } else {
            r
        }
    }
}

pub open spec fn has_root(s: Seq<char>) -> bool {
    s.len() > 0 && s[0] == '/'
}

pub open spec fn has_cur_prefix(s: Seq<char>) -> bool {
    !has_root(s) && s.len() > 0 && s[0] == '.' && (s.len() == 1 || s[1] == '/')
}

pub open spec fn root_prefix(s: Seq<char>) -> Seq<Comp> {
    if has_root(s) {
        seq![Comp::Root]
    } else if has_cur_prefix(s) {
        seq![Comp::Cur]
    } else {
        Seq::<Comp>::empty()
    }
}

/// The components of a path text.
pub open spec fn components(s: Seq<char>) -> Seq<Comp> {
    root_prefix(s) + body_comps(split_parts(s))
}

pub open spec fn comp_text(c: Comp) -> Seq<char> {
    match c {
        Comp::Root => seq!['/'],
        Comp::Cur => seq!['.'],
        Comp::Parent => seq!['.', '.'],
        Comp::Normal(x) => x,
    }
}

/// Component texts joined by `/`.
pub open spec fn join_texts(cs: Seq<Comp>) -> Seq<char>
    decreases cs.len(),
{
    if cs.len() == 0 {
        Seq::<char>::empty()
    } else if cs.len() == 1 {
        comp_text(cs[0])
    } else {
        join_texts(cs.drop_last()) + seq!['/'] + comp_text(cs.last())
    }
}

/// The text of a component list: `/` for a root, then the rest joined by `/`.
pub open spec fn render(cs: Seq<Comp>) -> Seq<char> {
    if cs.len() > 0 && cs[0] == Comp::Root {
        seq!['/'] + join_texts(cs.skip(1))
    } else {
        join_texts(cs)
    }
}

/// The canonical text of a path: equal for exactly the paths with equal components.
pub open spec fn normal_form(s: Seq<char>) -> Seq<char> {
    render(components(s))
}

/// `Path::starts_with`: the components of `base` are a prefix of those of `p`.
pub open spec fn starts_with(p: Seq<char>, base: Seq<char>) -> bool {
    components(base).is_prefix_of(components(p))
}

/// `Path::parent`, as canonical text.
pub open spec fn parent_of(s: Seq<char>) -> Option<Seq<char>> {
    let cs = components(s);
    if cs.len() > 0 && cs.last() != Comp::Root {
        Some(render(cs.drop_last()))
    } else {
        None
    }
}

/// `Path::file_name`.
pub open spec fn file_name_of(s: Seq<char>) -> Option<Seq<char>> {
    let cs = components(s);
    if cs.len() > 0 {
        match cs.last() {
            Comp::Normal(x) => Some(x),
            _ => None,
        }
    } else {
        None
    }
}

/// `PathBuf::push` / `Path::join` on Unix.
pub open spec fn join_spec(base: Seq<char>, rel: Seq<char>) -> Seq<char> {
    if has_root(rel) {
        rel
    } else if base.len() > 0 && base.last() != '/' {
        base + seq!['/'] + rel
    } else {
        base + rel
    }
}

/// A name that a path can hold as a normal component: not empty, without
/// `/`, and neither `.` nor `..`.
pub open spec fn plain_name(x: Seq<char>) -> bool {
    x.len() > 0 && !x.contains('/') && x != seq!['.'] && x != seq!['.', '.']
}

/// Splitting a text joined at a `/` splits each side.
pub proof fn lemma_split_parts_concat(a: Seq<char>, b: Seq<char>)
    ensures
        split_parts(a + seq!['/'] + b) == split_parts(a) + split_parts(b),
    decreases b.len(),
{
    let t = a + seq!['/'] + b;
    if b.len() == 0 {
        assert(t.drop_last() =~= a);
        assert(t.last() == '/');
        assert(split_parts(a).push(Seq::<char>::empty()) =~= split_parts(a) + split_parts(b));
    } else {
        let b1 = b.drop_last();
        lemma_split_parts_concat(a, b1);
        assert(t.drop_last() =~= a + seq!['/'] + b1);
        assert(t.last() == b.last());
        lemma_split_parts_nonempty(b1);
        let x = split_parts(a);
        let y = split_parts(b1);
        if b.last() == '/' {
            assert((x + y).push(Seq::<char>::empty()) =~= x + y.push(Seq::<char>::empty()));
        } else {
            assert((x + y).update((x + y).len() - 1, (x + y).last().push(b.last())) =~= x
                + y.update(y.len() - 1, y.last().push(b.last())));
        }
    }
}

/// A text without `/` is a single piece.
pub proof fn lemma_split_parts_single(x: Seq<char>)
    requires
        !x.contains('/'),
    ensures
        split_parts(x) == seq![x],
    decreases x.len(),
{
    if x.len() > 0 {
        let x1 = x.drop_last();
        assert(!x1.contains('/')) by {
            if x1.contains('/') {
                let i = choose|i: int| 0 <= i < x1.len() && x1[i] == '/';
                assert(x[i] == '/');
            }
        }
        lemma_split_parts_single(x1);
        assert(x.last() != '/') by {
            assert(x[x.len() - 1] == x.last());
        }
        assert(x1.push(x.last()) =~= x);
    } else {
        assert(x =~= Seq::<char>::empty());
    }
}

/// The components of consecutive pieces are those of each part.
pub proof fn lemma_body_comps_concat(p: Seq<Seq<char>>, q: Seq<Seq<char>>)
    ensures
        body_comps(p + q) == body_comps(p) + body_comps(q),
    decreases q.len(),
{
    if q.len() == 0 {
        assert(p + q =~= p);
        assert(body_comps(p) + body_comps(q) =~= body_comps(p));
    } else {
        lemma_body_comps_concat(p, q.drop_last());
        assert((p + q).drop_last() =~= p + q.drop_last());
        assert((p + q).last() == q.last());
        if keep_part(q.last()) {
            assert((body_comps(p) + body_comps(q.drop_last())).push(part_comp(q.last()))
                =~= body_comps(p) + body_comps(q.drop_last()).push(part_comp(q.last())));
        }
    }
}

/// Plain names as normal components.
pub open spec fn plain_comps(names: Seq<Seq<char>>) -> Seq<Comp> {
    names.map_values(|x: Seq<char>| Comp::Normal(x))
}

/// Pieces that are plain names are components as they are.
pub proof fn lemma_body_comps_plain(names: Seq<Seq<char>>)
    requires
        forall|i: int| 0 <= i < names.len() ==> plain_name(#[trigger] names[i]),
    ensures
        body_comps(names) == plain_comps(names),
    decreases names.len(),
{
    if names.len() > 0 {
        lemma_body_comps_plain(names.drop_last());
        assert(plain_name(names[names.len() - 1]));
        assert(plain_comps(names) =~= plain_comps(names.drop_last()).push(
            Comp::Normal(names.last()),
        ));
    } else {
        assert(plain_comps(names) =~= Seq::<Comp>::empty());
    }
}

/// Plain names joined by `/` split back into the names.
pub proof fn lemma_split_joined_names(names: Seq<Seq<char>>)
    requires
        names.len() > 0,
        forall|i: int| 0 <= i < names.len() ==> plain_name(#[trigger] names[i]),
    ensures
        split_parts(join_texts(plain_comps(names))) == names,
    decreases names.len(),
{
    let cs = plain_comps(names);
    assert(plain_name(names[names.len() - 1]));
    if names.len() == 1 {
        assert(cs[0] == Comp::Normal(names[0]));
        lemma_split_parts_single(names[0]);
        assert(seq![names[0]] =~= names);
    } else {
        let n1 = names.drop_last();
        assert(cs.drop_last() =~= plain_comps(n1));
        assert(cs.last() == Comp::Normal(names.last()));
        lemma_split_joined_names(n1);
        lemma_split_parts_concat(join_texts(plain_comps(n1)), names.last());
        lemma_split_parts_single(names.last());
        assert(n1 + seq![names.last()] =~= names);
    }
}

/// The text of plain names begins with the first name (or is empty).
pub proof fn lemma_join_names_start(names: Seq<Seq<char>>)
    requires
        names.len() > 0,
    ensures
        join_texts(plain_comps(names)).len() >= names[0].len(),
        forall|i: int|
            0 <= i < names[0].len() ==> join_texts(plain_comps(names))[i] == names[0][i],
    decreases names.len(),
{
    let cs = plain_comps(names);
    if names.len() == 1 {
        assert(cs[0] == Comp::Normal(names[0]));
    } else {
        let n1 = names.drop_last();
        assert(cs.drop_last() =~= plain_comps(n1));
        lemma_join_names_start(n1);
        assert(n1[0] == names[0]);
    }
}

proof fn lemma_body_comps_one_empty()
    ensures
        body_comps(seq![Seq::<char>::empty()]) == Seq::<Comp>::empty(),
{
    let e1 = seq![Seq::<char>::empty()];
    assert(e1.len() == 1);
    assert(e1.drop_last() =~= Seq::<Seq<char>>::empty());
    assert(e1.last() =~= Seq::<char>::empty());
    assert(!keep_part(e1.last()));
    assert(body_comps(Seq::<Seq<char>>::empty()) =~= Seq::<Comp>::empty());
}

/// The last component of `u/w`, for a piece `w` that yields one, is that
/// piece's component.
proof fn lemma_last_component_after_slash(u: Seq<char>, w: Seq<char>)
    requires
        keep_part(w),
        !w.contains('/'),
    ensures
        components(u + seq!['/'] + w).len() > 0,
        components(u + seq!['/'] + w).last() == part_comp(w),
{
    lemma_split_parts_concat(u, w);
    lemma_split_parts_single(w);
    let pu = split_parts(u);
    assert(split_parts(u + seq!['/'] + w) == pu.push(w)) by {
        assert(pu + seq![w] =~= pu.push(w));
    }
    lemma_body_step(pu, w);
    let t = u + seq!['/'] + w;
    assert(components(t) == root_prefix(t) + body_comps(pu).push(part_comp(w)));
    assert((root_prefix(t) + body_comps(pu).push(part_comp(w))).last() == part_comp(w));
}

/// A piece that yields a component, standing alone, is that component.
proof fn lemma_single_piece_components(w: Seq<char>)
    requires
        keep_part(w),
        !w.contains('/'),
    ensures
        components(w) == seq![part_comp(w)],
{
    lemma_split_parts_single(w);
    lemma_body_step(Seq::<Seq<char>>::empty(), w);
    assert(seq![w] =~= Seq::<Seq<char>>::empty().push(w));
    assert(!has_root(w)) by {
        assert(w[0] != '/') by {
            assert(!w.contains('/'));
        }
    }
    assert(!has_cur_prefix(w)) by {
        if w.len() > 1 && w[0] == '.' {
            assert(w[1] != '/') by {
                assert(!w.contains('/'));
            }
        }
        if w.len() == 1 && w[0] == '.' {
            assert(w =~= seq!['.']);
        }
    }
    assert(root_prefix(w) =~= Seq::<Comp>::empty());
    assert(components(w) =~= seq![part_comp(w)]);
}

/// A path's canonical text has the same file name as the path.
pub proof fn lemma_file_name_of_normal_form(p: Seq<char>)
    ensures
        file_name_of(normal_form(p)) == file_name_of(p),
{
    let cs = components(p);
    lemma_components_plain(p);
    let t = render(cs);
    if cs.len() == 0 {
        assert(t =~= Seq::<char>::empty());
        lemma_body_comps_one_empty();
        assert(split_parts(t) =~= seq![Seq::<char>::empty()]);
        assert(components(t) =~= Seq::<Comp>::empty());
    } else {
        let x = cs.last();
        assert(x == cs[cs.len() - 1]);
        match x {
            Comp::Root => {
                assert(cs.len() == 1);
                assert(t =~= seq!['/']);
                assert(has_root(t));
                assert(split_parts(t) =~= seq![Seq::<char>::empty(), Seq::<char>::empty()]) by {
                    assert(t.drop_last() =~= Seq::<char>::empty());
                    assert(split_parts(Seq::<char>::empty()) =~= seq![Seq::<char>::empty()]);
                }
                let e = Seq::<char>::empty();
                assert(seq![e, e] =~= seq![e].push(e));
                lemma_body_step(seq![e], e);
                lemma_body_comps_one_empty();
                assert(body_comps(split_parts(t)) =~= Seq::<Comp>::empty());
                assert(root_prefix(t) =~= seq![Comp::Root]);
                assert(components(t) =~= seq![Comp::Root]);
            },
            Comp::Cur => {
                assert(cs.len() == 1);
                assert(t =~= seq!['.']);
                assert(has_cur_prefix(t));
                lemma_split_parts_single(t);
                lemma_body_step(Seq::<Seq<char>>::empty(), t);
                assert(seq![t] =~= Seq::<Seq<char>>::empty().push(t));
                assert(components(t) =~= seq![Comp::Cur]);
            },
            _ => {
                let w = comp_text(x);
                assert(keep_part(w) && !w.contains('/') && part_comp(w) == x) by {
                    match x {
                        Comp::Normal(n) => {
                            assert(plain_name(n));
                        },
                        _ => {
                            assert(w =~= seq!['.', '.']);
                        },
                    }
                }
                if cs.len() == 1 {
                    assert(cs[0] != Comp::Root);
                    assert(t == join_texts(cs));
                    assert(t == w);
                    lemma_single_piece_components(w);
                } else if cs[0] == Comp::Root {
                    let r = cs.skip(1);
                    assert(r.last() == x);
                    if r.len() == 1 {
                        assert(join_texts(r) == w);
                        assert(t =~= Seq::<char>::empty() + seq!['/'] + w);
                        lemma_last_component_after_slash(Seq::<char>::empty(), w);
                    } else {
                        let u = seq!['/'] + join_texts(r.drop_last());
                        assert(t =~= u + seq!['/'] + w);
                        lemma_last_component_after_slash(u, w);
                    }
                } else {
                    let u = join_texts(cs.drop_last());
                    assert(t =~= u + seq!['/'] + w);
                    lemma_last_component_after_slash(u, w);
                }
            },
        }
    }
}

/// Joining a plain name gives a path whose file name is that name.
pub proof fn lemma_file_name_of_join(base: Seq<char>, name: Seq<char>)
    requires
        plain_name(name),
    ensures
        file_name_of(join_spec(base, name)) == Some(name),
{
    assert(keep_part(name) && part_comp(name) == Comp::Normal(name)) by {
        if name =~= seq!['.'] {
        }
    }
    assert(!has_root(name)) by {
        assert(name[0] != '/') by {
            assert(!name.contains('/'));
        }
    }
    if base.len() > 0 && base.last() != '/' {
        lemma_last_component_after_slash(base, name);
    } else if base.len() > 0 {
        let u = base.drop_last();
        assert(base + name =~= u + seq!['/'] + name);
        lemma_last_component_after_slash(u, name);
    } else {
        assert(base + name =~= name);
        lemma_single_piece_components(name);
    }
}

/// A root (or nothing) followed by plain names: its text has exactly these components.
pub proof fn lemma_components_of_render_plain(rooted: bool, names: Seq<Seq<char>>)
    requires
        forall|i: int| 0 <= i < names.len() ==> plain_name(#[trigger] names[i]),
    ensures
        ({
            let pre = if rooted {
                seq![Comp::Root]
            } else {
                Seq::<Comp>::empty()
            };
            let t = render(pre + plain_comps(names));
            &&& components(t) == pre + plain_comps(names)
            &&& has_root(t) == rooted
        }),
{
    let nc = plain_comps(names);
    let pre = if rooted {
        seq![Comp::Root]
    } else {
        Seq::<Comp>::empty()
    };
    let cs = pre + nc;
    let j = join_texts(nc);
    lemma_body_comps_plain(names);
    if rooted {
        assert(cs[0] == Comp::Root);
        assert(cs.skip(1) =~= nc);
        let t = seq!['/'] + j;
        assert(render(cs) == t);
        assert(t =~= Seq::<char>::empty() + seq!['/'] + j);
        lemma_split_parts_concat(Seq::<char>::empty(), j);
        if names.len() > 0 {
            lemma_split_joined_names(names);
            lemma_body_comps_concat(seq![Seq::<char>::empty()], names);
            lemma_body_comps_one_empty();
            assert(split_parts(Seq::<char>::empty()) + names =~= seq![Seq::<char>::empty()] + names);
        } else {
            assert(nc =~= Seq::<Comp>::empty());
            assert(j =~= Seq::<char>::empty());
            let two = seq![Seq::<char>::empty(), Seq::<char>::empty()];
            assert(split_parts(Seq::<char>::empty()) + split_parts(Seq::<char>::empty()) =~= two);
            assert(two.drop_last() =~= seq![Seq::<char>::empty()]);
            assert(two.last() =~= Seq::<char>::empty());
            lemma_body_comps_one_empty();
        }
        assert(has_root(t));
        assert(root_prefix(t) =~= seq![Comp::Root]);
        assert(components(t) =~= cs);
    } else {
        assert(cs =~= nc);
        if names.len() > 0 {
            assert(nc.len() > 0 && nc[0] == Comp::Normal(names[0]));
            assert(render(cs) == j);
            lemma_split_joined_names(names);
            lemma_join_names_start(names);
            assert(plain_name(names[0]));
            assert(j[0] == names[0][0]);
            assert(names[0][0] != '/') by {
                assert(!names[0].contains('/'));
            }
            assert(!has_cur_prefix(j)) by {
                if has_cur_prefix(j) {
                    if names[0].len() == 1 {
                        assert(names[0] =~= seq!['.']);
                    } else {
                        assert(j[1] == names[0][1]);
                        assert(names[0].contains('/'));
                    }
                }
            }
            assert(root_prefix(j) =~= Seq::<Comp>::empty());
            assert(components(j) =~= body_comps(names));
        } else {
            assert(nc =~= Seq::<Comp>::empty());
            assert(render(cs) =~= Seq::<char>::empty());
            lemma_body_comps_one_empty();
            assert(split_parts(Seq::<char>::empty()) =~= seq![Seq::<char>::empty()]);
            assert(components(Seq::<char>::empty()) =~= Seq::<Comp>::empty());
        }
    }
}

/// The pieces of a text hold no `/`.
proof fn lemma_split_parts_pieces(s: Seq<char>)
    ensures
        forall|i: int| 0 <= i < split_parts(s).len() ==> !(#[trigger] split_parts(s)[i]).contains('/'),
    decreases s.len(),
{
    if s.len() > 0 {
        lemma_split_parts_pieces(s.drop_last());
        lemma_split_parts_nonempty(s.drop_last());
        let t = split_parts(s.drop_last());
        if s.last() != '/' {
            let last = t.last().push(s.last());
            assert(!last.contains('/')) by {
                if last.contains('/') {
                    let k = choose|k: int| 0 <= k < last.len() && last[k] == '/';
                    if k < t.last().len() {
                        assert(t[t.len() - 1][k] == '/');
                        assert(t[t.len() - 1].contains('/'));
                    }
                }
            }
            assert forall|i: int| 0 <= i < split_parts(s).len() implies !(
            #[trigger] split_parts(s)[i]).contains('/') by {
                if i < t.len() - 1 {
                    assert(split_parts(s)[i] == t[i]);
                }
            }
        } else {
            assert forall|i: int| 0 <= i < split_parts(s).len() implies !(
            #[trigger] split_parts(s)[i]).contains('/') by {
                if i < t.len() {
                    assert(split_parts(s)[i] == t[i]);
                } else {
                    assert(split_parts(s)[i] =~= Seq::<char>::empty());
                }
            }
        }
    } else {
        assert forall|i: int| 0 <= i < split_parts(s).len() implies !(
        #[trigger] split_parts(s)[i]).contains('/') by {
            assert(split_parts(s)[i] =~= Seq::<char>::empty());
        }
    }
}

proof fn lemma_body_comps_names(parts: Seq<Seq<char>>)
    requires
        forall|i: int| 0 <= i < parts.len() ==> !(#[trigger] parts[i]).contains('/'),
    ensures
        forall|i: int|
            0 <= i < body_comps(parts).len() ==> (#[trigger] body_comps(parts)[i] matches Comp::Normal(
                x,
            ) ==> plain_name(x)) && body_comps(parts)[i] != Comp::Root && body_comps(parts)[i]
                != Comp::Cur,
    decreases parts.len(),
{
    if parts.len() > 0 {
        let p1 = parts.drop_last();
        assert forall|i: int| 0 <= i < p1.len() implies !(#[trigger] p1[i]).contains('/') by {
            assert(p1[i] == parts[i]);
        }
        lemma_body_comps_names(p1);
        assert(!parts[parts.len() - 1].contains('/'));
    }
}

/// Every normal component of a path is a plain name, and only the first
/// component can be a root or `.`.
pub proof fn lemma_components_plain(s: Seq<char>)
    ensures
        forall|i: int|
            0 <= i < components(s).len() ==> (#[trigger] components(s)[i] matches Comp::Normal(
                x,
            ) ==> plain_name(x)),
        forall|i: int|
            0 < i < components(s).len() ==> #[trigger] components(s)[i] != Comp::Root
                && components(s)[i] != Comp::Cur,
        components(s).len() > 0 && components(s)[0] == Comp::Root <==> has_root(s),
{
    lemma_split_parts_pieces(s);
    lemma_body_comps_names(split_parts(s));
    let b = body_comps(split_parts(s));
    let pre = root_prefix(s);
    assert forall|i: int| 0 <= i < components(s).len() implies (
    #[trigger] components(s)[i] matches Comp::Normal(x) ==> plain_name(x)) by {
        if i >= pre.len() {
            assert(components(s)[i] == b[i - pre.len()]);
        }
    }
    assert forall|i: int| 0 < i < components(s).len() implies #[trigger] components(s)[i]
        != Comp::Root && components(s)[i] != Comp::Cur by {
        assert(components(s)[i] == b[i - pre.len()]);
    }
    if !has_root(s) && components(s).len() > 0 {
        if pre.len() == 0 {
            assert(components(s)[0] == b[0]);
        }
    }
}

/// The characters of a string.
pub fn chars_of(s: &str) -> (r: Vec<char>)
    ensures
        r@ == s@,
{
    let n = s.unicode_len();
    let mut r: Vec<char> = Vec::new();
    let mut i: usize = 0;
    while i < n
        invariant
            n == s@.len(),
            i <= n,
            r@ == s@.take(i as int),
        decreases n - i,
    {
        let c = s.get_char(i);
        r.push(c);
        proof {
            assert(s@.take(i as int + 1) =~= s@.take(i as int).push(c));
        }
        i = i + 1;
    }
    proof {
        assert(s@.take(n as int) =~= s@);
    }
    r
}

proof fn lemma_body_step(done: Seq<Seq<char>>, part: Seq<char>)
    ensures
        body_comps(done.push(part)) == (if keep_part(part) {
            body_comps(done).push(part_comp(part))
        } else {
            body_comps(done)
        }),
{
    assert(done.push(part).drop_last() =~= done);
}

/// Builds the component for the piece `s[start..end]`, if it yields one.
fn piece_component(s: &str, cs: &Vec<char>, start: usize, end: usize) -> (r: Option<PathComponent>)
    requires
        cs@ == s@,
        start <= end <= cs@.len(),
    ensures
        keep_part(s@.subrange(start as int, end as int)) <==> r is Some,
        r matches Some(c) ==> c@ == part_comp(s@.subrange(start as int, end as int)),
{
    let ghost p = s@.subrange(start as int, end as int);
    if end == start {
        return None;
    }
    if end - start == 1 && cs[start] == '.' {
        assert(p =~= seq!['.']);
        return None;
    }
    if end - start == 2 && cs[start] == '.' && cs[start + 1] == '.' {
        assert(p =~= seq!['.', '.']);
        return Some(PathComponent::ParentDir);
    }
    assert(p != seq!['.']) by {
        if p == seq!['.'] {
            assert(p.len() == 1 && p[0] == '.');
        }
    }
    assert(p != seq!['.', '.']) by {
        if p == seq!['.', '.'] {
            assert(p.len() == 2 && p[0] == '.' && p[1] == '.');
        }
    }
    let text = s.substring_char(start, end);
    Some(PathComponent::Normal(String::from_str(text)))
}

/// `Path::components` on Unix.
pub fn path_components(s: &str) -> (r: Vec<PathComponent>)
    ensures
        comps_view(r@) == components(s@),
{
    let cs = chars_of(s);
    let n = cs.len();
    let mut out: Vec<PathComponent> = Vec::new();
    if n > 0 && cs[0] == '/' {
        out.push(PathComponent::RootDir);
    } else if n > 0 && cs[0] == '.' && (n == 1 || cs[1] == '/') {
        out.push(PathComponent::CurDir);
    }
    let ghost pre = comps_view(out@);
    assert(pre =~= root_prefix(s@));
    let mut start: usize = 0;
    let mut i: usize = 0;
    let ghost mut done: Seq<Seq<char>> = Seq::empty();
    assert(s@.take(0) =~= Seq::<char>::empty());
    assert(s@.subrange(0, 0) =~= Seq::<char>::empty());
    assert(split_parts(Seq::<char>::empty()) =~= done.push(Seq::<char>::empty()));
    while i < n
        invariant
            n == cs@.len(),
            cs@ == s@,
            start <= i <= n,
            split_parts(s@.take(i as int)) == done.push(s@.subrange(start as int, i as int)),
            comps_view(out@) == pre + body_comps(done),
            pre == root_prefix(s@),
        decreases n - i,
    {
        let c = cs[i];
        proof {
            assert(s@.take(i as int + 1).drop_last() =~= s@.take(i as int));
            assert(s@.take(i as int + 1).last() == c);
        }
        if c == '/' {
            let piece = piece_component(s, &cs, start, i);
            proof {
                lemma_body_step(done, s@.subrange(start as int, i as int));
            }
            match piece {
                Some(pc) => {
                    let ghost before = out@;
                    out.push(pc);
                    proof {
                        assert(comps_view(out@) =~= comps_view(before).push(pc@));
                    }
                },
                None => {},
            }
            proof {
                done = done.push(s@.subrange(start as int, i as int));
                assert(s@.subrange(i as int + 1, i as int + 1) =~= Seq::<char>::empty());
            }
            start = i + 1;
        } else {
            proof {
                let t = split_parts(s@.take(i as int));
                lemma_split_parts_nonempty(s@.take(i as int));
                assert(s@.subrange(start as int, i as int + 1) =~= s@.subrange(
                    start as int,
                    i as int,
                ).push(c));
                assert(t.update(t.len() - 1, t.last().push(c)) =~= done.push(
                    s@.subrange(start as int, i as int + 1),
                ));
            }
        }
        i = i + 1;
    }
    let piece = piece_component(s, &cs, start, n);
    proof {
        assert(s@.take(n as int) =~= s@);
        lemma_body_step(done, s@.subrange(start as int, n as int));
    }
    match piece {
        Some(pc) => {
            let ghost before = out@;
            out.push(pc);
            proof {
                assert(comps_view(out@) =~= comps_view(before).push(pc@));
            }
        },
        None => {},
    }
    out
}

/// Equality of two components.
pub fn component_eq(a: &PathComponent, b: &PathComponent) -> (r: bool)
    ensures
        r == (a@ == b@),
{
    match (a, b) {
        (PathComponent::RootDir, PathComponent::RootDir) => true,
        (PathComponent::CurDir, PathComponent::CurDir) => true,
        (PathComponent::ParentDir, PathComponent::ParentDir) => true,
        (PathComponent::Normal(x), PathComponent::Normal(y)) => {
            let e = x.eq(y);
            proof {
                if e {
                    assert(a@ == Comp::Normal(x@));
                }
            }
            e
        },
        _ => false,
    }
}

/// Whether the component list `prefix` begins the list `full`.
pub fn components_prefix(prefix: &Vec<PathComponent>, full: &Vec<PathComponent>) -> (r: bool)
    ensures
        r == comps_view(prefix@).is_prefix_of(comps_view(full@)),
{
    if prefix.len() > full.len() {
        return false;
    }
    let mut i: usize = 0;
    while i < prefix.len()
        invariant
            prefix.len() <= full.len(),
            i <= prefix.len(),
            forall|j: int| 0 <= j < i ==> comps_view(prefix@)[j] == comps_view(full@)[j],
        decreases prefix.len() - i,
    {
        if !component_eq(&prefix[i], &full[i]) {
            assert(comps_view(prefix@)[i as int] != comps_view(full@)[i as int]);
            return false;
        }
        i = i + 1;
    }
    true
}

/// A copy of a path component.
pub fn dup_component(c: &PathComponent) -> (r: PathComponent)
    ensures
        r@ == c@,
{
    match c {
        PathComponent::RootDir => PathComponent::RootDir,
        PathComponent::CurDir => PathComponent::CurDir,
        PathComponent::ParentDir => PathComponent::ParentDir,
        PathComponent::Normal(x) => PathComponent::Normal(x.clone()),
    }
}

/// The components from index `from` up to (not including) `to`.
pub fn component_range(cs: &Vec<PathComponent>, from: usize, to: usize) -> (r: Vec<
    PathComponent,
>)
    requires
        from <= to <= cs@.len(),
    ensures
        comps_view(r@) == comps_view(cs@).subrange(from as int, to as int),
{
    let mut r: Vec<PathComponent> = Vec::new();
    let mut i: usize = from;
    while i < to
        invariant
            from <= i <= to <= cs@.len(),
            r@.len() == i - from,
            forall|j: int| 0 <= j < r@.len() ==> (#[trigger] r@[j])@ == cs@[j + from]@,
        decreases to - i,
    {
        r.push(dup_component(&cs[i]));
        i = i + 1;
    }
    assert(comps_view(r@) =~= comps_view(cs@).subrange(from as int, to as int));
    r
}

/// `Path::starts_with`.
pub fn path_starts_with(p: &str, base: &str) -> (r: bool)
    ensures
        r == starts_with(p@, base@),
{
    let pc = path_components(p);
    let bc = path_components(base);
    components_prefix(&bc, &pc)
}

/// Whether two texts name the same path.
pub fn path_eq(a: &str, b: &str) -> (r: bool)
    ensures
        r == (components(a@) == components(b@)),
{
    let ac = path_components(a);
    let bc = path_components(b);
    if ac.len() != bc.len() {
        return false;
    }
    let r = components_prefix(&ac, &bc);
    proof {
        if r {
            assert(components(a@) =~= components(b@));
        }
    }
    r
}

fn append_comp_text(out: &mut String, c: &PathComponent)
    ensures
        final(out)@ == old(out)@ + comp_text(c@),
{
    match c {
        PathComponent::RootDir => {
            proof { reveal_strlit("/"); }
            out.append("/");
        },
        PathComponent::CurDir => {
            proof { reveal_strlit("."); }
            out.append(".");
        },
        PathComponent::ParentDir => {
            proof { reveal_strlit(".."); }
            out.append("..");
        },
        PathComponent::Normal(x) => {
            out.append(x.as_str());
        },
    }
}

/// The text of a component list.
pub fn render_components(cs: &Vec<PathComponent>) -> (r: String)
    ensures
        r@ == render(comps_view(cs@)),
{
    let ghost v = comps_view(cs@);
    let mut out = String::new();
    let n = cs.len();
    let mut start: usize = 0;
    if n > 0 {
        if let PathComponent::RootDir = &cs[0] {
            proof { reveal_strlit("/"); }
            out.append("/");
            start = 1;
        }
    }
    let ghost pre = out@;
    assert(v.subrange(start as int, start as int) =~= Seq::<Comp>::empty());
    let mut j: usize = start;
    while j < n
        invariant
            n == cs@.len(),
            v == comps_view(cs@),
            start <= j <= n,
            start <= 1,
            out@ == pre + join_texts(v.subrange(start as int, j as int)),
        decreases n - j,
    {
        assert(v.subrange(start as int, j as int + 1).drop_last() =~= v.subrange(
            start as int,
            j as int,
        ));
        if j > start {
            proof { reveal_strlit("/"); }
            out.append("/");
        }
        append_comp_text(&mut out, &cs[j]);
        proof {
            if j == start {
                assert(v.subrange(start as int, j as int) =~= Seq::<Comp>::empty());
            }
        }
        j = j + 1;
    }
    proof {
        if n > 0 && v[0] == Comp::Root {
            assert(v.subrange(1, n as int) =~= v.skip(1));
        } else {
            assert(v.subrange(0, n as int) =~= v);
        }
    }
    out
}

/// The canonical text of a path (components rendered with single separators).
pub fn normalize_path(p: &str) -> (r: String)
    ensures
        r@ == normal_form(p@),
{
    let cs = path_components(p);
    render_components(&cs)
}

/// `Path::parent`, as canonical text.
pub fn path_parent(p: &str) -> (r: Option<String>)
    ensures
        r matches Some(x) ==> parent_of(p@) == Some(x@),
        r is None ==> parent_of(p@) is None,
{
    let mut cs = path_components(p);
    let n = cs.len();
    if n == 0 {
        return None;
    }
    if let PathComponent::RootDir = &cs[n - 1] {
        return None;
    }
    let ghost before = cs@;
    cs.pop();
    proof {
        assert(comps_view(cs@) =~= comps_view(before).drop_last());
    }
    Some(render_components(&cs))
}

/// `Path::file_name`.
pub fn path_file_name(p: &str) -> (r: Option<String>)
    ensures
        r matches Some(x) ==> file_name_of(p@) == Some(x@),
        r is None ==> file_name_of(p@) is None,
{
    let cs = path_components(p);
    let n = cs.len();
    if n == 0 {
        return None;
    }
    match &cs[n - 1] {
        PathComponent::Normal(x) => Some(x.clone()),
        _ => None,
    }
}

/// `Path::join` on Unix.
pub fn path_join(base: &str, rel: &str) -> (r: String)
    ensures
        r@ == join_spec(base@, rel@),
{
    let rc = chars_of(rel);
    if rc.len() > 0 && rc[0] == '/' {
        return String::from_str(rel);
    }
    let bc = chars_of(base);
    let mut out = String::from_str(base);
    if bc.len() > 0 && bc[bc.len() - 1] != '/' {
        proof { reveal_strlit("/"); }
        out.append("/");
    }
    out.append(rel);
    out
}

/// Order of component kinds (`std::path::Component`'s derived order on Unix).
pub open spec fn comp_rank(c: Comp) -> int {
    match c {
        Comp::Root => 1,
        Comp::Cur => 2,
        Comp::Parent => 3,
        Comp::Normal(_) => 4,
    }
}

/// Strict lexicographic order of texts by code point (the order of their UTF-8 bytes).
pub open spec fn chars_lt(a: Seq<char>, b: Seq<char>) -> bool
    decreases a.len(),
{
    if a.len() == 0 {
        b.len() > 0
    } else if b.len() == 0 {
        false
    } else if a[0] != b[0] {
        (a[0] as u32) < (b[0] as u32)
    } else {
        chars_lt(a.drop_first(), b.drop_first())
    }
}

/// Strict order of components.
pub open spec fn comp_lt(a: Comp, b: Comp) -> bool {
    if comp_rank(a) != comp_rank(b) {
        comp_rank(a) < comp_rank(b)
    } else {
        match (a, b) {
            (Comp::Normal(x), Comp::Normal(y)) => chars_lt(x, y),
            _ => false,
        }
    }
}

/// Strict lexicographic order of component lists.
pub open spec fn comps_lt(a: Seq<Comp>, b: Seq<Comp>) -> bool
    decreases a.len(),
{
    if a.len() == 0 {
        b.len() > 0
    } else if b.len() == 0 {
        false
    } else if a[0] != b[0] {
        comp_lt(a[0], b[0])
    } else {
        comps_lt(a.drop_first(), b.drop_first())
    }
}

/// `Path` ordering: `a < b` by components.
pub open spec fn path_lt(a: Seq<char>, b: Seq<char>) -> bool {
    comps_lt(components(a), components(b))
}

pub proof fn lemma_chars_lt_transitive(a: Seq<char>, b: Seq<char>, c: Seq<char>)
    requires
        chars_lt(a, b),
        chars_lt(b, c),
    ensures
        chars_lt(a, c),
    decreases a.len(),
{
    if a.len() > 0 && b.len() > 0 && c.len() > 0 && a[0] == b[0] && b[0] == c[0] {
        lemma_chars_lt_transitive(a.drop_first(), b.drop_first(), c.drop_first());
    }
}

pub proof fn lemma_chars_lt_irreflexive(a: Seq<char>)
    ensures
        !chars_lt(a, a),
    decreases a.len(),
{
    if a.len() > 0 {
        lemma_chars_lt_irreflexive(a.drop_first());
    }
}

pub proof fn lemma_comp_lt_transitive(a: Comp, b: Comp, c: Comp)
    requires
        comp_lt(a, b),
        comp_lt(b, c),
    ensures
        comp_lt(a, c),
{
    if let (Comp::Normal(x), Comp::Normal(y), Comp::Normal(z)) = (a, b, c) {
        if chars_lt(x, y) && chars_lt(y, z) {
            lemma_chars_lt_transitive(x, y, z);
        }
    }
}

pub proof fn lemma_comp_lt_irreflexive(a: Comp)
    ensures
        !comp_lt(a, a),
{
    if let Comp::Normal(x) = a {
        lemma_chars_lt_irreflexive(x);
    }
}

pub proof fn lemma_comps_lt_transitive(a: Seq<Comp>, b: Seq<Comp>, c: Seq<Comp>)
    requires
        comps_lt(a, b),
        comps_lt(b, c),
    ensures
        comps_lt(a, c),
    decreases a.len(),
{
    if a.len() > 0 && b.len() > 0 && c.len() > 0 {
        if a[0] == b[0] && b[0] == c[0] {
            lemma_comps_lt_transitive(a.drop_first(), b.drop_first(), c.drop_first());
        } else if a[0] != b[0] && b[0] != c[0] {
            lemma_comp_lt_transitive(a[0], b[0], c[0]);
            if a[0] == c[0] {
                lemma_comp_lt_irreflexive(a[0]);
            }
        }
    }
}

pub proof fn lemma_comps_lt_irreflexive(a: Seq<Comp>)
    ensures
        !comps_lt(a, a),
    decreases a.len(),
{
    if a.len() > 0 {
        lemma_comps_lt_irreflexive(a.drop_first());
    }
}

pub proof fn lemma_comps_lt_irreflexive_path(a: Seq<char>)
    ensures
        !path_lt(a, a),
{
    lemma_comps_lt_irreflexive(components(a));
}

pub proof fn lemma_path_lt_transitive(a: Seq<char>, b: Seq<char>, c: Seq<char>)
    requires
        path_lt(a, b),
        path_lt(b, c),
    ensures
        path_lt(a, c),
{
    lemma_comps_lt_transitive(components(a), components(b), components(c));
}

fn chars_less(a: &Vec<char>, b: &Vec<char>) -> (r: bool)
    ensures
        r == chars_lt(a@, b@),
{
    let mut i: usize = 0;
    assert(a@.skip(0) =~= a@);
    assert(b@.skip(0) =~= b@);
    while i < a.len() && i < b.len()
        invariant
            i <= a@.len(),
            i <= b@.len(),
            a@.take(i as int) == b@.take(i as int),
            chars_lt(a@, b@) == chars_lt(a@.skip(i as int), b@.skip(i as int)),
        decreases a@.len() - i,
    {
        let ca = a[i];
        let cb = b[i];
        proof {
            let sa = a@.skip(i as int);
            let sb = b@.skip(i as int);
            assert(sa[0] == ca && sb[0] == cb);
            assert(sa.drop_first() =~= a@.skip(i as int + 1));
            assert(sb.drop_first() =~= b@.skip(i as int + 1));
        }
        if ca != cb {
            return (ca as u32) < (cb as u32);
        }
        proof {
            assert(a@.take(i as int + 1) =~= a@.take(i as int).push(ca));
            assert(b@.take(i as int + 1) =~= b@.take(i as int).push(cb));
        }
        i = i + 1;
    }
    proof {
        assert(a@.skip(i as int).len() == 0 || b@.skip(i as int).len() == 0);
    }
    i < b.len()
}

fn component_less(a: &PathComponent, b: &PathComponent) -> (r: bool)
    ensures
        r == comp_lt(a@, b@),
{
    let ra: u8 = match a {
        PathComponent::RootDir => 1,
        PathComponent::CurDir => 2,
        PathComponent::ParentDir => 3,
        PathComponent::Normal(_) => 4,
    };
    let rb: u8 = match b {
        PathComponent::RootDir => 1,
        PathComponent::CurDir => 2,
        PathComponent::ParentDir => 3,
        PathComponent::Normal(_) => 4,
    };
    if ra != rb {
        return ra < rb;
    }
    match (a, b) {
        (PathComponent::Normal(x), PathComponent::Normal(y)) => {
            let xc = chars_of(x.as_str());
            let yc = chars_of(y.as_str());
            chars_less(&xc, &yc)
        },
        _ => false,
    }
}

/// Whether `a` sorts before `b` in `Path` order (by components).
pub fn path_less(a: &str, b: &str) -> (r: bool)
    ensures
        r == path_lt(a@, b@),
{
    let ac = path_components(a);
    let bc = path_components(b);
    let ghost av = comps_view(ac@);
    let ghost bv = comps_view(bc@);
    let mut i: usize = 0;
    assert(av.skip(0) =~= av);
    assert(bv.skip(0) =~= bv);
    while i < ac.len() && i < bc.len()
        invariant
            av == comps_view(ac@),
            bv == comps_view(bc@),
            av == components(a@),
            bv == components(b@),
            i <= ac@.len(),
            i <= bc@.len(),
            comps_lt(av, bv) == comps_lt(av.skip(i as int), bv.skip(i as int)),
        decreases ac@.len() - i,
    {
        let eq = component_eq(&ac[i], &bc[i]);
        proof {
            let sa = av.skip(i as int);
            let sb = bv.skip(i as int);
            assert(sa[0] == ac@[i as int]@ && sb[0] == bc@[i as int]@);
            assert(sa.drop_first() =~= av.skip(i as int + 1));
            assert(sb.drop_first() =~= bv.skip(i as int + 1));
        }
        if !eq {
            return component_less(&ac[i], &bc[i]);
        }
        i = i + 1;
    }
    proof {
        assert(av.skip(i as int).len() == 0 || bv.skip(i as int).len() == 0);
    }
    i < bc.len()
}

} // verus!
