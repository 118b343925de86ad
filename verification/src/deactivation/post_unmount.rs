//! Cleaning shell history on the real disk once the overlays are unmounted.
//!
//! Lines of a history file that mention one of the cleanup patterns (in
//! any case) are removed; the file is securely deleted and written back
//! with the remaining lines.
use crate::deactivation::PostUnmountCleanupReport;
use crate::error::{concat, err_message, rv, ErrView, NailsError, Result};
use crate::filesystem::submount::{split_lines, text_lines};
use crate::filesystem::tables::{
    ascii_lower_char, ascii_text, lower_text, name_matches_pattern, text_contains,
};
use crate::filesystem::mock::{exists_at, pkey, read_file_model, MockOpView, secure_delete_model, write_file_model, MockView};
use crate::filesystem::Filesystem;
use crate::text::{append_decimal, decimal, join_with, joined};
use vstd::prelude::*;

verus! {

/// A line without the `\r` of a `\r\n` ending.
pub open spec fn strip_cr(l: Seq<char>) -> Seq<char> {
    if l.len() > 0 && l.last() == '\r' {
        l.drop_last()
    } else {
        l
    }
}

/// The lines of a text as `str::lines` gives them: split at `\n`, a `\r`
/// before a `\n` removed, and no empty last line after a final `\n`.
pub open spec fn std_lines(s: Seq<char>) -> Seq<Seq<char>> {
    let p = text_lines(s);
    let body = p.drop_last().map_values(|l: Seq<char>| strip_cr(l));
    if p.last().len() == 0 {
        body
    } else {
        body.push(p.last())
    }
}

/// Whether a line mentions one of the patterns, case taken away.
pub open spec fn line_matches(line: Seq<char>, patterns: Seq<Seq<char>>) -> bool {
    exists|j: int|
        0 <= j < patterns.len() && text_contains(
            lower_text(line),
            lower_text(#[trigger] patterns[j]),
        )
}

/// The lines that mention none of the patterns, in order.
pub open spec fn kept_lines(lines: Seq<Seq<char>>, patterns: Seq<Seq<char>>) -> Seq<Seq<char>> {
    lines.filter(|l: Seq<char>| !line_matches(l, patterns))
}

/// The text a cleaned history file is written back with: the kept lines,
/// each ended by `\n`, or nothing when they join to an empty text.
pub open spec fn cleaned_content(kept: Seq<Seq<char>>) -> Seq<char> {
    let j = joined(kept, "\n"@);
    if j.len() == 0 {
        Seq::empty()
    } else {
        j + "\n"@
    }
}

/// The report line for a cleaned history file.
pub open spec fn cleaned_message(removed: nat, path: Seq<char>) -> Seq<char> {
    "Removed "@ + decimal(removed) + " entries from "@ + path + " (secure delete)"@
}

/// How cleaning one history file ends for the filesystem's answers: its
/// content, then (when lines were removed) writing it back.  The secure
/// deletion in between may fail without effect on the outcome.
pub open spec fn history_clean_outcome(
    path: Seq<char>,
    patterns: Seq<Seq<char>>,
    content: std::result::Result<Seq<char>, ErrView>,
    written: std::result::Result<(), ErrView>,
) -> std::result::Result<Option<Seq<char>>, ErrView> {
    match content {
        Err(e) => Err(e),
        Ok(c) => {
            let lines = std_lines(c);
            let kept = kept_lines(lines, patterns);
            if lines.len() == kept.len() {
                Ok(None)
            } else {
                match written {
                    Err(e) => Err(e),
                    Ok(()) => Ok(Some(cleaned_message((lines.len() - kept.len()) as nat, path))),
                }
            }
        },
    }
}

/// The lines of a text (see `std_lines`).
pub fn history_lines(s: &str) -> (r: Vec<String>)
    ensures
        r.deep_view() == std_lines(s@),
{
    let parts = split_lines(s);
    let ghost pv = parts.deep_view();
    proof {
        crate::filesystem::submount::lemma_split_by_nonempty(s@, |c: char| c == '\n');
    }
    let n = parts.len();
    let mut out: Vec<String> = Vec::new();
    let mut i: usize = 0;
    while i + 1 < n
        invariant
            pv == parts.deep_view(),
            pv == text_lines(s@),
            n == parts@.len(),
            n >= 1,
            i + 1 <= n,
            out.deep_view() == pv.take(i as int).map_values(|l: Seq<char>| strip_cr(l)),
        decreases n - i,
    {
        let line = parts[i].as_str();
        let len = line.unicode_len();
        assert(pv[i as int] == line@);
        let piece = if len > 0 && line.get_char(len - 1) == '\r' {
            String::from_str(line.substring_char(0, len - 1))
        } else {
            String::from_str(line)
        };
        assert(piece@ == strip_cr(pv[i as int])) by {
            if len > 0 && line@.last() == '\r' {
                assert(line@.subrange(0, len - 1) =~= line@.drop_last());
            }
        }
        let ghost before = out.deep_view();
        out.push(piece);
        assert(out.deep_view() =~= before.push(piece@));
        assert(pv.take(i as int + 1).map_values(|l: Seq<char>| strip_cr(l)) =~= pv.take(
            i as int,
        ).map_values(|l: Seq<char>| strip_cr(l)).push(strip_cr(pv[i as int])));
        i = i + 1;
    }
    assert(pv.take(n - 1) =~= pv.drop_last());
    let last = parts[n - 1].as_str();
    assert(pv[n - 1] == last@);
    if last.unicode_len() > 0 {
        let ghost before = out.deep_view();
        out.push(String::from_str(last));
        assert(out.deep_view() =~= before.push(last@));
    }
    out
}

/// Whether a line mentions one of the patterns (see `line_matches`).
pub fn line_mentions_any(line: &str, patterns: &Vec<String>) -> (r: bool)
    ensures
        r == line_matches(line@, patterns.deep_view()),
{
    let ghost pv = patterns.deep_view();
    let mut j: usize = 0;
    while j < patterns.len()
        invariant
            pv == patterns.deep_view(),
            j <= patterns@.len(),
            forall|k: int|
                0 <= k < j ==> !text_contains(lower_text(line@), lower_text(#[trigger] pv[k])),
        decreases patterns@.len() - j,
    {
        assert(pv[j as int] == patterns@[j as int]@);
        if name_matches_pattern(line, patterns[j].as_str()) {
            return true;
        }
        j = j + 1;
    }
    false
}

proof fn lemma_filter_step(v: Seq<Seq<char>>, pred: spec_fn(Seq<char>) -> bool, e: Seq<char>)
    ensures
        pred(e) ==> v.push(e).filter(pred) == v.filter(pred).push(e),
        !pred(e) ==> v.push(e).filter(pred) == v.filter(pred),
{
    reveal(Seq::filter);
    assert(v.push(e).drop_last() =~= v);
}

/// The lines that mention none of the patterns (see `kept_lines`).
pub fn keep_unmatched_lines(lines: &Vec<String>, patterns: &Vec<String>) -> (r: Vec<String>)
    ensures
        r.deep_view() == kept_lines(lines.deep_view(), patterns.deep_view()),
{
    let ghost lv = lines.deep_view();
    let ghost pred = |l: Seq<char>| !line_matches(l, patterns.deep_view());
    let mut out: Vec<String> = Vec::new();
    let mut i: usize = 0;
    assert(lv.take(0).filter(pred) =~= Seq::<Seq<char>>::empty()) by {
        reveal(Seq::filter);
    }
    while i < lines.len()
        invariant
            lv == lines.deep_view(),
            pred == (|l: Seq<char>| !line_matches(l, patterns.deep_view())),
            i <= lines@.len(),
            out.deep_view() == lv.take(i as int).filter(pred),
        decreases lines@.len() - i,
    {
        assert(lv[i as int] == lines@[i as int]@);
        proof {
            lemma_filter_step(lv.take(i as int), pred, lv[i as int]);
            assert(lv.take(i as int).push(lv[i as int]) =~= lv.take(i as int + 1));
        }
        if !line_mentions_any(lines[i].as_str(), patterns) {
            let ghost before = out.deep_view();
            out.push(lines[i].clone());
            assert(out.deep_view() =~= before.push(lv[i as int]));
        }
        i = i + 1;
    }
    assert(lv.take(lines@.len() as int) =~= lv);
    out
}

/// A history text with the lines that mention a pattern removed (see
/// `cleaned_content`), and how many lines were removed.
pub fn cleaned_history(content: &str, patterns: &Vec<String>) -> (r: (String, usize))
    ensures
        r.0@ == cleaned_content(kept_lines(std_lines(content@), patterns.deep_view())),
        r.1 == std_lines(content@).len() - kept_lines(
            std_lines(content@),
            patterns.deep_view(),
        ).len(),
{
    let lines = history_lines(content);
    let kept = keep_unmatched_lines(&lines, patterns);
    proof {
        let lv = lines.deep_view();
        lv.filter_lemma(|l: Seq<char>| !line_matches(l, patterns.deep_view()));
        assert(lines.deep_view().len() == lines@.len());
        assert(kept.deep_view().len() == kept@.len());
    }
    let removed = lines.len() - kept.len();
    let body = join_with(&kept, "\n");
    let text = if body.as_str().unicode_len() > 0 {
        let mut c = body;
        c.append("\n");
        c
    } else {
        String::new()
    };
    (text, removed)
}

/// Cleaning one history file in the model: read it; when lines mention a
/// pattern, securely delete it and write back the kept lines.
pub open spec fn history_clean_model(s: MockView, path: Seq<char>, patterns: Seq<Seq<char>>) -> (
    MockView,
    std::result::Result<Option<Seq<char>>, ErrView>,
) {
    match read_file_model(s, path) {
        Err(e) => (s, Err(e)),
        Ok(c) => {
            let lines = std_lines(c);
            let kept = kept_lines(lines, patterns);
            if lines.len() == kept.len() {
                (s, Ok(None))
            } else {
                let w = write_file_model(secure_delete_model(s, path).0, path, cleaned_content(kept));
                (
                    w.0,
                    match w.1 {
                        Err(e) => Err(e),
                        Ok(()) => Ok(Some(cleaned_message((lines.len() - kept.len()) as nat, path))),
                    },
                )
            }
        },
    }
}

proof fn lemma_filter_within(v: Seq<Seq<char>>, pred: spec_fn(Seq<char>) -> bool)
    ensures
        forall|i: int| 0 <= i < v.filter(pred).len() ==> v.contains(#[trigger] v.filter(pred)[i]),
    decreases v.len(),
{
    reveal(Seq::filter);
    if v.len() > 0 {
        let d = v.drop_last();
        lemma_filter_within(d, pred);
        let f0 = d.filter(pred);
        assert forall|i: int| 0 <= i < v.filter(pred).len() implies v.contains(
            #[trigger] v.filter(pred)[i],
        ) by {
            if i < f0.len() {
                let x = f0[i];
                assert(d.contains(x));
                let j = choose|j: int| 0 <= j < d.len() && d[j] == x;
                assert(v[j] == x);
                if pred(v.last()) {
                    assert(v.filter(pred) == f0.push(v.last()));
                } else {
                    assert(v.filter(pred) == f0);
                }
            } else {
                assert(pred(v.last()) && v.filter(pred) == f0.push(v.last()));
                assert(v[v.len() - 1] == v.last());
            }
        }
    }
}

/// No kept line mentions a pattern; every kept line is a line of the
/// text, and no line is added.
pub proof fn law_kept_lines_mention_no_pattern(lines: Seq<Seq<char>>, patterns: Seq<Seq<char>>)
    ensures
        forall|i: int|
            0 <= i < kept_lines(lines, patterns).len() ==> !line_matches(
                #[trigger] kept_lines(lines, patterns)[i],
                patterns,
            ),
        forall|i: int|
            0 <= i < kept_lines(lines, patterns).len() ==> lines.contains(
                #[trigger] kept_lines(lines, patterns)[i],
            ),
        kept_lines(lines, patterns).len() <= lines.len(),
{
    lines.filter_lemma(|l: Seq<char>| !line_matches(l, patterns));
    lemma_filter_within(lines, |l: Seq<char>| !line_matches(l, patterns));
}

/// Lowering ASCII text keeps its length, gives ASCII text again, and
/// lowering twice is lowering once.
pub proof fn law_lower_ascii_text(t: Seq<char>)
    requires
        ascii_text(t),
    ensures
        lower_text(t).len() == t.len(),
        ascii_text(lower_text(t)),
        lower_text(lower_text(t)) == lower_text(t),
        forall|i: int| 0 <= i < t.len() ==> 'A' <= #[trigger] t[i] <= 'Z' ==> lower_text(t)[i] != t[i],
{
    let f = |c: char| ascii_lower_char(c);
    let l = t.map_values(f);
    assert(ascii_text(l)) by {
        assert forall|i: int| 0 <= i < l.len() implies #[trigger] l[i] <= '\u{7f}' by {
            assert(t[i] <= '\u{7f}');
        }
    }
    assert(l.map_values(f) =~= l);
}

proof fn lemma_contains_lowered(line: Seq<char>, q: Seq<char>)
    requires
        text_contains(line, q),
    ensures
        text_contains(
            line.map_values(|c: char| ascii_lower_char(c)),
            q.map_values(|c: char| ascii_lower_char(c)),
        ),
{
    let f = |c: char| ascii_lower_char(c);
    let i = choose|i: int| 0 <= i <= line.len() - q.len() && #[trigger] line.subrange(i, i + q.len()) == q;
    assert(line.map_values(f).subrange(i, i + q.len()) =~= q.map_values(f));
}

/// A line of ASCII text that holds a pattern, in any mix of upper and lower
/// case, mentions it: cleaning removes that line, so it is not among the
/// kept lines.
pub proof fn law_line_holding_pattern_is_removed(
    lines: Seq<Seq<char>>,
    patterns: Seq<Seq<char>>,
    line: Seq<char>,
    j: int,
    q: Seq<char>,
)
    requires
        0 <= j < patterns.len(),
        ascii_text(line),
        ascii_text(patterns[j]),
        text_contains(line, q),
        q.map_values(|c: char| ascii_lower_char(c)) == patterns[j].map_values(
            |c: char| ascii_lower_char(c),
        ),
    ensures
        line_matches(line, patterns),
        !kept_lines(lines, patterns).contains(line),
{
    lemma_contains_lowered(line, q);
    assert(text_contains(lower_text(line), lower_text(patterns[j])));
    law_kept_lines_mention_no_pattern(lines, patterns);
    if kept_lines(lines, patterns).contains(line) {
        let i = choose|i: int|
            0 <= i < kept_lines(lines, patterns).len() && kept_lines(lines, patterns)[i] == line;
        assert(!line_matches(kept_lines(lines, patterns)[i], patterns));
    }
}

/// Once cleaning a history file has removed lines, the file holds exactly
/// the lines that mention no pattern, and the log shows its secure
/// deletion followed by its rewrite (a cleaning that removed nothing leaves
/// the state as it was).
pub proof fn law_cleaned_history_holds_kept_lines(
    s: MockView,
    path: Seq<char>,
    patterns: Seq<Seq<char>>,
)
    ensures
        history_clean_model(s, path, patterns).1 matches Ok(Some(_)) ==> (s.file_contents.contains_key(
            pkey(path),
        ) && history_clean_model(s, path, patterns).0.file_contents[pkey(path)] == cleaned_content(
            kept_lines(std_lines(s.file_contents[pkey(path)]), patterns),
        ) && history_clean_model(s, path, patterns).0.op_log == s.op_log.push(
            MockOpView::SecureDelete(path),
        ).push(MockOpView::WriteFile(path))),
        history_clean_model(s, path, patterns).1 matches Ok(None) ==> history_clean_model(
            s,
            path,
            patterns,
        ).0 == s,
{
}

/// Removes the lines of a history file that mention one of the patterns:
/// the file is read, securely deleted (a failure there is ignored) and
/// written back with the remaining lines.  Gives the report line when lines
/// were removed, `None` when none matched.
///
/// The outcome is the one that some answers of the filesystem give (see
/// `history_clean_outcome`).
pub fn clean_single_history_file<F: Filesystem>(
    fs: &mut F,
    path: &str,
    patterns: &Vec<String>,
) -> (r: Result<Option<String>>)
    ensures
        exists|
            content: std::result::Result<Seq<char>, ErrView>,
            written: std::result::Result<(), ErrView>,
        | rv(r) == #[trigger] history_clean_outcome(path@, patterns.deep_view(), content, written),
        F::follows_model() ==> (final(fs).model(), rv(r)) == history_clean_model(
            old(fs).model(),
            path@,
            patterns.deep_view(),
        ),
{
    let ghost ok: std::result::Result<(), ErrView> = Ok(());
    let content = match fs.read_file_content(path) {
        Ok(c) => c,
        Err(e) => {
            assert(rv(Err::<Option<String>, NailsError>(e)) == history_clean_outcome(
                path@,
                patterns.deep_view(),
                Err(e.deep_view()),
                ok,
            ));
            return Err(e);
        },
    };
    let (new_content, removed) = cleaned_history(content.as_str(), patterns);
    if removed == 0 {
        assert(rv(Ok::<Option<String>, NailsError>(None)) == history_clean_outcome(
            path@,
            patterns.deep_view(),
            Ok(content@),
            ok,
        ));
        return Ok(None);
    }
    let _ = fs.secure_delete(path);
    match fs.write_file_content(path, new_content.as_str()) {
        Ok(()) => {},
        Err(e) => {
            assert(rv(Err::<Option<String>, NailsError>(e)) == history_clean_outcome(
                path@,
                patterns.deep_view(),
                Ok(content@),
                Err(e.deep_view()),
            ));
            return Err(e);
        },
    }
    let mut m = String::from_str("Removed ");
    append_decimal(&mut m, removed as u64);
    m.append(" entries from ");
    m.append(path);
    m.append(" (secure delete)");
    assert(rv(Ok::<Option<String>, NailsError>(Some(m))) == history_clean_outcome(
        path@,
        patterns.deep_view(),
        Ok(content@),
        ok,
    ));
    Ok(Some(m))
}

/// The warning when the history file list is empty.
pub open spec fn no_home_warning() -> Seq<char> {
    "$HOME not set, skipped history file cleanup"@
}

/// What the filesystem answered for one history file, as far as the report
/// shows it.
pub enum HistoryFileAnswer {
    /// The file does not exist.
    Absent,
    /// Whether it exists could not be told; the error's text.
    Unchecked(Seq<char>),
    /// It was cleaned: the report line, or `None` when no line matched.
    Cleaned(Option<Seq<char>>),
    /// Cleaning it failed; the error's text.
    Failed(Seq<char>),
}

/// Whether an answer for `file` can come about: a cleaning outcome must be
/// one that `history_clean_outcome` gives for some answers.
pub open spec fn answer_fits(file: Seq<char>, patterns: Seq<Seq<char>>, a: HistoryFileAnswer) -> bool {
    match a {
        HistoryFileAnswer::Cleaned(o) => exists|
            c: std::result::Result<Seq<char>, ErrView>,
            w: std::result::Result<(), ErrView>,
        | #[trigger] history_clean_outcome(file, patterns, c, w) == Ok::<
            Option<Seq<char>>,
            ErrView,
        >(o),
        HistoryFileAnswer::Failed(t) => exists|
            e: NailsError,
            c: std::result::Result<Seq<char>, ErrView>,
            w: std::result::Result<(), ErrView>,
        |
            #![trigger history_clean_outcome(file, patterns, c, w), e.message_spec()]
            history_clean_outcome(file, patterns, c, w) == Err::<Option<Seq<char>>, ErrView>(
                e.deep_view(),
            ) && e.message_spec() == t,
        _ => true,
    }
}

/// Whether `answers` holds one fitting answer per file.
pub open spec fn answers_fit(
    files: Seq<Seq<char>>,
    patterns: Seq<Seq<char>>,
    answers: Seq<HistoryFileAnswer>,
) -> bool {
    &&& answers.len() == files.len()
    &&& forall|i: int| 0 <= i < answers.len() ==> answer_fits(files[i], patterns, #[trigger] answers[i])
}

/// The report lines of the files that were cleaned, in order.
pub open spec fn answered_items(answers: Seq<HistoryFileAnswer>) -> Seq<Seq<char>>
    decreases answers.len(),
{
    if answers.len() == 0 {
        Seq::empty()
    } else {
        let rest = answered_items(answers.drop_last());
        match answers.last() {
            HistoryFileAnswer::Cleaned(Some(m)) => rest.push(m),
            _ => rest,
        }
    }
}

/// The warnings about the files whose existence could not be told or whose
/// cleaning failed, in order.
pub open spec fn answered_warnings(files: Seq<Seq<char>>, answers: Seq<HistoryFileAnswer>) -> Seq<
    Seq<char>,
>
    decreases answers.len(),
{
    if answers.len() == 0 {
        Seq::empty()
    } else {
        let rest = answered_warnings(files, answers.drop_last());
        let f = files[answers.len() - 1];
        match answers.last() {
            HistoryFileAnswer::Unchecked(t) => rest.push(
                "Could not check existence of "@ + f + ": "@ + t,
            ),
            HistoryFileAnswer::Failed(t) => rest.push("Could not clean "@ + f + ": "@ + t),
            _ => rest,
        }
    }
}

/// Post-unmount cleanup in the model: each file in turn is skipped when it
/// does not exist, else cleaned (`history_clean_model`) in the state the
/// files before it left; gives the final state, the report lines and the
/// warnings.
pub open spec fn post_unmount_model(
    s: MockView,
    files: Seq<Seq<char>>,
    patterns: Seq<Seq<char>>,
) -> (MockView, Seq<Seq<char>>, Seq<Seq<char>>)
    decreases files.len(),
{
    if files.len() == 0 {
        (s, Seq::empty(), Seq::empty())
    } else {
        let prev = post_unmount_model(s, files.drop_last(), patterns);
        let f = files.last();
        if !exists_at(prev.0.paths, pkey(f)) {
            prev
        } else {
            let c = history_clean_model(prev.0, f, patterns);
            match c.1 {
                Ok(Some(m)) => (c.0, prev.1.push(m), prev.2),
                Ok(None) => (c.0, prev.1, prev.2),
                Err(e) => (
                    c.0,
                    prev.1,
                    prev.2.push("Could not clean "@ + f + ": "@ + err_message(e)),
                ),
            }
        }
    }
}

/// Cleans the history files on the real disk (see
/// `clean_single_history_file`), best effort: a file that does not exist
/// is skipped, and a failure becomes a warning rather than an error.  An
/// empty list of files (no home directory known) gives one warning.
///
/// The report lists, file by file, what the filesystem's answers give
/// (see `answered_items` and `answered_warnings`).
pub fn execute_post_unmount_cleanup<F: Filesystem>(
    fs: &mut F,
    history_files: &Vec<String>,
    patterns: &Vec<String>,
) -> (r: PostUnmountCleanupReport)
    ensures
        r.was_performed,
        history_files@.len() == 0 ==> r.cleaned_items@.len() == 0 && r.warnings.deep_view()
            == seq![no_home_warning()],
        history_files@.len() > 0 ==> exists|answers: Seq<HistoryFileAnswer>|
            #[trigger] answers_fit(history_files.deep_view(), patterns.deep_view(), answers)
                && r.cleaned_items.deep_view() == answered_items(answers)
                && r.warnings.deep_view() == answered_warnings(history_files.deep_view(), answers),
        F::follows_model() && history_files@.len() > 0 ==> (
        final(fs).model(),
        r.cleaned_items.deep_view(),
        r.warnings.deep_view(),
        ) == post_unmount_model(old(fs).model(), history_files.deep_view(), patterns.deep_view()),
        F::follows_model() && history_files@.len() == 0 ==> final(fs).model() == old(fs).model(),
{
    let mut report = PostUnmountCleanupReport {
        cleaned_items: Vec::new(),
        warnings: Vec::new(),
        was_performed: true,
    };
    if history_files.len() == 0 {
        report.warnings.push(String::from_str("$HOME not set, skipped history file cleanup"));
        assert(report.warnings.deep_view() =~= seq![no_home_warning()]);
        return report;
    }
    let ghost fv = history_files.deep_view();
    let ghost pv = patterns.deep_view();
    let ghost s0 = fs.model();
    let ghost mut answers: Seq<HistoryFileAnswer> = Seq::empty();
    assert(report.cleaned_items.deep_view() =~= answered_items(answers));
    assert(report.warnings.deep_view() =~= answered_warnings(fv, answers));
    assert(fv.take(0) =~= Seq::<Seq<char>>::empty());
    assert(report.cleaned_items.deep_view() =~= Seq::<Seq<char>>::empty());
    assert(report.warnings.deep_view() =~= Seq::<Seq<char>>::empty());
    let mut i: usize = 0;
    while i < history_files.len()
        invariant
            fv == history_files.deep_view(),
            pv == patterns.deep_view(),
            i <= history_files@.len(),
            report.was_performed,
            answers.len() == i,
            forall|k: int| 0 <= k < i ==> answer_fits(fv[k], pv, #[trigger] answers[k]),
            report.cleaned_items.deep_view() == answered_items(answers),
            report.warnings.deep_view() == answered_warnings(fv, answers),
            F::follows_model() ==> (
            fs.model(),
            report.cleaned_items.deep_view(),
            report.warnings.deep_view(),
            ) == post_unmount_model(s0, fv.take(i as int), pv),
        decreases history_files@.len() - i,
    {
        let file = history_files[i].as_str();
        assert(fv[i as int] == file@);
        assert(fv.take(i as int + 1).drop_last() =~= fv.take(i as int));
        assert(fv.take(i as int + 1).last() == fv[i as int]);
        let ghost items0 = report.cleaned_items.deep_view();
        let ghost warnings0 = report.warnings.deep_view();
        let ghost answers0 = answers;
        let ghost mut a: HistoryFileAnswer = HistoryFileAnswer::Absent;
        match fs.path_exists(file) {
            Ok(true) => match clean_single_history_file(fs, file, patterns) {
                Ok(Some(msg)) => {
                    proof {
                        a = HistoryFileAnswer::Cleaned(Some(msg@));
                    }
                    report.cleaned_items.push(msg);
                    assert(report.cleaned_items.deep_view() =~= items0.push(msg@));
                },
                Ok(None) => {
                    proof {
                        a = HistoryFileAnswer::Cleaned(None);
                    }
                },
                Err(e) => {
                    let mut w = concat("Could not clean ", file);
                    w.append(": ");
                    let t = e.message();
                    w.append(t.as_str());
                    proof {
                        a = HistoryFileAnswer::Failed(e.message_spec());
                        let (c, wr) = choose|
                            c: std::result::Result<Seq<char>, ErrView>,
                            wr: std::result::Result<(), ErrView>,
                        | rv(Err::<Option<String>, NailsError>(e)) == #[trigger] history_clean_outcome(
                            file@,
                            pv,
                            c,
                            wr,
                        );
                        assert(history_clean_outcome(file@, pv, c, wr) == Err::<
                            Option<Seq<char>>,
                            ErrView,
                        >(e.deep_view()));
                    }
                    report.warnings.push(w);
                    assert(report.warnings.deep_view() =~= warnings0.push(
                        "Could not clean "@ + file@ + ": "@ + e.message_spec(),
                    ));
                },
            },
            Ok(false) => {},
            Err(e) => {
                let mut w = concat("Could not check existence of ", file);
                w.append(": ");
                let t = e.message();
                w.append(t.as_str());
                proof {
                    a = HistoryFileAnswer::Unchecked(e.message_spec());
                }
                report.warnings.push(w);
                assert(report.warnings.deep_view() =~= warnings0.push(
                    "Could not check existence of "@ + file@ + ": "@ + e.message_spec(),
                ));
            },
        }
        proof {
            answers = answers0.push(a);
            assert(answers.drop_last() =~= answers0);
            assert(answers[i as int] == a);
            assert(answer_fits(fv[i as int], pv, a));
        }
        i = i + 1;
    }
    proof {
        assert(answers_fit(fv, pv, answers));
        assert(fv.take(history_files@.len() as int) =~= fv);
    }
    report
}

} // verus!
