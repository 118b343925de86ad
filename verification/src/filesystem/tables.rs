//! Text that the filesystem layer reads from the kernel and from tools:
//! decimal numbers, mount options, `/proc` tables and tool output.
//!
//! The application reads the text; what it means is decided here.
use crate::error::{concat, rv, ErrView, IoError, IoErrorKind, NailsError, Result};
use crate::filesystem::submount::{split_by, split_words, words};
use crate::path::chars_of;
use crate::text::{join_with, joined};
use vstd::prelude::*;

verus! {

/// Why a decimal number could not be read (the kinds of `std::num::IntErrorKind`
/// that unsigned parsing gives).
#[derive(Debug, Clone, Copy, PartialEq, Eq, Structural)]
pub enum IntParseError {
    /// The text is empty.
    Empty,
    /// A character is not a digit (or there is no digit after a `+`).
    InvalidDigit,
    /// The number does not fit in the target type.
    TooLarge,
}

pub open spec fn is_digit(c: char) -> bool {
    '0' <= c <= '9'
}

/// Whether every character is an ASCII digit.
pub open spec fn all_digits(s: Seq<char>) -> bool {
    forall|i: int| 0 <= i < s.len() ==> is_digit(#[trigger] s[i])
}

/// The value of a run of digits.
pub open spec fn digits_value(s: Seq<char>) -> int
    decreases s.len(),
{
    if s.len() == 0 {
        0
    } else {
        digits_value(s.drop_last()) * 10 + (s.last() as int - '0' as int)
    }
}

/// The first problem met reading digits left to right, with `max` the
/// largest value allowed.
pub open spec fn first_digit_problem(d: Seq<char>, max: int) -> Option<IntParseError>
    decreases d.len(),
{
    if d.len() == 0 {
        None
    } else {
        match first_digit_problem(d.drop_last(), max) {
            Some(e) => Some(e),
            None => if !is_digit(d.last()) {
                Some(IntParseError::InvalidDigit)
            } else if digits_value(d) > max {
                Some(IntParseError::TooLarge)
            } else {
                None
            },
        }
    }
}

/// How `str::parse` reads an unsigned number no larger than `max`: an
/// optional `+`, then at least one digit.
pub open spec fn parse_unsigned_spec(s: Seq<char>, max: int) -> std::result::Result<
    int,
    IntParseError,
> {
    if s.len() == 0 {
        Err(IntParseError::Empty)
    } else {
        let d = if s[0] == '+' {
            s.skip(1)
        } else {
            s
        };
        if d.len() == 0 {
            Err(IntParseError::InvalidDigit)
        } else {
            match first_digit_problem(d, max) {
                Some(e) => Err(e),
                None => Ok(digits_value(d)),
            }
        }
    }
}

/// The text of a parse error (as `ParseIntError` displays it).
pub open spec fn int_error_text(e: IntParseError) -> Seq<char> {
    match e {
        IntParseError::Empty => "cannot parse integer from empty string"@,
        IntParseError::InvalidDigit => "invalid digit found in string"@,
        IntParseError::TooLarge => "number too large to fit in target type"@,
    }
}

proof fn lemma_first_problem_prefix(d: Seq<char>, k: int, max: int)
    requires
        0 <= k <= d.len(),
        first_digit_problem(d.take(k), max) is Some,
    ensures
        first_digit_problem(d, max) == first_digit_problem(d.take(k), max),
    decreases d.len() - k,
{
    if k < d.len() {
        assert(d.take(k + 1).drop_last() =~= d.take(k));
        lemma_first_problem_prefix(d, k + 1, max);
    } else {
        assert(d.take(k) =~= d);
    }
}

/// Reads an unsigned decimal number no larger than `max` (see `parse_unsigned_spec`).
pub fn parse_unsigned(s: &str, max: u64) -> (r: std::result::Result<u64, IntParseError>)
    ensures
        match r {
            Ok(v) => parse_unsigned_spec(s@, max as int) == Ok::<int, IntParseError>(v as int),
            Err(e) => parse_unsigned_spec(s@, max as int) == Err::<int, IntParseError>(e),
        },
{
    let cs = chars_of(s);
    if cs.len() == 0 {
        return Err(IntParseError::Empty);
    }
    let start: usize = if cs[0] == '+' {
        1
    } else {
        0
    };
    let ghost d = if s@[0] == '+' {
        s@.skip(1)
    } else {
        s@
    };
    assert(d =~= s@.subrange(start as int, s@.len() as int));
    if start == cs.len() {
        return Err(IntParseError::InvalidDigit);
    }
    let mut acc: u64 = 0;
    let mut i: usize = start;
    assert(d.take(0) =~= Seq::<char>::empty());
    while i < cs.len()
        invariant
            cs@ == s@,
            start <= i <= cs@.len(),
            d == s@.subrange(start as int, s@.len() as int),
            s@.len() > 0,
            d.len() > 0,
            d == (if s@[0] == '+' {
                s@.skip(1)
            } else {
                s@
            }),
            first_digit_problem(d.take(i - start), max as int) is None,
            acc == digits_value(d.take(i - start)),
            acc <= max,
        decreases cs@.len() - i,
    {
        let c = cs[i];
        let ghost k = i - start;
        assert(d.take(k + 1).drop_last() =~= d.take(k));
        assert(d.take(k + 1).last() == c);
        if c < '0' || c > '9' {
            proof {
                assert(!is_digit(d.take(k + 1).last()));
                assert(first_digit_problem(d.take(k + 1), max as int) == Some(
                    IntParseError::InvalidDigit,
                ));
                lemma_first_problem_prefix(d, k + 1, max as int);
                assert(s@.len() > 0);
                assert(d.len() > 0);
            }
            return Err(IntParseError::InvalidDigit);
        }
        let digit = (c as u32 - '0' as u32) as u64;
        assert(digit as int == c as int - '0' as int);
        if digit > max || acc > (max - digit) / 10 {
            proof {
                if digit <= max {
                    assert(acc * 10 + digit > max) by (nonlinear_arith)
                        requires
                            digit <= max,
                            acc > (max - digit) / 10,
                    ;
                }
                assert(digits_value(d.take(k + 1)) == acc * 10 + digit);
                assert(first_digit_problem(d.take(k + 1), max as int) == Some(
                    IntParseError::TooLarge,
                ));
                lemma_first_problem_prefix(d, k + 1, max as int);
            }
            return Err(IntParseError::TooLarge);
        }
        assert(acc * 10 + digit <= max) by (nonlinear_arith)
            requires
                acc <= (max - digit) / 10,
        ;
        acc = acc * 10 + digit;
        i = i + 1;
    }
    assert(d.take(cs@.len() - start) =~= d);
    Ok(acc)
}

/// The text of a parse error.
pub fn int_error_message(e: IntParseError) -> (r: String)
    ensures
        r@ == int_error_text(e),
{
    match e {
        IntParseError::Empty => String::from_str("cannot parse integer from empty string"),
        IntParseError::InvalidDigit => String::from_str("invalid digit found in string"),
        IntParseError::TooLarge => String::from_str("number too large to fit in target type"),
    }
}

/// Splits a text at every `sep`, empty pieces included (`str::split`).
pub fn split_on_char(s: &str, sep: char) -> (r: Vec<String>)
    ensures
        r.deep_view() == split_by(s@, |c: char| c == sep),
        r@.len() >= 1,
{
    let ghost f = |c: char| c == sep;
    let cs = chars_of(s);
    let n = cs.len();
    let mut out: Vec<String> = Vec::new();
    let mut start: usize = 0;
    let mut i: usize = 0;
    assert(s@.take(0) =~= Seq::<char>::empty());
    assert(s@.subrange(0, 0) =~= Seq::<char>::empty());
    assert(split_by(Seq::<char>::empty(), f) =~= out.deep_view().push(Seq::<char>::empty()));
    while i < n
        invariant
            n == cs@.len(),
            cs@ == s@,
            start <= i <= n,
            f == (|c: char| c == sep),
            split_by(s@.take(i as int), f) == out.deep_view().push(
                s@.subrange(start as int, i as int),
            ),
        decreases n - i,
    {
        let c = cs[i];
        proof {
            assert(s@.take(i as int + 1).drop_last() =~= s@.take(i as int));
            assert(s@.take(i as int + 1).last() == c);
        }
        if c == sep {
            let piece = String::from_str(s.substring_char(start, i));
            let ghost before = out.deep_view();
            out.push(piece);
            proof {
                assert(out.deep_view() =~= before.push(s@.subrange(start as int, i as int)));
                assert(s@.subrange(i as int + 1, i as int + 1) =~= Seq::<char>::empty());
            }
            start = i + 1;
        } else {
            proof {
                let t = split_by(s@.take(i as int), f);
                crate::filesystem::submount::lemma_split_by_nonempty(s@.take(i as int), f);
                assert(s@.subrange(start as int, i as int + 1) =~= s@.subrange(
                    start as int,
                    i as int,
                ).push(c));
                assert(t.update(t.len() - 1, t.last().push(c)) =~= out.deep_view().push(
                    s@.subrange(start as int, i as int + 1),
                ));
            }
        }
        i = i + 1;
    }
    let piece = String::from_str(s.substring_char(start, n));
    let ghost before = out.deep_view();
    out.push(piece);
    proof {
        assert(s@.take(n as int) =~= s@);
        assert(out.deep_view() =~= before.push(s@.subrange(start as int, n as int)));
    }
    out
}

/// Whether `needle` occurs in `hay`.
pub open spec fn text_contains(hay: Seq<char>, needle: Seq<char>) -> bool {
    exists|i: int| 0 <= i <= hay.len() - needle.len() && #[trigger] hay.subrange(i, i + needle.len()) == needle
}

/// Whether `needle` occurs in `hay` (`str::contains`).
pub fn contains_text(hay: &str, needle: &str) -> (r: bool)
    ensures
        r == text_contains(hay@, needle@),
{
    let h = chars_of(hay);
    let n = chars_of(needle);
    if n.len() > h.len() {
        return false;
    }
    let last = h.len() - n.len();
    let mut i: usize = 0;
    while i <= last
        invariant
            h@ == hay@,
            n@ == needle@,
            last == h@.len() - n@.len(),
            n@.len() <= h@.len(),
            i <= last + 1,
            forall|k: int| 0 <= k < i ==> #[trigger] hay@.subrange(k, k + needle@.len()) != needle@,
        decreases last + 1 - i,
    {
        let mut j: usize = 0;
        while j < n.len()
            invariant
                h@ == hay@,
                n@ == needle@,
                i <= last,
                last == h@.len() - n@.len(),
                h@.len() == h.len(),
                j <= n@.len(),
                forall|m: int| 0 <= m < j ==> h@[i + m] == n@[m],
            ensures
                j <= n@.len(),
                forall|m: int| 0 <= m < j ==> h@[i + m] == n@[m],
                j < n@.len() ==> h@[i + j] != n@[j as int],
            decreases n@.len() - j,
        {
            if h[i + j] != n[j] {
                break;
            }
            j = j + 1;
        }
        if j == n.len() {
            assert(hay@.subrange(i as int, i + needle@.len()) =~= needle@);
            return true;
        }
        assert(hay@.subrange(i as int, i + needle@.len())[j as int] != needle@[j as int]);
        i = i + 1;
    }
    false
}

/// The text in lower case, as `str::to_lowercase` gives it.
pub uninterp spec fn lowercase_text(s: Seq<char>) -> Seq<char>;

/// `str::to_lowercase` (Unicode lower-case mapping); the result is a
/// function of the text alone and is not stated here.
#[verifier::external_body]
fn lowercase(s: &str) -> (r: String)
    ensures
        r@ == lowercase_text(s@),
{
    s.to_lowercase()
}

/// Whether every character of a text is ASCII.
pub open spec fn ascii_text(s: Seq<char>) -> bool {
    forall|i: int| 0 <= i < s.len() ==> #[trigger] s[i] <= '\u{7f}'
}

/// The ASCII lower case of a character: `A` to `Z` become `a` to `z`, any
/// other character stays.
pub open spec fn ascii_lower_char(c: char) -> char {
    if 'A' <= c && c <= 'Z' {
        ((c as u32) + 32) as char
    } else {
        c
    }
}

/// A text in lower case: an ASCII text letter by letter (which is what
/// `str::to_lowercase` gives for ASCII), any other text as
/// `str::to_lowercase` gives it.
pub open spec fn lower_text(s: Seq<char>) -> Seq<char> {
    if ascii_text(s) {
        s.map_values(|c: char| ascii_lower_char(c))
    } else {
        lowercase_text(s)
    }
}

/// The lower-case letter for an upper-case ASCII letter.
fn lower_letter(c: char) -> (r: &'static str)
    requires
        'A' <= c <= 'Z',
    ensures
        r@ == seq![ascii_lower_char(c)],
{
    match c {
        'A' => {
            proof {
                reveal_strlit("a");
            }
            "a"
        },
        'B' => {
            proof {
                reveal_strlit("b");
            }
            "b"
        },
        'C' => {
            proof {
                reveal_strlit("c");
            }
            "c"
        },
        'D' => {
            proof {
                reveal_strlit("d");
            }
            "d"
        },
        'E' => {
            proof {
                reveal_strlit("e");
            }
            "e"
        },
        'F' => {
            proof {
                reveal_strlit("f");
            }
            "f"
        },
        'G' => {
            proof {
                reveal_strlit("g");
            }
            "g"
        },
        'H' => {
            proof {
                reveal_strlit("h");
            }
            "h"
        },
        'I' => {
            proof {
                reveal_strlit("i");
            }
            "i"
        },
        'J' => {
            proof {
                reveal_strlit("j");
            }
            "j"
        },
        'K' => {
            proof {
                reveal_strlit("k");
            }
            "k"
        },
        'L' => {
            proof {
                reveal_strlit("l");
            }
            "l"
        },
        'M' => {
            proof {
                reveal_strlit("m");
            }
            "m"
        },
        'N' => {
            proof {
                reveal_strlit("n");
            }
            "n"
        },
        'O' => {
            proof {
                reveal_strlit("o");
            }
            "o"
        },
        'P' => {
            proof {
                reveal_strlit("p");
            }
            "p"
        },
        'Q' => {
            proof {
                reveal_strlit("q");
            }
            "q"
        },
        'R' => {
            proof {
                reveal_strlit("r");
            }
            "r"
        },
        'S' => {
            proof {
                reveal_strlit("s");
            }
            "s"
        },
        'T' => {
            proof {
                reveal_strlit("t");
            }
            "t"
        },
        'U' => {
            proof {
                reveal_strlit("u");
            }
            "u"
        },
        'V' => {
            proof {
                reveal_strlit("v");
            }
            "v"
        },
        'W' => {
            proof {
                reveal_strlit("w");
            }
            "w"
        },
        'X' => {
            proof {
                reveal_strlit("x");
            }
            "x"
        },
        'Y' => {
            proof {
                reveal_strlit("y");
            }
            "y"
        },
        'Z' => {
            proof {
                reveal_strlit("z");
            }
            "z"
        },
        _ => {
            proof {
                reveal_strlit("z");
            }
            "z"
        },
    }
}

/// Whether every character of a text is ASCII.
fn is_ascii_text(s: &str) -> (r: bool)
    ensures
        r == ascii_text(s@),
{
    let cs = chars_of(s);
    let mut i: usize = 0;
    while i < cs.len()
        invariant
            cs@ == s@,
            i <= cs@.len(),
            forall|k: int| 0 <= k < i ==> #[trigger] s@[k] <= '\u{7f}',
        decreases cs@.len() - i,
    {
        if cs[i] > '\u{7f}' {
            return false;
        }
        i = i + 1;
    }
    true
}

/// A text in lower case (see `lower_text`): ASCII text is lowered here,
/// letter by letter; any other text by `str::to_lowercase`.
pub fn to_lower_text(s: &str) -> (r: String)
    ensures
        r@ == lower_text(s@),
        ascii_text(s@) ==> r@.len() == s@.len(),
        ascii_text(s@) ==> forall|i: int| 0 <= i < s@.len() ==> r@[i] == ascii_lower_char(#[trigger] s@[i]),
{
    if !is_ascii_text(s) {
        return lowercase(s);
    }
    let cs = chars_of(s);
    let ghost f = |c: char| ascii_lower_char(c);
    let mut out = String::new();
    let mut start: usize = 0;
    let mut i: usize = 0;
    assert(s@.take(0).map_values(f) =~= Seq::<char>::empty());
    assert(out@ + s@.subrange(0, 0) =~= Seq::<char>::empty());
    while i < cs.len()
        invariant
            cs@ == s@,
            f == (|c: char| ascii_lower_char(c)),
            start <= i <= cs@.len(),
            out@ + s@.subrange(start as int, i as int) == s@.take(i as int).map_values(f),
            forall|k: int| start <= k < i ==> !('A' <= #[trigger] s@[k] && s@[k] <= 'Z'),
        decreases cs@.len() - i,
    {
        assert(s@.take(i as int + 1).map_values(f) =~= s@.take(i as int).map_values(f).push(
            ascii_lower_char(cs@[i as int]),
        ));
        if 'A' <= cs[i] && cs[i] <= 'Z' {
            out.append(s.substring_char(start, i));
            out.append(lower_letter(cs[i]));
            start = i + 1;
            assert(s@.subrange(start as int, i as int + 1) =~= Seq::<char>::empty());
        } else {
            assert(s@.subrange(start as int, i as int + 1) =~= s@.subrange(
                start as int,
                i as int,
            ).push(cs@[i as int]));
        }
        i = i + 1;
    }
    out.append(s.substring_char(start, cs.len()));
    assert(s@.take(cs@.len() as int) =~= s@);
    assert(out@ =~= s@.map_values(f));
    out
}

/// Whether a file name matches a search pattern: the pattern occurs in the
/// name, both taken in lower case.
pub fn name_matches_pattern(name: &str, pattern: &str) -> (r: bool)
    ensures
        r == text_contains(lower_text(name@), lower_text(pattern@)),
{
    let n = to_lower_text(name);
    let p = to_lower_text(pattern);
    contains_text(n.as_str(), p.as_str())
}

/// Options of an overlay mount: the lower layers joined by `:`, then the
/// upper and work directories.
pub open spec fn overlay_options_spec(lower: Seq<Seq<char>>, upper: Seq<char>, work: Seq<char>) -> Seq<
    char,
> {
    "lowerdir="@ + joined(lower, ":"@) + ",upperdir="@ + upper + ",workdir="@ + work
}

/// The options string of an overlay mount (see `overlay_options_spec`).
pub fn overlay_mount_options(lower: &Vec<String>, upper: &str, work: &str) -> (r: String)
    ensures
        r@ == overlay_options_spec(lower.deep_view(), upper@, work@),
{
    let mut out = String::from_str("lowerdir=");
    let l = join_with(lower, ":");
    out.append(l.as_str());
    out.append(",upperdir=");
    out.append(upper);
    out.append(",workdir=");
    out.append(work);
    out
}

/// Layers found so far in overlay options: lower (first directory), upper, work.
pub type LayerOptions = (Option<Seq<char>>, Option<Seq<char>>, Option<Seq<char>>);

/// One option read into the layers: a later option of a kind replaces an earlier one.
pub open spec fn overlay_layer_step(st: LayerOptions, opt: Seq<char>) -> LayerOptions {
    if "lowerdir="@.is_prefix_of(opt) {
        (Some(split_by(opt.skip(9), |c: char| c == ':')[0]), st.1, st.2)
    } else if "upperdir="@.is_prefix_of(opt) {
        (st.0, Some(opt.skip(9)), st.2)
    } else if "workdir="@.is_prefix_of(opt) {
        (st.0, st.1, Some(opt.skip(8)))
    } else {
        st
    }
}

/// The layers named by a list of options, read in order.
pub open spec fn overlay_layers_of(opts: Seq<Seq<char>>) -> LayerOptions
    decreases opts.len(),
{
    if opts.len() == 0 {
        (None, None, None)
    } else {
        overlay_layer_step(overlay_layers_of(opts.drop_last()), opts.last())
    }
}

/// The first lower directory, the upper and the work directory that the
/// options of an overlay mount name, when all three are named.
pub open spec fn overlay_layers_spec(options: Seq<char>) -> Option<
    (Seq<char>, Seq<char>, Seq<char>),
> {
    match overlay_layers_of(split_by(options, |c: char| c == ',')) {
        (Some(l), Some(u), Some(w)) => Some((l, u, w)),
        _ => None,
    }
}

/// The view of found layers.
pub open spec fn layers_view(
    l: Option<String>,
    u: Option<String>,
    w: Option<String>,
) -> LayerOptions {
    (
        match l {
            Some(x) => Some(x@),
            None => None,
        },
        match u {
            Some(x) => Some(x@),
            None => None,
        },
        match w {
            Some(x) => Some(x@),
            None => None,
        },
    )
}

/// The layers of an overlay mount from its options (see `overlay_layers_spec`).
pub fn overlay_layers_from_options(options: &str) -> (r: Option<(String, String, String)>)
    ensures
        r.deep_view() == overlay_layers_spec(options@),
{
    proof {
        reveal_strlit("lowerdir=");
        reveal_strlit("upperdir=");
        reveal_strlit("workdir=");
    }
    let opts = split_on_char(options, ',');
    let ghost ov = opts.deep_view();
    let mut lower: Option<String> = None;
    let mut upper: Option<String> = None;
    let mut work: Option<String> = None;
    let mut i: usize = 0;
    assert(ov.take(0) =~= Seq::<Seq<char>>::empty());
    while i < opts.len()
        invariant
            ov == opts.deep_view(),
            i <= opts@.len(),
            layers_view(lower, upper, work) == overlay_layers_of(ov.take(i as int)),
        decreases opts@.len() - i,
    {
        let o = opts[i].as_str();
        proof {
            reveal_strlit("lowerdir=");
            reveal_strlit("upperdir=");
            reveal_strlit("workdir=");
        }
        assert(ov.take(i as int + 1).drop_last() =~= ov.take(i as int));
        assert(ov[i as int] == o@);
        let n = o.unicode_len();
        if has_prefix_text(o, "lowerdir=") {
            let rest = o.substring_char(9, n);
            let parts = split_on_char(rest, ':');
            assert(parts.deep_view()[0] == parts@[0]@);
            lower = Some(parts[0].clone());
        } else if has_prefix_text(o, "upperdir=") {
            upper = Some(String::from_str(o.substring_char(9, n)));
        } else if has_prefix_text(o, "workdir=") {
            work = Some(String::from_str(o.substring_char(8, n)));
        }
        assert(o@.skip(9) =~= o@.subrange(9, o@.len() as int) || o@.len() < 9);
        assert(o@.skip(8) =~= o@.subrange(8, o@.len() as int) || o@.len() < 8);
        i = i + 1;
    }
    assert(ov.take(opts@.len() as int) =~= ov);
    match (lower, upper, work) {
        (Some(l), Some(u), Some(w)) => Some((l, u, w)),
        _ => None,
    }
}

fn has_prefix_text(s: &str, prefix: &str) -> (r: bool)
    ensures
        r == prefix@.is_prefix_of(s@),
        r ==> prefix@.len() <= s@.len(),
{
    crate::text::has_prefix(s, prefix)
}

/// The number of `\n` in a text.
pub open spec fn newline_count(s: Seq<char>) -> nat
    decreases s.len(),
{
    if s.len() == 0 {
        0
    } else {
        newline_count(s.drop_last()) + if s.last() == '\n' {
            1nat
        } else {
            0nat
        }
    }
}

/// The number of lines `str::lines` gives: a last line needs no `\n`.
pub open spec fn line_count(s: Seq<char>) -> nat {
    if s.len() == 0 {
        0
    } else if s.last() == '\n' {
        newline_count(s)
    } else {
        newline_count(s) + 1
    }
}

/// Whether the swap table (the text of `/proc/swaps`) lists any swap area:
/// it has more lines than its header.
pub fn swap_table_has_entries(text: &str) -> (r: bool)
    ensures
        r == (line_count(text@) > 1),
{
    let cs = chars_of(text);
    let mut count: usize = 0;
    let mut i: usize = 0;
    assert(text@.take(0) =~= Seq::<char>::empty());
    while i < cs.len()
        invariant
            cs@ == text@,
            i <= cs@.len(),
            count == newline_count(text@.take(i as int)),
            count <= i,
        decreases cs@.len() - i,
    {
        assert(text@.take(i as int + 1).drop_last() =~= text@.take(i as int));
        if cs[i] == '\n' {
            count = count + 1;
        }
        i = i + 1;
    }
    assert(text@.take(cs@.len() as int) =~= text@);
    if cs.len() == 0 {
        false
    } else if cs[cs.len() - 1] == '\n' {
        count > 1
    } else {
        count >= 1
    }
}

/// Index of the last `c` in a text, or -1.
pub open spec fn last_index_of(s: Seq<char>, c: char) -> int
    decreases s.len(),
{
    if s.len() == 0 {
        -1
    } else if s.last() == c {
        s.len() - 1
    } else {
        last_index_of(s.drop_last(), c)
    }
}

/// The parent process id in the text of `/proc/<pid>/stat`: the second
/// field after the last `)` (which closes the command name).
pub open spec fn stat_parent_pid_spec(content: Seq<char>) -> Option<int> {
    let p = last_index_of(content, ')');
    if p < 0 {
        None
    } else {
        let f = words(content.skip(p + 1));
        if f.len() >= 2 {
            match parse_unsigned_spec(f[1], u32::MAX as int) {
                Ok(v) => Some(v),
                Err(_) => None,
            }
        } else {
            None
        }
    }
}

/// The parent process id in a `/proc/<pid>/stat` text (see `stat_parent_pid_spec`).
pub fn parent_pid_from_stat(content: &str) -> (r: Option<u32>)
    ensures
        match r {
            Some(v) => stat_parent_pid_spec(content@) == Some(v as int),
            None => stat_parent_pid_spec(content@) is None,
        },
{
    let cs = chars_of(content);
    let mut i: usize = cs.len();
    assert(content@.take(cs@.len() as int) =~= content@);
    while i > 0
        invariant
            cs@ == content@,
            i <= cs@.len(),
            last_index_of(content@, ')') == last_index_of(content@.take(i as int), ')'),
        ensures
            i <= cs@.len(),
            last_index_of(content@, ')') == last_index_of(content@.take(i as int), ')'),
            i > 0 ==> content@[i - 1] == ')',
        decreases i,
    {
        assert(content@.take(i as int).drop_last() =~= content@.take(i as int - 1));
        if cs[i - 1] == ')' {
            break;
        }
        i = i - 1;
    }
    proof {
        assert(content@.take(cs@.len() as int) =~= content@);
    }
    if i == 0 {
        assert(content@.take(0) =~= Seq::<char>::empty());
        return None;
    }
    assert(content@.take(i as int).last() == ')');
    assert(last_index_of(content@, ')') == i - 1);
    let rest = content.substring_char(i, cs.len());
    assert(rest@ =~= content@.skip(i as int));
    let fields = split_words(rest);
    if fields.len() < 2 {
        return None;
    }
    assert(fields.deep_view()[1] == fields@[1]@);
    match parse_unsigned(fields[1].as_str(), 0xffff_ffff) {
        Ok(v) => Some(v as u32),
        Err(_) => None,
    }
}

/// The process id that a `/proc` entry name gives: the name must be all
/// digits and the number must fit in a `u32`.
pub open spec fn pid_of_name_spec(name: Seq<char>) -> Option<int> {
    if all_digits(name) {
        match parse_unsigned_spec(name, u32::MAX as int) {
            Ok(v) => Some(v),
            Err(_) => None,
        }
    } else {
        None
    }
}

/// The process id of a `/proc` entry name (see `pid_of_name_spec`).
pub fn pid_of_entry_name(name: &str) -> (r: Option<u32>)
    ensures
        match r {
            Some(v) => pid_of_name_spec(name@) == Some(v as int),
            None => pid_of_name_spec(name@) is None,
        },
{
    let cs = chars_of(name);
    let mut i: usize = 0;
    while i < cs.len()
        invariant
            cs@ == name@,
            i <= cs@.len(),
            forall|k: int| 0 <= k < i ==> is_digit(#[trigger] name@[k]),
        decreases cs@.len() - i,
    {
        if cs[i] < '0' || cs[i] > '9' {
            assert(!is_digit(name@[i as int]));
            return None;
        }
        i = i + 1;
    }
    match parse_unsigned(name, 0xffff_ffff) {
        Ok(v) => Some(v as u32),
        Err(_) => None,
    }
}

/// A NUL character turned into a space; other characters unchanged.
pub open spec fn nul_as_space(c: char) -> char {
    if c == '\0' {
        ' '
    } else {
        c
    }
}

/// A text with every NUL character turned into a space.
pub open spec fn nul_to_space(s: Seq<char>) -> Seq<char> {
    s.map_values(|c: char| nul_as_space(c))
}

/// Turns every NUL character into a space.
pub fn replace_nul_with_space(s: &str) -> (r: String)
    ensures
        r@ == nul_to_space(s@),
{
    let cs = chars_of(s);
    let mut out = String::new();
    let mut start: usize = 0;
    let mut i: usize = 0;
    assert(s@.take(0) =~= Seq::<char>::empty());
    assert(nul_to_space(s@.take(0)) =~= Seq::<char>::empty());
    assert(out@ + s@.subrange(0, 0) =~= Seq::<char>::empty());
    while i < cs.len()
        invariant
            cs@ == s@,
            start <= i <= cs@.len(),
            out@ + s@.subrange(start as int, i as int) == nul_to_space(s@.take(i as int)),
            forall|k: int| start <= k < i ==> s@[k] != '\0',
        decreases cs@.len() - i,
    {
        assert(nul_to_space(s@.take(i as int + 1)) =~= nul_to_space(s@.take(i as int)).push(
            nul_as_space(cs@[i as int]),
        ));
        if cs[i] == '\0' {
            out.append(s.substring_char(start, i));
            proof {
                reveal_strlit(" ");
            }
            out.append(" ");
            start = i + 1;
            assert(s@.subrange(start as int, i as int + 1) =~= Seq::<char>::empty());
        } else {
            assert(s@.subrange(start as int, i as int + 1) =~= s@.subrange(
                start as int,
                i as int,
            ).push(cs@[i as int]));
        }
        i = i + 1;
    }
    out.append(s.substring_char(start, cs.len()));
    assert(s@.take(cs@.len() as int) =~= s@);
    out
}

/// Whether a process command line (arguments separated by NUL) mentions
/// NAILS: `nails` occurs in it in lower case, NULs taken as spaces.
pub fn cmdline_mentions_nails(cmdline: &str) -> (r: bool)
    ensures
        r == text_contains(lower_text(nul_to_space(cmdline@)), "nails"@),
{
    let spaced = replace_nul_with_space(cmdline);
    let lower = to_lower_text(spaced.as_str());
    contains_text(lower.as_str(), "nails")
}

/// The text of an optional text.
pub open spec fn opt_text(o: Option<String>) -> Option<Seq<char>> {
    match o {
        Some(t) => Some(t@),
        None => None,
    }
}

/// Whether a `/proc` entry is a process other than the excluded ones whose
/// command line (where it could be read) mentions NAILS.
pub open spec fn proc_entry_matches(
    name: Seq<char>,
    cmdline: Option<Seq<char>>,
    excluded: Seq<u32>,
) -> bool {
    match pid_of_name_spec(name) {
        None => false,
        Some(p) => !(exists|j: int| 0 <= j < excluded.len() && #[trigger] excluded[j] as int == p)
            && match cmdline {
            Some(c) => text_contains(lower_text(nul_to_space(c)), "nails"@),
            None => false,
        },
    }
}

/// Whether `v` is among `list`.
fn contains_pid(list: &Vec<u32>, v: u32) -> (r: bool)
    ensures
        r == exists|j: int| 0 <= j < list@.len() && #[trigger] list@[j] as int == v as int,
{
    let mut j: usize = 0;
    while j < list.len()
        invariant
            j <= list@.len(),
            forall|k: int| 0 <= k < j ==> #[trigger] list@[k] != v,
        decreases list@.len() - j,
    {
        if list[j] == v {
            return true;
        }
        j = j + 1;
    }
    false
}

/// Whether some entry of a `/proc` listing, given as entry names with the
/// command lines that could be read, is a NAILS process other than the
/// excluded ones (this process and its ancestors).
pub fn nails_process_listed(procs: &Vec<(String, Option<String>)>, excluded: &Vec<u32>) -> (r:
    bool)
    ensures
        r == exists|i: int|
            0 <= i < procs@.len() && #[trigger] proc_entry_matches(
                procs@[i].0@,
                opt_text(procs@[i].1),
                excluded@,
            ),
{
    let mut i: usize = 0;
    while i < procs.len()
        invariant
            i <= procs@.len(),
            forall|k: int|
                0 <= k < i ==> !#[trigger] proc_entry_matches(
                    procs@[k].0@,
                    opt_text(procs@[k].1),
                    excluded@,
                ),
        decreases procs@.len() - i,
    {
        let (name, cmdline) = &procs[i];
        match pid_of_entry_name(name.as_str()) {
            Some(pid) => {
                if !contains_pid(excluded, pid) {
                    match cmdline {
                        Some(c) => {
                            if cmdline_mentions_nails(c.as_str()) {
                                assert(proc_entry_matches(
                                    procs@[i as int].0@,
                                    opt_text(procs@[i as int].1),
                                    excluded@,
                                ));
                                return true;
                            }
                        },
                        None => {},
                    }
                }
            },
            None => {},
        }
        i = i + 1;
    }
    false
}

/// The error for empty `du` output.
pub open spec fn du_empty_error(path: Seq<char>) -> ErrView {
    ErrView::Io(IoErrorKind::InvalidData, "du -sb "@ + path + " returned empty output"@)
}

/// The size that `du -sb` reports (its first word), or the error for
/// output without a word or whose first word is not a number.
pub open spec fn du_size_spec(stdout: Seq<char>, path: Seq<char>) -> std::result::Result<
    u64,
    ErrView,
> {
    let w = words(stdout);
    if w.len() == 0 {
        Err(du_empty_error(path))
    } else {
        match parse_unsigned_spec(w[0], u64::MAX as int) {
            Ok(v) => Ok(v as u64),
            Err(e) => Err(
                ErrView::Io(
                    IoErrorKind::InvalidData,
                    "Failed to parse du output '"@ + w[0] + "': "@ + int_error_text(e),
                ),
            ),
        }
    }
}

/// The size that `du -sb` printed for `path` (see `du_size_spec`).
pub fn du_reported_size(stdout: &str, path: &str) -> (r: Result<u64>)
    ensures
        rv(r) == du_size_spec(stdout@, path@),
{
    let w = split_words(stdout);
    if w.len() == 0 {
        let mut m = concat("du -sb ", path);
        m.append(" returned empty output");
        return Err(NailsError::IoError(IoError::new(IoErrorKind::InvalidData, m)));
    }
    assert(w.deep_view()[0] == w@[0]@);
    match parse_unsigned(w[0].as_str(), 0xffff_ffff_ffff_ffff) {
        Ok(v) => Ok(v),
        Err(e) => {
            let mut m = concat("Failed to parse du output '", w[0].as_str());
            m.append("': ");
            let t = int_error_message(e);
            m.append(t.as_str());
            Err(NailsError::IoError(IoError::new(IoErrorKind::InvalidData, m)))
        },
    }
}

/// Size of each write when a file is overwritten during secure deletion, in bytes.
pub const SECURE_DELETE_CHUNK_BYTES: u64 = 65536;

/// The sizes of the writes that cover `total` bytes, `chunk` bytes at a
/// time with a shorter last write.
pub open spec fn chunk_sizes_spec(total: nat, chunk: nat) -> Seq<nat>
    decreases total,
{
    if total == 0 || chunk == 0 {
        Seq::empty()
    } else if total <= chunk {
        seq![total]
    } else {
        seq![chunk] + chunk_sizes_spec((total - chunk) as nat, chunk)
    }
}

/// The sizes of the writes of one overwrite pass over a file of
/// `file_size` bytes (see `chunk_sizes_spec`).
pub fn secure_overwrite_chunks(file_size: u64) -> (r: Vec<u64>)
    ensures
        r@.map_values(|x: u64| x as nat) == chunk_sizes_spec(
            file_size as nat,
            SECURE_DELETE_CHUNK_BYTES as nat,
        ),
{
    let mut out: Vec<u64> = Vec::new();
    let mut remaining: u64 = file_size;
    let ghost c = SECURE_DELETE_CHUNK_BYTES as nat;
    assert(out@.map_values(|x: u64| x as nat) + chunk_sizes_spec(remaining as nat, c) =~= chunk_sizes_spec(file_size as nat, c));
    while remaining > 0
        invariant
            c == SECURE_DELETE_CHUNK_BYTES as nat,
            out@.map_values(|x: u64| x as nat) + chunk_sizes_spec(remaining as nat, c)
                == chunk_sizes_spec(file_size as nat, c),
        decreases remaining,
    {
        let ghost before = out@.map_values(|x: u64| x as nat);
        if remaining <= SECURE_DELETE_CHUNK_BYTES {
            out.push(remaining);
            assert(out@.map_values(|x: u64| x as nat) =~= before.push(remaining as nat));
            assert(chunk_sizes_spec(remaining as nat, c) == seq![remaining as nat]);
            assert(chunk_sizes_spec(0, c) =~= Seq::<nat>::empty());
            assert(before.push(remaining as nat) + Seq::<nat>::empty() =~= before + seq![remaining as nat]);
            remaining = 0;
        } else {
            out.push(SECURE_DELETE_CHUNK_BYTES);
            assert(out@.map_values(|x: u64| x as nat) =~= before.push(c));
            assert(chunk_sizes_spec(remaining as nat, c) == seq![c] + chunk_sizes_spec(
                (remaining - SECURE_DELETE_CHUNK_BYTES) as nat,
                c,
            ));
            assert(before.push(c) + chunk_sizes_spec((remaining - SECURE_DELETE_CHUNK_BYTES) as nat, c)
                =~= before + (seq![c] + chunk_sizes_spec((remaining - SECURE_DELETE_CHUNK_BYTES) as nat, c)));
            remaining = remaining - SECURE_DELETE_CHUNK_BYTES;
        }
    }
    assert(chunk_sizes_spec(0, c) =~= Seq::<nat>::empty());
    assert(out@.map_values(|x: u64| x as nat) + Seq::<nat>::empty() =~= out@.map_values(|x: u64| x as nat));
    out
}

/// The total of a list of sizes.
pub open spec fn total_of(s: Seq<nat>) -> nat
    decreases s.len(),
{
    if s.len() == 0 {
        0
    } else {
        s[0] + total_of(s.drop_first())
    }
}

/// An overwrite pass covers the whole file: the writes add up to its size,
/// none is empty and none exceeds the chunk size.
pub proof fn law_overwrite_covers_file(total: nat, chunk: nat)
    requires
        chunk > 0,
    ensures
        total_of(chunk_sizes_spec(total, chunk)) == total,
        forall|i: int|
            0 <= i < chunk_sizes_spec(total, chunk).len() ==> 0 < #[trigger] chunk_sizes_spec(
                total,
                chunk,
            )[i] <= chunk,
    decreases total,
{
    let s = chunk_sizes_spec(total, chunk);
    if total == 0 {
    } else if total <= chunk {
        assert(s.drop_first() =~= Seq::<nat>::empty());
        assert(total_of(s.drop_first()) == 0);
        assert(total_of(s) == s[0] + total_of(s.drop_first()));
    } else {
        let rest = chunk_sizes_spec((total - chunk) as nat, chunk);
        law_overwrite_covers_file((total - chunk) as nat, chunk);
        assert(s.drop_first() =~= rest);
        assert(s[0] == chunk);
        assert(total_of(s) == s[0] + total_of(s.drop_first()));
        assert forall|i: int| 0 <= i < s.len() implies 0 < #[trigger] s[i] <= chunk by {
            if i > 0 {
                assert(s[i] == rest[i - 1]);
            }
        }
    }
}

} // verus!
