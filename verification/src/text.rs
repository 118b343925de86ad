//! Decimal text of numbers, prefixes and joined texts.
use vstd::prelude::*;

verus! {

pub open spec fn digit_char(d: nat) -> char {
    if d == 0 {
        '0'
    } else if d == 1 {
        '1'
    } else if d == 2 {
        '2'
    } else if d == 3 {
        '3'
    } else if d == 4 {
        '4'
    } else if d == 5 {
        '5'
    } else if d == 6 {
        '6'
    } else if d == 7 {
        '7'
    } else if d == 8 {
        '8'
    } else {
        '9'
    }
}

/// The decimal text of a number (as `Display` writes it).
pub open spec fn decimal(n: nat) -> Seq<char>
    decreases n,
{
    if n < 10 {
        seq![digit_char(n)]
    } else {
        decimal(n / 10) + seq![digit_char(n % 10)]
    }
}

pub(crate) fn append_digit(out: &mut String, d: u64)
    requires
        d < 10,
    ensures
        final(out)@ == old(out)@ + seq![digit_char(d as nat)],
{
    if d == 0 {
        proof { reveal_strlit("0"); }
        out.append("0");
    } else if d == 1 {
        proof { reveal_strlit("1"); }
        out.append("1");
    } else if d == 2 {
        proof { reveal_strlit("2"); }
        out.append("2");
    } else if d == 3 {
        proof { reveal_strlit("3"); }
        out.append("3");
    } else if d == 4 {
        proof { reveal_strlit("4"); }
        out.append("4");
    } else if d == 5 {
        proof { reveal_strlit("5"); }
        out.append("5");
    } else if d == 6 {
        proof { reveal_strlit("6"); }
        out.append("6");
    } else if d == 7 {
        proof { reveal_strlit("7"); }
        out.append("7");
    } else if d == 8 {
        proof { reveal_strlit("8"); }
        out.append("8");
    } else {
        proof { reveal_strlit("9"); }
        out.append("9");
    }
}

/// The decimal text of an integer, with `-` before a negative one.
pub open spec fn signed_decimal(v: int) -> Seq<char> {
    if v < 0 {
        seq!['-'] + decimal((-v) as nat)
    } else {
        decimal(v as nat)
    }
}

/// Appends the decimal text of `v` (see `signed_decimal`).
pub fn append_signed_decimal(out: &mut String, v: i64)
    ensures
        final(out)@ == old(out)@ + signed_decimal(v as int),
{
    if v < 0 {
        let ghost start = out@;
        out.append("-");
        proof {
            reveal_strlit("-");
        }
        let a: u64 = ((-(v + 1)) as u64) + 1;
        append_decimal(out, a);
        assert(out@ =~= start + signed_decimal(v as int));
    } else {
        append_decimal(out, v as u64);
    }
}

/// A decimal text has no `/`.
pub proof fn lemma_decimal_no_slash(n: nat)
    ensures
        !decimal(n).contains('/'),
    decreases n,
{
    if n >= 10 {
        lemma_decimal_no_slash(n / 10);
        let d = decimal(n / 10);
        assert forall|i: int| 0 <= i < decimal(n).len() implies decimal(n)[i] != '/' by {
            if i < d.len() {
                assert(decimal(n)[i] == d[i]);
            }
        }
    }
}

/// A decimal text has at least one digit.
pub proof fn lemma_decimal_nonempty(n: nat)
    ensures
        decimal(n).len() >= 1,
        n >= 10 ==> decimal(n).len() >= 2,
    decreases n,
{
    if n >= 10 {
        lemma_decimal_nonempty(n / 10);
    }
}

/// Different numbers have different decimal texts.
pub proof fn lemma_decimal_injective(a: nat, b: nat)
    requires
        decimal(a) == decimal(b),
    ensures
        a == b,
    decreases a + b,
{
    lemma_decimal_nonempty(a);
    lemma_decimal_nonempty(b);
    if a < 10 && b < 10 {
        assert(decimal(a)[0] == digit_char(a));
        assert(decimal(b)[0] == digit_char(b));
    } else if a >= 10 && b >= 10 {
        let da = decimal(a / 10);
        let db = decimal(b / 10);
        assert(decimal(a).drop_last() =~= da);
        assert(decimal(b).drop_last() =~= db);
        assert(decimal(a).last() == digit_char(a % 10));
        assert(decimal(b).last() == digit_char(b % 10));
        lemma_decimal_injective(a / 10, b / 10);
    }
}

/// Appends the decimal text of `n`.
pub fn append_decimal(out: &mut String, n: u64)
    ensures
        final(out)@ == old(out)@ + decimal(n as nat),
    decreases n,
{
    if n < 10 {
        append_digit(out, n);
    } else {
        append_decimal(out, n / 10);
        append_digit(out, n % 10);
        assert(final(out)@ =~= old(out)@ + decimal(n as nat)) by {
            assert(decimal(n as nat) == decimal((n / 10) as nat) + seq![digit_char((n % 10) as nat)]);
        }
    }
}

/// Whether `s` begins with `prefix`.
pub fn has_prefix(s: &str, prefix: &str) -> (r: bool)
    ensures
        r == prefix@.is_prefix_of(s@),
{
    let sc = crate::path::chars_of(s);
    let pc = crate::path::chars_of(prefix);
    if pc.len() > sc.len() {
        return false;
    }
    let mut i: usize = 0;
    while i < pc.len()
        invariant
            sc@ == s@,
            pc@ == prefix@,
            pc@.len() <= sc@.len(),
            i <= pc@.len(),
            forall|j: int| 0 <= j < i ==> pc@[j] == sc@[j],
        decreases pc@.len() - i,
    {
        if pc[i] != sc[i] {
            return false;
        }
        i = i + 1;
    }
    true
}

/// Texts joined by `sep`.
pub open spec fn joined(items: Seq<Seq<char>>, sep: Seq<char>) -> Seq<char>
    decreases items.len(),
{
    if items.len() == 0 {
        Seq::empty()
    } else if items.len() == 1 {
        items[0]
    } else {
        joined(items.drop_last(), sep) + sep + items.last()
    }
}

/// Joins texts with `sep`.
pub fn join_with(items: &Vec<String>, sep: &str) -> (r: String)
    ensures
        r@ == joined(items.deep_view(), sep@),
{
    let ghost iv = items.deep_view();
    let mut out = String::new();
    let mut i: usize = 0;
    while i < items.len()
        invariant
            iv == items.deep_view(),
            i <= items@.len(),
            out@ == joined(iv.take(i as int), sep@),
        decreases items@.len() - i,
    {
        assert(iv.take(i as int + 1).drop_last() =~= iv.take(i as int));
        assert(iv[i as int] == items@[i as int]@);
        if i > 0 {
            out.append(sep);
        }
        out.append(items[i].as_str());
        proof {
            if i == 0 {
                assert(iv.take(0) =~= Seq::<Seq<char>>::empty());
                assert(out@ =~= iv.take(1)[0]);
            } else {
                assert(out@ =~= joined(iv.take(i as int), sep@) + sep@ + iv[i as int]);
            }
        }
        i = i + 1;
    }
    assert(iv.take(items@.len() as int) =~= iv);
    out
}

} // verus!
