//! What the functions on text do to texts put together from known parts.

use vstd::prelude::*;

use crate::scan::lemma_first_in;
use crate::text::{
    before_char, char_at, decimal, digit_value, digits_value, find_char, has_prefix, is_white,
    lemma_decimal_value, occurs, padded, parsed_u64, replace_all, stands_at, stripped, trim, trim_end, trim_start,
    zeros,
};

verus! {

/// Whether a character does not occur in a text.
pub open spec fn lacks(s: Seq<char>, c: char) -> bool {
    forall|i: int| 0 <= i < s.len() ==> #[trigger] s[i] != c
}

/// Whether a text is nothing but white space.
pub open spec fn blank(s: Seq<char>) -> bool {
    forall|i: int| 0 <= i < s.len() ==> is_white(#[trigger] s[i])
}

/// Whether a text is empty or has no white space at its ends.
pub open spec fn tight(s: Seq<char>) -> bool {
    s.len() > 0 ==> !is_white(s[0]) && !is_white(s.last())
}

/// A text stands where it was put.
pub proof fn law_occurs(a: Seq<char>, p: Seq<char>, b: Seq<char>)
    ensures
        stands_at(a + p + b, p, a.len() as int),
        occurs(a + p + b, p),
{
    let s = a + p + b;
    assert(s.subrange(a.len() as int, (a.len() + p.len()) as int) =~= p);
    assert(stands_at(s, p, a.len() as int));
}

/// Where a text stands, its characters are there.
pub proof fn lemma_stands_chars(s: Seq<char>, p: Seq<char>, i: int, k: int)
    requires
        stands_at(s, p, i),
        0 <= k < p.len(),
    ensures
        s[i + k] == p[k],
{
    assert(s.subrange(i, i + p.len())[k] == s[i + k]);
}

/// A text whose characters are in place stands there.
pub proof fn lemma_stands(s: Seq<char>, p: Seq<char>, i: int)
    requires
        0 <= i,
        i + p.len() <= s.len(),
        forall|k: int| 0 <= k < p.len() ==> #[trigger] p[k] == s[i + k],
    ensures
        stands_at(s, p, i),
{
    assert(s.subrange(i, i + p.len()) =~= p);
}

/// What comes before the first occurrence of a text is not changed by replacing it.
pub proof fn lemma_replace_prefix(a: Seq<char>, b: Seq<char>, pat: Seq<char>, with: Seq<char>)
    requires
        forall|i: int| 0 <= i < a.len() ==> !#[trigger] stands_at(a + b, pat, i),
    ensures
        replace_all(a + b, pat, with) == a + replace_all(b, pat, with),
    decreases a.len(),
{
    if a.len() == 0 {
        assert(a + b =~= b);
        assert(a + replace_all(b, pat, with) =~= replace_all(b, pat, with));
    } else if pat.len() == 0 {
        assert(stands_at(a + b, pat, 0)) by {
            assert((a + b).subrange(0, 0) =~= pat);
        }
    } else {
        let rest = a.drop_first();
        assert((a + b).drop_first() =~= rest + b);
        assert forall|i: int| 0 <= i < rest.len() implies !#[trigger] stands_at(
            rest + b,
            pat,
            i,
        ) by {
            if stands_at(rest + b, pat, i) {
                assert((a + b).subrange(i + 1, i + 1 + pat.len()) =~= (rest + b).subrange(
                    i,
                    i + pat.len(),
                ));
                assert(stands_at(a + b, pat, i + 1));
            }
        }
        lemma_replace_prefix(rest, b, pat, with);
        assert(!stands_at(a + b, pat, 0));
        assert(seq![a[0]] + (rest + replace_all(b, pat, with)) =~= a + replace_all(b, pat, with));
    }
}

/// A text in which the pattern does not occur stays as it is.
pub proof fn law_replace_none(s: Seq<char>, pat: Seq<char>, with: Seq<char>)
    requires
        !occurs(s, pat),
    ensures
        replace_all(s, pat, with) == s,
{
    let none = Seq::<char>::empty();
    assert(s + none =~= s);
    assert forall|i: int| 0 <= i < s.len() implies !#[trigger] stands_at(s + none, pat, i) by {
        assert(s + none == s);
    }
    lemma_replace_prefix(s, none, pat, with);
    assert(replace_all(none, pat, with) == none);
}

/// The first occurrence of the pattern is replaced, and what follows it treated in
/// the same way.
pub proof fn law_replace_first(a: Seq<char>, pat: Seq<char>, b: Seq<char>, with: Seq<char>)
    requires
        pat.len() > 0,
        forall|i: int| 0 <= i < a.len() ==> !#[trigger] stands_at(a + (pat + b), pat, i),
    ensures
        replace_all(a + (pat + b), pat, with) == a + (with + replace_all(b, pat, with)),
{
    lemma_replace_prefix(a, pat + b, pat, with);
    assert((pat + b).subrange(0, pat.len() as int) =~= pat);
    assert((pat + b).skip(pat.len() as int) =~= b);
}

/// What holds of all characters of a text and of those that replace some of them
/// holds of all characters of the outcome.
pub proof fn lemma_replace_keeps(
    s: Seq<char>,
    pat: Seq<char>,
    with: Seq<char>,
    p: spec_fn(char) -> bool,
)
    requires
        forall|i: int| 0 <= i < s.len() ==> p(#[trigger] s[i]),
        forall|i: int| 0 <= i < with.len() ==> p(#[trigger] with[i]),
    ensures
        forall|i: int|
            0 <= i < replace_all(s, pat, with).len() ==> p(
                #[trigger] replace_all(s, pat, with)[i],
            ),
    decreases s.len(),
{
    if s.len() > 0 && pat.len() > 0 {
        let (head, rest) = if stands_at(s, pat, 0) {
            (with, s.skip(pat.len() as int))
        } else {
            (seq![s[0]], s.drop_first())
        };
        assert(forall|i: int| 0 <= i < head.len() ==> p(#[trigger] head[i]));
        lemma_replace_keeps(rest, pat, with, p);
        let more = replace_all(rest, pat, with);
        let all = replace_all(s, pat, with);
        assert(all == head + more);
        assert forall|i: int| 0 <= i < all.len() implies p(#[trigger] all[i]) by {
            if i >= head.len() {
                assert(all[i] == more[i - head.len()]);
            } else {
                assert(all[i] == head[i]);
            }
        }
    }
}

proof fn lemma_trim_end_blank(t: Seq<char>, y: Seq<char>)
    requires
        blank(y),
        t.len() > 0 ==> !is_white(t.last()),
    ensures
        trim_end(t + y) == t,
    decreases y.len(),
{
    if y.len() == 0 {
        assert(t + y =~= t);
    } else {
        assert((t + y).last() == y[y.len() - 1]);
        assert((t + y).drop_last() =~= t + y.drop_last());
        lemma_trim_end_blank(t, y.drop_last());
    }
}

proof fn lemma_trim_start_blank(x: Seq<char>, t: Seq<char>)
    requires
        blank(x),
    ensures
        trim_start(x + t) == trim_start(t),
    decreases x.len(),
{
    if x.len() == 0 {
        assert(x + t =~= t);
    } else {
        assert((x + t)[0] == x[0]);
        assert((x + t).drop_first() =~= x.drop_first() + t);
        lemma_trim_start_blank(x.drop_first(), t);
    }
}

/// Trimming takes the white space off both ends, all of it, and nothing else.
pub proof fn law_trim_exact(x: Seq<char>, t: Seq<char>, y: Seq<char>)
    requires
        blank(x),
        blank(y),
        tight(t),
    ensures
        trim(x + t + y) == t,
{
    assert(x + t + y =~= x + (t + y));
    lemma_trim_start_blank(x, t + y);
    if t.len() == 0 {
        assert(t + y =~= y + t);
        lemma_trim_start_blank(y, t);
    } else {
        assert((t + y)[0] == t[0]);
        lemma_trim_end_blank(t, y);
    }
}

/// The white space characters of ASCII are tab, line feed, vertical tab, form feed,
/// carriage return and space.
pub proof fn law_ascii_white(c: char)
    requires
        (c as int) < 0x80,
    ensures
        is_white(c) <==> c == '\t' || c == '\n' || c as int == 0xB || c as int == 0xC || c == '\r'
            || c == ' ',
{
}

/// A character is found where it first stands.
pub proof fn law_find_char(a: Seq<char>, c: char, b: Seq<char>)
    requires
        lacks(a, c),
    ensures
        find_char(a + seq![c] + b, c) == Some(a.len() as int),
        before_char(a + seq![c] + b, c) == a,
{
    let s = a + seq![c] + b;
    lemma_first_in(char_at(s, c), 0, s.len() as int);
    assert(s[a.len() as int] == c);
    let here = char_at(s, c);
    assert(here(a.len() as int));
    assert forall|i: int| 0 <= i < a.len() implies !#[trigger] here(i) by {
        assert(s[i] == a[i]);
    }
    assert(s.take(a.len() as int) =~= a);
}

/// A character that does not occur is not found.
pub proof fn law_find_no_char(s: Seq<char>, c: char)
    requires
        lacks(s, c),
    ensures
        find_char(s, c) is None,
        before_char(s, c) == s,
{
    lemma_first_in(char_at(s, c), 0, s.len() as int);
}

/// What follows a prefix is what was put behind it.
pub proof fn law_stripped(prefix: Seq<char>, rest: Seq<char>)
    ensures
        has_prefix(prefix + rest, prefix),
        stripped(prefix + rest, prefix) == Some(rest),
{
    assert((prefix + rest).subrange(0, prefix.len() as int) =~= prefix);
    assert((prefix + rest).skip(prefix.len() as int) =~= rest);
}

/// The digits of a number are digits.
pub proof fn lemma_decimal_digits(n: nat)
    ensures
        decimal(n).len() >= 1,
        forall|i: int| 0 <= i < decimal(n).len() ==> '0' <= #[trigger] decimal(n)[i] <= '9',
    decreases n,
{
    if n >= 10 {
        lemma_decimal_digits(n / 10);
    }
}

/// The digits of a number filled up with zeros are digits.
pub proof fn lemma_padded_digits(n: nat, width: nat)
    ensures
        forall|i: int|
            0 <= i < padded(n, width).len() ==> '0' <= #[trigger] padded(n, width)[i] <= '9',
{
    lemma_decimal_digits(n);
    let s = padded(n, width);
    assert forall|i: int| 0 <= i < s.len() implies '0' <= #[trigger] s[i] <= '9' by {
        let k = width - decimal(n).len();
        if decimal(n).len() < width && i >= k {
            assert(s[i] == decimal(n)[i - k]);
        } else if decimal(n).len() < width {
            assert(s[i] == zeros(k)[i]);
        }
    }
}

proof fn lemma_no_value(s: Seq<char>, i: int)
    requires
        0 <= i < s.len(),
        digit_value(s[i]) is None,
    ensures
        digits_value(s) is None,
    decreases s.len(),
{
    if i < s.len() - 1 {
        lemma_no_value(s.drop_last(), i);
    }
}

/// A text that holds anything but digits, and a plus sign in front, is not a number.
pub proof fn law_not_a_number(s: Seq<char>, i: int)
    requires
        0 <= i < s.len(),
        !('0' <= s[i] <= '9'),
        i > 0 || s[i] != '+',
    ensures
        parsed_u64(s) is None,
{
    if s[0] == '+' {
        assert(s.drop_first()[i - 1] == s[i]);
        lemma_no_value(s.drop_first(), i - 1);
    } else {
        lemma_no_value(s, i);
    }
}

/// The white space characters are those that Unicode names so.
pub proof fn law_white(c: char)
    ensures
        is_white(c) <==> seq![
            0x9int, 0xA, 0xB, 0xC, 0xD, 0x20, 0x85, 0xA0, 0x1680, 0x2000, 0x2001, 0x2002, 0x2003,
            0x2004, 0x2005, 0x2006, 0x2007, 0x2008, 0x2009, 0x200A, 0x2028, 0x2029, 0x202F, 0x205F,
            0x3000,
        ].contains(c as int),
{
    let all = seq![
        0x9int, 0xA, 0xB, 0xC, 0xD, 0x20, 0x85, 0xA0, 0x1680, 0x2000, 0x2001, 0x2002, 0x2003,
        0x2004, 0x2005, 0x2006, 0x2007, 0x2008, 0x2009, 0x200A, 0x2028, 0x2029, 0x202F, 0x205F,
        0x3000,
    ];
    let n = c as int;
    if is_white(c) {
        let i: int = if n <= 0xD {
            n - 9
        } else if n == 0x20 {
            5
        } else if n == 0x85 {
            6
        } else if n == 0xA0 {
            7
        } else if n == 0x1680 {
            8
        } else if n <= 0x200A {
            n - 0x2000 + 9
        } else if n == 0x2028 {
            20
        } else if n == 0x2029 {
            21
        } else if n == 0x202F {
            22
        } else if n == 0x205F {
            23
        } else {
            24
        };
        assert(all[i] == n);
    }
}

/// A plus sign in front of a number changes nothing. Nothing at all is not a number, and
/// neither is a plus sign alone.
pub proof fn law_signed_number(n: u64, none: Seq<char>)
    requires
        none.len() == 0,
    ensures
        parsed_u64(seq!['+'] + decimal(n as nat)) == Some(n),
        parsed_u64(none) is None,
        parsed_u64(seq!['+']) is None,
{
    lemma_decimal_value(n as nat);
    assert((seq!['+'] + decimal(n as nat)).drop_first() =~= decimal(n as nat));
    assert(seq!['+'].drop_first() =~= seq![]);
}

/// A number that does not fit 64 bits is not read.
pub proof fn law_number_too_large(n: nat)
    requires
        n > u64::MAX,
    ensures
        parsed_u64(decimal(n)) is None,
{
    lemma_decimal_value(n);
}

/// A text that has a prefix starts with its characters.
pub proof fn law_prefix_chars(s: Seq<char>, prefix: Seq<char>, k: int)
    requires
        has_prefix(s, prefix),
        0 <= k < prefix.len(),
    ensures
        s.len() >= prefix.len(),
        s[k] == prefix[k],
{
    lemma_stands_chars(s, prefix, 0, k);
}

} // verus!
