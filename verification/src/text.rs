//! Text: decimal numbers, white space, and search and replacement.

use vstd::prelude::*;

use crate::scan::first_in;

verus! {

/// `String::push` appends the character to the string.
pub assume_specification[ String::push ](s: &mut String, c: char)
    ensures
        final(s)@ == old(s)@.push(c),
;

/// The characters of a string.
pub fn to_chars(s: &str) -> (r: Vec<char>)
    ensures
        r@ == s@,
{
    let mut r: Vec<char> = Vec::new();
    for c in it: s.chars()
        invariant
            it.seq() == s@,
            r@ == s@.take(it.index() as int),
    {
        r.push(c);
    }
    r
}

/// The string of the given characters.
pub fn from_chars(chars: &[char]) -> (r: String)
    ensures
        r@ == chars@,
{
    let mut r = String::new();
    let mut i: usize = 0;
    assert(r@ =~= chars@.take(0));
    while i < chars.len()
        invariant
            i <= chars@.len(),
            r@ == chars@.take(i as int),
        decreases chars@.len() - i,
    {
        r.push(chars[i]);
        i += 1;
        assert(r@ =~= chars@.take(i as int));
    }
    assert(r@ =~= chars@);
    r
}

/// The digit `d`.
pub open spec fn digit(d: nat) -> char {
    (48 + d) as char
}

/// The decimal digits of a number, without leading zeros.
pub open spec fn decimal(n: nat) -> Seq<char>
    decreases n,
{
    if n < 10 {
        seq![digit(n)]
    } else {
        decimal(n / 10).push(digit(n % 10))
    }
}

/// `n` zeros.
pub open spec fn zeros(n: int) -> Seq<char> {
    Seq::new(n as nat, |i: int| '0')
}

/// The decimal digits of a number, filled up with zeros on the left to `width`.
pub open spec fn padded(n: nat, width: nat) -> Seq<char> {
    if decimal(n).len() < width {
        zeros(width - decimal(n).len()) + decimal(n)
    } else {
        decimal(n)
    }
}

fn digit_char(d: u64) -> (c: char)
    requires
        d < 10,
    ensures
        c == digit(d as nat),
{
    (0x30 + d as u8) as char
}

/// Appends the decimal digits of a number.
pub fn push_decimal(out: &mut String, n: u64)
    ensures
        final(out)@ == old(out)@ + decimal(n as nat),
    decreases n,
{
    if n >= 10 {
        push_decimal(out, n / 10);
    }
    out.push(digit_char(n % 10));
    proof {
        assert(out@ =~= old(out)@ + decimal(n as nat));
    }
}

proof fn lemma_padded_step(n: nat, width: nat)
    requires
        width > 1,
    ensures
        padded(n, width) == padded(n / 10, (width - 1) as nat).push(digit(n % 10)),
{
    if n < 10 {
        assert(decimal(0) =~= seq!['0']);
        assert(padded(0, (width - 1) as nat) =~= zeros(width - 1));
    }
    assert(padded(n, width) =~= padded(n / 10, (width - 1) as nat).push(digit(n % 10)));
}

/// Ten to the power of `n`.
pub open spec fn pow10(n: nat) -> nat
    decreases n,
{
    if n == 0 {
        1
    } else {
        10 * pow10((n - 1) as nat)
    }
}

/// Whether one text comes before another in the order of their characters.
pub open spec fn precedes(a: Seq<char>, b: Seq<char>) -> bool {
    exists|i: int| #[trigger] differs_at(a, b, i)
}

/// Whether two texts agree before position `i`, and the first is over there or has
/// the lesser character.
pub open spec fn differs_at(a: Seq<char>, b: Seq<char>, i: int) -> bool {
    &&& 0 <= i <= a.len()
    &&& i < b.len()
    &&& forall|j: int| 0 <= j < i ==> #[trigger] a[j] == b[j]
    &&& i == a.len() || a[i] < b[i]
}

/// Of two texts that start with texts of the same length, the one whose start comes
/// first comes first.
pub proof fn lemma_precedes_start(a: Seq<char>, b: Seq<char>, x: Seq<char>, y: Seq<char>)
    requires
        a.len() == b.len(),
        precedes(a, b),
    ensures
        precedes(a + x, b + y),
{
    let i = choose|i: int| #[trigger] differs_at(a, b, i);
    assert(differs_at(a + x, b + y, i));
}

/// Of two texts with the same start, the one whose rest comes first comes first.
pub proof fn lemma_precedes_rest(a: Seq<char>, x: Seq<char>, y: Seq<char>)
    requires
        precedes(x, y),
    ensures
        precedes(a + x, a + y),
{
    let i = choose|i: int| #[trigger] differs_at(x, y, i);
    assert forall|j: int| 0 <= j < a.len() + i implies #[trigger] (a + x)[j] == (a + y)[j] by {
        if j >= a.len() {
            assert(x[j - a.len()] == y[j - a.len()]);
        }
    }
    assert(differs_at(a + x, a + y, a.len() + i));
}

/// A text does not come before itself, and of two texts only one comes before the
/// other.
pub proof fn lemma_precedes_strict(a: Seq<char>, b: Seq<char>)
    requires
        precedes(a, b),
    ensures
        a != b,
        !precedes(b, a),
{
    let i = choose|i: int| #[trigger] differs_at(a, b, i);
    if precedes(b, a) {
        let k = choose|k: int| #[trigger] differs_at(b, a, k);
        if i < k {
            assert(b[i] == a[i]);
        } else if k < i {
            assert(a[k] == b[k]);
        }
    }
}

/// A number that fits `width` digits is filled up to exactly those.
pub proof fn lemma_padded_len(n: nat, width: nat)
    requires
        width >= 1,
        n < pow10(width),
    ensures
        padded(n, width).len() == width,
        forall|i: int|
            0 <= i < width ==> digit_value(#[trigger] padded(n, width)[i]) is Some,
    decreases width,
{
    reveal_with_fuel(pow10, 2);
    if width > 1 {
        lemma_padded_step(n, width);
        lemma_padded_len(n / 10, (width - 1) as nat);
        let front = padded(n / 10, (width - 1) as nat);
        assert forall|i: int| 0 <= i < width implies digit_value(
            #[trigger] padded(n, width)[i],
        ) is Some by {
            if i < width - 1 {
                assert(padded(n, width)[i] == front[i]);
            }
        }
    }
}

/// Numbers of the same width come in the order of their values.
pub proof fn law_padded_order(m: nat, n: nat, width: nat)
    requires
        width >= 1,
        m < n < pow10(width),
    ensures
        precedes(padded(m, width), padded(n, width)),
    decreases width,
{
    reveal_with_fuel(pow10, 2);
    lemma_padded_len(m, width);
    lemma_padded_len(n, width);
    if width == 1 {
        assert(differs_at(padded(m, 1), padded(n, 1), 0));
    } else {
        lemma_padded_step(m, width);
        lemma_padded_step(n, width);
        let w = (width - 1) as nat;
        let a = padded(m / 10, w);
        let b = padded(n / 10, w);
        let x = seq![digit(m % 10)];
        let y = seq![digit(n % 10)];
        lemma_padded_len(m / 10, w);
        lemma_padded_len(n / 10, w);
        assert(padded(m, width) =~= a + x);
        assert(padded(n, width) =~= b + y);
        if m / 10 < n / 10 {
            law_padded_order(m / 10, n / 10, w);
            lemma_precedes_start(a, b, x, y);
        } else {
            assert(differs_at(x, y, 0));
            lemma_precedes_rest(a, x, y);
        }
    }
}

/// Appends the decimal digits of a number, filled up with zeros on the left to
/// `width`.
pub fn push_padded(out: &mut String, n: u64, width: u64)
    ensures
        final(out)@ == old(out)@ + padded(n as nat, width as nat),
    decreases width, n,
{
    if width > 1 {
        push_padded(out, n / 10, width - 1);
        out.push(digit_char(n % 10));
        proof {
            lemma_padded_step(n as nat, width as nat);
            assert(out@ =~= old(out)@ + padded(n as nat, width as nat));
        }
    } else {
        push_decimal(out, n);
    }
}

/// Whether a character is white space: it has the Unicode property White_Space.
pub open spec fn is_white(c: char) -> bool {
    ||| 0x9 <= c as int <= 0xD
    ||| c as int == 0x20
    ||| c as int == 0x85
    ||| c as int == 0xA0
    ||| c as int == 0x1680
    ||| 0x2000 <= c as int <= 0x200A
    ||| c as int == 0x2028
    ||| c as int == 0x2029
    ||| c as int == 0x202F
    ||| c as int == 0x205F
    ||| c as int == 0x3000
}

/// Whether a character is white space.
pub fn white(c: char) -> (r: bool)
    ensures
        r == is_white(c),
{
    let v: u32 = c as u32;
    (0x9 <= v && v <= 0xD) || v == 0x20 || v == 0x85 || v == 0xA0 || v == 0x1680 || (0x2000 <= v
        && v <= 0x200A) || v == 0x2028 || v == 0x2029 || v == 0x202F || v == 0x205F || v == 0x3000
}

/// The text without the white space in front.
pub open spec fn trim_start(s: Seq<char>) -> Seq<char>
    decreases s.len(),
{
    if s.len() > 0 && is_white(s[0]) {
        trim_start(s.drop_first())
    } else {
        s
    }
}

/// The text without the white space behind.
pub open spec fn trim_end(s: Seq<char>) -> Seq<char>
    decreases s.len(),
{
    if s.len() > 0 && is_white(s.last()) {
        trim_end(s.drop_last())
    } else {
        s
    }
}

/// The text without the white space at both ends.
pub open spec fn trim(s: Seq<char>) -> Seq<char> {
    trim_end(trim_start(s))
}

/// Where the text in `lo..hi` starts and ends without the white space at both ends.
pub fn trim_range(s: &[char], lo: usize, hi: usize) -> (r: (usize, usize))
    requires
        lo <= hi <= s@.len(),
    ensures
        lo <= r.0 <= r.1 <= hi,
        s@.subrange(r.0 as int, r.1 as int) == trim(s@.subrange(lo as int, hi as int)),
{
    let ghost all = s@.subrange(lo as int, hi as int);
    let mut a: usize = lo;
    while a < hi && white(s[a])
        invariant
            lo <= a <= hi <= s@.len(),
            trim_start(all) == trim_start(s@.subrange(a as int, hi as int)),
        decreases hi - a,
    {
        assert(s@.subrange(a as int, hi as int).drop_first() =~= s@.subrange(a + 1, hi as int));
        a += 1;
    }
    let mut b: usize = hi;
    while b > a && white(s[b - 1])
        invariant
            lo <= a <= b <= hi <= s@.len(),
            trim(all) == trim_end(s@.subrange(a as int, b as int)),
        decreases b - a,
    {
        assert(s@.subrange(a as int, b as int).drop_last() =~= s@.subrange(a as int, b - 1));
        b -= 1;
    }
    (a, b)
}

/// Trimmed text has no white space at either end.
pub proof fn law_trimmed(s: Seq<char>)
    ensures
        trim(s).len() > 0 ==> !is_white(trim(s)[0]) && !is_white(trim(s).last()),
        trim(trim(s)) == trim(s),
{
    lemma_trim_start(s);
    lemma_trim_end(trim_start(s));
}

proof fn lemma_trim_start(s: Seq<char>)
    ensures
        trim_start(s).len() > 0 ==> !is_white(trim_start(s)[0]),
    decreases s.len(),
{
    if s.len() > 0 && is_white(s[0]) {
        lemma_trim_start(s.drop_first());
    }
}

proof fn lemma_trim_end(s: Seq<char>)
    ensures
        trim_end(s).len() > 0 ==> !is_white(trim_end(s).last()) && trim_end(s)[0] == s[0],
    decreases s.len(),
{
    if s.len() > 0 && is_white(s.last()) {
        lemma_trim_end(s.drop_last());
    }
}

/// Whether `pat` stands at position `i` of `s`.
pub open spec fn stands_at(s: Seq<char>, pat: Seq<char>, i: int) -> bool {
    0 <= i && i + pat.len() <= s.len() && s.subrange(i, i + pat.len()) == pat
}

/// Whether `pat` occurs in `s`.
pub open spec fn occurs(s: Seq<char>, pat: Seq<char>) -> bool {
    exists|i: int| #[trigger] stands_at(s, pat, i)
}

/// Whether `pat` stands at position `i` of `s`.
pub fn matches_at(s: &[char], pat: &[char], i: usize) -> (r: bool)
    requires
        i <= s@.len(),
    ensures
        r == stands_at(s@, pat@, i as int),
{
    let n: usize = pat.len();
    if s.len() - i < n {
        return false;
    }
    let mut k: usize = 0;
    while k < n
        invariant
            k <= n,
            n == pat@.len(),
            i + n <= s@.len() <= usize::MAX,
            s@.subrange(i as int, i + k) == pat@.take(k as int),
        decreases n - k,
    {
        if s[i + k] != pat[k] {
            assert(s@.subrange(i as int, i + n)[k as int] != pat@[k as int]);
            return false;
        }
        assert(s@.subrange(i as int, i + k + 1) =~= s@.subrange(i as int, i + k).push(s@[i + k]));
        assert(pat@.take(k + 1) =~= pat@.take(k as int).push(pat@[k as int]));
        k += 1;
    }
    assert(pat@.take(n as int) =~= pat@);
    true
}

/// Whether `pat` occurs in `s`.
pub fn contains(s: &[char], pat: &[char]) -> (r: bool)
    ensures
        r == occurs(s@, pat@),
{
    let len: usize = s.len();
    let mut i: usize = 0;
    while i <= len && len - i >= pat.len()
        invariant
            len == s@.len(),
            i <= len + 1,
            forall|j: int| 0 <= j < i ==> !#[trigger] stands_at(s@, pat@, j),
        decreases len + 1 - i,
    {
        if matches_at(s, pat, i) {
            return true;
        }
        if i == len {
            return false;
        }
        i += 1;
    }
    false
}

/// The text with every occurrence of `pat` replaced, from left to right.
pub open spec fn replace_all(s: Seq<char>, pat: Seq<char>, with: Seq<char>) -> Seq<char>
    decreases s.len(),
{
    if s.len() == 0 || pat.len() == 0 {
        s
    } else if stands_at(s, pat, 0) {
        with + replace_all(s.skip(pat.len() as int), pat, with)
    } else {
        seq![s[0]] + replace_all(s.drop_first(), pat, with)
    }
}

/// Replaces every occurrence of `pat`, from left to right.
pub fn replace(s: &[char], pat: &[char], with: &[char]) -> (r: Vec<char>)
    requires
        pat@.len() > 0,
    ensures
        r@ == replace_all(s@, pat@, with@),
{
    let len: usize = s.len();
    let mut r: Vec<char> = Vec::new();
    let mut i: usize = 0;
    assert(s@.skip(0) =~= s@);
    assert(r@ + replace_all(s@, pat@, with@) =~= replace_all(s@, pat@, with@));
    while i < len
        invariant
            len == s@.len(),
            i <= len,
            pat@.len() > 0,
            r@ + replace_all(s@.skip(i as int), pat@, with@) == replace_all(s@, pat@, with@),
        decreases len - i,
    {
        let ghost rest = s@.skip(i as int);
        let ghost before = r@;
        let found: bool = matches_at(s, pat, i);
        proof {
            if i + pat@.len() <= len {
                assert(rest.subrange(0, pat@.len() as int) =~= s@.subrange(
                    i as int,
                    i + pat@.len(),
                ));
            }
            assert(found == stands_at(rest, pat@, 0));
        }
        if found {
            let mut k: usize = 0;
            while k < with.len()
                invariant
                    k <= with@.len(),
                    r@ == before + with@.take(k as int),
                decreases with@.len() - k,
            {
                r.push(with[k]);
                k += 1;
                assert(r@ =~= before + with@.take(k as int));
            }
            i += pat.len();
            proof {
                let tail = replace_all(s@.skip(i as int), pat@, with@);
                assert(with@.take(k as int) =~= with@);
                assert(rest.skip(pat@.len() as int) =~= s@.skip(i as int));
                assert(before + (with@ + tail) =~= r@ + tail);
            }
        } else {
            r.push(s[i]);
            i += 1;
            proof {
                let tail = replace_all(s@.skip(i as int), pat@, with@);
                assert(rest.drop_first() =~= s@.skip(i as int));
                assert(before + (seq![rest[0]] + tail) =~= r@ + tail);
            }
        }
    }
    assert(r@ + replace_all(s@.skip(i as int), pat@, with@) =~= r@);
    r
}

/// Where a character stands in a text.
pub open spec fn char_at(s: Seq<char>, c: char) -> spec_fn(int) -> bool {
    |i: int| s[i] == c
}

/// The first place of a character in a text.
pub open spec fn find_char(s: Seq<char>, c: char) -> Option<int> {
    first_in(char_at(s, c), 0, s.len() as int)
}

/// Finds the first place of `c` in `s` from `lo` on.
pub fn find_from(s: &[char], c: char, lo: usize) -> (r: Option<usize>)
    requires
        lo <= s@.len(),
    ensures
        match r {
            Some(i) => first_in(char_at(s@, c), lo as int, s@.len() as int) == Some(i as int) && lo
                <= i < s@.len(),
            None => first_in(char_at(s@, c), lo as int, s@.len() as int) is None,
        },
{
    let len: usize = s.len();
    let mut i: usize = lo;
    while i < len
        invariant
            lo <= i <= len,
            len == s@.len(),
            first_in(char_at(s@, c), lo as int, len as int) == first_in(
                char_at(s@, c),
                i as int,
                len as int,
            ),
        decreases len - i,
    {
        if s[i] == c {
            return Some(i);
        }
        i += 1;
    }
    None
}

/// The part of a text before the first `c`, or all of it where there is none.
pub open spec fn before_char(s: Seq<char>, c: char) -> Seq<char> {
    match find_char(s, c) {
        Some(i) => s.take(i),
        None => s,
    }
}

/// The value of a digit.
pub open spec fn digit_value(c: char) -> Option<nat> {
    if 48 <= c as int <= 57 {
        Some((c as int - 48) as nat)
    } else {
        None
    }
}

/// The number that a text of digits stands for.
pub open spec fn digits_value(s: Seq<char>) -> Option<nat>
    decreases s.len(),
{
    if s.len() == 0 {
        Some(0)
    } else {
        match (digits_value(s.drop_last()), digit_value(s.last())) {
            (Some(high), Some(low)) => Some(high * 10 + low),
            _ => None,
        }
    }
}

/// The 64-bit number that a text stands for: digits, at least one, with or without
/// a plus sign in front.
pub open spec fn parsed_u64(s: Seq<char>) -> Option<u64> {
    let digits = if s.len() > 0 && s[0] == '+' {
        s.drop_first()
    } else {
        s
    };
    match digits_value(digits) {
        Some(n) => if digits.len() > 0 && n <= u64::MAX {
            Some(n as u64)
        } else {
            None
        },
        None => None,
    }
}

proof fn lemma_digits_prefix(s: Seq<char>, i: int)
    requires
        0 <= i <= s.len(),
    ensures
        digits_value(s) is Some ==> digits_value(s.take(i)) is Some,
        digits_value(s) matches Some(n) ==> digits_value(s.take(i)).unwrap() <= n,
    decreases s.len() - i,
{
    if i < s.len() {
        lemma_digits_prefix(s, i + 1);
        assert(s.take(i + 1).drop_last() =~= s.take(i));
    } else {
        assert(s.take(i) =~= s);
    }
}

fn read_digit(c: char) -> (r: Option<u64>)
    ensures
        match r {
            Some(d) => d < 10 && digit_value(c) == Some(d as nat),
            None => digit_value(c) is None,
        },
{
    let v: u32 = c as u32;
    if 0x30 <= v && v <= 0x39 {
        Some((v - 0x30) as u64)
    } else {
        None
    }
}

/// Parses the text in `lo..hi` as a 64-bit number.
pub fn parse_u64(s: &[char], lo: usize, hi: usize) -> (r: Option<u64>)
    requires
        lo <= hi <= s@.len(),
    ensures
        r == parsed_u64(s@.subrange(lo as int, hi as int)),
{
    let ghost all = s@.subrange(lo as int, hi as int);
    let start: usize = if lo < hi && s[lo] == '+' {
        lo + 1
    } else {
        lo
    };
    let ghost digits = s@.subrange(start as int, hi as int);
    assert(start == lo + 1 ==> all.drop_first() =~= digits);
    if start == hi {
        return None;
    }
    let mut n: u64 = 0;
    let mut i: usize = start;
    assert(digits.take(0) =~= seq![]);
    while i < hi
        invariant
            lo <= start <= i <= hi <= s@.len(),
            all == s@.subrange(lo as int, hi as int),
            digits == s@.subrange(start as int, hi as int),
            digits_value(digits.take(i - start)) == Some(n as nat),
            parsed_u64(all) == match digits_value(digits) {
                Some(v) => if v <= u64::MAX {
                    Some(v as u64)
                } else {
                    None
                },
                None => None,
            },
        decreases hi - i,
    {
        let ch: char = s[i];
        proof {
            let next = digits.take(i + 1 - start);
            assert(next.drop_last() =~= digits.take(i - start));
            assert(next.last() == ch);
            assert(digits_value(next) == match digit_value(ch) {
                Some(d) => Some((n * 10 + d) as nat),
                None => None,
            });
            lemma_digits_prefix(digits, i + 1 - start);
        }
        let d: u64 = match read_digit(ch) {
            Some(d) => d,
            None => return None,
        };
        if n > 1844674407370955161 || (n == 1844674407370955161 && d > 5) {
            return None;
        }
        n = n * 10 + d;
        i += 1;
    }
    assert(digits.take(i - start) =~= digits);
    Some(n)
}

/// A number that was written in decimal is parsed to itself.
pub proof fn law_decimal_round_trip(n: u64)
    ensures
        parsed_u64(decimal(n as nat)) == Some(n),
{
    lemma_decimal_value(n as nat);
}

/// The digits of a number stand for it.
pub proof fn lemma_decimal_value(n: nat)
    ensures
        digits_value(decimal(n)) == Some(n),
        decimal(n).len() >= 1,
        decimal(n)[0] != '+',
    decreases n,
{
    reveal_with_fuel(digits_value, 2);
    if n >= 10 {
        lemma_decimal_value(n / 10);
        assert(decimal(n).drop_last() =~= decimal(n / 10));
    } else {
        assert(decimal(n).drop_last() =~= seq![]);
    }
}

/// Whether a text starts with `prefix`.
pub open spec fn has_prefix(s: Seq<char>, prefix: Seq<char>) -> bool {
    stands_at(s, prefix, 0)
}

/// Whether `text` starts with `prefix`.
pub fn starts_with(text: &str, prefix: &str) -> (r: bool)
    ensures
        r == has_prefix(text@, prefix@),
{
    let s = to_chars(text);
    let p = to_chars(prefix);
    matches_at(&s, &p, 0)
}

/// What follows `prefix` in a text that starts with it.
pub open spec fn stripped(s: Seq<char>, prefix: Seq<char>) -> Option<Seq<char>> {
    if has_prefix(s, prefix) {
        Some(s.skip(prefix.len() as int))
    } else {
        None
    }
}

/// The part of `s` in `lo..hi` as a string.
pub fn substring(s: &Vec<char>, lo: usize, hi: usize) -> (r: String)
    requires
        lo <= hi <= s@.len(),
    ensures
        r@ == s@.subrange(lo as int, hi as int),
{
    from_chars(vstd::slice::slice_subrange(s.as_slice(), lo, hi))
}

/// The text without the white space at both ends.
pub fn trim_text(s: &str) -> (r: String)
    ensures
        r@ == trim(s@),
{
    let chars = to_chars(s);
    let (lo, hi) = trim_range(&chars, 0, chars.len());
    assert(chars@.subrange(0, chars@.len() as int) =~= s@);
    substring(&chars, lo, hi)
}

/// What follows `prefix` in a text that starts with it.
pub fn strip_prefix(s: &str, prefix: &str) -> (r: Option<String>)
    ensures
        match r {
            Some(rest) => stripped(s@, prefix@) == Some(rest@),
            None => stripped(s@, prefix@) is None,
        },
{
    let chars = to_chars(s);
    let pat = to_chars(prefix);
    if matches_at(&chars, &pat, 0) {
        let rest = substring(&chars, pat.len(), chars.len());
        assert(rest@ =~= s@.skip(prefix@.len() as int));
        Some(rest)
    } else {
        None
    }
}

/// The part of a text before the first `c`, or all of it where there is none.
pub fn cut_before(s: &str, c: char) -> (r: String)
    ensures
        r@ == before_char(s@, c),
{
    let chars = to_chars(s);
    let end: usize = match find_from(&chars, c, 0) {
        Some(i) => i,
        None => chars.len(),
    };
    let r = substring(&chars, 0, end);
    assert(r@ =~= before_char(s@, c));
    r
}

} // verus!
