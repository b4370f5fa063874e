//! What is logged of a request, and what is read of the memory in use.

use vstd::prelude::*;

use crate::api::exec::ExecRequest;
use crate::api::service::{
    dark_at, labelled_line, labels, line_end, reports, resident_kib, snippet_of, white_at,
    word_in, JobLabel, TemplateStatus,
};
use crate::scan::lemma_first_in;
use crate::text::{char_at, decimal, is_white, law_decimal_round_trip, stands_at};
use crate::text_laws::{blank, lacks, lemma_decimal_digits, lemma_stands};

verus! {

/// Code of up to 500 characters is logged whole, and of any other its first 500.
pub proof fn law_snippet(code: Seq<char>, more: Seq<char>)
    ensures
        code.len() <= 500 ==> snippet_of(code) == code,
        code.len() == 500 ==> snippet_of(code + more) == code,
{
    if code.len() == 500 {
        assert((code + more).take(500) =~= code);
        if more.len() == 0 {
            assert(code + more =~= code);
        }
    }
}

/// The label of a request names its language and starts its code.
pub proof fn law_label(label: JobLabel, req: ExecRequest)
    requires
        labels(label, req),
    ensures
        label.language@ == req.language@,
        label.snippet@.len() <= 500,
        label.snippet@ == req.code@.take(label.snippet@.len() as int),
        label.snippet@.len() == 500 || label.snippet@.len() == req.code@.len(),
{
    assert(req.code@.take(req.code@.len() as int) =~= req.code@);
}

/// Every template is reported under its name, as ready and with its memory. The one for
/// Python, and no other, has NumPy.
pub proof fn law_health_entry(entry: (String, TemplateStatus), template: (String, u64))
    requires
        reports(entry, template),
    ensures
        entry.0@ == template.0@,
        entry.1.ready,
        entry.1.memory_mb == template.1,
        entry.1.numpy <==> template.0@ == "python"@,
{
}

/// Whether no line of a text that starts before `end` starts with a label.
pub open spec fn unlabelled(s: Seq<char>, label: Seq<char>, end: int) -> bool {
    forall|k: int|
        0 <= k < end && (k == 0 || s[k - 1] == '\n') ==> !#[trigger] stands_at(s, label, k)
}

proof fn lemma_labelled(s: Seq<char>, label: Seq<char>, at: int, lo: int)
    requires
        0 <= lo <= at < s.len(),
        lo == 0 || s[lo - 1] == '\n',
        at == 0 || s[at - 1] == '\n',
        stands_at(s, label, at),
        unlabelled(s, label, at),
    ensures
        labelled_line(s, label, lo) == Some(at),
    decreases at - lo,
{
    if lo < at {
        assert(!stands_at(s, label, lo));
        let p = char_at(s, '\n');
        lemma_first_in(p, lo, s.len() as int);
        assert(p(at - 1));
        let end = line_end(s, lo);
        assert(p(end));
        lemma_labelled(s, label, at, end + 1);
    }
}

/// The resident memory is read from the first line that is labelled with it: the number
/// behind the label.
#[verifier::rlimit(30)]
pub proof fn law_resident_read(
    before: Seq<char>,
    gap: Seq<char>,
    kib: u64,
    rest: Seq<char>,
)
    requires
        before.len() > 0 ==> before.last() == '\n',
        gap.len() > 0,
        blank(gap),
        lacks(gap, '\n'),
        rest.len() > 0 ==> is_white(rest[0]),
        unlabelled(
            before + "VmRSS:"@ + gap + decimal(kib as nat) + rest,
            "VmRSS:"@,
            before.len() as int,
        ),
    ensures
        resident_kib(before + "VmRSS:"@ + gap + decimal(kib as nat) + rest) == Some(kib),
{
    reveal_strlit("VmRSS:");
    let label = "VmRSS:"@;
    let digits = decimal(kib as nat);
    let s = before + label + gap + digits + rest;
    let at = before.len() as int;
    let number = at + 6 + gap.len();
    let stop = number + digits.len();
    lemma_decimal_digits(kib as nat);
    assert forall|k: int| 0 <= k < label.len() implies #[trigger] label[k] == s[at + k] by {}
    lemma_stands(s, label, at);
    lemma_labelled(s, label, at, 0);
    assert forall|i: int| at <= i < stop implies #[trigger] s[i] != '\n' by {
        if i < at + 6 {
            assert(s[i] == label[i - at]);
        } else if i < number {
            assert(s[i] == gap[i - at - 6]);
        } else {
            assert(s[i] == digits[i - number]);
        }
    }
    let newline = char_at(s, '\n');
    lemma_first_in(newline, at, s.len() as int);
    let hi = line_end(s, at);
    assert(stop <= hi <= s.len());
    assert(stop < hi ==> is_white(s[stop])) by {
        if stop < s.len() {
            assert(s[stop] == rest[0]);
        }
    }
    // The label.
    let dark = dark_at(s);
    let white = white_at(s);
    lemma_first_in(dark, at, hi);
    assert(s[at] == 'V');
    assert(dark(at));
    lemma_first_in(white, at, hi);
    assert(s[at + 6] == gap[0]);
    assert(white(at + 6));
    assert forall|i: int| at <= i < at + 6 implies !#[trigger] white(i) by {
        assert(s[i] == label[i - at]);
    }
    assert(word_in(s, at, hi) == Some((at, at + 6)));
    // The number.
    lemma_first_in(dark, at + 6, hi);
    assert(s[number] == digits[0]);
    assert(dark(number));
    assert forall|i: int| at + 6 <= i < number implies !#[trigger] dark(i) by {
        assert(s[i] == gap[i - at - 6]);
    }
    lemma_first_in(white, number, hi);
    assert forall|i: int| number <= i < stop implies !#[trigger] white(i) by {
        assert(s[i] == digits[i - number]);
    }
    if stop < hi {
        assert(white(stop));
    }
    assert(word_in(s, at + 6, hi) == Some((number as int, stop as int)));
    assert(s.subrange(number as int, stop as int) =~= digits);
    law_decimal_round_trip(kib);
}

/// Without such a line, no memory is read.
pub proof fn law_no_resident(s: Seq<char>)
    requires
        unlabelled(s, "VmRSS:"@, s.len() as int),
    ensures
        resident_kib(s) is None,
{
    lemma_no_label(s, "VmRSS:"@, 0);
}

proof fn lemma_no_label(s: Seq<char>, label: Seq<char>, lo: int)
    requires
        0 <= lo,
        lo == 0 || lo > s.len() || s[lo - 1] == '\n',
        unlabelled(s, label, s.len() as int),
    ensures
        labelled_line(s, label, lo) is None,
    decreases s.len() + 1 - lo,
{
    if lo < s.len() {
        assert(!stands_at(s, label, lo));
        let p = char_at(s, '\n');
        lemma_first_in(p, lo, s.len() as int);
        lemma_no_label(s, label, line_end(s, lo) + 1);
    }
}

} // verus!
