//! What surrounds a run: labels for the log, batches, health and memory.

use vstd::prelude::*;

use crate::api::exec::{ExecRequest, ExecResponse};
use crate::scan::{first_in, lemma_first_in};
use crate::text::{
    char_at, find_from, is_white, matches_at, parse_u64, parsed_u64, stands_at, substring,
    to_chars, white,
};

verus! {

/// A request to run several pieces of code.
#[derive(Debug, PartialEq, Eq)]
pub struct BatchRequest {
    pub executions: Vec<ExecRequest>,
}

/// The answers to a batch, in the order of its requests.
#[derive(Debug, PartialEq, Eq)]
pub struct BatchResponse {
    pub results: Vec<ExecResponse>,
}

/// What the log says of a request.
#[derive(Debug, PartialEq, Eq)]
pub struct JobLabel {
    pub request_id: String,
    pub language: String,
    pub snippet: String,
}

/// Whether a character is a hexadecimal digit in lower case.
pub open spec fn is_hex(c: char) -> bool {
    '0' <= c <= '9' || 'a' <= c <= 'f'
}

/// Whether a text is a UUID of version 7: 32 hexadecimal digits in five groups, with
/// the version and the variant in their places.
pub open spec fn is_uuid_v7(s: Seq<char>) -> bool {
    &&& s.len() == 36
    &&& forall|i: int|
        0 <= i < 36 ==> if i == 8 || i == 13 || i == 18 || i == 23 {
            #[trigger] s[i] == '-'
        } else {
            is_hex(s[i])
        }
    &&& s[14] == '7'
    &&& s[19] == '8' || s[19] == '9' || s[19] == 'a' || s[19] == 'b'
}

/// `uuid::Uuid::now_v7` in its text form, which is that of every UUID of version 7.
/// Which one it is depends on the time and on chance, and is not stated. The call
/// panics where the machine's clock is set before 1970 or its source of randomness
/// fails.
#[verifier::external_body]
fn new_uuid() -> (r: String)
    ensures
        is_uuid_v7(r@),
{
    uuid::Uuid::now_v7().to_string()
}

/// The part of the code that is logged: its first 500 characters.
pub open spec fn snippet_of(code: Seq<char>) -> Seq<char> {
    if code.len() <= 500 {
        code
    } else {
        code.take(500)
    }
}

/// The part of the code that is logged.
pub fn code_snippet(code: &str) -> (r: String)
    ensures
        r@ == snippet_of(code@),
{
    let chars = to_chars(code);
    let end: usize = if chars.len() <= 500 {
        chars.len()
    } else {
        500
    };
    let r = substring(&chars, 0, end);
    assert(r@ =~= snippet_of(code@));
    r
}

/// Whether a label is one for a request.
pub open spec fn labels(label: JobLabel, req: ExecRequest) -> bool {
    &&& is_uuid_v7(label.request_id@)
    &&& label.language@ == req.language@
    &&& label.snippet@ == snippet_of(req.code@)
}

/// Gives a request an identifier, and notes what the log says of it.
pub fn label_job(req: &ExecRequest) -> (r: JobLabel)
    ensures
        labels(r, *req),
{
    JobLabel {
        request_id: new_uuid(),
        language: req.language.clone(),
        snippet: code_snippet(req.code.as_str()),
    }
}

/// Labels the requests of a batch, in their order.
pub fn label_batch(req: &BatchRequest) -> (r: Vec<JobLabel>)
    ensures
        r@.len() == req.executions@.len(),
        forall|i: int|
            0 <= i < r@.len() ==> labels(#[trigger] r@[i], req.executions@[i]),
{
    let mut r: Vec<JobLabel> = Vec::new();
    let mut i: usize = 0;
    while i < req.executions.len()
        invariant
            i <= req.executions@.len(),
            r@.len() == i,
            forall|j: int| 0 <= j < i ==> labels(#[trigger] r@[j], req.executions@[j]),
        decreases req.executions@.len() - i,
    {
        let label = label_job(&req.executions[i]);
        r.push(label);
        i += 1;
    }
    r
}

/// Whether a template can be forked, whether it has NumPy, and the memory of its VM
/// in MB.
#[derive(Clone, Copy, Debug, PartialEq, Eq)]
pub struct TemplateStatus {
    pub ready: bool,
    pub numpy: bool,
    pub memory_mb: u64,
}

/// The state of the server: one entry for each template.
#[derive(Debug, PartialEq, Eq)]
pub struct HealthResponse {
    pub status: String,
    pub templates: Vec<(String, TemplateStatus)>,
}

/// Whether an entry of the health report is that of a template, given with the
/// memory of its VM in MB: it is ready, and the one for Python has NumPy.
pub open spec fn reports(entry: (String, TemplateStatus), template: (String, u64)) -> bool {
    &&& entry.0@ == template.0@
    &&& entry.1.ready
    &&& entry.1.numpy == (template.0@ == "python"@)
    &&& entry.1.memory_mb == template.1
}

/// The state of the server, given the templates that were loaded, each with the
/// memory of its VM in MB.
pub fn health(templates: &Vec<(String, u64)>) -> (r: HealthResponse)
    ensures
        r.status@ == "ok"@,
        r.templates@.len() == templates@.len(),
        forall|i: int|
            0 <= i < templates@.len() ==> reports(#[trigger] r.templates@[i], templates@[i]),
{
    let python: String = "python".to_string();
    let mut entries: Vec<(String, TemplateStatus)> = Vec::new();
    let mut i: usize = 0;
    while i < templates.len()
        invariant
            i <= templates@.len(),
            python@ == "python"@,
            entries@.len() == i,
            forall|j: int| 0 <= j < i ==> reports(#[trigger] entries@[j], templates@[j]),
        decreases templates@.len() - i,
    {
        let name: String = templates[i].0.clone();
        let numpy: bool = name == python;
        let memory_mb: u64 = templates[i].1;
        entries.push((name, TemplateStatus { ready: true, numpy, memory_mb }));
        i += 1;
    }
    HealthResponse { status: "ok".to_string(), templates: entries }
}

/// Where the line that starts at `lo` ends.
pub open spec fn line_end(s: Seq<char>, lo: int) -> int {
    match first_in(char_at(s, '\n'), lo, s.len() as int) {
        Some(i) => i,
        None => s.len() as int,
    }
}

/// Where the first line, of those from `lo` on, that starts with `label` starts.
pub open spec fn labelled_line(s: Seq<char>, label: Seq<char>, lo: int) -> Option<int>
    decreases s.len() + 1 - lo,
{
    if lo >= s.len() {
        None
    } else if stands_at(s, label, lo) {
        Some(lo)
    } else {
        proof {
            lemma_first_in(char_at(s, '\n'), lo, s.len() as int);
        }
        labelled_line(s, label, line_end(s, lo) + 1)
    }
}

/// Where a character that is not white space stands.
pub open spec fn dark_at(s: Seq<char>) -> spec_fn(int) -> bool {
    |i: int| !is_white(s[i])
}

/// Where white space stands.
pub open spec fn white_at(s: Seq<char>) -> spec_fn(int) -> bool {
    |i: int| is_white(s[i])
}

/// Where the first word in `lo..hi` starts and ends.
pub open spec fn word_in(s: Seq<char>, lo: int, hi: int) -> Option<(int, int)> {
    match first_in(dark_at(s), lo, hi) {
        None => None,
        Some(start) => Some(
            (
                start,
                match first_in(white_at(s), start, hi) {
                    Some(end) => end,
                    None => hi,
                },
            ),
        ),
    }
}

/// The resident memory in KiB that the text of `/proc/self/status` gives: the second
/// word of the first line that starts with `VmRSS:`, where it is a number.
pub open spec fn resident_kib(status: Seq<char>) -> Option<u64> {
    match labelled_line(status, "VmRSS:"@, 0) {
        None => None,
        Some(lo) => {
            let hi = line_end(status, lo);
            match word_in(status, lo, hi) {
                None => None,
                Some((_, end)) => match word_in(status, end, hi) {
                    None => None,
                    Some((start, stop)) => parsed_u64(status.subrange(start, stop)),
                },
            }
        },
    }
}

fn find_line_end(s: &Vec<char>, lo: usize) -> (r: usize)
    requires
        lo <= s@.len(),
    ensures
        r == line_end(s@, lo as int),
        lo <= r <= s@.len(),
{
    match find_from(s, '\n', lo) {
        Some(i) => i,
        None => s.len(),
    }
}

fn find_labelled_line(s: &Vec<char>, label: &Vec<char>) -> (r: Option<usize>)
    ensures
        match r {
            Some(i) => labelled_line(s@, label@, 0) == Some(i as int) && i < s@.len(),
            None => labelled_line(s@, label@, 0) is None,
        },
{
    let len: usize = s.len();
    let mut lo: usize = 0;
    while lo < len
        invariant
            len == s@.len(),
            labelled_line(s@, label@, 0) == labelled_line(s@, label@, lo as int),
        decreases len - lo,
    {
        if matches_at(s, label, lo) {
            return Some(lo);
        }
        let end: usize = find_line_end(s, lo);
        if end == len {
            assert(labelled_line(s@, label@, end + 1) is None);
            return None;
        }
        lo = end + 1;
    }
    None
}

fn find_word(s: &Vec<char>, lo: usize, hi: usize) -> (r: Option<(usize, usize)>)
    requires
        lo <= hi <= s@.len(),
    ensures
        match r {
            Some((a, b)) => word_in(s@, lo as int, hi as int) == Some((a as int, b as int)) && lo
                <= a <= b <= hi,
            None => word_in(s@, lo as int, hi as int) is None,
        },
{
    let mut a: usize = lo;
    while a < hi && white(s[a])
        invariant
            lo <= a <= hi <= s@.len(),
            first_in(dark_at(s@), lo as int, hi as int) == first_in(
                dark_at(s@),
                a as int,
                hi as int,
            ),
        decreases hi - a,
    {
        a += 1;
    }
    if a == hi {
        return None;
    }
    let mut b: usize = a;
    while b < hi && !white(s[b])
        invariant
            a <= b <= hi <= s@.len(),
            first_in(white_at(s@), a as int, hi as int) == first_in(
                white_at(s@),
                b as int,
                hi as int,
            ),
        decreases hi - b,
    {
        b += 1;
    }
    Some((a, b))
}

/// The resident memory in KiB that the text of `/proc/self/status` gives.
pub fn rss_kib(status: &str) -> (r: Option<u64>)
    ensures
        r == resident_kib(status@),
{
    let s = to_chars(status);
    let label = to_chars("VmRSS:");
    let lo: usize = match find_labelled_line(&s, &label) {
        Some(lo) => lo,
        None => return None,
    };
    let hi: usize = find_line_end(&s, lo);
    let (_, end) = match find_word(&s, lo, hi) {
        Some(w) => w,
        None => return None,
    };
    match find_word(&s, end, hi) {
        Some((start, stop)) => parse_u64(&s, start, stop),
        None => None,
    }
}

/// The resident memory in bytes, none where it is not known.
pub fn rss_bytes(kib: Option<u64>) -> (r: u64)
    requires
        kib matches Some(k) ==> k * 1024 <= u64::MAX,
    ensures
        r == match kib {
            Some(k) => k * 1024,
            None => 0,
        },
{
    match kib {
        Some(k) => k * 1024,
        None => 0,
    }
}

} // verus!
