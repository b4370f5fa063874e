//! What is reported of texts that a VM prints.

use vstd::prelude::*;

use crate::api::exec::{plain_lines, printed, without_echo};
use crate::scan::lemma_first_in;
use crate::text::{
    before_char, char_at, find_char, is_white, occurs, replace_all, stands_at, trim,
};
use crate::text_laws::{
    blank, lacks, law_find_char, law_replace_first, law_replace_none, law_trim_exact,
    lemma_replace_keeps, lemma_replace_prefix, lemma_stands, lemma_stands_chars, tight,
};

verus! {

/// A text as a terminal prints it: each line ends in a carriage return and a line
/// feed.
pub open spec fn crlf(t: Seq<char>) -> Seq<char>
    decreases t.len(),
{
    if t.len() == 0 {
        t
    } else if t[0] == '\n' {
        seq!['\r', '\n'] + crlf(t.drop_first())
    } else {
        seq![t[0]] + crlf(t.drop_first())
    }
}

/// Whether a text is nothing but line ends.
pub open spec fn line_ends(s: Seq<char>) -> bool {
    forall|i: int| 0 <= i < s.len() ==> #[trigger] s[i] == '\r' || s[i] == '\n'
}

/// What comes before the marker that ends a run, with the line ends of a terminal.
pub open spec fn terminal_text(t: Seq<char>) -> Seq<char> {
    crlf(t) + seq!['\r', '\n']
}

/// What a VM prints that echoes a line, prints a text and then the marker.
pub open spec fn terminal_output(echo: Seq<char>, t: Seq<char>, tail: Seq<char>) -> Seq<char> {
    echo + seq!['\r', '\n'] + terminal_text(t) + "ZEROBOOT_DONE"@ + tail
}

proof fn lemma_crlf_apart(t: Seq<char>, rest: Seq<char>)
    requires
        lacks(t, '\r'),
    ensures
        replace_all(crlf(t) + rest, "\r\n"@, "\n"@) == t + replace_all(rest, "\r\n"@, "\n"@),
    decreases t.len(),
{
    reveal_strlit("\r\n");
    reveal_strlit("\n");
    let after = replace_all(rest, "\r\n"@, "\n"@);
    if t.len() == 0 {
        assert(crlf(t) + rest =~= rest);
        assert(t + after =~= after);
    } else {
        let more = t.drop_first();
        assert forall|i: int| 0 <= i < more.len() implies #[trigger] more[i] != '\r' by {
            assert(t[i + 1] == more[i]);
        }
        lemma_crlf_apart(more, rest);
        let s = crlf(t) + rest;
        if t[0] == '\n' {
            assert("\r\n"@ =~= seq!['\r', '\n']);
            let none = Seq::<char>::empty();
            assert(s =~= none + ("\r\n"@ + (crlf(more) + rest)));
            law_replace_first(none, "\r\n"@, crlf(more) + rest, "\n"@);
            assert(none + ("\n"@ + (more + after)) =~= t + after);
        } else {
            let first = seq![t[0]];
            assert(s =~= first + (crlf(more) + rest));
            assert forall|i: int| 0 <= i < first.len() implies !#[trigger] stands_at(
                first + (crlf(more) + rest),
                "\r\n"@,
                i,
            ) by {
                if stands_at(first + (crlf(more) + rest), "\r\n"@, i) {
                    lemma_stands_chars(first + (crlf(more) + rest), "\r\n"@, i, 0);
                }
            }
            lemma_replace_prefix(first, crlf(more) + rest, "\r\n"@, "\n"@);
            assert(first + (more + after) =~= t + after);
        }
    }
}

/// A place in a text printed by a terminal, and where its character came from.
pub open spec fn source(t: Seq<char>, i: int) -> int
    decreases t.len(),
{
    if t.len() == 0 {
        0
    } else if t[0] == '\n' {
        if i < 2 {
            0
        } else {
            1 + source(t.drop_first(), i - 2)
        }
    } else {
        if i < 1 {
            0
        } else {
            1 + source(t.drop_first(), i - 1)
        }
    }
}

proof fn lemma_source(t: Seq<char>, i: int)
    requires
        0 <= i < crlf(t).len(),
    ensures
        0 <= source(t, i) < t.len(),
        crlf(t)[i] != '\r' ==> crlf(t)[i] == t[source(t, i)],
        i + 1 < crlf(t).len() && crlf(t)[i] != '\n' && crlf(t)[i + 1] != '\r' && lacks(t, '\r')
            && crlf(t)[i] != '\r' ==> source(t, i + 1) == source(t, i) + 1,
    decreases t.len(),
{
    let more = t.drop_first();
    assert forall|k: int| 0 <= k < more.len() implies #[trigger] more[k] == t[k + 1] by {}
    if lacks(t, '\r') {
        assert forall|k: int| 0 <= k < more.len() implies #[trigger] more[k] != '\r' by {
            assert(t[k + 1] == more[k]);
        }
    }
    let w: int = if t[0] == '\n' {
        2
    } else {
        1
    };
    if i >= w {
        assert(crlf(t)[i] == crlf(more)[i - w]);
        if i + 1 < crlf(t).len() {
            assert(crlf(t)[i + 1] == crlf(more)[i + 1 - w]);
        }
        lemma_source(more, i - w);
    } else if i + 1 < crlf(t).len() && i + 1 >= w {
        assert(crlf(t)[i + 1] == crlf(more)[i + 1 - w]);
        lemma_first_source(more);
    }
}

proof fn lemma_first_source(t: Seq<char>)
    ensures
        source(t, 0) == 0,
{
}

proof fn lemma_marker_chars(k: int)
    requires
        0 <= k < "ZEROBOOT_DONE"@.len(),
    ensures
        "ZEROBOOT_DONE"@[k] != '\r',
        "ZEROBOOT_DONE"@[k] != '\n',
{
    reveal_strlit("ZEROBOOT_DONE");
}

/// The marker stands in what a terminal prints only where it stands in the text.
proof fn lemma_marker_in_crlf(t: Seq<char>, i: int)
    requires
        lacks(t, '\r'),
        stands_at(crlf(t), "ZEROBOOT_DONE"@, i),
    ensures
        occurs(t, "ZEROBOOT_DONE"@),
{
    let m = "ZEROBOOT_DONE"@;
    reveal_strlit("ZEROBOOT_DONE");
    assert(m.len() == 13);
    lemma_marker_sources(t, i, 12);
    let j = source(t, i);
    assert forall|k: int| 0 <= k < m.len() implies #[trigger] m[k] == t[j + k] by {
        lemma_marker_sources(t, i, k);
        lemma_stands_chars(crlf(t), m, i, k);
        lemma_marker_chars(k);
        lemma_source(t, i + k);
    }
    lemma_source(t, i);
    lemma_source(t, i + 12);
    lemma_stands(t, m, j);
}

proof fn lemma_marker_sources(t: Seq<char>, i: int, k: int)
    requires
        lacks(t, '\r'),
        stands_at(crlf(t), "ZEROBOOT_DONE"@, i),
        0 <= k < "ZEROBOOT_DONE"@.len(),
    ensures
        source(t, i + k) == source(t, i) + k,
    decreases k,
{
    if k > 0 {
        let m = "ZEROBOOT_DONE"@;
        lemma_marker_sources(t, i, k - 1);
        lemma_marker_chars(k - 1);
        lemma_marker_chars(k);
        lemma_stands_chars(crlf(t), m, i, k - 1);
        lemma_stands_chars(crlf(t), m, i, k);
        lemma_source(t, i + k - 1);
    }
}

/// The marker stands nowhere before the place where the VM puts it.
proof fn lemma_marker_first(head: Seq<char>, t: Seq<char>, tail: Seq<char>, i: int)
    requires
        lacks(t, '\r'),
        !occurs(t, "ZEROBOOT_DONE"@),
        head.len() > 0 ==> head.last() == '\n',
        forall|k: int|
            0 <= k < head.len() ==> !#[trigger] stands_at(head, "ZEROBOOT_DONE"@, k),
        0 <= i < (head + terminal_text(t)).len(),
    ensures
        !stands_at(head + terminal_text(t) + ("ZEROBOOT_DONE"@ + tail), "ZEROBOOT_DONE"@, i),
{
    let m = "ZEROBOOT_DONE"@;
    reveal_strlit("ZEROBOOT_DONE");
    let front = head + terminal_text(t);
    let s = front + (m + tail);
    if stands_at(s, m, i) {
        if i < head.len() {
            if i + m.len() <= head.len() {
                assert forall|k: int| 0 <= k < m.len() implies #[trigger] m[k] == head[i + k] by {
                    lemma_stands_chars(s, m, i, k);
                }
                lemma_stands(head, m, i);
            } else {
                let k = head.len() - 1 - i;
                lemma_stands_chars(s, m, i, k);
                lemma_marker_chars(k);
                assert(s[i + k] == head.last());
            }
        } else {
            let body = crlf(t);
            let end = head.len() + body.len();
            if i + m.len() <= end {
                assert forall|k: int| 0 <= k < m.len() implies #[trigger] m[k] == body[i
                    - head.len() + k] by {
                    lemma_stands_chars(s, m, i, k);
                    assert(s[i + k] == body[i + k - head.len()]);
                }
                lemma_stands(body, m, i - head.len());
                lemma_marker_in_crlf(t, i - head.len());
            } else {
                let k = if i <= end {
                    end - i
                } else {
                    0
                };
                lemma_stands_chars(s, m, i, k);
                lemma_marker_chars(k);
                assert(s[i + k] == '\r' || s[i + k] == '\n');
            }
        }
    }
}

proof fn lemma_unmarked_tail(tail: Seq<char>)
    requires
        line_ends(tail),
    ensures
        replace_all(tail, "ZEROBOOT_DONE"@, seq![]) == tail,
{
    let m = "ZEROBOOT_DONE"@;
    reveal_strlit("ZEROBOOT_DONE");
    if occurs(tail, m) {
        let i = choose|i: int| #[trigger] stands_at(tail, m, i);
        lemma_stands_chars(tail, m, i, 0);
        lemma_marker_chars(0);
        assert(tail[i] == '\r' || tail[i] == '\n');
    }
    law_replace_none(tail, m, seq![]);
}

/// The text that is left when the marker and the carriage returns are gone.
proof fn lemma_plain(line: Seq<char>, t: Seq<char>, tail: Seq<char>)
    requires
        lacks(line, '\r'),
        lacks(t, '\r'),
        !occurs(t, "ZEROBOOT_DONE"@),
        line.len() > 0 ==> line.last() == '\n',
        forall|k: int|
            0 <= k < crlf(line).len() ==> !#[trigger] stands_at(
                crlf(line),
                "ZEROBOOT_DONE"@,
                k,
            ),
        crlf(line).len() > 0 ==> crlf(line).last() == '\n',
        line_ends(tail),
    ensures
        ({
            let text = plain_lines(crlf(line) + terminal_text(t) + "ZEROBOOT_DONE"@ + tail);
            let kept = line + t + seq!['\n'];
            &&& text.len() >= kept.len()
            &&& text.take(kept.len() as int) == kept
            &&& blank(text.skip(kept.len() as int))
        }),
{
    let m = "ZEROBOOT_DONE"@;
    let none = Seq::<char>::empty();
    reveal_strlit("ZEROBOOT_DONE");
    reveal_strlit("\r\n");
    reveal_strlit("\n");
    reveal_strlit("\r");
    let front = crlf(line) + terminal_text(t);
    assert(front + m + tail =~= front + (m + tail));
    assert forall|i: int| 0 <= i < front.len() implies !#[trigger] stands_at(
        front + (m + tail),
        m,
        i,
    ) by {
        lemma_marker_first(crlf(line), t, tail, i);
    }
    law_replace_first(front, m, tail, none);
    lemma_unmarked_tail(tail);
    let unmarked = replace_all(front + m + tail, m, none);
    assert(unmarked =~= front + tail);
    // Line ends.
    let rest = terminal_text(t) + tail;
    assert(unmarked =~= crlf(line) + rest);
    lemma_crlf_apart(line, rest);
    let after = seq!['\r', '\n'] + tail;
    assert(rest =~= crlf(t) + after);
    lemma_crlf_apart(t, after);
    assert(after =~= none + ("\r\n"@ + tail));
    law_replace_first(none, "\r\n"@, tail, "\n"@);
    let tail1 = replace_all(tail, "\r\n"@, "\n"@);
    let joined = replace_all(unmarked, "\r\n"@, "\n"@);
    let kept = line + t + seq!['\n'];
    assert(joined =~= kept + tail1);
    let ends = |c: char| c == '\r' || c == '\n';
    lemma_replace_keeps(tail, "\r\n"@, "\n"@, ends);
    // Carriage returns.
    assert forall|i: int| 0 <= i < kept.len() implies !#[trigger] stands_at(
        kept + tail1,
        "\r"@,
        i,
    ) by {
        if stands_at(kept + tail1, "\r"@, i) {
            lemma_stands_chars(kept + tail1, "\r"@, i, 0);
            if i < line.len() {
                assert(kept[i] == line[i]);
            } else if i < line.len() + t.len() {
                assert(kept[i] == t[i - line.len()]);
            }
        }
    }
    lemma_replace_prefix(kept, tail1, "\r"@, none);
    lemma_replace_keeps(tail1, "\r"@, none, ends);
    let text = plain_lines(front + m + tail);
    let tail2 = replace_all(tail1, "\r"@, none);
    assert(text == kept + tail2);
    assert(text.take(kept.len() as int) =~= kept);
    assert(text.skip(kept.len() as int) =~= tail2);
    assert forall|i: int| 0 <= i < tail2.len() implies is_white(#[trigger] tail2[i]) by {
        assert(ends(tail2[i]));
    }
}

proof fn lemma_crlf_line(echo: Seq<char>)
    requires
        lacks(echo, '\n'),
    ensures
        crlf(echo + seq!['\n']) == echo + seq!['\r', '\n'],
    decreases echo.len(),
{
    let line = echo + seq!['\n'];
    if echo.len() == 0 {
        reveal_with_fuel(crlf, 2);
        assert(line.drop_first() =~= seq![]);
        assert(crlf(line) =~= echo + seq!['\r', '\n']);
    } else {
        let more = echo.drop_first();
        assert forall|i: int| 0 <= i < more.len() implies #[trigger] more[i] != '\n' by {
            assert(echo[i + 1] == more[i]);
        }
        lemma_crlf_line(more);
        assert(line.drop_first() =~= more + seq!['\n']);
        assert(line[0] == echo[0]);
        assert(crlf(line) =~= echo + seq!['\r', '\n']);
    }
}

/// Where a VM echoes the code on one line and then prints a text of any number of
/// lines, what is reported is that text, whole: the echoed line is taken away, and
/// every later line is kept.
pub proof fn law_echo_removed(
    echo: Seq<char>,
    t: Seq<char>,
    tail: Seq<char>,
    code: Seq<char>,
)
    requires
        lacks(echo, '\n'),
        lacks(echo, '\r'),
        !occurs(echo, "ZEROBOOT_DONE"@),
        trim(echo) == trim(code),
        lacks(t, '\r'),
        !occurs(t, "ZEROBOOT_DONE"@),
        tight(t),
        line_ends(tail),
    ensures
        printed(terminal_output(echo, t, tail), code) == t,
{
    let m = "ZEROBOOT_DONE"@;
    reveal_strlit("ZEROBOOT_DONE");
    let line = echo + seq!['\n'];
    let head = echo + seq!['\r', '\n'];
    lemma_crlf_line(echo);
    assert forall|k: int| 0 <= k < head.len() implies !#[trigger] stands_at(head, m, k) by {
        if stands_at(head, m, k) {
            if k + m.len() <= echo.len() {
                assert forall|j: int| 0 <= j < m.len() implies #[trigger] m[j] == echo[k + j] by {
                    lemma_stands_chars(head, m, k, j);
                }
                lemma_stands(echo, m, k);
            } else {
                let j = if k <= echo.len() {
                    echo.len() - k
                } else {
                    0
                };
                lemma_stands_chars(head, m, k, j);
                lemma_marker_chars(j);
            }
        }
    }
    lemma_plain(line, t, tail);
    let text = plain_lines(terminal_output(echo, t, tail));
    let kept = line + t + seq!['\n'];
    let white = text.skip(kept.len() as int);
    assert(text =~= kept + white);
    let rest = t + seq!['\n'] + white;
    assert(text =~= echo + seq!['\n'] + rest);
    law_find_char(echo, '\n', rest);
    assert(text.take(echo.len() as int) =~= echo);
    assert(without_echo(text, code) =~= rest);
    let ends = seq!['\n'] + white;
    assert forall|i: int| 0 <= i < ends.len() implies is_white(#[trigger] ends[i]) by {
        if i > 0 {
            assert(ends[i] == white[i - 1]);
        }
    }
    let none = Seq::<char>::empty();
    assert(rest =~= none + t + ends);
    law_trim_exact(none, t, ends);
}

/// Where what a VM prints does not start with an echo of the code, all of it is
/// reported.
pub proof fn law_all_reported(t: Seq<char>, tail: Seq<char>, code: Seq<char>)
    requires
        lacks(t, '\r'),
        !occurs(t, "ZEROBOOT_DONE"@),
        tight(t),
        line_ends(tail),
        trim(before_char(t, '\n')) != trim(code),
    ensures
        printed(terminal_text(t) + "ZEROBOOT_DONE"@ + tail, code) == t,
{
    let none = Seq::<char>::empty();
    assert(crlf(none) =~= none);
    lemma_plain(none, t, tail);
    assert(crlf(none) + terminal_text(t) =~= terminal_text(t));
    let text = plain_lines(terminal_text(t) + "ZEROBOOT_DONE"@ + tail);
    let kept = none + t + seq!['\n'];
    let white = text.skip(kept.len() as int);
    assert(text =~= kept + white);
    lemma_first_in(char_at(t, '\n'), 0, t.len() as int);
    match find_char(t, '\n') {
        Some(p) => {
            let a = t.take(p);
            let b = t.skip(p + 1) + seq!['\n'] + white;
            assert forall|i: int| 0 <= i < a.len() implies #[trigger] a[i] != '\n' by {
                assert(!char_at(t, '\n')(i));
            }
            assert(text =~= a + seq!['\n'] + b);
            law_find_char(a, '\n', b);
            assert(text.take(p) =~= a);
        },
        None => {
            assert forall|i: int| 0 <= i < t.len() implies #[trigger] t[i] != '\n' by {
                assert(!char_at(t, '\n')(i));
            }
            assert(text =~= t + seq!['\n'] + white);
            law_find_char(t, '\n', white);
            assert(text.take(t.len() as int) =~= t);
        },
    }
    assert(without_echo(text, code) == text);
    let ends = seq!['\n'] + white;
    assert forall|i: int| 0 <= i < ends.len() implies is_white(#[trigger] ends[i]) by {
        if i > 0 {
            assert(ends[i] == white[i - 1]);
        }
    }
    assert(text =~= none + t + ends);
    law_trim_exact(none, t, ends);
}

} // verus!
