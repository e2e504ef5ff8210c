use vstd::prelude::*;
use vstd::std_specs::iter::IteratorSpec;
use vstd::string::StrSliceExecFns;

verus! {

broadcast use vstd::string::group_string_axioms;

/// Position of the first line feed in `s`, or `s.len()` when there is none.
pub open spec fn first_newline(s: Seq<char>) -> nat
    decreases s.len(),
{
    if s.len() == 0 {
        0
    } else if s[0] == '\n' {
        0
    } else {
        1 + first_newline(s.drop_first())
    }
}

/// A line that ended with a line feed loses a carriage return before it.
pub open spec fn strip_cr(line: Seq<char>) -> Seq<char> {
    if line.len() > 0 && line.last() == '\r' {
        line.drop_last()
    } else {
        line
    }
}

/// The lines of a text: pieces separated by `\n` or `\r\n`, without their
/// terminators; a final terminator does not start an empty last line, and a
/// carriage return that is not followed by a line feed stays in its line.
pub open spec fn lines(s: Seq<char>) -> Seq<Seq<char>>
    decreases s.len(),
{
    if s.len() == 0 {
        seq![]
    } else {
        let k = first_newline(s);
        if k >= s.len() {
            seq![s]
        } else {
            seq![strip_cr(s.take(k as int))] + lines(s.skip(k as int + 1))
        }
    }
}

/// `s` has no line feed in `[from, to)`.
pub open spec fn no_newline(s: Seq<char>, from: int, to: int) -> bool {
    forall|i: int| from <= i < to ==> #[trigger] s[i] != '\n'
}

proof fn lemma_first_newline(t: Seq<char>, j: int)
    requires
        0 <= j <= t.len(),
        no_newline(t, 0, j),
        j == t.len() || t[j] == '\n',
    ensures
        first_newline(t) == j,
    decreases j,
{
    if j > 0 {
        assert(t[0] != '\n');
        let u = t.drop_first();
        assert forall|i: int| 0 <= i < j - 1 implies #[trigger] u[i] != '\n' by {
            assert(u[i] == t[i + 1]);
        }
        lemma_first_newline(u, j - 1);
    }
}

/// Splitting off the line that ends at the line feed at `j`.
proof fn lemma_lines_step(s: Seq<char>, start: int, j: int)
    requires
        0 <= start <= j < s.len(),
        no_newline(s, start, j),
        s[j] == '\n',
    ensures
        lines(s.skip(start)) == seq![strip_cr(s.subrange(start, j))] + lines(s.skip(j + 1)),
{
    let t = s.skip(start);
    assert forall|i: int| 0 <= i < j - start implies #[trigger] t[i] != '\n' by {
        assert(t[i] == s[start + i]);
    }
    lemma_first_newline(t, j - start);
    assert(t.take(j - start) =~= s.subrange(start, j));
    assert(t.skip(j - start + 1) =~= s.skip(j + 1));
}

/// The last line, which has no line feed after it.
proof fn lemma_lines_last(s: Seq<char>, start: int)
    requires
        0 <= start <= s.len(),
        no_newline(s, start, s.len() as int),
    ensures
        start < s.len() ==> lines(s.skip(start)) == seq![s.skip(start)],
        start == s.len() ==> lines(s.skip(start)) == Seq::<Seq<char>>::empty(),
{
    let t = s.skip(start);
    if start < s.len() {
        assert forall|i: int| 0 <= i < t.len() implies #[trigger] t[i] != '\n' by {
            assert(t[i] == s[start + i]);
        }
        lemma_first_newline(t, t.len() as int);
    } else {
        assert(t.len() == 0);
    }
}

/// A final line ending does not start an extra line: for a non-empty text
/// that does not already end with a line feed, appending `\r\n` leaves its
/// lines unchanged, and so does appending `\n` when the text does not end
/// with a carriage return.
pub proof fn lemma_final_line_ending(s: Seq<char>)
    requires
        s.len() > 0,
        s.last() != '\n',
    ensures
        lines(s + seq!['\r', '\n']) == lines(s),
        s.last() != '\r' ==> lines(s + seq!['\n']) == lines(s),
    decreases s.len(),
{
    let k = first_newline(s);
    lemma_first_newline_bound(s);
    let crlf = s + seq!['\r', '\n'];
    let lf = s + seq!['\n'];
    if k >= s.len() {
        assert(no_newline(s, 0, s.len() as int)) by {
            lemma_no_newline_before_first(s);
        }
        assert(no_newline(crlf, 0, s.len() as int + 1));
        lemma_first_newline(crlf, s.len() as int + 1);
        assert(crlf.take(s.len() as int + 1).drop_last() =~= s);
        assert(crlf.take(s.len() as int + 1).last() == '\r');
        assert(strip_cr(crlf.take(s.len() as int + 1)) == s);
        assert(crlf.skip(s.len() as int + 2) =~= Seq::<char>::empty());
        assert(lines(Seq::<char>::empty()) == Seq::<Seq<char>>::empty());
        assert(lines(crlf) =~= seq![s]);
        if s.last() != '\r' {
            assert(no_newline(lf, 0, s.len() as int));
            lemma_first_newline(lf, s.len() as int);
            assert(lf.take(s.len() as int) =~= s);
            assert(lf.skip(s.len() as int + 1) =~= Seq::<char>::empty());
            assert(lines(lf) =~= seq![s]);
        }
    } else {
        lemma_no_newline_before_first(s);
        let rest = s.skip(k as int + 1);
        assert(k as int + 1 < s.len());
        assert(rest.last() == s.last());
        lemma_final_line_ending(rest);
        assert(no_newline(crlf, 0, k as int));
        lemma_first_newline(crlf, k as int);
        assert(crlf.take(k as int) =~= s.take(k as int));
        assert(crlf.skip(k as int + 1) =~= rest + seq!['\r', '\n']);
        if s.last() != '\r' {
            assert(no_newline(lf, 0, k as int));
            lemma_first_newline(lf, k as int);
            assert(lf.take(k as int) =~= s.take(k as int));
            assert(lf.skip(k as int + 1) =~= rest + seq!['\n']);
        }
    }
}

proof fn lemma_first_newline_bound(s: Seq<char>)
    ensures
        first_newline(s) <= s.len(),
        first_newline(s) < s.len() ==> s[first_newline(s) as int] == '\n',
    decreases s.len(),
{
    if s.len() > 0 && s[0] != '\n' {
        lemma_first_newline_bound(s.drop_first());
    }
}

proof fn lemma_no_newline_before_first(s: Seq<char>)
    ensures
        no_newline(s, 0, first_newline(s) as int),
    decreases s.len(),
{
    lemma_first_newline_bound(s);
    if s.len() > 0 && s[0] != '\n' {
        lemma_no_newline_before_first(s.drop_first());
        assert forall|i: int| 0 <= i < first_newline(s) implies #[trigger] s[i] != '\n' by {
            if i > 0 {
                assert(s[i] == s.drop_first()[i - 1]);
            }
        }
    }
}

/// The number of lines of `text`, as `str::lines` counts them.
pub fn line_count(text: &str) -> (count: usize)
    ensures
        count == lines(text@).len(),
{
    let ghost s = text@;
    let n = text.unicode_len();
    let mut chars = text.chars();
    let mut i: usize = 0;
    let mut start: usize = 0;
    let mut count: usize = 0;
    assert(s.skip(0) =~= s);
    loop
        invariant
            s == text@,
            n == s.len(),
            0 <= start <= i <= n,
            count <= start,
            chars.remaining() == s.skip(i as int),
            chars.obeys_prophetic_iter_laws(),
            no_newline(s, start as int, i as int),
            lines(s).len() == count + lines(s.skip(start as int)).len(),
        decreases n - i,
    {
        match chars.next() {
            Some(c) => {
                assert(c == s[i as int]);
                if c == '\n' {
                    proof {
                        lemma_lines_step(s, start as int, i as int);
                    }
                    count = count + 1;
                    start = i + 1;
                }
                i = i + 1;
            },
            None => {
                assert(i == n);
                proof {
                    lemma_lines_last(s, start as int);
                }
                if start < i {
                    count = count + 1;
                }
                return count;
            },
        }
    }
}

/// The line of `text` at position `n` (counting from zero), as
/// `str::lines().nth(n)` gives it.
pub fn nth_line(text: &str, n: usize) -> (line: Option<String>)
    ensures
        line is Some <==> n < lines(text@).len(),
        line matches Some(l) ==> l@ == lines(text@)[n as int],
{
    let ghost s = text@;
    let len = text.unicode_len();
    let mut chars = text.chars();
    let mut i: usize = 0;
    let mut start: usize = 0;
    let mut count: usize = 0;
    let mut prev_cr = false;
    let ghost mut done: Seq<Seq<char>> = Seq::empty();
    assert(s.skip(0) =~= s);
    loop
        invariant
            s == text@,
            len == s.len(),
            0 <= start <= i <= len,
            count <= start,
            count <= n,
            done.len() == count,
            chars.remaining() == s.skip(i as int),
            chars.obeys_prophetic_iter_laws(),
            no_newline(s, start as int, i as int),
            prev_cr <==> (start < i && s[i - 1] == '\r'),
            lines(s) == done + lines(s.skip(start as int)),
        decreases len - i,
    {
        match chars.next() {
            Some(c) => {
                assert(c == s[i as int]);
                if c == '\n' {
                    proof {
                        lemma_lines_step(s, start as int, i as int);
                    }
                    let ghost piece = s.subrange(start as int, i as int);
                    if count == n {
                        let end = if prev_cr { i - 1 } else { i };
                        let found = text.substring_char(start, end);
                        assert(found@ =~= strip_cr(piece));
                        assert(lines(s)[n as int] == (done + lines(s.skip(start as int)))[n as int]);
                        return Some(found.to_owned());
                    }
                    proof {
                        assert(done.push(strip_cr(piece)) + lines(s.skip(i + 1)) =~= done + (seq![strip_cr(piece)] + lines(s.skip(i + 1))));
                        done = done.push(strip_cr(piece));
                    }
                    count = count + 1;
                    start = i + 1;
                    prev_cr = false;
                } else {
                    prev_cr = c == '\r';
                }
                i = i + 1;
            },
            None => {
                assert(i == len);
                proof {
                    lemma_lines_last(s, start as int);
                }
                if start < i && count == n {
                    let found = text.substring_char(start, i);
                    assert(found@ =~= s.skip(start as int));
                    assert(lines(s)[n as int] == (done + lines(s.skip(start as int)))[n as int]);
                    return Some(found.to_owned());
                }
                return None;
            },
        }
    }
}

/// The text shown for class `index`: its line in `labels`, or `Unknown`
/// where `labels` has no such line.
pub open spec fn label_for(labels: Seq<char>, index: int) -> Seq<char> {
    if 0 <= index < lines(labels).len() {
        lines(labels)[index]
    } else {
        "Unknown"@
    }
}

/// Class `i` is labelled by line `i` of the labels, for every class that has
/// a line; classes past the last line are `Unknown`.
pub proof fn lemma_label_is_line(labels: Seq<char>, i: int)
    requires
        0 <= i,
    ensures
        i < lines(labels).len() ==> label_for(labels, i) == lines(labels)[i],
        i >= lines(labels).len() ==> label_for(labels, i) == "Unknown"@,
{
}

/// A text with no line feed is a single line (when it is not empty).
pub proof fn lemma_single_line(s: Seq<char>)
    requires
        s.len() > 0,
        forall|i: int| 0 <= i < s.len() ==> s[i] != '\n',
    ensures
        lines(s) == seq![s],
{
    lemma_first_newline(s, s.len() as int);
}

/// A line feed ends the first line: for a first line `a` without line feeds,
/// the lines of `a`, `\n`, `rest` are `a` followed by the lines of `rest`,
/// and a carriage return right before the line feed is dropped from `a`.
pub proof fn lemma_first_line(a: Seq<char>, rest: Seq<char>)
    requires
        forall|i: int| 0 <= i < a.len() ==> a[i] != '\n',
    ensures
        (a.len() == 0 || a.last() != '\r') ==> lines(a + seq!['\n'] + rest) == seq![a] + lines(rest),
        (a.len() > 0 && a.last() == '\r') ==> lines(a + seq!['\n'] + rest) == seq![a.drop_last()]
            + lines(rest),
{
    let s = a + seq!['\n'] + rest;
    assert(no_newline(s, 0, a.len() as int)) by {
        assert forall|i: int| 0 <= i < a.len() implies #[trigger] s[i] != '\n' by {
            assert(s[i] == a[i]);
        }
    }
    lemma_first_newline(s, a.len() as int);
    assert(s.take(a.len() as int) =~= a);
    assert(s.skip(a.len() as int + 1) =~= rest);
}

/// The label of class `index`, as `labels.lines().nth(index).unwrap_or("Unknown")`
/// gives it.
pub fn label_or_unknown(labels: &str, index: usize) -> (label: String)
    ensures
        label@ == label_for(labels@, index as int),
        index < lines(labels@).len() ==> label@ == lines(labels@)[index as int],
        index >= lines(labels@).len() ==> label@ == "Unknown"@,
{
    match nth_line(labels, index) {
        Some(line) => line,
        None => "Unknown".to_owned(),
    }
}

} // verus!
