//! Splitting text into lines and joining pieces of text.

use vstd::prelude::*;

use crate::text::extend;
use crate::text::slice;

verus! {

/// The character sequences that a vector of character vectors holds.
pub open spec fn views(v: Seq<Vec<char>>) -> Seq<Seq<char>> {
    Seq::new(v.len(), |i: int| v[i]@)
}

/// The text of each string of a vector.
pub open spec fn texts(v: Seq<String>) -> Seq<Seq<char>> {
    Seq::new(v.len(), |i: int| v[i]@)
}

/// The index of the first line feed of `s`, or the length of `s` if it has none.
pub open spec fn first_newline(s: Seq<char>) -> nat
    decreases s.len(),
{
    if s.len() == 0 || s[0] == '\n' {
        0
    } else {
        1 + first_newline(s.drop_first())
    }
}

/// `s` without the carriage return at its end, if there is one.
pub open spec fn without_cr(s: Seq<char>) -> Seq<char> {
    if s.len() > 0 && s.last() == '\r' {
        s.drop_last()
    } else {
        s
    }
}

/// The lines of `s`. A line ends at a line feed; the line feed, and a carriage
/// return just before it, are no part of the line. What follows the last line
/// feed is a line only if it is not empty.
pub open spec fn lines_of(s: Seq<char>) -> Seq<Seq<char>>
    decreases s.len(),
{
    if s.len() == 0 {
        Seq::empty()
    } else {
        let k = first_newline(s);
        if k >= s.len() {
            seq![s]
        } else {
            seq![without_cr(s.take(k as int))] + lines_of(s.skip(k as int + 1))
        }
    }
}

/// `first_newline` is the index of the first line feed.
pub proof fn lemma_first_newline(s: Seq<char>, k: int)
    requires
        0 <= k <= s.len(),
        forall|i: int| 0 <= i < k ==> s[i] != '\n',
        k == s.len() || s[k] == '\n',
    ensures
        first_newline(s) == k,
    decreases k,
{
    if k > 0 {
        lemma_first_newline(s.drop_first(), k - 1);
    }
}

/// The first line feed lies within the text, and nothing before it is a line feed.
pub proof fn lemma_first_newline_is_first(s: Seq<char>)
    ensures
        first_newline(s) <= s.len(),
        forall|i: int| 0 <= i < first_newline(s) ==> s[i] != '\n',
        first_newline(s) < s.len() ==> s[first_newline(s) as int] == '\n',
    decreases s.len(),
{
    if !(s.len() == 0 || s[0] == '\n') {
        let t = s.drop_first();
        lemma_first_newline_is_first(t);
        assert forall|i: int| 0 <= i < first_newline(s) implies s[i] != '\n' by {
            if i > 0 {
                assert(s[i] == t[i - 1]);
            }
        }
    }
}

/// The lines of a text, as `lines_of` defines them.
pub fn lines(s: &Vec<char>) -> (r: Vec<Vec<char>>)
    ensures
        views(r@) == lines_of(s@),
{
    let mut out: Vec<Vec<char>> = Vec::new();
    let mut start: usize = 0;
    let mut i: usize = 0;
    assert(s@.skip(0) == s@);
    assert(views(out@) + lines_of(s@) == lines_of(s@));
    while i < s.len()
        invariant
            start <= i <= s.len(),
            forall|j: int| start <= j < i ==> s@[j] != '\n',
            lines_of(s@) == views(out@) + lines_of(s@.skip(start as int)),
        decreases s.len() - i,
    {
        if s[i] == '\n' {
            let mut end: usize = i;
            if end > start && s[end - 1] == '\r' {
                end -= 1;
            }
            let line = slice(s, start, end);
            proof {
                let rest = s@.skip(start as int);
                lemma_first_newline(rest, i - start);
                assert(rest.take(i - start) == s@.subrange(start as int, i as int));
                assert(rest.skip(i - start + 1) == s@.skip(i + 1));
                assert(line@ == without_cr(s@.subrange(start as int, i as int)));
                assert(views(out@.push(line)) == views(out@) + seq![line@]);
            }
            out.push(line);
            start = i + 1;
        }
        i += 1;
    }
    if start < s.len() {
        let line = slice(s, start, s.len());
        proof {
            let rest = s@.skip(start as int);
            lemma_first_newline(rest, rest.len() as int);
            assert(line@ == rest);
            assert(views(out@.push(line)) == views(out@) + seq![line@]);
        }
        out.push(line);
    } else {
        assert(views(out@) + lines_of(s@.skip(start as int)) == views(out@));
    }
    out
}

/// The pieces in order, with `sep` between each two neighbours.
pub open spec fn joined(parts: Seq<Seq<char>>, sep: Seq<char>) -> Seq<char>
    decreases parts.len(),
{
    if parts.len() == 0 {
        Seq::empty()
    } else if parts.len() == 1 {
        parts[0]
    } else {
        joined(parts.drop_last(), sep) + sep + parts.last()
    }
}

/// The pieces in order, with `sep` between each two neighbours.
pub fn join(parts: &Vec<Vec<char>>, sep: &Vec<char>) -> (r: Vec<char>)
    ensures
        r@ == joined(views(parts@), sep@),
{
    let mut out: Vec<char> = Vec::new();
    let mut i: usize = 0;
    assert(views(parts@).take(0) == Seq::<Seq<char>>::empty());
    while i < parts.len()
        invariant
            i <= parts.len(),
            out@ == joined(views(parts@).take(i as int), sep@),
        decreases parts.len() - i,
    {
        if i > 0 {
            extend(&mut out, sep);
        }
        extend(&mut out, &parts[i]);
        proof {
            let before = views(parts@).take(i as int);
            let after = views(parts@).take(i + 1);
            assert(after.drop_last() == before);
            assert(after.last() == parts@[i as int]@);
        }
        i += 1;
    }
    assert(views(parts@).take(parts.len() as int) == views(parts@));
    out
}

/// The lines of a text that ends with a line feed, followed by more text,
/// are the lines of the one and then the lines of the other.
pub proof fn lemma_lines_after_newline(a: Seq<char>, b: Seq<char>)
    requires
        a.len() > 0 ==> a.last() == '\n',
    ensures
        lines_of(a + b) == lines_of(a) + lines_of(b),
    decreases a.len(),
{
    if a.len() == 0 {
        assert(a + b =~= b);
        assert(lines_of(a) + lines_of(b) =~= lines_of(b));
    } else {
        lemma_first_newline_is_first(a);
        let k = first_newline(a) as int;
        assert(k < a.len()) by {
            if k >= a.len() {
                assert(a[a.len() - 1] != '\n');
            }
        }
        let all = a + b;
        assert forall|i: int| 0 <= i < k implies all[i] != '\n' by {
            assert(all[i] == a[i]);
        }
        assert(all[k] == a[k]);
        lemma_first_newline(all, k);
        let rest = a.skip(k + 1);
        assert(all.take(k) =~= a.take(k));
        assert(all.skip(k + 1) =~= rest + b);
        if rest.len() > 0 {
            assert(rest.last() == a.last());
        }
        lemma_lines_after_newline(rest, b);
        assert(seq![without_cr(a.take(k))] + (lines_of(rest) + lines_of(b)) =~= (seq![
            without_cr(a.take(k)),
        ] + lines_of(rest)) + lines_of(b));
    }
}

/// Where the last line of a text begins: after its last line feed.
pub open spec fn last_line_start(s: Seq<char>) -> nat
    decreases s.len(),
{
    if s.len() == 0 {
        0
    } else if s.last() == '\n' {
        s.len()
    } else {
        last_line_start(s.drop_last())
    }
}

/// The last line of a text begins within the text, after a line feed or at
/// the beginning, and holds no line feed.
pub proof fn lemma_last_line_start(s: Seq<char>)
    ensures
        last_line_start(s) <= s.len(),
        last_line_start(s) > 0 ==> s[last_line_start(s) - 1] == '\n',
        forall|i: int| last_line_start(s) <= i < s.len() ==> s[i] != '\n',
    decreases s.len(),
{
    if s.len() > 0 && s.last() != '\n' {
        let front = s.drop_last();
        lemma_last_line_start(front);
        assert forall|i: int| last_line_start(s) <= i < s.len() implies s[i] != '\n' by {
            if i < front.len() {
                assert(s[i] == front[i]);
            }
        }
        if last_line_start(s) > 0 {
            assert(s[last_line_start(s) - 1] == front[last_line_start(s) - 1]);
        }
    }
}

/// The lines of a text that begins with a text without a line feed: the
/// first line is that text together with what follows it up to the first
/// line feed, and the other lines are those of what comes after.
pub proof fn lemma_lines_of_partial(p: Seq<char>, b: Seq<char>)
    requires
        p.len() > 0,
        forall|i: int| 0 <= i < p.len() ==> p[i] != '\n',
    ensures
        first_newline(b) >= b.len() ==> lines_of(p + b) == seq![p + b],
        first_newline(b) < b.len() ==> lines_of(p + b) == seq![
            without_cr(p + b.take(first_newline(b) as int)),
        ] + lines_of(b.skip(first_newline(b) as int + 1)),
{
    lemma_first_newline_is_first(b);
    let k = first_newline(b) as int;
    let all = p + b;
    assert forall|i: int| 0 <= i < p.len() + k implies all[i] != '\n' by {
        if i < p.len() {
            assert(all[i] == p[i]);
        } else {
            assert(all[i] == b[i - p.len()]);
        }
    }
    if k < b.len() {
        assert(all[p.len() + k] == b[k]);
    }
    lemma_first_newline(all, p.len() + k);
    if k < b.len() {
        assert(all.take(p.len() + k) =~= p + b.take(k));
        assert(all.skip(p.len() + k + 1) =~= b.skip(k + 1));
    }
}

/// The last line of a text that is followed by more text begins in what
/// follows, if that holds a line feed, and else where it began.
pub proof fn lemma_last_line_start_add(x: Seq<char>, y: Seq<char>)
    ensures
        last_line_start(x + y) == if last_line_start(y) > 0 {
            x.len() + last_line_start(y)
        } else {
            last_line_start(x)
        },
    decreases y.len(),
{
    if y.len() == 0 {
        assert(x + y =~= x);
    } else {
        assert((x + y).last() == y.last());
        assert((x + y).drop_last() =~= x + y.drop_last());
        if y.last() != '\n' {
            lemma_last_line_start_add(x, y.drop_last());
        }
    }
}

/// A text without a line feed is its own last line.
pub proof fn lemma_one_line(s: Seq<char>)
    requires
        forall|i: int| 0 <= i < s.len() ==> s[i] != '\n',
    ensures
        last_line_start(s) == 0,
    decreases s.len(),
{
    if s.len() > 0 {
        assert(s[s.len() - 1] != '\n');
        assert forall|i: int| 0 <= i < s.drop_last().len() implies s.drop_last()[i] != '\n' by {
            assert(s.drop_last()[i] == s[i]);
        }
        lemma_one_line(s.drop_last());
    }
}

/// Whether a text holds no line feed.
pub open spec fn one_line(text: Seq<char>) -> bool {
    forall|i: int| 0 <= i < text.len() ==> text[i] != '\n'
}

/// No line of a text holds a line feed.
pub proof fn lemma_lines_hold_no_line_feed(s: Seq<char>)
    ensures
        forall|i: int| 0 <= i < lines_of(s).len() ==> one_line(#[trigger] lines_of(s)[i]),
    decreases s.len(),
{
    if s.len() > 0 {
        lemma_first_newline_is_first(s);
        let k = first_newline(s) as int;
        if k < s.len() {
            let first = without_cr(s.take(k));
            let rest = lines_of(s.skip(k + 1));
            lemma_lines_hold_no_line_feed(s.skip(k + 1));
            assert forall|i: int| 0 <= i < lines_of(s).len() implies one_line(
                #[trigger] lines_of(s)[i],
            ) by {
                if i == 0 {
                    assert forall|j: int| 0 <= j < first.len() implies first[j] != '\n' by {
                        assert(first[j] == s[j]);
                    }
                } else {
                    assert(lines_of(s)[i] == rest[i - 1]);
                }
            }
        }
    }
}

} // verus!
