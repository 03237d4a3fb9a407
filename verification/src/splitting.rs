//! Reading a stream piece by piece gives the records of the whole stream,
//! wherever the pieces end at a line feed, within the document of a line or
//! before it.

use vstd::prelude::*;

use crate::client::ChunkModel;
use crate::client::DATA_TAG;
use crate::client::ParsedModel;
use crate::client::frame_of;
use crate::client::frames;
use crate::client::left_over;
use crate::client::line_outcome;
use crate::client::parse_frames;
use crate::client::parsed;
use crate::client::streamed;
use crate::client::tokens_of;
use crate::lines::first_newline;
use crate::lines::last_line_start;
use crate::lines::lemma_last_line_start;
use crate::lines::lemma_last_line_start_add;
use crate::lines::lemma_lines_after_newline;
use crate::lines::lemma_lines_of_partial;
use crate::lines::lemma_one_line;
use crate::lines::lines_of;
use crate::lines::without_cr;
use crate::text::has_prefix;
use crate::text::is_white_space;
use crate::text::leading_ws;
use crate::text::lemma_trimmed_concat;
use crate::text::lemma_trimmed_ends;
use crate::text::lemma_trimmed_is;
use crate::text::lemma_without_prefixes_through;
use crate::text::lemma_without_prefixes_concat;
use crate::text::lemma_without_prefixes_is_suffix;
use crate::text::lemma_without_trailing_ws;
use crate::text::lemma_ws_bounds;
use crate::text::trailing_ws;
use crate::text::trimmed;
use crate::text::without_prefixes;
use crate::text::without_trailing_ws;

verus! {

/// The frames of lines followed by more lines are the frames of the ones
/// and then the frames of the others.
pub proof fn lemma_frames_add(x: Seq<Seq<char>>, y: Seq<Seq<char>>)
    ensures
        frames(x + y) == frames(x) + frames(y),
    decreases y.len(),
{
    if y.len() == 0 {
        assert(x + y =~= x);
        assert(frames(x) + frames(y) =~= frames(x));
    } else {
        lemma_frames_add(x, y.drop_last());
        assert((x + y).drop_last() =~= x + y.drop_last());
        assert((x + y).last() == y.last());
        if frame_of(y.last()).len() > 0 {
            assert((frames(x) + frames(y.drop_last())).push(frame_of(y.last())) =~= frames(x)
                + frames(y.drop_last()).push(frame_of(y.last())));
        }
    }
}

/// Whether every line is a record.
pub open spec fn all_records(lines: Seq<Seq<char>>) -> bool {
    forall|i: int| 0 <= i < lines.len() ==> line_outcome(#[trigger] lines[i]) is Record
}

/// The records that lines are, where each is one.
pub open spec fn records_of(lines: Seq<Seq<char>>) -> Seq<ChunkModel> {
    Seq::new(lines.len(), |i: int| line_outcome(lines[i])->Record_0)
}

/// What is read when `records` were read before what `p` holds.
pub open spec fn after_records(records: Seq<ChunkModel>, p: ParsedModel) -> ParsedModel {
    ParsedModel { records: records + p.records, ..p }
}

/// What lines hold from some line on is what the lines hold that follow
/// other lines, from the same line on.
pub proof fn lemma_parse_after(x: Seq<Seq<char>>, y: Seq<Seq<char>>, j: nat)
    ensures
        parse_frames(x + y, x.len() + j) == parse_frames(y, j),
    decreases y.len() - j,
{
    let all = x + y;
    if j < y.len() {
        assert(all[(x.len() + j) as int] == y[j as int]);
        lemma_parse_after(x, y, j + 1);
        assert(all.skip((x.len() + j) as int) =~= y.skip(j as int));
    }
}

/// Lines that are records, followed by more lines, hold their records and
/// then what the other lines hold.
pub proof fn lemma_parse_records_first(x: Seq<Seq<char>>, y: Seq<Seq<char>>, i: nat)
    requires
        all_records(x),
        i <= x.len(),
    ensures
        parse_frames(x + y, i) == after_records(records_of(x).skip(i as int), parse_frames(y, 0)),
    decreases x.len() - i,
{
    let all = x + y;
    if i < x.len() {
        assert(all[i as int] == x[i as int]);
        lemma_parse_records_first(x, y, i + 1);
        let rest = parse_frames(y, 0);
        assert(seq![records_of(x)[i as int]] + (records_of(x).skip(i as int + 1) + rest.records)
            =~= records_of(x).skip(i as int) + rest.records);
    } else {
        lemma_parse_after(x, y, 0);
        assert(records_of(x).skip(i as int) + parse_frames(y, 0).records =~= parse_frames(
            y,
            0,
        ).records);
    }
}

/// A text that ends with a line feed and holds nothing but records,
/// followed by more text, holds its records and then what the other text
/// holds. Nothing of it is left unread.
pub proof fn lemma_resume_at_line_end(a: Seq<char>, b: Seq<char>)
    requires
        a.len() > 0 ==> a.last() == '\n',
        all_records(frames(lines_of(a))),
    ensures
        parsed(a) == (ParsedModel {
            records: records_of(frames(lines_of(a))),
            remainder: None,
            failed: false,
        }),
        parsed(a + b) == after_records(parsed(a).records, parsed(b)),
{
    let x = frames(lines_of(a));
    let y = frames(lines_of(b));
    lemma_lines_after_newline(a, b);
    lemma_frames_add(lines_of(a), lines_of(b));
    lemma_parse_records_first(x, y, 0);
    let none = Seq::<Seq<char>>::empty();
    lemma_parse_records_first(x, none, 0);
    assert(x + none =~= x);
    assert(records_of(x).skip(0) =~= records_of(x));
    assert(records_of(x) + Seq::<ChunkModel>::empty() =~= records_of(x));
}

/// A carriage return at the end of a line changes nothing of its frame.
pub proof fn lemma_frame_without_cr(z: Seq<char>)
    ensures
        frame_of(without_cr(z)) == frame_of(z),
{
    if z.len() > 0 && z.last() == '\r' {
        let w = z.drop_last();
        lemma_ws_bounds(z);
        lemma_ws_bounds(w);
        assert(is_white_space('\r'));
        // the two texts have the same white space at the beginning, and the
        // longer has one more character of it at its end
        assert(trailing_ws(z) == trailing_ws(w) + 1);
        let a = leading_ws(w) as int;
        if a >= w.len() {
            assert forall|i: int| 0 <= i < z.len() implies is_white_space(z[i]) by {
                if i < w.len() {
                    assert(z[i] == w[i]);
                }
            }
            crate::text::lemma_leading_ws(z, z.len() as int);
        } else {
            assert forall|i: int| 0 <= i < a implies is_white_space(z[i]) by {
                assert(z[i] == w[i]);
            }
            assert(z[a] == w[a]);
            crate::text::lemma_leading_ws(z, a);
            assert(trimmed(z) =~= trimmed(w));
        }
    }
}

/// The first character of the tag that stands before the document of a
/// line.
pub open spec fn tag_start() -> char {
    'd'
}

/// Whether a text ends within the document of a line: it ends with a
/// character that is no white space, and its frame begins with another
/// character than the tag does.
pub open spec fn within_document(p: Seq<char>) -> bool {
    &&& p.len() > 0
    &&& !is_white_space(p.last())
    &&& frame_of(p).len() > 0
    &&& frame_of(p)[0] != tag_start()
}

/// A line that was cut within its document has the same frame whether the
/// rest of the line follows the line or its frame, and the frame of the
/// cut line is what the frame of the whole line begins with.
pub proof fn lemma_frame_resumed(p: Seq<char>, rest: Seq<char>)
    requires
        within_document(p),
    ensures
        frame_of(p + rest) == frame_of(p) + without_trailing_ws(rest),
        frame_of(frame_of(p) + rest) == frame_of(p) + without_trailing_ws(rest),
{
    reveal_strlit("data:");
    let tag = DATA_TAG@;
    assert(tag[0] == 'd');
    assert(!is_white_space('d'));
    let e = without_trailing_ws(rest);
    lemma_without_trailing_ws(rest);
    let q = frame_of(p);
    // the line as it was cut
    let x = trimmed(p);
    lemma_trimmed_concat(p, Seq::empty());
    assert(p + Seq::<char>::empty() =~= p);
    assert(without_trailing_ws(Seq::<char>::empty()) =~= Seq::<char>::empty());
    assert(x =~= p.skip(leading_ws(p) as int));
    assert(x.len() > 0);
    assert(x.last() == p.last());
    let y = without_prefixes(x, tag);
    lemma_trimmed_ends(y);
    lemma_without_prefixes_is_suffix(x, tag);
    assert(y.len() > 0);
    assert(y.last() == x.last());
    lemma_ws_bounds(y);
    assert(trailing_ws(y) == 0);
    assert(q =~= y.skip(leading_ws(y) as int));
    assert(y[0] != tag[0]) by {
        if leading_ws(y) > 0 {
            assert(is_white_space(y[0]));
        } else {
            assert(q[0] == y[0]);
        }
    }
    // the whole line
    lemma_trimmed_concat(p, rest);
    assert(trimmed(p + rest) == x + e);
    lemma_without_prefixes_concat(x, tag, e);
    assert(without_prefixes(x + e, tag) == y + e);
    lemma_trimmed_concat(y, e);
    assert(without_trailing_ws(e) == e);
    assert(frame_of(p + rest) == q + e);
    // the frame of the cut line with the rest of the line
    assert(q.last() == y.last());
    lemma_ws_bounds(q);
    assert(leading_ws(q) == 0);
    lemma_trimmed_concat(q, rest);
    assert(q.skip(0) =~= q);
    assert(trimmed(q + rest) == q + e);
    assert(!has_prefix(q + e, tag)) by {
        if has_prefix(q + e, tag) {
            assert((q + e).take(tag.len() as int)[0] == tag[0]);
            assert((q + e)[0] == q[0]);
        }
    }
    lemma_trimmed_concat(q, e);
    assert(frame_of(q + rest) == q + e);
}

/// The frames of the lines of a text whose first line was cut within its
/// document are the same whether the text begins with the cut line or with
/// its frame.
pub proof fn lemma_frames_resumed(p: Seq<char>, b: Seq<char>)
    requires
        within_document(p),
        forall|i: int| 0 <= i < p.len() ==> p[i] != '\n',
    ensures
        frames(lines_of(frame_of(p) + b)) == frames(lines_of(p + b)),
{
    let q = frame_of(p);
    lemma_without_prefixes_is_suffix(trimmed(p), DATA_TAG@);
    lemma_ws_bounds(p);
    lemma_ws_bounds(without_prefixes(trimmed(p), DATA_TAG@));
    lemma_trimmed_concat(p, Seq::empty());
    assert(p + Seq::<char>::empty() =~= p);
    // the frame is a part of the line, so it holds no line feed either
    let x = trimmed(p);
    let y = without_prefixes(x, DATA_TAG@);
    assert forall|i: int| 0 <= i < q.len() implies q[i] != '\n' by {
        let in_y = leading_ws(y) + i;
        assert(q[i] == y[in_y]);
        let in_x = x.len() - y.len() + in_y;
        assert(y[in_y] == x[in_x]);
        assert(x[in_x] == p[leading_ws(p) + in_x]);
    }
    lemma_lines_of_partial(p, b);
    lemma_lines_of_partial(q, b);
    let k = first_newline(b) as int;
    if k >= b.len() {
        lemma_frame_resumed(p, b);
        assert(frames(seq![p + b]) == frames(seq![q + b])) by {
            assert(seq![p + b].drop_last() =~= Seq::<Seq<char>>::empty());
            assert(seq![q + b].drop_last() =~= Seq::<Seq<char>>::empty());
        }
    } else {
        let rest = b.take(k);
        let tail = lines_of(b.skip(k + 1));
        lemma_frame_resumed(p, rest);
        lemma_frame_without_cr(p + rest);
        lemma_frame_without_cr(q + rest);
        let first_p = seq![without_cr(p + rest)];
        let first_q = seq![without_cr(q + rest)];
        lemma_frames_add(first_p, tail);
        lemma_frames_add(first_q, tail);
        assert(frames(first_p) == frames(first_q)) by {
            assert(first_p.drop_last() =~= Seq::<Seq<char>>::empty());
            assert(first_q.drop_last() =~= Seq::<Seq<char>>::empty());
        }
    }
}

/// The first line of a text: the text up to its first line feed.
pub open spec fn first_line(z: Seq<char>) -> Seq<char> {
    z.take(first_newline(z) as int)
}

/// Whether a text ends before the document of a line of which `rest` is
/// what follows: the text is nothing but white space and tags, and
/// the frame of the line begins with another character than the tag does.
pub open spec fn before_document(p: Seq<char>, rest: Seq<char>) -> bool {
    &&& frame_of(p).len() == 0
    &&& frame_of(p + rest).len() > 0 ==> frame_of(p + rest)[0] != tag_start()
}

/// A line that was cut before its document has the frame of what follows
/// the cut.
#[verifier::rlimit(40)]
pub proof fn lemma_frame_before(p: Seq<char>, r: Seq<char>)
    requires
        before_document(p, r),
    ensures
        frame_of(p + r) == frame_of(r),
{
    reveal_strlit("data:");
    let tag = DATA_TAG@;
    assert(tag.len() == 5 && tag[0] == 'd');
    assert(!is_white_space('d'));
    let s = p + r;
    lemma_ws_bounds(p);
    lemma_ws_bounds(r);
    let lp = leading_ws(p) as int;
    let tp = trailing_ws(p) as int;
    let lr = leading_ws(r) as int;
    let tr = trailing_ws(r) as int;
    let none = Seq::<char>::empty();
    assert(trimmed(none) =~= none);
    assert(without_prefixes(none, tag) =~= none);
    if lp == p.len() {
        // the text is white space
        if lr == r.len() {
            lemma_trimmed_is(s, s.len() as int, s.len() as int);
            assert(trimmed(s) =~= trimmed(r));
        } else {
            lemma_trimmed_ends(r);
            lemma_trimmed_is(s, p.len() + lr, p.len() + r.len() - tr);
            assert(s.subrange(p.len() + lr, p.len() + r.len() - tr) =~= r.subrange(
                lr,
                r.len() - tr,
            ));
        }
    } else {
        // the text holds tags and nothing else but white space
        let x = trimmed(p);
        lemma_trimmed_ends(p);
        let y = without_prefixes(x, tag);
        lemma_without_prefixes_is_suffix(x, tag);
        assert(y.len() == 0) by {
            if y.len() > 0 {
                assert(y.last() == x.last());
                lemma_ws_bounds(y);
                assert(trailing_ws(y) == 0);
                assert(leading_ws(y) < y.len()) by {
                    if leading_ws(y) >= y.len() {
                        assert(is_white_space(y[y.len() - 1]));
                    }
                }
                assert(trimmed(y).len() > 0);
            }
        }
        assert(x =~= p.subrange(lp, p.len() - tp));
        if lr == r.len() {
            lemma_trimmed_is(s, lp, p.len() - tp);
            assert(s.subrange(lp, p.len() - tp) =~= x);
            assert(trimmed(r) =~= none);
        } else {
            lemma_trimmed_ends(r);
            let e = p.skip(p.len() - tp) + r.take(r.len() - tr);
            let t = trimmed(r);
            assert(t =~= r.subrange(lr, r.len() - tr));
            lemma_trimmed_is(s, lp, p.len() + r.len() - tr);
            assert(s.subrange(lp, p.len() + r.len() - tr) =~= x + e);
            lemma_without_prefixes_through(x, tag, e);
            assert(e[tp + lr] == r[lr]);
            assert(e.last() == r[r.len() - tr - 1]);
            lemma_trimmed_is(e, tp + lr, e.len() as int);
            assert(e.subrange(tp + lr, e.len() as int) =~= t);
            if tp + lr == 0 {
                assert(e =~= t);
            } else {
                assert(is_white_space(e[0])) by {
                    if tp > 0 {
                        assert(e[0] == p[p.len() - tp]);
                    } else {
                        assert(e[0] == r[0]);
                    }
                }
                assert(!has_prefix(e, tag)) by {
                    if has_prefix(e, tag) {
                        assert(e.take(tag.len() as int)[0] == tag[0]);
                    }
                }
                assert(frame_of(s) == t);
                assert(!has_prefix(t, tag)) by {
                    if has_prefix(t, tag) {
                        assert(t.take(tag.len() as int)[0] == tag[0]);
                    }
                }
                lemma_trimmed_is(t, 0, t.len() as int);
                assert(t.subrange(0, t.len() as int) =~= t);
            }
        }
    }
}

/// The frames of the lines of a text whose first line was cut before its
/// document are the same whether the text begins with the cut line or
/// with what follows the cut.
pub proof fn lemma_frames_before(p: Seq<char>, b: Seq<char>)
    requires
        p.len() > 0,
        forall|i: int| 0 <= i < p.len() ==> p[i] != '\n',
        before_document(p, first_line(b)),
    ensures
        frames(lines_of(p + b)) == frames(lines_of(b)),
{
    lemma_lines_of_partial(p, b);
    crate::lines::lemma_first_newline_is_first(b);
    let k = first_newline(b) as int;
    let none = Seq::<Seq<char>>::empty();
    assert(frames(none) =~= none);
    if k >= b.len() {
        assert(first_line(b) =~= b);
        lemma_frame_before(p, b);
        assert(seq![p + b].drop_last() =~= none);
        if b.len() > 0 {
            assert(seq![b].drop_last() =~= none);
        } else {
            assert(p + b =~= p);
        }
    } else {
        let rest = b.take(k);
        let tail = lines_of(b.skip(k + 1));
        lemma_frame_before(p, rest);
        lemma_frame_without_cr(p + rest);
        lemma_frame_without_cr(rest);
        let first_p = seq![without_cr(p + rest)];
        let first_b = seq![without_cr(rest)];
        lemma_frames_add(first_p, tail);
        lemma_frames_add(first_b, tail);
        assert(frames(first_p) == frames(first_b)) by {
            assert(first_p.drop_last() =~= none);
            assert(first_b.drop_last() =~= none);
        }
    }
}

/// Whether a text can be followed by `z`, the rest of the stream: up to its
/// last line feed it holds nothing but records, and what follows the last
/// line feed is nothing, or a line that was cut within a document that is
/// not yet complete, or a line that was cut before its document.
pub open spec fn can_follow(s: Seq<char>, z: Seq<char>) -> bool {
    let cut = last_line_start(s) as int;
    &&& all_records(frames(lines_of(s.take(cut))))
    &&& (cut < s.len() ==> (within_document(s.skip(cut)) && line_outcome(frame_of(s.skip(cut)))
        is Incomplete) || before_document(s.skip(cut), first_line(z)))
}

/// What is left unread of a text that can be followed by more of the
/// stream: the frame of the line that was cut, or nothing.
pub open spec fn left_at(s: Seq<char>) -> Seq<char> {
    if last_line_start(s) < s.len() {
        frame_of(s.skip(last_line_start(s) as int))
    } else {
        Seq::empty()
    }
}

/// The first line of a text that is followed by more text: that of the
/// text if it holds a line feed, else the text and the first line of what
/// follows.
pub proof fn lemma_first_line_add(c: Seq<char>, z: Seq<char>)
    ensures
        first_newline(c) < c.len() ==> first_line(c + z) == first_line(c),
        first_newline(c) >= c.len() ==> first_line(c + z) == c + first_line(z),
{
    crate::lines::lemma_first_newline_is_first(c);
    crate::lines::lemma_first_newline_is_first(z);
    let k = first_newline(c) as int;
    let s = c + z;
    if k < c.len() {
        assert forall|i: int| 0 <= i < k implies s[i] != '\n' by {
            assert(s[i] == c[i]);
        }
        assert(s[k] == c[k]);
        crate::lines::lemma_first_newline(s, k);
        assert(s.take(k) =~= c.take(k));
    } else {
        let m = first_newline(z) as int;
        assert forall|i: int| 0 <= i < c.len() + m implies s[i] != '\n' by {
            if i < c.len() {
                assert(s[i] == c[i]);
            } else {
                assert(s[i] == z[i - c.len()]);
            }
        }
        if m < z.len() {
            assert(s[c.len() + m] == z[m]);
        }
        crate::lines::lemma_first_newline(s, c.len() + m);
        assert(s.take(c.len() + m) =~= c + z.take(m));
    }
}

/// A text that can be followed by the rest of the stream, and the rest,
/// hold together what the text holds and then what is held by what was
/// left of the text together with the rest.
pub proof fn lemma_resume(a: Seq<char>, b: Seq<char>)
    requires
        can_follow(a, b),
    ensures
        !parsed(a).failed,
        parsed(a + b) == after_records(parsed(a).records, parsed(left_over(parsed(a)) + b)),
        left_over(parsed(a)) == left_at(a),
{
    lemma_last_line_start(a);
    let cut = last_line_start(a) as int;
    let whole = a.take(cut);
    let p = a.skip(cut);
    assert(whole + p =~= a);
    if whole.len() > 0 {
        assert(whole.last() == a[cut - 1]);
    }
    if cut >= a.len() {
        assert(whole =~= a);
        lemma_resume_at_line_end(a, b);
        assert(left_over(parsed(a)) + b =~= b);
    } else {
        let q = frame_of(p);
        assert forall|i: int| 0 <= i < p.len() implies p[i] != '\n' by {
            assert(p[i] == a[cut + i]);
        }
        lemma_resume_at_line_end(whole, p);
        lemma_lines_of_partial(p, Seq::empty());
        assert(p + Seq::<char>::empty() =~= p);
        assert(lines_of(p) == seq![p]);
        assert(seq![p].drop_last() =~= Seq::<Seq<char>>::empty());
        assert(seq![p].last() == p);
        assert(frames(Seq::<Seq<char>>::empty()) =~= Seq::<Seq<char>>::empty());
        assert(parsed(whole).records + Seq::<ChunkModel>::empty() =~= parsed(whole).records);
        assert(a + b =~= whole + (p + b));
        lemma_resume_at_line_end(whole, p + b);
        if within_document(p) && line_outcome(q) is Incomplete {
            assert(frames(seq![p]) =~= seq![q]);
            assert(parse_frames(seq![q], 0) == (ParsedModel {
                records: Seq::empty(),
                remainder: Some(q),
                failed: false,
            })) by {
                assert(seq![q].skip(0) =~= seq![q]);
                assert(seq![q].drop_last() =~= Seq::<Seq<char>>::empty());
            }
            assert(parsed(p).records =~= Seq::<ChunkModel>::empty());
            assert(left_over(parsed(a)) == q);
            lemma_frames_resumed(p, b);
            assert(parsed(q + b) == parsed(p + b));
        } else {
            assert(frames(seq![p]) =~= Seq::<Seq<char>>::empty());
            assert(parsed(p) == (ParsedModel {
                records: Seq::empty(),
                remainder: None,
                failed: false,
            }));
            assert(q =~= Seq::<char>::empty());
            assert(left_over(parsed(a)) =~= Seq::<char>::empty());
            lemma_frames_before(p, b);
            assert(left_over(parsed(a)) + b =~= b);
            assert(parsed(b) == parsed(p + b));
        }
    }
}

/// The pieces of a stream, one after the other.
pub open spec fn whole_of(pieces: Seq<Seq<char>>) -> Seq<char>
    decreases pieces.len(),
{
    if pieces.len() == 0 {
        Seq::empty()
    } else {
        whole_of(pieces.drop_last()) + pieces.last()
    }
}

/// The pieces of a stream, one after the other, are the first piece and
/// then the others.
pub proof fn lemma_whole_of_first(pieces: Seq<Seq<char>>)
    requires
        pieces.len() > 0,
    ensures
        whole_of(pieces) == pieces[0] + whole_of(pieces.skip(1)),
    decreases pieces.len(),
{
    let rest = pieces.skip(1);
    if pieces.len() == 1 {
        assert(pieces.drop_last() =~= Seq::<Seq<char>>::empty());
        assert(rest =~= Seq::<Seq<char>>::empty());
        assert(whole_of(pieces) =~= pieces[0] + whole_of(rest));
    } else {
        lemma_whole_of_first(pieces.drop_last());
        assert(pieces.drop_last().skip(1) =~= rest.drop_last());
        assert(rest.last() == pieces.last());
        assert(whole_of(pieces) =~= pieces[0] + whole_of(rest));
    }
}

/// What follows the first `k` pieces of a stream is the next piece and
/// then what follows that.
pub proof fn lemma_rest_of_pieces(pieces: Seq<Seq<char>>, k: int)
    requires
        0 <= k < pieces.len(),
    ensures
        whole_of(pieces.skip(k)) == pieces[k] + whole_of(pieces.skip(k + 1)),
{
    lemma_whole_of_first(pieces.skip(k));
    assert(pieces.skip(k).skip(1) =~= pieces.skip(k + 1));
}

/// What is read when the `k`th piece arrives: what was left of the pieces
/// before it, and the piece.
pub open spec fn fed_at(pieces: Seq<Seq<char>>, k: int) -> Seq<char> {
    streamed(pieces.take(k))->0.left + pieces[k]
}

/// The tokens of records followed by more records are the tokens of the
/// ones and then the tokens of the others.
pub proof fn lemma_tokens_add(x: Seq<ChunkModel>, y: Seq<ChunkModel>)
    ensures
        tokens_of(x + y) == tokens_of(x) + tokens_of(y),
    decreases y.len(),
{
    if y.len() == 0 {
        assert(x + y =~= x);
        assert(tokens_of(x) + tokens_of(y) =~= tokens_of(x));
    } else {
        lemma_tokens_add(x, y.drop_last());
        assert((x + y).drop_last() =~= x + y.drop_last());
        assert((x + y).last() == y.last());
        match crate::client::token_of(y.last()) {
            Some(t) => {
                assert((tokens_of(x) + tokens_of(y.drop_last())).push(t) =~= tokens_of(x)
                    + tokens_of(y.drop_last()).push(t));
            },
            None => {},
        }
    }
}

/// After the first `k` pieces were read, each at a point where what was
/// read can be followed by the rest of the stream, the stream is as far as
/// it would be had the pieces arrived as one: the whole holds the tokens
/// that were sent and then those of what was left together with the rest.
pub proof fn lemma_threaded(pieces: Seq<Seq<char>>, k: int)
    requires
        0 <= k <= pieces.len(),
        forall|j: int|
            0 <= j < k && streamed(pieces.take(j)) is Some ==> can_follow(
                #[trigger] fed_at(pieces, j),
                whole_of(pieces.skip(j + 1)),
            ),
    ensures
        streamed(pieces.take(k)) is Some,
        tokens_of(parsed(whole_of(pieces)).records) == streamed(pieces.take(k))->0.tokens
            + tokens_of(
            parsed(streamed(pieces.take(k))->0.left + whole_of(pieces.skip(k))).records,
        ),
        parsed(whole_of(pieces)).remainder == parsed(
            streamed(pieces.take(k))->0.left + whole_of(pieces.skip(k)),
        ).remainder,
        parsed(whole_of(pieces)).failed == parsed(
            streamed(pieces.take(k))->0.left + whole_of(pieces.skip(k)),
        ).failed,
    decreases k,
{
    let now = pieces.take(k);
    if k == 0 {
        assert(pieces.skip(0) =~= pieces);
        assert(streamed(now)->0.left + whole_of(pieces) =~= whole_of(pieces));
        assert(streamed(now)->0.tokens + tokens_of(parsed(whole_of(pieces)).records) =~= tokens_of(
            parsed(whole_of(pieces)).records,
        ));
    } else {
        let before = pieces.take(k - 1);
        let piece = pieces[k - 1];
        let z = whole_of(pieces.skip(k));
        assert(now.drop_last() =~= before);
        assert(now.last() == piece);
        lemma_threaded(pieces, k - 1);
        lemma_rest_of_pieces(pieces, k - 1);
        let st = streamed(before)->0;
        let fed = st.left + piece;
        assert(fed == fed_at(pieces, k - 1));
        lemma_resume(fed, z);
        lemma_tokens_add(parsed(fed).records, parsed(left_over(parsed(fed)) + z).records);
        assert(st.left + (piece + z) =~= fed + z);
        assert(st.tokens + (tokens_of(parsed(fed).records) + tokens_of(
            parsed(left_over(parsed(fed)) + z).records,
        )) =~= (st.tokens + tokens_of(parsed(fed).records)) + tokens_of(
            parsed(left_over(parsed(fed)) + z).records,
        ));
    }
}

/// Lines that follow other lines and are records together with them are
/// records.
pub proof fn lemma_records_after(x: Seq<Seq<char>>, y: Seq<Seq<char>>)
    requires
        all_records(x + y),
    ensures
        all_records(y),
{
    assert forall|i: int| 0 <= i < y.len() implies line_outcome(#[trigger] y[i]) is Record by {
        assert((x + y)[x.len() + i] == y[i]);
    }
}

/// The frame of a line that was cut within its document holds no line feed
/// and ends with a character that is no white space.
pub proof fn lemma_frame_of_cut_line(p: Seq<char>)
    requires
        within_document(p),
        forall|i: int| 0 <= i < p.len() ==> p[i] != '\n',
    ensures
        forall|i: int| 0 <= i < frame_of(p).len() ==> frame_of(p)[i] != '\n',
        !is_white_space(frame_of(p).last()),
{
    let q = frame_of(p);
    let x = trimmed(p);
    let y = without_prefixes(x, DATA_TAG@);
    lemma_without_prefixes_is_suffix(x, DATA_TAG@);
    lemma_ws_bounds(p);
    lemma_ws_bounds(y);
    lemma_trimmed_concat(p, Seq::empty());
    assert(p + Seq::<char>::empty() =~= p);
    lemma_trimmed_ends(y);
    assert forall|i: int| 0 <= i < q.len() implies q[i] != '\n' by {
        let in_y = leading_ws(y) + i;
        assert(q[i] == y[in_y]);
        let in_x = x.len() - y.len() + in_y;
        assert(y[in_y] == x[in_x]);
        assert(x[in_x] == p[leading_ws(p) + in_x]);
    }
}

/// The transfer of `lemma_can_follow_transfers` where the next piece holds
/// a line feed: the last line is then the same.
#[verifier::rlimit(40)]
proof fn lemma_transfer_to_next_line(a: Seq<char>, c: Seq<char>, z: Seq<char>)
    requires
        can_follow(a, c + z),
        can_follow(a + c, z),
        last_line_start(c) > 0,
    ensures
        can_follow(left_at(a) + c, z),
        left_at(left_at(a) + c) == left_at(a + c),
{
    lemma_last_line_start(a);
    lemma_last_line_start(c);
    lemma_last_line_start_add(a, c);
    let cut_a = last_line_start(a) as int;
    let whole_a = a.take(cut_a);
    let p = a.skip(cut_a);
    assert(whole_a + p =~= a);
    if whole_a.len() > 0 {
        assert(whole_a.last() == a[cut_a - 1]);
    }
    let l = last_line_start(c) as int;
    let c1 = c.take(l);
    let tail = c.skip(l);
    assert(c1.last() == c[l - 1]);
    let q = left_at(a);
    lemma_last_line_start_add(q, c);
    let fed = q + c;
    assert((a + c).skip(a.len() + l) =~= tail);
    assert(fed.skip(q.len() + l) =~= tail);
    assert((a + c).take(a.len() + l) =~= whole_a + (p + c1));
    assert(fed.take(q.len() + l) =~= q + c1);
    lemma_lines_after_newline(whole_a, p + c1);
    lemma_frames_add(lines_of(whole_a), lines_of(p + c1));
    lemma_records_after(frames(lines_of(whole_a)), frames(lines_of(p + c1)));
    assert(all_records(frames(lines_of(p + c1))));
    if cut_a < a.len() {
        assert forall|i: int| 0 <= i < p.len() implies p[i] != '\n' by {
            assert(p[i] == a[cut_a + i]);
        }
        if within_document(p) && line_outcome(frame_of(p)) is Incomplete {
            lemma_frames_resumed(p, c1);
        } else {
            assert(c1 + tail =~= c);
            lemma_first_line_add(c, z);
            lemma_first_line_add(c1, tail);
            crate::lines::lemma_first_newline_is_first(c1);
            assert(first_newline(c1) < c1.len()) by {
                if first_newline(c1) >= c1.len() {
                    assert(c1[c1.len() - 1] != '\n');
                }
            }
            crate::lines::lemma_first_newline_is_first(c);
            assert(first_newline(c) < c.len()) by {
                if first_newline(c) >= c.len() {
                    assert(c[l - 1] != '\n');
                }
            }
            assert(first_line(c + z) == first_line(c1));
            lemma_frames_before(p, c1);
            assert(q + c1 =~= c1);
        }
    } else {
        assert(p + c1 =~= c1);
        assert(q + c1 =~= c1);
    }
    assert(all_records(frames(lines_of(q + c1))));
}

/// The transfer of `lemma_can_follow_transfers` where the next piece holds
/// no line feed: the last line goes on.
#[verifier::rlimit(40)]
proof fn lemma_transfer_in_line(a: Seq<char>, c: Seq<char>, z: Seq<char>)
    requires
        can_follow(a, c + z),
        can_follow(a + c, z),
        last_line_start(c) == 0,
    ensures
        can_follow(left_at(a) + c, z),
        left_at(left_at(a) + c) == left_at(a + c),
{
    lemma_last_line_start(a);
    lemma_last_line_start(c);
    lemma_last_line_start_add(a, c);
    lemma_first_line_add(c, z);
    let cut_a = last_line_start(a) as int;
    let p = a.skip(cut_a);
    let q = left_at(a);
    let fed = q + c;
    let none = Seq::<char>::empty();
    assert(lines_of(none) =~= Seq::<Seq<char>>::empty());
    assert(frames(Seq::<Seq<char>>::empty()) =~= Seq::<Seq<char>>::empty());
    assert((a + c).skip(cut_a) =~= p + c);
    assert((a + c).take(cut_a) =~= a.take(cut_a));
    crate::lines::lemma_first_newline_is_first(c);
    assert(first_newline(c) >= c.len()) by {
        if first_newline(c) < c.len() {
            assert(c[first_newline(c) as int] == '\n');
        }
    }
    assert(first_line(c + z) == c + first_line(z));
    if cut_a < a.len() {
        assert forall|i: int| 0 <= i < p.len() implies p[i] != '\n' by {
            assert(p[i] == a[cut_a + i]);
        }
        if within_document(p) && line_outcome(frame_of(p)) is Incomplete {
            lemma_frame_of_cut_line(p);
            lemma_one_line(q);
            lemma_last_line_start_add(q, c);
            assert(last_line_start(fed) == 0);
            assert(fed.take(0) =~= none);
            assert(fed.skip(0) =~= fed);
            lemma_frame_resumed(p, c);
            assert(frame_of(fed) == frame_of(p + c));
            assert(frame_of(p + c).len() > 0);
            if c.len() > 0 {
                assert((p + c).last() == c.last());
                assert(fed.last() == c.last());
            } else {
                assert(fed =~= q);
                assert(p + c =~= p);
            }
            assert(within_document(p + c) ==> within_document(fed));
        } else {
            assert(q =~= none);
            assert(fed =~= c);
            assert(last_line_start(fed) == 0);
            assert(fed.take(0) =~= none);
            assert(fed.skip(0) =~= fed);
            if c.len() > 0 {
                assert((p + c).last() == c.last());
                assert(before_document(p, c));
                lemma_frame_before(p, c);
                assert(p + (c + first_line(z)) =~= (p + c) + first_line(z));
                lemma_frame_before(p, c + first_line(z));
                assert(frame_of(c) == frame_of(p + c));
                assert(frame_of(c + first_line(z)) == frame_of((p + c) + first_line(z)));
            } else {
                assert(p + c =~= p);
            }
        }
    } else {
        lemma_last_line_start_add(q, c);
        assert(fed =~= c);
        assert(p + c =~= c);
        assert(c.take(0) =~= none);
        assert(c.skip(0) =~= c);
    }
}

/// Where a text can be followed by the next piece and the rest of the
/// stream, and the text together with the next piece can be followed by
/// the rest, what was left of the text can be followed by the rest once
/// the next piece has arrived, and the same is left of it then.
pub proof fn lemma_can_follow_transfers(a: Seq<char>, c: Seq<char>, z: Seq<char>)
    requires
        can_follow(a, c + z),
        can_follow(a + c, z),
    ensures
        can_follow(left_at(a) + c, z),
        left_at(left_at(a) + c) == left_at(a + c),
{
    if last_line_start(c) > 0 {
        lemma_transfer_to_next_line(a, c, z);
    } else {
        lemma_transfer_in_line(a, c, z);
    }
}

/// After the first `k` pieces were read, where the stream can be followed
/// by its rest after each of them, what is left unread is what is left of
/// the pieces taken as one, and what is read when the next piece arrives
/// can be followed by the rest.
pub proof fn lemma_left_of_pieces(pieces: Seq<Seq<char>>, k: int)
    requires
        0 <= k <= pieces.len(),
        forall|j: int|
            1 <= j <= k ==> can_follow(#[trigger] whole_of(pieces.take(j)), whole_of(pieces.skip(j))),
    ensures
        streamed(pieces.take(k)) is Some,
        streamed(pieces.take(k))->0.left == left_at(whole_of(pieces.take(k))),
        forall|j: int|
            0 <= j < k && streamed(pieces.take(j)) is Some ==> can_follow(
                #[trigger] fed_at(pieces, j),
                whole_of(pieces.skip(j + 1)),
            ),
    decreases k,
{
    let now = pieces.take(k);
    if k == 0 {
        assert(whole_of(now) =~= Seq::<char>::empty());
    } else {
        let before = pieces.take(k - 1);
        let piece = pieces[k - 1];
        let z = whole_of(pieces.skip(k));
        assert(now.drop_last() =~= before);
        assert(now.last() == piece);
        assert forall|j: int| 1 <= j <= k - 1 implies can_follow(
            #[trigger] whole_of(pieces.take(j)),
            whole_of(pieces.skip(j)),
        ) by {}
        lemma_left_of_pieces(pieces, k - 1);
        lemma_rest_of_pieces(pieces, k - 1);
        let st = streamed(before)->0;
        let a = whole_of(before);
        assert(whole_of(now) == a + piece);
        assert(can_follow(whole_of(pieces.take(k)), z));
        assert(can_follow(a, piece + z)) by {
            if k == 1 {
                assert(a =~= Seq::<char>::empty());
                assert(a.take(0) =~= Seq::<char>::empty());
                assert(lines_of(Seq::<char>::empty()) =~= Seq::<Seq<char>>::empty());
                assert(frames(Seq::<Seq<char>>::empty()) =~= Seq::<Seq<char>>::empty());
            } else {
                assert(can_follow(whole_of(pieces.take(k - 1)), whole_of(pieces.skip(k - 1))));
            }
        }
        lemma_can_follow_transfers(a, piece, z);
        let fed = st.left + piece;
        assert(fed == fed_at(pieces, k - 1));
        lemma_resume(fed, z);
    }
}

/// Reading a stream piece by piece gives what reading it as a whole gives,
/// for every way of cutting the stream into pieces in which each cut lies
/// where what was read can be followed by the rest: at a line feed after
/// nothing but records, within the document of a line that is not yet
/// complete, after a character that is no white space, or before the
/// document of a line, among its white space and its tag. The pieces fail
/// exactly if the whole fails, and where they do not, the tokens that are
/// sent are those of the records of the whole, and what is left unread is
/// what the whole leaves unread.
pub proof fn lemma_parser_idempotence(pieces: Seq<Seq<char>>)
    requires
        pieces.len() > 0,
        forall|j: int|
            1 <= j < pieces.len() ==> can_follow(
                #[trigger] whole_of(pieces.take(j)),
                whole_of(pieces.skip(j)),
            ),
    ensures
        streamed(pieces) is Some == !parsed(whole_of(pieces)).failed,
        streamed(pieces) matches Some(s) ==> s.tokens == tokens_of(
            parsed(whole_of(pieces)).records,
        ) && s.left == left_over(parsed(whole_of(pieces))),
{
    let n = pieces.len() as int;
    lemma_left_of_pieces(pieces, n - 1);
    lemma_threaded(pieces, n - 1);
    lemma_rest_of_pieces(pieces, n - 1);
    assert(pieces.skip(n) =~= Seq::<Seq<char>>::empty());
    assert(whole_of(pieces.skip(n - 1)) =~= pieces[n - 1]);
    assert(pieces.drop_last() =~= pieces.take(n - 1));
    assert(pieces.last() == pieces[n - 1]);
}

/// What the channel of a reply carries whose body arrives in the given
/// pieces: the tokens in order and, last, the one item that ends the
/// reply. There is none if a piece fails or the body ends within a record.
pub open spec fn channel_of(pieces: Seq<Seq<char>>) -> Option<Seq<Option<Seq<char>>>> {
    match streamed(pieces) {
        Some(s) => if s.left.len() == 0 {
            Some(crate::client::sent(s.tokens).push(None))
        } else {
            None
        },
        None => None,
    }
}

/// However the body of a reply is cut into pieces, the channel carries
/// what it carries for the body in one piece, as long as each cut lies
/// where what was read can be followed by the rest.
pub proof fn lemma_channel_of_pieces(pieces: Seq<Seq<char>>)
    requires
        pieces.len() > 0,
        forall|j: int|
            1 <= j < pieces.len() ==> can_follow(
                #[trigger] whole_of(pieces.take(j)),
                whole_of(pieces.skip(j)),
            ),
    ensures
        channel_of(pieces) == channel_of(seq![whole_of(pieces)]),
{
    let whole = whole_of(pieces);
    let one = seq![whole];
    lemma_parser_idempotence(pieces);
    assert(one.drop_last() =~= Seq::<Seq<char>>::empty());
    assert(whole_of(Seq::<Seq<char>>::empty()) =~= Seq::<char>::empty());
    assert(one.last() == whole);
    assert(whole_of(one) =~= whole);
    lemma_parser_idempotence(one);
}

} // verus!
