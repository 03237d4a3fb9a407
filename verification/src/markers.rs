//! Where the marker stands in the marked text of a message: at the places
//! of the code blocks, and nowhere else, as long as the message's own text
//! does not hold the marker.

use vstd::prelude::*;

use crate::message::BLOCK_MARKER;
use crate::message::FENCE;
use crate::message::Message;
use crate::message::fence_gaps;
use crate::message::fenced;
use crate::message::fences;
use crate::message::woven;

verus! {

/// Whether `pat` stands in `text` at `x`.
pub open spec fn occurs_at(text: Seq<char>, pat: Seq<char>, x: int) -> bool {
    0 <= x && x + pat.len() <= text.len() && text.subrange(x, x + pat.len()) == pat
}

/// Whether `pat` stands somewhere in `text`.
pub open spec fn found_in(text: Seq<char>, pat: Seq<char>) -> bool {
    exists|x: int| occurs_at(text, pat, x)
}

/// The first `m + 1` pieces, with the next of the texts `between` after
/// each of them but the last.
pub open spec fn upto(pieces: Seq<Seq<char>>, between: Seq<Seq<char>>, m: nat) -> Seq<char>
    decreases m,
{
    if m == 0 {
        pieces[0]
    } else {
        upto(pieces, between, (m - 1) as nat) + between[m - 1] + pieces[m as int]
    }
}

/// As many markers as asked for.
pub open spec fn markers(n: nat) -> Seq<Seq<char>> {
    Seq::new(n, |i: int| BLOCK_MARKER@)
}

/// Where the `k`th marker stands in the marked text that is made of the
/// pieces: after the first `k + 1` pieces and the markers between them.
pub open spec fn place(gaps: Seq<Seq<char>>, k: nat) -> int {
    upto(gaps, markers((gaps.len() - 1) as nat), k).len() as int
}

/// The characters of the marker and of the fence: the marker begins and
/// ends with a fence and holds no backtick in between.
pub proof fn lemma_marker_text()
    ensures
        BLOCK_MARKER@.len() == 17,
        FENCE@.len() == 3,
        forall|i: int| 0 <= i < 3 ==> (#[trigger] FENCE@[i]) == '`',
        forall|i: int| 0 <= i < 17 ==> ((#[trigger] BLOCK_MARKER@[i]) == '`' <==> (i < 3 || i >= 14)),
{
    reveal_strlit("```__<BLOCK>__```");
    reveal_strlit("```");
    let m = BLOCK_MARKER@;
    assert(m[0] == '`' && m[1] == '`' && m[2] == '`');
    assert(m[3] == '_' && m[4] == '_' && m[5] == '<' && m[6] == 'B' && m[7] == 'L');
    assert(m[8] == 'O' && m[9] == 'C' && m[10] == 'K' && m[11] == '>' && m[12] == '_');
    assert(m[13] == '_' && m[14] == '`' && m[15] == '`' && m[16] == '`');
}

/// The marker begins with what it ends with only in its backticks: in no
/// more than three characters.
proof fn lemma_border(j: int)
    requires
        1 <= j <= 16,
        forall|i: int| 0 <= i < j ==> (#[trigger] BLOCK_MARKER@[i]) == BLOCK_MARKER@[17 - j + i],
    ensures
        j <= 3,
{
    lemma_marker_text();
    let m = BLOCK_MARKER@;
    if j >= 4 {
        assert(m[j - 1] == m[16]);
        assert(m[j - 2] == m[15]);
        assert(m[j - 3] == m[14]);
        assert(m[16] == '`' && m[15] == '`' && m[14] == '`');
    }
}

/// Where a text stands in another, the other holds its characters there.
proof fn lemma_occurs_chars(text: Seq<char>, pat: Seq<char>, x: int)
    requires
        occurs_at(text, pat, x),
    ensures
        forall|i: int| 0 <= i < pat.len() ==> text[x + i] == #[trigger] pat[i],
{
    assert forall|i: int| 0 <= i < pat.len() implies text[x + i] == #[trigger] pat[i] by {
        assert(text.subrange(x, x + pat.len())[i] == text[x + i]);
    }
}

/// A text stands in another where the other holds its characters.
proof fn lemma_chars_occur(text: Seq<char>, pat: Seq<char>, x: int)
    requires
        0 <= x,
        x + pat.len() <= text.len(),
        forall|i: int| 0 <= i < pat.len() ==> text[x + i] == #[trigger] pat[i],
    ensures
        occurs_at(text, pat, x),
{
    assert(text.subrange(x, x + pat.len()) =~= pat);
}

/// A marker that would begin within a marker that was put in, and end in
/// the piece behind it, would stand in the message's text too: at the end
/// of the fenced block, in place of which the marker was put in.
proof fn lemma_begins_in_marker(
    t: Seq<char>,
    c: Seq<char>,
    f: Seq<char>,
    g: Seq<char>,
    x: int,
)
    requires
        fenced(f),
        occurs_at(t + BLOCK_MARKER@ + g, BLOCK_MARKER@, x),
        t.len() < x < t.len() + 17,
    ensures
        found_in(c + f + g, BLOCK_MARKER@),
{
    lemma_marker_text();
    let m = BLOCK_MARKER@;
    let all = t + m + g;
    let d = x - t.len();
    let j = 17 - d;
    lemma_occurs_chars(all, m, x);
    assert forall|i: int| 0 <= i < j implies (#[trigger] m[i]) == m[17 - j + i] by {
        assert(all[x + i] == m[i]);
        assert(all[x + i] == m[d + i]);
    }
    lemma_border(j);
    let text = c + f + g;
    let y = c.len() + f.len() - j;
    assert forall|i: int| 0 <= i < m.len() implies text[y + i] == #[trigger] m[i] by {
        if i < j {
            assert(f.skip(f.len() - 3)[3 - j + i] == f[f.len() - j + i]);
            assert(FENCE@[3 - j + i] == '`');
            assert(text[y + i] == f[f.len() - j + i]);
        } else {
            assert(all[x + i] == m[i]);
            assert(all[x + i] == g[i - j]);
            assert(text[y + i] == g[i - j]);
        }
    }
    lemma_chars_occur(text, m, y);
}

/// A marker that would begin within a piece and end in the marker that was
/// put in behind it would stand in the message's text too: at the
/// beginning of the fenced block, in place of which the marker was put in.
proof fn lemma_begins_in_piece(
    p: Seq<char>,
    q: Seq<char>,
    h: Seq<char>,
    f: Seq<char>,
    g: Seq<char>,
    x: int,
)
    requires
        fenced(f),
        occurs_at(p + h + BLOCK_MARKER@ + g, BLOCK_MARKER@, x),
        p.len() <= x < p.len() + h.len(),
        p.len() + h.len() < x + 17,
    ensures
        found_in(q + h + f + g, BLOCK_MARKER@),
{
    lemma_marker_text();
    let m = BLOCK_MARKER@;
    let all = p + h + m + g;
    let a = p.len() + h.len();
    let j = x + 17 - a;
    lemma_occurs_chars(all, m, x);
    assert forall|i: int| 0 <= i < j implies (#[trigger] m[i]) == m[17 - j + i] by {
        assert(all[x + (17 - j + i)] == m[17 - j + i]);
        assert(all[a + i] == m[i]);
    }
    lemma_border(j);
    let text = q + h + f + g;
    let y = x - p.len() + q.len();
    assert forall|i: int| 0 <= i < m.len() implies text[y + i] == #[trigger] m[i] by {
        if i < 17 - j {
            assert(all[x + i] == m[i]);
            assert(all[x + i] == h[x - p.len() + i]);
            assert(text[y + i] == h[x - p.len() + i]);
        } else {
            assert(f.take(3)[i - (17 - j)] == f[i - (17 - j)]);
            assert(FENCE@[i - (17 - j)] == '`');
            assert(text[y + i] == f[i - (17 - j)]);
        }
    }
    lemma_chars_occur(text, m, y);
}

/// A marker that would begin within one marker that was put in, hold the
/// piece behind it, and end in the next marker would stand in the
/// message's text too: from the end of the one fenced block to the
/// beginning of the next.
proof fn lemma_spans_piece(
    p: Seq<char>,
    q: Seq<char>,
    f1: Seq<char>,
    h: Seq<char>,
    f2: Seq<char>,
    g: Seq<char>,
    x: int,
)
    requires
        fenced(f1),
        fenced(f2),
        occurs_at(p + BLOCK_MARKER@ + h + BLOCK_MARKER@ + g, BLOCK_MARKER@, x),
        p.len() < x < p.len() + 17,
        p.len() + 17 + h.len() < x + 17,
    ensures
        found_in(q + f1 + h + f2 + g, BLOCK_MARKER@),
{
    lemma_marker_text();
    let m = BLOCK_MARKER@;
    let all = p + m + h + m + g;
    let a = p.len() + 17 + h.len();
    let j = x + 17 - a;
    let u = p.len() + 17 - x;
    lemma_occurs_chars(all, m, x);
    assert forall|i: int| 0 <= i < j implies (#[trigger] m[i]) == m[17 - j + i] by {
        assert(all[x + (17 - j + i)] == m[17 - j + i]);
        assert(all[a + i] == m[i]);
    }
    lemma_border(j);
    assert forall|i: int| 0 <= i < u implies (#[trigger] m[i]) == m[17 - u + i] by {
        assert(all[x + i] == m[i]);
        assert(all[x + i] == m[17 - u + i]);
    }
    lemma_border(u);
    let text = q + f1 + h + f2 + g;
    let y = q.len() + f1.len() - u;
    assert forall|i: int| 0 <= i < m.len() implies text[y + i] == #[trigger] m[i] by {
        if i < u {
            assert(f1.skip(f1.len() - 3)[3 - u + i] == f1[f1.len() - u + i]);
            assert(FENCE@[3 - u + i] == '`');
            assert(text[y + i] == f1[f1.len() - u + i]);
        } else if i < 17 - j {
            assert(all[x + i] == m[i]);
            assert(all[x + i] == h[i - u]);
            assert(text[y + i] == h[i - u]);
        } else {
            assert(f2.take(3)[i - (17 - j)] == f2[i - (17 - j)]);
            assert(FENCE@[i - (17 - j)] == '`');
            assert(text[y + i] == f2[i - (17 - j)]);
        }
    }
    lemma_chars_occur(text, m, y);
}

/// The first pieces of a sequence without its last piece are those of the
/// sequence.
proof fn lemma_upto_front(pieces: Seq<Seq<char>>, between: Seq<Seq<char>>, k: nat)
    requires
        k + 1 < pieces.len(),
    ensures
        upto(pieces.drop_last(), between, k) == upto(pieces, between, k),
    decreases k,
{
    if k > 0 {
        lemma_upto_front(pieces, between, (k - 1) as nat);
    }
}

/// Pieces that are woven with other texts are all the pieces with the
/// texts between them.
pub proof fn lemma_woven_upto(pieces: Seq<Seq<char>>, between: Seq<Seq<char>>)
    requires
        pieces.len() >= 1,
    ensures
        woven(pieces, between) == upto(pieces, between, (pieces.len() - 1) as nat),
    decreases pieces.len(),
{
    if pieces.len() > 1 {
        lemma_woven_upto(pieces.drop_last(), between);
        lemma_upto_front(pieces, between, (pieces.len() - 2) as nat);
    }
}

/// Where fenced blocks stand between pieces and the whole holds no marker,
/// the same pieces with a marker in place of each block hold the marker at
/// the places of the blocks and nowhere else. This is said of the first
/// `m + 1` pieces.
#[verifier::rlimit(40)]
pub proof fn lemma_markers_in_place(
    gaps: Seq<Seq<char>>,
    blocks: Seq<Seq<char>>,
    marks: Seq<Seq<char>>,
    m: nat,
)
    requires
        m < gaps.len(),
        m <= blocks.len(),
        m <= marks.len(),
        forall|i: int| 0 <= i < blocks.len() ==> fenced(#[trigger] blocks[i]),
        forall|i: int| 0 <= i < marks.len() ==> (#[trigger] marks[i]) == BLOCK_MARKER@,
        !found_in(upto(gaps, blocks, m), BLOCK_MARKER@),
    ensures
        forall|x: int| #[trigger]
            occurs_at(upto(gaps, marks, m), BLOCK_MARKER@, x) ==> exists|k: nat|
                k < m && x == (#[trigger] upto(gaps, marks, k)).len(),
        forall|k: nat|
            k < m ==> occurs_at(
                upto(gaps, marks, m),
                BLOCK_MARKER@,
                (#[trigger] upto(gaps, marks, k)).len() as int,
            ),
    decreases m,
{
    lemma_marker_text();
    let mk = BLOCK_MARKER@;
    let marked = upto(gaps, marks, m);
    let text = upto(gaps, blocks, m);
    if m == 0 {
        assert forall|x: int| #[trigger] occurs_at(marked, mk, x) implies false by {
            assert(occurs_at(text, mk, x));
        }
    } else {
        let tp = upto(gaps, marks, (m - 1) as nat);
        let cp = upto(gaps, blocks, (m - 1) as nat);
        let f = blocks[m - 1];
        let g = gaps[m as int];
        let a = tp.len() as int;
        assert(marks[m - 1] == mk);
        assert(marked == tp + mk + g);
        assert(text == cp + f + g);
        assert(!found_in(cp, mk)) by {
            if found_in(cp, mk) {
                let y = choose|y: int| occurs_at(cp, mk, y);
                lemma_occurs_chars(cp, mk, y);
                assert forall|i: int| 0 <= i < mk.len() implies text[y + i] == #[trigger] mk[i] by {
                    assert(text[y + i] == cp[y + i]);
                }
                lemma_chars_occur(text, mk, y);
            }
        }
        lemma_markers_in_place(gaps, blocks, marks, (m - 1) as nat);
        assert forall|k: nat| k < m implies occurs_at(
            marked,
            mk,
            (#[trigger] upto(gaps, marks, k)).len() as int,
        ) by {
            let x = upto(gaps, marks, k).len() as int;
            if k == m - 1 {
                assert forall|i: int| 0 <= i < mk.len() implies marked[x + i] == #[trigger] mk[i] by {}
                lemma_chars_occur(marked, mk, x);
            } else {
                assert(occurs_at(tp, mk, x));
                lemma_occurs_chars(tp, mk, x);
                assert forall|i: int| 0 <= i < mk.len() implies marked[x + i] == #[trigger] mk[i] by {
                    assert(marked[x + i] == tp[x + i]);
                }
                lemma_chars_occur(marked, mk, x);
            }
        }
        assert forall|x: int| #[trigger] occurs_at(marked, mk, x) implies exists|k: nat|
            k < m && x == (#[trigger] upto(gaps, marks, k)).len() by {
            lemma_occurs_chars(marked, mk, x);
            if x + 17 <= a {
                assert forall|i: int| 0 <= i < mk.len() implies tp[x + i] == #[trigger] mk[i] by {
                    assert(marked[x + i] == tp[x + i]);
                }
                lemma_chars_occur(tp, mk, x);
                let k = choose|k: nat| k < m - 1 && x == (#[trigger] upto(gaps, marks, k)).len();
                assert(k < m && x == upto(gaps, marks, k).len());
            } else if x == a {
                assert(x == upto(gaps, marks, (m - 1) as nat).len());
            } else if x >= a + 17 {
                let y = cp.len() + f.len() + (x - a - 17);
                assert forall|i: int| 0 <= i < mk.len() implies text[y + i] == #[trigger] mk[i] by {
                    assert(marked[x + i] == g[x - a - 17 + i]);
                    assert(text[y + i] == g[x - a - 17 + i]);
                }
                lemma_chars_occur(text, mk, y);
                assert(false);
            } else if x > a {
                lemma_begins_in_marker(tp, cp, f, g, x);
                assert(false);
            } else if m == 1 {
                let h = gaps[0];
                let none = Seq::<char>::empty();
                assert(none + h =~= h);
                lemma_begins_in_piece(none, none, h, f, g, x);
                assert(false);
            } else {
                let tpp = upto(gaps, marks, (m - 2) as nat);
                let cpp = upto(gaps, blocks, (m - 2) as nat);
                let f1 = blocks[m - 2];
                let h = gaps[m - 1];
                assert(marks[m - 2] == mk);
                assert(tp == tpp + mk + h);
                assert(cp == cpp + f1 + h);
                if x >= tpp.len() + 17 {
                    lemma_begins_in_piece(tpp + mk, cpp + f1, h, f, g, x);
                } else {
                    lemma_spans_piece(tpp, cpp, f1, h, f, g, x);
                }
                assert(false);
            }
        }
    }
}

/// The count of the markers in the marked text of a message is that of its
/// code blocks: where the message's text does not hold the marker, the
/// marker stands in the marked text at the place of each code block and
/// nowhere else, and the places lie apart by the length of the marker or
/// more.
pub proof fn lemma_markers_are_the_blocks(m: Message)
    requires
        m.wf(),
        !found_in(m@.content, BLOCK_MARKER@),
    ensures
        forall|x: int| #[trigger]
            occurs_at(m@.non_code_content, BLOCK_MARKER@, x) ==> exists|k: nat|
                k < m@.code_blocks.len() && x == #[trigger] place(fence_gaps(m@.content), k),
        forall|k: nat|
            k < m@.code_blocks.len() ==> occurs_at(
                m@.non_code_content,
                BLOCK_MARKER@,
                #[trigger] place(fence_gaps(m@.content), k),
            ),
        forall|k: nat|
            k + 1 < m@.code_blocks.len() ==> place(fence_gaps(m@.content), k) + 17 <= #[trigger] place(
                fence_gaps(m@.content),
                (k + 1) as nat,
            ),
{
    lemma_marker_text();
    let content = m@.content;
    let gaps = fence_gaps(content);
    let blocks = fences(content);
    let n = m@.code_blocks.len();
    let marks = markers(n);
    assert(gaps.len() == n + 1);
    assert(blocks.len() == n);
    crate::message::lemma_joined_is_woven(gaps, BLOCK_MARKER@, marks);
    lemma_woven_upto(gaps, marks);
    lemma_woven_upto(gaps, blocks);
    assert(m@.non_code_content == upto(gaps, marks, n));
    assert(content == upto(gaps, blocks, n));
    lemma_markers_in_place(gaps, blocks, marks, n);
    assert forall|x: int| #[trigger]
        occurs_at(m@.non_code_content, BLOCK_MARKER@, x) implies exists|k: nat|
        k < n && x == #[trigger] place(gaps, k) by {
        let k = choose|k: nat| k < n && x == (#[trigger] upto(gaps, marks, k)).len();
        assert(x == place(gaps, k));
    }
    assert forall|k: nat| k + 1 < n implies place(gaps, k) + 17 <= #[trigger] place(
        gaps,
        (k + 1) as nat,
    ) by {
        assert(marks[k as int] == BLOCK_MARKER@);
        assert(upto(gaps, marks, (k + 1) as nat) == upto(gaps, marks, k) + marks[k as int]
            + gaps[k as int + 1]);
    }
}

} // verus!
