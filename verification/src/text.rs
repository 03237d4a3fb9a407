//! Text as sequences of characters: the vocabulary that the contracts of the
//! other modules are written in, and the executable functions that compute it.

use vstd::prelude::*;

verus! {

/// `String::push` appends one character to the end of the string.
pub assume_specification[ String::push ](s: &mut String, c: char)
    ensures
        final(s)@ == old(s)@.push(c),
;

/// `String::pop` takes the last character off the string and returns it;
/// an empty string stays as it is and nothing is returned.
pub assume_specification[ String::pop ](s: &mut String) -> (r: Option<char>)
    ensures
        old(s)@.len() == 0 ==> r is None && final(s)@ == old(s)@,
        old(s)@.len() > 0 ==> r == Some(old(s)@.last()) && final(s)@ == old(s)@.drop_last(),
;

/// The characters of a string, in order.
pub fn chars_of(s: &str) -> (r: Vec<char>)
    ensures
        r@ == s@,
{
    let mut out: Vec<char> = Vec::new();
    for c in it: s.chars()
        invariant
            out@ == it.seq().take(it.index()),
    {
        out.push(c);
    }
    out
}

/// The string made of the given characters, in order.
pub fn string_of(v: &Vec<char>) -> (r: String)
    ensures
        r@ == v@,
{
    let mut out = String::new();
    let mut i: usize = 0;
    while i < v.len()
        invariant
            i <= v.len(),
            out@ == v@.take(i as int),
        decreases v.len() - i,
    {
        out.push(v[i]);
        i += 1;
        assert(v@.take(i as int) == v@.take(i - 1).push(v@[i - 1]));
    }
    assert(v@.take(v.len() as int) == v@);
    out
}

/// The characters `v[from..to]` as a vector of their own.
pub fn slice(v: &Vec<char>, from: usize, to: usize) -> (r: Vec<char>)
    requires
        from <= to <= v.len(),
    ensures
        r@ == v@.subrange(from as int, to as int),
{
    let mut out: Vec<char> = Vec::new();
    let mut i: usize = from;
    while i < to
        invariant
            from <= i <= to <= v.len(),
            out@ == v@.subrange(from as int, i as int),
        decreases to - i,
    {
        out.push(v[i]);
        i += 1;
        assert(v@.subrange(from as int, i as int) == v@.subrange(from as int, i - 1).push(
            v@[i - 1],
        ));
    }
    out
}

/// Appends the characters of `tail` to `v`.
pub fn extend(v: &mut Vec<char>, tail: &Vec<char>)
    ensures
        final(v)@ == old(v)@ + tail@,
{
    let mut i: usize = 0;
    while i < tail.len()
        invariant
            i <= tail.len(),
            v@ == old(v)@ + tail@.take(i as int),
        decreases tail.len() - i,
    {
        v.push(tail[i]);
        i += 1;
        assert(tail@.take(i as int) == tail@.take(i - 1).push(tail@[i - 1]));
    }
    assert(tail@.take(tail.len() as int) == tail@);
}

/// Whether two character sequences are the same.
pub fn same(a: &Vec<char>, b: &Vec<char>) -> (r: bool)
    ensures
        r == (a@ == b@),
{
    if a.len() != b.len() {
        return false;
    }
    let mut i: usize = 0;
    while i < a.len()
        invariant
            i <= a.len(),
            a.len() == b.len(),
            a@.take(i as int) == b@.take(i as int),
        decreases a.len() - i,
    {
        if a[i] != b[i] {
            return false;
        }
        i += 1;
        assert(a@.take(i as int) == a@.take(i - 1).push(a@[i - 1]));
        assert(b@.take(i as int) == b@.take(i - 1).push(b@[i - 1]));
    }
    assert(a@.take(a.len() as int) == a@);
    assert(b@.take(b.len() as int) == b@);
    true
}

/// Whether `s` begins with `p`.
pub open spec fn has_prefix(s: Seq<char>, p: Seq<char>) -> bool {
    p.len() <= s.len() && s.take(p.len() as int) == p
}

/// Whether `s` begins with `p`.
pub fn starts_with(s: &Vec<char>, p: &Vec<char>) -> (r: bool)
    ensures
        r == has_prefix(s@, p@),
{
    if p.len() > s.len() {
        return false;
    }
    let mut i: usize = 0;
    while i < p.len()
        invariant
            i <= p.len() <= s.len(),
            s@.take(i as int) == p@.take(i as int),
        decreases p.len() - i,
    {
        if s[i] != p[i] {
            assert(s@.take(p.len() as int)[i as int] != p@[i as int]);
            return false;
        }
        i += 1;
        assert(s@.take(i as int) == s@.take(i - 1).push(s@[i - 1]));
        assert(p@.take(i as int) == p@.take(i - 1).push(p@[i - 1]));
    }
    assert(p@.take(p.len() as int) == p@);
    true
}

/// The characters with the Unicode property `White_Space`.
pub open spec fn is_white_space(c: char) -> bool {
    let n = c as u32;
    (0x09 <= n <= 0x0D) || n == 0x20 || n == 0x85 || n == 0xA0 || n == 0x1680 || (0x2000 <= n
        <= 0x200A) || n == 0x2028 || n == 0x2029 || n == 0x202F || n == 0x205F || n == 0x3000
}

/// Whether a character has the Unicode property `White_Space`.
pub fn is_whitespace(c: char) -> (b: bool)
    ensures
        b == is_white_space(c),
{
    let n: u32 = c as u32;
    (0x09 <= n && n <= 0x0D) || n == 0x20 || n == 0x85 || n == 0xA0 || n == 0x1680 || (0x2000 <= n
        && n <= 0x200A) || n == 0x2028 || n == 0x2029 || n == 0x202F || n == 0x205F || n == 0x3000
}

/// How many white-space characters `s` begins with.
pub open spec fn leading_ws(s: Seq<char>) -> nat
    decreases s.len(),
{
    if s.len() > 0 && is_white_space(s[0]) {
        1 + leading_ws(s.drop_first())
    } else {
        0
    }
}

/// How many white-space characters `s` ends with.
pub open spec fn trailing_ws(s: Seq<char>) -> nat
    decreases s.len(),
{
    if s.len() > 0 && is_white_space(s.last()) {
        1 + trailing_ws(s.drop_last())
    } else {
        0
    }
}

/// `s` without the white space at its two ends.
pub open spec fn trimmed(s: Seq<char>) -> Seq<char> {
    if leading_ws(s) == s.len() {
        Seq::empty()
    } else {
        s.subrange(leading_ws(s) as int, s.len() - trailing_ws(s))
    }
}

/// `leading_ws` is the index of the first character that is no white space.
pub proof fn lemma_leading_ws(s: Seq<char>, k: int)
    requires
        0 <= k <= s.len(),
        forall|i: int| 0 <= i < k ==> is_white_space(s[i]),
        k == s.len() || !is_white_space(s[k]),
    ensures
        leading_ws(s) == k,
    decreases k,
{
    if k > 0 {
        lemma_leading_ws(s.drop_first(), k - 1);
    }
}

/// `trailing_ws` counts back to the last character that is no white space.
pub proof fn lemma_trailing_ws(s: Seq<char>, k: int)
    requires
        0 <= k <= s.len(),
        forall|i: int| k <= i < s.len() ==> is_white_space(s[i]),
        k == 0 || !is_white_space(s[k - 1]),
    ensures
        trailing_ws(s) == s.len() - k,
    decreases s.len() - k,
{
    if k < s.len() {
        lemma_trailing_ws(s.drop_last(), k);
    }
}

/// `s` without the white space at its two ends.
pub fn trim(s: &Vec<char>) -> (r: Vec<char>)
    ensures
        r@ == trimmed(s@),
{
    let mut a: usize = 0;
    while a < s.len() && is_whitespace(s[a])
        invariant
            a <= s.len(),
            forall|i: int| 0 <= i < a ==> is_white_space(s@[i]),
        decreases s.len() - a,
    {
        a += 1;
    }
    let mut b: usize = s.len();
    while b > a && is_whitespace(s[b - 1])
        invariant
            a <= b <= s.len(),
            forall|i: int| b <= i < s.len() ==> is_white_space(s@[i]),
        decreases b,
    {
        b -= 1;
    }
    proof {
        lemma_leading_ws(s@, a as int);
        if a < s.len() {
            lemma_trailing_ws(s@, b as int);
        }
    }
    slice(s, a, b)
}

/// A text without the white space at its end.
pub open spec fn without_trailing_ws(s: Seq<char>) -> Seq<char> {
    s.take(s.len() - trailing_ws(s))
}

/// A text without the white space at its end.
pub fn trim_end(s: &Vec<char>) -> (r: Vec<char>)
    ensures
        r@ == without_trailing_ws(s@),
{
    let mut b: usize = s.len();
    while b > 0 && is_whitespace(s[b - 1])
        invariant
            b <= s.len(),
            forall|i: int| b <= i < s.len() ==> is_white_space(s@[i]),
        decreases b,
    {
        b -= 1;
    }
    proof {
        lemma_trailing_ws(s@, b as int);
    }
    slice(s, 0, b)
}

/// `s` after `p` has been taken from its front as often as it stands there.
pub open spec fn without_prefixes(s: Seq<char>, p: Seq<char>) -> Seq<char>
    decreases s.len(),
{
    if p.len() > 0 && has_prefix(s, p) {
        without_prefixes(s.skip(p.len() as int), p)
    } else {
        s
    }
}

/// `s` after `p` has been taken from its front as often as it stands there.
pub fn strip_prefixes(s: &Vec<char>, p: &Vec<char>) -> (r: Vec<char>)
    ensures
        r@ == without_prefixes(s@, p@),
{
    let mut rest = slice(s, 0, s.len());
    assert(rest@ == s@);
    if p.len() == 0 {
        return rest;
    }
    while starts_with(&rest, p)
        invariant
            p.len() > 0,
            without_prefixes(s@, p@) == without_prefixes(rest@, p@),
        decreases rest.len(),
    {
        rest = slice(&rest, p.len(), rest.len());
    }
    rest
}

/// Whether two strings hold the same text.
pub fn str_eq(a: &str, b: &str) -> (r: bool)
    ensures
        r == (a@ == b@),
{
    let x = chars_of(a);
    let y = chars_of(b);
    same(&x, &y)
}

/// The first `n` characters of `v`, or all of them if there are fewer.
pub fn take(v: &Vec<char>, n: usize) -> (r: Vec<char>)
    ensures
        r@ == v@.take(if n <= v.len() { n as int } else { v.len() as int }),
{
    if n <= v.len() {
        slice(v, 0, n)
    } else {
        slice(v, 0, v.len())
    }
}

/// A text counts no more white space at its beginning or its end than it
/// has characters, and what stands after the white space at its beginning,
/// or before that at its end, is none.
pub proof fn lemma_ws_bounds(s: Seq<char>)
    ensures
        leading_ws(s) <= s.len(),
        trailing_ws(s) <= s.len(),
        forall|i: int| 0 <= i < leading_ws(s) ==> is_white_space(s[i]),
        leading_ws(s) < s.len() ==> !is_white_space(s[leading_ws(s) as int]),
        forall|i: int| s.len() - trailing_ws(s) <= i < s.len() ==> is_white_space(s[i]),
        trailing_ws(s) < s.len() ==> !is_white_space(s[s.len() - trailing_ws(s) - 1]),
    decreases s.len(),
{
    if s.len() > 0 {
        if is_white_space(s[0]) {
            let t = s.drop_first();
            lemma_ws_bounds(t);
            assert forall|i: int| 0 <= i < leading_ws(s) implies is_white_space(s[i]) by {
                if i > 0 {
                    assert(s[i] == t[i - 1]);
                }
            }
            if leading_ws(s) < s.len() {
                assert(s[leading_ws(s) as int] == t[leading_ws(t) as int]);
            }
        }
        if is_white_space(s.last()) {
            let t = s.drop_last();
            lemma_ws_bounds(t);
            assert forall|i: int| s.len() - trailing_ws(s) <= i < s.len() implies is_white_space(
                s[i],
            ) by {
                if i < t.len() {
                    assert(s[i] == t[i]);
                }
            }
            if trailing_ws(s) < s.len() {
                assert(s[s.len() - trailing_ws(s) - 1] == t[t.len() - trailing_ws(t) - 1]);
            }
        }
    }
}

/// A text that ends with a character that is no white space, followed by
/// more text: without the white space at the two ends it is the one without
/// the white space at its beginning, and then the other without the white
/// space at its end.
pub proof fn lemma_trimmed_concat(x: Seq<char>, y: Seq<char>)
    requires
        x.len() > 0,
        !is_white_space(x.last()),
    ensures
        trimmed(x + y) == x.skip(leading_ws(x) as int) + without_trailing_ws(y),
        leading_ws(x) < x.len(),
{
    lemma_ws_bounds(x);
    lemma_ws_bounds(y);
    let all = x + y;
    let a = leading_ws(x) as int;
    assert(a < x.len()) by {
        if a >= x.len() {
            assert(is_white_space(x[x.len() - 1]));
        }
    }
    assert forall|i: int| 0 <= i < a implies is_white_space(all[i]) by {
        assert(all[i] == x[i]);
    }
    assert(all[a] == x[a]);
    lemma_leading_ws(all, a);
    let t = trailing_ws(y) as int;
    let end = all.len() - t;
    assert forall|i: int| end <= i < all.len() implies is_white_space(all[i]) by {
        assert(all[i] == y[i - x.len()]);
    }
    if t < y.len() {
        assert(all[end - 1] == y[y.len() - t - 1]);
    } else {
        assert(all[end - 1] == x[x.len() - 1]);
    }
    lemma_trailing_ws(all, end);
    assert(all.subrange(a, end) =~= x.skip(a) + y.take(y.len() - t));
}

/// What is left of a text without the white space at its two ends begins
/// and ends with a character that is no white space.
pub proof fn lemma_trimmed_ends(s: Seq<char>)
    requires
        trimmed(s).len() > 0,
    ensures
        !is_white_space(trimmed(s)[0]),
        !is_white_space(trimmed(s).last()),
        leading_ws(trimmed(s)) == 0,
        trailing_ws(trimmed(s)) == 0,
        leading_ws(s) + trimmed(s).len() + trailing_ws(s) == s.len(),
{
    lemma_ws_bounds(s);
    let a = leading_ws(s) as int;
    let t = trailing_ws(s) as int;
    assert(a < s.len());
    assert(t < s.len()) by {
        if t >= s.len() {
            assert(is_white_space(s[a]));
        }
    }
    assert(a <= s.len() - t - 1) by {
        if a > s.len() - t - 1 {
            assert(is_white_space(s[a]));
        }
    }
    let q = trimmed(s);
    assert(q[0] == s[a]);
    assert(q.last() == s[s.len() - t - 1]);
}

/// The white space at the end of a text that ends with none is none.
pub proof fn lemma_without_trailing_ws(s: Seq<char>)
    ensures
        trailing_ws(without_trailing_ws(s)) == 0,
        without_trailing_ws(without_trailing_ws(s)) == without_trailing_ws(s),
{
    lemma_ws_bounds(s);
    let e = without_trailing_ws(s);
    if e.len() > 0 {
        assert(e.last() == s[s.len() - trailing_ws(s) - 1]);
    }
    assert(e.take(e.len() as int) =~= e);
}

/// Where what is left of a text after its prefixes were taken away begins
/// with another character than the prefix, more text after it changes
/// nothing of what is taken away.
pub proof fn lemma_without_prefixes_concat(x: Seq<char>, p: Seq<char>, e: Seq<char>)
    requires
        p.len() > 0,
        without_prefixes(x, p).len() > 0,
        without_prefixes(x, p)[0] != p[0],
    ensures
        without_prefixes(x + e, p) == without_prefixes(x, p) + e,
    decreases x.len(),
{
    let all = x + e;
    if has_prefix(x, p) {
        assert(all.take(p.len() as int) =~= x.take(p.len() as int));
        assert(all.skip(p.len() as int) =~= x.skip(p.len() as int) + e);
        lemma_without_prefixes_concat(x.skip(p.len() as int), p, e);
    } else {
        assert(all[0] == x[0]);
        if has_prefix(all, p) {
            assert(all.take(p.len() as int)[0] == p[0]);
        }
    }
}

/// What is left of a text after its prefixes were taken away is its end.
pub proof fn lemma_without_prefixes_is_suffix(x: Seq<char>, p: Seq<char>)
    ensures
        without_prefixes(x, p).len() <= x.len(),
        without_prefixes(x, p) == x.skip(x.len() - without_prefixes(x, p).len()),
    decreases x.len(),
{
    if p.len() > 0 && has_prefix(x, p) {
        let rest = x.skip(p.len() as int);
        lemma_without_prefixes_is_suffix(rest, p);
        let y = without_prefixes(rest, p);
        assert(rest.skip(rest.len() - y.len()) =~= x.skip(x.len() - y.len()));
    } else {
        assert(x.skip(0) =~= x);
    }
}

/// A text whose white space at the two ends is known: what lies between is
/// the text without it.
pub proof fn lemma_trimmed_is(s: Seq<char>, i: int, j: int)
    requires
        0 <= i <= j <= s.len(),
        forall|k: int| 0 <= k < i ==> is_white_space(s[k]),
        forall|k: int| j <= k < s.len() ==> is_white_space(s[k]),
        i < j ==> !is_white_space(s[i]) && !is_white_space(s[j - 1]),
    ensures
        trimmed(s) == s.subrange(i, j),
{
    if i < j {
        lemma_leading_ws(s, i);
        lemma_trailing_ws(s, j);
    } else {
        lemma_leading_ws(s, s.len() as int);
        assert(s.subrange(i, j) =~= Seq::<char>::empty());
    }
}

/// Where a text is nothing but prefixes, taking the prefixes from it and
/// what follows it takes them from what follows.
pub proof fn lemma_without_prefixes_through(x: Seq<char>, p: Seq<char>, e: Seq<char>)
    requires
        p.len() > 0,
        without_prefixes(x, p).len() == 0,
    ensures
        without_prefixes(x + e, p) == without_prefixes(e, p),
    decreases x.len(),
{
    if x.len() == 0 {
        assert(x + e =~= e);
    } else {
        assert(has_prefix(x, p));
        let all = x + e;
        assert(all.take(p.len() as int) =~= x.take(p.len() as int));
        assert(all.skip(p.len() as int) =~= x.skip(p.len() as int) + e);
        lemma_without_prefixes_through(x.skip(p.len() as int), p, e);
    }
}

} // verus!
