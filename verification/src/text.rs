//! Character-level helpers shared by the renderer and the path model.

use vstd::prelude::*;

verus! {

/// Appends one character to a `String` (std's `String::push`).
#[verifier::external_body]
pub(crate) fn push_char(s: &mut String, c: char)
    ensures
        final(s)@ == old(s)@.push(c),
{
    s.push(c);
}

/// The characters of `s`, in order.
pub fn to_chars(s: &str) -> (v: Vec<char>)
    ensures
        v@ == s@,
{
    let mut v: Vec<char> = Vec::new();
    for c in it: s.chars()
        invariant
            v@ == it.seq().take(it.index() as int),
            it.seq() == s@,
    {
        v.push(c);
    }
    v
}


/// The pieces of `s` between occurrences of `sep`, in order: one more piece
/// than `s` holds separators.
pub open spec fn pieces(s: Seq<char>, sep: char) -> Seq<Seq<char>>
    decreases s.len(),
{
    if s.len() == 0 {
        seq![Seq::<char>::empty()]
    } else {
        let init = pieces(s.drop_last(), sep);
        if s.last() == sep {
            init.push(Seq::<char>::empty())
        } else {
            init.update(init.len() - 1, init.last().push(s.last()))
        }
    }
}

/// There is always at least one piece.
pub proof fn lemma_pieces_len(s: Seq<char>, sep: char)
    ensures
        pieces(s, sep).len() >= 1,
    decreases s.len(),
{
    if s.len() > 0 {
        lemma_pieces_len(s.drop_last(), sep);
    }
}

/// When `s[k..]` holds no `sep` and `s[k - 1]` is `sep`, the pieces of `s`
/// are those of `s[..k - 1]` followed by `s[k..]`.
pub proof fn lemma_pieces_last(s: Seq<char>, sep: char, k: int)
    requires
        0 < k <= s.len(),
        s[k - 1] == sep,
        forall|j: int| k <= j < s.len() ==> s[j] != sep,
    ensures
        pieces(s, sep) == pieces(s.subrange(0, k - 1), sep).push(s.subrange(k, s.len() as int)),
    decreases s.len() - k,
{
    if s.len() == k {
        assert(s.drop_last() == s.subrange(0, k - 1));
        assert(s.subrange(k, s.len() as int) == Seq::<char>::empty());
    } else {
        let t = s.drop_last();
        lemma_pieces_last(t, sep, k);
        assert(t.subrange(0, k - 1) == s.subrange(0, k - 1));
        assert(s.subrange(k, s.len() as int) == t.subrange(k, t.len() as int).push(s.last()));
    }
}

/// When `s` holds no `sep`, it is a single piece.
pub proof fn lemma_pieces_single(s: Seq<char>, sep: char)
    requires
        forall|j: int| 0 <= j < s.len() ==> s[j] != sep,
    ensures
        pieces(s, sep) == seq![s],
    decreases s.len(),
{
    if s.len() == 0 {
        assert(s == Seq::<char>::empty());
    } else {
        lemma_pieces_single(s.drop_last(), sep);
        assert(s.drop_last().push(s.last()) == s);
        let init = pieces(s.drop_last(), sep);
        assert(init.update(init.len() - 1, init.last().push(s.last())) =~= seq![s]);
    }
}

/// The pieces of `a`, a separator and `b` are those of `a` followed by those
/// of `b`.
pub proof fn lemma_pieces_concat(a: Seq<char>, b: Seq<char>, sep: char)
    ensures
        pieces(a + seq![sep] + b, sep) == pieces(a, sep) + pieces(b, sep),
    decreases b.len(),
{
    let ab = a + seq![sep] + b;
    lemma_pieces_len(a, sep);
    lemma_pieces_len(b, sep);
    if b.len() == 0 {
        assert(ab.drop_last() == a);
        assert(pieces(b, sep) == seq![Seq::<char>::empty()]);
        assert(pieces(a, sep).push(Seq::<char>::empty()) == pieces(a, sep) + pieces(b, sep));
    } else {
        lemma_pieces_concat(a, b.drop_last(), sep);
        assert(ab.drop_last() == a + seq![sep] + b.drop_last());
        assert(ab.last() == b.last());
        lemma_pieces_len(b.drop_last(), sep);
        let x = pieces(a, sep);
        let y = pieces(b.drop_last(), sep);
        if b.last() == sep {
            assert((x + y).push(Seq::<char>::empty()) == x + y.push(Seq::<char>::empty()));
        } else {
            assert((x + y).update((x + y).len() - 1, (x + y).last().push(b.last())) == x
                + y.update(y.len() - 1, y.last().push(b.last())));
        }
    }
}

/// No piece holds the separator.
pub proof fn lemma_pieces_free_of_sep(s: Seq<char>, sep: char)
    ensures
        forall|k: int, i: int|
            0 <= k < pieces(s, sep).len() && 0 <= i < pieces(s, sep)[k].len() ==> #[trigger] pieces(
                s,
                sep,
            )[k][i] != sep,
    decreases s.len(),
{
    lemma_pieces_len(s, sep);
    if s.len() > 0 {
        lemma_pieces_free_of_sep(s.drop_last(), sep);
        let init = pieces(s.drop_last(), sep);
        lemma_pieces_len(s.drop_last(), sep);
        let all = pieces(s, sep);
        assert forall|k: int, i: int| 0 <= k < all.len() && 0 <= i < all[k].len() implies #[trigger] all[k][i]
            != sep by {
            if s.last() != sep && k == init.len() - 1 {
                let last = init.last().push(s.last());
                assert(all[k] == last);
                if i < init.last().len() {
                    assert(last[i] == init[k][i]);
                }
            } else if k < init.len() {
                assert(all[k] == init[k]);
            }
        }
    }
}

/// Appends the characters of `s` to `out`.
pub fn extend_str(out: &mut Vec<char>, s: &str)
    ensures
        final(out)@ == old(out)@ + s@,
{
    let ghost start = out@;
    for c in it: s.chars()
        invariant
            out@ == start + it.seq().take(it.index() as int),
            it.seq() == s@,
    {
        out.push(c);
    }
    assert(s@.take(s@.len() as int) == s@);
}

/// The `String` made of the characters `v`, in order.
pub fn from_chars(v: &[char]) -> (s: String)
    ensures
        s@ == v@,
{
    let s = range_to_string(v, 0, v.len());
    assert(v@.subrange(0, v@.len() as int) == v@);
    s
}

/// The `String` made of the characters `v[lo..hi]`, in order.
pub fn range_to_string(v: &[char], lo: usize, hi: usize) -> (s: String)
    requires
        lo <= hi <= v@.len(),
    ensures
        s@ == v@.subrange(lo as int, hi as int),
{
    let mut s = String::new();
    let mut i: usize = lo;
    while i < hi
        invariant
            lo <= i <= hi <= v@.len(),
            s@ == v@.subrange(lo as int, i as int),
        decreases hi - i,
    {
        push_char(&mut s, v[i]);
        assert(v@.subrange(lo as int, i + 1) == v@.subrange(lo as int, i as int).push(v@[i as int]));
        i += 1;
    }
    s
}

} // verus!
