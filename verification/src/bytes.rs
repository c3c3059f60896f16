//! Searching, comparing and joining byte strings.
use vstd::prelude::*;

verus! {

/// The index of the first `b` in `s`, or the length of `s` where there is none.
pub open spec fn find(s: Seq<u8>, b: u8) -> int
    decreases s.len(),
{
    if s.len() == 0 {
        0
    } else if s[0] == b {
        0
    } else {
        1 + find(s.drop_first(), b)
    }
}

/// `find` is the first occurrence, or the length.
pub proof fn lemma_find(s: Seq<u8>, b: u8)
    ensures
        0 <= find(s, b) <= s.len(),
        forall|j: int| 0 <= j < find(s, b) ==> s[j] != b,
        find(s, b) < s.len() ==> s[find(s, b)] == b,
    decreases s.len(),
{
    if s.len() > 0 && s[0] != b {
        lemma_find(s.drop_first(), b);
        assert forall|j: int| 0 <= j < find(s, b) implies s[j] != b by {
            if j > 0 {
                assert(s[j] == s.drop_first()[j - 1]);
            }
        }
    }
}

/// An index before which `b` does not occur, and at which it occurs or the
/// text ends, is `find`.
pub proof fn lemma_find_is(s: Seq<u8>, b: u8, k: int)
    requires
        0 <= k <= s.len(),
        forall|j: int| 0 <= j < k ==> s[j] != b,
        k < s.len() ==> s[k] == b,
    ensures
        find(s, b) == k,
{
    lemma_find(s, b);
    if find(s, b) < k {
        assert(s[find(s, b)] != b);
    }
    if k < find(s, b) {
        assert(s[k] != b);
    }
}

/// The position of the first `b` in `s[from..to]`, or `to` where there is none.
pub fn find_byte(s: &[u8], from: usize, to: usize, b: u8) -> (i: usize)
    requires
        from <= to <= s@.len(),
    ensures
        from <= i <= to,
        i - from == find(s@.subrange(from as int, to as int), b),
{
    let mut i = from;
    while i < to && s[i] != b
        invariant
            from <= i <= to <= s@.len(),
            forall|j: int| from <= j < i ==> s@[j] != b,
        decreases to - i,
    {
        i = i + 1;
    }
    proof {
        let sub = s@.subrange(from as int, to as int);
        assert forall|j: int| 0 <= j < i - from implies sub[j] != b by {
            assert(sub[j] == s@[from + j]);
        }
        lemma_find_is(sub, b, i - from);
    }
    i
}

/// Appends `src` to `out`.
pub fn append_bytes(out: &mut Vec<u8>, src: &[u8])
    ensures
        final(out)@ == old(out)@ + src@,
{
    let mut i: usize = 0;
    while i < src.len()
        invariant
            i <= src@.len(),
            out@ == old(out)@ + src@.subrange(0, i as int),
        decreases src@.len() - i,
    {
        out.push(src[i]);
        i = i + 1;
        assert(out@ =~= old(out)@ + src@.subrange(0, i as int));
    }
    assert(src@.subrange(0, src@.len() as int) =~= src@);
}

/// Whether `s[from..to]` is `lit`.
pub fn range_equals(s: &[u8], from: usize, to: usize, lit: &[u8]) -> (r: bool)
    requires
        from <= to <= s@.len(),
    ensures
        r == (s@.subrange(from as int, to as int) == lit@),
{
    if to - from != lit.len() {
        return false;
    }
    let mut i: usize = 0;
    while i < lit.len()
        invariant
            to - from == lit@.len(),
            from <= to <= s@.len(),
            i <= lit@.len(),
            forall|j: int| 0 <= j < i ==> s@[from + j] == lit@[j],
        decreases lit@.len() - i,
    {
        if s[from + i] != lit[i] {
            assert(s@.subrange(from as int, to as int)[i as int] != lit@[i as int]);
            return false;
        }
        i = i + 1;
    }
    assert(s@.subrange(from as int, to as int) =~= lit@);
    true
}

/// Copies `s[from..to]` into a new vector.
pub fn copy_range(s: &[u8], from: usize, to: usize) -> (r: Vec<u8>)
    requires
        from <= to <= s@.len(),
    ensures
        r@ == s@.subrange(from as int, to as int),
{
    let mut out: Vec<u8> = Vec::new();
    append_bytes(&mut out, &s[from..to]);
    out
}

/// The pieces of `s` between the bytes `b`, as `<[u8]>::split` gives them:
/// one more piece than there are `b`, empty ones included.
pub open spec fn split_pieces(s: Seq<u8>, b: u8) -> Seq<Seq<u8>>
    decreases s.len(),
{
    let i = find(s, b);
    if i < s.len() {
        proof {
            lemma_find(s, b);
        }
        seq![s.take(i)] + split_pieces(s.skip(i + 1), b)
    } else {
        seq![s]
    }
}

/// The texts of byte ranges of `s`.
pub open spec fn range_texts(s: Seq<u8>, r: Seq<(usize, usize)>) -> Seq<Seq<u8>> {
    r.map_values(|p: (usize, usize)| s.subrange(p.0 as int, p.1 as int))
}

/// The ranges lie inside the text.
pub open spec fn ranges_within(s: Seq<u8>, r: Seq<(usize, usize)>) -> bool {
    forall|k: int| 0 <= k < r.len() ==> #[trigger] r[k].0 <= r[k].1 <= s.len()
}

/// The byte ranges of the pieces of `s` between the bytes `b`.
pub fn split_ranges(s: &[u8], b: u8) -> (r: Vec<(usize, usize)>)
    ensures
        ranges_within(s@, r@),
        range_texts(s@, r@) == split_pieces(s@, b),
{
    let n = s.len();
    let mut out: Vec<(usize, usize)> = Vec::new();
    let mut pos: usize = 0;
    assert(s@.skip(0) =~= s@);
    loop
        invariant
            n == s@.len(),
            pos <= n,
            ranges_within(s@, out@),
            range_texts(s@, out@) + split_pieces(s@.skip(pos as int), b) == split_pieces(s@, b),
        decreases n - pos,
    {
        let i = find_byte(s, pos, n, b);
        let ghost rest = s@.skip(pos as int);
        assert(s@.subrange(pos as int, n as int) =~= rest);
        proof {
            lemma_find(rest, b);
        }
        let ghost old_out = out@;
        out.push((pos, i));
        assert(rest.take(i - pos) =~= s@.subrange(pos as int, i as int));
        assert(range_texts(s@, out@) =~= range_texts(s@, old_out).push(
            s@.subrange(pos as int, i as int),
        ));
        if i < n {
            assert(rest.skip(i - pos + 1) =~= s@.skip(i + 1));
            assert(range_texts(s@, out@) + split_pieces(s@.skip(i + 1), b) =~= range_texts(
                s@,
                old_out,
            ) + split_pieces(rest, b));
            pos = i + 1;
        } else {
            assert(range_texts(s@, out@) =~= range_texts(s@, old_out) + split_pieces(rest, b));
            return out;
        }
    }
}

} // verus!
