use vstd::prelude::*;


verus! {

/// Byte-wise lexicographic order: whether `a` sorts strictly before `b`.
pub open spec fn lex_less(a: Seq<u8>, b: Seq<u8>) -> bool
    decreases a.len(),
{
    if a.len() == 0 {
        b.len() > 0
    } else if b.len() == 0 {
        false
    } else if a[0] < b[0] {
        true
    } else if a[0] > b[0] {
        false
    } else {
        lex_less(a.drop_first(), b.drop_first())
    }
}

/// The bytes by which a text sorts: its UTF-8 encoding.
pub open spec fn sort_key(s: Seq<char>) -> Seq<u8> {
    vstd::utf8::encode_utf8(s)
}

pub proof fn lemma_lex_less_transitive(a: Seq<u8>, b: Seq<u8>, c: Seq<u8>)
    requires
        lex_less(a, b),
        lex_less(b, c),
    ensures
        lex_less(a, c),
    decreases a.len(),
{
    if a.len() > 0 && b.len() > 0 && c.len() > 0 && a[0] == b[0] && b[0] == c[0] {
        lemma_lex_less_transitive(a.drop_first(), b.drop_first(), c.drop_first());
    }
}

pub proof fn lemma_lex_less_irreflexive(a: Seq<u8>)
    ensures
        !lex_less(a, a),
    decreases a.len(),
{
    if a.len() > 0 {
        lemma_lex_less_irreflexive(a.drop_first());
    }
}

/// Whether `a` sorts strictly before `b`, byte by byte.
pub fn str_less(a: &str, b: &str) -> (r: bool)
    ensures
        r == lex_less(sort_key(a@), sort_key(b@)),
{
    let x = a.as_bytes();
    let y = b.as_bytes();
    let ghost xs = x@;
    let ghost ys = y@;
    assert(xs == sort_key(a@));
    assert(ys == sort_key(b@));
    let mut i: usize = 0;
    assert(xs.skip(0) =~= xs);
    assert(ys.skip(0) =~= ys);
    while i < x.len() && i < y.len() && x[i] == y[i]
        invariant
            xs == x@,
            ys == y@,
            i <= xs.len(),
            i <= ys.len(),
            lex_less(xs, ys) == lex_less(xs.skip(i as int), ys.skip(i as int)),
        decreases xs.len() - i,
    {
        proof {
            assert(xs.skip(i as int).drop_first() =~= xs.skip(i + 1));
            assert(ys.skip(i as int).drop_first() =~= ys.skip(i + 1));
        }
        i = i + 1;
    }
    proof {
        let (p, q) = (xs.skip(i as int), ys.skip(i as int));
        assert(p.len() > 0 ==> p[0] == xs[i as int]);
        assert(q.len() > 0 ==> q[0] == ys[i as int]);
    }
    if i == x.len() {
        i < y.len()
    } else if i == y.len() {
        false
    } else {
        x[i] < y[i]
    }
}

} // verus!
