//! The order of names: byte by byte, as `String`'s `Ord` compares them.
use vstd::prelude::*;

verus! {

/// `a` comes before `b`: at the first byte where they differ, `a`'s is
/// smaller, or `a` is a proper prefix of `b`.
pub open spec fn bytes_lt(a: Seq<u8>, b: Seq<u8>) -> bool
    decreases a.len(),
{
    if a.len() == 0 {
        b.len() > 0
    } else if b.len() == 0 {
        false
    } else if a[0] != b[0] {
        a[0] < b[0]
    } else {
        bytes_lt(a.drop_first(), b.drop_first())
    }
}

/// Nothing comes before itself.
pub proof fn lemma_lt_irreflexive(a: Seq<u8>)
    ensures
        !bytes_lt(a, a),
    decreases a.len(),
{
    if a.len() > 0 {
        lemma_lt_irreflexive(a.drop_first());
    }
}

/// The order is transitive.
pub proof fn lemma_lt_transitive(a: Seq<u8>, b: Seq<u8>, c: Seq<u8>)
    requires
        bytes_lt(a, b),
        bytes_lt(b, c),
    ensures
        bytes_lt(a, c),
    decreases a.len(),
{
    if a.len() > 0 && b.len() > 0 && c.len() > 0 && a[0] == b[0] && b[0] == c[0] {
        lemma_lt_transitive(a.drop_first(), b.drop_first(), c.drop_first());
    }
}

/// Of two different names, one comes before the other, and not both.
pub proof fn lemma_lt_total(a: Seq<u8>, b: Seq<u8>)
    ensures
        a != b ==> (bytes_lt(a, b) || bytes_lt(b, a)),
        !(bytes_lt(a, b) && bytes_lt(b, a)),
    decreases a.len(),
{
    if a.len() > 0 && b.len() > 0 && a[0] == b[0] {
        lemma_lt_total(a.drop_first(), b.drop_first());
        if a.drop_first() == b.drop_first() {
            assert(a =~= seq![a[0]] + a.drop_first());
            assert(b =~= seq![b[0]] + b.drop_first());
        }
    }
    if a.len() == 0 && b.len() == 0 {
        assert(a =~= b);
    }
}

/// A name comes before every longer name that it begins: a proper prefix
/// comes first, as `String`'s order puts it.
pub proof fn lemma_prefix_first(a: Seq<u8>, c: Seq<u8>)
    requires
        c.len() > 0,
    ensures
        bytes_lt(a, a + c),
        !bytes_lt(a + c, a),
    decreases a.len(),
{
    if a.len() == 0 {
        assert(a + c =~= c);
    } else {
        assert((a + c)[0] == a[0]);
        assert((a + c).drop_first() =~= a.drop_first() + c);
        lemma_prefix_first(a.drop_first(), c);
    }
}

/// After a common beginning `p`, the first byte that differs decides: the
/// name with the smaller byte there comes first, whatever follows.
pub proof fn lemma_first_difference(p: Seq<u8>, x: u8, y: u8, r1: Seq<u8>, r2: Seq<u8>)
    requires
        x < y,
    ensures
        bytes_lt(p + seq![x] + r1, p + seq![y] + r2),
        !bytes_lt(p + seq![y] + r2, p + seq![x] + r1),
    decreases p.len(),
{
    let a = p + seq![x] + r1;
    let b = p + seq![y] + r2;
    if p.len() == 0 {
        assert(a[0] == x);
        assert(b[0] == y);
    } else {
        assert(a[0] == p[0]);
        assert(b[0] == p[0]);
        assert(a.drop_first() =~= p.drop_first() + seq![x] + r1);
        assert(b.drop_first() =~= p.drop_first() + seq![y] + r2);
        lemma_first_difference(p.drop_first(), x, y, r1, r2);
    }
}

/// Compares two byte strings: negative when `a` comes first, zero when they
/// are equal, positive when `b` comes first.
pub fn compare_bytes(a: &[u8], b: &[u8]) -> (r: i8)
    ensures
        (r < 0) == bytes_lt(a@, b@),
        (r == 0) == (a@ == b@),
        (r > 0) == bytes_lt(b@, a@),
{
    proof {
        lemma_lt_total(a@, b@);
        assert(a@.skip(0) =~= a@);
        assert(b@.skip(0) =~= b@);
    }
    let mut i: usize = 0;
    while i < a.len() && i < b.len()
        invariant
            i <= a@.len(),
            i <= b@.len(),
            bytes_lt(a@, b@) == bytes_lt(a@.skip(i as int), b@.skip(i as int)),
            bytes_lt(b@, a@) == bytes_lt(b@.skip(i as int), a@.skip(i as int)),
            (a@ == b@) == (a@.skip(i as int) == b@.skip(i as int)),
        decreases a@.len() - i,
    {
        let ghost sa = a@.skip(i as int);
        let ghost sb = b@.skip(i as int);
        assert(sa[0] == a@[i as int]);
        assert(sb[0] == b@[i as int]);
        if a[i] < b[i] {
            proof {
                if sa == sb {
                    assert(sa[0] == sb[0]);
                }
            }
            return -1;
        }
        if a[i] > b[i] {
            proof {
                if sa == sb {
                    assert(sa[0] == sb[0]);
                }
            }
            return 1;
        }
        proof {
            assert(sa.drop_first() =~= a@.skip(i + 1));
            assert(sb.drop_first() =~= b@.skip(i + 1));
            if sa.drop_first() == sb.drop_first() {
                assert(sa =~= seq![sa[0]] + sa.drop_first());
                assert(sb =~= seq![sb[0]] + sb.drop_first());
            }
        }
        i = i + 1;
    }
    let ghost sa = a@.skip(i as int);
    let ghost sb = b@.skip(i as int);
    if a.len() == b.len() {
        assert(sa =~= sb);
        proof { lemma_lt_irreflexive(sa); }
        0
    } else if i == a.len() {
        assert(sa.len() == 0);
        assert(sa != sb);
        -1
    } else {
        assert(sb.len() == 0);
        assert(sa != sb);
        1
    }
}

} // verus!
