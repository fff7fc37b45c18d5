//! Byte-sequence order and prefix tests.
//!
//! Storage keys are opaque byte sequences ordered lexicographically; prefix
//! queries and pagination are stated over `lex_lt` and `is_prefix`.

use vstd::prelude::*;

verus! {

/// Strict lexicographic order on byte sequences: a proper prefix sorts first,
/// otherwise the first differing byte decides.
pub open spec fn lex_lt(a: Seq<u8>, b: Seq<u8>) -> bool
    decreases a.len(),
{
    if b.len() == 0 {
        false
    } else if a.len() == 0 {
        true
    } else if a[0] < b[0] {
        true
    } else if a[0] > b[0] {
        false
    } else {
        lex_lt(a.drop_first(), b.drop_first())
    }
}

/// `p` is a (not necessarily strict) prefix of `k`.
pub open spec fn is_prefix(p: Seq<u8>, k: Seq<u8>) -> bool {
    p.len() <= k.len() && k.take(p.len() as int) == p
}

/// `p` is a strict prefix of `k`.
pub open spec fn is_strict_prefix(p: Seq<u8>, k: Seq<u8>) -> bool {
    p.len() < k.len() && k.take(p.len() as int) == p
}

/// The order is transitive.
pub proof fn lemma_lex_trans(a: Seq<u8>, b: Seq<u8>, c: Seq<u8>)
    requires
        lex_lt(a, b),
        lex_lt(b, c),
    ensures
        lex_lt(a, c),
    decreases a.len(),
{
    if a.len() > 0 && b.len() > 0 && c.len() > 0 {
        if a[0] == b[0] && b[0] == c[0] {
            lemma_lex_trans(a.drop_first(), b.drop_first(), c.drop_first());
        }
    }
}

/// Decides `lex_lt(a@, b@)`.
pub fn key_lt(a: &Vec<u8>, b: &Vec<u8>) -> (r: bool)
    ensures
        r == lex_lt(a@, b@),
{
    let mut i: usize = 0;
    proof {
        assert(a@.skip(0) =~= a@);
        assert(b@.skip(0) =~= b@);
    }
    loop
        invariant
            i <= a.len(),
            i <= b.len(),
            lex_lt(a@, b@) == lex_lt(a@.skip(i as int), b@.skip(i as int)),
        decreases a.len() - i,
    {
        if i == b.len() {
            return false;
        }
        if i == a.len() {
            return true;
        }
        let x = a[i];
        let y = b[i];
        if x < y {
            return true;
        }
        if x > y {
            return false;
        }
        proof {
            assert(a@.skip(i as int).drop_first() =~= a@.skip(i as int + 1));
            assert(b@.skip(i as int).drop_first() =~= b@.skip(i as int + 1));
        }
        i = i + 1;
    }
}

/// Decides `is_prefix(p@, k@)`.
pub fn starts_with(k: &Vec<u8>, p: &Vec<u8>) -> (r: bool)
    ensures
        r == is_prefix(p@, k@),
{
    if p.len() > k.len() {
        proof {
            assert(!is_prefix(p@, k@));
        }
        return false;
    }
    let mut i: usize = 0;
    loop
        invariant
            i <= p.len(),
            p.len() <= k.len(),
            forall|j: int| 0 <= j < i ==> k@[j] == p@[j],
        decreases p.len() - i,
    {
        if i == p.len() {
            proof {
                assert(k@.take(p@.len() as int) =~= p@);
            }
            return true;
        }
        if k[i] != p[i] {
            proof {
                assert(k@.take(p@.len() as int)[i as int] != p@[i as int]);
            }
            return false;
        }
        i = i + 1;
    }
}

/// One step of a front-to-back walk, phrased over `take`.
pub proof fn lemma_take_step<T>(s: Seq<T>, i: int)
    requires
        0 <= i < s.len(),
    ensures
        s.take(i + 1).drop_last() =~= s.take(i),
        s.take(i + 1).last() == s[i],
{
}

/// View of an optional byte vector as an optional byte sequence.
pub open spec fn opt_view(o: Option<Vec<u8>>) -> Option<Seq<u8>> {
    match o {
        Some(v) => Some(v@),
        None => None,
    }
}

/// Decides whether two optional values hold equal byte sequences.
pub fn opt_bytes_eq(a: &Option<Vec<u8>>, b: &Option<Vec<u8>>) -> (r: bool)
    ensures
        r == (opt_view(*a) == opt_view(*b)),
{
    match (a, b) {
        (Some(x), Some(y)) => {
            let r = bytes_eq(x, y);
            proof {
                if x@ == y@ {
                    assert(opt_view(*a) == opt_view(*b));
                }
            }
            r
        },
        (None, None) => true,
        _ => false,
    }
}

/// Copies a byte vector; the copy holds the same bytes.
pub fn copy_bytes(v: &Vec<u8>) -> (r: Vec<u8>)
    ensures
        r@ == v@,
{
    let mut r: Vec<u8> = Vec::new();
    let mut i: usize = 0;
    while i < v.len()
        invariant
            i <= v@.len(),
            r@ == v@.take(i as int),
        decreases v@.len() - i,
    {
        r.push(v[i]);
        proof {
            assert(r@ =~= v@.take(i as int + 1));
        }
        i = i + 1;
    }
    proof {
        assert(v@.take(v@.len() as int) =~= v@);
    }
    r
}

/// A byte vector's deep view is its view.
pub proof fn lemma_bytes_deep(v: Vec<u8>)
    ensures
        v.deep_view() == v@,
{
    assert(v.deep_view() =~= v@);
}

/// Folds a byte sequence into a 64-bit digest: a running product-and-add
/// reduced by a fixed modulus, the value hash reported for storage entries.
pub open spec fn hash_fold(s: Seq<u8>) -> int
    decreases s.len(),
{
    if s.len() == 0 {
        14695981039346656037int % 18446744073709551557int
    } else {
        (hash_fold(s.drop_last()) * 31 + s.last()) % 18446744073709551557int
    }
}

/// Computes `hash_fold(v@)`.
pub fn value_hash(v: &Vec<u8>) -> (r: u64)
    ensures
        r == hash_fold(v@),
{
    let mut h: u64 = (14695981039346656037u128 % 18446744073709551557u128) as u64;
    let mut i: usize = 0;
    proof {
        assert(v@.take(0) =~= Seq::<u8>::empty());
    }
    while i < v.len()
        invariant
            i <= v@.len(),
            h == hash_fold(v@.take(i as int)),
            h < 18446744073709551557,
        decreases v@.len() - i,
    {
        proof {
            lemma_take_step(v@, i as int);
        }
        h = (((h as u128) * 31 + (v[i] as u128)) % 18446744073709551557u128) as u64;
        i = i + 1;
    }
    proof {
        assert(v@.take(v@.len() as int) =~= v@);
    }
    h
}

/// Decides `a@ == b@`.
pub fn bytes_eq(a: &Vec<u8>, b: &Vec<u8>) -> (r: bool)
    ensures
        r == (a@ == b@),
{
    if a.len() != b.len() {
        return false;
    }
    let mut i: usize = 0;
    loop
        invariant
            i <= a.len(),
            a.len() == b.len(),
            forall|j: int| 0 <= j < i ==> a@[j] == b@[j],
        decreases a.len() - i,
    {
        if i == a.len() {
            proof {
                assert(a@ =~= b@);
            }
            return true;
        }
        if a[i] != b[i] {
            return false;
        }
        i = i + 1;
    }
}

} // verus!
