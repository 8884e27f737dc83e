//! The order in which watched paths are visited.
//!
//! Paths are strings, ordered as `String` orders them: by the bytes of
//! their UTF-8 encoding, the first difference deciding.

use vstd::prelude::*;
use vstd::utf8::{encode_utf8, encode_utf8_decode_utf8};

verus! {

/// `a` comes strictly before `b` in the lexicographic order of byte strings.
pub open spec fn bytes_before(a: Seq<u8>, b: Seq<u8>) -> bool
    decreases a.len(),
{
    if b.len() == 0 {
        false
    } else if a.len() == 0 {
        true
    } else if a[0] != b[0] {
        a[0] < b[0]
    } else {
        bytes_before(a.drop_first(), b.drop_first())
    }
}

/// The path `a` comes strictly before the path `b`.
pub open spec fn path_before(a: Seq<char>, b: Seq<char>) -> bool {
    bytes_before(encode_utf8(a), encode_utf8(b))
}

/// How one path stands to another.
#[derive(Clone, Copy, Debug, PartialEq, Eq, Structural)]
pub enum PathOrder {
    Before,
    Same,
    After,
}

/// No byte string comes before itself.
pub proof fn lemma_bytes_before_irreflexive(a: Seq<u8>)
    ensures
        !bytes_before(a, a),
    decreases a.len(),
{
    if a.len() > 0 {
        lemma_bytes_before_irreflexive(a.drop_first());
    }
}

/// The order of byte strings is transitive.
pub proof fn lemma_bytes_before_transitive(a: Seq<u8>, b: Seq<u8>, c: Seq<u8>)
    requires
        bytes_before(a, b),
        bytes_before(b, c),
    ensures
        bytes_before(a, c),
    decreases a.len(),
{
    if a.len() > 0 && a[0] == b[0] && b[0] == c[0] {
        lemma_bytes_before_transitive(a.drop_first(), b.drop_first(), c.drop_first());
    }
}

/// Of two different byte strings one comes before the other.
pub proof fn lemma_bytes_before_total(a: Seq<u8>, b: Seq<u8>)
    requires
        a != b,
    ensures
        bytes_before(a, b) || bytes_before(b, a),
    decreases a.len(),
{
    if a.len() > 0 && b.len() > 0 && a[0] == b[0] {
        if a.drop_first() == b.drop_first() {
            assert(a =~= seq![a[0]] + a.drop_first());
            assert(b =~= seq![b[0]] + b.drop_first());
        }
        lemma_bytes_before_total(a.drop_first(), b.drop_first());
    } else if a.len() == 0 && b.len() == 0 {
        assert(a =~= b);
    }
}

/// Where two byte strings agree on their first `n` bytes, the bytes after
/// those decide their order.
pub proof fn lemma_bytes_before_skips_common_prefix(a: Seq<u8>, b: Seq<u8>, n: int)
    requires
        0 <= n <= a.len(),
        n <= b.len(),
        forall|j: int| 0 <= j < n ==> a[j] == b[j],
    ensures
        bytes_before(a, b) == bytes_before(a.skip(n), b.skip(n)),
    decreases n,
{
    if n == 0 {
        assert(a.skip(0) =~= a);
        assert(b.skip(0) =~= b);
    } else {
        assert(a.drop_first().skip(n - 1) =~= a.skip(n));
        assert(b.drop_first().skip(n - 1) =~= b.skip(n));
        lemma_bytes_before_skips_common_prefix(a.drop_first(), b.drop_first(), n - 1);
    }
}

/// No path comes before itself.
pub proof fn lemma_path_before_irreflexive(a: Seq<char>)
    ensures
        !path_before(a, a),
{
    lemma_bytes_before_irreflexive(encode_utf8(a));
}

/// The order of paths is transitive.
pub proof fn lemma_path_before_transitive(a: Seq<char>, b: Seq<char>, c: Seq<char>)
    requires
        path_before(a, b),
        path_before(b, c),
    ensures
        path_before(a, c),
{
    lemma_bytes_before_transitive(encode_utf8(a), encode_utf8(b), encode_utf8(c));
}

/// Of two paths at most one comes before the other.
pub proof fn lemma_path_before_asymmetric(a: Seq<char>, b: Seq<char>)
    requires
        path_before(a, b),
    ensures
        !path_before(b, a),
{
    if path_before(b, a) {
        lemma_path_before_transitive(a, b, a);
        lemma_path_before_irreflexive(a);
    }
}

/// Of two different paths one comes before the other.
pub proof fn lemma_path_before_total(a: Seq<char>, b: Seq<char>)
    requires
        a != b,
    ensures
        path_before(a, b) || path_before(b, a),
{
    encode_utf8_decode_utf8(a);
    encode_utf8_decode_utf8(b);
    lemma_bytes_before_total(encode_utf8(a), encode_utf8(b));
}

/// Compares two paths.
pub fn compare(a: &String, b: &String) -> (order: PathOrder)
    ensures
        order == PathOrder::Before <==> path_before(a@, b@),
        order == PathOrder::Same <==> a@ == b@,
        order == PathOrder::After <==> path_before(b@, a@),
{
    let x = a.as_str().as_bytes();
    let y = b.as_str().as_bytes();
    let mut i: usize = 0;
    while i < x.len() && i < y.len()
        invariant
            x@ == encode_utf8(a@),
            y@ == encode_utf8(b@),
            i <= x.len(),
            i <= y.len(),
            forall|j: int| 0 <= j < i ==> x@[j] == y@[j],
        decreases x.len() - i,
    {
        if x[i] != y[i] {
            proof {
                lemma_bytes_before_skips_common_prefix(x@, y@, i as int);
                lemma_bytes_before_skips_common_prefix(y@, x@, i as int);
                if a@ == b@ {
                    assert(x@[i as int] == y@[i as int]);
                }
                if x[i as int] < y[i as int] {
                    lemma_path_before_asymmetric(a@, b@);
                } else {
                    lemma_path_before_asymmetric(b@, a@);
                }
            }
            return if x[i] < y[i] {
                PathOrder::Before
            } else {
                PathOrder::After
            };
        }
        i += 1;
    }
    proof {
        lemma_bytes_before_skips_common_prefix(x@, y@, i as int);
        lemma_bytes_before_skips_common_prefix(y@, x@, i as int);
        lemma_path_before_irreflexive(a@);
        if x.len() == y.len() {
            assert(x@ =~= y@);
            encode_utf8_decode_utf8(a@);
            encode_utf8_decode_utf8(b@);
        } else if i == x.len() {
            lemma_path_before_asymmetric(a@, b@);
        } else {
            lemma_path_before_asymmetric(b@, a@);
        }
    }
    if x.len() == y.len() {
        PathOrder::Same
    } else if i == x.len() {
        PathOrder::Before
    } else {
        PathOrder::After
    }
}

} // verus!
