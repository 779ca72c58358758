//! The order of keys: that of their UTF-8 bytes, compared byte by byte.
//!
//! The store lists its keys in this order, so that a map has one listing only.

use vstd::prelude::*;
use vstd::utf8::encode_utf8;
use crate::text::lemma_encoding_tells_text;

verus! {

/// The byte strings agree before position `i`, and there `a` ends while `b` goes on, or `a`
/// has the smaller byte.
pub open spec fn parts_at(a: Seq<u8>, b: Seq<u8>, i: int) -> bool {
    &&& 0 <= i <= a.len()
    &&& i < b.len()
    &&& forall|j: int| 0 <= j < i ==> a[j] == b[j]
    &&& i < a.len() ==> a[i] < b[i]
}

/// `a` comes before `b` in the order of byte strings.
pub open spec fn bytes_lt(a: Seq<u8>, b: Seq<u8>) -> bool {
    exists|i: int| parts_at(a, b, i)
}

/// The key `a` comes before the key `b`: its UTF-8 bytes come before those of `b`.
pub open spec fn key_lt(a: Seq<char>, b: Seq<char>) -> bool {
    bytes_lt(encode_utf8(a), encode_utf8(b))
}

/// No byte string comes before itself.
pub proof fn lemma_bytes_lt_irreflexive(a: Seq<u8>)
    ensures
        !bytes_lt(a, a),
{
}

/// The order of byte strings is transitive.
pub proof fn lemma_bytes_lt_transitive(a: Seq<u8>, b: Seq<u8>, c: Seq<u8>)
    requires
        bytes_lt(a, b),
        bytes_lt(b, c),
    ensures
        bytes_lt(a, c),
{
    let i = choose|i: int| parts_at(a, b, i);
    let j = choose|j: int| parts_at(b, c, j);
    if i <= j {
        assert(parts_at(a, c, i));
    } else {
        assert(parts_at(a, c, j));
    }
}

/// No key comes before itself.
pub proof fn lemma_key_lt_irreflexive(a: Seq<char>)
    ensures
        !key_lt(a, a),
{
    lemma_bytes_lt_irreflexive(encode_utf8(a));
}

/// The order of keys is transitive.
pub proof fn lemma_key_lt_transitive(a: Seq<char>, b: Seq<char>, c: Seq<char>)
    requires
        key_lt(a, b),
        key_lt(b, c),
    ensures
        key_lt(a, c),
{
    lemma_bytes_lt_transitive(encode_utf8(a), encode_utf8(b), encode_utf8(c));
}

/// Of two keys at most one comes before the other.
pub proof fn lemma_key_lt_asymmetric(a: Seq<char>, b: Seq<char>)
    requires
        key_lt(a, b),
    ensures
        !key_lt(b, a),
        a != b,
{
    if key_lt(b, a) {
        lemma_key_lt_transitive(a, b, a);
    }
    lemma_key_lt_irreflexive(a);
}

/// How one key stands to another in the order of keys.
pub enum KeyOrder {
    /// The first key comes before the second.
    Before,
    /// The two keys are one key.
    Same,
    /// The first key comes after the second.
    After,
}

/// How the key `a` stands to the key `b`.
pub fn key_order(a: &str, b: &str) -> (o: KeyOrder)
    ensures
        match o {
            KeyOrder::Before => key_lt(a@, b@),
            KeyOrder::Same => a@ == b@,
            KeyOrder::After => key_lt(b@, a@),
        },
{
    let x = a.as_bytes();
    let y = b.as_bytes();
    let mut i: usize = 0;
    while i < x.len() && i < y.len()
        invariant
            i <= x.len(),
            i <= y.len(),
            x@ == encode_utf8(a@),
            y@ == encode_utf8(b@),
            forall|j: int| 0 <= j < i ==> x@[j] == y@[j],
        decreases x.len() - i,
    {
        if x[i] < y[i] {
            assert(parts_at(x@, y@, i as int));
            return KeyOrder::Before;
        }
        if x[i] > y[i] {
            assert(parts_at(y@, x@, i as int));
            return KeyOrder::After;
        }
        i += 1;
    }
    if x.len() < y.len() {
        assert(parts_at(x@, y@, i as int));
        KeyOrder::Before
    } else if x.len() > y.len() {
        assert(parts_at(y@, x@, i as int));
        KeyOrder::After
    } else {
        proof {
            assert(x@ =~= y@);
            lemma_encoding_tells_text(a@, b@);
        }
        KeyOrder::Same
    }
}

} // verus!
