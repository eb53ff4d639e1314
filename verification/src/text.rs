//! Comparing strings by their bytes.

use vstd::prelude::*;
use vstd::utf8::*;

verus! {

/// Two strings with the same UTF-8 bytes are the same string.
pub proof fn lemma_encoding_is_injective(a: Seq<char>, b: Seq<char>)
    requires
        encode_utf8(a) == encode_utf8(b),
    ensures
        a == b,
{
    encode_utf8_decode_utf8(a);
    encode_utf8_decode_utf8(b);
}

/// A string starts with another exactly if its UTF-8 bytes start with the
/// other's.
pub proof fn lemma_encoding_keeps_prefixes(a: Seq<char>, b: Seq<char>)
    ensures
        encode_utf8(a).is_prefix_of(encode_utf8(b)) <==> a.is_prefix_of(b),
    decreases a.len(),
{
    let ea = encode_utf8(a);
    let eb = encode_utf8(b);
    if a.len() == 0 {
        assert(ea =~= eb.subrange(0, 0));
        assert(a =~= b.subrange(0, 0));
    } else if b.len() == 0 {
        encode_utf8_first_scalar(a);
        assert(ea.len() > 0);
        assert(eb.len() == 0);
    } else {
        encode_utf8_first_scalar(a);
        encode_utf8_first_scalar(b);
        lemma_encoding_keeps_prefixes(a.drop_first(), b.drop_first());
        let ra = encode_utf8(a.drop_first());
        let rb = encode_utf8(b.drop_first());
        let ca = encode_scalar(a[0] as u32);
        let cb = encode_scalar(b[0] as u32);
        assert(ea == ca + ra);
        assert(eb == cb + rb);
        if ea.is_prefix_of(eb) {
            assert(forall|i: int| 0 <= i < ea.len() ==> ea[i] == eb[i]) by {
                assert forall|i: int| 0 <= i < ea.len() implies ea[i] == eb[i] by {
                    assert(eb.subrange(0, ea.len() as int)[i] == eb[i]);
                }
            }
            assert(decode_first_scalar(ea) == decode_first_scalar(eb));
            char_u32_cast(a[0], a[0] as u32);
            char_u32_cast(b[0], b[0] as u32);
            assert(a[0] == b[0]);
            assert(ra =~= rb.subrange(0, ra.len() as int)) by {
                assert forall|i: int| 0 <= i < ra.len() implies ra[i] == rb[i] by {
                    assert(ea[ca.len() + i] == eb[ca.len() + i]);
                }
            }
            assert(a =~= b.subrange(0, a.len() as int)) by {
                assert forall|i: int| 0 <= i < a.len() implies a[i] == b[i] by {
                    if i > 0 {
                        assert(a.drop_first()[i - 1] == b.drop_first().subrange(
                            0,
                            a.len() - 1,
                        )[i - 1]);
                    }
                }
            }
        }
        if a.is_prefix_of(b) {
            assert(a[0] == b.subrange(0, a.len() as int)[0]);
            assert(a.drop_first() =~= b.drop_first().subrange(0, a.len() - 1)) by {
                assert forall|i: int| 0 <= i < a.len() - 1 implies a.drop_first()[i]
                    == b.drop_first()[i] by {
                    assert(a[i + 1] == b.subrange(0, a.len() as int)[i + 1]);
                }
            }
            assert(ra.is_prefix_of(rb));
            assert(ea =~= eb.subrange(0, ea.len() as int)) by {
                assert forall|i: int| 0 <= i < ea.len() implies ea[i] == eb[i] by {
                    if i >= ca.len() {
                        assert(ra[i - ca.len()] == rb.subrange(0, ra.len() as int)[i - ca.len()]);
                    }
                }
            }
        }
    }
}

/// Tests whether two strings are the same.
pub fn same_text(a: &str, b: &str) -> (same: bool)
    ensures
        same == (a@ == b@),
{
    let x: &[u8] = a.as_bytes();
    let y: &[u8] = b.as_bytes();
    if x.len() != y.len() {
        return false;
    }
    let mut i: usize = 0;
    while i < x.len()
        invariant
            i <= x@.len() == y@.len(),
            x@ == encode_utf8(a@),
            y@ == encode_utf8(b@),
            forall|j: int| 0 <= j < i ==> x@[j] == y@[j],
        decreases x@.len() - i,
    {
        if x[i] != y[i] {
            return false;
        }
        i = i + 1;
    }
    proof {
        assert(x@ =~= y@);
        lemma_encoding_is_injective(a@, b@);
    }
    true
}

/// Tests whether `text` starts with `prefix`.
pub fn starts_with(text: &str, prefix: &str) -> (yes: bool)
    ensures
        yes == prefix@.is_prefix_of(text@),
{
    let x: &[u8] = text.as_bytes();
    let y: &[u8] = prefix.as_bytes();
    proof {
        lemma_encoding_keeps_prefixes(prefix@, text@);
    }
    if y.len() > x.len() {
        return false;
    }
    let mut i: usize = 0;
    while i < y.len()
        invariant
            i <= y@.len() <= x@.len(),
            x@ == encode_utf8(text@),
            y@ == encode_utf8(prefix@),
            y@.is_prefix_of(x@) <==> prefix@.is_prefix_of(text@),
            forall|j: int| 0 <= j < i ==> x@[j] == y@[j],
        decreases y@.len() - i,
    {
        if x[i] != y[i] {
            assert(x@.subrange(0, y@.len() as int)[i as int] != y@[i as int]);
            return false;
        }
        i = i + 1;
    }
    assert(y@ =~= x@.subrange(0, y@.len() as int));
    true
}

} // verus!
