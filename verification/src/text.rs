//! The order in which the history sorts texts: byte by byte, on their UTF-8
//! encodings.

use vstd::prelude::*;
use vstd::string::*;
use vstd::utf8::*;

verus! {

/// Whether `a` comes before `b` in lexicographic order.
pub open spec fn bytes_before(a: Seq<u8>, b: Seq<u8>) -> bool
    decreases a.len(),
{
    if b.len() == 0 {
        false
    } else if a.len() == 0 {
        true
    } else if a[0] != b[0] {
        a[0] < b[0]
    } else {
        bytes_before(a.drop_first(), b.drop_first())
    }
}

/// Whether the encoding of `a` comes before that of `b`.
pub open spec fn text_before(a: Seq<char>, b: Seq<char>) -> bool {
    bytes_before(encode_utf8(a), encode_utf8(b))
}

proof fn lemma_bytes_before_asymmetric(a: Seq<u8>, b: Seq<u8>)
    ensures
        !(bytes_before(a, b) && bytes_before(b, a)),
    decreases a.len(),
{
    if a.len() > 0 && b.len() > 0 {
        lemma_bytes_before_asymmetric(a.drop_first(), b.drop_first());
    }
}

proof fn lemma_bytes_before_transitive(a: Seq<u8>, b: Seq<u8>, c: Seq<u8>)
    requires
        bytes_before(a, b),
        bytes_before(b, c),
    ensures
        bytes_before(a, c),
    decreases a.len(),
{
    if a.len() > 0 && b.len() > 0 && c.len() > 0 && a[0] == b[0] && b[0] == c[0] {
        lemma_bytes_before_transitive(a.drop_first(), b.drop_first(), c.drop_first());
    }
}

proof fn lemma_bytes_before_total(a: Seq<u8>, b: Seq<u8>)
    ensures
        bytes_before(a, b) || bytes_before(b, a) || a == b,
    decreases a.len(),
{
    if a.len() > 0 && b.len() > 0 && a[0] == b[0] {
        lemma_bytes_before_total(a.drop_first(), b.drop_first());
        if a.drop_first() == b.drop_first() {
            assert(a =~= seq![a[0]] + a.drop_first());
            assert(b =~= seq![b[0]] + b.drop_first());
        }
    } else if a.len() == 0 && b.len() == 0 {
        assert(a =~= b);
    }
}

/// The order of texts is strict and total: of any two, one comes before the
/// other or they are the same, no two come before each other, and what comes
/// before a text comes before all that follow it.
pub proof fn law_text_order_is_total(a: Seq<char>, b: Seq<char>, c: Seq<char>)
    ensures
        !(text_before(a, b) && text_before(b, a)),
        text_before(a, b) || text_before(b, a) || a == b,
        text_before(a, b) && text_before(b, c) ==> text_before(a, c),
{
    lemma_bytes_before_asymmetric(encode_utf8(a), encode_utf8(b));
    lemma_bytes_before_total(encode_utf8(a), encode_utf8(b));
    if text_before(a, b) && text_before(b, c) {
        lemma_bytes_before_transitive(encode_utf8(a), encode_utf8(b), encode_utf8(c));
    }
    encode_utf8_decode_utf8(a);
    encode_utf8_decode_utf8(b);
}

proof fn lemma_first_difference(a: Seq<u8>, b: Seq<u8>, i: int)
    requires
        0 <= i < b.len(),
        i <= a.len(),
        a.take(i) == b.take(i),
        i == a.len() || a[i] < b[i],
    ensures
        bytes_before(a, b),
    decreases i,
{
    if i > 0 {
        assert(a.take(i)[0] == a[0]);
        assert(b.take(i)[0] == b[0]);
        assert(a.drop_first().take(i - 1) =~= a.take(i).drop_first());
        assert(b.drop_first().take(i - 1) =~= b.take(i).drop_first());
        lemma_first_difference(a.drop_first(), b.drop_first(), i - 1);
    }
}

proof fn lemma_has_first_difference(a: Seq<u8>, b: Seq<u8>) -> (i: int)
    requires
        bytes_before(a, b),
    ensures
        0 <= i < b.len(),
        i <= a.len(),
        a.take(i) == b.take(i),
        i == a.len() || a[i] < b[i],
    decreases a.len(),
{
    if a.len() == 0 || a[0] != b[0] {
        assert(a.take(0) =~= b.take(0));
        0
    } else {
        let i = lemma_has_first_difference(a.drop_first(), b.drop_first());
        assert(a.take(i + 1) =~= seq![a[0]] + a.drop_first().take(i));
        assert(b.take(i + 1) =~= seq![b[0]] + b.drop_first().take(i));
        i + 1
    }
}

/// Texts are in the order of a dictionary over bytes: one comes before another
/// exactly if, past the bytes that both encodings begin with, it ends first or
/// has the smaller byte.
pub proof fn law_text_order_is_lexicographic(a: Seq<char>, b: Seq<char>)
    ensures
        text_before(a, b) <==> exists|i: int|
            {
                &&& 0 <= i < encode_utf8(b).len()
                &&& i <= encode_utf8(a).len()
                &&& #[trigger] encode_utf8(a).take(i) == encode_utf8(b).take(i)
                &&& i == encode_utf8(a).len() || encode_utf8(a)[i] < encode_utf8(b)[i]
            },
{
    let x = encode_utf8(a);
    let y = encode_utf8(b);
    if text_before(a, b) {
        let i = lemma_has_first_difference(x, y);
        assert(x.take(i) == y.take(i));
    }
    if exists|i: int|
        {
            &&& 0 <= i < y.len()
            &&& i <= x.len()
            &&& #[trigger] x.take(i) == y.take(i)
            &&& i == x.len() || x[i] < y[i]
        } {
        let i = choose|i: int|
            {
                &&& 0 <= i < y.len()
                &&& i <= x.len()
                &&& #[trigger] x.take(i) == y.take(i)
                &&& i == x.len() || x[i] < y[i]
            };
        lemma_first_difference(x, y, i);
    }
}

/// The first byte in which two encodings differ decides which text comes
/// first.
pub proof fn law_first_differing_byte_decides(a: Seq<char>, b: Seq<char>, i: int)
    requires
        0 <= i < encode_utf8(a).len(),
        i < encode_utf8(b).len(),
        forall|j: int| 0 <= j < i ==> #[trigger] encode_utf8(a)[j] == encode_utf8(b)[j],
        encode_utf8(a)[i] < encode_utf8(b)[i],
    ensures
        text_before(a, b),
        !text_before(b, a),
{
    assert(encode_utf8(a).take(i) =~= encode_utf8(b).take(i));
    lemma_first_difference(encode_utf8(a), encode_utf8(b), i);
    law_text_order_is_total(a, b, b);
}

/// A text comes before every text that goes on where it ends, and no text
/// comes before itself.
pub proof fn law_shorter_text_comes_first(a: Seq<char>, b: Seq<char>)
    requires
        encode_utf8(a).len() <= encode_utf8(b).len(),
        encode_utf8(a) == encode_utf8(b).take(encode_utf8(a).len() as int),
    ensures
        text_before(a, b) <==> encode_utf8(a).len() < encode_utf8(b).len(),
        !text_before(b, a),
{
    let x = encode_utf8(a);
    let y = encode_utf8(b);
    law_text_order_is_total(a, b, b);
    if x.len() < y.len() {
        assert(x.take(x.len() as int) =~= x);
        lemma_first_difference(x, y, x.len() as int);
    } else {
        assert(y.take(x.len() as int) =~= y);
        lemma_bytes_before_asymmetric(x, y);
    }
}

/// Whether `a` comes before `b` in the history's order of texts.
pub fn is_before(a: &str, b: &str) -> (before: bool)
    ensures
        before == text_before(a@, b@),
        before <==> exists|i: int|
            {
                &&& 0 <= i < encode_utf8(b@).len()
                &&& i <= encode_utf8(a@).len()
                &&& #[trigger] encode_utf8(a@).take(i) == encode_utf8(b@).take(i)
                &&& i == encode_utf8(a@).len() || encode_utf8(a@)[i] < encode_utf8(b@)[i]
            },
{
    proof {
        law_text_order_is_lexicographic(a@, b@);
    }
    let x = a.as_bytes();
    let y = b.as_bytes();
    let mut i: usize = 0;
    assert(x@.skip(0) =~= x@);
    assert(y@.skip(0) =~= y@);
    while i < x.len() && i < y.len() && x[i] == y[i]
        invariant
            i <= x@.len(),
            i <= y@.len(),
            bytes_before(x@, y@) == bytes_before(x@.skip(i as int), y@.skip(i as int)),
        decreases x@.len() - i,
    {
        assert(x@.skip(i as int).drop_first() =~= x@.skip(i + 1));
        assert(y@.skip(i as int).drop_first() =~= y@.skip(i + 1));
        i += 1;
    }
    if i >= y.len() {
        false
    } else if i >= x.len() {
        true
    } else {
        x[i] < y[i]
    }
}

/// Whether two texts are the same.
pub fn is_same(a: &str, b: &str) -> (same: bool)
    ensures
        same == (a@ == b@),
{
    let same = !is_before(a, b) && !is_before(b, a);
    proof {
        law_text_order_is_total(a@, b@, b@);
        law_text_order_is_total(b@, a@, a@);
    }
    same
}

} // verus!
