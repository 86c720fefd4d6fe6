//! Text helpers: the order in which keys are kept, comparison of text, and
//! the joining of messages.

use vstd::prelude::*;
use vstd::string::*;
use vstd::utf8::*;

verus! {

/// `a` comes before `b` at position `k`: the two agree before `k`, and there
/// either `a` has ended while `b` goes on, or `a` holds the smaller byte.
pub open spec fn bytes_less_at(a: Seq<u8>, b: Seq<u8>, k: int) -> bool {
    &&& 0 <= k <= a.len()
    &&& k < b.len()
    &&& forall|j: int| 0 <= j < k ==> a[j] == b[j]
    &&& k < a.len() ==> a[k] < b[k]
}

/// Lexicographic order of byte strings.
pub open spec fn bytes_less(a: Seq<u8>, b: Seq<u8>) -> bool {
    exists|k: int| bytes_less_at(a, b, k)
}

/// The order of keys: that of their UTF-8 bytes, which is the order of `str`.
pub open spec fn key_less(a: Seq<char>, b: Seq<char>) -> bool {
    bytes_less(encode_utf8(a), encode_utf8(b))
}

/// Two texts with the same UTF-8 bytes are the same text.
pub proof fn lemma_same_bytes_same_text(a: Seq<char>, b: Seq<char>)
    requires
        encode_utf8(a) == encode_utf8(b),
    ensures
        a == b,
{
    encode_utf8_decode_utf8(a);
    encode_utf8_decode_utf8(b);
}

/// The order of byte strings is transitive.
pub proof fn lemma_bytes_less_transitive(a: Seq<u8>, b: Seq<u8>, c: Seq<u8>)
    requires
        bytes_less(a, b),
        bytes_less(b, c),
    ensures
        bytes_less(a, c),
{
    let k1 = choose|k: int| bytes_less_at(a, b, k);
    let k2 = choose|k: int| bytes_less_at(b, c, k);
    let k = if k1 <= k2 { k1 } else { k2 };
    assert(bytes_less_at(a, c, k));
}

/// Two byte strings that agree on their first `n` bytes, and of which neither
/// comes before the other, are equal.
proof fn lemma_bytes_equal_from(a: Seq<u8>, b: Seq<u8>, n: int)
    requires
        0 <= n <= a.len(),
        n <= b.len(),
        forall|j: int| 0 <= j < n ==> a[j] == b[j],
        !bytes_less(a, b),
        !bytes_less(b, a),
    ensures
        a == b,
    decreases a.len() - n,
{
    if n == a.len() {
        if n < b.len() {
            assert(bytes_less_at(a, b, n));
        }
        assert(a =~= b);
    } else if n == b.len() {
        assert(bytes_less_at(b, a, n));
    } else {
        if a[n] < b[n] {
            assert(bytes_less_at(a, b, n));
        } else if b[n] < a[n] {
            assert(bytes_less_at(b, a, n));
        }
        lemma_bytes_equal_from(a, b, n + 1);
    }
}

/// No key comes before itself.
pub proof fn lemma_key_less_irreflexive(a: Seq<char>)
    ensures
        !key_less(a, a),
{
}

/// The order of keys is transitive.
pub proof fn lemma_key_less_transitive(a: Seq<char>, b: Seq<char>, c: Seq<char>)
    requires
        key_less(a, b),
        key_less(b, c),
    ensures
        key_less(a, c),
{
    lemma_bytes_less_transitive(encode_utf8(a), encode_utf8(b), encode_utf8(c));
}

/// Of two different keys one comes before the other.
pub proof fn lemma_key_less_total(a: Seq<char>, b: Seq<char>)
    ensures
        a == b || key_less(a, b) || key_less(b, a),
{
    if !key_less(a, b) && !key_less(b, a) {
        lemma_bytes_equal_from(encode_utf8(a), encode_utf8(b), 0);
        lemma_same_bytes_same_text(a, b);
    }
}

/// Whether `a` comes before `b` in the order of keys.
pub fn str_less(a: &str, b: &str) -> (r: bool)
    ensures
        r == key_less(a@, b@),
{
    let x = a.as_bytes();
    let y = b.as_bytes();
    let mut i: usize = 0;
    while i < x.len() && i < y.len()
        invariant
            i <= x.len(),
            i <= y.len(),
            x@ == a.spec_bytes(),
            y@ == b.spec_bytes(),
            forall|j: int| 0 <= j < i ==> x@[j] == y@[j],
        decreases x.len() - i,
    {
        if x[i] != y[i] {
            let r = x[i] < y[i];
            proof {
                if r {
                    assert(bytes_less_at(x@, y@, i as int));
                } else {
                    assert forall|k: int| !bytes_less_at(x@, y@, k) by {
                        if bytes_less_at(x@, y@, k) && k > i {
                            assert(x@[i as int] == y@[i as int]);
                        }
                    }
                }
            }
            return r;
        }
        i += 1;
    }
    let r = x.len() < y.len();
    proof {
        if r {
            assert(bytes_less_at(x@, y@, i as int));
        }
    }
    r
}

/// Whether two texts are the same.
pub fn str_eq(a: &str, b: &str) -> (r: bool)
    ensures
        r == (a@ == b@),
{
    let x = a.as_bytes();
    let y = b.as_bytes();
    if x.len() != y.len() {
        return false;
    }
    let mut i: usize = 0;
    while i < x.len()
        invariant
            i <= x.len(),
            x.len() == y.len(),
            x@ == a.spec_bytes(),
            y@ == b.spec_bytes(),
            forall|j: int| 0 <= j < i ==> x@[j] == y@[j],
        decreases x.len() - i,
    {
        if x[i] != y[i] {
            return false;
        }
        i += 1;
    }
    proof {
        assert(x@ =~= y@);
        lemma_same_bytes_same_text(a@, b@);
    }
    true
}

/// The text `suffix` stands at the end of `text`.
pub open spec fn is_suffix_of(suffix: Seq<char>, text: Seq<char>) -> bool {
    text.len() >= suffix.len() && text.subrange(text.len() - suffix.len(), text.len() as int)
        == suffix
}

/// The text without its last `n` characters.
pub open spec fn without_last(text: Seq<char>, n: nat) -> Seq<char> {
    text.subrange(0, text.len() - n)
}

/// A text that ends with another is what stands before it, and then it.
pub proof fn lemma_suffix_splits(suffix: Seq<char>, text: Seq<char>)
    requires
        is_suffix_of(suffix, text),
    ensures
        text == without_last(text, suffix.len()) + suffix,
{
    assert(text =~= without_last(text, suffix.len()) + text.subrange(
        text.len() - suffix.len(),
        text.len() as int,
    ));
}

/// `str::strip_suffix`: the text without the other text at its end, or
/// `None` where it does not end with it.
#[verifier::external_body]
pub(crate) fn strip_suffix<'a>(text: &'a str, suffix: &str) -> (rest: Option<&'a str>)
    ensures
        rest is Some <==> is_suffix_of(suffix@, text@),
        rest matches Some(front) ==> front@ + suffix@ == text@,
{
    text.strip_suffix(suffix)
}

/// The text between two others.
pub fn enclose(before: &str, text: &str, after: &str) -> (whole: String)
    ensures
        whole@ == before@ + text@ + after@,
{
    let mut whole = before.to_owned();
    whole.append(text);
    whole.append(after);
    whole
}

} // verus!
