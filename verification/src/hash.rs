//! Content hashing for prompt segments.
//!
//! The hash is stable across runs and processes, because churn detection compares this turn's hash
//! with last turn's, possibly after a restart.

use vstd::bytes::{lemma_auto_spec_u64_to_from_le_bytes, spec_u64_from_le_bytes, spec_u64_to_le_bytes, u64_to_le_bytes};
use vstd::prelude::*;
use vstd::utf8::{encode_utf8, encode_utf8_decode_utf8};

use crate::segment::ContentHash;
use crate::text::{part_texts, texts};

verus! {

/// The BLAKE3 digest of some bytes.
pub uninterp spec fn blake3_digest(input: Seq<u8>) -> Seq<u8>;

/// `blake3::hash`: the 32-byte digest of `bytes`, which is a function of the bytes alone. What the
/// digest of given bytes is, and that different bytes rarely share one, is not stated.
#[verifier::external_body]
fn digest(bytes: &[u8]) -> (r: [u8; 32])
    ensures
        r@ == blake3_digest(bytes@),
{
    *blake3::hash(bytes).as_bytes()
}

/// Hash a segment's rendered bytes.
#[must_use]
pub fn hash_bytes(bytes: &[u8]) -> (r: ContentHash)
    ensures
        r@ == blake3_digest(bytes@),
{
    ContentHash::from_bytes(digest(bytes))
}

/// Hash a segment's rendered text.
#[must_use]
pub fn hash_text(text: &str) -> (r: ContentHash)
    ensures
        r@ == blake3_digest(encode_utf8(text@)),
{
    hash_bytes(text.as_bytes())
}

/// One piece of a segment: its length in bytes as eight bytes, the lowest first, then the bytes.
pub open spec fn framed_part(part: Seq<char>) -> Seq<u8> {
    spec_u64_to_le_bytes(encode_utf8(part).len() as u64) + encode_utf8(part)
}

/// Several pieces one after the other, each behind its length.
pub open spec fn framed(parts: Seq<Seq<char>>) -> Seq<u8>
    decreases parts.len(),
{
    if parts.len() == 0 {
        Seq::empty()
    } else {
        framed(parts.drop_last()) + framed_part(parts.last())
    }
}

/// Hash several pieces as one segment. Each piece is preceded by its length, so that moving a
/// character from one piece to the next changes what is hashed.
#[must_use]
pub fn hash_parts(parts: &[&str]) -> (r: ContentHash)
    ensures
        r@ == blake3_digest(framed(part_texts(parts@))),
{
    let mut bytes: Vec<u8> = Vec::new();
    let mut i: usize = 0;
    while i < parts.len()
        invariant
            i <= parts@.len(),
            bytes@ == framed(part_texts(parts@).take(i as int)),
        decreases parts@.len() - i,
    {
        let piece = parts[i].as_bytes();
        let ghost before = bytes@;
        let mut length = u64_to_le_bytes(piece.len() as u64);
        bytes.append(&mut length);
        push_all(&mut bytes, piece);
        proof {
            let next = part_texts(parts@).take(i + 1);
            assert(next.drop_last() == part_texts(parts@).take(i as int));
            assert(next.last() == parts@[i as int]@);
            assert(bytes@ == before + framed_part(next.last()));
        }
        i = i + 1;
    }
    assert(part_texts(parts@).take(parts@.len() as int) == part_texts(parts@));
    hash_bytes(bytes.as_slice())
}

fn push_all(out: &mut Vec<u8>, more: &[u8])
    ensures
        final(out)@ == old(out)@ + more@,
{
    let ghost before = out@;
    let mut i: usize = 0;
    while i < more.len()
        invariant
            i <= more@.len(),
            out@ == before + more@.take(i as int),
        decreases more@.len() - i,
    {
        out.push(more[i]);
        i = i + 1;
    }
    assert(more@.take(more@.len() as int) == more@);
}

/// Hash several owned pieces together, each with its length in front.
#[must_use]
pub fn hash_texts(parts: &Vec<String>) -> (r: ContentHash)
    ensures
        r@ == blake3_digest(framed(texts(parts@))),
{
    let mut slices: Vec<&str> = Vec::new();
    let mut i: usize = 0;
    while i < parts.len()
        invariant
            i <= parts@.len(),
            slices@.len() == i,
            forall|j: int| 0 <= j < i ==> (#[trigger] slices@[j])@ == parts@[j]@,
        decreases parts@.len() - i,
    {
        slices.push(parts[i].as_str());
        i = i + 1;
    }
    assert(part_texts(slices@) == texts(parts@));
    hash_parts(slices.as_slice())
}

/// The pieces one after the other, read from the front.
proof fn framed_from_front(parts: Seq<Seq<char>>)
    requires
        parts.len() > 0,
    ensures
        framed(parts) == framed_part(parts[0]) + framed(parts.drop_first()),
    decreases parts.len(),
{
    if parts.len() == 1 {
        assert(parts.drop_last() == Seq::<Seq<char>>::empty());
        assert(parts.drop_first() == Seq::<Seq<char>>::empty());
        assert(framed(parts.drop_last()) == Seq::<u8>::empty());
        assert(framed(parts) == framed_part(parts[0]) + framed(parts.drop_first()));
    } else {
        framed_from_front(parts.drop_last());
        assert(parts.drop_first().drop_last() == parts.drop_last().drop_first());
        assert(parts.drop_first().last() == parts.last());
        assert(framed(parts) == framed_part(parts[0]) + framed(parts.drop_first()));
    }
}

/// What is hashed for two lists of pieces is the same only where the lists are: the boundaries
/// between pieces count, not only their characters. The lengths must fit the eight bytes.
pub proof fn part_boundaries_are_significant(a: Seq<Seq<char>>, b: Seq<Seq<char>>)
    requires
        framed(a) == framed(b),
        forall|i: int| 0 <= i < a.len() ==> encode_utf8(#[trigger] a[i]).len() <= u64::MAX,
        forall|i: int| 0 <= i < b.len() ==> encode_utf8(#[trigger] b[i]).len() <= u64::MAX,
    ensures
        a == b,
    decreases a.len(),
{
    lemma_auto_spec_u64_to_from_le_bytes();
    if a.len() == 0 {
        if b.len() > 0 {
            framed_from_front(b);
            assert(framed(b).len() >= 8);
        }
    } else if b.len() == 0 {
        framed_from_front(a);
        assert(framed(a).len() >= 8);
    } else {
        framed_from_front(a);
        framed_from_front(b);
        let la = encode_utf8(a[0]).len() as u64;
        let lb = encode_utf8(b[0]).len() as u64;
        let whole = framed(a);
        assert(spec_u64_to_le_bytes(la) == whole.subrange(0, 8));
        assert(spec_u64_to_le_bytes(lb) == whole.subrange(0, 8));
        assert(spec_u64_from_le_bytes(spec_u64_to_le_bytes(la)) == la);
        assert(spec_u64_from_le_bytes(spec_u64_to_le_bytes(lb)) == lb);
        assert(la == lb);
        assert(encode_utf8(a[0]) == whole.subrange(8, 8 + la as int));
        assert(encode_utf8(b[0]) == whole.subrange(8, 8 + la as int));
        encode_utf8_decode_utf8(a[0]);
        encode_utf8_decode_utf8(b[0]);
        assert(a[0] == b[0]);
        assert(framed(a.drop_first()) == whole.skip(8 + la as int));
        assert(framed(b.drop_first()) == whole.skip(8 + la as int));
        let ra = a.drop_first();
        let rb = b.drop_first();
        assert forall|i: int| 0 <= i < ra.len() implies encode_utf8(#[trigger] ra[i]).len()
            <= u64::MAX by {
            assert(ra[i] == a[i + 1]);
        }
        assert forall|i: int| 0 <= i < rb.len() implies encode_utf8(#[trigger] rb[i]).len()
            <= u64::MAX by {
            assert(rb[i] == b[i + 1]);
        }
        part_boundaries_are_significant(ra, rb);
        assert(a == seq![a[0]] + ra);
        assert(b == seq![b[0]] + rb);
    }
}

} // verus!
