//! Prompt segments and cache marks.
//!
//! A rendered prompt is an ordered list of segments, each with a stability class and a content
//! hash. The cache planner decides from those two facts where breakpoints go.

use vstd::prelude::*;
use vstd::utf8::encode_utf8;

use crate::ids::SegmentId;
use crate::text::{byte_len, dec, decimal, decimal_usize, digit, hex, hex_byte, join, joined, push_hex, texts, utf8_len, group_mentions, joining_keeps_every_part, mentions};

verus! {

/// A 32-byte content hash, shown in lowercase hexadecimal.
#[derive(Debug, Clone, Copy, PartialEq, Eq, Hash, PartialOrd, Ord)]
pub struct ContentHash([u8; 32]);

impl View for ContentHash {
    type V = Seq<u8>;

    closed spec fn view(&self) -> Seq<u8> {
        self.0@
    }
}

/// The value of one hexadecimal digit, of either case.
pub open spec fn nibble(b: u8) -> Option<nat> {
    if 48 <= b <= 57 {
        Some((b - 48) as nat)
    } else if 97 <= b <= 102 {
        Some((b - 87) as nat)
    } else if 65 <= b <= 70 {
        Some((b - 55) as nat)
    } else {
        None
    }
}

/// The value of two characters read as a hexadecimal byte. A plus sign may stand in front of a
/// single digit, as it may in front of any number.
pub open spec fn hex_pair(hi: u8, lo: u8) -> Option<nat> {
    match (nibble(hi), nibble(lo)) {
        (Some(h), Some(l)) => Some(h * 16 + l),
        (None, Some(l)) => if hi == 43 {
            Some(l)
        } else {
            None
        },
        _ => None,
    }
}

/// Whether each of the first `n` pairs of bytes is a hexadecimal byte.
pub open spec fn hex_pairs_valid(bytes: Seq<u8>, n: int) -> bool {
    forall|k: int| 0 <= k < n ==> (#[trigger] hex_pair(bytes[2 * k], bytes[2 * k + 1])) is Some
}

/// The bytes that the first `n` pairs of bytes spell in hexadecimal.
pub open spec fn hex_values(bytes: Seq<u8>, n: nat) -> Seq<u8> {
    Seq::new(n, |k: int| hex_pair(bytes[2 * k], bytes[2 * k + 1])->0 as u8)
}

fn nibble_of(b: u8) -> (r: Option<u8>)
    ensures
        r is Some <==> nibble(b) is Some,
        r matches Some(v) ==> v == nibble(b)->0 && v < 16,
{
    if 48 <= b && b <= 57 {
        Some(b - 48)
    } else if 97 <= b && b <= 102 {
        Some(b - 87)
    } else if 65 <= b && b <= 70 {
        Some(b - 55)
    } else {
        None
    }
}

fn hex_pair_of(hi: u8, lo: u8) -> (r: Option<u8>)
    ensures
        r is Some <==> hex_pair(hi, lo) is Some,
        r matches Some(v) ==> v == hex_pair(hi, lo)->0,
{
    match (nibble_of(hi), nibble_of(lo)) {
        (Some(h), Some(l)) => Some(h * 16 + l),
        (None, Some(l)) => {
            if hi == 43 {
                Some(l)
            } else {
                None
            }
        },
        _ => None,
    }
}

/// A hash as it is shown for debugging: its bytes in decimal.
pub open spec fn hash_debug(bytes: Seq<u8>) -> Seq<char> {
    "ContentHash(["@ + joined(Seq::new(bytes.len(), |j: int| dec(bytes[j] as nat)), ", "@) + "])"@
}

impl ContentHash {
    /// Wrap raw digest bytes.
    #[must_use]
    pub fn from_bytes(bytes: [u8; 32]) -> (r: Self)
        ensures
            r@ == bytes@,
    {
        ContentHash(bytes)
    }

    /// The raw digest bytes.
    #[must_use]
    pub fn as_bytes(&self) -> (r: &[u8; 32])
        ensures
            r@ == self@,
    {
        &self.0
    }

    /// The hash as it is shown for debugging: its bytes in decimal.
    pub fn debug_text(&self) -> (r: String)
        ensures
            r@ == hash_debug(self@),
    {
        let mut parts: Vec<String> = Vec::new();
        let mut i: usize = 0;
        while i < 32
            invariant
                i <= 32,
                parts@.len() == i,
                forall|j: int| 0 <= j < i ==> (#[trigger] parts@[j])@ == dec(self@[j] as nat),
            decreases 32 - i,
        {
            parts.push(decimal(self.0[i] as u64));
            i = i + 1;
        }
        assert(texts(parts@) == Seq::new(32, |j: int| dec(self@[j] as nat)));
        let mut out = "ContentHash([".to_owned();
        out.push_str(join(&parts, ", ").as_str());
        out.push_str("])");
        out
    }

    /// Whether two hashes hold the same bytes.
    #[must_use]
    pub fn same(&self, other: &ContentHash) -> (r: bool)
        ensures
            r == (self@ == other@),
    {
        let mut i: usize = 0;
        while i < 32
            invariant
                i <= 32,
                forall|j: int| 0 <= j < i ==> self@[j] == other@[j],
            decreases 32 - i,
        {
            if self.0[i] != other.0[i] {
                assert(self@[i as int] != other@[i as int]);
                return false;
            }
            i = i + 1;
        }
        assert(self@ == other@);
        true
    }

    fn hex_prefix(&self, n: usize) -> (r: String)
        requires
            n <= 32,
        ensures
            r@ == hex(self@.take(n as int)),
    {
        let mut s = String::new();
        let mut i: usize = 0;
        while i < n
            invariant
                i <= n <= 32,
                s@ == hex(self@.take(i as int)),
            decreases n - i,
        {
            push_hex(&mut s, self.0[i]);
            proof {
                let next = self@.take(i + 1);
                assert(next.drop_last() == self@.take(i as int));
                assert(next.last() == self@[i as int]);
            }
            i = i + 1;
        }
        s
    }

    /// A short prefix, for log lines and warning messages.
    #[must_use]
    pub fn short(&self) -> (r: String)
        ensures
            r@ == hex(self@.take(4)),
    {
        self.hex_prefix(4)
    }

    /// The whole hash in hexadecimal.
    #[must_use]
    pub fn to_string(&self) -> (r: String)
        ensures
            r@ == hex(self@),
    {
        assert(self@.take(32) == self@);
        self.hex_prefix(32)
    }

    /// Read a hash from its hexadecimal form. A text of another length, and one with a pair of
    /// bytes that is not a hexadecimal byte, is rejected rather than padded.
    pub fn from_hex(text: &str) -> (r: Result<ContentHash, String>)
        ensures
            utf8_len(text@) != 64 ==> (r matches Err(e) && e@
                == "a content hash is 64 hex characters, got "@ + dec(utf8_len(text@))),
            utf8_len(text@) == 64 && !hex_pairs_valid(encode_utf8(text@), 32) ==> (r matches Err(e)
                && e@ == "invalid hex in content hash: invalid digit found in string"@),
            utf8_len(text@) == 64 && hex_pairs_valid(encode_utf8(text@), 32) ==> (r matches Ok(h)
                && h@ == hex_values(encode_utf8(text@), 32)),
    {
        let n: usize = byte_len(text);
        if n != 64 {
            let mut e = "a content hash is 64 hex characters, got ".to_owned();
            e.push_str(decimal_usize(n).as_str());
            return Err(e);
        }
        let bytes = text.as_bytes();
        let mut out: [u8; 32] = [0u8; 32];
        let mut k: usize = 0;
        while k < 32
            invariant
                k <= 32,
                bytes@ == encode_utf8(text@),
                bytes@.len() == 64,
                hex_pairs_valid(bytes@, k as int),
                forall|j: int| 0 <= j < k ==> out@[j] == hex_values(bytes@, 32)[j],
            decreases 32 - k,
        {
            match hex_pair_of(bytes[2 * k], bytes[2 * k + 1]) {
                None => {
                    assert(hex_pair(bytes@[2 * k], bytes@[2 * k + 1]) is None);
                    return Err("invalid hex in content hash: invalid digit found in string".to_owned());
                },
                Some(v) => {
                    out[k] = v;
                },
            }
            k = k + 1;
        }
        assert(out@ == hex_values(bytes@, 32));
        Ok(ContentHash(out))
    }
}

proof fn hex_length(bytes: Seq<u8>)
    ensures
        hex(bytes).len() == 2 * bytes.len(),
        forall|k: int|
            0 <= k < bytes.len() ==> (#[trigger] hex(bytes)[2 * k]) == hex_byte(bytes[k])[0],
        forall|k: int|
            0 <= k < bytes.len() ==> (#[trigger] hex(bytes)[2 * k + 1]) == hex_byte(bytes[k])[1],
    decreases bytes.len(),
{
    if bytes.len() > 0 {
        let front = bytes.drop_last();
        hex_length(front);
        assert forall|k: int| 0 <= k < bytes.len() implies (#[trigger] hex(bytes)[2 * k]) == hex_byte(
            bytes[k],
        )[0] by {
            if k < front.len() {
                assert(hex(bytes)[2 * k] == hex(front)[2 * k]);
            }
        }
        assert forall|k: int| 0 <= k < bytes.len() implies (#[trigger] hex(bytes)[2 * k + 1])
            == hex_byte(bytes[k])[1] by {
            if k < front.len() {
                assert(hex(bytes)[2 * k + 1] == hex(front)[2 * k + 1]);
            }
        }
    }
}

/// A hash read back from its hexadecimal form is the hash that was shown.
pub proof fn hashes_round_trip_as_hex(bytes: Seq<u8>)
    requires
        bytes.len() == 32,
    ensures
        utf8_len(hex(bytes)) == 64,
        hex_pairs_valid(encode_utf8(hex(bytes)), 32),
        hex_values(encode_utf8(hex(bytes)), 32) == bytes,
{
    let shown = hex(bytes);
    hex_length(bytes);
    assert forall|i: int| 0 <= i < shown.len() implies '\0' <= #[trigger] shown[i]
        <= '\u{7f}' by {
        let k = i / 2;
        if i % 2 == 0 {
            assert(shown[2 * k] == hex_byte(bytes[k])[0]);
        } else {
            assert(shown[2 * k + 1] == hex_byte(bytes[k])[1]);
        }
    }
    vstd::utf8::is_ascii_chars_encode_utf8(shown);
    let bs = encode_utf8(shown);
    assert forall|k: int| 0 <= k < 32 implies (#[trigger] hex_pair(bs[2 * k], bs[2 * k + 1]))
        == Some(bytes[k] as nat) by {
        assert(shown[2 * k] == hex_byte(bytes[k])[0]);
        assert(shown[2 * k + 1] == hex_byte(bytes[k])[1]);
        assert(bs[2 * k] == shown[2 * k] as u8);
        assert(bs[2 * k + 1] == shown[2 * k + 1] as u8);
        let h = (bytes[k] / 16) as nat;
        let l = (bytes[k] % 16) as nat;
        assert(nibble(bs[2 * k]) == Some(h));
        assert(nibble(bs[2 * k + 1]) == Some(l));
    }
    assert(hex_values(bs, 32) == bytes);
}

/// Which part of the prompt a segment belongs to. The order of the variants is the prefix
/// hierarchy: a change in one kind invalidates every later one.
#[derive(Debug, Clone, Copy, PartialEq, Eq, PartialOrd, Ord, Hash, Structural)]
pub enum SegmentKind {
    /// Tool definitions. First, and therefore the most expensive thing to churn.
    Tools,
    /// Operator-authored instructions.
    System,
    /// The skill index: names and descriptions only.
    SkillIndex,
    /// Conversation history.
    History,
    /// Definitions injected mid-conversation by discovery. Last, so that discovering a tool never
    /// invalidates the stable prefix.
    Discovered,
}

/// How likely a segment is to change between turns.
#[derive(Debug, Clone, Copy, PartialEq, Eq, PartialOrd, Ord, Structural)]
pub enum Stability {
    /// Identical every turn. Safe to cache behind a breakpoint.
    Static,
    /// Changes occasionally, for example when a toolset is filtered differently.
    Slow,
    /// Changes every turn.
    Volatile,
}

impl Stability {
    /// Whether a cache breakpoint may be placed at the end of a segment with this class.
    #[must_use]
    pub fn is_cacheable(self) -> (r: bool)
        ensures
            r == (self != Stability::Volatile),
    {
        matches!(self, Stability::Static | Stability::Slow)
    }
}

/// How long a cache entry should live.
#[derive(Debug, Clone, Copy, PartialEq, Eq, PartialOrd, Ord, Structural)]
pub enum CacheTtl {
    /// Minutes. Cheaper to write.
    Short,
    /// An hour or more. More expensive to write, worth it for a prefix reused across sessions.
    Long,
}

impl Default for CacheTtl {
    fn default() -> (r: Self)
        ensures
            r == CacheTtl::Short,
    {
        CacheTtl::Short
    }
}

/// One contiguous piece of a rendered prompt.
#[derive(Debug, PartialEq, Eq)]
pub struct Segment {
    /// Position in the rendered prompt.
    pub id: SegmentId,
    /// Which part of the prompt this is.
    pub kind: SegmentKind,
    /// How likely it is to change.
    pub stability: Stability,
    /// Hash of the rendered content.
    pub hash: ContentHash,
    /// Estimated token count.
    pub est_tokens: u32,
    /// A short human label for warnings, for example `system:prompts/system.md`.
    pub label: String,
}

impl Clone for Segment {
    fn clone(&self) -> (r: Self)
        ensures
            r == *self,
    {
        Segment {
            id: self.id,
            kind: self.kind,
            stability: self.stability,
            hash: self.hash,
            est_tokens: self.est_tokens,
            label: self.label.clone(),
        }
    }
}

/// A request that the cache be broken after a particular segment.
#[derive(Debug, Clone, Copy, PartialEq, Eq, Structural)]
pub struct CacheMark {
    /// The last segment covered by this cache entry.
    pub at: SegmentId,
    /// How long the entry should live.
    pub ttl: CacheTtl,
}

/// Whether no long-lived mark stands behind a short-lived one.
pub open spec fn ttls_ordered(marks: Seq<CacheMark>) -> bool {
    forall|i: int, j: int|
        0 <= i < j < marks.len() && (#[trigger] marks[i]).ttl == CacheTtl::Short ==> (
        #[trigger] marks[j]).ttl == CacheTtl::Short
}

/// Whether a list of cache marks satisfies the ordering rule that mixed lifetimes impose:
/// longer-lived entries appear before shorter-lived ones.
#[must_use]
pub fn ttls_are_correctly_ordered(marks: &[CacheMark]) -> (r: bool)
    ensures
        r == ttls_ordered(marks@),
{
    let mut seen_short = false;
    let mut i: usize = 0;
    while i < marks.len()
        invariant
            i <= marks@.len(),
            ttls_ordered(marks@.take(i as int)),
            seen_short == exists|k: int| 0 <= k < i && (#[trigger] marks@[k]).ttl == CacheTtl::Short,
        decreases marks@.len() - i,
    {
        match marks[i].ttl {
            CacheTtl::Short => {
                assert(marks@[i as int].ttl == CacheTtl::Short);
                seen_short = true;
            },
            CacheTtl::Long => {
                if seen_short {
                    return false;
                }
            },
        }
        i = i + 1;
    }
    assert(marks@.take(marks@.len() as int) == marks@);
    true
}

/// Hexadecimal digits count the same in either case, and nothing else is a digit.
pub proof fn digits_count_the_same_in_either_case(k: u8, b: u8)
    ensures
        k <= 9 ==> nibble((0x30 + k) as u8) == Some(k as nat),
        k <= 5 ==> nibble((0x61 + k) as u8) == Some((10 + k) as nat),
        k <= 5 ==> nibble((0x41 + k) as u8) == Some((10 + k) as nat),
        nibble(b) is Some <==> 0x30 <= b <= 0x39 || 0x61 <= b <= 0x66 || 0x41 <= b <= 0x46,
{
}

/// A hash is shown with every byte of it.
pub proof fn every_byte_of_a_hash_is_shown(bytes: Seq<u8>, i: int)
    requires
        0 <= i < bytes.len(),
    ensures
        mentions(hash_debug(bytes), dec(bytes[i] as nat)),
{
    broadcast use group_mentions;

    let parts = Seq::new(bytes.len(), |j: int| dec(bytes[j] as nat));
    joining_keeps_every_part(parts, ", "@, i, parts[i]);
}

} // verus!
