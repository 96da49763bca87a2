//! Domain-separated identities for investigation artifacts, recipes, and snapshots.

use vstd::prelude::*;

use crate::error::{malformed, Error};
#[allow(unused_imports)]
use crate::error::{malformed_fault, outcome, Fault};
use crate::fingerprint::sha256_digest;
#[allow(unused_imports)]
use crate::fingerprint::sha256;
use crate::text;
#[allow(unused_imports)]
use crate::text::{be_bytes, bytes_of, hex_text};

verus! {

pub const RECIPE_DOMAIN: &'static str = "bayesite-investigation-recipe-v0\0";

pub const SNAPSHOT_DOMAIN: &'static str = "bayesite-investigation-snapshot-v0\0";

/// A validated, lowercase SHA-256 digest without a scheme prefix.
#[derive(Debug, Clone)]
pub struct Digest(pub String);

impl View for Digest {
    type V = Seq<char>;

    open spec fn view(&self) -> Seq<char> {
        self.0@
    }
}

pub open spec fn is_hex(c: char) -> bool {
    '0' <= c <= '9' || 'a' <= c <= 'f'
}

/// Exactly 64 lowercase hexadecimal characters.
pub open spec fn valid_digest(s: Seq<char>) -> bool {
    s.len() == 64 && forall|i: int| 0 <= i < s.len() ==> is_hex(#[trigger] s[i])
}

/// What reading a digest gives.
pub open spec fn parsed_digest(value: Seq<char>, context: Seq<char>) -> Result<Seq<char>, Fault> {
    if valid_digest(value) {
        Ok(value)
    } else {
        Err(malformed_fault(context + " must be exactly 64 lowercase hexadecimal characters"@))
    }
}

impl Digest {
    pub fn parse(value: &str, context: &str) -> (r: Result<Digest, Error>)
        ensures
            outcome(r) == parsed_digest(value@, context@),
    {
        let mut valid: bool = value.unicode_len() == 64;
        for c in it: value.chars()
            invariant
                it.seq() == value@,
                valid == (value@.len() == 64 && forall|i: int|
                    0 <= i < it.index() ==> is_hex(#[trigger] value@[i])),
        {
            if !(('0' <= c && c <= '9') || ('a' <= c && c <= 'f')) {
                valid = false;
            }
        }
        if valid {
            Ok(Digest(value.to_owned()))
        } else {
            Err(
                malformed(
                    text::cat2(context, " must be exactly 64 lowercase hexadecimal characters"),
                ),
            )
        }
    }

    pub fn as_str(&self) -> (r: &str)
        ensures
            r@ == self@,
    {
        self.0.as_str()
    }

    pub fn prefixed(&self) -> (r: String)
        ensures
            r@ == "sha256:"@ + self@,
    {
        text::cat2("sha256:", self.0.as_str())
    }

    pub fn copy(&self) -> (r: Digest)
        ensures
            r@ == self@,
    {
        Digest(self.0.clone())
    }
}

/// The digest of a message, in hexadecimal.
pub open spec fn digest_text(message: Seq<u8>) -> Seq<char> {
    hex_text(sha256(message))
}

proof fn lemma_hex_is_valid(bytes: Seq<u8>)
    requires
        bytes.len() == 32,
    ensures
        valid_digest(hex_text(bytes)),
{
    let s = hex_text(bytes);
    assert forall|i: int| 0 <= i < s.len() implies is_hex(#[trigger] s[i]) by {
        let d = bytes[i / 2] as int;
        assert(0 <= d / 16 < 16 && 0 <= d % 16 < 16);
    }
}

fn digest_of(message: &[u8]) -> (r: Digest)
    ensures
        r@ == digest_text(message@),
        valid_digest(r@),
{
    let raw: Vec<u8> = sha256_digest(message);
    proof {
        lemma_hex_is_valid(raw@);
    }
    Digest(text::hex(raw.as_slice()))
}

/// SHA-256 of exact artifact bytes. No parsing or reserialization occurs.
pub fn artifact_digest(bytes: &[u8]) -> (r: Digest)
    ensures
        r@ == digest_text(bytes@),
        valid_digest(r@),
{
    digest_of(bytes)
}

/// Snapshot identity over the exact received manifest bytes and a fixed domain.
pub fn snapshot_digest(manifest_bytes: &[u8]) -> (r: Digest)
    ensures
        r@ == digest_text(bytes_of(SNAPSHOT_DOMAIN@) + manifest_bytes@),
        valid_digest(r@),
{
    let mut message: Vec<u8> = Vec::new();
    text::push_bytes(&mut message, SNAPSHOT_DOMAIN.as_bytes());
    text::push_bytes(&mut message, manifest_bytes);
    assert(message@ =~= bytes_of(SNAPSHOT_DOMAIN@) + manifest_bytes@);
    digest_of(message.as_slice())
}

/// One identity field: its length as an unsigned 64-bit big-endian number, then its bytes.
pub open spec fn framed(bytes: Seq<u8>) -> Seq<u8> {
    be_bytes(bytes.len() as u64) + bytes
}

/// Identity fields one behind the other.
pub open spec fn framed_all(fields: Seq<Seq<u8>>) -> Seq<u8>
    decreases fields.len(),
{
    if fields.len() == 0 {
        Seq::empty()
    } else {
        framed(fields[0]) + framed_all(fields.drop_first())
    }
}

/// Length-prefix one identity field with an unsigned 64-bit big-endian length.
pub fn frame(message: &mut Vec<u8>, bytes: &[u8])
    ensures
        final(message)@ == old(message)@ + framed(bytes@),
{
    text::push_be_bytes(message, bytes.len() as u64);
    text::push_bytes(message, bytes);
    assert(message@ =~= old(message)@ + framed(bytes@));
}

/// Hash an already-framed recipe identity body.
pub fn recipe_digest(body: &[u8]) -> (r: Digest)
    ensures
        r@ == digest_text(bytes_of(RECIPE_DOMAIN@) + body@),
        valid_digest(r@),
{
    let mut message: Vec<u8> = Vec::new();
    text::push_bytes(&mut message, RECIPE_DOMAIN.as_bytes());
    text::push_bytes(&mut message, body);
    assert(message@ =~= bytes_of(RECIPE_DOMAIN@) + body@);
    digest_of(message.as_slice())
}

/// Framing loses nothing: two lists of fields, each shorter than 2^64 bytes, with the same framed
/// bytes are the same list.
pub proof fn law_framing_is_injective(a: Seq<Seq<u8>>, b: Seq<Seq<u8>>)
    requires
        forall|i: int| 0 <= i < a.len() ==> (#[trigger] a[i]).len() <= u64::MAX,
        forall|i: int| 0 <= i < b.len() ==> (#[trigger] b[i]).len() <= u64::MAX,
        framed_all(a) == framed_all(b),
    ensures
        a == b,
    decreases a.len(),
{
    if a.len() == 0 {
        if b.len() > 0 {
            assert(framed_all(b).len() >= 8);
        }
        assert(a =~= b);
    } else if b.len() == 0 {
        assert(framed_all(a).len() >= 8);
    } else {
        let x = framed_all(a);
        let y = framed_all(b);
        assert(x.take(8) =~= be_bytes(a[0].len() as u64));
        assert(y.take(8) =~= be_bytes(b[0].len() as u64));
        text::lemma_be_bytes_injective(a[0].len() as u64, b[0].len() as u64);
        let n = a[0].len() as int;
        assert(x.subrange(8, 8 + n) =~= a[0]);
        assert(y.subrange(8, 8 + n) =~= b[0]);
        assert(x.skip(8 + n) =~= framed_all(a.drop_first()));
        assert(y.skip(8 + n) =~= framed_all(b.drop_first()));
        assert forall|i: int| 0 <= i < a.drop_first().len() implies (
        #[trigger] a.drop_first()[i]).len() <= u64::MAX by {
            assert(a.drop_first()[i] == a[i + 1]);
        }
        assert forall|i: int| 0 <= i < b.drop_first().len() implies (
        #[trigger] b.drop_first()[i]).len() <= u64::MAX by {
            assert(b.drop_first()[i] == b[i + 1]);
        }
        law_framing_is_injective(a.drop_first(), b.drop_first());
        assert forall|i: int| 0 <= i < a.len() implies a[i] == b[i] by {
            if i > 0 {
                assert(a[i] == a.drop_first()[i - 1]);
                assert(b[i] == b.drop_first()[i - 1]);
            }
        }
        assert(a =~= b);
    }
}

} // verus!
