//! Block payloads: text or binary bytes, the content fingerprint used by
//! the incremental cache, and the conversions between byte and character
//! views of a block's content.

use vstd::prelude::*;

use vstd::utf8::{encode_utf8, valid_utf8};

verus! {

/// A payload kept either as text or as raw bytes. The two forms are kept
/// apart: persisted state distinguishes them, and equality is by form and
/// contents, never across forms.
#[derive(Debug)]
pub enum Content {
    String(String),
    Binary(Vec<u8>),
}

impl Clone for Content {
    fn clone(&self) -> (r: Self)
        ensures
            content_eq_spec(&r, self),
    {
        match self {
            Content::String(s) => Content::String(s.clone()),
            Content::Binary(b) => {
                let c = b.clone();
                proof {
                    assert forall|i: int| 0 <= i < b@.len() implies c@[i] == b@[i] by {
                        assert(cloned::<u8>(b@[i], c@[i]));
                    }
                    assert(c@ =~= b@);
                }
                Content::Binary(c)
            },
        }
    }
}

impl View for Content {
    type V = Seq<u8>;

    /// The bytes of the payload: UTF-8 for the text form.
    open spec fn view(&self) -> Seq<u8> {
        match self {
            Content::String(s) => encode_utf8(s@),
            Content::Binary(bs) => bs@,
        }
    }
}

/// Equality of the text forms and of the byte contents; a text and a
/// binary payload are never equal, whatever their bytes.
pub open spec fn content_eq_spec(a: &Content, b: &Content) -> bool {
    match (a, b) {
        (Content::String(x), Content::String(y)) => x@ == y@,
        (Content::Binary(x), Content::Binary(y)) => x@ == y@,
        _ => false,
    }
}

impl PartialEq for Content {
    fn eq(&self, other: &Content) -> (r: bool) {
        match (self, other) {
            (Content::String(x), Content::String(y)) => *x == *y,
            (Content::Binary(x), Content::Binary(y)) => {
                let r = *x == *y;
                proof {
                    if r {
                        assert(x@ =~= y@);
                    }
                    if x@ == y@ {
                        assert(x@.len() == y@.len());
                        assert(forall|i: int| 0 <= i < x@.len() ==> x@[i] == y@[i]);
                    }
                }
                r
            },
            _ => false,
        }
    }
}

impl vstd::std_specs::cmp::PartialEqSpecImpl for Content {
    open spec fn obeys_eq_spec() -> bool {
        true
    }

    open spec fn eq_spec(&self, other: &Content) -> bool {
        content_eq_spec(self, other)
    }
}

impl Content {
    /// The payload's bytes.
    pub fn as_ref(&self) -> (r: &[u8])
        ensures
            r@ == self@,
    {
        match self {
            Content::String(s) => s.as_str().as_bytes(),
            Content::Binary(bs) => bs.as_slice(),
        }
    }

    /// The payload's bytes, owned.
    pub fn to_bytes(&self) -> (r: Vec<u8>)
        ensures
            r@ == self@,
    {
        match self {
            Content::String(s) => s.as_str().as_bytes_vec(),
            Content::Binary(bs) => bs.clone(),
        }
    }
}

/// Equal payloads have equal bytes.
pub proof fn lemma_content_eq_view(a: &Content, b: &Content)
    requires
        content_eq_spec(a, b),
    ensures
        a@ == b@,
{
}

/// A copy of a byte vector, with the same contents.
pub fn clone_bytes(v: &Vec<u8>) -> (r: Vec<u8>)
    ensures
        r@ == v@,
{
    let r = v.clone();
    proof {
        assert forall|i: int| 0 <= i < v@.len() implies r@[i] == v@[i] by {
            assert(cloned::<u8>(v@[i], r@[i]));
        }
        assert(r@ =~= v@);
    }
    r
}

/// The 32-bit content fingerprint of a byte string, reinterpreted as a
/// signed value. A function of the bytes alone: every process computes the
/// same value for the same input.
pub uninterp spec fn fast_digest_of(bytes: Seq<u8>) -> i32;

/// Relies on `twox_hash::XxHash32` (seed 0): hashing a byte string through
/// `Hasher::write` and `Hasher::finish` is a pure function of the bytes.
#[verifier::external_body]
pub fn calc_fast_digest(bytes: &[u8]) -> (r: i32)
    ensures
        r == fast_digest_of(bytes@),
{
    let mut hasher = twox_hash::XxHash32::default();
    std::hash::Hasher::write(&mut hasher, bytes);
    std::hash::Hasher::finish(&hasher) as i32
}

/// What `String::from_utf8_lossy` makes of a byte string. A function of
/// the bytes alone; on valid UTF-8 it decodes them exactly, which the
/// companion fact states through `encode_utf8`.
pub uninterp spec fn utf8_lossy_of(bytes: Seq<u8>) -> Seq<char>;

/// Relies on `String::from_utf8_lossy`: invalid sequences are replaced,
/// and valid UTF-8 input is decoded unchanged, so re-encoding the result
/// of a valid input gives the input back.
#[verifier::external_body]
pub fn utf8_lossy(bytes: &[u8]) -> (r: String)
    ensures
        r@ == utf8_lossy_of(bytes@),
        valid_utf8(bytes@) ==> encode_utf8(r@) == bytes@,
{
    String::from_utf8_lossy(bytes).into_owned()
}

/// What decoding a valid UTF-8 byte string yields: a function of the
/// bytes alone.
pub uninterp spec fn utf8_decode_of(bytes: Seq<u8>) -> Seq<char>;

/// Relies on `String::from_utf8`: succeeds exactly on valid UTF-8, and
/// then returns the very bytes it was given, decoded.
#[verifier::external_body]
pub fn utf8_to_string(bytes: &Vec<u8>) -> (r: Option<String>)
    ensures
        r is Some <==> valid_utf8(bytes@),
        r matches Some(s) ==> encode_utf8(s@) == bytes@ && s@ == utf8_decode_of(bytes@),
{
    String::from_utf8(bytes.clone()).ok()
}

} // verus!
