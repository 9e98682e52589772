//! Field elements of the proving system's scalar field and the
//! deterministic encoding of hash strings into them.
//!
//! A field element is kept as its canonical little-endian byte
//! representation: 32 bytes whose value, read as a little-endian
//! integer, lies below the field's modulus. The encoder digests the
//! UTF-8 bytes of a string with SHA-256 and takes the digest as the
//! representation; a digest at or above the modulus falls back to the
//! additive identity, a deliberate, documented lossy fallback.

use vstd::prelude::*;
use crate::digest::{sha256, sha256_of};
use vstd::utf8::encode_utf8;

verus! {

/// The value of a byte sequence read as a little-endian integer.
pub open spec fn le_bytes_nat(b: Seq<u8>) -> nat
    decreases b.len(),
{
    if b.len() == 0 {
        0
    } else {
        b[0] as nat + 256 * le_bytes_nat(b.drop_first())
    }
}

/// The scalar field's modulus in little-endian bytes:
/// 0x73eda753299d7d483339d80809a1d80553bda402fffe5bfeffffffff00000001.
pub open spec fn modulus_repr() -> Seq<u8> {
    seq![
        0x01u8, 0x00u8, 0x00u8, 0x00u8, 0xffu8, 0xffu8, 0xffu8, 0xffu8,
        0xfeu8, 0x5bu8, 0xfeu8, 0xffu8, 0x02u8, 0xa4u8, 0xbdu8, 0x53u8,
        0x05u8, 0xd8u8, 0xa1u8, 0x09u8, 0x08u8, 0xd8u8, 0x39u8, 0x33u8,
        0x48u8, 0x7du8, 0x9du8, 0x29u8, 0x53u8, 0xa7u8, 0xedu8, 0x73u8,
    ]
}

/// The canonical representation of the additive identity: 32 zero bytes.
pub open spec fn zero_repr() -> Seq<u8> {
    Seq::new(32, |i: int| 0u8)
}

/// A byte sequence is a canonical representation when it has exactly 32
/// bytes and its little-endian value lies below the modulus.
pub open spec fn spec_canonical(b: Seq<u8>) -> bool {
    b.len() == 32 && le_bytes_nat(b) < le_bytes_nat(modulus_repr())
}

/// A sequence of zero bytes has little-endian value zero.
proof fn lemma_le_bytes_all_zero(b: Seq<u8>)
    requires
        forall|j: int| 0 <= j < b.len() ==> b[j] == 0u8,
    ensures
        le_bytes_nat(b) == 0,
    decreases b.len(),
{
    if b.len() > 0 {
        lemma_le_bytes_all_zero(b.drop_first());
    }
}

/// The additive identity's representation is canonical.
pub proof fn lemma_zero_repr_canonical()
    ensures
        spec_canonical(zero_repr()),
        le_bytes_nat(zero_repr()) == 0,
{
    lemma_le_bytes_all_zero(zero_repr());
    assert(modulus_repr()[0] == 1u8);
    assert(le_bytes_nat(modulus_repr()) >= 1);
}

/// If two equally long byte sequences agree above position `i` and
/// differ at `i`, the one with the smaller byte there has the smaller
/// little-endian value, whatever stands below `i`.
proof fn lemma_le_bytes_lt(a: Seq<u8>, b: Seq<u8>, i: int)
    requires
        a.len() == b.len(),
        0 <= i < a.len(),
        a[i] < b[i],
        forall|j: int| i < j < a.len() ==> a[j] == b[j],
    ensures
        le_bytes_nat(a) < le_bytes_nat(b),
    decreases i,
{
    if i == 0 {
        assert(a.drop_first() =~= b.drop_first());
    } else {
        let a1 = a.drop_first();
        let b1 = b.drop_first();
        assert(forall|k: int| i - 1 < k < a1.len() ==> a1[k] == b1[k]);
        lemma_le_bytes_lt(a1, b1, i - 1);
        assert(256 * le_bytes_nat(a1) + 256 <= 256 * le_bytes_nat(b1)) by (nonlinear_arith)
            requires
                le_bytes_nat(a1) + 1 <= le_bytes_nat(b1),
        ;
    }
}

/// Compares the little-endian values of two equally long byte vectors.
fn lt_le_bytes(a: &Vec<u8>, b: &Vec<u8>) -> (r: bool)
    requires
        a@.len() == b@.len(),
    ensures
        r == (le_bytes_nat(a@) < le_bytes_nat(b@)),
{
    let mut i: usize = a.len();
    while i > 0
        invariant
            i <= a@.len(),
            a@.len() == b@.len(),
            forall|j: int| i <= j < a@.len() ==> a@[j] == b@[j],
        decreases i,
    {
        i = i - 1;
        let x = a[i];
        let y = b[i];
        if x < y {
            proof {
                lemma_le_bytes_lt(a@, b@, i as int);
            }
            return true;
        }
        if y < x {
            proof {
                lemma_le_bytes_lt(b@, a@, i as int);
            }
            return false;
        }
    }
    proof {
        assert(a@ =~= b@);
    }
    false
}

/// Builds the modulus representation as a byte vector.
fn modulus_repr_bytes() -> (r: Vec<u8>)
    ensures
        r@ == modulus_repr(),
{
    let v: Vec<u8> = vec![
        0x01u8, 0x00u8, 0x00u8, 0x00u8, 0xffu8, 0xffu8, 0xffu8, 0xffu8,
        0xfeu8, 0x5bu8, 0xfeu8, 0xffu8, 0x02u8, 0xa4u8, 0xbdu8, 0x53u8,
        0x05u8, 0xd8u8, 0xa1u8, 0x09u8, 0x08u8, 0xd8u8, 0x39u8, 0x33u8,
        0x48u8, 0x7du8, 0x9du8, 0x29u8, 0x53u8, 0xa7u8, 0xedu8, 0x73u8,
    ];
    proof {
        assert(v@ =~= modulus_repr());
    }
    v
}

/// Builds the additive identity's representation as a byte vector.
fn zero_repr_bytes() -> (r: Vec<u8>)
    ensures
        r@ == zero_repr(),
{
    let mut v: Vec<u8> = Vec::new();
    let mut i: usize = 0;
    while i < 32
        invariant
            i <= 32,
            v@.len() == i,
            forall|j: int| 0 <= j < i ==> v@[j] == 0u8,
        decreases 32 - i,
    {
        v.push(0u8);
        i += 1;
    }
    proof {
        assert(v@ =~= zero_repr());
    }
    v
}

/// Decides whether a byte vector is a canonical field representation.
pub fn is_canonical(b: &Vec<u8>) -> (r: bool)
    ensures
        r == spec_canonical(b@),
{
    if b.len() != 32 {
        return false;
    }
    let m = modulus_repr_bytes();
    lt_le_bytes(b, &m)
}

/// A value of the proving system's scalar field, kept as its canonical
/// little-endian byte representation. Values are produced only through
/// the encoder and the commitment computation, so every circuit input
/// is canonicalized the same way.
pub struct FieldElement {
    repr: Vec<u8>,
}

impl View for FieldElement {
    type V = Seq<u8>;

    closed spec fn view(&self) -> Seq<u8> {
        self.repr@
    }
}

impl FieldElement {
    /// A well-formed element holds a canonical representation.
    pub open spec fn wf(&self) -> bool {
        spec_canonical(self@)
    }

    /// The canonical little-endian byte representation.
    pub fn repr_bytes(&self) -> (r: &Vec<u8>)
        ensures
            r@ == self@,
    {
        &self.repr
    }
}

/// Wraps a representation already known to be canonical.
pub(crate) fn from_canonical(repr: Vec<u8>) -> (r: FieldElement)
    requires
        spec_canonical(repr@),
    ensures
        r@ == repr@,
        r.wf(),
{
    FieldElement { repr }
}

/// Validates bytes as a canonical field representation.
pub fn element_from_repr(bytes: Vec<u8>) -> (r: Option<FieldElement>)
    ensures
        match r {
            Some(e) => spec_canonical(bytes@) && e@ == bytes@ && e.wf(),
            None => !spec_canonical(bytes@),
        },
{
    if is_canonical(&bytes) {
        Some(from_canonical(bytes))
    } else {
        None
    }
}

/// The additive identity of the field.
pub fn zero_element() -> (r: FieldElement)
    ensures
        r@ == zero_repr(),
        r.wf(),
{
    proof {
        lemma_zero_repr_canonical();
    }
    FieldElement { repr: zero_repr_bytes() }
}

/// What the encoder returns for a character sequence: the SHA-256
/// digest of its UTF-8 bytes when that digest is canonical, and the
/// additive identity otherwise.
pub open spec fn spec_encode(s: Seq<char>) -> Seq<u8> {
    let d = sha256_of(encode_utf8(s));
    if spec_canonical(d) {
        d
    } else {
        zero_repr()
    }
}

/// Encodes a hash string deterministically into the field: SHA-256 over
/// the UTF-8 bytes, read as a little-endian representation, with the
/// documented fallback to the additive identity for a digest outside
/// the canonical range.
pub fn encode(raw: &str) -> (r: FieldElement)
    ensures
        r@ == spec_encode(raw@),
        r.wf(),
{
    let bytes: &[u8] = raw.as_bytes();
    let d = sha256(bytes);
    if is_canonical(&d) {
        FieldElement { repr: d }
    } else {
        proof {
            lemma_zero_repr_canonical();
        }
        FieldElement { repr: zero_repr_bytes() }
    }
}

/// Encodes every hash string of a list, in order.
pub fn encode_all(raws: &Vec<String>) -> (r: Vec<FieldElement>)
    ensures
        r@.len() == raws@.len(),
        forall|i: int|
            0 <= i < raws@.len() ==> #[trigger] r@[i]@ == spec_encode(raws@[i]@) && r@[i].wf(),
{
    let mut r: Vec<FieldElement> = Vec::new();
    let mut i: usize = 0;
    while i < raws.len()
        invariant
            i <= raws@.len(),
            r@.len() == i,
            forall|k: int|
                0 <= k < i ==> #[trigger] r@[k]@ == spec_encode(raws@[k]@) && r@[k].wf(),
        decreases raws@.len() - i,
    {
        r.push(encode(raws[i].as_str()));
        i += 1;
    }
    r
}

/// Law: the field encoding is deterministic. Two encodings of the same
/// character sequence are one and the same value.
pub proof fn lemma_encode_deterministic(a: FieldElement, b: FieldElement, s: Seq<char>)
    requires
        a@ == spec_encode(s),
        b@ == spec_encode(s),
    ensures
        a@ == b@,
{
}

/// Law: a string whose digest lies outside the canonical range encodes
/// to the additive identity, and to nothing else.
pub proof fn lemma_encode_noncanonical_is_zero(s: Seq<char>)
    requires
        !spec_canonical(sha256_of(encode_utf8(s))),
    ensures
        spec_encode(s) == zero_repr(),
{
}

} // verus!
