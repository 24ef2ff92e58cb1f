//! Pedersen commitments: group elements held in their canonical encoding.

use crate::group::{compress, decompress, encoding_of, group_order, identity_point, point_add, point_eq, point_log};
use crate::keys::RistrettoPublicKey;
use curve25519_dalek::ristretto::RistrettoPoint;
use std::cmp::Ordering;
use vstd::prelude::*;

verus! {

/// Why a byte string or a text is not a commitment.
#[derive(Debug, Clone, Copy, PartialEq, Eq, Structural)]
pub enum FormatError {
    /// The byte string is not 32 bytes long.
    WrongLength,
    /// The text is not a canonical base64 encoding.
    NotBase64,
    /// The bytes are not the canonical encoding of a group element.
    NotAPoint,
}

/// The name of the standard, padded base64 text of a byte string.
pub uninterp spec fn base64_of(b: Seq<u8>) -> Seq<char>;

/// Relies on base64's `STANDARD` engine `encode`.
#[verifier::external_body]
fn base64_encode(b: &[u8; 32]) -> (r: String)
    ensures
        r@ == base64_of(b@),
        forall|b2: Seq<u8>| base64_of(b2) == r@ ==> b2 == b@,
{
    base64::Engine::encode(&base64::engine::general_purpose::STANDARD, b)
}

/// Relies on base64's `STANDARD` engine `decode`, which accepts only canonical padded text:
/// it gives back the bytes whose encoding the text is, and fails on any other text.
#[verifier::external_body]
fn base64_decode(s: &str) -> (r: Option<Vec<u8>>)
    ensures
        r.is_some() ==> base64_of(r.unwrap()@) == s@,
        forall|b: Seq<u8>| base64_of(b) == s@ ==> r.is_some() && r.unwrap()@ == b,
{
    base64::Engine::decode(&base64::engine::general_purpose::STANDARD, s).ok()
}

/// Whether `b` is the canonical encoding of a group element.
pub open spec fn is_encoding(b: Seq<u8>) -> bool {
    exists|x: nat| x < group_order() && encoding_of(x) == b
}

/// The group element (as a discrete logarithm) that `b` encodes.
pub open spec fn decoded(b: Seq<u8>) -> nat {
    choose|x: nat| x < group_order() && encoding_of(x) == b
}

/// The opposite answer of a comparison.
pub open spec fn reversed(o: Ordering) -> Ordering {
    match o {
        Ordering::Less => Ordering::Greater,
        Ordering::Equal => Ordering::Equal,
        Ordering::Greater => Ordering::Less,
    }
}

/// Lexicographic comparison of two byte strings of the same length, from position `i` on.
pub open spec fn lex_cmp_from(a: Seq<u8>, b: Seq<u8>, i: nat) -> Ordering
    decreases a.len() - i,
{
    if i >= a.len() {
        Ordering::Equal
    } else if a[i as int] < b[i as int] {
        Ordering::Less
    } else if a[i as int] > b[i as int] {
        Ordering::Greater
    } else {
        lex_cmp_from(a, b, i + 1)
    }
}

/// Lexicographic comparison of two byte strings of the same length.
pub open spec fn lex_cmp(a: Seq<u8>, b: Seq<u8>) -> Ordering {
    lex_cmp_from(a, b, 0)
}

proof fn lemma_lex_cmp_from(a: Seq<u8>, b: Seq<u8>, i: nat)
    requires
        a.len() == b.len(),
        i <= a.len(),
    ensures
        lex_cmp_from(b, a, i) == reversed(lex_cmp_from(a, b, i)),
        lex_cmp_from(a, b, i) == Ordering::Equal ==> a.skip(i as int) == b.skip(i as int),
    decreases a.len() - i,
{
    if i < a.len() {
        lemma_lex_cmp_from(a, b, i + 1);
        if a[i as int] == b[i as int] && lex_cmp_from(a, b, i) == Ordering::Equal {
            assert(a.skip(i as int) =~= seq![a[i as int]] + a.skip(i as int + 1));
            assert(b.skip(i as int) =~= seq![b[i as int]] + b.skip(i as int + 1));
        }
    } else {
        assert(a.skip(i as int) =~= b.skip(i as int));
    }
}

/// The order of commitments is total: of two different commitments exactly one is the smaller,
/// and comparing them the other way round gives the reverse answer.
pub proof fn lemma_order_total(a: PedersenCommitment, b: PedersenCommitment)
    requires
        a != b,
    ensures
        lex_cmp(a@, b@) != Ordering::Equal,
        lex_cmp(b@, a@) == reversed(lex_cmp(a@, b@)),
{
    lemma_lex_cmp_from(a@, b@, 0);
    if lex_cmp(a@, b@) == Ordering::Equal {
        assert(a@ =~= a@.skip(0));
        assert(b@ =~= b@.skip(0));
        a.lemma_view_injective(b);
    }
}

/// What decoding a byte string gives.
pub open spec fn decode_binary(b: Seq<u8>) -> Result<PedersenCommitment, FormatError> {
    if b.len() != 32 {
        Err(FormatError::WrongLength)
    } else if !is_encoding(b) {
        Err(FormatError::NotAPoint)
    } else {
        Ok(choose|c: PedersenCommitment| c@ == b)
    }
}

/// What decoding a base64 text gives.
pub open spec fn decode_base64(s: Seq<char>) -> Result<PedersenCommitment, FormatError> {
    if exists|b: Seq<u8>| base64_of(b) == s {
        decode_binary(choose|b: Seq<u8>| base64_of(b) == s)
    } else {
        Err(FormatError::NotBase64)
    }
}

/// `Σ c[i]` modulo the group order, of the values of a sequence of commitments.
pub open spec fn sum_values(c: Seq<PedersenCommitment>) -> nat
    decreases c.len(),
{
    if c.len() == 0 {
        0
    } else {
        (sum_values(c.drop_last()) + c.last().value()) % group_order()
    }
}

/// A commitment `C`: one group element, compared, ordered and hashed by its canonical
/// 32-byte encoding.
#[derive(Debug, Clone, Copy, PartialEq, Eq, Ord)]
pub struct PedersenCommitment {
    bytes: [u8; 32],
}

impl std::hash::Hash for PedersenCommitment {
    /// Relies on `Hasher::write`: the hasher is fed the 32 bytes of the encoding, as one write.
    #[verifier::external_body]
    fn hash<H: std::hash::Hasher>(&self, state: &mut H) {
        state.write(&self.bytes)
    }
}

impl PartialOrd for PedersenCommitment {
    /// Compares the encodings lexicographically, as the derived `Ord` does.
    fn partial_cmp(&self, other: &Self) -> (r: Option<Ordering>) {
        let mut i: usize = 0;
        while i < 32
            invariant
                i <= 32,
                self@.len() == 32,
                other@.len() == 32,
                lex_cmp(self@, other@) == lex_cmp_from(self@, other@, i as nat),
            decreases 32 - i,
        {
            if self.bytes[i] < other.bytes[i] {
                return Some(Ordering::Less);
            } else if self.bytes[i] > other.bytes[i] {
                return Some(Ordering::Greater);
            }
            i = i + 1;
        }
        Some(Ordering::Equal)
    }
}

impl vstd::std_specs::cmp::PartialOrdSpecImpl for PedersenCommitment {
    open spec fn obeys_partial_cmp_spec() -> bool {
        true
    }

    open spec fn partial_cmp_spec(&self, other: &Self) -> Option<Ordering> {
        Some(lex_cmp(self@, other@))
    }
}

impl View for PedersenCommitment {
    type V = Seq<u8>;

    closed spec fn view(&self) -> Seq<u8> {
        self.bytes@
    }
}

impl PedersenCommitment {
    #[verifier::type_invariant]
    spec fn holds_encoding(self) -> bool {
        is_encoding(self.bytes@)
    }

    /// The group element committed to, as its discrete logarithm.
    pub open spec fn value(self) -> nat {
        decoded(self@)
    }

    /// A commitment is determined by its encoding.
    pub proof fn lemma_view_injective(self, other: Self)
        requires
            self@ == other@,
        ensures
            self == other,
    {
        assert(self.bytes =~= other.bytes);
    }

    /// Decoding the encoding of a commitment gives the commitment back.
    pub proof fn lemma_decode_own_encoding(self)
        requires
            is_encoding(self@),
        ensures
            decode_binary(self@) == Ok::<Self, FormatError>(self),
    {
        let c = choose|c: PedersenCommitment| c@ == self@;
        c.lemma_view_injective(self);
    }

    pub(crate) fn from_point(p: &RistrettoPoint) -> (r: Self)
        ensures
            r.value() == point_log(*p) % group_order(),
    {
        let bytes = compress(p);
        let ghost x = point_log(*p) % group_order();
        assert(x < group_order() && encoding_of(x) == bytes@);
        PedersenCommitment { bytes }
    }

    pub(crate) fn to_point(&self) -> (r: RistrettoPoint)
        ensures
            point_log(r) % group_order() == self.value(),
    {
        proof {
            use_type_invariant(self);
        }
        let p = decompress(&self.bytes);
        p.unwrap()
    }

    /// Whether the commitment holds the element `p`, compared as points in constant time.
    pub(crate) fn holds_point(&self, p: &RistrettoPoint) -> (r: bool)
        ensures
            r == (self.value() == point_log(*p) % group_order()),
    {
        let a = self.to_point();
        point_eq(&a, p)
    }

    /// The zero commitment, neutral for addition.
    pub fn zero() -> (r: Self)
        ensures
            r.value() == 0,
    {
        Self::from_point(&identity_point())
    }

    /// The group sum of two commitments.
    pub fn add(&self, other: &Self) -> (r: Self)
        ensures
            r.value() == (self.value() + other.value()) % group_order(),
    {
        let a = self.to_point();
        let b = other.to_point();
        let s = point_add(&a, &b);
        proof {
            vstd::arithmetic::div_mod::lemma_mod_twice(
                point_log(a) as int + point_log(b) as int, group_order() as int);
            vstd::arithmetic::div_mod::lemma_add_mod_noop(
                point_log(a) as int, point_log(b) as int, group_order() as int);
        }
        Self::from_point(&s)
    }

    /// The commitment plus a bare public-key element.
    pub fn add_public_key(&self, pk: &RistrettoPublicKey) -> (r: Self)
        ensures
            r.value() == (self.value() + pk@) % group_order(),
    {
        let a = self.to_point();
        let s = point_add(&a, &pk.point);
        proof {
            vstd::arithmetic::div_mod::lemma_mod_twice(
                point_log(a) as int + point_log(pk.point) as int, group_order() as int);
            vstd::arithmetic::div_mod::lemma_add_mod_noop(
                point_log(a) as int, point_log(pk.point) as int, group_order() as int);
        }
        Self::from_point(&s)
    }

    /// The sum of a sequence of commitments, starting from zero.
    pub fn sum(cs: &Vec<Self>) -> (r: Self)
        ensures
            r.value() == sum_values(cs@),
    {
        let mut acc = Self::zero();
        let mut i: usize = 0;
        while i < cs.len()
            invariant
                i <= cs@.len(),
                acc.value() == sum_values(cs@.take(i as int)),
            decreases cs@.len() - i,
        {
            acc = acc.add(&cs[i]);
            proof {
                let t = cs@.take(i as int + 1);
                assert(t.drop_last() =~= cs@.take(i as int));
            }
            i = i + 1;
        }
        assert(cs@.take(cs@.len() as int) =~= cs@);
        acc
    }

    /// The canonical 32-byte encoding.
    pub fn to_binary(&self) -> (r: Vec<u8>)
        ensures
            r@ == self@,
            decode_binary(r@) == Ok::<Self, FormatError>(*self),
    {
        proof {
            use_type_invariant(self);
            self.lemma_decode_own_encoding();
        }
        let mut out: Vec<u8> = Vec::new();
        let mut i: usize = 0;
        while i < 32
            invariant
                i <= 32,
                out@ == self.bytes@.take(i as int),
            decreases 32 - i,
        {
            out.push(self.bytes[i]);
            i = i + 1;
            assert(out@ =~= self.bytes@.take(i as int));
        }
        assert(self.bytes@.take(32) =~= self.bytes@);
        out
    }

    /// The commitment whose canonical encoding `b` is.
    pub fn from_binary(b: &[u8]) -> (r: Result<Self, FormatError>)
        ensures
            r == decode_binary(b@),
    {
        if b.len() != 32 {
            return Err(FormatError::WrongLength);
        }
        let mut bytes = [0u8; 32];
        let mut i: usize = 0;
        while i < 32
            invariant
                i <= 32,
                b@.len() == 32,
                bytes@.len() == 32,
                forall|j: int| 0 <= j < i ==> bytes@[j] == b@[j],
            decreases 32 - i,
        {
            bytes[i] = b[i];
            i = i + 1;
        }
        assert(bytes@ =~= b@);
        match decompress(&bytes) {
            Some(_) => {
                let c = PedersenCommitment { bytes };
                proof {
                    c.lemma_decode_own_encoding();
                }
                Ok(c)
            },
            None => Err(FormatError::NotAPoint),
        }
    }

    /// The standard base64 text of the canonical encoding.
    pub fn to_base64(&self) -> (r: String)
        ensures
            r@ == base64_of(self@),
            decode_base64(r@) == Ok::<Self, FormatError>(*self),
    {
        proof {
            use_type_invariant(self);
            self.lemma_decode_own_encoding();
        }
        base64_encode(&self.bytes)
    }

    /// The commitment whose canonical encoding `s` is the base64 text of.
    pub fn from_base64(s: &str) -> (r: Result<Self, FormatError>)
        ensures
            r == decode_base64(s@),
    {
        match base64_decode(s) {
            Some(b) => {
                proof {
                    let b2 = choose|b2: Seq<u8>| base64_of(b2) == s@;
                    assert(base64_of(b@) == s@);
                    assert(b2 == b@);
                }
                Self::from_binary(b.as_slice())
            },
            None => Err(FormatError::NotBase64),
        }
    }
}

} // verus!
