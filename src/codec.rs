//! Stored form of a vector: bincode's fixed-width layout of a sequence of
//! 32-bit words, a little-endian `u64` length followed by each word in
//! little-endian order.
use vstd::bytes::{
    lemma_auto_spec_u32_to_from_le_bytes, lemma_auto_spec_u64_to_from_le_bytes,
    spec_u32_to_le_bytes, spec_u64_to_le_bytes,
};
use vstd::prelude::*;

verus! {

/// An embedding vector. Each component is the IEEE-754 bit pattern of a
/// single-precision float, so equality of vectors is bit-exact.
pub struct Vector {
    pub vector: Vec<u32>,
}

impl View for Vector {
    type V = Seq<u32>;

    open spec fn view(&self) -> Seq<u32> {
        self.vector@
    }
}

/// The little-endian bytes of each component, in order.
pub open spec fn component_bytes(s: Seq<u32>) -> Seq<u8>
    decreases s.len(),
{
    if s.len() == 0 {
        Seq::empty()
    } else {
        component_bytes(s.drop_last()) + spec_u32_to_le_bytes(s.last())
    }
}

/// The bytes stored for a vector: its length as a little-endian `u64`, then
/// its components.
pub open spec fn encoding(s: Seq<u32>) -> Seq<u8> {
    spec_u64_to_le_bytes(s.len() as u64) + component_bytes(s)
}

/// The vector that stored bytes hold, if they begin with the encoding of one.
pub open spec fn decoded(b: Seq<u8>) -> Option<Seq<u32>> {
    if exists|s: Seq<u32>| #[trigger] encoding(s).is_prefix_of(b) {
        Some(choose|s: Seq<u32>| #[trigger] encoding(s).is_prefix_of(b))
    } else {
        None
    }
}

proof fn lemma_component_bytes_len(s: Seq<u32>)
    ensures
        component_bytes(s).len() == 4 * s.len(),
    decreases s.len(),
{
    lemma_auto_spec_u32_to_from_le_bytes();
    if s.len() > 0 {
        lemma_component_bytes_len(s.drop_last());
    }
}

proof fn lemma_component_bytes_at(s: Seq<u32>, i: int)
    requires
        0 <= i < s.len(),
    ensures
        component_bytes(s).subrange(4 * i, 4 * i + 4) == spec_u32_to_le_bytes(s[i]),
    decreases s.len(),
{
    lemma_auto_spec_u32_to_from_le_bytes();
    lemma_component_bytes_len(s.drop_last());
    if i < s.len() - 1 {
        lemma_component_bytes_at(s.drop_last(), i);
        assert(component_bytes(s).subrange(4 * i, 4 * i + 4) =~= component_bytes(
            s.drop_last(),
        ).subrange(4 * i, 4 * i + 4));
    } else {
        assert(component_bytes(s).subrange(4 * i, 4 * i + 4) =~= spec_u32_to_le_bytes(s.last()));
    }
}

proof fn lemma_component_bytes_injective(a: Seq<u32>, b: Seq<u32>)
    requires
        a.len() == b.len(),
        component_bytes(a) == component_bytes(b),
    ensures
        a == b,
{
    lemma_auto_spec_u32_to_from_le_bytes();
    assert forall|i: int| 0 <= i < a.len() implies a[i] == b[i] by {
        lemma_component_bytes_at(a, i);
        lemma_component_bytes_at(b, i);
        assert(spec_u32_to_le_bytes(a[i]) == spec_u32_to_le_bytes(b[i]));
        assert(spec_u32_to_le_bytes(a[i]).len() == 4);
        assert(spec_u32_to_le_bytes(b[i]).len() == 4);
    }
    assert(a =~= b);
}

proof fn lemma_encoding_len(s: Seq<u32>)
    ensures
        encoding(s).len() == 8 + 4 * s.len(),
{
    lemma_auto_spec_u64_to_from_le_bytes();
    lemma_component_bytes_len(s);
}

/// Bytes begin with the encoding of at most one vector.
proof fn lemma_prefix_unique(a: Seq<u32>, b: Seq<u32>, bytes: Seq<u8>)
    requires
        bytes.len() <= usize::MAX,
        encoding(a).is_prefix_of(bytes),
        encoding(b).is_prefix_of(bytes),
    ensures
        a == b,
{
    lemma_auto_spec_u64_to_from_le_bytes();
    lemma_encoding_len(a);
    lemma_encoding_len(b);
    assert(encoding(a).subrange(0, 8) =~= spec_u64_to_le_bytes(a.len() as u64));
    assert(encoding(b).subrange(0, 8) =~= spec_u64_to_le_bytes(b.len() as u64));
    assert(encoding(a).subrange(0, 8) =~= bytes.subrange(0, 8));
    assert(encoding(b).subrange(0, 8) =~= bytes.subrange(0, 8));
    assert(a.len() == b.len());
    assert(encoding(a) =~= encoding(b));
    assert(component_bytes(a) =~= encoding(a).subrange(8, encoding(a).len() as int));
    assert(component_bytes(b) =~= encoding(b).subrange(8, encoding(b).len() as int));
    lemma_component_bytes_injective(a, b);
}

/// Writing then reading is exact: the bytes stored for a vector decode to
/// that same vector, bit for bit.
pub proof fn lemma_write_read_round_trip(v: Seq<u32>)
    requires
        8 + 4 * v.len() <= usize::MAX,
    ensures
        decoded(encoding(v)) == Some(v),
{
    lemma_encoding_len(v);
    assert(encoding(v).is_prefix_of(encoding(v)));
    let s = choose|s: Seq<u32>| #[trigger] encoding(s).is_prefix_of(encoding(v));
    lemma_prefix_unique(s, v, encoding(v));
}

/// bincode's error kind, carried in the wrappers' results and never inspected.
#[verifier::external_type_specification]
#[verifier::external_body]
pub struct ExErrorKind(bincode::ErrorKind);

/// Relies on `bincode::serialize` (bincode 1, fixed-width little-endian
/// integers): a `Vec<u32>` becomes its length as a `u64` and then each word.
/// Writing into a growable buffer with no size limit cannot fail, and a `Vec`
/// always reports its length.
#[verifier::external_body]
fn bincode_serialize(v: &Vec<u32>) -> (r: Result<Vec<u8>, Box<bincode::ErrorKind>>)
    ensures
        r is Ok,
        r matches Ok(b) ==> b@ == encoding(v@),
{
    bincode::serialize(v)
}

/// Relies on `bincode::deserialize` (bincode 1, fixed-width little-endian
/// integers, trailing bytes allowed): it succeeds exactly when the bytes begin
/// with an encoded `Vec<u32>`, and returns that one.
#[verifier::external_body]
fn bincode_deserialize(b: &[u8]) -> (r: Result<Vec<u32>, Box<bincode::ErrorKind>>)
    ensures
        r is Ok <==> exists|s: Seq<u32>| #[trigger] encoding(s).is_prefix_of(b@),
        r matches Ok(v) ==> encoding(v@).is_prefix_of(b@),
{
    bincode::deserialize(b)
}

/// The bytes under which a vector is stored.
pub fn encode_vector(v: &Vector) -> (r: Vec<u8>)
    ensures
        r@ == encoding(v@),
{
    match bincode_serialize(&v.vector) {
        Ok(b) => b,
        Err(_) => {
            proof {
                assert(false);
            }
            Vec::new()
        },
    }
}

/// The vector that stored bytes hold, or `None` where they hold none.
pub fn decode_vector(b: &[u8]) -> (r: Option<Vector>)
    ensures
        match r {
            Some(v) => decoded(b@) == Some(v@),
            None => decoded(b@) is None,
        },
{
    let n: usize = b.len();
    match bincode_deserialize(b) {
        Ok(v) => {
            proof {
                assert(b@.len() == n);
                let s = choose|s: Seq<u32>| #[trigger] encoding(s).is_prefix_of(b@);
                lemma_prefix_unique(s, v@, b@);
            }
            Some(Vector { vector: v })
        },
        Err(_) => None,
    }
}

} // verus!
