//! The hash tree roots of the scalar types: a scalar's root is its
//! serialisation, padded with zero bytes to one chunk of 32 bytes.

use crate::encode::SszEncode;
use crate::fixed_bytes::{h256_from_bytes, spec_h256_bytes};
use ethereum_types::H256;
use vstd::prelude::*;

verus! {

/// `bytes` padded with zero bytes to one chunk.
pub open spec fn spec_padded_chunk(bytes: Seq<u8>) -> Seq<u8>
    recommends
        bytes.len() <= 32,
{
    bytes + Seq::new((32 - bytes.len()) as nat, |i: int| 0u8)
}

/// The chunk that holds the serialisation of `v`, padded with zero bytes.
pub fn padded_root<T: SszEncode>(v: &T) -> (r: H256)
    requires
        v.spec_valid(),
        v.spec_ssz().len() <= 32,
    ensures
        spec_h256_bytes(r) == spec_padded_chunk(v.spec_ssz()),
{
    let mut chunk: Vec<u8> = v.to_ssz();
    let ghost written = chunk@;
    while chunk.len() < 32
        invariant
            written.len() <= chunk@.len() <= 32,
            chunk@ =~= written + Seq::new((chunk@.len() - written.len()) as nat, |i: int| 0u8),
        decreases 32 - chunk@.len(),
    {
        chunk.push(0);
    }
    h256_from_bytes(chunk.as_slice())
}

/// A type with a hash tree root.
pub trait SszHash: SszEncode {
    /// The 32 bytes of the root of this value.
    spec fn spec_hash_tree_root(&self) -> Seq<u8>;

    fn hash_tree_root(&self) -> (r: H256)
        requires
            self.spec_valid(),
        ensures
            spec_h256_bytes(r) == self.spec_hash_tree_root(),
    ;
}

impl SszHash for u8 {
    open spec fn spec_hash_tree_root(&self) -> Seq<u8> {
        spec_padded_chunk(self.spec_ssz())
    }

    fn hash_tree_root(&self) -> (r: H256) {
        padded_root(self)
    }
}

impl SszHash for u16 {
    open spec fn spec_hash_tree_root(&self) -> Seq<u8> {
        spec_padded_chunk(self.spec_ssz())
    }

    fn hash_tree_root(&self) -> (r: H256) {
        proof {
            vstd::bytes::lemma_auto_spec_u16_to_from_le_bytes();
        }
        padded_root(self)
    }
}

impl SszHash for u32 {
    open spec fn spec_hash_tree_root(&self) -> Seq<u8> {
        spec_padded_chunk(self.spec_ssz())
    }

    fn hash_tree_root(&self) -> (r: H256) {
        proof {
            vstd::bytes::lemma_auto_spec_u32_to_from_le_bytes();
        }
        padded_root(self)
    }
}

impl SszHash for u64 {
    open spec fn spec_hash_tree_root(&self) -> Seq<u8> {
        spec_padded_chunk(self.spec_ssz())
    }

    fn hash_tree_root(&self) -> (r: H256) {
        proof {
            vstd::bytes::lemma_auto_spec_u64_to_from_le_bytes();
        }
        padded_root(self)
    }
}

impl SszHash for u128 {
    open spec fn spec_hash_tree_root(&self) -> Seq<u8> {
        spec_padded_chunk(self.spec_ssz())
    }

    fn hash_tree_root(&self) -> (r: H256) {
        proof {
            vstd::bytes::lemma_auto_spec_u128_to_from_le_bytes();
        }
        padded_root(self)
    }
}

impl SszHash for bool {
    open spec fn spec_hash_tree_root(&self) -> Seq<u8> {
        spec_padded_chunk(self.spec_ssz())
    }

    fn hash_tree_root(&self) -> (r: H256) {
        padded_root(self)
    }
}

} // verus!
