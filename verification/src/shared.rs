//! A shared value serialises as the value it points to.

use crate::encode::{SszEncode, SszLayout};
use std::sync::Arc;
use vstd::prelude::*;

verus! {

impl<T: SszLayout> SszLayout for Arc<T> {
    type V = T::V;

    open spec fn spec_model(&self) -> T::V {
        (**self).spec_model()
    }

    open spec fn spec_valid(&self) -> bool {
        (**self).spec_valid()
    }

    open spec fn spec_is_static() -> bool {
        T::spec_is_static()
    }

    open spec fn spec_fixed_len() -> usize {
        T::spec_fixed_len()
    }

    proof fn lemma_dynamic_slot() {
        T::lemma_dynamic_slot();
    }

    open spec fn spec_max_len() -> usize {
        T::spec_max_len()
    }
}

impl<T: SszEncode> SszEncode for Arc<T> {
    open spec fn spec_ssz(&self) -> Seq<u8> {
        (**self).spec_ssz()
    }

    proof fn lemma_fixed_len(&self) {
        (**self).lemma_fixed_len();
    }

    proof fn lemma_max_len(&self) {
        (**self).lemma_max_len();
    }

    fn is_ssz_static() -> bool {
        T::is_ssz_static()
    }

    fn ssz_fixed_len() -> usize {
        T::ssz_fixed_len()
    }

    fn ssz_max_len() -> usize {
        T::ssz_max_len()
    }

    fn ssz_bytes_len(&self) -> usize {
        (**self).ssz_bytes_len()
    }

    fn ssz_write_fixed(&self, offset: &mut usize, buf: &mut Vec<u8>) {
        (**self).ssz_write_fixed(offset, buf);
    }

    fn ssz_write_variable(&self, buf: &mut Vec<u8>) {
        (**self).ssz_write_variable(buf);
    }

    fn ssz_write(&self, buf: &mut Vec<u8>) {
        (**self).ssz_write(buf);
    }
}

} // verus!
