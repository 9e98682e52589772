//! The commitment relation of the block circuit.
//!
//! For a block with transaction encodings `t_1 … t_n`, the circuit
//! computes the SHA-256 digest of the concatenation of their canonical
//! representations, reads it as a field representation with the same
//! fallback to the additive identity as the encoder, and constrains the
//! supplied block commitment to equal that value. The value computed
//! here is exactly the value the constraint is enforced against.

use vstd::prelude::*;
use crate::digest::{sha256, sha256_of};
use crate::field::{FieldElement, from_canonical, is_canonical, spec_canonical, zero_element, zero_repr};

verus! {

/// The concatenation of a sequence of byte sequences, in order.
pub open spec fn concat_reprs(rs: Seq<Seq<u8>>) -> Seq<u8>
    decreases rs.len(),
{
    if rs.len() == 0 {
        Seq::empty()
    } else {
        concat_reprs(rs.drop_last()) + rs.last()
    }
}

/// The representations of a sequence of field elements.
pub open spec fn views_of(elems: Seq<FieldElement>) -> Seq<Seq<u8>> {
    elems.map_values(|e: FieldElement| e@)
}

/// The commitment over a sequence of representations: the SHA-256
/// digest of their concatenation when canonical, the additive identity
/// otherwise.
pub open spec fn spec_commitment(rs: Seq<Seq<u8>>) -> Seq<u8> {
    let d = sha256_of(concat_reprs(rs));
    if spec_canonical(d) {
        d
    } else {
        zero_repr()
    }
}

/// Computes the commitment the circuit enforces over the given
/// transaction encodings.
pub fn commitment(elems: &Vec<FieldElement>) -> (r: FieldElement)
    ensures
        r@ == spec_commitment(views_of(elems@)),
        r.wf(),
{
    let mut data: Vec<u8> = Vec::new();
    proof {
        assert(data@ =~= concat_reprs(views_of(elems@).take(0)));
    }
    let mut i: usize = 0;
    while i < elems.len()
        invariant
            i <= elems@.len(),
            data@ == concat_reprs(views_of(elems@).take(i as int)),
        decreases elems@.len() - i,
    {
        let rb = elems[i].repr_bytes();
        proof {
            assert(data@ =~= concat_reprs(views_of(elems@).take(i as int)) + rb@.take(0));
        }
        let mut j: usize = 0;
        while j < rb.len()
            invariant
                j <= rb@.len(),
                i < elems@.len(),
                rb@ == elems@[i as int]@,
                data@ == concat_reprs(views_of(elems@).take(i as int)) + rb@.take(j as int),
            decreases rb@.len() - j,
        {
            data.push(rb[j]);
            proof {
                let c = concat_reprs(views_of(elems@).take(i as int));
                assert(rb@.take(j as int + 1) =~= rb@.take(j as int).push(rb@[j as int]));
                assert((c + rb@.take(j as int)).push(rb@[j as int]) =~= c + rb@.take(j as int + 1));
            }
            j += 1;
        }
        proof {
            let vs = views_of(elems@);
            assert(vs.take(i as int + 1).drop_last() =~= vs.take(i as int));
            assert(vs.take(i as int + 1).last() == elems@[i as int]@);
            assert(rb@.take(rb@.len() as int) =~= rb@);
            assert(data@ =~= concat_reprs(vs.take(i as int + 1)));
        }
        i += 1;
    }
    proof {
        assert(views_of(elems@).take(elems@.len() as int) =~= views_of(elems@));
    }
    let d = sha256(data.as_slice());
    if is_canonical(&d) {
        from_canonical(d)
    } else {
        zero_element()
    }
}

/// Law: the commitment is deterministic. Two commitments over the same
/// representations are one and the same value.
pub proof fn lemma_commitment_deterministic(a: FieldElement, b: FieldElement, rs: Seq<Seq<u8>>)
    requires
        a@ == spec_commitment(rs),
        b@ == spec_commitment(rs),
    ensures
        a@ == b@,
{
}

} // verus!
