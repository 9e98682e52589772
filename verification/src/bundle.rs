//! Per-block proof bundles and their assembly.
//!
//! A block's bundle carries the slot, the block-hash string and one
//! entry per transaction signature, in order of first appearance in the
//! block. The caller persists one bundle per processed slot under a
//! file name keyed by the slot number.

use vstd::prelude::*;

verus! {

/// One entry per transaction signature encountered in a block:
/// the signature string and the serialized proof produced for it.
pub struct TransactionProof {
    pub transaction_hash: String,
    pub proof: String,
}

/// The bundle persisted for one processed slot. Created once, written
/// exactly once, never mutated after persistence.
pub struct BlockProof {
    pub slot: u64,
    pub block_hash: String,
    pub transactions: Vec<TransactionProof>,
}

/// The concatenation of the per-transaction signature lists, in
/// declaration order.
pub open spec fn flatten_lists(lists: Seq<Seq<Seq<char>>>) -> Seq<Seq<char>>
    decreases lists.len(),
{
    if lists.len() == 0 {
        Seq::empty()
    } else {
        flatten_lists(lists.drop_last()) + lists.last()
    }
}

/// Flattens a block's per-transaction signature lists into the order of
/// first appearance: every signature of the first transaction, then of
/// the second, and so on.
pub fn flatten_signatures(lists: &Vec<Vec<String>>) -> (r: Vec<String>)
    ensures
        r.deep_view() == flatten_lists(lists.deep_view()),
{
    let ghost lv = lists.deep_view();
    let mut r: Vec<String> = Vec::new();
    proof {
        assert(r.deep_view() =~= flatten_lists(lv.take(0)));
    }
    let mut i: usize = 0;
    while i < lists.len()
        invariant
            i <= lists@.len(),
            lv == lists.deep_view(),
            r.deep_view() == flatten_lists(lv.take(i as int)),
        decreases lists@.len() - i,
    {
        let row = &lists[i];
        proof {
            assert(lv[i as int] == row.deep_view());
            assert(r.deep_view() =~= flatten_lists(lv.take(i as int)) + row.deep_view().take(0));
        }
        let mut j: usize = 0;
        while j < row.len()
            invariant
                j <= row@.len(),
                i < lists@.len(),
                lv == lists.deep_view(),
                lv[i as int] == row.deep_view(),
                r.deep_view() == flatten_lists(lv.take(i as int)) + row.deep_view().take(j as int),
            decreases row@.len() - j,
        {
            let ghost prev = r.deep_view();
            r.push(row[j].clone());
            proof {
                assert(r.deep_view() =~= prev.push(row@[j as int]@));
                assert(row.deep_view().take(j as int + 1) =~= row.deep_view().take(
                    j as int,
                ).push(row@[j as int]@));
                assert(prev.push(row@[j as int]@) =~= flatten_lists(lv.take(i as int))
                    + row.deep_view().take(j as int + 1));
            }
            j += 1;
        }
        proof {
            assert(row.deep_view().take(row@.len() as int) =~= row.deep_view());
            assert(lv.take(i as int + 1).drop_last() =~= lv.take(i as int));
            assert(lv.take(i as int + 1).last() == lv[i as int]);
            assert(r.deep_view() =~= flatten_lists(lv.take(i as int + 1)));
        }
        i += 1;
    }
    proof {
        assert(lv.take(lists@.len() as int) =~= lv);
    }
    r
}

/// Assembles the bundle for one block: one entry per signature, the
/// signature strings and proof blobs paired up in order.
pub fn assemble_bundle(slot: u64, block_hash: String, hashes: &Vec<String>, proofs: &Vec<String>) -> (b:
    BlockProof)
    requires
        hashes@.len() == proofs@.len(),
    ensures
        b.slot == slot,
        b.block_hash@ == block_hash@,
        b.transactions@.len() == hashes@.len(),
        forall|i: int|
            0 <= i < hashes@.len() ==> #[trigger] b.transactions@[i].transaction_hash@
                == hashes@[i]@ && b.transactions@[i].proof@ == proofs@[i]@,
{
    let mut txs: Vec<TransactionProof> = Vec::new();
    let mut i: usize = 0;
    while i < hashes.len()
        invariant
            i <= hashes@.len(),
            hashes@.len() == proofs@.len(),
            txs@.len() == i,
            forall|k: int|
                0 <= k < i ==> #[trigger] txs@[k].transaction_hash@ == hashes@[k]@
                    && txs@[k].proof@ == proofs@[k]@,
        decreases hashes@.len() - i,
    {
        txs.push(TransactionProof {
            transaction_hash: hashes[i].clone(),
            proof: proofs[i].clone(),
        });
        i += 1;
    }
    BlockProof { slot, block_hash, transactions: txs }
}

/// A decimal digit as a character.
pub open spec fn digit_char(d: nat) -> char {
    ((d + 48) as u8) as char
}

/// The decimal digit characters of a number, most significant first.
pub open spec fn dec_digits(n: nat) -> Seq<char>
    decreases n,
{
    if n < 10 {
        seq![digit_char(n)]
    } else {
        dec_digits(n / 10) + seq![digit_char(n % 10)]
    }
}

/// Appends one decimal digit to a string.
fn append_digit(s: &mut String, d: u64)
    requires
        d < 10,
    ensures
        final(s)@ == old(s)@ + seq![digit_char(d as nat)],
{
    if d == 0 {
        s.append("0");
        proof {
            reveal_strlit("0");
            assert("0"@ =~= seq![digit_char(0)]);
        }
    } else if d == 1 {
        s.append("1");
        proof {
            reveal_strlit("1");
            assert("1"@ =~= seq![digit_char(1)]);
        }
    } else if d == 2 {
        s.append("2");
        proof {
            reveal_strlit("2");
            assert("2"@ =~= seq![digit_char(2)]);
        }
    } else if d == 3 {
        s.append("3");
        proof {
            reveal_strlit("3");
            assert("3"@ =~= seq![digit_char(3)]);
        }
    } else if d == 4 {
        s.append("4");
        proof {
            reveal_strlit("4");
            assert("4"@ =~= seq![digit_char(4)]);
        }
    } else if d == 5 {
        s.append("5");
        proof {
            reveal_strlit("5");
            assert("5"@ =~= seq![digit_char(5)]);
        }
    } else if d == 6 {
        s.append("6");
        proof {
            reveal_strlit("6");
            assert("6"@ =~= seq![digit_char(6)]);
        }
    } else if d == 7 {
        s.append("7");
        proof {
            reveal_strlit("7");
            assert("7"@ =~= seq![digit_char(7)]);
        }
    } else if d == 8 {
        s.append("8");
        proof {
            reveal_strlit("8");
            assert("8"@ =~= seq![digit_char(8)]);
        }
    } else {
        s.append("9");
        proof {
            reveal_strlit("9");
            assert("9"@ =~= seq![digit_char(9)]);
        }
    }
}

/// Appends the decimal rendering of a number to a string.
fn push_dec(s: &mut String, n: u64)
    ensures
        final(s)@ == old(s)@ + dec_digits(n as nat),
    decreases n,
{
    if n < 10 {
        append_digit(s, n);
    } else {
        push_dec(s, n / 10);
        append_digit(s, n % 10);
        proof {
            assert((old(s)@ + dec_digits((n / 10) as nat)) + seq![digit_char((n % 10) as nat)]
                =~= old(s)@ + dec_digits(n as nat));
        }
    }
}

/// The file name a slot's bundle is persisted under.
pub open spec fn spec_file_name(slot: nat) -> Seq<char> {
    "block_proof_"@ + dec_digits(slot) + ".json"@
}

/// Builds the file name a slot's bundle is persisted under. The name is
/// a function of the slot alone, so re-persisting a slot addresses the
/// same file.
pub fn bundle_file_name(slot: u64) -> (r: String)
    ensures
        r@ == spec_file_name(slot as nat),
{
    let mut s = String::from_str("block_proof_");
    push_dec(&mut s, slot);
    s.append(".json");
    proof {
        assert(s@ =~= spec_file_name(slot as nat));
    }
    s
}

/// Law (idempotent persistence): two bundles assembled from the same
/// slot, block hash and signature sequence agree on the slot, the block
/// hash and every transaction hash, whatever proof blobs either run
/// produced — re-persisting a slot overwrites its file with a document
/// identical but for the proofs' random components.
pub proof fn lemma_bundle_determinism(
    a: BlockProof,
    b: BlockProof,
    slot: u64,
    block_hash: Seq<char>,
    hashes: Seq<Seq<char>>,
)
    requires
        a.slot == slot,
        b.slot == slot,
        a.block_hash@ == block_hash,
        b.block_hash@ == block_hash,
        a.transactions@.len() == hashes.len(),
        b.transactions@.len() == hashes.len(),
        forall|i: int|
            0 <= i < hashes.len() ==> #[trigger] a.transactions@[i].transaction_hash@ == hashes[i],
        forall|i: int|
            0 <= i < hashes.len() ==> #[trigger] b.transactions@[i].transaction_hash@ == hashes[i],
    ensures
        a.slot == b.slot,
        a.block_hash@ == b.block_hash@,
        a.transactions@.len() == b.transactions@.len(),
        forall|i: int|
            0 <= i < a.transactions@.len() ==> #[trigger] a.transactions@[i].transaction_hash@
                == b.transactions@[i].transaction_hash@,
{
}

} // verus!
