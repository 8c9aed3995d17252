//! Document sessions: an in-memory document bound to a document id, whose
//! metadata is changed through transactions. A committed transaction yields a
//! binary update fragment; replaying a document's stored fragments in order
//! reconstructs its metadata.

use crate::codec::{
    decode_ops, encode_ops, pairs_view, spec_decode, spec_encode_ops,
};
use vstd::prelude::*;
use vstd::slice::slice_to_vec;

verus! {

/// Applies metadata assignments to a metadata map, in order; a later
/// assignment to the same key overrides an earlier one.
pub open spec fn spec_apply_ops(
    m: Map<Seq<u8>, Seq<u8>>,
    ops: Seq<(Seq<u8>, Seq<u8>)>,
) -> Map<Seq<u8>, Seq<u8>>
    decreases ops.len(),
{
    if ops.len() == 0 {
        m
    } else {
        spec_apply_ops(m.insert(ops[0].0, ops[0].1), ops.drop_first())
    }
}

/// Replays fragments in storage order onto a metadata map; fails when some
/// fragment is not a valid encoding.
pub open spec fn spec_replay(
    m: Map<Seq<u8>, Seq<u8>>,
    fragments: Seq<Seq<u8>>,
) -> Option<Map<Seq<u8>, Seq<u8>>>
    decreases fragments.len(),
{
    if fragments.len() == 0 {
        Some(m)
    } else {
        match spec_decode(fragments[0]) {
            Some(ops) => spec_replay(spec_apply_ops(m, ops), fragments.drop_first()),
            None => None,
        }
    }
}

/// The last value assigned to a key by a list of assignments, if any.
pub open spec fn spec_lookup(ops: Seq<(Seq<u8>, Seq<u8>)>, key: Seq<u8>) -> Option<Seq<u8>>
    decreases ops.len(),
{
    if ops.len() == 0 {
        None
    } else if ops.last().0 == key {
        Some(ops.last().1)
    } else {
        spec_lookup(ops.drop_last(), key)
    }
}

/// A later assignment wins: applying `ops` and then one more assignment is
/// applying `ops` and overriding that one key.
pub proof fn lemma_apply_push(m: Map<Seq<u8>, Seq<u8>>, ops: Seq<(Seq<u8>, Seq<u8>)>, p: (
    Seq<u8>,
    Seq<u8>,
))
    ensures
        spec_apply_ops(m, ops.push(p)) == spec_apply_ops(m, ops).insert(p.0, p.1),
    decreases ops.len(),
{
    if ops.len() == 0 {
        assert(ops.push(p)[0] == p);
        assert(ops.push(p).drop_first() =~= Seq::<(Seq<u8>, Seq<u8>)>::empty());
        assert(spec_apply_ops(m, ops.push(p)) == spec_apply_ops(m.insert(p.0, p.1), ops.push(
            p,
        ).drop_first()));
    } else {
        assert(ops.push(p).drop_first() =~= ops.drop_first().push(p));
        lemma_apply_push(m.insert(ops[0].0, ops[0].1), ops.drop_first(), p);
    }
}

/// Applying two batches of assignments one after the other is applying their
/// concatenation.
pub proof fn lemma_apply_concat(
    m: Map<Seq<u8>, Seq<u8>>,
    ops1: Seq<(Seq<u8>, Seq<u8>)>,
    ops2: Seq<(Seq<u8>, Seq<u8>)>,
)
    ensures
        spec_apply_ops(m, ops1 + ops2) == spec_apply_ops(spec_apply_ops(m, ops1), ops2),
    decreases ops1.len(),
{
    if ops1.len() == 0 {
        assert(ops1 + ops2 =~= ops2);
    } else {
        assert((ops1 + ops2)[0] == ops1[0]);
        assert((ops1 + ops2).drop_first() =~= ops1.drop_first() + ops2);
        lemma_apply_concat(m.insert(ops1[0].0, ops1[0].1), ops1.drop_first(), ops2);
    }
}

/// What a key maps to after applying assignments: the last value assigned to
/// it, or what the starting map held when none assigns it.
pub proof fn lemma_lookup_apply(
    m: Map<Seq<u8>, Seq<u8>>,
    ops: Seq<(Seq<u8>, Seq<u8>)>,
    key: Seq<u8>,
)
    ensures
        spec_apply_ops(m, ops).contains_key(key) <==> (m.contains_key(key) || spec_lookup(
            ops,
            key,
        ) is Some),
        match spec_lookup(ops, key) {
            Some(v) => spec_apply_ops(m, ops).contains_key(key) && spec_apply_ops(m, ops)[key]
                == v,
            None => m.contains_key(key) ==> spec_apply_ops(m, ops)[key] == m[key],
        },
    decreases ops.len(),
{
    if ops.len() == 0 {
    } else {
        let front = ops.drop_last();
        let p = ops.last();
        assert(ops =~= front.push(p));
        lemma_apply_push(m, front, p);
        lemma_lookup_apply(m, front, key);
    }
}

/// Round trip through the store: replaying one encoded fragment yields the
/// metadata that the encoded assignments produce. With `spec_replay`'s
/// recursion this extends to any sequence of encoded fragments, so a
/// document written as fragments and read back replays to the same state.
pub proof fn lemma_replay_of_encoded_fragment(
    m: Map<Seq<u8>, Seq<u8>>,
    ops: Seq<(Seq<u8>, Seq<u8>)>,
)
    requires
        ops.len() <= u64::MAX,
        forall|i: int|
            0 <= i < ops.len() ==> ops[i].0.len() <= u64::MAX && ops[i].1.len() <= u64::MAX,
    ensures
        spec_replay(m, seq![spec_encode_ops(ops)]) == Some(spec_apply_ops(m, ops)),
{
    crate::codec::lemma_decode_of_encode(ops);
    let fragments = seq![spec_encode_ops(ops)];
    assert(fragments[0] == spec_encode_ops(ops));
    assert(spec_decode(fragments[0]) == Some(ops));
    assert(fragments.drop_first() =~= Seq::<Seq<u8>>::empty());
    assert(spec_replay(spec_apply_ops(m, ops), fragments.drop_first()) == Some(
        spec_apply_ops(m, ops),
    ));
}

/// An in-memory document bound to a document id. Its metadata map is the
/// result of replaying, in order, every assignment it has received.
pub struct Document {
    id: String,
    metadata: Vec<(Vec<u8>, Vec<u8>)>,
}

/// A pending set of metadata assignments, applied all at once on commit and
/// discarded whole when dropped instead.
pub struct Transaction {
    ops: Vec<(Vec<u8>, Vec<u8>)>,
}

impl Transaction {
    /// The assignments collected so far, in the order they were made.
    pub closed spec fn ops_seq(self) -> Seq<(Seq<u8>, Seq<u8>)> {
        pairs_view(self.ops@)
    }

    /// Starts an empty transaction.
    pub fn new() -> (t: Transaction)
        ensures
            t.ops_seq() == Seq::<(Seq<u8>, Seq<u8>)>::empty(),
    {
        let t = Transaction { ops: Vec::new() };
        proof {
            assert(t.ops_seq() =~= Seq::<(Seq<u8>, Seq<u8>)>::empty());
        }
        t
    }

    /// Records one metadata assignment. Within a transaction the last
    /// assignment to a key wins when the transaction is applied.
    pub fn set_metadata(&mut self, key: Vec<u8>, value: Vec<u8>)
        ensures
            final(self).ops_seq() == old(self).ops_seq().push((key@, value@)),
    {
        self.ops.push((key, value));
        proof {
            assert(final(self).ops_seq() =~= old(self).ops_seq().push((key@, value@)));
        }
    }
}

impl Document {
    /// The document id this session is bound to.
    pub closed spec fn id_chars(self) -> Seq<char> {
        self.id@
    }

    /// Every metadata assignment applied to this document, in order.
    pub closed spec fn entries(self) -> Seq<(Seq<u8>, Seq<u8>)> {
        pairs_view(self.metadata@)
    }

    /// The current metadata map: the assignments replayed onto an empty map.
    pub closed spec fn meta(self) -> Map<Seq<u8>, Seq<u8>> {
        spec_apply_ops(Map::<Seq<u8>, Seq<u8>>::empty(), self.entries())
    }

    /// Allocates an in-memory document bound to `doc_id`, with no metadata;
    /// no storage side effect.
    pub fn new(doc_id: String) -> (d: Document)
        ensures
            d.id_chars() == doc_id@,
            d.entries() == Seq::<(Seq<u8>, Seq<u8>)>::empty(),
            d.meta() == Map::<Seq<u8>, Seq<u8>>::empty(),
    {
        let d = Document { id: doc_id, metadata: Vec::new() };
        proof {
            assert(d.entries() =~= Seq::<(Seq<u8>, Seq<u8>)>::empty());
        }
        d
    }

    /// Applies a batch of decoded assignments to the metadata, in order.
    pub fn apply(&mut self, ops: Vec<(Vec<u8>, Vec<u8>)>)
        ensures
            final(self).id_chars() == old(self).id_chars(),
            final(self).entries() == old(self).entries() + pairs_view(ops@),
            final(self).meta() == spec_apply_ops(old(self).meta(), pairs_view(ops@)),
    {
        let ghost ops_v = pairs_view(ops@);
        let mut ops = ops;
        self.metadata.append(&mut ops);
        proof {
            assert(final(self).entries() =~= old(self).entries() + ops_v);
            lemma_apply_concat(Map::<Seq<u8>, Seq<u8>>::empty(), old(self).entries(), ops_v);
        }
    }

    /// Applies a whole transaction at once and returns the binary update
    /// fragment that represents it; decoding the fragment gives back exactly
    /// the transaction's assignments.
    pub fn commit(&mut self, transaction: Transaction) -> (fragment: Vec<u8>)
        ensures
            final(self).id_chars() == old(self).id_chars(),
            final(self).entries() == old(self).entries() + transaction.ops_seq(),
            final(self).meta() == spec_apply_ops(old(self).meta(), transaction.ops_seq()),
            fragment@ == spec_encode_ops(transaction.ops_seq()),
            spec_decode(fragment@) == Some(transaction.ops_seq()),
    {
        let ops = transaction.ops;
        let fragment = encode_ops(&ops);
        self.apply(ops);
        fragment
    }

    /// Serializes the document's full assignment history as one fragment;
    /// replaying that single fragment yields this document's metadata.
    pub fn snapshot(&self) -> (r: Vec<u8>)
        ensures
            r@ == spec_encode_ops(self.entries()),
            spec_decode(r@) == Some(self.entries()),
    {
        encode_ops(&self.metadata)
    }

    /// Decodes a stored fragment and applies its assignments; reports whether
    /// the fragment was a valid encoding, and applies nothing when it is not.
    pub fn apply_fragment(&mut self, fragment: &[u8]) -> (ok: bool)
        ensures
            final(self).id_chars() == old(self).id_chars(),
            ok == (spec_decode(fragment@) is Some),
            ok ==> final(self).meta() == spec_apply_ops(
                old(self).meta(),
                spec_decode(fragment@)->Some_0,
            ),
            !ok ==> *final(self) == *old(self),
    {
        match decode_ops(fragment) {
            Some(ops) => {
                self.apply(ops);
                true
            },
            None => false,
        }
    }

    /// Reconstructs a document from its stored fragment sequence by replaying
    /// each fragment in storage order; fails when some fragment is not a
    /// valid encoding.
    pub fn replay(doc_id: String, fragments: &Vec<Vec<u8>>) -> (r: Option<Document>)
        ensures
            match r {
                Some(d) => spec_replay(
                    Map::<Seq<u8>, Seq<u8>>::empty(),
                    crate::store::blob_seq(fragments@),
                ) == Some(d.meta()) && d.id_chars() == doc_id@,
                None => spec_replay(
                    Map::<Seq<u8>, Seq<u8>>::empty(),
                    crate::store::blob_seq(fragments@),
                ) is None,
            },
    {
        let ghost frags = crate::store::blob_seq(fragments@);
        let mut d = Document::new(doc_id);
        proof {
            assert(frags.skip(0) =~= frags);
        }
        let mut i: usize = 0;
        while i < fragments.len()
            invariant
                frags == crate::store::blob_seq(fragments@),
                frags.len() == fragments@.len(),
                i <= fragments@.len(),
                d.id_chars() == doc_id@,
                spec_replay(Map::<Seq<u8>, Seq<u8>>::empty(), frags) == spec_replay(
                    d.meta(),
                    frags.skip(i as int),
                ),
            decreases fragments@.len() - i,
        {
            let ghost before = d.meta();
            let ok = d.apply_fragment(fragments[i].as_slice());
            proof {
                assert(frags.skip(i as int)[0] == frags[i as int]);
                assert(frags[i as int] == fragments@[i as int]@);
                assert(frags.skip(i as int).drop_first() =~= frags.skip(i as int + 1));
            }
            if !ok {
                return None;
            }
            i += 1;
        }
        proof {
            assert(frags.skip(frags.len() as int) =~= Seq::<Seq<u8>>::empty());
        }
        Some(d)
    }

    /// Looks a key up in the current metadata map.
    pub fn get_metadata(&self, key: &[u8]) -> (r: Option<Vec<u8>>)
        ensures
            match r {
                Some(v) => self.meta().contains_key(key@) && self.meta()[key@] == v@,
                None => !self.meta().contains_key(key@),
            },
    {
        let mut i: usize = self.metadata.len();
        proof {
            assert(self.entries().take(i as int) =~= self.entries());
        }
        while i > 0
            invariant
                i <= self.metadata@.len(),
                self.entries().len() == self.metadata@.len(),
                spec_lookup(self.entries(), key@) == spec_lookup(
                    self.entries().take(i as int),
                    key@,
                ),
            decreases i,
        {
            i -= 1;
            let ghost prefix = self.entries().take(i as int + 1);
            proof {
                assert(prefix.last() == self.entries()[i as int]);
                assert(prefix.drop_last() =~= self.entries().take(i as int));
            }
            if crate::codec::bytes_eq(self.metadata[i].0.as_slice(), key) {
                let v = slice_to_vec(self.metadata[i].1.as_slice());
                proof {
                    lemma_lookup_apply(Map::<Seq<u8>, Seq<u8>>::empty(), self.entries(), key@);
                }
                return Some(v);
            }
        }
        proof {
            assert(self.entries().take(0) =~= Seq::<(Seq<u8>, Seq<u8>)>::empty());
            lemma_lookup_apply(Map::<Seq<u8>, Seq<u8>>::empty(), self.entries(), key@);
        }
        None
    }
}

} // verus!
