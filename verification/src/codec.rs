//! Binary encoding of metadata update fragments.
//!
//! A fragment is a sequence of metadata assignments, each a key paired with a
//! value, both byte strings. The wire form is a little-endian `u64` count
//! followed by each assignment as a length-prefixed key and a length-prefixed
//! value. Decoding inverts encoding exactly, so replaying a stored fragment
//! reconstructs the assignments that produced it.

use vstd::bytes::{
    lemma_auto_spec_u64_to_from_le_bytes, spec_u64_from_le_bytes, spec_u64_to_le_bytes,
    u64_from_le_bytes, u64_to_le_bytes,
};
use vstd::prelude::*;
use vstd::slice::{slice_subrange, slice_to_vec};

verus! {

/// The mathematical view of one executable key/value pair.
pub open spec fn pair_view(p: (Vec<u8>, Vec<u8>)) -> (Seq<u8>, Seq<u8>) {
    (p.0@, p.1@)
}

/// The mathematical view of a sequence of executable key/value pairs.
pub open spec fn pairs_view(ps: Seq<(Vec<u8>, Vec<u8>)>) -> Seq<(Seq<u8>, Seq<u8>)> {
    ps.map_values(|p: (Vec<u8>, Vec<u8>)| pair_view(p))
}

/// Wire form of one assignment: length-prefixed key, length-prefixed value.
pub open spec fn spec_encode_pair(p: (Seq<u8>, Seq<u8>)) -> Seq<u8> {
    spec_u64_to_le_bytes(p.0.len() as u64) + p.0 + spec_u64_to_le_bytes(p.1.len() as u64) + p.1
}

/// Wire form of the assignments themselves, in order, without the count.
pub open spec fn spec_encode_pairs(ps: Seq<(Seq<u8>, Seq<u8>)>) -> Seq<u8>
    decreases ps.len(),
{
    if ps.len() == 0 {
        Seq::<u8>::empty()
    } else {
        spec_encode_pair(ps[0]) + spec_encode_pairs(ps.drop_first())
    }
}

/// Wire form of a whole fragment: the count, then the assignments.
pub open spec fn spec_encode_ops(ps: Seq<(Seq<u8>, Seq<u8>)>) -> Seq<u8> {
    spec_u64_to_le_bytes(ps.len() as u64) + spec_encode_pairs(ps)
}

/// Parses exactly `n` assignments, requiring that they use up all of `bytes`.
pub open spec fn spec_decode_pairs(bytes: Seq<u8>, n: nat) -> Option<Seq<(Seq<u8>, Seq<u8>)>>
    decreases n,
{
    if n == 0 {
        if bytes.len() == 0 {
            Some(Seq::<(Seq<u8>, Seq<u8>)>::empty())
        } else {
            None
        }
    } else if bytes.len() < 8 {
        None
    } else {
        let klen = spec_u64_from_le_bytes(bytes.take(8)) as int;
        if bytes.len() < 8 + klen {
            None
        } else {
            let k = bytes.subrange(8, 8 + klen);
            let rest1 = bytes.skip(8 + klen);
            if rest1.len() < 8 {
                None
            } else {
                let vlen = spec_u64_from_le_bytes(rest1.take(8)) as int;
                if rest1.len() < 8 + vlen {
                    None
                } else {
                    let v = rest1.subrange(8, 8 + vlen);
                    let rest2 = rest1.skip(8 + vlen);
                    match spec_decode_pairs(rest2, (n - 1) as nat) {
                        Some(tail) => Some(seq![(k, v)] + tail),
                        None => None,
                    }
                }
            }
        }
    }
}

/// Parses a whole fragment: the count, then exactly that many assignments.
pub open spec fn spec_decode(bytes: Seq<u8>) -> Option<Seq<(Seq<u8>, Seq<u8>)>> {
    if bytes.len() < 8 {
        None
    } else {
        spec_decode_pairs(bytes.skip(8), spec_u64_from_le_bytes(bytes.take(8)) as nat)
    }
}

/// Encoding a list of assignments and parsing the result gives the list back.
pub proof fn lemma_decode_pairs_of_encode(ps: Seq<(Seq<u8>, Seq<u8>)>)
    requires
        forall|i: int|
            0 <= i < ps.len() ==> ps[i].0.len() <= u64::MAX && ps[i].1.len() <= u64::MAX,
    ensures
        spec_decode_pairs(spec_encode_pairs(ps), ps.len() as nat) == Some(ps),
    decreases ps.len(),
{
    lemma_auto_spec_u64_to_from_le_bytes();
    if ps.len() == 0 {
        assert(spec_encode_pairs(ps).len() == 0);
        assert(spec_decode_pairs(spec_encode_pairs(ps), 0) == Some(ps));
    } else {
        let p = ps[0];
        let k = p.0;
        let v = p.1;
        let klb = spec_u64_to_le_bytes(k.len() as u64);
        let vlb = spec_u64_to_le_bytes(v.len() as u64);
        let head = spec_encode_pair(p);
        let tail = spec_encode_pairs(ps.drop_first());
        let bytes = spec_encode_pairs(ps);
        assert(bytes == head + tail);
        assert(head.len() == 8 + k.len() + 8 + v.len());
        assert(bytes.take(8) =~= klb);
        assert(spec_u64_from_le_bytes(bytes.take(8)) == k.len());
        assert(bytes.len() >= 8 + k.len());
        assert(bytes.subrange(8, 8 + k.len() as int) =~= k);
        let rest1 = bytes.skip(8 + k.len() as int);
        assert(rest1 =~= vlb + v + tail);
        assert(rest1.take(8) =~= vlb);
        assert(spec_u64_from_le_bytes(rest1.take(8)) == v.len());
        assert(rest1.len() >= 8 + v.len());
        assert(rest1.subrange(8, 8 + v.len() as int) =~= v);
        let rest2 = rest1.skip(8 + v.len() as int);
        assert(rest2 =~= tail);
        lemma_decode_pairs_of_encode(ps.drop_first());
        assert(spec_decode_pairs(rest2, ps.drop_first().len() as nat) == Some(ps.drop_first()));
        assert(seq![(k, v)] + ps.drop_first() =~= ps);
    }
}

/// Round trip for whole fragments: decoding an encoded fragment returns
/// exactly the assignments that were encoded.
pub proof fn lemma_decode_of_encode(ps: Seq<(Seq<u8>, Seq<u8>)>)
    requires
        ps.len() <= u64::MAX,
        forall|i: int|
            0 <= i < ps.len() ==> ps[i].0.len() <= u64::MAX && ps[i].1.len() <= u64::MAX,
    ensures
        spec_decode(spec_encode_ops(ps)) == Some(ps),
{
    lemma_auto_spec_u64_to_from_le_bytes();
    let bytes = spec_encode_ops(ps);
    let clb = spec_u64_to_le_bytes(ps.len() as u64);
    assert(bytes.take(8) =~= clb);
    assert(spec_u64_from_le_bytes(bytes.take(8)) == ps.len());
    assert(bytes.skip(8) =~= spec_encode_pairs(ps));
    lemma_decode_pairs_of_encode(ps);
}

/// Appending one assignment extends the byte form by that assignment's bytes.
proof fn lemma_encode_pairs_push(ps: Seq<(Seq<u8>, Seq<u8>)>, p: (Seq<u8>, Seq<u8>))
    ensures
        spec_encode_pairs(ps.push(p)) == spec_encode_pairs(ps) + spec_encode_pair(p),
    decreases ps.len(),
{
    if ps.len() == 0 {
        let single = ps.push(p);
        assert(single[0] == p);
        assert(single.drop_first() =~= Seq::<(Seq<u8>, Seq<u8>)>::empty());
        assert(spec_encode_pairs(single.drop_first()) =~= Seq::<u8>::empty());
        assert(spec_encode_pairs(single) =~= spec_encode_pair(p) + Seq::<u8>::empty());
        assert(spec_encode_pair(p) + Seq::<u8>::empty() =~= spec_encode_pair(p));
        assert(spec_encode_pairs(ps) + spec_encode_pair(p) =~= spec_encode_pair(p));
    } else {
        assert(ps.push(p).drop_first() =~= ps.drop_first().push(p));
        lemma_encode_pairs_push(ps.drop_first(), p);
        assert(spec_encode_pairs(ps.push(p)) == spec_encode_pair(ps[0]) + (spec_encode_pairs(
            ps.drop_first(),
        ) + spec_encode_pair(p)));
        assert(spec_encode_pair(ps[0]) + (spec_encode_pairs(ps.drop_first()) + spec_encode_pair(p))
            =~= spec_encode_pairs(ps) + spec_encode_pair(p));
    }
}

/// Byte-for-byte equality of two byte strings.
pub fn bytes_eq(a: &[u8], b: &[u8]) -> (r: bool)
    ensures
        r == (a@ == b@),
{
    if a.len() != b.len() {
        assert(a@.len() != b@.len());
        return false;
    }
    let n: usize = a.len();
    let mut i: usize = 0;
    while i < n
        invariant
            n == a@.len() == b@.len(),
            i <= n,
            forall|j: int| 0 <= j < i ==> a@[j] == b@[j],
        decreases n - i,
    {
        if a[i] != b[i] {
            return false;
        }
        i += 1;
    }
    assert(a@ =~= b@);
    true
}

/// Encodes a fragment. The result parses back to exactly the given
/// assignments, in order.
pub fn encode_ops(ops: &Vec<(Vec<u8>, Vec<u8>)>) -> (r: Vec<u8>)
    ensures
        r@ == spec_encode_ops(pairs_view(ops@)),
        spec_decode(r@) == Some(pairs_view(ops@)),
{
    let ghost ps = pairs_view(ops@);
    let count: u64 = ops.len() as u64;
    proof {
        assert(ps.len() == ops@.len());
    }
    let mut out: Vec<u8> = u64_to_le_bytes(count);
    let mut i: usize = 0;
    while i < ops.len()
        invariant
            ps == pairs_view(ops@),
            ps.len() == ops@.len() <= u64::MAX,
            i <= ops.len(),
            out@ == spec_u64_to_le_bytes(ops@.len() as u64) + spec_encode_pairs(ps.take(i as int)),
            forall|j: int| 0 <= j < i ==> ps[j].0.len() <= u64::MAX && ps[j].1.len() <= u64::MAX,
        decreases ops.len() - i,
    {
        let klen: usize = ops[i].0.len();
        let vlen: usize = ops[i].1.len();
        let mut klb = u64_to_le_bytes(klen as u64);
        let mut key = slice_to_vec(ops[i].0.as_slice());
        let mut vlb = u64_to_le_bytes(vlen as u64);
        let mut value = slice_to_vec(ops[i].1.as_slice());
        out.append(&mut klb);
        out.append(&mut key);
        out.append(&mut vlb);
        out.append(&mut value);
        proof {
            assert(ps[i as int] == pair_view(ops@[i as int]));
            lemma_encode_pairs_push(ps.take(i as int), ps[i as int]);
            assert(ps.take(i as int).push(ps[i as int]) =~= ps.take(i as int + 1));
            assert(out@ =~= spec_u64_to_le_bytes(ops@.len() as u64) + spec_encode_pairs(
                ps.take(i as int + 1),
            ));
        }
        i += 1;
    }
    proof {
        assert(ps.take(ps.len() as int) =~= ps);
        lemma_decode_of_encode(ps);
    }
    out
}

/// Parses exactly `n` assignments out of `bytes`, which must hold nothing
/// else; mirrors `spec_decode_pairs`.
fn decode_pairs(bytes: &[u8], n: u64) -> (r: Option<Vec<(Vec<u8>, Vec<u8>)>>)
    ensures
        match r {
            Some(ops) => spec_decode_pairs(bytes@, n as nat) == Some(pairs_view(ops@)),
            None => spec_decode_pairs(bytes@, n as nat) is None,
        },
    decreases n,
{
    if n == 0 {
        if bytes.len() == 0 {
            let ops: Vec<(Vec<u8>, Vec<u8>)> = Vec::new();
            proof {
                assert(pairs_view(ops@) =~= Seq::<(Seq<u8>, Seq<u8>)>::empty());
            }
            Some(ops)
        } else {
            None
        }
    } else {
        if bytes.len() < 8 {
            return None;
        }
        let klen64: u64 = u64_from_le_bytes(slice_subrange(bytes, 0, 8));
        if klen64 > (bytes.len() - 8) as u64 {
            return None;
        }
        let klen: usize = klen64 as usize;
        let k: Vec<u8> = slice_to_vec(slice_subrange(bytes, 8, 8 + klen));
        let rest1 = slice_subrange(bytes, 8 + klen, bytes.len());
        proof {
            assert(k@ =~= bytes@.subrange(8, 8 + klen64 as int));
            assert(rest1@ =~= bytes@.skip(8 + klen64 as int));
        }
        if rest1.len() < 8 {
            return None;
        }
        let vlen64: u64 = u64_from_le_bytes(slice_subrange(rest1, 0, 8));
        if vlen64 > (rest1.len() - 8) as u64 {
            return None;
        }
        let vlen: usize = vlen64 as usize;
        let v: Vec<u8> = slice_to_vec(slice_subrange(rest1, 8, 8 + vlen));
        let rest2 = slice_subrange(rest1, 8 + vlen, rest1.len());
        proof {
            assert(v@ =~= rest1@.subrange(8, 8 + vlen64 as int));
            assert(rest2@ =~= rest1@.skip(8 + vlen64 as int));
        }
        match decode_pairs(rest2, n - 1) {
            Some(mut tail) => {
                let ghost tail_view = pairs_view(tail@);
                let ghost kv = (k@, v@);
                tail.insert(0, (k, v));
                proof {
                    assert(pairs_view(tail@) =~= seq![kv] + tail_view);
                }
                Some(tail)
            },
            None => None,
        }
    }
}

/// Parses a fragment; mirrors `spec_decode`. Returns the assignments the
/// fragment holds, or nothing when the bytes are not a valid fragment.
pub fn decode_ops(bytes: &[u8]) -> (r: Option<Vec<(Vec<u8>, Vec<u8>)>>)
    ensures
        match r {
            Some(ops) => spec_decode(bytes@) == Some(pairs_view(ops@)),
            None => spec_decode(bytes@) is None,
        },
{
    if bytes.len() < 8 {
        return None;
    }
    let count: u64 = u64_from_le_bytes(slice_subrange(bytes, 0, 8));
    let rest = slice_subrange(bytes, 8, bytes.len());
    proof {
        assert(rest@ =~= bytes@.skip(8));
    }
    decode_pairs(rest, count)
}

} // verus!
