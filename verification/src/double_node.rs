//! The Ethash proof record that the Ethereum relay checks a header's
//! proof-of-work with: two DAG nodes and the merkle proof of their place in
//! the DAG, read from and written as SCALE bytes.

use vstd::prelude::*;
use crate::scale::{
    begins_with_framed_h128s, decode_h128s, decode_h512, encode_h128s, encode_h512,
    framed_h128s, lemma_framed_h128s_unique, lemma_starts_with, starts_with, compact,
    h128_concat, lemma_h128_concat_items,
};

verus! {

broadcast use vstd::array::group_array_axioms;

/// Two 64-byte DAG nodes and the 16-byte hashes of the merkle proof that
/// places them in the DAG.
#[derive(Debug, PartialEq)]
pub struct DoubleNodeWithMerkleProof {
    pub dag_nodes: [[u8; 64]; 2],
    pub proof: Vec<[u8; 16]>,
}

/// What a `DoubleNodeWithMerkleProof` holds.
pub struct DoubleNodeWithMerkleProofView {
    pub dag_nodes: [[u8; 64]; 2],
    pub proof: Seq<[u8; 16]>,
}

impl View for DoubleNodeWithMerkleProof {
    type V = DoubleNodeWithMerkleProofView;

    open spec fn view(&self) -> DoubleNodeWithMerkleProofView {
        DoubleNodeWithMerkleProofView { dag_nodes: self.dag_nodes, proof: self.proof@ }
    }
}

/// Sixty-four zero bytes.
pub open spec fn zero_h512() -> Seq<u8> {
    Seq::new(64, |_i: int| 0u8)
}

impl DoubleNodeWithMerkleProofView {
    /// The record can be encoded: its proof's length fits the compact length
    /// prefix.
    pub open spec fn encodable(self) -> bool {
        self.proof.len() <= u32::MAX
    }

    /// The SCALE encoding of the record: the two nodes' bytes, then the
    /// proof's compact length and hashes.
    pub open spec fn encoding(self) -> Seq<u8> {
        self.dag_nodes[0]@ + self.dag_nodes[1]@ + framed_h128s(self.proof)
    }
}

/// A record that the byte string begins with.
pub open spec fn begins_with_double_node(s: Seq<u8>, v: DoubleNodeWithMerkleProofView) -> bool {
    v.encodable() && starts_with(s, v.encoding())
}

impl Clone for DoubleNodeWithMerkleProof {
    fn clone(&self) -> (res: Self)
        ensures
            res@ == self@,
    {
        let mut proof: Vec<[u8; 16]> = Vec::new();
        let n = self.proof.len();
        for i in 0..n
            invariant
                n == self.proof@.len(),
                proof@ =~= self.proof@.take(i as int),
        {
            proof.push(self.proof[i]);
        }
        assert(proof@ =~= self.proof@);
        DoubleNodeWithMerkleProof { dag_nodes: self.dag_nodes, proof }
    }
}

impl Default for DoubleNodeWithMerkleProof {
    /// Two all-zero nodes and an empty proof.
    fn default() -> (res: Self)
        ensures
            res.dag_nodes[0]@ == zero_h512(),
            res.dag_nodes[1]@ == zero_h512(),
            res.proof@ == Seq::<[u8; 16]>::empty(),
    {
        let res = DoubleNodeWithMerkleProof { dag_nodes: [[0u8; 64]; 2], proof: Vec::new() };
        assert(res.dag_nodes[0]@ =~= zero_h512());
        assert(res.dag_nodes[1]@ =~= zero_h512());
        res
    }
}

/// Two encoded records that begin the same byte string are the same record,
/// and agree on what follows them.
pub proof fn lemma_double_node_encoding_unique(
    v: DoubleNodeWithMerkleProofView,
    w: DoubleNodeWithMerkleProofView,
    t1: Seq<u8>,
    t2: Seq<u8>,
)
    requires
        v.encodable(),
        w.encodable(),
        v.encoding() + t1 == w.encoding() + t2,
    ensures
        v == w,
        t1 == t2,
{
    let s = v.encoding() + t1;
    let a1 = framed_h128s(v.proof) + t1;
    let a2 = framed_h128s(w.proof) + t2;
    assert(s =~= v.dag_nodes[0]@ + v.dag_nodes[1]@ + a1);
    assert(s =~= w.dag_nodes[0]@ + w.dag_nodes[1]@ + a2);
    assert(v.dag_nodes[0]@ =~= s.subrange(0, 64));
    assert(w.dag_nodes[0]@ =~= s.subrange(0, 64));
    assert(v.dag_nodes[1]@ =~= s.subrange(64, 128));
    assert(w.dag_nodes[1]@ =~= s.subrange(64, 128));
    assert forall|i: int| 0 <= i < 64 implies v.dag_nodes[0][i] == w.dag_nodes[0][i] by {
        assert(v.dag_nodes[0]@[i] == w.dag_nodes[0]@[i]);
    }
    assert forall|i: int| 0 <= i < 64 implies v.dag_nodes[1][i] == w.dag_nodes[1][i] by {
        assert(v.dag_nodes[1]@[i] == w.dag_nodes[1]@[i]);
    }
    assert(v.dag_nodes[0] =~= w.dag_nodes[0]);
    assert(v.dag_nodes[1] =~= w.dag_nodes[1]);
    assert(v.dag_nodes =~= w.dag_nodes);
    assert(a1 =~= s.subrange(128, s.len() as int));
    assert(a2 =~= s.subrange(128, s.len() as int));
    lemma_framed_h128s_unique(v.proof, w.proof, t1, t2);
}

/// The encoding of a record is, in order: the first DAG node's 64 bytes, the
/// second's 64 bytes, the compact length of the proof, and each proof hash's
/// 16 bytes in index order, and nothing else.
pub proof fn lemma_double_node_encoding_layout(v: DoubleNodeWithMerkleProofView)
    requires
        v.encodable(),
    ensures
        ({
            let e = v.encoding();
            let n = v.proof.len();
            let w = compact(n).len() as int;
            &&& e.len() == 128 + w + 16 * n
            &&& e.subrange(0, 64) == v.dag_nodes[0]@
            &&& e.subrange(64, 128) == v.dag_nodes[1]@
            &&& e.subrange(128, 128 + w) == compact(n)
            &&& forall|i: int|
                0 <= i < n ==> e.subrange(128 + w + 16 * i, 128 + w + 16 * i + 16)
                    == #[trigger] v.proof[i]@
        }),
{
    let e = v.encoding();
    let n = v.proof.len();
    let w = compact(n).len() as int;
    let c = h128_concat(v.proof);
    lemma_h128_concat_items(v.proof);
    assert(e =~= v.dag_nodes[0]@ + v.dag_nodes[1]@ + compact(n) + c);
    assert(e.subrange(0, 64) =~= v.dag_nodes[0]@);
    assert(e.subrange(64, 128) =~= v.dag_nodes[1]@);
    assert(e.subrange(128, 128 + w) =~= compact(n));
    assert forall|i: int| 0 <= i < n implies e.subrange(128 + w + 16 * i, 128 + w + 16 * i + 16)
        == #[trigger] v.proof[i]@ by {
        assert(e.subrange(128 + w + 16 * i, 128 + w + 16 * i + 16) =~= c.subrange(
            16 * i,
            16 * i + 16,
        ));
    }
}

/// A decoded record is what the input holds: the input's first 64 bytes are
/// the first DAG node, the next 64 the second, then come the compact length
/// of the proof and each proof hash's 16 bytes in index order.
pub proof fn lemma_double_node_decoded_from_input(s: Seq<u8>)
    ensures
        DoubleNodeWithMerkleProof::decoded(s) matches Some(v) ==> {
            let n = v.proof.len();
            let w = compact(n).len() as int;
            &&& n <= u32::MAX
            &&& s.len() >= 128 + w + 16 * n
            &&& v.dag_nodes[0]@ == s.subrange(0, 64)
            &&& v.dag_nodes[1]@ == s.subrange(64, 128)
            &&& s.subrange(128, 128 + w) == compact(n)
            &&& forall|i: int|
                0 <= i < n ==> #[trigger] v.proof[i]@ == s.subrange(
                    128 + w + 16 * i,
                    128 + w + 16 * i + 16,
                )
        },
{
    if DoubleNodeWithMerkleProof::decoded(s) is Some {
        let v = DoubleNodeWithMerkleProof::decoded(s).unwrap();
        assert(begins_with_double_node(s, v));
        lemma_starts_with(s, v.encoding());
        lemma_double_node_encoding_layout(v);
        let e = v.encoding();
        let n = v.proof.len();
        let w = compact(n).len() as int;
        assert(s.subrange(0, e.len() as int) == e);
        assert(s.subrange(0, 64) =~= e.subrange(0, 64));
        assert(s.subrange(64, 128) =~= e.subrange(64, 128));
        assert(s.subrange(128, 128 + w) =~= e.subrange(128, 128 + w));
        assert forall|i: int| 0 <= i < n implies #[trigger] v.proof[i]@ == s.subrange(
            128 + w + 16 * i,
            128 + w + 16 * i + 16,
        ) by {
            assert(s.subrange(128 + w + 16 * i, 128 + w + 16 * i + 16) =~= e.subrange(
                128 + w + 16 * i,
                128 + w + 16 * i + 16,
            ));
        }
    }
}

/// Reading a record back from its encoding, whatever follows it, gives the
/// record.
pub proof fn lemma_double_node_round_trip(v: DoubleNodeWithMerkleProofView, rest: Seq<u8>)
    requires
        v.encodable(),
    ensures
        DoubleNodeWithMerkleProof::decoded(v.encoding() + rest) == Some(v),
{
    DoubleNodeWithMerkleProof::lemma_decoded_is(v.encoding() + rest, v, rest);
}

impl DoubleNodeWithMerkleProof {
    /// The record that a byte string begins with, if it begins with one.
    pub open spec fn decoded(s: Seq<u8>) -> Option<DoubleNodeWithMerkleProofView> {
        if exists|v: DoubleNodeWithMerkleProofView| #[trigger] begins_with_double_node(s, v) {
            Some(choose|v: DoubleNodeWithMerkleProofView| #[trigger] begins_with_double_node(s, v))
        } else {
            None
        }
    }

    /// The SCALE encoding of the record. A proof longer than `u32::MAX`
    /// hashes cannot be encoded.
    pub fn encode(&self) -> (res: Vec<u8>)
        requires
            self@.encodable(),
        ensures
            res@ == self@.encoding(),
            res@.subrange(0, 64) == self.dag_nodes[0]@,
            res@.subrange(64, 128) == self.dag_nodes[1]@,
            forall|i: int|
                0 <= i < self.proof@.len() ==> res@.subrange(
                    128 + compact(self.proof@.len()).len() + 16 * i,
                    128 + compact(self.proof@.len()).len() + 16 * i + 16,
                ) == #[trigger] self.proof@[i]@,
    {
        let mut out = encode_h512(&self.dag_nodes[0]);
        let mut second = encode_h512(&self.dag_nodes[1]);
        let mut proof = encode_h128s(self.proof.as_slice());
        out.append(&mut second);
        out.append(&mut proof);
        proof {
            lemma_double_node_encoding_layout(self@);
        }
        out
    }

    /// Reads a record from the front of `input`; what follows it is ignored.
    pub fn decode(input: &[u8]) -> (res: Option<DoubleNodeWithMerkleProof>)
        ensures
            res matches Some(v) ==> v.dag_nodes[0]@ == input@.subrange(0, 64)
                && v.dag_nodes[1]@ == input@.subrange(64, 128),
            res matches Some(v) ==> forall|i: int|
                0 <= i < v.proof@.len() ==> #[trigger] v.proof@[i]@ == input@.subrange(
                    128 + compact(v.proof@.len()).len() + 16 * i,
                    128 + compact(v.proof@.len()).len() + 16 * i + 16,
                ),
            res is Some <==> DoubleNodeWithMerkleProof::decoded(input@) is Some,
            res matches Some(v) ==> DoubleNodeWithMerkleProof::decoded(input@) == Some(v@),
    {
        let ghost s = input@;
        let res = match decode_h512(input) {
            None => {
                proof {
                    DoubleNodeWithMerkleProof::lemma_no_record_shorter_than(s, 64);
                }
                None
            },
            Some((first, r1)) => match decode_h512(r1) {
                None => {
                    proof {
                        DoubleNodeWithMerkleProof::lemma_no_record_shorter_than(s, 128);
                    }
                    None
                },
                Some((second, r2)) => match decode_h128s(r2) {
                    None => {
                        proof {
                            assert(first@.len() == 64 && second@.len() == 64);
                            assert(s =~= first@ + second@ + r2@);
                            assert(r2@ =~= s.subrange(128, s.len() as int));
                            DoubleNodeWithMerkleProof::lemma_no_record_after_nodes(
                                s,
                                r2@,
                            );
                        }
                        None
                    },
                    Some((proof, r3)) => {
                        let res = DoubleNodeWithMerkleProof { dag_nodes: [first, second], proof };
                        proof {
                            assert(res.dag_nodes[0] == first);
                            assert(res.dag_nodes[1] == second);
                            assert(s =~= res@.encoding() + r3@);
                            DoubleNodeWithMerkleProof::lemma_decoded_is(s, res@, r3@);
                        }
                        Some(res)
                    },
                },
            },
        };
        proof {
            lemma_double_node_decoded_from_input(input@);
        }
        res
    }

    /// A byte string made of a record's encoding and anything after it
    /// decodes to that record.
    proof fn lemma_decoded_is(s: Seq<u8>, v: DoubleNodeWithMerkleProofView, rest: Seq<u8>)
        requires
            v.encodable(),
            s == v.encoding() + rest,
        ensures
            DoubleNodeWithMerkleProof::decoded(s) == Some(v),
    {
        lemma_starts_with(s, v.encoding());
        assert(begins_with_double_node(s, v));
        let w = choose|w: DoubleNodeWithMerkleProofView| #[trigger] begins_with_double_node(s, w);
        lemma_starts_with(s, w.encoding());
        lemma_double_node_encoding_unique(
            v,
            w,
            rest,
            s.subrange(w.encoding().len() as int, s.len() as int),
        );
    }

    /// A byte string shorter than `n <= 128` bytes begins with no record.
    proof fn lemma_no_record_shorter_than(s: Seq<u8>, n: int)
        requires
            n <= 128,
            s.len() < n,
        ensures
            DoubleNodeWithMerkleProof::decoded(s) is None,
    {
        if exists|v: DoubleNodeWithMerkleProofView| #[trigger] begins_with_double_node(s, v) {
            let v = choose|v: DoubleNodeWithMerkleProofView| #[trigger] begins_with_double_node(s, v);
            lemma_starts_with(s, v.encoding());
        }
    }

    /// A byte string whose bytes after the first 128 do not begin with a
    /// framed sequence of hashes begins with no record.
    proof fn lemma_no_record_after_nodes(s: Seq<u8>, r2: Seq<u8>)
        requires
            s.len() >= 128,
            r2 == s.subrange(128, s.len() as int),
            !begins_with_framed_h128s(r2),
        ensures
            DoubleNodeWithMerkleProof::decoded(s) is None,
    {
        if exists|v: DoubleNodeWithMerkleProofView| #[trigger] begins_with_double_node(s, v) {
            let v = choose|v: DoubleNodeWithMerkleProofView| #[trigger] begins_with_double_node(s, v);
            lemma_starts_with(s, v.encoding());
            let t = s.subrange(v.encoding().len() as int, s.len() as int);
            assert(s =~= v.dag_nodes[0]@ + v.dag_nodes[1]@ + (framed_h128s(v.proof) + t));
            assert(r2 =~= framed_h128s(v.proof) + t);
            lemma_starts_with(r2, framed_h128s(v.proof));
            assert(starts_with(r2, framed_h128s(v.proof)));
        }
    }
}

} // verus!
