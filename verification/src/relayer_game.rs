//! The relayer game's records: the status of a target-chain header, the
//! reference-counted header record, and a proposal, with the SCALE encoding
//! in which the records are stored.

use vstd::prelude::*;
use crate::scale::{
    decode_bytes, decode_u32, decode_u8, encode_bytes, encode_u32, encode_u8, framed_bytes, le32,
    begins_with_framed_bytes, lemma_framed_bytes_unique, lemma_le32_unique, lemma_starts_with,
    starts_with, compact,
};

verus! {

/// How far the game has judged a target-chain header.
#[derive(Debug, PartialEq, Eq, Structural)]
pub enum TcHeaderStatus {
    /// The header had been confirmed by the game.
    Confirmed,
    /// The header had been confirmed by the game but is too old: it is not
    /// used any more, so its storage can be freed.
    Outdated,
    /// The header has not been judged yet.
    Unknown,
    /// The header is invalid.
    Invalid,
}

impl Clone for TcHeaderStatus {
    fn clone(&self) -> (res: Self)
        ensures
            res == *self,
    {
        match self {
            TcHeaderStatus::Confirmed => TcHeaderStatus::Confirmed,
            TcHeaderStatus::Outdated => TcHeaderStatus::Outdated,
            TcHeaderStatus::Unknown => TcHeaderStatus::Unknown,
            TcHeaderStatus::Invalid => TcHeaderStatus::Invalid,
        }
    }
}

impl Default for TcHeaderStatus {
    /// A header starts out unjudged.
    fn default() -> (status: Self)
        ensures
            status == TcHeaderStatus::Unknown,
    {
        TcHeaderStatus::Unknown
    }
}

impl TcHeaderStatus {
    /// The position of the variant in the declaration: the byte that encodes it.
    pub open spec fn variant_index(self) -> u8 {
        match self {
            TcHeaderStatus::Confirmed => 0,
            TcHeaderStatus::Outdated => 1,
            TcHeaderStatus::Unknown => 2,
            TcHeaderStatus::Invalid => 3,
        }
    }

    /// The variant at a position, if there is one.
    pub open spec fn from_variant_index(i: u8) -> Option<TcHeaderStatus> {
        if i == 0 {
            Some(TcHeaderStatus::Confirmed)
        } else if i == 1 {
            Some(TcHeaderStatus::Outdated)
        } else if i == 2 {
            Some(TcHeaderStatus::Unknown)
        } else if i == 3 {
            Some(TcHeaderStatus::Invalid)
        } else {
            None
        }
    }

    /// The SCALE encoding of a status: its variant index.
    pub open spec fn encoding(self) -> Seq<u8> {
        seq![self.variant_index()]
    }

    /// The status that a byte string begins with, if it begins with one.
    pub open spec fn decoded(s: Seq<u8>) -> Option<TcHeaderStatus> {
        if s.len() >= 1 {
            TcHeaderStatus::from_variant_index(s[0])
        } else {
            None
        }
    }

    /// The SCALE encoding of the status.
    pub fn encode(&self) -> (res: Vec<u8>)
        ensures
            res@ == self.encoding(),
    {
        let i: u8 = match self {
            TcHeaderStatus::Confirmed => 0,
            TcHeaderStatus::Outdated => 1,
            TcHeaderStatus::Unknown => 2,
            TcHeaderStatus::Invalid => 3,
        };
        encode_u8(i)
    }

    /// Reads a status from the front of `input`, and gives back what follows it.
    pub(crate) fn decode_prefix(input: &[u8]) -> (res: Option<(TcHeaderStatus, &[u8])>)
        ensures
            res is Some <==> TcHeaderStatus::decoded(input@) is Some,
            res matches Some((v, rest)) ==> TcHeaderStatus::decoded(input@) == Some(v)
                && input@ == v.encoding() + rest@,
    {
        match decode_u8(input) {
            None => None,
            Some((i, rest)) => {
                assert(input@[0] == i);
                if i == 0 {
                    Some((TcHeaderStatus::Confirmed, rest))
                } else if i == 1 {
                    Some((TcHeaderStatus::Outdated, rest))
                } else if i == 2 {
                    Some((TcHeaderStatus::Unknown, rest))
                } else if i == 3 {
                    Some((TcHeaderStatus::Invalid, rest))
                } else {
                    None
                }
            },
        }
    }

    /// Reads a status from the front of `input`; what follows it is ignored.
    pub fn decode(input: &[u8]) -> (res: Option<TcHeaderStatus>)
        ensures
            res == TcHeaderStatus::decoded(input@),
    {
        match TcHeaderStatus::decode_prefix(input) {
            Some((v, _)) => Some(v),
            None => None,
        }
    }
}

/// Reading a status back from its encoding, whatever follows it, gives the
/// status.
pub proof fn lemma_status_round_trip(status: TcHeaderStatus, rest: Seq<u8>)
    ensures
        TcHeaderStatus::decoded(status.encoding() + rest) == Some(status),
{
    assert((status.encoding() + rest)[0] == status.variant_index());
}

/// Each status is written as the single byte of its position in the
/// declaration: Confirmed 0, Outdated 1, Unknown 2, Invalid 3.
pub proof fn lemma_status_encoding_bytes()
    ensures
        TcHeaderStatus::Confirmed.encoding() == seq![0u8],
        TcHeaderStatus::Outdated.encoding() == seq![1u8],
        TcHeaderStatus::Unknown.encoding() == seq![2u8],
        TcHeaderStatus::Invalid.encoding() == seq![3u8],
{
}

/// A status is read from the first byte: 0 is Confirmed, 1 Outdated,
/// 2 Unknown, 3 Invalid, and any other byte is no status; what follows is
/// ignored.
pub proof fn lemma_status_decoded_bytes(b: u8, rest: Seq<u8>)
    ensures
        b == 0 ==> TcHeaderStatus::decoded(seq![b] + rest) == Some(TcHeaderStatus::Confirmed),
        b == 1 ==> TcHeaderStatus::decoded(seq![b] + rest) == Some(TcHeaderStatus::Outdated),
        b == 2 ==> TcHeaderStatus::decoded(seq![b] + rest) == Some(TcHeaderStatus::Unknown),
        b == 3 ==> TcHeaderStatus::decoded(seq![b] + rest) == Some(TcHeaderStatus::Invalid),
        b > 3 ==> TcHeaderStatus::decoded(seq![b] + rest) is None,
        TcHeaderStatus::decoded(Seq::empty()) is None,
{
    assert((seq![b] + rest)[0] == b);
}

/// A target-chain header kept for the game, shared by the proposals that use
/// it.
#[derive(Debug, PartialEq)]
pub struct RefTcHeader {
    /// The header in whatever encoded form (a bare header, a header with its
    /// proofs, ...) the target chain's relay module verifies.
    header_thing: Vec<u8>,
    /// How many proposals use the header. A header is dropped when no
    /// proposal uses it any more, unless it has been confirmed.
    ref_count: u32,
    /// How far the game has judged the header, which lets a round end early.
    status: TcHeaderStatus,
}

/// What a `RefTcHeader` holds.
pub struct RefTcHeaderView {
    pub header_thing: Seq<u8>,
    pub ref_count: u32,
    pub status: TcHeaderStatus,
}

impl View for RefTcHeader {
    type V = RefTcHeaderView;

    closed spec fn view(&self) -> RefTcHeaderView {
        RefTcHeaderView {
            header_thing: self.header_thing@,
            ref_count: self.ref_count,
            status: self.status,
        }
    }
}

impl RefTcHeaderView {
    /// The record can be encoded: its header's length fits the compact
    /// length prefix.
    pub open spec fn encodable(self) -> bool {
        self.header_thing.len() <= u32::MAX
    }

    /// The SCALE encoding of the record: its fields' encodings in order.
    pub open spec fn encoding(self) -> Seq<u8> {
        framed_bytes(self.header_thing) + le32(self.ref_count as int) + self.status.encoding()
    }
}

/// A record that the byte string begins with.
pub open spec fn begins_with_ref_tc_header(s: Seq<u8>, v: RefTcHeaderView) -> bool {
    v.encodable() && starts_with(s, v.encoding())
}

impl Clone for RefTcHeader {
    fn clone(&self) -> (res: Self)
        ensures
            res@ == self@,
    {
        let header_thing = self.header_thing.clone();
        assert(header_thing@ =~= self.header_thing@);
        RefTcHeader { header_thing, ref_count: self.ref_count, status: self.status.clone() }
    }
}

impl Default for RefTcHeader {
    /// An empty header, used by no proposal, not judged yet.
    fn default() -> (res: Self)
        ensures
            res@ == (RefTcHeaderView {
                header_thing: Seq::empty(),
                ref_count: 0,
                status: TcHeaderStatus::Unknown,
            }),
    {
        RefTcHeader { header_thing: Vec::new(), ref_count: 0, status: TcHeaderStatus::Unknown }
    }
}

/// Two encoded records that begin the same byte string are the same record,
/// and agree on what follows them.
pub proof fn lemma_ref_tc_header_encoding_unique(
    v: RefTcHeaderView,
    w: RefTcHeaderView,
    t1: Seq<u8>,
    t2: Seq<u8>,
)
    requires
        v.encodable(),
        w.encodable(),
        v.encoding() + t1 == w.encoding() + t2,
    ensures
        v == w,
        t1 == t2,
{
    let a1 = le32(v.ref_count as int) + v.status.encoding() + t1;
    let a2 = le32(w.ref_count as int) + w.status.encoding() + t2;
    assert(v.encoding() + t1 =~= framed_bytes(v.header_thing) + a1);
    assert(w.encoding() + t2 =~= framed_bytes(w.header_thing) + a2);
    lemma_framed_bytes_unique(v.header_thing, w.header_thing, a1, a2);
    assert(a1 =~= le32(v.ref_count as int) + (v.status.encoding() + t1));
    assert(a2 =~= le32(w.ref_count as int) + (w.status.encoding() + t2));
    lemma_le32_unique(v.ref_count, w.ref_count, v.status.encoding() + t1, w.status.encoding() + t2);
    let b = v.status.encoding() + t1;
    assert(b[0] == v.status.variant_index());
    assert(b[0] == w.status.variant_index());
    assert(t1 =~= b.subrange(1, b.len() as int));
    assert(t2 =~= b.subrange(1, b.len() as int));
}

impl RefTcHeader {
    /// The record that a byte string begins with, if it begins with one.
    pub open spec fn decoded(s: Seq<u8>) -> Option<RefTcHeaderView> {
        if exists|v: RefTcHeaderView| #[trigger] begins_with_ref_tc_header(s, v) {
            Some(choose|v: RefTcHeaderView| #[trigger] begins_with_ref_tc_header(s, v))
        } else {
            None
        }
    }

    /// The SCALE encoding of the record. A header longer than `u32::MAX`
    /// bytes cannot be encoded.
    pub fn encode(&self) -> (res: Vec<u8>)
        requires
            self@.encodable(),
        ensures
            res@ == self@.encoding(),
            res@ == compact(self@.header_thing.len()) + self@.header_thing + le32(
                self@.ref_count as int,
            ) + seq![status_byte(self@.status)],
    {
        let mut out = encode_bytes(self.header_thing.as_slice());
        let mut count = encode_u32(self.ref_count);
        let mut status = self.status.encode();
        out.append(&mut count);
        out.append(&mut status);
        proof {
            assert(self@.status.encoding() =~= seq![status_byte(self@.status)]);
        }
        out
    }

    /// Reads a record from the front of `input`; what follows it is ignored.
    pub fn decode(input: &[u8]) -> (res: Option<RefTcHeader>)
        ensures
            res matches Some(v) ==> input@.subrange(
                compact(v@.header_thing.len()).len() as int,
                compact(v@.header_thing.len()).len() as int + v@.header_thing.len(),
            ) == v@.header_thing,
            res matches Some(v) ==> input@.subrange(
                compact(v@.header_thing.len()).len() as int + v@.header_thing.len(),
                compact(v@.header_thing.len()).len() as int + v@.header_thing.len() + 4,
            ) == le32(v@.ref_count as int),
            res matches Some(v) ==> input@[compact(v@.header_thing.len()).len() as int
                + v@.header_thing.len() + 4] == status_byte(v@.status),
            res is Some <==> RefTcHeader::decoded(input@) is Some,
            res matches Some(v) ==> RefTcHeader::decoded(input@) == Some(v@),
    {
        let ghost s = input@;
        let res = match decode_bytes(input) {
            None => {
                proof {
                    RefTcHeader::lemma_no_record(s);
                }
                None
            },
            Some((header_thing, r1)) => {
                match decode_u32(r1) {
                    None => {
                        proof {
                            RefTcHeader::lemma_no_record_after_bytes(s, header_thing@, r1@);
                        }
                        None
                    },
                    Some((ref_count, r2)) => {
                        match TcHeaderStatus::decode_prefix(r2) {
                            None => {
                                proof {
                                    assert(s =~= framed_bytes(header_thing@) + le32(
                                        ref_count as int,
                                    ) + r2@);
                                    RefTcHeader::lemma_no_record_after_count(
                                        s,
                                        header_thing@,
                                        ref_count,
                                        r2@,
                                    );
                                }
                                None
                            },
                            Some((status, r3)) => {
                                let res = RefTcHeader { header_thing, ref_count, status };
                                proof {
                                    assert(s =~= res@.encoding() + r3@);
                                    RefTcHeader::lemma_decoded_is(s, res@, r3@);
                                }
                                Some(res)
                            },
                        }
                    },
                }
            },
        };
        proof {
            lemma_ref_tc_header_decoded_from_input(input@);
        }
        res
    }

    /// A byte string made of a record's encoding and anything after it
    /// decodes to that record.
    proof fn lemma_decoded_is(s: Seq<u8>, v: RefTcHeaderView, rest: Seq<u8>)
        requires
            v.encodable(),
            s == v.encoding() + rest,
        ensures
            RefTcHeader::decoded(s) == Some(v),
    {
        lemma_starts_with(s, v.encoding());
        assert(begins_with_ref_tc_header(s, v));
        let w = choose|w: RefTcHeaderView| #[trigger] begins_with_ref_tc_header(s, w);
        lemma_starts_with(s, w.encoding());
        lemma_ref_tc_header_encoding_unique(
            v,
            w,
            rest,
            s.subrange(w.encoding().len() as int, s.len() as int),
        );
    }

    /// A byte string that does not begin with a framed byte string begins with
    /// no record.
    proof fn lemma_no_record(s: Seq<u8>)
        requires
            !begins_with_framed_bytes(s),
        ensures
            RefTcHeader::decoded(s) is None,
    {
        if exists|v: RefTcHeaderView| #[trigger] begins_with_ref_tc_header(s, v) {
            let v = choose|v: RefTcHeaderView| #[trigger] begins_with_ref_tc_header(s, v);
            lemma_starts_with(s, v.encoding());
            let t = s.subrange(v.encoding().len() as int, s.len() as int);
            let after = le32(v.ref_count as int) + v.status.encoding() + t;
            assert(s =~= framed_bytes(v.header_thing) + after);
            lemma_starts_with(s, framed_bytes(v.header_thing));
            assert(starts_with(s, framed_bytes(v.header_thing)));
            assert(begins_with_framed_bytes(s));
        }
    }

    /// A byte string that begins with a framed byte string followed by fewer
    /// than four bytes begins with no record.
    proof fn lemma_no_record_after_bytes(s: Seq<u8>, h: Seq<u8>, r1: Seq<u8>)
        requires
            h.len() <= u32::MAX,
            s == framed_bytes(h) + r1,
            r1.len() < 4,
        ensures
            RefTcHeader::decoded(s) is None,
    {
        if exists|v: RefTcHeaderView| #[trigger] begins_with_ref_tc_header(s, v) {
            let v = choose|v: RefTcHeaderView| #[trigger] begins_with_ref_tc_header(s, v);
            lemma_starts_with(s, v.encoding());
            let t = s.subrange(v.encoding().len() as int, s.len() as int);
            let after = le32(v.ref_count as int) + v.status.encoding() + t;
            assert(s =~= framed_bytes(v.header_thing) + after);
            lemma_framed_bytes_unique(h, v.header_thing, r1, after);
        }
    }

    /// A byte string that begins with a framed byte string and a count, then
    /// no status, begins with no record.
    proof fn lemma_no_record_after_count(s: Seq<u8>, h: Seq<u8>, c: u32, r2: Seq<u8>)
        requires
            h.len() <= u32::MAX,
            s == framed_bytes(h) + le32(c as int) + r2,
            TcHeaderStatus::decoded(r2) is None,
        ensures
            RefTcHeader::decoded(s) is None,
    {
        if exists|v: RefTcHeaderView| #[trigger] begins_with_ref_tc_header(s, v) {
            let v = choose|v: RefTcHeaderView| #[trigger] begins_with_ref_tc_header(s, v);
            lemma_starts_with(s, v.encoding());
            let t = s.subrange(v.encoding().len() as int, s.len() as int);
            let after = le32(v.ref_count as int) + (v.status.encoding() + t);
            assert(s =~= framed_bytes(v.header_thing) + after);
            assert(s =~= framed_bytes(h) + (le32(c as int) + r2));
            lemma_framed_bytes_unique(h, v.header_thing, le32(c as int) + r2, after);
            lemma_le32_unique(c, v.ref_count, r2, v.status.encoding() + t);
            lemma_status_round_trip(v.status, t);
        }
    }
}

/// The identity of a target-chain header: its block number and its hash.
/// Each identity is a proposal; a proposal can spawn sub-proposals.
#[derive(Debug, PartialEq)]
pub struct Proposal<AccountId, BlockNumber, Balance, TcBlockNumber, TcHeaderHash> {
    /// The header this proposal is about, by block number and hash.
    id: (TcBlockNumber, TcHeaderHash),
    /// The block at which the proposal is confirmed if nobody challenges it.
    confirm_at: BlockNumber,
    /// Those who support the proposal, with their bonds.
    nominators: Vec<(AccountId, Balance)>,
    /// Set in a sub-proposal (a round): the header this one challenges,
    /// either a brother (same block number, another hash) or a parent at the
    /// previous level (another block number and another hash).
    challenge_at: Option<(TcBlockNumber, TcHeaderHash)>,
    /// The parent, or previous, proposal that this one takes over from.
    take_over_from: Option<(TcBlockNumber, TcHeaderHash)>,
}

/// What a `Proposal` holds.
pub struct ProposalView<AccountId, BlockNumber, Balance, TcBlockNumber, TcHeaderHash> {
    pub id: (TcBlockNumber, TcHeaderHash),
    pub confirm_at: BlockNumber,
    pub nominators: Seq<(AccountId, Balance)>,
    pub challenge_at: Option<(TcBlockNumber, TcHeaderHash)>,
    pub take_over_from: Option<(TcBlockNumber, TcHeaderHash)>,
}

impl<AccountId, BlockNumber, Balance, TcBlockNumber, TcHeaderHash> View for Proposal<
    AccountId,
    BlockNumber,
    Balance,
    TcBlockNumber,
    TcHeaderHash,
> {
    type V = ProposalView<AccountId, BlockNumber, Balance, TcBlockNumber, TcHeaderHash>;

    closed spec fn view(&self) -> Self::V {
        ProposalView {
            id: self.id,
            confirm_at: self.confirm_at,
            nominators: self.nominators@,
            challenge_at: self.challenge_at,
            take_over_from: self.take_over_from,
        }
    }
}

impl<
    AccountId: Clone,
    BlockNumber: Clone,
    Balance: Clone,
    TcBlockNumber: Clone,
    TcHeaderHash: Clone,
> Clone for Proposal<AccountId, BlockNumber, Balance, TcBlockNumber, TcHeaderHash> {
    /// A field-by-field clone.
    fn clone(&self) -> (res: Self)
        ensures
            cloned_id(self@.id, res@.id),
            cloned::<BlockNumber>(self@.confirm_at, res@.confirm_at),
            res@.nominators.len() == self@.nominators.len(),
            forall|i: int|
                #![trigger res@.nominators[i]]
                0 <= i < self@.nominators.len() ==> cloned::<AccountId>(
                    self@.nominators[i].0,
                    res@.nominators[i].0,
                ) && cloned::<Balance>(self@.nominators[i].1, res@.nominators[i].1),
            cloned_optional_id(self@.challenge_at, res@.challenge_at),
            cloned_optional_id(self@.take_over_from, res@.take_over_from),
    {
        let mut nominators: Vec<(AccountId, Balance)> = Vec::new();
        let n = self.nominators.len();
        for i in 0..n
            invariant
                n == self.nominators@.len(),
                nominators@.len() == i,
                forall|j: int|
                    #![trigger nominators@[j]]
                    0 <= j < i ==> cloned::<AccountId>(
                        self.nominators@[j].0,
                        nominators@[j].0,
                    ) && cloned::<Balance>(self.nominators@[j].1, nominators@[j].1),
        {
            let entry = &self.nominators[i];
            nominators.push((entry.0.clone(), entry.1.clone()));
        }
        Proposal {
            id: clone_id(&self.id),
            confirm_at: self.confirm_at.clone(),
            nominators,
            challenge_at: clone_optional_id(&self.challenge_at),
            take_over_from: clone_optional_id(&self.take_over_from),
        }
    }
}

/// `b` is a field-by-field clone of the header identity `a`.
pub open spec fn cloned_id<N: Clone, H: Clone>(a: (N, H), b: (N, H)) -> bool {
    cloned::<N>(a.0, b.0) && cloned::<H>(a.1, b.1)
}

/// `b` is a clone of the optional header identity `a`.
pub open spec fn cloned_optional_id<N: Clone, H: Clone>(
    a: Option<(N, H)>,
    b: Option<(N, H)>,
) -> bool {
    match (a, b) {
        (None, None) => true,
        (Some(x), Some(y)) => cloned_id(x, y),
        _ => false,
    }
}

fn clone_id<N: Clone, H: Clone>(id: &(N, H)) -> (res: (N, H))
    ensures
        cloned_id(*id, res),
{
    (id.0.clone(), id.1.clone())
}

fn clone_optional_id<N: Clone, H: Clone>(id: &Option<(N, H)>) -> (res: Option<(N, H)>)
    ensures
        cloned_optional_id(*id, res),
{
    match id {
        Some(x) => Some(clone_id(x)),
        None => None,
    }
}

impl<
    AccountId: Default,
    BlockNumber: Default,
    Balance: Default,
    TcBlockNumber: Default,
    TcHeaderHash: Default,
> Default for Proposal<AccountId, BlockNumber, Balance, TcBlockNumber, TcHeaderHash> {
    /// The default header identity and confirmation block, no nominators,
    /// and no challenged or taken-over header.
    fn default() -> (p: Self)
        ensures
            call_ensures(TcBlockNumber::default, (), p@.id.0),
            call_ensures(TcHeaderHash::default, (), p@.id.1),
            call_ensures(BlockNumber::default, (), p@.confirm_at),
            p@.nominators == Seq::<(AccountId, Balance)>::empty(),
            p@.challenge_at is None,
            p@.take_over_from is None,
    {
        Proposal {
            id: (TcBlockNumber::default(), TcHeaderHash::default()),
            confirm_at: BlockNumber::default(),
            nominators: Vec::new(),
            challenge_at: None,
            take_over_from: None,
        }
    }
}

impl<AccountId, BlockNumber, Balance, TcBlockNumber, TcHeaderHash> Proposal<
    AccountId,
    BlockNumber,
    Balance,
    TcBlockNumber,
    TcHeaderHash,
> {
    /// A proposal made of the given parts.
    pub fn new(
        id: (TcBlockNumber, TcHeaderHash),
        confirm_at: BlockNumber,
        nominators: Vec<(AccountId, Balance)>,
        challenge_at: Option<(TcBlockNumber, TcHeaderHash)>,
        take_over_from: Option<(TcBlockNumber, TcHeaderHash)>,
    ) -> (p: Self)
        ensures
            p@ == (ProposalView {
                id,
                confirm_at,
                nominators: nominators@,
                challenge_at,
                take_over_from,
            }),
    {
        Proposal { id, confirm_at, nominators, challenge_at, take_over_from }
    }

    /// The header this proposal is about.
    pub fn id(&self) -> (res: &(TcBlockNumber, TcHeaderHash))
        ensures
            *res == self@.id,
    {
        &self.id
    }

    /// The block at which the proposal is confirmed if nobody challenges it.
    pub fn confirm_at(&self) -> (res: &BlockNumber)
        ensures
            *res == self@.confirm_at,
    {
        &self.confirm_at
    }

    /// Those who support the proposal, with their bonds.
    pub fn nominators(&self) -> (res: &[(AccountId, Balance)])
        ensures
            res@ == self@.nominators,
    {
        self.nominators.as_slice()
    }

    /// The header this proposal challenges, in a sub-proposal.
    pub fn challenge_at(&self) -> (res: &Option<(TcBlockNumber, TcHeaderHash)>)
        ensures
            *res == self@.challenge_at,
    {
        &self.challenge_at
    }

    /// The proposal this one takes over from.
    pub fn take_over_from(&self) -> (res: &Option<(TcBlockNumber, TcHeaderHash)>)
        ensures
            *res == self@.take_over_from,
    {
        &self.take_over_from
    }
}

/// The byte that a status is written as.
pub open spec fn status_byte(status: TcHeaderStatus) -> u8 {
    match status {
        TcHeaderStatus::Confirmed => 0u8,
        TcHeaderStatus::Outdated => 1u8,
        TcHeaderStatus::Unknown => 2u8,
        TcHeaderStatus::Invalid => 3u8,
    }
}

/// The encoding of a record is, in order: the compact length of its header,
/// the header's bytes as they are, the four little-endian bytes of its
/// reference count, and its status's byte (Confirmed 0, Outdated 1, Unknown 2,
/// Invalid 3), and nothing else.
pub proof fn lemma_ref_tc_header_encoding_layout(v: RefTcHeaderView)
    requires
        v.encodable(),
    ensures
        ({
            let e = v.encoding();
            let n = v.header_thing.len();
            let w = compact(n).len();
            &&& e.len() == w + n + 5
            &&& e.subrange(0, w as int) == compact(n)
            &&& e.subrange(w as int, (w + n) as int) == v.header_thing
            &&& e.subrange((w + n) as int, (w + n + 4) as int) == le32(v.ref_count as int)
            &&& e[(w + n + 4) as int] == (match v.status {
                TcHeaderStatus::Confirmed => 0u8,
                TcHeaderStatus::Outdated => 1u8,
                TcHeaderStatus::Unknown => 2u8,
                TcHeaderStatus::Invalid => 3u8,
            })
        }),
{
    let e = v.encoding();
    let n = v.header_thing.len();
    let w = compact(n).len();
    let l = le32(v.ref_count as int);
    assert(e =~= compact(n) + v.header_thing + l + seq![v.status.variant_index()]);
    assert(e.subrange(0, w as int) =~= compact(n));
    assert(e.subrange(w as int, (w + n) as int) =~= v.header_thing);
    assert(e.subrange((w + n) as int, (w + n + 4) as int) =~= l);
}

/// The bytes made of a compact header length, the header, the four
/// little-endian bytes of a count and a status byte (Confirmed 0, Outdated 1,
/// Unknown 2, Invalid 3), followed by anything, decode to the record of that
/// header, count and status.
pub proof fn lemma_ref_tc_header_decodes_fields(
    h: Seq<u8>,
    c: u32,
    status: TcHeaderStatus,
    rest: Seq<u8>,
)
    requires
        h.len() <= u32::MAX,
    ensures
        RefTcHeader::decoded(compact(h.len()) + h + le32(c as int) + seq![(match status {
            TcHeaderStatus::Confirmed => 0u8,
            TcHeaderStatus::Outdated => 1u8,
            TcHeaderStatus::Unknown => 2u8,
            TcHeaderStatus::Invalid => 3u8,
        })] + rest) == Some(RefTcHeaderView { header_thing: h, ref_count: c, status }),
{
    let v = RefTcHeaderView { header_thing: h, ref_count: c, status };
    let s = compact(h.len()) + h + le32(c as int) + seq![status_byte(status)] + rest;
    assert(s =~= v.encoding() + rest);
    RefTcHeader::lemma_decoded_is(s, v, rest);
}

/// A decoded record is what the input holds: the input begins with the
/// compact length of the record's header, then the header's bytes as they
/// are, then the four little-endian bytes of its count, then its status's
/// byte (Confirmed 0, Outdated 1, Unknown 2, Invalid 3).
pub proof fn lemma_ref_tc_header_decoded_from_input(s: Seq<u8>)
    ensures
        RefTcHeader::decoded(s) matches Some(v) ==> {
            let n = v.header_thing.len();
            let w = compact(n).len();
            &&& n <= u32::MAX
            &&& s.len() >= w + n + 5
            &&& s.subrange(0, w as int) == compact(n)
            &&& s.subrange(w as int, (w + n) as int) == v.header_thing
            &&& s.subrange((w + n) as int, (w + n + 4) as int) == le32(v.ref_count as int)
            &&& s[(w + n + 4) as int] == (match v.status {
                TcHeaderStatus::Confirmed => 0u8,
                TcHeaderStatus::Outdated => 1u8,
                TcHeaderStatus::Unknown => 2u8,
                TcHeaderStatus::Invalid => 3u8,
            })
        },
{
    if RefTcHeader::decoded(s) is Some {
        let v = RefTcHeader::decoded(s).unwrap();
        assert(begins_with_ref_tc_header(s, v));
        lemma_starts_with(s, v.encoding());
        lemma_ref_tc_header_encoding_layout(v);
        let e = v.encoding();
        let n = v.header_thing.len();
        let w = compact(n).len();
        assert(s.subrange(0, e.len() as int) == e);
        assert(s.subrange(0, w as int) =~= e.subrange(0, w as int));
        assert(s.subrange(w as int, (w + n) as int) =~= e.subrange(w as int, (w + n) as int));
        assert(s.subrange((w + n) as int, (w + n + 4) as int) =~= e.subrange(
            (w + n) as int,
            (w + n + 4) as int,
        ));
        assert(s[(w + n + 4) as int] == e[(w + n + 4) as int]);
    }
}

/// Reading a record back from its encoding, whatever follows it, gives the
/// record.
pub proof fn lemma_ref_tc_header_round_trip(v: RefTcHeaderView, rest: Seq<u8>)
    requires
        v.encodable(),
    ensures
        RefTcHeader::decoded(v.encoding() + rest) == Some(v),
{
    RefTcHeader::lemma_decoded_is(v.encoding() + rest, v, rest);
}

impl RefTcHeader {
    /// A record made of the given parts.
    pub fn new(header_thing: Vec<u8>, ref_count: u32, status: TcHeaderStatus) -> (res: Self)
        ensures
            res@ == (RefTcHeaderView { header_thing: header_thing@, ref_count, status }),
    {
        RefTcHeader { header_thing, ref_count, status }
    }

    /// The header in its encoded form.
    pub fn header_thing(&self) -> (res: &[u8])
        ensures
            res@ == self@.header_thing,
    {
        self.header_thing.as_slice()
    }

    /// How many proposals use the header.
    pub fn ref_count(&self) -> (res: u32)
        ensures
            res == self@.ref_count,
    {
        self.ref_count
    }

    /// How far the game has judged the header.
    pub fn status(&self) -> (res: &TcHeaderStatus)
        ensures
            *res == self@.status,
    {
        &self.status
    }
}

} // verus!
