//! The SCALE encoding of the plain values that the bridge's records are made
//! of, as the `parity-scale-codec` crate writes and reads them, and the facts
//! about those encodings that make a record's decoding unambiguous.

use vstd::prelude::*;
use parity_scale_codec::{Decode, Encode};

verus! {

/// The two little-endian bytes of a value below 2^16.
pub open spec fn le16(x: int) -> Seq<u8> {
    seq![(x % 256) as u8, ((x / 256) % 256) as u8]
}

/// The four little-endian bytes of a value below 2^32.
pub open spec fn le32(x: int) -> Seq<u8> {
    seq![
        (x % 256) as u8,
        ((x / 256) % 256) as u8,
        ((x / 65536) % 256) as u8,
        ((x / 16777216) % 256) as u8,
    ]
}

/// The compact encoding of a length `n <= u32::MAX`: the two low bits of the
/// first byte give the mode (one, two or four bytes holding `4 * n + mode`, or
/// the byte 3 followed by the four bytes of `n`).
pub open spec fn compact(n: nat) -> Seq<u8> {
    if n < 64 {
        seq![(4 * n) as u8]
    } else if n < 16384 {
        le16(4 * n + 1 as int)
    } else if n < 1073741824 {
        le32(4 * n + 2 as int)
    } else {
        seq![3u8] + le32(n as int)
    }
}

/// A byte string with its compact length in front, as a `Vec<u8>` encodes.
pub open spec fn framed_bytes(b: Seq<u8>) -> Seq<u8> {
    compact(b.len()) + b
}

/// The bytes of a sequence of 16-byte hashes, one after the other.
pub open spec fn h128_concat(items: Seq<[u8; 16]>) -> Seq<u8>
    decreases items.len(),
{
    if items.len() == 0 {
        Seq::empty()
    } else {
        items[0]@ + h128_concat(items.drop_first())
    }
}

/// A sequence of 16-byte hashes with its compact length in front, as a
/// `Vec<[u8; 16]>` encodes.
pub open spec fn framed_h128s(items: Seq<[u8; 16]>) -> Seq<u8> {
    compact(items.len()) + h128_concat(items)
}

/// `s` begins with `p`.
pub open spec fn starts_with(s: Seq<u8>, p: Seq<u8>) -> bool {
    p.len() <= s.len() && s.subrange(0, p.len() as int) == p
}

/// `s` begins with a framed byte string.
pub open spec fn begins_with_framed_bytes(s: Seq<u8>) -> bool {
    exists|b: Seq<u8>| b.len() <= u32::MAX && #[trigger] starts_with(s, framed_bytes(b))
}

/// `s` begins with a framed sequence of 16-byte hashes.
pub open spec fn begins_with_framed_h128s(s: Seq<u8>) -> bool {
    exists|items: Seq<[u8; 16]>|
        items.len() <= u32::MAX && #[trigger] starts_with(s, framed_h128s(items))
}

/// The value that the first bytes of `s` hold in compact encoding.
pub open spec fn compact_value(s: Seq<u8>) -> int {
    let mode = s[0] % 4;
    if mode == 0 {
        s[0] as int / 4
    } else if mode == 1 {
        (s[0] + 256 * s[1]) / 4
    } else if mode == 2 {
        (s[0] + 256 * s[1] + 65536 * s[2] + 16777216 * s[3]) / 4
    } else {
        s[1] + 256 * s[2] + 65536 * s[3] + 16777216 * s[4]
    }
}

/// The number of bytes that the compact encoding at the front of `s` takes.
pub open spec fn compact_width(s: Seq<u8>) -> int {
    let mode = s[0] % 4;
    if mode == 0 {
        1
    } else if mode == 1 {
        2
    } else if mode == 2 {
        4
    } else {
        5
    }
}

/// The compact encoding of `n` can be read back from the front of any byte
/// string that begins with it, and its width is known from its first byte.
pub proof fn lemma_compact_read(n: nat, t: Seq<u8>)
    requires
        n <= u32::MAX,
    ensures
        compact(n).len() >= 1,
        compact_width(compact(n) + t) == compact(n).len(),
        compact_value(compact(n) + t) == n,
{
    let s = compact(n) + t;
    if n < 64 {
        assert(s[0] == 4 * n);
    } else if n < 16384 {
        let v = 4 * n + 1;
        assert(s[0] == v % 256);
        assert(s[1] == v / 256);
        assert((v % 256) % 4 == 1) by (nonlinear_arith)
            requires v % 4 == 1, v >= 0;
    } else if n < 1073741824 {
        let v = 4 * n + 2;
        assert(s[0] == v % 256);
        assert(s[1] == (v / 256) % 256);
        assert(s[2] == (v / 65536) % 256);
        assert(s[3] == v / 16777216);
        assert((v % 256) % 4 == 2) by (nonlinear_arith)
            requires v % 4 == 2, v >= 0;
        assert(s[0] + 256 * s[1] + 65536 * s[2] + 16777216 * s[3] == v) by (nonlinear_arith)
            requires
                s[0] == v % 256,
                s[1] == (v / 256) % 256,
                s[2] == (v / 65536) % 256,
                s[3] == v / 16777216,
                0 <= v,
        ;
    } else {
        assert(s[0] == 3);
        assert(s[1] == n % 256);
        assert(s[2] == (n / 256) % 256);
        assert(s[3] == (n / 65536) % 256);
        assert(s[4] == n / 16777216);
        assert(s[1] + 256 * s[2] + 65536 * s[3] + 16777216 * s[4] == n) by (nonlinear_arith)
            requires
                s[1] == n % 256,
                s[2] == (n / 256) % 256,
                s[3] == (n / 65536) % 256,
                s[4] == n / 16777216,
                0 <= n,
        ;
    }
}

/// Two byte strings that each begin with a compact length begin with the same
/// one, and agree on what follows it.
pub proof fn lemma_compact_unique(n: nat, m: nat, t1: Seq<u8>, t2: Seq<u8>)
    requires
        n <= u32::MAX,
        m <= u32::MAX,
        compact(n) + t1 == compact(m) + t2,
    ensures
        n == m,
        t1 == t2,
{
    lemma_compact_read(n, t1);
    lemma_compact_read(m, t2);
    let s = compact(n) + t1;
    assert(t1 =~= s.subrange(compact(n).len() as int, s.len() as int));
    assert(t2 =~= s.subrange(compact(m).len() as int, s.len() as int));
}

/// The four little-endian bytes of a `u32` give back its value.
pub proof fn lemma_le32_value(x: u32)
    ensures
        le32(x as int).len() == 4,
        le32(x as int)[0] + 256 * le32(x as int)[1] + 65536 * le32(x as int)[2] + 16777216 * le32(
            x as int,
        )[3] == x,
{
    let s = le32(x as int);
    let v = x as int;
    assert(s[0] == v % 256);
    assert(s[1] == (v / 256) % 256);
    assert(s[2] == (v / 65536) % 256);
    assert(s[3] == v / 16777216);
    assert(s[0] + 256 * s[1] + 65536 * s[2] + 16777216 * s[3] == v) by (nonlinear_arith)
        requires
            s[0] == v % 256,
            s[1] == (v / 256) % 256,
            s[2] == (v / 65536) % 256,
            s[3] == v / 16777216,
            0 <= v,
    ;
}

/// Two byte strings that each begin with the four bytes of a `u32` begin with
/// the same one, and agree on what follows it.
pub proof fn lemma_le32_unique(x: u32, y: u32, t1: Seq<u8>, t2: Seq<u8>)
    requires
        le32(x as int) + t1 == le32(y as int) + t2,
    ensures
        x == y,
        t1 == t2,
{
    lemma_le32_value(x);
    lemma_le32_value(y);
    let s = le32(x as int) + t1;
    assert(s[0] == le32(x as int)[0] && s[0] == le32(y as int)[0]);
    assert(s[1] == le32(x as int)[1] && s[1] == le32(y as int)[1]);
    assert(s[2] == le32(x as int)[2] && s[2] == le32(y as int)[2]);
    assert(s[3] == le32(x as int)[3] && s[3] == le32(y as int)[3]);
    assert(t1 =~= s.subrange(4, s.len() as int));
    assert(t2 =~= s.subrange(4, s.len() as int));
}

/// A byte string begins with `p` exactly when it is `p` followed by something.
pub proof fn lemma_starts_with(s: Seq<u8>, p: Seq<u8>)
    ensures
        starts_with(s, p) <==> s == p + s.subrange(p.len() as int, s.len() as int),
        starts_with(s, p) ==> s.len() >= p.len(),
        forall|t: Seq<u8>| s == p + t ==> starts_with(s, p) && t == s.subrange(
            p.len() as int,
            s.len() as int,
        ),
{
    if starts_with(s, p) {
        assert(s =~= p + s.subrange(p.len() as int, s.len() as int));
    }
    if s == p + s.subrange(p.len() as int, s.len() as int) {
        assert(s.subrange(0, p.len() as int) =~= p);
    }
    assert forall|t: Seq<u8>| s == p + t implies starts_with(s, p) && t == s.subrange(
        p.len() as int,
        s.len() as int,
    ) by {
        assert(s.subrange(0, p.len() as int) =~= p);
        assert(t =~= s.subrange(p.len() as int, s.len() as int));
    }
}

/// The hashes of a sequence take sixteen bytes each, and the `i`-th hash's
/// bytes stand at `16 * i`, in order.
pub proof fn lemma_h128_concat_items(items: Seq<[u8; 16]>)
    ensures
        h128_concat(items).len() == 16 * items.len(),
        forall|i: int|
            0 <= i < items.len() ==> h128_concat(items).subrange(16 * i, 16 * i + 16)
                == #[trigger] items[i]@,
    decreases items.len(),
{
    broadcast use vstd::array::group_array_axioms;

    if items.len() > 0 {
        let rest = items.drop_first();
        lemma_h128_concat_items(rest);
        let c = h128_concat(items);
        let r = h128_concat(rest);
        assert(c == items[0]@ + r);
        assert forall|i: int| 0 <= i < items.len() implies c.subrange(16 * i, 16 * i + 16)
            == #[trigger] items[i]@ by {
            if i == 0 {
                assert(c.subrange(0, 16) =~= items[0]@);
            } else {
                assert(rest[i - 1] == items[i]);
                assert(r.subrange(16 * (i - 1), 16 * (i - 1) + 16) == rest[i - 1]@);
                assert(c.subrange(16 * i, 16 * i + 16) =~= r.subrange(
                    16 * (i - 1),
                    16 * (i - 1) + 16,
                ));
            }
        }
    }
}

/// Two sequences of the same number of hashes that begin the same byte string
/// are equal, and so is what follows them.
pub proof fn lemma_h128_concat_unique(
    a: Seq<[u8; 16]>,
    b: Seq<[u8; 16]>,
    t1: Seq<u8>,
    t2: Seq<u8>,
)
    requires
        a.len() == b.len(),
        h128_concat(a) + t1 == h128_concat(b) + t2,
    ensures
        a == b,
        t1 == t2,
    decreases a.len(),
{
    broadcast use vstd::array::group_array_axioms;

    if a.len() == 0 {
        assert(h128_concat(a) + t1 =~= t1);
        assert(h128_concat(b) + t2 =~= t2);
        assert(a =~= b);
    } else {
        let s = h128_concat(a) + t1;
        let ra = h128_concat(a.drop_first()) + t1;
        let rb = h128_concat(b.drop_first()) + t2;
        assert(s =~= a[0]@ + ra);
        assert(s =~= b[0]@ + rb);
        assert(a[0]@ =~= s.subrange(0, 16));
        assert(b[0]@ =~= s.subrange(0, 16));
        assert forall|i: int| 0 <= i < 16 implies a[0][i] == b[0][i] by {
            assert(a[0]@[i] == b[0]@[i]);
        }
        assert(a[0] =~= b[0]);
        assert(ra =~= s.subrange(16, s.len() as int));
        assert(rb =~= s.subrange(16, s.len() as int));
        lemma_h128_concat_unique(a.drop_first(), b.drop_first(), t1, t2);
        assert(a =~= seq![a[0]] + a.drop_first());
        assert(b =~= seq![b[0]] + b.drop_first());
    }
}

/// Two framed byte strings that begin the same byte string are equal, and so
/// is what follows them.
pub proof fn lemma_framed_bytes_unique(b1: Seq<u8>, b2: Seq<u8>, t1: Seq<u8>, t2: Seq<u8>)
    requires
        b1.len() <= u32::MAX,
        b2.len() <= u32::MAX,
        framed_bytes(b1) + t1 == framed_bytes(b2) + t2,
    ensures
        b1 == b2,
        t1 == t2,
{
    assert(framed_bytes(b1) + t1 =~= compact(b1.len()) + (b1 + t1));
    assert(framed_bytes(b2) + t2 =~= compact(b2.len()) + (b2 + t2));
    lemma_compact_unique(b1.len(), b2.len(), b1 + t1, b2 + t2);
    assert(b1 =~= (b1 + t1).subrange(0, b1.len() as int));
    assert(b2 =~= (b2 + t2).subrange(0, b2.len() as int));
    assert(t1 =~= (b1 + t1).subrange(b1.len() as int, (b1 + t1).len() as int));
    assert(t2 =~= (b2 + t2).subrange(b2.len() as int, (b2 + t2).len() as int));
}

/// Two framed hash sequences that begin the same byte string are equal, and so
/// is what follows them.
pub proof fn lemma_framed_h128s_unique(
    a: Seq<[u8; 16]>,
    b: Seq<[u8; 16]>,
    t1: Seq<u8>,
    t2: Seq<u8>,
)
    requires
        a.len() <= u32::MAX,
        b.len() <= u32::MAX,
        framed_h128s(a) + t1 == framed_h128s(b) + t2,
    ensures
        a == b,
        t1 == t2,
{
    assert(framed_h128s(a) + t1 =~= compact(a.len()) + (h128_concat(a) + t1));
    assert(framed_h128s(b) + t2 =~= compact(b.len()) + (h128_concat(b) + t2));
    lemma_compact_unique(a.len(), b.len(), h128_concat(a) + t1, h128_concat(b) + t2);
    lemma_h128_concat_unique(a, b, t1, t2);
}

/// Calls `<u8 as Encode>::encode`: a byte is written as itself.
#[verifier::external_body]
pub(crate) fn encode_u8(x: u8) -> (res: Vec<u8>)
    ensures
        res@ == seq![x],
{
    x.encode()
}

/// Calls `<u32 as Encode>::encode`: a `u32` is written as its four
/// little-endian bytes.
#[verifier::external_body]
pub(crate) fn encode_u32(x: u32) -> (res: Vec<u8>)
    ensures
        res@ == le32(x as int),
{
    x.encode()
}

/// Calls `<[u8] as Encode>::encode`: the compact length, then the bytes. The
/// crate refuses (panics on) a slice longer than `u32::MAX`.
#[verifier::external_body]
pub(crate) fn encode_bytes(b: &[u8]) -> (res: Vec<u8>)
    requires
        b@.len() <= u32::MAX,
    ensures
        res@ == framed_bytes(b@),
{
    b.encode()
}

/// Calls `<[u8; 64] as Encode>::encode`: a fixed array is written as its
/// bytes, with no length.
#[verifier::external_body]
pub(crate) fn encode_h512(a: &[u8; 64]) -> (res: Vec<u8>)
    ensures
        res@ == a@,
{
    a.encode()
}

/// Calls `<[[u8; 16]] as Encode>::encode`: the compact length, then each
/// 16-byte array's bytes in order. The crate refuses (panics on) a slice
/// longer than `u32::MAX`.
#[verifier::external_body]
pub(crate) fn encode_h128s(items: &[[u8; 16]]) -> (res: Vec<u8>)
    requires
        items@.len() <= u32::MAX,
    ensures
        res@ == framed_h128s(items@),
{
    items.encode()
}

/// Calls `<u8 as Decode>::decode` on a byte slice: it takes the first byte,
/// and fails on an empty input.
#[verifier::external_body]
pub(crate) fn decode_u8(input: &[u8]) -> (res: Option<(u8, &[u8])>)
    ensures
        res is Some <==> input@.len() >= 1,
        res matches Some((v, rest)) ==> input@ == seq![v] + rest@,
{
    let mut rest = input;
    match u8::decode(&mut rest) {
        Ok(v) => Some((v, rest)),
        Err(_) => None,
    }
}

/// Calls `<u32 as Decode>::decode` on a byte slice: it reads four
/// little-endian bytes, and fails on a shorter input.
#[verifier::external_body]
pub(crate) fn decode_u32(input: &[u8]) -> (res: Option<(u32, &[u8])>)
    ensures
        res is Some <==> input@.len() >= 4,
        res matches Some((v, rest)) ==> input@ == le32(v as int) + rest@,
{
    let mut rest = input;
    match u32::decode(&mut rest) {
        Ok(v) => Some((v, rest)),
        Err(_) => None,
    }
}

/// Calls `<[u8; 64] as Decode>::decode` on a byte slice: it takes the first
/// 64 bytes, and fails on a shorter input.
#[verifier::external_body]
pub(crate) fn decode_h512(input: &[u8]) -> (res: Option<([u8; 64], &[u8])>)
    ensures
        res is Some <==> input@.len() >= 64,
        res matches Some((a, rest)) ==> input@ == a@ + rest@,
{
    let mut rest = input;
    match <[u8; 64]>::decode(&mut rest) {
        Ok(a) => Some((a, rest)),
        Err(_) => None,
    }
}

/// Calls `<Vec<u8> as Decode>::decode` on a byte slice: it reads a compact
/// length in its shortest form, then that many bytes; it fails unless the
/// input begins so.
#[verifier::external_body]
pub(crate) fn decode_bytes(input: &[u8]) -> (res: Option<(Vec<u8>, &[u8])>)
    ensures
        res is Some <==> begins_with_framed_bytes(input@),
        res matches Some((v, rest)) ==> input@ == framed_bytes(v@) + rest@ && v@.len()
            <= u32::MAX,
{
    let mut rest = input;
    match <Vec<u8>>::decode(&mut rest) {
        Ok(v) => Some((v, rest)),
        Err(_) => None,
    }
}

/// Calls `<Vec<[u8; 16]> as Decode>::decode` on a byte slice: it reads a
/// compact length in its shortest form, then that many 16-byte arrays; it
/// fails unless the input begins so.
#[verifier::external_body]
pub(crate) fn decode_h128s(input: &[u8]) -> (res: Option<(Vec<[u8; 16]>, &[u8])>)
    ensures
        res is Some <==> begins_with_framed_h128s(input@),
        res matches Some((v, rest)) ==> input@ == framed_h128s(v@) + rest@ && v@.len()
            <= u32::MAX,
{
    let mut rest = input;
    match <Vec<[u8; 16]>>::decode(&mut rest) {
        Ok(v) => Some((v, rest)),
        Err(_) => None,
    }
}

} // verus!
