//! Field-level reading and writing of the binary envelope format: LEB128
//! varints and tagged fields, as the prost encoding defines them.

use vstd::prelude::*;

verus! {

/// prost's decoding error, the failure that `decode_varint` hands back; it is
/// carried opaquely and only told apart from success.
#[verifier::external_type_specification]
#[verifier::external_body]
pub struct ExDecodeError(prost::DecodeError);

/// The LEB128 bytes of `v`: seven bits per byte, low group first, the high
/// bit set on every byte but the last.
pub open spec fn varint_bytes(v: nat) -> Seq<u8>
    decreases v,
{
    if v < 128 {
        seq![v as u8]
    } else {
        seq![(v % 128 + 128) as u8] + varint_bytes(v / 128)
    }
}

/// Length of the varint at the front of `s` when at most `k` bytes may be
/// read; the `k`-th byte must then be 0 or 1 so that the value fits 64 bits.
pub open spec fn varint_len(s: Seq<u8>, k: nat) -> Option<nat>
    decreases k,
{
    if k == 0 || s.len() == 0 {
        None
    } else if s[0] < 128 {
        if k == 1 && s[0] >= 2 {
            None
        } else {
            Some(1nat)
        }
    } else {
        match varint_len(s.drop_first(), (k - 1) as nat) {
            Some(n) => Some(n + 1),
            None => None,
        }
    }
}

/// Value of the first `n` bytes of `s` read as LEB128 groups.
pub open spec fn varint_value(s: Seq<u8>, n: nat) -> nat
    decreases n,
{
    if n == 0 || s.len() == 0 {
        0
    } else {
        (s[0] % 128) as nat + 128 * varint_value(s.drop_first(), (n - 1) as nat)
    }
}

/// The varint at the front of `s` (at most ten bytes): its value and length.
pub open spec fn varint_at(s: Seq<u8>) -> Option<(nat, nat)> {
    match varint_len(s, 10) {
        Some(n) => Some((varint_value(s, n), n)),
        None => None,
    }
}

/// Relies on prost::encoding::decode_varint: it reads one varint of at most
/// ten bytes from the front of the slice (refusing an empty or unterminated
/// one and a tenth byte above 1) and advances the slice past it; the second
/// component is the length of what is left.
#[verifier::external_body]
fn decode_varint(b: &[u8]) -> (r: Result<(u64, usize), prost::DecodeError>)
    ensures
        match r {
            Ok((v, rest)) => rest <= b@.len() && varint_at(b@) == Some(
                (v as nat, (b@.len() - rest) as nat),
            ),
            Err(_) => varint_at(b@) is None,
        },
{
    let mut buf = b;
    prost::encoding::decode_varint(&mut buf).map(|v| (v, buf.len()))
}

/// Relies on prost::encoding::encode_varint: it appends the LEB128 bytes of
/// the value.
#[verifier::external_body]
fn encode_varint(v: u64, buf: &mut Vec<u8>)
    ensures
        final(buf)@ == old(buf)@ + varint_bytes(v as nat),
{
    prost::encoding::encode_varint(v, buf)
}

/// The bound that a value must stay under to be written within `k` bytes.
pub open spec fn varint_cap(k: nat) -> nat
    decreases k,
{
    if k <= 1 {
        2
    } else {
        128 * varint_cap((k - 1) as nat)
    }
}

proof fn lemma_varint_cap_ten()
    ensures
        varint_cap(10) == 0x1_0000_0000_0000_0000,
{
    reveal_with_fuel(varint_cap, 10);
}

proof fn lemma_varint_round_trip_k(v: nat, k: nat, rest: Seq<u8>)
    requires
        1 <= k,
        v < varint_cap(k),
    ensures
        varint_len(varint_bytes(v) + rest, k) == Some(varint_bytes(v).len()),
        varint_value(varint_bytes(v) + rest, varint_bytes(v).len()) == v,
    decreases v,
{
    let s = varint_bytes(v) + rest;
    if v < 128 {
        assert(s[0] == v as u8);
        assert(s.drop_first() =~= rest);
        reveal_with_fuel(varint_value, 2);
    } else {
        let c = varint_cap((k - 1) as nat);
        assert(k >= 2);
        assert(v / 128 < c) by (nonlinear_arith)
            requires
                v < 128 * c,
        ;
        lemma_varint_round_trip_k(v / 128, (k - 1) as nat, rest);
        assert(s.drop_first() =~= varint_bytes(v / 128) + rest);
        assert(s[0] == (v % 128 + 128) as u8);
        assert(s[0] % 128 == v % 128);
    }
}

/// Reading back the varint bytes of a 64-bit value gives the value and the
/// length of those bytes, whatever follows them.
pub proof fn lemma_varint_round_trip(v: u64, rest: Seq<u8>)
    ensures
        varint_at(varint_bytes(v as nat) + rest) == Some((v as nat, varint_bytes(v as nat).len())),
{
    lemma_varint_cap_ten();
    lemma_varint_round_trip_k(v as nat, 10, rest);
}

/// One field as read from the wire: its number, its wire type, the varint it
/// carries (the length, for a length-delimited field) and its payload bytes.
pub struct FieldView {
    pub tag: nat,
    pub wire: nat,
    pub value: u64,
    pub payload: Seq<u8>,
}

/// The field at the front of `s` and the number of bytes it takes. The key is
/// a varint holding `tag * 8 + wire`; it must fit 32 bits and name a nonzero
/// tag. Wire type 0 carries a varint, 1 eight bytes, 2 a varint length and
/// that many bytes, 5 four bytes; groups (3, 4) and the types 6 and 7 are
/// refused.
pub open spec fn field_at(s: Seq<u8>) -> Option<(FieldView, nat)> {
    match varint_at(s) {
        None => None,
        Some((key, n)) => {
            let wire = key % 8;
            let tag = key / 8;
            let t = s.subrange(n as int, s.len() as int);
            if key > u32::MAX || tag == 0 {
                None
            } else if wire == 0 {
                match varint_at(t) {
                    Some((v, m)) => Some(
                        (FieldView { tag, wire, value: v as u64, payload: Seq::empty() }, n + m),
                    ),
                    None => None,
                }
            } else if wire == 1 || wire == 5 {
                let w: nat = if wire == 1 { 8 } else { 4 };
                if w <= t.len() {
                    Some((FieldView { tag, wire, value: 0, payload: t.subrange(0, w as int) }, n + w))
                } else {
                    None
                }
            } else if wire == 2 {
                match varint_at(t) {
                    Some((len, m)) => if m + len <= t.len() {
                        Some(
                            (
                                FieldView {
                                    tag,
                                    wire,
                                    value: len as u64,
                                    payload: t.subrange(m as int, (m + len) as int),
                                },
                                n + m + len,
                            ),
                        )
                    } else {
                        None
                    },
                    None => None,
                }
            } else {
                None
            }
        },
    }
}

/// A field read from a buffer; its payload is `start..end` of that buffer.
pub struct WireField {
    pub tag: u64,
    pub wire: u64,
    pub value: u64,
    pub start: usize,
    pub end: usize,
}

impl WireField {
    pub open spec fn view_in(&self, s: Seq<u8>) -> FieldView {
        FieldView {
            tag: self.tag as nat,
            wire: self.wire as nat,
            value: self.value,
            payload: s.subrange(self.start as int, self.end as int),
        }
    }
}

/// Reads the field at the front of `s`.
pub fn read_field(s: &[u8]) -> (r: Option<(WireField, usize)>)
    ensures
        match r {
            Some((f, n)) => f.start <= f.end <= s@.len() && field_at(s@) == Some(
                (f.view_in(s@), n as nat),
            ),
            None => field_at(s@) is None,
        },
{
    let (key, rest) = match decode_varint(s) {
        Ok(p) => p,
        Err(_) => return None,
    };
    let n = s.len() - rest;
    if key > 0xffff_ffff || key / 8 == 0 {
        return None;
    }
    let wire = key % 8;
    let tag = key / 8;
    let t = vstd::slice::slice_subrange(s, n, s.len());
    assert(t@ =~= s@.subrange(n as int, s@.len() as int));
    if wire == 0 {
        match decode_varint(t) {
            Ok((v, rest2)) => {
                let m = t.len() - rest2;
                let f = WireField { tag, wire, value: v, start: n + m, end: n + m };
                assert(f.view_in(s@).payload =~= Seq::<u8>::empty());
                Some((f, n + m))
            },
            Err(_) => None,
        }
    } else if wire == 1 || wire == 5 {
        let w: usize = if wire == 1 {
            8
        } else {
            4
        };
        if w <= t.len() {
            let f = WireField { tag, wire, value: 0, start: n, end: n + w };
            assert(f.view_in(s@).payload =~= t@.subrange(0, w as int));
            Some((f, n + w))
        } else {
            None
        }
    } else if wire == 2 {
        match decode_varint(t) {
            Ok((len, rest2)) => {
                let m = t.len() - rest2;
                if len > (t.len() - m) as u64 {
                    None
                } else {
                    let l = len as usize;
                    let f = WireField { tag, wire, value: len, start: n + m, end: n + m + l };
                    assert(f.view_in(s@).payload =~= t@.subrange(m as int, (m + l) as int));
                    Some((f, n + m + l))
                }
            },
            Err(_) => None,
        }
    } else {
        None
    }
}

/// The bytes of a length-delimited field.
pub open spec fn len_field_bytes(tag: nat, payload: Seq<u8>) -> Seq<u8> {
    varint_bytes(tag * 8 + 2) + varint_bytes(payload.len()) + payload
}

/// The bytes of a varint field.
pub open spec fn varint_field_bytes(tag: nat, v: u64) -> Seq<u8> {
    varint_bytes(tag * 8) + varint_bytes(v as nat)
}

/// Appends a length-delimited field.
pub fn put_len_field(buf: &mut Vec<u8>, tag: u64, payload: &[u8])
    requires
        1 <= tag <= 15,
    ensures
        final(buf)@ == old(buf)@ + len_field_bytes(tag as nat, payload@),
{
    encode_varint(tag * 8 + 2, buf);
    encode_varint(payload.len() as u64, buf);
    buf.extend_from_slice(payload);
    assert(buf@ =~= old(buf)@ + len_field_bytes(tag as nat, payload@));
}

/// Appends a varint field.
pub fn put_varint_field(buf: &mut Vec<u8>, tag: u64, v: u64)
    requires
        1 <= tag <= 15,
    ensures
        final(buf)@ == old(buf)@ + varint_field_bytes(tag as nat, v),
{
    encode_varint(tag * 8, buf);
    encode_varint(v, buf);
    assert(buf@ =~= old(buf)@ + varint_field_bytes(tag as nat, v));
}

/// A length-delimited field reads back as itself, whatever follows it.
pub proof fn lemma_len_field_round_trip(tag: nat, payload: Seq<u8>, rest: Seq<u8>)
    requires
        1 <= tag <= 15,
        payload.len() <= u64::MAX,
    ensures
        field_at(len_field_bytes(tag, payload) + rest) == Some(
            (
                FieldView { tag, wire: 2, value: payload.len() as u64, payload },
                len_field_bytes(tag, payload).len(),
            ),
        ),
{
    let a = varint_bytes(tag * 8 + 2);
    let b = varint_bytes(payload.len());
    let s = len_field_bytes(tag, payload) + rest;
    assert(s =~= a + (b + payload + rest));
    lemma_varint_round_trip((tag * 8 + 2) as u64, b + payload + rest);
    let t = s.subrange(a.len() as int, s.len() as int);
    assert(t =~= b + (payload + rest));
    lemma_varint_round_trip(payload.len() as u64, payload + rest);
    assert(t.subrange(b.len() as int, (b.len() + payload.len()) as int) =~= payload);
}

/// A varint field reads back as itself, whatever follows it.
pub proof fn lemma_varint_field_round_trip(tag: nat, v: u64, rest: Seq<u8>)
    requires
        1 <= tag <= 15,
    ensures
        field_at(varint_field_bytes(tag, v) + rest) == Some(
            (
                FieldView { tag, wire: 0, value: v, payload: Seq::empty() },
                varint_field_bytes(tag, v).len(),
            ),
        ),
{
    let a = varint_bytes(tag * 8);
    let b = varint_bytes(v as nat);
    let s = varint_field_bytes(tag, v) + rest;
    assert(s =~= a + (b + rest));
    lemma_varint_round_trip((tag * 8) as u64, b + rest);
    let t = s.subrange(a.len() as int, s.len() as int);
    assert(t =~= b + rest);
    lemma_varint_round_trip(v, rest);
}

proof fn lemma_varint_bytes_len_k(v: nat, k: nat)
    requires
        1 <= k,
        v < varint_cap(k),
    ensures
        varint_bytes(v).len() <= k,
    decreases v,
{
    if v >= 128 {
        let c = varint_cap((k - 1) as nat);
        assert(v / 128 < c) by (nonlinear_arith)
            requires
                v < 128 * c,
        ;
        lemma_varint_bytes_len_k(v / 128, (k - 1) as nat);
    }
}

/// A 64-bit value takes at most ten varint bytes.
pub proof fn lemma_varint_bytes_len(v: u64)
    ensures
        1 <= varint_bytes(v as nat).len() <= 10,
{
    lemma_varint_cap_ten();
    lemma_varint_bytes_len_k(v as nat, 10);
}

} // verus!
