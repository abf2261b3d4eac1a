//! Encoding and decoding of the request and response envelopes. Fields may
//! come in any order and may repeat: a later scalar or string replaces an
//! earlier one, a repeated sub-message is merged into the earlier one of the
//! same variant, and fields of unknown number are skipped.

use vstd::prelude::*;
use vstd::utf8::{decode_utf8, encode_utf8, valid_utf8};
use crate::message::{
    AddRequest, AddResponse, ClientMessage, ClientPayload, EchoMessage, ReplyView, RequestView,
    ServerMessage, ServerPayload,
};
use crate::wire::{
    lemma_len_field_round_trip, lemma_varint_bytes_len, lemma_varint_field_round_trip, field_at, len_field_bytes, put_len_field, put_varint_field, read_field, varint_field_bytes,
};

verus! {

/// The characters of an echo message after its fields in `s` were merged
/// into the content `acc`.
pub open spec fn echo_fold(s: Seq<u8>, acc: Seq<char>) -> Option<Seq<char>>
    decreases s.len(),
{
    if s.len() == 0 {
        Some(acc)
    } else {
        match field_at(s) {
            None => None,
            Some((f, n)) => if n == 0 || n > s.len() {
                None
            } else {
                let rest = s.subrange(n as int, s.len() as int);
                if f.tag == 1 {
                    if f.wire == 2 && valid_utf8(f.payload) {
                        echo_fold(rest, decode_utf8(f.payload))
                    } else {
                        None
                    }
                } else {
                    echo_fold(rest, acc)
                }
            },
        }
    }
}

/// The operands of an addition request after its fields in `s` were merged
/// into `acc`; a varint is cut to its low 32 bits.
pub open spec fn add_fold(s: Seq<u8>, acc: (i32, i32)) -> Option<(i32, i32)>
    decreases s.len(),
{
    if s.len() == 0 {
        Some(acc)
    } else {
        match field_at(s) {
            None => None,
            Some((f, n)) => if n == 0 || n > s.len() {
                None
            } else {
                let rest = s.subrange(n as int, s.len() as int);
                if f.tag == 1 || f.tag == 2 {
                    if f.wire != 0 {
                        None
                    } else if f.tag == 1 {
                        add_fold(rest, (f.value as i32, acc.1))
                    } else {
                        add_fold(rest, (acc.0, f.value as i32))
                    }
                } else {
                    add_fold(rest, acc)
                }
            },
        }
    }
}

/// The result of an addition response after its fields in `s` were merged
/// into `acc`.
pub open spec fn sum_fold(s: Seq<u8>, acc: i32) -> Option<i32>
    decreases s.len(),
{
    if s.len() == 0 {
        Some(acc)
    } else {
        match field_at(s) {
            None => None,
            Some((f, n)) => if n == 0 || n > s.len() {
                None
            } else {
                let rest = s.subrange(n as int, s.len() as int);
                if f.tag == 1 {
                    if f.wire != 0 {
                        None
                    } else {
                        sum_fold(rest, f.value as i32)
                    }
                } else {
                    sum_fold(rest, acc)
                }
            },
        }
    }
}

/// A request envelope after its fields in `s` were merged into `acc`: field 1
/// is an echo message, field 2 an addition request.
pub open spec fn request_fold(s: Seq<u8>, acc: Option<RequestView>) -> Option<Option<RequestView>>
    decreases s.len(),
{
    if s.len() == 0 {
        Some(acc)
    } else {
        match field_at(s) {
            None => None,
            Some((f, n)) => if n == 0 || n > s.len() {
                None
            } else {
                let rest = s.subrange(n as int, s.len() as int);
                if f.tag == 1 || f.tag == 2 {
                    if f.wire != 2 {
                        None
                    } else if f.tag == 1 {
                        let init = match acc {
                            Some(RequestView::Echo(c)) => c,
                            _ => Seq::empty(),
                        };
                        match echo_fold(f.payload, init) {
                            Some(c) => request_fold(rest, Some(RequestView::Echo(c))),
                            None => None,
                        }
                    } else {
                        let init = match acc {
                            Some(RequestView::Add(a, b)) => (a, b),
                            _ => (0i32, 0i32),
                        };
                        match add_fold(f.payload, init) {
                            Some((a, b)) => request_fold(rest, Some(RequestView::Add(a, b))),
                            None => None,
                        }
                    }
                } else {
                    request_fold(rest, acc)
                }
            },
        }
    }
}

/// A response envelope after its fields in `s` were merged into `acc`: field
/// 1 is an echo message, field 2 an addition response.
pub open spec fn reply_fold(s: Seq<u8>, acc: Option<ReplyView>) -> Option<Option<ReplyView>>
    decreases s.len(),
{
    if s.len() == 0 {
        Some(acc)
    } else {
        match field_at(s) {
            None => None,
            Some((f, n)) => if n == 0 || n > s.len() {
                None
            } else {
                let rest = s.subrange(n as int, s.len() as int);
                if f.tag == 1 || f.tag == 2 {
                    if f.wire != 2 {
                        None
                    } else if f.tag == 1 {
                        let init = match acc {
                            Some(ReplyView::Echo(c)) => c,
                            _ => Seq::empty(),
                        };
                        match echo_fold(f.payload, init) {
                            Some(c) => reply_fold(rest, Some(ReplyView::Echo(c))),
                            None => None,
                        }
                    } else {
                        let init = match acc {
                            Some(ReplyView::Sum(r)) => r,
                            _ => 0i32,
                        };
                        match sum_fold(f.payload, init) {
                            Some(r) => reply_fold(rest, Some(ReplyView::Sum(r))),
                            None => None,
                        }
                    }
                } else {
                    reply_fold(rest, acc)
                }
            },
        }
    }
}

/// The request envelope that `s` holds, if it is well formed.
pub open spec fn request_of(s: Seq<u8>) -> Option<Option<RequestView>> {
    request_fold(s, None)
}

/// The response envelope that `s` holds, if it is well formed.
pub open spec fn reply_of(s: Seq<u8>) -> Option<Option<ReplyView>> {
    reply_fold(s, None)
}

/// Relies on String::from_utf8: it accepts exactly the valid UTF-8 byte
/// sequences and keeps the characters they encode.
#[verifier::external_body]
fn utf8_string(b: Vec<u8>) -> (r: Option<String>)
    ensures
        match r {
            Some(t) => valid_utf8(b@) && t@ == decode_utf8(b@),
            None => !valid_utf8(b@),
        },
{
    String::from_utf8(b).ok()
}

/// Merges the echo-message fields of `s` into the content `init`.
fn merge_echo(s: &[u8], init: String) -> (r: Option<String>)
    ensures
        match r {
            Some(c) => echo_fold(s@, init@) == Some(c@),
            None => echo_fold(s@, init@) is None,
        },
{
    let mut acc = init;
    let mut pos: usize = 0;
    assert(s@.subrange(0, s@.len() as int) =~= s@);
    while pos < s.len()
        invariant
            pos <= s@.len(),
            echo_fold(s@, init@) == echo_fold(s@.subrange(pos as int, s@.len() as int), acc@),
        decreases s@.len() - pos,
    {
        let rest = vstd::slice::slice_subrange(s, pos, s.len());
        let (f, n) = match read_field(rest) {
            Some(p) => p,
            None => return None,
        };
        if n == 0 || n > rest.len() {
            return None;
        }
        if f.tag == 1 {
            if f.wire != 2 {
                return None;
            }
            let payload = vstd::slice::slice_subrange(rest, f.start, f.end);
            match utf8_string(vstd::slice::slice_to_vec(payload)) {
                Some(c) => acc = c,
                None => return None,
            }
        }
        assert(rest@.subrange(n as int, rest@.len() as int) =~= s@.subrange(
            (pos + n) as int,
            s@.len() as int,
        ));
        pos = pos + n;
    }
    Some(acc)
}

/// Merges the addition-request fields of `s` into the operands `init`.
fn merge_add(s: &[u8], init: AddRequest) -> (r: Option<AddRequest>)
    ensures
        match r {
            Some(v) => add_fold(s@, (init.a, init.b)) == Some((v.a, v.b)),
            None => add_fold(s@, (init.a, init.b)) is None,
        },
{
    let mut acc = init;
    let mut pos: usize = 0;
    assert(s@.subrange(0, s@.len() as int) =~= s@);
    while pos < s.len()
        invariant
            pos <= s@.len(),
            add_fold(s@, (init.a, init.b)) == add_fold(
                s@.subrange(pos as int, s@.len() as int),
                (acc.a, acc.b),
            ),
        decreases s@.len() - pos,
    {
        let rest = vstd::slice::slice_subrange(s, pos, s.len());
        let (f, n) = match read_field(rest) {
            Some(p) => p,
            None => return None,
        };
        if n == 0 || n > rest.len() {
            return None;
        }
        if f.tag == 1 || f.tag == 2 {
            if f.wire != 0 {
                return None;
            }
            if f.tag == 1 {
                acc = AddRequest { a: #[verifier::truncate] (f.value as i32), b: acc.b };
            } else {
                acc = AddRequest { a: acc.a, b: #[verifier::truncate] (f.value as i32) };
            }
        }
        assert(rest@.subrange(n as int, rest@.len() as int) =~= s@.subrange(
            (pos + n) as int,
            s@.len() as int,
        ));
        pos = pos + n;
    }
    Some(acc)
}

/// Merges the addition-response fields of `s` into the result `init`.
fn merge_sum(s: &[u8], init: AddResponse) -> (r: Option<AddResponse>)
    ensures
        match r {
            Some(v) => sum_fold(s@, init.result) == Some(v.result),
            None => sum_fold(s@, init.result) is None,
        },
{
    let mut acc = init;
    let mut pos: usize = 0;
    assert(s@.subrange(0, s@.len() as int) =~= s@);
    while pos < s.len()
        invariant
            pos <= s@.len(),
            sum_fold(s@, init.result) == sum_fold(
                s@.subrange(pos as int, s@.len() as int),
                acc.result,
            ),
        decreases s@.len() - pos,
    {
        let rest = vstd::slice::slice_subrange(s, pos, s.len());
        let (f, n) = match read_field(rest) {
            Some(p) => p,
            None => return None,
        };
        if n == 0 || n > rest.len() {
            return None;
        }
        if f.tag == 1 {
            if f.wire != 0 {
                return None;
            }
            acc = AddResponse { result: #[verifier::truncate] (f.value as i32) };
        }
        assert(rest@.subrange(n as int, rest@.len() as int) =~= s@.subrange(
            (pos + n) as int,
            s@.len() as int,
        ));
        pos = pos + n;
    }
    Some(acc)
}

/// Abstract content of an optional request payload.
pub open spec fn request_view(p: Option<ClientPayload>) -> Option<RequestView> {
    match p {
        Some(q) => Some(q@),
        None => None,
    }
}

/// Abstract content of an optional response payload.
pub open spec fn reply_view(p: Option<ServerPayload>) -> Option<ReplyView> {
    match p {
        Some(q) => Some(q@),
        None => None,
    }
}

/// Decodes a request envelope; `None` when the bytes are malformed.
pub fn decode_request(b: &[u8]) -> (r: Option<ClientMessage>)
    ensures
        match r {
            Some(m) => request_of(b@) == Some(m@),
            None => request_of(b@) is None,
        },
{
    let mut acc: Option<ClientPayload> = None;
    let mut pos: usize = 0;
    assert(b@.subrange(0, b@.len() as int) =~= b@);
    while pos < b.len()
        invariant
            pos <= b@.len(),
            request_of(b@) == request_fold(
                b@.subrange(pos as int, b@.len() as int),
                request_view(acc),
            ),
        decreases b@.len() - pos,
    {
        let rest = vstd::slice::slice_subrange(b, pos, b.len());
        let (f, n) = match read_field(rest) {
            Some(p) => p,
            None => return None,
        };
        if n == 0 || n > rest.len() {
            return None;
        }
        if f.tag == 1 || f.tag == 2 {
            if f.wire != 2 {
                return None;
            }
            let payload = vstd::slice::slice_subrange(rest, f.start, f.end);
            if f.tag == 1 {
                let init = match acc {
                    Some(ClientPayload::EchoMessage(e)) => e.content,
                    _ => String::new(),
                };
                match merge_echo(payload, init) {
                    Some(c) => acc = Some(ClientPayload::EchoMessage(EchoMessage { content: c })),
                    None => return None,
                }
            } else {
                let init = match acc {
                    Some(ClientPayload::AddRequest(v)) => v,
                    _ => AddRequest { a: 0, b: 0 },
                };
                match merge_add(payload, init) {
                    Some(v) => acc = Some(ClientPayload::AddRequest(v)),
                    None => return None,
                }
            }
        }
        assert(rest@.subrange(n as int, rest@.len() as int) =~= b@.subrange(
            (pos + n) as int,
            b@.len() as int,
        ));
        pos = pos + n;
    }
    Some(ClientMessage { message: acc })
}

/// Decodes a response envelope; `None` when the bytes are malformed.
pub fn decode_reply(b: &[u8]) -> (r: Option<ServerMessage>)
    ensures
        match r {
            Some(m) => reply_of(b@) == Some(m@),
            None => reply_of(b@) is None,
        },
{
    let mut acc: Option<ServerPayload> = None;
    let mut pos: usize = 0;
    assert(b@.subrange(0, b@.len() as int) =~= b@);
    while pos < b.len()
        invariant
            pos <= b@.len(),
            reply_of(b@) == reply_fold(b@.subrange(pos as int, b@.len() as int), reply_view(acc)),
        decreases b@.len() - pos,
    {
        let rest = vstd::slice::slice_subrange(b, pos, b.len());
        let (f, n) = match read_field(rest) {
            Some(p) => p,
            None => return None,
        };
        if n == 0 || n > rest.len() {
            return None;
        }
        if f.tag == 1 || f.tag == 2 {
            if f.wire != 2 {
                return None;
            }
            let payload = vstd::slice::slice_subrange(rest, f.start, f.end);
            if f.tag == 1 {
                let init = match acc {
                    Some(ServerPayload::EchoMessage(e)) => e.content,
                    _ => String::new(),
                };
                match merge_echo(payload, init) {
                    Some(c) => acc = Some(ServerPayload::EchoMessage(EchoMessage { content: c })),
                    None => return None,
                }
            } else {
                let init = match acc {
                    Some(ServerPayload::AddResponse(v)) => v,
                    _ => AddResponse { result: 0 },
                };
                match merge_sum(payload, init) {
                    Some(v) => acc = Some(ServerPayload::AddResponse(v)),
                    None => return None,
                }
            }
        }
        assert(rest@.subrange(n as int, rest@.len() as int) =~= b@.subrange(
            (pos + n) as int,
            b@.len() as int,
        ));
        pos = pos + n;
    }
    Some(ServerMessage { message: acc })
}

/// The fields of an echo message; an empty content is left out.
pub open spec fn echo_bytes(c: Seq<char>) -> Seq<u8> {
    if encode_utf8(c).len() == 0 {
        Seq::empty()
    } else {
        len_field_bytes(1, encode_utf8(c))
    }
}

/// A 32-bit integer field; zero is left out, a negative value is written
/// sign-extended to 64 bits.
pub open spec fn int_field_bytes(tag: nat, v: i32) -> Seq<u8> {
    if v == 0 {
        Seq::empty()
    } else {
        varint_field_bytes(tag, v as u64)
    }
}

/// The bytes of a request envelope.
pub open spec fn request_bytes(m: Option<RequestView>) -> Seq<u8> {
    match m {
        None => Seq::empty(),
        Some(RequestView::Echo(c)) => len_field_bytes(1, echo_bytes(c)),
        Some(RequestView::Add(a, b)) => len_field_bytes(
            2,
            int_field_bytes(1, a) + int_field_bytes(2, b),
        ),
    }
}

/// The bytes of a response envelope.
pub open spec fn reply_bytes(m: Option<ReplyView>) -> Seq<u8> {
    match m {
        None => Seq::empty(),
        Some(ReplyView::Echo(c)) => len_field_bytes(1, echo_bytes(c)),
        Some(ReplyView::Sum(r)) => len_field_bytes(2, int_field_bytes(1, r)),
    }
}

fn put_echo(buf: &mut Vec<u8>, c: &String)
    ensures
        final(buf)@ == old(buf)@ + echo_bytes(c@),
{
    let bytes = c.as_str().as_bytes();
    if bytes.len() != 0 {
        put_len_field(buf, 1, bytes);
    } else {
        assert(buf@ =~= old(buf)@ + echo_bytes(c@));
    }
}

fn put_int(buf: &mut Vec<u8>, tag: u64, v: i32)
    requires
        1 <= tag <= 15,
    ensures
        final(buf)@ == old(buf)@ + int_field_bytes(tag as nat, v),
{
    if v != 0 {
        put_varint_field(buf, tag, v as u64);
    } else {
        assert(buf@ =~= old(buf)@ + int_field_bytes(tag as nat, v));
    }
}

/// Encodes a request envelope.
pub fn encode_request(m: &ClientMessage) -> (r: Vec<u8>)
    ensures
        r@ == request_bytes(m@),
{
    let mut out: Vec<u8> = Vec::new();
    match &m.message {
        None => {},
        Some(ClientPayload::EchoMessage(e)) => {
            let mut body: Vec<u8> = Vec::new();
            put_echo(&mut body, &e.content);
            put_len_field(&mut out, 1, body.as_slice());
        },
        Some(ClientPayload::AddRequest(v)) => {
            let mut body: Vec<u8> = Vec::new();
            put_int(&mut body, 1, v.a);
            put_int(&mut body, 2, v.b);
            put_len_field(&mut out, 2, body.as_slice());
        },
    }
    assert(out@ =~= request_bytes(m@));
    out
}

/// Encodes a response envelope.
pub fn encode_reply(m: &ServerMessage) -> (r: Vec<u8>)
    ensures
        r@ == reply_bytes(m@),
{
    let mut out: Vec<u8> = Vec::new();
    match &m.message {
        None => {},
        Some(ServerPayload::EchoMessage(e)) => {
            let mut body: Vec<u8> = Vec::new();
            put_echo(&mut body, &e.content);
            put_len_field(&mut out, 1, body.as_slice());
        },
        Some(ServerPayload::AddResponse(v)) => {
            let mut body: Vec<u8> = Vec::new();
            put_int(&mut body, 1, v.result);
            put_len_field(&mut out, 2, body.as_slice());
        },
    }
    assert(out@ =~= reply_bytes(m@));
    out
}

proof fn lemma_i32_through_u64(v: i32)
    ensures
        (v as u64) as i32 == v,
{
    assert((v as u64) as i32 == v) by (bit_vector);
}

proof fn lemma_len_field_len(tag: nat, payload: Seq<u8>)
    requires
        1 <= tag <= 15,
        payload.len() <= u64::MAX,
    ensures
        len_field_bytes(tag, payload).len() <= payload.len() + 11,
{
    lemma_varint_bytes_len((tag * 8 + 2) as u64);
    lemma_varint_bytes_len(payload.len() as u64);
}

proof fn lemma_echo_round_trip(c: Seq<char>)
    requires
        encode_utf8(c).len() <= isize::MAX,
    ensures
        echo_fold(echo_bytes(c), Seq::empty()) == Some(c),
        echo_bytes(c).len() <= encode_utf8(c).len() + 11,
{
    let u = encode_utf8(c);
    vstd::utf8::encode_utf8_decode_utf8(c);
    vstd::utf8::encode_utf8_valid_utf8(c);
    if u.len() == 0 {
        assert(u =~= Seq::<u8>::empty());
        assert(decode_utf8(Seq::<u8>::empty()) =~= Seq::<char>::empty());
        assert(c =~= Seq::<char>::empty());
    } else {
        let s = len_field_bytes(1, u);
        lemma_len_field_round_trip(1, u, Seq::empty());
        assert(s + Seq::<u8>::empty() =~= s);
        lemma_len_field_len(1, u);
        assert(s.subrange(s.len() as int, s.len() as int) =~= Seq::<u8>::empty());
        assert(echo_fold(Seq::<u8>::empty(), c) == Some(c));
    }
}

proof fn lemma_int_field_fold(tag: nat, v: i32, rest: Seq<u8>)
    requires
        tag == 1 || tag == 2,
        v != 0,
    ensures
        field_at(int_field_bytes(tag, v) + rest) == Some(
            (
                crate::wire::FieldView { tag, wire: 0, value: v as u64, payload: Seq::empty() },
                int_field_bytes(tag, v).len(),
            ),
        ),
        int_field_bytes(tag, v).len() > 0,
        (int_field_bytes(tag, v) + rest).subrange(
            int_field_bytes(tag, v).len() as int,
            (int_field_bytes(tag, v) + rest).len() as int,
        ) == rest,
{
    lemma_varint_field_round_trip(tag, v as u64, rest);
    lemma_varint_bytes_len((tag * 8) as u64);
    let s = int_field_bytes(tag, v) + rest;
    assert(s.subrange(int_field_bytes(tag, v).len() as int, s.len() as int) =~= rest);
}

proof fn lemma_add_round_trip(a: i32, b: i32)
    ensures
        add_fold(int_field_bytes(1, a) + int_field_bytes(2, b), (0i32, 0i32)) == Some((a, b)),
        (int_field_bytes(1, a) + int_field_bytes(2, b)).len() <= 30,
{
    lemma_i32_through_u64(a);
    lemma_i32_through_u64(b);
    let e = Seq::<u8>::empty();
    let tb = int_field_bytes(2, b);
    if b != 0 {
        lemma_int_field_fold(2, b, e);
        assert(tb + e =~= tb);
        assert(add_fold(e, (a, b)) == Some((a, b)));
        lemma_varint_bytes_len(16);
        lemma_varint_bytes_len(b as u64);
    } else {
        assert(tb =~= e);
    }
    assert(add_fold(tb, (a, 0i32)) == Some((a, b)));
    if a != 0 {
        lemma_int_field_fold(1, a, tb);
        lemma_varint_bytes_len(8);
        lemma_varint_bytes_len(a as u64);
    } else {
        assert(int_field_bytes(1, a) + tb =~= tb);
    }
}

proof fn lemma_sum_round_trip(r: i32)
    ensures
        sum_fold(int_field_bytes(1, r), 0i32) == Some(r),
        int_field_bytes(1, r).len() <= 20,
{
    lemma_i32_through_u64(r);
    let e = Seq::<u8>::empty();
    if r != 0 {
        lemma_int_field_fold(1, r, e);
        assert(int_field_bytes(1, r) + e =~= int_field_bytes(1, r));
        assert(sum_fold(e, r) == Some(r));
        lemma_varint_bytes_len(8);
        lemma_varint_bytes_len(r as u64);
    }
}

/// Whether every text in the request can be held by a `String`.
pub open spec fn request_fits(m: Option<RequestView>) -> bool {
    match m {
        Some(RequestView::Echo(c)) => encode_utf8(c).len() <= isize::MAX,
        _ => true,
    }
}

/// Whether every text in the response can be held by a `String`.
pub open spec fn reply_fits(m: Option<ReplyView>) -> bool {
    match m {
        Some(ReplyView::Echo(c)) => encode_utf8(c).len() <= isize::MAX,
        _ => true,
    }
}

/// Decoding the encoding of a request envelope gives the envelope back.
pub proof fn lemma_request_round_trip(m: Option<RequestView>)
    requires
        request_fits(m),
    ensures
        request_of(request_bytes(m)) == Some(m),
{
    let e = Seq::<u8>::empty();
    match m {
        None => {
            assert(request_bytes(m) =~= e);
            assert(request_fold(e, None) == Some(m));
        },
        Some(RequestView::Echo(c)) => {
            lemma_echo_round_trip(c);
            let s = request_bytes(m);
            lemma_len_field_round_trip(1, echo_bytes(c), e);
            assert(s + e =~= s);
            lemma_len_field_len(1, echo_bytes(c));
            assert(s.subrange(s.len() as int, s.len() as int) =~= e);
            assert(request_fold(e, m) == Some(m));
        },
        Some(RequestView::Add(a, b)) => {
            lemma_add_round_trip(a, b);
            let s = request_bytes(m);
            let body = int_field_bytes(1, a) + int_field_bytes(2, b);
            lemma_len_field_round_trip(2, body, e);
            assert(s + e =~= s);
            lemma_len_field_len(2, body);
            assert(s.subrange(s.len() as int, s.len() as int) =~= e);
            assert(request_fold(e, m) == Some(m));
        },
    }
}

/// Decoding the encoding of a response envelope gives the envelope back.
pub proof fn lemma_reply_round_trip(m: Option<ReplyView>)
    requires
        reply_fits(m),
    ensures
        reply_of(reply_bytes(m)) == Some(m),
{
    let e = Seq::<u8>::empty();
    match m {
        None => {
            assert(reply_bytes(m) =~= e);
            assert(reply_fold(e, None) == Some(m));
        },
        Some(ReplyView::Echo(c)) => {
            lemma_echo_round_trip(c);
            let s = reply_bytes(m);
            lemma_len_field_round_trip(1, echo_bytes(c), e);
            assert(s + e =~= s);
            lemma_len_field_len(1, echo_bytes(c));
            assert(s.subrange(s.len() as int, s.len() as int) =~= e);
            assert(reply_fold(e, m) == Some(m));
        },
        Some(ReplyView::Sum(r)) => {
            lemma_sum_round_trip(r);
            let s = reply_bytes(m);
            let body = int_field_bytes(1, r);
            lemma_len_field_round_trip(2, body, e);
            assert(s + e =~= s);
            lemma_len_field_len(2, body);
            assert(s.subrange(s.len() as int, s.len() as int) =~= e);
            assert(reply_fold(e, m) == Some(m));
        },
    }
}

} // verus!
