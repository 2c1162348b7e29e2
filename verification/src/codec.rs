//! The wire format: length-delimited frames in the protobuf encoding.
//!
//! A frame carries one message.  A message is a sequence of tagged fields;
//! each key byte holds a field number and a wire type, integers travel as
//! base-128 varints, and nested payloads as a varint length followed by that
//! many bytes.  The request message carries one of two variants (echo = field
//! 1, add = field 2); the response mirrors it (echo = field 1, sum = field 2).
//! Encoding omits fields that hold their default value, as the usual
//! protobuf encoders do; decoding accepts missing fields as defaults, skips
//! unknown fields at the top level, and reports a frame with no recognized
//! variant separately from one that does not parse at all.

use vstd::prelude::*;
use vstd::arithmetic::div_mod::lemma_fundamental_div_mod;
use vstd::arithmetic::div_mod::lemma_multiply_divide_lt;
use vstd::slice::slice_subrange;

use crate::messages::{ReqView, Request, RespView, Response};

verus! {

/// Key of the echo variant in a request or response: field 1, length-delimited.
pub const TAG_ECHO: u8 = 0x0A;
/// Key of the add variant in a request, and of the sum in a response:
/// field 2, length-delimited.
pub const TAG_ADD: u8 = 0x12;
/// Key of the payload inside an echo message: field 1, length-delimited.
pub const TAG_CONTENT: u8 = 0x0A;
/// Key of the first summand inside an add message: field 1, varint.
pub const TAG_A: u8 = 0x08;
/// Key of the second summand inside an add message: field 2, varint.
pub const TAG_B: u8 = 0x10;
/// Key of the result inside a sum message: field 1, varint.
pub const TAG_RESULT: u8 = 0x08;

/// The base-128 encoding of `n`: seven value bits per byte, least significant
/// first, the high bit of each byte marking a continuation.
pub open spec fn varint(n: u64) -> Seq<u8>
    decreases n,
{
    if n < 0x80 {
        seq![n as u8]
    } else {
        seq![(0x80 + n % 0x80) as u8] + varint(n / 0x80)
    }
}

/// A varint read from the head of `s`: the value and the remaining bytes,
/// or `None` if `s` stops inside the varint or the value overflows 64 bits.
pub open spec fn dec_varint(s: Seq<u8>) -> Option<(u64, Seq<u8>)>
    decreases s.len(),
{
    if s.len() == 0 {
        None
    } else if s[0] < 0x80 {
        Some((s[0] as u64, s.skip(1)))
    } else {
        match dec_varint(s.skip(1)) {
            None => None,
            Some((hi, rest)) => if hi >= 0x0200_0000_0000_0000 {
                None
            } else {
                Some(((s[0] - 0x80 + 0x80 * hi) as u64, rest))
            },
        }
    }
}

/// What remains after a successful varint read is strictly shorter.
pub proof fn lemma_dec_varint_shrinks(s: Seq<u8>)
    ensures
        dec_varint(s) matches Some(p) ==> p.1.len() < s.len(),
    decreases s.len(),
{
    if s.len() > 0 && s[0] >= 0x80 {
        lemma_dec_varint_shrinks(s.skip(1));
    }
}

/// Reading a varint undoes writing one, whatever follows it.
pub proof fn lemma_varint_prepend(n: u64, tail: Seq<u8>)
    ensures
        dec_varint(varint(n) + tail) == Some((n, tail)),
    decreases n,
{
    let s = varint(n) + tail;
    if n < 0x80 {
        assert(s[0] == n as u8);
        assert(s.skip(1) =~= tail);
    } else {
        let b = (0x80 + n % 0x80) as u8;
        assert(s[0] == b);
        assert(s.skip(1) =~= varint(n / 0x80) + tail);
        lemma_varint_prepend(n / 0x80, tail);
        assert(n / 0x80 < 0x0200_0000_0000_0000);
        lemma_fundamental_div_mod(n as int, 0x80);
        assert((b - 0x80 + 0x80 * (n / 0x80)) as u64 == n);
    }
}

/// Writes the varint encoding of `n` after the bytes already in `out`.
pub fn write_varint(n: u64, out: &mut Vec<u8>)
    ensures
        final(out)@ == old(out)@ + varint(n),
    decreases n,
{
    if n < 0x80 {
        out.push(n as u8);
        assert(out@ =~= old(out)@ + varint(n));
    } else {
        out.push((0x80 + (n % 0x80) as u8) as u8);
        write_varint(n / 0x80, out);
        assert(out@ =~= old(out)@ + varint(n));
    }
}

/// The 64 wire bits of a 32-bit integer: the value sign-extended, as the
/// protobuf `int32` scalar is sent.
pub open spec fn sint64_of(a: i32) -> u64 {
    if a >= 0 {
        a as u64
    } else {
        (a + 0x1_0000_0000_0000_0000) as u64
    }
}

/// The 32-bit integer carried by 64 wire bits: the low 32, reinterpreted as
/// signed.  Inverse of [`sint64_of`] on every value that function produces.
pub open spec fn int32_of(v: u64) -> i32 {
    let low = v % 0x1_0000_0000;
    if low < 0x8000_0000 {
        low as i32
    } else {
        (low - 0x1_0000_0000) as i32
    }
}

/// Truncating the wire bits of a 32-bit integer gives that integer back.
pub proof fn lemma_int32_roundtrip(a: i32)
    ensures
        int32_of(sint64_of(a)) == a,
{
    if a >= 0 {
        assert(sint64_of(a) % 0x1_0000_0000 == a) by {
            lemma_fundamental_div_mod(a as int, 0x1_0000_0000);
        };
    } else {
        let v = (a + 0x1_0000_0000_0000_0000) as u64;
        assert(v == 0x1_0000_0000 * 0xFFFF_FFFF + (a + 0x1_0000_0000));
        assert(v % 0x1_0000_0000 == a + 0x1_0000_0000) by {
            vstd::arithmetic::div_mod::lemma_mod_multiples_vanish(
                0xFFFF_FFFF,
                a + 0x1_0000_0000,
                0x1_0000_0000,
            );
            vstd::arithmetic::div_mod::lemma_small_mod(
                (a + 0x1_0000_0000) as nat,
                0x1_0000_0000,
            );
        };
    }
}

/// Computes the wire bits of `a`, as [`sint64_of`] states them.
pub fn sign_extend(a: i32) -> (r: u64)
    ensures
        r == sint64_of(a),
{
    if a >= 0 {
        a as u64
    } else {
        let m: i32 = -1 - a;
        u64::MAX - (m as u64)
    }
}

/// Computes the 32-bit integer carried by wire bits, as [`int32_of`] states it.
pub fn truncate32(v: u64) -> (r: i32)
    ensures
        r == int32_of(v),
{
    let low: u64 = v % 0x1_0000_0000;
    if low < 0x8000_0000 {
        low as i32
    } else {
        ((low as i64) - 0x1_0000_0000) as i32
    }
}

/// A run of `n` payload bytes read from the head of `s`: the payload and the
/// remaining bytes, or `None` if fewer than `n` bytes are left.
pub open spec fn dec_bytes(s: Seq<u8>, n: u64) -> Option<(Seq<u8>, Seq<u8>)> {
    if n <= s.len() {
        Some((s.take(n as int), s.skip(n as int)))
    } else {
        None
    }
}

/// What remains of `s` after the value of one field of wire type `wt` is
/// passed over, or `None` if the bytes run out or the wire type is unknown.
pub open spec fn skip_unknown(wt: u64, s: Seq<u8>) -> Option<Seq<u8>> {
    if wt == 0 {
        match dec_varint(s) {
            None => None,
            Some(p) => Some(p.1),
        }
    } else if wt == 1 {
        if s.len() >= 8 {
            Some(s.skip(8))
        } else {
            None
        }
    } else if wt == 2 {
        match dec_varint(s) {
            None => None,
            Some(p) => match dec_bytes(p.1, p.0) {
                None => None,
                Some(q) => Some(q.1),
            },
        }
    } else if wt == 5 {
        if s.len() >= 4 {
            Some(s.skip(4))
        } else {
            None
        }
    } else {
        None
    }
}

/// Passing over a field value never lengthens the remaining input.
pub proof fn lemma_skip_unknown_len(wt: u64, s: Seq<u8>)
    ensures
        skip_unknown(wt, s) matches Some(rest) ==> rest.len() <= s.len(),
{
    lemma_dec_varint_shrinks(s);
}

/// The payload of an echo message: its single field holds the content, and
/// an absent field means empty content.
pub open spec fn dec_echo_body(s: Seq<u8>) -> Option<Seq<u8>> {
    if s.len() == 0 {
        Some(Seq::empty())
    } else if s[0] == TAG_CONTENT {
        match dec_varint(s.skip(1)) {
            None => None,
            Some((n, rest)) => match dec_bytes(rest, n) {
                None => None,
                Some((content, rest2)) => if rest2.len() == 0 {
                    Some(content)
                } else {
                    None
                },
            },
        }
    } else {
        None
    }
}

/// The payload of an add message: the two summands in field order, each
/// absent when zero.
pub open spec fn dec_add_body(s: Seq<u8>) -> Option<(i32, i32)> {
    if s.len() == 0 {
        Some((0, 0))
    } else if s[0] == TAG_A {
        match dec_varint(s.skip(1)) {
            None => None,
            Some((va, rest)) => if rest.len() == 0 {
                Some((int32_of(va), 0))
            } else if rest[0] == TAG_B {
                match dec_varint(rest.skip(1)) {
                    None => None,
                    Some((vb, rest2)) => if rest2.len() == 0 {
                        Some((int32_of(va), int32_of(vb)))
                    } else {
                        None
                    },
                }
            } else {
                None
            },
        }
    } else if s[0] == TAG_B {
        match dec_varint(s.skip(1)) {
            None => None,
            Some((vb, rest)) => if rest.len() == 0 {
                Some((0, int32_of(vb)))
            } else {
                None
            },
        }
    } else {
        None
    }
}

/// The payload of a sum message: its single field holds the result, absent
/// when zero.
pub open spec fn dec_sum_body(s: Seq<u8>) -> Option<i32> {
    if s.len() == 0 {
        Some(0)
    } else if s[0] == TAG_RESULT {
        match dec_varint(s.skip(1)) {
            None => None,
            Some((v, rest)) => if rest.len() == 0 {
                Some(int32_of(v))
            } else {
                None
            },
        }
    } else {
        None
    }
}

/// The fields of a request message, read left to right.  `acc` is the
/// variant seen so far; a later variant field replaces an earlier one.
/// `None` is a malformed message, `Some(None)` a well-formed message that
/// carries no recognized variant.
pub open spec fn dec_request_fields(s: Seq<u8>, acc: Option<ReqView>) -> Option<Option<ReqView>>
    decreases s.len(),
    via dec_request_fields_decreases
{
    if s.len() == 0 {
        Some(acc)
    } else {
        match dec_varint(s) {
            None => None,
            Some((key, rest)) => if key == TAG_ECHO as u64 {
                match dec_varint(rest) {
                    None => None,
                    Some((n, rest2)) => match dec_bytes(rest2, n) {
                        None => None,
                        Some((body, rest3)) => match dec_echo_body(body) {
                            None => None,
                            Some(content) => dec_request_fields(
                                rest3,
                                Some(ReqView::Echo { content }),
                            ),
                        },
                    },
                }
            } else if key == TAG_ADD as u64 {
                match dec_varint(rest) {
                    None => None,
                    Some((n, rest2)) => match dec_bytes(rest2, n) {
                        None => None,
                        Some((body, rest3)) => match dec_add_body(body) {
                            None => None,
                            Some((a, b)) => dec_request_fields(
                                rest3,
                                Some(ReqView::Add { a, b }),
                            ),
                        },
                    },
                }
            } else if key / 8 == 0 || key / 8 == 1 || key / 8 == 2 {
                None
            } else {
                match skip_unknown(key % 8, rest) {
                    None => None,
                    Some(rest2) => dec_request_fields(rest2, acc),
                }
            },
        }
    }
}

#[via_fn]
proof fn dec_request_fields_decreases(s: Seq<u8>, acc: Option<ReqView>) {
    lemma_dec_varint_shrinks(s);
    match dec_varint(s) {
        None => {},
        Some((key, rest)) => {
            lemma_dec_varint_shrinks(rest);
            lemma_skip_unknown_len(key % 8, rest);
        },
    }
}

/// The fields of a response message, read as [`dec_request_fields`] reads a
/// request: echo in field 1, sum in field 2, later variants replacing
/// earlier ones, unknown fields passed over.
pub open spec fn dec_response_fields(s: Seq<u8>, acc: Option<RespView>) -> Option<Option<RespView>>
    decreases s.len(),
    via dec_response_fields_decreases
{
    if s.len() == 0 {
        Some(acc)
    } else {
        match dec_varint(s) {
            None => None,
            Some((key, rest)) => if key == TAG_ECHO as u64 {
                match dec_varint(rest) {
                    None => None,
                    Some((n, rest2)) => match dec_bytes(rest2, n) {
                        None => None,
                        Some((body, rest3)) => match dec_echo_body(body) {
                            None => None,
                            Some(content) => dec_response_fields(
                                rest3,
                                Some(RespView::Echo { content }),
                            ),
                        },
                    },
                }
            } else if key == TAG_ADD as u64 {
                match dec_varint(rest) {
                    None => None,
                    Some((n, rest2)) => match dec_bytes(rest2, n) {
                        None => None,
                        Some((body, rest3)) => match dec_sum_body(body) {
                            None => None,
                            Some(result) => dec_response_fields(
                                rest3,
                                Some(RespView::Sum { result }),
                            ),
                        },
                    },
                }
            } else if key / 8 == 0 || key / 8 == 1 || key / 8 == 2 {
                None
            } else {
                match skip_unknown(key % 8, rest) {
                    None => None,
                    Some(rest2) => dec_response_fields(rest2, acc),
                }
            },
        }
    }
}

#[via_fn]
proof fn dec_response_fields_decreases(s: Seq<u8>, acc: Option<RespView>) {
    lemma_dec_varint_shrinks(s);
    match dec_varint(s) {
        None => {},
        Some((key, rest)) => {
            lemma_dec_varint_shrinks(rest);
            lemma_skip_unknown_len(key % 8, rest);
        },
    }
}

/// The request carried by one frame: `None` for a malformed frame,
/// `Some(None)` for a well-formed frame with no recognized variant.
pub open spec fn dec_request(s: Seq<u8>) -> Option<Option<ReqView>> {
    dec_request_fields(s, None)
}

/// The response carried by one frame, read as [`dec_request`] reads one.
pub open spec fn dec_response(s: Seq<u8>) -> Option<Option<RespView>> {
    dec_response_fields(s, None)
}

/// One length-delimited field: its key byte, the payload length, the payload.
pub open spec fn enc_len_field(tag: u8, payload: Seq<u8>) -> Seq<u8> {
    seq![tag] + varint(payload.len() as u64) + payload
}

/// The payload of an echo message; empty content is omitted.
pub open spec fn enc_echo_body(content: Seq<u8>) -> Seq<u8> {
    if content.len() == 0 {
        Seq::empty()
    } else {
        enc_len_field(TAG_CONTENT, content)
    }
}

/// One varint field carrying a 32-bit integer; a zero is omitted.
pub open spec fn enc_int_field(tag: u8, a: i32) -> Seq<u8> {
    if a == 0 {
        Seq::empty()
    } else {
        seq![tag] + varint(sint64_of(a))
    }
}

/// The payload of an add message: both summands in field order.
pub open spec fn enc_add_body(a: i32, b: i32) -> Seq<u8> {
    enc_int_field(TAG_A, a) + enc_int_field(TAG_B, b)
}

/// The payload of a sum message: the result.
pub open spec fn enc_sum_body(result: i32) -> Seq<u8> {
    enc_int_field(TAG_RESULT, result)
}

/// The frame that carries a request.
pub open spec fn enc_request(r: ReqView) -> Seq<u8> {
    match r {
        ReqView::Echo { content } => enc_len_field(TAG_ECHO, enc_echo_body(content)),
        ReqView::Add { a, b } => enc_len_field(TAG_ADD, enc_add_body(a, b)),
    }
}

/// The frame that carries a response.
pub open spec fn enc_response(r: RespView) -> Seq<u8> {
    match r {
        RespView::Echo { content } => enc_len_field(TAG_ECHO, enc_echo_body(content)),
        RespView::Sum { result } => enc_len_field(TAG_ADD, enc_sum_body(result)),
    }
}

/// Reads a varint from the head of `s`, returning the value and the rest.
pub fn read_varint<'a>(s: &'a [u8]) -> (r: Option<(u64, &'a [u8])>)
    ensures
        match dec_varint(s@) {
            None => r is None,
            Some(p) => r matches Some(q) && q.0 == p.0 && q.1@ == p.1,
        },
    decreases s@.len(),
{
    if s.len() == 0 {
        None
    } else {
        let b = s[0];
        let tail = slice_subrange(s, 1, s.len());
        if b < 0x80 {
            Some((b as u64, tail))
        } else {
            match read_varint(tail) {
                None => None,
                Some((hi, rest)) => {
                    if hi >= 0x0200_0000_0000_0000 {
                        None
                    } else {
                        Some(((b - 0x80) as u64 + 0x80 * hi, rest))
                    }
                },
            }
        }
    }
}

/// A request small enough to frame: its payload length and the field
/// overhead must fit the 64-bit wire length.
pub open spec fn req_wf(r: ReqView) -> bool {
    match r {
        ReqView::Echo { content } => content.len() <= u64::MAX - 16,
        ReqView::Add { .. } => true,
    }
}

/// A response small enough to frame, as [`req_wf`] bounds a request.
pub open spec fn resp_wf(r: RespView) -> bool {
    match r {
        RespView::Echo { content } => content.len() <= u64::MAX - 16,
        RespView::Sum { .. } => true,
    }
}

/// A varint takes at least one byte and at most ten.
pub proof fn lemma_varint_len(n: u64)
    ensures
        1 <= varint(n).len(),
        n < 0x80 ==> varint(n).len() <= 1,
        n < 0x4000 ==> varint(n).len() <= 2,
        n < 0x20_0000 ==> varint(n).len() <= 3,
        n < 0x1000_0000 ==> varint(n).len() <= 4,
        n < 0x8_0000_0000 ==> varint(n).len() <= 5,
        n < 0x400_0000_0000 ==> varint(n).len() <= 6,
        n < 0x2_0000_0000_0000 ==> varint(n).len() <= 7,
        n < 0x100_0000_0000_0000 ==> varint(n).len() <= 8,
        n < 0x8000_0000_0000_0000 ==> varint(n).len() <= 9,
        varint(n).len() <= 10,
    decreases n,
{
    if n >= 0x80 {
        lemma_varint_len(n / 0x80);
        if n < 0x4000 {
            lemma_multiply_divide_lt(n as int, 0x80, 0x80);
        }
        if n < 0x20_0000 {
            lemma_multiply_divide_lt(n as int, 0x80, 0x4000);
        }
        if n < 0x1000_0000 {
            lemma_multiply_divide_lt(n as int, 0x80, 0x20_0000);
        }
        if n < 0x8_0000_0000 {
            lemma_multiply_divide_lt(n as int, 0x80, 0x1000_0000);
        }
        if n < 0x400_0000_0000 {
            lemma_multiply_divide_lt(n as int, 0x80, 0x8_0000_0000);
        }
        if n < 0x2_0000_0000_0000 {
            lemma_multiply_divide_lt(n as int, 0x80, 0x400_0000_0000);
        }
        if n < 0x100_0000_0000_0000 {
            lemma_multiply_divide_lt(n as int, 0x80, 0x2_0000_0000_0000);
        }
        if n < 0x8000_0000_0000_0000 {
            lemma_multiply_divide_lt(n as int, 0x80, 0x100_0000_0000_0000);
        }
        lemma_multiply_divide_lt(n as int, 0x80, 0x8000_0000_0000_0000);
    }
}

/// Reading back an echo payload gives the content that was encoded.
pub proof fn lemma_echo_body_roundtrip(content: Seq<u8>)
    requires
        content.len() <= u64::MAX,
    ensures
        dec_echo_body(enc_echo_body(content)) == Some(content),
{
    if content.len() > 0 {
        let clen = content.len() as u64;
        let s = enc_echo_body(content);
        assert(s[0] == TAG_CONTENT);
        assert(s.skip(1) =~= varint(clen) + content);
        lemma_varint_prepend(clen, content);
        assert(content.take(clen as int) =~= content);
        assert(content.skip(clen as int) =~= Seq::<u8>::empty());
    }
}

/// Reading back an add payload gives the summands that were encoded.
pub proof fn lemma_add_body_roundtrip(a: i32, b: i32)
    ensures
        dec_add_body(enc_add_body(a, b)) == Some((a, b)),
{
    lemma_int32_roundtrip(a);
    lemma_int32_roundtrip(b);
    let s = enc_add_body(a, b);
    if a == 0 && b == 0 {
        assert(s =~= Seq::<u8>::empty());
    } else if a != 0 && b == 0 {
        assert(s =~= seq![TAG_A] + varint(sint64_of(a)));
        assert(s[0] == TAG_A);
        assert(s.skip(1) =~= varint(sint64_of(a)) + Seq::<u8>::empty());
        lemma_varint_prepend(sint64_of(a), Seq::empty());
    } else if a == 0 {
        assert(s =~= seq![TAG_B] + varint(sint64_of(b)));
        assert(s[0] == TAG_B);
        assert(s.skip(1) =~= varint(sint64_of(b)) + Seq::<u8>::empty());
        lemma_varint_prepend(sint64_of(b), Seq::empty());
    } else {
        let tail_b = seq![TAG_B] + varint(sint64_of(b));
        assert(s[0] == TAG_A);
        assert(s.skip(1) =~= varint(sint64_of(a)) + tail_b);
        lemma_varint_prepend(sint64_of(a), tail_b);
        assert(tail_b[0] == TAG_B);
        assert(tail_b.skip(1) =~= varint(sint64_of(b)) + Seq::<u8>::empty());
        lemma_varint_prepend(sint64_of(b), Seq::empty());
    }
}

/// Reading back a sum payload gives the result that was encoded.
pub proof fn lemma_sum_body_roundtrip(result: i32)
    ensures
        dec_sum_body(enc_sum_body(result)) == Some(result),
{
    lemma_int32_roundtrip(result);
    let s = enc_sum_body(result);
    if result != 0 {
        assert(s[0] == TAG_RESULT);
        assert(s.skip(1) =~= varint(sint64_of(result)) + Seq::<u8>::empty());
        lemma_varint_prepend(sint64_of(result), Seq::empty());
    }
}

/// Decoding undoes encoding: every well-formed request comes back from its
/// own frame, unchanged.
pub proof fn lemma_request_roundtrip(r: ReqView)
    requires
        req_wf(r),
    ensures
        dec_request(enc_request(r)) == Some(Some(r)),
{
    let s = enc_request(r);
    match r {
        ReqView::Echo { content } => {
            let body = enc_echo_body(content);
            lemma_varint_len(content.len() as u64);
            let blen = body.len() as u64;
            assert(s[0] == TAG_ECHO);
            assert(s.skip(1) =~= varint(blen) + body);
            lemma_varint_prepend(blen, body);
            assert(body.take(blen as int) =~= body);
            assert(body.skip(blen as int) =~= Seq::<u8>::empty());
            lemma_echo_body_roundtrip(content);
            assert(dec_request_fields(Seq::<u8>::empty(), Some(ReqView::Echo { content }))
                == Some(Some(ReqView::Echo { content })));
        },
        ReqView::Add { a, b } => {
            let body = enc_add_body(a, b);
            lemma_varint_len(sint64_of(a));
            lemma_varint_len(sint64_of(b));
            let blen = body.len() as u64;
            assert(s[0] == TAG_ADD);
            assert(s.skip(1) =~= varint(blen) + body);
            lemma_varint_prepend(blen, body);
            assert(body.take(blen as int) =~= body);
            assert(body.skip(blen as int) =~= Seq::<u8>::empty());
            lemma_add_body_roundtrip(a, b);
            assert(dec_request_fields(Seq::<u8>::empty(), Some(ReqView::Add { a, b }))
                == Some(Some(ReqView::Add { a, b })));
        },
    }
}

/// Decoding undoes encoding for responses, as it does for requests.
pub proof fn lemma_response_roundtrip(r: RespView)
    requires
        resp_wf(r),
    ensures
        dec_response(enc_response(r)) == Some(Some(r)),
{
    let s = enc_response(r);
    match r {
        RespView::Echo { content } => {
            let body = enc_echo_body(content);
            lemma_varint_len(content.len() as u64);
            let blen = body.len() as u64;
            assert(s[0] == TAG_ECHO);
            assert(s.skip(1) =~= varint(blen) + body);
            lemma_varint_prepend(blen, body);
            assert(body.take(blen as int) =~= body);
            assert(body.skip(blen as int) =~= Seq::<u8>::empty());
            lemma_echo_body_roundtrip(content);
            assert(dec_response_fields(Seq::<u8>::empty(), Some(RespView::Echo { content }))
                == Some(Some(RespView::Echo { content })));
        },
        RespView::Sum { result } => {
            let body = enc_sum_body(result);
            lemma_varint_len(sint64_of(result));
            let blen = body.len() as u64;
            assert(s[0] == TAG_ADD);
            assert(s.skip(1) =~= varint(blen) + body);
            lemma_varint_prepend(blen, body);
            assert(body.take(blen as int) =~= body);
            assert(body.skip(blen as int) =~= Seq::<u8>::empty());
            lemma_sum_body_roundtrip(result);
            assert(dec_response_fields(Seq::<u8>::empty(), Some(RespView::Sum { result }))
                == Some(Some(RespView::Sum { result })));
        },
    }
}

/// The view of a possibly absent request.
pub open spec fn opt_req_view(o: Option<Request>) -> Option<ReqView> {
    match o {
        None => None,
        Some(r) => Some(r@),
    }
}

/// The view of a possibly absent response.
pub open spec fn opt_resp_view(o: Option<Response>) -> Option<RespView> {
    match o {
        None => None,
        Some(r) => Some(r@),
    }
}

/// Reads `n` payload bytes from the head of `s`.
fn read_bytes<'a>(s: &'a [u8], n: u64) -> (r: Option<(&'a [u8], &'a [u8])>)
    ensures
        match dec_bytes(s@, n) {
            None => r is None,
            Some(p) => r matches Some(q) && q.0@ == p.0 && q.1@ == p.1,
        },
{
    if n <= s.len() as u64 {
        let k = n as usize;
        Some((slice_subrange(s, 0, k), slice_subrange(s, k, s.len())))
    } else {
        None
    }
}

/// Passes over the value of one field of wire type `wt`.
fn skip_unknown_field<'a>(wt: u64, s: &'a [u8]) -> (r: Option<&'a [u8]>)
    ensures
        match skip_unknown(wt, s@) {
            None => r is None,
            Some(p) => r matches Some(q) && q@ == p,
        },
{
    if wt == 0 {
        match read_varint(s) {
            None => None,
            Some((_v, rest)) => Some(rest),
        }
    } else if wt == 1 {
        if s.len() >= 8 {
            Some(slice_subrange(s, 8, s.len()))
        } else {
            None
        }
    } else if wt == 2 {
        match read_varint(s) {
            None => None,
            Some((n, rest)) => match read_bytes(rest, n) {
                None => None,
                Some((_p, rest2)) => Some(rest2),
            },
        }
    } else if wt == 5 {
        if s.len() >= 4 {
            Some(slice_subrange(s, 4, s.len()))
        } else {
            None
        }
    } else {
        None
    }
}

/// Reads the payload of an echo message.
fn read_echo_body(s: &[u8]) -> (r: Option<Vec<u8>>)
    ensures
        match dec_echo_body(s@) {
            None => r is None,
            Some(c) => r matches Some(v) && v@ == c,
        },
{
    if s.len() == 0 {
        Some(Vec::new())
    } else if s[0] == TAG_CONTENT {
        let tail = slice_subrange(s, 1, s.len());
        match read_varint(tail) {
            None => None,
            Some((n, rest)) => match read_bytes(rest, n) {
                None => None,
                Some((content, rest2)) => if rest2.len() == 0 {
                    Some(vstd::slice::slice_to_vec(content))
                } else {
                    None
                },
            },
        }
    } else {
        None
    }
}

/// Reads the payload of an add message.
fn read_add_body(s: &[u8]) -> (r: Option<(i32, i32)>)
    ensures
        r == dec_add_body(s@),
{
    if s.len() == 0 {
        Some((0, 0))
    } else if s[0] == TAG_A {
        let tail = slice_subrange(s, 1, s.len());
        match read_varint(tail) {
            None => None,
            Some((va, rest)) => if rest.len() == 0 {
                Some((truncate32(va), 0))
            } else if rest[0] == TAG_B {
                let tail2 = slice_subrange(rest, 1, rest.len());
                match read_varint(tail2) {
                    None => None,
                    Some((vb, rest2)) => if rest2.len() == 0 {
                        Some((truncate32(va), truncate32(vb)))
                    } else {
                        None
                    },
                }
            } else {
                None
            },
        }
    } else if s[0] == TAG_B {
        let tail = slice_subrange(s, 1, s.len());
        match read_varint(tail) {
            None => None,
            Some((vb, rest)) => if rest.len() == 0 {
                Some((0, truncate32(vb)))
            } else {
                None
            },
        }
    } else {
        None
    }
}

/// Reads the payload of a sum message.
fn read_sum_body(s: &[u8]) -> (r: Option<i32>)
    ensures
        r == dec_sum_body(s@),
{
    if s.len() == 0 {
        Some(0)
    } else if s[0] == TAG_RESULT {
        let tail = slice_subrange(s, 1, s.len());
        match read_varint(tail) {
            None => None,
            Some((v, rest)) => if rest.len() == 0 {
                Some(truncate32(v))
            } else {
                None
            },
        }
    } else {
        None
    }
}

/// Reads the fields of a request message, carrying the variant seen so far.
fn read_request_fields(s: &[u8], acc: Option<Request>) -> (r: Option<Option<Request>>)
    ensures
        match dec_request_fields(s@, opt_req_view(acc)) {
            None => r is None,
            Some(m) => r matches Some(q) && opt_req_view(q) == m,
        },
    decreases s@.len(),
{
    if s.len() == 0 {
        Some(acc)
    } else {
        proof {
            lemma_dec_varint_shrinks(s@);
        }
        match read_varint(s) {
            None => None,
            Some((key, rest)) => {
                proof {
                    lemma_dec_varint_shrinks(rest@);
                    lemma_skip_unknown_len(key % 8, rest@);
                }
                if key == TAG_ECHO as u64 {
                    match read_varint(rest) {
                        None => None,
                        Some((n, rest2)) => match read_bytes(rest2, n) {
                            None => None,
                            Some((body, rest3)) => match read_echo_body(body) {
                                None => None,
                                Some(content) => read_request_fields(
                                    rest3,
                                    Some(Request::Echo { content }),
                                ),
                            },
                        },
                    }
                } else if key == TAG_ADD as u64 {
                    match read_varint(rest) {
                        None => None,
                        Some((n, rest2)) => match read_bytes(rest2, n) {
                            None => None,
                            Some((body, rest3)) => match read_add_body(body) {
                                None => None,
                                Some((a, b)) => read_request_fields(
                                    rest3,
                                    Some(Request::Add { a, b }),
                                ),
                            },
                        },
                    }
                } else if key / 8 == 0 || key / 8 == 1 || key / 8 == 2 {
                    None
                } else {
                    match skip_unknown_field(key % 8, rest) {
                        None => None,
                        Some(rest2) => read_request_fields(rest2, acc),
                    }
                }
            },
        }
    }
}

/// Decodes the request carried by one frame: `None` for a malformed frame,
/// `Some(None)` for a well-formed frame with no recognized variant.
pub fn decode_request(s: &[u8]) -> (r: Option<Option<Request>>)
    ensures
        match dec_request(s@) {
            None => r is None,
            Some(m) => r matches Some(q) && opt_req_view(q) == m,
        },
{
    read_request_fields(s, None)
}

/// Reads the fields of a response message, carrying the variant seen so far.
fn read_response_fields(s: &[u8], acc: Option<Response>) -> (r: Option<Option<Response>>)
    ensures
        match dec_response_fields(s@, opt_resp_view(acc)) {
            None => r is None,
            Some(m) => r matches Some(q) && opt_resp_view(q) == m,
        },
    decreases s@.len(),
{
    if s.len() == 0 {
        Some(acc)
    } else {
        proof {
            lemma_dec_varint_shrinks(s@);
        }
        match read_varint(s) {
            None => None,
            Some((key, rest)) => {
                proof {
                    lemma_dec_varint_shrinks(rest@);
                    lemma_skip_unknown_len(key % 8, rest@);
                }
                if key == TAG_ECHO as u64 {
                    match read_varint(rest) {
                        None => None,
                        Some((n, rest2)) => match read_bytes(rest2, n) {
                            None => None,
                            Some((body, rest3)) => match read_echo_body(body) {
                                None => None,
                                Some(content) => read_response_fields(
                                    rest3,
                                    Some(Response::Echo { content }),
                                ),
                            },
                        },
                    }
                } else if key == TAG_ADD as u64 {
                    match read_varint(rest) {
                        None => None,
                        Some((n, rest2)) => match read_bytes(rest2, n) {
                            None => None,
                            Some((body, rest3)) => match read_sum_body(body) {
                                None => None,
                                Some(result) => read_response_fields(
                                    rest3,
                                    Some(Response::Sum { result }),
                                ),
                            },
                        },
                    }
                } else if key / 8 == 0 || key / 8 == 1 || key / 8 == 2 {
                    None
                } else {
                    match skip_unknown_field(key % 8, rest) {
                        None => None,
                        Some(rest2) => read_response_fields(rest2, acc),
                    }
                }
            },
        }
    }
}

/// Decodes the response carried by one frame, as [`decode_request`] decodes
/// a request frame.
pub fn decode_response(s: &[u8]) -> (r: Option<Option<Response>>)
    ensures
        match dec_response(s@) {
            None => r is None,
            Some(m) => r matches Some(q) && opt_resp_view(q) == m,
        },
{
    read_response_fields(s, None)
}

/// Appends a copy of `src` to `out`.
fn push_bytes(out: &mut Vec<u8>, src: &Vec<u8>)
    ensures
        final(out)@ == old(out)@ + src@,
{
    let mut i: usize = 0;
    while i < src.len()
        invariant
            i <= src@.len(),
            out@ == old(out)@ + src@.take(i as int),
        decreases src@.len() - i,
    {
        out.push(src[i]);
        i = i + 1;
        assert(out@ =~= old(out)@ + src@.take(i as int));
    }
    assert(old(out)@ + src@.take(src@.len() as int) =~= old(out)@ + src@);
}

/// Appends one varint field carrying a 32-bit integer, omitting a zero.
fn write_int_field(tag: u8, a: i32, out: &mut Vec<u8>)
    ensures
        final(out)@ == old(out)@ + enc_int_field(tag, a),
{
    if a != 0 {
        out.push(tag);
        write_varint(sign_extend(a), out);
        assert(out@ =~= old(out)@ + enc_int_field(tag, a));
    } else {
        assert(out@ =~= old(out)@ + enc_int_field(tag, a));
    }
}

/// Wraps a message payload in its variant field and returns the frame.
fn wrap_frame(tag: u8, body: Vec<u8>) -> (out: Vec<u8>)
    ensures
        out@ == enc_len_field(tag, body@),
{
    let mut out: Vec<u8> = Vec::new();
    out.push(tag);
    write_varint(body.len() as u64, &mut out);
    let mut rest = body;
    let ghost body_view = rest@;
    out.append(&mut rest);
    assert(out@ =~= enc_len_field(tag, body_view));
    out
}

/// Encodes one request as the frame that carries it.
pub fn encode_request(r: &Request) -> (out: Vec<u8>)
    ensures
        out@ == enc_request(r@),
{
    match r {
        Request::Echo { content } => {
            let mut body: Vec<u8> = Vec::new();
            if content.len() > 0 {
                body.push(TAG_CONTENT);
                write_varint(content.len() as u64, &mut body);
                push_bytes(&mut body, content);
                assert(body@ =~= enc_echo_body(content@));
            }
            wrap_frame(TAG_ECHO, body)
        },
        Request::Add { a, b } => {
            let mut body: Vec<u8> = Vec::new();
            write_int_field(TAG_A, *a, &mut body);
            write_int_field(TAG_B, *b, &mut body);
            assert(body@ =~= enc_add_body(*a, *b));
            wrap_frame(TAG_ADD, body)
        },
    }
}

/// Encodes one response as the frame that carries it.
pub fn encode_response(r: &Response) -> (out: Vec<u8>)
    ensures
        out@ == enc_response(r@),
{
    match r {
        Response::Echo { content } => {
            let mut body: Vec<u8> = Vec::new();
            if content.len() > 0 {
                body.push(TAG_CONTENT);
                write_varint(content.len() as u64, &mut body);
                push_bytes(&mut body, content);
                assert(body@ =~= enc_echo_body(content@));
            }
            wrap_frame(TAG_ECHO, body)
        },
        Response::Sum { result } => {
            let mut body: Vec<u8> = Vec::new();
            write_int_field(TAG_RESULT, *result, &mut body);
            assert(body@ =~= enc_sum_body(*result));
            wrap_frame(TAG_ADD, body)
        },
    }
}

} // verus!
