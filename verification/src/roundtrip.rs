use vstd::prelude::*;
use vstd::utf8::encode_utf8;
use crate::codec::{
    parse_str_bytes, parse_string, parse_entry, parse_rest, parse_map, parse_lit,
    parse_msg_type, parse_body, parse_payload, spec_decode_payload, spec_decode_frame,
    spec_escape, esc1, spec_enc_str, spec_enc_entry, spec_enc_rest, spec_enc_map,
    spec_enc_msg_type, spec_enc_body, spec_enc_payload, spec_prefix, spec_enc_frame,
    prefix_value, is_digit, DecodeError, QUOTE, COMMA, COLON, BACKSLASH, LBRACE, RBRACE,
};
use crate::message::{MessageType, MessageView, OperationResult};

verus! {

/// An escaped string token is read back as the bytes it came from, and
/// reading stops exactly at the closing quote.
pub proof fn lemma_parse_str_bytes_round(b: Seq<u8>, rest: Seq<u8>)
    ensures
        parse_str_bytes(spec_escape(b) + seq![QUOTE] + rest) == Some((b, rest)),
    decreases b.len(),
{
    let s = spec_escape(b) + seq![QUOTE] + rest;
    if b.len() == 0 {
        assert(s =~= seq![QUOTE] + rest);
        assert(s[0] == QUOTE);
        assert(s.skip(1) =~= rest);
        assert(b =~= Seq::<u8>::empty());
    } else {
        let x = b[0];
        let t = b.skip(1);
        assert(spec_escape(b) == esc1(x) + spec_escape(t));
        lemma_parse_str_bytes_round(t, rest);
        if x == QUOTE || x == BACKSLASH {
            assert(s =~= seq![BACKSLASH, x] + (spec_escape(t) + seq![QUOTE] + rest));
            assert(s[0] == BACKSLASH);
            assert(s[1] == x);
            assert(s.skip(2) =~= spec_escape(t) + seq![QUOTE] + rest);
            assert(seq![x] + t =~= b);
        } else {
            assert(s =~= seq![x] + (spec_escape(t) + seq![QUOTE] + rest));
            assert(s[0] == x);
            assert(s.skip(1) =~= spec_escape(t) + seq![QUOTE] + rest);
            assert(seq![x] + t =~= b);
        }
    }
}

/// An encoded string is read back as the string it came from.
pub proof fn lemma_parse_string_round(v: Seq<char>, rest: Seq<u8>)
    ensures
        parse_string(spec_enc_str(v) + rest) == Some((v, rest)),
{
    broadcast use vstd::utf8::encode_utf8_valid_utf8, vstd::utf8::encode_utf8_decode_utf8;

    let s = spec_enc_str(v) + rest;
    assert(s[0] == QUOTE);
    assert(s.skip(1) =~= spec_escape(encode_utf8(v)) + seq![QUOTE] + rest);
    lemma_parse_str_bytes_round(encode_utf8(v), rest);
}

/// An encoded binding is read back as the binding it came from.
pub proof fn lemma_parse_entry_round(e: (Seq<char>, Seq<char>), rest: Seq<u8>)
    ensures
        parse_entry(spec_enc_entry(e) + rest) == Some((e, rest)),
{
    let s = spec_enc_entry(e) + rest;
    let rest1 = seq![COLON] + spec_enc_str(e.1) + rest;
    assert(s =~= spec_enc_str(e.0) + rest1);
    lemma_parse_string_round(e.0, rest1);
    assert(rest1[0] == COLON);
    assert(rest1.skip(1) =~= spec_enc_str(e.1) + rest);
    lemma_parse_string_round(e.1, rest);
}

/// An encoded tail of a map is read back as the bindings it came from.
pub proof fn lemma_parse_rest_round(es: Seq<(Seq<char>, Seq<char>)>, rest: Seq<u8>)
    ensures
        parse_rest(spec_enc_rest(es) + seq![RBRACE] + rest) == Some((es, rest)),
    decreases es.len(),
{
    let s = spec_enc_rest(es) + seq![RBRACE] + rest;
    if es.len() == 0 {
        assert(s =~= seq![RBRACE] + rest);
        assert(s[0] == RBRACE);
        assert(s.skip(1) =~= rest);
        assert(es =~= Seq::<(Seq<char>, Seq<char>)>::empty());
    } else {
        let e = es[0];
        let t = es.skip(1);
        assert(spec_enc_rest(es) == seq![COMMA] + spec_enc_entry(e) + spec_enc_rest(t));
        let mid = spec_enc_rest(t) + seq![RBRACE] + rest;
        assert(s =~= seq![COMMA] + (spec_enc_entry(e) + mid));
        assert(s[0] == COMMA);
        assert(s[0] != RBRACE);
        assert(s.skip(1) =~= spec_enc_entry(e) + mid);
        lemma_parse_entry_round(e, mid);
        lemma_parse_rest_round(t, rest);
        assert(seq![e] + t =~= es);
    }
}

/// An encoded map is read back as the bindings it came from.
pub proof fn lemma_parse_map_round(es: Seq<(Seq<char>, Seq<char>)>, rest: Seq<u8>)
    ensures
        parse_map(spec_enc_map(es) + rest) == Some((es, rest)),
{
    let s = spec_enc_map(es) + rest;
    if es.len() == 0 {
        assert(s =~= seq![LBRACE, RBRACE] + rest);
        assert(s[0] == LBRACE);
        assert(s[1] == RBRACE);
        assert(s.skip(2) =~= rest);
        assert(es =~= Seq::<(Seq<char>, Seq<char>)>::empty());
    } else {
        let e = es[0];
        let t = es.skip(1);
        let mid = spec_enc_rest(t) + seq![RBRACE] + rest;
        assert(s =~= seq![LBRACE] + (spec_enc_entry(e) + mid));
        assert(s[0] == LBRACE);
        assert(s[1] == spec_enc_entry(e)[0]);
        assert(spec_enc_entry(e)[0] == QUOTE);
        assert(s.skip(1) =~= spec_enc_entry(e) + mid);
        lemma_parse_entry_round(e, mid);
        lemma_parse_rest_round(t, rest);
        assert(seq![e] + t =~= es);
    }
}

/// A literal at the front of the input is consumed and nothing else.
pub proof fn lemma_parse_lit_round(lit: Seq<u8>, rest: Seq<u8>)
    ensures
        parse_lit(lit + rest, lit) == Some(rest),
{
    assert((lit + rest).take(lit.len() as int) =~= lit);
    assert((lit + rest).skip(lit.len() as int) =~= rest);
}

/// A literal that differs from the input at one position does not match.
pub proof fn lemma_parse_lit_mismatch(s: Seq<u8>, lit: Seq<u8>, k: int)
    requires
        0 <= k < lit.len(),
        k < s.len(),
        s[k] != lit[k],
    ensures
        parse_lit(s, lit) is None,
{
    if s.len() >= lit.len() && s.take(lit.len() as int) == lit {
        assert(s.take(lit.len() as int)[k] == s[k]);
    }
}

/// An encoded tag is read back as the tag it came from: the fixed literals
/// for the five variants are pairwise distinguishable, so trying them in
/// order picks the right one.
pub proof fn lemma_parse_msg_type_round(t: MessageType, rest: Seq<u8>)
    ensures
        parse_msg_type(spec_enc_msg_type(t) + rest) == Some((t, rest)),
{
    broadcast use vstd::utf8::is_ascii_chars_encode_utf8;

    reveal_strlit("\"SendToken\"");
    reveal_strlit("\"RequestToken\"");
    reveal_strlit("\"Username\"");
    reveal_strlit("\"LoginRequest\"");
    reveal_strlit("{\"Result\":\"Success\"}");
    reveal_strlit("{\"Result\":\"Fail\"}");
    assert(vstd::utf8::is_ascii_chars("\"SendToken\""@));
    assert(vstd::utf8::is_ascii_chars("\"RequestToken\""@));
    assert(vstd::utf8::is_ascii_chars("\"Username\""@));
    assert(vstd::utf8::is_ascii_chars("\"LoginRequest\""@));
    assert(vstd::utf8::is_ascii_chars("{\"Result\":\"Success\"}"@));
    assert(vstd::utf8::is_ascii_chars("{\"Result\":\"Fail\"}"@));
    let la = encode_utf8("\"SendToken\""@);
    let lb = encode_utf8("\"RequestToken\""@);
    let lc = encode_utf8("\"Username\""@);
    let ld = encode_utf8("\"LoginRequest\""@);
    let le = encode_utf8("{\"Result\":\"Success\"}"@);
    let lf = encode_utf8("{\"Result\":\"Fail\"}"@);
    let s = spec_enc_msg_type(t) + rest;
    match t {
        MessageType::SendToken => {
            lemma_parse_lit_round(la, rest);
        },
        MessageType::RequestToken => {
            assert(s[1] == lb[1]);
            assert(lb[1] == 'R' as u8);
            assert(la[1] == 'S' as u8);
            lemma_parse_lit_mismatch(s, la, 1);
            lemma_parse_lit_round(lb, rest);
        },
        MessageType::Username => {
            assert(s[1] == lc[1]);
            assert(lc[1] == 'U' as u8);
            assert(la[1] == 'S' as u8);
            assert(lb[1] == 'R' as u8);
            lemma_parse_lit_mismatch(s, la, 1);
            lemma_parse_lit_mismatch(s, lb, 1);
            lemma_parse_lit_round(lc, rest);
        },
        MessageType::LoginRequest => {
            assert(s[1] == ld[1]);
            assert(ld[1] == 'L' as u8);
            assert(la[1] == 'S' as u8);
            assert(lb[1] == 'R' as u8);
            assert(lc[1] == 'U' as u8);
            lemma_parse_lit_mismatch(s, la, 1);
            lemma_parse_lit_mismatch(s, lb, 1);
            lemma_parse_lit_mismatch(s, lc, 1);
            lemma_parse_lit_round(ld, rest);
        },
        MessageType::Result(OperationResult::Success) => {
            assert(s[0] == le[0]);
            assert(le[0] == '{' as u8);
            assert(la[0] == '"' as u8);
            assert(lb[0] == '"' as u8);
            assert(lc[0] == '"' as u8);
            assert(ld[0] == '"' as u8);
            lemma_parse_lit_mismatch(s, la, 0);
            lemma_parse_lit_mismatch(s, lb, 0);
            lemma_parse_lit_mismatch(s, lc, 0);
            lemma_parse_lit_mismatch(s, ld, 0);
            lemma_parse_lit_round(le, rest);
        },
        MessageType::Result(OperationResult::Fail) => {
            assert(s[0] == lf[0]);
            assert(lf[0] == '{' as u8);
            assert(la[0] == '"' as u8);
            assert(lb[0] == '"' as u8);
            assert(lc[0] == '"' as u8);
            assert(ld[0] == '"' as u8);
            assert(s[11] == lf[11]);
            assert(lf[11] == 'F' as u8);
            assert(le[11] == 'S' as u8);
            lemma_parse_lit_mismatch(s, la, 0);
            lemma_parse_lit_mismatch(s, lb, 0);
            lemma_parse_lit_mismatch(s, lc, 0);
            lemma_parse_lit_mismatch(s, ld, 0);
            lemma_parse_lit_mismatch(s, le, 11);
            lemma_parse_lit_round(lf, rest);
        },
    }
}

/// An encoded body is read back as the body it came from: a map never starts
/// with the letter that `null` starts with.
pub proof fn lemma_parse_body_round(b: Option<Seq<(Seq<char>, Seq<char>)>>, rest: Seq<u8>)
    ensures
        parse_body(spec_enc_body(b) + rest) == Some((b, rest)),
{
    broadcast use vstd::utf8::is_ascii_chars_encode_utf8;

    reveal_strlit("null");
    assert(vstd::utf8::is_ascii_chars("null"@));
    let ln = encode_utf8("null"@);
    let s = spec_enc_body(b) + rest;
    match b {
        None => {
            lemma_parse_lit_round(ln, rest);
        },
        Some(es) => {
            assert(s[0] == spec_enc_map(es)[0]);
            assert(spec_enc_map(es)[0] == LBRACE);
            assert(ln[0] == 'n' as u8);
            lemma_parse_lit_mismatch(s, ln, 0);
            lemma_parse_map_round(es, rest);
        },
    }
}

/// Concatenation of sequences is associative.
pub proof fn lemma_concat_assoc(a: Seq<u8>, b: Seq<u8>, c: Seq<u8>)
    ensures
        (a + b) + c == a + (b + c),
{
    assert((a + b) + c =~= a + (b + c));
}

/// An encoded payload is read back as the message it came from.
pub proof fn lemma_parse_payload_round(m: MessageView, rest: Seq<u8>)
    ensures
        parse_payload(spec_enc_payload(m) + rest) == Some((m, rest)),
{
    let l1 = encode_utf8("{\"header\":"@);
    let l2 = encode_utf8(",\"msg_type\":"@);
    let l3 = encode_utf8(",\"body\":"@);
    let l4 = encode_utf8("}"@);
    let eh = spec_enc_map(m.header);
    let et = spec_enc_msg_type(m.msg_type);
    let eb = spec_enc_body(m.body);
    let t6 = l4 + rest;
    let t5 = eb + t6;
    let t4 = l3 + t5;
    let t3 = et + t4;
    let t2 = l2 + t3;
    let t1 = eh + t2;
    let s = spec_enc_payload(m) + rest;
    assert(s == l1 + t1) by {
        lemma_concat_assoc(l1 + eh + l2 + et + l3 + eb, l4, rest);
        lemma_concat_assoc(l1 + eh + l2 + et + l3, eb, t6);
        lemma_concat_assoc(l1 + eh + l2 + et, l3, t5);
        lemma_concat_assoc(l1 + eh + l2, et, t4);
        lemma_concat_assoc(l1 + eh, l2, t3);
        lemma_concat_assoc(l1, eh, t2);
    }
    lemma_parse_lit_round(l1, t1);
    lemma_parse_map_round(m.header, t2);
    lemma_parse_lit_round(l2, t3);
    lemma_parse_msg_type_round(m.msg_type, t4);
    lemma_parse_lit_round(l3, t5);
    lemma_parse_body_round(m.body, t6);
    lemma_parse_lit_round(l4, rest);
    assert(MessageView { header: m.header, msg_type: m.msg_type, body: m.body } =~= m);
}

/// Round trip of the payload encoding: decoding what was encoded gives back
/// exactly the message, for every well-formed message.
pub proof fn lemma_payload_round_trip(m: MessageView)
    requires
        m.wf(),
    ensures
        spec_decode_payload(spec_enc_payload(m)) == Some(m),
{
    lemma_parse_payload_round(m, Seq::<u8>::empty());
    assert(spec_enc_payload(m) + Seq::<u8>::empty() =~= spec_enc_payload(m));
}

/// The four digits of the length prefix are digits and spell the length
/// back.
pub proof fn lemma_prefix_value(n: int)
    requires
        0 <= n <= 9999,
    ensures
        is_digit(spec_prefix(n)[0]),
        is_digit(spec_prefix(n)[1]),
        is_digit(spec_prefix(n)[2]),
        is_digit(spec_prefix(n)[3]),
        prefix_value(spec_prefix(n)) == n,
{
    let d0 = (n / 1000) % 10;
    let d1 = (n / 100) % 10;
    let d2 = (n / 10) % 10;
    let d3 = n % 10;
    assert(0 <= d0 <= 9 && 0 <= d1 <= 9 && 0 <= d2 <= 9 && 0 <= d3 <= 9);
    assert(n == 1000 * d0 + 100 * d1 + 10 * d2 + d3) by (nonlinear_arith)
        requires
            0 <= n <= 9999,
            d0 == (n / 1000) % 10,
            d1 == (n / 100) % 10,
            d2 == (n / 10) % 10,
            d3 == n % 10,
    ;
}

/// Round trip of the whole frame: a well-formed message whose payload fits
/// behind the four-digit prefix is decoded back from its own frame, exactly,
/// and the frame is consumed whole.
pub proof fn lemma_round_trip(m: MessageView)
    requires
        m.wf(),
        spec_enc_payload(m).len() <= 9999,
    ensures
        spec_decode_frame(spec_enc_frame(m)) == Ok::<(MessageView, int), DecodeError>(
            (m, spec_enc_frame(m).len() as int),
        ),
{
    let payload = spec_enc_payload(m);
    let n = payload.len() as int;
    let s = spec_enc_frame(m);
    lemma_prefix_value(n);
    assert(s[0] == spec_prefix(n)[0]);
    assert(s[1] == spec_prefix(n)[1]);
    assert(s[2] == spec_prefix(n)[2]);
    assert(s[3] == spec_prefix(n)[3]);
    assert(s.len() == 4 + n);
    assert(prefix_value(s) == prefix_value(spec_prefix(n))) by {
        assert(s.take(4) =~= spec_prefix(n));
    }
    assert(s.subrange(4, 4 + n) =~= payload);
    lemma_payload_round_trip(m);
}

/// A buffer with fewer than four prefix bytes, a non-numeric prefix, or
/// fewer body bytes than the prefix counts is a framing error.
pub proof fn lemma_short_input_is_framing_error(s: Seq<u8>)
    ensures
        s.len() < 4 ==> spec_decode_frame(s) == Err::<(MessageView, int), DecodeError>(
            DecodeError::Framing,
        ),
        s.len() >= 4 && !(is_digit(s[0]) && is_digit(s[1]) && is_digit(s[2]) && is_digit(s[3]))
            ==> spec_decode_frame(s) == Err::<(MessageView, int), DecodeError>(
            DecodeError::Framing,
        ),
        s.len() >= 4 && is_digit(s[0]) && is_digit(s[1]) && is_digit(s[2]) && is_digit(s[3])
            && s.len() < 4 + prefix_value(s) ==> spec_decode_frame(s) == Err::<
            (MessageView, int),
            DecodeError,
        >(DecodeError::Framing),
{
}

} // verus!
