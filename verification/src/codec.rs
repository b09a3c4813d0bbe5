use vstd::prelude::*;
use vstd::string::StringSliceAdditionalSpecFns;
use vstd::utf8::encode_utf8;
use crate::message::{Message, MessageType, MessageView, OperationResult, StringMap};

verus! {

/// A frame could not be produced for a message: its body does not fit its
/// tag, or the payload does not fit behind a four-digit length prefix.
#[derive(Clone, Copy, PartialEq, Eq, Structural, Debug)]
pub enum EncodeError {
    BodyMismatch,
    TooLong,
}

/// A frame could not be read: `Framing` when the length prefix is short or
/// not numeric or the body bytes run out, `Decoding` when the payload is not
/// a well-shaped message.
#[derive(Clone, Copy, PartialEq, Eq, Structural, Debug)]
pub enum DecodeError {
    Framing,
    Decoding,
}

pub const QUOTE: u8 = 34;
pub const COMMA: u8 = 44;
pub const COLON: u8 = 58;
pub const BACKSLASH: u8 = 92;
pub const LBRACE: u8 = 123;
pub const RBRACE: u8 = 125;

/// Wire form of one byte inside a quoted string: quotes and backslashes are
/// preceded by a backslash, every other byte stands for itself.
pub open spec fn esc1(b: u8) -> Seq<u8> {
    if b == QUOTE || b == BACKSLASH {
        seq![BACKSLASH, b]
    } else {
        seq![b]
    }
}

/// Wire form of the bytes of a quoted string.
pub open spec fn spec_escape(bs: Seq<u8>) -> Seq<u8>
    decreases bs.len(),
{
    if bs.len() == 0 {
        Seq::empty()
    } else {
        esc1(bs[0]) + spec_escape(bs.skip(1))
    }
}

/// Wire form of a string: its UTF-8 bytes, escaped, between quotes.
pub open spec fn spec_enc_str(s: Seq<char>) -> Seq<u8> {
    seq![QUOTE] + spec_escape(encode_utf8(s)) + seq![QUOTE]
}

/// Wire form of one key/value binding.
pub open spec fn spec_enc_entry(e: (Seq<char>, Seq<char>)) -> Seq<u8> {
    spec_enc_str(e.0) + seq![COLON] + spec_enc_str(e.1)
}

/// Wire form of the bindings after the first: each preceded by a comma.
pub open spec fn spec_enc_rest(es: Seq<(Seq<char>, Seq<char>)>) -> Seq<u8>
    decreases es.len(),
{
    if es.len() == 0 {
        Seq::empty()
    } else {
        seq![COMMA] + spec_enc_entry(es[0]) + spec_enc_rest(es.skip(1))
    }
}

/// Wire form of a whole map: its bindings between braces, comma-separated.
pub open spec fn spec_enc_map(es: Seq<(Seq<char>, Seq<char>)>) -> Seq<u8> {
    if es.len() == 0 {
        seq![LBRACE, RBRACE]
    } else {
        seq![LBRACE] + spec_enc_entry(es[0]) + spec_enc_rest(es.skip(1)) + seq![RBRACE]
    }
}

/// Wire form of a tag: a fixed literal per variant.
pub open spec fn spec_enc_msg_type(t: MessageType) -> Seq<u8> {
    match t {
        MessageType::SendToken => encode_utf8("\"SendToken\""@),
        MessageType::RequestToken => encode_utf8("\"RequestToken\""@),
        MessageType::Username => encode_utf8("\"Username\""@),
        MessageType::LoginRequest => encode_utf8("\"LoginRequest\""@),
        MessageType::Result(OperationResult::Success) => encode_utf8(
            "{\"Result\":\"Success\"}"@,
        ),
        MessageType::Result(OperationResult::Fail) => encode_utf8("{\"Result\":\"Fail\"}"@),
    }
}

/// Wire form of the body: a map, or the word `null` when absent.
pub open spec fn spec_enc_body(b: Option<Seq<(Seq<char>, Seq<char>)>>) -> Seq<u8> {
    match b {
        None => encode_utf8("null"@),
        Some(es) => spec_enc_map(es),
    }
}

/// Wire form of a whole payload: header, tag and body under their fixed keys.
pub open spec fn spec_enc_payload(m: MessageView) -> Seq<u8> {
    encode_utf8("{\"header\":"@) + spec_enc_map(m.header) + encode_utf8(",\"msg_type\":"@)
        + spec_enc_msg_type(m.msg_type) + encode_utf8(",\"body\":"@) + spec_enc_body(m.body)
        + encode_utf8("}"@)
}

/// The four zero-padded decimal digits of `n`, the frame's length prefix.
pub open spec fn spec_prefix(n: int) -> Seq<u8> {
    seq![
        (48 + (n / 1000) % 10) as u8,
        (48 + (n / 100) % 10) as u8,
        (48 + (n / 10) % 10) as u8,
        (48 + n % 10) as u8,
    ]
}

/// Wire form of a whole frame: length prefix, then payload.
pub open spec fn spec_enc_frame(m: MessageView) -> Seq<u8> {
    spec_prefix(spec_enc_payload(m).len() as int) + spec_enc_payload(m)
}

/// Escaping a concatenation escapes each part.
pub proof fn lemma_escape_append(a: Seq<u8>, b: Seq<u8>)
    ensures
        spec_escape(a + b) == spec_escape(a) + spec_escape(b),
    decreases a.len(),
{
    if a.len() == 0 {
        assert(a + b =~= b);
        assert(spec_escape(a) + spec_escape(b) =~= spec_escape(b));
    } else {
        assert((a + b).skip(1) =~= a.skip(1) + b);
        lemma_escape_append(a.skip(1), b);
        assert(spec_escape(a + b) =~= spec_escape(a) + spec_escape(b));
    }
}

/// Escaping one byte alone.
pub proof fn lemma_escape_singleton(x: u8)
    ensures
        spec_escape(seq![x]) == esc1(x),
{
    assert(seq![x].skip(1) =~= Seq::<u8>::empty());
    assert(spec_escape(Seq::<u8>::empty()) =~= Seq::<u8>::empty());
    assert(spec_escape(seq![x]) =~= esc1(x) + spec_escape(seq![x].skip(1)));
    assert(spec_escape(seq![x]) =~= esc1(x));
}

/// Appends the bytes of `lit` to `out`.
fn push_lit(out: &mut Vec<u8>, lit: &str)
    ensures
        final(out)@ == old(out)@ + lit.spec_bytes(),
{
    let bs = lit.as_bytes();
    out.extend_from_slice(bs);
}

/// Appends the escaped form of `bs` to `out`.
fn push_escaped(out: &mut Vec<u8>, bs: &[u8])
    ensures
        final(out)@ == old(out)@ + spec_escape(bs@),
{
    let n = bs.len();
    let mut i: usize = 0;
    proof {
        assert(bs@.take(0) =~= Seq::<u8>::empty());
        assert(out@ =~= out@ + spec_escape(bs@.take(0)));
    }
    while i < n
        invariant
            n == bs@.len(),
            i <= n,
            out@ == old(out)@ + spec_escape(bs@.take(i as int)),
        decreases n - i,
    {
        let b = bs[i];
        if b == QUOTE || b == BACKSLASH {
            out.push(BACKSLASH);
            out.push(b);
        } else {
            out.push(b);
        }
        proof {
            lemma_escape_singleton(b);
            lemma_escape_append(bs@.take(i as int), seq![b]);
            assert(bs@.take(i as int + 1) =~= bs@.take(i as int) + seq![b]);
            assert(out@ =~= old(out)@ + spec_escape(bs@.take(i as int + 1)));
        }
        i += 1;
    }
    proof {
        assert(bs@.take(n as int) =~= bs@);
    }
}

/// Appends the wire form of the string `s` to `out`.
fn push_string(out: &mut Vec<u8>, s: &str)
    ensures
        final(out)@ == old(out)@ + spec_enc_str(s@),
{
    out.push(QUOTE);
    push_escaped(out, s.as_bytes());
    out.push(QUOTE);
    proof {
        assert(out@ =~= old(out)@ + spec_enc_str(s@));
    }
}

/// Appends the wire form of one binding to `out`.
fn push_entry(out: &mut Vec<u8>, k: &str, v: &str)
    ensures
        final(out)@ == old(out)@ + spec_enc_entry((k@, v@)),
{
    push_string(out, k);
    out.push(COLON);
    push_string(out, v);
    proof {
        assert(out@ =~= old(out)@ + spec_enc_entry((k@, v@)));
    }
}

/// Encoding bindings one more at a time extends the comma-separated tail.
pub proof fn lemma_enc_rest_append(es: Seq<(Seq<char>, Seq<char>)>, e: (Seq<char>, Seq<char>))
    ensures
        spec_enc_rest(es + seq![e]) == spec_enc_rest(es) + seq![COMMA] + spec_enc_entry(e),
    decreases es.len(),
{
    if es.len() == 0 {
        assert((es + seq![e])[0] == e);
        assert((es + seq![e]).skip(1) =~= Seq::<(Seq<char>, Seq<char>)>::empty());
        assert(spec_enc_rest(Seq::<(Seq<char>, Seq<char>)>::empty())
            =~= Seq::<u8>::empty());
        assert(spec_enc_rest(es) =~= Seq::<u8>::empty());
        assert(spec_enc_rest(es + seq![e]) =~= spec_enc_rest(es) + seq![COMMA] + spec_enc_entry(
            e,
        ));
    } else {
        assert((es + seq![e]).skip(1) =~= es.skip(1) + seq![e]);
        lemma_enc_rest_append(es.skip(1), e);
        assert(spec_enc_rest(es + seq![e]) =~= spec_enc_rest(es) + seq![COMMA] + spec_enc_entry(
            e,
        ));
    }
}

/// Appends the wire form of the map `m` to `out`.
fn push_map(out: &mut Vec<u8>, m: &StringMap)
    ensures
        final(out)@ == old(out)@ + spec_enc_map(m@),
{
    let n = m.len();
    out.push(LBRACE);
    if n == 0 {
        out.push(RBRACE);
        proof {
            assert(out@ =~= old(out)@ + spec_enc_map(m@));
        }
        return ;
    }
    let (k0, v0) = m.entry_at(0);
    let k0 = k0.clone();
    let v0 = v0.clone();
    push_entry(out, k0.as_str(), v0.as_str());
    let mut i: usize = 1;
    proof {
        assert(m@.take(1).skip(1) =~= Seq::<(Seq<char>, Seq<char>)>::empty());
        assert(out@ =~= old(out)@ + seq![LBRACE] + spec_enc_entry(m@[0]) + spec_enc_rest(
            m@.take(1).skip(1),
        ));
    }
    while i < n
        invariant
            n == m@.len(),
            1 <= i <= n,
            out@ == old(out)@ + seq![LBRACE] + spec_enc_entry(m@[0]) + spec_enc_rest(
                m@.take(i as int).skip(1),
            ),
        decreases n - i,
    {
        out.push(COMMA);
        let (k, v) = m.entry_at(i);
        let k = k.clone();
        let v = v.clone();
        push_entry(out, k.as_str(), v.as_str());
        proof {
            lemma_enc_rest_append(m@.take(i as int).skip(1), m@[i as int]);
            assert(m@.take(i as int + 1).skip(1) =~= m@.take(i as int).skip(1) + seq![
                m@[i as int],
            ]);
            assert(out@ =~= old(out)@ + seq![LBRACE] + spec_enc_entry(m@[0]) + spec_enc_rest(
                m@.take(i as int + 1).skip(1),
            ));
        }
        i += 1;
    }
    out.push(RBRACE);
    proof {
        assert(m@.take(n as int) =~= m@);
        assert(out@ =~= old(out)@ + spec_enc_map(m@));
    }
}

/// Appends the wire form of the tag `t` to `out`.
fn push_msg_type(out: &mut Vec<u8>, t: &MessageType)
    ensures
        final(out)@ == old(out)@ + spec_enc_msg_type(*t),
{
    match t {
        MessageType::SendToken => push_lit(out, "\"SendToken\""),
        MessageType::RequestToken => push_lit(out, "\"RequestToken\""),
        MessageType::Username => push_lit(out, "\"Username\""),
        MessageType::LoginRequest => push_lit(out, "\"LoginRequest\""),
        MessageType::Result(OperationResult::Success) => push_lit(
            out,
            "{\"Result\":\"Success\"}",
        ),
        MessageType::Result(OperationResult::Fail) => push_lit(out, "{\"Result\":\"Fail\"}"),
    }
}

impl Message {
    /// Serializes the payload alone: the message as a brace-delimited text
    /// object, without the length prefix.
    pub fn encode_payload(&self) -> (r: Vec<u8>)
        ensures
            r@ == spec_enc_payload(self@),
    {
        let mut out: Vec<u8> = Vec::new();
        push_lit(&mut out, "{\"header\":");
        push_map(&mut out, &self.header);
        push_lit(&mut out, ",\"msg_type\":");
        push_msg_type(&mut out, &self.msg_type);
        push_lit(&mut out, ",\"body\":");
        match self.body {
            None => push_lit(&mut out, "null"),
            Some(ref b) => push_map(&mut out, b),
        }
        push_lit(&mut out, "}");
        proof {
            assert(out@ =~= spec_enc_payload(self@));
        }
        out
    }

    /// Serializes the message to a full frame: a four-digit zero-padded
    /// decimal byte count, then the payload it counts. Fails when the body
    /// does not fit the tag, or when the payload is longer than the prefix
    /// can say.
    pub fn encode(&self) -> (r: Result<Vec<u8>, EncodeError>)
        ensures
            match r {
                Ok(v) => self@.wf() && spec_enc_payload(self@).len() <= 9999 && v@
                    == spec_enc_frame(self@),
                Err(EncodeError::BodyMismatch) => !self@.wf(),
                Err(EncodeError::TooLong) => self@.wf() && spec_enc_payload(self@).len() > 9999,
            },
    {
        if !self.is_wf() {
            return Err(EncodeError::BodyMismatch);
        }
        let payload = self.encode_payload();
        let n = payload.len();
        if n > 9999 {
            return Err(EncodeError::TooLong);
        }
        let mut out: Vec<u8> = Vec::new();
        out.push((48 + (n / 1000) % 10) as u8);
        out.push((48 + (n / 100) % 10) as u8);
        out.push((48 + (n / 10) % 10) as u8);
        out.push((48 + n % 10) as u8);
        let mut payload = payload;
        out.append(&mut payload);
        proof {
            assert(out@ =~= spec_enc_frame(self@));
        }
        Ok(out)
    }
}

/// Reads the bytes of a quoted string, from just after the opening quote up
/// to an unescaped closing quote, undoing the escapes.
pub open spec fn parse_str_bytes(s: Seq<u8>) -> Option<(Seq<u8>, Seq<u8>)>
    decreases s.len(),
{
    if s.len() == 0 {
        None
    } else if s[0] == QUOTE {
        Some((Seq::empty(), s.skip(1)))
    } else if s[0] == BACKSLASH {
        if s.len() >= 2 && (s[1] == QUOTE || s[1] == BACKSLASH) {
            match parse_str_bytes(s.skip(2)) {
                Some(r) => Some((seq![s[1]] + r.0, r.1)),
                None => None,
            }
        } else {
            None
        }
    } else {
        match parse_str_bytes(s.skip(1)) {
            Some(r) => Some((seq![s[0]] + r.0, r.1)),
            None => None,
        }
    }
}

/// Reading a quoted string consumes at least one byte.
pub proof fn lemma_parse_str_bytes_len(s: Seq<u8>)
    ensures
        parse_str_bytes(s) matches Some(r) ==> r.1.len() < s.len(),
    decreases s.len(),
{
    if s.len() == 0 {
    } else if s[0] == QUOTE {
    } else if s[0] == BACKSLASH {
        if s.len() >= 2 && (s[1] == QUOTE || s[1] == BACKSLASH) {
            lemma_parse_str_bytes_len(s.skip(2));
        }
    } else {
        lemma_parse_str_bytes_len(s.skip(1));
    }
}

/// Reads a whole quoted string: opening quote, escaped bytes, closing quote,
/// decoded from UTF-8.
pub open spec fn parse_string(s: Seq<u8>) -> Option<(Seq<char>, Seq<u8>)> {
    if s.len() >= 1 && s[0] == QUOTE {
        match parse_str_bytes(s.skip(1)) {
            Some(r) => if vstd::utf8::valid_utf8(r.0) {
                Some((vstd::utf8::decode_utf8(r.0), r.1))
            } else {
                None
            },
            None => None,
        }
    } else {
        None
    }
}

/// Reading a string consumes at least one byte.
pub proof fn lemma_parse_string_len(s: Seq<u8>)
    ensures
        parse_string(s) matches Some(r) ==> r.1.len() < s.len(),
{
    if s.len() >= 1 && s[0] == QUOTE {
        lemma_parse_str_bytes_len(s.skip(1));
    }
}

/// Reads one `"key":"value"` binding.
pub open spec fn parse_entry(s: Seq<u8>) -> Option<((Seq<char>, Seq<char>), Seq<u8>)> {
    match parse_string(s) {
        Some(kr) => if kr.1.len() >= 1 && kr.1[0] == COLON {
            match parse_string(kr.1.skip(1)) {
                Some(vr) => Some(((kr.0, vr.0), vr.1)),
                None => None,
            }
        } else {
            None
        },
        None => None,
    }
}

/// Reading a binding consumes at least one byte.
pub proof fn lemma_parse_entry_len(s: Seq<u8>)
    ensures
        parse_entry(s) matches Some(r) ==> r.1.len() < s.len(),
{
    lemma_parse_string_len(s);
    if parse_string(s) is Some {
        let kr = parse_string(s)->0;
        if kr.1.len() >= 1 && kr.1[0] == COLON {
            lemma_parse_string_len(kr.1.skip(1));
        }
    }
}

/// Reads the bindings after the first, each behind a comma, up to the
/// closing brace.
pub open spec fn parse_rest(s: Seq<u8>) -> Option<(Seq<(Seq<char>, Seq<char>)>, Seq<u8>)>
    decreases s.len(),
    via parse_rest_decreases
{
    if s.len() == 0 {
        None
    } else if s[0] == RBRACE {
        Some((Seq::empty(), s.skip(1)))
    } else if s[0] == COMMA {
        match parse_entry(s.skip(1)) {
            Some(er) => match parse_rest(er.1) {
                Some(rr) => Some((seq![er.0] + rr.0, rr.1)),
                None => None,
            },
            None => None,
        }
    } else {
        None
    }
}

#[via_fn]
proof fn parse_rest_decreases(s: Seq<u8>) {
    if s.len() > 0 {
        lemma_parse_entry_len(s.skip(1));
    }
}

/// Reads a whole map: an empty pair of braces, or a first binding and then
/// the comma-separated rest.
pub open spec fn parse_map(s: Seq<u8>) -> Option<(Seq<(Seq<char>, Seq<char>)>, Seq<u8>)> {
    if s.len() >= 2 && s[0] == LBRACE && s[1] == RBRACE {
        Some((Seq::empty(), s.skip(2)))
    } else if s.len() >= 1 && s[0] == LBRACE {
        match parse_entry(s.skip(1)) {
            Some(er) => match parse_rest(er.1) {
                Some(rr) => Some((seq![er.0] + rr.0, rr.1)),
                None => None,
            },
            None => None,
        }
    } else {
        None
    }
}

/// Expects the exact bytes `lit` and consumes them.
pub open spec fn parse_lit(s: Seq<u8>, lit: Seq<u8>) -> Option<Seq<u8>> {
    if s.len() >= lit.len() && s.take(lit.len() as int) == lit {
        Some(s.skip(lit.len() as int))
    } else {
        None
    }
}

/// Reads a tag, trying each fixed literal in turn.
pub open spec fn parse_msg_type(s: Seq<u8>) -> Option<(MessageType, Seq<u8>)> {
    match parse_lit(s, encode_utf8("\"SendToken\""@)) {
        Some(r) => Some((MessageType::SendToken, r)),
        None => match parse_lit(s, encode_utf8("\"RequestToken\""@)) {
            Some(r) => Some((MessageType::RequestToken, r)),
            None => match parse_lit(s, encode_utf8("\"Username\""@)) {
                Some(r) => Some((MessageType::Username, r)),
                None => match parse_lit(s, encode_utf8("\"LoginRequest\""@)) {
                    Some(r) => Some((MessageType::LoginRequest, r)),
                    None => match parse_lit(s, encode_utf8("{\"Result\":\"Success\"}"@)) {
                        Some(r) => Some((MessageType::Result(OperationResult::Success), r)),
                        None => match parse_lit(s, encode_utf8("{\"Result\":\"Fail\"}"@)) {
                            Some(r) => Some((MessageType::Result(OperationResult::Fail), r)),
                            None => None,
                        },
                    },
                },
            },
        },
    }
}

/// Reads a body: the word `null`, or a map.
pub open spec fn parse_body(s: Seq<u8>) -> Option<
    (Option<Seq<(Seq<char>, Seq<char>)>>, Seq<u8>),
> {
    match parse_lit(s, encode_utf8("null"@)) {
        Some(r) => Some((None, r)),
        None => match parse_map(s) {
            Some(mr) => Some((Some(mr.0), mr.1)),
            None => None,
        },
    }
}

/// Reads a whole payload object: header, tag and body under their fixed
/// keys, in that order.
pub open spec fn parse_payload(s: Seq<u8>) -> Option<(MessageView, Seq<u8>)> {
    match parse_lit(s, encode_utf8("{\"header\":"@)) {
        Some(r1) => match parse_map(r1) {
            Some(hr) => match parse_lit(hr.1, encode_utf8(",\"msg_type\":"@)) {
                Some(r2) => match parse_msg_type(r2) {
                    Some(tr) => match parse_lit(tr.1, encode_utf8(",\"body\":"@)) {
                        Some(r3) => match parse_body(r3) {
                            Some(br) => match parse_lit(br.1, encode_utf8("}"@)) {
                                Some(r4) => Some(
                                    (
                                        MessageView {
                                            header: hr.0,
                                            msg_type: tr.0,
                                            body: br.0,
                                        },
                                        r4,
                                    ),
                                ),
                                None => None,
                            },
                            None => None,
                        },
                        None => None,
                    },
                    None => None,
                },
                None => None,
            },
            None => None,
        },
        None => None,
    }
}

/// Meaning of a payload: the message it spells, provided it spells one, is
/// well formed, and fills the payload exactly.
pub open spec fn spec_decode_payload(s: Seq<u8>) -> Option<MessageView> {
    match parse_payload(s) {
        Some(mr) => if mr.1.len() == 0 && mr.0.wf() {
            Some(mr.0)
        } else {
            None
        },
        None => None,
    }
}

/// An ASCII decimal digit.
pub open spec fn is_digit(b: u8) -> bool {
    48 <= b <= 57
}

/// Value of the four-digit length prefix.
pub open spec fn prefix_value(s: Seq<u8>) -> int {
    (s[0] as int - 48) * 1000 + (s[1] as int - 48) * 100 + (s[2] as int - 48) * 10 + (
    s[3] as int - 48)
}

/// Meaning of a buffer holding one frame: the message it spells and the
/// position just past the frame, or the error. `Framing` covers a short or
/// non-numeric prefix and missing body bytes; `Decoding` a payload that does
/// not spell a well-formed message.
pub open spec fn spec_decode_frame(s: Seq<u8>) -> Result<(MessageView, int), DecodeError> {
    if s.len() < 4 {
        Err(DecodeError::Framing)
    } else if !(is_digit(s[0]) && is_digit(s[1]) && is_digit(s[2]) && is_digit(s[3])) {
        Err(DecodeError::Framing)
    } else {
        let n = prefix_value(s);
        if s.len() < 4 + n {
            Err(DecodeError::Framing)
        } else {
            match spec_decode_payload(s.subrange(4, 4 + n)) {
                Some(m) => Ok((m, 4 + n)),
                None => Err(DecodeError::Decoding),
            }
        }
    }
}

/// Relies on `String::from_utf8`: succeeds exactly on valid UTF-8, and the
/// string it returns has the given bytes as its UTF-8 encoding.
#[verifier::external_body]
fn string_from_utf8(v: Vec<u8>) -> (r: Option<String>)
    ensures
        r is Some <==> vstd::utf8::valid_utf8(v@),
        r matches Some(s) ==> encode_utf8(s@) == v@,
{
    String::from_utf8(v).ok()
}

/// The unread part of a string token: what remains at `rest` still to read,
/// with `acc` already read.
pub open spec fn str_bytes_state(s: Seq<u8>, acc: Seq<u8>, rest: Seq<u8>) -> bool {
    parse_str_bytes(s) == (match parse_str_bytes(rest) {
        Some(q) => Some::<(Seq<u8>, Seq<u8>)>((acc + q.0, q.1)),
        None => None::<(Seq<u8>, Seq<u8>)>,
    })
}

/// Reads a string token from `data` starting just after its opening quote at
/// position `i`.
fn take_str_bytes(data: &[u8], i: usize) -> (r: Option<(Vec<u8>, usize)>)
    requires
        i <= data@.len(),
    ensures
        match parse_str_bytes(data@.skip(i as int)) {
            Some(q) => r matches Some(p) && p.0@ == q.0 && i <= p.1 <= data@.len() && data@.skip(
                p.1 as int,
            ) == q.1,
            None => r is None,
        },
{
    let n = data.len();
    let mut acc: Vec<u8> = Vec::new();
    let mut j: usize = i;
    proof {
        assert(acc@ =~= Seq::<u8>::empty());
        assert(forall|q: (Seq<u8>, Seq<u8>)| Seq::<u8>::empty() + q.0 =~= q.0);
    }
    loop
        invariant
            n == data@.len(),
            i <= j <= n,
            str_bytes_state(data@.skip(i as int), acc@, data@.skip(j as int)),
        decreases n - j,
    {
        let ghost s = data@.skip(j as int);
        if j >= n {
            return None;
        }
        proof {
            assert(s[0] == data@[j as int]);
            assert(s.skip(1) =~= data@.skip(j as int + 1));
        }
        let b = data[j];
        if b == QUOTE {
            proof {
                assert(acc@ + Seq::<u8>::empty() =~= acc@);
            }
            return Some((acc, j + 1));
        } else if b == BACKSLASH {
            if j + 1 >= n {
                return None;
            }
            proof {
                assert(s[1] == data@[j as int + 1]);
                assert(s.skip(2) =~= data@.skip(j as int + 2));
            }
            let c = data[j + 1];
            if c == QUOTE || c == BACKSLASH {
                let ghost prev = acc@;
                acc.push(c);
                proof {
                    assert(acc@ =~= prev + seq![c]);
                    assert(forall|q: (Seq<u8>, Seq<u8>)|
                        prev + (seq![c] + q.0) =~= (prev + seq![c]) + q.0);
                }
                j = j + 2;
            } else {
                return None;
            }
        } else {
            let ghost prev = acc@;
            acc.push(b);
            proof {
                assert(acc@ =~= prev + seq![b]);
                assert(forall|q: (Seq<u8>, Seq<u8>)|
                    prev + (seq![b] + q.0) =~= (prev + seq![b]) + q.0);
            }
            j = j + 1;
        }
    }
}

/// Reads a whole quoted string starting at position `i`.
fn take_string(data: &[u8], i: usize) -> (r: Option<(String, usize)>)
    requires
        i <= data@.len(),
    ensures
        match parse_string(data@.skip(i as int)) {
            Some(q) => r matches Some(p) && p.0@ == q.0 && i <= p.1 <= data@.len() && data@.skip(
                p.1 as int,
            ) == q.1,
            None => r is None,
        },
{
    let n = data.len();
    if i >= n {
        return None;
    }
    proof {
        assert(data@.skip(i as int)[0] == data@[i as int]);
        assert(data@.skip(i as int).skip(1) =~= data@.skip(i as int + 1));
    }
    if data[i] != QUOTE {
        return None;
    }
    match take_str_bytes(data, i + 1) {
        Some((bytes, j)) => {
            let ghost bv = bytes@;
            match string_from_utf8(bytes) {
                Some(st) => {
                    proof {
                        broadcast use vstd::utf8::encode_utf8_decode_utf8;

                        assert(vstd::utf8::decode_utf8(bv) == st@);
                    }
                    Some((st, j))
                },
                None => None,
            }
        },
        None => None,
    }
}

/// Reads one `"key":"value"` binding starting at position `i`.
fn take_entry(data: &[u8], i: usize) -> (r: Option<((String, String), usize)>)
    requires
        i <= data@.len(),
    ensures
        match parse_entry(data@.skip(i as int)) {
            Some(q) => r matches Some(p) && (p.0.0@, p.0.1@) == q.0 && i <= p.1 <= data@.len()
                && data@.skip(p.1 as int) == q.1,
            None => r is None,
        },
{
    match take_string(data, i) {
        Some((k, j1)) => {
            let n = data.len();
            if j1 >= n {
                return None;
            }
            proof {
                assert(data@.skip(j1 as int)[0] == data@[j1 as int]);
                assert(data@.skip(j1 as int).skip(1) =~= data@.skip(j1 as int + 1));
            }
            if data[j1] != COLON {
                return None;
            }
            match take_string(data, j1 + 1) {
                Some((v, j2)) => Some(((k, v), j2)),
                None => None,
            }
        },
        None => None,
    }
}

/// The unread part of a map: what remains at `rest` still to read, with the
/// bindings `acc` already read.
pub open spec fn rest_state(
    s: Seq<u8>,
    acc: Seq<(Seq<char>, Seq<char>)>,
    rest: Seq<u8>,
) -> bool {
    parse_map(s) == (match parse_rest(rest) {
        Some(q) => Some::<(Seq<(Seq<char>, Seq<char>)>, Seq<u8>)>((acc + q.0, q.1)),
        None => None::<(Seq<(Seq<char>, Seq<char>)>, Seq<u8>)>,
    })
}

/// Reads a whole map starting at position `i`.
fn take_map(data: &[u8], i: usize) -> (r: Option<(StringMap, usize)>)
    requires
        i <= data@.len(),
    ensures
        match parse_map(data@.skip(i as int)) {
            Some(q) => r matches Some(p) && p.0@ == q.0 && i <= p.1 <= data@.len() && data@.skip(
                p.1 as int,
            ) == q.1,
            None => r is None,
        },
{
    let n = data.len();
    if i >= n {
        return None;
    }
    proof {
        assert(data@.skip(i as int)[0] == data@[i as int]);
    }
    if data[i] != LBRACE {
        return None;
    }
    if i + 1 < n && data[i + 1] == RBRACE {
        let m = StringMap::new();
        proof {
            assert(data@.skip(i as int)[1] == data@[i as int + 1]);
            assert(data@.skip(i as int).skip(2) =~= data@.skip(i as int + 2));
            assert(parse_map(data@.skip(i as int)) == Some(
                (Seq::<(Seq<char>, Seq<char>)>::empty(), data@.skip(i as int + 2)),
            ));
        }
        return Some((m, i + 2));
    }
    proof {
        if data@.skip(i as int).len() >= 2 {
            assert(data@.skip(i as int)[1] == data@[i as int + 1]);
        }
        assert(data@.skip(i as int).skip(1) =~= data@.skip(i as int + 1));
    }
    let first = take_entry(data, i + 1);
    match first {
        Some(((k0, v0), j0)) => {
            let mut m = StringMap::new();
            let ghost e0 = (k0@, v0@);
            m.insert(k0, v0);
            let mut j: usize = j0;
            proof {
                assert(m@ =~= Seq::<(Seq<char>, Seq<char>)>::empty() + seq![e0]);
                assert(forall|q: (Seq<(Seq<char>, Seq<char>)>, Seq<u8>)|
                    seq![e0] + q.0 =~= m@ + q.0);
            }
            loop
                invariant
                    n == data@.len(),
                    i <= j <= n,
                    rest_state(data@.skip(i as int), m@, data@.skip(j as int)),
                decreases n - j,
            {
                let ghost s = data@.skip(j as int);
                if j >= n {
                    return None;
                }
                proof {
                    assert(s[0] == data@[j as int]);
                    assert(s.skip(1) =~= data@.skip(j as int + 1));
                }
                let b = data[j];
                if b == RBRACE {
                    proof {
                        assert(m@ + Seq::<(Seq<char>, Seq<char>)>::empty() =~= m@);
                    }
                    return Some((m, j + 1));
                } else if b == COMMA {
                    match take_entry(data, j + 1) {
                        Some(((k, v), j2)) => {
                            let ghost prev = m@;
                            let ghost e = (k@, v@);
                            m.insert(k, v);
                            proof {
                                assert(m@ =~= prev + seq![e]);
                                assert(forall|q: (Seq<(Seq<char>, Seq<char>)>, Seq<u8>)|
                                    prev + (seq![e] + q.0) =~= (prev + seq![e]) + q.0);
                            }
                            j = j2;
                        },
                        None => {
                            return None;
                        },
                    }
                } else {
                    return None;
                }
            }
        },
        None => None,
    }
}

/// Matches the bytes of `lit` at position `i` and consumes them.
fn take_lit(data: &[u8], i: usize, lit: &str) -> (r: Option<usize>)
    requires
        i <= data@.len(),
    ensures
        match parse_lit(data@.skip(i as int), lit.spec_bytes()) {
            Some(rest) => r matches Some(j) && i <= j <= data@.len() && data@.skip(j as int)
                == rest,
            None => r is None,
        },
{
    let bs = lit.as_bytes();
    let m = bs.len();
    let n = data.len();
    if n - i < m {
        proof {
            assert(data@.skip(i as int).len() < lit.spec_bytes().len());
        }
        return None;
    }
    let mut k: usize = 0;
    while k < m
        invariant
            n == data@.len(),
            m == bs@.len(),
            bs@ == lit.spec_bytes(),
            i <= n,
            m <= n - i,
            k <= m,
            forall|t: int| 0 <= t < k ==> data@[i + t] == bs@[t],
        decreases m - k,
    {
        if data[i + k] != bs[k] {
            proof {
                assert(data@.skip(i as int).take(m as int)[k as int] == data@[i as int + k]);
                assert(data@.skip(i as int).take(m as int) != lit.spec_bytes());
            }
            return None;
        }
        k += 1;
    }
    proof {
        assert(data@.skip(i as int).take(m as int) =~= lit.spec_bytes());
        assert(data@.skip(i as int).skip(m as int) =~= data@.skip(i as int + m as int));
    }
    Some(i + m)
}

/// Reads a tag starting at position `i`, trying each fixed literal in turn.
fn take_msg_type(data: &[u8], i: usize) -> (r: Option<(MessageType, usize)>)
    requires
        i <= data@.len(),
    ensures
        match parse_msg_type(data@.skip(i as int)) {
            Some(q) => r matches Some(p) && p.0 == q.0 && i <= p.1 <= data@.len() && data@.skip(
                p.1 as int,
            ) == q.1,
            None => r is None,
        },
{
    if let Some(j) = take_lit(data, i, "\"SendToken\"") {
        return Some((MessageType::SendToken, j));
    }
    if let Some(j) = take_lit(data, i, "\"RequestToken\"") {
        return Some((MessageType::RequestToken, j));
    }
    if let Some(j) = take_lit(data, i, "\"Username\"") {
        return Some((MessageType::Username, j));
    }
    if let Some(j) = take_lit(data, i, "\"LoginRequest\"") {
        return Some((MessageType::LoginRequest, j));
    }
    if let Some(j) = take_lit(data, i, "{\"Result\":\"Success\"}") {
        return Some((MessageType::Result(OperationResult::Success), j));
    }
    if let Some(j) = take_lit(data, i, "{\"Result\":\"Fail\"}") {
        return Some((MessageType::Result(OperationResult::Fail), j));
    }
    None
}

/// Reads a body starting at position `i`: the word `null`, or a map.
fn take_body(data: &[u8], i: usize) -> (r: Option<(Option<StringMap>, usize)>)
    requires
        i <= data@.len(),
    ensures
        match parse_body(data@.skip(i as int)) {
            Some(q) => r matches Some(p) && (match p.0 {
                Some(ref b) => q.0 == Some(b@),
                None => q.0 is None,
            }) && i <= p.1 <= data@.len() && data@.skip(p.1 as int) == q.1,
            None => r is None,
        },
{
    if let Some(j) = take_lit(data, i, "null") {
        return Some((None, j));
    }
    match take_map(data, i) {
        Some((m, j)) => Some((Some(m), j)),
        None => None,
    }
}

impl Message {
    /// Deserializes a payload: the buffer must spell one well-formed message
    /// and nothing else.
    pub fn decode_payload(data: &[u8]) -> (r: Result<Message, DecodeError>)
        ensures
            match spec_decode_payload(data@) {
                Some(mv) => r matches Ok(m) && m@ == mv,
                None => r == Err::<Message, DecodeError>(DecodeError::Decoding),
            },
    {
        proof {
            assert(data@.skip(0) =~= data@);
        }
        let r1 = match take_lit(data, 0, "{\"header\":") {
            Some(j) => j,
            None => {
                return Err(DecodeError::Decoding);
            },
        };
        let (header, r2) = match take_map(data, r1) {
            Some(p) => p,
            None => {
                return Err(DecodeError::Decoding);
            },
        };
        let r3 = match take_lit(data, r2, ",\"msg_type\":") {
            Some(j) => j,
            None => {
                return Err(DecodeError::Decoding);
            },
        };
        let (msg_type, r4) = match take_msg_type(data, r3) {
            Some(p) => p,
            None => {
                return Err(DecodeError::Decoding);
            },
        };
        let r5 = match take_lit(data, r4, ",\"body\":") {
            Some(j) => j,
            None => {
                return Err(DecodeError::Decoding);
            },
        };
        let (body, r6) = match take_body(data, r5) {
            Some(p) => p,
            None => {
                return Err(DecodeError::Decoding);
            },
        };
        let r7 = match take_lit(data, r6, "}") {
            Some(j) => j,
            None => {
                return Err(DecodeError::Decoding);
            },
        };
        if r7 != data.len() {
            return Err(DecodeError::Decoding);
        }
        let m = Message { header, msg_type, body };
        if !m.is_wf() {
            return Err(DecodeError::Decoding);
        }
        Ok(m)
    }

    /// Deserializes one frame from the front of `data`: reads the four-digit
    /// length prefix, then exactly that many payload bytes. On success the
    /// returned position is exactly the start of the next frame. Fails with
    /// `Framing` when fewer than four prefix bytes are there, the prefix is
    /// not numeric, or fewer than the counted body bytes are there; with
    /// `Decoding` when the payload does not spell a well-formed message.
    pub fn decode(data: &[u8]) -> (r: Result<(Message, usize), DecodeError>)
        ensures
            match r {
                Ok(p) => spec_decode_frame(data@) == Ok::<(MessageView, int), DecodeError>(
                    (p.0@, p.1 as int),
                ),
                Err(e) => spec_decode_frame(data@) == Err::<(MessageView, int), DecodeError>(e),
            },
    {
        let len = data.len();
        if len < 4 {
            return Err(DecodeError::Framing);
        }
        let b0 = data[0];
        let b1 = data[1];
        let b2 = data[2];
        let b3 = data[3];
        if !(48 <= b0 && b0 <= 57 && 48 <= b1 && b1 <= 57 && 48 <= b2 && b2 <= 57 && 48 <= b3
            && b3 <= 57) {
            return Err(DecodeError::Framing);
        }
        let n: usize = (b0 as usize - 48) * 1000 + (b1 as usize - 48) * 100 + (b2 as usize - 48)
            * 10 + (b3 as usize - 48);
        if len - 4 < n {
            return Err(DecodeError::Framing);
        }
        let payload = vstd::slice::slice_subrange(data, 4, 4 + n);
        match Message::decode_payload(payload) {
            Ok(m) => Ok((m, 4 + n)),
            Err(_) => Err(DecodeError::Decoding),
        }
    }
}

/// A decimal string with its leading zeroes dropped: the value of the frame
/// length prefix is read this way.
pub open spec fn strip_zeros(s: Seq<char>) -> Seq<char>
    decreases s.len(),
{
    if s.len() > 0 && s[0] == '0' {
        strip_zeros(s.skip(1))
    } else {
        s
    }
}

/// Drops every leading `'0'` from `s`.
pub fn remove_leading_zeroes(s: &str) -> (r: &str)
    ensures
        r@ == strip_zeros(s@),
{
    let n = s.unicode_len();
    let mut i: usize = 0;
    proof {
        assert(s@.skip(0) =~= s@);
    }
    while i < n && s.get_char(i) == '0'
        invariant
            n == s@.len(),
            i <= n,
            strip_zeros(s@) == strip_zeros(s@.skip(i as int)),
        decreases n - i,
    {
        proof {
            assert(s@.skip(i as int)[0] == s@[i as int]);
            assert(s@.skip(i as int).skip(1) =~= s@.skip(i as int + 1));
        }
        i += 1;
    }
    proof {
        if i < n {
            assert(s@.skip(i as int)[0] == s@[i as int]);
        }
        assert(strip_zeros(s@.skip(i as int)) == s@.skip(i as int));
        assert(s@.subrange(i as int, n as int) =~= s@.skip(i as int));
    }
    s.substring_char(i, n)
}

/// Reads the four-digit length prefix at the front of `prefix`: how many
/// payload bytes the frame's body holds. Fails with `Framing` when fewer
/// than four bytes are there or any of the four is not a digit, exactly as
/// whole-frame decoding would.
pub fn frame_body_len(prefix: &[u8]) -> (r: Result<usize, DecodeError>)
    ensures
        match r {
            Ok(n) => prefix@.len() >= 4 && is_digit(prefix@[0]) && is_digit(prefix@[1])
                && is_digit(prefix@[2]) && is_digit(prefix@[3]) && n as int == prefix_value(
                prefix@,
            ),
            Err(e) => e == DecodeError::Framing && (prefix@.len() < 4 || !(is_digit(prefix@[0])
                && is_digit(prefix@[1]) && is_digit(prefix@[2]) && is_digit(prefix@[3]))),
        },
{
    if prefix.len() < 4 {
        return Err(DecodeError::Framing);
    }
    let b0 = prefix[0];
    let b1 = prefix[1];
    let b2 = prefix[2];
    let b3 = prefix[3];
    if !(48 <= b0 && b0 <= 57 && 48 <= b1 && b1 <= 57 && 48 <= b2 && b2 <= 57 && 48 <= b3 && b3
        <= 57) {
        return Err(DecodeError::Framing);
    }
    let n: usize = (b0 as usize - 48) * 1000 + (b1 as usize - 48) * 100 + (b2 as usize - 48) * 10
        + (b3 as usize - 48);
    Ok(n)
}

} // verus!
