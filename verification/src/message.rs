use vstd::prelude::*;
use vstd::string::StringSliceAdditionalSpecFns;

verus! {

/// The outcome carried by a `Result` message: the server's verdict on the
/// connection or on a login attempt.
#[derive(Clone, Copy, PartialEq, Eq, Structural, Debug)]
pub enum OperationResult {
    Success,
    Fail,
}

/// The tag of a message. Three tags carry a payload (`SendToken`, `Username`,
/// `LoginRequest`); the other two carry none.
#[derive(Clone, Copy, PartialEq, Eq, Structural, Debug)]
pub enum MessageType {
    SendToken,
    RequestToken,
    Username,
    LoginRequest,
    Result(OperationResult),
}

/// An ordered association of string keys to string values, used for the
/// header and body of a message. Lookups return the first binding of a key.
pub struct StringMap {
    pub entries: Vec<(String, String)>,
}

/// Mathematical model of a message: the header and body as sequences of
/// key/value bindings, and the tag.
#[verifier::ext_equal]
pub ghost struct MessageView {
    pub header: Seq<(Seq<char>, Seq<char>)>,
    pub msg_type: MessageType,
    pub body: Option<Seq<(Seq<char>, Seq<char>)>>,
}

/// The unit of exchange on the wire: a header (at minimum a timestamp),
/// a tag, and an optional body, present exactly for the tags that carry
/// a payload.
pub struct Message {
    pub header: StringMap,
    pub msg_type: MessageType,
    pub body: Option<StringMap>,
}

/// True for the tags whose messages carry a body.
pub open spec fn carries_body(t: MessageType) -> bool {
    match t {
        MessageType::SendToken => true,
        MessageType::RequestToken => false,
        MessageType::Username => true,
        MessageType::LoginRequest => true,
        MessageType::Result(_) => false,
    }
}

/// First binding of `k` among `es`, if any.
pub open spec fn spec_get(es: Seq<(Seq<char>, Seq<char>)>, k: Seq<char>) -> Option<Seq<char>>
    decreases es.len(),
{
    if es.len() == 0 {
        None
    } else if es[0].0 == k {
        Some(es[0].1)
    } else {
        spec_get(es.skip(1), k)
    }
}

impl View for StringMap {
    type V = Seq<(Seq<char>, Seq<char>)>;

    open spec fn view(&self) -> Seq<(Seq<char>, Seq<char>)> {
        Seq::new(self.entries@.len(), |i: int| (self.entries@[i].0@, self.entries@[i].1@))
    }
}

impl View for Message {
    type V = MessageView;

    open spec fn view(&self) -> MessageView {
        MessageView {
            header: self.header@,
            msg_type: self.msg_type,
            body: match self.body {
                Some(ref b) => Some(b@),
                None => None,
            },
        }
    }
}

impl MessageView {
    /// A message is well formed when its body is present exactly for the
    /// tags that carry a payload.
    pub open spec fn wf(self) -> bool {
        self.body is Some <==> carries_body(self.msg_type)
    }
}

/// Equality of byte slices, element by element.
pub fn bytes_eq(a: &[u8], b: &[u8]) -> (r: bool)
    ensures
        r == (a@ == b@),
{
    if a.len() != b.len() {
        assert(a@.len() != b@.len());
        return false;
    }
    let n = a.len();
    let mut i: usize = 0;
    while i < n
        invariant
            n == a@.len() == b@.len(),
            i <= n,
            forall|j: int| 0 <= j < i ==> a@[j] == b@[j],
        decreases n - i,
    {
        if a[i] != b[i] {
            return false;
        }
        i += 1;
    }
    proof {
        assert(a@ =~= b@);
    }
    true
}

/// Equality of strings, decided by comparing their UTF-8 bytes.
pub fn str_eq(a: &str, b: &str) -> (r: bool)
    ensures
        r == (a@ == b@),
{
    let r = bytes_eq(a.as_bytes(), b.as_bytes());
    proof {
        broadcast use vstd::utf8::encode_utf8_decode_utf8;

        if a.spec_bytes() == b.spec_bytes() {
            assert(vstd::utf8::decode_utf8(vstd::utf8::encode_utf8(a@)) == a@);
            assert(vstd::utf8::decode_utf8(vstd::utf8::encode_utf8(b@)) == b@);
        }
    }
    r
}

impl StringMap {
    /// An empty map.
    pub fn new() -> (r: StringMap)
        ensures
            r@ == Seq::<(Seq<char>, Seq<char>)>::empty(),
    {
        let r = StringMap { entries: Vec::new() };
        proof {
            assert(r@ =~= Seq::<(Seq<char>, Seq<char>)>::empty());
        }
        r
    }

    /// Appends the binding `k -> v`. An existing binding of `k` stays but
    /// keeps precedence on lookup.
    pub fn insert(&mut self, k: String, v: String)
        ensures
            final(self)@ == old(self)@ + seq![(k@, v@)],
    {
        let ghost prev = self@;
        self.entries.push((k, v));
        proof {
            assert(self@ =~= prev + seq![(k@, v@)]);
        }
    }

    /// Number of bindings.
    pub fn len(&self) -> (n: usize)
        ensures
            n == self@.len(),
    {
        self.entries.len()
    }

    /// First value bound to `key`, if any.
    pub fn get(&self, key: &str) -> (r: Option<&String>)
        ensures
            match r {
                Some(v) => spec_get(self@, key@) == Some(v@),
                None => spec_get(self@, key@) is None,
            },
    {
        let n = self.entries.len();
        let mut i: usize = 0;
        proof {
            assert(self@.skip(0) =~= self@);
        }
        while i < n
            invariant
                n == self.entries@.len(),
                i <= n,
                spec_get(self@, key@) == spec_get(self@.skip(i as int), key@),
            decreases n - i,
        {
            proof {
                assert(self@.skip(i as int)[0] == (self.entries@[i as int].0@,
                self.entries@[i as int].1@));
            }
            if str_eq(self.entries[i].0.as_str(), key) {
                return Some(&self.entries[i].1);
            }
            proof {
                assert(self@.skip(i as int).skip(1) =~= self@.skip(i as int + 1));
            }
            i += 1;
        }
        proof {
            assert(self@.skip(n as int) =~= Seq::<(Seq<char>, Seq<char>)>::empty());
        }
        None
    }

    /// The binding at position `i`, for walking the map in order.
    pub fn entry_at(&self, i: usize) -> (r: (&String, &String))
        requires
            i < self@.len(),
        ensures
            r.0@ == self@[i as int].0,
            r.1@ == self@[i as int].1,
    {
        (&self.entries[i].0, &self.entries[i].1)
    }
}

impl Message {
    /// First value bound to `key` in the body. The caller must know the body
    /// is present and binds the key; the server only ever reads keys it has
    /// already checked for.
    pub fn get_body_value(&self, key: &str) -> (r: String)
        requires
            self@.body is Some,
            spec_get(self@.body->0, key@) is Some,
        ensures
            Some(r@) == spec_get(self@.body->0, key@),
    {
        match self.body {
            Some(ref b) => {
                match b.get(key) {
                    Some(v) => v.clone(),
                    None => {
                        proof {
                            assert(false);
                        }
                        String::new()
                    },
                }
            },
            None => {
                proof {
                    assert(false);
                }
                String::new()
            },
        }
    }

    /// Whether the message is well formed: body present exactly when the tag
    /// carries a payload.
    pub fn is_wf(&self) -> (r: bool)
        ensures
            r == self@.wf(),
    {
        let has_body = self.body.is_some();
        let needs_body = match self.msg_type {
            MessageType::SendToken => true,
            MessageType::RequestToken => false,
            MessageType::Username => true,
            MessageType::LoginRequest => true,
            MessageType::Result(_) => false,
        };
        has_body == needs_body
    }
}

/// A header as the constructors build it: a single binding whose key is
/// `timestamp`. The captured time itself is advisory and left open.
pub open spec fn is_timestamp_header(h: Seq<(Seq<char>, Seq<char>)>) -> bool {
    h.len() == 1 && h[0].0 == "timestamp"@
}

/// Relies on chrono's `Utc::now` and `DateTime` formatting: the capture
/// time, rendered `day/month/year hour:minute:second`. The result depends
/// on the clock, so nothing is assumed about it.
#[verifier::external_body]
fn current_timestamp() -> (r: String) {
    let now = chrono::offset::Utc::now();
    format!("{}", now.format("%d/%m/%Y %T"))
}

/// A fresh header holding only the capture time.
fn timestamp_header() -> (r: StringMap)
    ensures
        is_timestamp_header(r@),
{
    let mut h = StringMap::new();
    h.insert(String::from_str("timestamp"), current_timestamp());
    proof {
        assert(Seq::<(Seq<char>, Seq<char>)>::empty() + seq![("timestamp"@, h@[0].1)] =~= h@);
    }
    h
}

/// A body with a single binding.
fn singleton_body(key: &str, value: String) -> (r: StringMap)
    ensures
        r@ == seq![(key@, value@)],
{
    let mut b = StringMap::new();
    b.insert(String::from_str(key), value);
    proof {
        assert(b@ =~= seq![(key@, b@[0].1)]);
    }
    b
}

impl Message {
    /// A fresh `SendToken` message carrying `token`, stamped with the
    /// capture time.
    pub fn send_token(token: String) -> (r: Message)
        ensures
            r@.msg_type == MessageType::SendToken,
            r@.body == Some(seq![("token"@, token@)]),
            is_timestamp_header(r@.header),
            r@.wf(),
    {
        Message {
            header: timestamp_header(),
            msg_type: MessageType::SendToken,
            body: Some(singleton_body("token", token)),
        }
    }

    /// A fresh `RequestToken` message, stamped with the capture time.
    pub fn request_token() -> (r: Message)
        ensures
            r@.msg_type == MessageType::RequestToken,
            r@.body is None,
            is_timestamp_header(r@.header),
            r@.wf(),
    {
        Message { header: timestamp_header(), msg_type: MessageType::RequestToken, body: None }
    }

    /// A fresh `Username` message carrying `name`, stamped with the capture
    /// time.
    pub fn username(name: String) -> (r: Message)
        ensures
            r@.msg_type == MessageType::Username,
            r@.body == Some(seq![("username"@, name@)]),
            is_timestamp_header(r@.header),
            r@.wf(),
    {
        Message {
            header: timestamp_header(),
            msg_type: MessageType::Username,
            body: Some(singleton_body("username", name)),
        }
    }

    /// A fresh `LoginRequest` message carrying the client's proof, stamped
    /// with the capture time.
    pub fn login_request(client_hash: String) -> (r: Message)
        ensures
            r@.msg_type == MessageType::LoginRequest,
            r@.body == Some(seq![("client_hash"@, client_hash@)]),
            is_timestamp_header(r@.header),
            r@.wf(),
    {
        Message {
            header: timestamp_header(),
            msg_type: MessageType::LoginRequest,
            body: Some(singleton_body("client_hash", client_hash)),
        }
    }

    /// A fresh `Result` message carrying the verdict `res`, stamped with the
    /// capture time.
    pub fn result(res: OperationResult) -> (r: Message)
        ensures
            r@.msg_type == MessageType::Result(res),
            r@.body is None,
            is_timestamp_header(r@.header),
            r@.wf(),
    {
        Message { header: timestamp_header(), msg_type: MessageType::Result(res), body: None }
    }
}

} // verus!
