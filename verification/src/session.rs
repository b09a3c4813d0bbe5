use vstd::prelude::*;
use crate::auth::{compute_proof, gen_token, is_token_char, spec_proof};
use crate::message::{
    is_timestamp_header, spec_get, Message, MessageType, MessageView, OperationResult,
};

verus! {

/// Server-side per-connection state: the two challenge tokens, the claimed
/// username, the proof the client presented, and whether the login has been
/// accepted.
pub struct Session {
    pub client_token: String,
    pub server_token: String,
    pub username: String,
    pub client_hash: String,
    pub authenticated: bool,
}

/// Mathematical model of a session.
#[verifier::ext_equal]
pub ghost struct SessionView {
    pub client_token: Seq<char>,
    pub server_token: Seq<char>,
    pub username: Seq<char>,
    pub client_hash: Seq<char>,
    pub authenticated: bool,
}

impl View for Session {
    type V = SessionView;

    open spec fn view(&self) -> SessionView {
        SessionView {
            client_token: self.client_token@,
            server_token: self.server_token@,
            username: self.username@,
            client_hash: self.client_hash@,
            authenticated: self.authenticated,
        }
    }
}

/// What one step of the state machine asks of its caller.
pub enum StepResult {
    /// The message only set a session field; nothing to send.
    NoReply,
    /// Send this message back.
    Reply(Message),
    /// A login request with every field present: look the username's secret
    /// up and call `resolve_login`.
    NeedSecret,
    /// The peer sent a message a client must not send; abort the connection.
    Violation,
}

/// Model of a step's outcome. A reply is modelled by its tag and body; its
/// header only carries the capture time.
pub ghost enum ActionView {
    NoReply,
    Reply(MessageType, Option<Seq<(Seq<char>, Seq<char>)>>),
    NeedSecret,
    Violation,
}

/// Model of what an exec step returned.
pub open spec fn action_view(r: StepResult) -> ActionView {
    match r {
        StepResult::NoReply => ActionView::NoReply,
        StepResult::Reply(m) => ActionView::Reply(m@.msg_type, m@.body),
        StepResult::NeedSecret => ActionView::NeedSecret,
        StepResult::Violation => ActionView::Violation,
    }
}

/// The value a message's body binds to `key`, or the empty string when the
/// body or the binding is missing.
pub open spec fn body_value_or_empty(m: MessageView, key: Seq<char>) -> Seq<char> {
    match m.body {
        Some(b) => match spec_get(b, key) {
            Some(v) => v,
            None => Seq::empty(),
        },
        None => Seq::empty(),
    }
}

/// One step of the handshake state machine: what the session becomes and
/// what is sent when `m` arrives.
///
/// `SendToken` and `Username` store their field and draw no reply;
/// `RequestToken` is answered with the session's fixed server token and
/// changes nothing; `LoginRequest` stores the presented proof and fails
/// closed at once when the username, the client token or the proof is empty,
/// and otherwise asks for the stored secret; a `Result` from a client is a
/// protocol violation.
pub open spec fn spec_step(s: SessionView, m: MessageView) -> (SessionView, ActionView) {
    match m.msg_type {
        MessageType::SendToken => (
            SessionView { client_token: body_value_or_empty(m, "token"@), ..s },
            ActionView::NoReply,
        ),
        MessageType::RequestToken => (
            s,
            ActionView::Reply(
                MessageType::SendToken,
                Some(seq![("token"@, s.server_token)]),
            ),
        ),
        MessageType::Username => (
            SessionView { username: body_value_or_empty(m, "username"@), ..s },
            ActionView::NoReply,
        ),
        MessageType::LoginRequest => {
            let h = body_value_or_empty(m, "client_hash"@);
            let s2 = SessionView { client_hash: h, ..s };
            if s2.username.len() == 0 || s2.client_token.len() == 0 || h.len() == 0 {
                (
                    s2,
                    ActionView::Reply(MessageType::Result(OperationResult::Fail), None),
                )
            } else {
                (s2, ActionView::NeedSecret)
            }
        },
        MessageType::Result(_) => (s, ActionView::Violation),
    }
}

/// The login verdict once the store has answered: success exactly when a
/// secret was found and the digest of the session's two tokens and that
/// secret equals the proof the client presented. A missing username and a
/// wrong secret are indistinguishable in the verdict.
pub open spec fn spec_resolve(s: SessionView, secret: Option<Seq<char>>) -> (
    SessionView,
    OperationResult,
) {
    match secret {
        Some(sec) => if spec_proof(s.client_token, s.server_token, sec) == s.client_hash {
            (SessionView { authenticated: true, ..s }, OperationResult::Success)
        } else {
            (s, OperationResult::Fail)
        },
        None => (s, OperationResult::Fail),
    }
}

/// The secret handed to `resolve_login`, as the model sees it.
pub open spec fn secret_view(secret: Option<&String>) -> Option<Seq<char>> {
    match secret {
        Some(s) => Some(s@),
        None => None,
    }
}

/// Clones the value a message's body binds to `key`, or gives the empty
/// string when the body or the binding is missing.
fn get_body_value_or_empty(m: &Message, key: &str) -> (r: String)
    ensures
        r@ == body_value_or_empty(m@, key@),
{
    match m.body {
        Some(ref b) => match b.get(key) {
            Some(v) => v.clone(),
            None => String::new(),
        },
        None => String::new(),
    }
}

impl Session {
    /// A session for a fresh connection with the given server token: every
    /// other field empty, nobody authenticated.
    pub fn new(server_token: String) -> (r: Session)
        ensures
            r@ == (SessionView {
                client_token: Seq::empty(),
                server_token: server_token@,
                username: Seq::empty(),
                client_hash: Seq::empty(),
                authenticated: false,
            }),
    {
        let r = Session {
            client_token: String::new(),
            server_token,
            username: String::new(),
            client_hash: String::new(),
            authenticated: false,
        };
        proof {
            assert(r@ =~= (SessionView {
                client_token: Seq::empty(),
                server_token: r.server_token@,
                username: Seq::empty(),
                client_hash: Seq::empty(),
                authenticated: false,
            }));
        }
        r
    }

    /// A session for a fresh connection, with a new random server token.
    pub fn start() -> (r: Session)
        ensures
            r@.client_token.len() == 0,
            r@.server_token.len() == 7,
            forall|i: int| 0 <= i < r@.server_token.len() ==> is_token_char(
                #[trigger] r@.server_token[i],
            ),
            r@.username.len() == 0,
            r@.client_hash.len() == 0,
            !r@.authenticated,
    {
        Session::new(gen_token())
    }

    /// Feeds one decoded message to the state machine. The session becomes
    /// and the caller is asked exactly what `spec_step` says; any reply is
    /// well formed and stamped with the capture time.
    pub fn step(&mut self, msg: &Message) -> (r: StepResult)
        ensures
            final(self)@ == spec_step(old(self)@, msg@).0,
            action_view(r) == spec_step(old(self)@, msg@).1,
            r matches StepResult::Reply(reply) ==> reply@.wf() && is_timestamp_header(
                reply@.header,
            ),
    {
        match msg.msg_type {
            MessageType::SendToken => {
                self.client_token = get_body_value_or_empty(msg, "token");
                proof {
                    assert(self@ =~= spec_step(old(self)@, msg@).0);
                }
                StepResult::NoReply
            },
            MessageType::RequestToken => {
                let reply = Message::send_token(self.server_token.clone());
                StepResult::Reply(reply)
            },
            MessageType::Username => {
                self.username = get_body_value_or_empty(msg, "username");
                proof {
                    assert(self@ =~= spec_step(old(self)@, msg@).0);
                }
                StepResult::NoReply
            },
            MessageType::LoginRequest => {
                self.client_hash = get_body_value_or_empty(msg, "client_hash");
                proof {
                    assert(self@ =~= SessionView {
                        client_hash: body_value_or_empty(msg@, "client_hash"@),
                        ..old(self)@
                    });
                }
                if self.username.as_str().is_empty() || self.client_token.as_str().is_empty()
                    || self.client_hash.as_str().is_empty() {
                    StepResult::Reply(Message::result(OperationResult::Fail))
                } else {
                    StepResult::NeedSecret
                }
            },
            MessageType::Result(_) => StepResult::Violation,
        }
    }

    /// Resolves a pending login with the store's answer. The reply carries
    /// `Result(Success)` exactly when `spec_resolve` says so, and the
    /// session is marked authenticated exactly then.
    pub fn resolve_login(&mut self, secret: Option<&String>) -> (r: Message)
        ensures
            final(self)@ == spec_resolve(old(self)@, secret_view(secret)).0,
            r@.msg_type == MessageType::Result(
                spec_resolve(old(self)@, secret_view(secret)).1,
            ),
            r@.wf(),
            is_timestamp_header(r@.header),
    {
        match secret {
            Some(sec) => {
                let expected = compute_proof(
                    self.client_token.as_str(),
                    self.server_token.as_str(),
                    sec.as_str(),
                );
                if expected == self.client_hash {
                    self.authenticated = true;
                    proof {
                        assert(self@ =~= (SessionView { authenticated: true, ..old(self)@ }));
                    }
                    Message::result(OperationResult::Success)
                } else {
                    Message::result(OperationResult::Fail)
                }
            },
            None => Message::result(OperationResult::Fail),
        }
    }
}

/// When the client's proof is the digest of the session's two tokens and
/// the stored secret, the login resolves to success and the session becomes
/// authenticated.
pub proof fn lemma_auth_success(s: SessionView, secret: Seq<char>)
    requires
        s.client_hash == spec_proof(s.client_token, s.server_token, secret),
    ensures
        spec_resolve(s, Some(secret)).1 == OperationResult::Success,
        spec_resolve(s, Some(secret)).0.authenticated,
{
}

/// When the client computed its proof from a secret whose digest differs
/// from the stored one's, the login resolves to failure and the session is
/// left as it was.
pub proof fn lemma_auth_failure_wrong_secret(s: SessionView, secret: Seq<char>)
    requires
        s.client_hash != spec_proof(s.client_token, s.server_token, secret),
    ensures
        spec_resolve(s, Some(secret)).1 == OperationResult::Fail,
        spec_resolve(s, Some(secret)).0 == s,
{
}

/// A login request on a session with no username is answered with an
/// immediate failure reply: the store is never asked, because the step does
/// not request a secret.
pub proof fn lemma_auth_failure_missing_username(s: SessionView, m: MessageView)
    requires
        m.msg_type == MessageType::LoginRequest,
        s.username.len() == 0,
    ensures
        spec_step(s, m).1 == ActionView::Reply(
            MessageType::Result(OperationResult::Fail),
            None::<Seq<(Seq<char>, Seq<char>)>>,
        ),
        spec_step(s, m).1 != ActionView::NeedSecret,
{
}

/// A token request never changes the session and is answered with exactly
/// one `SendToken` reply carrying the session's fixed server token; asked
/// twice in one session, the two replies are identical.
pub proof fn lemma_request_token_stable(s: SessionView, m1: MessageView, m2: MessageView)
    requires
        m1.msg_type == MessageType::RequestToken,
        m2.msg_type == MessageType::RequestToken,
    ensures
        spec_step(s, m1).0 == s,
        spec_step(s, m1).1 == ActionView::Reply(
            MessageType::SendToken,
            Some(seq![("token"@, s.server_token)]),
        ),
        spec_step(spec_step(s, m1).0, m2) == spec_step(s, m1),
{
}

} // verus!
