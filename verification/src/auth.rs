use vstd::prelude::*;
use vstd::string::StringExecFns;
use rand::Rng;

verus! {

/// Hex digest that the hash function assigns to a string: a fixed function
/// of the characters alone, the same in every process.
pub uninterp spec fn digest_of(s: Seq<char>) -> Seq<char>;

/// Relies on `sha256::digest` (through its `Sha256Digest` impl for `&str`):
/// the hex digest of the string's UTF-8 bytes, a pure function of the
/// string alone.
#[verifier::external_body]
fn sha256_hex(input: &str) -> (r: String)
    ensures
        r@ == digest_of(input@),
{
    sha256::digest(input)
}

/// The proof that a peer knows `secret`: the digest of the client token,
/// the server token and the secret, concatenated in that order with no
/// separator.
pub open spec fn spec_proof(
    client_token: Seq<char>,
    server_token: Seq<char>,
    secret: Seq<char>,
) -> Seq<char> {
    digest_of(client_token + server_token + secret)
}

/// Computes the handshake proof. Both sides call this with the same tokens;
/// the result is a function of the three arguments alone, so two calls on
/// equal arguments agree.
pub fn compute_proof(client_token: &str, server_token: &str, secret: &str) -> (r: String)
    ensures
        r@ == spec_proof(client_token@, server_token@, secret@),
{
    let mut input = String::new();
    input.append(client_token);
    input.append(server_token);
    input.append(secret);
    proof {
        assert(input@ =~= client_token@ + server_token@ + secret@);
    }
    sha256_hex(input.as_str())
}

/// An ASCII letter or digit: the only characters a challenge token holds.
pub open spec fn is_token_char(c: char) -> bool {
    ('0' <= c && c <= '9') || ('a' <= c && c <= 'z') || ('A' <= c && c <= 'Z')
}

/// Relies on rand's `thread_rng` and `Alphanumeric` distribution: seven
/// random characters drawn from the ASCII letters and digits; nothing is
/// assumed about which.
#[verifier::external_body]
pub(crate) fn gen_token() -> (r: String)
    ensures
        r@.len() == 7,
        forall|i: int| 0 <= i < r@.len() ==> is_token_char(#[trigger] r@[i]),
{
    rand::thread_rng().sample_iter(&rand::distributions::Alphanumeric).take(7).map(
        char::from,
    ).collect()
}

/// The client side's login material: its own challenge token, the server's
/// token once received, and the user's name and password.
pub struct LoginData {
    pub client_token: String,
    pub server_token: String,
    pub username: String,
    pub password: String,
}

impl LoginData {
    /// Fresh login material: a new random client token, no server token yet.
    pub fn new(username: String, password: String) -> (r: LoginData)
        ensures
            r.username@ == username@,
            r.password@ == password@,
            r.client_token@.len() == 7,
            forall|i: int| 0 <= i < r.client_token@.len() ==> is_token_char(
                #[trigger] r.client_token@[i],
            ),
            r.server_token@.len() == 0,
    {
        LoginData {
            client_token: gen_token(),
            server_token: String::new(),
            username,
            password,
        }
    }

    /// The proof this client presents: the digest over its token, the
    /// server's token and its password.
    pub fn get_hash(&self) -> (r: String)
        ensures
            r@ == spec_proof(self.client_token@, self.server_token@, self.password@),
    {
        compute_proof(
            self.client_token.as_str(),
            self.server_token.as_str(),
            self.password.as_str(),
        )
    }
}

} // verus!
