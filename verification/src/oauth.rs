//! Signing in: the authorization-code flow with PKCE, and refreshing tokens.
//!
//! Opening the browser, listening for the callback and posting forms is the caller's part;
//! what is sent, what comes back and what follows from it is decided here.

use vstd::prelude::*;

use crate::auth;
use crate::json;
use crate::mcp;
use crate::moment;
use crate::moment::Moment;
use crate::render;
use crate::storage::Tokens;
use crate::text;

verus! {

/// The client that the production realm knows.
pub const DEFAULT_CLIENT_ID: &'static str = "inderes-mcp";

/// Where the production realm lets a person sign in.
pub const DEFAULT_AUTH_URL: &'static str =
    "https://sso.inderes.fi/auth/realms/Inderes/protocol/openid-connect/auth";

/// Where the production realm gives tokens.
pub const DEFAULT_TOKEN_URL: &'static str =
    "https://sso.inderes.fi/auth/realms/Inderes/protocol/openid-connect/token";

/// Where the production realm says who signed in.
pub const DEFAULT_USERINFO_URL: &'static str =
    "https://sso.inderes.fi/auth/realms/Inderes/protocol/openid-connect/userinfo";

/// What is asked for at sign-in.
pub const DEFAULT_SCOPES: [&'static str; 4] = ["openid", "offline_access", "profile", "email"];

// --- the identity provider ----------------------------------------------------------------

/// Where the identity provider is, and as which client it is asked.
#[derive(Debug, Clone)]
pub struct IdpConfig {
    pub authorization_endpoint: String,
    pub token_endpoint: String,
    pub userinfo_endpoint: String,
    pub client_id: String,
}

impl IdpConfig {
    /// The production realm.
    pub fn inderes_default() -> (r: IdpConfig)
        ensures
            r.authorization_endpoint@ == DEFAULT_AUTH_URL@,
            r.token_endpoint@ == DEFAULT_TOKEN_URL@,
            r.userinfo_endpoint@ == DEFAULT_USERINFO_URL@,
            r.client_id@ == DEFAULT_CLIENT_ID@,
    {
        IdpConfig {
            authorization_endpoint: DEFAULT_AUTH_URL.to_owned(),
            token_endpoint: DEFAULT_TOKEN_URL.to_owned(),
            userinfo_endpoint: DEFAULT_USERINFO_URL.to_owned(),
            client_id: DEFAULT_CLIENT_ID.to_owned(),
        }
    }

    /// The production realm, but for what the environment sets.
    pub fn from_env(
        auth_url: Option<String>,
        token_url: Option<String>,
        userinfo_url: Option<String>,
        client_id: Option<String>,
    ) -> (r: IdpConfig)
        ensures
            r.authorization_endpoint@ == text::or_text(
                text::seen_string(auth_url),
                DEFAULT_AUTH_URL@,
            ),
            r.token_endpoint@ == text::or_text(text::seen_string(token_url), DEFAULT_TOKEN_URL@),
            r.userinfo_endpoint@ == text::or_text(
                text::seen_string(userinfo_url),
                DEFAULT_USERINFO_URL@,
            ),
            r.client_id@ == text::or_text(text::seen_string(client_id), DEFAULT_CLIENT_ID@),
    {
        let mut cfg = IdpConfig::inderes_default();
        if let Some(v) = auth_url {
            cfg.authorization_endpoint = v;
        }
        if let Some(v) = token_url {
            cfg.token_endpoint = v;
        }
        if let Some(v) = userinfo_url {
            cfg.userinfo_endpoint = v;
        }
        if let Some(v) = client_id {
            cfg.client_id = v;
        }
        cfg
    }
}

/// How the code comes back after the sign-in.
#[derive(Clone, Copy, Debug, PartialEq, Eq, Structural)]
pub enum LoginMode {
    /// The browser brings it to a listener on this machine.
    Loopback,
    /// The person pastes the address to which the browser was sent.
    PasteCallback,
}

impl LoginMode {
    /// How the code comes back, by whether pasting was asked for.
    pub fn of(paste_callback: bool) -> (r: LoginMode)
        ensures
            r == (if paste_callback {
                LoginMode::PasteCallback
            } else {
                LoginMode::Loopback
            }),
    {
        if paste_callback {
            LoginMode::PasteCallback
        } else {
            LoginMode::Loopback
        }
    }
}

// --- secrets ------------------------------------------------------------------------------

/// The digit of base 64, in the alphabet for addresses, for a number below 64.
pub open spec fn base64_digit(n: int) -> char {
    if n < 26 {
        (65 + n) as char
    } else if n < 52 {
        (97 + n - 26) as char
    } else if n < 62 {
        (48 + n - 52) as char
    } else if n == 62 {
        '-'
    } else {
        '_'
    }
}

/// The byte at a place; zero behind the end.
pub open spec fn byte_at(bytes: Seq<u8>, i: int) -> int {
    if 0 <= i < bytes.len() {
        bytes[i] as int
    } else {
        0
    }
}

/// The `i`-th group of six bits.
pub open spec fn sextet(bytes: Seq<u8>, i: int) -> int {
    let pair = byte_at(bytes, 3 * i / 4) * 256 + byte_at(bytes, 3 * i / 4 + 1);
    if i % 4 == 0 {
        pair / 1024 % 64
    } else if i % 4 == 1 {
        pair / 16 % 64
    } else if i % 4 == 2 {
        pair / 64 % 64
    } else {
        pair / 256 % 64
    }
}

/// Bytes in base 64, in the alphabet for addresses and without padding.
pub open spec fn base64_text(bytes: Seq<u8>) -> Seq<char> {
    Seq::new(
        ((4 * bytes.len() + 2) / 3) as nat,
        |i: int| base64_digit(sextet(bytes, i)),
    )
}

/// The SHA-256 digest of bytes, by `sha2::Sha256`.
pub uninterp spec fn sha256_digest(bytes: Seq<u8>) -> Seq<u8>;

/// `base64::Engine::encode` of `base64::prelude::BASE64_URL_SAFE_NO_PAD`: a digit for each six
/// bits, zero bits behind the end, no padding.
#[verifier::external_body]
fn base64_encode(bytes: &[u8]) -> (r: String)
    requires
        bytes@.len() <= 0x2000_0000,
    ensures
        r@ == base64_text(bytes@),
{
    base64::Engine::encode(&base64::prelude::BASE64_URL_SAFE_NO_PAD, bytes)
}

/// `sha2::Sha256`: the digest of the bytes, which takes 32 bytes.
#[verifier::external_body]
fn sha256(bytes: &[u8]) -> (r: Vec<u8>)
    ensures
        r@ == sha256_digest(bytes@),
        r@.len() == 32,
{
    let mut h = <sha2::Sha256 as sha2::Digest>::new();
    sha2::Digest::update(&mut h, bytes);
    sha2::Digest::finalize(h).to_vec()
}

/// `rand::thread_rng` and `rand::Rng::fill`: so many bytes, by chance.
#[verifier::external_body]
fn random_bytes(n: usize) -> (r: Vec<u8>)
    requires
        n <= 0x2000_0000,
    ensures
        r@.len() == n,
{
    let mut buf = vec![0u8; n];
    rand::Rng::fill(&mut rand::thread_rng(), &mut buf[..]);
    buf
}

/// Bytes as text that can stand in an address.
pub fn urlsafe(bytes: &Vec<u8>) -> (r: String)
    requires
        bytes@.len() <= 0x2000_0000,
    ensures
        r@ == base64_text(bytes@),
{
    base64_encode(bytes.as_slice())
}

/// So many bytes by chance, as text that can stand in an address.
pub fn random_urlsafe(n_bytes: usize) -> (r: String)
    requires
        n_bytes <= 0x2000_0000,
    ensures
        exists|bytes: Seq<u8>| bytes.len() == n_bytes && r@ == #[trigger] base64_text(bytes),
        r@.len() == (4 * n_bytes + 2) / 3,
        forall|i: int| 0 <= i < r@.len() ==> is_url_digit(#[trigger] r@[i]),
{
    let bytes = random_bytes(n_bytes);
    proof {
        law_base64_is_unreserved(bytes@);
    }
    urlsafe(&bytes)
}

/// Whether a character is a digit of base 64 in the alphabet for addresses.
pub open spec fn is_url_digit(c: char) -> bool {
    ||| 'a' <= c <= 'z'
    ||| 'A' <= c <= 'Z'
    ||| '0' <= c <= '9'
    ||| c == '-'
    ||| c == '_'
}

/// Whether a character may stand in a verifier.
pub open spec fn is_unreserved(c: char) -> bool {
    is_url_digit(c) || c == '.' || c == '~'
}

/// A verifier by chance: 64 bytes as text, so from 43 to 128 characters, none of them reserved.
pub fn random_verifier() -> (r: String)
    ensures
        exists|bytes: Seq<u8>| bytes.len() == 64 && r@ == #[trigger] base64_text(bytes),
        43 <= r@.len() <= 128,
        r@.len() == 86,
        forall|i: int| 0 <= i < r@.len() ==> is_url_digit(#[trigger] r@[i]),
{
    random_urlsafe(64)
}

/// The challenge for a verifier: its digest, as text that can stand in an address.
pub open spec fn challenge_for(verifier: Seq<char>) -> Seq<char> {
    base64_text(sha256_digest(vstd::utf8::encode_utf8(verifier)))
}

/// The challenge for a verifier.
pub fn pkce_s256(verifier: &str) -> (r: String)
    ensures
        r@ == challenge_for(verifier@),
        r@.len() == 43,
        forall|i: int| 0 <= i < r@.len() ==> is_url_digit(#[trigger] r@[i]),
{
    let digest = sha256(verifier.as_bytes());
    proof {
        law_base64_is_unreserved(digest@);
    }
    urlsafe(&digest)
}

/// Text in base 64 holds digits only, and so no reserved character.
pub proof fn law_base64_is_unreserved(bytes: Seq<u8>)
    ensures
        forall|i: int|
            0 <= i < base64_text(bytes).len() ==> is_url_digit(#[trigger] base64_text(bytes)[i])
                && is_unreserved(base64_text(bytes)[i]),
{
    assert forall|i: int| 0 <= i < base64_text(bytes).len() implies is_url_digit(
        #[trigger] base64_text(bytes)[i],
    ) && is_unreserved(base64_text(bytes)[i]) by {
        let n = sextet(bytes, i);
        assert(0 <= n < 64);
    }
}

/// Different bytes are different texts: nothing of what is encoded is lost.
pub proof fn law_base64_loses_nothing(a: Seq<u8>, b: Seq<u8>)
    requires
        base64_text(a) == base64_text(b),
    ensures
        a == b,
{
    assert(base64_text(a).len() == (4 * a.len() + 2) / 3);
    assert(base64_text(b).len() == (4 * b.len() + 2) / 3);
    assert forall|k: int| 0 <= k < a.len() implies a[k] == b[k] by {
        let i = 4 * (k / 3) + k % 3;
        assert(0 <= i && i + 1 < (4 * a.len() + 2) / 3);
        lemma_same_digit(a, b, i);
        lemma_same_digit(a, b, i + 1);
        lemma_byte_of_sextets(a, k);
        lemma_byte_of_sextets(b, k);
    }
}

proof fn lemma_digit(n: int)
    requires
        0 <= n < 64,
    ensures
        base64_digit(n) as int == (if n < 26 {
            65 + n
        } else if n < 52 {
            71 + n
        } else if n < 62 {
            n - 4
        } else if n == 62 {
            45
        } else {
            95
        }),
{
}

proof fn lemma_same_digit(a: Seq<u8>, b: Seq<u8>, i: int)
    requires
        base64_text(a) == base64_text(b),
        0 <= i < base64_text(a).len(),
    ensures
        sextet(a, i) == sextet(b, i),
{
    assert(base64_text(a)[i] == base64_digit(sextet(a, i)));
    assert(base64_text(b)[i] == base64_digit(sextet(b, i)));
    let m = sextet(a, i);
    let n = sextet(b, i);
    assert(0 <= m < 64 && 0 <= n < 64);
    lemma_digit(m);
    lemma_digit(n);
}

proof fn lemma_first_byte(y: u8, z: u8)
    by (bit_vector)
    ensures
        (y * 256 + z) / 1024 % 64 * 4 + (y * 256 + z) / 16 % 64 / 16 == y,
{
}

proof fn lemma_second_byte(x: u8, y: u8, z: u8)
    by (bit_vector)
    ensures
        (x * 256 + y) / 16 % 64 % 16 * 16 + (y * 256 + z) / 64 % 64 / 4 == y,
{
}

proof fn lemma_third_byte(x: u8, y: u8, z: u8)
    by (bit_vector)
    ensures
        (x * 256 + y) / 64 % 64 % 4 * 64 + (y * 256 + z) / 256 % 64 == y,
{
}

proof fn lemma_byte_of_sextets(a: Seq<u8>, k: int)
    requires
        0 <= k < a.len(),
    ensures
        ({
            let i = 4 * (k / 3) + k % 3;
            a[k] as int == (if k % 3 == 0 {
                sextet(a, i) * 4 + sextet(a, i + 1) / 16
            } else if k % 3 == 1 {
                sextet(a, i) % 16 * 16 + sextet(a, i + 1) / 4
            } else {
                sextet(a, i) % 4 * 64 + sextet(a, i + 1)
            })
        }),
{
    let i = 4 * (k / 3) + k % 3;
    let z = byte_at(a, k + 1) as u8;
    if k % 3 == 0 {
        assert(i % 4 == 0 && (i + 1) % 4 == 1);
        assert(3 * i / 4 == k && 3 * (i + 1) / 4 == k);
        lemma_first_byte(a[k], z);
    } else if k % 3 == 1 {
        assert(i % 4 == 1 && (i + 1) % 4 == 2);
        assert(3 * i / 4 == k - 1 && 3 * (i + 1) / 4 == k);
        lemma_second_byte(a[k - 1], a[k], z);
    } else {
        assert(i % 4 == 2 && (i + 1) % 4 == 3);
        assert(3 * i / 4 == k - 1 && 3 * (i + 1) / 4 == k);
        lemma_third_byte(a[k - 1], a[k], z);
    }
}

// --- addresses ----------------------------------------------------------------------------

/// What `url::Url::parse` and `url::Url::query_pairs` read out of an address: the pairs of its
/// query, decoded, or the message of the error.
pub uninterp spec fn url_query(url: Seq<char>) -> Result<
    Seq<(Seq<char>, Seq<char>)>,
    Seq<char>,
>;

/// What `url::Url::query_pairs_mut` makes of an address to which pairs are added.
pub uninterp spec fn url_with_pairs(url: Seq<char>, pairs: Seq<(Seq<char>, Seq<char>)>) -> Seq<char>;

/// Pairs of texts.
pub open spec fn pairs_view(pairs: Seq<(String, String)>) -> Seq<(Seq<char>, Seq<char>)> {
    pairs.map_values(|p: (String, String)| (p.0@, p.1@))
}

/// How many characters pairs take, with a sign before and within each.
pub open spec fn pairs_size(pairs: Seq<(Seq<char>, Seq<char>)>) -> nat
    decreases pairs.len(),
{
    if pairs.len() == 0 {
        0
    } else {
        pairs_size(pairs.drop_last()) + pairs.last().0.len() + pairs.last().1.len() + 2
    }
}

/// `url::Url::parse`, and the pairs that `url::Url::query_pairs` hands out.
#[verifier::external_body]
fn read_query(url: &str) -> (r: Result<Vec<(String, String)>, String>)
    ensures
        match r {
            Ok(pairs) => url_query(url@) == Ok::<Seq<(Seq<char>, Seq<char>)>, Seq<char>>(
                pairs_view(pairs@),
            ),
            Err(e) => url_query(url@) == Err::<Seq<(Seq<char>, Seq<char>)>, Seq<char>>(e@),
        },
{
    match url::Url::parse(url) {
        Ok(u) => Ok(u.query_pairs().into_owned().collect()),
        Err(e) => Err(e.to_string()),
    }
}

/// `url::Url::parse`, and the pairs appended by `url::Url::query_pairs_mut`. Read out of the
/// address that comes of it, the query is the one that was there with the pairs behind it.
#[verifier::external_body]
fn add_query(url: &str, pairs: &Vec<(String, String)>) -> (r: Result<String, String>)
    requires
        url@.len() + pairs_size(pairs_view(pairs@)) <= 0x1000_0000,
    ensures
        match r {
            Ok(t) => {
                &&& t@ == url_with_pairs(url@, pairs_view(pairs@))
                &&& url_query(url@) is Ok
                &&& url_query(t@) is Ok
                &&& url_query(t@)->Ok_0 == url_query(url@)->Ok_0 + pairs_view(pairs@)
            },
            Err(e) => url_query(url@) == Err::<Seq<(Seq<char>, Seq<char>)>, Seq<char>>(e@),
        },
{
    let mut u = match url::Url::parse(url) {
        Ok(u) => u,
        Err(e) => return Err(e.to_string()),
    };
    u.query_pairs_mut().extend_pairs(pairs);
    Ok(u.into())
}

/// The texts of a list.
pub open spec fn words_of(list: Seq<&str>) -> Seq<Seq<char>> {
    list.map_values(|s: &str| s@)
}

/// The pairs that ask for a sign-in.
pub open spec fn auth_pairs(
    client_id: Seq<char>,
    redirect_uri: Seq<char>,
    scopes: Seq<Seq<char>>,
    state: Seq<char>,
    code_challenge: Seq<char>,
) -> Seq<(Seq<char>, Seq<char>)> {
    seq![
        ("response_type"@, "code"@),
        ("client_id"@, client_id),
        ("redirect_uri"@, redirect_uri),
        ("scope"@, text::joined(scopes, " "@)),
        ("state"@, state),
        ("code_challenge"@, code_challenge),
        ("code_challenge_method"@, "S256"@),
    ]
}

fn pair(k: &str, v: &str) -> (r: (String, String))
    ensures
        r.0@ == k@,
        r.1@ == v@,
{
    (k.to_owned(), v.to_owned())
}

/// The address at which a person signs in: the endpoint, with the pairs that ask for a
/// sign-in behind the query that it has.
pub fn build_auth_url(
    idp: &IdpConfig,
    redirect_uri: &str,
    code_challenge: &str,
    state: &str,
    scopes: &[&str],
) -> (r: Result<String, String>)
    requires
        idp.authorization_endpoint@.len() + idp.client_id@.len() + redirect_uri@.len()
            + code_challenge@.len() + state@.len() + text::joined(words_of(scopes@), " "@).len()
            <= 0x800_0000,
    ensures
        match r {
            Ok(url) => {
                let pairs = auth_pairs(
                    idp.client_id@,
                    redirect_uri@,
                    words_of(scopes@),
                    state@,
                    code_challenge@,
                );
                &&& url@ == url_with_pairs(idp.authorization_endpoint@, pairs)
                &&& url_query(idp.authorization_endpoint@) is Ok
                &&& url_query(url@) is Ok
                &&& url_query(url@)->Ok_0 == url_query(idp.authorization_endpoint@)->Ok_0 + pairs
            },
            Err(e) => url_query(idp.authorization_endpoint@) == Err::<
                Seq<(Seq<char>, Seq<char>)>,
                Seq<char>,
            >(e@),
        },
{
    let mut list: Vec<String> = Vec::new();
    let mut i: usize = 0;
    while i < scopes.len()
        invariant
            i <= scopes@.len(),
            list@.len() == i,
            forall|j: int| 0 <= j < i ==> (#[trigger] list@[j])@ == scopes@[j]@,
        decreases scopes@.len() - i,
    {
        list.push(scopes[i].to_owned());
        i += 1;
    }
    assert(text::texts(list@) =~= words_of(scopes@));
    let scope = text::join(&list, " ");
    let mut pairs: Vec<(String, String)> = Vec::new();
    pairs.push(pair("response_type", "code"));
    pairs.push(pair("client_id", idp.client_id.as_str()));
    pairs.push(pair("redirect_uri", redirect_uri));
    pairs.push(pair("scope", scope.as_str()));
    pairs.push(pair("state", state));
    pairs.push(pair("code_challenge", code_challenge));
    pairs.push(pair("code_challenge_method", "S256"));
    let ghost all = auth_pairs(
        idp.client_id@,
        redirect_uri@,
        words_of(scopes@),
        state@,
        code_challenge@,
    );
    assert(pairs_view(pairs@) =~= all);
    proof {
        lemma_auth_pairs_size(
            idp.client_id@,
            redirect_uri@,
            words_of(scopes@),
            state@,
            code_challenge@,
        );
    }
    add_query(idp.authorization_endpoint.as_str(), &pairs)
}

proof fn lemma_auth_pairs_size(
    client_id: Seq<char>,
    redirect_uri: Seq<char>,
    scopes: Seq<Seq<char>>,
    state: Seq<char>,
    code_challenge: Seq<char>,
)
    ensures
        pairs_size(auth_pairs(client_id, redirect_uri, scopes, state, code_challenge))
            <= client_id.len() + redirect_uri.len() + state.len() + code_challenge.len()
            + text::joined(scopes, " "@).len() + 200,
{
    reveal_strlit("response_type");
    reveal_strlit("code");
    reveal_strlit("client_id");
    reveal_strlit("redirect_uri");
    reveal_strlit("scope");
    reveal_strlit("state");
    reveal_strlit("code_challenge");
    reveal_strlit("code_challenge_method");
    reveal_strlit("S256");
    let p = auth_pairs(client_id, redirect_uri, scopes, state, code_challenge);
    let p6 = p.drop_last();
    let p5 = p6.drop_last();
    let p4 = p5.drop_last();
    let p3 = p4.drop_last();
    let p2 = p3.drop_last();
    let p1 = p2.drop_last();
    assert(p1.drop_last().len() == 0);
    assert(pairs_size(p1.drop_last()) == 0);
    assert(pairs_size(p1) == 13 + 4 + 2);
    assert(pairs_size(p2) == pairs_size(p1) + 9 + client_id.len() + 2);
    assert(pairs_size(p3) == pairs_size(p2) + 12 + redirect_uri.len() + 2);
    assert(pairs_size(p4) == pairs_size(p3) + 5 + text::joined(scopes, " "@).len() + 2);
    assert(pairs_size(p5) == pairs_size(p4) + 5 + state.len() + 2);
    assert(pairs_size(p6) == pairs_size(p5) + 14 + code_challenge.len() + 2);
    assert(pairs_size(p) == pairs_size(p6) + 21 + 4 + 2);
}

/// Where the browser is sent after the sign-in: a listener on this machine.
pub fn redirect_uri(port: u16) -> (r: String)
    ensures
        r@ == "http://127.0.0.1:"@ + text::nat_text(port as nat) + "/callback"@,
{
    let mut r = "http://127.0.0.1:".to_owned();
    r.append(text::show_u64(port as u64).as_str());
    r.append("/callback");
    r
}

// --- the callback -------------------------------------------------------------------------

/// Why a callback brings no code.
#[derive(Debug)]
pub enum CallbackError {
    /// The path is not that of a callback; the path is given.
    UnexpectedPath(String),
    /// The address cannot be read; the reason is given.
    Unparseable(String),
    /// The provider answered with an error, and with a description of it.
    Refused(String, String),
    /// The state is missing.
    MissingState,
    /// The state is not the one that was sent.
    StateMismatch,
    /// The code is missing.
    MissingCode,
}

impl CallbackError {
    /// The error in words.
    pub open spec fn words(&self) -> Seq<char> {
        match self {
            CallbackError::UnexpectedPath(path) => "unexpected callback path: "@ + path@,
            CallbackError::Unparseable(why) => "unparseable callback URL: "@ + why@,
            CallbackError::Refused(e, desc) => "authorization server returned "@ + e@ + ": "@
                + desc@,
            CallbackError::MissingState => "missing `state` in callback"@,
            CallbackError::StateMismatch => "state mismatch — possible CSRF; aborting"@,
            CallbackError::MissingCode => "missing `code` in callback"@,
        }
    }

    /// The error in words.
    pub fn message(&self) -> (r: String)
        ensures
            r@ == self.words(),
    {
        match self {
            CallbackError::UnexpectedPath(path) => {
                let mut r = "unexpected callback path: ".to_owned();
                r.append(path.as_str());
                r
            },
            CallbackError::Unparseable(why) => {
                let mut r = "unparseable callback URL: ".to_owned();
                r.append(why.as_str());
                r
            },
            CallbackError::Refused(e, desc) => {
                let mut r = "authorization server returned ".to_owned();
                r.append(e.as_str());
                r.append(": ");
                r.append(desc.as_str());
                r
            },
            CallbackError::MissingState => "missing `state` in callback".to_owned(),
            CallbackError::StateMismatch => "state mismatch — possible CSRF; aborting".to_owned(),
            CallbackError::MissingCode => "missing `code` in callback".to_owned(),
        }
    }
}

/// The value of a pair by its name; where there are several, of the last.
pub open spec fn last_value(pairs: Seq<(Seq<char>, Seq<char>)>, name: Seq<char>) -> Option<
    Seq<char>,
>
    decreases pairs.len(),
{
    if pairs.len() == 0 {
        None
    } else if pairs.last().0 == name {
        Some(pairs.last().1)
    } else {
        last_value(pairs.drop_last(), name)
    }
}

/// Whether `r` is what the pairs of a callback say to one who sent the state `expected`: an
/// error of the provider goes first, then the state must be right, then there must be a code.
pub open spec fn is_code(
    pairs: Seq<(Seq<char>, Seq<char>)>,
    expected: Seq<char>,
    r: Result<String, CallbackError>,
) -> bool {
    match last_value(pairs, "error"@) {
        Some(e) => r matches Err(CallbackError::Refused(error, desc)) && error@ == e && desc@
            == text::or_text(last_value(pairs, "error_description"@), ""@),
        None => match last_value(pairs, "state"@) {
            None => r matches Err(CallbackError::MissingState),
            Some(state) => if state != expected {
                r matches Err(CallbackError::StateMismatch)
            } else {
                match last_value(pairs, "code"@) {
                    None => r matches Err(CallbackError::MissingCode),
                    Some(code) => r matches Ok(c) && c@ == code,
                }
            },
        },
    }
}

/// Whether `r` is what the address of a callback says.
pub open spec fn is_url_code(
    url: Seq<char>,
    expected: Seq<char>,
    r: Result<String, CallbackError>,
) -> bool {
    match url_query(url) {
        Err(why) => r matches Err(CallbackError::Unparseable(e)) && e@ == why,
        Ok(pairs) => is_code(pairs, expected, r),
    }
}

/// Whether `r` is what the path of a callback says.
pub open spec fn is_path_code(
    path: Seq<char>,
    expected: Seq<char>,
    r: Result<String, CallbackError>,
) -> bool {
    if !text::begins(path, "/callback"@) {
        r matches Err(CallbackError::UnexpectedPath(p)) && p@ == path
    } else {
        is_url_code("http://127.0.0.1"@ + path, expected, r)
    }
}

/// The value of a pair by its name; where there are several, of the last.
fn find_value(pairs: &Vec<(String, String)>, name: &str) -> (r: Option<String>)
    ensures
        text::seen_string(r) == last_value(pairs_view(pairs@), name@),
{
    let ghost all = pairs_view(pairs@);
    let mut n: usize = pairs.len();
    assert(all.take(n as int) == all);
    while n > 0
        invariant
            n <= pairs@.len(),
            all == pairs_view(pairs@),
            last_value(all, name@) == last_value(all.take(n as int), name@),
        decreases n,
    {
        assert(all.take(n as int).last() == (pairs@[n - 1].0@, pairs@[n - 1].1@));
        assert(all.take(n as int).drop_last() == all.take(n - 1));
        if text::same(pairs[n - 1].0.as_str(), name) {
            return Some(pairs[n - 1].1.clone());
        }
        n = n - 1;
    }
    None
}

/// The code that the pairs of a callback bring.
pub fn read_code(pairs: &Vec<(String, String)>, expected_state: &str) -> (r: Result<
    String,
    CallbackError,
>)
    ensures
        is_code(pairs_view(pairs@), expected_state@, r),
{
    if let Some(e) = find_value(pairs, "error") {
        let desc = match find_value(pairs, "error_description") {
            Some(d) => d,
            None => "".to_owned(),
        };
        return Err(CallbackError::Refused(e, desc));
    }
    let state = match find_value(pairs, "state") {
        None => return Err(CallbackError::MissingState),
        Some(s) => s,
    };
    if !text::same(state.as_str(), expected_state) {
        return Err(CallbackError::StateMismatch);
    }
    match find_value(pairs, "code") {
        None => Err(CallbackError::MissingCode),
        Some(c) => Ok(c),
    }
}

/// The code that the address of a callback brings.
fn read_url_code(url: &str, expected_state: &str) -> (r: Result<String, CallbackError>)
    ensures
        is_url_code(url@, expected_state@, r),
{
    match read_query(url) {
        Err(e) => Err(CallbackError::Unparseable(e)),
        Ok(pairs) => read_code(&pairs, expected_state),
    }
}

/// The code that the path of a callback brings.
pub fn parse_callback_path(path: &str, expected_state: &str) -> (r: Result<String, CallbackError>)
    ensures
        is_path_code(path@, expected_state@, r),
{
    if !text::starts_with(path, "/callback") {
        return Err(CallbackError::UnexpectedPath(path.to_owned()));
    }
    let mut url = "http://127.0.0.1".to_owned();
    url.append(path);
    read_url_code(url.as_str(), expected_state)
}

/// The code that a pasted address brings; white space around it does not matter.
pub fn parse_pasted_callback(pasted: &str, expected_state: &str) -> (r: Result<
    String,
    CallbackError,
>)
    ensures
        is_url_code(text::trimmed(pasted@), expected_state@, r),
{
    read_url_code(text::trim(pasted).as_str(), expected_state)
}

/// A code is taken only out of a callback that carries the state that was sent, and no error.
pub proof fn law_code_comes_with_the_state(
    pairs: Seq<(Seq<char>, Seq<char>)>,
    expected: Seq<char>,
    r: Result<String, CallbackError>,
)
    requires
        is_code(pairs, expected, r),
        r is Ok,
    ensures
        last_value(pairs, "state"@) == Some(expected),
        last_value(pairs, "code"@) == Some(r->Ok_0@),
        last_value(pairs, "error"@) is None,
{
}

/// The address for the sign-in carries the state and the challenge that were made for it,
/// whatever query the endpoint has.
pub proof fn law_auth_address_carries_the_secrets(
    before: Seq<(Seq<char>, Seq<char>)>,
    client_id: Seq<char>,
    redirect_uri: Seq<char>,
    scopes: Seq<Seq<char>>,
    state: Seq<char>,
    code_challenge: Seq<char>,
)
    ensures
        ({
            let query = before + auth_pairs(client_id, redirect_uri, scopes, state, code_challenge);
            &&& last_value(query, "state"@) == Some(state)
            &&& last_value(query, "code_challenge"@) == Some(code_challenge)
            &&& last_value(query, "code_challenge_method"@) == Some("S256"@)
            &&& last_value(query, "redirect_uri"@) == Some(redirect_uri)
            &&& last_value(query, "client_id"@) == Some(client_id)
        }),
{
    reveal_strlit("client_id");
    reveal_strlit("redirect_uri");
    reveal_strlit("scope");
    reveal_strlit("state");
    reveal_strlit("code_challenge");
    reveal_strlit("code_challenge_method");
    assert("client_id"@.len() == 9 && "redirect_uri"@.len() == 12 && "scope"@.len() == 5);
    assert("state"@.len() == 5 && "code_challenge"@.len() == 14);
    assert("code_challenge_method"@.len() == 21);
    let q = before + auth_pairs(client_id, redirect_uri, scopes, state, code_challenge);
    let q6 = q.drop_last();
    let q5 = q6.drop_last();
    let q4 = q5.drop_last();
    let q3 = q4.drop_last();
    let q2 = q3.drop_last();
    assert(q.last() == ("code_challenge_method"@, "S256"@));
    assert(q6.last() == ("code_challenge"@, code_challenge));
    assert(q5.last() == ("state"@, state));
    assert(q4.last().0 == "scope"@);
    assert(q3.last() == ("redirect_uri"@, redirect_uri));
    assert(q2.last() == ("client_id"@, client_id));
    assert(last_value(q5, "state"@) == Some(state));
    assert(last_value(q6, "state"@) == Some(state));
    assert(last_value(q6, "code_challenge"@) == Some(code_challenge));
    assert(last_value(q3, "redirect_uri"@) == Some(redirect_uri));
    assert(last_value(q4, "redirect_uri"@) == Some(redirect_uri));
    assert(last_value(q5, "redirect_uri"@) == Some(redirect_uri));
    assert(last_value(q6, "redirect_uri"@) == Some(redirect_uri));
    assert(last_value(q2, "client_id"@) == Some(client_id));
    assert(last_value(q3, "client_id"@) == Some(client_id));
    assert(last_value(q4, "client_id"@) == Some(client_id));
    assert(last_value(q5, "client_id"@) == Some(client_id));
    assert(last_value(q6, "client_id"@) == Some(client_id));
}

// --- answering the callback ---------------------------------------------------------------

/// The page that is shown after a sign-in.
pub const CALLBACK_SUCCESS_HTML: &'static str =
    "<!doctype html><html><head><meta charset=\"utf-8\"><title>inderes-cli — signed in</title></head><body style=\"font-family:-apple-system,system-ui,sans-serif;max-width:28rem;margin:4rem auto;text-align:center\"><h1>Signed in</h1><p>You can close this tab and return to the terminal.</p></body></html>";

/// The page that is shown where the sign-in failed.
pub const CALLBACK_ERROR_HTML: &'static str =
    "<!doctype html><html><head><meta charset=\"utf-8\"><title>inderes-cli — error</title></head><body style=\"font-family:-apple-system,system-ui,sans-serif;max-width:28rem;margin:4rem auto;text-align:center\"><h1>Sign-in failed</h1><p>Check the terminal for details.</p></body></html>";

/// The path that a request asks for: the second word of its first line.
pub open spec fn request_path(request: Seq<char>) -> Seq<char> {
    let lines = text::text_lines(request);
    if lines.len() == 0 {
        ""@
    } else {
        let words = text::text_words(lines[0]);
        if words.len() > 1 {
            words[1]
        } else {
            ""@
        }
    }
}

/// A page as an answer over HTTP.
pub open spec fn page_answer(status: Seq<char>, body: Seq<char>) -> Seq<char> {
    "HTTP/1.1 "@ + status
        + "\r\nContent-Type: text/html; charset=utf-8\r\nContent-Length: "@ + text::nat_text(
        render::byte_len(body),
    ) + "\r\nConnection: close\r\n\r\n"@ + body
}

/// What is answered to a callback.
pub open spec fn callback_answer(signed_in: bool) -> Seq<char> {
    if signed_in {
        page_answer("200 OK"@, CALLBACK_SUCCESS_HTML@)
    } else {
        page_answer("400 Bad Request"@, CALLBACK_ERROR_HTML@)
    }
}

/// What a callback brought, and what is answered to it.
#[derive(Debug)]
pub struct CallbackAnswer {
    pub outcome: Result<String, CallbackError>,
    /// What goes back to the browser.
    pub response: String,
}

/// The path that a request asks for.
pub fn path_of_request(request: &str) -> (r: String)
    ensures
        r@ == request_path(request@),
{
    let lines = text::lines(request);
    assert(text::texts(lines@).len() == lines@.len());
    if lines.len() == 0 {
        return "".to_owned();
    }
    assert(text::texts(lines@)[0] == lines@[0]@);
    let words = text::words(lines[0].as_str());
    assert(text::texts(words@).len() == words@.len());
    if words.len() > 1 {
        assert(text::texts(words@)[1] == words@[1]@);
        words[1].clone()
    } else {
        "".to_owned()
    }
}

/// Takes the request of a callback: reads the code out of it, and makes the answer.
pub fn serve_callback(request: &[u8], expected_state: &str) -> (r: CallbackAnswer)
    ensures
        is_path_code(request_path(mcp::lossy_text(request@)), expected_state@, r.outcome),
        r.response@ == callback_answer(r.outcome is Ok),
{
    let head = mcp::lossy(request);
    let path = path_of_request(head.as_str());
    let outcome = parse_callback_path(path.as_str(), expected_state);
    let response = match &outcome {
        Ok(_) => render_page("200 OK", CALLBACK_SUCCESS_HTML),
        Err(_) => render_page("400 Bad Request", CALLBACK_ERROR_HTML),
    };
    CallbackAnswer { outcome, response }
}

/// A page as an answer over HTTP.
fn render_page(status: &str, body: &str) -> (r: String)
    ensures
        r@ == page_answer(status@, body@),
{
    let mut r = "HTTP/1.1 ".to_owned();
    r.append(status);
    r.append("\r\nContent-Type: text/html; charset=utf-8\r\nContent-Length: ");
    r.append(text::show_usize(body.as_bytes().len()).as_str());
    r.append("\r\nConnection: close\r\n\r\n");
    r.append(body);
    r
}

/// How the wait for a callback ended.
#[derive(Debug)]
pub enum CallbackWait {
    /// A callback came.
    Came(Result<String, CallbackError>),
    /// The listener went away.
    Closed,
    /// Nothing came in time.
    TimedOut,
}

/// What the end of the wait is in words, where it brought no code.
pub open spec fn wait_error(wait: CallbackWait) -> Option<Seq<char>> {
    match wait {
        CallbackWait::Came(Ok(_)) => None,
        CallbackWait::Came(Err(e)) => Some("login failed: "@ + e.words()),
        CallbackWait::Closed => Some("login aborted: callback channel closed"@),
        CallbackWait::TimedOut => Some("login timed out after 5 minutes"@),
    }
}

/// The code, once the wait is over; or in words why there is none.
pub fn code_after_wait(wait: CallbackWait) -> (r: Result<String, String>)
    ensures
        match r {
            Ok(code) => wait matches CallbackWait::Came(Ok(c)) && c@ == code@,
            Err(e) => wait_error(wait) == Some(e@),
        },
{
    match wait {
        CallbackWait::Came(Ok(code)) => Ok(code),
        CallbackWait::Came(Err(e)) => {
            let mut r = "login failed: ".to_owned();
            r.append(e.message().as_str());
            Err(r)
        },
        CallbackWait::Closed => Err("login aborted: callback channel closed".to_owned()),
        CallbackWait::TimedOut => Err("login timed out after 5 minutes".to_owned()),
    }
}

// --- tokens -------------------------------------------------------------------------------

/// The form that turns a code into tokens.
pub open spec fn exchange_form(
    client_id: Seq<char>,
    code: Seq<char>,
    redirect_uri: Seq<char>,
    verifier: Seq<char>,
) -> Seq<(Seq<char>, Seq<char>)> {
    seq![
        ("grant_type"@, "authorization_code"@),
        ("client_id"@, client_id),
        ("code"@, code),
        ("redirect_uri"@, redirect_uri),
        ("code_verifier"@, verifier),
    ]
}

/// The form that turns a refresh token into tokens.
pub open spec fn refresh_form(client_id: Seq<char>, refresh_token: Seq<char>) -> Seq<
    (Seq<char>, Seq<char>),
> {
    seq![
        ("grant_type"@, "refresh_token"@),
        ("client_id"@, client_id),
        ("refresh_token"@, refresh_token),
    ]
}

/// The form that turns a code into tokens.
pub fn exchange_code(idp: &IdpConfig, code: &str, redirect_uri: &str, verifier: &str) -> (r: Vec<
    (String, String),
>)
    ensures
        pairs_view(r@) == exchange_form(idp.client_id@, code@, redirect_uri@, verifier@),
{
    let mut form: Vec<(String, String)> = Vec::new();
    form.push(pair("grant_type", "authorization_code"));
    form.push(pair("client_id", idp.client_id.as_str()));
    form.push(pair("code", code));
    form.push(pair("redirect_uri", redirect_uri));
    form.push(pair("code_verifier", verifier));
    assert(pairs_view(form@) =~= exchange_form(
        idp.client_id@,
        code@,
        redirect_uri@,
        verifier@,
    ));
    form
}

/// The form that turns a refresh token into tokens.
pub fn refresh(idp: &IdpConfig, refresh_token: &str) -> (r: Vec<(String, String)>)
    ensures
        pairs_view(r@) == refresh_form(idp.client_id@, refresh_token@),
{
    let mut form: Vec<(String, String)> = Vec::new();
    form.push(pair("grant_type", "refresh_token"));
    form.push(pair("client_id", idp.client_id.as_str()));
    form.push(pair("refresh_token", refresh_token));
    assert(pairs_view(form@) =~= refresh_form(idp.client_id@, refresh_token@));
    form
}

/// What the provider answers to a form.
#[derive(Debug)]
pub struct TokenResponse {
    pub access_token: String,
    pub refresh_token: Option<String>,
    /// For how many seconds the access token is valid.
    pub expires_in: Option<i64>,
    pub token_type: Option<String>,
    pub scope: Option<String>,
    pub error: Option<String>,
    pub error_description: Option<String>,
}

impl TokenResponse {
    /// For how many seconds the access token is valid: five minutes where it is not said.
    pub open spec fn lifetime(&self) -> int {
        match self.expires_in {
            Some(n) => n as int,
            None => 300,
        }
    }

    /// For how many seconds the access token is valid.
    pub fn lifetime_secs(&self) -> (r: i64)
        ensures
            r == self.lifetime(),
    {
        match self.expires_in {
            Some(n) => n,
            None => 300,
        }
    }
}

/// What the provider says where it refuses tokens, in words.
pub open spec fn refusal_text(error: Seq<char>, description: Option<Seq<char>>) -> Seq<char> {
    "Keycloak "@ + error + ": "@ + text::or_text(description, ""@)
}

/// Whether `r` is what an answer that came at the time `now` brings: its tokens, or in words
/// why there are none. An error goes before any token.
pub open spec fn is_accepted(
    response: TokenResponse,
    now: Moment,
    r: Result<Tokens, String>,
) -> bool {
    match r {
        Err(e) => response.error matches Some(error) && e@ == refusal_text(
            error@,
            text::seen_string(response.error_description),
        ),
        Ok(t) => {
            &&& response.error is None
            &&& t.access_token@ == response.access_token@
            &&& text::seen_string(t.refresh_token) == text::seen_string(response.refresh_token)
            &&& t.expires_at.wf()
            &&& t.expires_at.total() == now.total() + response.lifetime() * moment::second()
            &&& text::seen_string(t.token_type) == text::seen_string(response.token_type)
            &&& text::seen_string(t.scope) == text::seen_string(response.scope)
        },
    }
}

/// Whether the tokens of an answer that came at the time `now` expire within the calendar;
/// an answer without tokens has none that could not.
pub open spec fn expires_in_calendar(response: TokenResponse, now: Moment) -> bool {
    response.error is None ==> moment::in_calendar(now.secs() + response.lifetime())
}

/// Whether `r` is what is received of an answer that came at the time `now`: what it brings,
/// or nothing where its tokens would expire outside the calendar.
pub open spec fn is_received(
    response: TokenResponse,
    now: Moment,
    r: Option<Result<Tokens, String>>,
) -> bool {
    match r {
        Some(outcome) => expires_in_calendar(response, now) && is_accepted(response, now, outcome),
        None => !expires_in_calendar(response, now),
    }
}

/// What is received of an answer. What counts as the present is whatever the clock says during
/// the call.
pub fn receive_tokens(response: TokenResponse) -> (r: Option<Result<Tokens, String>>)
    ensures
        exists|now: Moment| now.wf() && #[trigger] is_received(response, now, r),
{
    receive_tokens_at(response, moment::now())
}

/// What is received of an answer that came at the time `now`.
pub fn receive_tokens_at(response: TokenResponse, now: Moment) -> (r: Option<
    Result<Tokens, String>,
>)
    requires
        now.wf(),
    ensures
        is_received(response, now, r),
{
    if response.error.is_none() && !now.can_add(response.lifetime_secs()) {
        None
    } else {
        Some(accept_tokens(response, now))
    }
}

/// The tokens in an answer that came at the time `now`; or in words why there are none.
pub fn accept_tokens(response: TokenResponse, now: Moment) -> (r: Result<Tokens, String>)
    requires
        now.wf(),
        expires_in_calendar(response, now),
    ensures
        is_accepted(response, now, r),
{
    if let Some(error) = &response.error {
        let mut e = "Keycloak ".to_owned();
        e.append(error.as_str());
        e.append(": ");
        match &response.error_description {
            Some(d) => e.append(d.as_str()),
            None => e.append(""),
        }
        return Err(e);
    }
    let lifetime = response.lifetime_secs();
    let expires_at = now.plus(lifetime);
    assert(expires_at.total() == now.total() + lifetime * moment::second());
    Ok(
        Tokens {
            access_token: response.access_token,
            refresh_token: response.refresh_token,
            expires_at,
            token_type: response.token_type,
            scope: response.scope,
        },
    )
}

/// What the provider says of the person who signed in, out of its answer; or in words why it
/// says nothing.
pub fn userinfo(status: u16, status_text: &str, body: &str) -> (r: Result<json::Json, String>)
    ensures
        if !mcp::success(status) {
            r matches Err(e) && e@ == "userinfo returned "@ + status_text@ + ": "@ + body@
        } else {
            match json::json_of_text(body@) {
                Ok(v) => r matches Ok(w) && w@ == v,
                Err(why) => r matches Err(e) && e@ == why,
            }
        },
{
    if !mcp::is_success(status) {
        let mut e = "userinfo returned ".to_owned();
        e.append(status_text);
        e.append(": ");
        e.append(body);
        return Err(e);
    }
    json::Json::parse(body)
}

/// The tokens of an answer expire as many seconds after the answer as it says; five minutes
/// after it only where it says nothing. What the answer carries is what is kept.
pub proof fn law_tokens_last_as_long_as_is_said(
    response: TokenResponse,
    now: Moment,
    r: Result<Tokens, String>,
)
    requires
        is_accepted(response, now, r),
    ensures
        response.error is Some <==> r is Err,
        r matches Ok(t) ==> {
            &&& response.expires_in matches Some(n) ==> t.expires_at.total() == now.total() + n
                * 1_000_000_000
            &&& response.expires_in is None ==> t.expires_at.total() == now.total()
                + 300_000_000_000
            &&& t.access_token@ == response.access_token@
            &&& text::seen_string(t.refresh_token) == text::seen_string(response.refresh_token)
            &&& text::seen_string(t.token_type) == text::seen_string(response.token_type)
            &&& text::seen_string(t.scope) == text::seen_string(response.scope)
        },
        response.error matches Some(e) ==> text::holds(r->Err_0@, e@) && (
        response.error_description matches Some(d) ==> text::holds(r->Err_0@, d@)),
{
    if let Some(e) = response.error {
        let d = text::or_text(text::seen_string(response.error_description), ""@);
        text::lemma_holds("Keycloak "@, e@, ": "@ + d);
        assert("Keycloak "@ + e@ + (": "@ + d) == refusal_text(
            e@,
            text::seen_string(response.error_description),
        ));
        text::lemma_holds("Keycloak "@ + e@ + ": "@, d, seq![]);
        assert("Keycloak "@ + e@ + ": "@ + d + Seq::<char>::empty() == "Keycloak "@ + e@ + ": "@
            + d);
    }
}

/// Of two answers that differ only in how long the tokens last, the tokens of the one that says
/// a second more expire a second later.
pub proof fn law_a_second_more_is_a_second_more(
    a: TokenResponse,
    b: TokenResponse,
    now: Moment,
    x: Tokens,
    y: Tokens,
    n: i64,
)
    requires
        a.expires_in == Some(n),
        b.expires_in == Some((n + 1) as i64),
        n < i64::MAX,
        is_accepted(a, now, Ok::<Tokens, String>(x)),
        is_accepted(b, now, Ok::<Tokens, String>(y)),
    ensures
        y.expires_at.total() - x.expires_at.total() == 1_000_000_000,
{
}

/// An answer is taken wherever the day on which its tokens expire can be written down: between
/// the years that a calendar date can have.
pub proof fn law_answer_is_taken_within_the_calendar(
    response: TokenResponse,
    now: Moment,
    r: Option<Result<Tokens, String>>,
)
    requires
        is_received(response, now, r),
    ensures
        response.error is Some ==> r is Some,
        response.error is None ==> (response.expires_in matches Some(n) ==> (r is Some
            <==> -377_705_116_800 <= now.secs() + n <= 253_402_300_799)),
        response.error is None && response.expires_in is None ==> (r is Some
            <==> -377_705_116_800 <= now.secs() + 300 <= 253_402_300_799),
        r matches Some(outcome) ==> is_accepted(response, now, outcome),
{
}

/// An access token is used from when it was received until thirty seconds before it expires by
/// what the provider said, and is refreshed from then on.
pub proof fn law_token_is_used_while_it_lasts(
    response: TokenResponse,
    now: Moment,
    t: Tokens,
    rt: String,
    n: i64,
    later: Moment,
    need: auth::TokenNeed,
)
    requires
        is_accepted(response, now, Ok::<Tokens, String>(t)),
        response.expires_in == Some(n),
        response.refresh_token == Some(rt),
        auth::is_need(Some(t), later, need),
    ensures
        later.total() < now.total() + (n - 30) * 1_000_000_000 ==> (need
            matches auth::TokenNeed::Use(token) && token@ == response.access_token@),
        later.total() >= now.total() + (n - 30) * 1_000_000_000 ==> (need
            matches auth::TokenNeed::Refresh(token) && token@ == rt@),
{
}

/// Of the values that a query has under a name the last one counts.
pub proof fn law_last_value_counts(
    a: Seq<(Seq<char>, Seq<char>)>,
    name: Seq<char>,
    value: Seq<char>,
    b: Seq<(Seq<char>, Seq<char>)>,
)
    requires
        forall|i: int| 0 <= i < b.len() ==> (#[trigger] b[i]).0 != name,
    ensures
        last_value(a.push((name, value)) + b, name) == Some(value),
        last_value(b, name) is None,
    decreases b.len(),
{
    let all = a.push((name, value)) + b;
    if b.len() == 0 {
        assert(all == a.push((name, value)));
    } else {
        let before = b.drop_last();
        assert forall|i: int| 0 <= i < before.len() implies (#[trigger] before[i]).0 != name by {
            assert(before[i] == b[i]);
        }
        law_last_value_counts(a, name, value, before);
        assert(all.drop_last() == a.push((name, value)) + before);
        assert(all.last() == b[b.len() - 1]);
        assert(b.last() == b[b.len() - 1]);
    }
}

/// A callback without an error and with the state that was sent gives its code; with an error,
/// another state, or without one of them it fails.
pub proof fn law_right_state_gives_the_code(
    pairs: Seq<(Seq<char>, Seq<char>)>,
    expected: Seq<char>,
    r: Result<String, CallbackError>,
)
    requires
        is_code(pairs, expected, r),
    ensures
        r is Ok <==> last_value(pairs, "error"@) is None && last_value(pairs, "state"@) == Some(
            expected,
        ) && last_value(pairs, "code"@) is Some,
        r is Ok ==> Some(r->Ok_0@) == last_value(pairs, "code"@),
        last_value(pairs, "error"@) matches Some(e) ==> (r matches Err(
            CallbackError::Refused(why, what),
        ) && why@ == e && (last_value(pairs, "error_description"@) matches Some(d) ==> what@ == d)),
        last_value(pairs, "error"@) is None ==> (last_value(pairs, "state"@) matches Some(s)
            ==> s != expected ==> r matches Err(CallbackError::StateMismatch)),
{
}

/// Only a request for the callback is answered with a code; it is read out of the query of the
/// path as it came.
pub proof fn law_only_the_callback_is_read(
    path: Seq<char>,
    expected: Seq<char>,
    r: Result<String, CallbackError>,
)
    requires
        is_path_code(path, expected, r),
    ensures
        path.len() < 9 || path.take(9) != "/callback"@ ==> (r matches Err(
            CallbackError::UnexpectedPath(p),
        ) && p@ == path),
        path.len() >= 9 && path.take(9) == "/callback"@ ==> is_url_code(
            "http://127.0.0.1"@ + path,
            expected,
            r,
        ),
{
    reveal_strlit("/callback");
    if path.len() >= 9 {
        assert(path.subrange(0, 9) == path.take(9));
    }
}

proof fn lemma_form_words()
    ensures
        "grant_type"@.len() == 10,
        "client_id"@.len() == 9,
        "code"@.len() == 4,
        "redirect_uri"@.len() == 12,
        "code_verifier"@.len() == 13 && "code_verifier"@[0] == 'c',
        "refresh_token"@.len() == 13 && "refresh_token"@[0] == 'r',
        "response_type"@.len() == 13,
        "scope"@.len() == 5 && "scope"@[1] == 'c',
        "state"@.len() == 5 && "state"@[1] == 't',
        "code_challenge"@.len() == 14,
        "code_challenge_method"@.len() == 21,
{
    reveal_strlit("grant_type");
    reveal_strlit("client_id");
    reveal_strlit("code");
    reveal_strlit("redirect_uri");
    reveal_strlit("code_verifier");
    reveal_strlit("refresh_token");
    reveal_strlit("response_type");
    reveal_strlit("scope");
    reveal_strlit("state");
    reveal_strlit("code_challenge");
    reveal_strlit("code_challenge_method");
}

proof fn lemma_value_in_form(form: Seq<(Seq<char>, Seq<char>)>, i: int)
    requires
        0 <= i < form.len(),
        forall|j: int| i < j < form.len() ==> (#[trigger] form[j]).0 != form[i].0,
    ensures
        last_value(form, form[i].0) == Some(form[i].1),
{
    let a = form.take(i);
    let b = form.skip(i + 1);
    assert forall|j: int| 0 <= j < b.len() implies (#[trigger] b[j]).0 != form[i].0 by {
        assert(b[j] == form[i + 1 + j]);
    }
    law_last_value_counts(a, form[i].0, form[i].1, b);
    assert(a.push((form[i].0, form[i].1)) + b == form);
}

/// The code is exchanged under the name of the client, with the address and the secret that it
/// was asked for with.
pub proof fn law_exchange_carries_the_code(
    client_id: Seq<char>,
    code: Seq<char>,
    redirect_uri: Seq<char>,
    verifier: Seq<char>,
)
    ensures
        ({
            let form = exchange_form(client_id, code, redirect_uri, verifier);
            &&& last_value(form, "grant_type"@) == Some("authorization_code"@)
            &&& last_value(form, "client_id"@) == Some(client_id)
            &&& last_value(form, "code"@) == Some(code)
            &&& last_value(form, "redirect_uri"@) == Some(redirect_uri)
            &&& last_value(form, "code_verifier"@) == Some(verifier)
            &&& form.len() == 5
        }),
{
    lemma_form_words();
    let form = exchange_form(client_id, code, redirect_uri, verifier);
    lemma_value_in_form(form, 0);
    lemma_value_in_form(form, 1);
    lemma_value_in_form(form, 2);
    lemma_value_in_form(form, 3);
    lemma_value_in_form(form, 4);
}

/// Tokens are refreshed under the name of the client, with the refresh token.
pub proof fn law_refresh_carries_the_token(client_id: Seq<char>, refresh_token: Seq<char>)
    ensures
        ({
            let form = refresh_form(client_id, refresh_token);
            &&& last_value(form, "grant_type"@) == Some("refresh_token"@)
            &&& last_value(form, "client_id"@) == Some(client_id)
            &&& last_value(form, "refresh_token"@) == Some(refresh_token)
            &&& form.len() == 3
        }),
{
    lemma_form_words();
    let form = refresh_form(client_id, refresh_token);
    lemma_value_in_form(form, 0);
    lemma_value_in_form(form, 1);
    lemma_value_in_form(form, 2);
}

/// The address for the sign-in asks for a code and for every scope, each a word of its own.
pub proof fn law_sign_in_asks_for_every_scope(
    client_id: Seq<char>,
    redirect_uri: Seq<char>,
    scopes: Seq<Seq<char>>,
    state: Seq<char>,
    code_challenge: Seq<char>,
)
    requires
        forall|i: int|
            0 <= i < scopes.len() ==> (#[trigger] scopes[i]).len() > 0 && !scopes[i].contains(' '),
        scopes.len() > 0,
    ensures
        ({
            let query = auth_pairs(client_id, redirect_uri, scopes, state, code_challenge);
            &&& last_value(query, "response_type"@) == Some("code"@)
            &&& last_value(query, "scope"@) is Some
            &&& text::pieces(last_value(query, "scope"@)->0, ' ') == scopes
            &&& query.len() == 7
        }),
{
    lemma_form_words();
    let query = auth_pairs(client_id, redirect_uri, scopes, state, code_challenge);
    lemma_value_in_form(query, 0);
    lemma_value_in_form(query, 3);
    reveal_strlit(" ");
    assert(" "@ == seq![' ']);
    text::lemma_pieces_of_joined(scopes, ' ');
}

/// The path of a request is the second word of its first line.
pub proof fn law_path_is_the_second_word(
    method: Seq<char>,
    path: Seq<char>,
    version: Seq<char>,
    rest: Seq<char>,
)
    requires
        method.len() > 0,
        path.len() > 0,
        version.len() > 0,
        forall|i: int| 0 <= i < method.len() ==> !text::is_white(#[trigger] method[i]),
        forall|i: int| 0 <= i < path.len() ==> !text::is_white(#[trigger] path[i]),
        forall|i: int| 0 <= i < version.len() ==> !text::is_white(#[trigger] version[i]),
    ensures
        request_path(
            method + seq![' '] + path + seq![' '] + version + seq!['\r', '\n'] + rest,
        ) == path,
{
    let line = method + seq![' '] + path + seq![' '] + version;
    assert forall|i: int| 0 <= i < line.len() implies line[i] != '\n' by {
        let m = method.len() as int;
        let p = path.len() as int;
        if i < m {
            assert(!text::is_white(method[i]));
        } else if m < i < m + 1 + p {
            assert(!text::is_white(path[i - m - 1]));
        } else if i > m + 1 + p {
            assert(!text::is_white(version[i - m - p - 2]));
        }
    }
    text::law_line_feed_ends_a_line(line, rest);
    let tail = path + seq![' '] + version;
    assert(line == method + seq![' '] + tail);
    text::law_white_space_parts_words(method, ' ', tail);
    text::law_white_space_parts_words(path, ' ', version);
    text::law_white_space_parts_words(version, ' ', seq![]);
    let words = text::text_words(line);
    assert(words == seq![method] + (seq![path] + seq![version]));
    assert(words[1] == path);
}

/// The page that answers the browser says how many bytes its body takes, and ends with its body,
/// behind an empty line.
pub proof fn law_page_says_its_length(status: Seq<char>, body: Seq<char>)
    ensures
        text::begins(page_answer(status, body), "HTTP/1.1 "@ + status),
        text::holds(
            page_answer(status, body),
            "Content-Type: text/html; charset=utf-8\r\nContent-Length: "@ + text::nat_text(
                vstd::utf8::encode_utf8(body).len(),
            ) + "\r\n"@,
        ),
        exists|head: Seq<char>| #[trigger]
            (head + "\r\n\r\n"@ + body) == page_answer(status, body),
{
    lemma_page_head();
    let a = "\r\n"@;
    let b = "Content-Type: text/html; charset=utf-8\r\nContent-Length: "@;
    let c = "Connection: close"@;
    let d = "\r\n\r\n"@;
    let start = "HTTP/1.1 "@ + status;
    let size = text::nat_text(vstd::utf8::encode_utf8(body).len());
    lemma_page(start, a, b, size, c, d, body);
    assert(page_answer(status, body) == start + (a + b) + size + (a + c + d) + body);
}

proof fn lemma_page(
    start: Seq<char>,
    a: Seq<char>,
    b: Seq<char>,
    size: Seq<char>,
    c: Seq<char>,
    d: Seq<char>,
    body: Seq<char>,
)
    ensures
        ({
            let page = start + (a + b) + size + (a + c + d) + body;
            &&& text::begins(page, start)
            &&& text::holds(page, b + size + a)
            &&& exists|head: Seq<char>| #[trigger] (head + d + body) == page
        }),
{
    let page = start + (a + b) + size + (a + c + d) + body;
    assert(page.subrange(0, start.len() as int) == start);
    text::lemma_holds(start + a, b + size + a, c + d + body);
    assert(start + a + (b + size + a) + (c + d + body) == page);
    let head = start + (a + b) + size + (a + c);
    assert(head + d + body == page);
}

proof fn lemma_page_head()
    ensures
        "\r\nContent-Type: text/html; charset=utf-8\r\nContent-Length: "@ == "\r\n"@
            + "Content-Type: text/html; charset=utf-8\r\nContent-Length: "@,
        "\r\nConnection: close\r\n\r\n"@ == "\r\n"@ + "Connection: close"@ + "\r\n\r\n"@,
{
    reveal_strlit("\r\nContent-Type: text/html; charset=utf-8\r\nContent-Length: ");
    reveal_strlit("\r\n");
    reveal_strlit("Content-Type: text/html; charset=utf-8\r\nContent-Length: ");
    reveal_strlit("\r\nConnection: close\r\n\r\n");
    reveal_strlit("Connection: close");
    reveal_strlit("\r\n\r\n");
    let whole = "\r\nContent-Type: text/html; charset=utf-8\r\nContent-Length: "@;
    let b = "Content-Type: text/html; charset=utf-8\r\nContent-Length: "@;
    assert(whole.skip(2) == b);
    assert(whole.take(2) == "\r\n"@);
    assert(whole == whole.take(2) + whole.skip(2));
    assert("\r\nConnection: close\r\n\r\n"@ == "\r\n"@ + "Connection: close"@ + "\r\n\r\n"@);
}

/// A wait for the callback ends well exactly where a code came.
pub proof fn law_only_a_code_ends_the_wait_well(wait: CallbackWait)
    ensures
        wait_error(wait) is None <==> (wait matches CallbackWait::Came(r) && r is Ok),
        wait matches CallbackWait::Came(Err(e)) ==> text::holds(wait_error(wait)->0, e.words()),
{
    if let CallbackWait::Came(Err(e)) = wait {
        text::lemma_holds("login failed: "@, e.words(), seq![]);
        assert("login failed: "@ + e.words() + Seq::<char>::empty() == "login failed: "@
            + e.words());
    }
}

/// The challenge for a secret is the digest of its bytes, in letters that an address can hold.
pub proof fn law_challenge_is_the_digest(verifier: Seq<char>)
    ensures
        challenge_for(verifier) == base64_text(sha256_digest(vstd::utf8::encode_utf8(verifier))),
        forall|i: int|
            0 <= i < challenge_for(verifier).len() ==> is_url_digit(
                #[trigger] challenge_for(verifier)[i],
            ),
{
    law_base64_is_unreserved(sha256_digest(vstd::utf8::encode_utf8(verifier)));
}

/// The browser is told whether the sign-in went well.
pub proof fn law_browser_is_told(signed_in: bool)
    ensures
        text::begins(
            callback_answer(signed_in),
            "HTTP/1.1 "@ + (if signed_in {
                "200 OK"@
            } else {
                "400 Bad Request"@
            }),
        ),
        signed_in ==> exists|head: Seq<char>| #[trigger]
            (head + "\r\n\r\n"@ + CALLBACK_SUCCESS_HTML@) == callback_answer(signed_in),
        !signed_in ==> exists|head: Seq<char>| #[trigger]
            (head + "\r\n\r\n"@ + CALLBACK_ERROR_HTML@) == callback_answer(signed_in),
{
    law_page_says_its_length("200 OK"@, CALLBACK_SUCCESS_HTML@);
    law_page_says_its_length("400 Bad Request"@, CALLBACK_ERROR_HTML@);
}

} // verus!
