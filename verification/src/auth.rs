//! Building the subscription request sent when a connection opens,
//! including the signed authentication block for the private channel.
//!
//! The signature is an HMAC-SHA256 over a fixed template — the timestamp
//! in seconds followed by `GET/users/self/verify` — encoded in base64.
//! Failing to sign is fatal to connection setup: a misconfigured
//! credential must not silently degrade to an unauthenticated stream.

use vstd::prelude::*;
use crate::digits::{digit_char, digit_to_char, push_char, render_u64, spec_digits_of};
use crate::errors::Error;
use crate::types::{NotificationFlags, Symbol};
use vstd::string::StringExecFns;

verus! {

/// Account credentials: the public key id, the raw secret key bytes, and
/// the passphrase.
#[derive(Clone, PartialEq, Eq, Debug)]
pub struct Keys {
    pub api_key: String,
    pub secret_key: Vec<u8>,
    pub pass_phrase: String,
}

impl Keys {
    pub fn new(api_key: String, secret_key: Vec<u8>, pass_phrase: String) -> (r: Keys)
        ensures
            r.api_key == api_key,
            r.secret_key == secret_key,
            r.pass_phrase == pass_phrase,
    {
        Keys { api_key, secret_key, pass_phrase }
    }
}

/// What HMAC-SHA256 returns for a key and the UTF-8 bytes of a message: a
/// function of the two alone.
pub uninterp spec fn hmac_sha256_of(key: Seq<u8>, msg: Seq<char>) -> Seq<u8>;

/// What the standard base64 encoding of some bytes spells.
pub uninterp spec fn base64_of(bytes: Seq<u8>) -> Seq<char>;

/// Relies on openssl's `PKey::hmac` and `Signer` with
/// `MessageDigest::sha256`: the HMAC-SHA256 of the message's UTF-8 bytes
/// under `key`, depending on the two arguments alone. `PKey::hmac` asserts
/// that the key length fits a C `int` and panics beyond it, so keys of
/// `2^31` bytes or more are kept out by precondition.
#[verifier::external_body]
fn sign_hmac_sha256(key: &Vec<u8>, msg: &str) -> (r: Result<Vec<u8>, Error>)
    requires
        key@.len() < 0x8000_0000,
    ensures
        r matches Ok(v) ==> v@ == hmac_sha256_of(key@, msg@),
{
    let digest = openssl::hash::MessageDigest::sha256();
    let pkey = openssl::pkey::PKey::hmac(key.as_slice()).map_err(|_| Error::Signature)?;
    let mut signer =
        openssl::sign::Signer::new(digest, &pkey).map_err(|_| Error::Signature)?;
    signer.update(msg.as_bytes()).map_err(|_| Error::Signature)?;
    signer.sign_to_vec().map_err(|_| Error::Signature)
}

/// Relies on base64's `encode`: the standard alphabet with padding, so
/// four characters for every started run of three bytes, depending on the
/// bytes alone.
#[verifier::external_body]
fn base64_encode(bytes: &Vec<u8>) -> (r: String)
    ensures
        r@ == base64_of(bytes@),
        r@.len() == 4 * ((bytes@.len() + 2) / 3),
{
    base64::encode(bytes.as_slice())
}

/// The timestamp the authentication block carries: whole seconds, a dot,
/// and exactly three millisecond digits.
pub open spec fn sp_ts_string(ms: u64) -> Seq<char> {
    let r = (ms as int) % 1000;
    spec_digits_of((ms as int / 1000) as nat) + seq![
        '.',
        digit_char(r / 100),
        digit_char((r / 10) % 10),
        digit_char(r % 10),
    ]
}

/// The signed template: the timestamp in seconds, then the constant method
/// and path.
pub open spec fn sp_auth_message(ms: u64) -> Seq<char> {
    sp_ts_string(ms) + "GET/users/self/verify"@
}

/// Renders the authentication timestamp.
pub fn ts_string(ms: u64) -> (r: String)
    ensures
        r@ == sp_ts_string(ms),
{
    let mut out = render_u64(ms / 1000);
    let rem: u64 = ms % 1000;
    push_char(&mut out, '.');
    push_char(&mut out, digit_to_char((rem / 100) as u8));
    push_char(&mut out, digit_to_char(((rem / 10) % 10) as u8));
    push_char(&mut out, digit_to_char((rem % 10) as u8));
    proof {
        assert(out@ =~= sp_ts_string(ms));
    }
    out
}

/// Builds the template the signature covers.
pub fn auth_message(ms: u64) -> (r: String)
    ensures
        r@ == sp_auth_message(ms),
{
    let mut out = ts_string(ms);
    out.append("GET/users/self/verify");
    out
}

/// The fields of a signed authentication block, ready to embed.
pub struct AuthFields {
    pub key: String,
    pub signature: String,
    pub timestamp: String,
    pub passphrase: String,
}

/// The subscription request for `product`: the heartbeat channel always,
/// the book and trade channels as the flags ask, and, only with an
/// authentication block, the private user channel and the block's fields.
pub open spec fn sp_subscription(
    product: Seq<char>,
    flags: NotificationFlags,
    auth: Option<(Seq<char>, Seq<char>, Seq<char>, Seq<char>)>,
) -> Seq<char> {
    "{\"type\":\"subscribe\",\"product_ids\":[\""@ + product
        + "\"],\"channels\":[{\"name\":\"heartbeat\",\"product_ids\":[\""@ + product + "\"]}"@ + (
    if flags.order_book {
        ",\"level2\""@
    } else {
        Seq::<char>::empty()
    }) + (if flags.trades {
        ",\"matches\""@
    } else {
        Seq::<char>::empty()
    }) + (match auth {
        Some(_) => ",\"user\""@,
        None => Seq::<char>::empty(),
    }) + "]"@ + (match auth {
        Some((key, sig, ts, pass)) => ",\"key\":\""@ + key + "\",\"signature\":\""@ + sig
            + "\",\"timestamp\":"@ + ts + ",\"passphrase\":\""@ + pass + "\""@,
        None => Seq::<char>::empty(),
    }) + "}"@
}

/// Assembles the subscription request text. No escaping is applied: the
/// product name and credentials are embedded as they stand.
pub fn build_subscription(product: &str, flags: NotificationFlags, auth: Option<&AuthFields>) -> (r:
    String)
    ensures
        r@ == sp_subscription(
            product@,
            flags,
            match auth {
                Some(a) => Some((a.key@, a.signature@, a.timestamp@, a.passphrase@)),
                None => None::<(Seq<char>, Seq<char>, Seq<char>, Seq<char>)>,
            },
        ),
{
    let mut out = String::new();
    out.append("{\"type\":\"subscribe\",\"product_ids\":[\"");
    out.append(product);
    out.append("\"],\"channels\":[{\"name\":\"heartbeat\",\"product_ids\":[\"");
    out.append(product);
    out.append("\"]}");
    if flags.order_book {
        out.append(",\"level2\"");
    }
    if flags.trades {
        out.append(",\"matches\"");
    }
    if auth.is_some() {
        out.append(",\"user\"");
    }
    out.append("]");
    match auth {
        Some(a) => {
            out.append(",\"key\":\"");
            out.append(a.key.as_str());
            out.append("\",\"signature\":\"");
            out.append(a.signature.as_str());
            out.append("\",\"timestamp\":");
            out.append(a.timestamp.as_str());
            out.append(",\"passphrase\":\"");
            out.append(a.passphrase.as_str());
            out.append("\"");
        },
        None => {},
    }
    out.append("}");
    proof {
        assert(out@ =~= sp_subscription(
            product@,
            flags,
            match auth {
                Some(a) => Some((a.key@, a.signature@, a.timestamp@, a.passphrase@)),
                None => None::<(Seq<char>, Seq<char>, Seq<char>, Seq<char>)>,
            },
        ));
    }
    out
}

/// The whole on-open step: signs the authentication block when credentials
/// are present and builds the subscription request. A signing failure —
/// including a secret key too large to sign — is `Error::Signature` and
/// fatal: no unauthenticated request is built in its place.
pub fn subscription_request(
    symbol: &Symbol,
    flags: NotificationFlags,
    keys: Option<&Keys>,
    now_ms: u64,
) -> (r: Result<String, Error>)
    ensures
        match keys {
            None => r matches Ok(s) && s@ == sp_subscription(
                symbol.name@,
                flags,
                None::<(Seq<char>, Seq<char>, Seq<char>, Seq<char>)>,
            ),
            Some(k) => match r {
                Ok(s) => s@ == sp_subscription(
                    symbol.name@,
                    flags,
                    Some(
                        (
                            k.api_key@,
                            base64_of(hmac_sha256_of(k.secret_key@, sp_auth_message(now_ms))),
                            sp_ts_string(now_ms),
                            k.pass_phrase@,
                        ),
                    ),
                ),
                Err(e) => e == Error::Signature,
            },
        },
{
    match keys {
        None => Ok(build_subscription(symbol.name(), flags, None)),
        Some(k) => {
            if k.secret_key.len() >= 0x8000_0000 {
                return Err(Error::Signature);
            }
            let msg = auth_message(now_ms);
            let sig_bytes = match sign_hmac_sha256(&k.secret_key, msg.as_str()) {
                Ok(v) => v,
                Err(_) => {
                    return Err(Error::Signature);
                },
            };
            let auth = AuthFields {
                key: k.api_key.clone(),
                signature: base64_encode(&sig_bytes),
                timestamp: ts_string(now_ms),
                passphrase: k.pass_phrase.clone(),
            };
            Ok(build_subscription(symbol.name(), flags, Some(&auth)))
        },
    }
}

/// The HTTP basic authorization header for raw `public:secret` credential
/// bytes, as the request path of an exchange that authenticates this way
/// sends it.
pub fn basic_auth_header(credentials: &Vec<u8>) -> (r: String)
    ensures
        r@ == "Basic "@ + base64_of(credentials@),
{
    let mut out = String::from_str("Basic ");
    let encoded = base64_encode(credentials);
    out.append(encoded.as_str());
    out
}

} // verus!
