//! The identity gate: validates inbound credentials for the two caller
//! classes — the end user with a signed token, the downstream agent with a
//! shared secret — and yields a principal or a rejection.
//!
//! The end-user pipeline runs in steps around the one outside effect, the
//! key-set fetch: `begin_user_auth` makes every decision that needs no
//! network — bypass, bearer extraction, configuration presence, reading
//! the token's key id — and either settles the request or asks for the
//! key set; `build_key_set` turns fetched key material into verification
//! keys; `finish_user_auth` resolves the key id and verifies the token.

use vstd::prelude::*;
use vstd::string::StrSliceExecFns;
use vstd::string::StringSliceAdditionalSpecFns;
use vstd::string::StringExecFns;
use vstd::utf8::encode_utf8_decode_utf8;

use crate::errors::ApiError;

verus! {

/// Claims of a verified end-user token: the principal.
#[derive(Debug, Clone, PartialEq, Eq)]
pub struct AuthInfo {
    pub sub: String,
    pub aud: String,
    pub exp: u64,
    pub iat: u64,
    pub iss: String,
}

/// Configuration of the end-user scheme.
#[derive(Debug, Clone)]
pub struct GateConfig {
    pub jwks_uri: Option<String>,
    pub issuer: Option<String>,
    pub bypass_jwt_validation: bool,
}

/// The token of a `Bearer` authorization header value, if it is one.
pub open spec fn bearer_token_of(h: Seq<char>) -> Option<Seq<char>> {
    if h.len() >= 7 && h.subrange(0, 7) == "Bearer "@ {
        Some(h.subrange(7, h.len() as int))
    } else {
        None
    }
}

/// Text equality, decided over the UTF-8 bytes (which determine the chars
/// and the other way round) without exiting early on a mismatch.
fn str_eq(a: &str, b: &str) -> (r: bool)
    ensures
        r == (a@ == b@),
{
    let r = eq_constant_time(a.as_bytes(), b.as_bytes());
    proof {
        if a.spec_bytes() == b.spec_bytes() {
            encode_utf8_decode_utf8(a@);
            encode_utf8_decode_utf8(b@);
        }
    }
    r
}

/// Extract the token from an authorization header value.
pub fn bearer_token(header: &str) -> (r: Option<String>)
    ensures
        r matches Some(t) ==> bearer_token_of(header@) == Some(t@),
        r is None ==> bearer_token_of(header@) is None,
{
    let n = header.unicode_len();
    if n < 7 {
        return None;
    }
    let head = header.substring_char(0, 7);
    if !str_eq(head, "Bearer ") {
        return None;
    }
    let token = header.substring_char(7, n);
    Some(token.to_owned())
}

/// Byte-for-byte comparison that does not exit early on a mismatch: the
/// time taken depends on the lengths, never on which byte differed.
pub fn eq_constant_time(a: &[u8], b: &[u8]) -> (r: bool)
    ensures
        r == (a@ == b@),
{
    if a.len() != b.len() {
        return false;
    }
    let mut diff: u8 = 0;
    let mut i: usize = 0;
    while i < a.len()
        invariant
            a@.len() == b@.len(),
            i <= a@.len(),
            (diff == 0) <==> (forall|j: int| 0 <= j < i ==> a@[j] == b@[j]),
        decreases a@.len() - i,
    {
        let x = a[i];
        let y = b[i];
        let d = x ^ y;
        proof {
            assert((x ^ y) == 0 <==> x == y) by (bit_vector);
            assert(((diff | d) == 0) <==> (diff == 0 && d == 0)) by (bit_vector);
        }
        diff = diff | d;
        i = i + 1;
    }
    let equal = diff == 0;
    proof {
        if equal {
            assert(a@ =~= b@);
        }
    }
    equal
}

/// An agent-scheme request is authorized exactly when its header carries
/// the shared secret as a bearer token.
pub open spec fn agent_authorized(h: Seq<char>, secret: Seq<char>) -> bool {
    bearer_token_of(h) == Some(secret)
}

/// Decide an agent-scheme request: the bearer token must equal the shared
/// secret, compared in constant time.
pub fn check_agent_credential(header: Option<&String>, secret: &str) -> (r: bool)
    ensures
        r == match header {
            Some(h) => agent_authorized(h@, secret@),
            None => false,
        },
{
    match header {
        None => false,
        Some(h) => {
            match bearer_token(h.as_str()) {
                None => false,
                Some(t) => str_eq(t.as_str(), secret),
            }
        },
    }
}

/// What `jsonwebtoken::decode_header` reads as the key id of a token: a
/// function of the token text alone.
pub uninterp spec fn kid_of(token: Seq<char>) -> Option<Seq<char>>;

/// Relies on `jsonwebtoken::decode_header`: reading the unverified header
/// is a function of the token text alone; `None` covers both a malformed
/// token and a header without a key id.
#[verifier::external_body]
fn token_kid(token: &str) -> (r: Option<String>)
    ensures
        r matches Some(k) ==> kid_of(token@) == Some(k@),
        r is None ==> kid_of(token@) is None,
{
    match jsonwebtoken::decode_header(token) {
        Ok(h) => h.kid,
        Err(_) => None,
    }
}

/// Declares `jsonwebtoken::DecodingKey` — the verification key that
/// `jsonwebtoken::decode` takes — so signatures here can carry it; its
/// inside stays opaque.
#[verifier::external_type_specification]
#[verifier::external_body]
pub struct ExDecodingKey(jsonwebtoken::DecodingKey);

/// Whether `jsonwebtoken::DecodingKey::from_rsa_components` accepts a
/// modulus and exponent text: a function of the two texts alone (both
/// must decode as base64url).
pub uninterp spec fn rsa_components_ok(n: Seq<char>, e: Seq<char>) -> bool;

/// Relies on `jsonwebtoken::DecodingKey::from_rsa_components`: builds a
/// verification key from base64url modulus and exponent text, succeeding
/// exactly on the texts that decode; what key comes back is opaque here.
#[verifier::external_body]
fn key_from_rsa_components(n: &str, e: &str) -> (r: Option<jsonwebtoken::DecodingKey>)
    ensures
        r is Some <==> rsa_components_ok(n@, e@),
{
    jsonwebtoken::DecodingKey::from_rsa_components(n, e).ok()
}

/// Relies on `jsonwebtoken::decode` over RS256 with the issuer pinned and
/// an expiry required: `Some` only when the token's signature verifies
/// under `key` and its claims carry the expected issuer as a string, an
/// unexpired `exp`, and the fields read here.  The audience is read into
/// the principal but matched against nothing, so audience-bearing tokens
/// are not refused out of hand.  The clock takes part in expiry, so no
/// more is promised of the outcome; the call can only panic if the system
/// clock predates the Unix epoch.
#[verifier::external_body]
fn verify_token(token: &str, key: &jsonwebtoken::DecodingKey, issuer: &str) -> (r: Option<
    AuthInfo,
>)
    ensures
        r matches Some(a) ==> a.iss@ == issuer@,
{
    let mut validation = jsonwebtoken::Validation::new(jsonwebtoken::Algorithm::RS256);
    validation.set_issuer(&[issuer]);
    validation.validate_aud = false;
    let c = jsonwebtoken::decode::<serde_json::Value>(token, key, &validation).ok()?.claims;
    Some(AuthInfo {
        sub: c.get("sub")?.as_str()?.to_string(),
        aud: c.get("aud")?.as_str()?.to_string(),
        exp: c.get("exp")?.as_u64()?,
        iat: c.get("iat")?.as_u64()?,
        iss: c.get("iss")?.as_str()?.to_string(),
    })
}

/// One key of the provider's published key set, as plain values.
#[derive(Debug, Clone)]
pub struct JwkEntry {
    pub kid: String,
    pub kty: String,
    pub n: String,
    pub e: String,
}

/// One resolved verification key.
pub struct KeyEntry {
    pub kid: String,
    pub key: jsonwebtoken::DecodingKey,
}

/// The provider's key set, resolved to verification keys by key id.
pub struct KeySet {
    pub entries: Vec<KeyEntry>,
}

/// The key ids of the RSA members of a key set, in published order.
pub open spec fn rsa_kids(entries: Seq<JwkEntry>) -> Seq<Seq<char>> {
    entries.filter(|j: JwkEntry| j.kty@ == "RSA"@).map_values(|j: JwkEntry| j.kid@)
}

/// The key ids a resolved key set holds, in order.
pub open spec fn kids_of(entries: Seq<KeyEntry>) -> Seq<Seq<char>> {
    entries.map_values(|k: KeyEntry| k.kid@)
}

/// Resolve fetched key material: every RSA member becomes a verification
/// key under its key id, other kinds are ignored, and a member whose
/// components do not build is an upstream failure.
pub fn build_key_set(entries: &Vec<JwkEntry>) -> (r: Result<KeySet, ApiError>)
    ensures
        r matches Ok(ks) ==> kids_of(ks.entries@) == rsa_kids(entries@),
        r is Err ==> r == Err::<KeySet, ApiError>(ApiError::Upstream),
        r is Ok <==> (forall|j: int|
            0 <= j < entries@.len() ==> ((#[trigger] entries@[j]).kty@ == "RSA"@
                ==> rsa_components_ok(entries@[j].n@, entries@[j].e@))),
{
    let ghost pred = |j: JwkEntry| j.kty@ == "RSA"@;
    let rsa = String::from_str("RSA");
    let mut out: Vec<KeyEntry> = Vec::new();
    let mut i: usize = 0;
    proof {
        assert(entries@.take(0) =~= Seq::<JwkEntry>::empty());
    }
    while i < entries.len()
        invariant
            i <= entries@.len(),
            rsa@ == "RSA"@,
            pred == (|j: JwkEntry| j.kty@ == "RSA"@),
            kids_of(out@) == rsa_kids(entries@.take(i as int)),
            forall|j: int|
                0 <= j < i ==> ((#[trigger] entries@[j]).kty@ == "RSA"@ ==> rsa_components_ok(
                    entries@[j].n@,
                    entries@[j].e@,
                )),
        decreases entries@.len() - i,
    {
        proof {
            assert(entries@.take(i as int).push(entries@[i as int]) =~= entries@.take(i + 1));
            entries@.take(i as int).lemma_filter_push(entries@[i as int], pred);
        }
        if entries[i].kty == rsa {
            match key_from_rsa_components(entries[i].n.as_str(), entries[i].e.as_str()) {
                Some(key) => {
                    let ghost out0 = out@;
                    let entry = KeyEntry { kid: entries[i].kid.clone(), key };
                    proof {
                        assert(entry.kid@ == entries@[i as int].kid@);
                    }
                    out.push(entry);
                    proof {
                        assert(pred(entries@[i as int]));
                        let f0 = entries@.take(i as int).filter(pred);
                        let f1 = entries@.take(i + 1).filter(pred);
                        assert(f1 == f0.push(entries@[i as int]));
                        assert(out@ == out0.push(entry));
                        assert(kids_of(out0).len() == out0.len());
                        assert(rsa_kids(entries@.take(i as int)).len() == f0.len());
                        assert(kids_of(out@).len() == out@.len());
                        assert(rsa_kids(entries@.take(i + 1)).len() == f1.len());
                        assert(kids_of(out@).len() == rsa_kids(entries@.take(i + 1)).len());
                        assert forall|j: int| 0 <= j < out@.len() implies kids_of(out@)[j]
                            == rsa_kids(entries@.take(i + 1))[j] by {
                            assert(kids_of(out@)[j] == out@[j].kid@);
                            assert(rsa_kids(entries@.take(i + 1))[j] == f1[j].kid@);
                            if j < out0.len() {
                                assert(out@[j] == out0[j]);
                                assert(f1[j] == f0[j]);
                                assert(kids_of(out0)[j] == out0[j].kid@);
                                assert(rsa_kids(entries@.take(i as int))[j] == f0[j].kid@);
                            } else {
                                assert(out@[j] == entry);
                                assert(f1[j] == entries@[i as int]);
                            }
                        }
                        assert(kids_of(out@) =~~= rsa_kids(entries@.take(i + 1)));
                    }
                },
                None => {
                    proof {
                        assert((#[trigger] entries@[i as int]).kty@ == "RSA"@
                            && !rsa_components_ok(entries@[i as int].n@, entries@[i as int].e@));
                    }
                    return Err(ApiError::Upstream);
                },
            }
        } else {
            proof {
                assert(!pred(entries@[i as int]));
                assert(entries@.take(i + 1).filter(pred) == entries@.take(i as int).filter(
                    pred,
                ));
                assert(kids_of(out@) =~~= rsa_kids(entries@.take(i + 1)));
            }
        }
        i = i + 1;
    }
    proof {
        assert(entries@.take(entries@.len() as int) =~= entries@);
    }
    Ok(KeySet { entries: out })
}

/// Where an end-user request stands after every check that needs no
/// network.
pub enum UserAuthStart {
    /// Verification was bypassed by the operator switch; a fixed
    /// development principal is granted.
    Bypassed(AuthInfo),
    /// Rejected outright.
    Rejected(ApiError),
    /// The key set must be fetched; verification then proceeds with this
    /// token and key id.
    NeedKeySet { token: String, kid: String },
}

/// The fixed development principal of bypass mode.
pub open spec fn dev_principal(a: AuthInfo) -> bool {
    &&& a.sub@ == "dev-user"@
    &&& a.aud@ == "dev"@
    &&& a.exp == 9999999999u64
    &&& a.iat == 0
    &&& a.iss@ == "dev"@
}

/// Open an end-user authentication: grant the development principal under
/// bypass; reject a missing or non-bearer header as an authentication
/// failure; reject missing key-set or issuer configuration as a server
/// configuration failure; reject a token without a readable key id as an
/// authentication failure; otherwise ask for the key set.
pub fn begin_user_auth(config: &GateConfig, header: Option<&String>) -> (r: UserAuthStart)
    ensures
        ({
            let tok = match header {
                Some(h) => bearer_token_of(h@),
                None => None,
            };
            &&& (config.bypass_jwt_validation ==> (r matches UserAuthStart::Bypassed(a)
                && dev_principal(a)))
            &&& (!config.bypass_jwt_validation && tok is None ==> r
                == UserAuthStart::Rejected(ApiError::Authentication))
            &&& (!config.bypass_jwt_validation ==> (tok matches Some(t) ==> {
                &&& (config.jwks_uri is None ==> r == UserAuthStart::Rejected(
                    ApiError::Configuration,
                ))
                &&& (config.jwks_uri is Some && config.issuer is None ==> r
                    == UserAuthStart::Rejected(ApiError::Configuration))
                &&& (config.jwks_uri is Some && config.issuer is Some ==> match kid_of(t) {
                    None => r == UserAuthStart::Rejected(ApiError::Authentication),
                    Some(k) => r matches UserAuthStart::NeedKeySet { token, kid } && token@ == t
                        && kid@ == k,
                })
            }))
        }),
{
    if config.bypass_jwt_validation {
        return UserAuthStart::Bypassed(
            AuthInfo {
                sub: String::from_str("dev-user"),
                aud: String::from_str("dev"),
                exp: 9999999999,
                iat: 0,
                iss: String::from_str("dev"),
            },
        );
    }
    let token = match header {
        Some(h) => bearer_token(h.as_str()),
        None => None,
    };
    let token = match token {
        Some(t) => t,
        None => {
            return UserAuthStart::Rejected(ApiError::Authentication);
        },
    };
    if config.jwks_uri.is_none() {
        return UserAuthStart::Rejected(ApiError::Configuration);
    }
    if config.issuer.is_none() {
        return UserAuthStart::Rejected(ApiError::Configuration);
    }
    match token_kid(token.as_str()) {
        None => UserAuthStart::Rejected(ApiError::Authentication),
        Some(kid) => UserAuthStart::NeedKeySet { token, kid },
    }
}

/// What each verification outcome becomes: claims are accepted as the
/// principal; anything else is an authentication failure.
pub fn settle_verification(outcome: Option<AuthInfo>) -> (r: Result<AuthInfo, ApiError>)
    ensures
        match outcome {
            Some(a) => r == Ok::<AuthInfo, ApiError>(a),
            None => r == Err::<AuthInfo, ApiError>(ApiError::Authentication),
        },
{
    match outcome {
        Some(a) => Ok(a),
        None => Err(ApiError::Authentication),
    }
}

/// The first key of the set under `kid`, if any: exactly the key stored
/// beside the first matching id.
pub fn resolve_key<'a>(keys: &'a KeySet, kid: &str) -> (r: Option<&'a jsonwebtoken::DecodingKey>)
    ensures
        r is Some <==> exists|i: int|
            0 <= i < keys.entries@.len() && (#[trigger] keys.entries@[i]).kid@ == kid@,
        r matches Some(k) ==> exists|i: int|
            {
                &&& 0 <= i < keys.entries@.len()
                &&& (#[trigger] keys.entries@[i]).kid@ == kid@
                &&& *k == keys.entries@[i].key
                &&& forall|j: int| 0 <= j < i ==> (#[trigger] keys.entries@[j]).kid@ != kid@
            },
{
    let mut i: usize = 0;
    while i < keys.entries.len()
        invariant
            i <= keys.entries@.len(),
            forall|j: int| 0 <= j < i ==> (#[trigger] keys.entries@[j]).kid@ != kid@,
        decreases keys.entries@.len() - i,
    {
        if str_eq(keys.entries[i].kid.as_str(), kid) {
            return Some(&keys.entries[i].key);
        }
        i = i + 1;
    }
    None
}

/// Finish an end-user authentication with the fetched key set: a key id
/// absent from the set, and a token that does not verify under its key,
/// are authentication failures; claims that verify become the principal,
/// and they carry the expected issuer.
pub fn finish_user_auth(keys: &KeySet, token: &str, kid: &str, issuer: &str) -> (r: Result<
    AuthInfo,
    ApiError,
>)
    ensures
        (forall|i: int| 0 <= i < keys.entries@.len() ==> (#[trigger] keys.entries@[i]).kid@
            != kid@) ==> r == Err::<AuthInfo, ApiError>(ApiError::Authentication),
        r is Err ==> r == Err::<AuthInfo, ApiError>(ApiError::Authentication),
        r matches Ok(a) ==> a.iss@ == issuer@,
{
    match resolve_key(keys, kid) {
        None => Err(ApiError::Authentication),
        Some(key) => settle_verification(verify_token(token, key, issuer)),
    }
}

} // verus!
