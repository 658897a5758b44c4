//! The token minter: builds a three-field claim set, serializes it with
//! the signing header, and signs the pair with an elliptic-curve key. The
//! serialization and its encoding are built and verified here; only the
//! key parse and the signature itself come from the signing crate.
use vstd::prelude::*;
use vstd::string::StringExecFns;
use vstd::string::StrSliceExecFns;
use vstd::utf8::encode_utf8;
use crate::b64::b64url_encode;
use crate::b64::base64url;
use crate::b64::is_b64url_byte;
use crate::b64::lemma_b64url_encode_in_alphabet;
use crate::b64::lemma_b64url_encode_nonempty;
use crate::errors::MintError;
use crate::b64::lemma_b64url_encode_injective;
use crate::json::dec_repr;
use crate::json::decimal_suffix;
use crate::json::escape_json;
use crate::json::is_decimal_byte;
use crate::json::lemma_dec_repr_bytes;
use crate::json::lemma_dec_repr_injective;
use crate::json::lemma_decimal_suffix_of_concat;
use crate::json::push_decimal;
use crate::json::push_escaped;
use vstd::utf8::is_ascii_chars;
use vstd::utf8::is_ascii_chars_encode_utf8;

verus! {

/// How long a minted token stays valid: expiry stands exactly this many
/// milliseconds after issued-at.
pub const EXPIRY_WINDOW_MS: i64 = 3_600_000;

/// The four credential values the vendor API needs, loaded once by the
/// caller and immutable afterwards. The base URL is carried for the
/// eventual API call but consumed by nothing here.
#[derive(Debug, Clone)]
pub struct AppleApi {
    pub team_id: String,
    pub key_id: String,
    pub private_key_path: String,
    pub api_url: String,
}

impl AppleApi {
    /// Packs the four credential values.
    pub fn new(team_id: String, key_id: String, private_key_path: String, api_url: String) -> (r:
        AppleApi)
        ensures
            r.team_id == team_id,
            r.key_id == key_id,
            r.private_key_path == private_key_path,
            r.api_url == api_url,
    {
        AppleApi { team_id, key_id, private_key_path, api_url }
    }
}

/// The claim set of a minted token: issuer, expiry and issued-at, the
/// two timestamps in milliseconds since the epoch.
#[derive(Debug, Clone)]
pub struct Claims {
    pub iss: String,
    pub exp: i64,
    pub iat: i64,
}

impl Claims {
    /// A claim set is well formed when its expiry stands exactly one
    /// window after issued-at, with both timestamps inside `i64`.
    pub open spec fn wf(self) -> bool {
        self.iat > i64::MIN && self.iat + EXPIRY_WINDOW_MS <= i64::MAX && self.exp == self.iat
            + EXPIRY_WINDOW_MS
    }

    /// Builds the claim set for a token minted at `now_ms`: issued-at is
    /// `now_ms` and expiry is exactly one window later.
    pub fn new(iss: String, now_ms: i64) -> (r: Claims)
        requires
            i64::MIN < now_ms,
            now_ms + EXPIRY_WINDOW_MS <= i64::MAX,
        ensures
            r.iss == iss,
            r.iat == now_ms,
            r.exp == now_ms + EXPIRY_WINDOW_MS,
            r.wf(),
    {
        Claims { iss, exp: now_ms + EXPIRY_WINDOW_MS, iat: now_ms }
    }
}

/// The serialized signing header for key id `kid`: type, the ES256
/// algorithm, and the key identifier.
pub open spec fn header_json(kid: Seq<char>) -> Seq<u8> {
    encode_utf8("{\"typ\":\"JWT\",\"alg\":\"ES256\",\"kid\":\""@) + escape_json(encode_utf8(kid))
        + encode_utf8("\"}"@)
}

/// The serialized claim set for issuer `iss` and the two timestamps.
pub open spec fn claims_json(iss: Seq<char>, exp: int, iat: int) -> Seq<u8> {
    encode_utf8("{\"iss\":\""@) + escape_json(encode_utf8(iss)) + encode_utf8("\",\"exp\":"@)
        + dec_repr(exp) + encode_utf8(",\"iat\":"@) + dec_repr(iat) + encode_utf8("}"@)
}

/// The unsigned part of the compact serialization for a token issued at
/// `iat`: base64url of the header, a dot, base64url of the claim set.
pub open spec fn signing_input(kid: Seq<char>, iss: Seq<char>, iat: int) -> Seq<u8> {
    b64url_encode(header_json(kid)) + seq![46u8] + b64url_encode(
        claims_json(iss, iat + EXPIRY_WINDOW_MS, iat),
    )
}

/// The characters of an ASCII byte sequence, one per byte.
pub open spec fn ascii_chars(s: Seq<u8>) -> Seq<char> {
    s.map_values(|b: u8| b as char)
}

/// True of the characters base64url output is made of.
pub open spec fn is_b64url_char(c: char) -> bool {
    (65 <= c as u32 && c as u32 <= 90) || (97 <= c as u32 && c as u32 <= 122) || (48 <= c as u32
        && c as u32 <= 57) || c as u32 == 45 || c as u32 == 95
}

/// What a minted token is for key id `kid`, issuer `iss` and issue time
/// `iat`: the signing input those three values determine, a dot, and some
/// nonempty base64url signature segment. The signature is randomized, so
/// only its shape is pinned.
pub open spec fn token_matches(t: Seq<char>, kid: Seq<char>, iss: Seq<char>, iat: int) -> bool {
    exists|sig: Seq<char>|
        #![auto]
        sig.len() > 0 && (forall|i: int| 0 <= i < sig.len() ==> is_b64url_char(#[trigger] sig[i]))
            && t == ascii_chars(signing_input(kid, iss, iat)) + seq!['.'] + sig
}

fn build_header_json(kid: &String) -> (r: Vec<u8>)
    ensures
        r@ == header_json(kid@),
{
    let mut out: Vec<u8> = "{\"typ\":\"JWT\",\"alg\":\"ES256\",\"kid\":\"".as_bytes_vec();
    let kb = kid.as_str().as_bytes_vec();
    push_escaped(&mut out, &kb);
    let mut tail: Vec<u8> = "\"}".as_bytes_vec();
    out.append(&mut tail);
    proof {
        assert(out@ =~= header_json(kid@));
    }
    out
}

fn build_claims_json(c: &Claims) -> (r: Vec<u8>)
    requires
        c.wf(),
    ensures
        r@ == claims_json(c.iss@, c.exp as int, c.iat as int),
{
    let mut out: Vec<u8> = "{\"iss\":\"".as_bytes_vec();
    let ib = c.iss.as_str().as_bytes_vec();
    push_escaped(&mut out, &ib);
    let mut p2: Vec<u8> = "\",\"exp\":".as_bytes_vec();
    out.append(&mut p2);
    push_decimal(&mut out, c.exp);
    let mut p3: Vec<u8> = ",\"iat\":".as_bytes_vec();
    out.append(&mut p3);
    push_decimal(&mut out, c.iat);
    let mut p4: Vec<u8> = "}".as_bytes_vec();
    out.append(&mut p4);
    proof {
        assert(out@ =~= claims_json(c.iss@, c.exp as int, c.iat as int));
    }
    out
}

#[verifier::external_type_specification]
#[verifier::external_body]
pub struct ExEncodingKey(jsonwebtoken::EncodingKey);

#[verifier::external_type_specification]
#[verifier::external_body]
pub struct ExJwtError(jsonwebtoken::errors::Error);

/// Whether the signing crate accepts the given bytes as a PEM-encoded
/// elliptic-curve private key. The parse reads the bytes alone, so its
/// outcome is a function of them.
pub uninterp spec fn ec_pem_ok(pem: Seq<u8>) -> bool;

/// Relies on jsonwebtoken::EncodingKey::from_ec_pem: parses PEM-encoded
/// elliptic-curve key material into a signing key, failing on anything
/// that is not a valid EC private key in PEM form. The decoder is
/// deterministic in the bytes; its outcome carries the name `ec_pem_ok`.
#[verifier::external_body]
fn ec_key_from_pem(pem: &Vec<u8>) -> (r: Result<
    jsonwebtoken::EncodingKey,
    jsonwebtoken::errors::Error,
>)
    ensures
        r is Ok <==> ec_pem_ok(pem@),
{
    jsonwebtoken::EncodingKey::from_ec_pem(pem.as_slice())
}

/// Relies on jsonwebtoken::crypto::sign with the ES256 algorithm: on
/// success the result is the base64url (no padding) encoding of a fresh
/// 64-byte ECDSA P-256 signature over the message. The signing nonce is
/// random, so only the shape of the output is stated, and it holds of
/// every outcome.
#[verifier::external_body]
fn sign_es256(message: &Vec<u8>, key: &jsonwebtoken::EncodingKey) -> (r: Result<
    String,
    jsonwebtoken::errors::Error,
>)
    ensures
        r matches Ok(s) ==> s@.len() > 0 && forall|i: int|
            0 <= i < s@.len() ==> is_b64url_char(#[trigger] s@[i]),
{
    jsonwebtoken::crypto::sign(message.as_slice(), key, jsonwebtoken::Algorithm::ES256)
}

/// Relies on chrono::Utc::now().timestamp_millis(): the moment of the
/// call in milliseconds since the epoch. chrono documents its DateTime
/// range as roughly 262,000 years either side of the common era, which
/// keeps the value well inside the stated bound of 9e15.
#[verifier::external_body]
pub fn now_millis() -> (r: i64)
    ensures
        -9_000_000_000_000_000 <= r <= 9_000_000_000_000_000,
{
    chrono::Utc::now().timestamp_millis()
}

/// Relies on String::from_utf8: bytes below 0x80 are single-byte UTF-8
/// sequences, so an all-ASCII byte vector decodes to the string of
/// exactly those code points.
#[verifier::external_body]
fn ascii_string(v: Vec<u8>) -> (r: String)
    requires
        forall|i: int| 0 <= i < v@.len() ==> v@[i] < 128,
    ensures
        r@ == ascii_chars(v@),
{
    match String::from_utf8(v) {
        Ok(s) => s,
        Err(_) => String::new(),
    }
}

/// A compact three-segment token: exactly the shape `aaa.bbb.ccc`, with
/// two dots inside and nonempty base64url segments around them.
pub open spec fn is_three_segment_token(t: Seq<char>) -> bool {
    exists|i: int, j: int|
        #![auto]
        0 < i && i + 1 < j && j + 1 < t.len() && t[i] == '.' && t[j] == '.' && (forall|k: int|
            0 <= k < t.len() && k != i && k != j ==> is_b64url_char(#[trigger] t[k]))
}

/// A nonempty character sequence encodes to a nonempty UTF-8 byte
/// sequence.
pub proof fn lemma_encode_utf8_nonempty(s: Seq<char>)
    requires
        s.len() > 0,
    ensures
        encode_utf8(s).len() > 0,
{
}

/// An alphabet byte reads back as an alphabet character.
proof fn lemma_b64url_byte_char(b: u8)
    requires
        is_b64url_byte(b),
    ensures
        is_b64url_char(b as char),
{
}

/// Whatever signature the signer draws, a token that meets the minting
/// contract is syntactically valid: the encoded header, the encoded claim
/// set and the signature stand as three nonempty dot-separated base64url
/// segments.
pub proof fn lemma_token_three_segments(t: Seq<char>, kid: Seq<char>, iss: Seq<char>, iat: int)
    requires
        token_matches(t, kid, iss, iat),
    ensures
        is_three_segment_token(t),
{
    let sig = choose|sig: Seq<char>|
        #![auto]
        sig.len() > 0 && (forall|i: int| 0 <= i < sig.len() ==> is_b64url_char(sig[i])) && t
            == ascii_chars(signing_input(kid, iss, iat)) + seq!['.'] + sig;
    let hj = header_json(kid);
    let cj = claims_json(iss, iat + EXPIRY_WINDOW_MS, iat);
    let h = b64url_encode(hj);
    let c = b64url_encode(cj);
    let si = signing_input(kid, iss, iat);
    reveal_strlit("{\"typ\":\"JWT\",\"alg\":\"ES256\",\"kid\":\"");
    reveal_strlit("{\"iss\":\"");
    lemma_encode_utf8_nonempty("{\"typ\":\"JWT\",\"alg\":\"ES256\",\"kid\":\""@);
    lemma_encode_utf8_nonempty("{\"iss\":\""@);
    lemma_b64url_encode_nonempty(hj);
    lemma_b64url_encode_nonempty(cj);
    lemma_b64url_encode_in_alphabet(hj);
    lemma_b64url_encode_in_alphabet(cj);
    let i = h.len() as int;
    let j = h.len() + 1 + c.len() as int;
    assert(si[i] == 46);
    assert(t[i] == (46u8) as char);
    assert(t[i] == '.');
    assert(t[j] == '.');
    assert forall|k: int| 0 <= k < t.len() && k != i && k != j implies is_b64url_char(
        #[trigger] t[k],
    ) by {
        if k < si.len() {
            assert(t[k] == ascii_chars(si)[k]);
            assert(ascii_chars(si)[k] == si[k] as char);
            if k < i {
                assert(si[k] == h[k]);
                lemma_b64url_byte_char(h[k]);
            } else if k > i {
                assert(si[k] == c[k - i - 1]);
                lemma_b64url_byte_char(c[k - i - 1]);
            }
        } else if k > j {
            assert(t[k] == sig[k - j - 1]);
        }
    }
    assert(is_three_segment_token(t));
}

/// The bytes of the two serialization markers around the issued-at digits:
/// the field separator ends in a colon and the closing brace is one byte.
proof fn lemma_claims_marker_bytes()
    ensures
        encode_utf8("}"@) =~= seq![125u8],
        encode_utf8(",\"iat\":"@).len() == 7,
        encode_utf8(",\"iat\":"@).last() == 58u8,
{
    reveal_strlit("}");
    reveal_strlit(",\"iat\":");
    assert(is_ascii_chars("}"@));
    is_ascii_chars_encode_utf8("}"@);
    assert(is_ascii_chars(",\"iat\":"@));
    is_ascii_chars_encode_utf8(",\"iat\":"@);
    assert(encode_utf8("}"@)[0] == 125u8);
}

/// Claim sets for the same issuer but different issue times serialize
/// differently, whatever the expiry fields hold: the issued-at digits stand
/// between the last colon and the closing brace, and the decimal rendering
/// is injective.
pub proof fn lemma_claims_json_distinct(iss: Seq<char>, exp1: int, iat1: int, exp2: int, iat2: int)
    requires
        iat1 != iat2,
    ensures
        claims_json(iss, exp1, iat1) != claims_json(iss, exp2, iat2),
{
    if claims_json(iss, exp1, iat1) == claims_json(iss, exp2, iat2) {
        lemma_claims_marker_bytes();
        let p3 = encode_utf8(",\"iat\":"@);
        let y1 = encode_utf8("{\"iss\":\""@) + escape_json(encode_utf8(iss)) + encode_utf8(
            "\",\"exp\":"@,
        ) + dec_repr(exp1) + p3;
        let y2 = encode_utf8("{\"iss\":\""@) + escape_json(encode_utf8(iss)) + encode_utf8(
            "\",\"exp\":"@,
        ) + dec_repr(exp2) + p3;
        let c1 = claims_json(iss, exp1, iat1);
        let c2 = claims_json(iss, exp2, iat2);
        assert(c1 == (y1 + dec_repr(iat1)) + encode_utf8("}"@));
        assert(c1.drop_last() =~= y1 + dec_repr(iat1));
        assert(c2.drop_last() =~= y2 + dec_repr(iat2));
        assert(y1.last() == p3.last());
        assert(y2.last() == p3.last());
        assert(!is_decimal_byte(58u8));
        lemma_dec_repr_bytes(iat1);
        lemma_dec_repr_bytes(iat2);
        lemma_decimal_suffix_of_concat(y1, dec_repr(iat1));
        lemma_decimal_suffix_of_concat(y2, dec_repr(iat2));
        assert(decimal_suffix(y1 + dec_repr(iat1)) == decimal_suffix(y2 + dec_repr(iat2)));
        lemma_dec_repr_injective(iat1, iat2);
        assert(false);
    }
}

/// Tokens minted for the same credentials at different issue times are
/// distinct, whatever signatures the signer drew: their claim segments
/// already differ.
pub proof fn lemma_distinct_issue_times_distinct_tokens(
    t1: Seq<char>,
    t2: Seq<char>,
    kid: Seq<char>,
    iss: Seq<char>,
    iat1: int,
    iat2: int,
)
    requires
        token_matches(t1, kid, iss, iat1),
        token_matches(t2, kid, iss, iat2),
        iat1 != iat2,
    ensures
        t1 != t2,
{
    if t1 == t2 {
        let sig1 = choose|sig: Seq<char>|
            #![auto]
            sig.len() > 0 && (forall|i: int| 0 <= i < sig.len() ==> is_b64url_char(sig[i])) && t1
                == ascii_chars(signing_input(kid, iss, iat1)) + seq!['.'] + sig;
        let sig2 = choose|sig: Seq<char>|
            #![auto]
            sig.len() > 0 && (forall|i: int| 0 <= i < sig.len() ==> is_b64url_char(sig[i])) && t2
                == ascii_chars(signing_input(kid, iss, iat2)) + seq!['.'] + sig;
        let h = b64url_encode(header_json(kid));
        let cj1 = claims_json(iss, iat1 + EXPIRY_WINDOW_MS, iat1);
        let cj2 = claims_json(iss, iat2 + EXPIRY_WINDOW_MS, iat2);
        let c1 = b64url_encode(cj1);
        let c2 = b64url_encode(cj2);
        let si1 = signing_input(kid, iss, iat1);
        let si2 = signing_input(kid, iss, iat2);
        lemma_claims_json_distinct(iss, iat1 + EXPIRY_WINDOW_MS, iat1, iat2 + EXPIRY_WINDOW_MS, iat2);
        if c1 == c2 {
            lemma_b64url_encode_injective(cj1, cj2);
        }
        lemma_b64url_encode_in_alphabet(cj1);
        lemma_b64url_encode_in_alphabet(cj2);
        if c1.len() == c2.len() {
            if forall|k: int| 0 <= k < c1.len() ==> c1[k] == c2[k] {
                assert(c1 =~= c2);
            }
            let k = choose|k: int| 0 <= k < c1.len() && c1[k] != c2[k];
            let q = h.len() + 1 + k;
            assert(si1[q] == c1[k]);
            assert(si2[q] == c2[k]);
            assert(t1[q] == ascii_chars(si1)[q]);
            assert(ascii_chars(si1)[q] == si1[q] as char);
            assert(t2[q] == si2[q] as char);
            assert(is_b64url_byte(c1[k]) && is_b64url_byte(c2[k]));
            assert(t1[q] != t2[q]);
        } else if c1.len() < c2.len() {
            let q = h.len() + 1 + c1.len() as int;
            assert(q == si1.len());
            assert(t1[q] == '.');
            assert(si2[q] == c2[q - h.len() - 1]);
            assert(t2[q] == si2[q] as char);
            assert(is_b64url_byte(si2[q]));
            assert(t2[q] != '.');
        } else {
            let q = h.len() + 1 + c2.len() as int;
            assert(q == si2.len());
            assert(t2[q] == '.');
            assert(si1[q] == c1[q - h.len() - 1]);
            assert(t1[q] == si1[q] as char);
            assert(is_b64url_byte(si1[q]));
            assert(t1[q] != '.');
        }
        assert(false);
    }
}

/// Mints a token for the given credentials as of the given time: builds
/// the header for the key identifier and the claim set issued at `now_ms`
/// with issuer the team identifier, encodes both, and signs. The failures
/// come in order, each aborting before the next step: key material that
/// does not parse as an EC key yields `KeyParse` and nothing is signed;
/// `Signing` comes only for key material that parses, when the ES256
/// signer rejects it.
pub fn create_jwt_at(api: &AppleApi, private_key_pem: &Vec<u8>, now_ms: i64) -> (r: Result<
    String,
    MintError,
>)
    requires
        i64::MIN < now_ms,
        now_ms + EXPIRY_WINDOW_MS <= i64::MAX,
    ensures
        match r {
            Ok(t) => ec_pem_ok(private_key_pem@) && token_matches(
                t@,
                api.key_id@,
                api.team_id@,
                now_ms as int,
            ),
            Err(e) => (e == MintError::KeyParse || e == MintError::Signing) && (e
                == MintError::KeyParse <==> !ec_pem_ok(private_key_pem@)),
        },
{
    let key = match ec_key_from_pem(private_key_pem) {
        Ok(k) => k,
        Err(_) => {
            return Err(MintError::KeyParse);
        },
    };
    let claims = Claims::new(api.team_id.clone(), now_ms);
    let header_bytes = build_header_json(&api.key_id);
    let claims_bytes = build_claims_json(&claims);
    let mut message = base64url(&header_bytes);
    message.push(46);
    let mut c64 = base64url(&claims_bytes);
    message.append(&mut c64);
    proof {
        assert(message@ =~= signing_input(api.key_id@, api.team_id@, now_ms as int));
    }
    let sig = match sign_es256(&message, &key) {
        Ok(s) => s,
        Err(_) => {
            return Err(MintError::Signing);
        },
    };
    proof {
        lemma_b64url_encode_in_alphabet(header_json(api.key_id@));
        lemma_b64url_encode_in_alphabet(
            claims_json(api.team_id@, now_ms + EXPIRY_WINDOW_MS, now_ms as int),
        );
        assert forall|i: int| 0 <= i < message@.len() implies message@[i] < 128 by {
            let si = signing_input(api.key_id@, api.team_id@, now_ms as int);
            let h = b64url_encode(header_json(api.key_id@));
            if i < h.len() {
                assert(si[i] == h[i]);
            } else if i > h.len() {
                assert(si[i] == b64url_encode(
                    claims_json(api.team_id@, now_ms + EXPIRY_WINDOW_MS, now_ms as int),
                )[i - h.len() - 1]);
            }
        }
    }
    let ghost message_view = message@;
    let mut token = ascii_string(message);
    token.append(".");
    token.append(sig.as_str());
    proof {
        reveal_strlit(".");
        assert(token@ =~= ascii_chars(message_view) + seq!['.'] + sig@);
    }
    Ok(token)
}

/// Mints a token as of the moment of the call: the claim set is issued at
/// the current clock reading and expires one window later. `KeyParse`
/// comes exactly when the key material does not parse, before anything is
/// signed; `Signing` only for key material that parses.
pub fn create_jwt(api: &AppleApi, private_key_pem: &Vec<u8>) -> (r: Result<String, MintError>)
    ensures
        match r {
            Ok(t) => ec_pem_ok(private_key_pem@) && exists|now: int|
                #![auto]
                -9_000_000_000_000_000 <= now <= 9_000_000_000_000_000 && token_matches(
                    t@,
                    api.key_id@,
                    api.team_id@,
                    now,
                ),
            Err(e) => (e == MintError::KeyParse || e == MintError::Signing) && (e
                == MintError::KeyParse <==> !ec_pem_ok(private_key_pem@)),
        },
{
    let now = now_millis();
    let r = create_jwt_at(api, private_key_pem, now);
    proof {
        if r is Ok {
            assert(token_matches(r->Ok_0@, api.key_id@, api.team_id@, now as int));
        }
    }
    r
}

} // verus!
