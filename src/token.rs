//! Signed bearer tokens.
//!
//! A token is `HS256.<claims>.<tag>`: the claims are the subject id (offset
//! by 2^31), the issue time and the expiry time as 8, 16 and 16 lower-case
//! hexadecimal digits, followed by the subject's email as six hexadecimal
//! digits per char; the tag is the HMAC-SHA256 of everything before the
//! second `.`, in hexadecimal. A token thus holds exactly two `.`.
use crate::hex::{
    all_hex, bytes_of_hex, hex_bytes, hex_chars, hex_num, hex_val, is_hex_char,
    lemma_bytes_of_hex, lemma_hex_bytes_shape, lemma_hex_chars, lemma_hex_chars_injective,
    lemma_hex_num_shape, lemma_hex_num_val, lemma_hex_val_num, pow16, push_hex_bytes,
    push_hex_chars, push_hex_num, read_hex_bytes, read_hex_chars, read_hex_num,
};
use hmac::{Hmac, Mac};
use sha2::Sha256;
use vstd::prelude::*;

verus! {

/// How long a token stays valid after it is issued: 24 hours.
pub const TOKEN_TTL_SECS: u64 = 86400;

/// The server-held signing secret. It is never empty.
pub struct TokenKey {
    secret: Vec<u8>,
}

impl View for TokenKey {
    type V = Seq<u8>;

    closed spec fn view(&self) -> Seq<u8> {
        self.secret@
    }
}

impl TokenKey {
    /// A key over `secret`; none for an empty secret, which is a
    /// misconfiguration.
    pub fn new(secret: Vec<u8>) -> (r: Option<TokenKey>)
        ensures
            r is Some <==> secret@.len() > 0,
            r matches Some(k) ==> k@ == secret@,
    {
        if secret.len() == 0 {
            None
        } else {
            Some(TokenKey { secret })
        }
    }
}

/// What a token says, as mathematical values.
pub struct ClaimsModel {
    pub sub: i32,
    pub email: Seq<char>,
    pub issued_at: u64,
    pub expires_at: u64,
}

/// The identity and validity window carried by a token.
pub struct Claims {
    pub sub: i32,
    pub email: String,
    pub issued_at: u64,
    pub expires_at: u64,
}

impl View for Claims {
    type V = ClaimsModel;

    open spec fn view(&self) -> ClaimsModel {
        ClaimsModel {
            sub: self.sub,
            email: self.email@,
            issued_at: self.issued_at,
            expires_at: self.expires_at,
        }
    }
}

/// Why a token was refused.
#[derive(Clone, Copy, Debug, PartialEq, Eq, Structural)]
pub enum TokenError {
    /// Malformed, or its tag does not match.
    Invalid,
    /// Well signed, but past its expiry.
    Expired,
}

pub open spec fn header_text() -> Seq<char> {
    seq!['H', 'S', '2', '5', '6', '.']
}

pub open spec fn id_code(sub: i32) -> nat {
    (sub + 0x8000_0000) as nat
}

/// The claims part of a token.
pub open spec fn claims_text(c: ClaimsModel) -> Seq<char> {
    hex_num(id_code(c.sub), 8) + hex_num(c.issued_at as nat, 16) + hex_num(
        c.expires_at as nat,
        16,
    ) + hex_chars(c.email)
}

/// The text that the tag signs: the header and the claims.
pub open spec fn signing_input(c: ClaimsModel) -> Seq<char> {
    header_text() + claims_text(c)
}

/// The HMAC-SHA256 tag of the UTF-8 encoding of `msg` under `key`.
pub uninterp spec fn hmac_sha256_of(key: Seq<u8>, msg: Seq<char>) -> Seq<u8>;

/// The token for claims `c` under `key`.
pub open spec fn token_text(key: Seq<u8>, c: ClaimsModel) -> Seq<char> {
    signing_input(c).push('.') + hex_bytes(hmac_sha256_of(key, signing_input(c)))
}

/// The claims of a token that some claims produce under `key`.
pub open spec fn claims_of_token(key: Seq<u8>, t: Seq<char>) -> Option<ClaimsModel> {
    if exists|c: ClaimsModel| token_text(key, c) == t {
        Some(choose|c: ClaimsModel| token_text(key, c) == t)
    } else {
        None
    }
}

/// The outcome of checking token `t` at time `now`.
pub open spec fn verify_outcome(key: Seq<u8>, t: Seq<char>, now: u64) -> Result<
    ClaimsModel,
    TokenError,
> {
    match claims_of_token(key, t) {
        None => Err(TokenError::Invalid),
        Some(c) => if now <= c.expires_at {
            Ok(c)
        } else {
            Err(TokenError::Expired)
        },
    }
}

/// The claims issued at `now` for a subject.
pub open spec fn issued_claims(sub: i32, email: Seq<char>, now: u64) -> ClaimsModel {
    ClaimsModel { sub, email, issued_at: now, expires_at: (now + TOKEN_TTL_SECS) as u64 }
}

/// Index of the `.` that ends the claims of a token.
pub open spec fn tag_start(c: ClaimsModel) -> int {
    46 + 6 * c.email.len() as int
}

/// Where each part of a token stands.
pub proof fn lemma_token_layout(key: Seq<u8>, c: ClaimsModel)
    ensures
        ({
            let t = token_text(key, c);
            let l = tag_start(c);
            let mac = hmac_sha256_of(key, signing_input(c));
            &&& t.len() == l + 1 + 2 * mac.len()
            &&& t.subrange(0, 6) == header_text()
            &&& t.subrange(6, 14) == hex_num(id_code(c.sub), 8)
            &&& t.subrange(14, 30) == hex_num(c.issued_at as nat, 16)
            &&& t.subrange(30, 46) == hex_num(c.expires_at as nat, 16)
            &&& t.subrange(46, l) == hex_chars(c.email)
            &&& all_hex(t.subrange(46, l))
            &&& t.subrange(0, l) == signing_input(c)
            &&& t[l] == '.'
            &&& t.subrange(l + 1, t.len() as int) == hex_bytes(mac)
            &&& forall|j: int| l < j < t.len() ==> is_hex_char(#[trigger] t[j])
            &&& all_hex(t.subrange(6, 14))
            &&& all_hex(t.subrange(14, 30))
            &&& all_hex(t.subrange(30, 46))
            &&& all_hex(t.subrange(l + 1, t.len() as int))
        }),
{
    let t = token_text(key, c);
    let l = tag_start(c);
    let mac = hmac_sha256_of(key, signing_input(c));
    let a = hex_num(id_code(c.sub), 8);
    let b = hex_num(c.issued_at as nat, 16);
    let e = hex_num(c.expires_at as nat, 16);
    lemma_hex_num_shape(id_code(c.sub), 8);
    lemma_hex_num_shape(c.issued_at as nat, 16);
    lemma_hex_num_shape(c.expires_at as nat, 16);
    lemma_hex_bytes_shape(mac);
    lemma_hex_chars(c.email);
    let s = signing_input(c);
    assert(s.len() == l);
    assert(t.subrange(0, l) =~= s);
    assert(s.subrange(0, 6) =~= header_text());
    assert(s.subrange(6, 14) =~= a);
    assert(s.subrange(14, 30) =~= b);
    assert(s.subrange(30, 46) =~= e);
    assert(s.subrange(46, l) =~= hex_chars(c.email));
    assert(t.subrange(0, 6) =~= s.subrange(0, 6));
    assert(t.subrange(6, 14) =~= s.subrange(6, 14));
    assert(t.subrange(14, 30) =~= s.subrange(14, 30));
    assert(t.subrange(30, 46) =~= s.subrange(30, 46));
    assert(t.subrange(46, l) =~= s.subrange(46, l));
    assert(t.subrange(l + 1, t.len() as int) =~= hex_bytes(mac));
    assert forall|j: int| l < j < t.len() implies is_hex_char(#[trigger] t[j]) by {
        assert(t[j] == hex_bytes(mac)[j - l - 1]);
    }
}

/// A token has exactly two `.`: one after the header `HS256`, one between
/// the claims and the tag.
pub proof fn lemma_token_three_parts(key: Seq<u8>, c: ClaimsModel)
    ensures
        forall|j: int|
            0 <= j < token_text(key, c).len() ==> (#[trigger] token_text(key, c)[j] == '.' <==> (
            j == 5 || j == tag_start(c))),
{
    let t = token_text(key, c);
    let l = tag_start(c);
    lemma_token_layout(key, c);
    assert forall|j: int| 0 <= j < t.len() implies (#[trigger] t[j] == '.' <==> (j == 5 || j
        == l)) by {
        if j < 6 {
            assert(t[j] == t.subrange(0, 6)[j]);
        } else if j < 14 {
            assert(is_hex_char(t.subrange(6, 14)[j - 6]));
        } else if j < 30 {
            assert(is_hex_char(t.subrange(14, 30)[j - 14]));
        } else if j < 46 {
            assert(is_hex_char(t.subrange(30, 46)[j - 30]));
        } else if j < l {
            assert(is_hex_char(t.subrange(46, l)[j - 46]));
        }
    }
}

/// A token determines the claims it was made from.
pub proof fn lemma_token_determines_claims(key: Seq<u8>, c1: ClaimsModel, c2: ClaimsModel)
    requires
        token_text(key, c1) == token_text(key, c2),
    ensures
        c1 == c2,
{
    let t = token_text(key, c1);
    lemma_token_layout(key, c1);
    lemma_token_layout(key, c2);
    let l1 = tag_start(c1);
    let l2 = tag_start(c2);
    if l1 < l2 {
        assert(is_hex_char(t[l2]));
    } else if l2 < l1 {
        assert(is_hex_char(t[l1]));
    }
    assert(l1 == l2);
    reveal_with_fuel(pow16, 17);
    lemma_hex_num_val(id_code(c1.sub), 8);
    lemma_hex_num_val(id_code(c2.sub), 8);
    lemma_hex_num_val(c1.issued_at as nat, 16);
    lemma_hex_num_val(c2.issued_at as nat, 16);
    lemma_hex_num_val(c1.expires_at as nat, 16);
    lemma_hex_num_val(c2.expires_at as nat, 16);
    lemma_hex_chars_injective(c1.email, c2.email);
}

/// A token that verifies yields exactly the claims it was issued with.
pub proof fn lemma_claims_of_token(key: Seq<u8>, c: ClaimsModel)
    ensures
        claims_of_token(key, token_text(key, c)) == Some(c),
{
    let t = token_text(key, c);
    assert(exists|d: ClaimsModel| token_text(key, d) == t);
    let d = choose|d: ClaimsModel| token_text(key, d) == t;
    lemma_token_determines_claims(key, c, d);
}


/// A token issued at `now` verifies, at any time up to its expiry, to the
/// claims it was issued with, and that expiry lies after `now`.
pub proof fn lemma_issue_then_verify(key: Seq<u8>, sub: i32, email: Seq<char>, now: u64, later: u64)
    requires
        now <= u64::MAX - TOKEN_TTL_SECS,
        later <= now + TOKEN_TTL_SECS,
    ensures
        verify_outcome(key, token_text(key, issued_claims(sub, email, now)), later) == Ok::<
            ClaimsModel,
            TokenError,
        >(issued_claims(sub, email, now)),
        issued_claims(sub, email, now).sub == sub,
        issued_claims(sub, email, now).email == email,
        issued_claims(sub, email, now).expires_at > now,
{
    lemma_claims_of_token(key, issued_claims(sub, email, now));
}

/// A genuine token checked after its expiry is refused as expired.
pub proof fn lemma_expired_token(key: Seq<u8>, c: ClaimsModel, now: u64)
    requires
        now > c.expires_at,
    ensures
        verify_outcome(key, token_text(key, c), now) == Err::<ClaimsModel, TokenError>(
            TokenError::Expired,
        ),
{
    lemma_claims_of_token(key, c);
}

/// Changing one character of a genuine token in its header, or in its tag to
/// anything but a `.`, leaves a text that no claims produce under the key.
pub proof fn lemma_tampered_token(key: Seq<u8>, c: ClaimsModel, i: int, ch: char)
    requires
        0 <= i < token_text(key, c).len(),
        ch != token_text(key, c)[i],
        i < 6 || (i > tag_start(c) && ch != '.'),
    ensures
        claims_of_token(key, token_text(key, c).update(i, ch)) is None,
        forall|now: u64|
            verify_outcome(key, token_text(key, c).update(i, ch), now) == Err::<
                ClaimsModel,
                TokenError,
            >(TokenError::Invalid),
{
    let t = token_text(key, c);
    let u = t.update(i, ch);
    lemma_token_layout(key, c);
    let l = tag_start(c);
    assert forall|d: ClaimsModel| token_text(key, d) != u by {
        if token_text(key, d) == u {
            lemma_token_layout(key, d);
            if i < 6 {
                assert(u.subrange(0, 6)[i] == t.subrange(0, 6)[i]);
            } else {
                assert forall|j: int| l < j < u.len() implies u[j] != '.' by {
                    if j != i {
                        assert(is_hex_char(t[j]));
                    }
                }
                lemma_last_dot(key, u, l);
                assert(u.subrange(0, l) =~= t.subrange(0, l));
                assert(u == t);
                assert(u[i] == ch);
            }
        }
    }
}

proof fn lemma_short_not_token(key: Seq<u8>, t: Seq<char>)
    requires
        t.len() < 47,
    ensures
        forall|c: ClaimsModel| token_text(key, c) != t,
{
    assert forall|c: ClaimsModel| token_text(key, c) != t by {
        lemma_token_layout(key, c);
    }
}

proof fn lemma_head_not_token(key: Seq<u8>, t: Seq<char>)
    requires
        t.len() >= 6,
        t.subrange(0, 6) != header_text(),
    ensures
        forall|c: ClaimsModel| token_text(key, c) != t,
{
    assert forall|c: ClaimsModel| token_text(key, c) != t by {
        lemma_token_layout(key, c);
    }
}

proof fn lemma_no_dot_not_token(key: Seq<u8>, t: Seq<char>, p: int)
    requires
        0 <= p < t.len(),
        forall|j: int| p < j < t.len() ==> t[j] != '.',
        p == 0 || t[p] == '.',
        p < 46 || t[p] != '.',
    ensures
        forall|c: ClaimsModel| token_text(key, c) != t,
{
    assert forall|c: ClaimsModel| token_text(key, c) != t by {
        lemma_token_layout(key, c);
        if token_text(key, c) == t {
            let l = tag_start(c);
            if l > p {
                assert(t[l] == '.');
            } else {
                assert(is_hex_char(t[p]));
            }
        }
    }
}

/// The last `.` of a token ends its claims.
proof fn lemma_last_dot(key: Seq<u8>, t: Seq<char>, p: int)
    requires
        0 <= p < t.len(),
        forall|j: int| p < j < t.len() ==> t[j] != '.',
        t[p] == '.',
    ensures
        forall|c: ClaimsModel| #[trigger] token_text(key, c) == t ==> tag_start(c) == p,
{
    assert forall|c: ClaimsModel| #[trigger] token_text(key, c) == t implies tag_start(c) == p by {
        lemma_token_layout(key, c);
        let l = tag_start(c);
        if l > p {
            assert(t[l] == '.');
        } else if l < p {
            assert(is_hex_char(t[p]));
        }
    }
}

proof fn lemma_odd_tag_not_token(key: Seq<u8>, t: Seq<char>, p: int)
    requires
        0 <= p < t.len(),
        (t.len() - p - 1) % 2 != 0 || (p - 46) % 6 != 0,
        forall|c: ClaimsModel| #[trigger] token_text(key, c) == t ==> tag_start(c) == p,
    ensures
        forall|c: ClaimsModel| token_text(key, c) != t,
{
    assert forall|c: ClaimsModel| token_text(key, c) != t by {
        lemma_token_layout(key, c);
    }
}

proof fn lemma_bad_email_not_token(key: Seq<u8>, t: Seq<char>, p: int)
    requires
        46 <= p < t.len(),
        forall|e: Seq<char>| hex_chars(e) != t.subrange(46, p),
        forall|c: ClaimsModel| #[trigger] token_text(key, c) == t ==> tag_start(c) == p,
    ensures
        forall|c: ClaimsModel| token_text(key, c) != t,
{
    assert forall|c: ClaimsModel| token_text(key, c) != t by {
        lemma_token_layout(key, c);
        if token_text(key, c) == t {
            assert(hex_chars(c.email) != t.subrange(46, p));
        }
    }
}

proof fn lemma_bad_hex_not_token(key: Seq<u8>, t: Seq<char>, p: int)
    requires
        46 <= p < t.len(),
        !all_hex(t.subrange(6, 14)) || !all_hex(t.subrange(14, 30)) || !all_hex(
            t.subrange(30, 46),
        ) || !all_hex(t.subrange(p + 1, t.len() as int)),
        forall|c: ClaimsModel| #[trigger] token_text(key, c) == t ==> tag_start(c) == p,
    ensures
        forall|c: ClaimsModel| token_text(key, c) != t,
{
    assert forall|c: ClaimsModel| token_text(key, c) != t by {
        lemma_token_layout(key, c);
    }
}

/// Decoded parts that pass the checks rebuild the text they came from.
#[verifier::rlimit(40)]
proof fn lemma_parts_make_token(
    key: Seq<u8>,
    t: Seq<char>,
    p: int,
    c: ClaimsModel,
    tag: Seq<u8>,
)
    requires
        46 <= p < t.len(),
        t[p] == '.',
        t.subrange(0, 6) == header_text(),
        all_hex(t.subrange(6, 14)),
        all_hex(t.subrange(14, 30)),
        all_hex(t.subrange(30, 46)),
        all_hex(t.subrange(p + 1, t.len() as int)),
        (t.len() - p - 1) % 2 == 0,
        id_code(c.sub) == hex_val(t.subrange(6, 14)),
        c.issued_at == hex_val(t.subrange(14, 30)),
        c.expires_at == hex_val(t.subrange(30, 46)),
        hex_chars(c.email) == t.subrange(46, p),
        tag == bytes_of_hex(t.subrange(p + 1, t.len() as int)),
    ensures
        t.subrange(0, p) == signing_input(c),
        t == signing_input(c).push('.') + hex_bytes(tag),
{
    lemma_hex_val_num(t.subrange(6, 14));
    lemma_hex_val_num(t.subrange(14, 30));
    lemma_hex_val_num(t.subrange(30, 46));
    lemma_bytes_of_hex(t.subrange(p + 1, t.len() as int));
    let a = hex_num(id_code(c.sub), 8);
    let b = hex_num(c.issued_at as nat, 16);
    let e = hex_num(c.expires_at as nat, 16);
    assert(t.subrange(6, 14) == a);
    assert(t.subrange(14, 30) == b);
    assert(t.subrange(30, 46) == e);
    assert(t.subrange(0, p) =~= t.subrange(0, 6) + t.subrange(6, 14) + t.subrange(14, 30)
        + t.subrange(30, 46) + t.subrange(46, p));
    assert(claims_text(c) == a + b + e + hex_chars(c.email));
    assert(t.subrange(0, p) =~= header_text() + (a + b + e + hex_chars(c.email)));
    assert(t =~= t.subrange(0, p).push('.') + t.subrange(p + 1, t.len() as int));
}

proof fn lemma_bad_tag_not_token(
    key: Seq<u8>,
    t: Seq<char>,
    p: int,
    c: ClaimsModel,
    tag: Seq<u8>,
)
    requires
        46 <= p < t.len(),
        forall|d: ClaimsModel| #[trigger] token_text(key, d) == t ==> tag_start(d) == p,
        t == signing_input(c).push('.') + hex_bytes(tag),
        t.subrange(0, p) == signing_input(c),
        tag != hmac_sha256_of(key, signing_input(c)),
    ensures
        forall|d: ClaimsModel| token_text(key, d) != t,
{
    assert forall|d: ClaimsModel| token_text(key, d) != t by {
        if token_text(key, d) == t {
            lemma_token_layout(key, d);
            assert(signing_input(d) == signing_input(c));
            lemma_hex_bytes_shape(tag);
            lemma_hex_bytes_shape(hmac_sha256_of(key, signing_input(d)));
            assert(t.subrange(p + 1, t.len() as int) =~= hex_bytes(tag));
        }
    }
}

/// Relies on hmac's `Hmac<Sha256>` (`new_from_slice`, `update`, `finalize`):
/// the HMAC-SHA256 tag of the UTF-8 bytes of `msg` under `key`, 32 bytes.
#[verifier::external_body]
fn hmac_sha256(key: &[u8], msg: &str) -> (r: Vec<u8>)
    ensures
        r@ == hmac_sha256_of(key@, msg@),
        r@.len() == 32,
{
    let mut mac = Hmac::<Sha256>::new_from_slice(key).expect("HMAC takes keys of any length");
    mac.update(msg.as_bytes());
    mac.finalize().into_bytes().to_vec()
}

/// Relies on hmac's `Mac::verify_slice`: a constant-time check that `tag` is
/// the HMAC-SHA256 tag of the UTF-8 bytes of `msg` under `key`.
#[verifier::external_body]
fn hmac_sha256_matches(key: &[u8], msg: &str, tag: &[u8]) -> (r: bool)
    ensures
        r == (tag@ == hmac_sha256_of(key@, msg@)),
{
    let mut mac = Hmac::<Sha256>::new_from_slice(key).expect("HMAC takes keys of any length");
    mac.update(msg.as_bytes());
    mac.verify_slice(tag).is_ok()
}

/// Relies on `SystemTime::duration_since(UNIX_EPOCH)` applied to
/// `SystemTime::now()`: whole seconds since 1970, or `None` where the system
/// clock reads earlier. It does not panic.
#[verifier::external_body]
fn clock_seconds() -> (r: Option<u64>) {
    std::time::SystemTime::now().duration_since(std::time::UNIX_EPOCH).ok().map(|d| d.as_secs())
}

/// The current Unix time in seconds: a clock set before 1970 reads as 0, and
/// one past `i64::MAX` seconds reads as `i64::MAX`.
pub fn unix_time() -> (r: u64)
    ensures
        r <= i64::MAX,
{
    match clock_seconds() {
        None => 0,
        Some(t) => if t > i64::MAX as u64 {
            i64::MAX as u64
        } else {
            t
        },
    }
}

impl TokenKey {
    /// The token for subject `sub` with `email`, issued at `now` and valid
    /// for `TOKEN_TTL_SECS`.
    pub fn issue_at(&self, sub: i32, email: &str, now: u64) -> (r: String)
        requires
            now <= u64::MAX - TOKEN_TTL_SECS,
        ensures
            r@ == token_text(self@, issued_claims(sub, email@, now)),
    {
        let ghost c = issued_claims(sub, email@, now);
        let mut s = String::from_str("HS256.");
        proof {
            reveal_strlit("HS256.");
        }
        assert(s@ =~= header_text());
        push_hex_num(&mut s, (sub as i64 + 0x8000_0000) as u64, 8);
        push_hex_num(&mut s, now, 16);
        push_hex_num(&mut s, now + TOKEN_TTL_SECS, 16);
        push_hex_chars(&mut s, email);
        assert(s@ =~= signing_input(c));
        let mac = hmac_sha256(self.secret.as_slice(), s.as_str());
        s.append(".");
        proof {
            reveal_strlit(".");
        }
        push_hex_bytes(&mut s, mac.as_slice());
        assert(s@ =~= token_text(self@, c));
        s
    }

    /// The token for subject `sub` with `email`, issued now.
    pub fn issue(&self, sub: i32, email: &str) -> (r: String)
        ensures
            claims_of_token(self@, r@) matches Some(c) && c.sub == sub && c.email == email@
                && c.expires_at == c.issued_at + TOKEN_TTL_SECS,
    {
        let now = unix_time();
        let r = self.issue_at(sub, email, now);
        proof {
            lemma_claims_of_token(self@, issued_claims(sub, email@, now));
        }
        r
    }

    /// Checks token `t` at time `now`: its claims if some claims produce it
    /// under this key and they have not expired.
    pub fn verify_at(&self, t: &str, now: u64) -> (r: Result<Claims, TokenError>)
        ensures
            match r {
                Ok(c) => verify_outcome(self@, t@, now) == Ok::<ClaimsModel, TokenError>(c@),
                Err(e) => verify_outcome(self@, t@, now) == Err::<ClaimsModel, TokenError>(e),
            },
    {
        let n = t.unicode_len();
        if n < 47 {
            proof {
                lemma_short_not_token(self@, t@);
            }
            return Err(TokenError::Invalid);
        }
        let head = t.substring_char(0, 6);
        if !(head.get_char(0) == 'H' && head.get_char(1) == 'S' && head.get_char(2) == '2'
            && head.get_char(3) == '5' && head.get_char(4) == '6' && head.get_char(5) == '.') {
            proof {
                assert(head@ != header_text());
                lemma_head_not_token(self@, t@);
            }
            return Err(TokenError::Invalid);
        }
        assert(t@.subrange(0, 6) =~= header_text()) by {
            assert(head@ =~= header_text());
        }
        let mut p: usize = n - 1;
        while p > 0 && t.get_char(p) != '.'
            invariant
                0 < n == t@.len(),
                p < n,
                forall|j: int| p < j < n ==> t@[j] != '.',
            decreases p,
        {
            p = p - 1;
        }
        assert(p == 0 || t@[p as int] == '.');
        if p < 46 || t.get_char(p) != '.' {
            proof {
                lemma_no_dot_not_token(self@, t@, p as int);
            }
            return Err(TokenError::Invalid);
        }
        proof {
            lemma_last_dot(self@, t@, p as int);
        }
        if (p - 46) % 6 != 0 {
            proof {
                lemma_odd_tag_not_token(self@, t@, p as int);
            }
            return Err(TokenError::Invalid);
        }
        let email = match read_hex_chars(t, 46, (p - 46) / 6) {
            Some(e) => e,
            None => {
                proof {
                    lemma_bad_email_not_token(self@, t@, p as int);
                }
                return Err(TokenError::Invalid);
            },
        };
        let tag_digits = n - p - 1;
        if tag_digits % 2 != 0 {
            proof {
                lemma_odd_tag_not_token(self@, t@, p as int);
            }
            return Err(TokenError::Invalid);
        }
        let code = read_hex_num(t, 6, 8);
        let iat = read_hex_num(t, 14, 16);
        let exp = read_hex_num(t, 30, 16);
        let tag = read_hex_bytes(t, p + 1, tag_digits / 2);
        assert(p + 1 + 2 * (tag_digits / 2) == n);
        match (code, iat, exp, tag) {
            (Some(code), Some(iat), Some(exp), Some(tag)) => {
                let msg = t.substring_char(0, p);
                proof {
                    lemma_hex_val_num(t@.subrange(6, 14));
                    reveal_with_fuel(pow16, 9);
                }
                let sub = (code as i64 - 0x8000_0000) as i32;
                let claims = Claims {
                    sub,
                    email,
                    issued_at: iat,
                    expires_at: exp,
                };
                proof {
                    lemma_parts_make_token(self@, t@, p as int, claims@, tag@);
                    assert(msg@ =~= signing_input(claims@));
                }
                if !hmac_sha256_matches(self.secret.as_slice(), msg, tag.as_slice()) {
                    proof {
                        lemma_bad_tag_not_token(self@, t@, p as int, claims@, tag@);
                    }
                    return Err(TokenError::Invalid);
                }
                proof {
                    assert(t@ =~= token_text(self@, claims@));
                    lemma_claims_of_token(self@, claims@);
                }
                if now <= exp {
                    Ok(claims)
                } else {
                    Err(TokenError::Expired)
                }
            },
            _ => {
                proof {
                    lemma_bad_hex_not_token(self@, t@, p as int);
                }
                Err(TokenError::Invalid)
            },
        }
    }

    /// Checks token `t` now: its claims if it is genuine and unexpired.
    pub fn verify(&self, t: &str) -> (r: Result<Claims, TokenError>)
        ensures
            match r {
                Ok(c) => claims_of_token(self@, t@) == Some(c@),
                Err(TokenError::Invalid) => claims_of_token(self@, t@) is None,
                Err(TokenError::Expired) => claims_of_token(self@, t@) is Some,
            },
            claims_of_token(self@, t@) matches Some(c) && c.expires_at >= i64::MAX ==> r is Ok,
    {
        let now = unix_time();
        self.verify_at(t, now)
    }
}

} // verus!
