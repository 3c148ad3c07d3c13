//! Access and refresh tokens of the form `pi-dash:<kind>:<expiry>:<signature>`,
//! where the signature is the lowercase hex HMAC-SHA256 of everything before
//! the last field, keyed by the server secret; and how a request carries one.
use crate::clock::now_secs;
use crate::text::{occurs_at, starts_with, starts_with_seq, str_eq};
use hmac::{Hmac, Mac};
use sha2::Sha256;
use vstd::prelude::*;
use vstd::string::{StrSliceExecFns, StringExecFns};

verus! {

/// Access token lifetime: 24 hours.
pub const ACCESS_TOKEN_TTL_SECS: i64 = 86400;

/// Refresh token lifetime: 30 days.
pub const REFRESH_TOKEN_TTL_SECS: i64 = 2592000;

/// The HMAC-SHA256 tag of the UTF-8 bytes of `msg` under the UTF-8 bytes of `key`.
pub uninterp spec fn hmac_sha256_of(key: Seq<char>, msg: Seq<char>) -> Seq<u8>;

/// Relies on hmac's `Hmac<Sha256>` (`new_from_slice`, `update`, `finalize`):
/// the tag of `msg` under `key`, as long as a SHA-256 digest (32 bytes).
/// `new_from_slice` accepts keys of every length for HMAC, so the `expect`
/// never fires.
#[verifier::external_body]
fn hmac_sha256(key: &str, msg: &str) -> (r: Vec<u8>)
    ensures
        r@ == hmac_sha256_of(key@, msg@),
        r@.len() == 32,
{
    let mut mac = Hmac::<Sha256>::new_from_slice(key.as_bytes()).expect("HMAC takes any key");
    mac.update(msg.as_bytes());
    mac.finalize().into_bytes().to_vec()
}

pub open spec fn hex_digit(n: int) -> char {
    seq!['0', '1', '2', '3', '4', '5', '6', '7', '8', '9', 'a', 'b', 'c', 'd', 'e', 'f'][n]
}

/// Each byte as two lowercase hex digits, high nibble first.
pub open spec fn hex_text(b: Seq<u8>) -> Seq<char>
    decreases b.len(),
{
    if b.len() == 0 {
        Seq::empty()
    } else {
        hex_text(b.drop_last()) + seq![hex_digit(b.last() as int / 16), hex_digit(b.last() as int % 16)]
    }
}

proof fn lemma_hex_len(b: Seq<u8>)
    ensures
        hex_text(b).len() == 2 * b.len(),
    decreases b.len(),
{
    if b.len() > 0 {
        lemma_hex_len(b.drop_last());
    }
}

/// Relies on `hex::encode`: two lowercase hex digits per byte, high nibble first.
#[verifier::external_body]
fn hex_encode(b: &Vec<u8>) -> (r: String)
    ensures
        r@ == hex_text(b@),
{
    hex::encode(b)
}

pub open spec fn digit_char(d: int) -> char {
    seq!['0', '1', '2', '3', '4', '5', '6', '7', '8', '9'][d]
}

pub open spec fn nat_text(n: nat) -> Seq<char>
    decreases n,
{
    if n < 10 {
        seq![digit_char(n as int)]
    } else {
        nat_text(n / 10) + seq![digit_char((n % 10) as int)]
    }
}

/// `n` in decimal, with a leading `-` when negative.
pub open spec fn decimal_text(n: int) -> Seq<char> {
    if n < 0 {
        seq!['-'] + nat_text((-n) as nat)
    } else {
        nat_text(n as nat)
    }
}

/// Relies on `i64`'s `Display` through `to_string`: the decimal digits, with
/// a leading `-` for a negative number.
#[verifier::external_body]
fn decimal(n: i64) -> (r: String)
    ensures
        r@ == decimal_text(n as int),
{
    n.to_string()
}

/// Relies on `String::push`: appends one character.
#[verifier::external_body]
fn push_char(s: &mut String, c: char)
    ensures
        final(s)@ == old(s)@.push(c),
{
    s.push(c)
}

pub open spec fn is_digit(c: char) -> bool {
    '0' <= c <= '9'
}

pub open spec fn all_digits(s: Seq<char>) -> bool {
    forall|i: int| 0 <= i < s.len() ==> is_digit(#[trigger] s[i])
}

pub open spec fn digits_value(s: Seq<char>) -> int
    decreases s.len(),
{
    if s.len() == 0 {
        0
    } else {
        digits_value(s.drop_last()) * 10 + (s.last() as u32 - '0' as u32)
    }
}

/// What `str::parse::<i64>` gives: an optional sign, then one or more decimal
/// digits, whose value lies in range.
pub open spec fn parse_i64(s: Seq<char>) -> Option<int> {
    let signed = s.len() > 0 && (s[0] == '-' || s[0] == '+');
    let body = if signed {
        s.drop_first()
    } else {
        s
    };
    let v = if s.len() > 0 && s[0] == '-' {
        -digits_value(body)
    } else {
        digits_value(body)
    };
    if body.len() == 0 || !all_digits(body) {
        None
    } else if i64::MIN <= v <= i64::MAX {
        Some(v)
    } else {
        None
    }
}

/// Above any value an `i64` parse accepts.
const DIGITS_CAP: i128 = 9223372036854775809;

/// Parses a decimal `i64` as `str::parse` does.
pub fn parse_i64_text(s: &str) -> (r: Option<i64>)
    ensures
        match r {
            Some(v) => parse_i64(s@) == Some(v as int),
            None => parse_i64(s@) is None,
        },
{
    let n = s.unicode_len();
    if n == 0 {
        return None;
    }
    let c0 = s.get_char(0);
    let neg = c0 == '-';
    let start: usize = if c0 == '-' || c0 == '+' { 1 } else { 0 };
    let ghost body = if start == 1 { s@.drop_first() } else { s@ };
    proof {
        assert(body =~= s@.subrange(start as int, n as int));
    }
    if start >= n {
        return None;
    }
    let mut acc: i128 = 0;
    let mut i: usize = start;
    while i < n
        invariant
            n == s@.len(),
            start <= i <= n,
            0 < n,
            start as int == (if s@[0] == '-' || s@[0] == '+' {
                1int
            } else {
                0int
            }),
            neg == (s@[0] == '-'),
            body == s@.subrange(start as int, n as int),
            forall|k: int| 0 <= k < i - start ==> is_digit(#[trigger] body[k]),
            digits_value(body.subrange(0, i - start)) >= 0,
            acc == (if digits_value(body.subrange(0, i - start)) < DIGITS_CAP {
                digits_value(body.subrange(0, i - start))
            } else {
                DIGITS_CAP as int
            }),
        decreases n - i,
    {
        let c = s.get_char(i);
        if c < '0' || c > '9' {
            proof {
                assert(!is_digit(body[i - start]));
                let b2 = if s@.len() > 0 && (s@[0] == '-' || s@[0] == '+') {
                    s@.drop_first()
                } else {
                    s@
                };
                assert(b2 == body);
                assert(!is_digit(b2[i - start]));
                assert(!all_digits(b2));
                assert(parse_i64(s@) is None);
            }
            return None;
        }
        proof {
            assert(body.subrange(0, i + 1 - start).drop_last() =~= body.subrange(0, i - start));
        }
        let d = (c as u32 - '0' as u32) as i128;
        acc = acc * 10 + d;
        if acc > DIGITS_CAP {
            acc = DIGITS_CAP;
        }
        i += 1;
    }
    proof {
        assert(body.subrange(0, n - start) =~= body);
    }
    if neg {
        if acc <= 9223372036854775808 {
            Some((-acc) as i64)
        } else {
            None
        }
    } else {
        if acc <= 9223372036854775807 {
            Some(acc as i64)
        } else {
            None
        }
    }
}

/// The first `:` in `s` at or after `from`, or -1.
pub open spec fn next_colon(s: Seq<char>, from: int) -> int
    decreases s.len() - from,
{
    if from < 0 || from >= s.len() {
        -1
    } else if s[from] == ':' {
        from
    } else {
        next_colon(s, from + 1)
    }
}

fn find_colon(s: &str, from: usize) -> (r: Option<usize>)
    ensures
        match r {
            Some(i) => next_colon(s@, from as int) == i as int,
            None => next_colon(s@, from as int) == -1,
        },
{
    let n = s.unicode_len();
    let mut i = from;
    if i >= n {
        return None;
    }
    while i < n
        invariant
            n == s@.len(),
            from <= i <= n,
            next_colon(s@, from as int) == next_colon(s@, i as int),
        decreases n - i,
    {
        if s.get_char(i) == ':' {
            return Some(i);
        }
        i += 1;
    }
    None
}

pub open spec fn token_prefix() -> Seq<char> {
    seq!['p', 'i', '-', 'd', 'a', 's', 'h']
}

pub open spec fn access_kind() -> Seq<char> {
    seq!['a', 'c', 'c', 'e', 's', 's']
}

pub open spec fn refresh_kind() -> Seq<char> {
    seq!['r', 'e', 'f', 'r', 'e', 's', 'h']
}

/// The signed part of a token: `pi-dash:<kind>:<expiry>`.
pub open spec fn token_payload(kind: Seq<char>, expiry: int) -> Seq<char> {
    token_prefix() + seq![':'] + kind + seq![':'] + decimal_text(expiry)
}

/// The token of `kind` that expires at `expiry`, signed with `secret`.
pub open spec fn signed_token(secret: Seq<char>, kind: Seq<char>, expiry: int) -> Seq<char> {
    let p = token_payload(kind, expiry);
    p + seq![':'] + hex_text(hmac_sha256_of(secret, p))
}

/// The kind of `token` when it checks out at time `now` under `secret`: it
/// has four `:`-separated fields (the last may hold more colons), the first
/// is `pi-dash`, the third parses as an expiry not before `now`, and the last
/// is the hex signature of everything before it.
pub open spec fn token_kind(secret: Seq<char>, token: Seq<char>, now: int) -> Option<Seq<char>> {
    let c1 = next_colon(token, 0);
    let c2 = next_colon(token, c1 + 1);
    let c3 = next_colon(token, c2 + 1);
    if c1 < 0 || c2 < 0 || c3 < 0 {
        None
    } else if token.subrange(0, c1) != token_prefix() {
        None
    } else {
        match parse_i64(token.subrange(c2 + 1, c3)) {
            None => None,
            Some(expiry) => if now > expiry {
                None
            } else if token.subrange(c3 + 1, token.len() as int) == hex_text(
                hmac_sha256_of(secret, token.subrange(0, c3)),
            ) {
                Some(token.subrange(c1 + 1, c2))
            } else {
                None
            },
        }
    }
}

/// `now + ttl`, held at `i64::MAX`.
pub open spec fn expiry_after(now: i64, ttl: i64) -> int {
    if now + ttl > i64::MAX {
        i64::MAX as int
    } else {
        now + ttl
    }
}

/// The value of a hex digit, or -1.
pub open spec fn hex_val(c: char) -> int {
    if '0' <= c <= '9' {
        c as u32 - '0' as u32
    } else if 'a' <= c <= 'f' {
        c as u32 - 'a' as u32 + 10
    } else if 'A' <= c <= 'F' {
        c as u32 - 'A' as u32 + 10
    } else {
        -1
    }
}

/// What `u8::from_str_radix(_, 16)` makes of two characters: two hex digits,
/// or a `+` sign and one; -1 for anything else.
pub open spec fn hex_pair(a: char, b: char) -> int {
    if a == '+' {
        hex_val(b)
    } else if hex_val(a) >= 0 && hex_val(b) >= 0 {
        hex_val(a) * 16 + hex_val(b)
    } else {
        -1
    }
}

/// `s` with each `%XX` escape replaced by the character of that code and each
/// `+` by a space; a `%` without a valid escape after it stays.
pub open spec fn percent_decoded(s: Seq<char>) -> Seq<char>
    decreases s.len(),
{
    if s.len() == 0 {
        Seq::empty()
    } else if s[0] == '%' && 2 < s.len() && hex_pair(s[1], s[2]) >= 0 {
        seq![(hex_pair(s[1], s[2]) as u8) as char] + percent_decoded(s.subrange(3, s.len() as int))
    } else if s[0] == '+' {
        seq![' '] + percent_decoded(s.drop_first())
    } else {
        seq![s[0]] + percent_decoded(s.drop_first())
    }
}

fn hex_val_exec(c: char) -> (r: i32)
    ensures
        r == hex_val(c),
{
    if '0' <= c && c <= '9' {
        (c as u32 - '0' as u32) as i32
    } else if 'a' <= c && c <= 'f' {
        (c as u32 - 'a' as u32 + 10) as i32
    } else if 'A' <= c && c <= 'F' {
        (c as u32 - 'A' as u32 + 10) as i32
    } else {
        -1
    }
}

fn hex_pair_exec(a: char, b: char) -> (r: i32)
    ensures
        r == hex_pair(a, b),
{
    if a == '+' {
        hex_val_exec(b)
    } else {
        let x = hex_val_exec(a);
        let y = hex_val_exec(b);
        if x >= 0 && y >= 0 {
            x * 16 + y
        } else {
            -1
        }
    }
}

/// Decodes a URL query value.
pub fn percent_decode(s: &str) -> (r: String)
    ensures
        r@ == percent_decoded(s@),
{
    let n = s.unicode_len();
    let mut out = String::new();
    let mut i: usize = 0;
    proof {
        assert(s@.subrange(0, n as int) =~= s@);
        assert(out@ + percent_decoded(s@) =~= percent_decoded(s@));
    }
    while i < n
        invariant
            n == s@.len(),
            i <= n,
            out@ + percent_decoded(s@.subrange(i as int, n as int)) == percent_decoded(s@),
        decreases n - i,
    {
        let ghost rest = s@.subrange(i as int, n as int);
        let ghost before = out@;
        let c = s.get_char(i);
        if c == '%' && n - i > 2 {
            let v = hex_pair_exec(s.get_char(i + 1), s.get_char(i + 2));
            if v >= 0 {
                push_char(&mut out, (v as u8) as char);
                proof {
                    assert(rest.subrange(3, rest.len() as int) =~= s@.subrange(i + 3, n as int));
                    assert(out@ + percent_decoded(s@.subrange(i + 3, n as int)) =~= before
                        + percent_decoded(rest));
                }
                i += 3;
                continue;
            }
        }
        if c == '+' {
            push_char(&mut out, ' ');
        } else {
            push_char(&mut out, c);
        }
        proof {
            assert(rest.drop_first() =~= s@.subrange(i + 1, n as int));
            assert(out@ + percent_decoded(s@.subrange(i + 1, n as int)) =~= before
                + percent_decoded(rest));
        }
        i += 1;
    }
    proof {
        assert(s@.subrange(n as int, n as int) =~= Seq::<char>::empty());
        assert(out@ + Seq::<char>::empty() =~= out@);
    }
    out
}

/// Whether `signature` is the lowercase hex form of the tag `tag`.
pub fn signature_matches(signature: &str, tag: &Vec<u8>) -> (r: bool)
    ensures
        r == (signature@ == hex_text(tag@)),
{
    let expected = hex_encode(tag);
    str_eq(signature, expected.as_str())
}

/// A character with the Unicode `White_Space` property, as
/// `char::is_whitespace` tests it.
pub open spec fn is_space(c: char) -> bool {
    let v = c as u32;
    ||| 0x9 <= v <= 0xd
    ||| v == 0x20 || v == 0x85 || v == 0xa0 || v == 0x1680
    ||| 0x2000 <= v <= 0x200a
    ||| v == 0x2028 || v == 0x2029 || v == 0x202f || v == 0x205f || v == 0x3000
}

/// `s` without its leading whitespace.
pub open spec fn trim_start_of(s: Seq<char>) -> Seq<char>
    decreases s.len(),
{
    if s.len() > 0 && is_space(s[0]) {
        trim_start_of(s.drop_first())
    } else {
        s
    }
}

/// `s` without its trailing whitespace.
pub open spec fn trim_end_of(s: Seq<char>) -> Seq<char>
    decreases s.len(),
{
    if s.len() > 0 && is_space(s.last()) {
        trim_end_of(s.drop_last())
    } else {
        s
    }
}

/// `s` without leading and trailing whitespace.
pub open spec fn trimmed(s: Seq<char>) -> Seq<char> {
    trim_end_of(trim_start_of(s))
}

/// Relies on `str::trim`: the text without leading and trailing characters
/// that have the Unicode `White_Space` property.
#[verifier::external_body]
fn trim(s: &str) -> (r: String)
    ensures
        r@ == trimmed(s@),
{
    s.trim().to_string()
}

/// Where the signing secret came from.
#[derive(Debug, Clone, Copy, PartialEq, Eq)]
pub enum SecretSource {
    Environment,
    File,
    /// Freshly generated; worth saving for the next start.
    Generated,
}

/// The signing secret: the configured one, else the stored one when it is
/// not empty, else the hex form of `random`.
pub open spec fn secret_choice(
    configured: Option<Seq<char>>,
    stored: Option<Seq<char>>,
    random: Seq<u8>,
) -> (Seq<char>, SecretSource) {
    match configured {
        Some(c) => (c, SecretSource::Environment),
        None => match stored {
            Some(f) => if f.len() > 0 {
                (f, SecretSource::File)
            } else {
                (hex_text(random), SecretSource::Generated)
            },
            None => (hex_text(random), SecretSource::Generated),
        },
    }
}

/// Picks the signing secret from a configured value, the raw contents of
/// the secret file, and random bytes; the file's contents count trimmed.
pub fn choose_secret(configured: Option<String>, stored: Option<String>, random: &Vec<u8>) -> (r: (
    String,
    SecretSource,
))
    ensures
        (r.0@, r.1) == secret_choice(
            match configured {
                Some(c) => Some(c@),
                None => None,
            },
            match stored {
                Some(f) => Some(trimmed(f@)),
                None => None,
            },
            random@,
        ),
{
    match configured {
        Some(c) => (c, SecretSource::Environment),
        None => match stored {
            Some(f) => {
                let t = trim(f.as_str());
                if t.as_str().unicode_len() > 0 {
                    (t, SecretSource::File)
                } else {
                    (hex_encode(random), SecretSource::Generated)
                }
            },
            None => (hex_encode(random), SecretSource::Generated),
        },
    }
}

proof fn lemma_next_colon(s: Seq<char>, from: int)
    ensures
        next_colon(s, from) == -1 || (0 <= from <= next_colon(s, from) < s.len() && s[next_colon(
            s,
            from,
        )] == ':'),
    decreases s.len() - from,
{
    if 0 <= from < s.len() && s[from] != ':' {
        lemma_next_colon(s, from + 1);
    }
}

/// Server credentials and the key that signs tokens.
#[derive(Debug, Clone, PartialEq, Eq)]
pub struct AuthConfig {
    pub username: String,
    pub password: String,
    pub secret: String,
}

/// A request for a fresh pair of tokens.
#[derive(Debug, Clone, PartialEq, Eq)]
pub struct RefreshRequest {
    pub refresh_token: String,
}

impl AuthConfig {
    /// A configuration with the given credentials, `admin` and `CHANGEME`
    /// standing in for those not given.
    pub fn with_defaults(username: Option<String>, password: Option<String>, secret: String) -> (r:
        AuthConfig)
        ensures
            r.username@ == (match username {
                Some(u) => u@,
                None => seq!['a', 'd', 'm', 'i', 'n'],
            }),
            r.password@ == (match password {
                Some(p) => p@,
                None => seq!['C', 'H', 'A', 'N', 'G', 'E', 'M', 'E'],
            }),
            r.secret@ == secret@,
    {
        proof {
            reveal_strlit("admin");
            reveal_strlit("CHANGEME");
            assert("admin"@ =~= seq!['a', 'd', 'm', 'i', 'n']);
            assert("CHANGEME"@ =~= seq!['C', 'H', 'A', 'N', 'G', 'E', 'M', 'E']);
        }
        let username = match username {
            Some(u) => u,
            None => String::from_str("admin"),
        };
        let password = match password {
            Some(p) => p,
            None => String::from_str("CHANGEME"),
        };
        AuthConfig { username, password, secret }
    }

    /// Whether a login names the configured user and password.
    pub fn credentials_match(&self, username: &str, password: &str) -> (r: bool)
        ensures
            r == (username@ == self.username@ && password@ == self.password@),
    {
        str_eq(username, self.username.as_str()) && str_eq(password, self.password.as_str())
    }

    /// The token of `kind` that expires at `expiry`, signed with the secret.
    fn sign_token(&self, kind: &str, expiry: i64) -> (r: String)
        ensures
            r@ == signed_token(self.secret@, kind@, expiry as int),
            r@.len() == token_payload(kind@, expiry as int).len() + 65,
    {
        proof {
            reveal_strlit("pi-dash:");
            reveal_strlit(":");
            assert("pi-dash:"@ =~= token_prefix() + seq![':']);
            assert(":"@ =~= seq![':']);
        }
        let mut payload = String::new();
        payload.append("pi-dash:");
        payload.append(kind);
        payload.append(":");
        let expiry_text = decimal(expiry);
        payload.append(expiry_text.as_str());
        proof {
            assert(payload@ =~= token_payload(kind@, expiry as int));
        }
        let tag = hmac_sha256(self.secret.as_str(), payload.as_str());
        proof {
            lemma_hex_len(tag@);
        }
        let signature = hex_encode(&tag);
        let mut token = payload;
        token.append(":");
        token.append(signature.as_str());
        token
    }

    /// An access token that expires a day after `now`.
    pub fn create_access_token_at(&self, now: i64) -> (r: String)
        ensures
            r@ == signed_token(
                self.secret@,
                access_kind(),
                expiry_after(now, ACCESS_TOKEN_TTL_SECS),
            ),
            r@.len() == token_payload(access_kind(), expiry_after(now, ACCESS_TOKEN_TTL_SECS)).len() + 65,
    {
        proof {
            reveal_strlit("access");
            assert("access"@ =~= access_kind());
        }
        let expiry = match now.checked_add(ACCESS_TOKEN_TTL_SECS) {
            Some(e) => e,
            None => i64::MAX,
        };
        self.sign_token("access", expiry)
    }

    /// A refresh token that expires thirty days after `now`.
    pub fn create_refresh_token_at(&self, now: i64) -> (r: String)
        ensures
            r@ == signed_token(
                self.secret@,
                refresh_kind(),
                expiry_after(now, REFRESH_TOKEN_TTL_SECS),
            ),
            r@.len() == token_payload(refresh_kind(), expiry_after(now, REFRESH_TOKEN_TTL_SECS)).len() + 65,
    {
        proof {
            reveal_strlit("refresh");
            assert("refresh"@ =~= refresh_kind());
        }
        let expiry = match now.checked_add(REFRESH_TOKEN_TTL_SECS) {
            Some(e) => e,
            None => i64::MAX,
        };
        self.sign_token("refresh", expiry)
    }

    /// An access token that expires a day from now.
    pub fn create_access_token(&self) -> (r: String)
        ensures
            exists|now: i64|
                r@ == signed_token(
                    self.secret@,
                    access_kind(),
                    expiry_after(now, ACCESS_TOKEN_TTL_SECS),
                ),
    {
        let now = now_secs();
        self.create_access_token_at(now)
    }

    /// A refresh token that expires thirty days from now.
    pub fn create_refresh_token(&self) -> (r: String)
        ensures
            exists|now: i64|
                r@ == signed_token(
                    self.secret@,
                    refresh_kind(),
                    expiry_after(now, REFRESH_TOKEN_TTL_SECS),
                ),
    {
        let now = now_secs();
        self.create_refresh_token_at(now)
    }

    /// The kind of `token` if it checks out at time `now`.
    pub fn validate_token_at(&self, token: &str, now: i64) -> (r: Option<String>)
        ensures
            match r {
                Some(k) => token_kind(self.secret@, token@, now as int) == Some(k@),
                None => token_kind(self.secret@, token@, now as int) is None,
            },
    {
        let n = token.unicode_len();
        proof {
            lemma_next_colon(token@, 0);
        }
        let c1 = match find_colon(token, 0) {
            Some(c) => c,
            None => return None,
        };
        proof {
            lemma_next_colon(token@, c1 + 1);
        }
        let c2 = match find_colon(token, c1 + 1) {
            Some(c) => c,
            None => return None,
        };
        proof {
            lemma_next_colon(token@, c2 + 1);
        }
        let c3 = match find_colon(token, c2 + 1) {
            Some(c) => c,
            None => return None,
        };
        proof {
            reveal_strlit("pi-dash");
            assert("pi-dash"@ =~= token_prefix());
        }
        if !str_eq(token.substring_char(0, c1), "pi-dash") {
            return None;
        }
        let expiry = match parse_i64_text(token.substring_char(c2 + 1, c3)) {
            Some(e) => e,
            None => return None,
        };
        if now > expiry {
            return None;
        }
        let tag = hmac_sha256(self.secret.as_str(), token.substring_char(0, c3));
        if signature_matches(token.substring_char(c3 + 1, n), &tag) {
            Some(String::from_str(token.substring_char(c1 + 1, c2)))
        } else {
            None
        }
    }

    /// The kind of `token` if it checks out now.
    pub fn validate_token(&self, token: &str) -> (r: Option<String>)
        ensures
            exists|now: i64|
                match r {
                    Some(k) => token_kind(self.secret@, token@, now as int) == Some(k@),
                    None => token_kind(self.secret@, token@, now as int) is None,
                },
    {
        let now = now_secs();
        self.validate_token_at(token, now)
    }

    /// Whether `token` is an access token that checks out at time `now`.
    pub fn validate_access_token_at(&self, token: &str, now: i64) -> (r: bool)
        ensures
            r == (token_kind(self.secret@, token@, now as int) == Some(access_kind())),
    {
        proof {
            reveal_strlit("access");
            assert("access"@ =~= access_kind());
        }
        match self.validate_token_at(token, now) {
            Some(k) => str_eq(k.as_str(), "access"),
            None => false,
        }
    }

    /// Whether `token` is a refresh token that checks out at time `now`.
    pub fn validate_refresh_token_at(&self, token: &str, now: i64) -> (r: bool)
        ensures
            r == (token_kind(self.secret@, token@, now as int) == Some(refresh_kind())),
    {
        proof {
            reveal_strlit("refresh");
            assert("refresh"@ =~= refresh_kind());
        }
        match self.validate_token_at(token, now) {
            Some(k) => str_eq(k.as_str(), "refresh"),
            None => false,
        }
    }

    /// Whether `token` is an access token that checks out now.
    pub fn validate_access_token(&self, token: &str) -> (r: bool)
        ensures
            exists|now: i64|
                r == (token_kind(self.secret@, token@, now as int) == Some(access_kind())),
    {
        let now = now_secs();
        self.validate_access_token_at(token, now)
    }

    /// Whether `token` is a refresh token that checks out now.
    pub fn validate_refresh_token(&self, token: &str) -> (r: bool)
        ensures
            exists|now: i64|
                r == (token_kind(self.secret@, token@, now as int) == Some(refresh_kind())),
    {
        let now = now_secs();
        self.validate_refresh_token_at(token, now)
    }
}

pub open spec fn bearer_prefix() -> Seq<char> {
    seq!['B', 'e', 'a', 'r', 'e', 'r', ' ']
}

pub open spec fn token_key() -> Seq<char> {
    seq!['t', 'o', 'k', 'e', 'n', '=']
}

/// The end of the `&`-separated query field that starts at `from`.
pub open spec fn field_end(q: Seq<char>, from: int) -> int
    decreases q.len() - from,
{
    if from < 0 || from >= q.len() {
        q.len() as int
    } else if q[from] == '&' {
        from
    } else {
        field_end(q, from + 1)
    }
}

/// The value of the first `token=` field of query `q` from field `from` on.
pub open spec fn token_param(q: Seq<char>, from: int) -> Option<Seq<char>>
    decreases q.len() - from,
{
    let end = field_end(q, from);
    let field = q.subrange(from, end);
    if starts_with_seq(field, token_key()) {
        Some(field.subrange(6, field.len() as int))
    } else if end >= q.len() || end < from {
        None
    } else {
        token_param(q, end + 1)
    }
}

/// The token a request carries: the rest of an `Authorization` header that
/// starts with `Bearer `, else the decoded value of the first `token=` field
/// of the query string.
pub open spec fn request_token(authorization: Option<Seq<char>>, query: Option<Seq<char>>) -> Option<
    Seq<char>,
> {
    let bearer = match authorization {
        Some(h) => if starts_with_seq(h, bearer_prefix()) {
            Some(h.subrange(7, h.len() as int))
        } else {
            None
        },
        None => None,
    };
    if bearer is Some {
        bearer
    } else {
        match query {
            Some(q) => match token_param(q, 0) {
                Some(p) => Some(percent_decoded(p)),
                None => None,
            },
            None => None,
        }
    }
}

fn find_field_end(q: &str, from: usize) -> (r: usize)
    requires
        from <= q@.len(),
    ensures
        r == field_end(q@, from as int),
        from <= r <= q@.len(),
{
    let n = q.unicode_len();
    let mut i = from;
    while i < n
        invariant
            n == q@.len(),
            from <= i <= n,
            field_end(q@, from as int) == field_end(q@, i as int),
        decreases n - i,
    {
        if q.get_char(i) == '&' {
            return i;
        }
        i += 1;
    }
    i
}

fn query_token(q: &str) -> (r: Option<String>)
    ensures
        match r {
            Some(t) => token_param(q@, 0) == Some(t@),
            None => token_param(q@, 0) is None,
        },
{
    proof {
        reveal_strlit("token=");
        assert("token="@ =~= token_key());
    }
    let n = q.unicode_len();
    let mut from: usize = 0;
    loop
        invariant
            n == q@.len(),
            from <= n,
            token_param(q@, 0) == token_param(q@, from as int),
        decreases n - from,
    {
        let end = find_field_end(q, from);
        let field = q.substring_char(from, end);
        proof {
            reveal_strlit("token=");
            assert("token="@ =~= token_key());
        }
        if starts_with(field, "token=") {
            let flen = field.unicode_len();
            proof {
                assert(token_key().len() == 6);
                assert(occurs_at(field@, token_key(), 0));
                assert(starts_with_seq(q@.subrange(from as int, end as int), token_key()));
            }
            return Some(String::from_str(field.substring_char(6, flen)));
        }
        if end >= n {
            return None;
        }
        from = end + 1;
    }
}

/// The token that a request carries in its `Authorization` header or its
/// query string.
pub fn extract_token(authorization: Option<&str>, query: Option<&str>) -> (r: Option<String>)
    ensures
        match r {
            Some(t) => request_token(
                match authorization {
                    Some(h) => Some(h@),
                    None => None,
                },
                match query {
                    Some(q) => Some(q@),
                    None => None,
                },
            ) == Some(t@),
            None => request_token(
                match authorization {
                    Some(h) => Some(h@),
                    None => None,
                },
                match query {
                    Some(q) => Some(q@),
                    None => None,
                },
            ) is None,
        },
{
    proof {
        reveal_strlit("Bearer ");
        assert("Bearer "@ =~= bearer_prefix());
    }
    match authorization {
        Some(h) => {
            if starts_with(h, "Bearer ") {
                let n = h.unicode_len();
                return Some(String::from_str(h.substring_char(7, n)));
            }
        },
        None => {},
    }
    match query {
        Some(q) => match query_token(q) {
            Some(p) => Some(percent_decode(p.as_str())),
            None => None,
        },
        None => None,
    }
}

proof fn lemma_next_colon_at(s: Seq<char>, from: int, p: int)
    requires
        0 <= from <= p < s.len(),
        s[p] == ':',
        forall|k: int| from <= k < p ==> s[k] != ':',
    ensures
        next_colon(s, from) == p,
    decreases p - from,
{
    if from < p {
        lemma_next_colon_at(s, from + 1, p);
    }
}

proof fn lemma_digit_char(d: int)
    requires
        0 <= d < 10,
    ensures
        is_digit(digit_char(d)),
        digit_char(d) as u32 - '0' as u32 == d,
{
    let t = seq!['0', '1', '2', '3', '4', '5', '6', '7', '8', '9'];
    assert(t[0] == '0' && t[1] == '1' && t[2] == '2' && t[3] == '3' && t[4] == '4');
    assert(t[5] == '5' && t[6] == '6' && t[7] == '7' && t[8] == '8' && t[9] == '9');
}

proof fn lemma_nat_text(n: nat)
    ensures
        nat_text(n).len() > 0,
        all_digits(nat_text(n)),
        digits_value(nat_text(n)) == n,
    decreases n,
{
    if n < 10 {
        lemma_digit_char(n as int);
        assert(nat_text(n).drop_last() =~= Seq::<char>::empty());
        assert(nat_text(n).last() == digit_char(n as int));
        assert(digits_value(nat_text(n)) == digits_value(Seq::<char>::empty()) * 10 + (digit_char(
            n as int,
        ) as u32 - '0' as u32));
    } else {
        lemma_nat_text(n / 10);
        lemma_digit_char((n % 10) as int);
        let t = nat_text(n);
        assert(t.drop_last() =~= nat_text(n / 10));
        assert(t.last() == digit_char((n % 10) as int));
        vstd::arithmetic::div_mod::lemma_fundamental_div_mod(n as int, 10);
        assert forall|i: int| 0 <= i < t.len() implies is_digit(#[trigger] t[i]) by {
            if i < t.len() - 1 {
                assert(t[i] == nat_text(n / 10)[i]);
            }
        }
    }
}

proof fn lemma_parse_decimal(e: i64)
    ensures
        parse_i64(decimal_text(e as int)) == Some(e as int),
        forall|i: int| 0 <= i < decimal_text(e as int).len() ==> #[trigger] decimal_text(e as int)[i] != ':',
{
    let d = decimal_text(e as int);
    if e < 0 {
        let m = (-(e as int)) as nat;
        lemma_nat_text(m);
        assert(d.drop_first() =~= nat_text(m));
        assert forall|i: int| 0 <= i < d.len() implies #[trigger] d[i] != ':' by {
            if i > 0 {
                assert(d[i] == nat_text(m)[i - 1]);
                assert(is_digit(nat_text(m)[i - 1]));
            }
        }
    } else {
        lemma_nat_text(e as nat);
        assert(is_digit(d[0]));
        assert forall|i: int| 0 <= i < d.len() implies #[trigger] d[i] != ':' by {
            assert(is_digit(d[i]));
        }
    }
}

/// A token signed for `kind` (a kind without colons) validates as `kind`
/// under the same secret at every time up to its expiry.
pub proof fn lemma_signed_token_validates(secret: Seq<char>, kind: Seq<char>, expiry: i64, now: int)
    requires
        forall|i: int| 0 <= i < kind.len() ==> kind[i] != ':',
        now <= expiry,
    ensures
        token_kind(secret, signed_token(secret, kind, expiry as int), now) == Some(kind),
{
    let d = decimal_text(expiry as int);
    lemma_parse_decimal(expiry);
    let payload = token_payload(kind, expiry as int);
    let h = hex_text(hmac_sha256_of(secret, payload));
    let t = signed_token(secret, kind, expiry as int);
    let k = kind.len() as int;
    let c1: int = 7;
    let c2: int = 8 + k;
    let c3: int = 9 + k + d.len();
    assert(t =~= token_prefix() + seq![':'] + kind + seq![':'] + d + seq![':'] + h);
    assert(payload.len() == c3);
    lemma_next_colon_at(t, 0, c1);
    assert forall|j: int| c1 + 1 <= j < c2 implies t[j] != ':' by {
        assert(t[j] == kind[j - 8]);
    }
    lemma_next_colon_at(t, c1 + 1, c2);
    assert forall|j: int| c2 + 1 <= j < c3 implies t[j] != ':' by {
        assert(t[j] == d[j - 9 - k]);
    }
    lemma_next_colon_at(t, c2 + 1, c3);
    assert(t.subrange(0, c1) =~= token_prefix());
    assert(t.subrange(c1 + 1, c2) =~= kind);
    assert(t.subrange(c2 + 1, c3) =~= d);
    assert(t.subrange(0, c3) =~= payload);
    assert(t.subrange(c3 + 1, t.len() as int) =~= h);
}

} // verus!
