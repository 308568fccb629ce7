//! Signed URL tokens: `name=exp=...~st=...~url=...~ip=...~id=...~hmac=...`,
//! where the last field is an HMAC-SHA256 of the fields before it.
use hex::FromHex;
use hex::ToHex;
use hmac::Mac;
use vstd::prelude::*;
use vstd::string::StringExecFns;
use vstd::utf8::encode_utf8;

verus! {

/// The lifetime of a token, in seconds, when the configuration gives none.
pub const DEFAULT_WINDOW_SECONDS: i64 = 3600;

/// The value of a hexadecimal digit in either case.
pub open spec fn hex_value(c: u8) -> Option<u8> {
    if 48 <= c <= 57 {
        Some((c - 48) as u8)
    } else if 97 <= c <= 102 {
        Some((c - 87) as u8)
    } else if 65 <= c <= 70 {
        Some((c - 55) as u8)
    } else {
        None
    }
}

/// The bytes that a string of hexadecimal digit pairs spells, or `None` when
/// its length is odd or it holds something other than a digit.
pub open spec fn hex_decode(s: Seq<u8>) -> Option<Seq<u8>>
    decreases s.len(),
{
    if s.len() % 2 != 0 {
        None
    } else if s.len() == 0 {
        Some(Seq::<u8>::empty())
    } else {
        match (hex_value(s[0]), hex_value(s[1]), hex_decode(s.subrange(2, s.len() as int))) {
            (Some(hi), Some(lo), Some(rest)) => Some(seq![(hi * 16 + lo) as u8] + rest),
            _ => None,
        }
    }
}

pub open spec fn lower_hex_digit(d: u8) -> char {
    if d < 10 {
        ((48 + d) as u8) as char
    } else {
        ((87 + d) as u8) as char
    }
}

pub open spec fn upper_hex_digit(d: u8) -> char {
    if d < 10 {
        ((48 + d) as u8) as char
    } else {
        ((55 + d) as u8) as char
    }
}

/// Two lower-case hexadecimal digits per byte, high nibble first.
pub open spec fn hex_encode(b: Seq<u8>) -> Seq<char>
    decreases b.len(),
{
    if b.len() == 0 {
        Seq::<char>::empty()
    } else {
        seq![lower_hex_digit(b[0] / 16), lower_hex_digit(b[0] % 16)] + hex_encode(
            b.subrange(1, b.len() as int),
        )
    }
}

/// A lower-case hexadecimal digit.
pub open spec fn is_lower_hex_char(c: char) -> bool {
    ('0' <= c <= '9') || ('a' <= c <= 'f')
}

/// Two lower-case digits per byte.
pub proof fn lemma_hex_encode_shape(b: Seq<u8>)
    ensures
        hex_encode(b).len() == 2 * b.len(),
        forall|i: int| 0 <= i < hex_encode(b).len() ==> is_lower_hex_char(#[trigger] hex_encode(b)[i]),
    decreases b.len(),
{
    if b.len() > 0 {
        let rest = b.subrange(1, b.len() as int);
        lemma_hex_encode_shape(rest);
        let head = seq![lower_hex_digit(b[0] / 16), lower_hex_digit(b[0] % 16)];
        assert(is_lower_hex_char(lower_hex_digit(b[0] / 16)));
        assert(is_lower_hex_char(lower_hex_digit(b[0] % 16)));
        assert forall|i: int| 0 <= i < hex_encode(b).len() implies is_lower_hex_char(
            #[trigger] hex_encode(b)[i],
        ) by {
            if i >= 2 {
                assert(hex_encode(b)[i] == hex_encode(rest)[i - 2]);
            }
        }
    }
}

pub open spec fn is_unreserved(b: u8) -> bool {
    (48 <= b <= 57) || (65 <= b <= 90) || (97 <= b <= 122) || b == 45 || b == 46 || b == 95
        || b == 126
}

/// Percent-encoding: alphanumerics and `-`, `.`, `_`, `~` stay, every other
/// byte becomes `%` and two upper-case hexadecimal digits.
pub open spec fn percent_encode(b: Seq<u8>) -> Seq<char>
    decreases b.len(),
{
    if b.len() == 0 {
        Seq::<char>::empty()
    } else {
        let head = if is_unreserved(b[0]) {
            seq![b[0] as char]
        } else {
            seq!['%', upper_hex_digit(b[0] / 16), upper_hex_digit(b[0] % 16)]
        };
        head + percent_encode(b.subrange(1, b.len() as int))
    }
}

pub open spec fn decimal_digits(n: nat) -> Seq<char>
    decreases n,
{
    if n < 10 {
        seq![((48 + n) as u8) as char]
    } else {
        decimal_digits(n / 10) + seq![((48 + n % 10) as u8) as char]
    }
}

/// An integer written in decimal, with a leading `-` when negative.
pub open spec fn decimal(n: int) -> Seq<char> {
    if n < 0 {
        seq!['-'] + decimal_digits((-n) as nat)
    } else {
        decimal_digits(n as nat)
    }
}

/// The HMAC-SHA256 tag of `msg` under `key`.
pub uninterp spec fn hmac_sha256_tag(key: Seq<u8>, msg: Seq<u8>) -> Seq<u8>;

/// Relies on hex's `FromHex for Vec<u8>`: pairs of digits of either case
/// become bytes; an odd length or any other character is an error.
#[verifier::external_body]
fn decode_hex(s: &[u8]) -> (r: Result<Vec<u8>, String>)
    ensures
        r is Ok <==> hex_decode(s@) is Some,
        r matches Ok(v) ==> hex_decode(s@) == Some(v@),
{
    Vec::<u8>::from_hex(s).map_err(|e| e.to_string())
}

/// Relies on hex's `ToHex::encode_hex`: two lower-case digits per byte.
#[verifier::external_body]
fn encode_hex(b: &[u8]) -> (r: String)
    ensures
        r@ == hex_encode(b@),
{
    b.encode_hex::<String>()
}

/// Relies on urlencoding::encode, which percent-encodes every byte of the
/// string but alphanumerics and `-`, `_`, `.`, `~`, with upper-case digits.
#[verifier::external_body]
fn url_encode(s: &str) -> (r: String)
    ensures
        r@ == percent_encode(encode_utf8(s@)),
{
    urlencoding::encode(s).into_owned()
}

/// Relies on hmac's `Hmac<Sha256>`: `new_from_slice` takes a key of any
/// length, so only the tag comes back, 32 bytes long as SHA-256's output.
#[verifier::external_body]
fn hmac_sha256(key: &[u8], msg: &[u8]) -> (r: Result<Vec<u8>, String>)
    ensures
        r is Ok,
        r->Ok_0@ == hmac_sha256_tag(key@, msg@),
        r->Ok_0@.len() == 32,
{
    let mut mac = hmac::Hmac::<sha2::Sha256>::new_from_slice(key).map_err(|e| e.to_string())?;
    mac.update(msg);
    Ok(mac.finalize().into_bytes().to_vec())
}

/// Relies on `ToString` for `i64`: the number in decimal.
#[verifier::external_body]
fn decimal_string(n: i64) -> (r: String)
    ensures
        r@ == decimal(n as int),
{
    n.to_string()
}

/// The value of a string of ASCII decimal digits.
pub open spec fn digits_value(s: Seq<char>) -> int
    decreases s.len(),
{
    if s.len() == 0 {
        0
    } else {
        digits_value(s.drop_last()) * 10 + (s.last() as u32 - 48)
    }
}

/// The integer that `s` spells as `i64`'s `FromStr` reads it: an optional `+`
/// or `-`, then one or more ASCII digits, with a value in range.
pub open spec fn parsed_i64(s: Seq<char>) -> Option<i64> {
    let negative = s.len() > 0 && s[0] == '-';
    let body = if s.len() > 0 && (s[0] == '-' || s[0] == '+') {
        s.drop_first()
    } else {
        s
    };
    let value = if negative {
        -digits_value(body)
    } else {
        digits_value(body)
    };
    if body.len() > 0 && (forall|i: int| 0 <= i < body.len() ==> '0' <= #[trigger] body[i] <= '9')
        && i64::MIN <= value <= i64::MAX {
        Some(value as i64)
    } else {
        None
    }
}

/// Relies on `FromStr` for `i64`: a sign and decimal digits, nothing else,
/// within range.
#[verifier::external_body]
fn parse_i64(s: &str) -> (r: Option<i64>)
    ensures
        r == parsed_i64(s@),
{
    s.parse::<i64>().ok()
}

/// Relies on std::time::SystemTime: the whole seconds since the Unix epoch,
/// or an error for a clock set before it. Nothing is known of the value.
#[verifier::external_body]
fn unix_seconds() -> (r: Result<u64, String>) {
    std::time::SystemTime::now()
        .duration_since(std::time::UNIX_EPOCH)
        .map(|d| d.as_secs())
        .map_err(|e| e.to_string())
}

/// The key after every leading `0x` has been taken off, as
/// `str::trim_start_matches("0x")` does.
pub open spec fn strip_hex_marker(s: Seq<u8>) -> Seq<u8>
    decreases s.len(),
{
    if s.len() >= 2 && s[0] == 48u8 && s[1] == 120u8 {
        strip_hex_marker(s.subrange(2, s.len() as int))
    } else {
        s
    }
}

/// Settings of one token.
pub struct TokenConfig {
    pub window_seconds: Option<i64>,
    pub start_time: Option<i64>,
    pub url: String,
    pub ip: Option<String>,
    pub session_id: Option<String>,
    pub verbose: bool,
}

/// Why no token could be made.
#[derive(Debug, PartialEq, Eq)]
pub enum TokenError {
    KeyRequired,
    InvalidHexKey(String),
    UrlRequired,
    TimeOverflow,
    Clock(String),
    Hmac(String),
    MissingUrl,
}

/// When a token made at `now` expires: its start, `now` by default, plus its
/// window, an hour by default.
pub open spec fn end_time_of(config: TokenConfig, now: i64) -> int {
    let start: int = match config.start_time {
        Some(st) => st as int,
        None => now as int,
    };
    let window: int = match config.window_seconds {
        Some(w) => w as int,
        None => DEFAULT_WINDOW_SECONDS as int,
    };
    start + window
}

/// The start field, present when a start was given and differs from `now`.
pub open spec fn start_field(config: TokenConfig, now: i64) -> Seq<char> {
    match config.start_time {
        Some(st) => if st != now {
            seq!['~', 's', 't', '='] + decimal(st as int)
        } else {
            Seq::<char>::empty()
        },
        None => Seq::<char>::empty(),
    }
}

/// A field `label` followed by `value`, present when the value is.
pub open spec fn optional_field(label: Seq<char>, value: Option<String>) -> Seq<char> {
    match value {
        Some(v) => label + v@,
        None => Seq::<char>::empty(),
    }
}

/// The signed fields of a token, joined by `~`: the expiry, the start when it
/// was given and differs from `now`, the percent-encoded URL, and the address
/// and session when given.
pub open spec fn token_fields(config: TokenConfig, now: i64) -> Seq<char> {
    seq!['e', 'x', 'p', '='] + decimal(end_time_of(config, now)) + start_field(config, now)
        + seq!['~', 'u', 'r', 'l', '='] + percent_encode(encode_utf8(config.url@))
        + optional_field(seq!['~', 'i', 'p', '='], config.ip) + optional_field(
        seq!['~', 'i', 'd', '='],
        config.session_id,
    )
}

/// The hexadecimal HMAC-SHA256 tag of `message` under `key`.
pub open spec fn signature_of(key: Seq<u8>, message: Seq<char>) -> Seq<char> {
    hex_encode(hmac_sha256_tag(key, encode_utf8(message)))
}

/// Makes signed URL tokens with one key.
pub struct AkamaiTokenGenerator {
    key: Vec<u8>,
    token_name: String,
    algorithm: String,
}

impl AkamaiTokenGenerator {
    pub closed spec fn key_view(&self) -> Seq<u8> {
        self.key@
    }

    pub closed spec fn token_name_view(&self) -> Seq<char> {
        self.token_name@
    }

    pub closed spec fn algorithm_view(&self) -> Seq<char> {
        self.algorithm@
    }

    /// The token for `config` made at `now`: the token name, `=`, the signed
    /// fields, and `~hmac=` with their signature. A window that carries the
    /// expiry out of range and an empty URL are refused, in that order.
    pub open spec fn url_token(&self, config: TokenConfig, now: i64) -> Result<
        Seq<char>,
        TokenError,
    > {
        let end = end_time_of(config, now);
        if end < i64::MIN || end > i64::MAX {
            Err(TokenError::TimeOverflow)
        } else if config.url@.len() == 0 {
            Err(TokenError::UrlRequired)
        } else {
            let fields = token_fields(config, now);
            Ok(
                self.token_name_view() + seq!['='] + fields + seq!['~', 'h', 'm', 'a', 'c', '=']
                    + signature_of(self.key_view(), fields),
            )
        }
    }

    /// A generator for the key spelled in hexadecimal by `hex_key`, after any
    /// leading `0x`.
    pub fn new(hex_key: &str, algorithm: &str, token_name: &str) -> (r: Result<
        AkamaiTokenGenerator,
        TokenError,
    >)
        ensures
            hex_key@.len() == 0 ==> r == Err::<AkamaiTokenGenerator, TokenError>(
                TokenError::KeyRequired,
            ),
            hex_key@.len() > 0 ==> (r is Ok <==> hex_decode(
                strip_hex_marker(encode_utf8(hex_key@)),
            ) is Some),
            hex_key@.len() > 0 && r is Err ==> r matches Err(TokenError::InvalidHexKey(_)),
            r matches Ok(g) ==> Some(g.key_view()) == hex_decode(
                strip_hex_marker(encode_utf8(hex_key@)),
            ) && g.token_name_view() == token_name@ && g.algorithm_view() == algorithm@,
    {
        if hex_key.is_empty() {
            return Err(TokenError::KeyRequired);
        }
        let bytes = hex_key.as_bytes();
        let n = bytes.len();
        let mut start: usize = 0;
        assert(bytes@.subrange(0, n as int) =~= bytes@);
        while n - start >= 2 && bytes[start] == 48u8 && bytes[start + 1] == 120u8
            invariant
                n == bytes@.len(),
                start <= n,
                strip_hex_marker(bytes@) == strip_hex_marker(bytes@.subrange(start as int, n as int)),
            decreases n - start,
        {
            let ghost tail = bytes@.subrange(start as int, n as int);
            assert(tail.subrange(2, tail.len() as int) =~= bytes@.subrange(start + 2, n as int));
            start += 2;
        }
        let digits = copy_tail(bytes, start);
        match decode_hex(digits.as_slice()) {
            Ok(key) => {
                let name = token_name.to_owned();
                let alg = algorithm.to_owned();
                Ok(AkamaiTokenGenerator { key, token_name: name, algorithm: alg })
            },
            Err(msg) => Err(TokenError::InvalidHexKey(msg)),
        }
    }

    pub fn get_token_name(&self) -> (r: &str)
        ensures
            r@ == self.token_name_view(),
    {
        self.token_name.as_str()
    }

    /// The token for `config` made at time `now`, in seconds since the Unix
    /// epoch.
    pub fn generate_url_token_at(&self, config: &TokenConfig, now: i64) -> (r: Result<
        String,
        TokenError,
    >)
        ensures
            match self.url_token(*config, now) {
                Ok(t) => r matches Ok(s) && s@ == t,
                Err(e) => r == Err::<String, TokenError>(e),
            },
    {
        let start: i64 = match config.start_time {
            Some(st) => st,
            None => now,
        };
        let window: i64 = match config.window_seconds {
            Some(w) => w,
            None => DEFAULT_WINDOW_SECONDS,
        };
        let end_time: i64 = match start.checked_add(window) {
            Some(e) => e,
            None => return Err(TokenError::TimeOverflow),
        };
        if config.url.as_str().is_empty() {
            return Err(TokenError::UrlRequired);
        }
        let fields = signed_fields(config, now, end_time);
        let signature = match self.generate_hmac(fields.as_str()) {
            Ok(h) => h,
            Err(e) => return Err(e),
        };
        proof {
            reveal_strlit("=");
            reveal_strlit("~hmac=");
            assert("="@ =~= seq!['=']);
            assert("~hmac="@ =~= seq!['~', 'h', 'm', 'a', 'c', '=']);
        }
        let mut token = self.token_name.clone();
        token.append("=");
        token.append(fields.as_str());
        token.append("~hmac=");
        token.append(signature.as_str());
        Ok(token)
    }

    /// The token for `config` made now. The start, when the configuration
    /// gives none, and the omission of a start equal to now both go by the
    /// system clock.
    pub fn generate_url_token(&self, config: &TokenConfig) -> (r: Result<String, TokenError>)
        ensures
            r matches Ok(s) ==> exists|now: i64| #[trigger]
                self.url_token(*config, now) == Ok::<Seq<char>, TokenError>(s@),
            config.url@.len() == 0 ==> r is Err,
    {
        match unix_seconds() {
            Ok(secs) => self.generate_url_token_at_seconds(config, secs),
            Err(msg) => Err(TokenError::Clock(msg)),
        }
    }

    /// The token for `config` made `secs` seconds after the Unix epoch; a
    /// time past the range of `i64` is a clock error.
    pub fn generate_url_token_at_seconds(&self, config: &TokenConfig, secs: u64) -> (r: Result<
        String,
        TokenError,
    >)
        ensures
            secs > i64::MAX ==> (r matches Err(TokenError::Clock(_))),
            secs <= i64::MAX ==> match self.url_token(*config, secs as i64) {
                Ok(t) => r matches Ok(s) && s@ == t,
                Err(e) => r == Err::<String, TokenError>(e),
            },
    {
        if secs > i64::MAX as u64 {
            return Err(TokenError::Clock(String::from_str("clock past the representable range")));
        }
        self.generate_url_token_at(config, secs as i64)
    }

    /// The hexadecimal HMAC-SHA256 signature of `message` under the key.
    pub fn generate_hmac(&self, message: &str) -> (r: Result<String, TokenError>)
        ensures
            r matches Ok(s) && s@ == signature_of(self.key_view(), message@),
            r matches Ok(s) ==> s@.len() == 64 && forall|i: int|
                0 <= i < s@.len() ==> is_lower_hex_char(#[trigger] s@[i]),
    {
        match hmac_sha256(self.key.as_slice(), message.as_bytes()) {
            Ok(tag) => {
                proof {
                    lemma_hex_encode_shape(tag@);
                }
                Ok(encode_hex(tag.as_slice()))
            },
            Err(msg) => Err(TokenError::Hmac(msg)),
        }
    }
}

/// The value of the first query pair named `name`.
pub open spec fn first_value(pairs: Seq<(String, String)>, name: Seq<char>) -> Option<Seq<char>>
    decreases pairs.len(),
{
    if pairs.len() == 0 {
        None
    } else if pairs[0].0@ == name {
        Some(pairs[0].1@)
    } else {
        first_value(pairs.drop_first(), name)
    }
}

/// The first query pair named `name`, searched from position `from`.
fn find_value(pairs: &Vec<(String, String)>, name: &String, from: usize) -> (r: Option<String>)
    requires
        from <= pairs@.len(),
    ensures
        r matches Some(v) ==> first_value(pairs@.subrange(from as int, pairs@.len() as int), name@)
            == Some(v@),
        r is None ==> first_value(pairs@.subrange(from as int, pairs@.len() as int), name@) is None,
    decreases pairs@.len() - from,
{
    if from == pairs.len() {
        return None;
    }
    let ghost rest = pairs@.subrange(from as int, pairs@.len() as int);
    assert(rest.drop_first() =~= pairs@.subrange(from + 1, pairs@.len() as int));
    if pairs[from].0 == *name {
        Some(pairs[from].1.clone())
    } else {
        find_value(pairs, name, from + 1)
    }
}

/// The view of an optional string.
pub open spec fn text_of(value: Option<String>) -> Option<Seq<char>> {
    match value {
        Some(v) => Some(v@),
        None => None,
    }
}

/// The window that a `window` value asks for: its number, or an hour when it
/// does not parse.
pub open spec fn window_setting(value: Option<Seq<char>>) -> Option<i64> {
    match value {
        Some(w) => Some(
            match parsed_i64(w) {
                Some(n) => n,
                None => DEFAULT_WINDOW_SECONDS,
            },
        ),
        None => None,
    }
}

/// The start that a `start_time` value asks for, when it parses.
pub open spec fn start_setting(value: Option<Seq<char>>) -> Option<i64> {
    match value {
        Some(st) => parsed_i64(st),
        None => None,
    }
}

/// The settings that a token request asks for with its query pairs: `url`
/// (required), `window` (seconds; an hour when it does not parse),
/// `start_time` (ignored when it does not parse), `ip` and `session_id`, each
/// taken from its first pair. Such requests are logged.
pub fn token_config_from_query(pairs: &Vec<(String, String)>) -> (r: Result<TokenConfig, TokenError>)
    ensures
        first_value(pairs@, seq!['u', 'r', 'l']) is None ==> r == Err::<TokenConfig, TokenError>(
            TokenError::MissingUrl,
        ),
        first_value(pairs@, seq!['u', 'r', 'l']) matches Some(u) ==> (r matches Ok(c) && c.url@ == u
            && c.window_seconds == window_setting(
            first_value(pairs@, seq!['w', 'i', 'n', 'd', 'o', 'w']),
        ) && c.start_time == start_setting(
            first_value(pairs@, seq!['s', 't', 'a', 'r', 't', '_', 't', 'i', 'm', 'e']),
        ) && text_of(c.ip) == first_value(pairs@, seq!['i', 'p']) && text_of(c.session_id)
            == first_value(pairs@, seq!['s', 'e', 's', 's', 'i', 'o', 'n', '_', 'i', 'd'])
            && c.verbose),
{
    proof {
        reveal_strlit("url");
        reveal_strlit("window");
        reveal_strlit("start_time");
        reveal_strlit("ip");
        reveal_strlit("session_id");
        assert("url"@ =~= seq!['u', 'r', 'l']);
        assert("window"@ =~= seq!['w', 'i', 'n', 'd', 'o', 'w']);
        assert("start_time"@ =~= seq!['s', 't', 'a', 'r', 't', '_', 't', 'i', 'm', 'e']);
        assert("ip"@ =~= seq!['i', 'p']);
        assert("session_id"@ =~= seq!['s', 'e', 's', 's', 'i', 'o', 'n', '_', 'i', 'd']);
        assert(pairs@.subrange(0, pairs@.len() as int) =~= pairs@);
    }
    let url = match find_value(pairs, &String::from_str("url"), 0) {
        Some(u) => u,
        None => return Err(TokenError::MissingUrl),
    };
    let window_seconds = match find_value(pairs, &String::from_str("window"), 0) {
        Some(w) => match parse_i64(w.as_str()) {
            Some(n) => Some(n),
            None => Some(DEFAULT_WINDOW_SECONDS),
        },
        None => None,
    };
    let start_time = match find_value(pairs, &String::from_str("start_time"), 0) {
        Some(st) => parse_i64(st.as_str()),
        None => None,
    };
    let ip = find_value(pairs, &String::from_str("ip"), 0);
    let session_id = find_value(pairs, &String::from_str("session_id"), 0);
    Ok(TokenConfig { window_seconds, start_time, url, ip, session_id, verbose: true })
}

/// `label` followed by `value`.
fn labelled(label: &str, value: &str) -> (r: String)
    ensures
        r@ == label@ + value@,
{
    let mut s = label.to_owned();
    s.append(value);
    s
}

/// The field `label` with `value`, or nothing when there is no value.
fn optional_text(label: &str, value: &Option<String>) -> (r: String)
    ensures
        r@ == optional_field(label@, *value),
{
    match value {
        Some(v) => labelled(label, v.as_str()),
        None => String::new(),
    }
}

/// The signed fields of the token for `config` made at `now`.
fn signed_fields(config: &TokenConfig, now: i64, end_time: i64) -> (r: String)
    requires
        end_time == end_time_of(*config, now),
    ensures
        r@ == token_fields(*config, now),
{
    proof {
        reveal_strlit("exp=");
        reveal_strlit("~st=");
        reveal_strlit("~url=");
        reveal_strlit("~ip=");
        reveal_strlit("~id=");
        assert("exp="@ =~= seq!['e', 'x', 'p', '=']);
        assert("~st="@ =~= seq!['~', 's', 't', '=']);
        assert("~url="@ =~= seq!['~', 'u', 'r', 'l', '=']);
        assert("~ip="@ =~= seq!['~', 'i', 'p', '=']);
        assert("~id="@ =~= seq!['~', 'i', 'd', '=']);
    }
    let start_text = match config.start_time {
        Some(st) => if st != now {
            let d = decimal_string(st);
            labelled("~st=", d.as_str())
        } else {
            String::new()
        },
        None => String::new(),
    };
    let mut fields = String::from_str("exp=");
    let exp = decimal_string(end_time);
    fields.append(exp.as_str());
    fields.append(start_text.as_str());
    fields.append("~url=");
    let encoded = url_encode(config.url.as_str());
    fields.append(encoded.as_str());
    let ip_text = optional_text("~ip=", &config.ip);
    fields.append(ip_text.as_str());
    let id_text = optional_text("~id=", &config.session_id);
    fields.append(id_text.as_str());
    fields
}

/// A copy of `s` from `start` on.
fn copy_tail(s: &[u8], start: usize) -> (r: Vec<u8>)
    requires
        start <= s@.len(),
    ensures
        r@ == s@.subrange(start as int, s@.len() as int),
{
    let mut r: Vec<u8> = Vec::new();
    let mut i: usize = start;
    while i < s.len()
        invariant
            start <= i <= s@.len(),
            r@ == s@.subrange(start as int, i as int),
        decreases s@.len() - i,
    {
        r.push(s[i]);
        i += 1;
    }
    r
}

} // verus!
