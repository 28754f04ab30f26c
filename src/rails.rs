//! Rails cookies: the release catalog, and decoding what a release sends back.
use vstd::prelude::*;
use vstd::string::*;
use vstd::utf8::{decode_utf8, valid_utf8};

use crate::text::{fields, split_fields, views};

pub mod versions;

verus! {

/// The session envelope of a Rails cookie, `{"_rails": {"message": ...}}`.
pub struct RailsMessage {
    pub message: String,
}

/// A Rails cookie payload.
pub struct RailsCookie {
    pub rails: RailsMessage,
}

/// Whether `c` is an ASCII decimal digit.
pub open spec fn is_digit(c: char) -> bool {
    '0' <= c && c <= '9'
}

/// The value of the digit `c`.
pub open spec fn digit_of(c: char) -> nat {
    (c as u32 - '0' as u32) as nat
}

/// Whether every character of `s` is a digit.
pub open spec fn all_digits(s: Seq<char>) -> bool {
    forall|i: int| 0 <= i < s.len() ==> is_digit(#[trigger] s[i])
}

/// The number that the digits `s` write in base ten.
pub open spec fn digits_value(s: Seq<char>) -> nat
    decreases s.len(),
{
    if s.len() == 0 {
        0
    } else {
        digits_value(s.drop_last()) * 10 + digit_of(s.last())
    }
}

/// A version component: one or more digits writing a number below 256.
pub open spec fn component(s: Seq<char>) -> Option<nat> {
    if s.len() > 0 && all_digits(s) && digits_value(s) <= 255 {
        Some(digits_value(s))
    } else {
        None
    }
}

/// `major.minor.patch` read from `s`: three components separated by dots.
pub open spec fn version_triple(s: Seq<char>) -> Option<(nat, nat, nat)> {
    let f = fields(s, '.');
    if f.len() == 3 && component(f[0]) is Some && component(f[1]) is Some && component(
        f[2],
    ) is Some {
        Some((component(f[0]).unwrap(), component(f[1]).unwrap(), component(f[2]).unwrap()))
    } else {
        None
    }
}

/// Reads one version component.
pub fn parse_component(s: &str) -> (r: Option<u8>)
    ensures
        r is Some == component(s@) is Some,
        r is Some ==> component(s@) == Some(r.unwrap() as nat),
{
    let n = s.unicode_len();
    if n == 0 {
        return None;
    }
    let mut v: u32 = 0;
    let mut i: usize = 0;
    assert(s@.subrange(0, 0) =~= Seq::<char>::empty());
    while i < n
        invariant
            n == s@.len(),
            i <= n,
            all_digits(s@.subrange(0, i as int)),
            v as nat == if digits_value(s@.subrange(0, i as int)) <= 256 {
                digits_value(s@.subrange(0, i as int))
            } else {
                256
            },
        decreases n - i,
    {
        let c = s.get_char(i);
        if !(c >= '0' && c <= '9') {
            assert(!all_digits(s@)) by {
                assert(!is_digit(s@[i as int]));
            }
            return None;
        }
        let d: u32 = (c as u32) - ('0' as u32);
        let ghost pre = s@.subrange(0, i as int);
        let ghost cur = s@.subrange(0, i as int + 1);
        assert(cur.drop_last() =~= pre);
        assert(cur.last() == c);
        assert(digits_value(cur) == digits_value(pre) * 10 + d);
        assert(d <= 9);
        proof {
            if digits_value(pre) > 256 {
                assert(digits_value(cur) > 256) by (nonlinear_arith)
                    requires
                        digits_value(cur) == digits_value(pre) * 10 + d,
                        digits_value(pre) > 256,
                ;
            }
        }
        let next: u32 = v * 10 + d;
        v = if next > 256 {
            256
        } else {
            next
        };
        assert forall|k: int| 0 <= k < cur.len() implies is_digit(#[trigger] cur[k]) by {
            if k < pre.len() {
                assert(cur[k] == pre[k]);
            }
        }
        i += 1;
    }
    assert(s@.subrange(0, n as int) =~= s@);
    if v > 255 {
        None
    } else {
        Some(v as u8)
    }
}

/// Reads `major.minor.patch`.
pub fn parse_version_triple(s: &str) -> (r: Option<(u8, u8, u8)>)
    ensures
        r is Some == version_triple(s@) is Some,
        r is Some ==> version_triple(s@) == Some(
            (r.unwrap().0 as nat, r.unwrap().1 as nat, r.unwrap().2 as nat),
        ),
{
    let f = split_fields(s, '.');
    if f.len() != 3 {
        return None;
    }
    assert(views(f@)[0] == f@[0]@ && views(f@)[1] == f@[1]@ && views(f@)[2] == f@[2]@);
    let a = parse_component(f[0].as_str());
    let b = parse_component(f[1].as_str());
    let c = parse_component(f[2].as_str());
    match (a, b, c) {
        (Some(x), Some(y), Some(z)) => Some((x, y, z)),
        _ => None,
    }
}

/// The cookie defaults of a group of Rails releases.
#[derive(Clone, Copy, Debug, PartialEq, Eq, Structural)]
pub enum CookieFamily {
    /// Rails 6: keys derived with SHA-1.
    Rails6,
    /// Rails 7: keys derived with SHA-256.
    Rails7,
    /// Any other release: the current defaults, SHA-256.
    Latest,
}

/// The family of the release written `rails_version`, by its major component.
pub open spec fn family_of(rails_version: Seq<char>) -> CookieFamily {
    match version_triple(rails_version) {
        Some(t) => if t.0 == 6 {
            CookieFamily::Rails6
        } else if t.0 == 7 {
            CookieFamily::Rails7
        } else {
            CookieFamily::Latest
        },
        None => CookieFamily::Latest,
    }
}

/// The family of the release written `rails_version`, by its major component; anything that
/// is not `major.minor.patch` falls back to the current defaults.
pub fn cookie_family(rails_version: &str) -> (r: CookieFamily)
    ensures
        r == family_of(rails_version@),
{
    match parse_version_triple(rails_version) {
        Some((major, _, _)) => if major == 6 {
            CookieFamily::Rails6
        } else if major == 7 {
            CookieFamily::Rails7
        } else {
            CookieFamily::Latest
        },
        None => CookieFamily::Latest,
    }
}

/// Digest of the key derivation.
#[derive(Clone, Copy, Debug, PartialEq, Eq, Structural)]
pub enum KeyDigest {
    Sha1,
    Sha256,
}

/// How a family derives its cookie key: salt, iteration count and digest.
pub struct CookieParams {
    pub key_salt: String,
    pub iterations: u32,
    pub digest: KeyDigest,
}

/// The salt Rails derives cookie keys with.
pub open spec fn rails_key_salt() -> Seq<char> {
    "authenticated encrypted cookie"@
}

/// Iterations of the key derivation.
pub const KEY_ITERATIONS: u32 = 1000;

/// The digest of the family `f`.
pub open spec fn family_digest(f: CookieFamily) -> KeyDigest {
    match f {
        CookieFamily::Rails6 => KeyDigest::Sha1,
        _ => KeyDigest::Sha256,
    }
}

impl CookieFamily {
    /// The key derivation parameters of the family.
    pub fn params(&self) -> (r: CookieParams)
        ensures
            r.key_salt@ == rails_key_salt(),
            r.iterations == KEY_ITERATIONS,
            r.digest == family_digest(*self),
    {
        let digest = match self {
            CookieFamily::Rails6 => KeyDigest::Sha1,
            _ => KeyDigest::Sha256,
        };
        CookieParams {
            key_salt: "authenticated encrypted cookie".to_owned(),
            iterations: KEY_ITERATIONS,
            digest,
        }
    }
}

/// What `base64`'s standard engine decodes `text` to; `None` when it is no valid encoding.
pub uninterp spec fn base64_decoded(text: Seq<char>) -> Option<Seq<u8>>;

/// Relies on `base64::engine::general_purpose::STANDARD.decode`: the result depends on the
/// text alone.
#[verifier::external_body]
fn base64_decode(text: &str) -> (r: Option<Vec<u8>>)
    ensures
        r is Some == base64_decoded(text@) is Some,
        r is Some ==> base64_decoded(text@) == Some(r.unwrap()@),
{
    match base64::Engine::decode(&base64::engine::general_purpose::STANDARD, text) {
        Ok(b) => Some(b),
        Err(_) => None,
    }
}

/// Relies on `String::from_utf8`: it succeeds exactly on valid UTF-8, and the string holds
/// the characters the bytes encode.
#[verifier::external_body]
fn utf8_string(bytes: Vec<u8>) -> (r: Option<String>)
    ensures
        r is Some == valid_utf8(bytes@),
        r is Some ==> r.unwrap()@ == decode_utf8(bytes@),
{
    match String::from_utf8(bytes) {
        Ok(s) => Some(s),
        Err(_) => None,
    }
}

#[verifier::external_type_specification]
#[verifier::external_body]
pub struct ExParseCookieError(rails_cookie_parser::ParseCookieError);

/// What `rails_cookie_parser` deciphers `cookie` to, with the key derived from `key_base`,
/// `key_salt` and `iterations` by SHA-256 (`sha256`) or SHA-1; `None` when it fails.
pub uninterp spec fn deciphered_cookie(
    key_base: Seq<char>,
    key_salt: Seq<char>,
    iterations: u32,
    sha256: bool,
    cookie: Seq<char>,
) -> Option<Seq<char>>;

/// Whether `cookie` has the shape `a--b--c` with no other dash, and `b` decodes to the
/// 12-byte nonce.
pub open spec fn nonce_fits(cookie: Seq<char>) -> bool {
    let f = fields(cookie, '-');
    &&& f.len() == 5
    &&& f[1].len() == 0
    &&& f[3].len() == 0
    &&& base64_decoded(f[2]) is Some
    &&& base64_decoded(f[2]).unwrap().len() == 12
}

/// Relies on `RailsCookieParser::new` and `RailsCookieParser::decipher_cookie`: the result
/// depends on the arguments alone. The parser splits the cookie at `--`, decodes each part
/// with the standard base64 engine and hands the middle one to `Nonce::from_slice`, which
/// panics unless it is 12 bytes long: `nonce_fits` rules that out.
#[verifier::external_body]
fn decipher_with(key_base: &str, params: &CookieParams, cookie: &str) -> (r: Result<
    String,
    rails_cookie_parser::ParseCookieError,
>)
    requires
        nonce_fits(cookie@),
    ensures
        r is Ok == deciphered_cookie(
            key_base@,
            params.key_salt@,
            params.iterations,
            params.digest == KeyDigest::Sha256,
            cookie@,
        ) is Some,
        r is Ok ==> deciphered_cookie(
            key_base@,
            params.key_salt@,
            params.iterations,
            params.digest == KeyDigest::Sha256,
            cookie@,
        ) == Some(r.unwrap()@),
{
    let digest = match params.digest {
        KeyDigest::Sha1 => rails_cookie_parser::HashDigest::Sha1,
        KeyDigest::Sha256 => rails_cookie_parser::HashDigest::Sha256,
    };
    let parser = rails_cookie_parser::RailsCookieParser::new(
        key_base,
        &params.key_salt,
        params.iterations,
        digest,
    );
    parser.decipher_cookie(cookie)
}

/// Why a cookie could not be read.
#[derive(Clone, Copy, Debug, PartialEq, Eq, Structural)]
pub enum CookieError {
    /// Not of the shape `payload--nonce--tag` with a 12-byte nonce.
    Malformed,
    /// The cipher refused it: wrong key, or damaged data.
    Undecipherable,
    /// The envelope holds no message field.
    NoMessage,
    /// The message is no valid base64.
    InvalidBase64,
    /// The message's bytes are no UTF-8.
    InvalidUtf8,
}

/// What reading the envelope `envelope` gives: the message, base64-decoded, from its sixth
/// `"`-separated field.
pub open spec fn message_outcome(envelope: Seq<char>) -> Result<Seq<char>, CookieError> {
    let f = fields(envelope, '"');
    if f.len() <= 5 {
        Err(CookieError::NoMessage)
    } else {
        match base64_decoded(f[5]) {
            None => Err(CookieError::InvalidBase64),
            Some(b) => if valid_utf8(b) {
                Ok(decode_utf8(b))
            } else {
                Err(CookieError::InvalidUtf8)
            },
        }
    }
}

/// What deciphering `cookie` of the release written `rails_version` with `secret` gives.
pub open spec fn decipher_outcome(
    secret: Seq<char>,
    rails_version: Seq<char>,
    cookie: Seq<char>,
) -> Result<Seq<char>, CookieError> {
    if !nonce_fits(cookie) {
        Err(CookieError::Malformed)
    } else {
        match deciphered_cookie(
            secret,
            rails_key_salt(),
            KEY_ITERATIONS,
            family_digest(family_of(rails_version)) == KeyDigest::Sha256,
            cookie,
        ) {
            None => Err(CookieError::Undecipherable),
            Some(envelope) => message_outcome(envelope),
        }
    }
}

/// The view of a text result.
pub open spec fn text_result(r: Result<String, CookieError>) -> Result<Seq<char>, CookieError> {
    match r {
        Ok(s) => Ok(s@),
        Err(e) => Err(e),
    }
}

/// Reads the message of a deciphered envelope.
pub fn extract_message(envelope: &str) -> (r: Result<String, CookieError>)
    ensures
        text_result(r) == message_outcome(envelope@),
{
    let f = split_fields(envelope, '"');
    if f.len() <= 5 {
        return Err(CookieError::NoMessage);
    }
    assert(views(f@)[5] == f@[5]@);
    match base64_decode(f[5].as_str()) {
        None => Err(CookieError::InvalidBase64),
        Some(bytes) => match utf8_string(bytes) {
            Some(s) => Ok(s),
            None => Err(CookieError::InvalidUtf8),
        },
    }
}

/// Whether `cookie` has the shape the cipher accepts without failing hard.
pub fn check_nonce(cookie: &str) -> (r: bool)
    ensures
        r == nonce_fits(cookie@),
{
    let f = split_fields(cookie, '-');
    if f.len() != 5 {
        return false;
    }
    assert(views(f@)[1] == f@[1]@ && views(f@)[2] == f@[2]@ && views(f@)[3] == f@[3]@);
    if f[1].unicode_len() != 0 || f[3].unicode_len() != 0 {
        return false;
    }
    match base64_decode(f[2].as_str()) {
        Some(nonce) => nonce.len() == 12,
        None => false,
    }
}

/// Deciphers `cookie`, sent by the release written `rails_version` run with `secret`, and
/// reads its message. The key is derived with the defaults of the release's family.
pub fn decipher_cookie(secret: &str, rails_version: &str, cookie: &str) -> (r: Result<
    String,
    CookieError,
>)
    ensures
        text_result(r) == decipher_outcome(secret@, rails_version@, cookie@),
{
    if !check_nonce(cookie) {
        return Err(CookieError::Malformed);
    }
    let params = cookie_family(rails_version).params();
    match decipher_with(secret, &params, cookie) {
        Ok(envelope) => extract_message(envelope.as_str()),
        Err(_) => Err(CookieError::Undecipherable),
    }
}

/// Whether `i` is the position of the first `c` in `s`.
pub open spec fn is_first_index(s: Seq<char>, c: char, i: int) -> bool {
    0 <= i < s.len() && s[i] == c && forall|j: int| 0 <= j < i ==> s[j] != c
}

/// The position of the first `c` in `s`, if any.
pub open spec fn first_index(s: Seq<char>, c: char) -> Option<int> {
    if s.contains(c) {
        Some(choose|i: int| is_first_index(s, c, i))
    } else {
        None
    }
}

/// `s` cut at its first `c`, as `str::split_once` cuts it.
pub open spec fn cut_once(s: Seq<char>, c: char) -> Option<(Seq<char>, Seq<char>)> {
    match first_index(s, c) {
        Some(i) => Some((s.subrange(0, i), s.subrange(i + 1, s.len() as int))),
        None => None,
    }
}

/// The name and value of a `Set-Cookie` header: the text before its first `;`, cut at its
/// first `=`.
pub open spec fn cookie_pair(header: Seq<char>) -> Option<(Seq<char>, Seq<char>)> {
    match cut_once(header, ';') {
        Some(parts) => cut_once(parts.0, '='),
        None => None,
    }
}

/// The view of a pair of strings, if any.
pub open spec fn pair_result(r: Option<(String, String)>) -> Option<(Seq<char>, Seq<char>)> {
    match r {
        Some(p) => Some((p.0@, p.1@)),
        None => None,
    }
}

/// Cuts `s` at its first `c`.
pub fn split_once_at(s: &str, c: char) -> (r: Option<(String, String)>)
    ensures
        pair_result(r) == cut_once(s@, c),
{
    let n = s.unicode_len();
    let mut i: usize = 0;
    while i < n
        invariant
            n == s@.len(),
            i <= n,
            forall|j: int| 0 <= j < i ==> s@[j] != c,
        decreases n - i,
    {
        if s.get_char(i) == c {
            let head = s.substring_char(0, i).to_owned();
            let tail = s.substring_char(i + 1, n).to_owned();
            proof {
                assert(is_first_index(s@, c, i as int));
                assert(s@.contains(c));
                let k = choose|k: int| is_first_index(s@, c, k);
                if k < i {
                    assert(s@[k] != c);
                }
                if k > i {
                    assert(s@[i as int] != c);
                }
            }
            return Some((head, tail));
        }
        i += 1;
    }
    None
}

/// The name and value of a `Set-Cookie` header; `None` when it has no `;` before which an
/// `=` stands.
pub fn parse_set_cookie(header: &str) -> (r: Option<(String, String)>)
    ensures
        pair_result(r) == cookie_pair(header@),
{
    match split_once_at(header, ';') {
        Some((first, _)) => split_once_at(first.as_str(), '='),
        None => None,
    }
}

/// The kinds of cookies a release sends, told apart by name.
#[derive(Clone, Copy, Debug, PartialEq, Eq, Structural)]
pub enum CookieKind {
    /// `encrypted`: one encrypted value, the canary in quotes.
    Encrypted,
    /// `_cookie_monster_session`: an encrypted session, the canary in its fields.
    Session,
    /// Any other name.
    Unknown,
}

/// The kind of the cookie named `name`.
pub open spec fn kind_of(name: Seq<char>) -> CookieKind {
    if name == "encrypted"@ {
        CookieKind::Encrypted
    } else if name == "_cookie_monster_session"@ {
        CookieKind::Session
    } else {
        CookieKind::Unknown
    }
}

/// The kind of the cookie named `name`.
pub fn cookie_kind(name: &str) -> (r: CookieKind)
    ensures
        r == kind_of(name@),
{
    let owned = name.to_owned();
    if owned == "encrypted".to_owned() {
        CookieKind::Encrypted
    } else if owned == "_cookie_monster_session".to_owned() {
        CookieKind::Session
    } else {
        CookieKind::Unknown
    }
}

/// Where the canary stands in the message of a cookie of kind `kind`: between the quotes
/// that wrap an encrypted value, or in the eighth `"`-separated field of a session.
pub open spec fn canary_in(kind: CookieKind, message: Seq<char>) -> Option<Seq<char>> {
    match kind {
        CookieKind::Encrypted => if message.len() >= 2 && message[0] == '"' && message.last()
            == '"' {
            Some(message.subrange(1, message.len() - 1))
        } else {
            None
        },
        CookieKind::Session => {
            let f = fields(message, '"');
            if f.len() > 7 {
                Some(f[7])
            } else {
                None
            }
        },
        CookieKind::Unknown => None,
    }
}

/// Reads the canary out of the message of a cookie of kind `kind`.
pub fn extract_canary(kind: CookieKind, message: &str) -> (r: Option<String>)
    ensures
        r is Some == canary_in(kind, message@) is Some,
        r is Some ==> canary_in(kind, message@) == Some(r.unwrap()@),
{
    match kind {
        CookieKind::Encrypted => {
            let n = message.unicode_len();
            if n >= 2 && message.get_char(0) == '"' && message.get_char(n - 1) == '"' {
                Some(message.substring_char(1, n - 1).to_owned())
            } else {
                None
            }
        },
        CookieKind::Session => {
            let f = split_fields(message, '"');
            if f.len() > 7 {
                assert(views(f@)[7] == f@[7]@);
                Some(f[7].clone())
            } else {
                None
            }
        },
        CookieKind::Unknown => None,
    }
}

/// Why a cookie failed the check.
#[derive(Clone, Copy, Debug, PartialEq, Eq, Structural)]
pub enum CheckError {
    /// The `Set-Cookie` header has no name and value.
    MalformedHeader,
    /// The cookie could not be read.
    Cookie(CookieError),
    /// The cookie's name is none of the known ones.
    UnknownCookie,
    /// The message does not hold a canary where the cookie's kind puts it.
    NoCanary,
    /// The message holds another value than the canary.
    Mismatch,
}

/// What checking the `Set-Cookie` header `header` of the release written `rails_version`
/// against `canary` gives, the release running with `secret`.
pub open spec fn check_outcome(
    canary: Seq<char>,
    secret: Seq<char>,
    rails_version: Seq<char>,
    header: Seq<char>,
) -> Result<(), CheckError> {
    match cookie_pair(header) {
        None => Err(CheckError::MalformedHeader),
        Some(pair) => match decipher_outcome(secret, rails_version, pair.1) {
            Err(e) => Err(CheckError::Cookie(e)),
            Ok(message) => match kind_of(pair.0) {
                CookieKind::Unknown => Err(CheckError::UnknownCookie),
                kind => match canary_in(kind, message) {
                    None => Err(CheckError::NoCanary),
                    Some(found) => if found == canary {
                        Ok(())
                    } else {
                        Err(CheckError::Mismatch)
                    },
                },
            },
        },
    }
}

/// A cookie named `encrypted` whose deciphered message is the canary between quotes passes
/// the check, whatever the release and its family.
pub proof fn lemma_quoted_canary_passes(
    canary: Seq<char>,
    secret: Seq<char>,
    rails_version: Seq<char>,
    header: Seq<char>,
)
    requires
        cookie_pair(header) is Some,
        cookie_pair(header).unwrap().0 == "encrypted"@,
        decipher_outcome(secret, rails_version, cookie_pair(header).unwrap().1) == Ok::<
            Seq<char>,
            CookieError,
        >(seq!['"'] + canary + seq!['"']),
    ensures
        check_outcome(canary, secret, rails_version, header) == Ok::<(), CheckError>(()),
{
    let m = seq!['"'] + canary + seq!['"'];
    assert(m.subrange(1, m.len() - 1) =~= canary);
}

/// Checks that the cookie a release sent carries the canary: reads the header, deciphers
/// the value and finds the canary where the cookie's kind puts it.
pub fn check_cookie(canary: &str, secret: &str, rails_version: &str, header: &str) -> (r: Result<
    (),
    CheckError,
>)
    ensures
        r == check_outcome(canary@, secret@, rails_version@, header@),
{
    let (name, value) = match parse_set_cookie(header) {
        Some(p) => p,
        None => return Err(CheckError::MalformedHeader),
    };
    let message = match decipher_cookie(secret, rails_version, value.as_str()) {
        Ok(m) => m,
        Err(e) => return Err(CheckError::Cookie(e)),
    };
    let kind = cookie_kind(name.as_str());
    if kind == CookieKind::Unknown {
        return Err(CheckError::UnknownCookie);
    }
    match extract_canary(kind, message.as_str()) {
        None => Err(CheckError::NoCanary),
        Some(found) => if found == canary.to_owned() {
            Ok(())
        } else {
            Err(CheckError::Mismatch)
        },
    }
}

} // verus!
