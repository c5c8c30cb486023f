//! HTTP Basic authentication between the printer client and the relay: the
//! header the client sends and the server's check of it.
use vstd::prelude::*;
use vstd::string::*;
use vstd::utf8::{decode_utf8, encode_utf8, encode_utf8_decode_utf8, encode_utf8_valid_utf8, valid_utf8};
use base64::Engine;
use crate::text::{chars_of, push_char, string_from_chars};

verus! {

/// The character of a six-bit value in the standard base64 alphabet
/// (RFC 4648: `A`-`Z`, `a`-`z`, `0`-`9`, `+`, `/`).
pub open spec fn base64_char(v: int) -> char {
    if v < 26 {
        (65 + v) as char
    } else if v < 52 {
        (97 + v - 26) as char
    } else if v < 62 {
        (48 + v - 52) as char
    } else if v == 62 {
        '+'
    } else {
        '/'
    }
}

/// The standard base64 encoding (RFC 4648 alphabet, with `=` padding) of
/// `bytes`, as the `base64` crate's `STANDARD` engine writes it: each group
/// of three bytes gives four characters; a last group of one or two bytes
/// gives two or three characters and is padded to four with `=`.
pub open spec fn base64_standard(bytes: Seq<u8>) -> Seq<char>
    decreases bytes.len(),
{
    if bytes.len() == 0 {
        seq![]
    } else if bytes.len() == 1 {
        let b0 = bytes[0] as int;
        seq![base64_char(b0 / 4), base64_char((b0 % 4) * 16), '=', '=']
    } else if bytes.len() == 2 {
        let b0 = bytes[0] as int;
        let b1 = bytes[1] as int;
        seq![
            base64_char(b0 / 4),
            base64_char((b0 % 4) * 16 + b1 / 16),
            base64_char((b1 % 16) * 4),
            '=',
        ]
    } else {
        let b0 = bytes[0] as int;
        let b1 = bytes[1] as int;
        let b2 = bytes[2] as int;
        seq![
            base64_char(b0 / 4),
            base64_char((b0 % 4) * 16 + b1 / 16),
            base64_char((b1 % 16) * 4 + b2 / 64),
            base64_char(b2 % 64),
        ] + base64_standard(bytes.skip(3))
    }
}

/// What the `base64` crate's `STANDARD` engine decodes `text` to, or `None`
/// where it refuses the text.
pub uninterp spec fn base64_standard_decoded(text: Seq<char>) -> Option<Seq<u8>>;

/// Encodes `bytes` with `base64::engine::general_purpose::STANDARD.encode`.
/// Claimed: the result is the standard encoding of the bytes as
/// `base64_standard` writes it out, and the same engine decodes it back to
/// the bytes.
#[verifier::external_body]
fn base64_encode(bytes: &[u8]) -> (encoded: String)
    ensures
        encoded@ == base64_standard(bytes@),
        base64_standard_decoded(encoded@) == Some(bytes@),
{
    base64::engine::general_purpose::STANDARD.encode(bytes)
}

/// Decodes `text` with `base64::engine::general_purpose::STANDARD.decode`,
/// `None` where it returns an error. Claimed: the result is the engine's
/// decoding of the text; and since the engine requires canonical padding and
/// no trailing bits, whatever it decodes encodes back to the same text.
#[verifier::external_body]
fn base64_decode(text: &str) -> (decoded: Option<Vec<u8>>)
    ensures
        match decoded {
            Some(v) => base64_standard_decoded(text@) == Some(v@),
            None => base64_standard_decoded(text@) is None,
        },
        decoded matches Some(v) ==> base64_standard(v@) == text@,
{
    match base64::engine::general_purpose::STANDARD.decode(text) {
        Ok(v) => Some(v),
        Err(_) => None,
    }
}

/// `String::from_utf8`, `None` where it returns an error. Claimed, as std
/// documents it: it succeeds exactly on valid UTF-8, and the string then
/// holds the decoded characters.
#[verifier::external_body]
fn string_from_utf8(bytes: Vec<u8>) -> (s: Option<String>)
    ensures
        s is Some <==> valid_utf8(bytes@),
        s matches Some(s) ==> s@ == decode_utf8(bytes@),
{
    String::from_utf8(bytes).ok()
}

/// The `Authorization` header of a request, as the server sees it.
pub enum AuthorizationField {
    /// The request has no such header.
    Missing,
    /// The header's value is not visible ASCII text.
    NotText,
    /// The header's value.
    Text(String),
}

/// The server's verdict on an `Authorization` header.
#[derive(Clone, Copy, PartialEq, Eq, Debug, Structural)]
pub enum AuthOutcome {
    Authorized,
    MissingHeader,
    InvalidHeaderValue,
    UnsupportedScheme,
    InvalidBase64,
    InvalidUtf8,
    InvalidFormat,
    InvalidCredentials,
}

/// `Basic ` (with the space): the scheme of Basic authentication.
pub open spec fn basic_prefix() -> Seq<char> {
    seq!['B', 'a', 's', 'i', 'c', ' ']
}

/// The user and password of `s`: what stands before and after its first
/// colon (`str::split_once(':')`), `None` without a colon.
pub open spec fn split_at_colon(s: Seq<char>) -> Option<(Seq<char>, Seq<char>)> {
    if exists|i: int| 0 <= i < s.len() && s[i] == ':' && !s.take(i).contains(':') {
        let i = choose|i: int| 0 <= i < s.len() && s[i] == ':' && !s.take(i).contains(':');
        Some((s.take(i), s.skip(i + 1)))
    } else {
        None
    }
}

/// The user and password that the header value `h` presents, or why it
/// presents none.
pub open spec fn header_credentials(h: Seq<char>) -> Result<(Seq<char>, Seq<char>), AuthOutcome> {
    if !(h.len() >= 6 && h.take(6) == basic_prefix()) {
        Err(AuthOutcome::UnsupportedScheme)
    } else {
        match base64_standard_decoded(h.skip(6)) {
            None => Err(AuthOutcome::InvalidBase64),
            Some(bytes) => if !valid_utf8(bytes) {
                Err(AuthOutcome::InvalidUtf8)
            } else {
                match split_at_colon(decode_utf8(bytes)) {
                    None => Err(AuthOutcome::InvalidFormat),
                    Some((u, p)) => Ok((u, p)),
                }
            },
        }
    }
}

/// The user and password that a request's `Authorization` header presents,
/// or why it presents none.
pub open spec fn field_credentials(field: AuthorizationField) -> Result<(Seq<char>, Seq<char>), AuthOutcome> {
    match field {
        AuthorizationField::Missing => Err(AuthOutcome::MissingHeader),
        AuthorizationField::NotText => Err(AuthOutcome::InvalidHeaderValue),
        AuthorizationField::Text(v) => header_credentials(v@),
    }
}

/// The server's verdict on the header value `h` for the expected user and
/// password.
pub open spec fn header_outcome(h: Seq<char>, user: Seq<char>, password: Seq<char>) -> AuthOutcome {
    match header_credentials(h) {
        Err(o) => o,
        Ok((u, p)) => if u == user && p == password {
            AuthOutcome::Authorized
        } else {
            AuthOutcome::InvalidCredentials
        },
    }
}

/// The server's verdict on a request's `Authorization` header.
pub open spec fn auth_outcome(field: AuthorizationField, user: Seq<char>, password: Seq<char>) -> AuthOutcome {
    match field {
        AuthorizationField::Missing => AuthOutcome::MissingHeader,
        AuthorizationField::NotText => AuthOutcome::InvalidHeaderValue,
        AuthorizationField::Text(v) => header_outcome(v@, user, password),
    }
}

/// The header value that Basic authentication sends for `user` and
/// `password`: `Basic ` and the base64 of the UTF-8 of `user:password`.
pub open spec fn basic_auth_header_spec(user: Seq<char>, password: Seq<char>) -> Seq<char> {
    basic_prefix() + base64_standard(encode_utf8(user + seq![':'] + password))
}

proof fn lemma_split_at_colon(u: Seq<char>, p: Seq<char>)
    ensures
        !u.contains(':') ==> split_at_colon(u + seq![':'] + p) == Some((u, p)),
        u.contains(':') ==> split_at_colon(u + seq![':'] + p) != Some((u, p)),
{
    let s = u + seq![':'] + p;
    let k = u.len() as int;
    assert(s[k] == ':');
    assert(s.take(k) =~= u);
    if !u.contains(':') {
        assert(exists|i: int| 0 <= i < s.len() && s[i] == ':' && !s.take(i).contains(':'));
        let i = choose|i: int| 0 <= i < s.len() && s[i] == ':' && !s.take(i).contains(':');
        if i < k {
            assert(u[i] == s[i]);
            assert(u.contains(':'));
        } else if i > k {
            assert(s.take(i)[k] == ':');
            assert(s.take(i).contains(':'));
        }
        assert(s.skip(k + 1) =~= p);
    } else {
        let j = choose|j: int| 0 <= j < u.len() && u[j] == ':';
        if split_at_colon(s) == Some((u, p)) {
            let i = choose|i: int| 0 <= i < s.len() && s[i] == ':' && !s.take(i).contains(':');
            assert(s.take(i) == u);
            assert(s.take(i)[j] == ':');
        }
    }
}

fn basic_prefix_string() -> (s: String)
    ensures
        s@ == basic_prefix(),
{
    let mut s = String::new();
    push_char(&mut s, 'B');
    push_char(&mut s, 'a');
    push_char(&mut s, 's');
    push_char(&mut s, 'i');
    push_char(&mut s, 'c');
    push_char(&mut s, ' ');
    assert(s@ =~= basic_prefix());
    s
}

/// The `Authorization` header value for Basic authentication as `user`
/// with `password`. The server accepts it for exactly these credentials,
/// provided the user name holds no colon (a colon ends the user name).
pub fn basic_auth_header(user: &str, password: &str) -> (header: String)
    ensures
        header@ == basic_auth_header_spec(user@, password@),
        header_outcome(header@, user@, password@) == AuthOutcome::Authorized <==> !user@.contains(':'),
{
    let mut credentials = String::new();
    credentials.append(user);
    push_char(&mut credentials, ':');
    credentials.append(password);
    let ghost creds = user@ + seq![':'] + password@;
    assert(credentials@ =~= creds);
    let encoded = base64_encode(credentials.as_str().as_bytes());
    let mut header = basic_prefix_string();
    header.append(encoded.as_str());
    proof {
        let bytes = encode_utf8(creds);
        assert(header@.take(6) =~= basic_prefix());
        assert(header@.skip(6) =~= encoded@);
        encode_utf8_valid_utf8(creds);
        encode_utf8_decode_utf8(creds);
        lemma_split_at_colon(user@, password@);
        if user@.contains(':') {
            match split_at_colon(creds) {
                Some((u, p)) => {
                    assert(!(u == user@ && p == password@));
                },
                None => {},
            }
        }
    }
    header
}

/// The prefix-free rest of `v` when it starts with `Basic `
/// (`str::strip_prefix("Basic ")`).
fn strip_basic_prefix(v: &str) -> (rest: Option<String>)
    ensures
        match rest {
            Some(r) => v@.len() >= 6 && v@.take(6) == basic_prefix() && r@ == v@.skip(6),
            None => !(v@.len() >= 6 && v@.take(6) == basic_prefix()),
        },
{
    let chars = chars_of(v);
    if chars.len() < 6 {
        return None;
    }
    if chars[0] == 'B' && chars[1] == 'a' && chars[2] == 's' && chars[3] == 'i' && chars[4] == 'c'
        && chars[5] == ' ' {
        assert(v@.take(6) =~= basic_prefix());
        let rest = string_from_chars(&chars, 6, chars.len());
        assert(rest@ =~= v@.skip(6));
        Some(rest)
    } else {
        proof {
            if v@.take(6) == basic_prefix() {
                assert(v@.take(6)[0] == v@[0]);
                assert(v@.take(6)[1] == v@[1]);
                assert(v@.take(6)[2] == v@[2]);
                assert(v@.take(6)[3] == v@[3]);
                assert(v@.take(6)[4] == v@[4]);
                assert(v@.take(6)[5] == v@[5]);
            }
        }
        None
    }
}

/// Splits `s` at its first colon (`str::split_once(':')`).
fn split_once_colon(s: &str) -> (parts: Option<(String, String)>)
    ensures
        match parts {
            Some((u, p)) => split_at_colon(s@) == Some((u@, p@)),
            None => split_at_colon(s@) is None,
        },
{
    let chars = chars_of(s);
    let mut i: usize = 0;
    while i < chars.len()
        invariant
            i <= chars.len(),
            chars@ == s@,
            !s@.take(i as int).contains(':'),
        decreases chars.len() - i,
    {
        if chars[i] == ':' {
            let user = string_from_chars(&chars, 0, i);
            let password = string_from_chars(&chars, i + 1, chars.len());
            proof {
                let k = i as int;
                assert(s@[k] == ':' && !s@.take(k).contains(':'));
                let j = choose|j: int| 0 <= j < s@.len() && s@[j] == ':' && !s@.take(j).contains(':');
                if j < k {
                    assert(s@.take(k)[j] == ':');
                } else if j > k {
                    assert(s@.take(j)[k] == ':');
                }
                assert(user@ =~= s@.take(k));
                assert(password@ =~= s@.skip(k + 1));
            }
            return Some((user, password));
        }
        proof {
            assert forall|j: int| 0 <= j < i + 1 implies #[trigger] s@.take(i + 1)[j] != ':' by {
                if j < i {
                    assert(s@.take(i + 1)[j] == s@.take(i as int)[j]);
                }
            }
        }
        i = i + 1;
    }
    proof {
        assert(s@.take(chars.len() as int) =~= s@);
        if exists|j: int| 0 <= j < s@.len() && s@[j] == ':' && !s@.take(j).contains(':') {
            let j = choose|j: int| 0 <= j < s@.len() && s@[j] == ':' && !s@.take(j).contains(':');
            assert(s@.take(chars.len() as int)[j] == ':');
        }
    }
    None
}

/// The user and password that a request's `Authorization` header presents
/// in Basic authentication, or why it presents none. A header that presents
/// credentials is exactly their Basic header, and the user holds no colon.
pub fn presented_credentials(field: &AuthorizationField) -> (credentials: Result<(String, String), AuthOutcome>)
    ensures
        match credentials {
            Ok((u, p)) => field_credentials(*field) == Ok::<(Seq<char>, Seq<char>), AuthOutcome>((u@, p@)),
            Err(o) => field_credentials(*field) == Err::<(Seq<char>, Seq<char>), AuthOutcome>(o),
        },
        credentials matches Ok((u, p)) ==> (field matches AuthorizationField::Text(v) && v@
            == basic_auth_header_spec(u@, p@) && !u@.contains(':')),
{
    let value = match field {
        AuthorizationField::Missing => {
            return Err(AuthOutcome::MissingHeader);
        },
        AuthorizationField::NotText => {
            return Err(AuthOutcome::InvalidHeaderValue);
        },
        AuthorizationField::Text(v) => v,
    };
    let encoded = match strip_basic_prefix(value.as_str()) {
        Some(e) => e,
        None => {
            return Err(AuthOutcome::UnsupportedScheme);
        },
    };
    let decoded = match base64_decode(encoded.as_str()) {
        Some(d) => d,
        None => {
            return Err(AuthOutcome::InvalidBase64);
        },
    };
    let ghost bytes = decoded@;
    let text = match string_from_utf8(decoded) {
        Some(t) => t,
        None => {
            return Err(AuthOutcome::InvalidUtf8);
        },
    };
    let (user, password) = match split_once_colon(text.as_str()) {
        Some(parts) => parts,
        None => {
            return Err(AuthOutcome::InvalidFormat);
        },
    };
    proof {
        let creds = user@ + seq![':'] + password@;
        let s = text@;
        let k = choose|i: int| 0 <= i < s.len() && s[i] == ':' && !s.take(i).contains(':');
        assert(s =~= s.take(k) + seq![':'] + s.skip(k + 1));
        assert(s =~= creds);
        vstd::utf8::decode_utf8_encode_utf8(bytes);
        assert(value@ =~= basic_prefix() + encoded@);
        assert(!user@.contains(':'));
    }
    Ok((user, password))
}

/// Checks a request's `Authorization` header against the expected
/// credentials and says why it is refused if it is. A header is accepted
/// only if it is exactly the Basic header of the expected credentials.
pub fn check_authorization(field: &AuthorizationField, expected_user: &str, expected_password: &str) -> (outcome: AuthOutcome)
    ensures
        outcome == auth_outcome(*field, expected_user@, expected_password@),
        outcome == AuthOutcome::Authorized ==> (field matches AuthorizationField::Text(v) && v@
            == basic_auth_header_spec(expected_user@, expected_password@) && !expected_user@.contains(':')),
{
    match presented_credentials(field) {
        Err(o) => o,
        Ok((user, password)) => {
            let expected_user_string = expected_user.to_owned();
            let expected_password_string = expected_password.to_owned();
            if user == expected_user_string && password == expected_password_string {
                AuthOutcome::Authorized
            } else {
                AuthOutcome::InvalidCredentials
            }
        },
    }
}

/// Whether a request's `Authorization` header carries exactly the expected
/// credentials in Basic authentication.
pub fn is_authorized(field: &AuthorizationField, expected_user: &str, expected_password: &str) -> (authorized: bool)
    ensures
        authorized == (auth_outcome(*field, expected_user@, expected_password@) == AuthOutcome::Authorized),
        authorized ==> (field matches AuthorizationField::Text(v) && v@ == basic_auth_header_spec(
            expected_user@,
            expected_password@,
        )),
{
    let outcome = check_authorization(field, expected_user, expected_password);
    outcome == AuthOutcome::Authorized
}

} // verus!
