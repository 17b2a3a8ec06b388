//! Authentication in front of the administrative operations: reads
//! the credentials of a basic-authorisation header and holds them against the
//! configured administrator.

use crate::settings::Auth;
use crate::text::{same_text, text_from_utf8};
use vstd::prelude::*;
use vstd::string::StringExecFns;
use vstd::utf8::{decode_utf8, valid_utf8};

verus! {

/// A user name and password, as presented or as configured.
#[derive(Debug)]
pub struct AdminUser {
    pub username: String,
    pub password: String,
}

impl View for AdminUser {
    type V = (Seq<char>, Seq<char>);

    open spec fn view(&self) -> (Seq<char>, Seq<char>) {
        (self.username@, self.password@)
    }
}

/// Holds the configured administrator's credentials.
#[derive(Debug)]
pub struct BasicAuthorizer {
    username: String,
    password: String,
}

impl View for BasicAuthorizer {
    type V = (Seq<char>, Seq<char>);

    closed spec fn view(&self) -> (Seq<char>, Seq<char>) {
        (self.username@, self.password@)
    }
}

/// What becomes of a request that asks for an administrative operation.
#[derive(Debug)]
pub enum AuthOutcome {
    /// The credentials are the administrator's.
    Granted(AdminUser),
    /// The credentials are well-formed but not the administrator's.
    Rejected,
    /// The header is missing or does not hold credentials.
    Malformed,
    /// No administrator is configured, so nothing can be checked.
    Unavailable,
}

/// The bytes that the standard base64 alphabet with padding decodes `token`
/// to, or `None` where the decoder refuses it.
pub uninterp spec fn base64_decoded(token: Seq<char>) -> Option<Seq<u8>>;

/// Decodes a token with `base64`'s `STANDARD` engine. Nothing is claimed of
/// the outcome beyond its name: the same token decodes to the same bytes,
/// and a token that the decoder refuses gives `None`.
#[verifier::external_body]
fn decode_base64(token: &str) -> (bytes: Option<Vec<u8>>)
    ensures
        match bytes {
            Some(decoded) => base64_decoded(token@) == Some(decoded@),
            None => base64_decoded(token@) is None,
        },
{
    base64::Engine::decode(&base64::engine::general_purpose::STANDARD, token).ok()
}

/// The scheme prefix of a basic-authorisation header.
pub open spec fn scheme() -> Seq<char> {
    "Basic "@
}

/// What follows the scheme prefix in a header, if the header starts with it.
pub open spec fn payload_spec(header: Seq<char>) -> Option<Seq<char>> {
    if header.len() >= scheme().len() && header.subrange(0, scheme().len() as int) == scheme() {
        Some(header.subrange(scheme().len() as int, header.len() as int))
    } else {
        None
    }
}

/// The text has a colon at `i` and nowhere else.
pub open spec fn only_colon_at(text: Seq<char>, i: int) -> bool {
    &&& 0 <= i < text.len()
    &&& text[i] == ':'
    &&& forall|j: int| 0 <= j < text.len() && j != i ==> text[j] != ':'
}

/// The user name and password of a credentials text: what stands before and
/// after its colon, provided it has exactly one.
pub open spec fn credentials_spec(text: Seq<char>) -> Option<(Seq<char>, Seq<char>)> {
    if exists|i: int| only_colon_at(text, i) {
        let i = choose|i: int| only_colon_at(text, i);
        Some((text.subrange(0, i), text.subrange(i + 1, text.len() as int)))
    } else {
        None
    }
}

/// The credentials that decoded bytes hold: they must be UTF-8 text with
/// exactly one colon.
pub open spec fn credentials_of_bytes(bytes: Seq<u8>) -> Option<(Seq<char>, Seq<char>)> {
    if valid_utf8(bytes) {
        credentials_spec(decode_utf8(bytes))
    } else {
        None
    }
}

/// The credentials that a token holds.
pub open spec fn token_spec(token: Seq<char>) -> Option<(Seq<char>, Seq<char>)> {
    match base64_decoded(token) {
        Some(bytes) => credentials_of_bytes(bytes),
        None => None,
    }
}

/// The credentials that a request presents in its authorisation header.
pub open spec fn presented(header: Option<Seq<char>>) -> Option<(Seq<char>, Seq<char>)> {
    match header {
        Some(text) => match payload_spec(text) {
            Some(token) => token_spec(token),
            None => None,
        },
        None => None,
    }
}

/// The view of optional credentials.
pub open spec fn user_view(user: Option<AdminUser>) -> Option<(Seq<char>, Seq<char>)> {
    match user {
        Some(u) => Some(u@),
        None => None,
    }
}

/// Returns what follows `Basic ` in a header that starts with it.
pub fn extract_payload_from_header(header: &str) -> (payload: Option<&str>)
    ensures
        match payload {
            Some(token) => payload_spec(header@) == Some(token@),
            None => payload_spec(header@) is None,
        },
{
    proof {
        reveal_strlit("Basic ");
    }
    let n = header.unicode_len();
    if n < 6 {
        return None;
    }
    if header.get_char(0) == 'B' && header.get_char(1) == 'a' && header.get_char(2) == 's'
        && header.get_char(3) == 'i' && header.get_char(4) == 'c' && header.get_char(5) == ' ' {
        assert(header@.subrange(0, 6) =~= scheme());
        Some(header.substring_char(6, n))
    } else {
        assert(header@.subrange(0, 6)[0] == header@[0]);
        assert(header@.subrange(0, 6)[1] == header@[1]);
        assert(header@.subrange(0, 6)[2] == header@[2]);
        assert(header@.subrange(0, 6)[3] == header@[3]);
        assert(header@.subrange(0, 6)[4] == header@[4]);
        assert(header@.subrange(0, 6)[5] == header@[5]);
        None
    }
}

/// Splits a credentials text at its colon, provided it has exactly one.
pub fn split_credentials(text: &str) -> (user: Option<AdminUser>)
    ensures
        user_view(user) == credentials_spec(text@),
{
    let n = text.unicode_len();
    let mut first: Option<usize> = None;
    let mut several = false;
    let mut position: usize = 0;
    for c in it: text.chars()
        invariant
            it.seq() == text@,
            n == text@.len(),
            position == it.index(),
            match first {
                Some(i) => i < position && text@[i as int] == ':' && forall|j: int|
                    0 <= j < i ==> text@[j] != ':',
                None => !several && forall|j: int| 0 <= j < position ==> text@[j] != ':',
            },
            first matches Some(i) ==> (several <==> exists|j: int|
                i < j < position && text@[j] == ':'),
    {
        if c == ':' {
            match first {
                None => {
                    first = Some(position);
                },
                Some(_) => {
                    several = true;
                },
            }
        }
        position += 1;
    }
    match first {
        Some(i) => {
            if several {
                proof {
                    let j = choose|j: int| i < j < n && text@[j] == ':';
                    assert forall|k: int| !only_colon_at(text@, k) by {
                        if only_colon_at(text@, k) {
                            if k == i {
                                assert(text@[j] != ':');
                            } else {
                                assert(text@[i as int] != ':');
                            }
                        }
                    }
                }
                None
            } else {
                proof {
                    assert(only_colon_at(text@, i as int));
                    let k = choose|k: int| only_colon_at(text@, k);
                    assert(k == i);
                }
                let username = String::from_str(text.substring_char(0, i));
                let password = String::from_str(text.substring_char(i + 1, n));
                Some(AdminUser { username, password })
            }
        },
        None => {
            assert forall|k: int| !only_colon_at(text@, k) by {}
            None
        },
    }
}

/// Reads decoded bytes as credentials: UTF-8 text with exactly one colon,
/// the user name before it and the password after it.
pub fn credentials_from_bytes(bytes: Vec<u8>) -> (user: Option<AdminUser>)
    ensures
        user_view(user) == credentials_of_bytes(bytes@),
{
    match text_from_utf8(bytes) {
        Some(text) => split_credentials(text.as_str()),
        None => None,
    }
}

/// Decodes the token of a basic-authorisation header into credentials. A
/// token that is not base64, not text, or not of the form `name:password`
/// holds none.
pub fn decode_token(token: &str) -> (user: Option<AdminUser>)
    ensures
        user_view(user) == token_spec(token@),
{
    match decode_base64(token) {
        Some(bytes) => credentials_from_bytes(bytes),
        None => None,
    }
}

/// Reads the credentials that a request presents, from the value of its
/// `authorization` header, if it has one.
pub fn extract_auth_from_request(header: Option<&str>) -> (user: Option<AdminUser>)
    ensures
        user_view(user) == presented(
            match header {
                Some(text) => Some(text@),
                None => None,
            },
        ),
{
    match header {
        Some(text) => match extract_payload_from_header(text) {
            Some(token) => decode_token(token),
            None => None,
        },
        None => None,
    }
}

impl BasicAuthorizer {
    /// An authoriser for the administrator `username` with `password`.
    pub fn new(username: String, password: String) -> (authorizer: BasicAuthorizer)
        ensures
            authorizer@ == (username@, password@),
    {
        BasicAuthorizer { username, password }
    }

    /// The authoriser for the administrator named in the settings.
    pub fn managed(settings: Auth) -> (authorizer: BasicAuthorizer)
        ensures
            authorizer@ == (settings.username@, settings.password@),
    {
        BasicAuthorizer::new(settings.username, settings.password)
    }

    /// Holds presented credentials against the configured ones. Both the
    /// user name and the password must be the same, character for character.
    pub fn authorize(&self, username: &str, password: &str) -> (user: Result<AdminUser, String>)
        ensures
            match user {
                Ok(admin) => (username@, password@) == self@ && admin@ == self@,
                Err(message) => (username@, password@) != self@ && message@
                    == "Invalid credentials"@,
            },
    {
        if same_text(self.username.as_str(), username) && same_text(
            self.password.as_str(),
            password,
        ) {
            Ok(AdminUser { username: self.username.clone(), password: self.password.clone() })
        } else {
            Err(String::from_str("Invalid credentials"))
        }
    }
}

/// Decides on a request from the value of its `authorization` header. A
/// request without readable credentials is malformed whatever is configured;
/// readable credentials are granted exactly when they are the configured
/// ones.
pub fn authenticate(authorizer: Option<&BasicAuthorizer>, header: Option<&str>) -> (outcome:
    AuthOutcome)
    ensures
        match presented(
            match header {
                Some(text) => Some(text@),
                None => None,
            },
        ) {
            None => outcome is Malformed,
            Some(given) => match authorizer {
                None => outcome is Unavailable,
                Some(a) => if given == a@ {
                    outcome matches AuthOutcome::Granted(admin) && admin@ == a@
                } else {
                    outcome is Rejected
                },
            },
        },
{
    match extract_auth_from_request(header) {
        None => AuthOutcome::Malformed,
        Some(user) => match authorizer {
            None => AuthOutcome::Unavailable,
            Some(a) => match a.authorize(user.username.as_str(), user.password.as_str()) {
                Ok(admin) => AuthOutcome::Granted(admin),
                Err(_) => AuthOutcome::Rejected,
            },
        },
    }
}

} // verus!
