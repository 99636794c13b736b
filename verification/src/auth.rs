//! The bearer token that goes with every request.

use vstd::prelude::*;
use vstd::utf8::*;

verus! {

/// A bearer token. It is never empty, and there is no way to print it by
/// accident.
pub struct BearerToken {
    token: String,
}

impl View for BearerToken {
    type V = Seq<char>;

    closed spec fn view(&self) -> Seq<char> {
        self.token@
    }
}

impl BearerToken {
    /// A token, unless the text is empty.
    pub fn parse(raw: &str) -> (token: Option<Self>)
        ensures
            match token {
                Some(token) => raw@.len() > 0 && token@ == raw@,
                None => raw@.len() == 0,
            },
    {
        if raw.unicode_len() == 0 {
            None
        } else {
            Some(BearerToken { token: raw.to_owned() })
        }
    }

    pub fn as_str(&self) -> (text: &str)
        ensures
            text@ == self@,
    {
        self.token.as_str()
    }
}

/// Whether a byte may stand in the value of a header: a tab, or anything from
/// the space on but the delete character.
pub open spec fn is_header_byte(b: u8) -> bool {
    b == 9 || (b >= 32 && b != 127)
}

/// Whether a text may be the value of a header.
pub open spec fn is_header_text(text: Seq<char>) -> bool {
    let bytes = encode_utf8(text);
    forall|i: int| 0 <= i < bytes.len() ==> is_header_byte(#[trigger] bytes[i])
}

/// The bytes of a header with this value, if there can be one.
///
/// Parsing a `tonic::metadata::MetadataValue` in ASCII encoding takes any text
/// whose bytes may all stand in a header, and holds those bytes.
#[verifier::external_body]
fn header_value(text: &str) -> (value: Option<Vec<u8>>)
    ensures
        match value {
            Some(bytes) => is_header_text(text@) && bytes@ == encode_utf8(text@),
            None => !is_header_text(text@),
        },
{
    let value = text.parse::<tonic::metadata::MetadataValue<tonic::metadata::Ascii>>().ok()?;
    Some(value.as_encoded_bytes().to_vec())
}

/// A token that cannot be sent.
#[derive(Debug, Clone, Copy, PartialEq, Eq, Structural)]
pub struct InvalidToken;

/// What to tell of a token that cannot be sent.
pub fn invalid_token_message() -> (message: &'static str)
    ensures
        message@ == "token contains invalid header characters"@,
{
    "token contains invalid header characters"
}

/// What puts the token into requests.
pub struct BearerAuth {
    /// The value of the `authorization` header; none without a token.
    pub header: Option<Vec<u8>>,
}

/// The text of the `authorization` header for a token.
pub open spec fn authorization(token: Seq<char>) -> Seq<char> {
    "Bearer "@ + token
}

impl BearerAuth {
    /// Makes the header once and for all. Without a token there is none, and
    /// requests stay as they are.
    pub fn new(token: Option<BearerToken>) -> (result: Result<Self, InvalidToken>)
        ensures
            match token {
                None => result matches Ok(auth) && auth.header is None,
                Some(token) => match result {
                    Ok(auth) => {
                        &&& is_header_text(authorization(token@))
                        &&& auth.header matches Some(bytes) && bytes@ == encode_utf8(
                            authorization(token@),
                        )
                    },
                    Err(_) => !is_header_text(authorization(token@)),
                },
            },
    {
        match token {
            None => Ok(BearerAuth { header: None }),
            Some(token) => {
                let mut text: String = "Bearer ".to_owned();
                text.append(token.as_str());
                match header_value(text.as_str()) {
                    Some(bytes) => Ok(BearerAuth { header: Some(bytes) }),
                    None => Err(InvalidToken),
                }
            },
        }
    }
}

/// The header is the word `Bearer`, a space, and the token.
pub proof fn lemma_authorization_carries_the_token(token: Seq<char>)
    ensures
        authorization(token) == seq!['B', 'e', 'a', 'r', 'e', 'r', ' '] + token,
{
    reveal_strlit("Bearer ");
    assert("Bearer "@ =~= seq!['B', 'e', 'a', 'r', 'e', 'r', ' ']);
}

} // verus!
