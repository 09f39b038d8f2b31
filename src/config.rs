use vstd::prelude::*;
use crate::text::{chars_of, push_all, to_string};

verus! {

/// Where the trading workstation listens.
#[derive(Clone, Debug)]
pub struct TWSConfig {
    pub host: String,
    pub port: u16,
    pub client_id: i32,
}

impl Default for TWSConfig {
    /// The local paper-trading workstation (the live one listens on 7496).
    fn default() -> (r: Self)
        ensures
            r.host@ == "127.0.0.1"@,
            r.port == 7497,
            r.client_id == 42,
    {
        TWSConfig { host: to_string(&chars_of("127.0.0.1")), port: 7497, client_id: 42 }
    }
}

/// The user name and password of the gateway account.
pub struct IBCredentials {
    pub username: String,
    pub password: String,
}

/// The standard padded base64 encoding of a text's UTF-8 bytes.
pub uninterp spec fn base64_of(text: Seq<char>) -> Seq<char>;

/// Relies on base64's `STANDARD` engine `encode`: the padded standard-alphabet encoding of
/// the text's UTF-8 bytes, which depends on the text alone.
#[verifier::external_body]
fn base64_encode(text: &str) -> (r: String)
    ensures
        r@ == base64_of(text@),
{
    base64::Engine::encode(&base64::engine::general_purpose::STANDARD, text)
}

/// The value of a basic authorization header for already encoded credentials.
pub fn basic_auth_value(encoded: &str) -> (r: String)
    ensures
        r@ == "Basic "@ + encoded@,
{
    let mut out = chars_of("Basic ");
    push_all(&mut out, &chars_of(encoded));
    to_string(&out)
}

impl IBCredentials {
    /// `username:password`, the text that basic authorization encodes.
    pub fn credentials_text(&self) -> (r: String)
        ensures
            r@ == self.username@ + ":"@ + self.password@,
    {
        let mut out = chars_of(self.username.as_str());
        push_all(&mut out, &chars_of(":"));
        push_all(&mut out, &chars_of(self.password.as_str()));
        to_string(&out)
    }

    /// The basic authorization header value: `Basic ` and the base64 of `username:password`.
    pub fn to_basic_auth_header(&self) -> (r: String)
        ensures
            r@ == "Basic "@ + base64_of(self.username@ + ":"@ + self.password@),
    {
        let text = self.credentials_text();
        let encoded = base64_encode(text.as_str());
        basic_auth_value(encoded.as_str())
    }
}

} // verus!
