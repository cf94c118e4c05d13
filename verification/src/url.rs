//! Web addresses, taken apart.
use vstd::prelude::*;
use vstd::utf8::*;

use crate::text::{opt_text, same_text};

verus! {

/// The parts of an address that rules look at.
pub struct UrlParts {
    pub scheme: String,
    pub host: Option<String>,
    pub username: String,
    pub has_password: bool,
    pub has_query: bool,
    pub has_fragment: bool,
    pub path: String,
    pub text: String,
}

/// The parts of an address as plain values.
pub struct Address {
    pub scheme: Seq<char>,
    pub host: Option<Seq<char>>,
    pub username: Seq<char>,
    pub has_password: bool,
    pub has_query: bool,
    pub has_fragment: bool,
    pub path: Seq<char>,
    pub text: Seq<char>,
}

impl View for UrlParts {
    type V = Address;

    open spec fn view(&self) -> Address {
        Address {
            scheme: self.scheme@,
            host: opt_text(self.host),
            username: self.username@,
            has_password: self.has_password,
            has_query: self.has_query,
            has_fragment: self.has_fragment,
            path: self.path@,
            text: self.text@,
        }
    }
}

pub open spec fn opt_address(parts: Option<UrlParts>) -> Option<Address> {
    match parts {
        Some(p) => Some(p@),
        None => None,
    }
}

/// The address that a text stands for, by the URL standard. `None` where it is none.
pub uninterp spec fn address_of(text: Seq<char>) -> Option<Address>;

/// Calls `reqwest::Url::parse` and takes the result apart.
#[verifier::external_body]
pub(crate) fn parse_url(text: &str) -> (parts: Option<UrlParts>)
    ensures
        opt_address(parts) == address_of(text@),
{
    reqwest::Url::parse(text).ok().map(|url| UrlParts {
        scheme: url.scheme().to_owned(),
        host: url.host_str().map(str::to_owned),
        username: url.username().to_owned(),
        has_password: url.password().is_some(),
        has_query: url.query().is_some(),
        has_fragment: url.fragment().is_some(),
        path: url.path().to_owned(),
        text: url.as_str().to_owned(),
    })
}

/// Calls `String::from_utf8`, which takes the bytes of a UTF-8 text and fails on any
/// others.
#[verifier::external_body]
pub(crate) fn utf8_text(bytes: Vec<u8>) -> (text: Option<String>)
    ensures
        match text {
            Some(t) => encode_utf8(t@) == bytes@,
            None => !valid_utf8(bytes@),
        },
{
    String::from_utf8(bytes).ok()
}

/// A name of the machine itself.
pub open spec fn loopback(host: Option<Seq<char>>) -> bool {
    host == Some("127.0.0.1"@) || host == Some("localhost"@) || host == Some("[::1]"@)
}

/// An address that nobody else can listen in on.
pub open spec fn protected(a: Address) -> bool {
    a.scheme == "https"@ || (a.scheme == "http"@ && loopback(a.host))
}

impl UrlParts {
    pub fn is_protected(&self) -> (yes: bool)
        ensures
            yes == protected(self@),
    {
        if same_text(self.scheme.as_str(), "https") {
            return true;
        }
        let local = match &self.host {
            Some(host) => same_text(host.as_str(), "127.0.0.1") || same_text(
                host.as_str(),
                "localhost",
            ) || same_text(host.as_str(), "[::1]"),
            None => false,
        };
        local && same_text(self.scheme.as_str(), "http")
    }
}

/// An address is protected by its scheme, or because it stays on the same machine.
pub proof fn law_what_is_protected(a: Address)
    ensures
        protected(a) <==> a.scheme == "https"@ || (a.scheme == "http"@ && (a.host == Some(
            "127.0.0.1"@,
        ) || a.host == Some("localhost"@) || a.host == Some("[::1]"@))),
{
}

} // verus!
