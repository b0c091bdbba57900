//! Web addresses: those that may be shown at all, and those held to the
//! sites of one service.

pub mod constraints;

use self::constraints::ConstrainedUrl;
use crate::payload::{column_text, json_text, BadColumnType, ColumnValue, JsonValue};
use crate::text::same_name;
use std::marker::PhantomData;
use vstd::prelude::*;

verus! {

/// What the library reads of a parsed address.
#[derive(Debug, PartialEq, Eq, Hash)]
pub struct UrlParts {
    /// The whole address, as it is written once parsed.
    pub text: String,
    pub scheme: String,
    /// The user name, empty where the address has none.
    pub username: String,
    pub password: Option<String>,
    /// The address has no hierarchy, as `mailto:` addresses have none.
    pub cannot_be_a_base: bool,
    /// The host, where it is a domain name and no IP address.
    pub domain: Option<String>,
}

/// The parts of an address as mathematical values.
pub struct UrlPartsView {
    pub text: Seq<char>,
    pub scheme: Seq<char>,
    pub username: Seq<char>,
    pub password: Option<Seq<char>>,
    pub cannot_be_a_base: bool,
    pub domain: Option<Seq<char>>,
}

/// The text as a mathematical value, where there is one.
pub open spec fn text_view(text: Option<String>) -> Option<Seq<char>> {
    match text {
        Some(s) => Some(s@),
        None => None,
    }
}

impl View for UrlParts {
    type V = UrlPartsView;

    open spec fn view(&self) -> UrlPartsView {
        UrlPartsView {
            text: self.text@,
            scheme: self.scheme@,
            username: self.username@,
            password: text_view(self.password),
            cannot_be_a_base: self.cannot_be_a_base,
            domain: text_view(self.domain),
        }
    }
}

/// The parts as a mathematical value, where there are any.
pub open spec fn parts_view(parts: Option<UrlParts>) -> Option<UrlPartsView> {
    match parts {
        Some(p) => Some(p@),
        None => None,
    }
}

fn clone_text(text: &Option<String>) -> (copy: Option<String>)
    ensures
        text_view(copy) == text_view(*text),
{
    match text {
        Some(s) => Some(s.clone()),
        None => None,
    }
}

impl Clone for UrlParts {
    fn clone(&self) -> (parts: UrlParts)
        ensures
            parts@ == self@,
    {
        UrlParts {
            text: self.text.clone(),
            scheme: self.scheme.clone(),
            username: self.username.clone(),
            password: clone_text(&self.password),
            cannot_be_a_base: self.cannot_be_a_base,
            domain: clone_text(&self.domain),
        }
    }
}

/// What `Url::parse` makes of `input`: the parts of the address it returns,
/// or nothing where it returns an error.
pub uninterp spec fn url_parts_of(input: Seq<char>) -> Option<UrlPartsView>;

/// `Url::parse` of the crate `url`, with the address it returns taken apart
/// by `as_str`, `scheme`, `username`, `password`, `cannot_be_a_base` and
/// `domain`. Trusted: whether an input parses, and into what, depends on the
/// input alone.
#[verifier::external_body]
pub(crate) fn parse_url(input: &str) -> (parts: Option<UrlParts>)
    ensures
        parts_view(parts) == url_parts_of(input@),
{
    match ::url::Url::parse(input) {
        Ok(u) => Some(
            UrlParts {
                text: u.as_str().to_string(),
                scheme: u.scheme().to_string(),
                username: u.username().to_string(),
                password: u.password().map(str::to_string),
                cannot_be_a_base: u.cannot_be_a_base(),
                domain: u.domain().map(str::to_string),
            },
        ),
        Err(_) => None,
    }
}

/// The address may be shown: it is an `http` or `https` address with a
/// domain name for its host, and without user name or password.
pub open spec fn valid_url(url: UrlPartsView) -> bool {
    &&& url.scheme == "http"@ || url.scheme == "https"@
    &&& url.username == ""@
    &&& url.password is None
    &&& !url.cannot_be_a_base
    &&& url.domain is Some
}

/// Whether the address may be shown.
pub fn is_valid_url(url: &UrlParts) -> (valid: bool)
    ensures
        valid == valid_url(url@),
{
    (same_name(url.scheme.as_str(), "http") || same_name(url.scheme.as_str(), "https"))
        && same_name(url.username.as_str(), "") && url.password.is_none()
        && !url.cannot_be_a_base && url.domain.is_some()
}

/// Why an address was turned down.
#[derive(Debug, PartialEq, Eq, Clone, Copy)]
pub enum UrlError {
    /// The text is no address.
    Unparsable,
    /// The text is an address, but not one that is accepted here.
    Invalid,
}

/// An address that may be shown.
#[derive(Debug, PartialEq, Eq, Hash)]
pub struct DiscordUrl(pub UrlParts);

impl View for DiscordUrl {
    type V = UrlPartsView;

    open spec fn view(&self) -> UrlPartsView {
        self.0@
    }
}

/// What an address that was parsed comes to: itself if it may be shown.
pub open spec fn checked_url(parts: Option<UrlPartsView>) -> Result<UrlPartsView, UrlError> {
    match parts {
        None => Err(UrlError::Unparsable),
        Some(url) => if valid_url(url) {
            Ok(url)
        } else {
            Err(UrlError::Invalid)
        },
    }
}

/// What the address of a request comes to: that of a JSON string, if it
/// parses and may be shown. No value, or a value that is no string, is
/// turned down as invalid.
pub open spec fn parsed_url(value: Option<JsonValue>) -> Result<UrlPartsView, UrlError> {
    match value {
        None => Err(UrlError::Invalid),
        Some(v) => match json_text(v) {
            None => Err(UrlError::Invalid),
            Some(text) => checked_url(url_parts_of(text)),
        },
    }
}

/// What the address of a storage column comes to: that of a text column, if
/// it parses and may be shown, and nothing else.
pub open spec fn stored_url(value: ColumnValue) -> Option<UrlPartsView> {
    match column_text(value) {
        None => None,
        Some(text) => match checked_url(url_parts_of(text)) {
            Ok(url) => Some(url),
            Err(_) => None,
        },
    }
}

impl DiscordUrl {
    /// The address that was parsed, if it may be shown.
    pub fn from_parsed(parts: Option<UrlParts>) -> (url: Result<DiscordUrl, UrlError>)
        ensures
            match url {
                Ok(u) => checked_url(parts_view(parts)) == Ok::<UrlPartsView, UrlError>(u@),
                Err(e) => checked_url(parts_view(parts)) == Err::<UrlPartsView, UrlError>(e),
            },
    {
        match parts {
            None => Err(UrlError::Unparsable),
            Some(p) => if is_valid_url(&p) {
                Ok(DiscordUrl(p))
            } else {
                Err(UrlError::Invalid)
            },
        }
    }

    /// The address that `s` spells, if it may be shown.
    pub fn from_str(s: &str) -> (url: Result<DiscordUrl, UrlError>)
        ensures
            match url {
                Ok(u) => checked_url(url_parts_of(s@)) == Ok::<UrlPartsView, UrlError>(u@),
                Err(e) => checked_url(url_parts_of(s@)) == Err::<UrlPartsView, UrlError>(e),
            },
    {
        DiscordUrl::from_parsed(parse_url(s))
    }

    /// The address of a request.
    pub fn parse_from_json(value: Option<JsonValue>) -> (url: Result<DiscordUrl, UrlError>)
        ensures
            match url {
                Ok(u) => parsed_url(value) == Ok::<UrlPartsView, UrlError>(u@),
                Err(e) => parsed_url(value) == Err::<UrlPartsView, UrlError>(e),
            },
    {
        match &value {
            Some(v) => match v.as_str() {
                Some(text) => DiscordUrl::from_str(text),
                None => Err(UrlError::Invalid),
            },
            None => Err(UrlError::Invalid),
        }
    }

    /// The address of a storage column.
    pub fn from_cql(value: &ColumnValue) -> (url: Result<DiscordUrl, BadColumnType>)
        ensures
            match url {
                Ok(u) => stored_url(*value) == Some(u@),
                Err(_) => stored_url(*value) is None,
            },
    {
        match value.as_text() {
            Some(text) => match DiscordUrl::from_str(text.as_str()) {
                Ok(url) => Ok(url),
                Err(_) => Err(BadColumnType),
            },
            None => Err(BadColumnType),
        }
    }

    /// The address as text.
    pub fn as_str(&self) -> (text: &str)
        ensures
            text@ == self@.text,
    {
        self.0.text.as_str()
    }

    /// The domain name of the host, if the host is one.
    pub fn domain(&self) -> (name: Option<&str>)
        ensures
            match name {
                Some(d) => self@.domain == Some(d@),
                None => self@.domain is None,
            },
    {
        match &self.0.domain {
            Some(d) => Some(d.as_str()),
            None => None,
        }
    }

    /// The JSON string of the address.
    pub fn to_json(&self) -> (value: JsonValue)
        ensures
            json_text(value) == Some(self@.text),
    {
        JsonValue::Text(self.0.text.clone())
    }
}

impl Default for DiscordUrl {
    /// The address `https://discordlist.gg/`.
    fn default() -> (url: DiscordUrl)
        ensures
            url@.text == "https://discordlist.gg/"@,
            url@.domain == Some("discordlist.gg"@),
            valid_url(url@),
    {
        DiscordUrl(
            UrlParts {
                text: "https://discordlist.gg/".to_owned(),
                scheme: "https".to_owned(),
                username: "".to_owned(),
                password: None,
                cannot_be_a_base: false,
                domain: Some("discordlist.gg".to_owned()),
            },
        )
    }
}

impl Clone for DiscordUrl {
    fn clone(&self) -> (url: DiscordUrl)
        ensures
            url@ == self@,
    {
        DiscordUrl(self.0.clone())
    }
}

/// An address that may be shown and that the constraint `T` admits.
#[derive(Debug, PartialEq, Eq, Hash)]
pub struct ConstrainedDiscordUrl<T: ConstrainedUrl>(pub DiscordUrl, PhantomData<T>);

impl<T: ConstrainedUrl> View for ConstrainedDiscordUrl<T> {
    type V = UrlPartsView;

    closed spec fn view(&self) -> UrlPartsView {
        self.0@
    }
}

/// What an address that was checked comes to under the constraint `T`:
/// itself if `T` admits it.
pub open spec fn constrained<T: ConstrainedUrl>(url: Result<UrlPartsView, UrlError>) -> Result<
    UrlPartsView,
    UrlError,
> {
    match url {
        Ok(u) => if T::admits(u) {
            Ok(u)
        } else {
            Err(UrlError::Invalid)
        },
        Err(e) => Err(e),
    }
}

impl<T: ConstrainedUrl> ConstrainedDiscordUrl<T> {
    /// The address held.
    pub fn url(&self) -> (url: &DiscordUrl)
        ensures
            url@ == self@,
    {
        &self.0
    }

    /// The address, taken to meet the constraint without a check.
    pub fn from(v: DiscordUrl) -> (url: Self)
        ensures
            url@ == v@,
    {
        ConstrainedDiscordUrl(v, PhantomData)
    }

    /// The address, if the constraint admits it.
    pub fn constrain(v: Result<DiscordUrl, UrlError>) -> (url: Result<Self, UrlError>)
        ensures
            match url {
                Ok(u) => constrained::<T>(url_result_view(v)) == Ok::<UrlPartsView, UrlError>(u@),
                Err(e) => constrained::<T>(url_result_view(v)) == Err::<UrlPartsView, UrlError>(
                    e,
                ),
            },
    {
        match v {
            Ok(u) => if T::is_valid(&u) {
                Ok(ConstrainedDiscordUrl(u, PhantomData))
            } else {
                Err(UrlError::Invalid)
            },
            Err(e) => Err(e),
        }
    }

    /// The address that `s` spells, if it may be shown and the constraint
    /// admits it.
    pub fn from_str(s: &str) -> (url: Result<Self, UrlError>)
        ensures
            match url {
                Ok(u) => constrained::<T>(checked_url(url_parts_of(s@))) == Ok::<
                    UrlPartsView,
                    UrlError,
                >(u@),
                Err(e) => constrained::<T>(checked_url(url_parts_of(s@))) == Err::<
                    UrlPartsView,
                    UrlError,
                >(e),
            },
    {
        Self::constrain(DiscordUrl::from_str(s))
    }

    /// The address of a request, if the constraint admits it.
    pub fn parse_from_json(value: Option<JsonValue>) -> (url: Result<Self, UrlError>)
        ensures
            match url {
                Ok(u) => constrained::<T>(parsed_url(value)) == Ok::<UrlPartsView, UrlError>(u@),
                Err(e) => constrained::<T>(parsed_url(value)) == Err::<UrlPartsView, UrlError>(e),
            },
    {
        Self::constrain(DiscordUrl::parse_from_json(value))
    }

    /// The address of a storage column, if the constraint admits it.
    pub fn from_cql(value: &ColumnValue) -> (url: Result<Self, BadColumnType>)
        ensures
            match url {
                Ok(u) => stored_url(*value) == Some(u@) && T::admits(u@),
                Err(_) => match stored_url(*value) {
                    Some(u) => !T::admits(u),
                    None => true,
                },
            },
    {
        match DiscordUrl::from_cql(value) {
            Ok(u) => if T::is_valid(&u) {
                Ok(ConstrainedDiscordUrl(u, PhantomData))
            } else {
                Err(BadColumnType)
            },
            Err(e) => Err(e),
        }
    }

    /// The JSON string of the address.
    pub fn to_json(&self) -> (value: JsonValue)
        ensures
            json_text(value) == Some(self@.text),
    {
        self.0.to_json()
    }
}

/// The address that was checked as a mathematical value, or why it was
/// turned down.
pub open spec fn url_result_view(url: Result<DiscordUrl, UrlError>) -> Result<
    UrlPartsView,
    UrlError,
> {
    match url {
        Ok(u) => Ok(u@),
        Err(e) => Err(e),
    }
}

impl<T: ConstrainedUrl> Clone for ConstrainedDiscordUrl<T> {
    fn clone(&self) -> (url: Self)
        ensures
            url@ == self@,
    {
        ConstrainedDiscordUrl(self.0.clone(), PhantomData)
    }
}

} // verus!
