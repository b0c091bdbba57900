//! Invitations to a Discord server, which are addresses.

use crate::payload::{column_text, json_text, BadColumnType, ColumnValue, JsonValue};
use crate::text::starts_with;
use crate::types::url::{parse_url, url_parts_of, UrlParts, UrlPartsView};
use vstd::prelude::*;
use vstd::string::StringExecFns;

verus! {

/// An invitation: the address that it leads to.
#[derive(Debug, PartialEq, Eq, Hash)]
pub struct DiscordInvite(pub UrlParts);

impl View for DiscordInvite {
    type V = UrlPartsView;

    open spec fn view(&self) -> UrlPartsView {
        self.0@
    }
}

/// Why an invitation was turned down.
#[derive(Debug, PartialEq, Eq, Clone, Copy)]
pub enum InviteError {
    /// No value was given, or one that is no text.
    Invalid,
    /// The text does not begin as an invitation does.
    WrongPrefix,
    /// The text is no address.
    Unparsable,
}

/// The address that the text of an invitation stands for: with `https://`
/// put in front where the text begins with `discord.gg`, as it is where it
/// begins with `https://discord.gg` or `https://discord.com`, and none
/// where it begins otherwise.
pub open spec fn invite_address(text: Seq<char>) -> Option<Seq<char>> {
    if "discord.gg"@.is_prefix_of(text) {
        Some("https://"@ + text)
    } else if "https://discord.gg"@.is_prefix_of(text) || "https://discord.com"@.is_prefix_of(
        text,
    ) {
        Some(text)
    } else {
        None
    }
}

/// The address that the text of an invitation stands for.
pub fn address_of_invite(text: &str) -> (address: Option<String>)
    ensures
        match address {
            Some(a) => invite_address(text@) == Some(a@),
            None => invite_address(text@) is None,
        },
{
    if starts_with(text, "discord.gg") {
        Some(String::from_str("https://").concat(text))
    } else if starts_with(text, "https://discord.gg") || starts_with(text, "https://discord.com") {
        Some(text.to_owned())
    } else {
        None
    }
}

/// What the invitation of a request comes to: the address that the text of
/// a JSON string stands for, if it has the beginning of an invitation and
/// parses.
pub open spec fn parsed_invite(value: Option<JsonValue>) -> Result<UrlPartsView, InviteError> {
    match value {
        None => Err(InviteError::Invalid),
        Some(v) => match json_text(v) {
            None => Err(InviteError::Invalid),
            Some(text) => match invite_address(text) {
                None => Err(InviteError::WrongPrefix),
                Some(address) => match url_parts_of(address) {
                    Some(url) => Ok(url),
                    None => Err(InviteError::Unparsable),
                },
            },
        },
    }
}

/// What the invitation of a storage column comes to: the address of a text
/// column, if it parses, and nothing else.
pub open spec fn stored_invite(value: ColumnValue) -> Option<UrlPartsView> {
    match column_text(value) {
        None => None,
        Some(text) => url_parts_of(text),
    }
}

impl DiscordInvite {
    /// The invitation that `s` spells: any text that is an address.
    pub fn from_str(s: &str) -> (invite: Result<DiscordInvite, InviteError>)
        ensures
            match invite {
                Ok(i) => url_parts_of(s@) == Some(i@),
                Err(e) => url_parts_of(s@) is None && e == InviteError::Unparsable,
            },
    {
        match parse_url(s) {
            Some(parts) => Ok(DiscordInvite(parts)),
            None => Err(InviteError::Unparsable),
        }
    }

    /// The invitation of a request.
    pub fn parse_from_json(value: Option<JsonValue>) -> (invite: Result<
        DiscordInvite,
        InviteError,
    >)
        ensures
            match invite {
                Ok(i) => parsed_invite(value) == Ok::<UrlPartsView, InviteError>(i@),
                Err(e) => parsed_invite(value) == Err::<UrlPartsView, InviteError>(e),
            },
    {
        match &value {
            None => Err(InviteError::Invalid),
            Some(v) => match v.as_str() {
                None => Err(InviteError::Invalid),
                Some(text) => match address_of_invite(text) {
                    None => Err(InviteError::WrongPrefix),
                    Some(address) => DiscordInvite::from_str(address.as_str()),
                },
            },
        }
    }

    /// The invitation of a storage column.
    pub fn from_cql(value: &ColumnValue) -> (invite: Result<DiscordInvite, BadColumnType>)
        ensures
            match invite {
                Ok(i) => stored_invite(*value) == Some(i@),
                Err(_) => stored_invite(*value) is None,
            },
    {
        match value.as_text() {
            Some(text) => match DiscordInvite::from_str(text.as_str()) {
                Ok(invite) => Ok(invite),
                Err(_) => Err(BadColumnType),
            },
            None => Err(BadColumnType),
        }
    }

    /// The address as text.
    pub fn as_str(&self) -> (text: &str)
        ensures
            text@ == self@.text,
    {
        self.0.text.as_str()
    }

    /// The JSON string of the address.
    pub fn to_json(&self) -> (value: JsonValue)
        ensures
            json_text(value) == Some(self@.text),
    {
        JsonValue::Text(self.0.text.clone())
    }
}

impl Default for DiscordInvite {
    /// The address `https://discordlist.gg/`.
    fn default() -> (invite: DiscordInvite)
        ensures
            invite@.text == "https://discordlist.gg/"@,
            invite@.domain == Some("discordlist.gg"@),
    {
        DiscordInvite(
            UrlParts {
                text: "https://discordlist.gg/".to_owned(),
                scheme: "https".to_owned(),
                username: "".to_owned(),
                password: None,
                cannot_be_a_base: false,
                domain: Some("discordlist.gg".to_owned()),
            },
        )
    }
}

impl Clone for DiscordInvite {
    fn clone(&self) -> (invite: DiscordInvite)
        ensures
            invite@ == self@,
    {
        DiscordInvite(self.0.clone())
    }
}

} // verus!
