//! The constraints that hold an address to the sites of one service.

use crate::text::same_name;
use crate::types::url::{DiscordUrl, UrlPartsView};
use vstd::prelude::*;

verus! {

/// The host of the address is the domain name `name`.
pub open spec fn on_domain(url: UrlPartsView, name: Seq<char>) -> bool {
    url.domain == Some(name)
}

/// Whether the host of the address is the domain name `name`.
fn has_domain(url: &DiscordUrl, name: &str) -> (on: bool)
    ensures
        on == on_domain(url@, name@),
{
    match url.domain() {
        Some(d) => same_name(d, name),
        None => false,
    }
}

/// The address is on Twitter.
pub open spec fn twitter_address(url: UrlPartsView) -> bool {
    on_domain(url, "twitter.com"@) || on_domain(url, "www.twitter.com"@)
}

/// The address is on GitHub, GitLab or Bitbucket.
pub open spec fn github_address(url: UrlPartsView) -> bool {
    ||| on_domain(url, "github.com"@)
    ||| on_domain(url, "gitlab.com"@)
    ||| on_domain(url, "bitbucket.org"@)
    ||| on_domain(url, "www.github.com"@)
    ||| on_domain(url, "www.gitlab.com"@)
    ||| on_domain(url, "www.bitbucket.org"@)
}

/// The address is on Instagram.
pub open spec fn instagram_address(url: UrlPartsView) -> bool {
    on_domain(url, "instagram.com"@) || on_domain(url, "www.instagram.com"@)
}

/// Whether the address is on Twitter.
pub fn twitter_url(url: &DiscordUrl) -> (on: bool)
    ensures
        on == twitter_address(url@),
{
    has_domain(url, "twitter.com") || has_domain(url, "www.twitter.com")
}

/// Whether the address is on GitHub, GitLab or Bitbucket.
pub fn github_url(url: &DiscordUrl) -> (on: bool)
    ensures
        on == github_address(url@),
{
    has_domain(url, "github.com") || has_domain(url, "gitlab.com") || has_domain(
        url,
        "bitbucket.org",
    ) || has_domain(url, "www.github.com") || has_domain(url, "www.gitlab.com") || has_domain(
        url,
        "www.bitbucket.org",
    )
}

/// Whether the address is on Instagram.
pub fn instagram_url(url: &DiscordUrl) -> (on: bool)
    ensures
        on == instagram_address(url@),
{
    has_domain(url, "instagram.com") || has_domain(url, "www.instagram.com")
}

/// A constraint on addresses.
pub trait ConstrainedUrl {
    /// The addresses that the constraint admits.
    spec fn admits(url: UrlPartsView) -> bool;

    /// Whether the constraint admits the address.
    fn is_valid(url: &DiscordUrl) -> (valid: bool)
        ensures
            valid == Self::admits(url@),
    ;
}

/// Addresses on Twitter.
#[derive(Debug, Clone, Copy, PartialEq, Eq, Hash)]
pub struct TwitterUrl;

impl ConstrainedUrl for TwitterUrl {
    open spec fn admits(url: UrlPartsView) -> bool {
        twitter_address(url)
    }

    fn is_valid(url: &DiscordUrl) -> (valid: bool) {
        twitter_url(url)
    }
}

/// Addresses on GitHub, GitLab or Bitbucket.
#[derive(Debug, Clone, Copy, PartialEq, Eq, Hash)]
pub struct GitHubUrl;

impl ConstrainedUrl for GitHubUrl {
    open spec fn admits(url: UrlPartsView) -> bool {
        github_address(url)
    }

    fn is_valid(url: &DiscordUrl) -> (valid: bool) {
        github_url(url)
    }
}

/// Addresses on Instagram.
#[derive(Debug, Clone, Copy, PartialEq, Eq, Hash)]
pub struct InstagramUrl;

impl ConstrainedUrl for InstagramUrl {
    open spec fn admits(url: UrlPartsView) -> bool {
        instagram_address(url)
    }

    fn is_valid(url: &DiscordUrl) -> (valid: bool) {
        instagram_url(url)
    }
}

} // verus!
