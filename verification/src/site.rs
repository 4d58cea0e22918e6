//! The site addresses, fixed when the client is built: no command takes or
//! hands out a base address.

use vstd::prelude::*;
use crate::text::{concat2, trim_end_char, trim_end_char_str};

verus! {

/// The site's root address.
pub const SITE_BASE_URL: &'static str = "https://api.smart-agent.eu.cc";

/// The public website (downloads and documentation, not the API).
pub const WEBSITE_URL: &'static str = "https://www.smart-agent.eu.cc";

/// The download page that the update dialog opens.
pub const WEBSITE_DOWNLOAD_URL: &'static str = "https://www.smart-agent.eu.cc/#download";

/// The default model written into the Codex configuration.
pub const DEFAULT_MODEL: &'static str = "gpt-5-codex";

/// The site root without trailing slashes.
pub open spec fn site_root() -> Seq<char> {
    trim_end_char(SITE_BASE_URL@, '/')
}

/// The address of a management API path.
pub open spec fn spec_api_url(path: Seq<char>) -> Seq<char> {
    site_root() + path
}

/// The data-plane root that Codex is pointed at.
pub open spec fn spec_v1_base_url() -> Seq<char> {
    site_root() + "/v1"@
}

/// Joins a management API path onto the site root, as in `api_url("/api/status")`.
pub fn api_url(path: &str) -> (res: String)
    ensures
        res@ == spec_api_url(path@),
{
    let root = trim_end_char_str(SITE_BASE_URL, '/');
    concat2(root.as_str(), path)
}

/// The `/v1` root written into Codex as `base_url` (Codex appends `/responses`).
pub fn v1_base_url() -> (res: String)
    ensures
        res@ == spec_v1_base_url(),
{
    let root = trim_end_char_str(SITE_BASE_URL, '/');
    concat2(root.as_str(), "/v1")
}

} // verus!
