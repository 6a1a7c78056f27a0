//! Updates: the installed version of the pack against the one online, and
//! the pack's news. Fetching them happens outside the library.

use vstd::prelude::*;

use crate::text::{before_last, before_last_char};

verus! {

#[derive(Clone, Debug)]
pub struct Updates {
    pub pack_installed: Option<String>,
    pub pack_online: Option<String>,
    pub launcher_current: String,
}

/// One entry of `turicraft/news.json` (served with the pack).
#[derive(Clone, Debug)]
pub struct NewsItem {
    pub date: String,
    pub title: String,
    pub body: String,
    /// Link to the message the news item comes from (Discord).
    pub url: String,
}

/// The pack's directory: its URL up to the last `/`.
pub fn base_url(pack_url: &str) -> (r: Option<String>)
    ensures
        match before_last(pack_url@, '/') {
            Some(b) => (r matches Some(s) && s@ == b),
            None => r is None,
        },
{
    before_last_char(pack_url, '/')
}

/// Where the pack's news are.
pub fn news_url(pack_url: &str) -> (r: Option<String>)
    ensures
        match before_last(pack_url@, '/') {
            Some(b) => (r matches Some(s) && s@ == b + "/turicraft/news.json"@),
            None => r is None,
        },
{
    match base_url(pack_url) {
        Some(mut b) => {
            b.append("/turicraft/news.json");
            Some(b)
        },
        None => None,
    }
}

/// Where the pack's quality presets are.
pub fn presets_url(pack_url: &str) -> (r: Option<String>)
    ensures
        match before_last(pack_url@, '/') {
            Some(b) => (r matches Some(s) && s@ == b + "/turicraft/presets.toml"@),
            None => r is None,
        },
{
    match base_url(pack_url) {
        Some(mut b) => {
            b.append("/turicraft/presets.toml");
            Some(b)
        },
        None => None,
    }
}

} // verus!
