//! The Mikan Project browser pane: the RSS links found on its pages.
use vstd::prelude::*;
use crate::text::{str_concat, str_is, str_is_empty};

verus! {

/// An RSS subscription link found on a Mikan page.
pub struct RssCandidate {
    pub anime_title: String,
    pub subgroup_name: String,
    pub rss_url: String,
    pub bangumi_id: String,
    pub subgroup_id: String,
}

/// The expression evaluated in the browser pane to run the page scan script.
pub fn scan_expression(script: &str) -> (r: String)
    ensures
        r@ == "("@ + script@ + ")()"@,
{
    str_concat(str_concat("(", script).as_str(), ")()")
}

/// A scan that returned nothing: an empty result or `null`.
pub fn scan_result_is_empty(raw: &str) -> (b: bool)
    ensures
        b == (raw@.len() == 0 || raw@ == "null"@),
{
    str_is_empty(raw) || str_is(raw, "null")
}

} // verus!
