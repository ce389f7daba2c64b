//! The results of the package search of archlinux.org and the requests that
//! ask for them.
use vstd::prelude::*;

verus! {

/// The outside type `serde_json::Value`, for the fields of the search results
/// that this crate carries along and never reads.
#[verifier::external_type_specification]
#[verifier::external_body]
pub struct ExJsonValue(serde_json::Value);

/// One page of search results.
#[derive(Debug)]
pub struct SearchResultsRoot {
    pub version: i64,
    pub limit: i64,
    pub valid: bool,
    pub results: Vec<SearchResult>,
    pub num_pages: i64,
    pub page: i64,
}

/// One package of the search results.
#[derive(Debug)]
pub struct SearchResult {
    pub pkgname: String,
    pub pkgbase: String,
    pub repo: String,
    pub arch: String,
    pub pkgver: String,
    pub pkgrel: String,
    pub epoch: i64,
    pub pkgdesc: String,
    pub url: String,
    pub filename: String,
    pub compressed_size: i64,
    pub installed_size: i64,
    pub build_date: String,
    pub last_update: String,
    pub flag_date: serde_json::Value,
    pub maintainers: Vec<String>,
    pub packager: String,
    pub groups: Vec<serde_json::Value>,
    pub licenses: Vec<String>,
    pub conflicts: Vec<String>,
    pub provides: Vec<String>,
    pub replaces: Vec<serde_json::Value>,
    pub depends: Vec<String>,
    pub optdepends: Vec<String>,
    pub makedepends: Vec<String>,
    pub checkdepends: Vec<String>,
}

/// The search service of archlinux.org.
pub open spec fn search_endpoint() -> Seq<char> {
    "https://archlinux.org/packages/search/json/"@
}

/// The address of a loose search (names and descriptions that mention
/// `pkg_name`).
pub fn loose_search_url(pkg_name: &str) -> (url: String)
    ensures
        url@ == search_endpoint() + "?q="@ + pkg_name@,
{
    let mut url = String::from_str("https://archlinux.org/packages/search/json/");
    url.append("?q=");
    url.append(pkg_name);
    url
}

/// The address of an exact search for the package named `pkg_name`.
pub fn exact_search_url(pkg_name: &str) -> (url: String)
    ensures
        url@ == search_endpoint() + "?name="@ + pkg_name@,
{
    let mut url = String::from_str("https://archlinux.org/packages/search/json/");
    url.append("?name=");
    url.append(pkg_name);
    url
}

} // verus!
