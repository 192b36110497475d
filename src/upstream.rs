//! The upstream listing response, as plain values, and URL parsing.

use vstd::prelude::*;

verus! {

/// The body of the upstream listing response.
pub struct AjaxBody {
    pub title: String,
    pub description: String,
    pub tags: Vec<Tag>,
    pub urls: Urls,
    pub author_id: String,
    pub author_name: String,
    /// The canonical public URL of the artwork.
    pub canonical: String,
    pub illust_type: u8,
    pub create_date: String,
    /// The author's recent works, in the order in which the response lists
    /// them: work id and, where present, its metadata.
    pub user_illusts: Vec<(String, Option<UserIllust>)>,
    pub page_count: u32,
    pub ai_type: u8,
    pub bookmark_count: u32,
    pub like_count: u32,
    pub comment_count: u32,
    pub view_count: u32,
    pub x_restrict: u32,
}

/// A tag with its optional translations, keyed by language.
pub struct Tag {
    pub tag: String,
    pub translation: Option<Vec<(String, String)>>,
}

/// Metadata of one of the author's recent works.
pub struct UserIllust {
    pub profile_image_url: Option<String>,
}

/// Candidate image URLs at two resolutions.
pub struct Urls {
    pub regular: Option<String>,
    pub original: Option<String>,
}

/// The parts of a parsed URL that the library reads.
pub struct UrlParts {
    pub host: Option<String>,
    pub path: String,
}

#[verifier::external_type_specification]
#[verifier::external_body]
pub struct ExUrlParseError(url::ParseError);

/// What `url::Url::parse` makes of a text: nothing where it does not parse,
/// else the host (if any) and the path.
pub uninterp spec fn parsed_url(s: Seq<char>) -> Option<(Option<Seq<char>>, Seq<char>)>;

/// Relies on `url::Url::parse`, `Url::host_str` and `Url::path`: whether the
/// text parses as an absolute URL, and its host and path where it does.
#[verifier::external_body]
pub(crate) fn parse_url(s: &str) -> (r: Result<UrlParts, url::ParseError>)
    ensures
        r is Ok <==> parsed_url(s@) is Some,
        r matches Ok(u) ==> parsed_url(s@) == Some(
            (
                match u.host {
                    Some(h) => Some(h@),
                    None => None,
                },
                u.path@,
            ),
        ),
{
    match url::Url::parse(s) {
        Ok(u) => Ok(UrlParts { host: u.host_str().map(String::from), path: String::from(u.path()) }),
        Err(e) => Err(e),
    }
}

} // verus!
