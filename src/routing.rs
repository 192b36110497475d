//! Request paths of the preview service, redirects for human visitors, and
//! the upstream request for a listing.

use vstd::prelude::*;
use crate::listing::{clean_illust_id, digit_prefix, lemma_digit_prefix_digits};
use crate::text::{chars_of, digits_value, parse_digits, push_str, string_of};

verus! {

/// An artwork path as it arrives: language, id and page index as text.
pub struct RawArtworkPath {
    pub language: Option<String>,
    pub id: String,
    pub image_index: Option<String>,
}

/// An artwork path with its page index read.
pub struct ArtworkPath {
    pub language: Option<String>,
    pub id: String,
    pub image_index: Option<usize>,
}

/// Query of an info request.
pub struct ArtworkInfoPath {
    pub language: Option<String>,
    pub id: String,
    pub index: Option<usize>,
}

/// Why an artwork path was refused.
#[derive(Debug, Clone, Copy, PartialEq, Eq, Structural)]
pub enum PathError {
    /// The page index does not start with a decimal number that fits a `usize`.
    InvalidIndex,
}

/// The page index that a path segment names: the value of its leading
/// decimal digits, where there are some and the value fits.
pub open spec fn index_value(s: Seq<char>) -> Option<usize> {
    let d = digit_prefix(s);
    if d.len() >= 1 && digits_value(d) <= usize::MAX {
        Some(digits_value(d) as usize)
    } else {
        None
    }
}

impl RawArtworkPath {
    /// The path of a legacy `member_illust.php?illust_id=...` request.
    pub fn member_illust(illust_id: String) -> (r: RawArtworkPath)
        ensures
            r.language is None,
            r.id == illust_id,
            r.image_index is None,
    {
        RawArtworkPath { language: None, id: illust_id, image_index: None }
    }
}

impl ArtworkPath {
    /// Reads the page index of a raw path; what follows its leading digits is
    /// ignored.
    pub fn from_raw(value: RawArtworkPath) -> (r: Result<ArtworkPath, PathError>)
        ensures
            match value.image_index {
                None => r matches Ok(p) && p.image_index is None,
                Some(s) => match index_value(s@) {
                    None => r matches Err(PathError::InvalidIndex),
                    Some(i) => r matches Ok(p) && p.image_index == Some(i),
                },
            },
            r matches Ok(p) ==> p.language == value.language && p.id == value.id,
    {
        let image_index = match &value.image_index {
            Some(s) => {
                let d = clean_illust_id(s.as_str());
                if d.len() == 0 {
                    return Err(PathError::InvalidIndex);
                }
                proof {
                    lemma_digit_prefix_digits(s@);
                    assert(d@.skip(0) =~= d@);
                }
                match parse_digits(&d, 0, usize::MAX as u64) {
                    Some(v) => Some(v as usize),
                    None => {
                        return Err(PathError::InvalidIndex);
                    },
                }
            },
            None => None,
        };
        Ok(ArtworkPath { language: value.language, id: value.id, image_index })
    }
}

/// What `isbot::Bots::default().is_bot` says of a user agent.
pub uninterp spec fn is_bot_agent(user_agent: Seq<char>) -> bool;

/// Relies on `isbot::Bots::default` and `Bots::is_bot`: whether the user
/// agent matches the crate's default bot patterns.
#[verifier::external_body]
fn is_bot(user_agent: &str) -> (r: bool)
    ensures
        r == is_bot_agent(user_agent@),
{
    isbot::Bots::default().is_bot(user_agent)
}

/// The upstream artwork page for a raw path: optional `/{language}`, the id,
/// and `#{index}` when a page index was given.
pub open spec fn artwork_page(path: RawArtworkPath) -> Seq<char> {
    "https://www.pixiv.net"@ + match path.language {
        Some(l) => "/"@ + l@,
        None => Seq::empty(),
    } + "/artworks/"@ + path.id@ + match path.image_index {
        Some(i) => "#"@ + i@,
        None => Seq::empty(),
    }
}

/// The upstream artwork page for a path.
pub fn artwork_page_url(path: &RawArtworkPath) -> (r: String)
    ensures
        r@ == artwork_page(*path),
{
    let mut v = chars_of("https://www.pixiv.net");
    match &path.language {
        Some(l) => {
            push_str(&mut v, "/");
            push_str(&mut v, l.as_str());
        },
        None => {},
    }
    push_str(&mut v, "/artworks/");
    push_str(&mut v, path.id.as_str());
    match &path.image_index {
        Some(i) => {
            push_str(&mut v, "#");
            push_str(&mut v, i.as_str());
        },
        None => {},
    }
    string_of(&v)
}

/// Where a request for an artwork page goes: with bot filtering on, a
/// visitor whose user agent is not a bot's is sent to the upstream page; all
/// others get the preview.
pub fn bot_redirect(filtering: bool, user_agent: &str, path: &RawArtworkPath) -> (r: Option<
    String,
>)
    ensures
        r is Some <==> filtering && !is_bot_agent(user_agent@),
        r matches Some(u) ==> u@ == artwork_page(*path),
{
    if filtering && !is_bot(user_agent) {
        Some(artwork_page_url(path))
    } else {
        None
    }
}

/// The path part of a path-and-query: everything before the first `?`.
pub open spec fn path_part(pq: Seq<char>) -> Seq<char>
    decreases pq.len(),
{
    if pq.len() == 0 || pq[0] == '?' {
        Seq::empty()
    } else {
        seq![pq[0]] + path_part(pq.skip(1))
    }
}

/// Where an unknown path is redirected: the upstream site's front page when
/// there is no path, the project page for `/`, else the same path and query
/// on the upstream site.
pub open spec fn fallback_target(path_and_query: Option<Seq<char>>, project_url: Seq<char>) -> Seq<
    char,
> {
    match path_and_query {
        None => "https://www.pixiv.net/"@,
        Some(pq) => if path_part(pq) == "/"@ {
            project_url
        } else {
            "https://www.pixiv.net"@ + pq
        },
    }
}

/// Where an unknown path is redirected.
pub fn redirect_target(path_and_query: Option<&str>, project_url: &str) -> (r: String)
    ensures
        r@ == fallback_target(
            match path_and_query {
                Some(pq) => Some(pq@),
                None => None,
            },
            project_url@,
        ),
{
    let pq = match path_and_query {
        Some(pq) => pq,
        None => {
            return String::from_str("https://www.pixiv.net/");
        },
    };
    let s = chars_of(pq);
    let mut path: Vec<char> = Vec::new();
    let mut i: usize = 0;
    assert(s@.skip(0) =~= s@);
    while i < s.len() && s[i] != '?'
        invariant
            i <= s@.len(),
            path@ + path_part(s@.skip(i as int)) == path_part(s@),
        decreases s.len() - i,
    {
        assert(s@.skip(i as int).skip(1) =~= s@.skip(i + 1));
        path.push(s[i]);
        assert(path@ + path_part(s@.skip(i + 1)) =~= path_part(s@));
        i = i + 1;
    }
    assert(path_part(s@.skip(i as int)) =~= Seq::<char>::empty());
    assert(path@ =~= path_part(s@));
    let slash = String::from_str("/");
    if string_of(&path) == slash {
        String::from_str(project_url)
    } else {
        let mut v = chars_of("https://www.pixiv.net");
        push_str(&mut v, pq);
        string_of(&v)
    }
}

/// The upstream listing request for a cleaned id in a language.
pub fn listing_request_url(illust_id: &str, language: &str) -> (r: String)
    ensures
        r@ == "https://www.pixiv.net/ajax/illust/"@ + illust_id@ + "?lang="@ + language@,
{
    let mut v = chars_of("https://www.pixiv.net/ajax/illust/");
    push_str(&mut v, illust_id);
    push_str(&mut v, "?lang=");
    push_str(&mut v, language);
    string_of(&v)
}

/// The session cookie sent upstream.
pub fn session_cookie(session: &str) -> (r: String)
    ensures
        r@ == "PHPSESSID="@ + session@,
{
    let mut v = chars_of("PHPSESSID=");
    push_str(&mut v, session);
    string_of(&v)
}

} // verus!
