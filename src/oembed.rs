//! oEmbed responses for the author link of an embed.

use vstd::prelude::*;
use vstd::utf8::encode_utf8;
use crate::text::{chars_of, push_str, string_of};
use crate::upstream::{parse_url, parsed_url};

verus! {

/// Query of an oEmbed request: the author's name and, optionally, id.
pub struct EmbedRequest {
    pub author_name: String,
    pub author_id: Option<String>,
}

/// An oEmbed response of type `rich`.
#[derive(Debug)]
pub struct EmbedResponse {
    pub version: String,
    pub embed_type: String,
    pub author_name: String,
    pub author_url: String,
    pub provider_name: String,
    pub provider_url: String,
}

/// The author fields of the upstream oEmbed service's answer.
pub struct PixivEmbedResponse {
    pub author_name: String,
    pub author_url: String,
}

/// Why an embed lookup was refused.
#[derive(Debug)]
pub enum EmbedError {
    /// No `url` parameter was given.
    UrlNotProvided,
    /// The `url` parameter does not parse as a URL.
    InvalidUrl,
    /// The URL's host is not `www.pixiv.net`; the host found, if any.
    InvalidHost(Option<String>),
}

/// A byte that percent-encoding leaves as it is.
pub open spec fn unreserved(b: u8) -> bool {
    (48 <= b <= 57) || (65 <= b <= 90) || (97 <= b <= 122) || b == 45 || b == 46 || b == 95
        || b == 126
}

/// Upper-case hexadecimal digit of `d < 16`.
pub open spec fn hex_upper(d: u8) -> char {
    if d < 10 {
        (48 + d) as char
    } else {
        (55 + d) as char
    }
}

/// Percent-encoding of bytes: every byte but ASCII letters, digits and
/// `-`, `.`, `_`, `~` becomes `%` and two upper-case hexadecimal digits.
pub open spec fn percent_encoded(bytes: Seq<u8>) -> Seq<char>
    decreases bytes.len(),
{
    if bytes.len() == 0 {
        Seq::empty()
    } else {
        let b = bytes[0];
        (if unreserved(b) {
            seq![b as char]
        } else {
            seq!['%', hex_upper(b / 16), hex_upper(b % 16)]
        }) + percent_encoded(bytes.skip(1))
    }
}

/// Relies on `urlencoding::encode`: percent-encodes the UTF-8 bytes of `s`,
/// keeping ASCII alphanumerics and `-`, `.`, `_`, `~`, with upper-case hex.
#[verifier::external_body]
fn url_encode(s: &str) -> (r: String)
    ensures
        r@ == percent_encoded(encode_utf8(s@)),
{
    urlencoding::encode(s).into_owned()
}

pub open spec fn author_page(author_id: Option<String>) -> Seq<char> {
    match author_id {
        Some(id) => "https://www.pixiv.net/users/"@ + percent_encoded(encode_utf8(id@)),
        None => "https://www.pixiv.net/"@,
    }
}

impl EmbedResponse {
    /// A `rich` oEmbed response, version 1.0.
    pub fn new(
        author_name: String,
        author_url: String,
        provider_name: String,
        provider_url: String,
    ) -> (r: EmbedResponse)
        ensures
            r.version@ == "1.0"@,
            r.embed_type@ == "rich"@,
            r.author_name == author_name,
            r.author_url == author_url,
            r.provider_name == provider_name,
            r.provider_url == provider_url,
    {
        EmbedResponse {
            version: String::from_str("1.0"),
            embed_type: String::from_str("rich"),
            author_name,
            author_url,
            provider_name,
            provider_url,
        }
    }

    /// The response to an oEmbed request: the author's page on the upstream
    /// site, or its front page when no author id is given.
    pub fn for_request(request: EmbedRequest, provider_name: String, provider_url: String) -> (r:
        EmbedResponse)
        ensures
            r.version@ == "1.0"@,
            r.embed_type@ == "rich"@,
            r.author_name == request.author_name,
            r.author_url@ == author_page(request.author_id),
            r.provider_name == provider_name,
            r.provider_url == provider_url,
    {
        let author_url = match &request.author_id {
            Some(id) => {
                let mut v = chars_of("https://www.pixiv.net/users/");
                push_str(&mut v, url_encode(id.as_str()).as_str());
                string_of(&v)
            },
            None => String::from_str("https://www.pixiv.net/"),
        };
        EmbedResponse::new(request.author_name, author_url, provider_name, provider_url)
    }

    /// The response relaying the upstream oEmbed service's author fields,
    /// under this service's default provider name and URL.
    pub fn from_upstream(upstream: PixivEmbedResponse) -> (r: EmbedResponse)
        ensures
            r.version@ == "1.0"@,
            r.embed_type@ == "rich"@,
            r.author_name == upstream.author_name,
            r.author_url == upstream.author_url,
            r.provider_name@ == "phixiv"@,
            r.provider_url@ == "https://github.com/HazelTheWitch/phixiv"@,
    {
        EmbedResponse::new(
            upstream.author_name,
            upstream.author_url,
            String::from_str("phixiv"),
            String::from_str("https://github.com/HazelTheWitch/phixiv"),
        )
    }
}

/// The upstream oEmbed query for an artwork URL, which must name
/// `www.pixiv.net` as its host.
pub fn embed_lookup_url(url: Option<&str>) -> (r: Result<String, EmbedError>)
    ensures
        url is None ==> r matches Err(EmbedError::UrlNotProvided),
        url matches Some(u) ==> match parsed_url(u@) {
            None => r matches Err(EmbedError::InvalidUrl),
            Some(parts) => if parts.0 == Some("www.pixiv.net"@) {
                r matches Ok(q) && q@ == "https://embed.pixiv.net/oembed.php?url="@
                    + percent_encoded(encode_utf8(u@))
            } else {
                r matches Err(EmbedError::InvalidHost(h)) && match h {
                    Some(h) => parts.0 == Some(h@),
                    None => parts.0 is None,
                }
            },
        },
{
    let u = match url {
        Some(u) => u,
        None => {
            return Err(EmbedError::UrlNotProvided);
        },
    };
    let parts = match parse_url(u) {
        Ok(p) => p,
        Err(_) => {
            return Err(EmbedError::InvalidUrl);
        },
    };
    let expected = String::from_str("www.pixiv.net");
    match parts.host {
        Some(h) => {
            if h == expected {
                let mut v = chars_of("https://embed.pixiv.net/oembed.php?url=");
                push_str(&mut v, url_encode(u).as_str());
                Ok(string_of(&v))
            } else {
                Err(EmbedError::InvalidHost(Some(h)))
            }
        },
        None => Err(EmbedError::InvalidHost(None)),
    }
}

} // verus!
