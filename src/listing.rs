//! The canonical artwork listing and how it is built from an upstream
//! response.

use vstd::prelude::*;
use crate::caption::{fix_links, repaired};
use crate::text::{
    all_digits, chars_of, decimal, decimal_of, is_ascii_digit, push_all, push_str, replace_all, replaced,
    string_of, strings_view,
};
use crate::upstream::{parse_url, parsed_url, AjaxBody, Tag, UserIllust, Urls};

verus! {

/// A listing of an artwork, determined by its language and illustration id.
pub struct ArtworkListing {
    pub image_proxy_urls: Vec<String>,
    pub title: String,
    pub ai_generated: bool,
    pub description: String,
    pub tags: Vec<String>,
    pub url: String,
    pub author_name: String,
    pub author_id: String,
    pub is_ugoira: bool,
    pub create_date: String,
    pub illust_id: String,
    pub profile_image_url: Option<String>,
    pub language: String,
    pub bookmark_count: u32,
    pub like_count: u32,
    pub comment_count: u32,
    pub view_count: u32,
    pub x_restrict: u32,
}

/// Deployment settings that shape a listing.
pub struct BuildOptions {
    /// Whether animated artworks are served as a video.
    pub ugoira_enabled: bool,
    /// Replacement for the `img-master` path segment of every page image.
    pub thumbnail_type: Option<String>,
}

/// Why a listing could not be built.
#[derive(Debug, Clone, Copy, PartialEq, Eq, Structural)]
pub enum BuildError {
    /// The illustration id has no leading decimal digits.
    InvalidIdentifier,
    /// The response names no image URL at either resolution.
    MissingImageUrl,
    /// An image URL of the response does not parse as a URL.
    InvalidUrl,
}

pub open spec fn opt_view(o: Option<String>) -> Option<Seq<char>> {
    match o {
        Some(s) => Some(s@),
        None => None,
    }
}

impl ArtworkListing {
    /// The listing has at least one page, and its id is a non-empty run of
    /// decimal digits.
    pub open spec fn wf(&self) -> bool {
        &&& self.image_proxy_urls@.len() >= 1
        &&& self.illust_id@.len() >= 1
        &&& forall|i: int| 0 <= i < self.illust_id@.len() ==> is_ascii_digit(
            #[trigger] self.illust_id@[i],
        )
    }
}

/// The longest leading run of decimal digits of `s`.
pub open spec fn digit_prefix(s: Seq<char>) -> Seq<char>
    decreases s.len(),
{
    if s.len() > 0 && is_ascii_digit(s[0]) {
        seq![s[0]] + digit_prefix(s.skip(1))
    } else {
        Seq::empty()
    }
}

/// A path re-hosted under the local image proxy.
pub open spec fn proxied(host: Seq<char>, path: Seq<char>) -> Seq<char> {
    "https://"@ + host + "/i"@ + path
}

/// The path of page `i`: the page-0 marker `_p0_` becomes `_p{i}_`, then the
/// optional thumbnail substitution applies.
pub open spec fn page_path(path: Seq<char>, i: nat, thumbnail: Option<Seq<char>>) -> Seq<char> {
    let p = if i == 0 {
        path
    } else {
        replaced(path, "_p0_"@, "_p"@ + decimal(i) + "_"@)
    };
    match thumbnail {
        Some(t) => replaced(p, "img-master"@, t),
        None => p,
    }
}

/// Number of static pages: the upstream page count, at least one.
pub open spec fn page_total(page_count: u32) -> nat {
    if page_count == 0 {
        1
    } else {
        page_count as nat
    }
}

/// The proxied URLs of an artwork's pages.
pub open spec fn image_urls(
    host: Seq<char>,
    id: Seq<char>,
    path: Seq<char>,
    animated: bool,
    page_count: u32,
    thumbnail: Option<Seq<char>>,
) -> Seq<Seq<char>> {
    if animated {
        seq![
            "https://"@ + host + "/i/ugoira/"@ + id + ".mp4"@,
            proxied(host, page_path(path, 0, thumbnail)),
        ]
    } else {
        Seq::new(page_total(page_count), |i: int| proxied(host, page_path(path, i as nat, thumbnail)))
    }
}

/// The translation of a tag into `language`: the first entry with that key.
pub open spec fn translation_of(entries: Seq<(String, String)>, language: Seq<char>) -> Option<
    Seq<char>,
>
    decreases entries.len(),
{
    if entries.len() == 0 {
        None
    } else if entries[0].0@ == language {
        Some(entries[0].1@)
    } else {
        translation_of(entries.skip(1), language)
    }
}

/// A tag as shown: `#` and its translation into `language`, else its
/// original text.
pub open spec fn tag_label(tag: Tag, language: Seq<char>) -> Seq<char> {
    "#"@ + match tag.translation {
        Some(entries) => match translation_of(entries@, language) {
            Some(t) => t,
            None => tag.tag@,
        },
        None => tag.tag@,
    }
}

pub open spec fn tag_labels(tags: Seq<Tag>, language: Seq<char>) -> Seq<Seq<char>> {
    tags.map_values(|t: Tag| tag_label(t, language))
}

/// The first profile image URL among the author's recent works.
pub open spec fn first_profile(works: Seq<(String, Option<UserIllust>)>) -> Option<Seq<char>>
    decreases works.len(),
{
    if works.len() == 0 {
        None
    } else if works[0].1 matches Some(w) && w.profile_image_url is Some {
        Some(works[0].1->0.profile_image_url->0@)
    } else {
        first_profile(works.skip(1))
    }
}

/// The path of a URL that parses.
pub open spec fn url_path(s: Seq<char>) -> Seq<char> {
    match parsed_url(s) {
        Some(parts) => parts.1,
        None => Seq::empty(),
    }
}

/// The image URL used for pages: the regular resolution, else the original.
pub open spec fn chosen_image(urls: Urls) -> Option<Seq<char>> {
    match urls.regular {
        Some(u) => Some(u@),
        None => opt_view(urls.original),
    }
}

/// Why building fails, if it does; the causes are tried in this order.
pub open spec fn build_error(illust_id: Seq<char>, body: AjaxBody) -> Option<BuildError> {
    if digit_prefix(illust_id).len() == 0 {
        Some(BuildError::InvalidIdentifier)
    } else if chosen_image(body.urls) is None {
        Some(BuildError::MissingImageUrl)
    } else if parsed_url(chosen_image(body.urls)->0) is None {
        Some(BuildError::InvalidUrl)
    } else if first_profile(body.user_illusts@) matches Some(p) && parsed_url(p) is None {
        Some(BuildError::InvalidUrl)
    } else {
        None
    }
}

/// `l` is the listing built from `body`, where building does not fail.
pub open spec fn is_listing_of(
    l: ArtworkListing,
    illust_id: Seq<char>,
    language: Seq<char>,
    host: Seq<char>,
    options: BuildOptions,
    body: AjaxBody,
) -> bool {
    let id = digit_prefix(illust_id);
    let path = url_path(chosen_image(body.urls)->0);
    &&& strings_view(l.image_proxy_urls@) == image_urls(
        host,
        id,
        path,
        body.illust_type == 2 && options.ugoira_enabled,
        body.page_count,
        opt_view(options.thumbnail_type),
    )
    &&& l.title == body.title
    &&& l.ai_generated == (body.ai_type == 2)
    &&& l.description@ == repaired(body.description@)
    &&& strings_view(l.tags@) == tag_labels(body.tags@, language)
    &&& l.url == body.canonical
    &&& l.author_name == body.author_name
    &&& l.author_id == body.author_id
    &&& l.is_ugoira == (body.illust_type == 2)
    &&& l.create_date == body.create_date
    &&& l.illust_id@ == id
    &&& opt_view(l.profile_image_url) == match first_profile(body.user_illusts@) {
        Some(p) => Some(proxied(host, url_path(p))),
        None => None,
    }
    &&& l.language@ == language
    &&& l.bookmark_count == body.bookmark_count
    &&& l.like_count == body.like_count
    &&& l.comment_count == body.comment_count
    &&& l.view_count == body.view_count
    &&& l.x_restrict == body.x_restrict
}

/// The leading run of decimal digits of an illustration id; what follows the
/// first other character is ignored.
pub fn clean_illust_id(illust_id: &str) -> (r: Vec<char>)
    ensures
        r@ == digit_prefix(illust_id@),
{
    let s = chars_of(illust_id);
    let mut out: Vec<char> = Vec::new();
    let mut i: usize = 0;
    assert(s@.skip(0) =~= s@);
    while i < s.len() && '0' <= s[i] && s[i] <= '9'
        invariant
            i <= s@.len(),
            out@ + digit_prefix(s@.skip(i as int)) == digit_prefix(s@),
        decreases s.len() - i,
    {
        assert(s@.skip(i as int).skip(1) =~= s@.skip(i + 1));
        out.push(s[i]);
        assert(out@ + digit_prefix(s@.skip(i + 1)) =~= digit_prefix(s@));
        i = i + 1;
    }
    assert(digit_prefix(s@.skip(i as int)) =~= Seq::<char>::empty());
    assert(out@ =~= digit_prefix(s@));
    out
}

fn proxied_url(host: &str, path: &Vec<char>) -> (r: String)
    ensures
        r@ == proxied(host@, path@),
{
    let mut v = chars_of("https://");
    push_str(&mut v, host);
    push_str(&mut v, "/i");
    push_all(&mut v, path);
    string_of(&v)
}

fn page_path_of(path: &Vec<char>, i: u32, thumbnail: &Option<String>) -> (r: Vec<char>)
    ensures
        r@ == page_path(path@, i as nat, opt_view(*thumbnail)),
{
    let p = if i == 0 {
        path.clone()
    } else {
        let marker = chars_of("_p0_");
        let mut by = chars_of("_p");
        push_all(&mut by, &decimal_of(i as u64));
        push_str(&mut by, "_");
        replace_all(path, &marker, &by)
    };
    assert(p@ == (if i == 0 {
        path@
    } else {
        replaced(path@, "_p0_"@, "_p"@ + decimal(i as nat) + "_"@)
    }));
    match thumbnail {
        Some(t) => {
            let master = chars_of("img-master");
            let with = chars_of(t.as_str());
            replace_all(&p, &master, &with)
        },
        None => p,
    }
}

fn derive_image_urls(
    host: &str,
    id: &Vec<char>,
    path: &Vec<char>,
    animated: bool,
    page_count: u32,
    thumbnail: &Option<String>,
) -> (r: Vec<String>)
    ensures
        strings_view(r@) == image_urls(
            host@,
            id@,
            path@,
            animated,
            page_count,
            opt_view(*thumbnail),
        ),
{
    if animated {
        let mut video = chars_of("https://");
        push_str(&mut video, host);
        push_str(&mut video, "/i/ugoira/");
        push_all(&mut video, id);
        push_str(&mut video, ".mp4");
        let still = proxied_url(host, &page_path_of(path, 0, thumbnail));
        let mut out: Vec<String> = Vec::new();
        out.push(string_of(&video));
        out.push(still);
        assert(strings_view(out@) =~= image_urls(
            host@,
            id@,
            path@,
            animated,
            page_count,
            opt_view(*thumbnail),
        ));
        out
    } else {
        let total: u32 = if page_count == 0 {
            1
        } else {
            page_count
        };
        let mut out: Vec<String> = Vec::new();
        let mut i: u32 = 0;
        while i < total
            invariant
                i <= total,
                total as nat == page_total(page_count),
                out@.len() == i,
                forall|k: int|
                    0 <= k < i ==> (#[trigger] out@[k])@ == proxied(
                        host@,
                        page_path(path@, k as nat, opt_view(*thumbnail)),
                    ),
            decreases total - i,
        {
            let url = proxied_url(host, &page_path_of(path, i, thumbnail));
            out.push(url);
            i = i + 1;
        }
        assert(strings_view(out@) =~= image_urls(
            host@,
            id@,
            path@,
            animated,
            page_count,
            opt_view(*thumbnail),
        ));
        out
    }
}

fn translation_in<'a>(entries: &'a Vec<(String, String)>, language: &String) -> (r: Option<
    &'a String,
>)
    ensures
        opt_view(
            match r {
                Some(t) => Some(*t),
                None => None,
            },
        ) == translation_of(entries@, language@),
{
    let mut k: usize = 0;
    assert(entries@.skip(0) =~= entries@);
    while k < entries.len()
        invariant
            k <= entries@.len(),
            translation_of(entries@, language@) == translation_of(
                entries@.skip(k as int),
                language@,
            ),
        decreases entries.len() - k,
    {
        if entries[k].0 == *language {
            return Some(&entries[k].1);
        }
        assert(entries@.skip(k as int).skip(1) =~= entries@.skip(k + 1));
        k = k + 1;
    }
    None
}

fn translated_label(tag: &Tag, language: &String) -> (r: String)
    ensures
        r@ == tag_label(*tag, language@),
{
    let chosen = match &tag.translation {
        Some(entries) => translation_in(entries, language),
        None => None,
    };
    let mut v = chars_of("#");
    match chosen {
        Some(t) => push_str(&mut v, t.as_str()),
        None => push_str(&mut v, tag.tag.as_str()),
    }
    string_of(&v)
}

fn labels_of(tags: &Vec<Tag>, language: &str) -> (r: Vec<String>)
    ensures
        strings_view(r@) == tag_labels(tags@, language@),
{
    let lang = String::from_str(language);
    let mut out: Vec<String> = Vec::new();
    let mut i: usize = 0;
    while i < tags.len()
        invariant
            i <= tags@.len(),
            lang@ == language@,
            out@.len() == i,
            forall|j: int| 0 <= j < i ==> (#[trigger] out@[j])@ == tag_label(tags@[j], language@),
        decreases tags.len() - i,
    {
        let label = translated_label(&tags[i], &lang);
        out.push(label);
        i = i + 1;
    }
    assert(strings_view(out@) =~= tag_labels(tags@, language@));
    out
}

fn profile_source(works: &Vec<(String, Option<UserIllust>)>) -> (r: Option<&String>)
    ensures
        opt_view(
            match r {
                Some(s) => Some(*s),
                None => None,
            },
        ) == first_profile(works@),
{
    let mut k: usize = 0;
    assert(works@.skip(0) =~= works@);
    while k < works.len()
        invariant
            k <= works@.len(),
            first_profile(works@) == first_profile(works@.skip(k as int)),
        decreases works.len() - k,
    {
        match &works[k].1 {
            Some(w) => match &w.profile_image_url {
                Some(p) => {
                    return Some(p);
                },
                None => {},
            },
            None => {},
        }
        assert(works@.skip(k as int).skip(1) =~= works@.skip(k + 1));
        k = k + 1;
    }
    None
}

/// Builds the listing of an artwork from the upstream response: the id is
/// cleaned to its leading digits, tags are localised into `language`, page
/// URLs are derived from the image URL and re-hosted under `host`, and the
/// caption's redirect links are repaired. Fails, with nothing partial, exactly
/// as [`build_error`] says.
pub fn build_listing(
    illust_id: &str,
    language: &str,
    host: &str,
    options: &BuildOptions,
    body: AjaxBody,
) -> (r: Result<ArtworkListing, BuildError>)
    ensures
        match r {
            Ok(l) => build_error(illust_id@, body) is None && is_listing_of(
                l,
                illust_id@,
                language@,
                host@,
                *options,
                body,
            ) && l.wf(),
            Err(e) => build_error(illust_id@, body) == Some(e),
        },
{
    let id = clean_illust_id(illust_id);
    if id.len() == 0 {
        return Err(BuildError::InvalidIdentifier);
    }
    let image = match &body.urls.regular {
        Some(u) => u.clone(),
        None => match &body.urls.original {
            Some(u) => u.clone(),
            None => {
                return Err(BuildError::MissingImageUrl);
            },
        },
    };
    let parts = match parse_url(image.as_str()) {
        Ok(p) => p,
        Err(_) => {
            return Err(BuildError::InvalidUrl);
        },
    };
    let profile_image_url = match profile_source(&body.user_illusts) {
        Some(p) => match parse_url(p.as_str()) {
            Ok(pp) => Some(proxied_url(host, &chars_of(pp.path.as_str()))),
            Err(_) => {
                return Err(BuildError::InvalidUrl);
            },
        },
        None => None,
    };
    let tags = labels_of(&body.tags, language);
    let is_ugoira = body.illust_type == 2;
    let path = chars_of(parts.path.as_str());
    let image_proxy_urls = derive_image_urls(
        host,
        &id,
        &path,
        is_ugoira && options.ugoira_enabled,
        body.page_count,
        &options.thumbnail_type,
    );
    let description = fix_links(body.description.as_str());
    let ghost old_body = body;
    let listing = ArtworkListing {
        image_proxy_urls,
        title: body.title,
        ai_generated: body.ai_type == 2,
        description,
        tags,
        url: body.canonical,
        author_name: body.author_name,
        author_id: body.author_id,
        is_ugoira,
        create_date: body.create_date,
        illust_id: string_of(&id),
        profile_image_url,
        language: String::from_str(language),
        bookmark_count: body.bookmark_count,
        like_count: body.like_count,
        comment_count: body.comment_count,
        view_count: body.view_count,
        x_restrict: body.x_restrict,
    };
    proof {
        lemma_digit_prefix_digits(illust_id@);
        assert(chosen_image(old_body.urls) == Some(image@));
        assert(build_error(illust_id@, old_body) is None);
        assert(url_path(image@) == parts.path@);
        assert(opt_view(listing.profile_image_url) == match first_profile(old_body.user_illusts@) {
            Some(p) => Some(proxied(host@, url_path(p))),
            None => None,
        });
        assert(strings_view(listing.image_proxy_urls@) == image_urls(
            host@,
            digit_prefix(illust_id@),
            url_path(image@),
            old_body.illust_type == 2 && options.ugoira_enabled,
            old_body.page_count,
            opt_view(options.thumbnail_type),
        ));
        assert(is_listing_of(listing, illust_id@, language@, host@, *options, old_body));
    }
    Ok(listing)
}

pub(crate) proof fn lemma_digit_prefix_digits(s: Seq<char>)
    ensures
        all_digits(digit_prefix(s)),
    decreases s.len(),
{
    if s.len() > 0 && is_ascii_digit(s[0]) {
        lemma_digit_prefix_digits(s.skip(1));
        let d = digit_prefix(s);
        assert forall|i: int| 0 <= i < d.len() implies is_ascii_digit(#[trigger] d[i]) by {
            if i > 0 {
                assert(d[i] == digit_prefix(s.skip(1))[i - 1]);
            }
        }
    }
}

/// An animated artwork, with animation enabled, has exactly two image URLs
/// (the video and its still frame); otherwise there is one URL per page.
pub proof fn lemma_image_url_count(
    host: Seq<char>,
    id: Seq<char>,
    path: Seq<char>,
    animated: bool,
    page_count: u32,
    thumbnail: Option<Seq<char>>,
)
    ensures
        animated ==> image_urls(host, id, path, animated, page_count, thumbnail).len() == 2,
        !animated && page_count >= 1 ==> image_urls(
            host,
            id,
            path,
            animated,
            page_count,
            thumbnail,
        ).len() == page_count,
        image_urls(host, id, path, animated, page_count, thumbnail).len() >= 1,
{
}

} // verus!
