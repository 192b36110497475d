//! The HTML preview page of one page of a listing: which image it shows and
//! the values that the page template renders.

use vstd::prelude::*;
use crate::activity_id::{encoded, ActivityId, ActivityIdModel};
use crate::caption::{extract_html_inner_text, inner_text};
use crate::listing::ArtworkListing;
use crate::text::{
    chars_of, chars_of_all, digits_value, join, join_nonempty, joined, nonempty,
    parse_digits, push_all, starts_with, string_of, strings_view, views_of,
};

verus! {

/// Values rendered by the page of a still artwork.
#[derive(Debug)]
pub struct ArtworkTemplate {
    pub image_proxy_url: String,
    pub title: String,
    pub description: String,
    pub author_name: String,
    pub author_id: String,
    pub url: String,
    pub alt_text: String,
    pub host: String,
    pub activity_id: u64,
    pub site_name: String,
}

/// Values rendered by the page of an animated artwork.
#[derive(Debug)]
pub struct UgoiraTemplate {
    pub image_proxy_url: String,
    pub title: String,
    pub description: String,
    pub author_name: String,
    pub author_id: String,
    pub url: String,
    pub alt_text: String,
    pub host: String,
    pub activity_id: u64,
    pub site_name: String,
}

/// The preview page to render, by kind of artwork.
#[derive(Debug)]
pub enum PreviewPage {
    Artwork(ArtworkTemplate),
    Ugoira(UgoiraTemplate),
}

/// Why a preview page could not be made.
#[derive(Debug, Clone, Copy, PartialEq, Eq, Structural)]
pub enum PageError {
    /// The illustration id does not fit in 32 bits.
    IdOutOfRange,
}

/// The zero-based page shown for a requested one-based page index: page 1
/// when none is requested, the last page when the request is beyond it, and
/// always the first for an animated artwork.
pub open spec fn selected_page(is_ugoira: bool, image_index: Option<usize>, len: nat) -> nat {
    if is_ugoira {
        0
    } else {
        let want: nat = match image_index {
            Some(i) => i as nat,
            None => 1,
        };
        let m = if want < len {
            want
        } else {
            len
        };
        if m == 0 {
            0
        } else {
            (m - 1) as nat
        }
    }
}

/// Whether a host asks for a page without caption (`c.` hosts).
pub open spec fn captionless_host(host: Seq<char>) -> bool {
    host.len() >= 2 && host.take(2) == "c."@
}

/// The page description: the optional AI marker and the plain caption, then
/// the tags; empty parts are left out, the others joined by newlines.
pub open spec fn page_description(
    ai_generated: bool,
    caption: Seq<char>,
    tags: Seq<Seq<char>>,
) -> Seq<char> {
    let marker = if ai_generated {
        "[AI Generated] "@
    } else {
        Seq::empty()
    };
    joined(nonempty(seq![marker + caption, joined(tags, ", "@)]), "\n"@)
}

/// The fields that both page kinds share, as `to_template` fills them.
pub open spec fn page_fields(
    l: ArtworkListing,
    image_index: Option<usize>,
    host: Seq<char>,
    site_name: Seq<char>,
    image_proxy_url: String,
    title: String,
    description: String,
    author_name: String,
    author_id: String,
    url: String,
    alt_text: String,
    page_host: String,
    activity_id: u64,
    page_site_name: String,
) -> bool {
    let index = selected_page(l.is_ugoira, image_index, l.image_proxy_urls@.len());
    let caption = if captionless_host(host) {
        Seq::empty()
    } else {
        inner_text(l.description@)
    };
    &&& image_proxy_url == l.image_proxy_urls@[index as int]
    &&& title == l.title
    &&& description@ == page_description(l.ai_generated, caption, strings_view(l.tags@))
    &&& author_name == l.author_name
    &&& author_id == l.author_id
    &&& url == l.url
    &&& alt_text@ == joined(strings_view(l.tags@), ", "@)
    &&& page_host@ == host
    &&& activity_id == encoded(
        ActivityIdModel {
            language: l.language@,
            id: digits_value(l.illust_id@) as u32,
            index: index as u16,
            offset_end: 0,
        },
    )
    &&& page_site_name@ == site_name
}

/// A page index above the last page resolves to the last page, and every
/// resolved index names a page.
pub proof fn lemma_page_index_clamps(is_ugoira: bool, image_index: Option<usize>, len: nat)
    requires
        len >= 1,
    ensures
        selected_page(is_ugoira, image_index, len) < len,
        !is_ugoira && (image_index matches Some(i) && i >= len) ==> selected_page(
            is_ugoira,
            image_index,
            len,
        ) == len - 1,
{
}

/// The zero-based page shown for a requested one-based page index.
pub fn page_index(is_ugoira: bool, image_index: Option<usize>, len: usize) -> (r: usize)
    ensures
        r == selected_page(is_ugoira, image_index, len as nat),
{
    if is_ugoira {
        0
    } else {
        let want: usize = match image_index {
            Some(i) => i,
            None => 1,
        };
        let m = if want < len {
            want
        } else {
            len
        };
        if m == 0 {
            0
        } else {
            m - 1
        }
    }
}

impl ArtworkListing {
    /// The values of the preview page for the requested one-based page index,
    /// as served on `host`. Fails only where the illustration id does not fit
    /// in 32 bits.
    pub fn to_template(&self, image_index: Option<usize>, host: &str, site_name: &str) -> (r:
        Result<PreviewPage, PageError>)
        requires
            self.wf(),
        ensures
            r is Err <==> digits_value(self.illust_id@) > u32::MAX,
            r matches Err(e) ==> e == PageError::IdOutOfRange,
            r matches Ok(p) ==> (p is Ugoira <==> self.is_ugoira),
            r matches Ok(PreviewPage::Artwork(t)) ==> page_fields(
                *self,
                image_index,
                host@,
                site_name@,
                t.image_proxy_url,
                t.title,
                t.description,
                t.author_name,
                t.author_id,
                t.url,
                t.alt_text,
                t.host,
                t.activity_id,
                t.site_name,
            ),
            r matches Ok(PreviewPage::Ugoira(t)) ==> page_fields(
                *self,
                image_index,
                host@,
                site_name@,
                t.image_proxy_url,
                t.title,
                t.description,
                t.author_name,
                t.author_id,
                t.url,
                t.alt_text,
                t.host,
                t.activity_id,
                t.site_name,
            ),
    {
        let index = page_index(self.is_ugoira, image_index, self.image_proxy_urls.len());
        let image_proxy_url = self.image_proxy_urls[index].clone();
        let tags = chars_of_all(&self.tags);
        let tag_string = join(&tags, &chars_of(", "));
        let host_chars = chars_of(host);
        proof {
            reveal_strlit("c.");
        }
        let caption = if starts_with(&host_chars, &chars_of("c.")) {
            Vec::new()
        } else {
            chars_of(extract_html_inner_text(self.description.as_str()).as_str())
        };
        let mut first = if self.ai_generated {
            chars_of("[AI Generated] ")
        } else {
            Vec::new()
        };
        let ghost marker = first@;
        push_all(&mut first, &caption);
        let mut parts: Vec<Vec<char>> = Vec::new();
        parts.push(first);
        parts.push(tag_string.clone());
        assert(views_of(parts@) =~= seq![marker + caption@, tag_string@]);
        let description = string_of(&join_nonempty(&parts, &chars_of("\n")));
        let id_chars = chars_of(self.illust_id.as_str());
        assert(id_chars@.skip(0) =~= id_chars@);
        let id = match parse_digits(&id_chars, 0, 0xFFFF_FFFF) {
            Some(v) => v as u32,
            None => {
                return Err(PageError::IdOutOfRange);
            },
        };
        let activity = ActivityId {
            language: self.language.clone(),
            id,
            index: #[verifier::truncate] (index as u16),
            offset_end: 0,
        };
        let activity_id = activity.to_u64();
        let alt_text = string_of(&tag_string);
        proof {
            let caption_spec = if captionless_host(host@) {
                Seq::empty()
            } else {
                inner_text(self.description@)
            };
            assert(caption@ == caption_spec);
            assert(description@ == page_description(
                self.ai_generated,
                caption_spec,
                strings_view(self.tags@),
            ));
            assert(activity_id == encoded(
                ActivityIdModel {
                    language: self.language@,
                    id: digits_value(self.illust_id@) as u32,
                    index: index as u16,
                    offset_end: 0,
                },
            ));
        }
        if self.is_ugoira {
            Ok(
                PreviewPage::Ugoira(
                    UgoiraTemplate {
                        image_proxy_url,
                        title: self.title.clone(),
                        description,
                        author_name: self.author_name.clone(),
                        author_id: self.author_id.clone(),
                        url: self.url.clone(),
                        alt_text,
                        host: String::from_str(host),
                        activity_id,
                        site_name: String::from_str(site_name),
                    },
                ),
            )
        } else {
            Ok(
                PreviewPage::Artwork(
                    ArtworkTemplate {
                        image_proxy_url,
                        title: self.title.clone(),
                        description,
                        author_name: self.author_name.clone(),
                        author_id: self.author_id.clone(),
                        url: self.url.clone(),
                        alt_text,
                        host: String::from_str(host),
                        activity_id,
                        site_name: String::from_str(site_name),
                    },
                ),
            )
        }
    }
}

} // verus!
