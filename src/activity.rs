//! The federated status that describes a page range of a listing.

use vstd::prelude::*;
use crate::activity_id::{decoded, ActivityId};
use crate::listing::ArtworkListing;
use crate::page::captionless_host;
use crate::text::{
    chars_of, chars_of_all, contains, decimal, decimal_of, find_in, is_ascii_digit, join,
    join_nonempty, joined, nonempty, parse_digits, push_str, starts_with, string_of,
    strings_view, views_of, digits_value, all_digits,
};

verus! {

/// Path parameters of a status request.
pub struct ActivityParams {
    pub id: String,
}

/// A status in the subset of the Mastodon schema that link-preview crawlers
/// read. Fields that are always null or empty are left to the serialiser.
pub struct ActivityResponse {
    pub id: String,
    pub url: String,
    pub uri: String,
    pub created_at: String,
    pub language: String,
    pub content: String,
    pub spoiler_text: String,
    pub visibility: String,
    pub application: Application,
    pub media_attachments: Vec<MediaAttachment>,
    pub account: Account,
}

pub struct Application {
    pub name: String,
}

pub struct MediaAttachment {
    pub id: String,
    pub media_type: String,
    pub url: String,
    pub preview_url: String,
    pub description: String,
}

pub struct Account {
    pub id: String,
    pub display_name: String,
    pub username: String,
    pub acct: String,
    pub url: String,
    pub uri: String,
    pub created_at: String,
    pub locked: bool,
    pub bot: bool,
    pub discoverable: bool,
    pub indexable: bool,
    pub group: bool,
    pub avatar: Option<String>,
    pub avatar_static: Option<String>,
    pub followers_count: i64,
    pub following_count: i64,
    pub statuses_count: i64,
    pub hide_collections: bool,
    pub noindex: bool,
}

/// Why a status could not be made.
#[derive(Debug, Clone, Copy, PartialEq, Eq, Structural)]
pub enum ActivityError {
    /// The status id is not a decimal 64-bit integer.
    InvalidId,
    /// The listing's creation date is not an RFC 3339 timestamp.
    InvalidTimestamp,
}

/// The HTML content of a status: a link to the artwork with its title, the
/// optional AI marker, the caption and the tags; empty parts are left out,
/// the others joined by `<br />`.
pub open spec fn status_content(
    url: Seq<char>,
    title: Seq<char>,
    ai_generated: bool,
    description: Seq<char>,
    tags: Seq<Seq<char>>,
    host: Seq<char>,
) -> Seq<char> {
    let link = "<strong><a href=\""@ + url + "\">"@ + title + "</a></strong>"@;
    let marker = if ai_generated {
        "<strong>AI Generated</strong><br />"@
    } else {
        Seq::empty()
    };
    let caption = if captionless_host(host) {
        Seq::empty()
    } else {
        description
    };
    joined(nonempty(seq![link, marker, caption, joined(tags, ", "@)]), "<br />"@)
}

/// Whether a page URL designates the animated asset.
pub open spec fn is_video_url(u: Seq<char>) -> bool {
    contains(u, "ugoira"@)
}

/// The attachment for the page URL `u` of a listing whose page URLs are `urls`:
/// a video previewed by the still frame, or an image previewed by itself.
pub open spec fn is_attachment_for(
    m: MediaAttachment,
    id: Seq<char>,
    urls: Seq<Seq<char>>,
    u: Seq<char>,
) -> bool {
    &&& m.id@ == id
    &&& m.url@ == u
    &&& m.description@ == Seq::<char>::empty()
    &&& if is_video_url(u) {
        &&& m.media_type@ == "video"@
        &&& m.preview_url@ == (if urls.len() > 1 {
            urls[1]
        } else {
            u
        })
    } else {
        &&& m.media_type@ == "image"@
        &&& m.preview_url@ == u
    }
}

/// The page range of a status: the requested index and up to `offset_end`
/// (at most two) more pages, both clamped to the last page.
pub open spec fn status_range(len: nat, index: u16, offset_end: u16) -> (nat, nat) {
    let last: nat = if len == 0 {
        0
    } else {
        (len - 1) as nat
    };
    let first: nat = if (index as nat) < last {
        index as nat
    } else {
        last
    };
    let extra: nat = if offset_end < 2 {
        offset_end as nat
    } else {
        2
    };
    let end: nat = if first + extra < last {
        first + extra
    } else {
        last
    };
    (first, end)
}

/// What `chrono` makes of a creation date: nothing where it is not RFC 3339,
/// else the same instant in UTC as `YYYY-MM-DDTHH:MM:SS.sssZ`.
pub uninterp spec fn utc_millis_timestamp(s: Seq<char>) -> Option<Seq<char>>;

/// Relies on `chrono::DateTime::parse_from_rfc3339`, `DateTime::to_utc` and
/// `DateTime::format`: parses an RFC 3339 timestamp and writes it in UTC with
/// millisecond precision.
#[verifier::external_body]
fn utc_millis(s: &str) -> (r: Option<String>)
    ensures
        r is Some <==> utc_millis_timestamp(s@) is Some,
        r matches Some(t) ==> utc_millis_timestamp(s@) == Some(t@),
{
    match chrono::DateTime::parse_from_rfc3339(s) {
        Ok(d) => Some(d.to_utc().format("%Y-%m-%dT%H:%M:%S%.3fZ").to_string()),
        Err(_) => None,
    }
}

fn attachment_for(id: &String, urls: &Vec<String>, k: usize) -> (r: MediaAttachment)
    requires
        k < urls@.len(),
    ensures
        is_attachment_for(r, id@, strings_view(urls@), urls@[k as int]@),
{
    let u = chars_of(urls[k].as_str());
    if find_in(&u, &chars_of("ugoira")) {
        let preview = if urls.len() > 1 {
            urls[1].clone()
        } else {
            urls[k].clone()
        };
        MediaAttachment {
            id: id.clone(),
            media_type: String::from_str("video"),
            url: urls[k].clone(),
            preview_url: preview,
            description: String::new(),
        }
    } else {
        MediaAttachment {
            id: id.clone(),
            media_type: String::from_str("image"),
            url: urls[k].clone(),
            preview_url: urls[k].clone(),
            description: String::new(),
        }
    }
}

impl ActivityResponse {
    /// The status `id` for pages `index..=index_end` of `listing`, created at
    /// `created_at`, as served on `host`.
    pub fn new(
        id: String,
        created_at: String,
        index: usize,
        index_end: usize,
        listing: &ArtworkListing,
        host: &str,
    ) -> (r: ActivityResponse)
        requires
            index <= index_end < listing.image_proxy_urls@.len(),
        ensures
            r.id == id,
            r.url == listing.url,
            r.uri == listing.url,
            r.created_at == created_at,
            r.language@ == "en"@,
            r.content@ == status_content(
                listing.url@,
                listing.title@,
                listing.ai_generated,
                listing.description@,
                strings_view(listing.tags@),
                host@,
            ),
            r.spoiler_text@ == Seq::<char>::empty(),
            r.visibility@ == "public"@,
            r.application.name@ == "Pixiv"@,
            r.media_attachments@.len() == index_end - index + 1,
            forall|k: int|
                0 <= k < r.media_attachments@.len() ==> is_attachment_for(
                    #[trigger] r.media_attachments@[k],
                    id@,
                    strings_view(listing.image_proxy_urls@),
                    listing.image_proxy_urls@[index + k]@,
                ),
            r.account.id == listing.author_id,
            r.account.display_name == listing.author_name,
            r.account.username@ == Seq::<char>::empty(),
            r.account.acct@ == Seq::<char>::empty(),
            r.account.url == listing.url,
            r.account.uri == listing.url,
            r.account.created_at == created_at,
            !r.account.locked && !r.account.bot && r.account.discoverable,
            !r.account.indexable && !r.account.group,
            r.account.avatar == listing.profile_image_url,
            r.account.avatar_static == listing.profile_image_url,
            r.account.followers_count == 0 && r.account.following_count == 0
                && r.account.statuses_count == 0,
            !r.account.hide_collections && !r.account.noindex,
    {
        let tags = chars_of_all(&listing.tags);
        let tag_string = join(&tags, &chars_of(", "));
        let mut link = chars_of("<strong><a href=\"");
        push_str(&mut link, listing.url.as_str());
        push_str(&mut link, "\">");
        push_str(&mut link, listing.title.as_str());
        push_str(&mut link, "</a></strong>");
        let marker = if listing.ai_generated {
            chars_of("<strong>AI Generated</strong><br />")
        } else {
            Vec::new()
        };
        let host_chars = chars_of(host);
        proof {
            reveal_strlit("c.");
        }
        let caption = if starts_with(&host_chars, &chars_of("c.")) {
            Vec::new()
        } else {
            chars_of(listing.description.as_str())
        };
        let mut parts: Vec<Vec<char>> = Vec::new();
        parts.push(link);
        parts.push(marker);
        parts.push(caption);
        parts.push(tag_string);
        assert(views_of(parts@) =~= seq![link@, marker@, caption@, tag_string@]);
        let content = string_of(&join_nonempty(&parts, &chars_of("<br />")));

        let mut media_attachments: Vec<MediaAttachment> = Vec::new();
        let mut k: usize = index;
        while k <= index_end
            invariant
                index <= k <= index_end + 1,
                index_end < listing.image_proxy_urls.len(),
                media_attachments@.len() == k - index,
                forall|j: int|
                    0 <= j < media_attachments@.len() ==> is_attachment_for(
                        #[trigger] media_attachments@[j],
                        id@,
                        strings_view(listing.image_proxy_urls@),
                        listing.image_proxy_urls@[index + j]@,
                    ),
            decreases index_end + 1 - k,
        {
            media_attachments.push(attachment_for(&id, &listing.image_proxy_urls, k));
            k = k + 1;
        }

        let account = Account {
            id: listing.author_id.clone(),
            display_name: listing.author_name.clone(),
            username: String::new(),
            acct: String::new(),
            url: listing.url.clone(),
            uri: listing.url.clone(),
            created_at: created_at.clone(),
            locked: false,
            bot: false,
            discoverable: true,
            indexable: false,
            group: false,
            avatar: listing.profile_image_url.clone(),
            avatar_static: listing.profile_image_url.clone(),
            followers_count: 0,
            following_count: 0,
            statuses_count: 0,
            hide_collections: false,
            noindex: false,
        };
        ActivityResponse {
            id: id,
            url: listing.url.clone(),
            uri: listing.url.clone(),
            created_at: created_at,
            language: String::from_str("en"),
            content,
            spoiler_text: String::new(),
            visibility: String::from_str("public"),
            application: Application { name: String::from_str("Pixiv") },
            media_attachments,
            account,
        }
    }

    /// The status that `activity` names, for its listing: pages from the
    /// identifier's index, clamped to the last page, plus up to two more.
    /// Fails only where the listing's creation date is not RFC 3339.
    pub fn for_listing(activity: &ActivityId, listing: &ArtworkListing, host: &str) -> (r: Result<
        ActivityResponse,
        ActivityError,
    >)
        requires
            listing.wf(),
        ensures
            r is Err <==> utc_millis_timestamp(listing.create_date@) is None,
            r matches Err(e) ==> e == ActivityError::InvalidTimestamp,
            r matches Ok(s) ==> {
                let (first, end) = status_range(
                    listing.image_proxy_urls@.len(),
                    activity.index,
                    activity.offset_end,
                );
                &&& s.id@ == decimal(activity.id as nat)
                &&& utc_millis_timestamp(listing.create_date@) == Some(s.created_at@)
                &&& s.url == listing.url
                &&& s.content@ == status_content(
                    listing.url@,
                    listing.title@,
                    listing.ai_generated,
                    listing.description@,
                    strings_view(listing.tags@),
                    host@,
                )
                &&& s.media_attachments@.len() == end - first + 1
                &&& forall|k: int|
                    0 <= k < s.media_attachments@.len() ==> is_attachment_for(
                        #[trigger] s.media_attachments@[k],
                        decimal(activity.id as nat),
                        strings_view(listing.image_proxy_urls@),
                        listing.image_proxy_urls@[first + k]@,
                    )
                &&& s.account.id == listing.author_id
                &&& s.account.avatar == listing.profile_image_url
            },
    {
        let created_at = match utc_millis(listing.create_date.as_str()) {
            Some(t) => t,
            None => {
                return Err(ActivityError::InvalidTimestamp);
            },
        };
        let (first, end) = activity_range(
            listing.image_proxy_urls.len(),
            activity.index,
            activity.offset_end,
        );
        let id = string_of(&decimal_of(activity.id as u64));
        Ok(ActivityResponse::new(id, created_at, first, end, listing, host))
    }
}

/// The page range of a status over a listing of `len` pages.
pub fn activity_range(len: usize, index: u16, offset_end: u16) -> (r: (usize, usize))
    ensures
        r.0 == status_range(len as nat, index, offset_end).0,
        r.1 == status_range(len as nat, index, offset_end).1,
        len >= 1 ==> r.0 <= r.1 < len,
{
    let last: usize = if len == 0 {
        0
    } else {
        len - 1
    };
    let first: usize = if (index as usize) < last {
        index as usize
    } else {
        last
    };
    let extra: usize = if offset_end < 2 {
        offset_end as usize
    } else {
        2
    };
    let end: usize = if first < last && extra < last - first {
        first + extra
    } else {
        last
    };
    (first, end)
}

/// The decimal value of a status id: an optional `+`, then one or more
/// decimal digits; nothing where the text is not such or exceeds 64 bits.
pub open spec fn decimal_u64(s: Seq<char>) -> Option<u64> {
    let d = if s.len() > 0 && s[0] == '+' {
        s.skip(1)
    } else {
        s
    };
    if d.len() >= 1 && all_digits(d) && digits_value(d) <= u64::MAX {
        Some(digits_value(d) as u64)
    } else {
        None
    }
}

/// Reads the identifier from a status id path segment.
pub fn parse_activity_id(segment: &str) -> (r: Result<ActivityId, ActivityError>)
    ensures
        r is Err <==> decimal_u64(segment@) is None,
        r matches Err(e) ==> e == ActivityError::InvalidId,
        r matches Ok(a) ==> a@ == decoded(decimal_u64(segment@)->0),
{
    let s = chars_of(segment);
    let from: usize = if s.len() > 0 && s[0] == '+' {
        1
    } else {
        0
    };
    let ghost d = s@.skip(from as int);
    assert(s@.skip(0) =~= s@);
    assert(d == (if s@.len() > 0 && s@[0] == '+' {
        s@.skip(1)
    } else {
        s@
    }));
    if from >= s.len() {
        return Err(ActivityError::InvalidId);
    }
    let mut i: usize = from;
    while i < s.len()
        invariant
            from <= i <= s@.len(),
            d == s@.skip(from as int),
            s@ == segment@,
            d == (if s@.len() > 0 && s@[0] == '+' {
                s@.skip(1)
            } else {
                s@
            }),
            forall|j: int| from <= j < i ==> is_ascii_digit(#[trigger] s@[j]),
        decreases s.len() - i,
    {
        if !('0' <= s[i] && s[i] <= '9') {
            assert(d[i - from] == s@[i as int]);
            assert(!is_ascii_digit(d[i - from]));
            assert(!all_digits(d));
            return Err(ActivityError::InvalidId);
        }
        i = i + 1;
    }
    assert(all_digits(d)) by {
        assert forall|j: int| 0 <= j < d.len() implies is_ascii_digit(#[trigger] d[j]) by {
            assert(d[j] == s@[from + j]);
        }
    }
    match parse_digits(&s, from, 0xFFFF_FFFF_FFFF_FFFF) {
        Some(v) => Ok(ActivityId::from_u64(v)),
        None => Err(ActivityError::InvalidId),
    }
}

} // verus!
