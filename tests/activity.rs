use phixiv::activity::{activity_range, parse_activity_id, ActivityError, ActivityResponse};
use phixiv::activity_id::ActivityId;
use phixiv::listing::ArtworkListing;

fn listing(urls: Vec<&str>, ai: bool, create_date: &str) -> ArtworkListing {
    ArtworkListing {
        image_proxy_urls: urls.into_iter().map(String::from).collect(),
        title: "T".to_string(),
        ai_generated: ai,
        description: "cap<br />tion".to_string(),
        tags: vec!["#a".to_string(), "#b".to_string()],
        url: "https://www.pixiv.net/artworks/7".to_string(),
        author_name: "N".to_string(),
        author_id: "9".to_string(),
        is_ugoira: false,
        create_date: create_date.to_string(),
        illust_id: "7".to_string(),
        profile_image_url: Some("https://h/i/p.png".to_string()),
        language: "en".to_string(),
        bookmark_count: 0,
        like_count: 0,
        comment_count: 0,
        view_count: 0,
        x_restrict: 0,
    }
}

#[test]
fn status_content_joins_present_parts() {
    let l = listing(vec!["https://h/i/a_p0.jpg"], true, "2023-01-01T00:00:00Z");
    let s = ActivityResponse::new("7".to_string(), "c".to_string(), 0, 0, &l, "h");
    assert_eq!(
        s.content,
        "<strong><a href=\"https://www.pixiv.net/artworks/7\">T</a></strong><br /><strong>AI Generated</strong><br /><br />cap<br />tion<br />#a, #b"
    );
    let plain = listing(vec!["https://h/i/a_p0.jpg"], false, "x");
    let s = ActivityResponse::new("7".to_string(), "c".to_string(), 0, 0, &plain, "c.h");
    assert_eq!(s.content, "<strong><a href=\"https://www.pixiv.net/artworks/7\">T</a></strong><br />#a, #b");
    assert_eq!(s.account.avatar.as_deref(), Some("https://h/i/p.png"));
    assert_eq!(s.visibility, "public");
    assert_eq!(s.language, "en");
}

#[test]
fn status_attachments_cover_the_range() {
    let l = listing(vec!["https://h/i/a_p0.jpg", "https://h/i/a_p1.jpg", "https://h/i/a_p2.jpg"], false, "x");
    let s = ActivityResponse::new("7".to_string(), "c".to_string(), 1, 2, &l, "h");
    assert_eq!(s.media_attachments.len(), 2);
    assert_eq!(s.media_attachments[0].url, "https://h/i/a_p1.jpg");
    assert_eq!(s.media_attachments[1].preview_url, "https://h/i/a_p2.jpg");
    assert_eq!(s.media_attachments[1].media_type, "image");
}

#[test]
fn status_video_attachment_previews_still_frame() {
    let l = listing(vec!["https://h/i/ugoira/7.mp4", "https://h/i/a_p0.jpg"], false, "x");
    let s = ActivityResponse::new("7".to_string(), "c".to_string(), 0, 0, &l, "h");
    assert_eq!(s.media_attachments[0].media_type, "video");
    assert_eq!(s.media_attachments[0].preview_url, "https://h/i/a_p0.jpg");
}

#[test]
fn status_range_is_clamped() {
    assert_eq!(activity_range(3, 0, 0), (0, 0));
    assert_eq!(activity_range(3, 1, 5), (1, 2));
    assert_eq!(activity_range(3, 9, 1), (2, 2));
    assert_eq!(activity_range(10, 2, 7), (2, 4));
}

#[test]
fn status_for_listing_converts_date_to_utc() {
    let l = listing(vec!["https://h/i/a_p0.jpg", "https://h/i/a_p1.jpg"], false, "2023-01-02T03:04:05+09:00");
    let a = ActivityId { language: "en".to_string(), id: 7, index: 0, offset_end: 1 };
    let s = ActivityResponse::for_listing(&a, &l, "h").unwrap();
    assert_eq!(s.created_at, "2023-01-01T18:04:05.000Z");
    assert_eq!(s.id, "7");
    assert_eq!(s.media_attachments.len(), 2);
}

#[test]
fn status_for_listing_rejects_bad_date() {
    let l = listing(vec!["https://h/i/a_p0.jpg"], false, "yesterday");
    let a = ActivityId { language: "en".to_string(), id: 7, index: 0, offset_end: 0 };
    assert!(matches!(ActivityResponse::for_listing(&a, &l, "h"), Err(ActivityError::InvalidTimestamp)));
}

#[test]
fn status_id_segment_is_parsed() {
    let a = parse_activity_id("281474976776193").unwrap();
    assert_eq!((a.language.as_str(), a.id, a.index, a.offset_end), ("en", 1, 1, 0));
    assert!(parse_activity_id("+5").is_ok());
    assert!(matches!(parse_activity_id(""), Err(ActivityError::InvalidId)));
    assert!(matches!(parse_activity_id("12a"), Err(ActivityError::InvalidId)));
    assert!(matches!(parse_activity_id("18446744073709551616"), Err(ActivityError::InvalidId)));
    assert_eq!(parse_activity_id("18446744073709551615").unwrap().offset_end, 255);
}
