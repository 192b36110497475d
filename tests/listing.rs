use phixiv::listing::{build_listing, BuildError, BuildOptions};
use phixiv::page::{page_index, PageError, PreviewPage};
use phixiv::upstream::{AjaxBody, Tag, UserIllust, Urls};

const IMAGE: &str = "https://i.pximg.net/img-master/img/2023/01/02/03/04/05/100_p0_master1200.jpg";

fn body(page_count: u32, illust_type: u8) -> AjaxBody {
    AjaxBody {
        title: "Title".to_string(),
        description: "Hello<br />see <a href=\"/jump.php?https%3A%2F%2Fexample.com%2F\">x</a>".to_string(),
        tags: vec![
            Tag {
                tag: "猫".to_string(),
                translation: Some(vec![("en".to_string(), "cat".to_string())]),
            },
            Tag { tag: "art".to_string(), translation: None },
        ],
        urls: Urls { regular: Some(IMAGE.to_string()), original: None },
        author_id: "42".to_string(),
        author_name: "Author".to_string(),
        canonical: "https://www.pixiv.net/artworks/100".to_string(),
        illust_type,
        create_date: "2023-01-02T03:04:05+09:00".to_string(),
        user_illusts: vec![
            ("1".to_string(), None),
            ("2".to_string(), Some(UserIllust { profile_image_url: None })),
            (
                "3".to_string(),
                Some(UserIllust {
                    profile_image_url: Some("https://i.pximg.net/user-profile/img/a.png".to_string()),
                }),
            ),
        ],
        page_count,
        ai_type: 2,
        bookmark_count: 1,
        like_count: 2,
        comment_count: 3,
        view_count: 4,
        x_restrict: 0,
    }
}

fn options(ugoira: bool) -> BuildOptions {
    BuildOptions { ugoira_enabled: ugoira, thumbnail_type: None }
}

#[test]
fn pages_are_derived_from_the_first_page_path() {
    let l = build_listing("100", "en", "example.org", &options(false), body(3, 0)).unwrap();
    assert_eq!(
        l.image_proxy_urls,
        vec![
            "https://example.org/i/img-master/img/2023/01/02/03/04/05/100_p0_master1200.jpg",
            "https://example.org/i/img-master/img/2023/01/02/03/04/05/100_p1_master1200.jpg",
            "https://example.org/i/img-master/img/2023/01/02/03/04/05/100_p2_master1200.jpg",
        ]
    );
    assert_eq!(l.illust_id, "100");
    assert!(l.ai_generated);
    assert!(!l.is_ugoira);
    assert_eq!(l.description, "Hello<br />see <a href=\"https://example.com/\">x</a>");
    assert_eq!(l.profile_image_url.as_deref(), Some("https://example.org/i/user-profile/img/a.png"));
    assert_eq!((l.bookmark_count, l.like_count, l.comment_count, l.view_count), (1, 2, 3, 4));
}

#[test]
fn thumbnail_type_replaces_master_segment() {
    let o = BuildOptions { ugoira_enabled: false, thumbnail_type: Some("c/600x600/img-master".to_string()) };
    let l = build_listing("100", "en", "h", &o, body(2, 0)).unwrap();
    assert_eq!(l.image_proxy_urls[1], "https://h/i/c/600x600/img-master/img/2023/01/02/03/04/05/100_p1_master1200.jpg");
}

#[test]
fn tags_are_localised_with_fallback() {
    let en = build_listing("100", "en", "h", &options(false), body(1, 0)).unwrap();
    assert_eq!(en.tags, vec!["#cat", "#art"]);
    let fr = build_listing("100", "fr", "h", &options(false), body(1, 0)).unwrap();
    assert_eq!(fr.tags, vec!["#猫", "#art"]);
}

#[test]
fn illust_id_keeps_leading_digits_only() {
    let l = build_listing("100#frag", "jp", "h", &options(false), body(1, 0)).unwrap();
    assert_eq!(l.illust_id, "100");
    assert_eq!(l.language, "jp");
}

#[test]
fn build_errors_are_reported() {
    assert!(matches!(
        build_listing("abc", "en", "h", &options(false), body(1, 0)),
        Err(BuildError::InvalidIdentifier)
    ));
    let mut b = body(1, 0);
    b.urls = Urls { regular: None, original: None };
    assert!(matches!(build_listing("1", "en", "h", &options(false), b), Err(BuildError::MissingImageUrl)));
    let mut b = body(1, 0);
    b.urls = Urls { regular: None, original: Some("not a url".to_string()) };
    assert!(matches!(build_listing("1", "en", "h", &options(false), b), Err(BuildError::InvalidUrl)));
}

#[test]
fn original_resolution_is_the_fallback() {
    let mut b = body(1, 0);
    b.urls = Urls { regular: None, original: Some("https://i.pximg.net/img-original/x_p0.png".to_string()) };
    let l = build_listing("1", "en", "h", &options(false), b).unwrap();
    assert_eq!(l.image_proxy_urls, vec!["https://h/i/img-original/x_p0.png"]);
}

#[test]
fn ugoira_yields_video_and_still_when_enabled() {
    let l = build_listing("100", "en", "h", &options(true), body(1, 2)).unwrap();
    assert_eq!(
        l.image_proxy_urls,
        vec![
            "https://h/i/ugoira/100.mp4",
            "https://h/i/img-master/img/2023/01/02/03/04/05/100_p0_master1200.jpg",
        ]
    );
    assert!(l.is_ugoira);
    let off = build_listing("100", "en", "h", &options(false), body(4, 2)).unwrap();
    assert_eq!(off.image_proxy_urls.len(), 4);
}

#[test]
fn zero_page_count_still_has_the_first_page() {
    let l = build_listing("100", "en", "h", &options(false), body(0, 0)).unwrap();
    assert_eq!(l.image_proxy_urls.len(), 1);
}

#[test]
fn page_index_clamps_to_last_page() {
    assert_eq!(page_index(false, Some(99), 3), 2);
    assert_eq!(page_index(false, None, 3), 0);
    assert_eq!(page_index(false, Some(0), 3), 0);
    assert_eq!(page_index(false, Some(2), 3), 1);
    assert_eq!(page_index(true, Some(2), 3), 0);
}

#[test]
fn template_shows_the_requested_page() {
    let l = build_listing("100", "en", "example.org", &options(false), body(3, 0)).unwrap();
    match l.to_template(Some(99), "example.org", "phixiv").unwrap() {
        PreviewPage::Artwork(t) => {
            assert!(t.image_proxy_url.ends_with("100_p2_master1200.jpg"));
            assert_eq!(t.description, "[AI Generated] Hello\nsee  x\n#cat, #art");
            assert_eq!(t.alt_text, "#cat, #art");
            assert_eq!(t.activity_id, (1u64 << 48) | (100 << 16) | 2);
            assert_eq!(t.site_name, "phixiv");
            assert_eq!(t.title, "Title");
        }
        PreviewPage::Ugoira(_) => panic!("not animated"),
    }
}

#[test]
fn template_on_captionless_host_has_only_tags() {
    let mut b = body(1, 0);
    b.ai_type = 0;
    let l = build_listing("100", "en", "c.example.org", &options(false), b).unwrap();
    match l.to_template(None, "c.example.org", "phixiv").unwrap() {
        PreviewPage::Artwork(t) => assert_eq!(t.description, "#cat, #art"),
        PreviewPage::Ugoira(_) => panic!("not animated"),
    }
}

#[test]
fn template_of_ugoira_uses_first_entry() {
    let l = build_listing("100", "en", "h", &options(true), body(1, 2)).unwrap();
    match l.to_template(Some(2), "h", "s").unwrap() {
        PreviewPage::Ugoira(t) => assert_eq!(t.image_proxy_url, "https://h/i/ugoira/100.mp4"),
        PreviewPage::Artwork(_) => panic!("animated"),
    }
}

#[test]
fn template_rejects_id_beyond_32_bits() {
    let l = build_listing("4294967296", "en", "h", &options(false), body(1, 0)).unwrap();
    assert!(matches!(l.to_template(None, "h", "s"), Err(PageError::IdOutOfRange)));
}
