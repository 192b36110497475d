use phixiv::oembed::{embed_lookup_url, EmbedError, EmbedRequest, EmbedResponse, PixivEmbedResponse};
use phixiv::routing::{
    bot_redirect, listing_request_url, redirect_target, session_cookie, ArtworkPath, PathError,
    RawArtworkPath,
};

fn raw(language: Option<&str>, id: &str, index: Option<&str>) -> RawArtworkPath {
    RawArtworkPath {
        language: language.map(String::from),
        id: id.to_string(),
        image_index: index.map(String::from),
    }
}

#[test]
fn page_index_reads_leading_digits() {
    let p = ArtworkPath::from_raw(raw(Some("en"), "1", Some("3abc"))).unwrap();
    assert_eq!(p.image_index, Some(3));
    assert_eq!(p.language.as_deref(), Some("en"));
    assert_eq!(ArtworkPath::from_raw(raw(None, "1", None)).unwrap().image_index, None);
    assert!(matches!(ArtworkPath::from_raw(raw(None, "1", Some("x"))), Err(PathError::InvalidIndex)));
    assert!(matches!(
        ArtworkPath::from_raw(raw(None, "1", Some("99999999999999999999999"))),
        Err(PathError::InvalidIndex)
    ));
}

#[test]
fn member_illust_path_has_only_an_id() {
    let p = RawArtworkPath::member_illust("55".to_string());
    assert_eq!(p.id, "55");
    assert!(p.language.is_none() && p.image_index.is_none());
}

#[test]
fn humans_are_redirected_when_filtering() {
    let p = raw(Some("en"), "123", Some("2"));
    let ua = "Mozilla/5.0 (Windows NT 10.0; Win64; x64) AppleWebKit/537.36 (KHTML, like Gecko) Chrome/119.0.0.0 Safari/537.36";
    assert_eq!(bot_redirect(true, ua, &p).as_deref(), Some("https://www.pixiv.net/en/artworks/123#2"));
    assert_eq!(bot_redirect(false, ua, &p), None);
    assert_eq!(bot_redirect(true, "Googlebot/2.1 (+http://www.google.com/bot.html)", &p), None);
    assert_eq!(
        bot_redirect(true, ua, &raw(None, "9", None)).as_deref(),
        Some("https://www.pixiv.net/artworks/9")
    );
}

#[test]
fn unknown_paths_redirect_upstream() {
    assert_eq!(redirect_target(None, "https://p"), "https://www.pixiv.net/");
    assert_eq!(redirect_target(Some("/"), "https://p"), "https://p");
    assert_eq!(redirect_target(Some("/?a=b"), "https://p"), "https://p");
    assert_eq!(redirect_target(Some("/users/1?x=y"), "https://p"), "https://www.pixiv.net/users/1?x=y");
}

#[test]
fn upstream_request_names_id_and_language() {
    assert_eq!(listing_request_url("100", "en"), "https://www.pixiv.net/ajax/illust/100?lang=en");
    assert_eq!(session_cookie("abc"), "PHPSESSID=abc");
}

#[test]
fn oembed_links_the_author_page() {
    let r = EmbedResponse::for_request(
        EmbedRequest { author_name: "N".to_string(), author_id: Some("a b/é".to_string()) },
        "phixiv".to_string(),
        "https://p".to_string(),
    );
    assert_eq!(r.author_url, "https://www.pixiv.net/users/a%20b%2F%C3%A9");
    assert_eq!((r.version.as_str(), r.embed_type.as_str()), ("1.0", "rich"));
    let r = EmbedResponse::for_request(
        EmbedRequest { author_name: "N".to_string(), author_id: None },
        "phixiv".to_string(),
        "https://p".to_string(),
    );
    assert_eq!(r.author_url, "https://www.pixiv.net/");
    assert_eq!(r.provider_url, "https://p");
}

#[test]
fn oembed_relays_upstream_author() {
    let r = EmbedResponse::from_upstream(PixivEmbedResponse {
        author_name: "N".to_string(),
        author_url: "https://www.pixiv.net/users/1".to_string(),
    });
    assert_eq!(r.provider_name, "phixiv");
    assert_eq!(r.author_url, "https://www.pixiv.net/users/1");
    let n = EmbedResponse::new("a".to_string(), "b".to_string(), "c".to_string(), "d".to_string());
    assert_eq!(n.author_name, "a");
}

#[test]
fn embed_lookup_requires_pixiv_host() {
    assert!(matches!(embed_lookup_url(None), Err(EmbedError::UrlNotProvided)));
    assert!(matches!(embed_lookup_url(Some("nope")), Err(EmbedError::InvalidUrl)));
    match embed_lookup_url(Some("https://example.com/a")) {
        Err(EmbedError::InvalidHost(Some(h))) => assert_eq!(h, "example.com"),
        _ => panic!("host must be refused"),
    }
    assert_eq!(
        embed_lookup_url(Some("https://www.pixiv.net/artworks/1")).unwrap(),
        "https://embed.pixiv.net/oembed.php?url=https%3A%2F%2Fwww.pixiv.net%2Fartworks%2F1"
    );
}
