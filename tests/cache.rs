use std::sync::Arc;

use phixiv::cache::ListingCache;
use phixiv::listing::{ArtworkListing, BuildError, BuildOptions};
use phixiv::upstream::{AjaxBody, Urls};

fn listing(id: &str) -> ArtworkListing {
    ArtworkListing {
        image_proxy_urls: vec![format!("https://h/i/{id}_p0.jpg")],
        title: format!("title {id}"),
        ai_generated: false,
        description: String::new(),
        tags: vec![],
        url: String::new(),
        author_name: String::new(),
        author_id: String::new(),
        is_ugoira: false,
        create_date: String::new(),
        illust_id: id.to_string(),
        profile_image_url: None,
        language: "en".to_string(),
        bookmark_count: 0,
        like_count: 0,
        comment_count: 0,
        view_count: 0,
        x_restrict: 0,
    }
}

#[test]
fn cache_key_joins_language_and_id() {
    assert_eq!(ListingCache::key("en", "123"), "en_123");
}

#[test]
fn repeated_lookups_return_the_same_listing() {
    let mut c = ListingCache::with_capacity(4);
    assert!(c.lookup("en", "1").is_none());
    let stored = c.insert("en", "1", listing("1"));
    let a = c.lookup("en", "1").unwrap();
    let b = c.lookup("en", "1").unwrap();
    assert!(Arc::ptr_eq(&a, &b));
    assert!(Arc::ptr_eq(&a, &stored));
    assert_eq!(a.title, "title 1");
    assert!(c.lookup("jp", "1").is_none());
}

#[test]
fn least_recently_used_entry_is_evicted() {
    let mut c = ListingCache::with_capacity(3);
    for id in ["1", "2", "3", "4"] {
        c.insert("en", id, listing(id));
    }
    assert!(c.lookup("en", "1").is_none());
    for id in ["2", "3", "4"] {
        assert_eq!(c.lookup("en", id).unwrap().illust_id, id);
    }
}

#[test]
fn lookup_refreshes_an_entry() {
    let mut c = ListingCache::with_capacity(2);
    c.insert("en", "1", listing("1"));
    c.insert("en", "2", listing("2"));
    assert!(c.lookup("en", "1").is_some());
    c.insert("en", "3", listing("3"));
    assert!(c.lookup("en", "2").is_none());
    assert!(c.lookup("en", "1").is_some());
}

#[test]
fn default_cache_holds_1024_listings() {
    let mut c = ListingCache::new();
    for i in 0..1025 {
        c.insert("en", &i.to_string(), listing(&i.to_string()));
    }
    assert!(c.lookup("en", "0").is_none());
    assert!(c.lookup("en", "1").is_some());
}

#[test]
fn failed_build_is_not_cached() {
    let mut c = ListingCache::with_capacity(2);
    let body = AjaxBody {
        title: String::new(),
        description: String::new(),
        tags: vec![],
        urls: Urls { regular: None, original: None },
        author_id: String::new(),
        author_name: String::new(),
        canonical: String::new(),
        illust_type: 0,
        create_date: String::new(),
        user_illusts: vec![],
        page_count: 1,
        ai_type: 0,
        bookmark_count: 0,
        like_count: 0,
        comment_count: 0,
        view_count: 0,
        x_restrict: 0,
    };
    let options = BuildOptions { ugoira_enabled: false, thumbnail_type: None };
    let r = c.build_and_insert("5", "en", "h", &options, body);
    assert!(matches!(r, Err(BuildError::MissingImageUrl)));
    assert!(c.lookup("en", "5").is_none());
}
