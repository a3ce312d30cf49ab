use fluxplay::art::{
    clearnet_image_fallback, collapse_image_url, disk_copy_usable, disk_path_for_url,
    image_fetch_step, image_fetch_target, image_url_hash, images_over_cap, images_total_after, FetchAction, FetchEvent, MAX_IMAGE_BYTES, host_key, is_fetchable_image_url, looks_like_html, normalize_image_url,
    pick_art, HostWarnings, ImageCache, RequestOutcome, HOST_FAIL_TRIP, HOST_WARN_INTERVAL_MS,
    URL_SOFT_FAIL_MS,
};

fn png_bytes() -> Vec<u8> {
    let mut b = vec![0x89u8, b'P', b'N', b'G', 0x0d, 0x0a, 0x1a, 0x0a];
    b.resize(128, 0);
    b
}

#[test]
fn normalize_encodes_unicode_path() {
    let raw = "https://upload.wikimedia.org/wikipedia/fr/thumb/a/a5/Mayotte_La_1ère_-_Logo_2018.svg/1200px-Mayotte_La_1ère_-_Logo_2018.svg.png";
    let n = normalize_image_url(raw);
    assert!(n.contains("%C3%A8") || n.contains("%c3%a8"), "got {n}");
    assert!(!n.contains('è'));
}

#[test]
fn host_circuit_trips_after_threshold() {
    let mut c = ImageCache::new();
    let url = "http://dead.example:8080/a.png".to_string();
    let now: u64 = 1_000;
    for _ in 0..HOST_FAIL_TRIP {
        c.mark_soft_failed(&url, now);
    }
    assert!(c.host_blocked(&url, now));
    assert!(matches!(c.request(&url, None, now), RequestOutcome::Skip));
}

#[test]
fn host_not_tripped_below_threshold() {
    let mut c = ImageCache::new();
    let url = "http://slow.example/a.png";
    for _ in 1..HOST_FAIL_TRIP {
        c.mark_soft_failed(url, 10);
    }
    assert!(!c.host_blocked(url, 10));
    // The URL itself rests; another URL of the same host may be fetched.
    assert!(matches!(c.request(url, None, 10), RequestOutcome::Skip));
    assert!(matches!(
        c.request("http://slow.example/b.png", None, 10),
        RequestOutcome::Fetch { .. }
    ));
}

#[test]
fn soft_failed_url_is_retried_after_rest() {
    let mut c = ImageCache::new();
    let url = "https://img.example/p.jpg";
    c.mark_soft_failed(url, 100);
    assert!(matches!(c.request(url, None, 100 + URL_SOFT_FAIL_MS - 1), RequestOutcome::Skip));
    match c.request(url, Some(7), 100 + URL_SOFT_FAIL_MS) {
        RequestOutcome::Fetch { url: u, source_id } => {
            assert_eq!(u, "https://img.example/p.jpg");
            assert_eq!(source_id, Some(7));
        }
        _ => panic!("expected a fetch"),
    }
}

#[test]
fn request_lifecycle_fetch_pending_ready() {
    let mut c = ImageCache::new();
    let url = "https://img.example//posters//a.jpg";
    match c.request(url, Some(3), 0) {
        RequestOutcome::Fetch { url: u, source_id } => {
            assert_eq!(u, "https://img.example/posters/a.jpg");
            assert_eq!(source_id, Some(3));
        }
        _ => panic!("expected a fetch"),
    }
    assert_eq!(c.inflight_len(), 1);
    assert!(matches!(c.request(url, Some(3), 0), RequestOutcome::Pending));
    let canon = "https://img.example/posters/a.jpg";
    assert!(c.insert_bytes(canon, &png_bytes()));
    let (kept, gone) = c.insert_ui_bytes(canon, &png_bytes());
    assert!(kept);
    assert!(gone.is_empty());
    assert_eq!(c.inflight_len(), 0);
    assert!(c.get(canon));
    assert!(matches!(c.request(url, None, 0), RequestOutcome::Ready));
}

#[test]
fn html_body_marks_url_failed() {
    let mut c = ImageCache::new();
    let url = "https://img.example/x.jpg";
    let mut body = b"<!DOCTYPE html><html>".to_vec();
    body.resize(100, b' ');
    assert!(!c.insert_bytes(url, &body));
    assert!(matches!(c.request(url, None, 0), RequestOutcome::Skip));
    // Too short to be an image.
    assert!(!c.insert_bytes("https://img.example/y.jpg", &[0x89, b'P']));
}

#[test]
fn mark_failed_is_permanent() {
    let mut c = ImageCache::new();
    let url = "https://img.example/gone.jpg";
    c.mark_failed(url);
    assert!(matches!(c.request(url, None, u64::MAX), RequestOutcome::Skip));
}

#[test]
fn html_detection() {
    assert!(looks_like_html(b"<html><body>"));
    assert!(looks_like_html(b"<!doctype html>"));
    assert!(!looks_like_html(&[0x89, b'P', b'N', b'G']));
    assert!(!looks_like_html(b""));
    assert!(!looks_like_html(b" <html>"));
}

#[test]
fn fetchable_urls() {
    assert!(is_fetchable_image_url("https://x.org/a.png"));
    assert!(is_fetchable_image_url("  http://x.org/a.jpg  "));
    assert!(!is_fetchable_image_url("ftp://x.org/a.png"));
    assert!(!is_fetchable_image_url("https://x.org/logo.svg"));
    assert!(!is_fetchable_image_url("https://x.org/logo.SVG?size=2"));
    assert!(!is_fetchable_image_url("https://x.org/thumb/logo.svg/120px.png"));
    assert!(is_fetchable_image_url("https://image.tmdb.org/t/p/w500/abc.jpg"));
    assert!(!is_fetchable_image_url("https://image.tmdb.org/t/p/abc.jpg"));
    assert!(!is_fetchable_image_url("https://image.tmdb.org/t/p//w500/"));
    assert!(!is_fetchable_image_url(""));
}

#[test]
fn collapse_doubled_slashes() {
    assert_eq!(collapse_image_url(" https://a.com//b///c.png "), "https://a.com/b/c.png");
    assert_eq!(collapse_image_url("no-scheme//x"), "no-scheme//x");
}

#[test]
fn normalize_uses_url_serialization() {
    assert_eq!(normalize_image_url("HTTP://Example.COM/a b.png"), "http://example.com/a%20b.png");
    assert_eq!(normalize_image_url("not a url"), "not a url");
}

#[test]
fn pick_art_first_fetchable() {
    assert_eq!(
        pick_art(None, Some("ftp://x/p.jpg"), Some(" https://x.org//p.jpg "), Some("https://y.org/b.jpg")),
        Some("https://x.org/p.jpg".to_string())
    );
    assert_eq!(pick_art(Some("https://x.org/logo.svg"), None, None, None), None);
    assert_eq!(pick_art(None, None, None, None), None);
}

#[test]
fn host_keys() {
    assert_eq!(host_key("http://dead.example:8080/a.png"), Some("dead.example:8080".to_string()));
    assert_eq!(host_key("https://a.org/x"), Some("a.org".to_string()));
    assert_eq!(host_key("http://a.org:80/x"), Some("a.org".to_string()));
    assert_eq!(host_key("garbage"), None);
}

#[test]
fn host_warnings_rate_limited() {
    let mut w = HostWarnings::new();
    assert!(w.warn_host_once("a.org", 1_000));
    assert!(!w.warn_host_once("a.org", 1_000 + HOST_WARN_INTERVAL_MS - 1));
    assert!(w.warn_host_once("b.org", 1_001));
    assert!(w.warn_host_once("a.org", 1_000 + HOST_WARN_INTERVAL_MS));
}

#[test]
fn disk_paths_hash_the_url() {
    assert_eq!(
        disk_path_for_url("https://img.example/é.png", "/cache/fluxplay/images"),
        "/cache/fluxplay/images/178b2a2a5567e42473f795cd04063d7226c96700fa919222c8f92a8f7c6e7e8d.img"
    );
    assert_eq!(
        disk_path_for_url("https://img.example/é.png", "imgs/"),
        "imgs/178b2a2a5567e42473f795cd04063d7226c96700fa919222c8f92a8f7c6e7e8d.img"
    );
}

#[test]
fn fetch_target_and_disk_copies() {
    assert_eq!(image_fetch_target("https://x.org//a.png"), Ok("https://x.org/a.png".to_string()));
    assert_eq!(
        image_fetch_target("https://x.org/a.svg"),
        Err(("https://x.org/a.svg".to_string(), "invalid image url".to_string()))
    );
    assert!(disk_copy_usable(&png_bytes()));
    assert!(!disk_copy_usable(&[0x89, b'P']));
    let mut big = png_bytes();
    big.resize(MAX_IMAGE_BYTES + 1, 0);
    assert!(!disk_copy_usable(&big));
    assert!(clearnet_image_fallback(true, true, true));
    assert!(!clearnet_image_fallback(true, true, false));
    assert!(!clearnet_image_fallback(false, true, true));
}

#[test]
fn fetch_steps() {
    assert_eq!(image_fetch_step(0, FetchEvent::Status(200)), FetchAction::ReadBody);
    assert_eq!(image_fetch_step(0, FetchEvent::Status(429)), FetchAction::RetryAfterPause);
    assert_eq!(image_fetch_step(1, FetchEvent::Status(408)), FetchAction::GiveUp);
    assert_eq!(
        image_fetch_step(0, FetchEvent::Status(404)),
        FetchAction::RejectStatus { warn_host: false }
    );
    assert_eq!(
        image_fetch_step(0, FetchEvent::Status(503)),
        FetchAction::RejectStatus { warn_host: true }
    );
    assert_eq!(image_fetch_step(0, FetchEvent::SendFailed), FetchAction::GiveUp);
    assert_eq!(image_fetch_step(1, FetchEvent::BodyFailed), FetchAction::GiveUp);
    assert_eq!(
        image_fetch_step(0, FetchEvent::Body { len: MAX_IMAGE_BYTES + 1, html: false }),
        FetchAction::TooLarge
    );
    assert_eq!(image_fetch_step(0, FetchEvent::Body { len: 500, html: true }), FetchAction::HtmlBody);
    assert_eq!(image_fetch_step(1, FetchEvent::Body { len: 500, html: false }), FetchAction::Store);
}

#[test]
fn prefetch_starts_fetches_within_room() {
    let mut c = ImageCache::new();
    assert_eq!(c.prefetch_room(8), 8);
    c.mark_failed("https://x.org/bad.png");
    let urls = vec![
        "https://x.org/a.png".to_string(),
        "https://x.org/bad.png".to_string(),
        "ftp://x.org/c.png".to_string(),
        "https://x.org//b.png".to_string(),
        "https://x.org/d.png".to_string(),
    ];
    let started = c.prefetch_batch(&urls, 2, 0);
    let got: Vec<&str> = started.iter().map(|f| f.0.as_str()).collect();
    assert_eq!(got, vec!["https://x.org/a.png", "https://x.org/b.png"]);
    assert_eq!(c.inflight_len(), 2);
    assert_eq!(c.prefetch_room(100), 22);
    // Already in flight: nothing new is started.
    assert!(c.prefetch_batch(&urls[..1].to_vec(), 5, 0).is_empty());
    assert!(c.prefetch_batch(&urls, 0, 0).is_empty());
}

#[test]
fn image_meter_totals() {
    assert_eq!(images_total_after(3, 10, 2), 12);
    assert_eq!(images_total_after(10, 4, 2), 12);
    assert_eq!(images_total_after(0, u64::MAX, 5), u64::MAX);
}

#[test]
fn url_hash_and_eviction() {
    assert_eq!(
        image_url_hash("https://img.example/é.png"),
        "178b2a2a5567e42473f795cd04063d7226c96700fa919222c8f92a8f7c6e7e8d"
    );
    assert_eq!(images_over_cap(4_010, 4_000), 10);
    assert_eq!(images_over_cap(12, 4_000), 0);
}

#[test]
fn ram_lru_holds_ninety_six_images() {
    let mut c = ImageCache::new();
    let urls: Vec<String> = (0..97).map(|i| format!("https://img.example/p{i}.png")).collect();
    for u in urls.iter().take(96) {
        let (kept, gone) = c.insert_ui_bytes(u, &png_bytes());
        assert!(kept);
        assert!(gone.is_empty());
    }
    assert!(urls.iter().take(96).all(|u| c.get(u)));
    let (kept, gone) = c.insert_ui_bytes(&urls[96], &png_bytes());
    assert!(kept);
    assert_eq!(gone, vec![urls[0].clone()]);
    assert!(!c.get(&urls[0]));
    assert_eq!(urls.iter().filter(|u| c.get(u)).count(), 96);
}
