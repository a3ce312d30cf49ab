use fluxplay::sources::{
    boot_status, demo_source, is_demo, public_demo_profile, source_from_form, public_demo_catalog, redact_endpoint, sanitize_sources,
    strip_demo_if_real, MediaSource, SourceKind, DEMO_NAME,
};

fn xtream(id: u128, user: &str, pass: &str) -> MediaSource {
    let mut s = MediaSource::new(id, "panel", SourceKind::Xtream, "http://panel.example:8080");
    s.username = Some(user.to_string());
    s.password = Some(pass.to_string());
    s
}

#[test]
fn new_source_defaults() {
    let s = MediaSource::new(9, "Home", SourceKind::M3u, "http://x/list.m3u");
    assert_eq!(s.id, 9);
    assert_eq!(s.name, "Home");
    assert_eq!(s.kind, SourceKind::M3u);
    assert_eq!(s.endpoint, "http://x/list.m3u");
    assert!(s.enabled);
    assert!(s.username.is_none() && s.password.is_none());
}

#[test]
fn sanitize_drops_panel_playlists_and_repeated_accounts() {
    let mut v = vec![
        MediaSource::new(1, "m3u of panel", SourceKind::M3uPlus, "http://panel/get.php?type=m3u"),
        xtream(2, "bob", "pw"),
        xtream(3, "bob", "pw"),
        xtream(4, "alice", "pw"),
        MediaSource::new(5, "plain", SourceKind::M3u, "http://other/list.m3u"),
    ];
    sanitize_sources(&mut v);
    let enabled: Vec<bool> = v.iter().map(|s| s.enabled).collect();
    assert_eq!(enabled, vec![false, true, false, true, true]);
    assert_eq!(v.len(), 5);
}

#[test]
fn sanitize_keeps_panel_playlist_without_xtream() {
    let mut v = vec![
        MediaSource::new(1, "m3u of panel", SourceKind::M3u, "http://panel/get.php?type=m3u"),
        {
            let mut x = xtream(2, "bob", "pw");
            x.enabled = false;
            x
        },
    ];
    sanitize_sources(&mut v);
    assert!(v[0].enabled);
    assert!(!v[1].enabled);
}

#[test]
fn demo_profile() {
    let d = demo_source(1);
    assert_eq!(d.name, DEMO_NAME);
    assert_eq!(d.kind, SourceKind::M3uPlus);
    assert_eq!(d.endpoint, "https://iptv-org.github.io/iptv/categories/news.m3u");
    assert!(is_demo(&d));
    let c = public_demo_catalog();
    assert_eq!(c.len(), 4);
    assert_eq!(c[3].1, "https://test-streams.mux.dev/x36xhzz/x36xhzz.m3u8");
    let named = MediaSource::new(2, &c[1].0, SourceKind::M3u, &c[1].1);
    assert!(is_demo(&named));
    assert!(!is_demo(&MediaSource::new(3, "Home", SourceKind::M3u, "x")));
}

#[test]
fn demo_stripped_only_when_real_profile_exists() {
    let mut only_demo = vec![demo_source(1)];
    strip_demo_if_real(&mut only_demo);
    assert_eq!(only_demo.len(), 1);

    let mut mixed = vec![
        demo_source(1),
        MediaSource::new(2, "Home", SourceKind::M3u, "http://x/a.m3u"),
        MediaSource::new(3, "Démo · France (iptv-org)", SourceKind::M3u, "y"),
        MediaSource::new(4, "Work", SourceKind::Xtream, "http://p"),
    ];
    strip_demo_if_real(&mut mixed);
    let ids: Vec<u128> = mixed.iter().map(|s| s.id).collect();
    assert_eq!(ids, vec![2, 4]);
}

#[test]
fn redacted_endpoints() {
    assert_eq!(redact_endpoint("http://short/list.m3u"), "http://short/list.m3u");
    assert_eq!(redact_endpoint("#EXTM3U\n#EXTINF:-1,A\nhttp://a"), "playlist inline");
    let long = format!("http://example.com/{}", "a".repeat(80));
    let r = redact_endpoint(&long);
    assert_eq!(r, format!("{}…", &long[..64]));
}

#[test]
fn boot_sources_fall_back_to_demo() {
    let mut none: Vec<MediaSource> = Vec::new();
    fluxplay::sources::prepare_boot_sources(&mut none, 42);
    assert_eq!(none.len(), 1);
    assert_eq!(none[0].id, 42);
    assert_eq!(none[0].name, DEMO_NAME);

    let mut v = vec![demo_source(1), MediaSource::new(2, "Home", SourceKind::M3u, "http://x/a.m3u")];
    fluxplay::sources::prepare_boot_sources(&mut v, 42);
    let ids: Vec<u128> = v.iter().map(|s| s.id).collect();
    assert_eq!(ids, vec![2]);
}

#[test]
fn add_form_validation() {
    assert_eq!(
        source_from_form(1, "  ", SourceKind::M3u, "http://x", "", "", "", "").err(),
        Some("Nom et endpoint requis".to_string())
    );
    assert_eq!(
        source_from_form(1, "Panel", SourceKind::Xtream, "http://p", "bob", "  ", "", "").err(),
        Some("Xtream : identifiant et mot de passe requis".to_string())
    );
    let s = source_from_form(7, " Panel ", SourceKind::Xtream, " http://p ", "bob", " pw", "", "http://epg")
        .ok()
        .unwrap();
    assert_eq!(s.id, 7);
    assert_eq!(s.name, "Panel");
    assert_eq!(s.endpoint, "http://p");
    assert_eq!(s.username, Some("bob".to_string()));
    assert_eq!(s.password, Some(" pw".to_string()));
    assert_eq!(s.mac, None);
    assert_eq!(s.epg_url, Some("http://epg".to_string()));
    let d = public_demo_profile(3, " Démo · News (iptv-org) ", " https://iptv-org.github.io/iptv/categories/news.m3u ");
    assert_eq!(d.name, "Démo · News (iptv-org)");
    assert_eq!(d.kind, SourceKind::M3uPlus);
    assert!(is_demo(&d));
}

#[test]
fn boot_status_by_catalogue_state() {
    let demo = vec![demo_source(1)];
    assert_eq!(boot_status(&demo, true, 3, 4, 5), "Démo FluxPlay (ajoutez une source Xtream)");
    let real = vec![demo_source(1), xtream(2, "bob", "pw")];
    assert_eq!(
        boot_status(&real, true, 3, 4, 5),
        "Chargement cache · 3 live · 4 VOD · 5 séries…"
    );
    assert_eq!(
        boot_status(&real, false, 120, 0, 7),
        "DB locale · 120 live · 0 VOD · 7 séries — sync…"
    );
    assert_eq!(
        boot_status(&real, false, 0, 0, 0),
        "Synchronisation catalogue (live / VOD / séries)…"
    );
}
