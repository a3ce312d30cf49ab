use fluxplay::catalog::{
    apply_kind_tag, ingest_status_line,
    checksum_meta_key, fts_match_query, is_adult_cat, is_sync_fresh, like_pattern,
    merge_part_with_existing, merge_series_keep_meta, merge_vod_keep_meta,
    merge_xtream_vod_fields, meta_cache_row, patch_series_meta, patch_vod_meta,
    pick_default_live_group, portal_checksum, prefer_if_empty, prefer_longer,
    prepare_source_apply, replace_source_bundle, series_meta_ok, vod_meta_ok, BundleApplyKind,
    Category, Channel, ContentKind, Episode, IngestOutcome, IngestTally, PlaylistBundle, Season,
    SeriesItem, VodItem, META_MISS_TTL_SECS, SYNC_FRESH_SECS,
};

fn s(x: &str) -> Option<String> {
    Some(x.to_string())
}

fn vod(id: &str) -> VodItem {
    VodItem {
        id: id.to_string(),
        name: format!("Film {id}"),
        stream_url: format!("http://s/movie/{id}.mp4"),
        poster: None,
        category_id: None,
        plot: None,
        actors: None,
        director: None,
        writer: None,
        runtime: None,
        rated: None,
        awards: None,
        language: None,
        country: None,
        genre: None,
        year: None,
        rating: None,
        imdb_id: None,
        source_id: None,
    }
}

fn series(id: &str) -> SeriesItem {
    SeriesItem {
        id: id.to_string(),
        name: "Show".to_string(),
        cover: None,
        banner: None,
        category_id: None,
        plot: None,
        actors: None,
        director: None,
        writer: None,
        runtime: None,
        rated: None,
        awards: None,
        language: None,
        country: None,
        genre: None,
        year: None,
        rating: None,
        imdb_id: None,
        seasons: Vec::new(),
        source_id: None,
    }
}

fn episode(id: &str) -> Episode {
    Episode { id: id.to_string(), title: format!("Ep {id}"), stream_url: format!("http://s/e/{id}") }
}

fn channel(id: &str, url: &str, name: &str, logo: Option<&str>, group: Option<&str>) -> Channel {
    Channel {
        id: id.to_string(),
        name: name.to_string(),
        stream_url: url.to_string(),
        logo: logo.map(|l| l.to_string()),
        tvg_logo: None,
        group: group.map(|g| g.to_string()),
        kind: fluxplay::catalog::ContentKind::Live,
        source_id: None,
    }
}

fn category(id: &str, name: &str, content: ContentKind) -> Category {
    Category { id: id.to_string(), name: name.to_string(), content }
}

fn empty_bundle() -> PlaylistBundle {
    PlaylistBundle {
        categories: Vec::new(),
        channels: Vec::new(),
        vod: Vec::new(),
        series: Vec::new(),
        epg: Vec::new(),
    }
}

#[test]
fn prefer_longer_and_if_empty() {
    let mut d = s("short");
    prefer_longer(&mut d, s("a longer text"));
    assert_eq!(d, s("a longer text"));
    prefer_longer(&mut d, s("tiny"));
    assert_eq!(d, s("a longer text"));
    prefer_longer(&mut d, None);
    assert_eq!(d, s("a longer text"));

    let mut e = s("");
    prefer_if_empty(&mut e, s("filled"));
    assert_eq!(e, s("filled"));
    prefer_if_empty(&mut e, s("other"));
    assert_eq!(e, s("filled"));
    let mut n: Option<String> = None;
    prefer_if_empty(&mut n, s(""));
    assert_eq!(n, None);
}

#[test]
fn vod_keep_meta_fills_only_gaps() {
    let mut portal = vod("1");
    portal.plot = s("Short.");
    portal.genre = s("Drama");
    let mut stored = vod("1");
    stored.plot = s("A much longer plot kept from the enrichment.");
    stored.genre = s("Crime");
    stored.actors = s("A, B");
    stored.imdb_id = s("tt1");
    stored.poster = s("http://p/1.jpg");
    merge_vod_keep_meta(&mut portal, &stored);
    assert_eq!(portal.plot, s("A much longer plot kept from the enrichment."));
    assert_eq!(portal.genre, s("Drama"));
    assert_eq!(portal.actors, s("A, B"));
    assert_eq!(portal.imdb_id, s("tt1"));
    assert_eq!(portal.poster, s("http://p/1.jpg"));
    assert_eq!(portal.name, "Film 1");
}

#[test]
fn series_keep_meta_keeps_seasons() {
    let mut portal = series("s1");
    let mut stored = series("s1");
    stored.seasons = vec![Season { number: 1, episodes: vec![episode("e1")] }];
    stored.cover = s("http://c/1.jpg");
    merge_series_keep_meta(&mut portal, &stored);
    assert_eq!(portal.seasons.len(), 1);
    assert_eq!(portal.seasons[0].episodes[0].id, "e1");
    assert_eq!(portal.cover, s("http://c/1.jpg"));
}

#[test]
fn meta_ok_rules() {
    let mut v = vod("1");
    assert!(!vod_meta_ok(&v));
    v.imdb_id = s("tt9");
    assert!(vod_meta_ok(&v));
    let mut w = vod("2");
    w.plot = s("short");
    w.actors = s("X");
    assert!(!vod_meta_ok(&w));
    w.plot = s("A plot that is at least forty bytes long!!");
    assert!(vod_meta_ok(&w));
    let mut t = series("3");
    t.genre = s("Drama");
    t.year = s("2020");
    assert!(!series_meta_ok(&t));
    t.plot = s("x");
    assert!(series_meta_ok(&t));
}

#[test]
fn xtream_fields_replace_but_poster_only_fills() {
    let mut e = vod("1");
    e.plot = s("old plot");
    e.poster = s("http://p/old.jpg");
    e.genre = s("Old");
    let mut i = vod("1");
    i.plot = s("new plot");
    i.poster = s("http://p/new.jpg");
    i.year = s("1999");
    merge_xtream_vod_fields(&mut e, &i);
    assert_eq!(e.plot, s("new plot"));
    assert_eq!(e.poster, s("http://p/old.jpg"));
    assert_eq!(e.genre, s("Old"));
    assert_eq!(e.year, s("1999"));
}

#[test]
fn part_merge_owns_items_and_keeps_enrichment() {
    let mut existing = empty_bundle();
    let mut old1 = vod("1");
    old1.source_id = Some(7);
    old1.actors = s("Kept Actor");
    old1.plot = s("An enriched plot that is longer than the portal one.");
    existing.vod.push(old1);
    let mut other = vod("2");
    other.source_id = Some(8);
    other.actors = s("Other source");
    existing.vod.push(other);

    let mut part = empty_bundle();
    let mut p1 = vod("1");
    p1.plot = s("Portal plot.");
    part.vod.push(p1);
    part.vod.push(vod("2"));
    part.channels.push(channel("c1", "http://s/1", "One", None, None));

    let r = merge_part_with_existing(&existing, 7, part);
    assert_eq!(r.vod[0].source_id, Some(7));
    assert_eq!(r.vod[0].actors, s("Kept Actor"));
    assert_eq!(r.vod[0].plot, s("An enriched plot that is longer than the portal one."));
    // Enrichment of another source is not carried over.
    assert_eq!(r.vod[1].actors, None);
    assert_eq!(r.vod[1].source_id, Some(7));
    assert_eq!(r.channels[0].source_id, Some(7));
}

#[test]
fn replace_source_bundle_drops_old_items_and_dedups() {
    let mut into = empty_bundle();
    into.categories.push(category("1", "News", ContentKind::Live));
    into.categories.push(category("2", "Films", ContentKind::Vod));
    let mut a = channel("a", "http://s/a", "A", None, None);
    a.source_id = Some(1);
    let mut b = channel("b", "http://s/b", "B", None, None);
    b.source_id = Some(2);
    into.channels.push(a);
    into.channels.push(b);

    let mut part = empty_bundle();
    part.categories.push(category("1", "Actualités", ContentKind::Live));
    let mut a2 = channel("a2", "http://s/a2", "A2", None, None);
    a2.source_id = Some(1);
    let mut dup = channel("b", "http://s/b-new", "B new", None, None);
    dup.source_id = Some(1);
    part.channels.push(a2);
    part.channels.push(dup);

    replace_source_bundle(&mut into, 1, part);
    let cats: Vec<(&str, &str)> =
        into.categories.iter().map(|c| (c.id.as_str(), c.name.as_str())).collect();
    assert_eq!(cats, vec![("2", "Films"), ("1", "Actualités")]);
    let ids: Vec<(&str, &str)> =
        into.channels.iter().map(|c| (c.id.as_str(), c.stream_url.as_str())).collect();
    assert_eq!(ids, vec![("b", "http://s/b"), ("a2", "http://s/a2")]);
}

#[test]
fn checksum_of_empty_bundle_is_sha256_of_nothing() {
    assert_eq!(
        portal_checksum(&empty_bundle()),
        "e3b0c44298fc1c149afbf4c8996fb92427ae41e4649b934ca495991b7852b855"
    );
}

#[test]
fn checksum_exact_and_order_independent() {
    let mut b = empty_bundle();
    b.categories.push(category("1", "News", ContentKind::Live));
    b.channels.push(channel("c2", "http://s/2", "Two", Some("http://l/2.png"), None));
    b.channels.push(channel("c1", "http://s/1", "One", None, Some("News")));
    assert_eq!(
        portal_checksum(&b),
        "6f32d19fab344058cb0cf58d370aa93338390672901d7d0502ffb172b30a3c4b"
    );
}

#[test]
fn checksum_counts_seasons_and_episodes() {
    let mut b = empty_bundle();
    let mut sr = series("s1");
    sr.seasons = vec![
        Season { number: 1, episodes: vec![episode("a"), episode("b"), episode("c")] },
        Season { number: 2, episodes: vec![episode("d")] },
    ];
    b.series.push(sr);
    assert_eq!(
        portal_checksum(&b),
        "7c96287dd44dcdd103b32e0bb732e0976927f6c3b0771fbb34cc5eee94c16158"
    );
}

#[test]
fn checksum_ignores_enrichment() {
    let mut a = empty_bundle();
    a.vod.push(vod("1"));
    let mut b = empty_bundle();
    let mut v = vod("1");
    v.plot = s("Enriched plot");
    v.imdb_id = s("tt1");
    v.actors = s("Someone");
    b.vod.push(v);
    assert_eq!(portal_checksum(&a), portal_checksum(&b));
    let mut c = empty_bundle();
    let mut w = vod("1");
    w.poster = s("http://p/1.jpg");
    c.vod.push(w);
    assert_ne!(portal_checksum(&a), portal_checksum(&c));
}

#[test]
fn checksum_same_for_any_order_of_unique_ids() {
    let mut a = empty_bundle();
    a.categories.push(category("1", "News", ContentKind::Live));
    a.categories.push(category("2", "Films", ContentKind::Vod));
    a.channels.push(channel("c1", "http://s/1", "One", None, Some("News")));
    a.channels.push(channel("c2", "http://s/2", "Two", Some("http://l/2.png"), None));
    a.channels.push(channel("c3", "http://s/3", "Three", None, None));
    a.vod.push(vod("1"));
    a.vod.push(vod("2"));
    a.series.push(series("s1"));
    a.series.push(series("s2"));
    let mut b = empty_bundle();
    b.categories = a.categories.iter().rev().cloned().collect();
    b.channels = vec![a.channels[2].clone(), a.channels[0].clone(), a.channels[1].clone()];
    b.vod = a.vod.iter().rev().cloned().collect();
    b.series = a.series.iter().rev().cloned().collect();
    let ck = portal_checksum(&a);
    assert_eq!(ck, portal_checksum(&b));
    assert_eq!(ck.len(), 64);
    assert!(ck.chars().all(|c| c.is_ascii_digit() || ('a'..='f').contains(&c)));
}

#[test]
fn checksum_ignores_episode_contents_with_equal_counts() {
    let mut a = empty_bundle();
    let mut sa = series("s1");
    sa.seasons = vec![
        Season { number: 1, episodes: vec![episode("a"), episode("b")] },
        Season { number: 2, episodes: vec![episode("c")] },
    ];
    a.series.push(sa);
    let mut b = empty_bundle();
    let mut sb = series("s1");
    sb.seasons = vec![
        Season { number: 1, episodes: vec![episode("x")] },
        Season { number: 5, episodes: vec![episode("y"), episode("z")] },
    ];
    sb.plot = s("Enriched");
    b.series.push(sb);
    assert_eq!(portal_checksum(&a), portal_checksum(&b));
}

#[test]
fn checksum_key_uses_hyphenated_uuid() {
    assert_eq!(
        checksum_meta_key(0x0123456789abcdef0123456789abcdef),
        "source_cksum:01234567-89ab-cdef-0123-456789abcdef"
    );
    assert_eq!(checksum_meta_key(0), "source_cksum:00000000-0000-0000-0000-000000000000");
}

#[test]
fn sync_freshness() {
    let now = 1_000_000u64;
    assert!(is_sync_fresh(10, 0, 0, &vec![Some(now - 10)], now));
    assert!(!is_sync_fresh(10, 0, 0, &vec![Some(now - SYNC_FRESH_SECS)], now));
    assert!(is_sync_fresh(0, 1, 0, &vec![Some(now - SYNC_FRESH_SECS + 1)], now));
    assert!(!is_sync_fresh(0, 0, 0, &vec![Some(now)], now));
    assert!(!is_sync_fresh(5, 5, 5, &vec![], now));
    assert!(!is_sync_fresh(5, 0, 0, &vec![Some(now), None], now));
    // A sync stamped in the future counts as fresh.
    assert!(is_sync_fresh(5, 0, 0, &vec![Some(now + 100)], now));
}

#[test]
fn apply_unchanged_when_checksum_matches() {
    let mut part = empty_bundle();
    part.vod.push(vod("1"));
    let ck = portal_checksum(&part);
    let r = prepare_source_apply(Some(ck.clone()), 7, part, &Vec::new(), &Vec::new());
    assert_eq!(r.kind, BundleApplyKind::Unchanged);
    assert_eq!(r.checksum, ck);
    assert!(r.merged.is_none());
}

#[test]
fn apply_updated_keeps_stored_meta() {
    let mut part = empty_bundle();
    part.categories.push(category("1", "Films", ContentKind::Vod));
    part.vod.push(vod("1"));
    part.vod.push(vod("2"));
    let mut stored = vod("1");
    stored.plot = s("Stored plot");
    stored.actors = s("Stored actors");
    let stored_vod = vec![stored, vod("3"), vod("3")];
    let stored_series = vec![series("s")];
    let r = prepare_source_apply(Some("other".to_string()), 7, part, &stored_vod, &stored_series);
    assert_eq!(r.kind, BundleApplyKind::Updated { preserved_meta: 3 });
    assert_eq!(r.total_rows, 3);
    let m = r.merged.unwrap();
    assert_eq!(m.vod[0].plot, s("Stored plot"));
    assert_eq!(m.vod[0].actors, s("Stored actors"));
    assert_eq!(m.vod[0].source_id, Some(7));
    assert_eq!(m.vod[1].plot, None);
}

#[test]
fn apply_empty_part_counts_one_row() {
    let r = prepare_source_apply(None, 1, empty_bundle(), &Vec::new(), &Vec::new());
    assert_eq!(r.kind, BundleApplyKind::Updated { preserved_meta: 0 });
    assert_eq!(r.total_rows, 1);
}

#[test]
fn adult_categories() {
    assert!(is_adult_cat("XXX Night"));
    assert!(is_adult_cat("for adults only"));
    assert!(is_adult_cat("Films +18"));
    assert!(is_adult_cat("adult swim"));
    assert!(!is_adult_cat("Kids"));
}

#[test]
fn default_live_group_prefers_french() {
    let mut b = empty_bundle();
    b.categories.push(category("1", "XXX FR", ContentKind::Live));
    b.categories.push(category("2", "Sport", ContentKind::Live));
    b.categories.push(category("3", "|FR| Films", ContentKind::Vod));
    b.categories.push(category("4", "|FR| Info", ContentKind::Live));
    assert_eq!(pick_default_live_group(&b), s("|FR| Info"));

    let mut c = empty_bundle();
    c.categories.push(category("1", "Adult", ContentKind::Live));
    c.categories.push(category("2", "Sport", ContentKind::Live));
    assert_eq!(pick_default_live_group(&c), s("Sport"));

    let mut d = empty_bundle();
    d.channels.push(channel("a", "u", "A", None, Some("XXX")));
    d.channels.push(channel("b", "u", "B", None, None));
    d.channels.push(channel("c", "u", "C", None, Some("News")));
    assert_eq!(d.group_names(), vec!["XXX".to_string(), "News".to_string()]);
    assert_eq!(pick_default_live_group(&d), s("News"));

    assert_eq!(pick_default_live_group(&empty_bundle()), None);
}

#[test]
fn full_text_queries() {
    assert_eq!(fts_match_query("  star wars "), s("star*"));
    assert_eq!(fts_match_query("l'été*"), s("l'été*"));
    assert_eq!(fts_match_query("\"(x-men)\""), s("x-men*"));
    assert_eq!(fts_match_query("*** ()"), None);
    assert_eq!(fts_match_query(""), None);
}

#[test]
fn like_patterns() {
    assert_eq!(like_pattern("  Star WARS "), "%star wars%");
    assert_eq!(like_pattern(""), "%%");
}

#[test]
fn meta_cache_rows() {
    assert_eq!(meta_cache_row(false, 0, u64::MAX), Some(false));
    assert_eq!(meta_cache_row(true, 100, 100 + META_MISS_TTL_SECS), Some(true));
    assert_eq!(meta_cache_row(true, 100, 101 + META_MISS_TTL_SECS), None);
    assert_eq!(meta_cache_row(true, 500, 100), Some(true));
}

#[test]
fn patches_replace_given_fields() {
    let mut v = vod("1");
    v.genre = s("Old");
    v.year = s("1990");
    patch_vod_meta(&mut v, None, Some("New"), Some("Plot"), None, Some("7.1"), Some("tt2"));
    assert_eq!(v.year, s("1990"));
    assert_eq!(v.genre, s("New"));
    assert_eq!(v.plot, s("Plot"));
    assert_eq!(v.rating, s("7.1"));
    assert_eq!(v.imdb_id, s("tt2"));
    let mut t = series("s");
    patch_series_meta(&mut t, Some("2001"), None, None, Some("http://c.jpg"), None, None);
    assert_eq!(t.year, s("2001"));
    assert_eq!(t.cover, s("http://c.jpg"));
    assert_eq!(t.genre, None);
}

#[test]
fn ingest_tally_progress() {
    let mut t = IngestTally::new(0);
    assert_eq!(t.total_rows, 1);
    let mut t2 = IngestTally::new(10);
    assert_eq!(t2.record(IngestOutcome::Failed), 0);
    assert_eq!(t2.err, 1);
    assert_eq!(
        t2.record(IngestOutcome::Applied { kind: BundleApplyKind::Unchanged, rows: 0 }),
        1
    );
    assert_eq!(t2.unchanged, 1);
    assert_eq!(
        t2.record(IngestOutcome::Applied {
            kind: BundleApplyKind::Updated { preserved_meta: 4 },
            rows: 6
        }),
        7
    );
    assert_eq!(t2.preserved, 4);
    assert_eq!(t2.ok, 2);
    assert_eq!(
        t2.record(IngestOutcome::Applied { kind: BundleApplyKind::Updated { preserved_meta: 0 }, rows: 50 }),
        10
    );
    assert_eq!(t2.done_rows, 57);
    assert_eq!(t.record(IngestOutcome::Failed), 0);
}

#[test]
fn stored_kind_names() {
    for k in [ContentKind::Live, ContentKind::Vod, ContentKind::Series] {
        assert_eq!(ContentKind::from_text(k.as_text()), k);
    }
    assert_eq!(ContentKind::Vod.as_text(), "vod");
    assert_eq!(ContentKind::from_text("radio"), ContentKind::Live);
}

#[test]
fn ingest_status_texts() {
    assert_eq!(ingest_status_line(2, 0, 2), "Ingest OK · 2 source(s) · checksum OK — relecture SQLite…");
    assert_eq!(ingest_status_line(3, 1, 1), "Ingest OK · 3 source(s) (1 échec) · 1 inchangé(s) — relecture SQLite…");
    assert_eq!(ingest_status_line(0, 0, 0), "Ingest OK · 0 source(s) — relecture SQLite…");
    assert_eq!(apply_kind_tag(BundleApplyKind::Unchanged), "à jour · checksum");
    assert_eq!(apply_kind_tag(BundleApplyKind::Updated { preserved_meta: 2 }), "DB · meta conservée");
    assert_eq!(apply_kind_tag(BundleApplyKind::Updated { preserved_meta: 0 }), "DB · mise à jour");
}
