use fluxplay::browse::{
    art_source_at, art_url_for_browse_pos, category_entries, favorites_index, live_rows,
    quick_browse_index, series_rows, vod_rows, BrowseIndex, Tab,
};

#[test]
fn browse_index_identity_is_allocation_free() {
    let idx = BrowseIndex::identity(1_000_000);
    assert_eq!(idx.len(), 1_000_000);
    assert_eq!(idx.get(0), Some(0));
    assert_eq!(idx.get(999_999), Some(999_999));
    assert_eq!(idx.get(1_000_000), None);
    let win = idx.window(100, 108);
    assert_eq!(win, (100..108).collect::<Vec<_>>());
}

fn cat(id: &str, name: &str, content: fluxplay::catalog::ContentKind) -> fluxplay::catalog::Category {
    fluxplay::catalog::Category { id: id.to_string(), name: name.to_string(), content }
}

fn chan(id: &str, group: Option<&str>) -> fluxplay::catalog::Channel {
    fluxplay::catalog::Channel {
        id: id.to_string(),
        name: id.to_string(),
        stream_url: format!("http://s/{id}"),
        logo: None,
        tvg_logo: None,
        group: group.map(|g| g.to_string()),
        kind: fluxplay::catalog::ContentKind::Live,
        source_id: None,
    }
}

fn bundle() -> fluxplay::catalog::PlaylistBundle {
    let live = fluxplay::catalog::ContentKind::Live;
    let vod = fluxplay::catalog::ContentKind::Vod;
    fluxplay::catalog::PlaylistBundle {
        categories: vec![
            cat("1", "News", live),
            cat("2", "Sport", live),
            cat("10", "Films FR", vod),
            cat("11", "Films US", vod),
        ],
        channels: vec![chan("a", Some("News")), chan("b", None), chan("c", Some("Kids"))],
        vod: Vec::new(),
        series: Vec::new(),
        epg: Vec::new(),
    }
}

fn entries(e: &[(String, String, bool, usize)]) -> Vec<(&str, &str, bool, usize)> {
    e.iter().map(|x| (x.0.as_str(), x.1.as_str(), x.2, x.3)).collect()
}

#[test]
fn sidebar_live_categories() {
    let b = bundle();
    let e = category_entries(&b, Tab::Live, "", Some("Sport"), None, None);
    assert_eq!(
        entries(&e),
        vec![("*", "Toutes", false, 3), ("News", "News", false, 0), ("Sport", "Sport", true, 0)]
    );
}

#[test]
fn sidebar_live_falls_back_to_groups() {
    let b = bundle();
    let e = category_entries(&b, Tab::Live, "zz", None, None, None);
    assert_eq!(
        entries(&e),
        vec![("*", "Toutes", true, 3), ("News", "News", false, 0), ("Kids", "Kids", false, 0)]
    );
}

#[test]
fn sidebar_vod_filter_and_selection() {
    let b = bundle();
    let e = category_entries(&b, Tab::Vod, "fr", None, Some("10"), None);
    assert_eq!(entries(&e), vec![("*", "All", false, 0), ("10", "Films FR", true, 0)]);
    let all = category_entries(&b, Tab::Vod, "", None, Some("*"), None);
    assert_eq!(all.len(), 3);
    assert!(all[0].2);
    assert!(category_entries(&b, Tab::Settings, "", None, None, None).is_empty());
    let s = category_entries(&b, Tab::Series, "", None, None, None);
    assert_eq!(entries(&s), vec![("*", "All", true, 0)]);
}

fn positions(ix: &BrowseIndex) -> Vec<usize> {
    ix.window(0, ix.len())
}

#[test]
fn favorites_and_quick_indices() {
    let mut b = bundle();
    let fav = favorites_index(&b.channels, &vec!["c".to_string(), "zz".to_string(), "a".to_string()]);
    assert_eq!(positions(&fav), vec![0, 2]);
    assert!(matches!(favorites_index(&b.channels, &Vec::new()), BrowseIndex::Empty));

    let live = quick_browse_index(&b, Tab::Live, "  ", None, None, None).unwrap();
    assert!(matches!(live, BrowseIndex::Identity { len: 3 }));
    b.channels[1].kind = fluxplay::catalog::ContentKind::Vod;
    let mixed = quick_browse_index(&b, Tab::Live, "", Some("Tous".to_string()), None, None).unwrap();
    assert_eq!(positions(&mixed), vec![0, 2]);
    assert!(quick_browse_index(&b, Tab::Live, "", Some("News".to_string()), None, None).is_none());
    assert!(quick_browse_index(&b, Tab::Live, "news", None, None, None).is_none());
    assert!(matches!(
        quick_browse_index(&b, Tab::Vod, "", None, Some("*".to_string()), None),
        Some(BrowseIndex::Empty)
    ));
    assert!(quick_browse_index(&b, Tab::Series, "", None, None, Some("7".to_string())).is_none());
    assert!(quick_browse_index(&b, Tab::Epg, "", None, None, None).is_none());

    let rows = live_rows(&b.channels);
    let names: Vec<(usize, &str)> = rows.iter().map(|r| (r.0, r.1.as_str())).collect();
    assert_eq!(names, vec![(0, "a"), (2, "c")]);
}

#[test]
fn catalog_rows_and_art() {
    let mut b = bundle();
    b.channels[0].tvg_logo = Some("https://l.example/a.png".to_string());
    b.channels[2].logo = Some("https://l.example//c.png".to_string());
    b.channels[2].tvg_logo = Some("https://l.example/other.png".to_string());
    let ix = BrowseIndex::identity(3);
    assert_eq!(
        art_url_for_browse_pos(&b, &ix, Tab::Live, 0, false, false),
        Some("https://l.example/a.png".to_string())
    );
    assert_eq!(
        art_url_for_browse_pos(&b, &ix, Tab::Favorites, 2, false, false),
        Some("https://l.example/c.png".to_string())
    );
    assert_eq!(art_url_for_browse_pos(&b, &ix, Tab::Live, 1, false, false), None);
    assert_eq!(art_url_for_browse_pos(&b, &ix, Tab::Live, 3, false, false), None);
    assert_eq!(art_url_for_browse_pos(&b, &ix, Tab::Vod, 0, false, false), None);
    b.channels[2].source_id = Some(9);
    assert_eq!(art_source_at(&b, &ix, Tab::Live, 2, false, false), Some(9));
    assert_eq!(art_source_at(&b, &ix, Tab::Settings, 2, false, false), None);

    let vod = vec![fluxplay::catalog::VodItem {
        id: "v1".to_string(),
        name: "Alien".to_string(),
        stream_url: "u".to_string(),
        poster: Some("https://p.example/alien.jpg".to_string()),
        category_id: Some("10".to_string()),
        plot: None,
        actors: None,
        director: None,
        writer: None,
        runtime: None,
        rated: None,
        awards: None,
        language: None,
        country: None,
        genre: None,
        year: None,
        rating: None,
        imdb_id: None,
        source_id: None,
    }];
    let named = vod_rows(&vod, true);
    assert_eq!(named[0], (0, "v1".to_string(), "Alien".to_string(), Some("10".to_string())));
    let slim = vod_rows(&vod, false);
    assert_eq!(slim[0], (0, String::new(), String::new(), Some("10".to_string())));
    assert!(series_rows(&Vec::new(), true).is_empty());
    b.vod = vod;
    assert_eq!(
        art_url_for_browse_pos(&b, &BrowseIndex::identity(1), Tab::Vod, 0, false, false),
        Some("https://p.example/alien.jpg".to_string())
    );
    assert_eq!(art_url_for_browse_pos(&b, &BrowseIndex::identity(1), Tab::Vod, 0, true, false), None);
}
