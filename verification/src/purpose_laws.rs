//! Laws on what the catalog merge, the sync freshness test, the browse
//! filters and the image LRU are for, stated over inputs and results.

use vstd::prelude::*;

use crate::art::{evicted, insert_step, bad_image, handle_index, cache_wf, CacheView, MAX_RAM_HANDLES};
use crate::browse::{
    browse_positions, catalog_keep, found_keep, live_keep, select_catalog, select_found,
    select_live, CatalogRow, LiveRow, Tab,
};
use crate::catalog::{
    opt_bytes, series_kept, sync_fresh, vod_kept, OptText, SeriesView, VodView, SYNC_FRESH_SECS,
};
use crate::text::{ascii_lower, has_sub, opt_chars};

verus! {

/// A text that is missing or empty.
pub open spec fn gap(t: OptText) -> bool {
    t is None || t->0.len() == 0
}

/// A text that is present and not empty.
pub open spec fn full(t: OptText) -> bool {
    t is Some && t->0.len() > 0
}

/// Keeping metadata on a portal VOD item `p` with its stored copy `o`:
/// every enrichment field the portal leaves missing or empty takes the
/// stored text when that one is not empty, and otherwise stays as the
/// portal gave it; the plot is the longer one; the spine (id, URL, name,
/// category) is the portal's.
pub proof fn law_vod_merge_fills_gaps(p: VodView, o: VodView)
    ensures
        gap(p.actors) && full(o.actors) ==> vod_kept(p, o).actors == o.actors,
        !(gap(p.actors) && full(o.actors)) ==> vod_kept(p, o).actors == p.actors,
        gap(p.director) && full(o.director) ==> vod_kept(p, o).director == o.director,
        !(gap(p.director) && full(o.director)) ==> vod_kept(p, o).director == p.director,
        gap(p.writer) && full(o.writer) ==> vod_kept(p, o).writer == o.writer,
        !(gap(p.writer) && full(o.writer)) ==> vod_kept(p, o).writer == p.writer,
        gap(p.runtime) && full(o.runtime) ==> vod_kept(p, o).runtime == o.runtime,
        !(gap(p.runtime) && full(o.runtime)) ==> vod_kept(p, o).runtime == p.runtime,
        gap(p.rated) && full(o.rated) ==> vod_kept(p, o).rated == o.rated,
        !(gap(p.rated) && full(o.rated)) ==> vod_kept(p, o).rated == p.rated,
        gap(p.awards) && full(o.awards) ==> vod_kept(p, o).awards == o.awards,
        !(gap(p.awards) && full(o.awards)) ==> vod_kept(p, o).awards == p.awards,
        gap(p.language) && full(o.language) ==> vod_kept(p, o).language == o.language,
        !(gap(p.language) && full(o.language)) ==> vod_kept(p, o).language == p.language,
        gap(p.country) && full(o.country) ==> vod_kept(p, o).country == o.country,
        !(gap(p.country) && full(o.country)) ==> vod_kept(p, o).country == p.country,
        gap(p.genre) && full(o.genre) ==> vod_kept(p, o).genre == o.genre,
        !(gap(p.genre) && full(o.genre)) ==> vod_kept(p, o).genre == p.genre,
        gap(p.year) && full(o.year) ==> vod_kept(p, o).year == o.year,
        !(gap(p.year) && full(o.year)) ==> vod_kept(p, o).year == p.year,
        gap(p.rating) && full(o.rating) ==> vod_kept(p, o).rating == o.rating,
        !(gap(p.rating) && full(o.rating)) ==> vod_kept(p, o).rating == p.rating,
        gap(p.imdb_id) && full(o.imdb_id) ==> vod_kept(p, o).imdb_id == o.imdb_id,
        !(gap(p.imdb_id) && full(o.imdb_id)) ==> vod_kept(p, o).imdb_id == p.imdb_id,
        gap(p.poster) && full(o.poster) ==> vod_kept(p, o).poster == o.poster,
        !(gap(p.poster) && full(o.poster)) ==> vod_kept(p, o).poster == p.poster,
        vod_kept(p, o).plot == (if opt_bytes(o.plot) > opt_bytes(p.plot) {
            o.plot
        } else {
            p.plot
        }),
        vod_kept(p, o).id == p.id,
        vod_kept(p, o).stream_url == p.stream_url,
        vod_kept(p, o).name == p.name,
        vod_kept(p, o).category_id == p.category_id,
{
}

/// Keeping metadata on a portal series `p` with its stored copy `o`: the
/// same gap filling as for VOD items (cover and banner included), the
/// longer plot, and the stored seasons when the portal has none.
pub proof fn law_series_merge_fills_gaps(p: SeriesView, o: SeriesView)
    ensures
        gap(p.actors) && full(o.actors) ==> series_kept(p, o).actors == o.actors,
        !(gap(p.actors) && full(o.actors)) ==> series_kept(p, o).actors == p.actors,
        gap(p.director) && full(o.director) ==> series_kept(p, o).director == o.director,
        !(gap(p.director) && full(o.director)) ==> series_kept(p, o).director == p.director,
        gap(p.writer) && full(o.writer) ==> series_kept(p, o).writer == o.writer,
        !(gap(p.writer) && full(o.writer)) ==> series_kept(p, o).writer == p.writer,
        gap(p.runtime) && full(o.runtime) ==> series_kept(p, o).runtime == o.runtime,
        !(gap(p.runtime) && full(o.runtime)) ==> series_kept(p, o).runtime == p.runtime,
        gap(p.rated) && full(o.rated) ==> series_kept(p, o).rated == o.rated,
        !(gap(p.rated) && full(o.rated)) ==> series_kept(p, o).rated == p.rated,
        gap(p.awards) && full(o.awards) ==> series_kept(p, o).awards == o.awards,
        !(gap(p.awards) && full(o.awards)) ==> series_kept(p, o).awards == p.awards,
        gap(p.language) && full(o.language) ==> series_kept(p, o).language == o.language,
        !(gap(p.language) && full(o.language)) ==> series_kept(p, o).language == p.language,
        gap(p.country) && full(o.country) ==> series_kept(p, o).country == o.country,
        !(gap(p.country) && full(o.country)) ==> series_kept(p, o).country == p.country,
        gap(p.genre) && full(o.genre) ==> series_kept(p, o).genre == o.genre,
        !(gap(p.genre) && full(o.genre)) ==> series_kept(p, o).genre == p.genre,
        gap(p.year) && full(o.year) ==> series_kept(p, o).year == o.year,
        !(gap(p.year) && full(o.year)) ==> series_kept(p, o).year == p.year,
        gap(p.rating) && full(o.rating) ==> series_kept(p, o).rating == o.rating,
        !(gap(p.rating) && full(o.rating)) ==> series_kept(p, o).rating == p.rating,
        gap(p.imdb_id) && full(o.imdb_id) ==> series_kept(p, o).imdb_id == o.imdb_id,
        !(gap(p.imdb_id) && full(o.imdb_id)) ==> series_kept(p, o).imdb_id == p.imdb_id,
        gap(p.cover) && full(o.cover) ==> series_kept(p, o).cover == o.cover,
        !(gap(p.cover) && full(o.cover)) ==> series_kept(p, o).cover == p.cover,
        gap(p.banner) && full(o.banner) ==> series_kept(p, o).banner == o.banner,
        !(gap(p.banner) && full(o.banner)) ==> series_kept(p, o).banner == p.banner,
        series_kept(p, o).plot == (if opt_bytes(o.plot) > opt_bytes(p.plot) {
            o.plot
        } else {
            p.plot
        }),
        p.seasons.len() == 0 && o.seasons.len() > 0 ==> series_kept(p, o).seasons == o.seasons,
        p.seasons.len() > 0 || o.seasons.len() == 0 ==> series_kept(p, o).seasons == p.seasons,
        series_kept(p, o).id == p.id,
        series_kept(p, o).name == p.name,
        series_kept(p, o).category_id == p.category_id,
{
}

/// The catalog skips the portal re-sync exactly when it is not empty and
/// every open profile (at least one) has a recorded last sync less than
/// `SYNC_FRESH_SECS` ago (a sync stamped in the future counts as just now).
pub proof fn law_fresh_means_every_profile_recent(
    total_rows: nat,
    last_syncs: Seq<Option<u64>>,
    now: u64,
)
    ensures
        sync_fresh(total_rows, last_syncs, now) <==> (last_syncs.len() > 0 && total_rows > 0
            && forall|i: int|
            0 <= i < last_syncs.len() ==> (#[trigger] last_syncs[i] is Some && (now < last_syncs[i]->0
                || now - last_syncs[i]->0 < SYNC_FRESH_SECS))),
{
}

/// One profile never synced, or synced `SYNC_FRESH_SECS` ago or more,
/// forces a re-sync, whatever the others.
pub proof fn law_one_stale_profile_forces_resync(
    total_rows: nat,
    last_syncs: Seq<Option<u64>>,
    now: u64,
    i: int,
)
    requires
        0 <= i < last_syncs.len(),
        last_syncs[i] is None || (now >= last_syncs[i]->0 && now - last_syncs[i]->0
            >= SYNC_FRESH_SECS),
    ensures
        !sync_fresh(total_rows, last_syncs, now),
{
    if sync_fresh(total_rows, last_syncs, now) {
        assert(last_syncs[i] is Some);
    }
}

proof fn lemma_select_catalog_sound(rows: Seq<CatalogRow>, cat: Option<Seq<char>>, q: Seq<char>)
    ensures
        forall|k: int|
            #![trigger select_catalog(rows, cat, q)[k]]
            0 <= k < select_catalog(rows, cat, q).len() ==> exists|i: int|
                0 <= i < rows.len() && (#[trigger] rows[i]).0 == select_catalog(rows, cat, q)[k]
                    && catalog_keep(cat, q, rows[i]),
    decreases rows.len(),
{
    if rows.len() > 0 {
        let d = rows.drop_last();
        lemma_select_catalog_sound(d, cat, q);
        let prev = select_catalog(d, cat, q);
        assert forall|k: int| #![trigger select_catalog(rows, cat, q)[k]] 0 <= k < select_catalog(rows, cat, q).len() implies exists|i: int|
            0 <= i < rows.len() && (#[trigger] rows[i]).0 == select_catalog(rows, cat, q)[k]
                && catalog_keep(cat, q, rows[i]) by {
            if k < prev.len() {
                let i = choose|i: int| 0 <= i < d.len() && (#[trigger] d[i]).0 == prev[k] && catalog_keep(cat, q, d[i]);
                assert(rows[i] == d[i]);
            } else {
                assert(rows[rows.len() - 1] == rows.last());
            }
        }
    }
}

proof fn lemma_select_catalog_complete(rows: Seq<CatalogRow>, cat: Option<Seq<char>>, q: Seq<char>, i: int)
    requires
        0 <= i < rows.len(),
        catalog_keep(cat, q, rows[i]),
    ensures
        select_catalog(rows, cat, q).contains(rows[i].0),
    decreases rows.len(),
{
    let d = rows.drop_last();
    let prev = select_catalog(d, cat, q);
    if i < rows.len() - 1 {
        assert(d[i] == rows[i]);
        lemma_select_catalog_complete(d, cat, q, i);
        let j = choose|j: int| 0 <= j < prev.len() && prev[j] == rows[i].0;
        if catalog_keep(cat, q, rows.last()) {
            assert(prev.push(rows.last().0)[j] == rows[i].0);
        }
    } else {
        assert(rows.last() == rows[i]);
        assert(prev.push(rows.last().0)[prev.len() as int] == rows[i].0);
    }
}

proof fn lemma_select_found_sound(rows: Seq<CatalogRow>, cat: Option<Seq<char>>, found: Set<Seq<char>>)
    ensures
        forall|k: int|
            #![trigger select_found(rows, cat, found)[k]]
            0 <= k < select_found(rows, cat, found).len() ==> exists|i: int|
                0 <= i < rows.len() && (#[trigger] rows[i]).0 == select_found(rows, cat, found)[k]
                    && found_keep(cat, found, rows[i]),
    decreases rows.len(),
{
    if rows.len() > 0 {
        let d = rows.drop_last();
        lemma_select_found_sound(d, cat, found);
        let prev = select_found(d, cat, found);
        assert forall|k: int| #![trigger select_found(rows, cat, found)[k]] 0 <= k < select_found(rows, cat, found).len() implies exists|i: int|
            0 <= i < rows.len() && (#[trigger] rows[i]).0 == select_found(rows, cat, found)[k]
                && found_keep(cat, found, rows[i]) by {
            if k < prev.len() {
                let i = choose|i: int| 0 <= i < d.len() && (#[trigger] d[i]).0 == prev[k] && found_keep(cat, found, d[i]);
                assert(rows[i] == d[i]);
            } else {
                assert(rows[rows.len() - 1] == rows.last());
            }
        }
    }
}

proof fn lemma_select_live_sound(rows: Seq<LiveRow>, group: Option<Seq<char>>, q: Seq<char>)
    ensures
        forall|k: int|
            #![trigger select_live(rows, group, q)[k]]
            0 <= k < select_live(rows, group, q).len() ==> exists|i: int|
                0 <= i < rows.len() && (#[trigger] rows[i]).0 == select_live(rows, group, q)[k]
                    && live_keep(group, q, rows[i]),
    decreases rows.len(),
{
    if rows.len() > 0 {
        let d = rows.drop_last();
        lemma_select_live_sound(d, group, q);
        let prev = select_live(d, group, q);
        assert forall|k: int| #![trigger select_live(rows, group, q)[k]] 0 <= k < select_live(rows, group, q).len() implies exists|i: int|
            0 <= i < rows.len() && (#[trigger] rows[i]).0 == select_live(rows, group, q)[k]
                && live_keep(group, q, rows[i]) by {
            if k < prev.len() {
                let i = choose|i: int| 0 <= i < d.len() && (#[trigger] d[i]).0 == prev[k] && live_keep(group, q, d[i]);
                assert(rows[i] == d[i]);
            } else {
                assert(rows[rows.len() - 1] == rows.last());
            }
        }
    }
}

/// Every position the browse index shows comes from a row of the tab's
/// list that passes the chosen filter: on VOD and Series, a category other
/// than none or `*` admits only rows of that category; on Live, a group
/// other than none, `Tous` or `*` admits only channels of that group.
pub proof fn law_browse_respects_filters(
    tab: Tab,
    q: Seq<char>,
    group: Option<Seq<char>>,
    vod_cat: Option<Seq<char>>,
    series_cat: Option<Seq<char>>,
    live_rows: Seq<LiveRow>,
    vod_rows: Seq<CatalogRow>,
    series_rows: Seq<CatalogRow>,
    vod_found: Option<Seq<String>>,
    series_found: Option<Seq<String>>,
    k: int,
)
    requires
        0 <= k < browse_positions(
            tab,
            q,
            group,
            vod_cat,
            series_cat,
            live_rows,
            vod_rows,
            series_rows,
            vod_found,
            series_found,
        ).len(),
    ensures
        ({
            let pos = browse_positions(
                tab,
                q,
                group,
                vod_cat,
                series_cat,
                live_rows,
                vod_rows,
                series_rows,
                vod_found,
                series_found,
            )[k];
            &&& tab == Tab::Series ==> exists|i: int|
                0 <= i < series_rows.len() && (#[trigger] series_rows[i]).0 == pos && (series_cat is Some
                    && series_cat->0 != seq!['*'] ==> opt_chars(series_rows[i].3) == series_cat)
            &&& tab == Tab::Vod ==> exists|i: int|
                0 <= i < vod_rows.len() && (#[trigger] vod_rows[i]).0 == pos && (vod_cat is Some
                    && vod_cat->0 != seq!['*'] ==> opt_chars(vod_rows[i].3) == vod_cat)
            &&& tab == Tab::Live ==> exists|i: int|
                0 <= i < live_rows.len() && (#[trigger] live_rows[i]).0 == pos && (group is Some
                    && group->0 != seq!['T', 'o', 'u', 's'] && group->0 != seq!['*'] ==> opt_chars(
                    live_rows[i].2,
                ) == group)
            &&& tab != Tab::Series && tab != Tab::Vod && tab != Tab::Live ==> false
        }),
        ({
            let pos = browse_positions(
                tab,
                q,
                group,
                vod_cat,
                series_cat,
                live_rows,
                vod_rows,
                series_rows,
                vod_found,
                series_found,
            )[k];
            &&& tab == Tab::Live ==> exists|i: int|
                0 <= i < live_rows.len() && (#[trigger] live_rows[i]).0 == pos && (q.len() == 0
                    || has_sub(ascii_lower(live_rows[i].1@), ascii_lower(q)))
            &&& tab == Tab::Vod ==> exists|i: int|
                0 <= i < vod_rows.len() && (#[trigger] vod_rows[i]).0 == pos && (if vod_found is Some
                    && q.len() > 0 {
                    exists|j: int|
                        0 <= j < vod_found->0.len() && (#[trigger] vod_found->0[j])@ == vod_rows[i].1@
                } else {
                    vod_rows[i].2@.len() == 0 || q.len() == 0 || has_sub(
                        ascii_lower(vod_rows[i].2@),
                        ascii_lower(q),
                    )
                })
            &&& tab == Tab::Series ==> exists|i: int|
                0 <= i < series_rows.len() && (#[trigger] series_rows[i]).0 == pos && (
                if series_found is Some && q.len() > 0 {
                    exists|j: int|
                        0 <= j < series_found->0.len() && (#[trigger] series_found->0[j])@
                            == series_rows[i].1@
                } else {
                    series_rows[i].2@.len() == 0 || q.len() == 0 || has_sub(
                        ascii_lower(series_rows[i].2@),
                        ascii_lower(q),
                    )
                })
        }),
{
    lemma_select_catalog_sound(series_rows, series_cat, q);
    lemma_select_catalog_sound(vod_rows, vod_cat, q);
    lemma_select_live_sound(live_rows, group, q);
    match series_found {
        Some(f) => lemma_select_found_sound(series_rows, series_cat, crate::browse::id_set(f)),
        None => {},
    }
    match vod_found {
        Some(f) => lemma_select_found_sound(vod_rows, vod_cat, crate::browse::id_set(f)),
        None => {},
    }
    let all = browse_positions(
        tab,
        q,
        group,
        vod_cat,
        series_cat,
        live_rows,
        vod_rows,
        series_rows,
        vod_found,
        series_found,
    );
    let pos = all[k];
    if tab == Tab::Vod {
        lemma_catalog_hit(q, vod_cat, vod_rows, vod_found, pos, k);
    } else if tab == Tab::Series {
        lemma_catalog_hit(q, series_cat, series_rows, series_found, pos, k);
    }
}

proof fn lemma_catalog_hit(
    q: Seq<char>,
    cat: Option<Seq<char>>,
    rows: Seq<CatalogRow>,
    found: Option<Seq<String>>,
    pos: usize,
    k: int,
)
    requires
        ({
            let all = match found {
                Some(f) if q.len() > 0 => select_found(rows, cat, crate::browse::id_set(f)),
                _ => select_catalog(rows, cat, q),
            };
            0 <= k < all.len() && all[k] == pos
        }),
    ensures
        exists|i: int|
            0 <= i < rows.len() && (#[trigger] rows[i]).0 == pos && (if found is Some && q.len()
                > 0 {
                exists|j: int| 0 <= j < found->0.len() && (#[trigger] found->0[j])@ == rows[i].1@
            } else {
                rows[i].2@.len() == 0 || q.len() == 0 || has_sub(ascii_lower(rows[i].2@), ascii_lower(q))
            }),
{
    if found is Some && q.len() > 0 {
        let f = found->0;
        lemma_select_found_sound(rows, cat, crate::browse::id_set(f));
        let i = choose|i: int|
            0 <= i < rows.len() && (#[trigger] rows[i]).0 == pos && found_keep(
                cat,
                crate::browse::id_set(f),
                rows[i],
            );
        assert(crate::browse::id_set(f).contains(rows[i].1@));
        let j = choose|j: int| 0 <= j < f.len() && f[j]@ == rows[i].1@;
        assert(found->0[j]@ == rows[i].1@);
    } else {
        lemma_select_catalog_sound(rows, cat, q);
        let i = choose|i: int|
            0 <= i < rows.len() && (#[trigger] rows[i]).0 == pos && catalog_keep(cat, q, rows[i]);
        assert(rows[i].0 == pos);
    }
}

/// With an empty query, every VOD or series row of the chosen category (or
/// every row, with no category or `*`) is shown.
pub proof fn law_browse_shows_whole_category(
    tab: Tab,
    group: Option<Seq<char>>,
    vod_cat: Option<Seq<char>>,
    series_cat: Option<Seq<char>>,
    live_rows: Seq<LiveRow>,
    vod_rows: Seq<CatalogRow>,
    series_rows: Seq<CatalogRow>,
    vod_found: Option<Seq<String>>,
    series_found: Option<Seq<String>>,
    i: int,
)
    ensures
        tab == Tab::Series && 0 <= i < series_rows.len() && (series_cat is None || series_cat
            == Some(seq!['*']) || opt_chars(series_rows[i].3) == series_cat) ==> browse_positions(
            tab,
            seq![],
            group,
            vod_cat,
            series_cat,
            live_rows,
            vod_rows,
            series_rows,
            vod_found,
            series_found,
        ).contains(series_rows[i].0),
        tab == Tab::Vod && 0 <= i < vod_rows.len() && (vod_cat is None || vod_cat == Some(seq!['*'])
            || opt_chars(vod_rows[i].3) == vod_cat) ==> browse_positions(
            tab,
            seq![],
            group,
            vod_cat,
            series_cat,
            live_rows,
            vod_rows,
            series_rows,
            vod_found,
            series_found,
        ).contains(vod_rows[i].0),
{
    if tab == Tab::Series && 0 <= i < series_rows.len() && (series_cat is None || series_cat == Some(
        seq!['*'],
    ) || opt_chars(series_rows[i].3) == series_cat) {
        lemma_select_catalog_complete(series_rows, series_cat, seq![], i);
    }
    if tab == Tab::Vod && 0 <= i < vod_rows.len() && (vod_cat is None || vod_cat == Some(seq!['*'])
        || opt_chars(vod_rows[i].3) == vod_cat) {
        lemma_select_catalog_complete(vod_rows, vod_cat, seq![], i);
    }
}

proof fn lemma_oldest_is_least(hs: Seq<(Seq<char>, u64)>)
    requires
        hs.len() >= 1,
    ensures
        0 <= crate::art::oldest_index(hs) < hs.len(),
        forall|i: int| 0 <= i < hs.len() ==> hs[crate::art::oldest_index(hs)].1 <= (#[trigger] hs[i]).1,
    decreases hs.len(),
{
    if hs.len() > 1 {
        let d = hs.drop_last();
        lemma_oldest_is_least(d);
        let m = crate::art::oldest_index(d);
        assert(hs[m] == d[m]);
        assert forall|i: int| 0 <= i < hs.len() implies hs[crate::art::oldest_index(hs)].1 <= (
        #[trigger] hs[i]).1 by {
            if i < hs.len() - 1 {
                assert(hs[i] == d[i]);
            }
        }
    }
}

/// Making room in a full set of handles evicts exactly one of them, one
/// with the smallest recency stamp (the least recently used), and keeps
/// the others in their order.
pub proof fn law_lru_evicts_least_recent(hs: Seq<(Seq<char>, u64)>)
    requires
        hs.len() == MAX_RAM_HANDLES,
    ensures
        exists|m: int|
            0 <= m < hs.len() && evicted(hs).1 == seq![hs[m].0] && evicted(hs).0 == hs.remove(m)
                && forall|i: int| 0 <= i < hs.len() ==> hs[m].1 <= (#[trigger] hs[i]).1,
{
    lemma_oldest_is_least(hs);
    let m = crate::art::oldest_index(hs);
    assert(hs.remove(m).len() < MAX_RAM_HANDLES);
    assert(evicted(hs.remove(m)) == (hs.remove(m), Seq::<Seq<char>>::empty()));
    assert(seq![hs[m].0] + Seq::<Seq<char>>::empty() =~= seq![hs[m].0]);
    assert(evicted(hs).1 == seq![hs[m].0]);
    assert(evicted(hs).0 == hs.remove(m));
    assert(forall|i: int| 0 <= i < hs.len() ==> hs[m].1 <= (#[trigger] hs[i]).1);
}

/// Storing a new image in a full cache evicts exactly one held image, one
/// with the smallest recency stamp, and the new image is then held.
pub proof fn law_store_in_full_cache_evicts_least_recent(c: CacheView, url: Seq<char>, bytes: Seq<u8>)
    requires
        cache_wf(c),
        c.handles.len() == MAX_RAM_HANDLES,
        !bad_image(bytes),
        handle_index(c.handles, url) is None,
    ensures
        exists|m: int|
            0 <= m < c.handles.len() && insert_step(c, url, bytes).2 == seq![c.handles[m].0]
                && forall|i: int| 0 <= i < c.handles.len() ==> c.handles[m].1 <= (
                #[trigger] c.handles[i]).1,
        handle_index(insert_step(c, url, bytes).0.handles, url) is Some,
{
    law_lru_evicts_least_recent(c.handles);
    crate::laws::law_stored_image_is_held(c, url, bytes);
}

/// Showing a held image again makes it the most recently used: when every
/// stamp is at most the clock and the clock has room to advance, its new
/// stamp is above every other held stamp.
pub proof fn law_promote_makes_most_recent(c: CacheView, url: Seq<char>, j: int)
    requires
        cache_wf(c),
        c.clock < u64::MAX,
        forall|i: int| 0 <= i < c.handles.len() ==> (#[trigger] c.handles[i]).1 <= c.clock,
        0 <= j < c.handles.len(),
        c.handles[j].0 == url,
    ensures
        crate::art::promoted(c, url).handles.len() == c.handles.len(),
        crate::art::promoted(c, url).handles[j] == (url, (c.clock + 1) as u64),
        forall|i: int|
            0 <= i < c.handles.len() && i != j ==> (#[trigger] crate::art::promoted(c, url).handles[i])
                == c.handles[i] && c.handles[i].1 < crate::art::promoted(c, url).handles[j].1,
{
    let hs = c.handles;
    assert(exists|i: int| 0 <= i < hs.len() && (#[trigger] hs[i]).0 == url);
    let k = choose|i: int| 0 <= i < hs.len() && (#[trigger] hs[i]).0 == url;
    if k != j {
        if k < j {
            assert(hs[k].0 != hs[j].0);
        } else {
            assert(hs[j].0 != hs[k].0);
        }
    }
}

/// Storing an image already held evicts nothing and keeps the number of
/// held images; the image stays held.
pub proof fn law_store_held_image_evicts_nothing(c: CacheView, url: Seq<char>, bytes: Seq<u8>)
    requires
        !bad_image(bytes),
        handle_index(c.handles, url) is Some,
    ensures
        insert_step(c, url, bytes).2 == Seq::<Seq<char>>::empty(),
        insert_step(c, url, bytes).0.handles.len() == c.handles.len(),
        handle_index(insert_step(c, url, bytes).0.handles, url) is Some,
{
    crate::laws::law_stored_image_is_held(c, url, bytes);
}

} // verus!
