//! Catalog model and the rules that merge a fresh portal dump with what is
//! already known: enrichment kept, orphans dropped, duplicates removed, and a
//! stable checksum of the portal spine.

use vstd::prelude::*;

use crate::text::{copy_opt, opt_view, utf8_len, utf8_len_exec};
use sha2::{Digest, Sha256};

verus! {

/// Which tab a category belongs to.
#[derive(Debug, Clone, Copy, PartialEq, Eq, Structural)]
pub enum ContentKind {
    Live,
    Vod,
    Series,
}

/// The stored name of a content kind.
pub open spec fn kind_text(k: ContentKind) -> Seq<char> {
    match k {
        ContentKind::Live => "live"@,
        ContentKind::Vod => "vod"@,
        ContentKind::Series => "series"@,
    }
}

impl ContentKind {
    /// The name under which the kind is stored.
    pub fn as_text(self) -> (r: &'static str)
        ensures
            r@ == kind_text(self),
    {
        match self {
            ContentKind::Live => "live",
            ContentKind::Vod => "vod",
            ContentKind::Series => "series",
        }
    }

    /// The kind of a stored name: `vod`, `series`, anything else is live.
    pub fn from_text(t: &str) -> (r: ContentKind)
        ensures
            r == (if t@ == "vod"@ {
                ContentKind::Vod
            } else if t@ == "series"@ {
                ContentKind::Series
            } else {
                ContentKind::Live
            }),
    {
        let c = crate::text::chars_of(t);
        let v = crate::text::chars_of("vod");
        let se = crate::text::chars_of("series");
        if crate::text::chars_eq(c.as_slice(), v.as_slice()) {
            ContentKind::Vod
        } else if crate::text::chars_eq(c.as_slice(), se.as_slice()) {
            ContentKind::Series
        } else {
            ContentKind::Live
        }
    }
}

/// Reading back a stored kind gives the kind.
pub proof fn law_kind_text_round_trip(k: ContentKind)
    ensures
        (if kind_text(k) == "vod"@ {
            ContentKind::Vod
        } else if kind_text(k) == "series"@ {
            ContentKind::Series
        } else {
            ContentKind::Live
        }) == k,
{
    reveal_strlit("live");
    reveal_strlit("vod");
    reveal_strlit("series");
    assert("live"@.len() == 4 && "vod"@.len() == 3 && "series"@.len() == 6);
}

pub struct Category {
    pub id: String,
    pub name: String,
    pub content: ContentKind,
}

pub struct Channel {
    pub id: String,
    pub name: String,
    pub stream_url: String,
    pub logo: Option<String>,
    /// Logo announced by the playlist's `tvg-logo` attribute.
    pub tvg_logo: Option<String>,
    pub group: Option<String>,
    /// Live channel, or a film / episode listed in a playlist.
    pub kind: ContentKind,
    pub source_id: Option<u128>,
}

pub struct VodItem {
    pub id: String,
    pub name: String,
    pub stream_url: String,
    pub poster: Option<String>,
    pub category_id: Option<String>,
    pub plot: Option<String>,
    pub actors: Option<String>,
    pub director: Option<String>,
    pub writer: Option<String>,
    pub runtime: Option<String>,
    pub rated: Option<String>,
    pub awards: Option<String>,
    pub language: Option<String>,
    pub country: Option<String>,
    pub genre: Option<String>,
    pub year: Option<String>,
    pub rating: Option<String>,
    pub imdb_id: Option<String>,
    pub source_id: Option<u128>,
}

pub struct Episode {
    pub id: String,
    pub title: String,
    pub stream_url: String,
}

pub struct Season {
    pub number: u32,
    pub episodes: Vec<Episode>,
}

pub struct SeriesItem {
    pub id: String,
    pub name: String,
    pub cover: Option<String>,
    pub banner: Option<String>,
    pub category_id: Option<String>,
    pub plot: Option<String>,
    pub actors: Option<String>,
    pub director: Option<String>,
    pub writer: Option<String>,
    pub runtime: Option<String>,
    pub rated: Option<String>,
    pub awards: Option<String>,
    pub language: Option<String>,
    pub country: Option<String>,
    pub genre: Option<String>,
    pub year: Option<String>,
    pub rating: Option<String>,
    pub imdb_id: Option<String>,
    pub seasons: Vec<Season>,
    pub source_id: Option<u128>,
}

pub struct EpgProgramme {
    pub channel_id: String,
    pub title: String,
    pub start: i64,
    pub stop: i64,
}

/// Everything one or more sources provide.
pub struct PlaylistBundle {
    pub categories: Vec<Category>,
    pub channels: Vec<Channel>,
    pub vod: Vec<VodItem>,
    pub series: Vec<SeriesItem>,
    pub epg: Vec<EpgProgramme>,
}

pub type Text = Seq<char>;

pub type OptText = Option<Seq<char>>;

pub struct CategoryView {
    pub id: Text,
    pub name: Text,
    pub content: ContentKind,
}

pub struct ChannelView {
    pub id: Text,
    pub name: Text,
    pub stream_url: Text,
    pub logo: OptText,
    pub tvg_logo: OptText,
    pub group: OptText,
    pub kind: ContentKind,
    pub source_id: Option<u128>,
}

pub struct VodView {
    pub id: Text,
    pub name: Text,
    pub stream_url: Text,
    pub poster: OptText,
    pub category_id: OptText,
    pub plot: OptText,
    pub actors: OptText,
    pub director: OptText,
    pub writer: OptText,
    pub runtime: OptText,
    pub rated: OptText,
    pub awards: OptText,
    pub language: OptText,
    pub country: OptText,
    pub genre: OptText,
    pub year: OptText,
    pub rating: OptText,
    pub imdb_id: OptText,
    pub source_id: Option<u128>,
}

pub type EpisodeView = (Text, Text, Text);

pub struct SeasonView {
    pub number: u32,
    pub episodes: Seq<EpisodeView>,
}

pub struct SeriesView {
    pub id: Text,
    pub name: Text,
    pub cover: OptText,
    pub banner: OptText,
    pub category_id: OptText,
    pub plot: OptText,
    pub actors: OptText,
    pub director: OptText,
    pub writer: OptText,
    pub runtime: OptText,
    pub rated: OptText,
    pub awards: OptText,
    pub language: OptText,
    pub country: OptText,
    pub genre: OptText,
    pub year: OptText,
    pub rating: OptText,
    pub imdb_id: OptText,
    pub seasons: Seq<SeasonView>,
    pub source_id: Option<u128>,
}

pub type EpgView = (Text, Text, i64, i64);

pub struct BundleView {
    pub categories: Seq<CategoryView>,
    pub channels: Seq<ChannelView>,
    pub vod: Seq<VodView>,
    pub series: Seq<SeriesView>,
    pub epg: Seq<EpgView>,
}

impl View for Category {
    type V = CategoryView;

    open spec fn view(&self) -> CategoryView {
        CategoryView { id: self.id@, name: self.name@, content: self.content }
    }
}

impl View for Channel {
    type V = ChannelView;

    open spec fn view(&self) -> ChannelView {
        ChannelView {
            id: self.id@,
            name: self.name@,
            stream_url: self.stream_url@,
            logo: opt_view(self.logo),
            tvg_logo: opt_view(self.tvg_logo),
            group: opt_view(self.group),
            kind: self.kind,
            source_id: self.source_id,
        }
    }
}

impl View for VodItem {
    type V = VodView;

    open spec fn view(&self) -> VodView {
        VodView {
            id: self.id@,
            name: self.name@,
            stream_url: self.stream_url@,
            poster: opt_view(self.poster),
            category_id: opt_view(self.category_id),
            plot: opt_view(self.plot),
            actors: opt_view(self.actors),
            director: opt_view(self.director),
            writer: opt_view(self.writer),
            runtime: opt_view(self.runtime),
            rated: opt_view(self.rated),
            awards: opt_view(self.awards),
            language: opt_view(self.language),
            country: opt_view(self.country),
            genre: opt_view(self.genre),
            year: opt_view(self.year),
            rating: opt_view(self.rating),
            imdb_id: opt_view(self.imdb_id),
            source_id: self.source_id,
        }
    }
}

pub open spec fn episode_views(es: Seq<Episode>) -> Seq<EpisodeView> {
    es.map_values(|e: Episode| (e.id@, e.title@, e.stream_url@))
}

impl View for Season {
    type V = SeasonView;

    open spec fn view(&self) -> SeasonView {
        SeasonView { number: self.number, episodes: episode_views(self.episodes@) }
    }
}

pub open spec fn season_views(ss: Seq<Season>) -> Seq<SeasonView> {
    ss.map_values(|s: Season| s@)
}

impl View for SeriesItem {
    type V = SeriesView;

    open spec fn view(&self) -> SeriesView {
        SeriesView {
            id: self.id@,
            name: self.name@,
            cover: opt_view(self.cover),
            banner: opt_view(self.banner),
            category_id: opt_view(self.category_id),
            plot: opt_view(self.plot),
            actors: opt_view(self.actors),
            director: opt_view(self.director),
            writer: opt_view(self.writer),
            runtime: opt_view(self.runtime),
            rated: opt_view(self.rated),
            awards: opt_view(self.awards),
            language: opt_view(self.language),
            country: opt_view(self.country),
            genre: opt_view(self.genre),
            year: opt_view(self.year),
            rating: opt_view(self.rating),
            imdb_id: opt_view(self.imdb_id),
            seasons: season_views(self.seasons@),
            source_id: self.source_id,
        }
    }
}

impl View for EpgProgramme {
    type V = EpgView;

    open spec fn view(&self) -> EpgView {
        (self.channel_id@, self.title@, self.start, self.stop)
    }
}

pub open spec fn category_views(s: Seq<Category>) -> Seq<CategoryView> {
    s.map_values(|c: Category| c@)
}

pub open spec fn channel_views(s: Seq<Channel>) -> Seq<ChannelView> {
    s.map_values(|c: Channel| c@)
}

pub open spec fn vod_views(s: Seq<VodItem>) -> Seq<VodView> {
    s.map_values(|c: VodItem| c@)
}

pub open spec fn series_views(s: Seq<SeriesItem>) -> Seq<SeriesView> {
    s.map_values(|c: SeriesItem| c@)
}

pub open spec fn epg_views(s: Seq<EpgProgramme>) -> Seq<EpgView> {
    s.map_values(|c: EpgProgramme| c@)
}

impl View for PlaylistBundle {
    type V = BundleView;

    open spec fn view(&self) -> BundleView {
        BundleView {
            categories: category_views(self.categories@),
            channels: channel_views(self.channels@),
            vod: vod_views(self.vod@),
            series: series_views(self.series@),
            epg: epg_views(self.epg@),
        }
    }
}

impl Clone for Category {
    fn clone(&self) -> (r: Self)
        ensures
            r@ == self@,
    {
        Category { id: self.id.clone(), name: self.name.clone(), content: self.content }
    }
}

impl Clone for Channel {
    fn clone(&self) -> (r: Self)
        ensures
            r@ == self@,
    {
        Channel {
            id: self.id.clone(),
            name: self.name.clone(),
            stream_url: self.stream_url.clone(),
            logo: copy_opt(&self.logo),
            tvg_logo: copy_opt(&self.tvg_logo),
            group: copy_opt(&self.group),
            kind: self.kind,
            source_id: self.source_id,
        }
    }
}

impl Clone for VodItem {
    fn clone(&self) -> (r: Self)
        ensures
            r@ == self@,
    {
        VodItem {
            id: self.id.clone(),
            name: self.name.clone(),
            stream_url: self.stream_url.clone(),
            poster: copy_opt(&self.poster),
            category_id: copy_opt(&self.category_id),
            plot: copy_opt(&self.plot),
            actors: copy_opt(&self.actors),
            director: copy_opt(&self.director),
            writer: copy_opt(&self.writer),
            runtime: copy_opt(&self.runtime),
            rated: copy_opt(&self.rated),
            awards: copy_opt(&self.awards),
            language: copy_opt(&self.language),
            country: copy_opt(&self.country),
            genre: copy_opt(&self.genre),
            year: copy_opt(&self.year),
            rating: copy_opt(&self.rating),
            imdb_id: copy_opt(&self.imdb_id),
            source_id: self.source_id,
        }
    }
}

impl Clone for Episode {
    fn clone(&self) -> (r: Self)
        ensures
            (r.id@, r.title@, r.stream_url@) == (self.id@, self.title@, self.stream_url@),
    {
        Episode {
            id: self.id.clone(),
            title: self.title.clone(),
            stream_url: self.stream_url.clone(),
        }
    }
}

impl Clone for Season {
    fn clone(&self) -> (r: Self)
        ensures
            r@ == self@,
    {
        let mut eps: Vec<Episode> = Vec::new();
        let mut i: usize = 0;
        while i < self.episodes.len()
            invariant
                i <= self.episodes.len(),
                episode_views(eps@) == episode_views(self.episodes@).take(i as int),
            decreases self.episodes.len() - i,
        {
            let ghost before = episode_views(eps@);
            eps.push(self.episodes[i].clone());
            assert(episode_views(eps@) =~= before.push(episode_views(self.episodes@)[i as int]));
            assert(episode_views(self.episodes@).take(i + 1) =~= episode_views(
                self.episodes@,
            ).take(i as int).push(episode_views(self.episodes@)[i as int]));
            i += 1;
        }
        assert(episode_views(self.episodes@).take(i as int) =~= episode_views(self.episodes@));
        Season { number: self.number, episodes: eps }
    }
}

/// A copy of a list of seasons.
pub fn copy_seasons(ss: &Vec<Season>) -> (r: Vec<Season>)
    ensures
        season_views(r@) == season_views(ss@),
{
    let mut out: Vec<Season> = Vec::new();
    let mut i: usize = 0;
    while i < ss.len()
        invariant
            i <= ss.len(),
            season_views(out@) == season_views(ss@).take(i as int),
        decreases ss.len() - i,
    {
        let ghost before = season_views(out@);
        out.push(ss[i].clone());
        assert(season_views(out@) =~= before.push(season_views(ss@)[i as int]));
        assert(season_views(ss@).take(i + 1) =~= season_views(ss@).take(i as int).push(
            season_views(ss@)[i as int],
        ));
        i += 1;
    }
    assert(season_views(ss@).take(i as int) =~= season_views(ss@));
    out
}

impl Clone for SeriesItem {
    fn clone(&self) -> (r: Self)
        ensures
            r@ == self@,
    {
        SeriesItem {
            id: self.id.clone(),
            name: self.name.clone(),
            cover: copy_opt(&self.cover),
            banner: copy_opt(&self.banner),
            category_id: copy_opt(&self.category_id),
            plot: copy_opt(&self.plot),
            actors: copy_opt(&self.actors),
            director: copy_opt(&self.director),
            writer: copy_opt(&self.writer),
            runtime: copy_opt(&self.runtime),
            rated: copy_opt(&self.rated),
            awards: copy_opt(&self.awards),
            language: copy_opt(&self.language),
            country: copy_opt(&self.country),
            genre: copy_opt(&self.genre),
            year: copy_opt(&self.year),
            rating: copy_opt(&self.rating),
            imdb_id: copy_opt(&self.imdb_id),
            seasons: copy_seasons(&self.seasons),
            source_id: self.source_id,
        }
    }
}

impl Clone for EpgProgramme {
    fn clone(&self) -> (r: Self)
        ensures
            r@ == self@,
    {
        EpgProgramme {
            channel_id: self.channel_id.clone(),
            title: self.title.clone(),
            start: self.start,
            stop: self.stop,
        }
    }
}

/// Length in bytes of an optional text (0 when absent).
pub open spec fn opt_bytes(o: OptText) -> nat {
    match o {
        Some(s) => utf8_len(s),
        None => 0,
    }
}

fn opt_bytes_exec(o: &Option<String>) -> (r: u128)
    ensures
        r == opt_bytes(opt_view(*o)),
{
    match o {
        Some(s) => {
            let c = crate::text::chars_of(s.as_str());
            utf8_len_exec(c.as_slice())
        },
        None => 0,
    }
}

/// The source text when it is longer (in bytes) than the current one.
pub open spec fn longer_of(dst: OptText, src: OptText) -> OptText {
    if opt_bytes(src) > opt_bytes(dst) {
        src
    } else {
        dst
    }
}

/// The source text when the current one is missing or empty and the
/// source is not empty.
pub open spec fn filled_from(dst: OptText, src: OptText) -> OptText {
    let dst_empty = match dst {
        Some(s) => s.len() == 0,
        None => true,
    };
    let src_full = match src {
        Some(s) => s.len() > 0,
        None => false,
    };
    if dst_empty && src_full {
        src
    } else {
        dst
    }
}

/// Keeps the longer of two optional texts in `dst`.
pub fn prefer_longer(dst: &mut Option<String>, src: Option<String>)
    ensures
        opt_view(*final(dst)) == longer_of(opt_view(*old(dst)), opt_view(src)),
{
    let src_len = opt_bytes_exec(&src);
    let dst_len = opt_bytes_exec(dst);
    if src_len > dst_len {
        *dst = src;
    }
}

/// Fills `dst` from `src` when `dst` is missing or empty.
pub fn prefer_if_empty(dst: &mut Option<String>, src: Option<String>)
    ensures
        opt_view(*final(dst)) == filled_from(opt_view(*old(dst)), opt_view(src)),
{
    let dst_empty = match dst {
        Some(s) => s.as_str().is_empty(),
        None => true,
    };
    let src_full = match &src {
        Some(s) => !s.as_str().is_empty(),
        None => false,
    };
    if dst_empty && src_full {
        *dst = src;
    }
}

/// Portal item with the enrichment of its stored copy kept.
pub open spec fn vod_kept(p: VodView, o: VodView) -> VodView {
    VodView {
        plot: longer_of(p.plot, o.plot),
        actors: filled_from(p.actors, o.actors),
        director: filled_from(p.director, o.director),
        writer: filled_from(p.writer, o.writer),
        runtime: filled_from(p.runtime, o.runtime),
        rated: filled_from(p.rated, o.rated),
        awards: filled_from(p.awards, o.awards),
        language: filled_from(p.language, o.language),
        country: filled_from(p.country, o.country),
        genre: filled_from(p.genre, o.genre),
        year: filled_from(p.year, o.year),
        rating: filled_from(p.rating, o.rating),
        imdb_id: filled_from(p.imdb_id, o.imdb_id),
        poster: filled_from(p.poster, o.poster),
        ..p
    }
}

/// Keeps the metadata of the stored copy where the portal has none.
pub fn merge_vod_keep_meta(portal: &mut VodItem, stored: &VodItem)
    ensures
        final(portal)@ == vod_kept(old(portal)@, stored@),
{
    prefer_longer(&mut portal.plot, copy_opt(&stored.plot));
    prefer_if_empty(&mut portal.actors, copy_opt(&stored.actors));
    prefer_if_empty(&mut portal.director, copy_opt(&stored.director));
    prefer_if_empty(&mut portal.writer, copy_opt(&stored.writer));
    prefer_if_empty(&mut portal.runtime, copy_opt(&stored.runtime));
    prefer_if_empty(&mut portal.rated, copy_opt(&stored.rated));
    prefer_if_empty(&mut portal.awards, copy_opt(&stored.awards));
    prefer_if_empty(&mut portal.language, copy_opt(&stored.language));
    prefer_if_empty(&mut portal.country, copy_opt(&stored.country));
    prefer_if_empty(&mut portal.genre, copy_opt(&stored.genre));
    prefer_if_empty(&mut portal.year, copy_opt(&stored.year));
    prefer_if_empty(&mut portal.rating, copy_opt(&stored.rating));
    prefer_if_empty(&mut portal.imdb_id, copy_opt(&stored.imdb_id));
    prefer_if_empty(&mut portal.poster, copy_opt(&stored.poster));
}

/// Portal series with the enrichment of its stored copy kept.
pub open spec fn series_kept(p: SeriesView, o: SeriesView) -> SeriesView {
    SeriesView {
        plot: longer_of(p.plot, o.plot),
        actors: filled_from(p.actors, o.actors),
        director: filled_from(p.director, o.director),
        writer: filled_from(p.writer, o.writer),
        runtime: filled_from(p.runtime, o.runtime),
        rated: filled_from(p.rated, o.rated),
        awards: filled_from(p.awards, o.awards),
        language: filled_from(p.language, o.language),
        country: filled_from(p.country, o.country),
        genre: filled_from(p.genre, o.genre),
        year: filled_from(p.year, o.year),
        rating: filled_from(p.rating, o.rating),
        imdb_id: filled_from(p.imdb_id, o.imdb_id),
        cover: filled_from(p.cover, o.cover),
        banner: filled_from(p.banner, o.banner),
        seasons: if p.seasons.len() == 0 && o.seasons.len() > 0 {
            o.seasons
        } else {
            p.seasons
        },
        ..p
    }
}

/// Keeps the metadata (and seasons) of the stored copy where the portal has none.
pub fn merge_series_keep_meta(portal: &mut SeriesItem, stored: &SeriesItem)
    ensures
        final(portal)@ == series_kept(old(portal)@, stored@),
{
    prefer_longer(&mut portal.plot, copy_opt(&stored.plot));
    prefer_if_empty(&mut portal.actors, copy_opt(&stored.actors));
    prefer_if_empty(&mut portal.director, copy_opt(&stored.director));
    prefer_if_empty(&mut portal.writer, copy_opt(&stored.writer));
    prefer_if_empty(&mut portal.runtime, copy_opt(&stored.runtime));
    prefer_if_empty(&mut portal.rated, copy_opt(&stored.rated));
    prefer_if_empty(&mut portal.awards, copy_opt(&stored.awards));
    prefer_if_empty(&mut portal.language, copy_opt(&stored.language));
    prefer_if_empty(&mut portal.country, copy_opt(&stored.country));
    prefer_if_empty(&mut portal.genre, copy_opt(&stored.genre));
    prefer_if_empty(&mut portal.year, copy_opt(&stored.year));
    prefer_if_empty(&mut portal.rating, copy_opt(&stored.rating));
    prefer_if_empty(&mut portal.imdb_id, copy_opt(&stored.imdb_id));
    prefer_if_empty(&mut portal.cover, copy_opt(&stored.cover));
    prefer_if_empty(&mut portal.banner, copy_opt(&stored.banner));
    if portal.seasons.len() == 0 && stored.seasons.len() > 0 {
        portal.seasons = copy_seasons(&stored.seasons);
    }
}

/// Enough metadata to count as enriched: an IMDb id, or a real plot (40
/// bytes or more) with actors, or genre, year and plot together.
pub open spec fn meta_ok(imdb_id: OptText, plot: OptText, actors: OptText, genre: OptText, year: OptText) -> bool {
    imdb_id is Some || (opt_bytes(plot) >= 40 && plot is Some && actors is Some) || (genre is Some
        && year is Some && plot is Some)
}

fn plot_is_long(plot: &Option<String>) -> (r: bool)
    ensures
        r == (plot is Some && opt_bytes(opt_view(*plot)) >= 40),
{
    match plot {
        Some(_) => opt_bytes_exec(plot) >= 40,
        None => false,
    }
}

/// The item carries enrichment worth keeping.
pub fn vod_meta_ok(v: &VodItem) -> (r: bool)
    ensures
        r == meta_ok(v@.imdb_id, v@.plot, v@.actors, v@.genre, v@.year),
{
    v.imdb_id.is_some() || (plot_is_long(&v.plot) && v.actors.is_some()) || (v.genre.is_some()
        && v.year.is_some() && v.plot.is_some())
}

/// The series carries enrichment worth keeping.
pub fn series_meta_ok(s: &SeriesItem) -> (r: bool)
    ensures
        r == meta_ok(s@.imdb_id, s@.plot, s@.actors, s@.genre, s@.year),
{
    s.imdb_id.is_some() || (plot_is_long(&s.plot) && s.actors.is_some()) || (s.genre.is_some()
        && s.year.is_some() && s.plot.is_some())
}

/// `Some` replaces, `None` keeps.
pub open spec fn replaced(dst: OptText, src: OptText) -> OptText {
    if src is Some {
        src
    } else {
        dst
    }
}

/// Fields of a detail lookup applied over a catalog item: every field the
/// lookup has replaces the item's, except the poster, which is only filled.
pub open spec fn xtream_merged(e: VodView, i: VodView) -> VodView {
    VodView {
        plot: replaced(e.plot, i.plot),
        actors: replaced(e.actors, i.actors),
        director: replaced(e.director, i.director),
        writer: replaced(e.writer, i.writer),
        genre: replaced(e.genre, i.genre),
        year: replaced(e.year, i.year),
        rating: replaced(e.rating, i.rating),
        runtime: replaced(e.runtime, i.runtime),
        imdb_id: replaced(e.imdb_id, i.imdb_id),
        poster: if i.poster is Some && e.poster is None {
            i.poster
        } else {
            e.poster
        },
        rated: replaced(e.rated, i.rated),
        language: replaced(e.language, i.language),
        country: replaced(e.country, i.country),
        awards: replaced(e.awards, i.awards),
        ..e
    }
}

fn replace_if_some(dst: &mut Option<String>, src: &Option<String>)
    ensures
        opt_view(*final(dst)) == replaced(opt_view(*old(dst)), opt_view(*src)),
{
    if src.is_some() {
        *dst = copy_opt(src);
    }
}

/// Applies the fields of a detail lookup (`item`) to a catalog item.
pub fn merge_xtream_vod_fields(existing: &mut VodItem, item: &VodItem)
    ensures
        final(existing)@ == xtream_merged(old(existing)@, item@),
{
    replace_if_some(&mut existing.plot, &item.plot);
    replace_if_some(&mut existing.actors, &item.actors);
    replace_if_some(&mut existing.director, &item.director);
    replace_if_some(&mut existing.writer, &item.writer);
    replace_if_some(&mut existing.genre, &item.genre);
    replace_if_some(&mut existing.year, &item.year);
    replace_if_some(&mut existing.rating, &item.rating);
    replace_if_some(&mut existing.runtime, &item.runtime);
    replace_if_some(&mut existing.imdb_id, &item.imdb_id);
    if item.poster.is_some() && existing.poster.is_none() {
        existing.poster = copy_opt(&item.poster);
    }
    replace_if_some(&mut existing.rated, &item.rated);
    replace_if_some(&mut existing.language, &item.language);
    replace_if_some(&mut existing.country, &item.country);
    replace_if_some(&mut existing.awards, &item.awards);
}


/// A stored item of this source that carries enrichment.
pub open spec fn enriched_vod(v: VodView, sid: u128) -> bool {
    v.source_id == Some(sid) && (v.imdb_id is Some || v.actors is Some || (v.plot is Some
        && opt_bytes(v.plot) >= 40))
}

pub open spec fn enriched_series(v: SeriesView, sid: u128) -> bool {
    v.source_id == Some(sid) && (v.imdb_id is Some || v.actors is Some || (v.plot is Some
        && opt_bytes(v.plot) >= 40))
}

/// The last enriched stored item with this id (later entries win).
pub open spec fn last_enriched_vod(vs: Seq<VodView>, id: Text, sid: u128) -> Option<VodView>
    decreases vs.len(),
{
    if vs.len() == 0 {
        None
    } else if vs.last().id == id && enriched_vod(vs.last(), sid) {
        Some(vs.last())
    } else {
        last_enriched_vod(vs.drop_last(), id, sid)
    }
}

pub open spec fn last_enriched_series(vs: Seq<SeriesView>, id: Text, sid: u128) -> Option<
    SeriesView,
>
    decreases vs.len(),
{
    if vs.len() == 0 {
        None
    } else if vs.last().id == id && enriched_series(vs.last(), sid) {
        Some(vs.last())
    } else {
        last_enriched_series(vs.drop_last(), id, sid)
    }
}

pub open spec fn kept_if_none(dst: OptText, src: OptText) -> OptText {
    if dst is None {
        src
    } else {
        dst
    }
}

/// The in-memory enrichment of `o` carried over to the fresh item `v`.
pub open spec fn vod_with_old(v: VodView, o: VodView) -> VodView {
    VodView {
        plot: if opt_bytes(v.plot) < opt_bytes(o.plot) {
            o.plot
        } else {
            v.plot
        },
        actors: kept_if_none(v.actors, o.actors),
        director: kept_if_none(v.director, o.director),
        imdb_id: kept_if_none(v.imdb_id, o.imdb_id),
        rating: kept_if_none(v.rating, o.rating),
        poster: kept_if_none(v.poster, o.poster),
        genre: kept_if_none(v.genre, o.genre),
        year: kept_if_none(v.year, o.year),
        ..v
    }
}

pub open spec fn series_with_old(v: SeriesView, o: SeriesView) -> SeriesView {
    SeriesView {
        plot: if opt_bytes(v.plot) < opt_bytes(o.plot) {
            o.plot
        } else {
            v.plot
        },
        actors: kept_if_none(v.actors, o.actors),
        director: kept_if_none(v.director, o.director),
        imdb_id: kept_if_none(v.imdb_id, o.imdb_id),
        rating: kept_if_none(v.rating, o.rating),
        cover: kept_if_none(v.cover, o.cover),
        banner: kept_if_none(v.banner, o.banner),
        genre: kept_if_none(v.genre, o.genre),
        year: kept_if_none(v.year, o.year),
        seasons: if v.seasons.len() == 0 && o.seasons.len() > 0 {
            o.seasons
        } else {
            v.seasons
        },
        ..v
    }
}

pub open spec fn vod_merged(v: VodView, existing: Seq<VodView>, sid: u128) -> VodView {
    let v1 = VodView { source_id: Some(sid), ..v };
    match last_enriched_vod(existing, v.id, sid) {
        Some(o) => vod_with_old(v1, o),
        None => v1,
    }
}

pub open spec fn series_merged(v: SeriesView, existing: Seq<SeriesView>, sid: u128) -> SeriesView {
    let v1 = SeriesView { source_id: Some(sid), ..v };
    match last_enriched_series(existing, v.id, sid) {
        Some(o) => series_with_old(v1, o),
        None => v1,
    }
}

pub open spec fn channel_owned(c: ChannelView, sid: u128) -> ChannelView {
    ChannelView { source_id: Some(sid), ..c }
}

/// A fresh part of source `sid`, owned by it, with the in-memory enrichment
/// of `existing` carried over.
pub open spec fn part_merged(existing: BundleView, sid: u128, part: BundleView) -> BundleView {
    BundleView {
        channels: Seq::new(part.channels.len(), |j: int| channel_owned(part.channels[j], sid)),
        vod: Seq::new(part.vod.len(), |j: int| vod_merged(part.vod[j], existing.vod, sid)),
        series: Seq::new(
            part.series.len(),
            |j: int| series_merged(part.series[j], existing.series, sid),
        ),
        ..part
    }
}

fn keep_if_none_exec(dst: &mut Option<String>, src: &Option<String>)
    ensures
        opt_view(*final(dst)) == kept_if_none(opt_view(*old(dst)), opt_view(*src)),
{
    if dst.is_none() {
        *dst = copy_opt(src);
    }
}

fn is_enriched(imdb_id: &Option<String>, actors: &Option<String>, plot: &Option<String>) -> (r: bool)
    ensures
        r == (imdb_id is Some || actors is Some || (plot is Some && opt_bytes(opt_view(*plot))
            >= 40)),
{
    imdb_id.is_some() || actors.is_some() || plot_is_long(plot)
}

/// Index of the last enriched stored item of each id.
fn enriched_vod_index(vs: &Vec<VodItem>, sid: u128) -> (m: vstd::hash_map::StringHashMap<usize>)
    ensures
        forall|k: Text|
            #![trigger m@.contains_key(k)]
            #![trigger last_enriched_vod(vod_views(vs@), k, sid)]
            (m@.contains_key(k) <==> last_enriched_vod(vod_views(vs@), k, sid) is Some) && (
            m@.contains_key(k) ==> m@[k] < vs.len() && last_enriched_vod(vod_views(vs@), k, sid)
                == Some(vs@[m@[k] as int]@)),
{
    let mut m: vstd::hash_map::StringHashMap<usize> = vstd::hash_map::StringHashMap::new();
    let mut i: usize = 0;
    while i < vs.len()
        invariant
            i <= vs.len(),
            forall|k: Text|
                #![trigger m@.contains_key(k)]
                #![trigger last_enriched_vod(vod_views(vs@).take(i as int), k, sid)]
                (m@.contains_key(k) <==> last_enriched_vod(vod_views(vs@).take(i as int), k, sid)
                    is Some) && (m@.contains_key(k) ==> m@[k] < i && last_enriched_vod(
                    vod_views(vs@).take(i as int),
                    k,
                    sid,
                ) == Some(vs@[m@[k] as int]@)),
        decreases vs.len() - i,
    {
        let ghost pre = vod_views(vs@).take(i + 1);
        assert(pre.drop_last() =~= vod_views(vs@).take(i as int));
        assert(pre.last() == vs@[i as int]@);
        let v = &vs[i];
        if v.source_id == Some(sid) && is_enriched(&v.imdb_id, &v.actors, &v.plot) {
            m.insert(v.id.clone(), i);
        }
        i += 1;
    }
    assert(vod_views(vs@).take(i as int) =~= vod_views(vs@));
    m
}

fn enriched_series_index(vs: &Vec<SeriesItem>, sid: u128) -> (m: vstd::hash_map::StringHashMap<usize>)
    ensures
        forall|k: Text|
            #![trigger m@.contains_key(k)]
            #![trigger last_enriched_series(series_views(vs@), k, sid)]
            (m@.contains_key(k) <==> last_enriched_series(series_views(vs@), k, sid) is Some) && (
            m@.contains_key(k) ==> m@[k] < vs.len() && last_enriched_series(
                series_views(vs@),
                k,
                sid,
            ) == Some(vs@[m@[k] as int]@)),
{
    let mut m: vstd::hash_map::StringHashMap<usize> = vstd::hash_map::StringHashMap::new();
    let mut i: usize = 0;
    while i < vs.len()
        invariant
            i <= vs.len(),
            forall|k: Text|
                #![trigger m@.contains_key(k)]
                #![trigger last_enriched_series(series_views(vs@).take(i as int), k, sid)]
                (m@.contains_key(k) <==> last_enriched_series(
                    series_views(vs@).take(i as int),
                    k,
                    sid,
                ) is Some) && (m@.contains_key(k) ==> m@[k] < i && last_enriched_series(
                    series_views(vs@).take(i as int),
                    k,
                    sid,
                ) == Some(vs@[m@[k] as int]@)),
        decreases vs.len() - i,
    {
        let ghost pre = series_views(vs@).take(i + 1);
        assert(pre.drop_last() =~= series_views(vs@).take(i as int));
        assert(pre.last() == vs@[i as int]@);
        let v = &vs[i];
        if v.source_id == Some(sid) && is_enriched(&v.imdb_id, &v.actors, &v.plot) {
            m.insert(v.id.clone(), i);
        }
        i += 1;
    }
    assert(series_views(vs@).take(i as int) =~= series_views(vs@));
    m
}

fn vod_with_old_exec(v: &mut VodItem, o: &VodItem)
    ensures
        final(v)@ == vod_with_old(old(v)@, o@),
{
    if opt_bytes_exec(&v.plot) < opt_bytes_exec(&o.plot) {
        v.plot = copy_opt(&o.plot);
    }
    keep_if_none_exec(&mut v.actors, &o.actors);
    keep_if_none_exec(&mut v.director, &o.director);
    keep_if_none_exec(&mut v.imdb_id, &o.imdb_id);
    keep_if_none_exec(&mut v.rating, &o.rating);
    keep_if_none_exec(&mut v.poster, &o.poster);
    keep_if_none_exec(&mut v.genre, &o.genre);
    keep_if_none_exec(&mut v.year, &o.year);
}

fn series_with_old_exec(v: &mut SeriesItem, o: &SeriesItem)
    ensures
        final(v)@ == series_with_old(old(v)@, o@),
{
    if opt_bytes_exec(&v.plot) < opt_bytes_exec(&o.plot) {
        v.plot = copy_opt(&o.plot);
    }
    keep_if_none_exec(&mut v.actors, &o.actors);
    keep_if_none_exec(&mut v.director, &o.director);
    keep_if_none_exec(&mut v.imdb_id, &o.imdb_id);
    keep_if_none_exec(&mut v.rating, &o.rating);
    keep_if_none_exec(&mut v.cover, &o.cover);
    keep_if_none_exec(&mut v.banner, &o.banner);
    keep_if_none_exec(&mut v.genre, &o.genre);
    keep_if_none_exec(&mut v.year, &o.year);
    if v.seasons.len() == 0 && o.seasons.len() > 0 {
        v.seasons = copy_seasons(&o.seasons);
    }
}

/// Takes a freshly loaded part of source `source_id`: marks every item as
/// owned by it and keeps plot / actors / ids from the in-memory copies
/// where the portal has none.
pub fn merge_part_with_existing(existing: &PlaylistBundle, source_id: u128, part: PlaylistBundle) -> (r:
    PlaylistBundle)
    ensures
        r@ == part_merged(existing@, source_id, part@),
{
    let vod_old = enriched_vod_index(&existing.vod, source_id);
    let ser_old = enriched_series_index(&existing.series, source_id);
    let ghost ev = vod_views(existing.vod@);
    let ghost es = series_views(existing.series@);
    let mut vod: Vec<VodItem> = Vec::new();
    let mut j: usize = 0;
    while j < part.vod.len()
        invariant
            j <= part.vod.len(),
            ev == vod_views(existing.vod@),
            forall|k: Text|
                #![trigger vod_old@.contains_key(k)]
                #![trigger last_enriched_vod(ev, k, source_id)]
                (vod_old@.contains_key(k) <==> last_enriched_vod(ev, k, source_id) is Some) && (
                vod_old@.contains_key(k) ==> vod_old@[k] < existing.vod.len() && last_enriched_vod(
                    ev,
                    k,
                    source_id,
                ) == Some(existing.vod@[vod_old@[k] as int]@)),
            vod.len() == j,
            forall|t: int|
                0 <= t < j ==> (#[trigger] vod@[t])@ == vod_merged(
                    part.vod@[t]@,
                    ev,
                    source_id,
                ),
        decreases part.vod.len() - j,
    {
        let mut v = part.vod[j].clone();
        v.source_id = Some(source_id);
        match vod_old.get(v.id.as_str()) {
            Some(idx) => {
                let ghost k = part.vod@[j as int].id@;
                assert(vod_old@.contains_key(k));
                vod_with_old_exec(&mut v, &existing.vod[*idx]);
            },
            None => {
                assert(!vod_old@.contains_key(part.vod@[j as int].id@));
            },
        }
        vod.push(v);
        j += 1;
    }
    let mut series: Vec<SeriesItem> = Vec::new();
    let mut j: usize = 0;
    while j < part.series.len()
        invariant
            j <= part.series.len(),
            es == series_views(existing.series@),
            forall|k: Text|
                #![trigger ser_old@.contains_key(k)]
                #![trigger last_enriched_series(es, k, source_id)]
                (ser_old@.contains_key(k) <==> last_enriched_series(es, k, source_id) is Some) && (
                ser_old@.contains_key(k) ==> ser_old@[k] < existing.series.len()
                    && last_enriched_series(es, k, source_id) == Some(
                    existing.series@[ser_old@[k] as int]@,
                )),
            series.len() == j,
            forall|t: int|
                0 <= t < j ==> (#[trigger] series@[t])@ == series_merged(
                    part.series@[t]@,
                    es,
                    source_id,
                ),
        decreases part.series.len() - j,
    {
        let mut v = part.series[j].clone();
        v.source_id = Some(source_id);
        match ser_old.get(v.id.as_str()) {
            Some(idx) => {
                let ghost k = part.series@[j as int].id@;
                assert(ser_old@.contains_key(k));
                series_with_old_exec(&mut v, &existing.series[*idx]);
            },
            None => {
                assert(!ser_old@.contains_key(part.series@[j as int].id@));
            },
        }
        series.push(v);
        j += 1;
    }
    let mut channels: Vec<Channel> = Vec::new();
    let mut j: usize = 0;
    while j < part.channels.len()
        invariant
            j <= part.channels.len(),
            channels.len() == j,
            forall|t: int|
                0 <= t < j ==> (#[trigger] channels@[t])@ == channel_owned(
                    part.channels@[t]@,
                    source_id,
                ),
        decreases part.channels.len() - j,
    {
        let mut c = part.channels[j].clone();
        c.source_id = Some(source_id);
        channels.push(c);
        j += 1;
    }
    let r = PlaylistBundle {
        categories: part.categories,
        channels,
        vod,
        series,
        epg: part.epg,
    };
    assert(r@.vod =~= part_merged(existing@, source_id, part@).vod);
    assert(r@.series =~= part_merged(existing@, source_id, part@).series);
    assert(r@.channels =~= part_merged(existing@, source_id, part@).channels);
    r
}


/// The elements of `s` that satisfy `p`, in order.
pub open spec fn keep_where<A>(s: Seq<A>, p: spec_fn(A) -> bool) -> Seq<A>
    decreases s.len(),
{
    if s.len() == 0 {
        seq![]
    } else {
        let r = keep_where(s.drop_last(), p);
        if p(s.last()) {
            r.push(s.last())
        } else {
            r
        }
    }
}

/// Some element of `s` has key `k`.
pub open spec fn key_seen<A>(s: Seq<A>, key: spec_fn(A) -> Text, k: Text) -> bool {
    exists|t: int| 0 <= t < s.len() && key(#[trigger] s[t]) == k
}

/// The first element of each key, in order.
pub open spec fn first_by_key<A>(s: Seq<A>, key: spec_fn(A) -> Text) -> Seq<A>
    decreases s.len(),
{
    if s.len() == 0 {
        seq![]
    } else {
        let r = first_by_key(s.drop_last(), key);
        if key_seen(s.drop_last(), key, key(s.last())) {
            r
        } else {
            r.push(s.last())
        }
    }
}

/// A category that the new part also defines (same kind and id).
pub open spec fn overlapped(c: CategoryView, part: Seq<CategoryView>) -> bool {
    exists|t: int| 0 <= t < part.len() && (#[trigger] part[t]).content == c.content && part[t].id == c.id
}

/// The bundle after reloading source `sid` with `part`: the source's old
/// items and the categories that `part` redefines are dropped, `part` is
/// appended, and items keep only the first of each id.
pub open spec fn bundle_replaced(into: BundleView, sid: u128, part: BundleView) -> BundleView {
    BundleView {
        categories: keep_where(into.categories, |c: CategoryView| !overlapped(c, part.categories))
            + part.categories,
        channels: first_by_key(
            keep_where(into.channels, |c: ChannelView| c.source_id != Some(sid)) + part.channels,
            |c: ChannelView| c.id,
        ),
        vod: first_by_key(
            keep_where(into.vod, |c: VodView| c.source_id != Some(sid)) + part.vod,
            |c: VodView| c.id,
        ),
        series: first_by_key(
            keep_where(into.series, |c: SeriesView| c.source_id != Some(sid)) + part.series,
            |c: SeriesView| c.id,
        ),
        epg: into.epg + part.epg,
    }
}

fn category_overlapped(c: &Category, part: &Vec<Category>) -> (r: bool)
    ensures
        r == overlapped(c@, category_views(part@)),
{
    let mut i: usize = 0;
    while i < part.len()
        invariant
            i <= part.len(),
            forall|t: int|
                0 <= t < i ==> !((#[trigger] category_views(part@)[t]).content == c@.content
                    && category_views(part@)[t].id == c@.id),
        decreases part.len() - i,
    {
        assert(category_views(part@)[i as int] == part@[i as int]@);
        if part[i].content == c.content && crate::gpu::str_eq(&part[i].id, &c.id) {
            assert(category_views(part@)[i as int].content == c@.content
                && category_views(part@)[i as int].id == c@.id);
            return true;
        }
        i += 1;
    }
    false
}

fn categories_replaced(into: &Vec<Category>, part: &Vec<Category>) -> (r: Vec<Category>)
    ensures
        category_views(r@) == keep_where(
            category_views(into@),
            |c: CategoryView| !overlapped(c, category_views(part@)),
        ) + category_views(part@),
{
    let ghost p = |c: CategoryView| !overlapped(c, category_views(part@));
    let mut out: Vec<Category> = Vec::new();
    let mut i: usize = 0;
    while i < into.len()
        invariant
            i <= into.len(),
            p == (|c: CategoryView| !overlapped(c, category_views(part@))),
            category_views(out@) == keep_where(category_views(into@).take(i as int), p),
        decreases into.len() - i,
    {
        let ghost pre = category_views(into@).take(i + 1);
        assert(pre.drop_last() =~= category_views(into@).take(i as int));
        assert(pre.last() == into@[i as int]@);
        let ghost before = category_views(out@);
        if !category_overlapped(&into[i], part) {
            out.push(into[i].clone());
            assert(category_views(out@) =~= before.push(into@[i as int]@));
        }
        i += 1;
    }
    assert(category_views(into@).take(i as int) =~= category_views(into@));
    let ghost kept = category_views(out@);
    let mut j: usize = 0;
    while j < part.len()
        invariant
            j <= part.len(),
            category_views(out@) == kept + category_views(part@).take(j as int),
        decreases part.len() - j,
    {
        let ghost before = category_views(out@);
        out.push(part[j].clone());
        assert(category_views(out@) =~= before.push(part@[j as int]@));
        assert(category_views(part@).take(j + 1) =~= category_views(part@).take(j as int).push(
            part@[j as int]@,
        ));
        j += 1;
    }
    assert(category_views(part@).take(j as int) =~= category_views(part@));
    out
}

fn epg_joined(into: &Vec<EpgProgramme>, part: &Vec<EpgProgramme>) -> (r: Vec<EpgProgramme>)
    ensures
        epg_views(r@) == epg_views(into@) + epg_views(part@),
{
    let mut out: Vec<EpgProgramme> = Vec::new();
    let mut i: usize = 0;
    while i < into.len()
        invariant
            i <= into.len(),
            epg_views(out@) == epg_views(into@).take(i as int),
        decreases into.len() - i,
    {
        let ghost before = epg_views(out@);
        out.push(into[i].clone());
        assert(epg_views(out@) =~= before.push(into@[i as int]@));
        assert(epg_views(into@).take(i + 1) =~= epg_views(into@).take(i as int).push(
            into@[i as int]@,
        ));
        i += 1;
    }
    assert(epg_views(into@).take(i as int) =~= epg_views(into@));
    let mut j: usize = 0;
    while j < part.len()
        invariant
            j <= part.len(),
            epg_views(out@) == epg_views(into@) + epg_views(part@).take(j as int),
        decreases part.len() - j,
    {
        let ghost before = epg_views(out@);
        out.push(part[j].clone());
        assert(epg_views(out@) =~= before.push(part@[j as int]@));
        assert(epg_views(part@).take(j + 1) =~= epg_views(part@).take(j as int).push(
            part@[j as int]@,
        ));
        j += 1;
    }
    assert(epg_views(part@).take(j as int) =~= epg_views(part@));
    out
}


fn channels_reloaded(into: &Vec<Channel>, sid: u128, part: &Vec<Channel>) -> (r: Vec<Channel>)
    ensures
        channel_views(r@) == first_by_key(
            keep_where(channel_views(into@), |c: ChannelView| c.source_id != Some(sid)) + channel_views(part@),
            |c: ChannelView| c.id,
        ),
{
    let ghost p = |c: ChannelView| c.source_id != Some(sid);
    let ghost key = |c: ChannelView| c.id;
    let mut joined: Vec<Channel> = Vec::new();
    let mut i: usize = 0;
    while i < into.len()
        invariant
            i <= into.len(),
            p == (|c: ChannelView| c.source_id != Some(sid)),
            channel_views(joined@) == keep_where(channel_views(into@).take(i as int), p),
        decreases into.len() - i,
    {
        let ghost pre = channel_views(into@).take(i + 1);
        assert(pre.drop_last() =~= channel_views(into@).take(i as int));
        assert(pre.last() == into@[i as int]@);
        let ghost before = channel_views(joined@);
        if into[i].source_id != Some(sid) {
            joined.push(into[i].clone());
            assert(channel_views(joined@) =~= before.push(into@[i as int]@));
        }
        i += 1;
    }
    assert(channel_views(into@).take(i as int) =~= channel_views(into@));
    let ghost kept = channel_views(joined@);
    let mut j: usize = 0;
    while j < part.len()
        invariant
            j <= part.len(),
            channel_views(joined@) == kept + channel_views(part@).take(j as int),
        decreases part.len() - j,
    {
        let ghost before = channel_views(joined@);
        joined.push(part[j].clone());
        assert(channel_views(joined@) =~= before.push(part@[j as int]@));
        assert(channel_views(part@).take(j + 1) =~= channel_views(part@).take(j as int).push(part@[j as int]@));
        j += 1;
    }
    assert(channel_views(part@).take(j as int) =~= channel_views(part@));
    let ghost all = channel_views(joined@);
    let mut seen = vstd::hash_set::StringHashSet::new();
    let mut out: Vec<Channel> = Vec::new();
    let mut k: usize = 0;
    while k < joined.len()
        invariant
            k <= joined.len(),
            all == channel_views(joined@),
            key == (|c: ChannelView| c.id),
            channel_views(out@) == first_by_key(all.take(k as int), key),
            forall|x: Text| seen@.contains(x) <==> key_seen(all.take(k as int), key, x),
        decreases joined.len() - k,
    {
        let ghost pre = all.take(k + 1);
        assert(pre.drop_last() =~= all.take(k as int));
        assert(pre.last() == joined@[k as int]@);
        let ghost before = channel_views(out@);
        let fresh = seen.insert(joined[k].id.clone());
        if fresh {
            out.push(joined[k].clone());
            assert(channel_views(out@) =~= before.push(joined@[k as int]@));
        }
        assert forall|x: Text| seen@.contains(x) <==> key_seen(pre, key, x) by {
            if key_seen(pre, key, x) {
                let t = choose|t: int| 0 <= t < pre.len() && key(#[trigger] pre[t]) == x;
                if t < k {
                    assert(all.take(k as int)[t] == pre[t]);
                }
            }
            if key_seen(all.take(k as int), key, x) {
                let t = choose|t: int| 0 <= t < k && key(#[trigger] all.take(k as int)[t]) == x;
                assert(pre[t] == all.take(k as int)[t]);
            }
        }
        k += 1;
    }
    assert(all.take(k as int) =~= all);
    out
}

fn vod_reloaded(into: &Vec<VodItem>, sid: u128, part: &Vec<VodItem>) -> (r: Vec<VodItem>)
    ensures
        vod_views(r@) == first_by_key(
            keep_where(vod_views(into@), |c: VodView| c.source_id != Some(sid)) + vod_views(part@),
            |c: VodView| c.id,
        ),
{
    let ghost p = |c: VodView| c.source_id != Some(sid);
    let ghost key = |c: VodView| c.id;
    let mut joined: Vec<VodItem> = Vec::new();
    let mut i: usize = 0;
    while i < into.len()
        invariant
            i <= into.len(),
            p == (|c: VodView| c.source_id != Some(sid)),
            vod_views(joined@) == keep_where(vod_views(into@).take(i as int), p),
        decreases into.len() - i,
    {
        let ghost pre = vod_views(into@).take(i + 1);
        assert(pre.drop_last() =~= vod_views(into@).take(i as int));
        assert(pre.last() == into@[i as int]@);
        let ghost before = vod_views(joined@);
        if into[i].source_id != Some(sid) {
            joined.push(into[i].clone());
            assert(vod_views(joined@) =~= before.push(into@[i as int]@));
        }
        i += 1;
    }
    assert(vod_views(into@).take(i as int) =~= vod_views(into@));
    let ghost kept = vod_views(joined@);
    let mut j: usize = 0;
    while j < part.len()
        invariant
            j <= part.len(),
            vod_views(joined@) == kept + vod_views(part@).take(j as int),
        decreases part.len() - j,
    {
        let ghost before = vod_views(joined@);
        joined.push(part[j].clone());
        assert(vod_views(joined@) =~= before.push(part@[j as int]@));
        assert(vod_views(part@).take(j + 1) =~= vod_views(part@).take(j as int).push(part@[j as int]@));
        j += 1;
    }
    assert(vod_views(part@).take(j as int) =~= vod_views(part@));
    let ghost all = vod_views(joined@);
    let mut seen = vstd::hash_set::StringHashSet::new();
    let mut out: Vec<VodItem> = Vec::new();
    let mut k: usize = 0;
    while k < joined.len()
        invariant
            k <= joined.len(),
            all == vod_views(joined@),
            key == (|c: VodView| c.id),
            vod_views(out@) == first_by_key(all.take(k as int), key),
            forall|x: Text| seen@.contains(x) <==> key_seen(all.take(k as int), key, x),
        decreases joined.len() - k,
    {
        let ghost pre = all.take(k + 1);
        assert(pre.drop_last() =~= all.take(k as int));
        assert(pre.last() == joined@[k as int]@);
        let ghost before = vod_views(out@);
        let fresh = seen.insert(joined[k].id.clone());
        if fresh {
            out.push(joined[k].clone());
            assert(vod_views(out@) =~= before.push(joined@[k as int]@));
        }
        assert forall|x: Text| seen@.contains(x) <==> key_seen(pre, key, x) by {
            if key_seen(pre, key, x) {
                let t = choose|t: int| 0 <= t < pre.len() && key(#[trigger] pre[t]) == x;
                if t < k {
                    assert(all.take(k as int)[t] == pre[t]);
                }
            }
            if key_seen(all.take(k as int), key, x) {
                let t = choose|t: int| 0 <= t < k && key(#[trigger] all.take(k as int)[t]) == x;
                assert(pre[t] == all.take(k as int)[t]);
            }
        }
        k += 1;
    }
    assert(all.take(k as int) =~= all);
    out
}

fn series_reloaded(into: &Vec<SeriesItem>, sid: u128, part: &Vec<SeriesItem>) -> (r: Vec<SeriesItem>)
    ensures
        series_views(r@) == first_by_key(
            keep_where(series_views(into@), |c: SeriesView| c.source_id != Some(sid)) + series_views(part@),
            |c: SeriesView| c.id,
        ),
{
    let ghost p = |c: SeriesView| c.source_id != Some(sid);
    let ghost key = |c: SeriesView| c.id;
    let mut joined: Vec<SeriesItem> = Vec::new();
    let mut i: usize = 0;
    while i < into.len()
        invariant
            i <= into.len(),
            p == (|c: SeriesView| c.source_id != Some(sid)),
            series_views(joined@) == keep_where(series_views(into@).take(i as int), p),
        decreases into.len() - i,
    {
        let ghost pre = series_views(into@).take(i + 1);
        assert(pre.drop_last() =~= series_views(into@).take(i as int));
        assert(pre.last() == into@[i as int]@);
        let ghost before = series_views(joined@);
        if into[i].source_id != Some(sid) {
            joined.push(into[i].clone());
            assert(series_views(joined@) =~= before.push(into@[i as int]@));
        }
        i += 1;
    }
    assert(series_views(into@).take(i as int) =~= series_views(into@));
    let ghost kept = series_views(joined@);
    let mut j: usize = 0;
    while j < part.len()
        invariant
            j <= part.len(),
            series_views(joined@) == kept + series_views(part@).take(j as int),
        decreases part.len() - j,
    {
        let ghost before = series_views(joined@);
        joined.push(part[j].clone());
        assert(series_views(joined@) =~= before.push(part@[j as int]@));
        assert(series_views(part@).take(j + 1) =~= series_views(part@).take(j as int).push(part@[j as int]@));
        j += 1;
    }
    assert(series_views(part@).take(j as int) =~= series_views(part@));
    let ghost all = series_views(joined@);
    let mut seen = vstd::hash_set::StringHashSet::new();
    let mut out: Vec<SeriesItem> = Vec::new();
    let mut k: usize = 0;
    while k < joined.len()
        invariant
            k <= joined.len(),
            all == series_views(joined@),
            key == (|c: SeriesView| c.id),
            series_views(out@) == first_by_key(all.take(k as int), key),
            forall|x: Text| seen@.contains(x) <==> key_seen(all.take(k as int), key, x),
        decreases joined.len() - k,
    {
        let ghost pre = all.take(k + 1);
        assert(pre.drop_last() =~= all.take(k as int));
        assert(pre.last() == joined@[k as int]@);
        let ghost before = series_views(out@);
        let fresh = seen.insert(joined[k].id.clone());
        if fresh {
            out.push(joined[k].clone());
            assert(series_views(out@) =~= before.push(joined@[k as int]@));
        }
        assert forall|x: Text| seen@.contains(x) <==> key_seen(pre, key, x) by {
            if key_seen(pre, key, x) {
                let t = choose|t: int| 0 <= t < pre.len() && key(#[trigger] pre[t]) == x;
                if t < k {
                    assert(all.take(k as int)[t] == pre[t]);
                }
            }
            if key_seen(all.take(k as int), key, x) {
                let t = choose|t: int| 0 <= t < k && key(#[trigger] all.take(k as int)[t]) == x;
                assert(pre[t] == all.take(k as int)[t]);
            }
        }
        k += 1;
    }
    assert(all.take(k as int) =~= all);
    out
}

/// Reloads source `source_id` in `into` with the fresh `part`.
pub fn replace_source_bundle(into: &mut PlaylistBundle, source_id: u128, part: PlaylistBundle)
    ensures
        final(into)@ == bundle_replaced(old(into)@, source_id, part@),
{
    let categories = categories_replaced(&into.categories, &part.categories);
    let channels = channels_reloaded(&into.channels, source_id, &part.channels);
    let vod = vod_reloaded(&into.vod, source_id, &part.vod);
    let series = series_reloaded(&into.series, source_id, &part.series);
    let epg = epg_joined(&into.epg, &part.epg);
    into.categories = categories;
    into.channels = channels;
    into.vod = vod;
    into.series = series;
    into.epg = epg;
}


/// Byte strings in lexicographic order (`<[u8]>::cmp`, hence `str::cmp`).
pub open spec fn bytes_lt(a: Seq<u8>, b: Seq<u8>) -> bool
    decreases a.len(),
{
    if a.len() == 0 {
        b.len() > 0
    } else if b.len() == 0 {
        false
    } else if a[0] != b[0] {
        a[0] < b[0]
    } else {
        bytes_lt(a.skip(1), b.skip(1))
    }
}

/// Sort keys (tuples of byte strings) in lexicographic order.
pub open spec fn key_lt(a: Seq<Seq<u8>>, b: Seq<Seq<u8>>) -> bool
    decreases a.len(),
{
    if a.len() == 0 {
        b.len() > 0
    } else if b.len() == 0 {
        false
    } else if a[0] != b[0] {
        bytes_lt(a[0], b[0])
    } else {
        key_lt(a.skip(1), b.skip(1))
    }
}

/// A record of the checksum stream: its sort key and its bytes.
pub type Rec = (Seq<Seq<u8>>, Seq<u8>);

/// `x` inserted after every record whose key is not greater.
pub open spec fn insert_rec(s: Seq<Rec>, x: Rec) -> Seq<Rec>
    decreases s.len(),
{
    if s.len() == 0 {
        seq![x]
    } else if key_lt(x.0, s[0].0) {
        seq![x] + s
    } else {
        seq![s[0]] + insert_rec(s.skip(1), x)
    }
}

/// Records in key order; records with equal keys keep their order.
pub open spec fn sort_recs(s: Seq<Rec>) -> Seq<Rec>
    decreases s.len(),
{
    if s.len() == 0 {
        seq![]
    } else {
        insert_rec(sort_recs(s.drop_last()), s.last())
    }
}

/// The bytes of the records, one after the other.
pub open spec fn rec_bytes(s: Seq<Rec>) -> Seq<u8>
    decreases s.len(),
{
    if s.len() == 0 {
        seq![]
    } else {
        rec_bytes(s.drop_last()) + s.last().1
    }
}

pub open spec fn enc(s: Text) -> Seq<u8> {
    vstd::utf8::encode_utf8(s)
}

pub open spec fn enc_or_empty(s: OptText) -> Seq<u8> {
    match s {
        Some(t) => enc(t),
        None => seq![],
    }
}

/// `n` as `k` little-endian bytes.
pub open spec fn le_bytes(n: nat, k: nat) -> Seq<u8>
    decreases k,
{
    if k == 0 {
        seq![]
    } else {
        seq![(n % 256) as u8] + le_bytes(n / 256, (k - 1) as nat)
    }
}

pub open spec fn kind_byte(k: ContentKind) -> u8 {
    match k {
        ContentKind::Live => 0,
        ContentKind::Vod => 1,
        ContentKind::Series => 2,
    }
}

pub open spec fn category_rec(c: CategoryView) -> Rec {
    (
        seq![seq![kind_byte(c.content)], enc(c.id), enc(c.name)],
        seq![kind_byte(c.content)] + enc(c.id) + seq![0u8] + enc(c.name) + seq![0xffu8],
    )
}

pub open spec fn channel_rec(c: ChannelView) -> Rec {
    (
        seq![enc(c.id)],
        enc(c.id) + seq![0u8] + enc(c.stream_url) + seq![0u8] + enc(c.name) + seq![0u8]
            + enc_or_empty(c.logo) + seq![0u8] + enc_or_empty(c.group) + seq![0xffu8],
    )
}

pub open spec fn vod_rec(v: VodView) -> Rec {
    (
        seq![enc(v.id)],
        enc(v.id) + seq![0u8] + enc(v.stream_url) + seq![0u8] + enc(v.name) + seq![0u8]
            + enc_or_empty(v.poster) + seq![0u8] + enc_or_empty(v.category_id) + seq![0xffu8],
    )
}

/// Bytes in a machine word (`usize`): 8 on 64-bit targets, 4 on 32-bit ones.
pub open spec fn word_bytes() -> nat {
    (usize::BITS / 8) as nat
}

/// Number of episodes over all seasons.
pub open spec fn episode_total(ss: Seq<SeasonView>) -> nat
    decreases ss.len(),
{
    if ss.len() == 0 {
        0
    } else {
        episode_total(ss.drop_last()) + ss.last().episodes.len()
    }
}

pub open spec fn series_rec(s: SeriesView) -> Rec {
    (
        seq![enc(s.id)],
        enc(s.id) + seq![0u8] + enc(s.name) + seq![0u8] + enc_or_empty(s.cover) + seq![0u8]
            + enc_or_empty(s.banner) + seq![0u8] + enc_or_empty(s.category_id) + seq![0u8]
            + le_bytes(s.seasons.len(), word_bytes()) + le_bytes(episode_total(s.seasons), word_bytes())
            + seq![0xffu8],
    )
}

/// The portal spine as one byte stream: categories, channels, VOD and
/// series, each sorted by key, each record terminated by `0xff`.
pub open spec fn spine_bytes(b: BundleView) -> Seq<u8> {
    rec_bytes(sort_recs(b.categories.map_values(|c: CategoryView| category_rec(c))))
        + rec_bytes(sort_recs(b.channels.map_values(|c: ChannelView| channel_rec(c))))
        + rec_bytes(sort_recs(b.vod.map_values(|v: VodView| vod_rec(v))))
        + rec_bytes(sort_recs(b.series.map_values(|s: SeriesView| series_rec(s))))
}

/// Name for the SHA-256 digest of a byte string.
pub uninterp spec fn sha256_of(data: Seq<u8>) -> Seq<u8>;

/// SHA-256 of `data` (`sha2::Sha256::digest`): the digest is a function of
/// the bytes alone and is 32 bytes long.
#[verifier::external_body]
pub(crate) fn sha256_digest(data: &[u8]) -> (r: Vec<u8>)
    ensures
        r@ == sha256_of(data@),
        r@.len() == 32,
{
    Sha256::digest(data).to_vec()
}

pub open spec fn hex_digit(n: nat) -> char {
    if n < 10 {
        ((48 + n) as u8) as char
    } else {
        ((87 + n) as u8) as char
    }
}

/// Lower-case hexadecimal, two digits per byte, high nibble first.
pub open spec fn hex_of(bytes: Seq<u8>) -> Seq<char>
    decreases bytes.len(),
{
    if bytes.len() == 0 {
        seq![]
    } else {
        hex_of(bytes.drop_last()) + seq![
            hex_digit((bytes.last() / 16) as nat),
            hex_digit((bytes.last() % 16) as nat),
        ]
    }
}

/// A lower-case hexadecimal digit.
pub open spec fn is_lower_hex(c: char) -> bool {
    ('0' <= c && c <= '9') || ('a' <= c && c <= 'f')
}

/// Hexadecimal text is two lower-case hex digits per byte.
pub proof fn lemma_hex_of_shape(bytes: Seq<u8>)
    ensures
        hex_of(bytes).len() == 2 * bytes.len(),
        forall|i: int| 0 <= i < hex_of(bytes).len() ==> is_lower_hex(#[trigger] hex_of(bytes)[i]),
    decreases bytes.len(),
{
    if bytes.len() > 0 {
        lemma_hex_of_shape(bytes.drop_last());
        let b = bytes.last();
        assert(b / 16 < 16 && b % 16 < 16);
        let hi = (b / 16) as nat;
        let lo = (b % 16) as nat;
        assert(is_lower_hex(hex_digit(hi)));
        assert(is_lower_hex(hex_digit(lo)));
    }
}

/// `hex::encode`: lower-case hexadecimal, two digits per byte, high nibble first.
#[verifier::external_body]
pub(crate) fn hex_encode(bytes: &[u8]) -> (r: String)
    ensures
        r@ == hex_of(bytes@),
{
    hex::encode(bytes)
}


pub(crate) fn push_enc(out: &mut Vec<u8>, s: &str)
    ensures
        final(out)@ == old(out)@ + enc(s@),
{
    let b = s.as_bytes();
    let ghost before = out@;
    out.extend_from_slice(b);
    assert(out@ =~= before + enc(s@)) by {
        assert forall|i: int| 0 <= i < out@.len() implies out@[i] == (before + enc(s@))[i] by {
            if i >= before.len() {
                assert(cloned::<u8>(b@[i - before.len()], out@[i]));
            }
        }
    }
}

fn push_enc_opt(out: &mut Vec<u8>, s: &Option<String>)
    ensures
        final(out)@ == old(out)@ + enc_or_empty(opt_view(*s)),
{
    match s {
        Some(t) => push_enc(out, t.as_str()),
        None => {
            assert(out@ + seq![] =~= out@);
        },
    }
}

fn push_byte(out: &mut Vec<u8>, b: u8)
    ensures
        final(out)@ == old(out)@ + seq![b],
{
    out.push(b);
    assert(out@ =~= old(out)@ + seq![b]);
}

fn push_le_word(out: &mut Vec<u8>, n: usize)
    ensures
        final(out)@ == old(out)@ + le_bytes(n as nat, word_bytes()),
{
    let ghost start = out@;
    let width: usize = (usize::BITS / 8) as usize;
    assert(width == word_bytes());
    let mut x = n;
    let mut k: usize = 0;
    while k < width
        invariant
            k <= width,
            width == word_bytes(),
            out@ + le_bytes(x as nat, (width - k) as nat) == start + le_bytes(n as nat, word_bytes()),
        decreases width - k,
    {
        let ghost before = out@;
        assert(le_bytes(x as nat, (width - k) as nat) == seq![(x % 256) as u8] + le_bytes(
            (x / 256) as nat,
            (width - k - 1) as nat,
        ));
        out.push((x % 256) as u8);
        assert(out@ + le_bytes((x / 256) as nat, (width - k - 1) as nat) =~= before + (seq![
            (x % 256) as u8,
        ] + le_bytes((x / 256) as nat, (width - k - 1) as nat)));
        x = x / 256;
        k += 1;
    }
    assert(out@ + seq![] =~= out@);
}

pub open spec fn key_view(k: Seq<Vec<u8>>) -> Seq<Seq<u8>> {
    k.map_values(|v: Vec<u8>| v@)
}

pub open spec fn recs_view(rs: Seq<(Vec<Vec<u8>>, Vec<u8>)>) -> Seq<Rec> {
    rs.map_values(|r: (Vec<Vec<u8>>, Vec<u8>)| (key_view(r.0@), r.1@))
}

fn enc_vec(s: &str) -> (r: Vec<u8>)
    ensures
        r@ == enc(s@),
{
    let mut out: Vec<u8> = Vec::new();
    push_enc(&mut out, s);
    assert(out@ =~= enc(s@));
    out
}

fn category_record(c: &Category) -> (r: (Vec<Vec<u8>>, Vec<u8>))
    ensures
        (key_view(r.0@), r.1@) == category_rec(c@),
{
    let k: u8 = match c.content {
        ContentKind::Live => 0,
        ContentKind::Vod => 1,
        ContentKind::Series => 2,
    };
    let mut key: Vec<Vec<u8>> = Vec::new();
    let mut kb: Vec<u8> = Vec::new();
    kb.push(k);
    key.push(kb);
    key.push(enc_vec(c.id.as_str()));
    key.push(enc_vec(c.name.as_str()));
    let mut b: Vec<u8> = Vec::new();
    push_byte(&mut b, k);
    push_enc(&mut b, c.id.as_str());
    push_byte(&mut b, 0);
    push_enc(&mut b, c.name.as_str());
    push_byte(&mut b, 0xff);
    assert(key_view(key@) =~= category_rec(c@).0);
    assert(b@ =~= category_rec(c@).1);
    (key, b)
}

fn channel_record(c: &Channel) -> (r: (Vec<Vec<u8>>, Vec<u8>))
    ensures
        (key_view(r.0@), r.1@) == channel_rec(c@),
{
    let mut key: Vec<Vec<u8>> = Vec::new();
    key.push(enc_vec(c.id.as_str()));
    let mut b: Vec<u8> = Vec::new();
    push_enc(&mut b, c.id.as_str());
    push_byte(&mut b, 0);
    push_enc(&mut b, c.stream_url.as_str());
    push_byte(&mut b, 0);
    push_enc(&mut b, c.name.as_str());
    push_byte(&mut b, 0);
    push_enc_opt(&mut b, &c.logo);
    push_byte(&mut b, 0);
    push_enc_opt(&mut b, &c.group);
    push_byte(&mut b, 0xff);
    assert(key_view(key@) =~= channel_rec(c@).0);
    assert(b@ =~= channel_rec(c@).1);
    (key, b)
}

fn vod_record(v: &VodItem) -> (r: (Vec<Vec<u8>>, Vec<u8>))
    ensures
        (key_view(r.0@), r.1@) == vod_rec(v@),
{
    let mut key: Vec<Vec<u8>> = Vec::new();
    key.push(enc_vec(v.id.as_str()));
    let mut b: Vec<u8> = Vec::new();
    push_enc(&mut b, v.id.as_str());
    push_byte(&mut b, 0);
    push_enc(&mut b, v.stream_url.as_str());
    push_byte(&mut b, 0);
    push_enc(&mut b, v.name.as_str());
    push_byte(&mut b, 0);
    push_enc_opt(&mut b, &v.poster);
    push_byte(&mut b, 0);
    push_enc_opt(&mut b, &v.category_id);
    push_byte(&mut b, 0xff);
    assert(key_view(key@) =~= vod_rec(v@).0);
    assert(b@ =~= vod_rec(v@).1);
    (key, b)
}

fn episode_total_exec(ss: &Vec<Season>) -> (r: u128)
    ensures
        r == episode_total(season_views(ss@)),
{
    let mut total: u128 = 0;
    let mut i: usize = 0;
    while i < ss.len()
        invariant
            i <= ss.len(),
            total == episode_total(season_views(ss@).take(i as int)),
            total <= i * 0x1_0000_0000_0000_0000,
        decreases ss.len() - i,
    {
        let ghost pre = season_views(ss@).take(i + 1);
        assert(pre.drop_last() =~= season_views(ss@).take(i as int));
        assert(pre.last() == ss@[i as int]@);
        assert(ss@[i as int]@.episodes.len() == ss@[i as int].episodes@.len());
        total = total + ss[i].episodes.len() as u128;
        i += 1;
    }
    assert(season_views(ss@).take(i as int) =~= season_views(ss@));
    total
}

fn series_record(s: &SeriesItem) -> (r: (Vec<Vec<u8>>, Vec<u8>))
    requires
        episode_total(s@.seasons) <= usize::MAX,
    ensures
        (key_view(r.0@), r.1@) == series_rec(s@),
{
    let mut key: Vec<Vec<u8>> = Vec::new();
    key.push(enc_vec(s.id.as_str()));
    let eps = episode_total_exec(&s.seasons);
    let mut b: Vec<u8> = Vec::new();
    push_enc(&mut b, s.id.as_str());
    push_byte(&mut b, 0);
    push_enc(&mut b, s.name.as_str());
    push_byte(&mut b, 0);
    push_enc_opt(&mut b, &s.cover);
    push_byte(&mut b, 0);
    push_enc_opt(&mut b, &s.banner);
    push_byte(&mut b, 0);
    push_enc_opt(&mut b, &s.category_id);
    push_byte(&mut b, 0);
    push_le_word(&mut b, s.seasons.len());
    push_le_word(&mut b, eps as usize);
    push_byte(&mut b, 0xff);
    assert(key_view(key@) =~= series_rec(s@).0);
    assert(b@ =~= series_rec(s@).1);
    (key, b)
}


fn bytes_eq(a: &Vec<u8>, b: &Vec<u8>) -> (r: bool)
    ensures
        r == (a@ == b@),
{
    if a.len() != b.len() {
        return false;
    }
    let mut i: usize = 0;
    while i < a.len()
        invariant
            i <= a.len(),
            a.len() == b.len(),
            forall|t: int| 0 <= t < i ==> a@[t] == b@[t],
        decreases a.len() - i,
    {
        if a[i] != b[i] {
            return false;
        }
        i += 1;
    }
    assert(a@ =~= b@);
    true
}

fn bytes_lt_exec(a: &Vec<u8>, b: &Vec<u8>) -> (r: bool)
    ensures
        r == bytes_lt(a@, b@),
{
    let mut i: usize = 0;
    assert(a@.skip(0) =~= a@);
    assert(b@.skip(0) =~= b@);
    while i < a.len() && i < b.len() && a[i] == b[i]
        invariant
            i <= a.len(),
            i <= b.len(),
            bytes_lt(a@, b@) == bytes_lt(a@.skip(i as int), b@.skip(i as int)),
        decreases a.len() - i,
    {
        assert(a@.skip(i as int).skip(1) =~= a@.skip(i + 1));
        assert(b@.skip(i as int).skip(1) =~= b@.skip(i + 1));
        i += 1;
    }
    if i == a.len() {
        i < b.len()
    } else if i == b.len() {
        false
    } else {
        a[i] < b[i]
    }
}

fn key_lt_exec(a: &Vec<Vec<u8>>, b: &Vec<Vec<u8>>) -> (r: bool)
    ensures
        r == key_lt(key_view(a@), key_view(b@)),
{
    let ghost ka = key_view(a@);
    let ghost kb = key_view(b@);
    let mut i: usize = 0;
    assert(ka.skip(0) =~= ka);
    assert(kb.skip(0) =~= kb);
    while i < a.len() && i < b.len() && bytes_eq(&a[i], &b[i])
        invariant
            i <= a.len(),
            i <= b.len(),
            ka == key_view(a@),
            kb == key_view(b@),
            key_lt(ka, kb) == key_lt(ka.skip(i as int), kb.skip(i as int)),
        decreases a.len() - i,
    {
        assert(ka.skip(i as int).skip(1) =~= ka.skip(i + 1));
        assert(kb.skip(i as int).skip(1) =~= kb.skip(i + 1));
        assert(ka.skip(i as int)[0] == a@[i as int]@);
        assert(kb.skip(i as int)[0] == b@[i as int]@);
        i += 1;
    }
    if i == a.len() {
        i < b.len()
    } else if i == b.len() {
        false
    } else {
        assert(ka.skip(i as int)[0] == a@[i as int]@);
        assert(kb.skip(i as int)[0] == b@[i as int]@);
        bytes_lt_exec(&a[i], &b[i])
    }
}

proof fn lemma_insert_rec_at(s: Seq<Rec>, x: Rec, pos: int)
    requires
        0 <= pos <= s.len(),
        forall|t: int| 0 <= t < pos ==> !key_lt(x.0, (#[trigger] s[t]).0),
        pos < s.len() ==> key_lt(x.0, s[pos].0),
    ensures
        insert_rec(s, x) == s.take(pos) + seq![x] + s.skip(pos),
    decreases pos,
{
    if pos == 0 {
        if s.len() == 0 {
            assert(s.take(0) + seq![x] + s.skip(0) =~= seq![x]);
        } else {
            assert(s.take(0) + seq![x] + s.skip(0) =~= seq![x] + s);
        }
    } else {
        assert forall|t: int| 0 <= t < pos - 1 implies !key_lt(x.0, (#[trigger] s.skip(1)[t]).0) by {
            assert(s.skip(1)[t] == s[t + 1]);
        }
        assert(!key_lt(x.0, s[0].0));
        lemma_insert_rec_at(s.skip(1), x, pos - 1);
        assert(seq![s[0]] + (s.skip(1).take(pos - 1) + seq![x] + s.skip(1).skip(pos - 1))
            =~= s.take(pos) + seq![x] + s.skip(pos));
    }
}

fn insert_sorted(out: &mut Vec<(Vec<Vec<u8>>, Vec<u8>)>, x: (Vec<Vec<u8>>, Vec<u8>))
    ensures
        recs_view(final(out)@) == insert_rec(recs_view(old(out)@), (key_view(x.0@), x.1@)),
{
    let ghost xv = (key_view(x.0@), x.1@);
    let ghost s = recs_view(out@);
    let mut pos: usize = 0;
    while pos < out.len() && !key_lt_exec(&x.0, &out[pos].0)
        invariant
            pos <= out.len(),
            s == recs_view(out@),
            xv == (key_view(x.0@), x.1@),
            forall|t: int| 0 <= t < pos ==> !key_lt(xv.0, (#[trigger] s[t]).0),
        decreases out.len() - pos,
    {
        assert(s[pos as int] == (key_view(out@[pos as int].0@), out@[pos as int].1@));
        pos += 1;
    }
    if pos < out.len() {
        assert(s[pos as int] == (key_view(out@[pos as int].0@), out@[pos as int].1@));
    }
    proof {
        lemma_insert_rec_at(s, xv, pos as int);
    }
    out.insert(pos, x);
    assert(recs_view(out@) =~= s.take(pos as int) + seq![xv] + s.skip(pos as int));
}

fn append_rec_bytes(out: &mut Vec<u8>, recs: &Vec<(Vec<Vec<u8>>, Vec<u8>)>)
    ensures
        final(out)@ == old(out)@ + rec_bytes(recs_view(recs@)),
{
    let ghost start = out@;
    let mut i: usize = 0;
    while i < recs.len()
        invariant
            i <= recs.len(),
            out@ == start + rec_bytes(recs_view(recs@).take(i as int)),
        decreases recs.len() - i,
    {
        let ghost pre = recs_view(recs@).take(i + 1);
        assert(pre.drop_last() =~= recs_view(recs@).take(i as int));
        assert(pre.last() == (key_view(recs@[i as int].0@), recs@[i as int].1@));
        let ghost before = out@;
        let b = &recs[i].1;
        let mut j: usize = 0;
        while j < b.len()
            invariant
                j <= b.len(),
                out@ == before + b@.take(j as int),
            decreases b.len() - j,
        {
            out.push(b[j]);
            assert(b@.take(j + 1) =~= b@.take(j as int).push(b@[j as int]));
            assert(out@ =~= before + b@.take(j + 1));
            j += 1;
        }
        assert(b@.take(j as int) =~= b@);
        assert(out@ =~= start + rec_bytes(pre));
        i += 1;
    }
    assert(recs_view(recs@).take(i as int) =~= recs_view(recs@));
}


fn sorted_category_records(items: &Vec<Category>) -> (r: Vec<(Vec<Vec<u8>>, Vec<u8>)>)
    ensures
        recs_view(r@) == sort_recs(category_views(items@).map_values(|c: CategoryView| category_rec(c))),
{
    let ghost all = category_views(items@).map_values(|c: CategoryView| category_rec(c));
    let mut out: Vec<(Vec<Vec<u8>>, Vec<u8>)> = Vec::new();
    let mut i: usize = 0;
    while i < items.len()
        invariant
            i <= items.len(),
            all == category_views(items@).map_values(|c: CategoryView| category_rec(c)),
            recs_view(out@) == sort_recs(all.take(i as int)),
        decreases items.len() - i,
    {
        let ghost pre = all.take(i + 1);
        assert(pre.drop_last() =~= all.take(i as int));
        assert(pre.last() == category_rec(items@[i as int]@));
        let rec = category_record(&items[i]);
        insert_sorted(&mut out, rec);
        i += 1;
    }
    assert(all.take(i as int) =~= all);
    out
}

fn sorted_channel_records(items: &Vec<Channel>) -> (r: Vec<(Vec<Vec<u8>>, Vec<u8>)>)
    ensures
        recs_view(r@) == sort_recs(channel_views(items@).map_values(|c: ChannelView| channel_rec(c))),
{
    let ghost all = channel_views(items@).map_values(|c: ChannelView| channel_rec(c));
    let mut out: Vec<(Vec<Vec<u8>>, Vec<u8>)> = Vec::new();
    let mut i: usize = 0;
    while i < items.len()
        invariant
            i <= items.len(),
            all == channel_views(items@).map_values(|c: ChannelView| channel_rec(c)),
            recs_view(out@) == sort_recs(all.take(i as int)),
        decreases items.len() - i,
    {
        let ghost pre = all.take(i + 1);
        assert(pre.drop_last() =~= all.take(i as int));
        assert(pre.last() == channel_rec(items@[i as int]@));
        let rec = channel_record(&items[i]);
        insert_sorted(&mut out, rec);
        i += 1;
    }
    assert(all.take(i as int) =~= all);
    out
}

fn sorted_vod_records(items: &Vec<VodItem>) -> (r: Vec<(Vec<Vec<u8>>, Vec<u8>)>)
    ensures
        recs_view(r@) == sort_recs(vod_views(items@).map_values(|c: VodView| vod_rec(c))),
{
    let ghost all = vod_views(items@).map_values(|c: VodView| vod_rec(c));
    let mut out: Vec<(Vec<Vec<u8>>, Vec<u8>)> = Vec::new();
    let mut i: usize = 0;
    while i < items.len()
        invariant
            i <= items.len(),
            all == vod_views(items@).map_values(|c: VodView| vod_rec(c)),
            recs_view(out@) == sort_recs(all.take(i as int)),
        decreases items.len() - i,
    {
        let ghost pre = all.take(i + 1);
        assert(pre.drop_last() =~= all.take(i as int));
        assert(pre.last() == vod_rec(items@[i as int]@));
        let rec = vod_record(&items[i]);
        insert_sorted(&mut out, rec);
        i += 1;
    }
    assert(all.take(i as int) =~= all);
    out
}

fn sorted_series_records(items: &Vec<SeriesItem>) -> (r: Vec<(Vec<Vec<u8>>, Vec<u8>)>)
    requires
        forall|k: int|
            0 <= k < items.len() ==> episode_total((#[trigger] items@[k])@.seasons) <= usize::MAX,
    ensures
        recs_view(r@) == sort_recs(series_views(items@).map_values(|c: SeriesView| series_rec(c))),
{
    let ghost all = series_views(items@).map_values(|c: SeriesView| series_rec(c));
    let mut out: Vec<(Vec<Vec<u8>>, Vec<u8>)> = Vec::new();
    let mut i: usize = 0;
    while i < items.len()
        invariant
            i <= items.len(),
            forall|k: int|
                0 <= k < items.len() ==> episode_total((#[trigger] items@[k])@.seasons) <= usize::MAX,
            all == series_views(items@).map_values(|c: SeriesView| series_rec(c)),
            recs_view(out@) == sort_recs(all.take(i as int)),
        decreases items.len() - i,
    {
        let ghost pre = all.take(i + 1);
        assert(pre.drop_last() =~= all.take(i as int));
        assert(pre.last() == series_rec(items@[i as int]@));
        let rec = series_record(&items[i]);
        insert_sorted(&mut out, rec);
        i += 1;
    }
    assert(all.take(i as int) =~= all);
    out
}

/// Every series counts its episodes within a machine word.
pub open spec fn episodes_fit(b: BundleView) -> bool {
    forall|k: int| 0 <= k < b.series.len() ==> episode_total((#[trigger] b.series[k]).seasons) <= usize::MAX
}

/// Stable hash of the portal spine (ids, urls, names, art, categories,
/// season and episode counts); enrichment fields do not take part.
pub fn portal_checksum(part: &PlaylistBundle) -> (r: String)
    requires
        episodes_fit(part@),
    ensures
        r@ == hex_of(sha256_of(spine_bytes(part@))),
        r@.len() == 64,
        forall|i: int| 0 <= i < r@.len() ==> is_lower_hex(#[trigger] r@[i]),
{
    assert forall|k: int| 0 <= k < part.series.len() implies episode_total(
        (#[trigger] part.series@[k])@.seasons,
    ) <= usize::MAX by {
        assert(part@.series[k] == part.series@[k]@);
    }
    let cats = sorted_category_records(&part.categories);
    let chans = sorted_channel_records(&part.channels);
    let vods = sorted_vod_records(&part.vod);
    let sers = sorted_series_records(&part.series);
    let mut stream: Vec<u8> = Vec::new();
    append_rec_bytes(&mut stream, &cats);
    append_rec_bytes(&mut stream, &chans);
    append_rec_bytes(&mut stream, &vods);
    append_rec_bytes(&mut stream, &sers);
    assert(stream@ =~= spine_bytes(part@));
    let digest = sha256_digest(stream.as_slice());
    proof {
        lemma_hex_of_shape(digest@);
    }
    hex_encode(digest.as_slice())
}


/// `n` as `k` big-endian bytes.
pub open spec fn be_bytes(n: nat, k: nat) -> Seq<u8>
    decreases k,
{
    if k == 0 {
        seq![]
    } else {
        be_bytes(n / 256, (k - 1) as nat) + seq![(n % 256) as u8]
    }
}

/// The hyphenated lower-case form of a UUID (`8-4-4-4-12` hex digits).
pub open spec fn uuid_hyphenated(id: u128) -> Seq<char> {
    let h = hex_of(be_bytes(id as nat, 16));
    h.subrange(0, 8) + seq!['-'] + h.subrange(8, 12) + seq!['-'] + h.subrange(12, 16) + seq!['-']
        + h.subrange(16, 20) + seq!['-'] + h.subrange(20, 32)
}

/// `uuid::Uuid::from_u128(id).to_string()`: the hyphenated lower-case form.
#[verifier::external_body]
fn uuid_text(id: u128) -> (r: String)
    ensures
        r@ == uuid_hyphenated(id),
{
    uuid::Uuid::from_u128(id).to_string()
}

/// Meta key under which a source's last applied checksum is stored.
pub fn checksum_meta_key(source_id: u128) -> (r: String)
    ensures
        r@ == "source_cksum:"@ + uuid_hyphenated(source_id),
{
    let mut out = crate::text::chars_of("source_cksum:");
    let id = uuid_text(source_id);
    let idc = crate::text::chars_of(id.as_str());
    crate::text::push_all(&mut out, idc.as_slice());
    crate::text::string_of(out.as_slice())
}

/// Skip portal re-sync when the last full sync is younger than this.
pub const SYNC_FRESH_SECS: u64 = 43200;

/// Every open profile is warm enough to skip a portal re-sync: there is at
/// least one, the catalog is not empty, and each profile has a last full
/// sync younger than `SYNC_FRESH_SECS`.
pub open spec fn sync_fresh(total_rows: nat, last_syncs: Seq<Option<u64>>, now: u64) -> bool {
    &&& last_syncs.len() > 0
    &&& total_rows > 0
    &&& forall|i: int|
        0 <= i < last_syncs.len() ==> match #[trigger] last_syncs[i] {
            Some(ts) => (if now >= ts {
                now - ts
            } else {
                0
            }) < SYNC_FRESH_SECS,
            None => false,
        }
}

/// Whether the catalog may skip a portal re-sync. `last_syncs` holds the
/// last full sync time of each open profile (`None` when never recorded).
pub fn is_sync_fresh(channels: usize, vod: usize, series: usize, last_syncs: &Vec<Option<u64>>, now: u64) -> (r: bool)
    ensures
        r == sync_fresh((channels + vod + series) as nat, last_syncs@, now),
{
    if last_syncs.len() == 0 {
        return false;
    }
    if channels == 0 && vod == 0 && series == 0 {
        return false;
    }
    let mut i: usize = 0;
    while i < last_syncs.len()
        invariant
            i <= last_syncs.len(),
            forall|k: int|
                0 <= k < i ==> match #[trigger] last_syncs@[k] {
                    Some(ts) => (if now >= ts {
                        now - ts
                    } else {
                        0
                    }) < SYNC_FRESH_SECS,
                    None => false,
                },
        decreases last_syncs.len() - i,
    {
        match last_syncs[i] {
            None => {
                return false;
            },
            Some(ts) => {
                let age = if now >= ts {
                    now - ts
                } else {
                    0
                };
                if age >= SYNC_FRESH_SECS {
                    return false;
                }
            },
        }
        i += 1;
    }
    true
}

/// Result of applying a portal dump to the local catalog.
#[derive(Debug, Clone, Copy, PartialEq, Eq, Structural)]
pub enum BundleApplyKind {
    /// The portal spine checksum matches the stored one: nothing to rewrite.
    Unchanged,
    /// Rows are upserted and orphans removed; enrichment kept where possible.
    Updated { preserved_meta: usize },
}

/// The last stored item with this id (later rows win).
pub open spec fn last_vod_with_id(vs: Seq<VodView>, id: Text) -> Option<VodView>
    decreases vs.len(),
{
    if vs.len() == 0 {
        None
    } else if vs.last().id == id {
        Some(vs.last())
    } else {
        last_vod_with_id(vs.drop_last(), id)
    }
}

pub open spec fn last_series_with_id(vs: Seq<SeriesView>, id: Text) -> Option<SeriesView>
    decreases vs.len(),
{
    if vs.len() == 0 {
        None
    } else if vs.last().id == id {
        Some(vs.last())
    } else {
        last_series_with_id(vs.drop_last(), id)
    }
}

pub open spec fn vod_applied(v: VodView, stored: Seq<VodView>, sid: u128) -> VodView {
    let v1 = VodView { source_id: Some(sid), ..v };
    match last_vod_with_id(stored, v.id) {
        Some(o) => vod_kept(v1, o),
        None => v1,
    }
}

pub open spec fn series_applied(v: SeriesView, stored: Seq<SeriesView>, sid: u128) -> SeriesView {
    let v1 = SeriesView { source_id: Some(sid), ..v };
    match last_series_with_id(stored, v.id) {
        Some(o) => series_kept(v1, o),
        None => v1,
    }
}

/// The portal dump as written to the catalog of source `sid`: owned by the
/// source, with the metadata of the enriched stored rows kept.
pub open spec fn part_applied(
    part: BundleView,
    sid: u128,
    stored_vod: Seq<VodView>,
    stored_series: Seq<SeriesView>,
) -> BundleView {
    BundleView {
        channels: Seq::new(part.channels.len(), |j: int| channel_owned(part.channels[j], sid)),
        vod: Seq::new(part.vod.len(), |j: int| vod_applied(part.vod[j], stored_vod, sid)),
        series: Seq::new(
            part.series.len(),
            |j: int| series_applied(part.series[j], stored_series, sid),
        ),
        ..part
    }
}

/// The distinct ids of a list of items.
pub open spec fn vod_ids(vs: Seq<VodView>) -> Set<Text> {
    Set::new(|k: Text| exists|t: int| 0 <= t < vs.len() && (#[trigger] vs[t]).id == k)
}

pub open spec fn series_ids(vs: Seq<SeriesView>) -> Set<Text> {
    Set::new(|k: Text| exists|t: int| 0 <= t < vs.len() && (#[trigger] vs[t]).id == k)
}

fn vod_id_index(vs: &Vec<VodItem>) -> (m: vstd::hash_map::StringHashMap<usize>)
    ensures
        m@.dom() == vod_ids(vod_views(vs@)),
        forall|k: Text|
            #![trigger m@.contains_key(k)]
            (m@.contains_key(k) <==> last_vod_with_id(vod_views(vs@), k) is Some) && (
            m@.contains_key(k) ==> m@[k] < vs.len() && last_vod_with_id(vod_views(vs@), k)
                == Some(vs@[m@[k] as int]@)),
{
    let mut m: vstd::hash_map::StringHashMap<usize> = vstd::hash_map::StringHashMap::new();
    let mut i: usize = 0;
    while i < vs.len()
        invariant
            i <= vs.len(),
            m@.dom() == vod_ids(vod_views(vs@).take(i as int)),
            forall|k: Text|
                #![trigger m@.contains_key(k)]
                (m@.contains_key(k) <==> last_vod_with_id(vod_views(vs@).take(i as int), k)
                    is Some) && (m@.contains_key(k) ==> m@[k] < i && last_vod_with_id(
                    vod_views(vs@).take(i as int),
                    k,
                ) == Some(vs@[m@[k] as int]@)),
        decreases vs.len() - i,
    {
        let ghost pre = vod_views(vs@).take(i + 1);
        let ghost prev = vod_views(vs@).take(i as int);
        assert(pre.drop_last() =~= prev);
        assert(pre.last() == vs@[i as int]@);
        m.insert(vs[i].id.clone(), i);
        assert(m@.dom() =~= vod_ids(pre)) by {
            assert forall|k: Text| m@.dom().contains(k) <==> vod_ids(pre).contains(k) by {
                if vod_ids(pre).contains(k) {
                    let t = choose|t: int| 0 <= t < pre.len() && (#[trigger] pre[t]).id == k;
                    if t < i {
                        assert(prev[t] == pre[t]);
                        assert(vod_ids(prev).contains(k));
                    }
                }
                if vod_ids(prev).contains(k) {
                    let t = choose|t: int| 0 <= t < prev.len() && (#[trigger] prev[t]).id == k;
                    assert(pre[t] == prev[t]);
                }
                if k == vs@[i as int]@.id {
                    assert(pre[i as int].id == k);
                }
            }
        }
        i += 1;
    }
    assert(vod_views(vs@).take(i as int) =~= vod_views(vs@));
    m
}

fn series_id_index(vs: &Vec<SeriesItem>) -> (m: vstd::hash_map::StringHashMap<usize>)
    ensures
        m@.dom() == series_ids(series_views(vs@)),
        forall|k: Text|
            #![trigger m@.contains_key(k)]
            (m@.contains_key(k) <==> last_series_with_id(series_views(vs@), k) is Some) && (
            m@.contains_key(k) ==> m@[k] < vs.len() && last_series_with_id(series_views(vs@), k)
                == Some(vs@[m@[k] as int]@)),
{
    let mut m: vstd::hash_map::StringHashMap<usize> = vstd::hash_map::StringHashMap::new();
    let mut i: usize = 0;
    while i < vs.len()
        invariant
            i <= vs.len(),
            m@.dom() == series_ids(series_views(vs@).take(i as int)),
            forall|k: Text|
                #![trigger m@.contains_key(k)]
                (m@.contains_key(k) <==> last_series_with_id(series_views(vs@).take(i as int), k)
                    is Some) && (m@.contains_key(k) ==> m@[k] < i && last_series_with_id(
                    series_views(vs@).take(i as int),
                    k,
                ) == Some(vs@[m@[k] as int]@)),
        decreases vs.len() - i,
    {
        let ghost pre = series_views(vs@).take(i + 1);
        let ghost prev = series_views(vs@).take(i as int);
        assert(pre.drop_last() =~= prev);
        assert(pre.last() == vs@[i as int]@);
        m.insert(vs[i].id.clone(), i);
        assert(m@.dom() =~= series_ids(pre)) by {
            assert forall|k: Text| m@.dom().contains(k) <==> series_ids(pre).contains(k) by {
                if series_ids(pre).contains(k) {
                    let t = choose|t: int| 0 <= t < pre.len() && (#[trigger] pre[t]).id == k;
                    if t < i {
                        assert(prev[t] == pre[t]);
                        assert(series_ids(prev).contains(k));
                    }
                }
                if series_ids(prev).contains(k) {
                    let t = choose|t: int| 0 <= t < prev.len() && (#[trigger] prev[t]).id == k;
                    assert(pre[t] == prev[t]);
                }
                if k == vs@[i as int]@.id {
                    assert(pre[i as int].id == k);
                }
            }
        }
        i += 1;
    }
    assert(series_views(vs@).take(i as int) =~= series_views(vs@));
    m
}

/// What applying a portal dump to a source's catalog amounts to.
pub struct SourceApply {
    pub kind: BundleApplyKind,
    pub checksum: String,
    /// The merged part to upsert; `None` when unchanged.
    pub merged: Option<PlaylistBundle>,
    /// Rows to write (categories, channels, VOD, series; at least 1), the
    /// progress total.
    pub total_rows: u64,
}


/// The portal dump owned by `source_id`, with the metadata of the stored
/// enriched rows (`stored_vod`, `stored_series`, in catalog order) kept.
pub fn apply_stored_meta(
    part: PlaylistBundle,
    source_id: u128,
    stored_vod: &Vec<VodItem>,
    stored_series: &Vec<SeriesItem>,
) -> (r: PlaylistBundle)
    ensures
        r@ == part_applied(part@, source_id, vod_views(stored_vod@), series_views(stored_series@)),
{
    let vod_old = vod_id_index(stored_vod);
    let ser_old = series_id_index(stored_series);
    let ghost ev = vod_views(stored_vod@);
    let ghost es = series_views(stored_series@);
    let mut vod: Vec<VodItem> = Vec::new();
    let mut j: usize = 0;
    while j < part.vod.len()
        invariant
            j <= part.vod.len(),
            ev == vod_views(stored_vod@),
            forall|k: Text|
                #![trigger vod_old@.contains_key(k)]
                (vod_old@.contains_key(k) <==> last_vod_with_id(ev, k) is Some) && (
                vod_old@.contains_key(k) ==> vod_old@[k] < stored_vod.len() && last_vod_with_id(
                    ev,
                    k,
                ) == Some(stored_vod@[vod_old@[k] as int]@)),
            vod.len() == j,
            forall|t: int|
                0 <= t < j ==> (#[trigger] vod@[t])@ == vod_applied(part.vod@[t]@, ev, source_id),
        decreases part.vod.len() - j,
    {
        let mut v = part.vod[j].clone();
        v.source_id = Some(source_id);
        match vod_old.get(v.id.as_str()) {
            Some(idx) => {
                assert(vod_old@.contains_key(part.vod@[j as int].id@));
                merge_vod_keep_meta(&mut v, &stored_vod[*idx]);
            },
            None => {
                assert(!vod_old@.contains_key(part.vod@[j as int].id@));
            },
        }
        vod.push(v);
        j += 1;
    }
    let mut series: Vec<SeriesItem> = Vec::new();
    let mut j: usize = 0;
    while j < part.series.len()
        invariant
            j <= part.series.len(),
            es == series_views(stored_series@),
            forall|k: Text|
                #![trigger ser_old@.contains_key(k)]
                (ser_old@.contains_key(k) <==> last_series_with_id(es, k) is Some) && (
                ser_old@.contains_key(k) ==> ser_old@[k] < stored_series.len()
                    && last_series_with_id(es, k) == Some(stored_series@[ser_old@[k] as int]@)),
            series.len() == j,
            forall|t: int|
                0 <= t < j ==> (#[trigger] series@[t])@ == series_applied(
                    part.series@[t]@,
                    es,
                    source_id,
                ),
        decreases part.series.len() - j,
    {
        let mut v = part.series[j].clone();
        v.source_id = Some(source_id);
        match ser_old.get(v.id.as_str()) {
            Some(idx) => {
                assert(ser_old@.contains_key(part.series@[j as int].id@));
                merge_series_keep_meta(&mut v, &stored_series[*idx]);
            },
            None => {
                assert(!ser_old@.contains_key(part.series@[j as int].id@));
            },
        }
        series.push(v);
        j += 1;
    }
    let mut channels: Vec<Channel> = Vec::new();
    let mut j: usize = 0;
    while j < part.channels.len()
        invariant
            j <= part.channels.len(),
            channels.len() == j,
            forall|t: int|
                0 <= t < j ==> (#[trigger] channels@[t])@ == channel_owned(
                    part.channels@[t]@,
                    source_id,
                ),
        decreases part.channels.len() - j,
    {
        let mut c = part.channels[j].clone();
        c.source_id = Some(source_id);
        channels.push(c);
        j += 1;
    }
    let r = PlaylistBundle {
        categories: part.categories,
        channels,
        vod,
        series,
        epg: part.epg,
    };
    assert(r@.vod =~= part_applied(part@, source_id, ev, es).vod);
    assert(r@.series =~= part_applied(part@, source_id, ev, es).series);
    assert(r@.channels =~= part_applied(part@, source_id, ev, es).channels);
    r
}

/// Rows a part writes, at least 1 (the progress total).
pub open spec fn rows_total(b: BundleView) -> nat {
    let n = b.categories.len() + b.channels.len() + b.vod.len() + b.series.len();
    if n == 0 {
        1
    } else {
        n
    }
}

/// A dump is skipped as unchanged when the stored checksum is its own.
pub open spec fn apply_skipped(stored: Option<Seq<char>>, part: BundleView) -> bool {
    stored == Some(hex_of(sha256_of(spine_bytes(part))))
}

/// Decides how a portal dump of `source_id` is applied: unchanged when its
/// spine checksum equals the stored one, else the merged part to upsert
/// with the count of enriched stored rows it preserves.
pub fn prepare_source_apply(
    stored_checksum: Option<String>,
    source_id: u128,
    part: PlaylistBundle,
    stored_vod: &Vec<VodItem>,
    stored_series: &Vec<SeriesItem>,
) -> (r: SourceApply)
    requires
        episodes_fit(part@),
        part.categories.len() + part.channels.len() + part.vod.len() + part.series.len()
            <= usize::MAX,
        stored_vod.len() + stored_series.len() <= usize::MAX,
    ensures
        r.checksum@ == hex_of(sha256_of(spine_bytes(part@))),
        (r.kind == BundleApplyKind::Unchanged) == apply_skipped(opt_view(stored_checksum), part@),
        opt_view(stored_checksum) == Some(r.checksum@) ==> r.kind == BundleApplyKind::Unchanged
            && r.merged is None,
        opt_view(stored_checksum) != Some(r.checksum@) ==> {
            &&& r.kind == BundleApplyKind::Updated {
                preserved_meta: (vod_ids(vod_views(stored_vod@)).len() + series_ids(
                    series_views(stored_series@),
                ).len()) as usize,
            }
            &&& r.merged matches Some(m) && m@ == part_applied(
                part@,
                source_id,
                vod_views(stored_vod@),
                series_views(stored_series@),
            )
            &&& r.total_rows == rows_total(part@)
        },
{
    let checksum = portal_checksum(&part);
    let same = match &stored_checksum {
        Some(c) => crate::gpu::str_eq(c, &checksum),
        None => false,
    };
    if same {
        return SourceApply {
            kind: BundleApplyKind::Unchanged,
            checksum,
            merged: None,
            total_rows: 0,
        };
    }
    let vod_old = vod_id_index(stored_vod);
    let ser_old = series_id_index(stored_series);
    proof {
        lemma_ids_finite_len(vod_views(stored_vod@), series_views(stored_series@));
        assert(vod_old@.dom().len() <= stored_vod.len());
        assert(ser_old@.dom().len() <= stored_series.len());
    }
    let preserved_meta = vod_old.len() + ser_old.len();
    let n = part.categories.len() as u64 + part.channels.len() as u64 + part.vod.len() as u64
        + part.series.len() as u64;
    let total_rows = if n == 0 {
        1
    } else {
        n
    };
    let merged = apply_stored_meta(part, source_id, stored_vod, stored_series);
    SourceApply {
        kind: BundleApplyKind::Updated { preserved_meta },
        checksum,
        merged: Some(merged),
        total_rows,
    }
}

/// The id sets are no larger than the lists they come from.
pub proof fn lemma_ids_finite_len(vs: Seq<VodView>, ss: Seq<SeriesView>)
    ensures
        vod_ids(vs).finite(),
        vod_ids(vs).len() <= vs.len(),
        series_ids(ss).finite(),
        series_ids(ss).len() <= ss.len(),
{
    let f = |v: VodView| v.id;
    assert(vod_ids(vs) =~= vs.map_values(f).to_set()) by {
        assert forall|k: Text| vod_ids(vs).contains(k) <==> vs.map_values(f).to_set().contains(k) by {
            if vod_ids(vs).contains(k) {
                let t = choose|t: int| 0 <= t < vs.len() && (#[trigger] vs[t]).id == k;
                assert(vs.map_values(f)[t] == k);
            }
            if vs.map_values(f).to_set().contains(k) {
                let t = choose|t: int| 0 <= t < vs.map_values(f).len() && vs.map_values(f)[t] == k;
                assert(vs[t].id == k);
            }
        }
    }
    vs.map_values(f).lemma_cardinality_of_set();
    let g = |v: SeriesView| v.id;
    assert(series_ids(ss) =~= ss.map_values(g).to_set()) by {
        assert forall|k: Text| series_ids(ss).contains(k) <==> ss.map_values(g).to_set().contains(k) by {
            if series_ids(ss).contains(k) {
                let t = choose|t: int| 0 <= t < ss.len() && (#[trigger] ss[t]).id == k;
                assert(ss.map_values(g)[t] == k);
            }
            if ss.map_values(g).to_set().contains(k) {
                let t = choose|t: int| 0 <= t < ss.map_values(g).len() && ss.map_values(g)[t] == k;
                assert(ss[t].id == k);
            }
        }
    }
    ss.map_values(g).lemma_cardinality_of_set();
}


/// An adult category name (`XXX`, `ADULT`, `FOR ADULTS`, `+18`, any case).
pub open spec fn is_adult(name: Text) -> bool {
    let n = crate::text::ascii_upper(name);
    crate::text::has_sub(n, "XXX"@) || crate::text::has_sub(n, "ADULT"@) || crate::text::has_sub(
        n,
        "FOR ADULTS"@,
    ) || crate::text::has_sub(n, "+18"@)
}

fn upper_has(n: &[char], lit: &str) -> (r: bool)
    ensures
        r == crate::text::has_sub(n@, lit@),
{
    let l = crate::text::chars_of(lit);
    crate::text::contains_chars(n, l.as_slice())
}

/// Whether a category holds adult content.
pub fn is_adult_cat(name: &str) -> (r: bool)
    ensures
        r == is_adult(name@),
{
    let c = crate::text::chars_of(name);
    let n = crate::text::to_upper(c.as_slice());
    upper_has(n.as_slice(), "XXX") || upper_has(n.as_slice(), "ADULT") || upper_has(
        n.as_slice(),
        "FOR ADULTS",
    ) || upper_has(n.as_slice(), "+18")
}

/// A French live category (`|FR|`, ` FR ` or a leading `FR`, any case).
pub open spec fn french_hint(name: Text) -> bool {
    let n = crate::text::ascii_upper(name);
    crate::text::has_sub(n, "|FR|"@) || crate::text::has_sub(n, " FR "@)
        || crate::text::starts_with(n, "FR"@)
}

/// The distinct channel group names, in order of first appearance.
pub open spec fn group_names_of(chs: Seq<ChannelView>) -> Seq<Text>
    decreases chs.len(),
{
    if chs.len() == 0 {
        seq![]
    } else {
        let r = group_names_of(chs.drop_last());
        match chs.last().group {
            Some(g) => if r.contains(g) {
                r
            } else {
                r.push(g)
            },
            None => r,
        }
    }
}

/// The first element satisfying `p`.
pub open spec fn first_where<A>(s: Seq<A>, p: spec_fn(A) -> bool) -> Option<A>
    decreases s.len(),
{
    if s.len() == 0 {
        None
    } else if p(s[0]) {
        Some(s[0])
    } else {
        first_where(s.skip(1), p)
    }
}

/// A non-adult live category.
pub open spec fn live_pick() -> spec_fn(CategoryView) -> bool {
    |c: CategoryView| c.content == ContentKind::Live && !is_adult(c.name)
}

/// Categories accepted when looking for French ones (`want_fr`) or for any.
pub open spec fn fr_pick(want_fr: bool) -> spec_fn(CategoryView) -> bool {
    |c: CategoryView| !want_fr || french_hint(c.name)
}

/// A group name that is not adult.
pub open spec fn decent_pick() -> spec_fn(Text) -> bool {
    |n: Text| !is_adult(n)
}

/// The live group opened by default: the first French non-adult live
/// category, else the first non-adult live category, else the first
/// non-adult channel group.
pub open spec fn default_live_group(b: BundleView) -> Option<Text> {
    let live = keep_where(b.categories, live_pick());
    match first_where(live, fr_pick(true)) {
        Some(c) => Some(c.name),
        None => if live.len() > 0 {
            Some(live[0].name)
        } else {
            first_where(group_names_of(b.channels), decent_pick())
        },
    }
}

impl PlaylistBundle {
    /// The distinct channel group names, in order of first appearance.
    pub fn group_names(&self) -> (r: Vec<String>)
        ensures
            r@.map_values(|g: String| g@) == group_names_of(channel_views(self.channels@)),
    {
        let ghost chs = channel_views(self.channels@);
        let mut seen = vstd::hash_set::StringHashSet::new();
        let mut out: Vec<String> = Vec::new();
        let mut i: usize = 0;
        while i < self.channels.len()
            invariant
                i <= self.channels.len(),
                chs == channel_views(self.channels@),
                out@.map_values(|g: String| g@) == group_names_of(chs.take(i as int)),
                forall|k: Text| seen@.contains(k) <==> group_names_of(chs.take(i as int)).contains(k),
            decreases self.channels.len() - i,
        {
            let ghost pre = chs.take(i + 1);
            let ghost r = group_names_of(chs.take(i as int));
            assert(pre.drop_last() =~= chs.take(i as int));
            assert(pre.last() == self.channels@[i as int]@);
            match &self.channels[i].group {
                Some(g) => {
                    let fresh = seen.insert(g.clone());
                    if fresh {
                        let ghost before = out@.map_values(|g: String| g@);
                        out.push(g.clone());
                        assert(out@.map_values(|g: String| g@) =~= before.push(g@));
                    }
                    assert forall|k: Text| seen@.contains(k) <==> group_names_of(pre).contains(k) by {
                        if !fresh {
                            assert(group_names_of(pre) == r);
                        } else {
                            assert(group_names_of(pre) == r.push(g@));
                            if k == g@ {
                                assert(r.push(g@)[r.len() as int] == g@);
                            }
                            if r.contains(k) {
                                let t = choose|t: int| 0 <= t < r.len() && r[t] == k;
                                assert(r.push(g@)[t] == k);
                            }
                            if r.push(g@).contains(k) && k != g@ {
                                let t = choose|t: int| 0 <= t < r.push(g@).len() && r.push(g@)[t] == k;
                                assert(r[t] == k);
                            }
                        }
                    }
                },
                None => {},
            }
            i += 1;
        }
        assert(chs.take(i as int) =~= chs);
        out
    }
}

fn first_live_match(cats: &Vec<Category>, want_fr: bool) -> (r: Option<usize>)
    ensures
        match r {
            Some(k) => k < cats.len() && first_where(
                keep_where(category_views(cats@), live_pick()),
                fr_pick(want_fr),
            ) == Some(cats@[k as int]@),
            None => first_where(keep_where(category_views(cats@), live_pick()), fr_pick(want_fr))
                is None,
        },
{
    let ghost cv = category_views(cats@);
    let mut i: usize = cats.len();
    let mut found: Option<usize> = None;
    assert(cv.skip(cats.len() as int) =~= seq![]);
    while i > 0
        invariant
            i <= cats.len(),
            cv == category_views(cats@),
            match found {
                Some(k) => i <= k < cats.len() && first_where(
                    keep_where(cv.skip(i as int), live_pick()),
                    fr_pick(want_fr),
                ) == Some(cats@[k as int]@),
                None => first_where(keep_where(cv.skip(i as int), live_pick()), fr_pick(want_fr))
                    is None,
            },
        decreases i,
    {
        let j = i - 1;
        let c = &cats[j];
        let live = c.content == ContentKind::Live && !is_adult_cat(c.name.as_str());
        let ghost rest = cv.skip(i as int);
        let ghost kr = keep_where(rest, live_pick());
        proof {
            lemma_keep_where_cons(cv.skip(j as int), live_pick());
            assert(cv.skip(j as int)[0] == c@);
            assert(cv.skip(j as int).skip(1) =~= rest);
            assert((seq![c@] + kr)[0] == c@);
            assert((seq![c@] + kr).skip(1) =~= kr);
        }
        if live {
            let ok = if want_fr {
                let n = crate::text::chars_of(c.name.as_str());
                let u = crate::text::to_upper(n.as_slice());
                let pl = crate::text::chars_of("FR");
                upper_has(u.as_slice(), "|FR|") || upper_has(u.as_slice(), " FR ")
                    || crate::text::starts_with_chars(u.as_slice(), pl.as_slice())
            } else {
                true
            };
            assert(ok == fr_pick(want_fr)(c@));
            if ok {
                found = Some(j);
            }
        }
        i = j;
    }
    assert(cv.skip(0) =~= cv);
    found
}

/// `keep_where` unfolded from the front.
pub proof fn lemma_keep_where_cons<A>(s: Seq<A>, p: spec_fn(A) -> bool)
    requires
        s.len() > 0,
    ensures
        keep_where(s, p) == if p(s[0]) {
            seq![s[0]] + keep_where(s.skip(1), p)
        } else {
            keep_where(s.skip(1), p)
        },
    decreases s.len(),
{
    if s.len() == 1 {
        assert(s.drop_last() =~= seq![]);
        assert(s.skip(1) =~= seq![]);
        assert(keep_where(s.skip(1), p) =~= seq![]);
        if p(s[0]) {
            assert(keep_where(s, p) =~= seq![s[0]]);
        }
    } else {
        lemma_keep_where_cons(s.drop_last(), p);
        assert(s.drop_last().skip(1) =~= s.skip(1).drop_last());
        assert(s.skip(1).last() == s.last());
        assert(s.drop_last()[0] == s[0]);
        if p(s[0]) {
            if p(s.last()) {
                assert(seq![s[0]] + keep_where(s.skip(1), p) =~= (seq![s[0]] + keep_where(
                    s.skip(1).drop_last(),
                    p,
                )).push(s.last()));
            }
        }
    }
}

/// The live group to open by default.
pub fn pick_default_live_group(bundle: &PlaylistBundle) -> (r: Option<String>)
    ensures
        opt_view(r) == default_live_group(bundle@),
{
    match first_live_match(&bundle.categories, true) {
        Some(k) => {
            return Some(bundle.categories[k].name.clone());
        },
        None => {},
    }
    proof {
        lemma_first_where_any(keep_where(category_views(bundle.categories@), live_pick()));
    }
    match first_live_match(&bundle.categories, false) {
        Some(k) => {
            return Some(bundle.categories[k].name.clone());
        },
        None => {},
    }
    let groups = bundle.group_names();
    let ghost gv = groups@.map_values(|g: String| g@);
    let mut i: usize = groups.len();
    let mut found: Option<usize> = None;
    assert(gv.skip(groups.len() as int) =~= seq![]);
    while i > 0
        invariant
            i <= groups.len(),
            gv == groups@.map_values(|g: String| g@),
            match found {
                Some(k) => i <= k < groups.len() && first_where(gv.skip(i as int), decent_pick())
                    == Some(groups@[k as int]@),
                None => first_where(gv.skip(i as int), decent_pick()) is None,
            },
        decreases i,
    {
        let j = i - 1;
        assert(gv.skip(j as int)[0] == groups@[j as int]@);
        assert(gv.skip(j as int).skip(1) =~= gv.skip(i as int));
        if !is_adult_cat(groups[j].as_str()) {
            found = Some(j);
        }
        i = j;
    }
    assert(gv.skip(0) =~= gv);
    match found {
        Some(k) => Some(groups[k].clone()),
        None => None,
    }
}

/// Accepting every category, the first match is the first element.
pub proof fn lemma_first_where_any(s: Seq<CategoryView>)
    ensures
        first_where(s, fr_pick(false)) == if s.len() > 0 {
            Some(s[0])
        } else {
            None
        },
{
}


/// Name for `char::is_alphanumeric` (Unicode `Alphabetic` or `Numeric`).
pub uninterp spec fn unicode_alnum(c: char) -> bool;

/// `char::is_alphanumeric`: a property of the character alone.
#[verifier::external_body]
fn char_is_alphanumeric(c: char) -> (r: bool)
    ensures
        r == unicode_alnum(c),
{
    c.is_alphanumeric()
}

/// Characters kept in a full-text query: letters, digits, whitespace, `-`, `'`.
pub open spec fn fts_char(c: char) -> bool {
    unicode_alnum(c) || crate::text::is_ws(c) || c == '-' || c == '\''
}

/// `s` without the characters that full-text search treats specially.
pub open spec fn fts_clean(s: Seq<char>) -> Seq<char>
    decreases s.len(),
{
    if s.len() == 0 {
        seq![]
    } else if fts_char(s.last()) {
        fts_clean(s.drop_last()).push(s.last())
    } else {
        fts_clean(s.drop_last())
    }
}

/// The full-text prefix query for a search: the first word of the cleaned
/// text followed by `*`; none when nothing is left.
pub open spec fn fts_query(query: Seq<char>) -> Option<Seq<char>> {
    let t = crate::text::trim(fts_clean(query));
    if t.len() == 0 {
        None
    } else if crate::text::words(t).len() > 0 {
        Some(crate::text::words(t)[0] + seq!['*'])
    } else {
        Some(t + seq!['*'])
    }
}

/// The `MATCH` argument for a full-text search.
pub fn fts_match_query(query: &str) -> (r: Option<String>)
    ensures
        opt_view(r) == fts_query(query@),
{
    let q = crate::text::chars_of(query);
    let mut kept: Vec<char> = Vec::new();
    let mut i: usize = 0;
    while i < q.len()
        invariant
            i <= q.len(),
            kept@ == fts_clean(q@.take(i as int)),
        decreases q.len() - i,
    {
        let c = q[i];
        assert(q@.take(i + 1).drop_last() =~= q@.take(i as int));
        assert(q@.take(i + 1).last() == c);
        if char_is_alphanumeric(c) || crate::text::is_ws_exec(c) || c == '-' || c == '\'' {
            kept.push(c);
        }
        i += 1;
    }
    assert(q@.take(i as int) =~= q@);
    let t = crate::text::trim_exec(kept.as_slice());
    if t.len() == 0 {
        return None;
    }
    let ws = crate::text::words_exec(t.as_slice());
    let mut out = if ws.len() > 0 {
        assert(crate::text::views(ws@)[0] == ws@[0]@);
        let w = crate::text::sub_chars(ws[0].as_slice(), 0, ws[0].len());
        assert(w@ =~= ws@[0]@);
        w
    } else {
        let w = crate::text::sub_chars(t.as_slice(), 0, t.len());
        assert(w@ =~= t@);
        w
    };
    out.push('*');
    Some(crate::text::string_of(out.as_slice()))
}

/// The `LIKE` pattern of a plain search: `%query%`, trimmed and lower-cased.
pub fn like_pattern(query: &str) -> (r: String)
    ensures
        r@ == seq!['%'] + crate::text::ascii_lower(crate::text::trim(query@)) + seq!['%'],
{
    let q = crate::text::chars_of(query);
    let t = crate::text::trim_exec(q.as_slice());
    let l = crate::text::to_lower(t.as_slice());
    let mut out: Vec<char> = Vec::new();
    out.push('%');
    crate::text::push_all(&mut out, l.as_slice());
    out.push('%');
    assert(out@ =~= seq!['%'] + l@ + seq!['%']);
    crate::text::string_of(out.as_slice())
}

/// Seconds a cached "not found" lookup is trusted.
pub const META_MISS_TTL_SECS: u64 = 604800;

/// A metadata cache row read at `now`: hits are kept forever (`Some(false)`),
/// misses for a week (`Some(true)`), older misses are ignored (`None`).
pub open spec fn meta_cache_state(is_miss: bool, fetched_at: u64, now: u64) -> Option<bool> {
    let age = if now >= fetched_at {
        now - fetched_at
    } else {
        0
    };
    if is_miss {
        if age > META_MISS_TTL_SECS {
            None
        } else {
            Some(true)
        }
    } else {
        Some(false)
    }
}

/// How a metadata cache row counts at `now`.
pub fn meta_cache_row(is_miss: bool, fetched_at: u64, now: u64) -> (r: Option<bool>)
    ensures
        r == meta_cache_state(is_miss, fetched_at, now),
{
    let age = if now >= fetched_at {
        now - fetched_at
    } else {
        0
    };
    if is_miss {
        if age > META_MISS_TTL_SECS {
            None
        } else {
            Some(true)
        }
    } else {
        Some(false)
    }
}

fn opt_str(o: Option<&str>) -> (r: Option<String>)
    ensures
        opt_view(r) == crate::art::str_view(o),
{
    match o {
        Some(s) => {
            let c = crate::text::chars_of(s);
            Some(crate::text::string_of(c.as_slice()))
        },
        None => None,
    }
}

/// A metadata lookup applied over a stored item: every field it has
/// replaces the item's.
pub open spec fn vod_patched(
    v: VodView,
    year: OptText,
    genre: OptText,
    plot: OptText,
    poster: OptText,
    rating: OptText,
    imdb_id: OptText,
) -> VodView {
    VodView {
        year: replaced(v.year, year),
        genre: replaced(v.genre, genre),
        plot: replaced(v.plot, plot),
        poster: replaced(v.poster, poster),
        rating: replaced(v.rating, rating),
        imdb_id: replaced(v.imdb_id, imdb_id),
        ..v
    }
}

/// Applies a metadata lookup to a stored VOD item.
pub fn patch_vod_meta(
    item: &mut VodItem,
    year: Option<&str>,
    genre: Option<&str>,
    plot: Option<&str>,
    poster: Option<&str>,
    rating: Option<&str>,
    imdb_id: Option<&str>,
)
    ensures
        final(item)@ == vod_patched(
            old(item)@,
            crate::art::str_view(year),
            crate::art::str_view(genre),
            crate::art::str_view(plot),
            crate::art::str_view(poster),
            crate::art::str_view(rating),
            crate::art::str_view(imdb_id),
        ),
{
    if year.is_some() {
        item.year = opt_str(year);
    }
    if genre.is_some() {
        item.genre = opt_str(genre);
    }
    if plot.is_some() {
        item.plot = opt_str(plot);
    }
    if poster.is_some() {
        item.poster = opt_str(poster);
    }
    if rating.is_some() {
        item.rating = opt_str(rating);
    }
    if imdb_id.is_some() {
        item.imdb_id = opt_str(imdb_id);
    }
}

pub open spec fn series_patched(
    v: SeriesView,
    year: OptText,
    genre: OptText,
    plot: OptText,
    cover: OptText,
    rating: OptText,
    imdb_id: OptText,
) -> SeriesView {
    SeriesView {
        year: replaced(v.year, year),
        genre: replaced(v.genre, genre),
        plot: replaced(v.plot, plot),
        cover: replaced(v.cover, cover),
        rating: replaced(v.rating, rating),
        imdb_id: replaced(v.imdb_id, imdb_id),
        ..v
    }
}

/// Applies a metadata lookup to a stored series.
pub fn patch_series_meta(
    item: &mut SeriesItem,
    year: Option<&str>,
    genre: Option<&str>,
    plot: Option<&str>,
    cover: Option<&str>,
    rating: Option<&str>,
    imdb_id: Option<&str>,
)
    ensures
        final(item)@ == series_patched(
            old(item)@,
            crate::art::str_view(year),
            crate::art::str_view(genre),
            crate::art::str_view(plot),
            crate::art::str_view(cover),
            crate::art::str_view(rating),
            crate::art::str_view(imdb_id),
        ),
{
    if year.is_some() {
        item.year = opt_str(year);
    }
    if genre.is_some() {
        item.genre = opt_str(genre);
    }
    if plot.is_some() {
        item.plot = opt_str(plot);
    }
    if cover.is_some() {
        item.cover = opt_str(cover);
    }
    if rating.is_some() {
        item.rating = opt_str(rating);
    }
    if imdb_id.is_some() {
        item.imdb_id = opt_str(imdb_id);
    }
}

/// Outcome of one source in a batch ingest.
#[derive(Debug, Clone, Copy, PartialEq, Eq, Structural)]
pub enum IngestOutcome {
    /// Loading the source or applying it failed.
    Failed,
    /// Applied; `rows` is the size of the part.
    Applied { kind: BundleApplyKind, rows: u64 },
}

/// Running totals of a batch ingest.
#[derive(Debug, Clone, Copy, PartialEq, Eq, Structural)]
pub struct IngestTally {
    pub ok: usize,
    pub err: usize,
    pub unchanged: usize,
    pub preserved: usize,
    /// Rows accounted for so far (progress numerator).
    pub done_rows: u64,
    /// Estimated rows of the whole batch, at least 1 (progress denominator).
    pub total_rows: u64,
}

/// The tally after one more source (counts saturate; progress stays within the total).
pub open spec fn tally_after(t: IngestTally, o: IngestOutcome) -> IngestTally {
    match o {
        IngestOutcome::Failed => IngestTally { err: sat_inc(t.err), ..t },
        IngestOutcome::Applied { kind, rows } => {
            let add: u64 = match kind {
                BundleApplyKind::Unchanged => if rows == 0 {
                    1
                } else {
                    rows
                },
                BundleApplyKind::Updated { .. } => rows,
            };
            let done = if t.done_rows as int + add as int > u64::MAX as int {
                u64::MAX
            } else {
                (t.done_rows + add) as u64
            };
            IngestTally {
                ok: sat_inc(t.ok),
                unchanged: match kind {
                    BundleApplyKind::Unchanged => sat_inc(t.unchanged),
                    BundleApplyKind::Updated { .. } => t.unchanged,
                },
                preserved: match kind {
                    BundleApplyKind::Unchanged => t.preserved,
                    BundleApplyKind::Updated { preserved_meta } => if t.preserved as int
                        + preserved_meta as int > usize::MAX as int {
                        usize::MAX
                    } else {
                        (t.preserved + preserved_meta) as usize
                    },
                },
                done_rows: done,
                ..t
            }
        },
    }
}

pub open spec fn sat_inc(n: usize) -> usize {
    if n == usize::MAX {
        n
    } else {
        (n + 1) as usize
    }
}

impl IngestTally {
    /// A new tally for a batch estimated at `approx_rows` rows.
    pub fn new(approx_rows: u64) -> (r: Self)
        ensures
            r == (IngestTally {
                ok: 0,
                err: 0,
                unchanged: 0,
                preserved: 0,
                done_rows: 0,
                total_rows: if approx_rows == 0 {
                    1
                } else {
                    approx_rows
                },
            }),
    {
        IngestTally {
            ok: 0,
            err: 0,
            unchanged: 0,
            preserved: 0,
            done_rows: 0,
            total_rows: if approx_rows == 0 {
                1
            } else {
                approx_rows
            },
        }
    }

    /// Records one source; returns the progress to show (done, capped at the total).
    pub fn record(&mut self, o: IngestOutcome) -> (r: u64)
        ensures
            *final(self) == tally_after(*old(self), o),
            r == (if final(self).done_rows < final(self).total_rows {
                final(self).done_rows
            } else {
                final(self).total_rows
            }),
    {
        match o {
            IngestOutcome::Failed => {
                if self.err < usize::MAX {
                    self.err = self.err + 1;
                }
            },
            IngestOutcome::Applied { kind, rows } => {
                let add: u64 = match kind {
                    BundleApplyKind::Unchanged => if rows == 0 {
                        1
                    } else {
                        rows
                    },
                    BundleApplyKind::Updated { .. } => rows,
                };
                self.done_rows = if self.done_rows > u64::MAX - add {
                    u64::MAX
                } else {
                    self.done_rows + add
                };
                if self.ok < usize::MAX {
                    self.ok = self.ok + 1;
                }
                match kind {
                    BundleApplyKind::Unchanged => {
                        if self.unchanged < usize::MAX {
                            self.unchanged = self.unchanged + 1;
                        }
                    },
                    BundleApplyKind::Updated { preserved_meta } => {
                        self.preserved = if self.preserved > usize::MAX - preserved_meta {
                            usize::MAX
                        } else {
                            self.preserved + preserved_meta
                        };
                    },
                }
            },
        }
        if self.done_rows < self.total_rows {
            self.done_rows
        } else {
            self.total_rows
        }
    }
}

/// Tag of an applied source in the status line.
pub open spec fn apply_tag(k: BundleApplyKind) -> Seq<char> {
    match k {
        BundleApplyKind::Unchanged => "à jour · checksum"@,
        BundleApplyKind::Updated { preserved_meta } => if preserved_meta > 0 {
            "DB · meta conservée"@
        } else {
            "DB · mise à jour"@
        },
    }
}

/// The status tag of an applied source.
pub fn apply_kind_tag(k: BundleApplyKind) -> (r: &'static str)
    ensures
        r@ == apply_tag(k),
{
    match k {
        BundleApplyKind::Unchanged => "à jour · checksum",
        BundleApplyKind::Updated { preserved_meta } => {
            if preserved_meta > 0 {
                "DB · meta conservée"
            } else {
                "DB · mise à jour"
            }
        },
    }
}

/// The status line after a batch ingest: sources applied, failures, and
/// whether every source was already up to date.
pub open spec fn ingest_status(ok: usize, err: usize, unchanged: usize) -> Seq<char> {
    let failures = if err > 0 {
        " ("@ + crate::text::dec_chars(err as nat) + " échec)"@
    } else {
        seq![]
    };
    let checks = if unchanged == ok && err == 0 && ok > 0 {
        " · checksum OK"@
    } else if unchanged > 0 {
        " · "@ + crate::text::dec_chars(unchanged as nat) + " inchangé(s)"@
    } else {
        seq![]
    };
    "Ingest OK · "@ + crate::text::dec_chars(ok as nat) + " source(s)"@ + failures + checks
        + " — relecture SQLite…"@
}

fn push_lit(out: &mut Vec<char>, s: &str)
    ensures
        final(out)@ == old(out)@ + s@,
{
    let c = crate::text::chars_of(s);
    crate::text::push_all(out, c.as_slice());
}

/// The status line after a batch ingest.
pub fn ingest_status_line(ok: usize, err: usize, unchanged: usize) -> (r: String)
    ensures
        r@ == ingest_status(ok, err, unchanged),
{
    let mut out: Vec<char> = Vec::new();
    push_lit(&mut out, "Ingest OK · ");
    crate::text::push_decimal(&mut out, ok as u64);
    push_lit(&mut out, " source(s)");
    if err > 0 {
        push_lit(&mut out, " (");
        crate::text::push_decimal(&mut out, err as u64);
        push_lit(&mut out, " échec)");
    }
    if unchanged == ok && err == 0 && ok > 0 {
        push_lit(&mut out, " · checksum OK");
    } else if unchanged > 0 {
        push_lit(&mut out, " · ");
        crate::text::push_decimal(&mut out, unchanged as u64);
        push_lit(&mut out, " inchangé(s)");
    }
    push_lit(&mut out, " — relecture SQLite…");
    assert(out@ =~= ingest_status(ok, err, unchanged));
    crate::text::string_of(out.as_slice())
}

} // verus!
