//! Browse positions: which catalog rows the current filter shows, and the
//! navigation tabs of the media-center shell.

use vstd::hash_set::StringHashSet;
use vstd::prelude::*;

use crate::icons::Icon;
use crate::jobs::{JobProgress, DEFAULT_CHUNK};
use crate::text::{
    ascii_lower, chars_eq, chars_of, contains_chars, has_sub, opt_chars, opt_is, string_of, to_lower,
};

verus! {

/// Rows shown per page in plain lists.
pub const LIST_PAGE: usize = 48;

/// Sidebar categories show the full catalog list.
pub const CAT_PAGE: usize = 2000;

/// Episodes listed through the same virtual window.
pub const EPISODE_PAGE: usize = 10000;

/// Rows rendered above / below the viewport.
pub const VIRTUAL_OVERSCAN: usize = 14;

/// Catalog indices for the active browse filter.
///
/// `Identity` stands for `0..len` without allocating it; `Mapped` holds a
/// filtered subset in browse order.
#[derive(Debug, Clone, Default)]
pub enum BrowseIndex {
    #[default]
    Empty,
    Identity { len: usize },
    Mapped(Vec<usize>),
}

impl BrowseIndex {
    /// Catalog index at each browse position.
    pub open spec fn positions(&self) -> Seq<usize> {
        match self {
            BrowseIndex::Empty => seq![],
            BrowseIndex::Identity { len } => Seq::new(*len as nat, |i: int| i as usize),
            BrowseIndex::Mapped(v) => v@,
        }
    }

    pub fn len(&self) -> (r: usize)
        ensures
            r == self.positions().len(),
    {
        match self {
            BrowseIndex::Empty => 0,
            BrowseIndex::Identity { len } => *len,
            BrowseIndex::Mapped(v) => v.len(),
        }
    }

    pub fn is_empty(&self) -> (r: bool)
        ensures
            r == (self.positions().len() == 0),
    {
        self.len() == 0
    }

    pub fn clear(&mut self)
        ensures
            *final(self) == BrowseIndex::Empty,
    {
        *self = BrowseIndex::Empty;
    }

    /// `0..len`, or `Empty` when `len == 0`.
    pub fn identity(len: usize) -> (r: Self)
        ensures
            r.positions() == Seq::new(len as nat, |i: int| i as usize),
            len == 0 ==> r == BrowseIndex::Empty,
            len > 0 ==> r == (BrowseIndex::Identity { len }),
    {
        if len == 0 {
            BrowseIndex::Empty
        } else {
            BrowseIndex::Identity { len }
        }
    }

    /// The given subset, or `Empty` when it has no element.
    pub fn mapped(v: Vec<usize>) -> (r: Self)
        ensures
            r.positions() == v@,
            v@.len() == 0 ==> r == BrowseIndex::Empty,
            v@.len() > 0 ==> r == BrowseIndex::Mapped(v),
    {
        if v.len() == 0 {
            BrowseIndex::Empty
        } else {
            BrowseIndex::Mapped(v)
        }
    }

    /// Catalog index at `browse_pos`, `None` past the end.
    pub fn get(&self, browse_pos: usize) -> (r: Option<usize>)
        ensures
            browse_pos < self.positions().len() ==> r == Some(self.positions()[browse_pos as int]),
            browse_pos >= self.positions().len() ==> r is None,
    {
        match self {
            BrowseIndex::Empty => None,
            BrowseIndex::Identity { len } => {
                if browse_pos < *len {
                    Some(browse_pos)
                } else {
                    None
                }
            },
            BrowseIndex::Mapped(v) => {
                if browse_pos < v.len() {
                    Some(v[browse_pos])
                } else {
                    None
                }
            },
        }
    }

    /// Catalog indices of browse positions `[start, end)`, clipped to the index.
    pub fn window(&self, start: usize, end: usize) -> (r: Vec<usize>)
        ensures
            r@ == self.positions().subrange(
                window_start(start, end, self.positions().len()) as int,
                window_end(end, self.positions().len()) as int,
            ),
    {
        let n = self.len();
        let end = if end < n {
            end
        } else {
            n
        };
        let start = if start < end {
            start
        } else {
            end
        };
        let mut out: Vec<usize> = Vec::new();
        let mut i = start;
        while i < end
            invariant
                start <= i <= end,
                end <= self.positions().len(),
                out@ == self.positions().subrange(start as int, i as int),
            decreases end - i,
        {
            let v = match self {
                BrowseIndex::Empty => 0,
                BrowseIndex::Identity { .. } => i,
                BrowseIndex::Mapped(v) => v[i],
            };
            out.push(v);
            assert(self.positions().subrange(start as int, i + 1) =~= self.positions().subrange(
                start as int,
                i as int,
            ).push(self.positions()[i as int]));
            i += 1;
        }
        out
    }
}

/// `min(end, len)`.
pub open spec fn window_end(end: usize, len: nat) -> nat {
    if end < len {
        end as nat
    } else {
        len
    }
}

/// `min(start, min(end, len))`.
pub open spec fn window_start(start: usize, end: usize, len: nat) -> nat {
    if start < window_end(end, len) {
        start as nat
    } else {
        window_end(end, len)
    }
}

/// `s` cut after `max` characters with an ellipsis, or `s` itself when short enough.
pub open spec fn truncated(s: Seq<char>, max: nat) -> Seq<char> {
    if s.len() > max {
        s.take(max as int).push('\u{2026}')
    } else {
        s
    }
}

/// Shortens a label to `max` characters followed by `…` when longer.
pub fn truncate_ui(s: &str, max: usize) -> (r: String)
    ensures
        r@ == truncated(s@, max as nat),
{
    let cs = chars_of(s);
    if cs.len() > max {
        let mut out: Vec<char> = Vec::new();
        let mut i: usize = 0;
        while i < max
            invariant
                i <= max < cs.len(),
                out@ == cs@.take(i as int),
            decreases max - i,
        {
            out.push(cs[i]);
            assert(cs@.take(i + 1) =~= cs@.take(i as int).push(cs@[i as int]));
            i += 1;
        }
        out.push('\u{2026}');
        string_of(out.as_slice())
    } else {
        string_of(cs.as_slice())
    }
}

/// Top-level navigation destinations.
#[derive(Debug, Clone, Copy, PartialEq, Eq, Structural)]
pub enum Tab {
    Live,
    Favorites,
    Vod,
    Series,
    Epg,
    Sources,
    Settings,
}

/// Full French label of a tab.
pub open spec fn tab_label(t: Tab) -> Seq<char> {
    match t {
        Tab::Live => "T\u{e9}l\u{e9}vision"@,
        Tab::Favorites => "Mes favoris"@,
        Tab::Vod => "Films & VOD"@,
        Tab::Series => "S\u{e9}ries"@,
        Tab::Epg => "Guide TV"@,
        Tab::Sources => "Mes sources"@,
        Tab::Settings => "R\u{e9}glages"@,
    }
}

/// Compact label for the phone top navigation.
pub open spec fn tab_short_label(t: Tab) -> Seq<char> {
    match t {
        Tab::Live => "TV"@,
        Tab::Favorites => "Fav"@,
        Tab::Vod => "VOD"@,
        Tab::Series => "Series"@,
        Tab::Epg => "EPG"@,
        Tab::Sources => "Src"@,
        Tab::Settings => "Regl"@,
    }
}

/// Icon of a tab.
pub open spec fn tab_icon(t: Tab) -> Icon {
    match t {
        Tab::Live => Icon::LiveTv,
        Tab::Favorites => Icon::Favorite,
        Tab::Vod => Icon::Movie,
        Tab::Series => Icon::Series,
        Tab::Epg => Icon::Epg,
        Tab::Sources => Icon::Sources,
        Tab::Settings => Icon::Settings,
    }
}

/// Display order of the tabs.
pub open spec fn tab_order() -> Seq<Tab> {
    seq![Tab::Live, Tab::Vod, Tab::Series, Tab::Favorites, Tab::Epg, Tab::Sources, Tab::Settings]
}

impl Tab {
    pub fn label(self) -> (r: &'static str)
        ensures
            r@ == tab_label(self),
    {
        match self {
            Tab::Live => "T\u{e9}l\u{e9}vision",
            Tab::Favorites => "Mes favoris",
            Tab::Vod => "Films & VOD",
            Tab::Series => "S\u{e9}ries",
            Tab::Epg => "Guide TV",
            Tab::Sources => "Mes sources",
            Tab::Settings => "R\u{e9}glages",
        }
    }

    pub fn short_label(self) -> (r: &'static str)
        ensures
            r@ == tab_short_label(self),
    {
        match self {
            Tab::Live => "TV",
            Tab::Favorites => "Fav",
            Tab::Vod => "VOD",
            Tab::Series => "Series",
            Tab::Epg => "EPG",
            Tab::Sources => "Src",
            Tab::Settings => "Regl",
        }
    }

    pub fn icon(self) -> (r: Icon)
        ensures
            r == tab_icon(self),
    {
        match self {
            Tab::Live => Icon::LiveTv,
            Tab::Favorites => Icon::Favorite,
            Tab::Vod => Icon::Movie,
            Tab::Series => Icon::Series,
            Tab::Epg => Icon::Epg,
            Tab::Sources => Icon::Sources,
            Tab::Settings => Icon::Settings,
        }
    }

    /// Every tab, in display order.
    pub fn all() -> (r: Vec<Tab>)
        ensures
            r@ == tab_order(),
    {
        let r = vec![
            Tab::Live,
            Tab::Vod,
            Tab::Series,
            Tab::Favorites,
            Tab::Epg,
            Tab::Sources,
            Tab::Settings,
        ];
        assert(r@ =~= tab_order());
        r
    }
}


/// A live row: catalog index, channel name, group.
pub type LiveRow = (usize, String, Option<String>);

/// A VOD / series row: catalog index, item id, name, category id.
pub type CatalogRow = (usize, String, String, Option<String>);

/// `None`, `"Tous"` and `"*"` mean "every group".
pub open spec fn group_is_any(group: Option<Seq<char>>) -> bool {
    match group {
        None => true,
        Some(g) => g == seq!['T', 'o', 'u', 's'] || g == seq!['*'],
    }
}

/// Category filter after mapping `"*"` to "every category".
pub open spec fn category_filter(cat: Option<Seq<char>>) -> Option<Seq<char>> {
    match cat {
        None => None,
        Some(c) => if c == seq!['*'] {
            None
        } else {
            Some(c)
        },
    }
}

/// Case-insensitive (ASCII) substring match; an empty query matches everything.
pub open spec fn query_matches(q: Seq<char>, name: Seq<char>) -> bool {
    q.len() == 0 || has_sub(ascii_lower(name), ascii_lower(q))
}

pub open spec fn live_keep(group: Option<Seq<char>>, q: Seq<char>, row: LiveRow) -> bool {
    (group_is_any(group) || opt_chars(row.2) == group) && query_matches(q, row.1@)
}

/// Category match and (empty query, unnamed item, or name match).
pub open spec fn catalog_keep(cat: Option<Seq<char>>, q: Seq<char>, row: CatalogRow) -> bool {
    (category_filter(cat) is None || opt_chars(row.3) == category_filter(cat)) && (row.2@.len()
        == 0 || query_matches(q, row.2@))
}

/// Category match and id among the full-text search hits.
pub open spec fn found_keep(cat: Option<Seq<char>>, found: Set<Seq<char>>, row: CatalogRow) -> bool {
    (category_filter(cat) is None || opt_chars(row.3) == category_filter(cat)) && found.contains(
        row.1@,
    )
}

pub open spec fn select_live(rows: Seq<LiveRow>, group: Option<Seq<char>>, q: Seq<char>) -> Seq<usize>
    decreases rows.len(),
{
    if rows.len() == 0 {
        seq![]
    } else {
        let prev = select_live(rows.drop_last(), group, q);
        if live_keep(group, q, rows.last()) {
            prev.push(rows.last().0)
        } else {
            prev
        }
    }
}

pub open spec fn select_catalog(rows: Seq<CatalogRow>, cat: Option<Seq<char>>, q: Seq<char>) -> Seq<
    usize,
>
    decreases rows.len(),
{
    if rows.len() == 0 {
        seq![]
    } else {
        let prev = select_catalog(rows.drop_last(), cat, q);
        if catalog_keep(cat, q, rows.last()) {
            prev.push(rows.last().0)
        } else {
            prev
        }
    }
}

pub open spec fn select_found(
    rows: Seq<CatalogRow>,
    cat: Option<Seq<char>>,
    found: Set<Seq<char>>,
) -> Seq<usize>
    decreases rows.len(),
{
    if rows.len() == 0 {
        seq![]
    } else {
        let prev = select_found(rows.drop_last(), cat, found);
        if found_keep(cat, found, rows.last()) {
            prev.push(rows.last().0)
        } else {
            prev
        }
    }
}

/// The ids of the search hits.
pub open spec fn id_set(found: Seq<String>) -> Set<Seq<char>> {
    Set::new(|x: Seq<char>| exists|j: int| 0 <= j < found.len() && found[j]@ == x)
}

/// Positions shown for a tab: Live filters by group and name; VOD / Series
/// filter by category and either the full-text hits (when the query is
/// non-empty and the search ran) or a name match; other tabs show nothing.
pub open spec fn browse_positions(
    tab: Tab,
    q: Seq<char>,
    group: Option<Seq<char>>,
    vod_cat: Option<Seq<char>>,
    series_cat: Option<Seq<char>>,
    live_rows: Seq<LiveRow>,
    vod_rows: Seq<CatalogRow>,
    series_rows: Seq<CatalogRow>,
    vod_found: Option<Seq<String>>,
    series_found: Option<Seq<String>>,
) -> Seq<usize> {
    match tab {
        Tab::Live => select_live(live_rows, group, q),
        Tab::Vod => match vod_found {
            Some(f) if q.len() > 0 => select_found(vod_rows, vod_cat, id_set(f)),
            _ => select_catalog(vod_rows, vod_cat, q),
        },
        Tab::Series => match series_found {
            Some(f) if q.len() > 0 => select_found(series_rows, series_cat, id_set(f)),
            _ => select_catalog(series_rows, series_cat, q),
        },
        _ => seq![],
    }
}

fn opt_chars_exec(o: &Option<String>) -> (r: Option<Vec<char>>)
    ensures
        match r {
            Some(v) => opt_chars(*o) == Some(v@),
            None => o is None,
        },
{
    match o {
        Some(s) => Some(chars_of(s.as_str())),
        None => None,
    }
}

fn group_any_exec(group: &Option<Vec<char>>) -> (r: bool)
    ensures
        r == group_is_any(
            match group {
                Some(g) => Some(g@),
                None => None,
            },
        ),
{
    match group {
        None => true,
        Some(g) => {
            let r1 = chars_eq(g.as_slice(), &['T', 'o', 'u', 's']);
            let r2 = chars_eq(g.as_slice(), &['*']);
            assert(seq!['T', 'o', 'u', 's'] =~= ['T', 'o', 'u', 's']@);
            assert(seq!['*'] =~= ['*']@);
            r1 || r2
        },
    }
}

/// Name test with the query already lower-cased.
fn query_ok(q_lower: &[char], q_len: usize, name: &String, Ghost(q): Ghost<Seq<char>>) -> (r: bool)
    requires
        q_lower@ == ascii_lower(q),
        q_len == q.len(),
    ensures
        r == query_matches(q, name@),
{
    if q_len == 0 {
        return true;
    }
    let n = chars_of(name.as_str());
    let nl = to_lower(n.as_slice());
    contains_chars(nl.as_slice(), q_lower)
}

/// Advances `progress` by one row, flushing every `DEFAULT_CHUNK` rows and at the end.
fn count_row(progress: &JobProgress, pending: &mut u64, is_last: bool)
    requires
        *old(pending) < DEFAULT_CHUNK,
    ensures
        *final(pending) < DEFAULT_CHUNK,
        *final(pending) == (if *old(pending) + 1 == DEFAULT_CHUNK || is_last {
            0
        } else {
            *old(pending) + 1
        }),
{
    *pending = *pending + 1;
    if *pending == 4000 || is_last {
        progress.add_done(*pending);
        *pending = 0;
    }
}

fn select_live_exec(
    rows: &Vec<LiveRow>,
    group: &Option<Vec<char>>,
    q_lower: &[char],
    q_len: usize,
    progress: &JobProgress,
    Ghost(q): Ghost<Seq<char>>,
) -> (r: Vec<usize>)
    requires
        q_lower@ == ascii_lower(q),
        q_len == q.len(),
    ensures
        r@ == select_live(
            rows@,
            match group {
                Some(g) => Some(g@),
                None => None,
            },
            q,
        ),
{
    let ghost gv = match group {
        Some(g) => Some(g@),
        None => None,
    };
    let any = group_any_exec(group);
    let mut out: Vec<usize> = Vec::new();
    let mut pending: u64 = 0;
    let mut i: usize = 0;
    while i < rows.len()
        invariant
            i <= rows.len(),
            pending < DEFAULT_CHUNK,
            any == group_is_any(gv),
            gv == match group {
                Some(g) => Some(g@),
                None => None,
            },
            q_lower@ == ascii_lower(q),
            q_len == q.len(),
            out@ == select_live(rows@.take(i as int), gv, q),
        decreases rows.len() - i,
    {
        let row = &rows[i];
        let group_ok = if any {
            true
        } else {
            match group {
                Some(g) => opt_is(&row.2, g.as_slice()),
                None => true,
            }
        };
        let keep = group_ok && query_ok(q_lower, q_len, &row.1, Ghost(q));
        assert(rows@.take(i + 1).drop_last() =~= rows@.take(i as int));
        if keep {
            out.push(row.0);
        }
        count_row(progress, &mut pending, i + 1 == rows.len());
        i += 1;
    }
    assert(rows@.take(rows.len() as int) =~= rows@);
    out
}

/// Maps `"*"` to no filter.
fn category_filter_exec(cat: &Option<String>) -> (r: Option<Vec<char>>)
    ensures
        match r {
            Some(v) => category_filter(opt_chars(*cat)) == Some(v@),
            None => category_filter(opt_chars(*cat)) is None,
        },
{
    match cat {
        None => None,
        Some(c) => {
            let cs = chars_of(c.as_str());
            assert(seq!['*'] =~= ['*']@);
            if chars_eq(cs.as_slice(), &['*']) {
                None
            } else {
                Some(cs)
            }
        },
    }
}

fn category_ok(filter: &Option<Vec<char>>, row_cat: &Option<String>) -> (r: bool)
    ensures
        r == (match filter {
            Some(v) => opt_chars(*row_cat) == Some(v@),
            None => true,
        }),
{
    match filter {
        None => true,
        Some(v) => opt_is(row_cat, v.as_slice()),
    }
}

fn select_catalog_exec(
    rows: &Vec<CatalogRow>,
    cat: &Option<String>,
    q_lower: &[char],
    q_len: usize,
    progress: &JobProgress,
    Ghost(q): Ghost<Seq<char>>,
) -> (r: Vec<usize>)
    requires
        q_lower@ == ascii_lower(q),
        q_len == q.len(),
    ensures
        r@ == select_catalog(rows@, opt_chars(*cat), q),
{
    let filter = category_filter_exec(cat);
    let mut out: Vec<usize> = Vec::new();
    let mut pending: u64 = 0;
    let mut i: usize = 0;
    while i < rows.len()
        invariant
            i <= rows.len(),
            pending < DEFAULT_CHUNK,
            match filter {
                Some(v) => category_filter(opt_chars(*cat)) == Some(v@),
                None => category_filter(opt_chars(*cat)) is None,
            },
            q_lower@ == ascii_lower(q),
            q_len == q.len(),
            out@ == select_catalog(rows@.take(i as int), opt_chars(*cat), q),
        decreases rows.len() - i,
    {
        let row = &rows[i];
        let cat_ok = category_ok(&filter, &row.3);
        let name_ok = row.2.as_str().is_empty() || query_ok(q_lower, q_len, &row.2, Ghost(q));
        assert(rows@.take(i + 1).drop_last() =~= rows@.take(i as int));
        if cat_ok && name_ok {
            out.push(row.0);
        }
        count_row(progress, &mut pending, i + 1 == rows.len());
        i += 1;
    }
    assert(rows@.take(rows.len() as int) =~= rows@);
    out
}

/// The search hits as a set of ids.
fn found_set(found: &Vec<String>) -> (r: StringHashSet)
    ensures
        r@ == id_set(found@),
{
    let mut set = StringHashSet::new();
    let mut i: usize = 0;
    while i < found.len()
        invariant
            i <= found.len(),
            forall|x: Seq<char>|
                set@.contains(x) <==> exists|j: int| 0 <= j < i && found@[j]@ == x,
        decreases found.len() - i,
    {
        set.insert(found[i].clone());
        i += 1;
    }
    assert(set@ =~= id_set(found@));
    set
}

fn select_found_exec(
    rows: &Vec<CatalogRow>,
    cat: &Option<String>,
    found: &StringHashSet,
    progress: &JobProgress,
) -> (r: Vec<usize>)
    ensures
        r@ == select_found(rows@, opt_chars(*cat), found@),
{
    let filter = category_filter_exec(cat);
    let mut out: Vec<usize> = Vec::new();
    let mut pending: u64 = 0;
    let mut i: usize = 0;
    while i < rows.len()
        invariant
            i <= rows.len(),
            pending < DEFAULT_CHUNK,
            match filter {
                Some(v) => category_filter(opt_chars(*cat)) == Some(v@),
                None => category_filter(opt_chars(*cat)) is None,
            },
            out@ == select_found(rows@.take(i as int), opt_chars(*cat), found@),
        decreases rows.len() - i,
    {
        let row = &rows[i];
        let cat_ok = category_ok(&filter, &row.3);
        let hit = found.contains(row.1.as_str());
        assert(rows@.take(i + 1).drop_last() =~= rows@.take(i as int));
        if cat_ok && hit {
            out.push(row.0);
        }
        count_row(progress, &mut pending, i + 1 == rows.len());
        i += 1;
    }
    assert(rows@.take(rows.len() as int) =~= rows@);
    out
}

/// Builds the browse index for a tab from the catalog rows, reporting row
/// progress. `vod_found` / `series_found` are the full-text search hits when
/// the search could run (`None` when the catalog database was unavailable).
pub fn build_browse_index(
    tab: Tab,
    q: &str,
    group: Option<String>,
    vod_cat: Option<String>,
    series_cat: Option<String>,
    live_rows: &Vec<LiveRow>,
    vod_rows: &Vec<CatalogRow>,
    series_rows: &Vec<CatalogRow>,
    vod_found: Option<Vec<String>>,
    series_found: Option<Vec<String>>,
    progress: &JobProgress,
) -> (r: BrowseIndex)
    ensures
        r.positions() == browse_positions(
            tab,
            q@,
            opt_chars(group),
            opt_chars(vod_cat),
            opt_chars(series_cat),
            live_rows@,
            vod_rows@,
            series_rows@,
            match vod_found {
                Some(f) => Some(f@),
                None => None,
            },
            match series_found {
                Some(f) => Some(f@),
                None => None,
            },
        ),
        r.positions().len() == 0 ==> r == BrowseIndex::Empty,
{
    let qc = chars_of(q);
    let q_lower = to_lower(qc.as_slice());
    let q_len = qc.len();
    let r = match tab {
        Tab::Live => {
            progress.set_total(live_rows.len() as u64);
            let g = opt_chars_exec(&group);
            assert(match g {
                Some(v) => Some(v@),
                None => None,
            } == opt_chars(group));
            let out = select_live_exec(live_rows, &g, q_lower.as_slice(), q_len, progress, Ghost(q@));
            BrowseIndex::mapped(out)
        },
        Tab::Vod => {
            progress.set_total(vod_rows.len() as u64);
            let out = match vod_found {
                Some(f) if q_len > 0 => {
                    let set = found_set(&f);
                    select_found_exec(vod_rows, &vod_cat, &set, progress)
                },
                _ => select_catalog_exec(vod_rows, &vod_cat, q_lower.as_slice(), q_len, progress, Ghost(q@)),
            };
            BrowseIndex::mapped(out)
        },
        Tab::Series => {
            progress.set_total(series_rows.len() as u64);
            let out = match series_found {
                Some(f) if q_len > 0 => {
                    let set = found_set(&f);
                    select_found_exec(series_rows, &series_cat, &set, progress)
                },
                _ => select_catalog_exec(series_rows, &series_cat, q_lower.as_slice(), q_len, progress, Ghost(q@)),
            };
            BrowseIndex::mapped(out)
        },
        _ => BrowseIndex::Empty,
    };
    let (d, t) = progress.snapshot();
    progress.set_done(if t > d { t } else { d });
    r
}


/// Categories of one kind whose name matches the sidebar filter.
pub open spec fn cats_matching(
    cats: Seq<crate::catalog::CategoryView>,
    kind: crate::catalog::ContentKind,
    q: Seq<char>,
) -> Seq<crate::catalog::CategoryView> {
    crate::catalog::keep_where(
        cats,
        |c: crate::catalog::CategoryView| c.content == kind && query_matches(q, c.name),
    )
}

/// At most `CAT_PAGE` elements, from the front.
pub open spec fn first_page<A>(s: Seq<A>) -> Seq<A> {
    if s.len() > CAT_PAGE {
        s.take(CAT_PAGE as int)
    } else {
        s
    }
}

/// A sidebar entry: category id, label, selected, item count (0 when not counted).
pub type CatEntry = (String, String, bool, usize);

pub type CatEntryView = (Seq<char>, Seq<char>, bool, usize);

pub open spec fn cat_entry_views(es: Seq<CatEntry>) -> Seq<CatEntryView> {
    es.map_values(|e: CatEntry| (e.0@, e.1@, e.2, e.3))
}

/// The (id, label) rows of the sidebar of `tab`: live groups are named by
/// their category name, or by the channel groups when no live category
/// matches; VOD and series categories by id.
pub open spec fn sidebar_rows(b: crate::catalog::BundleView, tab: Tab, q: Seq<char>) -> Seq<
    (Seq<char>, Seq<char>),
> {
    match tab {
        Tab::Live => {
            let cs = cats_matching(b.categories, crate::catalog::ContentKind::Live, q);
            if cs.len() == 0 {
                first_page(crate::catalog::group_names_of(b.channels)).map_values(
                    |n: Seq<char>| (n, n),
                )
            } else {
                first_page(cs).map_values(|c: crate::catalog::CategoryView| (c.name, c.name))
            }
        },
        Tab::Vod => first_page(
            cats_matching(b.categories, crate::catalog::ContentKind::Vod, q),
        ).map_values(|c: crate::catalog::CategoryView| (c.id, c.name)),
        Tab::Series => first_page(
            cats_matching(b.categories, crate::catalog::ContentKind::Series, q),
        ).map_values(|c: crate::catalog::CategoryView| (c.id, c.name)),
        _ => seq![],
    }
}

/// "Every category" is selected (none, or `*`).
pub open spec fn all_selected(sel: Option<Seq<char>>) -> bool {
    sel is None || sel == Some(seq!['*'])
}

/// The category sidebar of `tab`: an "all" entry counting every item of the
/// tab, then the rows, the selected one marked.
pub open spec fn sidebar_of(
    b: crate::catalog::BundleView,
    tab: Tab,
    q: Seq<char>,
    group: Option<Seq<char>>,
    vod_cat: Option<Seq<char>>,
    series_cat: Option<Seq<char>>,
) -> Seq<CatEntryView> {
    let rows = sidebar_rows(b, tab, q);
    match tab {
        Tab::Live => seq![("*"@, "Toutes"@, group is None, b.channels.len() as usize)]
            + rows.map_values(|r: (Seq<char>, Seq<char>)| (r.0, r.1, group == Some(r.1), 0usize)),
        Tab::Vod => seq![("*"@, "All"@, all_selected(vod_cat), b.vod.len() as usize)]
            + rows.map_values(|r: (Seq<char>, Seq<char>)| (r.0, r.1, vod_cat == Some(r.0), 0usize)),
        Tab::Series => seq![("*"@, "All"@, all_selected(series_cat), b.series.len() as usize)]
            + rows.map_values(
            |r: (Seq<char>, Seq<char>)| (r.0, r.1, series_cat == Some(r.0), 0usize),
        ),
        _ => seq![],
    }
}

pub open spec fn pair_views(ps: Seq<(String, String)>) -> Seq<(Seq<char>, Seq<char>)> {
    ps.map_values(|p: (String, String)| (p.0@, p.1@))
}

/// The first page of the categories of `kind` matching `q`, as (id or
/// name, name) pairs.
fn matching_pairs(
    cats: &Vec<crate::catalog::Category>,
    kind: crate::catalog::ContentKind,
    q: &str,
    by_name: bool,
) -> (r: Vec<(String, String)>)
    ensures
        pair_views(r@) == first_page(
            cats_matching(crate::catalog::category_views(cats@), kind, q@),
        ).map_values(
            |c: crate::catalog::CategoryView|
                (if by_name {
                    c.name
                } else {
                    c.id
                }, c.name),
        ),
{
    let ghost cv = crate::catalog::category_views(cats@);
    let ghost p = |c: crate::catalog::CategoryView| c.content == kind && query_matches(q@, c.name);
    let ghost f = |c: crate::catalog::CategoryView|
        (if by_name {
            c.name
        } else {
            c.id
        }, c.name);
    let qc = chars_of(q);
    let ql = to_lower(qc.as_slice());
    let mut out: Vec<(String, String)> = Vec::new();
    let mut i: usize = 0;
    while i < cats.len()
        invariant
            i <= cats.len(),
            cv == crate::catalog::category_views(cats@),
            p == (|c: crate::catalog::CategoryView|
                c.content == kind && query_matches(q@, c.name)),
            f == (|c: crate::catalog::CategoryView|
                (if by_name {
                    c.name
                } else {
                    c.id
                }, c.name)),
            ql@ == ascii_lower(q@),
            qc@.len() == q@.len(),
            pair_views(out@) == crate::catalog::keep_where(cv.take(i as int), p).map_values(f),
        decreases cats.len() - i,
    {
        let ghost pre = cv.take(i + 1);
        assert(pre.drop_last() =~= cv.take(i as int));
        assert(pre.last() == cats@[i as int]@);
        let ghost before = pair_views(out@);
        let c = &cats[i];
        if c.content == kind && query_ok(ql.as_slice(), qc.len(), &c.name, Ghost(q@)) {
            let first = if by_name {
                c.name.clone()
            } else {
                c.id.clone()
            };
            out.push((first, c.name.clone()));
            assert(pair_views(out@) =~= before.push(f(cats@[i as int]@)));
            assert(crate::catalog::keep_where(pre, p) == crate::catalog::keep_where(
                cv.take(i as int),
                p,
            ).push(pre.last()));
            assert(crate::catalog::keep_where(pre, p).map_values(f) =~= crate::catalog::keep_where(
                cv.take(i as int),
                p,
            ).map_values(f).push(f(pre.last())));
        }
        i += 1;
    }
    assert(cv.take(i as int) =~= cv);
    let ghost all = crate::catalog::keep_where(cv, p);
    let ghost full = pair_views(out@);
    assert(full == all.map_values(f));
    assert(all.len() == out.len());
    if out.len() > CAT_PAGE {
        out.truncate(CAT_PAGE);
        assert(pair_views(out@) =~= full.take(CAT_PAGE as int));
        assert(all.take(CAT_PAGE as int).map_values(f) =~= full.take(CAT_PAGE as int));
    }
    out
}

/// The sidebar rows as computed for `tab`.
fn sidebar_rows_exec(bundle: &crate::catalog::PlaylistBundle, tab: Tab, q: &str) -> (r: Vec<
    (String, String),
>)
    ensures
        pair_views(r@) == sidebar_rows(bundle@, tab, q@),
{
    match tab {
        Tab::Live => {
            let cs = matching_pairs(&bundle.categories, crate::catalog::ContentKind::Live, q, true);
            if cs.len() == 0 {
                let mut names = bundle.group_names();
                let ghost gv = names@.map_values(|g: String| g@);
                if names.len() > CAT_PAGE {
                    names.truncate(CAT_PAGE);
                }
                let ghost kept = names@.map_values(|g: String| g@);
                assert(kept =~= first_page(gv));
                let mut out: Vec<(String, String)> = Vec::new();
                let mut j: usize = 0;
                while j < names.len()
                    invariant
                        j <= names.len(),
                        kept == names@.map_values(|g: String| g@),
                        pair_views(out@) == kept.take(j as int).map_values(
                            |n: Seq<char>| (n, n),
                        ),
                    decreases names.len() - j,
                {
                    let ghost before = pair_views(out@);
                    out.push((names[j].clone(), names[j].clone()));
                    assert(kept.take(j + 1) =~= kept.take(j as int).push(names@[j as int]@));
                    assert(pair_views(out@) =~= before.push((names@[j as int]@, names@[j as int]@)));
                    assert(kept.take(j + 1).map_values(|n: Seq<char>| (n, n)) =~= kept.take(
                        j as int,
                    ).map_values(|n: Seq<char>| (n, n)).push((names@[j as int]@, names@[j as int]@)));
                    j += 1;
                }
                assert(kept.take(j as int) =~= kept);
                proof {
                    let cs_spec = cats_matching(
                        bundle@.categories,
                        crate::catalog::ContentKind::Live,
                        q@,
                    );
                    assert(pair_views(cs@).len() == 0);
                    if cs_spec.len() > 0 {
                        assert(first_page(cs_spec).len() > 0);
                    }
                }
                out
            } else {
                proof {
                    let cs_spec = cats_matching(
                        bundle@.categories,
                        crate::catalog::ContentKind::Live,
                        q@,
                    );
                    assert(pair_views(cs@).len() > 0);
                    if cs_spec.len() == 0 {
                        assert(first_page(cs_spec).len() == 0);
                    }
                }
                cs
            }
        },
        Tab::Vod => matching_pairs(&bundle.categories, crate::catalog::ContentKind::Vod, q, false),
        Tab::Series => matching_pairs(
            &bundle.categories,
            crate::catalog::ContentKind::Series,
            q,
            false,
        ),
        _ => {
            let out: Vec<(String, String)> = Vec::new();
            assert(pair_views(out@) =~= seq![]);
            out
        },
    }
}

fn opt_text_eq(sel: Option<&str>, s: &String) -> (r: bool)
    ensures
        r == (crate::art::str_view(sel) == Some(s@)),
{
    match sel {
        Some(x) => {
            let xs = x.to_string();
            crate::gpu::str_eq(&xs, s)
        },
        None => false,
    }
}

fn all_selected_exec(sel: Option<&str>) -> (r: bool)
    ensures
        r == all_selected(crate::art::str_view(sel)),
{
    match sel {
        None => true,
        Some(x) => {
            let c = chars_of(x);
            assert(seq!['*'] =~= ['*']@);
            chars_eq(c.as_slice(), &['*'])
        },
    }
}

/// The category sidebar of `tab`, filtered by `cat_filter`, with the
/// selected live group, VOD category and series category marked.
pub fn category_entries(
    bundle: &crate::catalog::PlaylistBundle,
    tab: Tab,
    cat_filter: &str,
    selected_group: Option<&str>,
    selected_vod: Option<&str>,
    selected_series: Option<&str>,
) -> (r: Vec<CatEntry>)
    ensures
        cat_entry_views(r@) == sidebar_of(
            bundle@,
            tab,
            cat_filter@,
            crate::art::str_view(selected_group),
            crate::art::str_view(selected_vod),
            crate::art::str_view(selected_series),
        ),
{
    let rows = sidebar_rows_exec(bundle, tab, cat_filter);
    let ghost rv = pair_views(rows@);
    let mut out: Vec<CatEntry> = Vec::new();
    let (label, active, count, sel): (&str, bool, usize, Option<&str>) = match tab {
        Tab::Live => ("Toutes", selected_group.is_none(), bundle.channels.len(), selected_group),
        Tab::Vod => ("All", all_selected_exec(selected_vod), bundle.vod.len(), selected_vod),
        Tab::Series => ("All", all_selected_exec(selected_series), bundle.series.len(), selected_series),
        _ => {
            assert(cat_entry_views(out@) =~= seq![]);
            return out;
        },
    };
    let star = chars_of("*");
    let lc = chars_of(label);
    out.push((string_of(star.as_slice()), string_of(lc.as_slice()), active, count));
    let by_name = tab == Tab::Live;
    let ghost selv = crate::art::str_view(sel);
    let ghost g = |r: (Seq<char>, Seq<char>)|
        (r.0, r.1, selv == Some(if by_name {
            r.1
        } else {
            r.0
        }), 0usize);
    let mut j: usize = 0;
    while j < rows.len()
        invariant
            j <= rows.len(),
            rv == pair_views(rows@),
            selv == crate::art::str_view(sel),
            g == (|r: (Seq<char>, Seq<char>)|
                (r.0, r.1, selv == Some(if by_name {
                    r.1
                } else {
                    r.0
                }), 0usize)),
            cat_entry_views(out@) == seq![(star@, lc@, active, count)] + rv.take(j as int).map_values(g),
        decreases rows.len() - j,
    {
        let ghost before = cat_entry_views(out@);
        let r = &rows[j];
        let on = if by_name {
            opt_text_eq(sel, &r.1)
        } else {
            opt_text_eq(sel, &r.0)
        };
        out.push((r.0.clone(), r.1.clone(), on, 0));
        assert(cat_entry_views(out@) =~= before.push((rows@[j as int].0@, rows@[j as int].1@, on, 0usize)));
        assert(rv.take(j + 1) =~= rv.take(j as int).push(rv[j as int]));
        assert(rv.take(j + 1).map_values(g) =~= rv.take(j as int).map_values(g).push(g(rv[j as int])));
        j += 1;
    }
    assert(rv.take(j as int) =~= rv);
    proof {
        reveal_strlit("*");
        reveal_strlit("Toutes");
        reveal_strlit("All");
    }
    assert(cat_entry_views(out@) =~= sidebar_of(
        bundle@,
        tab,
        cat_filter@,
        crate::art::str_view(selected_group),
        crate::art::str_view(selected_vod),
        crate::art::str_view(selected_series),
    ));
    out
}

/// Catalog positions of the items satisfying `p`, in order.
pub open spec fn positions_where<A>(s: Seq<A>, p: spec_fn(A) -> bool) -> Seq<usize>
    decreases s.len(),
{
    if s.len() == 0 {
        seq![]
    } else {
        let r = positions_where(s.drop_last(), p);
        if p(s.last()) {
            r.push((s.len() - 1) as usize)
        } else {
            r
        }
    }
}

/// The favourite channels' positions (ids listed in `favorites`).
pub open spec fn favorite_positions(chs: Seq<crate::catalog::ChannelView>, favorites: Set<Seq<char>>) -> Seq<
    usize,
> {
    positions_where(chs, |c: crate::catalog::ChannelView| favorites.contains(c.id))
}

pub open spec fn live_positions(chs: Seq<crate::catalog::ChannelView>) -> Seq<usize> {
    positions_where(
        chs,
        |c: crate::catalog::ChannelView| c.kind == crate::catalog::ContentKind::Live,
    )
}

/// The favourites tab: the channels whose id is among `favorites`.
pub fn favorites_index(channels: &Vec<crate::catalog::Channel>, favorites: &Vec<String>) -> (r:
    BrowseIndex)
    ensures
        r.positions() == favorite_positions(
            crate::catalog::channel_views(channels@),
            favorites@.map_values(|f: String| f@).to_set(),
        ),
{
    let ghost cv = crate::catalog::channel_views(channels@);
    let ghost fav = favorites@.map_values(|f: String| f@).to_set();
    let ghost p = |c: crate::catalog::ChannelView| fav.contains(c.id);
    let mut set = StringHashSet::new();
    let mut k: usize = 0;
    while k < favorites.len()
        invariant
            k <= favorites.len(),
            forall|x: Seq<char>|
                set@.contains(x) <==> exists|j: int| 0 <= j < k && (#[trigger] favorites@[j])@ == x,
        decreases favorites.len() - k,
    {
        set.insert(favorites[k].clone());
        assert forall|x: Seq<char>|
            set@.contains(x) <==> exists|j: int| 0 <= j < k + 1 && (#[trigger] favorites@[j])@ == x by {
            if x == favorites@[k as int]@ {
                assert(favorites@[k as int]@ == x);
            }
        }
        k += 1;
    }
    assert forall|x: Seq<char>| set@.contains(x) <==> fav.contains(x) by {
        if set@.contains(x) {
            let j = choose|j: int| 0 <= j < k && (#[trigger] favorites@[j])@ == x;
            assert(favorites@.map_values(|f: String| f@)[j] == x);
        }
        if fav.contains(x) {
            let fv = favorites@.map_values(|f: String| f@);
            assert(fv.contains(x));
            let j = choose|j: int| 0 <= j < fv.len() && #[trigger] fv[j] == x;
            assert((favorites@[j])@ == x);
        }
    }
    let mut out: Vec<usize> = Vec::new();
    let mut i: usize = 0;
    while i < channels.len()
        invariant
            i <= channels.len(),
            cv == crate::catalog::channel_views(channels@),
            p == (|c: crate::catalog::ChannelView| fav.contains(c.id)),
            forall|x: Seq<char>| set@.contains(x) <==> fav.contains(x),
            out@ == positions_where(cv.take(i as int), p),
        decreases channels.len() - i,
    {
        let ghost pre = cv.take(i + 1);
        assert(pre.drop_last() =~= cv.take(i as int));
        assert(pre.last() == channels@[i as int]@);
        if set.contains(channels[i].id.as_str()) {
            out.push(i);
        }
        i += 1;
    }
    assert(cv.take(i as int) =~= cv);
    BrowseIndex::mapped(out)
}

/// The index of a tab that needs no search: with an empty query and "all"
/// selected, VOD and series show the whole catalog, live shows every live
/// channel; none when a filtered build is needed.
pub open spec fn quick_positions(
    b: crate::catalog::BundleView,
    tab: Tab,
    q: Seq<char>,
    group: Option<Seq<char>>,
    vod_cat: Option<Seq<char>>,
    series_cat: Option<Seq<char>>,
) -> Option<Seq<usize>> {
    if crate::text::trim(q).len() > 0 {
        None
    } else {
        match tab {
            Tab::Vod => if category_filter(vod_cat) is None {
                Some(Seq::new(b.vod.len(), |i: int| i as usize))
            } else {
                None
            },
            Tab::Series => if category_filter(series_cat) is None {
                Some(Seq::new(b.series.len(), |i: int| i as usize))
            } else {
                None
            },
            Tab::Live => if group_is_any(group) {
                Some(live_positions(b.channels))
            } else {
                None
            },
            _ => None,
        }
    }
}

proof fn lemma_all_kept<A>(s: Seq<A>, p: spec_fn(A) -> bool)
    requires
        forall|k: int| 0 <= k < s.len() ==> p(#[trigger] s[k]),
    ensures
        positions_where(s, p) == Seq::new(s.len(), |i: int| i as usize),
    decreases s.len(),
{
    if s.len() > 0 {
        lemma_all_kept(s.drop_last(), p);
        assert(Seq::new(s.len(), |i: int| i as usize) =~= Seq::new(
            s.drop_last().len(),
            |i: int| i as usize,
        ).push((s.len() - 1) as usize));
    } else {
        assert(Seq::new(s.len(), |i: int| i as usize) =~= seq![]);
    }
}

/// The index of the tab when it needs no search (see `quick_positions`).
pub fn quick_browse_index(
    bundle: &crate::catalog::PlaylistBundle,
    tab: Tab,
    q: &str,
    group: Option<String>,
    vod_cat: Option<String>,
    series_cat: Option<String>,
) -> (r: Option<BrowseIndex>)
    ensures
        match r {
            Some(ix) => quick_positions(
                bundle@,
                tab,
                q@,
                opt_chars(group),
                opt_chars(vod_cat),
                opt_chars(series_cat),
            ) == Some(ix.positions()),
            None => quick_positions(
                bundle@,
                tab,
                q@,
                opt_chars(group),
                opt_chars(vod_cat),
                opt_chars(series_cat),
            ) is None,
        },
{
    let qc = chars_of(q);
    let qt = crate::text::trim_exec(qc.as_slice());
    if qt.len() > 0 {
        return None;
    }
    match tab {
        Tab::Vod => {
            if category_filter_exec(&vod_cat).is_none() {
                Some(BrowseIndex::identity(bundle.vod.len()))
            } else {
                None
            }
        },
        Tab::Series => {
            if category_filter_exec(&series_cat).is_none() {
                Some(BrowseIndex::identity(bundle.series.len()))
            } else {
                None
            }
        },
        Tab::Live => {
            let g = opt_chars_exec(&group);
            if !group_any_exec(&g) {
                return None;
            }
            let ghost cv = crate::catalog::channel_views(bundle.channels@);
            let ghost p = |c: crate::catalog::ChannelView| c.kind == crate::catalog::ContentKind::Live;
            let mut out: Vec<usize> = Vec::new();
            let mut all_live = true;
            let mut i: usize = 0;
            while i < bundle.channels.len()
                invariant
                    i <= bundle.channels.len(),
                    cv == crate::catalog::channel_views(bundle.channels@),
                    p == (|c: crate::catalog::ChannelView| c.kind == crate::catalog::ContentKind::Live),
                    out@ == positions_where(cv.take(i as int), p),
                    all_live == forall|k: int| 0 <= k < i ==> p(#[trigger] cv[k]),
                decreases bundle.channels.len() - i,
            {
                let ghost pre = cv.take(i + 1);
                assert(pre.drop_last() =~= cv.take(i as int));
                assert(pre.last() == bundle.channels@[i as int]@);
                assert(cv[i as int] == bundle.channels@[i as int]@);
                if bundle.channels[i].kind == crate::catalog::ContentKind::Live {
                    out.push(i);
                } else {
                    all_live = false;
                }
                i += 1;
            }
            assert(cv.take(i as int) =~= cv);
            if all_live {
                proof {
                    lemma_all_kept(cv, p);
                }
                Some(BrowseIndex::identity(bundle.channels.len()))
            } else {
                Some(BrowseIndex::mapped(out))
            }
        },
        _ => None,
    }
}

/// Live rows of the catalog for a filtered build: position, name and
/// group of each live channel.
pub open spec fn live_rows_of(chs: Seq<crate::catalog::ChannelView>) -> Seq<(usize, Seq<char>, Option<Seq<char>>)>
    decreases chs.len(),
{
    if chs.len() == 0 {
        seq![]
    } else {
        let r = live_rows_of(chs.drop_last());
        if chs.last().kind == crate::catalog::ContentKind::Live {
            r.push(((chs.len() - 1) as usize, chs.last().name, chs.last().group))
        } else {
            r
        }
    }
}

pub open spec fn live_row_views(rows: Seq<LiveRow>) -> Seq<(usize, Seq<char>, Option<Seq<char>>)> {
    rows.map_values(|r: LiveRow| (r.0, r.1@, opt_chars(r.2)))
}

/// The live rows of the catalog.
pub fn live_rows(channels: &Vec<crate::catalog::Channel>) -> (r: Vec<LiveRow>)
    ensures
        live_row_views(r@) == live_rows_of(crate::catalog::channel_views(channels@)),
{
    let ghost cv = crate::catalog::channel_views(channels@);
    let mut out: Vec<LiveRow> = Vec::new();
    let mut i: usize = 0;
    while i < channels.len()
        invariant
            i <= channels.len(),
            cv == crate::catalog::channel_views(channels@),
            live_row_views(out@) == live_rows_of(cv.take(i as int)),
        decreases channels.len() - i,
    {
        let ghost pre = cv.take(i + 1);
        assert(pre.drop_last() =~= cv.take(i as int));
        assert(pre.last() == channels@[i as int]@);
        let ghost before = live_row_views(out@);
        let c = &channels[i];
        if c.kind == crate::catalog::ContentKind::Live {
            out.push((i, c.name.clone(), crate::text::copy_opt(&c.group)));
            assert(live_row_views(out@) =~= before.push((i, c.name@, opt_chars(c.group))));
        }
        i += 1;
    }
    assert(cv.take(i as int) =~= cv);
    out
}

/// Catalog rows of VOD items for a filtered build: position, id, name and
/// category; id and name stay empty when there is no query.
pub open spec fn vod_rows_of(vs: Seq<crate::catalog::VodView>, with_names: bool) -> Seq<
    (usize, Seq<char>, Seq<char>, Option<Seq<char>>),
> {
    Seq::new(
        vs.len(),
        |i: int|
            (
                i as usize,
                if with_names {
                    vs[i].id
                } else {
                    seq![]
                },
                if with_names {
                    vs[i].name
                } else {
                    seq![]
                },
                vs[i].category_id,
            ),
    )
}

pub open spec fn series_rows_of(vs: Seq<crate::catalog::SeriesView>, with_names: bool) -> Seq<
    (usize, Seq<char>, Seq<char>, Option<Seq<char>>),
> {
    Seq::new(
        vs.len(),
        |i: int|
            (
                i as usize,
                if with_names {
                    vs[i].id
                } else {
                    seq![]
                },
                if with_names {
                    vs[i].name
                } else {
                    seq![]
                },
                vs[i].category_id,
            ),
    )
}

pub open spec fn catalog_row_views(rows: Seq<CatalogRow>) -> Seq<(usize, Seq<char>, Seq<char>, Option<Seq<char>>)> {
    rows.map_values(|r: CatalogRow| (r.0, r.1@, r.2@, opt_chars(r.3)))
}

fn row_text(with_names: bool, s: &String) -> (r: String)
    ensures
        r@ == (if with_names {
            s@
        } else {
            seq![]
        }),
{
    if with_names {
        s.clone()
    } else {
        String::new()
    }
}

/// The VOD rows of the catalog (names only when there is a query).
pub fn vod_rows(vod: &Vec<crate::catalog::VodItem>, with_names: bool) -> (r: Vec<CatalogRow>)
    ensures
        catalog_row_views(r@) == vod_rows_of(crate::catalog::vod_views(vod@), with_names),
{
    let ghost vv = crate::catalog::vod_views(vod@);
    let mut out: Vec<CatalogRow> = Vec::new();
    let mut i: usize = 0;
    while i < vod.len()
        invariant
            i <= vod.len(),
            vv == crate::catalog::vod_views(vod@),
            catalog_row_views(out@) == vod_rows_of(vv, with_names).take(i as int),
        decreases vod.len() - i,
    {
        let v = &vod[i];
        let ghost before = catalog_row_views(out@);
        assert(vv[i as int] == v@);
        let cat = crate::text::copy_opt(&v.category_id);
        assert(opt_chars(cat) == opt_chars(v.category_id));
        let row = (i, row_text(with_names, &v.id), row_text(with_names, &v.name), cat);
        assert((row.0, row.1@, row.2@, opt_chars(row.3)) == vod_rows_of(vv, with_names)[i as int]);
        out.push(row);
        assert(catalog_row_views(out@) =~= before.push(vod_rows_of(vv, with_names)[i as int]));
        assert(vod_rows_of(vv, with_names).take(i + 1) =~= vod_rows_of(vv, with_names).take(i as int).push(
            vod_rows_of(vv, with_names)[i as int],
        ));
        i += 1;
    }
    assert(vod_rows_of(vv, with_names).take(i as int) =~= vod_rows_of(vv, with_names));
    out
}

/// The series rows of the catalog (names only when there is a query).
pub fn series_rows(series: &Vec<crate::catalog::SeriesItem>, with_names: bool) -> (r: Vec<CatalogRow>)
    ensures
        catalog_row_views(r@) == series_rows_of(crate::catalog::series_views(series@), with_names),
{
    let ghost vv = crate::catalog::series_views(series@);
    let mut out: Vec<CatalogRow> = Vec::new();
    let mut i: usize = 0;
    while i < series.len()
        invariant
            i <= series.len(),
            vv == crate::catalog::series_views(series@),
            catalog_row_views(out@) == series_rows_of(vv, with_names).take(i as int),
        decreases series.len() - i,
    {
        let v = &series[i];
        let ghost before = catalog_row_views(out@);
        assert(vv[i as int] == v@);
        let cat = crate::text::copy_opt(&v.category_id);
        assert(opt_chars(cat) == opt_chars(v.category_id));
        let row = (i, row_text(with_names, &v.id), row_text(with_names, &v.name), cat);
        assert((row.0, row.1@, row.2@, opt_chars(row.3)) == series_rows_of(vv, with_names)[i as int]);
        out.push(row);
        assert(catalog_row_views(out@) =~= before.push(series_rows_of(vv, with_names)[i as int]));
        assert(series_rows_of(vv, with_names).take(i + 1) =~= series_rows_of(vv, with_names).take(i as int).push(
            series_rows_of(vv, with_names)[i as int],
        ));
        i += 1;
    }
    assert(series_rows_of(vv, with_names).take(i as int) =~= series_rows_of(vv, with_names));
    out
}

/// The first of two optional texts that is present.
pub open spec fn or_text(a: Option<Seq<char>>, b: Option<Seq<char>>) -> Option<Seq<char>> {
    if a is Some {
        a
    } else {
        b
    }
}

/// The artwork of catalog item `i` as shown in `tab`: a channel's logo (or
/// its playlist logo), a film's poster, a series' cover or banner; none
/// under an open detail page or out of range.
pub open spec fn art_at(
    b: crate::catalog::BundleView,
    tab: Tab,
    i: int,
    vod_open: bool,
    series_open: bool,
) -> Option<Seq<char>> {
    match tab {
        Tab::Live | Tab::Favorites => if 0 <= i < b.channels.len() {
            crate::art::art_pick(
                or_text(b.channels[i].logo, b.channels[i].tvg_logo),
                None,
                None,
                None,
            )
        } else {
            None
        },
        Tab::Vod => if !vod_open && 0 <= i < b.vod.len() {
            crate::art::art_pick(None, b.vod[i].poster, None, None)
        } else {
            None
        },
        Tab::Series => if !series_open && 0 <= i < b.series.len() {
            crate::art::art_pick(None, None, b.series[i].cover, b.series[i].banner)
        } else {
            None
        },
        _ => None,
    }
}

fn as_str_opt(o: &Option<String>) -> (r: Option<&str>)
    ensures
        crate::art::str_view(r) == opt_chars(*o),
{
    match o {
        Some(s) => Some(s.as_str()),
        None => None,
    }
}

/// The artwork URL of browse position `pos`.
pub fn art_url_for_browse_pos(
    bundle: &crate::catalog::PlaylistBundle,
    index: &BrowseIndex,
    tab: Tab,
    pos: usize,
    vod_open: bool,
    series_open: bool,
) -> (r: Option<String>)
    ensures
        crate::text::opt_view(r) == (if pos < index.positions().len() {
            art_at(bundle@, tab, index.positions()[pos as int] as int, vod_open, series_open)
        } else {
            None
        }),
{
    let i = match index.get(pos) {
        Some(i) => i,
        None => {
            return None;
        },
    };
    match tab {
        Tab::Live | Tab::Favorites => {
            if i >= bundle.channels.len() {
                return None;
            }
            let c = &bundle.channels[i];
            assert(bundle@.channels[i as int] == c@);
            let logo = match as_str_opt(&c.logo) {
                Some(l) => Some(l),
                None => as_str_opt(&c.tvg_logo),
            };
            crate::art::pick_art(logo, None, None, None)
        },
        Tab::Vod => {
            if vod_open || i >= bundle.vod.len() {
                return None;
            }
            let v = &bundle.vod[i];
            assert(bundle@.vod[i as int] == v@);
            crate::art::pick_art(None, as_str_opt(&v.poster), None, None)
        },
        Tab::Series => {
            if series_open || i >= bundle.series.len() {
                return None;
            }
            let v = &bundle.series[i];
            assert(bundle@.series[i as int] == v@);
            crate::art::pick_art(None, None, as_str_opt(&v.cover), as_str_opt(&v.banner))
        },
        _ => None,
    }
}

/// The profile of the item at browse position `pos` (under the same rules
/// as its artwork).
pub open spec fn source_at(
    b: crate::catalog::BundleView,
    tab: Tab,
    i: int,
    vod_open: bool,
    series_open: bool,
) -> Option<u128> {
    match tab {
        Tab::Live | Tab::Favorites => if 0 <= i < b.channels.len() {
            b.channels[i].source_id
        } else {
            None
        },
        Tab::Vod => if !vod_open && 0 <= i < b.vod.len() {
            b.vod[i].source_id
        } else {
            None
        },
        Tab::Series => if !series_open && 0 <= i < b.series.len() {
            b.series[i].source_id
        } else {
            None
        },
        _ => None,
    }
}

/// The profile whose image cache holds the artwork of browse position `pos`.
pub fn art_source_at(
    bundle: &crate::catalog::PlaylistBundle,
    index: &BrowseIndex,
    tab: Tab,
    pos: usize,
    vod_open: bool,
    series_open: bool,
) -> (r: Option<u128>)
    ensures
        r == (if pos < index.positions().len() {
            source_at(bundle@, tab, index.positions()[pos as int] as int, vod_open, series_open)
        } else {
            None
        }),
{
    let i = match index.get(pos) {
        Some(i) => i,
        None => {
            return None;
        },
    };
    match tab {
        Tab::Live | Tab::Favorites => {
            if i >= bundle.channels.len() {
                return None;
            }
            assert(bundle@.channels[i as int] == bundle.channels@[i as int]@);
            bundle.channels[i].source_id
        },
        Tab::Vod => {
            if vod_open || i >= bundle.vod.len() {
                return None;
            }
            assert(bundle@.vod[i as int] == bundle.vod@[i as int]@);
            bundle.vod[i].source_id
        },
        Tab::Series => {
            if series_open || i >= bundle.series.len() {
                return None;
            }
            assert(bundle@.series[i as int] == bundle.series@[i as int]@);
            bundle.series[i].source_id
        },
        _ => None,
    }
}

} // verus!
