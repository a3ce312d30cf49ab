//! IPTV sources: the profile list rules (duplicate portals, the built-in
//! demo) and how an endpoint is shown.

use vstd::prelude::*;

use crate::text::{
    bytes_prefix, chars_of, dec_chars, contains_chars, copy_opt, has_sub, is_char_boundary, opt_view,
    push_all, starts_with, starts_with_chars, string_of, trim, trim_exec, utf8_len,
};

verus! {

#[derive(Debug, Clone, Copy, PartialEq, Eq, Structural)]
pub enum SourceKind {
    M3u,
    M3uPlus,
    Xtream,
    Stalker,
    Xmltv,
    DirectUrl,
}

/// One IPTV profile.
pub struct MediaSource {
    pub id: u128,
    pub name: String,
    pub kind: SourceKind,
    pub endpoint: String,
    pub enabled: bool,
    pub username: Option<String>,
    pub password: Option<String>,
    /// MAC address of a Stalker portal profile.
    pub mac: Option<String>,
    /// Programme guide URL.
    pub epg_url: Option<String>,
}

pub struct SourceView {
    pub id: u128,
    pub name: Seq<char>,
    pub kind: SourceKind,
    pub endpoint: Seq<char>,
    pub enabled: bool,
    pub username: Option<Seq<char>>,
    pub password: Option<Seq<char>>,
    pub mac: Option<Seq<char>>,
    pub epg_url: Option<Seq<char>>,
}

impl View for MediaSource {
    type V = SourceView;

    open spec fn view(&self) -> SourceView {
        SourceView {
            id: self.id,
            name: self.name@,
            kind: self.kind,
            endpoint: self.endpoint@,
            enabled: self.enabled,
            username: opt_view(self.username),
            password: opt_view(self.password),
            mac: opt_view(self.mac),
            epg_url: opt_view(self.epg_url),
        }
    }
}

impl Clone for MediaSource {
    fn clone(&self) -> (r: Self)
        ensures
            r@ == self@,
    {
        MediaSource {
            id: self.id,
            name: self.name.clone(),
            kind: self.kind,
            endpoint: self.endpoint.clone(),
            enabled: self.enabled,
            username: copy_opt(&self.username),
            password: copy_opt(&self.password),
            mac: copy_opt(&self.mac),
            epg_url: copy_opt(&self.epg_url),
        }
    }
}

impl MediaSource {
    /// A new enabled profile without credentials; `id` is freshly drawn by the caller.
    pub fn new(id: u128, name: &str, kind: SourceKind, endpoint: &str) -> (r: Self)
        ensures
            r@ == (SourceView {
                id,
                name: name@,
                kind,
                endpoint: endpoint@,
                enabled: true,
                username: None,
                password: None,
                mac: None,
                epg_url: None,
            }),
    {
        let n = chars_of(name);
        let e = chars_of(endpoint);
        MediaSource {
            id,
            name: string_of(n.as_slice()),
            kind,
            endpoint: string_of(e.as_slice()),
            enabled: true,
            username: None,
            password: None,
            mac: None,
            epg_url: None,
        }
    }
}

pub open spec fn source_views(s: Seq<MediaSource>) -> Seq<SourceView> {
    s.map_values(|x: MediaSource| x@)
}

/// A playlist-style source (M3U, M3U+ or direct URL).
pub open spec fn is_playlist_kind(k: SourceKind) -> bool {
    k == SourceKind::M3u || k == SourceKind::M3uPlus || k == SourceKind::DirectUrl
}

/// Account key of an Xtream source: `user NUL password`.
pub open spec fn cred_key(s: SourceView) -> Option<Seq<char>> {
    match (s.username, s.password) {
        (Some(u), Some(p)) => Some(u + seq!['\0'] + p),
        _ => None,
    }
}

pub open spec fn any_xtream_enabled(ss: Seq<SourceView>) -> bool {
    exists|j: int| 0 <= j < ss.len() && (#[trigger] ss[j]).kind == SourceKind::Xtream && ss[j].enabled
}

/// An enabled Xtream source before `i` uses the same account.
pub open spec fn account_seen_before(ss: Seq<SourceView>, i: int) -> bool {
    exists|j: int|
        0 <= j < i && (#[trigger] ss[j]).kind == SourceKind::Xtream && ss[j].enabled && cred_key(
            ss[j],
        ) is Some && cred_key(ss[j]) == cred_key(ss[i])
}

/// Whether source `i` stays enabled: playlist links to an Xtream panel
/// (`get.php`) are dropped when a real Xtream source is enabled, and of
/// several Xtream sources with the same account only the first stays.
pub open spec fn stays_enabled(ss: Seq<SourceView>, i: int) -> bool {
    let s = ss[i];
    if !s.enabled {
        false
    } else if any_xtream_enabled(ss) && is_playlist_kind(s.kind) && has_sub(s.endpoint, "get.php"@) {
        false
    } else if s.kind == SourceKind::Xtream && cred_key(s) is Some && account_seen_before(ss, i) {
        false
    } else {
        true
    }
}

pub open spec fn sanitized(ss: Seq<SourceView>) -> Seq<SourceView> {
    Seq::new(ss.len(), |i: int| SourceView { enabled: stays_enabled(ss, i), ..ss[i] })
}

fn cred_key_exec(s: &MediaSource) -> (r: Option<String>)
    ensures
        opt_view(r) == cred_key(s@),
{
    match (&s.username, &s.password) {
        (Some(u), Some(p)) => {
            let mut k = chars_of(u.as_str());
            k.push('\0');
            let pc = chars_of(p.as_str());
            push_all(&mut k, pc.as_slice());
            assert(k@ =~= u@ + seq!['\0'] + p@);
            Some(string_of(k.as_slice()))
        },
        _ => None,
    }
}

/// Disables playlist duplicates of Xtream panels and repeated Xtream accounts.
pub fn sanitize_sources(sources: &mut Vec<MediaSource>)
    ensures
        source_views(final(sources)@) == sanitized(source_views(old(sources)@)),
{
    let ghost ss = source_views(sources@);
    let mut has_xtream = false;
    let mut i: usize = 0;
    while i < sources.len()
        invariant
            i <= sources.len(),
            ss == source_views(sources@),
            has_xtream == exists|j: int|
                0 <= j < i && (#[trigger] ss[j]).kind == SourceKind::Xtream && ss[j].enabled,
        decreases sources.len() - i,
    {
        assert(ss[i as int] == sources@[i as int]@);
        if sources[i].kind == SourceKind::Xtream && sources[i].enabled {
            has_xtream = true;
        }
        i += 1;
    }
    assert(has_xtream == any_xtream_enabled(ss));
    let get_php = chars_of("get.php");
    let mut seen = vstd::hash_set::StringHashSet::new();
    let mut out: Vec<MediaSource> = Vec::new();
    let mut i: usize = 0;
    while i < sources.len()
        invariant
            i <= sources.len(),
            ss == source_views(sources@),
            has_xtream == any_xtream_enabled(ss),
            get_php@ == "get.php"@,
            out.len() == i,
            forall|t: int|
                0 <= t < i ==> (#[trigger] out@[t])@ == (SourceView {
                    enabled: stays_enabled(ss, t),
                    ..ss[t]
                }),
            forall|k: Seq<char>|
                seen@.contains(k) <==> exists|j: int|
                    0 <= j < i && (#[trigger] ss[j]).kind == SourceKind::Xtream && ss[j].enabled
                        && cred_key(ss[j]) == Some(k),
        decreases sources.len() - i,
    {
        assert(ss[i as int] == sources@[i as int]@);
        let s = &sources[i];
        let mut enabled = s.enabled;
        let ep = chars_of(s.endpoint.as_str());
        let playlist = s.kind == SourceKind::M3u || s.kind == SourceKind::M3uPlus || s.kind
            == SourceKind::DirectUrl;
        if enabled && has_xtream && playlist && contains_chars(ep.as_slice(), get_php.as_slice()) {
            enabled = false;
        }
        if s.kind == SourceKind::Xtream && s.enabled {
            match cred_key_exec(s) {
                Some(key) => {
                    let fresh = seen.insert(key);
                    if !fresh {
                        enabled = false;
                    }
                },
                None => {},
            }
        }
        proof {
            let si = ss[i as int];
            if si.kind == SourceKind::Xtream && si.enabled && cred_key(si) is Some {
                let k = cred_key(si)->0;
                if account_seen_before(ss, i as int) {
                    let j = choose|j: int|
                        0 <= j < i && (#[trigger] ss[j]).kind == SourceKind::Xtream && ss[j].enabled
                            && cred_key(ss[j]) is Some && cred_key(ss[j]) == cred_key(ss[i as int]);
                    assert(cred_key(ss[j]) == Some(k));
                }
            }
        }
        let mut c = s.clone();
        c.enabled = enabled;
        out.push(c);
        assert forall|k: Seq<char>|
            seen@.contains(k) <==> exists|j: int|
                0 <= j < i + 1 && (#[trigger] ss[j]).kind == SourceKind::Xtream && ss[j].enabled
                    && cred_key(ss[j]) == Some(k) by {
            if exists|j: int|
                0 <= j < i + 1 && (#[trigger] ss[j]).kind == SourceKind::Xtream && ss[j].enabled
                    && cred_key(ss[j]) == Some(k) {
                let j = choose|j: int|
                    0 <= j < i + 1 && (#[trigger] ss[j]).kind == SourceKind::Xtream && ss[j].enabled
                        && cred_key(ss[j]) == Some(k);
                if j < i {
                    assert(exists|j2: int|
                        0 <= j2 < i && (#[trigger] ss[j2]).kind == SourceKind::Xtream
                            && ss[j2].enabled && cred_key(ss[j2]) == Some(k));
                }
            }
        }
        i += 1;
    }
    assert(source_views(out@) =~= sanitized(ss));
    *sources = out;
}

/// Name of the built-in demo profile.
pub const DEMO_NAME: &'static str = "Démo FluxPlay";

/// The demo profile with the given id.
pub open spec fn demo_view(id: u128) -> SourceView {
    SourceView {
        id,
        name: DEMO_NAME@,
        kind: SourceKind::M3uPlus,
        endpoint: "https://iptv-org.github.io/iptv/categories/news.m3u"@,
        enabled: true,
        username: None,
        password: None,
        mac: None,
        epg_url: None,
    }
}

/// The built-in public demo profile (free-to-air news playlist), used when
/// the user has no saved profile.
pub fn demo_source(id: u128) -> (r: MediaSource)
    ensures
        r@ == demo_view(id),
{
    let mut src = MediaSource::new(
        id,
        DEMO_NAME,
        SourceKind::M3uPlus,
        "https://iptv-org.github.io/iptv/categories/news.m3u",
    );
    src.enabled = true;
    src
}

pub open spec fn demo_catalog() -> Seq<(Seq<char>, Seq<char>)> {
    seq![
        ("Démo · News (iptv-org)"@, "https://iptv-org.github.io/iptv/categories/news.m3u"@),
        ("Démo · France (iptv-org)"@, "https://iptv-org.github.io/iptv/countries/fr.m3u"@),
        (
            "Démo · Documentary (iptv-org)"@,
            "https://iptv-org.github.io/iptv/categories/documentary.m3u"@,
        ),
        ("Démo · HLS sample (Mux)"@, "https://test-streams.mux.dev/x36xhzz/x36xhzz.m3u8"@),
    ]
}

fn entry(name: &str, url: &str) -> (r: (String, String))
    ensures
        r.0@ == name@,
        r.1@ == url@,
{
    let n = chars_of(name);
    let u = chars_of(url);
    (string_of(n.as_slice()), string_of(u.as_slice()))
}

/// Public playlists offered in Sources while still on the demo: `(name, url)`.
pub fn public_demo_catalog() -> (r: Vec<(String, String)>)
    ensures
        r@.map_values(|e: (String, String)| (e.0@, e.1@)) == demo_catalog(),
{
    let mut v: Vec<(String, String)> = Vec::new();
    v.push(entry("Démo · News (iptv-org)", "https://iptv-org.github.io/iptv/categories/news.m3u"));
    v.push(entry("Démo · France (iptv-org)", "https://iptv-org.github.io/iptv/countries/fr.m3u"));
    v.push(
        entry(
            "Démo · Documentary (iptv-org)",
            "https://iptv-org.github.io/iptv/categories/documentary.m3u",
        ),
    );
    v.push(entry("Démo · HLS sample (Mux)", "https://test-streams.mux.dev/x36xhzz/x36xhzz.m3u8"));
    assert(v@.map_values(|e: (String, String)| (e.0@, e.1@)) =~= demo_catalog());
    v
}

/// A built-in demo profile.
pub open spec fn is_demo_name(name: Seq<char>) -> bool {
    name == DEMO_NAME@ || starts_with(name, "Démo ·"@)
}

/// Whether a profile is one of the built-in demo entries.
pub fn is_demo(src: &MediaSource) -> (r: bool)
    ensures
        r == is_demo_name(src@.name),
{
    let n = chars_of(src.name.as_str());
    let d = chars_of(DEMO_NAME);
    let p = chars_of("Démo ·");
    crate::text::chars_eq(n.as_slice(), d.as_slice()) || starts_with_chars(n.as_slice(), p.as_slice())
}

/// The demo entries are dropped as soon as one real profile exists.
pub open spec fn demo_stripped(ss: Seq<SourceView>) -> Seq<SourceView> {
    if exists|j: int| 0 <= j < ss.len() && !is_demo_name((#[trigger] ss[j]).name) {
        crate::catalog::keep_where(ss, |s: SourceView| !is_demo_name(s.name))
    } else {
        ss
    }
}

/// Drops the built-in demo entries whenever a real profile exists.
pub fn strip_demo_if_real(sources: &mut Vec<MediaSource>)
    ensures
        source_views(final(sources)@) == demo_stripped(source_views(old(sources)@)),
{
    let ghost ss = source_views(sources@);
    let mut has_real = false;
    let mut i: usize = 0;
    while i < sources.len()
        invariant
            i <= sources.len(),
            ss == source_views(sources@),
            has_real == exists|j: int| 0 <= j < i && !is_demo_name((#[trigger] ss[j]).name),
        decreases sources.len() - i,
    {
        assert(ss[i as int] == sources@[i as int]@);
        if !is_demo(&sources[i]) {
            has_real = true;
        }
        i += 1;
    }
    if !has_real {
        return;
    }
    let ghost p = |s: SourceView| !is_demo_name(s.name);
    let mut out: Vec<MediaSource> = Vec::new();
    let mut i: usize = 0;
    while i < sources.len()
        invariant
            i <= sources.len(),
            ss == source_views(sources@),
            p == (|s: SourceView| !is_demo_name(s.name)),
            source_views(out@) == crate::catalog::keep_where(ss.take(i as int), p),
        decreases sources.len() - i,
    {
        let ghost pre = ss.take(i + 1);
        assert(pre.drop_last() =~= ss.take(i as int));
        assert(pre.last() == sources@[i as int]@);
        let ghost before = source_views(out@);
        if !is_demo(&sources[i]) {
            out.push(sources[i].clone());
            assert(source_views(out@) =~= before.push(sources@[i as int]@));
        }
        i += 1;
    }
    assert(ss.take(i as int) =~= ss);
    *sources = out;
}

/// A form field given only when not empty.
pub open spec fn given(s: Seq<char>) -> Option<Seq<char>> {
    if s.len() == 0 {
        None
    } else {
        Some(s)
    }
}

/// A new profile from the add form: name and endpoint are required (after
/// trimming), and an Xtream profile needs a user name and a password too.
pub open spec fn form_source(
    id: u128,
    name: Seq<char>,
    kind: SourceKind,
    endpoint: Seq<char>,
    user: Seq<char>,
    pass: Seq<char>,
    mac: Seq<char>,
    epg: Seq<char>,
) -> Result<SourceView, Seq<char>> {
    if trim(name).len() == 0 || trim(endpoint).len() == 0 {
        Err("Nom et endpoint requis"@)
    } else if kind == SourceKind::Xtream && (trim(user).len() == 0 || trim(pass).len() == 0) {
        Err("Xtream : identifiant et mot de passe requis"@)
    } else {
        Ok(
            SourceView {
                id,
                name: trim(name),
                kind,
                endpoint: trim(endpoint),
                enabled: true,
                username: given(user),
                password: given(pass),
                mac: given(mac),
                epg_url: given(epg),
            },
        )
    }
}

fn given_exec(s: &str) -> (r: Option<String>)
    ensures
        opt_view(r) == given(s@),
{
    let c = chars_of(s);
    if c.len() == 0 {
        None
    } else {
        Some(string_of(c.as_slice()))
    }
}

/// Builds the profile of the add form (`id` is freshly drawn by the
/// caller), or the message shown when a required field is missing.
pub fn source_from_form(
    id: u128,
    name: &str,
    kind: SourceKind,
    endpoint: &str,
    user: &str,
    pass: &str,
    mac: &str,
    epg: &str,
) -> (r: Result<MediaSource, String>)
    ensures
        match r {
            Ok(m) => form_source(id, name@, kind, endpoint@, user@, pass@, mac@, epg@) == Ok::<
                SourceView,
                Seq<char>,
            >(m@),
            Err(e) => form_source(id, name@, kind, endpoint@, user@, pass@, mac@, epg@) == Err::<
                SourceView,
                Seq<char>,
            >(e@),
        },
{
    let n = chars_of(name);
    let nt = trim_exec(n.as_slice());
    let e = chars_of(endpoint);
    let et = trim_exec(e.as_slice());
    if nt.len() == 0 || et.len() == 0 {
        let m = chars_of("Nom et endpoint requis");
        return Err(string_of(m.as_slice()));
    }
    if kind == SourceKind::Xtream {
        let u = chars_of(user);
        let ut = trim_exec(u.as_slice());
        let p = chars_of(pass);
        let pt = trim_exec(p.as_slice());
        if ut.len() == 0 || pt.len() == 0 {
            let m = chars_of("Xtream : identifiant et mot de passe requis");
            return Err(string_of(m.as_slice()));
        }
    }
    let ns = string_of(nt.as_slice());
    let es = string_of(et.as_slice());
    let mut src = MediaSource::new(id, ns.as_str(), kind, es.as_str());
    src.username = given_exec(user);
    src.password = given_exec(pass);
    src.mac = given_exec(mac);
    src.epg_url = given_exec(epg);
    Ok(src)
}

/// A public playlist of the demo catalog added as a profile: name and URL
/// trimmed, an enabled M3U+ profile.
pub fn public_demo_profile(id: u128, name: &str, endpoint: &str) -> (r: MediaSource)
    ensures
        r@ == (SourceView {
            id,
            name: trim(name@),
            kind: SourceKind::M3uPlus,
            endpoint: trim(endpoint@),
            enabled: true,
            username: None,
            password: None,
            mac: None,
            epg_url: None,
        }),
{
    let n = chars_of(name);
    let nt = string_of(trim_exec(n.as_slice()).as_slice());
    let e = chars_of(endpoint);
    let et = string_of(trim_exec(e.as_slice()).as_slice());
    MediaSource::new(id, nt.as_str(), SourceKind::M3uPlus, et.as_str())
}

/// The profiles the window starts with: the saved ones sanitized, the demo
/// entries dropped when a real profile exists, and the demo profile
/// (`demo_id`, freshly drawn by the caller) when nothing is left.
pub open spec fn boot_list(ss: Seq<SourceView>, demo_id: u128) -> Seq<SourceView> {
    let kept = demo_stripped(sanitized(ss));
    if kept.len() == 0 {
        seq![demo_view(demo_id)]
    } else {
        kept
    }
}

/// Prepares the saved profiles for a start of the window.
pub fn prepare_boot_sources(sources: &mut Vec<MediaSource>, demo_id: u128)
    ensures
        source_views(final(sources)@) == boot_list(source_views(old(sources)@), demo_id),
{
    sanitize_sources(sources);
    strip_demo_if_real(sources);
    if sources.len() == 0 {
        let d = demo_source(demo_id);
        sources.push(d);
        assert(source_views(sources@) =~= seq![demo_view(demo_id)]);
    }
}

/// At least one profile is not a built-in demo.
pub open spec fn has_real_source(ss: Seq<SourceView>) -> bool {
    exists|j: int| 0 <= j < ss.len() && !is_demo_name((#[trigger] ss[j]).name)
}

/// `"<lead><ch> live · <vod> VOD · <ser> séries<tail>"`.
pub open spec fn counts_line(lead: Seq<char>, ch: nat, vod: nat, ser: nat, tail: Seq<char>) -> Seq<
    char,
> {
    lead + dec_chars(ch) + " live · "@ + dec_chars(vod) + " VOD · "@ + dec_chars(ser) + " séries"@
        + tail
}

/// The status line at start, from the catalogue counts of the local
/// database and whether its last sync is recent.
pub open spec fn boot_status_text(
    has_real: bool,
    sync_fresh: bool,
    ch: nat,
    vod: nat,
    ser: nat,
) -> Seq<char> {
    if has_real && sync_fresh {
        counts_line("Chargement cache · "@, ch, vod, ser, "…"@)
    } else if has_real && ch + vod + ser > 0 {
        counts_line("DB locale · "@, ch, vod, ser, " — sync…"@)
    } else if has_real {
        "Synchronisation catalogue (live / VOD / séries)…"@
    } else {
        "Démo FluxPlay (ajoutez une source Xtream)"@
    }
}

fn counts_line_exec(lead: &str, ch: u64, vod: u64, ser: u64, tail: &str) -> (r: String)
    ensures
        r@ == counts_line(lead@, ch as nat, vod as nat, ser as nat, tail@),
{
    let mut out: Vec<char> = Vec::new();
    let l = chars_of(lead);
    push_all(&mut out, l.as_slice());
    crate::text::push_decimal(&mut out, ch);
    let a = chars_of(" live · ");
    push_all(&mut out, a.as_slice());
    crate::text::push_decimal(&mut out, vod);
    let b = chars_of(" VOD · ");
    push_all(&mut out, b.as_slice());
    crate::text::push_decimal(&mut out, ser);
    let c = chars_of(" séries");
    push_all(&mut out, c.as_slice());
    let t = chars_of(tail);
    push_all(&mut out, t.as_slice());
    assert(out@ =~= counts_line(lead@, ch as nat, vod as nat, ser as nat, tail@));
    string_of(out.as_slice())
}

/// The status line shown when the window opens: catalogue counts read from
/// the local database, a sync notice, or the demo hint when every profile
/// is a built-in demo.
pub fn boot_status(sources: &Vec<MediaSource>, sync_fresh: bool, ch: u64, vod: u64, ser: u64) -> (r:
    String)
    ensures
        r@ == boot_status_text(
            has_real_source(source_views(sources@)),
            sync_fresh,
            ch as nat,
            vod as nat,
            ser as nat,
        ),
{
    let ghost ss = source_views(sources@);
    let mut has_real = false;
    let mut i: usize = 0;
    while i < sources.len()
        invariant
            i <= sources.len(),
            ss == source_views(sources@),
            has_real == exists|j: int| 0 <= j < i && !is_demo_name((#[trigger] ss[j]).name),
        decreases sources.len() - i,
    {
        assert(ss[i as int] == sources@[i as int]@);
        if !is_demo(&sources[i]) {
            has_real = true;
        }
        i += 1;
    }
    if has_real && sync_fresh {
        counts_line_exec("Chargement cache · ", ch, vod, ser, "…")
    } else if has_real && (ch > 0 || vod > 0 || ser > 0) {
        counts_line_exec("DB locale · ", ch, vod, ser, " — sync…")
    } else if has_real {
        let m = chars_of("Synchronisation catalogue (live / VOD / séries)…");
        string_of(m.as_slice())
    } else {
        let m = chars_of("Démo FluxPlay (ajoutez une source Xtream)");
        string_of(m.as_slice())
    }
}

/// Endpoint as shown in the profile list: long ones cut to 64 bytes with
/// `…`, inline playlists named, others as they are.
pub open spec fn redacted(endpoint: Seq<char>) -> Seq<char> {
    if utf8_len(endpoint) > 64 {
        bytes_prefix(endpoint, 64) + seq!['…']
    } else if has_sub(endpoint, "#EXTM3U"@) {
        "playlist inline"@
    } else {
        endpoint
    }
}

/// How an endpoint is shown; a long one must have a character boundary at byte 64.
pub fn redact_endpoint(endpoint: &str) -> (r: String)
    requires
        utf8_len(endpoint@) > 64 ==> is_char_boundary(endpoint@, 64),
    ensures
        r@ == redacted(endpoint@),
{
    let e = chars_of(endpoint);
    if crate::text::utf8_len_exceeds(e.as_slice(), 64) {
        let mut out = crate::text::bytes_prefix_exec(e.as_slice(), 64);
        out.push('…');
        string_of(out.as_slice())
    } else {
        let m = chars_of("#EXTM3U");
        if contains_chars(e.as_slice(), m.as_slice()) {
            let p = chars_of("playlist inline");
            string_of(p.as_slice())
        } else {
            string_of(e.as_slice())
        }
    }
}

} // verus!
