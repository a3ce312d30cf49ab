//! Artwork URLs (which ones are worth fetching, their canonical form) and
//! the rules of the image cache: soft failures, host circuit breaker,
//! in-flight cap and recency eviction.

use vstd::prelude::*;

use crate::display::{first_piece, trim_char};
use crate::text::{
    ascii_lower, chars_of, contains_chars, ends_with, first_index, first_occurrence, has_sub,
    opt_view, push_all, starts_with, starts_with_chars, string_of, trim, trim_exec,
};

verus! {

/// The body is an HTML page rather than an image.
pub open spec fn html_body(bytes: Seq<u8>) -> bool {
    (bytes.len() >= 1 && bytes[0] == 0x3cu8) || (bytes.len() >= 9 && bytes.take(9)
        == seq![0x3cu8, 0x21, 0x44, 0x4f, 0x43, 0x54, 0x59, 0x50, 0x45]) || (bytes.len() >= 9
        && bytes.take(9) == seq![0x3cu8, 0x21, 0x64, 0x6f, 0x63, 0x74, 0x79, 0x70, 0x65])
}

fn bytes_start_with(b: &[u8], p: &[u8]) -> (r: bool)
    ensures
        r == (p@.len() <= b@.len() && b@.take(p@.len() as int) == p@),
{
    if p.len() > b.len() {
        return false;
    }
    let mut i: usize = 0;
    while i < p.len()
        invariant
            i <= p.len() <= b.len(),
            forall|k: int| 0 <= k < i ==> b@[k] == p@[k],
        decreases p.len() - i,
    {
        if b[i] != p[i] {
            assert(b@.take(p@.len() as int)[i as int] != p@[i as int]);
            return false;
        }
        i += 1;
    }
    assert(b@.take(p@.len() as int) =~= p@);
    true
}

/// Whether fetched bytes are an HTML page (`<`, `<!DOCTYPE`, `<!doctype`).
pub fn looks_like_html(bytes: &[u8]) -> (r: bool)
    ensures
        r == html_body(bytes@),
{
    let a = bytes_start_with(bytes, &[0x3cu8]);
    let b = bytes_start_with(bytes, &[0x3cu8, 0x21, 0x44, 0x4f, 0x43, 0x54, 0x59, 0x50, 0x45]);
    let c = bytes_start_with(bytes, &[0x3cu8, 0x21, 0x64, 0x6f, 0x63, 0x74, 0x79, 0x70, 0x65]);
    proof {
        if a {
            assert(bytes@.take(1)[0] == bytes@[0]);
        }
        if bytes@.len() >= 1 && bytes@[0] == 0x3cu8 {
            assert(bytes@.take(1) =~= seq![0x3cu8]);
        }
    }
    assert([0x3cu8]@ =~= seq![0x3cu8]);
    assert([0x3cu8, 0x21, 0x44, 0x4f, 0x43, 0x54, 0x59, 0x50, 0x45]@ =~= seq![
        0x3cu8,
        0x21,
        0x44,
        0x4f,
        0x43,
        0x54,
        0x59,
        0x50,
        0x45,
    ]);
    assert([0x3cu8, 0x21, 0x64, 0x6f, 0x63, 0x74, 0x79, 0x70, 0x65]@ =~= seq![
        0x3cu8,
        0x21,
        0x64,
        0x6f,
        0x63,
        0x74,
        0x79,
        0x70,
        0x65,
    ]);
    a || b || c
}

/// Number of non-empty pieces of `s` split at `c`.
pub open spec fn nonempty_pieces(s: Seq<char>, c: char) -> nat
    decreases s.len(),
{
    if s.len() == 0 {
        0
    } else {
        match first_index(s, c) {
            None => 1,
            Some(j) => {
                proof {
                    crate::text::lemma_first_index_bound(s, c);
                }
                (if j > 0 {
                    1nat
                } else {
                    0nat
                }) + nonempty_pieces(s.skip(j as int + 1), c)
            },
        }
    }
}

/// The second piece of `s` split at the pattern `p` (`str::split(p).nth(1)`).
pub open spec fn second_piece(s: Seq<char>, p: Seq<char>) -> Option<Seq<char>> {
    match first_occurrence(s, p) {
        None => None,
        Some(i) => {
            let after = s.skip(i as int + p.len());
            match first_occurrence(after, p) {
                Some(j) => Some(after.take(j as int)),
                None => Some(after),
            }
        },
    }
}

/// An artwork URL worth fetching: http(s), not an SVG (no decoder), and for
/// TMDB-style `/t/p/` paths, both a size and a file segment.
pub open spec fn fetchable(url: Seq<char>) -> bool {
    let u = trim(url);
    let path = ascii_lower(first_piece(u, '?'));
    if !(starts_with(u, "http://"@) || starts_with(u, "https://"@)) {
        false
    } else if ends_with(path, ".svg"@) || has_sub(path, ".svg/"@) {
        false
    } else {
        match second_piece(u, "/t/p/"@) {
            Some(rest) => nonempty_pieces(trim_char(rest, '/'), '/') >= 2,
            None => true,
        }
    }
}

fn nonempty_pieces_exec(s: &[char], c: char) -> (r: usize)
    ensures
        r == nonempty_pieces(s@, c),
{
    let mut count: usize = 0;
    let mut pos: usize = 0;
    assert(s@.skip(0) =~= s@);
    while pos < s.len()
        invariant
            pos <= s.len(),
            count <= pos,
            nonempty_pieces(s@, c) == count + nonempty_pieces(s@.skip(pos as int), c),
        decreases s.len() - pos,
    {
        let ghost t = s@.skip(pos as int);
        proof {
            crate::text::lemma_first_index_bound(t, c);
        }
        match crate::text::find_char_from(s, c, pos) {
            None => {
                count = count + 1;
                assert(s@.skip(s.len() as int) =~= seq![]);
                pos = s.len();
            },
            Some(j) => {
                assert(t.skip((j - pos) + 1) =~= s@.skip(j + 1));
                if j > pos {
                    count = count + 1;
                }
                pos = j + 1;
            },
        }
    }
    count
}

fn second_piece_exec(s: &[char], p: &[char]) -> (r: Option<Vec<char>>)
    ensures
        match r {
            Some(v) => second_piece(s@, p@) == Some(v@),
            None => second_piece(s@, p@) is None,
        },
{
    match crate::text::find_sub(s, p) {
        None => None,
        Some(i) => {
            assert(crate::text::occurs_at(s@, p@, i as int));
            assert(i + p@.len() <= s@.len());
            assert(i + p.len() <= s.len());
            let after = crate::text::sub_chars(s, i + p.len(), s.len());
            assert(after@ =~= s@.skip(i + p@.len()));
            match crate::text::find_sub(after.as_slice(), p) {
                Some(j) => {
                    let piece = crate::text::sub_chars(after.as_slice(), 0, j);
                    assert(piece@ =~= after@.take(j as int));
                    Some(piece)
                },
                None => Some(after),
            }
        },
    }
}

/// Whether an artwork URL is worth fetching.
pub fn is_fetchable_image_url(url: &str) -> (r: bool)
    ensures
        r == fetchable(url@),
{
    let c = chars_of(url);
    let u = trim_exec(c.as_slice());
    let http = chars_of("http://");
    let https = chars_of("https://");
    if !(starts_with_chars(u.as_slice(), http.as_slice()) || starts_with_chars(
        u.as_slice(),
        https.as_slice(),
    )) {
        return false;
    }
    let head = crate::display::first_piece_exec(u.as_slice(), '?');
    let path = crate::text::to_lower(head.as_slice());
    let svg = chars_of(".svg");
    let svg_dir = chars_of(".svg/");
    if crate::text::ends_with_chars(path.as_slice(), svg.as_slice()) || contains_chars(
        path.as_slice(),
        svg_dir.as_slice(),
    ) {
        return false;
    }
    let tp = chars_of("/t/p/");
    match second_piece_exec(u.as_slice(), tp.as_slice()) {
        Some(rest) => {
            let t = crate::display::trim_char_exec(rest.as_slice(), '/');
            nonempty_pieces_exec(t.as_slice(), '/') >= 2
        },
        None => true,
    }
}

/// Runs of `/` shrunk to one (`replace("//", "/")` until none is left).
pub open spec fn collapse_slashes(s: Seq<char>) -> Seq<char>
    decreases s.len(),
{
    if s.len() < 2 {
        s
    } else if s[0] == '/' && s[1] == '/' {
        collapse_slashes(s.skip(1))
    } else {
        seq![s[0]] + collapse_slashes(s.skip(1))
    }
}

fn collapse_slashes_exec(s: &[char]) -> (r: Vec<char>)
    ensures
        r@ == collapse_slashes(s@),
{
    let mut out: Vec<char> = Vec::new();
    let mut i: usize = 0;
    assert(s@.skip(0) =~= s@);
    while i < s.len()
        invariant
            i <= s.len(),
            collapse_slashes(s@) == out@ + collapse_slashes(s@.skip(i as int)),
        decreases s.len() - i,
    {
        let ghost t = s@.skip(i as int);
        assert(t.skip(1) =~= s@.skip(i + 1));
        if i + 1 < s.len() && s[i] == '/' && s[i + 1] == '/' {
            assert(t[0] == '/' && t[1] == '/');
        } else if i + 1 < s.len() {
            let ghost before = out@;
            out.push(s[i]);
            assert(out@ + collapse_slashes(s@.skip(i + 1)) =~= before + (seq![t[0]]
                + collapse_slashes(t.skip(1))));
        } else {
            let ghost before = out@;
            out.push(s[i]);
            assert(t.len() == 1);
            assert(s@.skip(i + 1) =~= seq![]);
            assert(out@ + collapse_slashes(s@.skip(i + 1)) =~= before + t);
        }
        i += 1;
    }
    assert(s@.skip(i as int) =~= seq![]);
    assert(out@ + seq![] =~= out@);
    out
}

/// The trimmed URL with the runs of `/` after the scheme collapsed.
pub open spec fn collapsed_url(url: Seq<char>) -> Seq<char> {
    let u = trim(url);
    match first_occurrence(u, "://"@) {
        Some(i) => u.take(i as int) + "://"@ + collapse_slashes(u.skip(i as int + 3)),
        None => u,
    }
}

/// Collapses doubled slashes in the path of an artwork URL.
pub fn collapse_image_url(url: &str) -> (r: String)
    ensures
        r@ == collapsed_url(url@),
{
    let c = chars_of(url);
    let u = trim_exec(c.as_slice());
    let sep = chars_of("://");
    proof {
        reveal_strlit("://");
    }
    match crate::text::find_sub(u.as_slice(), sep.as_slice()) {
        Some(i) => {
            assert(crate::text::occurs_at(u@, sep@, i as int));
            assert(i + sep@.len() <= u@.len());
            assert(i + 3 <= u.len());
            let mut out = crate::text::sub_chars(u.as_slice(), 0, i);
            push_all(&mut out, sep.as_slice());
            let rest = crate::text::sub_chars(u.as_slice(), i + 3, u.len());
            let col = collapse_slashes_exec(rest.as_slice());
            push_all(&mut out, col.as_slice());
            assert(rest@ =~= u@.skip(i + 3));
            assert(out@ =~= u@.take(i as int) + "://"@ + collapse_slashes(u@.skip(i + 3)));
            string_of(out.as_slice())
        },
        None => string_of(u.as_slice()),
    }
}

/// Name for the serialization of `url::Url::parse(s)` (`None` when it fails).
pub uninterp spec fn url_reserialized(s: Seq<char>) -> Option<Seq<char>>;

/// `url::Url::parse(s)` and `Url::as_str`: the canonical, percent-encoded
/// form, or `None` when the text does not parse. A function of the text alone.
#[verifier::external_body]
fn reserialize_url(s: &str) -> (r: Option<String>)
    ensures
        opt_view(r) == url_reserialized(s@),
{
    match url::Url::parse(s) {
        Ok(u) => Some(u.as_str().to_string()),
        Err(_) => None,
    }
}

/// Canonical form of a collapsed URL: the parser's serialization, or the
/// collapsed text itself when it does not parse.
pub open spec fn normalized_url(url: Seq<char>) -> Seq<char> {
    match url_reserialized(collapsed_url(url)) {
        Some(s) => s,
        None => collapsed_url(url),
    }
}

/// The canonical form of an artwork URL.
pub fn normalize_image_url(url: &str) -> (r: String)
    ensures
        r@ == normalized_url(url@),
{
    let collapsed = collapse_image_url(url);
    match reserialize_url(collapsed.as_str()) {
        Some(s) => s,
        None => collapsed,
    }
}

/// The first candidate (logo, poster, cover, banner) whose trimmed URL is
/// worth fetching.
pub open spec fn first_art(cands: Seq<Option<Seq<char>>>) -> Option<Seq<char>>
    decreases cands.len(),
{
    if cands.len() == 0 {
        None
    } else {
        match cands[0] {
            Some(u) => if fetchable(trim(u)) {
                Some(trim(u))
            } else {
                first_art(cands.skip(1))
            },
            None => first_art(cands.skip(1)),
        }
    }
}

pub open spec fn str_view(o: Option<&str>) -> Option<Seq<char>> {
    match o {
        Some(s) => Some(s@),
        None => None,
    }
}

fn art_candidate(o: Option<&str>) -> (r: Option<String>)
    ensures
        match str_view(o) {
            Some(u) => if fetchable(trim(u)) {
                opt_view(r) == Some(trim(u))
            } else {
                r is None
            },
            None => r is None,
        },
{
    match o {
        Some(u) => {
            let c = chars_of(u);
            let t = trim_exec(c.as_slice());
            let ts = string_of(t.as_slice());
            if is_fetchable_image_url(ts.as_str()) {
                Some(ts)
            } else {
                None
            }
        },
        None => None,
    }
}

/// The first fetchable of logo, poster, cover and banner, in canonical form.
pub open spec fn art_pick(
    logo: Option<Seq<char>>,
    poster: Option<Seq<char>>,
    cover: Option<Seq<char>>,
    banner: Option<Seq<char>>,
) -> Option<Seq<char>> {
    match first_art(seq![logo, poster, cover, banner]) {
        Some(u) => Some(normalized_url(u)),
        None => None,
    }
}

/// The artwork to show: the first fetchable of logo, poster, cover and
/// banner, in canonical form.
pub fn pick_art(
    logo: Option<&str>,
    poster: Option<&str>,
    cover: Option<&str>,
    banner: Option<&str>,
) -> (r: Option<String>)
    ensures
        opt_view(r) == art_pick(str_view(logo), str_view(poster), str_view(cover), str_view(banner)),
{
    let ghost cands = seq![str_view(logo), str_view(poster), str_view(cover), str_view(banner)];
    assert(cands.skip(1) =~= seq![str_view(poster), str_view(cover), str_view(banner)]);
    assert(cands.skip(1).skip(1) =~= seq![str_view(cover), str_view(banner)]);
    assert(cands.skip(1).skip(1).skip(1) =~= seq![str_view(banner)]);
    assert(cands.skip(1).skip(1).skip(1).skip(1) =~= seq![]);
    proof {
        reveal_with_fuel(first_art, 5);
    }
    let found = match art_candidate(logo) {
        Some(u) => Some(u),
        None => match art_candidate(poster) {
            Some(u) => Some(u),
            None => match art_candidate(cover) {
                Some(u) => Some(u),
                None => art_candidate(banner),
            },
        },
    };
    match found {
        Some(u) => Some(normalize_image_url(u.as_str())),
        None => None,
    }
}


/// Key of an image URL in the disk cache: the SHA-256 of its UTF-8 bytes,
/// in lower-case hex.
pub open spec fn url_hash_of(url: Seq<char>) -> Seq<char> {
    crate::catalog::hex_of(crate::catalog::sha256_of(crate::catalog::enc(url)))
}

/// The disk cache key of an image URL.
pub fn image_url_hash(url: &str) -> (r: String)
    ensures
        r@ == url_hash_of(url@),
{
    let mut bytes: Vec<u8> = Vec::new();
    crate::catalog::push_enc(&mut bytes, url);
    assert(bytes@ =~= crate::catalog::enc(url@));
    let digest = crate::catalog::sha256_digest(bytes.as_slice());
    crate::catalog::hex_encode(digest.as_slice())
}

/// File name of the on-disk copy of an image: its key, then `.img`.
pub open spec fn disk_file_name(url: Seq<char>) -> Seq<char> {
    url_hash_of(url) + ".img"@
}

/// Disk copies to drop in a profile holding `count` of them, to get back
/// to `max_files` (the least recently used go first).
pub fn images_over_cap(count: u64, max_files: u64) -> (r: u64)
    ensures
        r == (if count > max_files {
            count - max_files
        } else {
            0
        }),
{
    if count > max_files {
        count - max_files
    } else {
        0
    }
}

/// Path of the on-disk copy of the image at `url` inside `images_dir` (the
/// profile's image directory, or the shared one for images of no profile).
pub fn disk_path_for_url(url: &str, images_dir: &str) -> (r: String)
    ensures
        r@ == crate::android::path_join(images_dir@, disk_file_name(url@)),
{
    let hex = image_url_hash(url);
    let mut name = chars_of(hex.as_str());
    let ext = chars_of(".img");
    push_all(&mut name, ext.as_slice());
    let name_s = string_of(name.as_slice());
    let dir = chars_of(images_dir);
    let path = crate::android::path_join_exec(dir.as_slice(), name_s.as_str());
    string_of(path.as_slice())
}

/// Largest image body accepted (bytes).
pub const MAX_IMAGE_BYTES: usize = 2500000;

/// A cached copy on disk can be used as it is: not too short, not HTML,
/// not too large.
pub open spec fn usable_copy(bytes: Seq<u8>) -> bool {
    !bad_image(bytes) && bytes.len() <= MAX_IMAGE_BYTES
}

/// Whether a copy read from disk can be served without a download.
pub fn disk_copy_usable(bytes: &[u8]) -> (r: bool)
    ensures
        r == usable_copy(bytes@),
{
    bytes.len() >= 64 && !looks_like_html(bytes) && bytes.len() <= MAX_IMAGE_BYTES
}

/// The canonical URL to download, or the URL with the reason it is refused.
pub fn image_fetch_target(url: &str) -> (r: Result<String, (String, String)>)
    ensures
        match r {
            Ok(u) => u@ == normalized_url(url@) && fetchable(u@),
            Err(e) => e.0@ == normalized_url(url@) && !fetchable(e.0@) && e.1@
                == "invalid image url"@,
        },
{
    let u = normalize_image_url(url);
    if !is_fetchable_image_url(u.as_str()) {
        let why = chars_of("invalid image url");
        return Err((u, string_of(why.as_slice())));
    }
    Ok(u)
}

/// Through the tunnel's SOCKS proxy, a connection-level failure is retried
/// in clear only when that is explicitly allowed.
pub fn clearnet_image_fallback(via_socks: bool, connect_like: bool, allow_clearnet: bool) -> (r: bool)
    ensures
        r == (via_socks && connect_like && allow_clearnet),
{
    via_socks && connect_like && allow_clearnet
}

/// What happened in a download attempt.
pub enum FetchEvent {
    /// The request could not be sent (after the clear fallback, if any).
    SendFailed,
    /// The server answered with this status.
    Status(u16),
    /// The body could not be read.
    BodyFailed,
    /// The body was read.
    Body { len: usize, html: bool },
}

/// What the download does next.
#[derive(Debug, Clone, Copy, PartialEq, Eq, Structural)]
pub enum FetchAction {
    /// Success status: read the body.
    ReadBody,
    /// 408 or 429 on the first attempt: pause, then try once more.
    RetryAfterPause,
    /// Give up with the last error seen.
    GiveUp,
    /// Any other status fails the URL; `warn_host` unless it is a 4xx.
    RejectStatus { warn_host: bool },
    /// The body exceeds `MAX_IMAGE_BYTES`.
    TooLarge,
    /// The body is an HTML page.
    HtmlBody,
    /// Store the body on disk and hand it over.
    Store,
}

pub open spec fn fetch_action(attempt: u8, ev: FetchEvent) -> FetchAction {
    match ev {
        FetchEvent::SendFailed => FetchAction::GiveUp,
        FetchEvent::Status(s) => if 200 <= s < 300 {
            FetchAction::ReadBody
        } else if s == 408 || s == 429 {
            if attempt == 0 {
                FetchAction::RetryAfterPause
            } else {
                FetchAction::GiveUp
            }
        } else {
            FetchAction::RejectStatus { warn_host: !(400 <= s < 500) }
        },
        FetchEvent::BodyFailed => FetchAction::GiveUp,
        FetchEvent::Body { len, html } => if len > MAX_IMAGE_BYTES {
            FetchAction::TooLarge
        } else if html {
            FetchAction::HtmlBody
        } else {
            FetchAction::Store
        },
    }
}

/// The next step of a download after `ev` in attempt `attempt` (0 or 1).
pub fn image_fetch_step(attempt: u8, ev: FetchEvent) -> (r: FetchAction)
    ensures
        r == fetch_action(attempt, ev),
{
    match ev {
        FetchEvent::SendFailed => FetchAction::GiveUp,
        FetchEvent::Status(s) => {
            if 200 <= s && s < 300 {
                FetchAction::ReadBody
            } else if s == 408 || s == 429 {
                if attempt == 0 {
                    FetchAction::RetryAfterPause
                } else {
                    FetchAction::GiveUp
                }
            } else {
                FetchAction::RejectStatus { warn_host: !(400 <= s && s < 500) }
            }
        },
        FetchEvent::BodyFailed => FetchAction::GiveUp,
        FetchEvent::Body { len, html } => {
            if len > MAX_IMAGE_BYTES {
                FetchAction::TooLarge
            } else if html {
                FetchAction::HtmlBody
            } else {
                FetchAction::Store
            }
        },
    }
}

/// Name for the host and port of `url::Url::parse(s)` (`None` when the text
/// does not parse or has no host).
pub uninterp spec fn url_host_port(s: Seq<char>) -> Option<(Seq<char>, Option<u16>)>;

/// `url::Url::parse(s)` then `Url::host_str` and `Url::port`: a function of
/// the text alone.
#[verifier::external_body]
fn parse_host_port(s: &str) -> (r: Option<(String, Option<u16>)>)
    ensures
        match r {
            Some(hp) => url_host_port(s@) == Some((hp.0@, hp.1)),
            None => url_host_port(s@) is None,
        },
{
    let u = match url::Url::parse(s) {
        Ok(u) => u,
        Err(_) => return None,
    };
    match u.host_str() {
        Some(h) => Some((h.to_string(), u.port())),
        None => None,
    }
}

/// The circuit-breaker key of a URL: `host` or `host:port`.
pub open spec fn host_of(url: Seq<char>) -> Option<Seq<char>> {
    match url_host_port(url) {
        Some((h, Some(p))) => Some(h + seq![':'] + crate::text::dec_chars(p as nat)),
        Some((h, None)) => Some(h),
        None => None,
    }
}

/// The circuit-breaker key of a URL.
pub fn host_key(url: &str) -> (r: Option<String>)
    ensures
        opt_view(r) == host_of(url@),
{
    match parse_host_port(url) {
        Some((h, port)) => match port {
            Some(p) => {
                let mut out = chars_of(h.as_str());
                out.push(':');
                crate::text::push_decimal(&mut out, p as u64);
                Some(string_of(out.as_slice()))
            },
            None => Some(h),
        },
        None => None,
    }
}

/// Most image handles kept in memory: an LRU of 96 decoded images.
pub const MAX_RAM_HANDLES: usize = 96;

/// Default cap on fetches in flight.
pub const MAX_INFLIGHT_IMAGES: usize = 24;

/// Default longest decoded edge.
pub const MAX_UI_EDGE_PX: u32 = 480;

/// How long a URL rests after a transient failure (ms).
pub const URL_SOFT_FAIL_MS: u64 = 720000;

/// How long a tripped host rests (ms).
pub const HOST_COOLDOWN_MS: u64 = 1500000;

/// Consecutive transient failures that trip a host.
pub const HOST_FAIL_TRIP: u32 = 5;

/// What a request for an image URL asks of the caller.
pub enum RequestOutcome {
    /// The handle is in memory.
    Ready,
    /// A fetch is already running.
    Pending,
    /// Do not fetch (bad URL, failed, resting, or too many in flight).
    Skip,
    /// Fetch this canonical URL for this profile.
    Fetch { url: String, source_id: Option<u128> },
}

pub enum OutcomeView {
    Ready,
    Pending,
    Skip,
    Fetch { url: Seq<char>, source_id: Option<u128> },
}

pub open spec fn outcome_view(o: RequestOutcome) -> OutcomeView {
    match o {
        RequestOutcome::Ready => OutcomeView::Ready,
        RequestOutcome::Pending => OutcomeView::Pending,
        RequestOutcome::Skip => OutcomeView::Skip,
        RequestOutcome::Fetch { url, source_id } => OutcomeView::Fetch { url: url@, source_id },
    }
}

/// The image cache bookkeeping; the decoded handles themselves live with the
/// caller, keyed by URL, following `handles`.
pub struct ImageCache {
    /// URLs with a handle in memory, each once, with its recency stamp. A
    /// vector: eviction scans it for the smallest stamp, and its sequence
    /// view lets the contracts name the evicted URL exactly.
    handles: Vec<(String, u64)>,
    clock: u64,
    inflight: vstd::hash_set::StringHashSet,
    inflight_source: vstd::hash_map::StringHashMap<Option<u128>>,
    /// Permanent failures (client errors, garbage bodies).
    failed: vstd::hash_set::StringHashSet,
    /// Transient failures: URL resting until the given time.
    soft_fail: vstd::hash_map::StringHashMap<u64>,
    /// Per-host circuit: consecutive failures and cool-down end.
    host_circuit: vstd::hash_map::StringHashMap<(u32, Option<u64>)>,
    pub max_inflight: usize,
    pub decode_edge_px: u32,
}

pub struct CacheView {
    pub handles: Seq<(Seq<char>, u64)>,
    pub clock: u64,
    pub inflight: Set<Seq<char>>,
    pub sources: Map<Seq<char>, Option<u128>>,
    pub failed: Set<Seq<char>>,
    pub soft: Map<Seq<char>, u64>,
    pub hosts: Map<Seq<char>, (u32, Option<u64>)>,
    pub max_inflight: usize,
    pub decode_edge_px: u32,
}

pub open spec fn handle_views(h: Seq<(String, u64)>) -> Seq<(Seq<char>, u64)> {
    h.map_values(|e: (String, u64)| (e.0@, e.1))
}

impl View for ImageCache {
    type V = CacheView;

    closed spec fn view(&self) -> CacheView {
        CacheView {
            handles: handle_views(self.handles@),
            clock: self.clock,
            inflight: self.inflight@,
            sources: self.inflight_source@,
            failed: self.failed@,
            soft: self.soft_fail@,
            hosts: self.host_circuit@,
            max_inflight: self.max_inflight,
            decode_edge_px: self.decode_edge_px,
        }
    }
}

/// Index of `url` among the handles.
pub open spec fn handle_index(hs: Seq<(Seq<char>, u64)>, url: Seq<char>) -> Option<int> {
    if exists|i: int| 0 <= i < hs.len() && (#[trigger] hs[i]).0 == url {
        Some(choose|i: int| 0 <= i < hs.len() && (#[trigger] hs[i]).0 == url)
    } else {
        None
    }
}

/// Handles hold each URL once, and at most `MAX_RAM_HANDLES` of them.
pub open spec fn cache_wf(c: CacheView) -> bool {
    &&& c.handles.len() <= MAX_RAM_HANDLES
    &&& forall|i: int, j: int|
        0 <= i < j < c.handles.len() ==> (#[trigger] c.handles[i]).0 != (#[trigger] c.handles[j]).0
}


pub open spec fn next_stamp(x: u64) -> u64 {
    if x == u64::MAX {
        0
    } else {
        (x + 1) as u64
    }
}

/// The URL's recency stamp bumped, when it has a handle.
pub open spec fn promoted(c: CacheView, url: Seq<char>) -> CacheView {
    match handle_index(c.handles, url) {
        Some(i) => {
            let k = next_stamp(c.clock);
            CacheView { clock: k, handles: c.handles.update(i, (url, k)), ..c }
        },
        None => c,
    }
}

/// The host of the URL is resting at time `now`.
pub open spec fn host_resting(c: CacheView, url: Seq<char>, now: u64) -> bool {
    match host_of(url) {
        Some(h) => c.hosts.contains_key(h) && match c.hosts[h].1 {
            Some(until) => now < until,
            None => false,
        },
        None => false,
    }
}

/// A request for the canonical URL `u` at time `now`: the state after it
/// and what the caller is to do.
pub open spec fn request_step(c: CacheView, u: Seq<char>, src: Option<u128>, now: u64) -> (
    CacheView,
    OutcomeView,
) {
    if u.len() == 0 || !fetchable(u) || c.failed.contains(u) {
        (c, OutcomeView::Skip)
    } else if c.soft.contains_key(u) && now < c.soft[u] {
        (c, OutcomeView::Skip)
    } else {
        let c1 = if c.soft.contains_key(u) {
            CacheView { soft: c.soft.remove(u), ..c }
        } else {
            c
        };
        if host_resting(c1, u, now) {
            (c1, OutcomeView::Skip)
        } else if handle_index(c1.handles, u) is Some {
            (promoted(c1, u), OutcomeView::Ready)
        } else if c1.inflight.contains(u) {
            (c1, OutcomeView::Pending)
        } else if c1.inflight.len() >= c1.max_inflight {
            (c1, OutcomeView::Skip)
        } else {
            (
                CacheView { inflight: c1.inflight.insert(u), sources: c1.sources.insert(u, src), ..c1 },
                OutcomeView::Fetch { url: u, source_id: src },
            )
        }
    }
}

/// Index of the least recently used handle (the first of equal stamps).
pub open spec fn oldest_index(hs: Seq<(Seq<char>, u64)>) -> int
    decreases hs.len(),
{
    if hs.len() <= 1 {
        0
    } else {
        let m = oldest_index(hs.drop_last());
        if hs.last().1 < hs[m].1 {
            hs.len() - 1
        } else {
            m
        }
    }
}

/// Handles left after making room for one more, and the URLs evicted.
pub open spec fn evicted(hs: Seq<(Seq<char>, u64)>) -> (Seq<(Seq<char>, u64)>, Seq<Seq<char>>)
    decreases hs.len(),
{
    if hs.len() < MAX_RAM_HANDLES || hs.len() == 0 {
        (hs, seq![])
    } else {
        let m = oldest_index(hs);
        if 0 <= m < hs.len() {
            let (r, e) = evicted(hs.remove(m));
            (r, seq![hs[m].0] + e)
        } else {
            (hs, seq![])
        }
    }
}

/// Every entry of `new` is an entry of `old`.
pub open spec fn kept_from(kept: Seq<(Seq<char>, u64)>, orig: Seq<(Seq<char>, u64)>) -> bool {
    forall|i: int| 0 <= i < kept.len() ==> orig.contains(#[trigger] kept[i])
}

pub proof fn lemma_kept_from_self(s: Seq<(Seq<char>, u64)>)
    ensures
        kept_from(s, s),
{
    assert forall|i: int| 0 <= i < s.len() implies s.contains(#[trigger] s[i]) by {
        assert(s[i] == s[i]);
    }
}

/// The URL leaves flight (its profile is forgotten).
pub open spec fn landed(c: CacheView, url: Seq<char>) -> CacheView {
    CacheView { inflight: c.inflight.remove(url), sources: c.sources.remove(url), ..c }
}

/// Bytes too short, or HTML, are no image.
pub open spec fn bad_image(bytes: Seq<u8>) -> bool {
    bytes.len() < 64 || html_body(bytes)
}

/// Storing prepared bytes for `url`: the state after, whether the handle is
/// kept, and the URLs evicted to make room.
pub open spec fn insert_step(c: CacheView, url: Seq<char>, bytes: Seq<u8>) -> (
    CacheView,
    bool,
    Seq<Seq<char>>,
) {
    let c0 = CacheView { soft: landed(c, url).soft.remove(url), ..landed(c, url) };
    let c1 = match host_of(url) {
        Some(h) => CacheView { hosts: c0.hosts.remove(h), ..c0 },
        None => c0,
    };
    if bad_image(bytes) {
        (CacheView { failed: c1.failed.insert(url), ..c1 }, false, seq![])
    } else if handle_index(c1.handles, url) is Some {
        (promoted(c1, url), true, seq![])
    } else {
        let (kept, gone) = evicted(c1.handles);
        let k = next_stamp(c1.clock);
        (CacheView { clock: k, handles: kept.push((url, k)), ..c1 }, true, gone)
    }
}

/// A transient failure of `url` at `now`: the URL rests, and the host's
/// failure count grows unless it is already resting; at the trip count the
/// host rests too and its count restarts.
pub open spec fn soft_fail_step(c: CacheView, url: Seq<char>, now: u64) -> CacheView {
    let c0 = CacheView {
        soft: landed(c, url).soft.insert(url, (now + URL_SOFT_FAIL_MS) as u64),
        ..landed(c, url)
    };
    match host_of(url) {
        None => c0,
        Some(h) => {
            let e = if c0.hosts.contains_key(h) {
                c0.hosts[h]
            } else {
                (0u32, None::<u64>)
            };
            let resting = match e.1 {
                Some(t) => now < t,
                None => false,
            };
            if resting {
                CacheView { hosts: c0.hosts.insert(h, e), ..c0 }
            } else {
                let fails: u32 = if e.0 == u32::MAX {
                    e.0
                } else {
                    (e.0 + 1) as u32
                };
                if fails >= HOST_FAIL_TRIP {
                    CacheView {
                        hosts: c0.hosts.insert(h, (0u32, Some((now + HOST_COOLDOWN_MS) as u64))),
                        ..c0
                    }
                } else {
                    CacheView { hosts: c0.hosts.insert(h, (fails, e.1)), ..c0 }
                }
            }
        },
    }
}

impl ImageCache {
    /// Each URL held once, and at most `MAX_RAM_HANDLES` images in memory.
    pub open spec fn wf(&self) -> bool {
        cache_wf(self@)
    }

    /// An empty cache with the default caps.
    pub fn new() -> (r: Self)
        ensures
            r.wf(),
            r@.handles.len() == 0,
            r@.clock == 0,
            r@.inflight.is_empty(),
            r@.sources.is_empty(),
            r@.failed.is_empty(),
            r@.soft.is_empty(),
            r@.hosts.is_empty(),
            r@.max_inflight == MAX_INFLIGHT_IMAGES,
            r@.decode_edge_px == MAX_UI_EDGE_PX,
    {
        let r = ImageCache {
            handles: Vec::new(),
            clock: 0,
            inflight: vstd::hash_set::StringHashSet::new(),
            inflight_source: vstd::hash_map::StringHashMap::new(),
            failed: vstd::hash_set::StringHashSet::new(),
            soft_fail: vstd::hash_map::StringHashMap::new(),
            host_circuit: vstd::hash_map::StringHashMap::new(),
            max_inflight: MAX_INFLIGHT_IMAGES,
            decode_edge_px: MAX_UI_EDGE_PX,
        };
        assert(r@.handles =~= seq![]);
        r
    }

    /// The cache keeps a handle for `url`.
    pub fn get(&self, url: &str) -> (r: bool)
        requires
            self.wf(),
        ensures
            r == (handle_index(self@.handles, url@) is Some),
    {
        match self.find(url) {
            Some(_) => true,
            None => false,
        }
    }

    fn find(&self, url: &str) -> (r: Option<usize>)
        requires
            self.wf(),
        ensures
            match r {
                Some(i) => i < self.handles.len() && handle_index(self@.handles, url@) == Some(
                    i as int,
                ),
                None => handle_index(self@.handles, url@) is None,
            },
    {
        let ghost hs = handle_views(self.handles@);
        assert(hs == self@.handles);
        let mut i: usize = 0;
        while i < self.handles.len()
            invariant
                i <= self.handles.len(),
                hs == handle_views(self.handles@),
                cache_wf(self@),
                hs == self@.handles,
                forall|k: int| 0 <= k < i ==> (#[trigger] hs[k]).0 != url@,
            decreases self.handles.len() - i,
        {
            assert(hs[i as int] == (self.handles@[i as int].0@, self.handles@[i as int].1));
            if crate::gpu::str_eq(&self.handles[i].0, &url.to_string()) {
                proof {
                    let c = choose|c: int| 0 <= c < hs.len() && (#[trigger] hs[c]).0 == url@;
                    if c != i {
                        if c < i {
                        } else {
                            assert(hs[i as int].0 != hs[c].0);
                        }
                    }
                }
                return Some(i);
            }
            i += 1;
        }
        None
    }

    /// Fetches in flight.
    pub fn inflight_len(&self) -> (r: usize)
        ensures
            r == self@.inflight.len(),
    {
        self.inflight.len()
    }

    /// Marks `url` as just used.
    pub fn promote(&mut self, url: &str)
        requires
            old(self).wf(),
        ensures
            final(self).wf(),
            final(self)@ == promoted(old(self)@, url@),
    {
        match self.find(url) {
            Some(i) => {
                let k = if self.clock == u64::MAX {
                    0
                } else {
                    self.clock + 1
                };
                self.clock = k;
                let u = self.handles[i].0.clone();
                let ghost before = handle_views(self.handles@);
                self.handles.set(i, (u, k));
                assert(handle_views(self.handles@) =~= before.update(i as int, (url@, k)));
            },
            None => {},
        }
    }
}


impl ImageCache {
    /// The host of `url` is resting at time `now` (ms).
    pub fn host_blocked(&self, url: &str, now: u64) -> (r: bool)
        ensures
            r == host_resting(self@, url@, now),
    {
        match host_key(url) {
            Some(h) => match self.host_circuit.get(h.as_str()) {
                Some(e) => match e.1 {
                    Some(until) => now < until,
                    None => false,
                },
                None => false,
            },
            None => false,
        }
    }

    /// Asks for the image at `url` (canonicalized first) for profile
    /// `source_id` at time `now` (ms).
    pub fn request(&mut self, url: &str, source_id: Option<u128>, now: u64) -> (r: RequestOutcome)
        requires
            old(self).wf(),
        ensures
            final(self).wf(),
            (final(self)@, outcome_view(r)) == request_step(
                old(self)@,
                normalized_url(url@),
                source_id,
                now,
            ),
    {
        let u = normalize_image_url(url);
        let us = u.as_str();
        if u.as_str().is_empty() || !is_fetchable_image_url(us) || self.failed.contains(us) {
            return RequestOutcome::Skip;
        }
        match self.soft_fail.get(us) {
            Some(until) => {
                if now < *until {
                    return RequestOutcome::Skip;
                }
                self.soft_fail.remove(us);
            },
            None => {},
        }
        if self.host_blocked(us, now) {
            return RequestOutcome::Skip;
        }
        match self.find(us) {
            Some(_) => {
                self.promote(us);
                return RequestOutcome::Ready;
            },
            None => {},
        }
        if self.inflight.contains(us) {
            return RequestOutcome::Pending;
        }
        if self.inflight.len() >= self.max_inflight {
            return RequestOutcome::Skip;
        }
        self.inflight.insert(u.clone());
        self.inflight_source.insert(u.clone(), source_id);
        RequestOutcome::Fetch { url: u, source_id }
    }

    /// The profile that asked for `url`, forgotten from now on.
    pub fn take_inflight_source(&mut self, url: &str) -> (r: Option<u128>)
        ensures
            final(self)@ == (CacheView { sources: old(self)@.sources.remove(url@), ..old(self)@ }),
            r == (if old(self)@.sources.contains_key(url@) {
                old(self)@.sources[url@]
            } else {
                None
            }),
    {
        let r = match self.inflight_source.get(url) {
            Some(s) => *s,
            None => None,
        };
        self.inflight_source.remove(url);
        r
    }

    fn land(&mut self, url: &str)
        ensures
            final(self)@ == landed(old(self)@, url@),
            final(self).handles == old(self).handles,
    {
        self.inflight.remove(url);
        self.inflight_source.remove(url);
    }

    /// Raw fetched bytes for `url`: the URL lands; bytes that are no image
    /// mark it failed (returns `false`), others are to be prepared and
    /// stored with `insert_ui_bytes` (returns `true`).
    pub fn insert_bytes(&mut self, url: &str, bytes: &[u8]) -> (r: bool)
        requires
            old(self).wf(),
        ensures
            final(self).wf(),
            r == !bad_image(bytes@),
            final(self)@ == ({
                let c0 = CacheView {
                    soft: landed(old(self)@, url@).soft.remove(url@),
                    ..landed(old(self)@, url@)
                };
                if bad_image(bytes@) {
                    CacheView { failed: c0.failed.insert(url@), ..c0 }
                } else {
                    c0
                }
            }),
    {
        self.land(url);
        self.soft_fail.remove(url);
        if bytes.len() < 64 || looks_like_html(bytes) {
            self.failed.insert(url.to_string());
            return false;
        }
        true
    }

    fn oldest(&self) -> (r: usize)
        requires
            self.handles.len() > 0,
        ensures
            r == oldest_index(self@.handles),
            r < self.handles.len(),
    {
        let ghost hs = handle_views(self.handles@);
        assert(hs == self@.handles);
        let mut best: usize = 0;
        let mut i: usize = 1;
        assert(hs.take(1).len() <= 1);
        while i < self.handles.len()
            invariant
                1 <= i <= self.handles.len(),
                hs == handle_views(self.handles@),
                best < i,
                best == oldest_index(hs.take(i as int)),
            decreases self.handles.len() - i,
        {
            let ghost pre = hs.take(i + 1);
            assert(pre.drop_last() =~= hs.take(i as int));
            assert(pre.last() == hs[i as int]);
            assert(pre[best as int] == hs[best as int]);
            assert(hs[i as int].1 == self.handles@[i as int].1);
            assert(hs[best as int].1 == self.handles@[best as int].1);
            if self.handles[i].1 < self.handles[best].1 {
                best = i;
            }
            i += 1;
        }
        assert(hs.take(i as int) =~= hs);
        best
    }

    fn evict_oldest(&mut self) -> (r: Vec<String>)
        requires
            old(self).wf(),
        ensures
            final(self).wf(),
            final(self)@.handles.len() < MAX_RAM_HANDLES,
            (final(self)@.handles, r@.map_values(|u: String| u@)) == evicted(old(self)@.handles),
            final(self)@ == (CacheView { handles: final(self)@.handles, ..old(self)@ }),
            kept_from(final(self)@.handles, old(self)@.handles),
    {
        let mut gone: Vec<String> = Vec::new();
        if self.handles.len() >= MAX_RAM_HANDLES {
            let m = self.oldest();
            let ghost hs = self@.handles;
            assert(hs == old(self)@.handles);
            let (u, _) = self.handles.remove(m);
            assert(handle_views(self.handles@) =~= hs.remove(m as int));
            assert(self@.handles.len() < MAX_RAM_HANDLES);
            assert(evicted(hs.remove(m as int)) == (hs.remove(m as int), Seq::<Seq<char>>::empty()));
            gone.push(u);
            assert(gone@.map_values(|u: String| u@) =~= seq![hs[m as int].0]);
            assert(seq![hs[m as int].0] + seq![] =~= seq![hs[m as int].0]);
            assert forall|i: int, j: int|
                0 <= i < j < self@.handles.len() implies (#[trigger] self@.handles[i]).0
                != (#[trigger] self@.handles[j]).0 by {
                let i0 = if i < m { i } else { i + 1 };
                let j0 = if j < m { j } else { j + 1 };
                assert(self@.handles[i] == hs[i0]);
                assert(self@.handles[j] == hs[j0]);
            }
            assert forall|i: int| 0 <= i < self@.handles.len() implies hs.contains(
                #[trigger] self@.handles[i],
            ) by {
                let i0 = if i < m { i } else { i + 1 };
                assert(self@.handles[i] == hs[i0]);
            }
            assert(kept_from(self@.handles, hs));
        } else {
            assert(gone@.map_values(|u: String| u@) =~= seq![]);
            assert(self@.handles == old(self)@.handles);
            proof {
                lemma_kept_from_self(self@.handles);
            }
        }
        gone
    }

    /// Stores bytes already prepared for display: the URL lands, its host
    /// circuit resets, and bytes that are no image mark it failed. Returns
    /// whether the handle is kept and the URLs whose handles were evicted.
    pub fn insert_ui_bytes(&mut self, url: &str, bytes: &[u8]) -> (r: (bool, Vec<String>))
        requires
            old(self).wf(),
        ensures
            final(self).wf(),
            (final(self)@, r.0, r.1@.map_values(|u: String| u@)) == insert_step(
                old(self)@,
                url@,
                bytes@,
            ),
    {
        self.land(url);
        self.soft_fail.remove(url);
        match host_key(url) {
            Some(h) => {
                self.host_circuit.remove(h.as_str());
            },
            None => {},
        }
        if bytes.len() < 64 || looks_like_html(bytes) {
            self.failed.insert(url.to_string());
            let v: Vec<String> = Vec::new();
            assert(v@.map_values(|u: String| u@) =~= seq![]);
            return (false, v);
        }
        match self.find(url) {
            Some(_) => {
                self.promote(url);
                let v: Vec<String> = Vec::new();
                assert(v@.map_values(|u: String| u@) =~= seq![]);
                return (true, v);
            },
            None => {},
        }
        let ghost pre_evict = self@.handles;
        assert(forall|k: int| 0 <= k < pre_evict.len() ==> (#[trigger] pre_evict[k]).0 != url@);
        let gone = self.evict_oldest();
        let k = if self.clock == u64::MAX {
            0
        } else {
            self.clock + 1
        };
        self.clock = k;
        let ghost before = self@.handles;
        self.handles.push((url.to_string(), k));
        assert(self@.handles =~= before.push((url@, k)));
        proof {
            assert forall|i: int, j: int|
                0 <= i < j < self@.handles.len() implies (#[trigger] self@.handles[i]).0
                != (#[trigger] self@.handles[j]).0 by {
                if j == before.len() {
                    assert(kept_from(before, pre_evict));
                    assert(pre_evict.contains(before[i]));
                    let k = choose|k: int| 0 <= k < pre_evict.len() && pre_evict[k] == before[i];
                    assert(pre_evict[k].0 != url@);
                    assert(self@.handles[i] == before[i]);
                }
            }
        }
        (true, gone)
    }
}


impl ImageCache {
    /// A permanent failure of `url` (client error, garbage body).
    pub fn mark_failed(&mut self, url: &str)
        requires
            old(self).wf(),
        ensures
            final(self).wf(),
            final(self)@ == ({
                let c0 = CacheView {
                    soft: landed(old(self)@, url@).soft.remove(url@),
                    ..landed(old(self)@, url@)
                };
                CacheView { failed: c0.failed.insert(url@), ..c0 }
            }),
    {
        self.land(url);
        self.soft_fail.remove(url);
        self.failed.insert(url.to_string());
    }

    /// A transient failure of `url` at time `now` (ms).
    pub fn mark_soft_failed(&mut self, url: &str, now: u64)
        requires
            old(self).wf(),
            now + HOST_COOLDOWN_MS <= u64::MAX,
        ensures
            final(self).wf(),
            final(self)@ == soft_fail_step(old(self)@, url@, now),
    {
        self.land(url);
        self.soft_fail.insert(url.to_string(), now + URL_SOFT_FAIL_MS);
        match host_key(url) {
            None => {},
            Some(h) => {
                let e: (u32, Option<u64>) = match self.host_circuit.get(h.as_str()) {
                    Some(e) => *e,
                    None => (0, None),
                };
                let resting = match e.1 {
                    Some(t) => now < t,
                    None => false,
                };
                if resting {
                    self.host_circuit.insert(h, e);
                    return;
                }
                let fails: u32 = if e.0 == u32::MAX {
                    e.0
                } else {
                    e.0 + 1
                };
                if fails >= HOST_FAIL_TRIP {
                    self.host_circuit.insert(h, (0, Some(now + HOST_COOLDOWN_MS)));
                } else {
                    self.host_circuit.insert(h, (fails, e.1));
                }
            },
        }
    }

    /// Drops `url` from flight without blacklisting it (a retry may follow).
    pub fn clear_inflight(&mut self, url: &str)
        requires
            old(self).wf(),
        ensures
            final(self).wf(),
            final(self)@ == landed(old(self)@, url@),
    {
        self.land(url);
    }

    /// Asks for each of `urls` in turn (no profile) until `room` fetches
    /// have been started; returns the fetches, in order.
    pub fn prefetch_batch(&mut self, urls: &Vec<String>, room: usize, now: u64) -> (r: Vec<
        (String, Option<u128>),
    >)
        requires
            old(self).wf(),
        ensures
            final(self).wf(),
            (final(self)@, fetch_views(r@)) == prefetch_run(old(self)@, string_views(urls@), room as nat, now),
    {
        let ghost all = string_views(urls@);
        let ghost c0 = self@;
        let mut out: Vec<(String, Option<u128>)> = Vec::new();
        let mut i: usize = 0;
        assert(all.skip(0) =~= all);
        while i < urls.len()
            invariant
                i <= urls.len(),
                all == string_views(urls@),
                self.wf(),
                out.len() <= room,
                prefetch_run(c0, all, room as nat, now) == prefix_run(
                    fetch_views(out@),
                    prefetch_run(self@, all.skip(i as int), (room - out.len()) as nat, now),
                ),
            ensures
                i >= urls.len() || out.len() >= room,
                i <= urls.len(),
                all == string_views(urls@),
                self.wf(),
                out.len() <= room,
                prefetch_run(c0, all, room as nat, now) == prefix_run(
                    fetch_views(out@),
                    prefetch_run(self@, all.skip(i as int), (room - out.len()) as nat, now),
                ),
            decreases urls.len() - i,
        {
            if out.len() >= room {
                break;
            }
            let ghost before = self@;
            let ghost fv = fetch_views(out@);
            assert(all.skip(i as int)[0] == urls@[i as int]@);
            assert(all.skip(i as int).skip(1) =~= all.skip(i + 1));
            match self.request(urls[i].as_str(), None, now) {
                RequestOutcome::Fetch { url, source_id } => {
                    out.push((url, source_id));
                    assert(fetch_views(out@) =~= fv.push((out@[out.len() - 1].0@, source_id)));
                    proof {
                        let rest = prefetch_run(self@, all.skip(i + 1), (room - out.len()) as nat, now);
                        assert(prefix_run(fv, prefix_run(seq![(out@[out.len() - 1].0@, source_id)], rest))
                            == prefix_run(fetch_views(out@), rest)) by {
                            assert(fv + (seq![(out@[out.len() - 1].0@, source_id)] + rest.1) =~= fetch_views(out@) + rest.1);
                        }
                    }
                },
                _ => {},
            }
            i += 1;
        }
        proof {
            if i >= urls.len() {
                assert(all.skip(i as int).len() == 0);
            }
            let rest = prefetch_run(self@, all.skip(i as int), (room - out.len()) as nat, now);
            assert(rest.1 =~= seq![]);
            assert(fetch_views(out@) + rest.1 =~= fetch_views(out@));
        }
        out
    }
}

pub open spec fn string_views(s: Seq<String>) -> Seq<Seq<char>> {
    s.map_values(|u: String| u@)
}

pub open spec fn fetch_views(s: Seq<(String, Option<u128>)>) -> Seq<(Seq<char>, Option<u128>)> {
    s.map_values(|f: (String, Option<u128>)| (f.0@, f.1))
}

/// A run with `done` in front of its fetches.
pub open spec fn prefix_run(
    done: Seq<(Seq<char>, Option<u128>)>,
    run: (CacheView, Seq<(Seq<char>, Option<u128>)>),
) -> (CacheView, Seq<(Seq<char>, Option<u128>)>) {
    (run.0, done + run.1)
}

/// Requests for `urls` in order while fewer than `room` fetches were
/// started: the cache after them and the fetches started.
pub open spec fn prefetch_run(c: CacheView, urls: Seq<Seq<char>>, room: nat, now: u64) -> (
    CacheView,
    Seq<(Seq<char>, Option<u128>)>,
)
    decreases urls.len(),
{
    if urls.len() == 0 || room == 0 {
        (c, seq![])
    } else {
        let step = request_step(c, normalized_url(urls[0]), None, now);
        match step.1 {
            OutcomeView::Fetch { url, source_id } => prefix_run(
                seq![(url, source_id)],
                prefetch_run(step.0, urls.skip(1), (room - 1) as nat, now),
            ),
            _ => prefetch_run(step.0, urls.skip(1), room, now),
        }
    }
}

/// Room for new fetches: free in-flight slots, at most `max`.
pub open spec fn prefetch_room(c: CacheView, max: usize) -> nat {
    let free: int = if c.max_inflight >= c.inflight.len() {
        c.max_inflight - c.inflight.len()
    } else {
        0
    };
    if free < max {
        free as nat
    } else {
        max as nat
    }
}

impl ImageCache {
    /// Free in-flight slots, at most `max`.
    pub fn prefetch_room(&self, max: usize) -> (r: usize)
        ensures
            r == prefetch_room(self@, max),
    {
        let n = self.inflight.len();
        let free = if self.max_inflight >= n {
            self.max_inflight - n
        } else {
            0
        };
        if free < max {
            free
        } else {
            max
        }
    }
}

/// The image meter total after `n` more fetches from `(done, total)`: the
/// total grows by `n`, and never falls below `done + n`.
pub fn images_total_after(done: u64, total: u64, n: u64) -> (r: u64)
    ensures
        r == ({
            let t = if total + n > u64::MAX {
                u64::MAX as int
            } else {
                total + n
            };
            let d = if done + n > u64::MAX {
                u64::MAX as int
            } else {
                done + n
            };
            if t > d {
                t
            } else {
                d
            }
        }),
{
    let t = total.saturating_add(n);
    let d = done.saturating_add(n);
    if t > d {
        t
    } else {
        d
    }
}


/// Least time between two warnings about the same host (ms).
pub const HOST_WARN_INTERVAL_MS: u64 = 90000;

/// Rate limit of per-host warnings: when each host was last warned about.
pub struct HostWarnings {
    last: vstd::hash_map::StringHashMap<u64>,
}

impl HostWarnings {
    pub closed spec fn last_warned(&self) -> Map<Seq<char>, u64> {
        self.last@
    }

    pub fn new() -> (r: Self)
        ensures
            r.last_warned().is_empty(),
    {
        HostWarnings { last: vstd::hash_map::StringHashMap::new() }
    }

    /// Whether a failure on `host` at `now` (ms) is worth a warning (else it
    /// is only a debug note): the first one, or one at least
    /// `HOST_WARN_INTERVAL_MS` after the last warning. A warning is recorded.
    pub fn warn_host_once(&mut self, host: &str, now: u64) -> (r: bool)
        ensures
            r == !(old(self).last_warned().contains_key(host@) && (if now >= old(
                self,
            ).last_warned()[host@] {
                now - old(self).last_warned()[host@]
            } else {
                0
            }) < HOST_WARN_INTERVAL_MS),
            r ==> final(self).last_warned() == old(self).last_warned().insert(host@, now),
            !r ==> final(self).last_warned() == old(self).last_warned(),
    {
        match self.last.get(host) {
            Some(prev) => {
                let elapsed = if now >= *prev {
                    now - *prev
                } else {
                    0
                };
                if elapsed < HOST_WARN_INTERVAL_MS {
                    return false;
                }
            },
            None => {},
        }
        self.last.insert(host.to_string(), now);
        true
    }
}

} // verus!
