//! The Android side of the player: which static method of the activity is
//! called with what, the small caches that keep those calls from repeating,
//! the storage-access-framework handshake, and how surface reports combine.
//! The calls themselves are made by the host through JNI.

use vstd::prelude::*;

use crate::text::{chars_of, push_all, string_of};

verus! {

/// An argument of a static JNI call.
pub enum JniArg {
    Bool(bool),
    Int(i32),
    /// An `f32`, by its bits.
    FloatBits(u32),
    Str(String),
}

pub enum ArgView {
    Bool(bool),
    Int(i32),
    FloatBits(u32),
    Str(Seq<char>),
}

pub open spec fn arg_view(a: JniArg) -> ArgView {
    match a {
        JniArg::Bool(b) => ArgView::Bool(b),
        JniArg::Int(i) => ArgView::Int(i),
        JniArg::FloatBits(f) => ArgView::FloatBits(f),
        JniArg::Str(s) => ArgView::Str(s@),
    }
}

/// A call of a static method of `FluxPlayNativeActivity`.
pub struct JniCall {
    pub method: String,
    pub signature: String,
    pub args: Vec<JniArg>,
}

pub struct CallView {
    pub method: Seq<char>,
    pub signature: Seq<char>,
    pub args: Seq<ArgView>,
}

impl View for JniCall {
    type V = CallView;

    open spec fn view(&self) -> CallView {
        CallView {
            method: self.method@,
            signature: self.signature@,
            args: self.args@.map_values(|a: JniArg| arg_view(a)),
        }
    }
}

pub open spec fn call_of(method: Seq<char>, signature: Seq<char>, args: Seq<ArgView>) -> CallView {
    CallView { method, signature, args }
}

fn text(s: &str) -> (r: String)
    ensures
        r@ == s@,
{
    let c = chars_of(s);
    string_of(c.as_slice())
}

fn make_call(method: &str, signature: &str, args: Vec<JniArg>) -> (r: JniCall)
    ensures
        r@ == call_of(method@, signature@, args@.map_values(|a: JniArg| arg_view(a))),
{
    JniCall { method: text(method), signature: text(signature), args }
}

/// A static `()Z` call (a boolean query).
pub fn call_static_bool(name: &str) -> (r: JniCall)
    ensures
        r@ == call_of(name@, "()Z"@, seq![]),
{
    let r = make_call(name, "()Z", Vec::new());
    assert(r@.args =~= seq![]);
    r
}

/// A static `()V` call.
pub fn call_static_void(name: &str) -> (r: JniCall)
    ensures
        r@ == call_of(name@, "()V"@, seq![]),
{
    let r = make_call(name, "()V", Vec::new());
    assert(r@.args =~= seq![]);
    r
}

/// A static `(Z)V` call.
pub fn call_static_void_bool(name: &str, arg: bool) -> (r: JniCall)
    ensures
        r@ == call_of(name@, "(Z)V"@, seq![ArgView::Bool(arg)]),
{
    let mut args: Vec<JniArg> = Vec::new();
    args.push(JniArg::Bool(arg));
    let r = make_call(name, "(Z)V", args);
    assert(r@.args =~= seq![ArgView::Bool(arg)]);
    r
}

/// Shows or hides the video `SurfaceView`.
pub fn set_video_surface_visible(visible: bool) -> (r: JniCall)
    ensures
        r@ == call_of("setVideoSurfaceVisible"@, "(Z)V"@, seq![ArgView::Bool(visible)]),
{
    call_static_void_bool("setVideoSurfaceVisible", visible)
}

/// Lets the video show through the window (or not).
pub fn set_window_punch_through(enable: bool) -> (r: JniCall)
    ensures
        r@ == call_of("setWindowPunchThrough"@, "(Z)V"@, seq![ArgView::Bool(enable)]),
{
    call_static_void_bool("setWindowPunchThrough", enable)
}

/// Refreshes insets, caps and the surface session after a rotation or resume.
pub fn stabilize_android_session() -> (r: JniCall)
    ensures
        r@ == call_of("stabilizeAndroidSession"@, "()V"@, seq![]),
{
    call_static_void("stabilizeAndroidSession")
}

/// Freezes the surface buffer size once the window id is acquired.
pub fn lock_video_surface_size() -> (r: JniCall)
    ensures
        r@ == call_of("lockVideoSurfaceSize"@, "()V"@, seq![]),
{
    call_static_void("lockVideoSurfaceSize")
}

/// The `()I` query behind `surface_generation`.
pub fn surface_generation_call() -> (r: JniCall)
    ensures
        r@ == call_of("getSurfaceGeneration"@, "()I"@, seq![]),
{
    let r = make_call("getSurfaceGeneration", "()I", Vec::new());
    assert(r@.args =~= seq![]);
    r
}

/// The surface generation from the query's reply: negative values and a
/// failed call read as 0.
pub fn surface_generation(reply: Option<i32>) -> (r: u32)
    ensures
        r == match reply {
            Some(v) => if v > 0 {
                v as u32
            } else {
                0
            },
            None => 0,
        },
{
    match reply {
        Some(v) => if v > 0 {
            v as u32
        } else {
            0
        },
        None => 0,
    }
}

/// Placing the video surface above or below the UI.
pub fn set_video_surface_z_on_top(on_top: bool) -> (r: JniCall)
    ensures
        r@ == call_of("setVideoSurfaceZOrderOnTop"@, "(Z)V"@, seq![ArgView::Bool(on_top)]),
{
    call_static_void_bool("setVideoSurfaceZOrderOnTop", on_top)
}

/// Forces sensor landscape while a video plays.
pub fn set_force_landscape(force: bool) -> (r: JniCall)
    ensures
        r@ == call_of("setForceLandscape"@, "(Z)V"@, seq![ArgView::Bool(force)]),
{
    call_static_void_bool("setForceLandscape", force)
}

/// The window colour mode call (`default`, `wide` or `hdr`).
pub fn set_display_color_mode(mode: &str) -> (r: JniCall)
    ensures
        r@ == call_of(
            "setDisplayColorMode"@,
            "(Ljava/lang/String;)V"@,
            seq![ArgView::Str(mode@)],
        ),
{
    let mut args: Vec<JniArg> = Vec::new();
    args.push(JniArg::Str(text(mode)));
    let r = make_call("setDisplayColorMode", "(Ljava/lang/String;)V", args);
    assert(r@.args =~= seq![ArgView::Str(mode@)]);
    r
}

/// HDR colour mode on or off.
pub fn set_hdr_color_mode(hdr: bool) -> (r: JniCall)
    ensures
        r@ == call_of(
            "setDisplayColorMode"@,
            "(Ljava/lang/String;)V"@,
            seq![
                ArgView::Str(if hdr {
                    "hdr"@
                } else {
                    "default"@
                }),
            ],
        ),
{
    set_display_color_mode(
        if hdr {
            "hdr"
        } else {
            "default"
        },
    )
}

/// The answer of a `()Z` query (`isInPip`, `isNightMode`, `isTelevision`)
/// from its reply: `None` stands for a call that could not be made or that
/// threw (no context, attach or class failure, Java exception); only a
/// successful `true` reads as true.
pub fn static_bool_reply(reply: Option<bool>) -> (r: bool)
    ensures
        r == (reply == Some(true)),
{
    match reply {
        Some(b) => b,
        None => false,
    }
}

/// Whether the activity is in picture-in-picture: the live `isInPip` query,
/// whose reply `static_bool_reply` reads.
pub fn poll_pip_mode() -> (r: JniCall)
    ensures
        r@ == call_of("isInPip"@, "()Z"@, seq![]),
{
    call_static_bool("isInPip")
}

/// Whether the system is in night mode: the `isNightMode` query, whose reply
/// `static_bool_reply` reads.
pub fn is_night_mode() -> (r: JniCall)
    ensures
        r@ == call_of("isNightMode"@, "()Z"@, seq![]),
{
    call_static_bool("isNightMode")
}

/// Whether the device is a television: the `isTelevision` query, whose
/// reply `static_bool_reply` reads.
pub fn is_television() -> (r: JniCall)
    ensures
        r@ == call_of("isTelevision"@, "()Z"@, seq![]),
{
    call_static_bool("isTelevision")
}

pub fn request_audio_focus() -> (r: JniCall)
    ensures
        r@ == call_of("requestAudioFocus"@, "()V"@, seq![]),
{
    call_static_void("requestAudioFocus")
}

pub fn abandon_audio_focus() -> (r: JniCall)
    ensures
        r@ == call_of("abandonAudioFocus"@, "()V"@, seq![]),
{
    call_static_void("abandonAudioFocus")
}

pub fn set_immersive_mode(enable: bool) -> (r: JniCall)
    ensures
        r@ == call_of("setImmersiveMode"@, "(Z)V"@, seq![ArgView::Bool(enable)]),
{
    call_static_void_bool("setImmersiveMode", enable)
}

/// Asks the activity to refresh its window insets.
pub fn refresh_system_insets() -> (r: JniCall)
    ensures
        r@ == call_of("refreshSystemInsets"@, "()V"@, seq![]),
{
    call_static_void("refreshSystemInsets")
}

pub fn finish_activity() -> (r: JniCall)
    ensures
        r@ == call_of("finishActivity"@, "()V"@, seq![]),
{
    call_static_void("finishActivity")
}

pub fn exit_pip() -> (r: JniCall)
    ensures
        r@ == call_of("exitPip"@, "()V"@, seq![]),
{
    call_static_void("exitPip")
}

/// Enters picture-in-picture with the given aspect (each side at least 1).
pub fn enter_pip(width: i32, height: i32) -> (r: JniCall)
    ensures
        r@ == call_of(
            "enterPip"@,
            "(II)V"@,
            seq![
                ArgView::Int(if width > 1 {
                    width
                } else {
                    1
                }),
                ArgView::Int(if height > 1 {
                    height
                } else {
                    1
                }),
            ],
        ),
{
    let mut args: Vec<JniArg> = Vec::new();
    args.push(JniArg::Int(
        if width > 1 {
            width
        } else {
            1
        },
    ));
    args.push(JniArg::Int(
        if height > 1 {
            height
        } else {
            1
        },
    ));
    let r = make_call("enterPip", "(II)V", args);
    assert(r@.args =~= seq![
        ArgView::Int(if width > 1 {
            width
        } else {
            1
        }),
        ArgView::Int(if height > 1 {
            height
        } else {
            1
        }),
    ]);
    r
}

/// Ends the surface session: hide the surface and drop punch-through.
pub fn release_video_surface_wid() -> (r: Vec<JniCall>)
    ensures
        r@.len() == 2,
        r@[0]@ == call_of("setVideoSurfaceVisible"@, "(Z)V"@, seq![ArgView::Bool(false)]),
        r@[1]@ == call_of("setWindowPunchThrough"@, "(Z)V"@, seq![ArgView::Bool(false)]),
{
    let mut v: Vec<JniCall> = Vec::new();
    v.push(set_video_surface_visible(false));
    v.push(set_window_punch_through(false));
    v
}


/// Video surface readiness and size as reported by the activity.
#[derive(Debug, Clone, Copy, PartialEq, Eq, Structural)]
pub struct SurfaceState {
    pub ready: bool,
    pub w: u32,
    pub h: u32,
    pub gen: u32,
}

impl Default for SurfaceState {
    fn default() -> (r: Self)
        ensures
            r == (SurfaceState { ready: false, w: 0, h: 0, gen: 0 }),
    {
        SurfaceState { ready: false, w: 0, h: 0, gen: 0 }
    }
}

/// A surface size worth presenting to: both sides at least 64 px.
pub open spec fn usable(w: u32, h: u32) -> bool {
    w >= 64 && h >= 64
}

/// The live size query's reply (`videoSurfaceSizePx`) when usable.
pub fn usable_live_size(reply: Option<(u32, u32)>) -> (r: Option<(u32, u32)>)
    ensures
        r == match reply {
            Some(wh) => if usable(wh.0, wh.1) {
                Some(wh)
            } else {
                None
            },
            None => None,
        },
{
    match reply {
        Some(wh) => if wh.0 >= 64 && wh.1 >= 64 {
            Some(wh)
        } else {
            None
        },
        None => None,
    }
}

/// The surface size: the usable live size, else that of a ready file
/// report (`surface_state.json`) with a usable size.
pub fn video_surface_size(live: Option<(u32, u32)>, file: Option<SurfaceState>) -> (r: Option<(u32, u32)>)
    ensures
        r == match usable_live_size_spec(live) {
            Some(wh) => Some(wh),
            None => match file {
                Some(st) => if st.ready && usable(st.w, st.h) {
                    Some((st.w, st.h))
                } else {
                    None
                },
                None => None,
            },
        },
{
    match usable_live_size(live) {
        Some(wh) => Some(wh),
        None => match file {
            Some(st) => if st.ready && st.w >= 64 && st.h >= 64 {
                Some((st.w, st.h))
            } else {
                None
            },
            None => None,
        },
    }
}

pub open spec fn usable_live_size_spec(reply: Option<(u32, u32)>) -> Option<(u32, u32)> {
    match reply {
        Some(wh) => if usable(wh.0, wh.1) {
            Some(wh)
        } else {
            None
        },
        None => None,
    }
}

/// The surface state from the live queries, with the file report filling
/// in when the live size is missing: its size always, its generation when
/// positive, and readiness when either says ready.
pub open spec fn merged_surface(
    live_ready: bool,
    live_gen: u32,
    live_size: Option<(u32, u32)>,
    file: Option<SurfaceState>,
) -> SurfaceState {
    match live_size {
        Some(wh) => SurfaceState { ready: live_ready, w: wh.0, h: wh.1, gen: live_gen },
        None => match file {
            Some(j) => SurfaceState {
                ready: j.ready || live_ready,
                w: j.w,
                h: j.h,
                gen: if j.gen > 0 {
                    j.gen
                } else {
                    live_gen
                },
            },
            None => SurfaceState { ready: live_ready, w: 0, h: 0, gen: live_gen },
        },
    }
}

/// Combines the live surface queries with the file report.
pub fn poll_surface_state(
    live_ready: bool,
    live_gen: u32,
    live_size: Option<(u32, u32)>,
    file: Option<SurfaceState>,
) -> (r: SurfaceState)
    ensures
        r == merged_surface(live_ready, live_gen, live_size, file),
{
    let mut st = SurfaceState { ready: live_ready, w: 0, h: 0, gen: live_gen };
    match live_size {
        Some(wh) => {
            st.w = wh.0;
            st.h = wh.1;
            return st;
        },
        None => {},
    }
    match file {
        Some(j) => {
            st.ready = j.ready || st.ready;
            st.w = j.w;
            st.h = j.h;
            if j.gen > 0 {
                st.gen = j.gen;
            }
        },
        None => {},
    }
    st
}

/// Calls to make before re-checking readiness when presenting: none when
/// the surface is already live, else drop punch-through, raise the surface
/// above the UI and show it.
pub fn prepare_surface_present(ready: bool) -> (r: Vec<JniCall>)
    ensures
        ready ==> r@.len() == 0,
        !ready ==> r@.len() == 3 && r@[0]@ == call_of(
            "setWindowPunchThrough"@,
            "(Z)V"@,
            seq![ArgView::Bool(false)],
        ) && r@[1]@ == call_of("setVideoSurfaceZOrderOnTop"@, "(Z)V"@, seq![ArgView::Bool(true)])
            && r@[2]@ == call_of("setVideoSurfaceVisible"@, "(Z)V"@, seq![ArgView::Bool(true)]),
{
    let mut v: Vec<JniCall> = Vec::new();
    if !ready {
        v.push(set_window_punch_through(false));
        v.push(set_video_surface_z_on_top(true));
        v.push(set_video_surface_visible(true));
    }
    v
}

/// The size to present at: the live size, else a ready usable polled state.
pub fn present_size(live: Option<(u32, u32)>, polled: SurfaceState) -> (r: Option<(u32, u32)>)
    ensures
        r == match live {
            Some(wh) => Some(wh),
            None => if polled.ready && usable(polled.w, polled.h) {
                Some((polled.w, polled.h))
            } else {
                None
            },
        },
{
    match live {
        Some(wh) => Some(wh),
        None => if polled.ready && polled.w >= 64 && polled.h >= 64 {
            Some((polled.w, polled.h))
        } else {
            None
        },
    }
}

/// The window id of the acquired surface: none when the query failed or
/// returned a null object (`0`).
pub fn acquire_video_surface_wid(reply: Option<i64>) -> (r: Option<i64>)
    ensures
        r == match reply {
            Some(w) => if w != 0 {
                Some(w)
            } else {
                None
            },
            None => None,
        },
{
    match reply {
        Some(w) => if w != 0 {
            Some(w)
        } else {
            None
        },
        None => None,
    }
}

/// Remembers the last keep-screen-on value sent, so that the call is only
/// made when the value changes.
pub struct KeepScreenOn {
    pub last: Option<bool>,
}

impl KeepScreenOn {
    pub fn new() -> (r: Self)
        ensures
            r.last is None,
    {
        KeepScreenOn { last: None }
    }

    /// The call to make for `enable`, if any.
    pub fn set_keep_screen_on(&mut self, enable: bool) -> (r: Option<JniCall>)
        ensures
            final(self).last == Some(enable),
            old(self).last == Some(enable) ==> r is None,
            old(self).last != Some(enable) ==> (r matches Some(c) && c@ == call_of(
                "setKeepScreenOn"@,
                "(Z)V"@,
                seq![ArgView::Bool(enable)],
            )),
    {
        let same = match self.last {
            Some(b) => b == enable,
            None => false,
        };
        self.last = Some(enable);
        if same {
            None
        } else {
            Some(call_static_void_bool("setKeepScreenOn", enable))
        }
    }
}

/// The last video geometry pushed, field by field.
#[derive(Debug, Clone, Copy, PartialEq, Eq, Structural)]
pub struct BufferSizeCache {
    pub bw: u32,
    pub bh: u32,
    pub dw: u32,
    pub dh: u32,
}

/// The cache after a push of `(bw, bh, dw, dh)`: fields are compared and
/// stored in order, and the first differing field ends the comparison
/// (the later fields keep their old values).
pub open spec fn buffer_cache_after(c: BufferSizeCache, bw: u32, bh: u32, dw: u32, dh: u32) -> BufferSizeCache {
    if c.bw != bw {
        BufferSizeCache { bw, ..c }
    } else if c.bh != bh {
        BufferSizeCache { bh, ..c }
    } else if c.dw != dw {
        BufferSizeCache { dw, ..c }
    } else {
        BufferSizeCache { dh, ..c }
    }
}

impl BufferSizeCache {
    pub fn new() -> (r: Self)
        ensures
            r == (BufferSizeCache { bw: 0, bh: 0, dw: 0, dh: 0 }),
    {
        BufferSizeCache { bw: 0, bh: 0, dw: 0, dh: 0 }
    }

    /// The `setVideoBufferSize` call for a new geometry, or none when every
    /// field equals the cached one.
    pub fn set_video_buffer_size(&mut self, bw: u32, bh: u32, dw: u32, dh: u32) -> (r: Option<JniCall>)
        ensures
            *final(self) == buffer_cache_after(*old(self), bw, bh, dw, dh),
            (old(self).bw == bw && old(self).bh == bh && old(self).dw == dw && old(self).dh == dh)
                ==> r is None,
            !(old(self).bw == bw && old(self).bh == bh && old(self).dw == dw && old(self).dh == dh)
                ==> (r matches Some(c) && c@ == call_of(
                "setVideoBufferSize"@,
                "(IIII)V"@,
                seq![
                    ArgView::Int(bw as i32),
                    ArgView::Int(bh as i32),
                    ArgView::Int(dw as i32),
                    ArgView::Int(dh as i32),
                ],
            )),
    {
        let same = if self.bw != bw {
            self.bw = bw;
            false
        } else if self.bh != bh {
            self.bh = bh;
            false
        } else if self.dw != dw {
            self.dw = dw;
            false
        } else {
            let d = self.dh == dh;
            self.dh = dh;
            d
        };
        if same {
            return None;
        }
        let mut args: Vec<JniArg> = Vec::new();
        args.push(JniArg::Int(bw as i32));
        args.push(JniArg::Int(bh as i32));
        args.push(JniArg::Int(dw as i32));
        args.push(JniArg::Int(dh as i32));
        let r = make_call("setVideoBufferSize", "(IIII)V", args);
        assert(r@.args =~= seq![
            ArgView::Int(bw as i32),
            ArgView::Int(bh as i32),
            ArgView::Int(dw as i32),
            ArgView::Int(dh as i32),
        ]);
        Some(r)
    }
}

/// The last frame rate sent, by its `f32` bits (initially 0).
pub struct FrameRateCache {
    pub last_bits: u32,
}

impl FrameRateCache {
    pub fn new() -> (r: Self)
        ensures
            r.last_bits == 0,
    {
        FrameRateCache { last_bits: 0 }
    }

    /// The `setVideoFrameRate` call for a rate given by its bits, or none
    /// when it equals the last one.
    pub fn set_video_frame_rate(&mut self, fps_bits: u32) -> (r: Option<JniCall>)
        ensures
            final(self).last_bits == fps_bits,
            old(self).last_bits == fps_bits ==> r is None,
            old(self).last_bits != fps_bits ==> (r matches Some(c) && c@ == call_of(
                "setVideoFrameRate"@,
                "(F)V"@,
                seq![ArgView::FloatBits(fps_bits)],
            )),
    {
        let prev = self.last_bits;
        self.last_bits = fps_bits;
        if prev == fps_bits {
            return None;
        }
        let mut args: Vec<JniArg> = Vec::new();
        args.push(JniArg::FloatBits(fps_bits));
        let r = make_call("setVideoFrameRate", "(F)V", args);
        assert(r@.args =~= seq![ArgView::FloatBits(fps_bits)]);
        Some(r)
    }
}


/// `base` joined with a relative component, as `Path::join` does.
pub open spec fn path_join(base: Seq<char>, comp: Seq<char>) -> Seq<char> {
    if base.len() == 0 || base.last() == '/' {
        base + comp
    } else {
        base + seq!['/'] + comp
    }
}

pub(crate) fn path_join_exec(base: &[char], comp: &str) -> (r: Vec<char>)
    ensures
        r@ == path_join(base@, comp@),
{
    let mut out = crate::text::sub_chars(base, 0, base.len());
    assert(out@ =~= base@);
    if base.len() > 0 && base[base.len() - 1] != '/' {
        out.push('/');
    }
    let c = chars_of(comp);
    push_all(&mut out, c.as_slice());
    out
}

/// A file of the SAF inbox directory under the app files directory.
pub open spec fn inbox_file(files_dir: Option<Seq<char>>, name: Seq<char>) -> Option<Seq<char>> {
    match files_dir {
        Some(b) => Some(path_join(path_join(b, "saf_inbox"@), name)),
        None => None,
    }
}

fn inbox_file_exec(files_dir: Option<&str>, name: &str) -> (r: Option<String>)
    ensures
        crate::text::opt_view(r) == inbox_file(
            match files_dir {
                Some(b) => Some(b@),
                None => None,
            },
            name@,
        ),
{
    match files_dir {
        Some(b) => {
            let bc = chars_of(b);
            let d = path_join_exec(bc.as_slice(), "saf_inbox");
            let f = path_join_exec(d.as_slice(), name);
            Some(string_of(f.as_slice()))
        },
        None => None,
    }
}

pub open spec fn dir_view(files_dir: Option<&str>) -> Option<Seq<char>> {
    match files_dir {
        Some(b) => Some(b@),
        None => None,
    }
}

/// Where the activity writes the result of a document pick.
pub fn saf_meta_candidates(files_dir: Option<&str>) -> (r: Vec<String>)
    ensures
        r@.map_values(|p: String| p@) == match inbox_file(dir_view(files_dir), "latest.json"@) {
            Some(p) => seq![p],
            None => seq![],
        },
{
    let mut out: Vec<String> = Vec::new();
    match inbox_file_exec(files_dir, "latest.json") {
        Some(p) => {
            out.push(p);
        },
        None => {},
    }
    assert(out@.map_values(|p: String| p@) =~= match inbox_file(
        dir_view(files_dir),
        "latest.json"@,
    ) {
        Some(p) => seq![p],
        None => seq![],
    });
    out
}

/// Index of the newest entry by modification time (the first of equal times).
pub open spec fn newest_index(s: Seq<(u128, Seq<char>)>) -> int
    decreases s.len(),
{
    if s.len() <= 1 {
        0
    } else {
        let m = newest_index(s.drop_last());
        if s.last().0 > s[m].0 {
            s.len() - 1
        } else {
            m
        }
    }
}

pub open spec fn entry_views(es: Seq<(u128, String)>) -> Seq<(u128, Seq<char>)> {
    es.map_values(|e: (u128, String)| (e.0, e.1@))
}

/// The newest imported file among `(modification time, path)` entries.
pub fn newest_import(entries: &Vec<(u128, String)>) -> (r: Option<String>)
    ensures
        entries.len() == 0 ==> r is None,
        entries.len() > 0 ==> (r matches Some(p) && p@ == entry_views(entries@)[newest_index(
            entry_views(entries@),
        )].1),
{
    if entries.len() == 0 {
        return None;
    }
    let ghost ev = entry_views(entries@);
    let mut best: usize = 0;
    let mut i: usize = 1;
    assert(ev.take(1).len() == 1);
    while i < entries.len()
        invariant
            1 <= i <= entries.len(),
            ev == entry_views(entries@),
            best < i,
            best as int == newest_index(ev.take(i as int)),
        decreases entries.len() - i,
    {
        let ghost pre = ev.take(i + 1);
        assert(pre.drop_last() =~= ev.take(i as int));
        assert(pre.last() == (entries@[i as int].0, entries@[i as int].1@));
        assert(pre[best as int] == ev.take(i as int)[best as int]);
        assert(ev[best as int] == (entries@[best as int].0, entries@[best as int].1@));
        if entries[i].0 > entries[best].0 {
            best = i;
        }
        i += 1;
    }
    assert(ev.take(i as int) =~= ev);
    assert(ev[best as int] == (entries@[best as int].0, entries@[best as int].1@));
    Some(entries[best].1.clone())
}

/// Where the picker leaves a document when no import is found.
pub fn picked_fallback_path(files_dir: Option<&str>) -> (r: Option<String>)
    ensures
        crate::text::opt_view(r) == inbox_file(dir_view(files_dir), "picked.bin"@),
{
    inbox_file_exec(files_dir, "picked.bin")
}

/// The imports directory under the app files directory.
pub fn imports_dir(files_dir: &str) -> (r: String)
    ensures
        r@ == path_join(files_dir@, "imports"@),
{
    let c = chars_of(files_dir);
    let p = path_join_exec(c.as_slice(), "imports");
    string_of(p.as_slice())
}

/// The former picture-in-picture flag file.
pub fn pip_flag_path(files_dir: Option<&str>) -> (r: Option<String>)
    ensures
        crate::text::opt_view(r) == inbox_file(dir_view(files_dir), "pip.json"@),
{
    inbox_file_exec(files_dir, "pip.json")
}

/// The audio focus flag file.
pub fn audio_focus_flag_path(files_dir: Option<&str>) -> (r: Option<String>)
    ensures
        crate::text::opt_view(r) == inbox_file(dir_view(files_dir), "audio_focus.json"@),
{
    inbox_file_exec(files_dir, "audio_focus.json")
}

/// The device capabilities file.
pub fn device_caps_path(files_dir: Option<&str>) -> (r: Option<String>)
    ensures
        crate::text::opt_view(r) == inbox_file(dir_view(files_dir), "device_caps.json"@),
{
    inbox_file_exec(files_dir, "device_caps.json")
}

/// The surface state file.
pub fn surface_state_path(files_dir: Option<&str>) -> (r: Option<String>)
    ensures
        crate::text::opt_view(r) == inbox_file(dir_view(files_dir), "surface_state.json"@),
{
    inbox_file_exec(files_dir, "surface_state.json")
}

/// The document picker handshake: pending from launch until the result is
/// consumed or the launch fails.
pub struct SafBridge {
    pending: bool,
}

/// A document picker launch: stale result files to remove first, then the call.
pub struct SafLaunch {
    pub remove: Vec<String>,
    pub call: JniCall,
}

impl SafBridge {
    pub closed spec fn is_pending(&self) -> bool {
        self.pending
    }

    pub fn new() -> (r: Self)
        ensures
            !r.is_pending(),
    {
        SafBridge { pending: false }
    }

    /// A pick is in progress.
    pub fn saf_is_pending(&self) -> (r: bool)
        ensures
            r == self.is_pending(),
    {
        self.pending
    }

    fn launch(&mut self, mode: &str, mime: &str, source: &str, files_dir: Option<&str>) -> (r: SafLaunch)
        ensures
            final(self).is_pending(),
            r.remove@.map_values(|p: String| p@) == match inbox_file(
                dir_view(files_dir),
                "latest.json"@,
            ) {
                Some(p) => seq![p],
                None => seq![],
            },
            r.call@ == call_of(
                "startSaf"@,
                "(Ljava/lang/String;Ljava/lang/String;Ljava/lang/String;)Z"@,
                seq![ArgView::Str(mode@), ArgView::Str(mime@), ArgView::Str(source@)],
            ),
    {
        self.pending = true;
        let remove = saf_meta_candidates(files_dir);
        let mut args: Vec<JniArg> = Vec::new();
        args.push(JniArg::Str(text(mode)));
        args.push(JniArg::Str(text(mime)));
        args.push(JniArg::Str(text(source)));
        let call = make_call(
            "startSaf",
            "(Ljava/lang/String;Ljava/lang/String;Ljava/lang/String;)Z",
            args,
        );
        assert(call@.args =~= seq![ArgView::Str(mode@), ArgView::Str(mime@), ArgView::Str(source@)]);
        SafLaunch { remove, call }
    }

    /// Launches OPEN_DOCUMENT for `mime`.
    pub fn start_saf_open(&mut self, mime: &str, files_dir: Option<&str>) -> (r: SafLaunch)
        ensures
            final(self).is_pending(),
            r.remove@.map_values(|p: String| p@) == match inbox_file(
                dir_view(files_dir),
                "latest.json"@,
            ) {
                Some(p) => seq![p],
                None => seq![],
            },
            r.call@ == call_of(
                "startSaf"@,
                "(Ljava/lang/String;Ljava/lang/String;Ljava/lang/String;)Z"@,
                seq![ArgView::Str("open"@), ArgView::Str(mime@), ArgView::Str(""@)],
            ),
    {
        self.launch("open", mime, "", files_dir)
    }

    /// Launches CREATE_DOCUMENT for `mime`, exporting `source_path`.
    pub fn start_saf_create(&mut self, mime: &str, source_path: &str, files_dir: Option<&str>) -> (r:
        SafLaunch)
        ensures
            final(self).is_pending(),
            r.remove@.map_values(|p: String| p@) == match inbox_file(
                dir_view(files_dir),
                "latest.json"@,
            ) {
                Some(p) => seq![p],
                None => seq![],
            },
            r.call@ == call_of(
                "startSaf"@,
                "(Ljava/lang/String;Ljava/lang/String;Ljava/lang/String;)Z"@,
                seq![ArgView::Str("create"@), ArgView::Str(mime@), ArgView::Str(source_path@)],
            ),
    {
        self.launch("create", mime, source_path, files_dir)
    }

    /// The launch call's reply (`None` when it could not be made): only a
    /// `true` reply keeps the pick pending.
    pub fn saf_launch_result(&mut self, reply: Option<bool>)
        ensures
            final(self).is_pending() == (old(self).is_pending() && reply == Some(true)),
    {
        match reply {
            Some(true) => {},
            _ => {
                self.pending = false;
            },
        }
    }

    /// The inbox is read only while a pick is pending.
    pub fn poll_saf_inbox(&self) -> (r: bool)
        ensures
            r == self.is_pending(),
    {
        self.pending
    }

    /// A result file was read (and removed): the pick is over.
    pub fn saf_inbox_consumed(&mut self)
        ensures
            !final(self).is_pending(),
    {
        self.pending = false;
    }
}

/// A pick result as written by the activity.
pub struct SafInbox {
    pub status: String,
    pub name: String,
    pub path: String,
    pub mime: String,
}

/// What a pick result amounts to.
pub enum SafOutcome {
    /// The user cancelled: status `Annulé`.
    Cancelled,
    /// The activity reported an error, with this message.
    Failed(String),
    /// A document was picked: its path (none when the result gave no path
    /// and the default location is to be tried) and display name.
    Picked { path: Option<String>, name: String },
}

/// Classifies a pick result: `cancel`, `error` (shown as `Fichier: name`),
/// or a picked document.
pub fn saf_outcome(inbox: &SafInbox) -> (r: SafOutcome)
    ensures
        inbox.status@ == "cancel"@ ==> r is Cancelled,
        inbox.status@ != "cancel"@ && inbox.status@ == "error"@ ==> (r matches SafOutcome::Failed(m)
            && m@ == "Fichier: "@ + inbox.name@),
        inbox.status@ != "cancel"@ && inbox.status@ != "error"@ ==> (r matches SafOutcome::Picked {
            path,
            name,
        } && name@ == inbox.name@ && (if inbox.path@.len() == 0 {
            path is None
        } else {
            crate::text::opt_view(path) == Some(inbox.path@)
        })),
{
    let st = chars_of(inbox.status.as_str());
    let cancel = chars_of("cancel");
    let error = chars_of("error");
    if crate::text::chars_eq(st.as_slice(), cancel.as_slice()) {
        return SafOutcome::Cancelled;
    }
    if crate::text::chars_eq(st.as_slice(), error.as_slice()) {
        let mut m = chars_of("Fichier: ");
        let n = chars_of(inbox.name.as_str());
        push_all(&mut m, n.as_slice());
        return SafOutcome::Failed(string_of(m.as_slice()));
    }
    let path = if inbox.path.as_str().is_empty() {
        None
    } else {
        Some(inbox.path.clone())
    };
    SafOutcome::Picked { path, name: inbox.name.clone() }
}

/// The profile name the add form gets for a picked playlist: the name
/// already typed, else the document's name, else `Playlist locale`.
pub fn picked_playlist_name(form_name: &str, picked: &str) -> (r: String)
    ensures
        r@ == (if form_name@.len() > 0 {
            form_name@
        } else if picked@.len() > 0 {
            picked@
        } else {
            "Playlist locale"@
        }),
{
    if !form_name.is_empty() {
        text(form_name)
    } else if !picked.is_empty() {
        text(picked)
    } else {
        text("Playlist locale")
    }
}

/// Reason given when an external player would bypass the tunnel.
pub open spec fn tunnel_refusal() -> Seq<char> {
    "Lecteur externe ignore le tunnel SOCKS — utilisez libmpv"@
}

pub open spec fn mime_text(mime: Option<&str>) -> Seq<char> {
    match mime {
        Some(m) => m@,
        None => ""@,
    }
}

/// Opening a URL in another app: refused while the tunnel or SOCKS proxy
/// is up unless clear-net use is explicitly allowed; else the `openUrl`
/// call with the URL and the MIME type (empty when none).
pub fn open_url(url: &str, mime: Option<&str>, tunnel_up: bool, allow_clearnet: bool) -> (r: Result<
    JniCall,
    String,
>)
    ensures
        tunnel_up && !allow_clearnet ==> (r matches Err(e) && e@ == tunnel_refusal()),
        !(tunnel_up && !allow_clearnet) ==> match r {
            Ok(c) => c@ == call_of(
                "openUrl"@,
                "(Ljava/lang/String;Ljava/lang/String;)V"@,
                seq![ArgView::Str(url@), ArgView::Str(mime_text(mime))],
            ),
            Err(_) => false,
        },
{
    if tunnel_up && !allow_clearnet {
        return Err(text("Lecteur externe ignore le tunnel SOCKS — utilisez libmpv"));
    }
    let m_text = match mime {
        Some(m) => text(m),
        None => text(""),
    };
    let ghost mv = mime_text(mime);
    assert(m_text@ == mv);
    let mut args: Vec<JniArg> = Vec::new();
    args.push(JniArg::Str(text(url)));
    args.push(JniArg::Str(m_text));
    let c = make_call("openUrl", "(Ljava/lang/String;Ljava/lang/String;)V", args);
    assert(c@.args =~= seq![ArgView::Str(url@), ArgView::Str(mv)]);
    Ok(c)
}

/// Opens a stream URL in the platform player (`video/*`).
pub fn open_stream_url(url: &str, tunnel_up: bool, allow_clearnet: bool) -> (r: Result<JniCall, String>)
    ensures
        tunnel_up && !allow_clearnet ==> (r matches Err(e) && e@ == tunnel_refusal()),
        !(tunnel_up && !allow_clearnet) ==> match r {
            Ok(c) => c@ == call_of(
                "openUrl"@,
                "(Ljava/lang/String;Ljava/lang/String;)V"@,
                seq![ArgView::Str(url@), ArgView::Str("video/*"@)],
            ),
            Err(_) => false,
        },
{
    open_url(url, Some("video/*"), tunnel_up, allow_clearnet)
}


/// The device label parts: trimmed, non-empty, and not repeating an earlier
/// part (ASCII case ignored), in the order given.
pub open spec fn label_parts(fields: Seq<Seq<char>>) -> Seq<Seq<char>>
    decreases fields.len(),
{
    if fields.len() == 0 {
        seq![]
    } else {
        let r = label_parts(fields.drop_last());
        let t = crate::text::trim(fields.last());
        if t.len() > 0 && !(exists|k: int|
            0 <= k < r.len() && crate::display::eq_ignore_case(#[trigger] r[k], t)) {
            r.push(t)
        } else {
            r
        }
    }
}

/// Parts joined with ` · `.
pub open spec fn joined(parts: Seq<Seq<char>>) -> Seq<char>
    decreases parts.len(),
{
    if parts.len() == 0 {
        seq![]
    } else if parts.len() == 1 {
        parts[0]
    } else {
        joined(parts.drop_last()) + " · "@ + parts.last()
    }
}

/// A GPU label from the device report (manufacturer, model, SoC, board,
/// hardware): the distinct parts joined with ` · `, as an integrated GPU;
/// none when every part is blank.
pub fn poll_device_gpu(fields: &Vec<String>) -> (r: Option<(String, crate::gpu::GpuTier)>)
    ensures
        label_parts(fields@.map_values(|f: String| f@)).len() == 0 ==> r is None,
        label_parts(fields@.map_values(|f: String| f@)).len() > 0 ==> (r matches Some(p) && p.0@
            == joined(label_parts(fields@.map_values(|f: String| f@))) && p.1
            == crate::gpu::GpuTier::Integrated),
{
    let ghost fv = fields@.map_values(|f: String| f@);
    let mut parts: Vec<Vec<char>> = Vec::new();
    let mut i: usize = 0;
    while i < fields.len()
        invariant
            i <= fields.len(),
            fv == fields@.map_values(|f: String| f@),
            crate::text::views(parts@) == label_parts(fv.take(i as int)),
        decreases fields.len() - i,
    {
        let ghost pre = fv.take(i + 1);
        let ghost r = label_parts(fv.take(i as int));
        assert(pre.drop_last() =~= fv.take(i as int));
        assert(pre.last() == fields@[i as int]@);
        let c = chars_of(fields[i].as_str());
        let t = crate::text::trim_exec(c.as_slice());
        let mut dup = false;
        let mut k: usize = 0;
        while k < parts.len()
            invariant
                k <= parts.len(),
                r == crate::text::views(parts@),
                dup == exists|j: int| 0 <= j < k && crate::display::eq_ignore_case(#[trigger] r[j], t@),
            decreases parts.len() - k,
        {
            assert(r[k as int] == parts@[k as int]@);
            if crate::display::eq_ignore_case_exec(parts[k].as_slice(), t.as_slice()) {
                dup = true;
            }
            k += 1;
        }
        if t.len() > 0 && !dup {
            let ghost before = crate::text::views(parts@);
            parts.push(t);
            assert(crate::text::views(parts@) =~= before.push(t@));
        }
        i += 1;
    }
    assert(fv.take(i as int) =~= fv);
    if parts.len() == 0 {
        return None;
    }
    let ghost pv = crate::text::views(parts@);
    let mut out = crate::text::sub_chars(parts[0].as_slice(), 0, parts[0].len());
    assert(out@ =~= pv[0]);
    assert(pv.take(1) =~= seq![pv[0]]);
    assert(joined(pv.take(1)) == pv[0]);
    let sep = chars_of(" · ");
    let mut j: usize = 1;
    while j < parts.len()
        invariant
            1 <= j <= parts.len(),
            pv == crate::text::views(parts@),
            sep@ == " · "@,
            out@ == joined(pv.take(j as int)),
        decreases parts.len() - j,
    {
        assert(pv.take(j + 1).drop_last() =~= pv.take(j as int));
        assert(pv.take(j + 1).last() == parts@[j as int]@);
        push_all(&mut out, sep.as_slice());
        push_all(&mut out, parts[j].as_slice());
        j += 1;
    }
    assert(pv.take(j as int) =~= pv);
    Some((string_of(out.as_slice()), crate::gpu::GpuTier::Integrated))
}

} // verus!
