use fluxplay::android::{
    acquire_video_surface_wid, audio_focus_flag_path, device_caps_path, enter_pip, open_stream_url,
    open_url, poll_device_gpu, poll_surface_state, prepare_surface_present, present_size,
    release_video_surface_wid, saf_meta_candidates, set_hdr_color_mode, static_bool_reply, surface_generation,
    poll_pip_mode, is_night_mode, is_television,
    surface_state_path, usable_live_size, video_surface_size, BufferSizeCache, FrameRateCache,
    JniArg, JniCall, KeepScreenOn, SafBridge, SurfaceState,
};
use fluxplay::gpu::GpuTier;

fn arg_text(a: &JniArg) -> String {
    match a {
        JniArg::Bool(b) => format!("Z{b}"),
        JniArg::Int(i) => format!("I{i}"),
        JniArg::FloatBits(f) => format!("F{f:#x}"),
        JniArg::Str(s) => format!("S{s}"),
    }
}

fn describe(c: &JniCall) -> String {
    let args: Vec<String> = c.args.iter().map(arg_text).collect();
    format!("{}{}[{}]", c.method, c.signature, args.join(","))
}

#[test]
fn call_descriptors() {
    assert_eq!(describe(&enter_pip(16, 0)), "enterPip(II)V[I16,I1]");
    assert_eq!(
        describe(&set_hdr_color_mode(true)),
        "setDisplayColorMode(Ljava/lang/String;)V[Shdr]"
    );
    assert_eq!(
        describe(&set_hdr_color_mode(false)),
        "setDisplayColorMode(Ljava/lang/String;)V[Sdefault]"
    );
    let rel: Vec<String> = release_video_surface_wid().iter().map(describe).collect();
    assert_eq!(
        rel,
        vec!["setVideoSurfaceVisible(Z)V[Zfalse]", "setWindowPunchThrough(Z)V[Zfalse]"]
    );
}

#[test]
fn present_sequence() {
    assert!(prepare_surface_present(true).is_empty());
    let calls: Vec<String> = prepare_surface_present(false).iter().map(describe).collect();
    assert_eq!(
        calls,
        vec![
            "setWindowPunchThrough(Z)V[Zfalse]",
            "setVideoSurfaceZOrderOnTop(Z)V[Ztrue]",
            "setVideoSurfaceVisible(Z)V[Ztrue]",
        ]
    );
}

#[test]
fn surface_replies() {
    assert_eq!(surface_generation(Some(5)), 5);
    assert_eq!(surface_generation(Some(-3)), 0);
    assert_eq!(surface_generation(None), 0);
    assert_eq!(usable_live_size(Some((1920, 1080))), Some((1920, 1080)));
    assert_eq!(usable_live_size(Some((63, 1080))), None);
    assert_eq!(acquire_video_surface_wid(Some(0)), None);
    assert_eq!(acquire_video_surface_wid(Some(42)), Some(42));
    let file = SurfaceState { ready: true, w: 1280, h: 720, gen: 2 };
    assert_eq!(video_surface_size(None, Some(file)), Some((1280, 720)));
    assert_eq!(video_surface_size(Some((10, 10)), Some(file)), Some((1280, 720)));
    assert_eq!(
        video_surface_size(None, Some(SurfaceState { ready: false, ..file })),
        None
    );
    assert_eq!(video_surface_size(Some((800, 600)), Some(file)), Some((800, 600)));
}

#[test]
fn surface_state_merge() {
    let file = SurfaceState { ready: true, w: 1280, h: 720, gen: 0 };
    assert_eq!(
        poll_surface_state(false, 4, None, Some(file)),
        SurfaceState { ready: true, w: 1280, h: 720, gen: 4 }
    );
    assert_eq!(
        poll_surface_state(true, 4, Some((640, 480)), Some(file)),
        SurfaceState { ready: true, w: 640, h: 480, gen: 4 }
    );
    assert_eq!(poll_surface_state(false, 1, None, None), SurfaceState { ready: false, w: 0, h: 0, gen: 1 });
    assert_eq!(SurfaceState::default(), SurfaceState { ready: false, w: 0, h: 0, gen: 0 });
    assert_eq!(present_size(None, file), Some((1280, 720)));
    assert_eq!(present_size(Some((1, 1)), file), Some((1, 1)));
}

#[test]
fn caches_only_send_changes() {
    let mut k = KeepScreenOn::new();
    assert_eq!(describe(&k.set_keep_screen_on(true).unwrap()), "setKeepScreenOn(Z)V[Ztrue]");
    assert!(k.set_keep_screen_on(true).is_none());
    assert!(k.set_keep_screen_on(false).is_some());

    let mut b = BufferSizeCache::new();
    assert!(b.set_video_buffer_size(0, 0, 0, 0).is_none());
    assert_eq!(
        describe(&b.set_video_buffer_size(1920, 1080, 1280, 720).unwrap()),
        "setVideoBufferSize(IIII)V[I1920,I1080,I1280,I720]"
    );
    // Only the first differing field was stored: the next push still differs.
    assert_eq!(b, BufferSizeCache { bw: 1920, bh: 0, dw: 0, dh: 0 });
    assert!(b.set_video_buffer_size(1920, 1080, 1280, 720).is_some());

    let mut f = FrameRateCache::new();
    let bits = 60.0f32.to_bits();
    assert_eq!(describe(&f.set_video_frame_rate(bits).unwrap()), format!("setVideoFrameRate(F)V[F{bits:#x}]"));
    assert!(f.set_video_frame_rate(bits).is_none());
}

#[test]
fn inbox_paths() {
    assert_eq!(
        saf_meta_candidates(Some("/data/user/0/app/files")),
        vec!["/data/user/0/app/files/saf_inbox/latest.json".to_string()]
    );
    assert!(saf_meta_candidates(None).is_empty());
    assert_eq!(audio_focus_flag_path(Some("/f/")), Some("/f/saf_inbox/audio_focus.json".to_string()));
    assert_eq!(device_caps_path(Some("")), Some("saf_inbox/device_caps.json".to_string()));
    assert_eq!(surface_state_path(None), None);
}

#[test]
fn saf_handshake() {
    let mut s = SafBridge::new();
    assert!(!s.saf_is_pending());
    let l = s.start_saf_open("application/json", Some("/f"));
    assert_eq!(l.remove, vec!["/f/saf_inbox/latest.json".to_string()]);
    assert_eq!(
        describe(&l.call),
        "startSaf(Ljava/lang/String;Ljava/lang/String;Ljava/lang/String;)Z[Sopen,Sapplication/json,S]"
    );
    assert!(s.poll_saf_inbox());
    s.saf_launch_result(Some(false));
    assert!(!s.saf_is_pending());
    let l2 = s.start_saf_create("text/plain", "/tmp/x.txt", None);
    assert!(l2.remove.is_empty());
    s.saf_launch_result(Some(true));
    assert!(s.saf_is_pending());
    s.saf_inbox_consumed();
    assert!(!s.poll_saf_inbox());
}

#[test]
fn external_player_respects_tunnel() {
    assert_eq!(
        open_url("http://a/b", None, true, false).err().unwrap(),
        "Lecteur externe ignore le tunnel SOCKS — utilisez libmpv"
    );
    assert_eq!(
        describe(&open_url("http://a/b", None, true, true).unwrap()),
        "openUrl(Ljava/lang/String;Ljava/lang/String;)V[Shttp://a/b,S]"
    );
    assert_eq!(
        describe(&open_stream_url("http://a/s.m3u8", false, false).unwrap()),
        "openUrl(Ljava/lang/String;Ljava/lang/String;)V[Shttp://a/s.m3u8,Svideo/*]"
    );
}

#[test]
fn device_gpu_label() {
    let fields = vec![
        " Google ".to_string(),
        "Pixel 8".to_string(),
        "google".to_string(),
        "".to_string(),
        "Tensor G3".to_string(),
    ];
    assert_eq!(
        poll_device_gpu(&fields),
        Some(("Google · Pixel 8 · Tensor G3".to_string(), GpuTier::Integrated))
    );
    assert_eq!(poll_device_gpu(&vec!["  ".to_string()]), None);
}

#[test]
fn picked_document_paths() {
    let e = vec![
        (10u128, "/f/imports/a.m3u".to_string()),
        (30u128, "/f/imports/b.m3u".to_string()),
        (30u128, "/f/imports/c.m3u".to_string()),
        (20u128, "/f/imports/d.m3u".to_string()),
    ];
    assert_eq!(fluxplay::android::newest_import(&e), Some("/f/imports/b.m3u".to_string()));
    assert_eq!(fluxplay::android::newest_import(&Vec::new()), None);
    assert_eq!(
        fluxplay::android::picked_fallback_path(Some("/f")),
        Some("/f/saf_inbox/picked.bin".to_string())
    );
    assert_eq!(fluxplay::android::imports_dir("/f"), "/f/imports");
}

fn inbox(status: &str, name: &str, path: &str) -> fluxplay::android::SafInbox {
    fluxplay::android::SafInbox {
        status: status.to_string(),
        name: name.to_string(),
        path: path.to_string(),
        mime: String::new(),
    }
}

#[test]
fn pick_results() {
    assert!(matches!(fluxplay::android::saf_outcome(&inbox("cancel", "x", "")), fluxplay::android::SafOutcome::Cancelled));
    match fluxplay::android::saf_outcome(&inbox("error", "a.m3u", "")) {
        fluxplay::android::SafOutcome::Failed(m) => assert_eq!(m, "Fichier: a.m3u"),
        _ => panic!("expected a failure"),
    }
    match fluxplay::android::saf_outcome(&inbox("ok", "a.m3u", "/f/imports/a.m3u")) {
        fluxplay::android::SafOutcome::Picked { path, name } => {
            assert_eq!(path, Some("/f/imports/a.m3u".to_string()));
            assert_eq!(name, "a.m3u");
        }
        _ => panic!("expected a pick"),
    }
    match fluxplay::android::saf_outcome(&inbox("ok", "", "")) {
        fluxplay::android::SafOutcome::Picked { path, .. } => assert_eq!(path, None),
        _ => panic!("expected a pick"),
    }
    assert_eq!(fluxplay::android::picked_playlist_name("Mine", "a.m3u"), "Mine");
    assert_eq!(fluxplay::android::picked_playlist_name("", "a.m3u"), "a.m3u");
    assert_eq!(fluxplay::android::picked_playlist_name("", ""), "Playlist locale");
}

#[test]
fn bool_queries_read_true_only_on_a_true_reply() {
    assert!(static_bool_reply(Some(true)));
    assert!(!static_bool_reply(Some(false)));
    assert!(!static_bool_reply(None));
    assert_eq!(poll_pip_mode().method, "isInPip");
    assert_eq!(poll_pip_mode().signature, "()Z");
    assert_eq!(is_night_mode().method, "isNightMode");
    assert_eq!(is_television().method, "isTelevision");
}
