use fluxplay::display::{
    derive_tuning, on_battery_from_supplies, os_label_from_release, parse_drm_mode_hz,
    parse_mode_wh, parse_wlr_randr, parse_xrandr, period_ms, probe_monitor, probe_stale_after, rank_connector,
    resolve_caps, resolve_pref, select_drm_connector, session_from_env, soft_video_budget,
    CapsOverrides, DisplayProbe, DisplaySession, MAX_HZ, MIN_HZ,
};
use fluxplay::gpu::{parse_lspci_gpu, GpuTier};

fn chars(s: &str) -> Vec<char> {
    s.chars().collect()
}

#[test]
fn xrandr_primary_star() {
    let out = r#"
Screen 0: minimum 16 x 16, current 1920 x 1080
eDP-1 connected primary 1920x1080+0+0
   1920x1080     59.96*+
   1280x720      59.90
HDMI-1 connected 3840x2160+1920+0
   3840x2160     60.00*
"#;
    let (name, hz, w, h) = parse_xrandr(out).unwrap();
    assert_eq!(name, "eDP-1");
    assert_eq!(hz, 60);
    assert_eq!((w, h), (1920, 1080));
}

#[test]
fn xrandr_high_refresh() {
    let out = r#"
DP-1 connected primary 2560x1440+0+0
   2560x1440    144.00*+
"#;
    let (_, hz, w, h) = parse_xrandr(out).unwrap();
    assert_eq!(hz, 144);
    assert_eq!((w, h), (2560, 1440));
}

#[test]
fn wlr_randr_current() {
    let out = r#"
eDP-1 "BOE 0x0A1C"
  Make: BOE
  current
    1920x1080 px, 59.961002 Hz (preferred)
  position 0,0
"#;
    let (name, hz, w, h) = parse_wlr_randr(out).unwrap();
    assert_eq!(name, "eDP-1");
    assert_eq!(hz, 60);
    assert_eq!((w, h), (1920, 1080));
}

#[test]
fn xrandr_takes_the_starred_rate() {
    let out = "eDP-1 connected primary 1920x1080+0+0\n   1920x1080     60.00 +  50.00*\n";
    let (name, hz, w, h) = parse_xrandr(out).unwrap();
    assert_eq!(name, "eDP-1");
    assert_eq!(hz, 50);
    assert_eq!((w, h), (1920, 1080));
}

#[test]
fn wlr_randr_mode_tagged_current() {
    let out = "eDP-1 \"BOE 0x0A1C\"\n  Modes:\n    1280x720 px, 60.000000 Hz\n    1920x1080 px, 59.961002 Hz (preferred, current)\n  Position: 0,0\n";
    let (name, hz, w, h) = parse_wlr_randr(out).unwrap();
    assert_eq!(name, "eDP-1");
    assert_eq!(hz, 60);
    assert_eq!((w, h), (1920, 1080));
}

#[test]
fn wlr_randr_untagged_modes_give_nothing() {
    let out = "eDP-1 \"BOE\"\n  Modes:\n    1280x720 px, 60.000000 Hz\n";
    assert_eq!(parse_wlr_randr(out), None);
}

#[test]
fn lspci_prefers_nvidia_discrete() {
    let out = r#"
01:00.0 VGA compatible controller: NVIDIA Corporation AD107M [GeForce RTX 4050 Max-Q / Mobile] [10de:28e1]
75:00.0 VGA compatible controller: Advanced Micro Devices, Inc. [AMD/ATI] Rembrandt [Radeon 680M] [1002:1681]
"#;
    let (name, tier) = parse_lspci_gpu(out).unwrap();
    assert!(name.to_ascii_lowercase().contains("nvidia") || name.contains("GeForce"));
    assert_eq!(tier, GpuTier::Discrete);
}

#[test]
fn period_ms_round() {
    assert_eq!(period_ms(60), 17);
    assert_eq!(period_ms(120), 8);
    assert_eq!(period_ms(30), 33);
}

#[test]
fn tuning_clamps_meta() {
    let probe = DisplayProbe {
        monitor_name: "t".into(),
        monitor_hz: 60,
        monitor_w: 1920,
        monitor_h: 1080,
        gpu_name: "g".into(),
        gpu_tier: GpuTier::Integrated,
        cpu_logical: 16,
        cpu_arch: "x86_64".into(),
        session: DisplaySession::Wayland,
        os_label: "Test".into(),
        on_battery: false,
        source: "test".into(),
    };
    let t = derive_tuning(&probe, 60, None, None);
    assert!(t.meta_parallel <= 6);
    assert_eq!(t.portal_parallel, 2);
    assert!(t.image_inflight >= 4);
}

#[test]
fn mode_wh_parses_and_defaults() {
    assert_eq!(parse_mode_wh(&chars(" 1920x1080i ")), (1920, 1080));
    assert_eq!(parse_mode_wh(&chars("garbage")), (0, 0));
    assert_eq!(parse_mode_wh(&chars("axb")), (0, 0));
}

#[test]
fn drm_mode_rate_threshold() {
    assert_eq!(parse_drm_mode_hz(&chars("1920x1080@59.94")), Some(60));
    assert_eq!(parse_drm_mode_hz(&chars("1920x1080@19.5")), None);
    assert_eq!(parse_drm_mode_hz(&chars("1920x1080")), None);
}

#[test]
fn connector_ranking() {
    assert_eq!(rank_connector(&chars("eDP-1")), 0);
    assert_eq!(rank_connector(&chars("DP-2")), 1);
    assert_eq!(rank_connector(&chars("HDMI-A-1")), 2);
    assert_eq!(rank_connector(&chars("VGA-1")), 3);
}

fn probe(tier: GpuTier, hz: u32, w: u32, h: u32, cores: u32, on_battery: bool) -> DisplayProbe {
    DisplayProbe {
        monitor_name: "eDP-1".into(),
        monitor_hz: hz,
        monitor_w: w,
        monitor_h: h,
        gpu_name: "Iris".into(),
        gpu_tier: tier,
        cpu_logical: cores,
        cpu_arch: "x86_64".into(),
        session: DisplaySession::Wayland,
        os_label: "Fedora Linux 40".into(),
        on_battery,
        source: "xrandr".into(),
    }
}

fn no_overrides() -> CapsOverrides {
    CapsOverrides {
        monitor_hz: None,
        gui_fps: None,
        video_fps: None,
        meta_parallel: None,
        image_inflight: None,
        soft_uhd: false,
    }
}

#[test]
fn tuning_exact_values() {
    let p = probe(GpuTier::Discrete, 144, 2560, 1440, 16, false);
    let t = derive_tuning(&p, 120, None, None);
    assert_eq!(t.meta_parallel, 5);
    assert_eq!(t.image_inflight, 32);
    assert_eq!(t.image_prefetch, 8);
    assert_eq!(t.virtual_overscan, 20);
    assert_eq!(t.decode_edge_px, 480);
    let b = derive_tuning(&probe(GpuTier::Integrated, 60, 1366, 768, 2, true), 60, None, None);
    assert_eq!(b.meta_parallel, 2);
    assert_eq!(b.image_inflight, 8);
    assert_eq!(b.image_prefetch, 7);
    assert_eq!(b.virtual_overscan, 6);
    assert_eq!(b.decode_edge_px, 320);
    let o = derive_tuning(&p, 60, Some(0), Some(100));
    assert_eq!(o.meta_parallel, 1);
    assert_eq!(o.image_inflight, 32);
}

#[test]
fn caps_resolution() {
    let env = no_overrides();
    let c = resolve_caps(None, None, None, None, probe(GpuTier::Integrated, 144, 1920, 1080, 8, false), &env);
    assert_eq!(c.gui_hz, 60);
    assert_eq!(c.video_hz, 60);
    assert_eq!(c.gui_period_ms(), 17);
    let d = resolve_caps(None, None, Some((3840, 2160)), Some(24), probe(GpuTier::Discrete, 144, 3840, 2160, 8, false), &env);
    assert_eq!(d.gui_hz, 120);
    assert_eq!(d.video_hz, 26);
    let mut e = no_overrides();
    e.monitor_hz = Some(500);
    e.gui_fps = Some(10);
    let f = resolve_caps(Some(90), Some(200), None, None, probe(GpuTier::Unknown, 60, 0, 0, 4, false), &e);
    assert_eq!(f.probe.monitor_hz, MAX_HZ);
    assert_eq!(f.gui_hz, MIN_HZ);
    assert_eq!(f.video_hz, 120);
}

#[test]
fn soft_budgets_and_prefs() {
    assert_eq!(soft_video_budget(GpuTier::Discrete, Some((3840, 2160)), false, false), 30);
    assert_eq!(soft_video_budget(GpuTier::Discrete, Some((2560, 1440)), false, false), 60);
    assert_eq!(soft_video_budget(GpuTier::Integrated, Some((2560, 1440)), false, false), 45);
    assert_eq!(soft_video_budget(GpuTier::Unknown, None, true, false), 60);
    assert_eq!(soft_video_budget(GpuTier::Discrete, Some((3840, 2160)), false, true), 60);
    assert_eq!(resolve_pref(Some(300), None, 60), MAX_HZ);
    assert_eq!(resolve_pref(Some(90), Some(30), 60), 30);
    assert_eq!(resolve_pref(None, None, 10), MIN_HZ);
}

#[test]
fn summary_line_text() {
    let c = resolve_caps(None, None, None, None, probe(GpuTier::Integrated, 60, 1920, 1080, 8, true), &no_overrides());
    assert_eq!(
        c.summary_line(),
        "Fedora Linux 40 · eDP-11920×1080 @ 60 Hz · Wayland · GPU Iris (integrated) · CPU 8×x86_64 · GUI 60 fps · vidéo 60 fps · meta×4 img×10 · batterie"
    );
}

#[test]
fn sessions_and_monitor_sources() {
    assert_eq!(session_from_env(true, true, true), DisplaySession::Android);
    assert_eq!(session_from_env(false, false, true), DisplaySession::X11);
    assert_eq!(session_from_env(false, false, false).label(), "?");
    let m = probe_monitor(None, Some(("DP-1".to_string(), 75, 2560, 1440)), None).unwrap();
    assert_eq!(m.4, "wlr-randr");
    assert_eq!(m.1, 75);
    assert!(probe_monitor(None, None, None).is_none());
}

#[test]
fn os_release_labels() {
    assert_eq!(
        os_label_from_release(Some("NAME=\"Fedora Linux\"\nVERSION_ID=40\nID=fedora\n")),
        "Fedora Linux 40"
    );
    assert_eq!(os_label_from_release(Some("NAME=Arch Linux\n")), "Arch Linux");
    assert_eq!(os_label_from_release(Some("ID=x\n")), "Linux");
    assert_eq!(os_label_from_release(None), "Linux");
}

#[test]
fn battery_detection() {
    let s = vec![
        ("Mains".to_string(), "Online".to_string()),
        (" battery\n".to_string(), "discharging\n".to_string()),
    ];
    assert!(on_battery_from_supplies(&s));
    assert!(!on_battery_from_supplies(&vec![("Battery".to_string(), "Charging".to_string())]));
}

#[test]
fn drm_connector_choice() {
    let e = vec![
        ("card0-HDMI-A-1".to_string(), "connected".to_string(), "3840x2160@30\n".to_string()),
        ("renderD128".to_string(), "connected".to_string(), "".to_string()),
        ("card0-eDP-1".to_string(), "connected\n".to_string(), "1920x1080@59.95\n1280x720@60\n".to_string()),
        ("card0-DP-1".to_string(), "disconnected".to_string(), "".to_string()),
    ];
    assert_eq!(select_drm_connector(&e), Some(("eDP-1".to_string(), 60, 1920, 1080)));
    assert_eq!(select_drm_connector(&vec![]), None);
}

#[test]
fn probe_goes_stale_after_five_seconds() {
    assert_eq!(probe_stale_after(), std::time::Duration::from_secs(5));
}

#[test]
fn rates_are_read_as_binary64_numbers() {
    // Within half a binary64 step of 59.5: the reading lands on 59.5 and rounds up.
    let out = "eDP-1 connected primary 1920x1080+0+0\n   1920x1080     59.4999999999999999999*\n";
    assert_eq!(parse_xrandr(out).unwrap().1, 60);
    let out = "eDP-1 connected primary 1920x1080+0+0\n   1920x1080     59.4999999999999*\n";
    assert_eq!(parse_xrandr(out).unwrap().1, 59);
    // Just past 360 by less than half a step still reads as 360.
    let out = "DP-1 connected primary 2560x1440+0+0\n   2560x1440     360.00000000000000001*\n";
    assert_eq!(parse_xrandr(out).unwrap().1, 360);
    let out = "DP-1 connected primary 2560x1440+0+0\n   2560x1440     360.001*\n";
    assert_eq!(parse_xrandr(out), None);
    // Just below 20 by less than half a step reads as 20.
    let out = "DP-1 connected primary 640x480+0+0\n   640x480     19.9999999999999999999*\n";
    assert_eq!(parse_xrandr(out).unwrap().1, 20);
    assert_eq!(parse_drm_mode_hz(&chars("1920x1080@19.9999999999999999999")), Some(20));
}
