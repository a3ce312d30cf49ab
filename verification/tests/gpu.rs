use fluxplay::gpu::{
    classify_gpu, gpu_name_fits_exec, lspci_names_fit_check, parse_lspci_gpu,
    topology_from_devices, truncate_gpu_name, GpuDecodePolicy, GpuDevice, GpuTier, GpuTopology,
};

fn chars(s: &str) -> Vec<char> {
    s.chars().collect()
}

fn dev(name: &str, tier: GpuTier, node: Option<&str>) -> GpuDevice {
    GpuDevice { name: name.to_string(), tier, render_node: node.map(|n| n.to_string()) }
}

#[test]
fn classify_vendors() {
    assert_eq!(classify_gpu(&chars("nvidia corporation ga107m")), (GpuTier::Discrete, 0));
    assert_eq!(
        classify_gpu(&chars("advanced micro devices, inc. [amd/ati] navi 23 [radeon rx 6600]")),
        (GpuTier::Discrete, 1)
    );
    assert_eq!(
        classify_gpu(&chars("advanced micro devices, inc. [amd/ati] rembrandt [radeon 680m]")),
        (GpuTier::Integrated, 2)
    );
    assert_eq!(classify_gpu(&chars("intel corporation alder lake-p gt2")), (GpuTier::Integrated, 3));
    assert_eq!(classify_gpu(&chars("matrox g200")), (GpuTier::Unknown, 4));
}

#[test]
fn truncate_names() {
    assert_eq!(
        truncate_gpu_name(&chars("NVIDIA Corporation GA107M [GeForce RTX 3050] [10de:25a2]")),
        chars("NVIDIA Corporation GA107M [GeForce RTX 3050]")
    );
    assert_eq!(truncate_gpu_name(&chars("Plain [no id]")), chars("Plain [no id]"));
    let long = "X".repeat(70);
    assert!(gpu_name_fits_exec(&chars(&long)));
    let mut expect = chars(&"X".repeat(61));
    expect.push('…');
    assert_eq!(truncate_gpu_name(&chars(&long)), expect);
    // A name whose byte 61 falls inside a character cannot be cut there.
    let odd = format!("{}é{}", "X".repeat(60), "Y".repeat(10));
    assert!(!gpu_name_fits_exec(&chars(&odd)));
}

#[test]
fn lspci_picks_best_and_checks_names() {
    let out = "00:02.0 VGA compatible controller [0300]: Intel Corporation UHD Graphics [8086:9bc4]\n\
               05:00.0 Ethernet controller [0200]: Realtek RTL8111\n\
               06:00.0 Display controller [0380]: Advanced Micro Devices, Inc. [AMD/ATI] Navi 23 [Radeon RX 6600] [1002:73ff]\n";
    assert!(lspci_names_fit_check(out));
    let (name, tier) = parse_lspci_gpu(out).unwrap();
    assert_eq!(tier, GpuTier::Discrete);
    // The third `:` field stops inside the `[vendor:device]` id, and the
    // 69-byte name is cut to 61 bytes.
    assert_eq!(name, "Advanced Micro Devices, Inc. [AMD/ATI] Navi 23 [Radeon RX 660…");
    assert_eq!(parse_lspci_gpu("05:00.0 Ethernet controller: Realtek\n"), None);
}

#[test]
fn labels_and_single_topology() {
    assert_eq!(GpuTier::Integrated.label(), "integrated");
    let d = dev("Intel UHD", GpuTier::Integrated, Some("/dev/dri/renderD128"));
    assert_eq!(d.label(), "Intel UHD (integrated, /dev/dri/renderD128)");
    let t = GpuTopology::single("GPU".to_string(), GpuTier::Unknown);
    assert_eq!(t.devices.len(), 1);
    assert_eq!(t.policy, GpuDecodePolicy::SameAsDisplay);
    assert!(!t.is_hybrid());
    assert!(!t.requires_copy_path());
    assert_eq!(t.summary(), "display/decode=GPU (unknown)");
    assert_eq!(GpuDecodePolicy::default(), GpuDecodePolicy::SameAsDisplay);
}

#[test]
fn hybrid_topology_decodes_on_discrete() {
    let devices = vec![
        dev("RTX", GpuTier::Discrete, Some("/dev/dri/renderD129")),
        dev("Iris", GpuTier::Integrated, Some("/dev/dri/renderD128")),
    ];
    let t = topology_from_devices(devices, None);
    assert!(t.is_hybrid());
    assert_eq!(t.display.name, "Iris");
    assert_eq!(t.decode.name, "RTX");
    assert_eq!(t.policy, GpuDecodePolicy::StrongDecodeCopy);
    assert!(t.requires_copy_path());
    assert_eq!(t.display_tier(), GpuTier::Integrated);
    assert_eq!(
        t.summary(),
        "hybrid display=Iris (integrated, /dev/dri/renderD128) · decode=RTX (discrete, /dev/dri/renderD129) · copy-required"
    );
}

#[test]
fn policy_override_keeps_decode_on_display() {
    let devices = vec![
        dev("RTX", GpuTier::Discrete, None),
        dev("Iris", GpuTier::Integrated, None),
        dev("Mystery", GpuTier::Unknown, None),
    ];
    let t = topology_from_devices(devices, Some("Zero-Copy".to_string()));
    assert_eq!(t.decode.name, "Iris");
    assert_eq!(t.policy, GpuDecodePolicy::SameAsDisplay);
    let names: Vec<&str> = t.devices.iter().map(|d| d.name.as_str()).collect();
    assert_eq!(names, vec!["RTX", "Iris", "Mystery"]);
}

#[test]
fn policy_strong_without_discrete_stays_same() {
    let devices = vec![dev("Iris", GpuTier::Integrated, None)];
    let t = topology_from_devices(devices, Some("strong".to_string()));
    assert_eq!(t.decode.name, "Iris");
    assert_eq!(t.policy, GpuDecodePolicy::SameAsDisplay);
    let e = topology_from_devices(Vec::new(), Some("copy".to_string()));
    assert_eq!(e.display.name, "GPU");
    assert_eq!(e.display.tier, GpuTier::Unknown);
}
