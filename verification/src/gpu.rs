//! GPU naming and tiers from `lspci` text, and the multi-GPU topology that
//! decides which device drives the display and which one decodes.

use vstd::prelude::*;

use crate::text::{
    ascii_lower, bytes_prefix, chars_of, contains_chars, first_index, has_sub, last_index,
    copy_opt, lines_exec, lines_of, opt_view, to_lower, trim, trim_exec, utf8_len, views,
};

verus! {

/// Coarse GPU class.
#[derive(Debug, Clone, Copy, PartialEq, Eq, Structural)]
pub enum GpuTier {
    Discrete,
    Integrated,
    Unknown,
}

pub open spec fn tier_label(t: GpuTier) -> Seq<char> {
    match t {
        GpuTier::Discrete => "discrete"@,
        GpuTier::Integrated => "integrated"@,
        GpuTier::Unknown => "unknown"@,
    }
}

impl GpuTier {
    /// Short lower-case name of the tier.
    pub fn label(self) -> (r: &'static str)
        ensures
            r@ == tier_label(self),
    {
        match self {
            GpuTier::Discrete => "discrete",
            GpuTier::Integrated => "integrated",
            GpuTier::Unknown => "unknown",
        }
    }
}

/// Tier and preference rank (lower is preferred) of a lower-cased `lspci` line.
pub open spec fn gpu_class(lower: Seq<char>) -> (GpuTier, u8) {
    let nvidia = has_sub(lower, "nvidia"@);
    let amd = has_sub(lower, "amd"@) || has_sub(lower, "ati"@);
    let intel = has_sub(lower, "intel"@);
    let apu_hint = has_sub(lower, "radeon 6"@) || has_sub(lower, "radeon 7"@) || has_sub(
        lower,
        "rembrandt"@,
    ) || has_sub(lower, "raphael"@) || has_sub(lower, "phoenix"@) || has_sub(lower, "graphics"@)
        || has_sub(lower, "apu"@) || has_sub(lower, "680m"@) || has_sub(lower, "780m"@) || has_sub(
        lower,
        "vega"@,
    );
    if nvidia {
        (GpuTier::Discrete, 0)
    } else if amd && apu_hint && !has_sub(lower, "rx "@) && !has_sub(lower, "[radeon pro"@) {
        (GpuTier::Integrated, 2)
    } else if amd && (has_sub(lower, "rx "@) || has_sub(lower, "navi"@) || has_sub(
        lower,
        "radeon pro"@,
    )) {
        (GpuTier::Discrete, 1)
    } else if intel {
        (GpuTier::Integrated, 3)
    } else if amd {
        (GpuTier::Integrated, 2)
    } else {
        (GpuTier::Unknown, 4)
    }
}

fn holds(hay: &[char], lit: &str) -> (r: bool)
    ensures
        r == has_sub(hay@, lit@),
{
    let n = chars_of(lit);
    contains_chars(hay, n.as_slice())
}

/// Tier and rank of a lower-cased `lspci` line.
pub fn classify_gpu(lower: &[char]) -> (r: (GpuTier, u8))
    ensures
        r == gpu_class(lower@),
{
    let nvidia = holds(lower, "nvidia");
    let amd = holds(lower, "amd") || holds(lower, "ati");
    let intel = holds(lower, "intel");
    if nvidia {
        return (GpuTier::Discrete, 0);
    }
    let apu_hint = holds(lower, "radeon 6") || holds(lower, "radeon 7") || holds(lower, "rembrandt")
        || holds(lower, "raphael") || holds(lower, "phoenix") || holds(lower, "graphics") || holds(
        lower,
        "apu",
    ) || holds(lower, "680m") || holds(lower, "780m") || holds(lower, "vega");
    if amd && apu_hint && !holds(lower, "rx ") && !holds(lower, "[radeon pro") {
        return (GpuTier::Integrated, 2);
    }
    if amd && (holds(lower, "rx ") || holds(lower, "navi") || holds(lower, "radeon pro")) {
        return (GpuTier::Discrete, 1);
    }
    if intel {
        return (GpuTier::Integrated, 3);
    }
    if amd {
        return (GpuTier::Integrated, 2);
    }
    (GpuTier::Unknown, 4)
}

/// The name without a trailing `[vendor:device]` id: when the text from the
/// last `[` holds a `:`, it is cut there and the rest trimmed.
pub open spec fn gpu_base_name(name: Seq<char>) -> Seq<char> {
    match last_index(name, '[') {
        Some(idx) => if has_sub(name.skip(idx as int), seq![':']) {
            trim(name.take(idx as int))
        } else {
            name
        },
        None => name,
    }
}

/// The cut at byte 61 that a name longer than 64 bytes gets falls on a
/// character boundary (otherwise `String::truncate` would panic).
pub open spec fn gpu_name_fits(name: Seq<char>) -> bool {
    let s = gpu_base_name(name);
    utf8_len(s) > 64 ==> utf8_len(bytes_prefix(s, 61)) == 61
}

/// Display name of a GPU: id removed, and at most 64 bytes (longer names are
/// cut to 61 bytes followed by `…`).
pub open spec fn short_gpu_name(name: Seq<char>) -> Seq<char> {
    let s = gpu_base_name(name);
    if utf8_len(s) > 64 {
        bytes_prefix(s, 61) + seq!['…']
    } else {
        s
    }
}

fn gpu_base_name_exec(name: &[char]) -> (r: Vec<char>)
    ensures
        r@ == gpu_base_name(name@),
{
    match crate::text::rfind_char(name, '[') {
        Some(idx) => {
            let tail = crate::text::sub_chars(name, idx, name.len());
            assert(tail@ =~= name@.skip(idx as int));
            assert([':']@ =~= seq![':']);
            if contains_chars(tail.as_slice(), &[':']) {
                let head = crate::text::sub_chars(name, 0, idx);
                assert(head@ =~= name@.take(idx as int));
                trim_exec(head.as_slice())
            } else {
                let all = crate::text::sub_chars(name, 0, name.len());
                assert(all@ =~= name@);
                all
            }
        },
        None => {
            let all = crate::text::sub_chars(name, 0, name.len());
            assert(all@ =~= name@);
            all
        },
    }
}

/// Shortens a GPU name for display.
pub fn truncate_gpu_name(name: &[char]) -> (r: Vec<char>)
    requires
        gpu_name_fits(name@),
    ensures
        r@ == short_gpu_name(name@),
{
    let base = gpu_base_name_exec(name);
    if crate::text::utf8_len_exceeds(base.as_slice(), 64) {
        let mut out = crate::text::bytes_prefix_exec(base.as_slice(), 61);
        out.push('…');
        out
    } else {
        base
    }
}

/// Whether the name can be shortened without cutting a character.
pub fn gpu_name_fits_exec(name: &[char]) -> (r: bool)
    ensures
        r == gpu_name_fits(name@),
{
    let base = gpu_base_name_exec(name);
    if crate::text::utf8_len_exceeds(base.as_slice(), 64) {
        let cut = crate::text::bytes_prefix_exec(base.as_slice(), 61);
        crate::text::utf8_len_exec(cut.as_slice()) == 61
    } else {
        true
    }
}

/// The `n`-th piece of `s` split at `c` (`str::split(c).nth(n)`).
pub open spec fn nth_piece(s: Seq<char>, c: char, n: nat) -> Option<Seq<char>>
    decreases n,
{
    if n == 0 {
        Some(crate::display::first_piece(s, c))
    } else {
        match first_index(s, c) {
            None => None,
            Some(j) => nth_piece(s.skip(j as int + 1), c, (n - 1) as nat),
        }
    }
}

fn nth_piece_exec(s: &[char], c: char, n: usize) -> (r: Option<Vec<char>>)
    ensures
        match r {
            Some(v) => nth_piece(s@, c, n as nat) == Some(v@),
            None => nth_piece(s@, c, n as nat) is None,
        },
    decreases n,
{
    if n == 0 {
        return Some(crate::display::first_piece_exec(s, c));
    }
    assert(s@.skip(0) =~= s@);
    proof {
        crate::text::lemma_first_index_bound(s@, c);
    }
    match crate::text::find_char_from(s, c, 0) {
        None => None,
        Some(j) => {
            let rest = crate::text::sub_chars(s, j + 1, s.len());
            assert(rest@ =~= s@.skip(j as int + 1));
            nth_piece_exec(rest.as_slice(), c, n - 1)
        },
    }
}

/// An `lspci` line that describes a display adapter.
pub open spec fn is_gpu_line(line: Seq<char>) -> bool {
    let lower = ascii_lower(line);
    has_sub(lower, "vga compatible"@) || has_sub(lower, "3d controller"@) || has_sub(
        lower,
        "display controller"@,
    )
}

/// Adapter name of an `lspci` line: the third `:`-separated field, trimmed,
/// or the whole trimmed line when that field is missing or empty.
pub open spec fn gpu_line_name(line: Seq<char>) -> Seq<char> {
    match nth_piece(line, ':', 2) {
        Some(f) => if trim(f).len() > 0 {
            trim(f)
        } else {
            trim(line)
        },
        None => trim(line),
    }
}

/// Candidate entry of an adapter line: short name, tier, rank.
pub open spec fn gpu_candidate(line: Seq<char>) -> (Seq<char>, GpuTier, u8) {
    let c = gpu_class(ascii_lower(line));
    (short_gpu_name(gpu_line_name(line)), c.0, c.1)
}

/// The best adapter among the remaining lines: lowest rank, earliest first.
pub open spec fn best_gpu(lines: Seq<Seq<char>>, best: Option<(Seq<char>, GpuTier, u8)>) -> Option<
    (Seq<char>, GpuTier, u8),
>
    decreases lines.len(),
{
    if lines.len() == 0 {
        best
    } else if is_gpu_line(lines[0]) {
        let c = gpu_candidate(lines[0]);
        let next = match best {
            Some(b) => if c.2 < b.2 {
                Some(c)
            } else {
                best
            },
            None => Some(c),
        };
        best_gpu(lines.skip(1), next)
    } else {
        best_gpu(lines.skip(1), best)
    }
}

/// Every adapter name in the output can be shortened without a panic.
pub open spec fn lspci_names_fit(out: Seq<char>) -> bool {
    forall|i: int|
        0 <= i < lines_of(out).len() && is_gpu_line(#[trigger] lines_of(out)[i]) ==> gpu_name_fits(
            gpu_line_name(lines_of(out)[i]),
        )
}

pub open spec fn lspci_gpu(out: Seq<char>) -> Option<(Seq<char>, GpuTier)> {
    match best_gpu(lines_of(out), None) {
        Some(b) => Some((b.0, b.1)),
        None => None,
    }
}

pub open spec fn gpu_view(r: Option<(String, GpuTier)>) -> Option<(Seq<char>, GpuTier)> {
    match r {
        Some(p) => Some((p.0@, p.1)),
        None => None,
    }
}

spec fn cand_view(b: Option<(Vec<char>, GpuTier, u8)>) -> Option<(Seq<char>, GpuTier, u8)> {
    match b {
        Some(b) => Some((b.0@, b.1, b.2)),
        None => None,
    }
}

fn gpu_line_name_exec(line: &[char]) -> (r: Vec<char>)
    ensures
        r@ == gpu_line_name(line@),
{
    match nth_piece_exec(line, ':', 2) {
        Some(f) => {
            let t = trim_exec(f.as_slice());
            if t.len() > 0 {
                t
            } else {
                trim_exec(line)
            }
        },
        None => trim_exec(line),
    }
}

/// Best display adapter of `lspci -nn` output: `(short name, tier)`,
/// preferring NVIDIA, then discrete AMD, then AMD APUs, then Intel.
pub fn parse_lspci_gpu(out: &str) -> (r: Option<(String, GpuTier)>)
    requires
        lspci_names_fit(out@),
    ensures
        gpu_view(r) == lspci_gpu(out@),
{
    let oc = chars_of(out);
    let lines = lines_exec(oc.as_slice());
    let ghost all = views(lines@);
    let mut best: Option<(Vec<char>, GpuTier, u8)> = None;
    let mut i: usize = 0;
    assert(all.skip(0) =~= all);
    while i < lines.len()
        invariant
            i <= lines.len(),
            all == views(lines@),
            all == lines_of(out@),
            lspci_names_fit(out@),
            best_gpu(all, None) == best_gpu(all.skip(i as int), cand_view(best)),
        decreases lines.len() - i,
    {
        let line = &lines[i];
        assert(all.skip(i as int)[0] == line@);
        assert(all.skip(i as int).skip(1) =~= all.skip(i + 1));
        assert(all[i as int] == line@);
        let lower = to_lower(line.as_slice());
        let gpu_line = holds(lower.as_slice(), "vga compatible") || holds(
            lower.as_slice(),
            "3d controller",
        ) || holds(lower.as_slice(), "display controller");
        if gpu_line {
            let name = gpu_line_name_exec(line.as_slice());
            let short = truncate_gpu_name(name.as_slice());
            let (tier, rank) = classify_gpu(lower.as_slice());
            let replace = match &best {
                Some(b) => rank < b.2,
                None => true,
            };
            if replace {
                best = Some((short, tier, rank));
            }
        }
        i += 1;
    }
    assert(all.skip(i as int) =~= seq![]);
    match best {
        Some(b) => Some((crate::text::string_of(b.0.as_slice()), b.1)),
        None => None,
    }
}


/// One graphics / video device.
pub struct GpuDevice {
    pub name: String,
    pub tier: GpuTier,
    /// DRM render node when known (`/dev/dri/renderD128`).
    pub render_node: Option<String>,
}

/// A device as plain values: name, tier, render node.
pub type DeviceView = (Seq<char>, GpuTier, Option<Seq<char>>);

impl View for GpuDevice {
    type V = DeviceView;

    open spec fn view(&self) -> DeviceView {
        (self.name@, self.tier, opt_view(self.render_node))
    }
}

impl Clone for GpuDevice {
    fn clone(&self) -> (r: Self)
        ensures
            r@ == self@,
    {
        GpuDevice {
            name: self.name.clone(),
            tier: self.tier,
            render_node: copy_opt(&self.render_node),
        }
    }
}

/// `name (tier)` or `name (tier, node)`.
pub open spec fn device_label(d: DeviceView) -> Seq<char> {
    match d.2 {
        Some(n) => d.0 + " ("@ + tier_label(d.1) + ", "@ + n + ")"@,
        None => d.0 + " ("@ + tier_label(d.1) + ")"@,
    }
}

fn push_str(out: &mut Vec<char>, s: &str)
    ensures
        final(out)@ == old(out)@ + s@,
{
    let c = chars_of(s);
    crate::text::push_all(out, c.as_slice());
}

fn push_string(out: &mut Vec<char>, s: &String)
    ensures
        final(out)@ == old(out)@ + s@,
{
    push_str(out, s.as_str());
}

pub fn str_eq(a: &String, b: &String) -> (r: bool)
    ensures
        r == (a@ == b@),
{
    *a == *b
}

impl GpuDevice {
    /// Human-readable label of the device.
    pub fn label(&self) -> (r: String)
        ensures
            r@ == device_label(self@),
    {
        let mut out: Vec<char> = Vec::new();
        push_string(&mut out, &self.name);
        push_str(&mut out, " (");
        push_str(&mut out, self.tier.label());
        match &self.render_node {
            Some(n) => {
                push_str(&mut out, ", ");
                push_string(&mut out, n);
                push_str(&mut out, ")");
            },
            None => {
                push_str(&mut out, ")");
            },
        }
        assert(out@ =~= device_label(self@));
        crate::text::string_of(out.as_slice())
    }
}

/// How decode relates to the display GPU.
#[derive(Debug, Clone, Copy, PartialEq, Eq, Structural)]
pub enum GpuDecodePolicy {
    /// Decode on the display GPU (zero-copy safe).
    SameAsDisplay,
    /// Decode on the stronger GPU; needs a copy path (`*-copy` hwdec or soft RGBA).
    StrongDecodeCopy,
}

impl Default for GpuDecodePolicy {
    fn default() -> (r: Self)
        ensures
            r == GpuDecodePolicy::SameAsDisplay,
    {
        GpuDecodePolicy::SameAsDisplay
    }
}

/// Detected GPUs and their roles.
pub struct GpuTopology {
    pub devices: Vec<GpuDevice>,
    /// GPU that drives the panel: the authority for FPS / resolution caps.
    pub display: GpuDevice,
    /// Preferred hardware decode device (may equal `display`).
    pub decode: GpuDevice,
    pub policy: GpuDecodePolicy,
}

pub open spec fn device_views(ds: Seq<GpuDevice>) -> Seq<DeviceView> {
    ds.map_values(|d: GpuDevice| d@)
}

/// The topology as plain values.
pub struct TopologyView {
    pub devices: Seq<DeviceView>,
    pub display: DeviceView,
    pub decode: DeviceView,
    pub policy: GpuDecodePolicy,
}

impl View for GpuTopology {
    type V = TopologyView;

    open spec fn view(&self) -> TopologyView {
        TopologyView {
            devices: device_views(self.devices@),
            display: self.display@,
            decode: self.decode@,
            policy: self.policy,
        }
    }
}

pub open spec fn single_view(name: Seq<char>, tier: GpuTier) -> TopologyView {
    let d = (name, tier, None::<Seq<char>>);
    TopologyView { devices: seq![d], display: d, decode: d, policy: GpuDecodePolicy::SameAsDisplay }
}

pub open spec fn any_tier(ds: Seq<DeviceView>, t: GpuTier) -> bool {
    exists|i: int| 0 <= i < ds.len() && (#[trigger] ds[i]).1 == t
}

pub open spec fn summary_text(t: TopologyView) -> Seq<char> {
    if t.devices.len() <= 1 {
        "display/decode="@ + device_label(t.display)
    } else {
        "hybrid display="@ + device_label(t.display) + " · decode="@ + device_label(t.decode)
            + " · "@ + match t.policy {
            GpuDecodePolicy::SameAsDisplay => "zero-copy-ok"@,
            GpuDecodePolicy::StrongDecodeCopy => "copy-required"@,
        }
    }
}

impl GpuTopology {
    /// One device that both displays and decodes.
    pub fn single(name: String, tier: GpuTier) -> (r: Self)
        ensures
            r@ == single_view(name@, tier),
    {
        let d = GpuDevice { name, tier, render_node: None };
        let mut devices: Vec<GpuDevice> = Vec::new();
        devices.push(d.clone());
        let display = d.clone();
        let r = GpuTopology { devices, display, decode: d, policy: GpuDecodePolicy::SameAsDisplay };
        assert(device_views(r.devices@) =~= seq![d@]);
        r
    }

    /// More than one device, with both a discrete and an integrated one.
    pub fn is_hybrid(&self) -> (r: bool)
        ensures
            r == (self.devices.len() > 1 && any_tier(self@.devices, GpuTier::Discrete) && any_tier(
                self@.devices,
                GpuTier::Integrated,
            )),
    {
        let mut disc = false;
        let mut integ = false;
        let mut i: usize = 0;
        while i < self.devices.len()
            invariant
                i <= self.devices.len(),
                disc == exists|k: int| 0 <= k < i && self.devices@[k].tier == GpuTier::Discrete,
                integ == exists|k: int| 0 <= k < i && self.devices@[k].tier == GpuTier::Integrated,
            decreases self.devices.len() - i,
        {
            if self.devices[i].tier == GpuTier::Discrete {
                disc = true;
            }
            if self.devices[i].tier == GpuTier::Integrated {
                integ = true;
            }
            i += 1;
        }
        proof {
            let ds = self@.devices;
            assert(disc == any_tier(ds, GpuTier::Discrete)) by {
                if disc {
                    let k = choose|k: int| 0 <= k < i && self.devices@[k].tier == GpuTier::Discrete;
                    assert(ds[k].1 == GpuTier::Discrete);
                }
                if any_tier(ds, GpuTier::Discrete) {
                    let k = choose|k: int| 0 <= k < ds.len() && (#[trigger] ds[k]).1 == GpuTier::Discrete;
                    assert(self.devices@[k].tier == GpuTier::Discrete);
                }
            }
            assert(integ == any_tier(ds, GpuTier::Integrated)) by {
                if integ {
                    let k = choose|k: int| 0 <= k < i && self.devices@[k].tier == GpuTier::Integrated;
                    assert(ds[k].1 == GpuTier::Integrated);
                }
                if any_tier(ds, GpuTier::Integrated) {
                    let k = choose|k: int| 0 <= k < ds.len() && (#[trigger] ds[k]).1 == GpuTier::Integrated;
                    assert(self.devices@[k].tier == GpuTier::Integrated);
                }
            }
        }
        self.devices.len() > 1 && disc && integ
    }

    /// Tier of the display GPU: soft present and GUI budgets follow it.
    pub fn display_tier(&self) -> (r: GpuTier)
        ensures
            r == self@.display.1,
    {
        self.display.tier
    }

    /// Decode and display differ, so frames must go through a copy path.
    pub fn requires_copy_path(&self) -> (r: bool)
        ensures
            r == (self.policy == GpuDecodePolicy::StrongDecodeCopy || (self@.decode.2
                != self@.display.2 && self@.decode.0 != self@.display.0)),
    {
        let same_node = match (&self.decode.render_node, &self.display.render_node) {
            (Some(a), Some(b)) => str_eq(a, b),
            (None, None) => true,
            _ => false,
        };
        self.policy == GpuDecodePolicy::StrongDecodeCopy || (!same_node && !str_eq(
            &self.decode.name,
            &self.display.name,
        ))
    }

    /// One-line description of the roles.
    pub fn summary(&self) -> (r: String)
        ensures
            r@ == summary_text(self@),
    {
        let mut out: Vec<char> = Vec::new();
        if self.devices.len() <= 1 {
            push_str(&mut out, "display/decode=");
            let l = self.display.label();
            push_string(&mut out, &l);
        } else {
            push_str(&mut out, "hybrid display=");
            let l = self.display.label();
            push_string(&mut out, &l);
            push_str(&mut out, " · decode=");
            let l2 = self.decode.label();
            push_string(&mut out, &l2);
            push_str(&mut out, " · ");
            match self.policy {
                GpuDecodePolicy::SameAsDisplay => push_str(&mut out, "zero-copy-ok"),
                GpuDecodePolicy::StrongDecodeCopy => push_str(&mut out, "copy-required"),
            }
        }
        assert(out@ =~= summary_text(self@));
        crate::text::string_of(out.as_slice())
    }
}


/// The devices of tier `t`, in their order.
pub open spec fn of_tier(ds: Seq<DeviceView>, t: GpuTier) -> Seq<DeviceView>
    decreases ds.len(),
{
    if ds.len() == 0 {
        seq![]
    } else {
        let r = of_tier(ds.drop_last(), t);
        if ds.last().1 == t {
            r.push(ds.last())
        } else {
            r
        }
    }
}

/// Stable order by tier: discrete, then integrated, then unknown.
pub open spec fn tier_sorted(ds: Seq<DeviceView>) -> Seq<DeviceView> {
    of_tier(ds, GpuTier::Discrete) + of_tier(ds, GpuTier::Integrated) + of_tier(
        ds,
        GpuTier::Unknown,
    )
}

/// A policy override word: `Some(false)` keeps decode on the display GPU,
/// `Some(true)` asks for the strong GPU; other words are ignored.
pub open spec fn policy_word(v: Seq<char>) -> Option<bool> {
    let l = ascii_lower(v);
    if l == "same"@ || l == "display"@ || l == "zero-copy"@ {
        Some(false)
    } else if l == "strong"@ || l == "discrete"@ || l == "copy"@ {
        Some(true)
    } else {
        None
    }
}

/// The display GPU: the first integrated one (the panel is usually wired
/// there on hybrid laptops), else the first discrete one, else the first.
pub open spec fn display_of(ds: Seq<DeviceView>) -> DeviceView {
    let d = of_tier(ds, GpuTier::Discrete);
    let i = of_tier(ds, GpuTier::Integrated);
    if i.len() > 0 {
        i[0]
    } else if d.len() > 0 {
        d[0]
    } else {
        tier_sorted(ds)[0]
    }
}

pub open spec fn topology_of(ds: Seq<DeviceView>, policy_env: Option<Seq<char>>) -> TopologyView {
    if ds.len() == 0 {
        single_view("GPU"@, GpuTier::Unknown)
    } else {
        let sorted = tier_sorted(ds);
        let d = of_tier(ds, GpuTier::Discrete);
        let i = of_tier(ds, GpuTier::Integrated);
        let display = display_of(ds);
        let word = match policy_env {
            Some(v) => policy_word(v),
            None => None,
        };
        match word {
            Some(false) => TopologyView {
                devices: sorted,
                display,
                decode: display,
                policy: GpuDecodePolicy::SameAsDisplay,
            },
            Some(true) => {
                let decode = if d.len() > 0 {
                    d[0]
                } else {
                    display
                };
                TopologyView {
                    devices: sorted,
                    display,
                    decode,
                    policy: if decode.0 != display.0 {
                        GpuDecodePolicy::StrongDecodeCopy
                    } else {
                        GpuDecodePolicy::SameAsDisplay
                    },
                }
            },
            None => if d.len() > 0 && i.len() > 0 {
                TopologyView {
                    devices: sorted,
                    display,
                    decode: d[0],
                    policy: GpuDecodePolicy::StrongDecodeCopy,
                }
            } else {
                TopologyView {
                    devices: sorted,
                    display,
                    decode: display,
                    policy: GpuDecodePolicy::SameAsDisplay,
                }
            },
        }
    }
}

fn is_word(l: &[char], w: &str) -> (r: bool)
    ensures
        r == (l@ == w@),
{
    let c = chars_of(w);
    crate::text::chars_eq(l, c.as_slice())
}

fn policy_word_exec(v: &String) -> (r: Option<bool>)
    ensures
        r == policy_word(v@),
{
    let c = chars_of(v.as_str());
    let l = to_lower(c.as_slice());
    let ls = l.as_slice();
    if is_word(ls, "same") || is_word(ls, "display") || is_word(ls, "zero-copy") {
        Some(false)
    } else if is_word(ls, "strong") || is_word(ls, "discrete") || is_word(ls, "copy") {
        Some(true)
    } else {
        None
    }
}

fn devices_of_tier(ds: &Vec<GpuDevice>, t: GpuTier) -> (r: Vec<GpuDevice>)
    ensures
        device_views(r@) == of_tier(device_views(ds@), t),
{
    let mut out: Vec<GpuDevice> = Vec::new();
    let mut i: usize = 0;
    while i < ds.len()
        invariant
            i <= ds.len(),
            device_views(out@) == of_tier(device_views(ds@).take(i as int), t),
        decreases ds.len() - i,
    {
        let ghost before = device_views(out@);
        let ghost pre = device_views(ds@).take(i + 1);
        assert(pre.drop_last() =~= device_views(ds@).take(i as int));
        assert(pre.last() == ds@[i as int]@);
        if ds[i].tier == t {
            out.push(ds[i].clone());
            assert(device_views(out@) =~= before.push(ds@[i as int]@));
        }
        i += 1;
    }
    assert(device_views(ds@).take(ds.len() as int) =~= device_views(ds@));
    out
}

fn append_devices(out: &mut Vec<GpuDevice>, src: &Vec<GpuDevice>)
    ensures
        device_views(final(out)@) == device_views(old(out)@) + device_views(src@),
{
    let ghost start = device_views(out@);
    let mut i: usize = 0;
    while i < src.len()
        invariant
            i <= src.len(),
            device_views(out@) == start + device_views(src@).take(i as int),
        decreases src.len() - i,
    {
        let ghost before = device_views(out@);
        out.push(src[i].clone());
        assert(device_views(out@) =~= before.push(src@[i as int]@));
        assert(device_views(src@).take(i + 1) =~= device_views(src@).take(i as int).push(
            src@[i as int]@,
        ));
        i += 1;
    }
    assert(device_views(src@).take(src.len() as int) =~= device_views(src@));
}

/// Builds the topology from detected devices. `policy_env` is the
/// `FLUXPLAY_GPU_POLICY` override when set.
pub fn topology_from_devices(devices: Vec<GpuDevice>, policy_env: Option<String>) -> (r: GpuTopology)
    ensures
        r@ == topology_of(device_views(devices@), opt_view(policy_env)),
{
    if devices.len() == 0 {
        let g = chars_of("GPU");
        return GpuTopology::single(crate::text::string_of(g.as_slice()), GpuTier::Unknown);
    }
    let ghost ds = device_views(devices@);
    let dv = devices_of_tier(&devices, GpuTier::Discrete);
    let iv = devices_of_tier(&devices, GpuTier::Integrated);
    let uv = devices_of_tier(&devices, GpuTier::Unknown);
    let mut sorted: Vec<GpuDevice> = Vec::new();
    assert(device_views(sorted@) =~= seq![]);
    append_devices(&mut sorted, &dv);
    append_devices(&mut sorted, &iv);
    append_devices(&mut sorted, &uv);
    assert(device_views(sorted@) =~= tier_sorted(ds));
    proof {
        lemma_sorted_len(ds);
    }
    let display = if iv.len() > 0 {
        assert(device_views(iv@)[0] == iv@[0]@);
        iv[0].clone()
    } else if dv.len() > 0 {
        assert(device_views(dv@)[0] == dv@[0]@);
        dv[0].clone()
    } else {
        assert(device_views(sorted@)[0] == sorted@[0]@);
        sorted[0].clone()
    };
    assert(display@ == display_of(ds));
    let word: Option<bool> = match &policy_env {
        Some(v) => policy_word_exec(v),
        None => None,
    };
    if dv.len() > 0 {
        assert(device_views(dv@)[0] == dv@[0]@);
    }
    match word {
        Some(false) => {
            let decode = display.clone();
            GpuTopology { devices: sorted, display, decode, policy: GpuDecodePolicy::SameAsDisplay }
        },
        Some(true) => {
            let decode = if dv.len() > 0 {
                dv[0].clone()
            } else {
                display.clone()
            };
            let policy = if !str_eq(&decode.name, &display.name) {
                GpuDecodePolicy::StrongDecodeCopy
            } else {
                GpuDecodePolicy::SameAsDisplay
            };
            GpuTopology { devices: sorted, display, decode, policy }
        },
        None => {
            if dv.len() > 0 && iv.len() > 0 {
                let decode = dv[0].clone();
                GpuTopology {
                    devices: sorted,
                    display,
                    decode,
                    policy: GpuDecodePolicy::StrongDecodeCopy,
                }
            } else {
                let decode = display.clone();
                GpuTopology {
                    devices: sorted,
                    display,
                    decode,
                    policy: GpuDecodePolicy::SameAsDisplay,
                }
            }
        },
    }
}

/// Every device lands in exactly one tier bucket.
pub proof fn lemma_sorted_len(ds: Seq<DeviceView>)
    ensures
        tier_sorted(ds).len() == ds.len(),
    decreases ds.len(),
{
    if ds.len() > 0 {
        lemma_sorted_len(ds.drop_last());
    }
}


/// Whether every adapter name of `lspci` output can be shortened (the
/// condition `parse_lspci_gpu` needs).
pub fn lspci_names_fit_check(out: &str) -> (r: bool)
    ensures
        r == lspci_names_fit(out@),
{
    let oc = chars_of(out);
    let lines = lines_exec(oc.as_slice());
    let ghost all = views(lines@);
    let mut i: usize = 0;
    while i < lines.len()
        invariant
            i <= lines.len(),
            all == views(lines@),
            all == lines_of(out@),
            forall|k: int|
                0 <= k < i && is_gpu_line(#[trigger] all[k]) ==> gpu_name_fits(gpu_line_name(all[k])),
        decreases lines.len() - i,
    {
        let line = &lines[i];
        assert(all[i as int] == line@);
        let lower = to_lower(line.as_slice());
        let gpu_line = holds(lower.as_slice(), "vga compatible") || holds(
            lower.as_slice(),
            "3d controller",
        ) || holds(lower.as_slice(), "display controller");
        if gpu_line {
            let name = gpu_line_name_exec(line.as_slice());
            if !gpu_name_fits_exec(name.as_slice()) {
                return false;
            }
        }
        i += 1;
    }
    true
}

} // verus!
