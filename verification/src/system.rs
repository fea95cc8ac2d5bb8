//! System-level configuration (`system.toml`): which ports to bind, whether the
//! Web UI asks for a login, and the runtime values for models that do not
//! declare their own.
use vstd::prelude::*;
use crate::chars;
use crate::text;

verus! {

#[derive(Debug)]
pub struct SystemConfig {
    pub ports: Ports,
    pub web_ui: WebUi,
    pub runtime: RuntimeDefaults,
}

#[derive(Debug, Clone, Copy, PartialEq, Eq, Structural)]
pub struct Ports {
    pub llama: u16,
    pub web_ui: u16,
}

#[derive(Debug, Clone, Copy, PartialEq, Eq, Structural)]
pub struct WebUi {
    pub auth: bool,
}

#[derive(Debug)]
pub struct RuntimeDefaults {
    pub default_ctx: u32,
    pub default_ngl: u32,
    pub default_threads: u32,
    pub default_batch: u32,
    pub default_ubatch: u32,
    pub kv_cache_k: String,
    pub kv_cache_v: String,
    pub flash_attn: bool,
}

#[verifier::ext_equal]
pub struct RuntimeDefaultsView {
    pub default_ctx: u32,
    pub default_ngl: u32,
    pub default_threads: u32,
    pub default_batch: u32,
    pub default_ubatch: u32,
    pub kv_cache_k: Seq<char>,
    pub kv_cache_v: Seq<char>,
    pub flash_attn: bool,
}

#[verifier::ext_equal]
pub struct SystemView {
    pub ports: Ports,
    pub web_ui: WebUi,
    pub runtime: RuntimeDefaultsView,
}

impl View for RuntimeDefaults {
    type V = RuntimeDefaultsView;

    open spec fn view(&self) -> RuntimeDefaultsView {
        RuntimeDefaultsView {
            default_ctx: self.default_ctx,
            default_ngl: self.default_ngl,
            default_threads: self.default_threads,
            default_batch: self.default_batch,
            default_ubatch: self.default_ubatch,
            kv_cache_k: self.kv_cache_k@,
            kv_cache_v: self.kv_cache_v@,
            flash_attn: self.flash_attn,
        }
    }
}

impl View for SystemConfig {
    type V = SystemView;

    open spec fn view(&self) -> SystemView {
        SystemView { ports: self.ports, web_ui: self.web_ui, runtime: self.runtime@ }
    }
}

pub open spec fn stock_runtime() -> RuntimeDefaultsView {
    RuntimeDefaultsView {
        default_ctx: 32768,
        default_ngl: 99,
        default_threads: 6,
        default_batch: 2048,
        default_ubatch: 512,
        kv_cache_k: "q8_0"@,
        kv_cache_v: "q8_0"@,
        flash_attn: true,
    }
}

pub open spec fn stock_ports() -> Ports {
    Ports { llama: 8080, web_ui: 3000 }
}

/// The configuration of an empty `system.toml`.
pub open spec fn stock_system() -> SystemView {
    SystemView {
        ports: stock_ports(),
        web_ui: WebUi { auth: false },
        runtime: stock_runtime(),
    }
}

impl Default for Ports {
    fn default() -> (r: Self)
        ensures
            r == stock_ports(),
    {
        Ports { llama: 8080, web_ui: 3000 }
    }
}

impl Default for WebUi {
    fn default() -> (r: Self)
        ensures
            r == (WebUi { auth: false }),
    {
        WebUi { auth: false }
    }
}

impl Default for RuntimeDefaults {
    fn default() -> (r: Self)
        ensures
            r@ == stock_runtime(),
    {
        RuntimeDefaults {
            default_ctx: 32768,
            default_ngl: 99,
            default_threads: 6,
            default_batch: 2048,
            default_ubatch: 512,
            kv_cache_k: "q8_0".to_owned(),
            kv_cache_v: "q8_0".to_owned(),
            flash_attn: true,
        }
    }
}

impl Default for SystemConfig {
    fn default() -> (r: Self)
        ensures
            r@ == stock_system(),
    {
        SystemConfig {
            ports: Ports::default(),
            web_ui: WebUi::default(),
            runtime: RuntimeDefaults::default(),
        }
    }
}

/// The values of `system.toml` as the file writes them: any may be missing.
#[derive(Debug)]
pub struct SystemFields {
    pub llama_port: Option<u16>,
    pub web_ui_port: Option<u16>,
    pub auth: Option<bool>,
    pub default_ctx: Option<u32>,
    pub default_ngl: Option<u32>,
    pub default_threads: Option<u32>,
    pub default_batch: Option<u32>,
    pub default_ubatch: Option<u32>,
    pub kv_cache_k: Option<String>,
    pub kv_cache_v: Option<String>,
    pub flash_attn: Option<bool>,
}

/// The value, or another if there is none.
pub open spec fn either<T>(x: Option<T>, other: T) -> T {
    match x {
        Some(v) => v,
        None => other,
    }
}

/// The configuration that the values of a file give.
pub open spec fn system_of(f: SystemFields) -> SystemView {
    SystemView {
        ports: Ports {
            llama: either(f.llama_port, 8080),
            web_ui: either(f.web_ui_port, 3000),
        },
        web_ui: WebUi { auth: either(f.auth, false) },
        runtime: RuntimeDefaultsView {
            default_ctx: either(f.default_ctx, 32768),
            default_ngl: either(f.default_ngl, 99),
            default_threads: either(f.default_threads, 6),
            default_batch: either(f.default_batch, 2048),
            default_ubatch: either(f.default_ubatch, 512),
            kv_cache_k: either(f.kv_cache_k.deep_view(), "q8_0"@),
            kv_cache_v: either(f.kv_cache_v.deep_view(), "q8_0"@),
            flash_attn: either(f.flash_attn, true),
        },
    }
}

impl SystemConfig {
    /// A configuration from the values that its file has, with the defaults for
    /// those that it leaves out.
    pub fn from_fields(f: SystemFields) -> (r: SystemConfig)
        ensures
            r@.ports.llama == either(f.llama_port, 8080),
            r@.ports.web_ui == either(f.web_ui_port, 3000),
            r@.web_ui.auth == either(f.auth, false),
            r@.runtime.default_ctx == either(f.default_ctx, 32768),
            r@.runtime.default_ngl == either(f.default_ngl, 99),
            r@.runtime.default_threads == either(f.default_threads, 6),
            r@.runtime.default_batch == either(f.default_batch, 2048),
            r@.runtime.default_ubatch == either(f.default_ubatch, 512),
            r@.runtime.kv_cache_k == either(f.kv_cache_k.deep_view(), "q8_0"@),
            r@.runtime.kv_cache_v == either(f.kv_cache_v.deep_view(), "q8_0"@),
            r@.runtime.flash_attn == either(f.flash_attn, true),
            r@ == system_of(f),
    {
        let d = RuntimeDefaults::default();
        SystemConfig {
            ports: Ports { llama: f.llama_port.unwrap_or(8080), web_ui: f.web_ui_port.unwrap_or(3000) },
            web_ui: WebUi { auth: f.auth.unwrap_or(false) },
            runtime: RuntimeDefaults {
                default_ctx: f.default_ctx.unwrap_or(d.default_ctx),
                default_ngl: f.default_ngl.unwrap_or(d.default_ngl),
                default_threads: f.default_threads.unwrap_or(d.default_threads),
                default_batch: f.default_batch.unwrap_or(d.default_batch),
                default_ubatch: f.default_ubatch.unwrap_or(d.default_ubatch),
                kv_cache_k: f.kv_cache_k.unwrap_or(d.kv_cache_k),
                kv_cache_v: f.kv_cache_v.unwrap_or(d.kv_cache_v),
                flash_attn: f.flash_attn.unwrap_or(d.flash_attn),
            },
        }
    }
}

// ---------------------------------------------------------------------------
// Physical cores
// ---------------------------------------------------------------------------

/// The processor block of `/proc/cpuinfo` that is being read, and the cores that
/// the blocks before it named, as pairs of physical id and core id.
#[verifier::ext_equal]
pub struct CoreScan {
    pub physical: Option<Seq<char>>,
    pub core: Option<Seq<char>>,
    pub pairs: Set<(Seq<char>, Seq<char>)>,
}

pub open spec fn no_cores() -> CoreScan {
    CoreScan { physical: None, core: None, pairs: Set::empty() }
}

/// At the end of a block its core counts, if the block names it.
pub open spec fn end_block(st: CoreScan) -> CoreScan {
    CoreScan {
        physical: None,
        core: None,
        pairs: match (st.physical, st.core) {
            (Some(p), Some(c)) => st.pairs.insert((p, c)),
            _ => st.pairs,
        },
    }
}

pub open spec fn scan_line(st: CoreScan, line: Seq<char>) -> CoreScan {
    if line.len() == 0 {
        end_block(st)
    } else {
        match chars::split_once(line, ':') {
            None => st,
            Some((k, v)) => if chars::trim(k) == "physical id"@ {
                CoreScan { physical: Some(chars::trim(v)), ..st }
            } else if chars::trim(k) == "core id"@ {
                CoreScan { core: Some(chars::trim(v)), ..st }
            } else {
                st
            },
        }
    }
}

pub open spec fn scan_lines(lines: Seq<Seq<char>>) -> CoreScan
    decreases lines.len(),
{
    if lines.len() == 0 {
        no_cores()
    } else {
        scan_line(scan_lines(lines.drop_last()), lines.last())
    }
}

/// The physical cores that `/proc/cpuinfo` names.
pub open spec fn cores(cpuinfo: Seq<char>) -> Set<(Seq<char>, Seq<char>)> {
    end_block(scan_lines(chars::lines(cpuinfo))).pairs
}

pub open spec fn pairs_of(pairs: Seq<(String, String)>) -> Seq<(Seq<char>, Seq<char>)> {
    pairs.map_values(|p: (String, String)| (p.0@, p.1@))
}

/// Adds a pair, unless it is there.
fn add_pair(pairs: &mut Vec<(String, String)>, a: String, b: String)
    requires
        pairs_of(old(pairs)@).no_duplicates(),
    ensures
        pairs_of(final(pairs)@).no_duplicates(),
        pairs_of(final(pairs)@).to_set() == pairs_of(old(pairs)@).to_set().insert((a@, b@)),
        final(pairs)@.len() <= old(pairs)@.len() + 1,
{
    let ghost before = pairs_of(pairs@);
    let ghost new = (a@, b@);
    let mut i: usize = 0;
    while i < pairs.len()
        invariant
            i <= pairs@.len(),
            before == pairs_of(pairs@),
            new == (a@, b@),
            before.no_duplicates(),
            forall|k: int| 0 <= k < i ==> before[k] != new,
        decreases pairs@.len() - i,
    {
        if text::same(&pairs[i].0, &a) && text::same(&pairs[i].1, &b) {
            proof {
                assert(before[i as int] == new);
                assert(before.to_set().insert(new) =~= before.to_set());
            }
            return;
        }
        assert(before[i as int] == (pairs@[i as int].0@, pairs@[i as int].1@));
        i = i + 1;
    }
    pairs.push((a, b));
    proof {
        let after = pairs_of(pairs@);
        assert(after =~= before.push(new));
        assert forall|x: (Seq<char>, Seq<char>)|
            before.push(new).to_set().contains(x) <==> before.to_set().insert(new).contains(x) by {
            if before.contains(x) {
                let k = choose|k: int| 0 <= k < before.len() && before[k] == x;
                assert(before.push(new)[k] == x);
            }
            assert(before.push(new)[before.len() as int] == new);
        }
        assert(after.to_set() =~= before.to_set().insert(new));
    }
}

/// Counts the physical cores that the text of `/proc/cpuinfo` names, leaving out
/// SMT siblings: each pair of physical id and core id is one core. `None` if it
/// names none, as on machines that do not report them.
pub fn physical_cores(cpuinfo: &str) -> (r: Option<u32>)
    ensures
        match r {
            None => cores(cpuinfo@).len() == 0,
            Some(n) => cores(cpuinfo@).len() > 0 && n == cores(cpuinfo@).len() % 0x1_0000_0000,
        },
{
    let list: Vec<String> = text::lines(cpuinfo);
    let ghost all = list.deep_view();
    let mut pairs: Vec<(String, String)> = Vec::new();
    let mut physical: Option<String> = None;
    let mut core: Option<String> = None;
    let mut i: usize = 0;
    proof {
        assert(pairs_of(pairs@).to_set() =~= Set::empty());
    }
    while i < list.len()
        invariant
            i <= list@.len(),
            all == list.deep_view(),
            pairs@.len() <= i,
            pairs_of(pairs@).no_duplicates(),
            scan_lines(all.take(i as int)) == (CoreScan {
                physical: physical.deep_view(),
                core: core.deep_view(),
                pairs: pairs_of(pairs@).to_set(),
            }),
        decreases list@.len() - i,
    {
        proof {
            let t = all.take(i + 1);
            assert(t.drop_last() =~= all.take(i as int));
            assert(t.last() == list@[i as int]@);
        }
        if list[i].as_str().is_empty() {
            if let Some(p) = physical {
                if let Some(c) = core {
                    add_pair(&mut pairs, p, c);
                }
            }
            physical = None;
            core = None;
        } else {
            match text::split_once(&list[i], ':') {
                None => {},
                Some((k, v)) => {
                    let key: String = text::trim(&k);
                    let value: String = text::trim(&v);
                    if text::same(&key, "physical id") {
                        physical = Some(value);
                    } else if text::same(&key, "core id") {
                        core = Some(value);
                    }
                },
            }
        }
        i = i + 1;
    }
    assert(all.take(i as int) =~= all);
    if let Some(p) = physical {
        if let Some(c) = core {
            add_pair(&mut pairs, p, c);
        }
    }
    proof {
        pairs_of(pairs@).unique_seq_to_set();
    }
    let n: u64 = pairs.len() as u64;
    if n == 0 {
        None
    } else {
        Some((n % 0x1_0000_0000) as u32)
    }
}

// ---------------------------------------------------------------------------
// The file
// ---------------------------------------------------------------------------

/// A documented `system.toml` that says what an empty one means.
pub const TEMPLATE: &'static str = r#"# vello-llama — system configuration.
# Edit this file. Vello regenerates .env from here on every `vello apply`,
# `vello switch`, or `vello install`.

[ports]
llama  = 8080
web_ui = 3000

[web_ui]
# Set true if exposing Open WebUI to a network.
auth = false

[runtime]
# Fallbacks used when a model's [runtime] block doesn't override.
default_ctx     = 32768   # context window
default_ngl     = 99      # GPU layers (99 = all)
default_threads = 6       # physical CPU cores (not SMT)
default_batch   = 2048
default_ubatch  = 512

# KV cache quantization — q8_0 saves ~50% VRAM with near-zero quality loss.
kv_cache_k = "q8_0"
kv_cache_v = "q8_0"

# Flash attention (faster + less VRAM). Disable only if you hit numeric issues.
flash_attn = true

# Note: the values above are GPU-optimized. In CPU mode (see `vello doctor
# --cpu`), the resolver applies automatic overrides — ngl=0, flash_attn=off,
# ctx capped at 8192, batch≤512, ubatch≤128, and threads=physical CPU
# cores. You can still override per-model via catalogs/*.toml [model.runtime].
"#;

/// A fresh `system.toml` with documented sections.
pub fn render_template() -> (r: String)
    ensures
        r@ == TEMPLATE@,
{
    TEMPLATE.to_owned()
}

/// What is said when a `system.toml` was written for want of one.
pub fn created_notice(path: &str) -> (r: String)
    ensures
        r@ == "info: created "@ + path@
            + " with defaults — edit and re-run if you want to change ports/runtime"@,
{
    text::cat3(
        "info: created ",
        path,
        " with defaults — edit and re-run if you want to change ports/runtime",
    )
}

/// A processor of the list: the line with its physical id, that with its core id and the
/// empty line after it count one pair, once, whatever other lines are between them.
pub proof fn law_core_is_counted(
    earlier: Seq<Seq<char>>,
    a: Seq<char>,
    other: Seq<char>,
    b: Seq<char>,
    physical: Seq<char>,
    core: Seq<char>,
)
    requires
        chars::split_once(a, ':') matches Some((k, v)) && chars::trim(k) == "physical id"@
            && chars::trim(v) == physical,
        chars::split_once(b, ':') matches Some((k, v)) && chars::trim(k) == "core id"@
            && chars::trim(v) == core,
        other.len() > 0,
        chars::split_once(other, ':') matches Some((k, v)) ==> chars::trim(k) != "physical id"@
            && chars::trim(k) != "core id"@,
    ensures
        scan_lines(earlier.push(a).push(other).push(b).push(Seq::empty())).pairs == scan_lines(
            earlier,
        ).pairs.insert((physical, core)),
        scan_lines(earlier.push(other)) == scan_lines(earlier),
{
    chars::lemma_position_bound(a, ':');
    chars::lemma_position_bound(b, ':');
    reveal_strlit("physical id");
    reveal_strlit("core id");
    assert("physical id"@.len() == 11 && "core id"@.len() == 7);
    let l1 = earlier.push(a);
    let l2 = l1.push(other);
    let l3 = l2.push(b);
    let l4 = l3.push(Seq::empty());
    assert(l1.drop_last() =~= earlier);
    assert(l2.drop_last() =~= l1);
    assert(l3.drop_last() =~= l2);
    assert(l4.drop_last() =~= l3);
    assert(earlier.push(other).drop_last() =~= earlier);
    assert(a.len() > 0);
    assert(b.len() > 0);
    assert(scan_lines(l1).physical == Some(physical));
    assert(scan_lines(l2) == scan_lines(l1));
    assert(scan_lines(l3).physical == Some(physical) && scan_lines(l3).core == Some(core));
}

/// The last block counts even if no empty line follows it, and blocks that do not say both
/// ids do not count.
pub proof fn law_cores(cpuinfo: Seq<char>)
    ensures
        ({
            let end = scan_lines(chars::lines(cpuinfo));
            &&& end.physical is Some && end.core is Some ==> cores(cpuinfo) == end.pairs.insert(
                (end.physical->0, end.core->0),
            )
            &&& end.physical is None || end.core is None ==> cores(cpuinfo) == end.pairs
        }),
        forall|lines: Seq<Seq<char>>|
            #![trigger scan_lines(lines.push(Seq::empty()))]
            scan_lines(lines.push(Seq::empty())).physical is None && scan_lines(
                lines.push(Seq::empty()),
            ).core is None,
        scan_lines(Seq::<Seq<char>>::empty()).pairs == Set::<(Seq<char>, Seq<char>)>::empty(),
{
    assert forall|lines: Seq<Seq<char>>|
        #![trigger scan_lines(lines.push(Seq::empty()))]
        scan_lines(lines.push(Seq::empty())).physical is None && scan_lines(
            lines.push(Seq::empty()),
        ).core is None by {
        assert(lines.push(Seq::<char>::empty()).drop_last() =~= lines);
    }
}

/// The system as it comes: the ports 8080 and 3000, no login, 32768 tokens of context, all
/// layers on the card, six threads, batches of 2048 and 512, and a cache in q8_0 with flash
/// attention.
pub proof fn law_stock_system()
    ensures
        stock_system().ports.llama == 8080,
        stock_system().ports.web_ui == 3000,
        !stock_system().web_ui.auth,
        stock_system().runtime.default_ctx == 32768,
        stock_system().runtime.default_ngl == 99,
        stock_system().runtime.default_threads == 6,
        stock_system().runtime.default_batch == 2048,
        stock_system().runtime.default_ubatch == 512,
        stock_system().runtime.kv_cache_k == "q8_0"@,
        stock_system().runtime.kv_cache_v == "q8_0"@,
        stock_system().runtime.flash_attn,
{
}

/// What a file says counts, each value for itself, and what it leaves out is as in stock.
pub proof fn law_system_of(f: SystemFields)
    ensures
        ({
            let r = system_of(f);
            let stock = stock_system();
            &&& r.ports.llama == (match f.llama_port {
                Some(x) => x,
                None => stock.ports.llama,
            })
            &&& r.ports.web_ui == (match f.web_ui_port {
                Some(x) => x,
                None => stock.ports.web_ui,
            })
            &&& r.web_ui.auth == (match f.auth {
                Some(x) => x,
                None => stock.web_ui.auth,
            })
            &&& r.runtime.default_ctx == (match f.default_ctx {
                Some(x) => x,
                None => stock.runtime.default_ctx,
            })
            &&& r.runtime.default_ngl == (match f.default_ngl {
                Some(x) => x,
                None => stock.runtime.default_ngl,
            })
            &&& r.runtime.default_threads == (match f.default_threads {
                Some(x) => x,
                None => stock.runtime.default_threads,
            })
            &&& r.runtime.default_batch == (match f.default_batch {
                Some(x) => x,
                None => stock.runtime.default_batch,
            })
            &&& r.runtime.default_ubatch == (match f.default_ubatch {
                Some(x) => x,
                None => stock.runtime.default_ubatch,
            })
            &&& r.runtime.kv_cache_k == (match f.kv_cache_k {
                Some(x) => x@,
                None => stock.runtime.kv_cache_k,
            })
            &&& r.runtime.kv_cache_v == (match f.kv_cache_v {
                Some(x) => x@,
                None => stock.runtime.kv_cache_v,
            })
            &&& r.runtime.flash_attn == (match f.flash_attn {
                Some(x) => x,
                None => stock.runtime.flash_attn,
            })
        }),
{
}

} // verus!
