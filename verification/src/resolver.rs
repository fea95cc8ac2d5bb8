//! Profile, system configuration and the active model's runtime, merged into
//! the `.env` that docker-compose reads.
//!
//! A model's own runtime values win over `system.toml`, and that over the
//! built-in defaults.
use vstd::prelude::*;
use crate::chars;
use crate::docker;
use crate::schema::{Mode, Model, ModelView, Profile};
use crate::system;
use crate::system::{SystemConfig, SystemView};
use crate::text;

verus! {

// ---------------------------------------------------------------------------
// Resolved values
// ---------------------------------------------------------------------------

/// The values that are written to the `.env`.
#[derive(Debug)]
pub struct Resolved {
    pub llama_port: u16,
    pub webui_port: u16,
    pub webui_auth: bool,
    pub model_file: String,
    pub model_alias: String,
    pub ctx: u32,
    pub ngl: u32,
    pub threads: u32,
    pub batch: u32,
    pub ubatch: u32,
    pub kv_cache_k: String,
    pub kv_cache_v: String,
    pub flash_attn: bool,
    /// Empty if the model has no vision part.
    pub mmproj: String,
    /// Joined by spaces; empty if there are none.
    pub extra_args: String,
    pub mode: Mode,
}

#[verifier::ext_equal]
pub struct ResolvedView {
    pub llama_port: u16,
    pub webui_port: u16,
    pub webui_auth: bool,
    pub model_file: Seq<char>,
    pub model_alias: Seq<char>,
    pub ctx: u32,
    pub ngl: u32,
    pub threads: u32,
    pub batch: u32,
    pub ubatch: u32,
    pub kv_cache_k: Seq<char>,
    pub kv_cache_v: Seq<char>,
    pub flash_attn: bool,
    pub mmproj: Seq<char>,
    pub extra_args: Seq<char>,
    pub mode: Mode,
}

impl View for Resolved {
    type V = ResolvedView;

    open spec fn view(&self) -> ResolvedView {
        ResolvedView {
            llama_port: self.llama_port,
            webui_port: self.webui_port,
            webui_auth: self.webui_auth,
            model_file: self.model_file@,
            model_alias: self.model_alias@,
            ctx: self.ctx,
            ngl: self.ngl,
            threads: self.threads,
            batch: self.batch,
            ubatch: self.ubatch,
            kv_cache_k: self.kv_cache_k@,
            kv_cache_v: self.kv_cache_v@,
            flash_attn: self.flash_attn,
            mmproj: self.mmproj@,
            extra_args: self.extra_args@,
            mode: self.mode,
        }
    }
}

impl Clone for Resolved {
    fn clone(&self) -> (r: Self)
        ensures
            r@ == self@,
    {
        Resolved {
            llama_port: self.llama_port,
            webui_port: self.webui_port,
            webui_auth: self.webui_auth,
            model_file: self.model_file.clone(),
            model_alias: self.model_alias.clone(),
            ctx: self.ctx,
            ngl: self.ngl,
            threads: self.threads,
            batch: self.batch,
            ubatch: self.ubatch,
            kv_cache_k: self.kv_cache_k.clone(),
            kv_cache_v: self.kv_cache_v.clone(),
            flash_attn: self.flash_attn,
            mmproj: self.mmproj.clone(),
            extra_args: self.extra_args.clone(),
            mode: self.mode,
        }
    }
}

/// What the values are resolved from.
pub struct ResolveInput<'a> {
    pub model: &'a Model,
    pub model_file: &'a str,
    pub system: &'a SystemConfig,
    pub profile: &'a Profile,
}

/// The extra arguments of llama-server: the vision part, if the model has one,
/// and then the model's own.
pub open spec fn extras(m: ModelView) -> Seq<Seq<char>> {
    (match m.runtime.mmproj {
        Some(f) if f.len() > 0 => seq!["--mmproj"@, "/models/"@ + f],
        _ => Seq::empty(),
    }) + m.runtime.extra_args
}

/// The values before the overrides of CPU mode.
pub open spec fn baseline(
    m: ModelView,
    file: Seq<char>,
    sys: SystemView,
    mode: Mode,
) -> ResolvedView {
    ResolvedView {
        llama_port: sys.ports.llama,
        webui_port: sys.ports.web_ui,
        webui_auth: sys.web_ui.auth,
        model_file: file,
        model_alias: m.id + "-local"@,
        ctx: system::either(m.runtime.ctx_default, sys.runtime.default_ctx),
        ngl: system::either(m.runtime.ngl, sys.runtime.default_ngl),
        threads: sys.runtime.default_threads,
        batch: sys.runtime.default_batch,
        ubatch: sys.runtime.default_ubatch,
        kv_cache_k: system::either(m.runtime.kv_cache_k, sys.runtime.kv_cache_k),
        kv_cache_v: system::either(m.runtime.kv_cache_v, sys.runtime.kv_cache_v),
        flash_attn: sys.runtime.flash_attn,
        mmproj: system::either(m.runtime.mmproj, Seq::empty()),
        extra_args: chars::join(extras(m), " "@),
        mode,
    }
}

pub open spec fn at_most(x: u32, limit: u32) -> u32 {
    if x < limit {
        x
    } else {
        limit
    }
}

/// The overrides of CPU mode: no layers on a GPU, no flash attention, and
/// context and batches no larger than a CPU can take. The threads become the
/// physical cores, if they are known and `system.toml` has its default of 6.
pub open spec fn cpu_overrides(
    r: ResolvedView,
    default_threads: u32,
    cores: Option<u32>,
) -> ResolvedView {
    ResolvedView {
        ngl: 0,
        flash_attn: false,
        ctx: at_most(r.ctx, 8192),
        batch: at_most(r.batch, 512),
        ubatch: at_most(r.ubatch, 128),
        threads: match cores {
            Some(n) if default_threads == 6 => n,
            _ => r.threads,
        },
        ..r
    }
}

/// The values for a model, a configuration and a mode. A context that the model
/// declares stands in both modes: the cap of CPU mode is for the default of
/// `system.toml`.
pub open spec fn spec_resolve(
    m: ModelView,
    file: Seq<char>,
    sys: SystemView,
    mode: Mode,
    cores: Option<u32>,
) -> ResolvedView {
    let r = baseline(m, file, sys, mode);
    match mode {
        Mode::Gpu => r,
        Mode::Cpu => {
            let capped = cpu_overrides(r, sys.runtime.default_threads, cores);
            ResolvedView { ctx: system::either(m.runtime.ctx_default, capped.ctx), ..capped }
        },
    }
}

fn resolve_gpu_baseline(input: &ResolveInput<'_>) -> (r: Resolved)
    ensures
        r@ == baseline(input.model@, input.model_file@, input.system@, input.profile@.mode),
{
    let m: &Model = input.model;
    let sys: &SystemConfig = input.system;
    let mut list: Vec<String> = Vec::new();
    let mut mmproj: String = String::new();
    if let Some(f) = &m.runtime.mmproj {
        mmproj = f.clone();
        if !f.as_str().is_empty() {
            list.push("--mmproj".to_owned());
            list.push(text::cat2("/models/", f));
        }
    }
    let ghost start = list.deep_view();
    let ghost own = m@.runtime.extra_args;
    proof {
        assert(start =~= (match m@.runtime.mmproj {
            Some(f) if f.len() > 0 => seq!["--mmproj"@, "/models/"@ + f],
            _ => Seq::empty(),
        }));
        assert(start + own.take(0) =~= start);
    }
    let mut i: usize = 0;
    while i < m.runtime.extra_args.len()
        invariant
            i <= m.runtime.extra_args@.len(),
            own == m.runtime.extra_args.deep_view(),
            list.deep_view() == start + own.take(i as int),
        decreases m.runtime.extra_args@.len() - i,
    {
        let ghost before = list.deep_view();
        list.push(m.runtime.extra_args[i].clone());
        assert(list.deep_view() =~= before.push(own[i as int]));
        assert(list.deep_view() =~= start + own.take(i + 1));
        i = i + 1;
    }
    assert(own.take(i as int) =~= own);
    let kv_cache_k: String = match &m.runtime.kv_cache_k {
        Some(k) => k.clone(),
        None => sys.runtime.kv_cache_k.clone(),
    };
    let kv_cache_v: String = match &m.runtime.kv_cache_v {
        Some(v) => v.clone(),
        None => sys.runtime.kv_cache_v.clone(),
    };
    Resolved {
        llama_port: sys.ports.llama,
        webui_port: sys.ports.web_ui,
        webui_auth: sys.web_ui.auth,
        model_file: input.model_file.to_owned(),
        model_alias: text::cat2(&m.id, "-local"),
        ctx: match m.runtime.ctx_default {
            Some(c) => c,
            None => sys.runtime.default_ctx,
        },
        ngl: match m.runtime.ngl {
            Some(n) => n,
            None => sys.runtime.default_ngl,
        },
        threads: sys.runtime.default_threads,
        batch: sys.runtime.default_batch,
        ubatch: sys.runtime.default_ubatch,
        kv_cache_k,
        kv_cache_v,
        flash_attn: sys.runtime.flash_attn,
        mmproj,
        extra_args: text::join(&list, " "),
        mode: input.profile.mode,
    }
}

fn min_of(x: u32, limit: u32) -> (r: u32)
    ensures
        r == at_most(x, limit),
{
    if x < limit {
        x
    } else {
        limit
    }
}

/// The overrides of CPU mode, on top of the values for a GPU. `cores` are the
/// physical cores of the machine, if they could be counted.
pub fn apply_cpu_overrides(r: &mut Resolved, sys: &SystemConfig, cores: Option<u32>)
    ensures
        final(r)@ == cpu_overrides(old(r)@, sys@.runtime.default_threads, cores),
{
    r.ngl = 0;
    r.flash_attn = false;
    r.ctx = min_of(r.ctx, 8192);
    r.batch = min_of(r.batch, 512);
    r.ubatch = min_of(r.ubatch, 128);
    // Anything but the default is an intentional choice.
    if sys.runtime.default_threads == 6 {
        if let Some(n) = cores {
            r.threads = n;
        }
    }
}

/// The values for the model, the machine and the mode. `cores` are the physical
/// cores of the machine, if they could be counted; they matter in CPU mode only.
pub fn resolve(input: &ResolveInput<'_>, cores: Option<u32>) -> (r: Resolved)
    ensures
        r@ == spec_resolve(
            input.model@,
            input.model_file@,
            input.system@,
            input.profile@.mode,
            cores,
        ),
{
    let mut r: Resolved = resolve_gpu_baseline(input);
    match input.profile.mode {
        Mode::Gpu => {},
        Mode::Cpu => {
            apply_cpu_overrides(&mut r, input.system, cores);
            if let Some(c) = input.model.runtime.ctx_default {
                r.ctx = c;
            }
        },
    }
    r
}

/// In CPU mode nothing is put on a GPU, flash attention is off, and batches stay
/// within their caps, whatever the configuration says; so does the context, unless
/// the model declares one.
pub proof fn law_cpu_caps(
    m: ModelView,
    file: Seq<char>,
    sys: SystemView,
    cores: Option<u32>,
)
    ensures
        spec_resolve(m, file, sys, Mode::Cpu, cores).ngl == 0,
        !spec_resolve(m, file, sys, Mode::Cpu, cores).flash_attn,
        m.runtime.ctx_default is None ==> spec_resolve(m, file, sys, Mode::Cpu, cores).ctx <= 8192,
        spec_resolve(m, file, sys, Mode::Cpu, cores).batch <= 512,
        spec_resolve(m, file, sys, Mode::Cpu, cores).ubatch <= 128,
{
}

/// The overrides never raise a value that is smaller than its cap, and leave
/// threads alone that were chosen on purpose.
pub proof fn law_cpu_keeps_smaller(r: ResolvedView, default_threads: u32, cores: Option<u32>)
    ensures
        r.ctx <= 8192 ==> cpu_overrides(r, default_threads, cores).ctx == r.ctx,
        r.batch <= 512 ==> cpu_overrides(r, default_threads, cores).batch == r.batch,
        r.ubatch <= 128 ==> cpu_overrides(r, default_threads, cores).ubatch == r.ubatch,
        default_threads != 6 ==> cpu_overrides(r, default_threads, cores).threads == r.threads,
{
}

/// Applying the overrides a second time changes nothing.
pub proof fn law_cpu_overrides_settle(r: ResolvedView, default_threads: u32, cores: Option<u32>)
    ensures
        cpu_overrides(cpu_overrides(r, default_threads, cores), default_threads, cores)
            == cpu_overrides(r, default_threads, cores),
{
}

/// What a model declares for its runtime wins over `system.toml`: in both modes,
/// but for the layers on a GPU, of which CPU mode has none.
pub proof fn law_model_wins(m: ModelView, file: Seq<char>, sys: SystemView, cores: Option<u32>)
    ensures
        forall|mode: Mode|
            m.runtime.ctx_default matches Some(c) ==> #[trigger] spec_resolve(
                m,
                file,
                sys,
                mode,
                cores,
            ).ctx == c,
        m.runtime.ngl matches Some(n) ==> spec_resolve(m, file, sys, Mode::Gpu, cores).ngl == n,
        forall|mode: Mode|
            m.runtime.kv_cache_k matches Some(k) ==> #[trigger] spec_resolve(
                m,
                file,
                sys,
                mode,
                cores,
            ).kv_cache_k == k,
        forall|mode: Mode|
            m.runtime.kv_cache_v matches Some(v) ==> #[trigger] spec_resolve(
                m,
                file,
                sys,
                mode,
                cores,
            ).kv_cache_v == v,
{
}

// ---------------------------------------------------------------------------
// The `.env`
// ---------------------------------------------------------------------------

/// The keys of the `.env` that are written, and those of earlier versions that
/// are dropped. Everything else in the file is the user's.
pub open spec fn managed_keys() -> Seq<Seq<char>> {
    seq![
        "LLAMA_PORT"@,
        "WEBUI_PORT"@,
        "WEBUI_AUTH"@,
        "LLAMA_MODEL_FILE"@,
        "LLAMA_MODEL_ALIAS"@,
        "LLAMA_CTX"@,
        "LLAMA_NGL"@,
        "LLAMA_THREADS"@,
        "LLAMA_BATCH"@,
        "LLAMA_UBATCH"@,
        "LLAMA_KV_CACHE_K"@,
        "LLAMA_KV_CACHE_V"@,
        "LLAMA_FLASH_ATTN"@,
        "LLAMA_EXTRA_ARGS"@,
        "LLAMA_RUNTIME"@,
        "COMPOSE_PROFILES"@,
        "LLAMA_MMPROJ"@,
        "LOCAL_LLM_DEFAULT_MODEL"@,
    ]
}

fn managed_list() -> (r: Vec<&'static str>)
    ensures
        r.deep_view() == managed_keys(),
{
    let r: Vec<&'static str> = vec![
        "LLAMA_PORT",
        "WEBUI_PORT",
        "WEBUI_AUTH",
        "LLAMA_MODEL_FILE",
        "LLAMA_MODEL_ALIAS",
        "LLAMA_CTX",
        "LLAMA_NGL",
        "LLAMA_THREADS",
        "LLAMA_BATCH",
        "LLAMA_UBATCH",
        "LLAMA_KV_CACHE_K",
        "LLAMA_KV_CACHE_V",
        "LLAMA_FLASH_ATTN",
        "LLAMA_EXTRA_ARGS",
        "LLAMA_RUNTIME",
        "COMPOSE_PROFILES",
        "LLAMA_MMPROJ",
        "LOCAL_LLM_DEFAULT_MODEL",
    ];
    assert(r.deep_view() =~= managed_keys());
    r
}

/// A line of the `.env` that is the user's: neither blank nor a comment, nor an
/// assignment to a key that is managed.
pub open spec fn keeps(line: Seq<char>) -> bool {
    let t = chars::trim_start(line);
    &&& t.len() > 0
    &&& t[0] != '#'
    &&& chars::split_once(line, '=') matches Some(kv) ==> !managed_keys().contains(
        chars::trim(kv.0),
    )
}

/// The lines that are the user's, in order.
pub open spec fn kept(lines: Seq<Seq<char>>) -> Seq<Seq<char>>
    decreases lines.len(),
{
    if lines.len() == 0 {
        Seq::empty()
    } else if keeps(lines.last()) {
        kept(lines.drop_last()).push(lines.last())
    } else {
        kept(lines.drop_last())
    }
}

/// What a new `.env` keeps of the one before.
pub open spec fn spec_preserve(existing: Seq<char>) -> Seq<char> {
    chars::unlines(kept(chars::lines(existing)))
}

fn is_managed(key: &str) -> (r: bool)
    ensures
        r == managed_keys().contains(key@),
{
    let list: Vec<&'static str> = managed_list();
    let ghost all = list.deep_view();
    let mut i: usize = 0;
    while i < list.len()
        invariant
            i <= list@.len(),
            all == list.deep_view(),
            all == managed_keys(),
            forall|k: int| 0 <= k < i ==> all[k] != key@,
        decreases list@.len() - i,
    {
        assert(all[i as int] == list@[i as int]@);
        if text::same(list[i], key) {
            return true;
        }
        i = i + 1;
    }
    false
}

fn keeps_line(line: &str) -> (r: bool)
    ensures
        r == keeps(line@),
{
    let t: Vec<char> = text::chars_of(&text::trim_start(line));
    if t.len() == 0 || t[0] == '#' {
        return false;
    }
    match text::split_once(line, '=') {
        None => true,
        Some((k, _)) => {
            let key: String = text::trim(&k);
            !is_managed(&key)
        },
    }
}

/// The lines of an `.env` that the user added: all but comments, blank lines and
/// assignments to keys that are managed.
pub fn preserve_unmanaged(existing: &str) -> (r: String)
    ensures
        r@ == spec_preserve(existing@),
{
    let list: Vec<String> = text::lines(existing);
    let ghost all = list.deep_view();
    let mut out: Vec<String> = Vec::new();
    let mut i: usize = 0;
    assert(out.deep_view() =~= kept(all.take(0)));
    while i < list.len()
        invariant
            i <= list@.len(),
            all == list.deep_view(),
            out.deep_view() == kept(all.take(i as int)),
        decreases list@.len() - i,
    {
        let ghost before = out.deep_view();
        proof {
            let t = all.take(i + 1);
            assert(t.drop_last() =~= all.take(i as int));
            assert(t.last() == list@[i as int]@);
        }
        if keeps_line(&list[i]) {
            out.push(list[i].clone());
            assert(out.deep_view() =~= before.push(list@[i as int]@));
        }
        i = i + 1;
    }
    assert(all.take(i as int) =~= all);
    text::unlines(&out)
}

/// An assignment.
pub open spec fn entry(key: Seq<char>, value: Seq<char>) -> Seq<char> {
    key + "="@ + value
}

pub open spec fn number(key: Seq<char>, value: nat) -> Seq<char> {
    entry(key, chars::decimal(value))
}

/// The lines of the `.env` that are written.
pub open spec fn env_lines(r: ResolvedView) -> Seq<Seq<char>> {
    seq![
        "# Generated by `vello apply`. Edit system.toml or catalogs/*.toml,"@,
        "# then run `vello apply` (or `vello switch <id>`) to regenerate."@,
        "# Lines you add manually are preserved across regenerations."@,
        ""@,
        "# Ports"@,
        number("LLAMA_PORT"@, r.llama_port as nat),
        number("WEBUI_PORT"@, r.webui_port as nat),
        ""@,
        "# Active model"@,
        entry("LLAMA_MODEL_FILE"@, r.model_file),
        entry("LLAMA_MODEL_ALIAS"@, r.model_alias),
        ""@,
        "# Runtime (resolved from system.toml + model [runtime])"@,
        number("LLAMA_CTX"@, r.ctx as nat),
        number("LLAMA_NGL"@, r.ngl as nat),
        number("LLAMA_THREADS"@, r.threads as nat),
        number("LLAMA_BATCH"@, r.batch as nat),
        number("LLAMA_UBATCH"@, r.ubatch as nat),
        entry("LLAMA_KV_CACHE_K"@, r.kv_cache_k),
        entry("LLAMA_KV_CACHE_V"@, r.kv_cache_v),
        entry("LLAMA_FLASH_ATTN"@, if r.flash_attn { "on"@ } else { "off"@ }),
        ""@,
        "# Model-specific extras (vision mmproj, MoE flags, etc.)"@,
        entry("LLAMA_EXTRA_ARGS"@, r.extra_args),
        ""@,
        "# Runtime selection (docker compose profile)"@,
        entry("LLAMA_RUNTIME"@, docker::spec_profile_flag(r.mode)),
        entry("COMPOSE_PROFILES"@, docker::spec_profile_flag(r.mode)),
        ""@,
        "# Web UI"@,
        entry("WEBUI_AUTH"@, if r.webui_auth { "True"@ } else { "False"@ }),
    ]
}

/// The lines that are written, and then those that are the user's, if any.
pub open spec fn spec_render(r: ResolvedView, preserved: Seq<char>) -> Seq<char> {
    chars::unlines(env_lines(r)) + (if chars::trim(preserved).len() > 0 {
        "\n# --- preserved (user-added) ---\n"@ + preserved
    } else {
        Seq::empty()
    })
}

fn entry_line(key: &str, value: &str) -> (r: String)
    ensures
        r@ == entry(key@, value@),
{
    text::cat3(key, "=", value)
}

fn number_line(key: &str, value: u32) -> (r: String)
    ensures
        r@ == number(key@, value as nat),
{
    let v: String = text::decimal(value as u128);
    text::cat3(key, "=", &v)
}

/// The `.env` for the resolved values, with the lines that are the user's.
pub fn render(r: &Resolved, preserved: &str) -> (out: String)
    ensures
        out@ == spec_render(r@, preserved@),
{
    let runtime: &'static str = docker::profile_flag(r.mode);
    let flash: &'static str = if r.flash_attn { "on" } else { "off" };
    let auth: &'static str = if r.webui_auth { "True" } else { "False" };
    let lines: Vec<String> = vec![
        "# Generated by `vello apply`. Edit system.toml or catalogs/*.toml,".to_owned(),
        "# then run `vello apply` (or `vello switch <id>`) to regenerate.".to_owned(),
        "# Lines you add manually are preserved across regenerations.".to_owned(),
        "".to_owned(),
        "# Ports".to_owned(),
        number_line("LLAMA_PORT", r.llama_port as u32),
        number_line("WEBUI_PORT", r.webui_port as u32),
        "".to_owned(),
        "# Active model".to_owned(),
        entry_line("LLAMA_MODEL_FILE", &r.model_file),
        entry_line("LLAMA_MODEL_ALIAS", &r.model_alias),
        "".to_owned(),
        "# Runtime (resolved from system.toml + model [runtime])".to_owned(),
        number_line("LLAMA_CTX", r.ctx),
        number_line("LLAMA_NGL", r.ngl),
        number_line("LLAMA_THREADS", r.threads),
        number_line("LLAMA_BATCH", r.batch),
        number_line("LLAMA_UBATCH", r.ubatch),
        entry_line("LLAMA_KV_CACHE_K", &r.kv_cache_k),
        entry_line("LLAMA_KV_CACHE_V", &r.kv_cache_v),
        entry_line("LLAMA_FLASH_ATTN", flash),
        "".to_owned(),
        "# Model-specific extras (vision mmproj, MoE flags, etc.)".to_owned(),
        entry_line("LLAMA_EXTRA_ARGS", &r.extra_args),
        "".to_owned(),
        "# Runtime selection (docker compose profile)".to_owned(),
        entry_line("LLAMA_RUNTIME", runtime),
        entry_line("COMPOSE_PROFILES", runtime),
        "".to_owned(),
        "# Web UI".to_owned(),
        entry_line("WEBUI_AUTH", auth),
    ];
    assert(lines.deep_view() =~= env_lines(r@));
    let mut out: String = text::unlines(&lines);
    let ghost head = out@;
    if text::is_blank(preserved) {
        assert(head =~= head + Seq::<char>::empty());
    } else {
        out.append("\n# --- preserved (user-added) ---\n");
        out.append(preserved);
        assert(out@ =~= head + ("\n# --- preserved (user-added) ---\n"@ + preserved@));
    }
    out
}

/// The text that replaces an `.env`: the resolved values, and what the user had
/// added to it.
pub open spec fn spec_write_env(existing: Seq<char>, r: ResolvedView) -> Seq<char> {
    spec_render(r, spec_preserve(existing))
}

pub fn write_env(existing: &str, r: &Resolved) -> (out: String)
    ensures
        out@ == spec_write_env(existing@, r@),
{
    let preserved: String = preserve_unmanaged(existing);
    render(r, &preserved)
}

// ---------------------------------------------------------------------------
// Laws of the `.env`
// ---------------------------------------------------------------------------

/// Values that do not break the lines of the `.env`.
pub open spec fn one_line_values(r: ResolvedView) -> bool {
    &&& chars::one_line(r.model_file)
    &&& chars::one_line(r.model_alias)
    &&& chars::one_line(r.kv_cache_k)
    &&& chars::one_line(r.kv_cache_v)
    &&& chars::one_line(r.extra_args)
}

/// No line of the user's ends in a carriage return of its own.
pub open spec fn no_stray_returns(existing: Seq<char>) -> bool {
    forall|i: int|
        0 <= i < kept(chars::lines(existing)).len() ==> chars::without_cr(
            #[trigger] kept(chars::lines(existing))[i],
        ) == kept(chars::lines(existing))[i]
}

proof fn lemma_kept(lines: Seq<Seq<char>>)
    ensures
        forall|i: int| 0 <= i < kept(lines).len() ==> keeps(#[trigger] kept(lines)[i]),
        forall|i: int| 0 <= i < kept(lines).len() ==> lines.contains(#[trigger] kept(lines)[i]),
    decreases lines.len(),
{
    if lines.len() > 0 {
        let rest = lines.drop_last();
        lemma_kept(rest);
        let all = kept(lines);
        assert forall|i: int| 0 <= i < all.len() implies keeps(#[trigger] all[i])
            && lines.contains(all[i]) by {
            if i < kept(rest).len() {
                assert(all[i] == kept(rest)[i]);
                let k = choose|k: int| 0 <= k < rest.len() && rest[k] == all[i];
                assert(lines[k] == all[i]);
            } else {
                assert(lines[lines.len() - 1] == all[i]);
            }
        }
    }
}

/// The user's lines are exactly those that are kept: nothing managed stays, and
/// nothing of the user's is lost.
pub proof fn law_kept_lines(existing: Seq<char>, line: Seq<char>)
    ensures
        kept(chars::lines(existing)).contains(line) <==> chars::lines(existing).contains(line)
            && keeps(line),
{
    let lines = chars::lines(existing);
    lemma_kept(lines);
    if lines.contains(line) && keeps(line) {
        let i = choose|i: int| 0 <= i < lines.len() && lines[i] == line;
        lemma_kept_has(lines, i);
    }
    if kept(lines).contains(line) {
        let i = choose|i: int| 0 <= i < kept(lines).len() && kept(lines)[i] == line;
        assert(keeps(kept(lines)[i]));
    }
}

proof fn lemma_kept_has(lines: Seq<Seq<char>>, i: int)
    requires
        0 <= i < lines.len(),
        keeps(lines[i]),
    ensures
        kept(lines).contains(lines[i]),
    decreases lines.len(),
{
    let rest = lines.drop_last();
    if i < rest.len() {
        lemma_kept_has(rest, i);
        assert(rest[i] == lines[i]);
        let k = choose|k: int| 0 <= k < kept(rest).len() && kept(rest)[k] == lines[i];
        assert(kept(lines)[k] == lines[i]);
    } else {
        assert(kept(lines)[kept(rest).len() as int] == lines[i]);
    }
}

proof fn lemma_kept_joined(a: Seq<Seq<char>>, b: Seq<Seq<char>>)
    ensures
        kept(a + b) == kept(a) + kept(b),
    decreases b.len(),
{
    if b.len() == 0 {
        assert(a + b =~= a);
        assert(kept(a) + kept(b) =~= kept(a));
    } else {
        lemma_kept_joined(a, b.drop_last());
        assert((a + b).drop_last() =~= a + b.drop_last());
        assert((a + b).last() == b.last());
        assert(kept(a + b) =~= kept(a) + kept(b));
    }
}

proof fn lemma_all_kept(lines: Seq<Seq<char>>)
    requires
        forall|i: int| 0 <= i < lines.len() ==> keeps(#[trigger] lines[i]),
    ensures
        kept(lines) == lines,
    decreases lines.len(),
{
    if lines.len() == 0 {
        assert(kept(lines) =~= lines);
    } else {
        let rest = lines.drop_last();
        assert forall|i: int| 0 <= i < rest.len() implies keeps(#[trigger] rest[i]) by {
            assert(rest[i] == lines[i]);
        }
        lemma_all_kept(rest);
        assert(keeps(lines[lines.len() - 1]));
        assert(kept(lines) =~= lines);
    }
}

proof fn lemma_none_kept(lines: Seq<Seq<char>>)
    requires
        forall|i: int| 0 <= i < lines.len() ==> !keeps(#[trigger] lines[i]),
    ensures
        kept(lines) == Seq::<Seq<char>>::empty(),
    decreases lines.len(),
{
    if lines.len() > 0 {
        let rest = lines.drop_last();
        assert forall|i: int| 0 <= i < rest.len() implies !keeps(#[trigger] rest[i]) by {
            assert(rest[i] == lines[i]);
        }
        lemma_none_kept(rest);
        assert(!keeps(lines[lines.len() - 1]));
    }
}

/// A key of capital letters and underscores.
spec fn plain_key(key: Seq<char>) -> bool {
    &&& key.len() > 0
    &&& forall|i: int| 0 <= i < key.len() ==> ('A' <= #[trigger] key[i] <= 'Z' || key[i] == '_')
}

proof fn lemma_plain_keys()
    ensures
        forall|i: int| 0 <= i < managed_keys().len() ==> plain_key(#[trigger] managed_keys()[i]),
{
    reveal_strlit("LLAMA_PORT");
    reveal_strlit("WEBUI_PORT");
    reveal_strlit("WEBUI_AUTH");
    reveal_strlit("LLAMA_MODEL_FILE");
    reveal_strlit("LLAMA_MODEL_ALIAS");
    reveal_strlit("LLAMA_CTX");
    reveal_strlit("LLAMA_NGL");
    reveal_strlit("LLAMA_THREADS");
    reveal_strlit("LLAMA_BATCH");
    reveal_strlit("LLAMA_UBATCH");
    reveal_strlit("LLAMA_KV_CACHE_K");
    reveal_strlit("LLAMA_KV_CACHE_V");
    reveal_strlit("LLAMA_FLASH_ATTN");
    reveal_strlit("LLAMA_EXTRA_ARGS");
    reveal_strlit("LLAMA_RUNTIME");
    reveal_strlit("COMPOSE_PROFILES");
    reveal_strlit("LLAMA_MMPROJ");
    reveal_strlit("LOCAL_LLM_DEFAULT_MODEL");
}

/// A line with a managed key is not the user's.
proof fn lemma_managed_dropped(i: int, value: Seq<char>)
    requires
        0 <= i < managed_keys().len(),
    ensures
        !keeps(chars::without_cr(entry(managed_keys()[i], value))),
        chars::one_line(value) ==> chars::one_line(entry(managed_keys()[i], value)),
{
    let key = managed_keys()[i];
    lemma_plain_keys();
    assert(plain_key(key));
    reveal_strlit("=");
    let whole = entry(key, value);
    let line = chars::without_cr(whole);
    let n = key.len() as int;
    assert(whole[n] == '=');
    assert(line.len() > n);
    assert(line.take(n) =~= key);
    assert forall|k: int| 0 <= k < n implies line[k] != '=' && !chars::is_white(line[k]) by {
        assert(line[k] == key[k]);
    }
    assert(line[n] == '=');
    chars::lemma_position_is(line, '=', n);
    assert(!chars::is_white(key[0]));
    assert(!chars::is_white(key[n - 1]));
    chars::lemma_trim_start_is(key, 0);
    assert(key.skip(0) =~= key);
    chars::lemma_trim_end_is(key, n);
    assert(key.take(n) =~= key);
    assert(chars::trim(key) == key);
    assert(managed_keys().contains(key));
    assert(chars::split_once(line, '=') matches Some(kv) && kv.0 == key);
    if chars::one_line(value) {
        assert forall|k: int| 0 <= k < whole.len() implies whole[k] != '\n' by {
            if k < n {
                assert(whole[k] == key[k]);
            } else if k > n {
                assert(whole[k] == value[k - n - 1]);
            }
        }
    }
}

/// A comment is not the user's.
proof fn lemma_comment_dropped(line: Seq<char>)
    requires
        line.len() > 1,
        line[0] == '#',
    ensures
        !keeps(chars::without_cr(line)),
{
    let l = chars::without_cr(line);
    assert(l[0] == '#');
    chars::lemma_trim_start_is(l, 0);
    assert(l.skip(0) =~= l);
}

proof fn lemma_decimal_one_line(n: nat)
    ensures
        chars::one_line(chars::decimal(n)),
    decreases n,
{
    let d = chars::decimal(n);
    if n >= 10 {
        lemma_decimal_one_line(n / 10);
        let shorter = chars::decimal(n / 10);
        assert forall|i: int| 0 <= i < d.len() implies d[i] != '\n' by {
            if i < shorter.len() {
                assert(d[i] == shorter[i]);
            } else {
                assert(chars::digit(n % 10) != '\n');
            }
        }
    } else {
        assert(chars::digit(n) != '\n');
    }
}

/// A written line is a line if its value is, and it is not the user's.
proof fn lemma_env_line(r: ResolvedView, i: int)
    requires
        0 <= i < env_lines(r).len(),
        i == 9 ==> chars::one_line(r.model_file),
        i == 10 ==> chars::one_line(r.model_alias),
        i == 18 ==> chars::one_line(r.kv_cache_k),
        i == 19 ==> chars::one_line(r.kv_cache_v),
        i == 23 ==> chars::one_line(r.extra_args),
    ensures
        chars::one_line(env_lines(r)[i]),
        !keeps(chars::without_cr(env_lines(r)[i])),
{
    let lines = env_lines(r);
    reveal_strlit("");
    if i == 3 || i == 7 || i == 11 || i == 21 || i == 24 || i == 28 {
        assert(lines[i] == ""@);
    } else if i == 0 || i == 1 || i == 2 || i == 4 || i == 8 || i == 12 || i == 22 || i == 25 || i
        == 29 {
        reveal_strlit("# Generated by `vello apply`. Edit system.toml or catalogs/*.toml,");
        reveal_strlit("# then run `vello apply` (or `vello switch <id>`) to regenerate.");
        reveal_strlit("# Lines you add manually are preserved across regenerations.");
        reveal_strlit("# Ports");
        reveal_strlit("# Active model");
        reveal_strlit("# Runtime (resolved from system.toml + model [runtime])");
        reveal_strlit("# Model-specific extras (vision mmproj, MoE flags, etc.)");
        reveal_strlit("# Runtime selection (docker compose profile)");
        reveal_strlit("# Web UI");
        lemma_comment_dropped(lines[i]);
    } else {
        let (k, v) = written_entry(r, i);
        assert(lines[i] == entry(managed_keys()[k], v));
        lemma_written_one_line(r, i);
        lemma_managed_dropped(k, v);
    }
}

/// The written lines are lines, and none of them is the user's.
proof fn lemma_env_lines(r: ResolvedView)
    requires
        one_line_values(r),
    ensures
        forall|i: int|
            0 <= i < env_lines(r).len() ==> chars::one_line(#[trigger] env_lines(r)[i]) && !keeps(
                chars::without_cr(env_lines(r)[i]),
            ),
{
    let lines = env_lines(r);
    assert forall|i: int| 0 <= i < lines.len() implies chars::one_line(#[trigger] lines[i])
        && !keeps(chars::without_cr(lines[i])) by {
        lemma_env_line(r, i);
    }
}

/// Which managed key the written line assigns, and what.
spec fn written_entry(r: ResolvedView, i: int) -> (int, Seq<char>) {
    if i == 5 {
        (0, chars::decimal(r.llama_port as nat))
    } else if i == 6 {
        (1, chars::decimal(r.webui_port as nat))
    } else if i == 9 {
        (3, r.model_file)
    } else if i == 10 {
        (4, r.model_alias)
    } else if i == 13 {
        (5, chars::decimal(r.ctx as nat))
    } else if i == 14 {
        (6, chars::decimal(r.ngl as nat))
    } else if i == 15 {
        (7, chars::decimal(r.threads as nat))
    } else if i == 16 {
        (8, chars::decimal(r.batch as nat))
    } else if i == 17 {
        (9, chars::decimal(r.ubatch as nat))
    } else if i == 18 {
        (10, r.kv_cache_k)
    } else if i == 19 {
        (11, r.kv_cache_v)
    } else if i == 20 {
        (12, if r.flash_attn { "on"@ } else { "off"@ })
    } else if i == 23 {
        (13, r.extra_args)
    } else if i == 26 {
        (14, docker::spec_profile_flag(r.mode))
    } else if i == 27 {
        (15, docker::spec_profile_flag(r.mode))
    } else {
        (2, if r.webui_auth { "True"@ } else { "False"@ })
    }
}

proof fn lemma_written_one_line(r: ResolvedView, i: int)
    requires
        i == 9 ==> chars::one_line(r.model_file),
        i == 10 ==> chars::one_line(r.model_alias),
        i == 18 ==> chars::one_line(r.kv_cache_k),
        i == 19 ==> chars::one_line(r.kv_cache_v),
        i == 23 ==> chars::one_line(r.extra_args),
    ensures
        chars::one_line(written_entry(r, i).1),
{
    lemma_decimal_one_line(r.llama_port as nat);
    lemma_decimal_one_line(r.webui_port as nat);
    lemma_decimal_one_line(r.ctx as nat);
    lemma_decimal_one_line(r.ngl as nat);
    lemma_decimal_one_line(r.threads as nat);
    lemma_decimal_one_line(r.batch as nat);
    lemma_decimal_one_line(r.ubatch as nat);
    reveal_strlit("on");
    reveal_strlit("off");
    reveal_strlit("cuda");
    reveal_strlit("cpu");
    reveal_strlit("True");
    reveal_strlit("False");
}

/// The lines of a rendered `.env`.
proof fn lemma_rendered_lines(r: ResolvedView, preserved: Seq<char>)
    requires
        one_line_values(r),
    ensures
        chars::lines(spec_render(r, preserved)) == chars::without_crs(env_lines(r)) + (
        if chars::trim(preserved).len() > 0 {
            seq![""@, "# --- preserved (user-added) ---"@] + chars::lines(preserved)
        } else {
            Seq::empty()
        }),
{
    lemma_env_lines(r);
    let lines = env_lines(r);
    if chars::trim(preserved).len() > 0 {
        let mark = "# --- preserved (user-added) ---"@;
        reveal_strlit("# --- preserved (user-added) ---");
        reveal_strlit("\n# --- preserved (user-added) ---\n");
        reveal_strlit("");
        let tail = "\n# --- preserved (user-added) ---\n"@ + preserved;
        let two = seq![""@, mark];
        assert(tail =~= chars::unlines(two) + preserved) by {
            assert(two.drop_last() =~= seq![""@]);
            assert(seq![""@].drop_last() =~= Seq::<Seq<char>>::empty());
            reveal_with_fuel(chars::unlines, 3);
        }
        chars::lemma_lines_of(two, preserved);
        assert(chars::without_crs(two) =~= two);
        chars::lemma_lines_of(lines, tail);
    } else {
        chars::lemma_lines_of(lines, Seq::empty());
        assert(chars::unlines(lines) + Seq::<char>::empty() =~= spec_render(r, preserved));
    }
}

proof fn lemma_preserved_lines(existing: Seq<char>)
    requires
        no_stray_returns(existing),
    ensures
        chars::lines(spec_preserve(existing)) == kept(chars::lines(existing)),
        kept(chars::lines(existing)).len() > 0 ==> chars::trim(spec_preserve(existing)).len() > 0,
        kept(chars::lines(existing)).len() == 0 ==> spec_preserve(existing).len() == 0,
{
    let ls = kept(chars::lines(existing));
    lemma_kept(chars::lines(existing));
    chars::lemma_lines_one_line(existing);
    assert forall|i: int| 0 <= i < ls.len() implies chars::one_line(#[trigger] ls[i]) by {
        let all = chars::lines(existing);
        assert(all.contains(ls[i]));
        let k = choose|k: int| 0 <= k < all.len() && all[k] == ls[i];
        assert(chars::one_line(all[k]));
    }
    chars::lemma_lines_of(ls, Seq::empty());
    assert(chars::unlines(ls) + Seq::<char>::empty() =~= chars::unlines(ls));
    assert(chars::without_crs(ls) =~= ls);
    assert(ls + Seq::<Seq<char>>::empty() =~= ls);
    if ls.len() > 0 {
        let last = ls.last();
        assert(keeps(ls[ls.len() - 1]));
        chars::lemma_not_blank(last);
        let k = choose|k: int| 0 <= k < last.len() && !chars::is_white(#[trigger] last[k]);
        let before = chars::unlines(ls.drop_last());
        assert(chars::unlines(ls)[before.len() + k] == last[k]);
        chars::lemma_trim_not_empty(chars::unlines(ls), before.len() + k);
    }
}

/// What the user added survives regeneration: the new `.env` keeps of itself
/// what it kept of the one before.
pub proof fn law_user_lines_survive(r: ResolvedView, existing: Seq<char>)
    requires
        one_line_values(r),
        no_stray_returns(existing),
    ensures
        spec_preserve(spec_render(r, spec_preserve(existing))) == spec_preserve(existing),
        kept(chars::lines(spec_render(r, spec_preserve(existing)))) == kept(
            chars::lines(existing),
        ),
{
    let p = spec_preserve(existing);
    let ls = kept(chars::lines(existing));
    let head = chars::without_crs(env_lines(r));
    lemma_preserved_lines(existing);
    lemma_rendered_lines(r, p);
    lemma_env_lines(r);
    lemma_none_kept(head);
    lemma_kept(chars::lines(existing));
    lemma_all_kept(ls);
    if ls.len() > 0 {
        let two = seq![""@, "# --- preserved (user-added) ---"@];
        assert forall|i: int| 0 <= i < two.len() implies !keeps(#[trigger] two[i]) by {
            reveal_strlit("");
            reveal_strlit("# --- preserved (user-added) ---");
            if i == 1 {
                lemma_comment_dropped(two[1]);
                assert(chars::without_cr(two[1]) == two[1]);
            }
        }
        lemma_none_kept(two);
        lemma_kept_joined(two, ls);
        lemma_kept_joined(head, two + ls);
        assert(kept(head + (two + ls)) =~= ls);
    } else {
        assert(chars::trim(p).len() == 0) by {
            assert(p =~= Seq::empty());
        }
        lemma_kept_joined(head, Seq::empty());
        assert(kept(head + Seq::<Seq<char>>::empty()) =~= ls);
    }
}

/// Writing the `.env` a second time changes nothing.
pub proof fn law_rewriting_settles(r: ResolvedView, existing: Seq<char>)
    requires
        one_line_values(r),
        no_stray_returns(existing),
    ensures
        spec_render(r, spec_preserve(spec_render(r, spec_preserve(existing)))) == spec_render(
            r,
            spec_preserve(existing),
        ),
{
    law_user_lines_survive(r, existing);
}

proof fn lemma_value_found(lines: Seq<Seq<char>>, prefix: Seq<char>, i: int, rest: Seq<char>)
    requires
        0 <= i < lines.len(),
        chars::strip_prefix(lines[i], prefix) == Some(rest),
        forall|k: int| 0 <= k < i ==> !chars::starts_with(#[trigger] lines[k], prefix),
    ensures
        docker::value_in_lines(lines, prefix) == Some(chars::unquoted(chars::trim(rest))),
    decreases i,
{
    if i > 0 {
        assert(!chars::starts_with(lines[0], prefix));
        let t = lines.drop_first();
        assert forall|k: int| 0 <= k < i - 1 implies !chars::starts_with(
            #[trigger] t[k],
            prefix,
        ) by {
            assert(t[k] == lines[k + 1]);
        }
        lemma_value_found(t, prefix, i - 1, rest);
    }
}

proof fn lemma_differs(line: Seq<char>, prefix: Seq<char>, j: int)
    requires
        0 <= j < prefix.len(),
        j < line.len() ==> line[j] != prefix[j],
    ensures
        !chars::starts_with(chars::without_cr(line), prefix),
{
    let l = chars::without_cr(line);
    if chars::starts_with(l, prefix) {
        assert(l.take(prefix.len() as int)[j] == prefix[j]);
    }
}

/// The value of an assignment is what follows the key and the equals sign.
proof fn lemma_entry_value(key: Seq<char>, prefix: Seq<char>, value: Seq<char>)
    requires
        prefix == key + "="@,
    ensures
        chars::strip_prefix(chars::without_cr(entry(key, value)), prefix) == Some(
            chars::without_cr(value),
        ),
{
    reveal_strlit("=");
    let whole = entry(key, value);
    let line = chars::without_cr(whole);
    let n = prefix.len() as int;
    assert(whole =~= prefix + value);
    assert(whole.last() == (if value.len() > 0 { value.last() } else { '=' }));
    assert(line =~= prefix + chars::without_cr(value));
    assert(line.take(n) =~= prefix);
    assert(line.skip(n) =~= chars::without_cr(value));
}

proof fn lemma_before_model_file(r: ResolvedView, prefix: Seq<char>)
    requires
        prefix == "LLAMA_MODEL_FILE="@ || prefix == "LLAMA_MODEL_ALIAS="@,
    ensures
        forall|k: int|
            0 <= k < 9 ==> !chars::starts_with(
                #[trigger] chars::without_crs(env_lines(r))[k],
                prefix,
            ),
{
    reveal_strlit("LLAMA_MODEL_FILE=");
    reveal_strlit("LLAMA_MODEL_ALIAS=");
    reveal_strlit("");
    reveal_strlit("# Generated by `vello apply`. Edit system.toml or catalogs/*.toml,");
    reveal_strlit("# then run `vello apply` (or `vello switch <id>`) to regenerate.");
    reveal_strlit("# Lines you add manually are preserved across regenerations.");
    reveal_strlit("# Ports");
    reveal_strlit("# Active model");
    reveal_strlit("LLAMA_PORT");
    reveal_strlit("WEBUI_PORT");
    reveal_strlit("=");
    let lines = env_lines(r);
    assert forall|k: int| 0 <= k < 9 implies !chars::starts_with(
        #[trigger] chars::without_crs(lines)[k],
        prefix,
    ) by {
        assert(chars::without_crs(lines)[k] == chars::without_cr(lines[k]));
        if k == 5 {
            let line = number("LLAMA_PORT"@, r.llama_port as nat);
            assert(lines[5] == line);
            assert(line[6] == 'P');
            lemma_differs(line, prefix, 6);
        } else if k == 6 {
            let line = number("WEBUI_PORT"@, r.webui_port as nat);
            assert(lines[6] == line);
            assert(line[0] == 'W');
            lemma_differs(line, prefix, 0);
        } else {
            lemma_differs(lines[k], prefix, 0);
        }
    }
}

/// The first lines of a rendered `.env`.
proof fn lemma_first_lines(r: ResolvedView, preserved: Seq<char>, n: int)
    requires
        0 <= n <= env_lines(r).len(),
        n > 9 ==> chars::one_line(r.model_file),
        n > 10 ==> chars::one_line(r.model_alias),
        n > 18 ==> chars::one_line(r.kv_cache_k),
        n > 19 ==> chars::one_line(r.kv_cache_v),
        n > 23 ==> chars::one_line(r.extra_args),
    ensures
        chars::lines(spec_render(r, preserved)).len() >= n,
        forall|k: int|
            0 <= k < n ==> #[trigger] chars::lines(spec_render(r, preserved))[k]
                == chars::without_cr(env_lines(r)[k]),
{
    let all = env_lines(r);
    let first = all.take(n);
    let others = all.skip(n);
    let out = spec_render(r, preserved);
    assert(all =~= first + others);
    chars::lemma_unlines_joined(first, others);
    let rest = out.skip(chars::unlines(first).len() as int);
    assert(out =~= chars::unlines(first) + rest);
    assert forall|i: int| 0 <= i < first.len() implies chars::one_line(#[trigger] first[i]) by {
        lemma_env_line(r, i);
        assert(first[i] == all[i]);
    }
    chars::lemma_lines_of(first, rest);
    assert forall|k: int| 0 <= k < n implies #[trigger] chars::lines(out)[k]
        == chars::without_cr(all[k]) by {
        assert(chars::without_crs(first)[k] == chars::without_cr(first[k]));
    }
}

/// The `.env` says which model is active: the file that was written is read
/// back, trimmed and without quotes around it.
pub proof fn law_active_file_is_read_back(r: ResolvedView, preserved: Seq<char>)
    requires
        chars::one_line(r.model_file),
    ensures
        docker::spec_env_value(spec_render(r, preserved), "LLAMA_MODEL_FILE="@) == Some(
            chars::unquoted(chars::trim(r.model_file)),
        ),
{
    let prefix = "LLAMA_MODEL_FILE="@;
    lemma_first_lines(r, preserved, 10);
    let lines = chars::lines(spec_render(r, preserved));
    let head = chars::without_crs(env_lines(r));
    lemma_before_model_file(r, prefix);
    assert(prefix =~= "LLAMA_MODEL_FILE"@ + "="@) by {
        reveal_strlit("LLAMA_MODEL_FILE=");
        reveal_strlit("LLAMA_MODEL_FILE");
        reveal_strlit("=");
    }
    lemma_entry_value("LLAMA_MODEL_FILE"@, prefix, r.model_file);
    assert(lines[9] == head[9]);
    assert(head[9] == chars::without_cr(entry("LLAMA_MODEL_FILE"@, r.model_file)));
    assert forall|k: int| 0 <= k < 9 implies !chars::starts_with(#[trigger] lines[k], prefix) by {
        assert(lines[k] == head[k]);
    }
    lemma_value_found(lines, prefix, 9, chars::without_cr(r.model_file));
    chars::lemma_trim_without_cr(r.model_file);
}

/// The same of the name under which the server offers the model.
pub proof fn law_active_alias_is_read_back(r: ResolvedView, preserved: Seq<char>)
    requires
        chars::one_line(r.model_file),
        chars::one_line(r.model_alias),
    ensures
        docker::spec_env_value(spec_render(r, preserved), "LLAMA_MODEL_ALIAS="@) == Some(
            chars::unquoted(chars::trim(r.model_alias)),
        ),
{
    let prefix = "LLAMA_MODEL_ALIAS="@;
    lemma_first_lines(r, preserved, 11);
    let lines = chars::lines(spec_render(r, preserved));
    let head = chars::without_crs(env_lines(r));
    lemma_before_model_file(r, prefix);
    assert(prefix =~= "LLAMA_MODEL_ALIAS"@ + "="@) by {
        reveal_strlit("LLAMA_MODEL_ALIAS=");
        reveal_strlit("LLAMA_MODEL_ALIAS");
        reveal_strlit("=");
    }
    lemma_entry_value("LLAMA_MODEL_ALIAS"@, prefix, r.model_alias);
    assert(lines[10] == head[10]);
    assert(head[10] == chars::without_cr(entry("LLAMA_MODEL_ALIAS"@, r.model_alias)));
    assert forall|k: int| 0 <= k < 10 implies !chars::starts_with(
        #[trigger] lines[k],
        prefix,
    ) by {
        assert(lines[k] == head[k]);
        if k == 9 {
            let line = entry("LLAMA_MODEL_FILE"@, r.model_file);
            reveal_strlit("LLAMA_MODEL_FILE");
            reveal_strlit("LLAMA_MODEL_ALIAS=");
            reveal_strlit("=");
            assert(line[12] == 'F');
            lemma_differs(line, prefix, 12);
        }
    }
    lemma_value_found(lines, prefix, 10, chars::without_cr(r.model_alias));
    chars::lemma_trim_without_cr(r.model_alias);
}

/// A model becomes the active one: after the `.env` is written for a file with an
/// ordinary name, the containers may start, and it is that file that is active.
pub proof fn law_written_model_is_active(r: ResolvedView, preserved: Seq<char>)
    requires
        chars::one_line(r.model_file),
        r.model_file.len() > 0,
        !chars::is_white(r.model_file[0]),
        !chars::is_white(r.model_file.last()),
        r.model_file[0] != '"',
        r.model_file.last() != '"',
    ensures
        docker::spec_active_model_file(spec_render(r, preserved)) == Some(r.model_file),
{
    law_active_file_is_read_back(r, preserved);
    chars::lemma_bare(r.model_file);
}

/// Tells the managed keys apart by their length and letters.
spec fn key_number(k: Seq<char>) -> int {
    if k.len() == 9 {
        if k[6] == 'C' {
            5
        } else {
            6
        }
    } else if k.len() == 10 {
        if k[0] == 'L' {
            0
        } else {
            if k[6] == 'P' {
                1
            } else {
                2
            }
        }
    } else if k.len() == 11 {
        8
    } else if k.len() == 12 {
        if k[6] == 'U' {
            9
        } else {
            16
        }
    } else if k.len() == 13 {
        if k[6] == 'T' {
            7
        } else {
            14
        }
    } else if k.len() == 16 {
        if k[7] == 'O' {
            3
        } else if k[7] == 'V' {
            if k[15] == 'K' {
                10
            } else {
                11
            }
        } else if k[7] == 'L' {
            12
        } else if k[7] == 'X' {
            13
        } else {
            15
        }
    } else if k.len() == 17 {
        4
    } else {
        17
    }
}

proof fn lemma_key_number(i: int)
    requires
        0 <= i < managed_keys().len(),
    ensures
        key_number(managed_keys()[i]) == i,
{
    reveal_strlit("LLAMA_PORT");
    reveal_strlit("WEBUI_PORT");
    reveal_strlit("WEBUI_AUTH");
    reveal_strlit("LLAMA_MODEL_FILE");
    reveal_strlit("LLAMA_MODEL_ALIAS");
    reveal_strlit("LLAMA_CTX");
    reveal_strlit("LLAMA_NGL");
    reveal_strlit("LLAMA_THREADS");
    reveal_strlit("LLAMA_BATCH");
    reveal_strlit("LLAMA_UBATCH");
    reveal_strlit("LLAMA_KV_CACHE_K");
    reveal_strlit("LLAMA_KV_CACHE_V");
    reveal_strlit("LLAMA_FLASH_ATTN");
    reveal_strlit("LLAMA_EXTRA_ARGS");
    reveal_strlit("LLAMA_RUNTIME");
    reveal_strlit("COMPOSE_PROFILES");
    reveal_strlit("LLAMA_MMPROJ");
    reveal_strlit("LOCAL_LLM_DEFAULT_MODEL");
}

/// An assignment to one plain key does not start like one to another.
proof fn lemma_other_key(a: Seq<char>, b: Seq<char>, value: Seq<char>)
    requires
        plain_key(a),
        plain_key(b),
        a != b,
    ensures
        !chars::starts_with(chars::without_cr(entry(a, value)), b + "="@),
{
    reveal_strlit("=");
    let line = entry(a, value);
    let prefix = b + "="@;
    assert(line[a.len() as int] == '=');
    assert(prefix[b.len() as int] == '=');
    if a.len() < b.len() {
        assert(prefix[a.len() as int] == b[a.len() as int]);
        lemma_differs(line, prefix, a.len() as int);
    } else if b.len() < a.len() {
        assert(line[b.len() as int] == a[b.len() as int]);
        lemma_differs(line, prefix, b.len() as int);
    } else {
        assert(!(a =~= b));
        let i = choose|i: int| 0 <= i < a.len() && a[i] != b[i];
        assert(line[i] == a[i] && prefix[i] == b[i]);
        lemma_differs(line, prefix, i);
    }
}

/// The places of the assignments among the written lines.
spec fn is_assignment(i: int) -> bool {
    i == 5 || i == 6 || i == 9 || i == 10 || i == 13 || i == 14 || i == 15 || i == 16 || i == 17 || i == 18 || i == 19 || i == 20 || i == 23 || i == 26 || i == 27 || i == 30
}

proof fn lemma_line_before(r: ResolvedView, i: int, j: int)
    requires
        is_assignment(i),
        0 <= j < i,
    ensures
        !chars::starts_with(
            chars::without_cr(env_lines(r)[j]),
            managed_keys()[written_entry(r, i).0] + "="@,
        ),
{
    let lines = env_lines(r);
    let key = managed_keys()[written_entry(r, i).0];
    let prefix = key + "="@;
    lemma_plain_keys();
    assert(plain_key(key));
    assert(prefix[0] == key[0]);
    if is_assignment(j) {
        let (k, v) = written_entry(r, j);
        assert(lines[j] == entry(managed_keys()[k], v));
        lemma_key_number(k);
        lemma_key_number(written_entry(r, i).0);
        lemma_other_key(managed_keys()[k], key, v);
    } else {
        reveal_strlit("");
        reveal_strlit("# Generated by `vello apply`. Edit system.toml or catalogs/*.toml,");
        reveal_strlit("# then run `vello apply` (or `vello switch <id>`) to regenerate.");
        reveal_strlit("# Lines you add manually are preserved across regenerations.");
        reveal_strlit("# Ports");
        reveal_strlit("# Active model");
        reveal_strlit("# Runtime (resolved from system.toml + model [runtime])");
        reveal_strlit("# Model-specific extras (vision mmproj, MoE flags, etc.)");
        reveal_strlit("# Runtime selection (docker compose profile)");
        reveal_strlit("# Web UI");
        lemma_differs(lines[j], prefix, 0);
    }
}

proof fn lemma_written_value(r: ResolvedView, preserved: Seq<char>, i: int)
    requires
        is_assignment(i),
        one_line_values(r),
    ensures
        docker::spec_env_value(
            spec_render(r, preserved),
            managed_keys()[written_entry(r, i).0] + "="@,
        ) == Some(chars::unquoted(chars::trim(written_entry(r, i).1))),
{
    let (k, v) = written_entry(r, i);
    let key = managed_keys()[k];
    let prefix = key + "="@;
    let all = env_lines(r);
    lemma_first_lines(r, preserved, i + 1);
    let lines = chars::lines(spec_render(r, preserved));
    lemma_entry_value(key, prefix, v);
    assert(all[i] == entry(key, v));
    assert(lines[i] == chars::without_cr(all[i]));
    assert forall|j: int| 0 <= j < i implies !chars::starts_with(#[trigger] lines[j], prefix) by {
        assert(lines[j] == chars::without_cr(all[j]));
        lemma_line_before(r, i, j);
    }
    lemma_value_found(lines, prefix, i, chars::without_cr(v));
    chars::lemma_trim_without_cr(v);
}

/// Each setting that is written to the `.env` is read back under its key, trimmed and
/// without quotes around it, whatever lines the user has added.
pub proof fn law_settings_are_read_back(r: ResolvedView, preserved: Seq<char>)
    requires
        one_line_values(r),
    ensures
        docker::spec_env_value(spec_render(r, preserved), "LLAMA_PORT"@ + "="@) == Some(
            chars::unquoted(chars::trim(chars::decimal(r.llama_port as nat))),
        ),
        docker::spec_env_value(spec_render(r, preserved), "WEBUI_PORT"@ + "="@) == Some(
            chars::unquoted(chars::trim(chars::decimal(r.webui_port as nat))),
        ),
        docker::spec_env_value(spec_render(r, preserved), "LLAMA_MODEL_FILE"@ + "="@) == Some(
            chars::unquoted(chars::trim(r.model_file)),
        ),
        docker::spec_env_value(spec_render(r, preserved), "LLAMA_MODEL_ALIAS"@ + "="@) == Some(
            chars::unquoted(chars::trim(r.model_alias)),
        ),
        docker::spec_env_value(spec_render(r, preserved), "LLAMA_CTX"@ + "="@) == Some(
            chars::unquoted(chars::trim(chars::decimal(r.ctx as nat))),
        ),
        docker::spec_env_value(spec_render(r, preserved), "LLAMA_NGL"@ + "="@) == Some(
            chars::unquoted(chars::trim(chars::decimal(r.ngl as nat))),
        ),
        docker::spec_env_value(spec_render(r, preserved), "LLAMA_THREADS"@ + "="@) == Some(
            chars::unquoted(chars::trim(chars::decimal(r.threads as nat))),
        ),
        docker::spec_env_value(spec_render(r, preserved), "LLAMA_BATCH"@ + "="@) == Some(
            chars::unquoted(chars::trim(chars::decimal(r.batch as nat))),
        ),
        docker::spec_env_value(spec_render(r, preserved), "LLAMA_UBATCH"@ + "="@) == Some(
            chars::unquoted(chars::trim(chars::decimal(r.ubatch as nat))),
        ),
        docker::spec_env_value(spec_render(r, preserved), "LLAMA_KV_CACHE_K"@ + "="@) == Some(
            chars::unquoted(chars::trim(r.kv_cache_k)),
        ),
        docker::spec_env_value(spec_render(r, preserved), "LLAMA_KV_CACHE_V"@ + "="@) == Some(
            chars::unquoted(chars::trim(r.kv_cache_v)),
        ),
        docker::spec_env_value(spec_render(r, preserved), "LLAMA_FLASH_ATTN"@ + "="@) == Some(
            chars::unquoted(chars::trim(if r.flash_attn { "on"@ } else { "off"@ })),
        ),
        docker::spec_env_value(spec_render(r, preserved), "LLAMA_EXTRA_ARGS"@ + "="@) == Some(
            chars::unquoted(chars::trim(r.extra_args)),
        ),
        docker::spec_env_value(spec_render(r, preserved), "LLAMA_RUNTIME"@ + "="@) == Some(
            chars::unquoted(chars::trim(if r.mode == Mode::Gpu { "cuda"@ } else { "cpu"@ })),
        ),
        docker::spec_env_value(spec_render(r, preserved), "COMPOSE_PROFILES"@ + "="@) == Some(
            chars::unquoted(chars::trim(if r.mode == Mode::Gpu { "cuda"@ } else { "cpu"@ })),
        ),
        docker::spec_env_value(spec_render(r, preserved), "WEBUI_AUTH"@ + "="@) == Some(
            chars::unquoted(chars::trim(if r.webui_auth { "True"@ } else { "False"@ })),
        ),
{
    lemma_written_value(r, preserved, 5);
    lemma_written_value(r, preserved, 6);
    lemma_written_value(r, preserved, 9);
    lemma_written_value(r, preserved, 10);
    lemma_written_value(r, preserved, 13);
    lemma_written_value(r, preserved, 14);
    lemma_written_value(r, preserved, 15);
    lemma_written_value(r, preserved, 16);
    lemma_written_value(r, preserved, 17);
    lemma_written_value(r, preserved, 18);
    lemma_written_value(r, preserved, 19);
    lemma_written_value(r, preserved, 20);
    lemma_written_value(r, preserved, 23);
    lemma_written_value(r, preserved, 26);
    lemma_written_value(r, preserved, 27);
    lemma_written_value(r, preserved, 30);
}

/// The lines of the user are kept in their order: those that are neither blank nor
/// comments and do not assign one of the keys that are written.
pub proof fn law_user_lines(lines: Seq<Seq<char>>)
    ensures
        kept(lines) == lines.filter(
            |line: Seq<char>|
                chars::trim_start(line).len() > 0 && chars::trim_start(line)[0] != '#' && !(
                chars::split_once(line, '=') matches Some(kv) && {
                    let k = chars::trim(kv.0);
                    k == "LLAMA_PORT"@ || k == "WEBUI_PORT"@ || k == "WEBUI_AUTH"@ || k == "LLAMA_MODEL_FILE"@ || k == "LLAMA_MODEL_ALIAS"@ || k == "LLAMA_CTX"@ || k == "LLAMA_NGL"@ || k == "LLAMA_THREADS"@ || k == "LLAMA_BATCH"@ || k == "LLAMA_UBATCH"@ || k == "LLAMA_KV_CACHE_K"@ || k == "LLAMA_KV_CACHE_V"@ || k == "LLAMA_FLASH_ATTN"@ || k == "LLAMA_EXTRA_ARGS"@ || k == "LLAMA_RUNTIME"@ || k == "COMPOSE_PROFILES"@ || k == "LLAMA_MMPROJ"@ || k == "LOCAL_LLM_DEFAULT_MODEL"@
                }),
        ),
    decreases lines.len(),
{
    let user = |line: Seq<char>|
        chars::trim_start(line).len() > 0 && chars::trim_start(line)[0] != '#' && !(
        chars::split_once(line, '=') matches Some(kv) && {
            let k = chars::trim(kv.0);
            k == "LLAMA_PORT"@ || k == "WEBUI_PORT"@ || k == "WEBUI_AUTH"@ || k == "LLAMA_MODEL_FILE"@ || k == "LLAMA_MODEL_ALIAS"@ || k == "LLAMA_CTX"@ || k == "LLAMA_NGL"@ || k == "LLAMA_THREADS"@ || k == "LLAMA_BATCH"@ || k == "LLAMA_UBATCH"@ || k == "LLAMA_KV_CACHE_K"@ || k == "LLAMA_KV_CACHE_V"@ || k == "LLAMA_FLASH_ATTN"@ || k == "LLAMA_EXTRA_ARGS"@ || k == "LLAMA_RUNTIME"@ || k == "COMPOSE_PROFILES"@ || k == "LLAMA_MMPROJ"@ || k == "LOCAL_LLM_DEFAULT_MODEL"@
        });
    reveal(Seq::filter);
    if lines.len() > 0 {
        law_user_lines(lines.drop_last());
        let line = lines.last();
        if let Some(kv) = chars::split_once(line, '=') {
            lemma_managed(chars::trim(kv.0));
        }
        assert(keeps(line) == user(line));
    }
}

proof fn lemma_managed(k: Seq<char>)
    ensures
        managed_keys().contains(k) <==> (k == "LLAMA_PORT"@ || k == "WEBUI_PORT"@ || k == "WEBUI_AUTH"@ || k == "LLAMA_MODEL_FILE"@ || k == "LLAMA_MODEL_ALIAS"@ || k == "LLAMA_CTX"@ || k == "LLAMA_NGL"@ || k == "LLAMA_THREADS"@ || k == "LLAMA_BATCH"@ || k == "LLAMA_UBATCH"@ || k == "LLAMA_KV_CACHE_K"@ || k == "LLAMA_KV_CACHE_V"@ || k == "LLAMA_FLASH_ATTN"@ || k == "LLAMA_EXTRA_ARGS"@ || k == "LLAMA_RUNTIME"@ || k == "COMPOSE_PROFILES"@ || k == "LLAMA_MMPROJ"@ || k == "LOCAL_LLM_DEFAULT_MODEL"@),
{
    let all = managed_keys();
    assert(all[0] == "LLAMA_PORT"@);
    assert(all[1] == "WEBUI_PORT"@);
    assert(all[2] == "WEBUI_AUTH"@);
    assert(all[3] == "LLAMA_MODEL_FILE"@);
    assert(all[4] == "LLAMA_MODEL_ALIAS"@);
    assert(all[5] == "LLAMA_CTX"@);
    assert(all[6] == "LLAMA_NGL"@);
    assert(all[7] == "LLAMA_THREADS"@);
    assert(all[8] == "LLAMA_BATCH"@);
    assert(all[9] == "LLAMA_UBATCH"@);
    assert(all[10] == "LLAMA_KV_CACHE_K"@);
    assert(all[11] == "LLAMA_KV_CACHE_V"@);
    assert(all[12] == "LLAMA_FLASH_ATTN"@);
    assert(all[13] == "LLAMA_EXTRA_ARGS"@);
    assert(all[14] == "LLAMA_RUNTIME"@);
    assert(all[15] == "COMPOSE_PROFILES"@);
    assert(all[16] == "LLAMA_MMPROJ"@);
    assert(all[17] == "LOCAL_LLM_DEFAULT_MODEL"@);
}

/// The extra arguments are the model's own, joined by spaces, in either mode. A model
/// with a vision part has that before them; an empty name is none.
pub proof fn law_extra_args(
    m: ModelView,
    file: Seq<char>,
    sys: SystemView,
    mode: Mode,
    cores: Option<u32>,
)
    ensures
        ({
            let args = spec_resolve(m, file, sys, mode, cores).extra_args;
            let own = chars::join(m.runtime.extra_args, " "@);
            match m.runtime.mmproj {
                None => args == own,
                Some(f) => if f.len() == 0 {
                    args == own
                } else if m.runtime.extra_args.len() == 0 {
                    args == "--mmproj /models/"@ + f
                } else {
                    args == "--mmproj /models/"@ + f + " "@ + own
                },
            }
        }),
{
    let own = m.runtime.extra_args;
    match m.runtime.mmproj {
        Some(f) if f.len() > 0 => {
            let path = "/models/"@ + f;
            reveal_strlit("--mmproj /models/");
            reveal_strlit("--mmproj");
            reveal_strlit("/models/");
            reveal_strlit(" ");
            assert(extras(m) =~= seq!["--mmproj"@] + (seq![path] + own));
            chars::lemma_join_first("--mmproj"@, seq![path] + own, " "@);
            chars::lemma_join_first(path, own, " "@);
            assert("--mmproj"@ + " "@ + path =~= "--mmproj /models/"@ + f);
            if own.len() > 0 {
                assert("--mmproj"@ + " "@ + (path + " "@ + chars::join(own, " "@))
                    =~= "--mmproj /models/"@ + f + " "@ + chars::join(own, " "@));
            }
        },
        _ => {
            assert(extras(m) =~= own);
        },
    }
}

/// Where each setting comes from: the ports, the login of the web interface, the threads,
/// the batches and flash attention from the system; the context, the layers on the GPU and
/// the cache types from the model, and from the system where the model says nothing. Without
/// a GPU there are no layers on it and no flash attention, and the system's context and the
/// batches are capped; the threads are then those of the machine, if they are not set.
pub proof fn law_settings(
    m: ModelView,
    file: Seq<char>,
    sys: SystemView,
    mode: Mode,
    cores: Option<u32>,
)
    ensures
        ({
            let r = spec_resolve(m, file, sys, mode, cores);
            let own = sys.runtime;
            let ctx = match m.runtime.ctx_default {
                Some(n) => n as int,
                None => if mode == Mode::Cpu && own.default_ctx > 8192 {
                    8192
                } else {
                    own.default_ctx as int
                },
            };
            &&& r.mode == mode
            &&& r.llama_port == sys.ports.llama
            &&& r.webui_port == sys.ports.web_ui
            &&& r.webui_auth == sys.web_ui.auth
            &&& r.model_file == file
            &&& r.model_alias == m.id + "-local"@
            &&& r.kv_cache_k == (match m.runtime.kv_cache_k {
                Some(k) => k,
                None => own.kv_cache_k,
            })
            &&& r.kv_cache_v == (match m.runtime.kv_cache_v {
                Some(v) => v,
                None => own.kv_cache_v,
            })
            &&& r.mmproj == (match m.runtime.mmproj {
                Some(f) => f,
                None => Seq::empty(),
            })
            &&& r.ctx == ctx
            &&& r.flash_attn <==> own.flash_attn && mode == Mode::Gpu
            &&& mode == Mode::Gpu ==> r.ngl == (match m.runtime.ngl {
                Some(n) => n,
                None => own.default_ngl,
            }) && r.threads == own.default_threads && r.batch == own.default_batch && r.ubatch
                == own.default_ubatch
            &&& mode == Mode::Cpu ==> r.ngl == 0 && r.batch == (if own.default_batch > 512 {
                512
            } else {
                own.default_batch as int
            }) && r.ubatch == (if own.default_ubatch > 128 {
                128
            } else {
                own.default_ubatch as int
            }) && r.threads == (if own.default_threads == 6 && cores is Some {
                cores->0
            } else {
                own.default_threads
            })
        }),
{
}

/// Writing the `.env` for one model and then for another leaves what writing it for the
/// other does, and the lines of the user are there as before.
pub proof fn law_last_written_counts(existing: Seq<char>, a: ResolvedView, b: ResolvedView)
    requires
        one_line_values(a),
        one_line_values(b),
        no_stray_returns(existing),
    ensures
        spec_write_env(spec_write_env(existing, a), b) == spec_write_env(existing, b),
        kept(chars::lines(spec_write_env(existing, b))) == kept(chars::lines(existing)),
        docker::spec_env_value(spec_write_env(existing, b), "LLAMA_MODEL_FILE"@ + "="@) == Some(
            chars::unquoted(chars::trim(b.model_file)),
        ),
{
    law_user_lines_survive(a, existing);
    law_user_lines_survive(b, existing);
    law_settings_are_read_back(b, spec_preserve(existing));
}

} // verus!
