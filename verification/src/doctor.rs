//! Host pre-flight: every requirement is looked at, classified and reported, so
//! that all that is missing can be fixed at once.
//!
//! What the host says is passed in; [`crate::checks`] says what it means.
use vstd::prelude::*;
use crate::chars;
use crate::binary32::{Binary32, Num};
use crate::checks;
use crate::checks::{GpuFacts, Managers, ProjectFacts, ToolFacts};
use crate::schema::Mode;
use crate::style;
use crate::style::Style;
use crate::text;

verus! {

// ---------------------------------------------------------------------------
// Types
// ---------------------------------------------------------------------------

#[derive(Debug, Clone, Copy, PartialEq, Eq, Structural)]
pub enum Severity {
    Okay,
    Warn,
    Fail,
    Skip,
}

#[derive(Debug)]
pub struct CheckResult {
    pub id: String,
    pub category: String,
    pub status: Severity,
    pub value: String,
    pub fix: Option<String>,
    pub auto_installable: bool,
}

#[verifier::ext_equal]
pub struct CheckView {
    pub id: Seq<char>,
    pub category: Seq<char>,
    pub status: Severity,
    pub value: Seq<char>,
    pub fix: Option<Seq<char>>,
    pub auto_installable: bool,
}

impl View for CheckResult {
    type V = CheckView;

    open spec fn view(&self) -> CheckView {
        CheckView {
            id: self.id@,
            category: self.category@,
            status: self.status,
            value: self.value@,
            fix: self.fix.deep_view(),
            auto_installable: self.auto_installable,
        }
    }
}

impl Clone for CheckResult {
    fn clone(&self) -> (r: Self)
        ensures
            r@ == self@,
    {
        CheckResult {
            id: self.id.clone(),
            category: self.category.clone(),
            status: self.status,
            value: self.value.clone(),
            fix: self.fix.clone(),
            auto_installable: self.auto_installable,
        }
    }
}

pub open spec fn checks_of(list: Seq<CheckResult>) -> Seq<CheckView> {
    list.map_values(|c: CheckResult| c@)
}

/// The mode, and why it was selected.
#[derive(Debug)]
pub struct ModeInfo {
    pub selected: Mode,
    pub reason: String,
}

#[derive(Debug, Clone, Copy, PartialEq, Eq, Structural)]
pub struct Summary {
    pub ok: usize,
    pub warn: usize,
    pub fail: usize,
    pub skip: usize,
    pub mode: Mode,
}

#[derive(Debug)]
pub struct Report {
    pub schema: u32,
    pub summary: Summary,
    pub mode: ModeInfo,
    pub checks: Vec<CheckResult>,
}

#[derive(Debug, Clone, Copy, PartialEq, Eq, Structural)]
pub struct DoctorOpts {
    pub json: bool,
    pub fix: bool,
    pub yes: bool,
    pub force_cpu: bool,
    pub force_gpu: bool,
    pub deep: bool,
    pub installer_mode: bool,
}

impl Default for DoctorOpts {
    fn default() -> (r: Self)
        ensures
            r == (DoctorOpts {
                json: false,
                fix: false,
                yes: false,
                force_cpu: false,
                force_gpu: false,
                deep: false,
                installer_mode: false,
            }),
    {
        DoctorOpts {
            json: false,
            fix: false,
            yes: false,
            force_cpu: false,
            force_gpu: false,
            deep: false,
            installer_mode: false,
        }
    }
}

/// The version of the layout of a report.
pub const SCHEMA_VERSION: u32 = 1;

// ---------------------------------------------------------------------------
// Which mode
// ---------------------------------------------------------------------------

/// How the mode is chosen.
#[derive(Debug)]
pub enum ModeDecision {
    /// The mode stays what the profile says.
    Keep { mode: Mode, reason: String },
    /// The mode is set, and the profile is to say so.
    Switch { mode: Mode, reason: String },
    /// The user is to say whether CPU mode is fine.
    Ask,
    /// No mode can be chosen.
    Refuse { why: String },
}

#[verifier::ext_equal]
pub enum ModeDecisionView {
    Keep { mode: Mode, reason: Seq<char> },
    Switch { mode: Mode, reason: Seq<char> },
    Ask,
    Refuse { why: Seq<char> },
}

impl View for ModeDecision {
    type V = ModeDecisionView;

    open spec fn view(&self) -> ModeDecisionView {
        match self {
            ModeDecision::Keep { mode, reason } => ModeDecisionView::Keep {
                mode: *mode,
                reason: reason@,
            },
            ModeDecision::Switch { mode, reason } => ModeDecisionView::Switch {
                mode: *mode,
                reason: reason@,
            },
            ModeDecision::Ask => ModeDecisionView::Ask,
            ModeDecision::Refuse { why } => ModeDecisionView::Refuse { why: why@ },
        }
    }
}

/// A profile for a GPU on a host without one: unattended runs go on in CPU mode,
/// others ask, if there is someone to ask.
pub open spec fn missing_gpu(opts: DoctorOpts, terminal: bool) -> ModeDecisionView {
    if opts.yes || opts.installer_mode {
        ModeDecisionView::Switch {
            mode: Mode::Cpu,
            reason: "no GPU detected; auto-selected CPU mode (--yes)"@,
        }
    } else if !terminal {
        ModeDecisionView::Refuse {
            why: "no NVIDIA GPU detected and stdin is not a TTY. Re-run with --cpu, --gpu, or --yes to choose explicitly."@,
        }
    } else if opts.json {
        ModeDecisionView::Refuse {
            why: "no NVIDIA GPU detected. JSON mode does not prompt — pass --cpu, --gpu, or --yes."@,
        }
    } else {
        ModeDecisionView::Ask
    }
}

/// What the options force comes first, then what the profile says, as far as the
/// hardware allows it.
pub open spec fn spec_decide_mode(
    current: Mode,
    gpu: bool,
    opts: DoctorOpts,
    terminal: bool,
) -> ModeDecisionView {
    if opts.force_gpu {
        if gpu {
            ModeDecisionView::Switch {
                mode: Mode::Gpu,
                reason: "forced by --gpu (NVIDIA GPU detected)"@,
            }
        } else {
            ModeDecisionView::Refuse {
                why: "--gpu requested but no NVIDIA GPU detected (nvidia-smi failed or absent)"@,
            }
        }
    } else if opts.force_cpu {
        ModeDecisionView::Switch { mode: Mode::Cpu, reason: "forced by --cpu"@ }
    } else {
        match current {
            Mode::Cpu => ModeDecisionView::Keep {
                mode: Mode::Cpu,
                reason: "profile.toml mode = cpu"@,
            },
            Mode::Gpu => if gpu {
                ModeDecisionView::Keep {
                    mode: Mode::Gpu,
                    reason: "profile.toml mode = gpu, NVIDIA GPU detected"@,
                }
            } else {
                missing_gpu(opts, terminal)
            },
        }
    }
}

fn handle_missing_gpu(opts: &DoctorOpts, terminal: bool) -> (r: ModeDecision)
    ensures
        r@ == missing_gpu(*opts, terminal),
{
    if opts.yes || opts.installer_mode {
        return ModeDecision::Switch {
            mode: Mode::Cpu,
            reason: "no GPU detected; auto-selected CPU mode (--yes)".to_owned(),
        };
    }
    if !terminal {
        return ModeDecision::Refuse {
            why: "no NVIDIA GPU detected and stdin is not a TTY. Re-run with --cpu, --gpu, or --yes to choose explicitly.".to_owned(),
        };
    }
    if opts.json {
        return ModeDecision::Refuse {
            why: "no NVIDIA GPU detected. JSON mode does not prompt — pass --cpu, --gpu, or --yes.".to_owned(),
        };
    }
    ModeDecision::Ask
}

/// The mode for a profile that says `current`, on a host with or without a GPU.
/// `terminal` is whether there is someone to ask.
pub fn decide_mode(current: Mode, gpu: bool, opts: &DoctorOpts, terminal: bool) -> (r: ModeDecision)
    ensures
        r@ == spec_decide_mode(current, gpu, *opts, terminal),
{
    if opts.force_gpu {
        if !gpu {
            return ModeDecision::Refuse {
                why: "--gpu requested but no NVIDIA GPU detected (nvidia-smi failed or absent)".to_owned(),
            };
        }
        return ModeDecision::Switch {
            mode: Mode::Gpu,
            reason: "forced by --gpu (NVIDIA GPU detected)".to_owned(),
        };
    }
    if opts.force_cpu {
        return ModeDecision::Switch { mode: Mode::Cpu, reason: "forced by --cpu".to_owned() };
    }
    match current {
        Mode::Cpu => ModeDecision::Keep {
            mode: Mode::Cpu,
            reason: "profile.toml mode = cpu".to_owned(),
        },
        Mode::Gpu => if gpu {
            ModeDecision::Keep {
                mode: Mode::Gpu,
                reason: "profile.toml mode = gpu, NVIDIA GPU detected".to_owned(),
            }
        } else {
            handle_missing_gpu(opts, terminal)
        },
    }
}

/// What the user answered when asked for a yes.
pub open spec fn spec_is_yes(answer: Seq<char>) -> bool {
    let a = chars::trim(answer);
    a == "y"@ || a == "Y"@ || a == "yes"@ || a == "YES"@
}

pub fn is_yes(answer: &str) -> (r: bool)
    ensures
        r == spec_is_yes(answer@),
{
    let a: String = text::trim(answer);
    text::same(&a, "y") || text::same(&a, "Y") || text::same(&a, "yes") || text::same(&a, "YES")
}

/// The mode after the user was asked whether CPU mode is fine.
pub open spec fn spec_answered(answer: Seq<char>) -> ModeDecisionView {
    if spec_is_yes(answer) {
        ModeDecisionView::Switch {
            mode: Mode::Cpu,
            reason: "no GPU detected; user confirmed CPU mode"@,
        }
    } else {
        ModeDecisionView::Refuse { why: "aborted by user (no GPU and CPU mode declined)"@ }
    }
}

pub fn answered(answer: &str) -> (r: ModeDecision)
    ensures
        r@ == spec_answered(answer@),
{
    if is_yes(answer) {
        ModeDecision::Switch {
            mode: Mode::Cpu,
            reason: "no GPU detected; user confirmed CPU mode".to_owned(),
        }
    } else {
        ModeDecision::Refuse {
            why: "aborted by user (no GPU and CPU mode declined)".to_owned(),
        }
    }
}

/// GPU mode is only ever chosen where there is a GPU, and nobody is asked in an
/// unattended run, without a terminal or where the output is for a program.
pub proof fn law_mode_decisions(current: Mode, gpu: bool, opts: DoctorOpts, terminal: bool)
    ensures
        match spec_decide_mode(current, gpu, opts, terminal) {
            ModeDecisionView::Keep { mode, .. } => mode == current && (mode == Mode::Gpu ==> gpu),
            ModeDecisionView::Switch { mode, .. } => mode == Mode::Gpu ==> gpu && opts.force_gpu,
            ModeDecisionView::Ask => {
                &&& !gpu && current == Mode::Gpu
                &&& !opts.yes && !opts.installer_mode && !opts.json && terminal
            },
            ModeDecisionView::Refuse { .. } => !gpu,
        },
{
}

// ---------------------------------------------------------------------------
// The report
// ---------------------------------------------------------------------------

/// What was found out about the host.
#[derive(Debug)]
pub struct HostFacts {
    /// What `uname -r` printed.
    pub kernel: Option<String>,
    /// The text of `/etc/os-release`.
    pub os_release: Option<String>,
    pub managers: Managers,
    /// What `nproc` printed.
    pub nproc: Option<String>,
    /// What `uname -m` printed.
    pub arch: Option<String>,
    /// The RAM that was detected.
    pub ram_gb: Option<Binary32>,
    /// What `df -B1 --output=avail` printed for the project root.
    pub df: Option<String>,
    pub tools: ToolFacts,
    pub gpu: GpuFacts,
    /// What `cargo --version` printed.
    pub cargo: Option<String>,
    pub llama_port: u16,
    pub webui_port: u16,
    /// What `ss -ltn` printed.
    pub ss: Option<String>,
    pub home: Option<String>,
    pub path_var: Option<String>,
    /// Where the link to the program leads, if it is there.
    pub link_target: Option<String>,
    pub project_root: String,
    pub project: ProjectFacts,
}

/// All checks, in the order in which they are reported.
pub open spec fn all_checks(f: HostFacts, profile_ram: Num, mode: Mode, deep: bool) -> Seq<
    CheckView,
> {
    checks::spec_checks_os(f.kernel.deep_view(), f.os_release.deep_view(), f.managers)
        + checks::spec_checks_cpu(f.nproc.deep_view(), f.arch.deep_view())
        + checks::spec_checks_mem(
        match f.ram_gb {
            Some(x) => x@,
            None => profile_ram,
        },
    ) + checks::spec_checks_disk(checks::free_space(f.df.deep_view()), f.project_root@)
        + checks::spec_checks_tools(f.tools) + checks::spec_checks_gpu(mode, deep, f.gpu)
        + checks::spec_checks_rust(f.cargo.deep_view()) + checks::spec_checks_ports(
        f.llama_port,
        f.webui_port,
        f.ss.deep_view(),
    ) + checks::spec_checks_path(
        checks::spec_bin_dir(f.home.deep_view()),
        f.path_var.deep_view(),
        f.link_target.deep_view(),
        f.project_root@,
    ) + checks::spec_checks_project(mode, f.project)
}

/// How many checks have the status.
pub open spec fn count(list: Seq<CheckView>, status: Severity) -> nat
    decreases list.len(),
{
    if list.len() == 0 {
        0
    } else {
        count(list.drop_last(), status) + (if list.last().status == status {
            1nat
        } else {
            0nat
        })
    }
}

/// The numbers of the summary.
pub open spec fn counted(s: Summary, list: Seq<CheckView>) -> bool {
    &&& s.ok == count(list, Severity::Okay)
    &&& s.warn == count(list, Severity::Warn)
    &&& s.fail == count(list, Severity::Fail)
    &&& s.skip == count(list, Severity::Skip)
}

pub fn summarize(list: &Vec<CheckResult>, mode: Mode) -> (r: Summary)
    ensures
        counted(r, checks_of(list@)),
        r.mode == mode,
{
    let ghost all = checks_of(list@);
    let mut s = Summary { ok: 0, warn: 0, fail: 0, skip: 0, mode };
    let mut i: usize = 0;
    while i < list.len()
        invariant
            i <= list@.len(),
            all == checks_of(list@),
            s.mode == mode,
            counted(s, all.take(i as int)),
            s.ok <= i && s.warn <= i && s.fail <= i && s.skip <= i,
        decreases list@.len() - i,
    {
        proof {
            let t = all.take(i + 1);
            assert(t.drop_last() =~= all.take(i as int));
            assert(t.last() == list@[i as int]@);
        }
        match list[i].status {
            Severity::Okay => {
                s.ok = s.ok + 1;
            },
            Severity::Warn => {
                s.warn = s.warn + 1;
            },
            Severity::Fail => {
                s.fail = s.fail + 1;
            },
            Severity::Skip => {
                s.skip = s.skip + 1;
            },
        }
        i = i + 1;
    }
    assert(all.take(i as int) =~= all);
    s
}

/// Every check is counted once.
pub proof fn law_counts_add_up(list: Seq<CheckView>)
    ensures
        count(list, Severity::Okay) + count(list, Severity::Warn) + count(list, Severity::Fail)
            + count(list, Severity::Skip) == list.len(),
    decreases list.len(),
{
    if list.len() > 0 {
        law_counts_add_up(list.drop_last());
    }
}

/// Moves the checks of `more` to the end of `out`.
fn add_all(out: &mut Vec<CheckResult>, more: Vec<CheckResult>)
    ensures
        checks_of(final(out)@) == checks_of(old(out)@) + checks_of(more@),
{
    let ghost a = out@;
    let ghost b = more@;
    let mut rest: Vec<CheckResult> = more;
    out.append(&mut rest);
    assert(out@ == a + b);
    assert(checks_of(out@) =~= checks_of(a) + checks_of(b));
}

/// Whether the checks that take long are made too.
pub open spec fn spec_thorough(opts: DoctorOpts) -> bool {
    opts.deep || opts.installer_mode
}

/// Runs every check on what was found out, and sums up.
pub fn collect(
    f: &HostFacts,
    profile_ram: Binary32,
    mode: Mode,
    reason: String,
    opts: &DoctorOpts,
) -> (r: Report)
    ensures
        r.schema == SCHEMA_VERSION,
        checks_of(r.checks@) == all_checks(
            *f,
            profile_ram@,
            mode,
            spec_thorough(*opts),
        ),
        counted(r.summary, checks_of(r.checks@)),
        r.summary.mode == mode,
        r.mode.selected == mode,
        r.mode.reason@ == reason@,
{
    let deep: bool = opts.deep || opts.installer_mode;
    let dir: String = checks::bin_dir(text::opt_str(&f.home));
    let mut list: Vec<CheckResult> = checks::checks_os(
        &f.kernel,
        text::opt_str(&f.os_release),
        &f.managers,
    );
    add_all(&mut list, checks::checks_cpu(&f.nproc, &f.arch));
    add_all(&mut list, checks::checks_mem(f.ram_gb, profile_ram));
    add_all(&mut list, checks::checks_disk(text::opt_str(&f.df), &f.project_root));
    add_all(&mut list, checks::checks_tools(&f.tools));
    add_all(&mut list, checks::checks_gpu(mode, deep, &f.gpu));
    add_all(&mut list, checks::checks_rust(&f.cargo));
    add_all(
        &mut list,
        checks::checks_ports(f.llama_port, f.webui_port, text::opt_str(&f.ss)),
    );
    add_all(
        &mut list,
        checks::checks_path(
            &dir,
            text::opt_str(&f.path_var),
            text::opt_str(&f.link_target),
            &f.project_root,
        ),
    );
    add_all(&mut list, checks::checks_project(mode, &f.project));
    let summary: Summary = summarize(&list, mode);
    Report {
        schema: SCHEMA_VERSION,
        summary,
        mode: ModeInfo { selected: mode, reason },
        checks: list,
    }
}

// ---------------------------------------------------------------------------
// Exit code and fixes
// ---------------------------------------------------------------------------

/// A failure that a package would fix.
pub open spec fn fixable(c: CheckView) -> bool {
    c.status == Severity::Fail && c.auto_installable
}

/// A failure that the user has to deal with.
pub open spec fn unfixable(c: CheckView) -> bool {
    c.status == Severity::Fail && !c.auto_installable
}

pub open spec fn any_unfixable(list: Seq<CheckView>) -> bool {
    exists|i: int| 0 <= i < list.len() && unfixable(#[trigger] list[i])
}

/// The exit code of a report with `fail` failures.
pub open spec fn spec_exit_code(fail: int, list: Seq<CheckView>) -> int {
    if fail == 0 {
        0
    } else if any_unfixable(list) {
        2
    } else {
        1
    }
}

/// 0 if nothing fails, 1 if all that fails can be installed, else 2.
pub fn exit_code(report: &Report) -> (r: i32)
    ensures
        r == spec_exit_code(report.summary.fail as int, checks_of(report.checks@)),
{
    if report.summary.fail == 0 {
        return 0;
    }
    let ghost all = checks_of(report.checks@);
    let mut i: usize = 0;
    while i < report.checks.len()
        invariant
            i <= report.checks@.len(),
            all == checks_of(report.checks@),
            report.summary.fail != 0,
            forall|k: int| 0 <= k < i ==> !unfixable(#[trigger] all[k]),
        decreases report.checks@.len() - i,
    {
        assert(all[i as int] == report.checks@[i as int]@);
        if report.checks[i].status == Severity::Fail && !report.checks[i].auto_installable {
            return 2;
        }
        i = i + 1;
    }
    1
}

proof fn lemma_count_positive(list: Seq<CheckView>, status: Severity)
    ensures
        count(list, status) > 0 <==> exists|i: int|
            0 <= i < list.len() && (#[trigger] list[i]).status == status,
    decreases list.len(),
{
    if list.len() > 0 {
        let rest = list.drop_last();
        lemma_count_positive(rest, status);
        if list.last().status == status {
            assert(list[list.len() - 1].status == status);
        }
        if exists|i: int| 0 <= i < rest.len() && (#[trigger] rest[i]).status == status {
            let i = choose|i: int| 0 <= i < rest.len() && (#[trigger] rest[i]).status == status;
            assert(list[i].status == status);
        }
        if list.last().status != status && exists|i: int|
            0 <= i < list.len() && (#[trigger] list[i]).status == status {
            let i = choose|i: int| 0 <= i < list.len() && (#[trigger] list[i]).status == status;
            assert(rest[i].status == status);
        }
    }
}

/// What the exit code of a report says whose failures were counted: 0 that
/// nothing fails, 1 that something does and all of it can be installed, 2 that
/// something fails that cannot.
pub proof fn law_exit_code(list: Seq<CheckView>)
    ensures
        spec_exit_code(count(list, Severity::Fail) as int, list) == 0 <==> forall|i: int|
            0 <= i < list.len() ==> (#[trigger] list[i]).status != Severity::Fail,
        spec_exit_code(count(list, Severity::Fail) as int, list) == 2 <==> any_unfixable(list),
        0 <= spec_exit_code(count(list, Severity::Fail) as int, list) <= 2,
{
    lemma_count_positive(list, Severity::Fail);
    if any_unfixable(list) {
        let i = choose|i: int| 0 <= i < list.len() && unfixable(#[trigger] list[i]);
        assert(list[i].status == Severity::Fail);
    }
}

/// One step of a plan to fix what fails.
#[derive(Debug)]
pub enum FixAction {
    /// The packages, in one run of apt.
    AptInstall { packages: Vec<String> },
    /// NVIDIA's repository, its toolkit, and a restart of Docker.
    NvidiaContainerToolkit,
}

#[verifier::ext_equal]
pub enum FixActionView {
    AptInstall { packages: Seq<Seq<char>> },
    NvidiaContainerToolkit,
}

impl View for FixAction {
    type V = FixActionView;

    open spec fn view(&self) -> FixActionView {
        match self {
            FixAction::AptInstall { packages } => FixActionView::AptInstall {
                packages: packages.deep_view(),
            },
            FixAction::NvidiaContainerToolkit => FixActionView::NvidiaContainerToolkit,
        }
    }
}

pub open spec fn actions_of(plan: Seq<FixAction>) -> Seq<FixActionView> {
    plan.map_values(|a: FixAction| a@)
}

/// The package that would fix a failing check of a tool.
pub open spec fn package_of(c: CheckView) -> Option<Seq<char>> {
    if fixable(c) && c.id != "gpu.container_toolkit"@ {
        match chars::strip_prefix(c.id, "tools."@) {
            Some(cmd) => Some(checks::spec_apt_package_for(cmd)),
            None => None,
        }
    } else {
        None
    }
}

/// The packages that would fix the failing checks, each once.
pub open spec fn packages(list: Seq<CheckView>) -> Seq<Seq<char>>
    decreases list.len(),
{
    if list.len() == 0 {
        Seq::empty()
    } else {
        let before = packages(list.drop_last());
        match package_of(list.last()) {
            Some(p) if !before.contains(p) => before.push(p),
            _ => before,
        }
    }
}

/// The check that the toolkit would fix.
pub open spec fn lacks_toolkit(c: CheckView) -> bool {
    fixable(c) && c.id == "gpu.container_toolkit"@
}

pub open spec fn needs_toolkit(list: Seq<CheckView>) -> bool {
    exists|i: int| 0 <= i < list.len() && lacks_toolkit(#[trigger] list[i])
}

pub open spec fn spec_fix_plan(list: Seq<CheckView>) -> Seq<FixActionView> {
    (if packages(list).len() > 0 {
        seq![FixActionView::AptInstall { packages: packages(list) }]
    } else {
        Seq::empty()
    }) + (if needs_toolkit(list) {
        seq![FixActionView::NvidiaContainerToolkit]
    } else {
        Seq::empty()
    })
}

/// The plan for what fails and can be installed: first the packages, then the
/// toolkit.
pub fn build_fix_plan(list: &Vec<CheckResult>) -> (r: Vec<FixAction>)
    ensures
        actions_of(r@) == spec_fix_plan(checks_of(list@)),
{
    let ghost all = checks_of(list@);
    let mut apt: Vec<String> = Vec::new();
    let mut toolkit: bool = false;
    let mut i: usize = 0;
    assert(apt.deep_view() =~= packages(all.take(0)));
    while i < list.len()
        invariant
            i <= list@.len(),
            all == checks_of(list@),
            apt.deep_view() == packages(all.take(i as int)),
            toolkit <==> exists|k: int| 0 <= k < i && lacks_toolkit(#[trigger] all[k]),
        decreases list@.len() - i,
    {
        let ghost before = apt.deep_view();
        proof {
            let t = all.take(i + 1);
            assert(t.drop_last() =~= all.take(i as int));
            assert(t.last() == list@[i as int]@);
            assert(all[i as int] == list@[i as int]@);
        }
        let c: &CheckResult = &list[i];
        if c.auto_installable && c.status == Severity::Fail {
            if text::same(&c.id, "gpu.container_toolkit") {
                toolkit = true;
            } else if let Some(cmd) = text::strip_prefix(&c.id, "tools.") {
                let pkg: String = checks::apt_package_for(&cmd);
                if !text::has(&apt, &pkg) {
                    let ghost p = pkg@;
                    apt.push(pkg);
                    assert(apt.deep_view() =~= before.push(p));
                }
            }
        }
        i = i + 1;
    }
    assert(all.take(i as int) =~= all);
    let mut plan: Vec<FixAction> = Vec::new();
    if apt.len() > 0 {
        plan.push(FixAction::AptInstall { packages: apt });
    }
    if toolkit {
        plan.push(FixAction::NvidiaContainerToolkit);
    }
    assert(actions_of(plan@) =~= spec_fix_plan(all));
    plan
}

/// The packages of a plan are those of failing checks that can be installed, and
/// none occurs twice.
pub proof fn law_packages(list: Seq<CheckView>)
    ensures
        packages(list).no_duplicates(),
        forall|p: Seq<char>| #[trigger]
            packages(list).contains(p) <==> exists|i: int|
                0 <= i < list.len() && package_of(#[trigger] list[i]) == Some(p),
    decreases list.len(),
{
    if list.len() > 0 {
        let rest = list.drop_last();
        law_packages(rest);
        let before = packages(rest);
        let all = packages(list);
        let last = list.last();
        assert(list[list.len() - 1] == last);
        assert forall|p: Seq<char>| #[trigger] all.contains(p) <==> exists|i: int|
            0 <= i < list.len() && package_of(#[trigger] list[i]) == Some(p) by {
            assert(before.contains(p) <==> exists|i: int|
                0 <= i < rest.len() && package_of(#[trigger] rest[i]) == Some(p));
            if before.contains(p) {
                let i = choose|i: int|
                    0 <= i < rest.len() && package_of(#[trigger] rest[i]) == Some(p);
                assert(package_of(list[i]) == Some(p));
                let k = choose|k: int| 0 <= k < before.len() && before[k] == p;
                assert(all[k] == p);
            } else if all.contains(p) {
                let k = choose|k: int| 0 <= k < all.len() && all[k] == p;
                assert(k == before.len());
                assert(package_of(last) == Some(p));
            } else if exists|i: int|
                0 <= i < list.len() && package_of(#[trigger] list[i]) == Some(p) {
                let i = choose|i: int|
                    0 <= i < list.len() && package_of(#[trigger] list[i]) == Some(p);
                if i < rest.len() {
                    assert(package_of(rest[i]) == Some(p));
                } else {
                    assert(all[before.len() as int] == p);
                }
            }
        }
    }
}

/// The commands of an action, as they are shown.
pub open spec fn spec_describe(a: FixActionView) -> Seq<Seq<char>> {
    match a {
        FixActionView::AptInstall { packages } => seq![
            "sudo apt-get update -y"@,
            "sudo apt-get install -y "@ + chars::join(packages, " "@),
        ],
        FixActionView::NvidiaContainerToolkit => seq![
            "curl … | sudo gpg --dearmor -o /usr/share/keyrings/nvidia-container-toolkit-keyring.gpg"@,
            "curl … | sudo tee /etc/apt/sources.list.d/nvidia-container-toolkit.list"@,
            "sudo apt-get update -y"@,
            "sudo apt-get install -y nvidia-container-toolkit"@,
            "sudo nvidia-ctk runtime configure --runtime=docker"@,
            "sudo systemctl restart docker"@,
        ],
    }
}

pub fn describe_action(a: &FixAction) -> (r: Vec<String>)
    ensures
        r.deep_view() == spec_describe(a@),
{
    let r: Vec<String> = match a {
        FixAction::AptInstall { packages } => {
            let joined: String = text::join(packages, " ");
            vec![
                "sudo apt-get update -y".to_owned(),
                text::cat2("sudo apt-get install -y ", &joined),
            ]
        },
        FixAction::NvidiaContainerToolkit => text::owned(
            vec![
                "curl … | sudo gpg --dearmor -o /usr/share/keyrings/nvidia-container-toolkit-keyring.gpg",
                "curl … | sudo tee /etc/apt/sources.list.d/nvidia-container-toolkit.list",
                "sudo apt-get update -y",
                "sudo apt-get install -y nvidia-container-toolkit",
                "sudo nvidia-ctk runtime configure --runtime=docker",
                "sudo systemctl restart docker",
            ],
        ),
    };
    assert(r.deep_view() =~= spec_describe(a@));
    r
}

pub open spec fn spec_apt_install_args(names: Seq<Seq<char>>) -> Seq<Seq<char>> {
    seq!["apt-get"@, "install"@, "-y"@] + names
}

/// The arguments of `sudo` that install the packages of a plan.
pub fn apt_install_args(packages: &Vec<String>) -> (r: Vec<String>)
    ensures
        r.deep_view() == spec_apt_install_args(packages.deep_view()),
{
    let mut r: Vec<String> = text::owned(vec!["apt-get", "install", "-y"]);
    let ghost start = seq!["apt-get"@, "install"@, "-y"@];
    assert(r.deep_view() =~= start);
    let ghost all = packages.deep_view();
    let mut i: usize = 0;
    assert(start + all.take(0) =~= start);
    while i < packages.len()
        invariant
            i <= packages@.len(),
            all == packages.deep_view(),
            r.deep_view() == start + all.take(i as int),
        decreases packages@.len() - i,
    {
        let ghost before = r.deep_view();
        r.push(packages[i].clone());
        assert(r.deep_view() =~= before.push(all[i as int]));
        assert(r.deep_view() =~= start + all.take(i + 1));
        i = i + 1;
    }
    assert(all.take(i as int) =~= all);
    r
}

/// What is said when the packages of a plan could not be installed.
pub fn apt_install_failed(packages: &Vec<String>) -> (r: String)
    ensures
        r@ == "apt-get install failed for: "@ + chars::join(packages.deep_view(), ", "@),
{
    let joined: String = text::join(packages, ", ");
    text::cat2("apt-get install failed for: ", &joined)
}

/// The shell script that installs NVIDIA's container toolkit.
pub const TOOLKIT_SCRIPT: &'static str = r#"set -euo pipefail
curl -fsSL https://nvidia.github.io/libnvidia-container/gpgkey \
  | sudo gpg --batch --yes --dearmor \
      -o /usr/share/keyrings/nvidia-container-toolkit-keyring.gpg
curl -fsSL https://nvidia.github.io/libnvidia-container/stable/deb/nvidia-container-toolkit.list \
  | sed 's#deb https://#deb [signed-by=/usr/share/keyrings/nvidia-container-toolkit-keyring.gpg] https://#g' \
  | sudo tee /etc/apt/sources.list.d/nvidia-container-toolkit.list >/dev/null
sudo apt-get update -y
sudo apt-get install -y nvidia-container-toolkit
sudo nvidia-ctk runtime configure --runtime=docker
sudo systemctl restart docker
"#;

/// What is left to do after the checks.
#[derive(Debug, Clone, Copy, PartialEq, Eq, Structural)]
pub enum FixStep {
    /// Nothing was to be fixed.
    Finish,
    /// Something was to be fixed, but nothing can be.
    NothingToFix,
    /// The plan is to be carried out, and the checks are to be made again.
    Apply,
}

pub open spec fn spec_fix_step(fix: bool, actions: nat) -> FixStep {
    if !fix {
        FixStep::Finish
    } else if actions == 0 {
        FixStep::NothingToFix
    } else {
        FixStep::Apply
    }
}

pub fn fix_step(opts: &DoctorOpts, plan: &Vec<FixAction>) -> (r: FixStep)
    ensures
        r == spec_fix_step(opts.fix, plan@.len()),
{
    if !opts.fix {
        FixStep::Finish
    } else if plan.len() == 0 {
        FixStep::NothingToFix
    } else {
        FixStep::Apply
    }
}

/// Whether a plan may be carried out.
#[derive(Debug)]
pub enum Consent {
    Given,
    /// The user is to be asked.
    Ask,
    Refuse { why: String },
}

#[verifier::ext_equal]
pub enum ConsentView {
    Given,
    Ask,
    Refuse { why: Seq<char> },
}

impl View for Consent {
    type V = ConsentView;

    open spec fn view(&self) -> ConsentView {
        match self {
            Consent::Given => ConsentView::Given,
            Consent::Ask => ConsentView::Ask,
            Consent::Refuse { why } => ConsentView::Refuse { why: why@ },
        }
    }
}

pub open spec fn spec_consent(yes: bool, json: bool, terminal: bool) -> ConsentView {
    if yes {
        ConsentView::Given
    } else if json {
        ConsentView::Refuse {
            why: "--fix without --yes requires a TTY for confirmation; JSON mode cannot prompt"@,
        }
    } else if !terminal {
        ConsentView::Refuse {
            why: "--fix without --yes requires a TTY for confirmation; pass --yes for non-interactive runs"@,
        }
    } else {
        ConsentView::Ask
    }
}

/// Unattended runs have consented; others are asked, if there is someone to ask.
pub fn consent(yes: bool, json: bool, terminal: bool) -> (r: Consent)
    ensures
        r@ == spec_consent(yes, json, terminal),
{
    if yes {
        Consent::Given
    } else if json {
        Consent::Refuse {
            why: "--fix without --yes requires a TTY for confirmation; JSON mode cannot prompt".to_owned(),
        }
    } else if !terminal {
        Consent::Refuse {
            why: "--fix without --yes requires a TTY for confirmation; pass --yes for non-interactive runs".to_owned(),
        }
    } else {
        Consent::Ask
    }
}

/// The commands of a plan, each on a line of its own.
pub open spec fn plan_lines(plan: Seq<FixActionView>) -> Seq<Seq<char>>
    decreases plan.len(),
{
    if plan.len() == 0 {
        Seq::empty()
    } else {
        plan_lines(plan.drop_last()) + spec_describe(plan.last()).map_values(
            |c: Seq<char>| "  $ "@ + c,
        )
    }
}

pub open spec fn spec_plan_text(plan: Seq<FixActionView>) -> Seq<char> {
    chars::unlines(seq![""@, "plan:"@] + plan_lines(plan) + seq![""@])
}

/// What is shown before a plan is carried out.
pub fn plan_text(plan: &Vec<FixAction>) -> (r: String)
    ensures
        r@ == spec_plan_text(actions_of(plan@)),
{
    let ghost all = actions_of(plan@);
    let mut lines: Vec<String> = text::owned(vec!["", "plan:"]);
    let ghost start = seq![""@, "plan:"@];
    assert(lines.deep_view() =~= start);
    let mut i: usize = 0;
    assert(start + plan_lines(all.take(0)) =~= start);
    while i < plan.len()
        invariant
            i <= plan@.len(),
            all == actions_of(plan@),
            lines.deep_view() == start + plan_lines(all.take(i as int)),
        decreases plan@.len() - i,
    {
        let ghost before = lines.deep_view();
        proof {
            let t = all.take(i + 1);
            assert(t.drop_last() =~= all.take(i as int));
            assert(t.last() == plan@[i as int]@);
        }
        let commands: Vec<String> = describe_action(&plan[i]);
        let ghost shown = commands.deep_view().map_values(|c: Seq<char>| "  $ "@ + c);
        let mut k: usize = 0;
        assert(before + shown.take(0) =~= before);
        while k < commands.len()
            invariant
                k <= commands@.len(),
                shown == commands.deep_view().map_values(|c: Seq<char>| "  $ "@ + c),
                lines.deep_view() == before + shown.take(k as int),
            decreases commands@.len() - k,
        {
            let ghost so_far = lines.deep_view();
            let line: String = text::cat2("  $ ", &commands[k]);
            let ghost l = line@;
            lines.push(line);
            assert(lines.deep_view() =~= so_far.push(l));
            assert(l == shown[k as int]);
            assert(lines.deep_view() =~= before + shown.take(k + 1));
            k = k + 1;
        }
        assert(shown.take(k as int) =~= shown);
        assert(before + shown =~= start + plan_lines(all.take(i + 1)));
        i = i + 1;
    }
    assert(all.take(i as int) =~= all);
    let ghost before = lines.deep_view();
    lines.push("".to_owned());
    assert(lines.deep_view() =~= before + seq![""@]);
    text::unlines(&lines)
}

// ---------------------------------------------------------------------------
// Rendering
// ---------------------------------------------------------------------------

/// `s` in at most `max` characters: what is cut off becomes an ellipsis.
pub open spec fn spec_truncate(s: Seq<char>, max: nat) -> Seq<char> {
    if s.len() <= max {
        s
    } else if max == 0 {
        seq!['…']
    } else {
        s.take(max - 1).push('…')
    }
}

pub fn truncate(s: &str, max: usize) -> (r: String)
    ensures
        r@ == spec_truncate(s@, max as nat),
{
    let v: Vec<char> = text::chars_of(s);
    if v.len() <= max {
        return s.to_owned();
    }
    let keep: usize = if max == 0 {
        0
    } else {
        max - 1
    };
    let mut out: String = text::slice(&v, 0, keep);
    out.push('…');
    assert(out@ =~= spec_truncate(s@, max as nat));
    out
}

/// What is truncated has at most the characters that are allowed, if that is not
/// none, and is a prefix of the text but for the ellipsis.
pub proof fn law_truncate(s: Seq<char>, max: nat)
    ensures
        max >= 1 ==> spec_truncate(s, max).len() <= max,
        s.len() <= max ==> spec_truncate(s, max) == s,
        s.len() > max ==> {
            &&& spec_truncate(s, max).last() == '…'
            &&& chars::starts_with(s, spec_truncate(s, max).drop_last())
        },
{
    if s.len() > max {
        let t = spec_truncate(s, max).drop_last();
        assert(t =~= s.take(t.len() as int));
    }
}

/// The length of `s` in bytes.
pub open spec fn bytes(s: Seq<char>) -> nat {
    vstd::utf8::encode_utf8(s).len()
}

/// Lines of words: the full ones, and the one that is being filled.
#[verifier::ext_equal]
pub struct Filling {
    pub full: Seq<Seq<char>>,
    pub current: Seq<char>,
}

/// A word goes on the current line if it fits there, else on a new one.
pub open spec fn add_word(f: Filling, word: Seq<char>, width: nat) -> Filling {
    if f.current.len() == 0 {
        Filling { current: word, ..f }
    } else if bytes(f.current) + 1 + bytes(word) <= width {
        Filling { current: f.current + " "@ + word, ..f }
    } else {
        Filling { full: f.full.push(f.current), current: word }
    }
}

pub open spec fn filled(words: Seq<Seq<char>>, width: nat) -> Filling
    decreases words.len(),
{
    if words.len() == 0 {
        Filling { full: Seq::empty(), current: Seq::empty() }
    } else {
        add_word(filled(words.drop_last(), width), words.last(), width)
    }
}

/// The words of `s` in lines of at most `width` bytes, as far as the words allow.
pub open spec fn spec_wrap(s: Seq<char>, width: nat) -> Seq<Seq<char>> {
    let f = filled(chars::words(s), width);
    if f.current.len() == 0 {
        f.full
    } else {
        f.full.push(f.current)
    }
}

pub fn wrap(s: &str, width: usize) -> (r: Vec<String>)
    ensures
        r.deep_view() == spec_wrap(s@, width as nat),
{
    let words: Vec<String> = text::words(s);
    let ghost all = words.deep_view();
    let mut lines: Vec<String> = Vec::new();
    let mut cur: String = String::new();
    let mut i: usize = 0;
    proof {
        assert(lines.deep_view() =~= Seq::empty());
        assert(filled(all.take(0), width as nat) =~= (Filling {
            full: lines.deep_view(),
            current: cur@,
        }));
    }
    while i < words.len()
        invariant
            i <= words@.len(),
            all == words.deep_view(),
            filled(all.take(i as int), width as nat) == (Filling {
                full: lines.deep_view(),
                current: cur@,
            }),
        decreases words@.len() - i,
    {
        proof {
            let t = all.take(i + 1);
            assert(t.drop_last() =~= all.take(i as int));
            assert(t.last() == words@[i as int]@);
        }
        let word: &String = &words[i];
        let used: u128 = text::byte_len(&cur) as u128 + 1 + text::byte_len(word) as u128;
        if cur.as_str().is_empty() {
            cur = word.clone();
        } else if used <= width as u128 {
            cur.append(" ");
            cur.append(word);
        } else {
            let ghost before = lines.deep_view();
            let ghost line = cur@;
            lines.push(cur);
            assert(lines.deep_view() =~= before.push(line));
            cur = word.clone();
        }
        i = i + 1;
    }
    assert(all.take(i as int) =~= all);
    if !cur.as_str().is_empty() {
        let ghost before = lines.deep_view();
        let ghost line = cur@;
        lines.push(cur);
        assert(lines.deep_view() =~= before.push(line));
    }
    lines
}

proof fn lemma_bytes_joined(a: Seq<char>, b: Seq<char>)
    ensures
        bytes(a + b) == bytes(a) + bytes(b),
    decreases a.len(),
{
    if a.len() == 0 {
        assert(a + b =~= b);
    } else {
        lemma_bytes_joined(a.drop_first(), b);
        assert((a + b).drop_first() =~= a.drop_first() + b);
        assert((a + b)[0] == a[0]);
    }
}

/// The line is a word, or at most `width` bytes long.
pub open spec fn fits_or_is_word(line: Seq<char>, words: Seq<Seq<char>>, width: nat) -> bool {
    bytes(line) <= width || words.contains(line)
}

proof fn lemma_filled(words: Seq<Seq<char>>, width: nat)
    requires
        forall|i: int| 0 <= i < words.len() ==> (#[trigger] words[i]).len() > 0,
    ensures
        words.len() == 0 ==> filled(words, width).full.len() == 0 && filled(
            words,
            width,
        ).current.len() == 0,
        words.len() > 0 ==> {
            let f = filled(words, width);
            &&& f.current.len() > 0
            &&& chars::join(f.full.push(f.current), " "@) == chars::join(words, " "@)
            &&& fits_or_is_word(f.current, words, width)
        },
        forall|i: int|
            0 <= i < filled(words, width).full.len() ==> fits_or_is_word(
                #[trigger] filled(words, width).full[i],
                words,
                width,
            ),
    decreases words.len(),
{
    if words.len() > 0 {
        let rest = words.drop_last();
        let w = words.last();
        assert forall|i: int| 0 <= i < rest.len() implies (#[trigger] rest[i]).len() > 0 by {
            assert(rest[i] == words[i]);
        }
        lemma_filled(rest, width);
        let g = filled(rest, width);
        let f = filled(words, width);
        assert(words[words.len() - 1] == w);
        assert forall|l: Seq<char>| rest.contains(l) implies words.contains(l) by {
            let k = choose|k: int| 0 <= k < rest.len() && rest[k] == l;
            assert(words[k] == l);
        }
        let sep = " "@;
        assert(bytes(sep) == 1) by {
            reveal_strlit(" ");
            reveal_with_fuel(vstd::utf8::encode_utf8, 2);
            assert(sep =~= seq![' ']);
            assert(sep.drop_first() =~= Seq::empty());
        }
        if rest.len() == 0 {
            assert(f.full.push(f.current) =~= words);
        } else {
            let before = g.full.push(g.current);
            assert(before.drop_last() =~= g.full);
            if bytes(g.current) + 1 + bytes(w) <= width {
                let line = g.current + sep + w;
                assert(f.full == g.full && f.current == line);
                lemma_bytes_joined(g.current + sep, w);
                lemma_bytes_joined(g.current, sep);
                let after = g.full.push(line);
                assert(after.drop_last() =~= g.full);
                if g.full.len() == 0 {
                    assert(chars::join(after, sep) == line);
                    assert(chars::join(before, sep) == g.current);
                } else {
                    assert(chars::join(g.full, sep) + sep + line =~= chars::join(g.full, sep) + sep
                        + g.current + sep + w);
                }
            } else {
                assert(f.full =~= before && f.current == w);
                let after = before.push(w);
                assert(after.drop_last() =~= before);
                assert(chars::join(after, sep) == chars::join(before, sep) + sep + w);
                assert forall|i: int| 0 <= i < f.full.len() implies fits_or_is_word(
                    #[trigger] f.full[i],
                    words,
                    width,
                ) by {
                    if i < g.full.len() {
                        assert(f.full[i] == g.full[i]);
                    }
                }
            }
        }
    }
}

/// Wrapping keeps the words and their order, and a line is longer than the width
/// only where it is a single word.
pub proof fn law_wrap(s: Seq<char>, width: nat)
    ensures
        chars::join(spec_wrap(s, width), " "@) == chars::join(chars::words(s), " "@),
        forall|i: int|
            0 <= i < spec_wrap(s, width).len() ==> fits_or_is_word(
                #[trigger] spec_wrap(s, width)[i],
                chars::words(s),
                width,
            ),
{
    chars::lemma_words_not_empty(s);
    lemma_filled(chars::words(s), width);
    if chars::words(s).len() == 0 {
        assert(spec_wrap(s, width) =~= Seq::empty());
    }
}

/// The longest of the texts, in bytes.
pub open spec fn longest(list: Seq<Seq<char>>) -> nat
    decreases list.len(),
{
    if list.len() == 0 {
        0
    } else {
        let before = longest(list.drop_last());
        if bytes(list.last()) > before {
            bytes(list.last())
        } else {
            before
        }
    }
}

/// The ids of the checks, or else their values.
pub open spec fn column(list: Seq<CheckView>, ids: bool) -> Seq<Seq<char>> {
    Seq::new(
        list.len(),
        |i: int|
            if ids {
                list[i].id
            } else {
                list[i].value
            },
    )
}

/// The width of the column of ids.
pub open spec fn id_width(list: Seq<CheckView>) -> nat {
    let n = longest(column(list, true));
    if n < 20 {
        20
    } else {
        n
    }
}

/// The width of the column of values.
pub open spec fn value_width(list: Seq<CheckView>) -> nat {
    let n = if list.len() == 0 {
        40
    } else {
        longest(column(list, false))
    };
    if n > 60 {
        60
    } else {
        n
    }
}

pub open spec fn badge(on: bool, status: Severity) -> Seq<char> {
    match status {
        Severity::Okay => style::green_text(on, " ok  "@),
        Severity::Warn => style::yellow_text(on, "warn "@),
        Severity::Fail => style::red_text(on, "fail "@),
        Severity::Skip => style::dim_text(on, "skip "@),
    }
}

/// Advice, wrapped and indented behind an arrow.
pub open spec fn advice_lines(on: bool, fix: Option<Seq<char>>) -> Seq<Seq<char>> {
    match fix {
        None => Seq::empty(),
        Some(f) => {
            let lines = spec_wrap(f, 92);
            Seq::new(
                lines.len(),
                |i: int|
                    (if i == 0 {
                        style::dim_text(on, "        ↳ "@)
                    } else {
                        style::dim_text(on, "          "@)
                    }) + lines[i],
            )
        },
    }
}

/// A check, with a heading where its category is another than the one before.
pub open spec fn check_lines(
    on: bool,
    previous: Seq<char>,
    c: CheckView,
    id_w: nat,
    val_w: nat,
) -> Seq<Seq<char>> {
    (if c.category == previous {
        Seq::empty()
    } else {
        (if previous.len() == 0 {
            Seq::empty()
        } else {
            seq![""@]
        }) + seq![style::dim_text(on, "["@ + c.category + "]"@)]
    }) + seq![
        "  "@ + badge(on, c.status) + " "@ + chars::padded(c.id, id_w) + "  "@ + spec_truncate(
            c.value,
            val_w,
        ),
    ] + advice_lines(on, c.fix)
}

/// The checks of the list, with the category that stands before them.
pub open spec fn body_lines(on: bool, list: Seq<CheckView>, id_w: nat, val_w: nat) -> Seq<Seq<char>>
    decreases list.len(),
{
    if list.len() == 0 {
        Seq::empty()
    } else {
        let rest = list.drop_last();
        let previous = if rest.len() == 0 {
            Seq::empty()
        } else {
            rest.last().category
        };
        body_lines(on, rest, id_w, val_w) + check_lines(on, previous, list.last(), id_w, val_w)
    }
}

/// How many failures can be installed.
pub open spec fn fixable_count(list: Seq<CheckView>) -> nat
    decreases list.len(),
{
    if list.len() == 0 {
        0
    } else {
        fixable_count(list.drop_last()) + (if fixable(list.last()) {
            1nat
        } else {
            0nat
        })
    }
}

pub open spec fn summary_lines(on: bool, s: Summary, list: Seq<CheckView>) -> Seq<Seq<char>> {
    seq![
        ""@,
        style::bold_text(on, "summary"@) + ": "@ + style::green_text(on, chars::decimal(s.ok as nat),
        ) + " ok, "@ + style::yellow_text(on, chars::decimal(s.warn as nat)) + " warn, "@
            + style::red_text(on, chars::decimal(s.fail as nat)) + " fail, "@ + style::dim_text(
            on,
            chars::decimal(s.skip as nat),
        ) + " skip"@,
    ] + (if fixable_count(list) > 0 {
        seq![
            "  "@ + style::cyan_text(on, "hint:"@) + " "@ + chars::decimal(
                fixable_count(list),
            )
                + " item(s) can be auto-installed with `./vello doctor --fix` (add --yes for unattended)."@,
        ]
    } else {
        Seq::empty()
    })
}

/// A report as text.
pub open spec fn spec_render_human(on: bool, r: Report) -> Seq<char> {
    let list = checks_of(r.checks@);
    chars::unlines(
        seq![
            style::bold_text(on, "vello doctor — host pre-flight"@),
            "  "@ + style::dim_text(on, "mode"@) + ": "@ + r.mode.selected.spec_label() + " ("@
                + r.mode.reason@ + ")"@,
            ""@,
        ] + body_lines(on, list, id_width(list), value_width(list)) + summary_lines(
            on,
            r.summary,
            list,
        ),
    )
}

fn longest_of(list: &Vec<CheckResult>, ids: bool) -> (n: usize)
    ensures
        n == longest(column(checks_of(list@), ids)),
{
    let ghost all = column(checks_of(list@), ids);
    let mut n: usize = 0;
    let mut i: usize = 0;
    while i < list.len()
        invariant
            i <= list@.len(),
            all == column(checks_of(list@), ids),
            n == longest(all.take(i as int)),
        decreases list@.len() - i,
    {
        proof {
            let t = all.take(i + 1);
            assert(t.drop_last() =~= all.take(i as int));
            assert(t.last() == all[i as int]);
            assert(checks_of(list@)[i as int] == list@[i as int]@);
        }
        let len: usize = if ids {
            text::byte_len(&list[i].id)
        } else {
            text::byte_len(&list[i].value)
        };
        if len > n {
            n = len;
        }
        i = i + 1;
    }
    assert(all.take(i as int) =~= all);
    n
}

fn id_width_of(list: &Vec<CheckResult>) -> (n: usize)
    ensures
        n == id_width(checks_of(list@)),
{
    let n: usize = longest_of(list, true);
    if n < 20 {
        20
    } else {
        n
    }
}

fn value_width_of(list: &Vec<CheckResult>) -> (n: usize)
    ensures
        n == value_width(checks_of(list@)),
{
    let n: usize = if list.len() == 0 {
        40
    } else {
        longest_of(list, false)
    };
    if n > 60 {
        60
    } else {
        n
    }
}

fn add_advice(out: &mut Vec<String>, st: &Style, fix: &Option<String>)
    ensures
        final(out).deep_view() == old(out).deep_view() + advice_lines(st.on(), fix.deep_view()),
{
    let ghost start = out.deep_view();
    match fix {
        None => {
            assert(start =~= start + advice_lines(st.on(), fix.deep_view()));
        },
        Some(f) => {
            let lines: Vec<String> = wrap(f, 92);
            let ghost shown = advice_lines(st.on(), fix.deep_view());
            assert(shown.len() == lines@.len()) by {
                assert(lines.deep_view().len() == lines@.len());
            }
            let mut i: usize = 0;
            assert(start =~= start + shown.take(0));
            while i < lines.len()
                invariant
                    i <= lines@.len(),
                    shown.len() == lines@.len(),
                    lines.deep_view() == spec_wrap(f@, 92),
                    fix.deep_view() == Some(f@),
                    shown == advice_lines(st.on(), fix.deep_view()),
                    out.deep_view() == start + shown.take(i as int),
                decreases lines@.len() - i,
            {
                let lead: String = if i == 0 {
                    st.dim("        ↳ ")
                } else {
                    st.dim("          ")
                };
                let line: String = text::cat2(&lead, &lines[i]);
                assert(lines.deep_view()[i as int] == lines@[i as int]@);
                assert(line@ == shown[i as int]);
                text::add_line(out, line);
                assert(out.deep_view() =~= start + shown.take(i + 1));
                i = i + 1;
            }
            assert(shown.take(i as int) =~= shown);
        },
    }
}

fn add_check_lines(
    out: &mut Vec<String>,
    st: &Style,
    previous: &str,
    c: &CheckResult,
    id_w: usize,
    val_w: usize,
)
    ensures
        final(out).deep_view() == old(out).deep_view() + check_lines(
            st.on(),
            previous@,
            c@,
            id_w as nat,
            val_w as nat,
        ),
{
    let ghost start = out.deep_view();
    let ghost heading = if c.category@ == previous@ {
        Seq::<Seq<char>>::empty()
    } else {
        (if previous@.len() == 0 {
            Seq::<Seq<char>>::empty()
        } else {
            seq![""@]
        }) + seq![style::dim_text(st.on(), "["@ + c.category@ + "]"@)]
    };
    if !text::same(&c.category, previous) {
        if !previous.is_empty() {
            text::add_line(out, "".to_owned());
        }
        let name: String = text::cat3("[", &c.category, "]");
        text::add_line(out, st.dim(&name));
    }
    assert(out.deep_view() =~= start + heading);
    let mark: String = match c.status {
        Severity::Okay => st.green(" ok  "),
        Severity::Warn => st.yellow("warn "),
        Severity::Fail => st.red("fail "),
        Severity::Skip => st.dim("skip "),
    };
    let value: String = truncate(&c.value, val_w);
    let id: String = text::padded(&c.id, id_w);
    let line: String = text::cat6("  ", &mark, " ", &id, "  ", &value);
    let ghost l = line@;
    text::add_line(out, line);
    add_advice(out, st, &c.fix);
    assert(out.deep_view() =~= start + (heading + seq![l] + advice_lines(
        st.on(),
        c.fix.deep_view(),
    )));
}

fn count_fixable(list: &Vec<CheckResult>) -> (n: usize)
    ensures
        n == fixable_count(checks_of(list@)),
{
    let ghost all = checks_of(list@);
    let mut n: usize = 0;
    let mut i: usize = 0;
    while i < list.len()
        invariant
            n <= i <= list@.len(),
            all == checks_of(list@),
            n == fixable_count(all.take(i as int)),
        decreases list@.len() - i,
    {
        proof {
            let t = all.take(i + 1);
            assert(t.drop_last() =~= all.take(i as int));
            assert(t.last() == list@[i as int]@);
        }
        if list[i].auto_installable && list[i].status == Severity::Fail {
            n = n + 1;
        }
        i = i + 1;
    }
    assert(all.take(i as int) =~= all);
    n
}

fn add_summary(out: &mut Vec<String>, st: &Style, report: &Report)
    ensures
        final(out).deep_view() == old(out).deep_view() + summary_lines(
            st.on(),
            report.summary,
            checks_of(report.checks@),
        ),
{
    let ghost start = out.deep_view();
    let ok: String = text::decimal(report.summary.ok as u128);
    let warn: String = text::decimal(report.summary.warn as u128);
    let fail: String = text::decimal(report.summary.fail as u128);
    let skip: String = text::decimal(report.summary.skip as u128);
    let mut line: String = st.bold("summary");
    line.append(": ");
    line.append(&st.green(&ok));
    line.append(" ok, ");
    line.append(&st.yellow(&warn));
    line.append(" warn, ");
    line.append(&st.red(&fail));
    line.append(" fail, ");
    line.append(&st.dim(&skip));
    line.append(" skip");
    let ghost l = line@;
    text::add_line(out, "".to_owned());
    text::add_line(out, line);
    assert(out.deep_view() =~= start + seq![""@, l]);
    let n: usize = count_fixable(&report.checks);
    if n > 0 {
        let number: String = text::decimal(n as u128);
        let word: String = st.cyan("hint:");
        let hint: String = text::cat5(
            "  ",
            &word,
            " ",
            &number,
            " item(s) can be auto-installed with `./vello doctor --fix` (add --yes for unattended).",
        );
        let ghost h = hint@;
        text::add_line(out, hint);
        assert(out.deep_view() =~= start + (seq![""@, l] + seq![h]));
    } else {
        assert(out.deep_view() =~= start + (seq![""@, l] + Seq::<Seq<char>>::empty()));
    }
}

/// A report as text.
pub fn render_human(report: &Report, st: &Style) -> (r: String)
    ensures
        r@ == spec_render_human(st.on(), *report),
{
    let ghost all = checks_of(report.checks@);
    let title: String = st.bold("vello doctor — host pre-flight");
    let word: String = st.dim("mode");
    let mode: String = text::cat7(
        "  ",
        &word,
        ": ",
        report.mode.selected.label(),
        " (",
        &report.mode.reason,
        ")",
    );
    let mut out: Vec<String> = vec![title, mode, "".to_owned()];
    let ghost start = out.deep_view();
    let id_w: usize = id_width_of(&report.checks);
    let val_w: usize = value_width_of(&report.checks);
    let mut i: usize = 0;
    let mut previous: String = String::new();
    assert(start =~= start + body_lines(st.on(), all.take(0), id_w as nat, val_w as nat));
    while i < report.checks.len()
        invariant
            i <= report.checks@.len(),
            all == checks_of(report.checks@),
            previous@ == (if i == 0 {
                Seq::empty()
            } else {
                all[i - 1].category
            }),
            out.deep_view() == start + body_lines(
                st.on(),
                all.take(i as int),
                id_w as nat,
                val_w as nat,
            ),
        decreases report.checks@.len() - i,
    {
        proof {
            let t = all.take(i + 1);
            assert(t.drop_last() =~= all.take(i as int));
            assert(t.last() == report.checks@[i as int]@);
            if i > 0 {
                assert(all.take(i as int).last() == all[i - 1]);
            }
        }
        let ghost before = out.deep_view();
        add_check_lines(&mut out, st, &previous, &report.checks[i], id_w, val_w);
        assert(out.deep_view() =~= start + body_lines(
            st.on(),
            all.take(i + 1),
            id_w as nat,
            val_w as nat,
        ));
        previous = report.checks[i].category.clone();
        i = i + 1;
    }
    assert(all.take(i as int) =~= all);
    add_summary(&mut out, st, report);
    let r: String = text::unlines(&out);
    proof {
        assert(start =~= seq![
            style::bold_text(st.on(), "vello doctor — host pre-flight"@),
            "  "@ + style::dim_text(st.on(), "mode"@) + ": "@ + report.mode.selected.spec_label() + " ("@
                + report.mode.reason@ + ")"@,
            ""@,
        ]);
    }
    r
}

/// How the mode is decided. `--gpu` goes before `--cpu`, and needs a card; without either
/// the profile counts, and where it wants a card that is not there, CPU mode is taken if
/// the run is unattended by request, asked for on a terminal, and refused elsewhere.
pub proof fn law_decide_mode(current: Mode, gpu: bool, opts: DoctorOpts, terminal: bool)
    ensures
        ({
            let d = spec_decide_mode(current, gpu, opts, terminal);
            let lost = !opts.force_gpu && !opts.force_cpu && current == Mode::Gpu && !gpu;
            let unattended = opts.yes || opts.installer_mode;
            &&& (d matches ModeDecisionView::Switch { mode, .. } && mode == Mode::Gpu)
                <==> opts.force_gpu && gpu
            &&& (d matches ModeDecisionView::Switch { mode, .. } && mode == Mode::Cpu)
                <==> !opts.force_gpu && opts.force_cpu || lost && unattended
            &&& (d matches ModeDecisionView::Keep { mode, .. } && mode == Mode::Cpu)
                <==> !opts.force_gpu && !opts.force_cpu && current == Mode::Cpu
            &&& (d matches ModeDecisionView::Keep { mode, .. } && mode == Mode::Gpu)
                <==> !opts.force_gpu && !opts.force_cpu && current == Mode::Gpu && gpu
            &&& d is Ask <==> lost && !unattended && terminal && !opts.json
            &&& d is Refuse <==> opts.force_gpu && !gpu || lost && !unattended && (!terminal
                || opts.json)
        }),
{
}

/// Only these four answers are a yes, with any white space around them.
pub proof fn law_is_yes(answer: Seq<char>)
    ensures
        spec_is_yes(answer) <==> chars::trim(answer) == "y"@ || chars::trim(answer) == "Y"@
            || chars::trim(answer) == "yes"@ || chars::trim(answer) == "YES"@,
{
}

/// Consent is given by `--yes` alone; without it the user is asked, on a terminal and not
/// in JSON mode, and else the fix is refused.
pub proof fn law_consent(yes: bool, json: bool, terminal: bool)
    ensures
        spec_consent(yes, json, terminal) is Given <==> yes,
        spec_consent(yes, json, terminal) is Ask <==> !yes && !json && terminal,
        spec_consent(yes, json, terminal) is Refuse <==> !yes && (json || !terminal),
{
}

/// The checks of one status are counted.
pub proof fn law_count(list: Seq<CheckView>, status: Severity)
    ensures
        count(list, status) == list.filter(|c: CheckView| c.status == status).len(),
    decreases list.len(),
{
    reveal(Seq::filter);
    if list.len() > 0 {
        law_count(list.drop_last(), status);
    }
}

/// The exit code is 2 where some check fails that cannot be installed, 1 where some check
/// fails and all that do can be, and else 0.
pub proof fn law_exit_codes(list: Seq<CheckView>)
    ensures
        ({
            let code = spec_exit_code(count(list, Severity::Fail) as int, list);
            let stuck = exists|i: int|
                0 <= i < list.len() && (#[trigger] list[i]).status == Severity::Fail
                    && !list[i].auto_installable;
            let failed = exists|i: int|
                0 <= i < list.len() && (#[trigger] list[i]).status == Severity::Fail;
            &&& code == 2 <==> stuck
            &&& code == 1 <==> failed && !stuck
            &&& code == 0 <==> !failed
        }),
{
    law_exit_code(list);
    assert(any_unfixable(list) <==> exists|i: int|
        0 <= i < list.len() && (#[trigger] list[i]).status == Severity::Fail
            && !list[i].auto_installable) by {
        if any_unfixable(list) {
            let i = choose|i: int| 0 <= i < list.len() && unfixable(#[trigger] list[i]);
            assert(list[i].status == Severity::Fail && !list[i].auto_installable);
        }
        if exists|i: int|
            0 <= i < list.len() && (#[trigger] list[i]).status == Severity::Fail
                && !list[i].auto_installable {
            let i = choose|i: int|
                0 <= i < list.len() && (#[trigger] list[i]).status == Severity::Fail
                    && !list[i].auto_installable;
            assert(unfixable(list[i]));
        }
    }
}

/// The plan installs, in one run of apt, the packages of the commands whose checks fail and
/// can be mended so, and then the container toolkit if its check does; nothing else.
pub proof fn law_fix_plan(list: Seq<CheckView>)
    ensures
        ({
            let plan = spec_fix_plan(list);
            let kit = exists|i: int|
                0 <= i < list.len() && (#[trigger] list[i]).status == Severity::Fail
                    && list[i].auto_installable && list[i].id == "gpu.container_toolkit"@;
            let apt: int = if packages(list).len() > 0 { 1 } else { 0 };
            &&& plan.len() == apt + (if kit { 1int } else { 0int })
            &&& apt == 1 ==> plan[0] == (FixActionView::AptInstall { packages: packages(list) })
            &&& kit ==> plan[apt] == FixActionView::NvidiaContainerToolkit
        }),
        forall|p: Seq<char>| #[trigger]
            packages(list).contains(p) <==> exists|i: int, cmd: Seq<char>|
                #![trigger list[i], checks::spec_apt_package_for(cmd)]
                0 <= i < list.len() && list[i].status == Severity::Fail && list[i].auto_installable
                    && list[i].id == "tools."@ + cmd && p == checks::spec_apt_package_for(cmd),
{
    lemma_needs_toolkit(list);
    law_packages(list);
    reveal_strlit("tools.");
    reveal_strlit("gpu.container_toolkit");
    assert forall|p: Seq<char>| #[trigger]
        packages(list).contains(p) <==> exists|i: int, cmd: Seq<char>|
            #![trigger list[i], checks::spec_apt_package_for(cmd)]
            0 <= i < list.len() && list[i].status == Severity::Fail && list[i].auto_installable
                && list[i].id == "tools."@ + cmd && p == checks::spec_apt_package_for(cmd) by {
        if packages(list).contains(p) {
            let i = choose|i: int| 0 <= i < list.len() && package_of(#[trigger] list[i]) == Some(p);
            let cmd = chars::strip_prefix(list[i].id, "tools."@)->0;
            assert(list[i].id =~= "tools."@ + cmd);
            assert(p == checks::spec_apt_package_for(cmd));
        }
        if exists|i: int, cmd: Seq<char>|
            #![trigger list[i], checks::spec_apt_package_for(cmd)]
            0 <= i < list.len() && list[i].status == Severity::Fail && list[i].auto_installable
                && list[i].id == "tools."@ + cmd && p == checks::spec_apt_package_for(cmd) {
            let (i, cmd) = choose|i: int, cmd: Seq<char>|
                #![trigger list[i], checks::spec_apt_package_for(cmd)]
                0 <= i < list.len() && list[i].status == Severity::Fail && list[i].auto_installable
                    && list[i].id == "tools."@ + cmd && p == checks::spec_apt_package_for(cmd);
            let id = list[i].id;
            assert(id[0] == 't');
            assert("gpu.container_toolkit"@[0] == 'g');
            assert(id.take(6) =~= "tools."@);
            assert(id.skip(6) =~= cmd);
            assert(package_of(list[i]) == Some(p));
        }
    }
}

proof fn lemma_needs_toolkit(list: Seq<CheckView>)
    ensures
        needs_toolkit(list) <==> exists|i: int|
            0 <= i < list.len() && (#[trigger] list[i]).status == Severity::Fail
                && list[i].auto_installable && list[i].id == "gpu.container_toolkit"@,
{
    if needs_toolkit(list) {
        let i = choose|i: int| 0 <= i < list.len() && lacks_toolkit(#[trigger] list[i]);
        assert(list[i].status == Severity::Fail);
    }
    if exists|i: int|
        0 <= i < list.len() && (#[trigger] list[i]).status == Severity::Fail
            && list[i].auto_installable && list[i].id == "gpu.container_toolkit"@ {
        let i = choose|i: int|
            0 <= i < list.len() && (#[trigger] list[i]).status == Severity::Fail
                && list[i].auto_installable && list[i].id == "gpu.container_toolkit"@;
        assert(lacks_toolkit(list[i]));
    }
}

/// The checks of the report, group by group: each group's checks stand together, in the
/// order system, processor, memory, disk, tools, graphics card, Rust, ports, search path,
/// project, and there are no others.
pub proof fn law_all_checks(f: HostFacts, profile_ram: Num, mode: Mode, deep: bool)
    ensures
        ({
            let all = all_checks(f, profile_ram, mode, deep);
            let ram = match f.ram_gb {
                Some(x) => x@,
                None => profile_ram,
            };
            let free = match f.df {
                Some(out) => checks::spec_free_gb(out@),
                None => None,
            };
            let gpu = checks::spec_checks_gpu(mode, deep, f.gpu);
            let n = 15 + gpu.len() as int;
            &&& all.len() == n + 8
            &&& all.subrange(0, 3) == checks::spec_checks_os(
                f.kernel.deep_view(),
                f.os_release.deep_view(),
                f.managers,
            )
            &&& all.subrange(3, 5) == checks::spec_checks_cpu(
                f.nproc.deep_view(),
                f.arch.deep_view(),
            )
            &&& all.subrange(5, 6) == checks::spec_checks_mem(ram)
            &&& all.subrange(6, 7) == checks::spec_checks_disk(free, f.project_root@)
            &&& all.subrange(7, 15) == checks::spec_checks_tools(f.tools)
            &&& all.subrange(15, n) == gpu
            &&& all.subrange(n, n + 1) == checks::spec_checks_rust(f.cargo.deep_view())
            &&& all.subrange(n + 1, n + 3) == checks::spec_checks_ports(
                f.llama_port,
                f.webui_port,
                f.ss.deep_view(),
            )
            &&& all.subrange(n + 3, n + 5) == checks::spec_checks_path(
                checks::spec_bin_dir(f.home.deep_view()),
                f.path_var.deep_view(),
                f.link_target.deep_view(),
                f.project_root@,
            )
            &&& all.subrange(n + 5, n + 8) == checks::spec_checks_project(mode, f.project)
        }),
{
}

/// The width of the ids is that of the longest, and at least 20; that of the values is
/// that of the longest, and at most 60.
pub proof fn law_widths(list: Seq<CheckView>, i: int)
    requires
        0 <= i < list.len(),
    ensures
        id_width(list) >= 20,
        id_width(list) >= bytes(list[i].id),
        id_width(list) == 20 || exists|k: int|
            0 <= k < list.len() && id_width(list) == bytes((#[trigger] list[k]).id),
        value_width(list) <= 60,
        value_width(list) == 60 || value_width(list) >= bytes(list[i].value),
        value_width(list) == 60 || exists|k: int|
            0 <= k < list.len() && value_width(list) == bytes((#[trigger] list[k]).value),
{
    let ids = column(list, true);
    let values = column(list, false);
    lemma_longest(ids, i);
    lemma_longest(values, i);
    let a = choose|k: int| 0 <= k < ids.len() && longest(ids) == bytes(#[trigger] ids[k]);
    let b = choose|k: int| 0 <= k < values.len() && longest(values) == bytes(#[trigger] values[k]);
    assert(ids[a] == list[a].id);
    assert(values[b] == list[b].value);
}

proof fn lemma_longest(list: Seq<Seq<char>>, i: int)
    requires
        0 <= i < list.len(),
    ensures
        longest(list) >= bytes(list[i]),
        exists|k: int| 0 <= k < list.len() && longest(list) == bytes(#[trigger] list[k]),
    decreases list.len(),
{
    let rest = list.drop_last();
    if rest.len() > 0 {
        let j = if i < rest.len() {
            i
        } else {
            0
        };
        lemma_longest(rest, j);
        assert(rest[j] == list[j]);
        let k = choose|k: int| 0 <= k < rest.len() && longest(rest) == bytes(#[trigger] rest[k]);
        assert(rest[k] == list[k]);
    } else {
        assert(longest(rest) == 0);
    }
    assert(list[list.len() - 1] == list.last());
}

proof fn lemma_package_of_tool(c: CheckView, name: Seq<char>)
    requires
        c.id == "tools."@ + name,
    ensures
        package_of(c) == (if c.status == Severity::Fail && c.auto_installable {
            Some(checks::spec_apt_package_for(name))
        } else {
            None
        }),
        !lacks_toolkit(c),
{
    reveal_strlit("tools.");
    reveal_strlit("gpu.container_toolkit");
    assert(c.id[0] == 't');
    assert("gpu.container_toolkit"@[0] == 'g');
    assert(c.id.take(6) =~= "tools."@);
    assert(c.id.skip(6) =~= name);
}

/// Where the checks that can be mended stand.
#[verifier::rlimit(60)]
#[verifier::spinoff_prover]
proof fn lemma_mendable(f: HostFacts, profile_ram: Num, mode: Mode, deep: bool, i: int)
    requires
        0 <= i < all_checks(f, profile_ram, mode, deep).len(),
        fixable(all_checks(f, profile_ram, mode, deep)[i]),
    ensures
        10 <= i < 14 || all_checks(f, profile_ram, mode, deep)[i].id == "gpu.container_toolkit"@,
{
    let all = all_checks(f, profile_ram, mode, deep);
    let gpu = checks::spec_checks_gpu(mode, deep, f.gpu);
    let n = 15 + gpu.len() as int;
    let ram = match f.ram_gb {
        Some(x) => x@,
        None => profile_ram,
    };
    law_all_checks(f, profile_ram, mode, deep);
    checks::law_checks_os(f.kernel.deep_view(), f.os_release.deep_view(), f.managers);
    checks::law_checks_cpu(f.nproc.deep_view(), f.arch.deep_view());
    checks::law_checks_mem(ram);
    checks::law_checks_disk(checks::free_space(f.df.deep_view()), f.project_root@);
    checks::law_checks_tools(f.tools);
    checks::law_checks_gpu(mode, deep, f.gpu);
    checks::law_checks_rust(f.cargo.deep_view());
    checks::law_checks_ports(f.llama_port, f.webui_port, f.ss.deep_view());
    checks::law_checks_path(
        checks::spec_bin_dir(f.home.deep_view()),
        f.path_var.deep_view(),
        f.link_target.deep_view(),
        f.project_root@,
    );
    checks::law_checks_project(mode, f.project);
    if i < 3 {
        assert(all[i] == all.subrange(0, 3)[i]);
    } else if i < 5 {
        assert(all[i] == all.subrange(3, 5)[i - 3]);
    } else if i < 6 {
        assert(all[i] == all.subrange(5, 6)[0]);
    } else if i < 7 {
        assert(all[i] == all.subrange(6, 7)[0]);
    } else if i < 15 {
        assert(all[i] == all.subrange(7, 15)[i - 7]);
    } else if i < n {
        assert(all[i] == gpu[i - 15]);
    } else if i < n + 1 {
        assert(all[i] == all.subrange(n, n + 1)[0]);
    } else if i < n + 3 {
        assert(all[i] == all.subrange(n + 1, n + 3)[i - n - 1]);
    } else if i < n + 5 {
        assert(all[i] == all.subrange(n + 3, n + 5)[i - n - 3]);
    } else {
        assert(all[i] == all.subrange(n + 5, n + 8)[i - n - 5]);
    }
}

/// From the host to the plan: of the commands that are needed, the packages of exactly
/// those that are missing are installed, and the container toolkit exactly where it is
/// missing in GPU mode.
pub proof fn law_missing_is_planned(f: HostFacts, profile_ram: Num, mode: Mode, deep: bool)
    ensures
        ({
            let list = all_checks(f, profile_ram, mode, deep);
            &&& packages(list).contains("curl"@) <==> !f.tools.curl
            &&& packages(list).contains("jq"@) <==> !f.tools.jq
            &&& packages(list).contains("git"@) <==> !f.tools.git
            &&& packages(list).contains("gnupg"@) <==> !f.tools.gpg
            &&& forall|p: Seq<char>| #[trigger]
                packages(list).contains(p) ==> p == "curl"@ || p == "jq"@ || p == "git"@ || p
                    == "gnupg"@
            &&& needs_toolkit(list) <==> mode == Mode::Gpu && !f.gpu.toolkit
        }),
{
    let list = all_checks(f, profile_ram, mode, deep);
    law_all_checks(f, profile_ram, mode, deep);
    checks::law_checks_tools(f.tools);
    let tools = checks::spec_checks_tools(f.tools);
    assert forall|k: int| 7 <= k < 15 implies list[k] == tools[k - 7] by {
        assert(list.subrange(7, 15)[k - 7] == list[k]);
    }
    assert forall|i: int| 0 <= i < list.len() && fixable(#[trigger] list[i]) implies 10 <= i < 14
        || list[i].id == "gpu.container_toolkit"@ by {
        lemma_mendable(f, profile_ram, mode, deep, i);
    }
    lemma_planned_packages(list, f.tools.curl, f.tools.jq, f.tools.git, f.tools.gpg);
    lemma_planned_toolkit(f, profile_ram, mode, deep);
}

proof fn lemma_planned_packages(list: Seq<CheckView>, curl: bool, jq: bool, git: bool, gpg: bool)
    requires
        list.len() >= 15,
        list[10].id == "tools.curl"@ && fixable(list[10]) == !curl,
        list[11].id == "tools.jq"@ && fixable(list[11]) == !jq,
        list[12].id == "tools.git"@ && fixable(list[12]) == !git,
        list[13].id == "tools.gpg"@ && fixable(list[13]) == !gpg,
        forall|i: int|
            0 <= i < list.len() && fixable(#[trigger] list[i]) ==> 10 <= i < 14 || list[i].id
                == "gpu.container_toolkit"@,
    ensures
        packages(list).contains("curl"@) <==> !curl,
        packages(list).contains("jq"@) <==> !jq,
        packages(list).contains("git"@) <==> !git,
        packages(list).contains("gnupg"@) <==> !gpg,
        forall|p: Seq<char>| #[trigger]
            packages(list).contains(p) ==> p == "curl"@ || p == "jq"@ || p == "git"@ || p
                == "gnupg"@,
{
    law_packages(list);
    lemma_tool_names();
    lemma_package_of_tool(list[10], "curl"@);
    lemma_package_of_tool(list[11], "jq"@);
    lemma_package_of_tool(list[12], "git"@);
    lemma_package_of_tool(list[13], "gpg"@);
    assert forall|p: Seq<char>| #[trigger] packages(list).contains(p) implies (p == "curl"@ && !curl)
        || (p == "jq"@ && !jq) || (p == "git"@ && !git) || (p == "gnupg"@ && !gpg) by {
        let i = choose|i: int| 0 <= i < list.len() && package_of(#[trigger] list[i]) == Some(p);
        assert(fixable(list[i]));
    }
    if !curl {
        assert(package_of(list[10]) == Some("curl"@));
    }
    if !jq {
        assert(package_of(list[11]) == Some("jq"@));
    }
    if !git {
        assert(package_of(list[12]) == Some("git"@));
    }
    if !gpg {
        assert(package_of(list[13]) == Some("gnupg"@));
    }
}

#[verifier::rlimit(60)]
#[verifier::spinoff_prover]
proof fn lemma_planned_toolkit(f: HostFacts, profile_ram: Num, mode: Mode, deep: bool)
    ensures
        needs_toolkit(all_checks(f, profile_ram, mode, deep)) <==> mode == Mode::Gpu
            && !f.gpu.toolkit,
{
    let list = all_checks(f, profile_ram, mode, deep);
    law_all_checks(f, profile_ram, mode, deep);
    checks::law_checks_gpu(mode, deep, f.gpu);
    let gpu = checks::spec_checks_gpu(mode, deep, f.gpu);
    assert forall|k: int| 0 <= k < gpu.len() implies list[15 + k] == #[trigger] gpu[k] by {
        assert(list.subrange(15, 15 + gpu.len() as int)[k] == list[15 + k]);
    }
    let a: int = if f.gpu.nvidia_smi && f.gpu.driver is Some {
        1
    } else {
        0
    };
    let b: int = if f.gpu.nvidia_smi && f.gpu.gpu is Some {
        1
    } else {
        0
    };
    if mode == Mode::Gpu && !f.gpu.toolkit {
        assert(list[15 + (1 + a + b)] == gpu[1 + a + b]);
        assert(lacks_toolkit(list[15 + (1 + a + b)]));
    }
    if needs_toolkit(list) {
        let i = choose|i: int| 0 <= i < list.len() && lacks_toolkit(#[trigger] list[i]);
        lemma_toolkit_place(f, profile_ram, mode, deep, i);
        assert(list[15 + (i - 15)] == gpu[i - 15]);
    }
}

proof fn lemma_tool_names()
    ensures
        "tools."@ + "curl"@ == "tools.curl"@,
        "tools."@ + "jq"@ == "tools.jq"@,
        "tools."@ + "git"@ == "tools.git"@,
        "tools."@ + "gpg"@ == "tools.gpg"@,
        checks::spec_apt_package_for("curl"@) == "curl"@,
        checks::spec_apt_package_for("jq"@) == "jq"@,
        checks::spec_apt_package_for("git"@) == "git"@,
        checks::spec_apt_package_for("gpg"@) == "gnupg"@,
        "curl"@ != "jq"@ && "curl"@ != "git"@ && "curl"@ != "gnupg"@,
        "jq"@ != "git"@ && "jq"@ != "gnupg"@ && "git"@ != "gnupg"@,
{
    reveal_strlit("tools.");
    reveal_strlit("tools.curl");
    reveal_strlit("tools.jq");
    reveal_strlit("tools.git");
    reveal_strlit("tools.gpg");
    reveal_strlit("curl");
    reveal_strlit("jq");
    reveal_strlit("git");
    reveal_strlit("gpg");
    reveal_strlit("gnupg");
    reveal_strlit("watch");
    reveal_strlit("ss");
    assert("watch"@.len() == 5 && "curl"@.len() == 4 && "jq"@[0] == 'j' && "ss"@[0] == 's');
    assert("gpg"@[1] == 'p' && "git"@[1] == 'i' && "gpg"@.len() == 3 && "git"@.len() == 3);
    assert("jq"@.len() == 2 && "ss"@.len() == 2 && "gnupg"@.len() == 5);
    assert("tools."@ + "curl"@ =~= "tools.curl"@);
    assert("tools."@ + "jq"@ =~= "tools.jq"@);
    assert("tools."@ + "git"@ =~= "tools.git"@);
    assert("tools."@ + "gpg"@ =~= "tools.gpg"@);
    checks::law_packages_of("curl"@);
    checks::law_packages_of("jq"@);
    checks::law_packages_of("git"@);
}

/// Only a check of the graphics card can ask for the toolkit.
#[verifier::rlimit(60)]
#[verifier::spinoff_prover]
proof fn lemma_toolkit_place(f: HostFacts, profile_ram: Num, mode: Mode, deep: bool, i: int)
    requires
        0 <= i < all_checks(f, profile_ram, mode, deep).len(),
        lacks_toolkit(all_checks(f, profile_ram, mode, deep)[i]),
    ensures
        15 <= i < 15 + checks::spec_checks_gpu(mode, deep, f.gpu).len(),
{
    let all = all_checks(f, profile_ram, mode, deep);
    let gpu = checks::spec_checks_gpu(mode, deep, f.gpu);
    let n = 15 + gpu.len() as int;
    let ram = match f.ram_gb {
        Some(x) => x@,
        None => profile_ram,
    };
    law_all_checks(f, profile_ram, mode, deep);
    checks::law_checks_os(f.kernel.deep_view(), f.os_release.deep_view(), f.managers);
    checks::law_checks_cpu(f.nproc.deep_view(), f.arch.deep_view());
    checks::law_checks_mem(ram);
    checks::law_checks_disk(checks::free_space(f.df.deep_view()), f.project_root@);
    checks::law_checks_tools(f.tools);
    checks::law_checks_rust(f.cargo.deep_view());
    checks::law_checks_ports(f.llama_port, f.webui_port, f.ss.deep_view());
    checks::law_checks_path(
        checks::spec_bin_dir(f.home.deep_view()),
        f.path_var.deep_view(),
        f.link_target.deep_view(),
        f.project_root@,
    );
    checks::law_checks_project(mode, f.project);
    reveal_strlit("tools");
    reveal_strlit("gpu.container_toolkit");
    if i < 3 {
        assert(all[i] == all.subrange(0, 3)[i]);
    } else if i < 5 {
        assert(all[i] == all.subrange(3, 5)[i - 3]);
    } else if i < 6 {
        assert(all[i] == all.subrange(5, 6)[0]);
    } else if i < 7 {
        assert(all[i] == all.subrange(6, 7)[0]);
    } else if i < 15 {
        assert(all[i] == all.subrange(7, 15)[i - 7]);
        lemma_tool_names();
        reveal_strlit("tools.watch");
        reveal_strlit("watch");
        reveal_strlit("tools.");
        assert("tools."@ + "watch"@ =~= "tools.watch"@);
        if i == 10 {
            lemma_package_of_tool(all[i], "curl"@);
        } else if i == 11 {
            lemma_package_of_tool(all[i], "jq"@);
        } else if i == 12 {
            lemma_package_of_tool(all[i], "git"@);
        } else if i == 13 {
            lemma_package_of_tool(all[i], "gpg"@);
        } else if i == 14 {
            lemma_package_of_tool(all[i], "watch"@);
        }
    } else if i >= n {
        if i < n + 1 {
            assert(all[i] == all.subrange(n, n + 1)[0]);
        } else if i < n + 3 {
            assert(all[i] == all.subrange(n + 1, n + 3)[i - n - 1]);
        } else if i < n + 5 {
            assert(all[i] == all.subrange(n + 3, n + 5)[i - n - 3]);
        } else {
            assert(all[i] == all.subrange(n + 5, n + 8)[i - n - 5]);
        }
    }
}

/// The plan is carried out only with `--fix`, and only where there is something to do.
pub proof fn law_fix_step(fix: bool, actions: nat)
    ensures
        spec_fix_step(fix, actions) == FixStep::Apply <==> fix && actions > 0,
        spec_fix_step(fix, actions) == FixStep::NothingToFix <==> fix && actions == 0,
        spec_fix_step(fix, actions) == FixStep::Finish <==> !fix,
{
}

/// Without a card CPU mode is taken at a yes and refused at anything else.
pub proof fn law_answered(answer: Seq<char>)
    ensures
        spec_is_yes(answer) <==> (spec_answered(answer) matches ModeDecisionView::Switch { mode, .. }
            && mode == Mode::Cpu),
        !spec_is_yes(answer) <==> spec_answered(answer) is Refuse,
{
}

/// The commands of a plan that are shown: the packages in one installation after an update
/// of their list; the toolkit in six commands that end with a restart of Docker.
pub proof fn law_described(names: Seq<Seq<char>>)
    ensures
        spec_describe(FixActionView::AptInstall { packages: names }) == seq![
            "sudo apt-get update -y"@,
            "sudo apt-get install -y "@ + chars::join(names, " "@),
        ],
        spec_describe(FixActionView::NvidiaContainerToolkit).len() == 6,
        spec_describe(FixActionView::NvidiaContainerToolkit)[3]
            == "sudo apt-get install -y nvidia-container-toolkit"@,
        spec_describe(FixActionView::NvidiaContainerToolkit).last()
            == "sudo systemctl restart docker"@,
{
}

/// A thorough check is made with `--deep`, and always by the installer.
pub proof fn law_thorough(opts: DoctorOpts)
    ensures
        spec_thorough(opts) <==> opts.deep || opts.installer_mode,
{
}

/// The summary counts the checks that pass, warn, fail and are skipped.
pub proof fn law_counted(s: Summary, list: Seq<CheckView>)
    ensures
        counted(s, list) <==> {
            &&& s.ok == list.filter(|c: CheckView| c.status == Severity::Okay).len()
            &&& s.warn == list.filter(|c: CheckView| c.status == Severity::Warn).len()
            &&& s.fail == list.filter(|c: CheckView| c.status == Severity::Fail).len()
            &&& s.skip == list.filter(|c: CheckView| c.status == Severity::Skip).len()
        },
        fixable_count(list) == list.filter(
            |c: CheckView| c.status == Severity::Fail && c.auto_installable,
        ).len(),
{
    law_count(list, Severity::Okay);
    law_count(list, Severity::Warn);
    law_count(list, Severity::Fail);
    law_count(list, Severity::Skip);
    lemma_fixable_count(list);
}

proof fn lemma_fixable_count(list: Seq<CheckView>)
    ensures
        fixable_count(list) == list.filter(
            |c: CheckView| c.status == Severity::Fail && c.auto_installable,
        ).len(),
    decreases list.len(),
{
    reveal(Seq::filter);
    if list.len() > 0 {
        lemma_fixable_count(list.drop_last());
    }
}

/// A line is not ended early: the word that starts the next one would not have fit.
pub proof fn law_wrap_fills(s: Seq<char>, width: nat, i: int)
    requires
        0 <= i,
        i + 1 < spec_wrap(s, width).len(),
    ensures
        exists|w: Seq<char>|
            #![trigger chars::words(s).contains(w)]
            chars::words(s).contains(w) && chars::starts_with(spec_wrap(s, width)[i + 1], w)
                && bytes(spec_wrap(s, width)[i]) + 1 + bytes(w) > width,
{
    let all = chars::words(s);
    let f = filled(all, width);
    chars::lemma_words_not_empty(s);
    lemma_filled(all, width);
    lemma_fills(all, width, i);
    assert(spec_wrap(s, width) == f.full.push(f.current));
}

proof fn lemma_fills(words: Seq<Seq<char>>, width: nat, i: int)
    requires
        0 <= i < filled(words, width).full.len(),
        forall|k: int| 0 <= k < words.len() ==> (#[trigger] words[k]).len() > 0,
    ensures
        ({
            let f = filled(words, width);
            let lines = f.full.push(f.current);
            exists|w: Seq<char>|
                #![trigger words.contains(w)]
                words.contains(w) && chars::starts_with(lines[i + 1], w) && bytes(lines[i]) + 1
                    + bytes(w) > width
        }),
    decreases words.len(),
{
    let rest = words.drop_last();
    let last = words.last();
    let g = filled(rest, width);
    let f = filled(words, width);
    assert forall|k: int| 0 <= k < rest.len() implies (#[trigger] rest[k]).len() > 0 by {
        assert(rest[k] == words[k]);
    }
    assert(words[words.len() - 1] == last);
    if i < g.full.len() {
        lemma_fills(rest, width, i);
        let before = g.full.push(g.current);
        let lines = f.full.push(f.current);
        let w = choose|w: Seq<char>|
            #![trigger rest.contains(w)]
            rest.contains(w) && chars::starts_with(before[i + 1], w) && bytes(before[i]) + 1
                + bytes(w) > width;
        let k = choose|k: int| 0 <= k < rest.len() && rest[k] == w;
        assert(words[k] == w);
        assert(lines[i] == before[i]);
        if i + 1 == g.full.len() && f.full.len() == g.full.len() {
            assert(lines[i + 1].take(w.len() as int) =~= before[i + 1].take(w.len() as int));
        } else {
            assert(lines[i + 1] == before[i + 1]);
        }
        assert(words.contains(w));
    } else {
        let lines = f.full.push(f.current);
        assert(lines[i] == g.current);
        assert(lines[i + 1] == last);
        assert(last.take(last.len() as int) =~= last);
        assert(words.contains(last));
    }
}

/// Without colors each status has its own mark.
pub proof fn law_badges()
    ensures
        badge(false, Severity::Okay) == " ok  "@,
        badge(false, Severity::Warn) == "warn "@,
        badge(false, Severity::Fail) == "fail "@,
        badge(false, Severity::Skip) == "skip "@,
{
}

/// Each check of the report has its line, with its mark, its id and its value, cut to the
/// width of the column, and the lines of its advice after it.
pub proof fn law_report_lines(on: bool, list: Seq<CheckView>, id_w: nat, val_w: nat, i: int)
    requires
        0 <= i < list.len(),
    ensures
        exists|k: int|
            0 <= k < body_lines(on, list, id_w, val_w).len() && #[trigger] body_lines(
                on,
                list,
                id_w,
                val_w,
            )[k] == "  "@ + badge(on, list[i].status) + " "@ + chars::padded(list[i].id, id_w)
                + "  "@ + spec_truncate(list[i].value, val_w) && k + 1 + advice_lines(
                on,
                list[i].fix,
            ).len() <= body_lines(on, list, id_w, val_w).len() && body_lines(
                on,
                list,
                id_w,
                val_w,
            ).subrange(k + 1, k + 1 + advice_lines(on, list[i].fix).len()) == advice_lines(
                on,
                list[i].fix,
            ),
    decreases list.len(),
{
    let rest = list.drop_last();
    let previous = if rest.len() == 0 {
        Seq::empty()
    } else {
        rest.last().category
    };
    let before = body_lines(on, rest, id_w, val_w);
    let new = check_lines(on, previous, list.last(), id_w, val_w);
    let all = body_lines(on, list, id_w, val_w);
    let c = list[i];
    let advice = advice_lines(on, c.fix);
    let line = "  "@ + badge(on, c.status) + " "@ + chars::padded(c.id, id_w) + "  "@
        + spec_truncate(c.value, val_w);
    assert(all == before + new);
    if i < rest.len() {
        law_report_lines(on, rest, id_w, val_w, i);
        assert(rest[i] == c);
        let k = choose|k: int|
            0 <= k < before.len() && #[trigger] before[k] == line && k + 1 + advice.len()
                <= before.len() && before.subrange(k + 1, k + 1 + advice.len()) == advice;
        assert(all[k] == line);
        assert(all.subrange(k + 1, k + 1 + advice.len()) =~= advice) by {
            assert(before.subrange(k + 1, k + 1 + advice.len()) =~= all.subrange(
                k + 1,
                k + 1 + advice.len(),
            ));
        }
    } else {
        let head = new.len() - 1 - advice.len();
        let k = before.len() + head;
        assert(new[head] == line);
        assert(all[k] == line);
        assert(all.subrange(k + 1, k + 1 + advice.len()) =~= advice);
    }
}

/// The groups of the report are told apart by a heading where the category changes.
pub proof fn law_headings(on: bool, previous: Seq<char>, c: CheckView, id_w: nat, val_w: nat)
    ensures
        ({
            let lines = check_lines(on, previous, c, id_w, val_w);
            let n = 1 + advice_lines(on, c.fix).len();
            &&& c.category == previous ==> lines.len() == n
            &&& c.category != previous && previous.len() == 0 ==> lines.len() == n + 1 && lines[0]
                == style::dim_text(on, "["@ + c.category + "]"@)
            &&& c.category != previous && previous.len() > 0 ==> lines.len() == n + 2 && lines[0]
                == ""@ && lines[1] == style::dim_text(on, "["@ + c.category + "]"@)
        }),
{
}

/// The advice is wrapped at 92 columns, and none is given where there is none.
pub proof fn law_advice(on: bool, f: Seq<char>, i: int)
    requires
        0 <= i < spec_wrap(f, 92).len(),
    ensures
        advice_lines(on, None).len() == 0,
        advice_lines(on, Some(f)).len() == spec_wrap(f, 92).len(),
        advice_lines(false, Some(f))[i] == (if i == 0 {
            "        ↳ "@
        } else {
            "          "@
        }) + spec_wrap(f, 92)[i],
{
}

/// The summary names the four counts, and how many failures can be mended if some can.
pub proof fn law_summary(s: Summary, list: Seq<CheckView>)
    ensures
        summary_lines(false, s, list)[1] == "summary"@ + ": "@ + chars::decimal(s.ok as nat)
            + " ok, "@ + chars::decimal(s.warn as nat) + " warn, "@ + chars::decimal(
            s.fail as nat,
        ) + " fail, "@ + chars::decimal(s.skip as nat) + " skip"@,
        summary_lines(false, s, list).len() == (if fixable_count(list) > 0 {
            3int
        } else {
            2int
        }),
        fixable_count(list) > 0 ==> summary_lines(false, s, list)[2] == "  "@ + "hint:"@ + " "@
            + chars::decimal(fixable_count(list))
            + " item(s) can be auto-installed with `./vello doctor --fix` (add --yes for unattended)."@,
{
}

/// All packages of a plan are installed in one run, unattended.
pub proof fn law_apt_install_args(names: Seq<Seq<char>>)
    ensures
        spec_apt_install_args(names).len() == 3 + names.len(),
        spec_apt_install_args(names)[0] == "apt-get"@,
        spec_apt_install_args(names)[1] == "install"@,
        spec_apt_install_args(names)[2] == "-y"@,
        spec_apt_install_args(names).skip(3) == names,
{
    assert(spec_apt_install_args(names).skip(3) =~= names);
}

/// A plan is shown by its commands, one action after the other.
pub proof fn law_plan_lines(before: Seq<FixActionView>, a: FixActionView, i: int)
    requires
        0 <= i < spec_describe(a).len(),
    ensures
        plan_lines(Seq::<FixActionView>::empty()).len() == 0,
        plan_lines(before.push(a)).len() == plan_lines(before).len() + spec_describe(a).len(),
        plan_lines(before.push(a)).take(plan_lines(before).len() as int) == plan_lines(before),
        plan_lines(before.push(a))[plan_lines(before).len() + i] == "  $ "@ + spec_describe(a)[i],
        spec_plan_text(before) == chars::unlines(
            seq![""@, "plan:"@] + plan_lines(before) + seq![""@],
        ),
{
    assert(before.push(a).drop_last() =~= before);
    assert(plan_lines(before.push(a)).take(plan_lines(before).len() as int) =~= plan_lines(
        before,
    ));
}

} // verus!
