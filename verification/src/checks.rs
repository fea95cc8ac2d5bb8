//! The checks of the host: what a command said, a file holds or a probe found,
//! and how that is classified.
use vstd::prelude::*;
use crate::binary32;
use crate::binary32::{Binary32, Num};
use crate::chars;
use crate::doctor::{CheckResult, CheckView, Severity};
use crate::doctor;
use crate::paths;
use crate::schema::Mode;
use crate::text;

verus! {

// ---------------------------------------------------------------------------
// Building checks
// ---------------------------------------------------------------------------

/// A check that can only be told about.
pub open spec fn note(
    id: Seq<char>,
    category: Seq<char>,
    status: Severity,
    value: Seq<char>,
    fix: Option<Seq<char>>,
) -> CheckView {
    CheckView { id, category, status, value, fix, auto_installable: false }
}

/// The first status if the check holds, else the other with advice.
pub open spec fn verdict(
    id: Seq<char>,
    category: Seq<char>,
    holds: bool,
    otherwise: Severity,
    value: Seq<char>,
    advice: Seq<char>,
) -> CheckView {
    if holds {
        note(id, category, Severity::Okay, value, None)
    } else {
        note(id, category, otherwise, value, Some(advice))
    }
}

fn make_note(id: &str, category: &str, status: Severity, value: String, fix: Option<String>) -> (r:
    CheckResult)
    ensures
        r@ == note(id@, category@, status, value@, fix.deep_view()),
{
    CheckResult {
        id: id.to_owned(),
        category: category.to_owned(),
        status,
        value,
        fix,
        auto_installable: false,
    }
}

fn make_verdict(
    id: &str,
    category: &str,
    holds: bool,
    otherwise: Severity,
    value: String,
    advice: &str,
) -> (r: CheckResult)
    ensures
        r@ == verdict(id@, category@, holds, otherwise, value@, advice@),
{
    if holds {
        make_note(id, category, Severity::Okay, value, None)
    } else {
        make_note(id, category, otherwise, value, Some(advice.to_owned()))
    }
}

fn either_text(first: bool, a: &str, b: &str) -> (r: String)
    ensures
        r@ == (if first {
            a@
        } else {
            b@
        }),
{
    if first {
        a.to_owned()
    } else {
        b.to_owned()
    }
}

/// What a command printed, without the white space around it, or another text if
/// it failed.
pub open spec fn printed(out: Option<Seq<char>>, otherwise: Seq<char>) -> Seq<char> {
    match out {
        Some(s) => chars::trim(s),
        None => otherwise,
    }
}

fn printed_or(out: &Option<String>, otherwise: &str) -> (r: String)
    ensures
        r@ == printed(out.deep_view(), otherwise@),
{
    match out {
        Some(s) => text::trim(s),
        None => otherwise.to_owned(),
    }
}

// ---------------------------------------------------------------------------
// Operating system and processor
// ---------------------------------------------------------------------------

/// What the last of the lines that start with `prefix` assigns, without quotes;
/// empty if there is none.
pub open spec fn last_assigned(lines: Seq<Seq<char>>, prefix: Seq<char>) -> Seq<char>
    decreases lines.len(),
{
    if lines.len() == 0 {
        Seq::empty()
    } else {
        match chars::strip_prefix(lines.last(), prefix) {
            Some(v) => chars::unquoted(v),
            None => last_assigned(lines.drop_last(), prefix),
        }
    }
}

/// The name of the distribution, and whether packages can be installed on it.
pub open spec fn spec_detect_distro(os_release: Option<Seq<char>>) -> (Seq<char>, bool) {
    match os_release {
        None => ("unknown"@, false),
        Some(raw) => {
            let lines = chars::lines(raw);
            let id = last_assigned(lines, "ID="@);
            let like = last_assigned(lines, "ID_LIKE="@);
            let name = last_assigned(lines, "PRETTY_NAME="@);
            (
                if name.len() == 0 {
                    id
                } else {
                    name
                },
                id == "debian"@ || id == "ubuntu"@ || chars::contains(like, "debian"@)
                    || chars::contains(like, "ubuntu"@),
            )
        },
    }
}

fn find_assigned(lines: &Vec<String>, prefix: &str) -> (r: String)
    ensures
        r@ == last_assigned(lines.deep_view(), prefix@),
{
    let ghost all = lines.deep_view();
    let mut i: usize = lines.len();
    assert(all.take(i as int) =~= all);
    while i > 0
        invariant
            i <= lines@.len(),
            all == lines.deep_view(),
            last_assigned(all, prefix@) == last_assigned(all.take(i as int), prefix@),
        decreases i,
    {
        i = i - 1;
        proof {
            let t = all.take(i + 1);
            assert(t.drop_last() =~= all.take(i as int));
            assert(t.last() == lines@[i as int]@);
        }
        if let Some(v) = text::strip_prefix(&lines[i], prefix) {
            return text::unquoted(&v);
        }
    }
    String::new()
}

/// The distribution, by the text of `/etc/os-release` if that could be read.
pub fn detect_distro(os_release: Option<&str>) -> (r: (String, bool))
    ensures
        (r.0@, r.1) == spec_detect_distro(match os_release {
            Some(t) => Some(t@),
            None => None,
        }),
{
    let raw: &str = match os_release {
        Some(t) => t,
        None => {
            return ("unknown".to_owned(), false);
        },
    };
    let lines: Vec<String> = text::lines(raw);
    let id: String = find_assigned(&lines, "ID=");
    let like: String = find_assigned(&lines, "ID_LIKE=");
    let name: String = find_assigned(&lines, "PRETTY_NAME=");
    let supported: bool = text::same(&id, "debian") || text::same(&id, "ubuntu") || text::contains(
        &like,
        "debian",
    ) || text::contains(&like, "ubuntu");
    if name.as_str().is_empty() {
        (id, supported)
    } else {
        (name, supported)
    }
}

/// Which package managers are there.
#[derive(Debug, Clone, Copy)]
pub struct Managers {
    pub apt: bool,
    pub dnf: bool,
    pub pacman: bool,
    pub zypper: bool,
    pub apk: bool,
}

pub open spec fn spec_package_manager(m: Managers) -> Seq<char> {
    if m.apt {
        "apt"@
    } else if m.dnf {
        "dnf"@
    } else if m.pacman {
        "pacman"@
    } else if m.zypper {
        "zypper"@
    } else if m.apk {
        "apk"@
    } else {
        "none"@
    }
}

/// The package manager of the host.
pub fn detect_package_manager(m: &Managers) -> (r: &'static str)
    ensures
        r@ == spec_package_manager(*m),
{
    if m.apt {
        "apt"
    } else if m.dnf {
        "dnf"
    } else if m.pacman {
        "pacman"
    } else if m.zypper {
        "zypper"
    } else if m.apk {
        "apk"
    } else {
        "none"
    }
}

/// Kernel, distribution and package manager.
pub open spec fn spec_checks_os(
    kernel: Option<Seq<char>>,
    os_release: Option<Seq<char>>,
    m: Managers,
) -> Seq<CheckView> {
    let (distro, supported) = spec_detect_distro(os_release);
    let pm = spec_package_manager(m);
    seq![
        note("os.kernel"@, "os"@, Severity::Okay, printed(kernel, "unknown"@), None),
        verdict(
            "os.distro"@,
            "os"@,
            supported,
            Severity::Warn,
            distro,
            "Only Debian/Ubuntu are auto-supported. Install prerequisites manually and proceed."@,
        ),
        verdict(
            "os.package_manager"@,
            "os"@,
            m.apt,
            Severity::Warn,
            pm,
            if pm == "none"@ {
                "No known package manager detected. Install prerequisites manually."@
            } else {
                "Auto-install only supports apt today; detected "@ + pm
                    + ". Install missing items manually."@
            },
        ),
    ]
}

pub fn checks_os(kernel: &Option<String>, os_release: Option<&str>, m: &Managers) -> (r: Vec<
    CheckResult,
>)
    ensures
        doctor::checks_of(r@) == spec_checks_os(kernel.deep_view(), chars::opt_view(os_release), *m),
{
    let (distro, supported) = detect_distro(os_release);
    let pm: &'static str = detect_package_manager(m);
    let advice: String = if text::same(pm, "none") {
        "No known package manager detected. Install prerequisites manually.".to_owned()
    } else {
        text::cat3(
            "Auto-install only supports apt today; detected ",
            pm,
            ". Install missing items manually.",
        )
    };
    let r: Vec<CheckResult> = vec![
        make_note("os.kernel", "os", Severity::Okay, printed_or(kernel, "unknown"), None),
        make_verdict(
            "os.distro",
            "os",
            supported,
            Severity::Warn,
            distro,
            "Only Debian/Ubuntu are auto-supported. Install prerequisites manually and proceed.",
        ),
        make_verdict("os.package_manager", "os", m.apt, Severity::Warn, pm.to_owned(), &advice),
    ];
    assert(doctor::checks_of(r@) =~= spec_checks_os(kernel.deep_view(), chars::opt_view(os_release), *m));
    r
}

/// Threads and architecture of the processor.
pub open spec fn spec_checks_cpu(nproc: Option<Seq<char>>, arch: Option<Seq<char>>) -> Seq<
    CheckView,
> {
    let a = printed(arch, "unknown"@);
    seq![
        note(
            "cpu.cores"@,
            "cpu"@,
            Severity::Okay,
            printed(nproc, "?"@) + " threads"@,
            None,
        ),
        verdict(
            "cpu.arch"@,
            "cpu"@,
            a == "x86_64"@,
            Severity::Warn,
            a,
            "Only x86_64 is tested today."@,
        ),
    ]
}

pub fn checks_cpu(nproc: &Option<String>, arch: &Option<String>) -> (r: Vec<CheckResult>)
    ensures
        doctor::checks_of(r@) == spec_checks_cpu(nproc.deep_view(), arch.deep_view()),
{
    let cores: String = printed_or(nproc, "?");
    let a: String = printed_or(arch, "unknown");
    let known: bool = text::same(&a, "x86_64");
    let r: Vec<CheckResult> = vec![
        make_note("cpu.cores", "cpu", Severity::Okay, text::cat2(&cores, " threads"), None),
        make_verdict(
            "cpu.arch",
            "cpu",
            known,
            Severity::Warn,
            a,
            "Only x86_64 is tested today.",
        ),
    ];
    assert(doctor::checks_of(r@) =~= spec_checks_cpu(nproc.deep_view(), arch.deep_view()));
    r
}

// ---------------------------------------------------------------------------
// Memory and disk
// ---------------------------------------------------------------------------

pub open spec fn spec_checks_mem(ram: Num) -> Seq<CheckView> {
    seq![
        verdict(
            "mem.ram_total"@,
            "mem"@,
            binary32::ratio(8, 1).le(ram),
            Severity::Warn,
            ram.fixed1() + " GB"@,
            "At least 8 GB RAM is recommended; small models will still run."@,
        ),
    ]
}

/// The RAM that was detected, or else that of the profile.
pub fn checks_mem(detected: Option<Binary32>, profile_ram: Binary32) -> (r: Vec<CheckResult>)
    ensures
        doctor::checks_of(r@) == spec_checks_mem(
            match detected {
                Some(x) => x@,
                None => profile_ram@,
            },
        ),
{
    let ram: Binary32 = match detected {
        Some(x) => x,
        None => profile_ram,
    };
    let shown: String = ram.fixed1();
    let r: Vec<CheckResult> = vec![
        make_verdict(
            "mem.ram_total",
            "mem",
            Binary32::ratio(8, 1).le(ram),
            Severity::Warn,
            text::cat2(&shown, " GB"),
            "At least 8 GB RAM is recommended; small models will still run.",
        ),
    ];
    assert(doctor::checks_of(r@) =~= spec_checks_mem(ram@));
    r
}

/// Free gigabytes, by what `df -B1 --output=avail` printed: the bytes stand in
/// the second line.
pub open spec fn spec_free_gb(df: Seq<char>) -> Option<Num> {
    let lines = chars::lines(df);
    if lines.len() < 2 {
        None
    } else {
        match chars::parsed(chars::trim(lines[1])) {
            Some(bytes) if bytes <= u64::MAX => {
                let k = binary32::ratio(1024, 1);
                Some(binary32::ratio(bytes, 1).over(k).over(k).over(k))
            },
            _ => None,
        }
    }
}

pub fn free_gb(df: &str) -> (r: Option<Binary32>)
    ensures
        match r {
            Some(x) => spec_free_gb(df@) == Some(x@),
            None => spec_free_gb(df@) is None,
        },
{
    let lines: Vec<String> = text::lines(df);
    assert(lines.deep_view().len() == lines@.len());
    if lines.len() < 2 {
        return None;
    }
    assert(lines.deep_view()[1] == lines@[1]@);
    let digits: String = text::trim(&lines[1]);
    match text::parse_up_to(&digits, u64::MAX) {
        Some(bytes) => {
            let k: Binary32 = Binary32::ratio(1024, 1);
            Some(Binary32::ratio(bytes, 1).over(k).over(k).over(k))
        },
        None => None,
    }
}

pub open spec fn spec_checks_disk(free: Option<Num>, root: Seq<char>) -> Seq<CheckView> {
    let value = match free {
        Some(g) => g.fixed1() + " GB free in "@ + root,
        None => "unknown"@,
    };
    let (status, hint) = match free {
        None => (Severity::Warn, Some("could not determine free space"@)),
        Some(g) => if binary32::ratio(17, 1).le(g) {
            (Severity::Okay, None)
        } else if binary32::ratio(5, 1).le(g) {
            (
                Severity::Warn,
                Some(
                    g.fixed1()
                        + " GB free; the catalog assumes ~17 GB (image + first model). Pick a small model."@,
                ),
            )
        } else {
            (
                Severity::Fail,
                Some(
                    g.fixed1()
                        + " GB free is too low. Free up space or move the project to a larger disk."@,
                ),
            )
        },
    };
    seq![note("disk.project_root_free"@, "disk"@, status, value, hint)]
}

/// The space at the project root, by what `df` printed, if it succeeded.
pub open spec fn free_space(df: Option<Seq<char>>) -> Option<Num> {
    match df {
        Some(out) => spec_free_gb(out),
        None => None,
    }
}

pub fn checks_disk(df: Option<&str>, root: &str) -> (r: Vec<CheckResult>)
    ensures
        doctor::checks_of(r@) == spec_checks_disk(free_space(chars::opt_view(df)), root@),
{
    let free: Option<Binary32> = match df {
        Some(out) => free_gb(out),
        None => None,
    };
    let check: CheckResult = match free {
        None => make_note(
            "disk.project_root_free",
            "disk",
            Severity::Warn,
            "unknown".to_owned(),
            Some("could not determine free space".to_owned()),
        ),
        Some(g) => {
            let shown: String = g.fixed1();
            let value: String = text::cat3(&shown, " GB free in ", root);
            if Binary32::ratio(17, 1).le(g) {
                make_note("disk.project_root_free", "disk", Severity::Okay, value, None)
            } else if Binary32::ratio(5, 1).le(g) {
                let hint: String = text::cat2(
                    &shown,
                    " GB free; the catalog assumes ~17 GB (image + first model). Pick a small model.",
                );
                make_note("disk.project_root_free", "disk", Severity::Warn, value, Some(hint))
            } else {
                let hint: String = text::cat2(
                    &shown,
                    " GB free is too low. Free up space or move the project to a larger disk.",
                );
                make_note("disk.project_root_free", "disk", Severity::Fail, value, Some(hint))
            }
        },
    };
    let r: Vec<CheckResult> = vec![check];
    assert(doctor::checks_of(r@) =~= spec_checks_disk(free_space(chars::opt_view(df)), root@));
    r
}

// ---------------------------------------------------------------------------
// Tools
// ---------------------------------------------------------------------------

/// The first line that a command printed about its version.
pub open spec fn spec_version_line(out: Option<Seq<char>>) -> Option<Seq<char>> {
    match out {
        Some(s) => if chars::lines(s).len() > 0 {
            Some(chars::trim(chars::lines(s)[0]))
        } else {
            None
        },
        None => None,
    }
}

fn version_line(out: &Option<String>) -> (r: Option<String>)
    ensures
        r.deep_view() == spec_version_line(out.deep_view()),
{
    match out {
        Some(s) => {
            let lines: Vec<String> = text::lines(s);
            assert(lines.deep_view().len() == lines@.len());
            if lines.len() > 0 {
                assert(lines.deep_view()[0] == lines@[0]@);
                Some(text::trim(&lines[0]))
            } else {
                None
            }
        },
        None => None,
    }
}

/// A program that has a version, or is missing.
pub open spec fn versioned(
    id: Seq<char>,
    category: Seq<char>,
    version: Option<Seq<char>>,
    missing: Seq<char>,
    advice: Seq<char>,
) -> CheckView {
    match version {
        Some(v) => note(id, category, Severity::Okay, v, None),
        None => note(id, category, Severity::Fail, missing, Some(advice)),
    }
}

fn make_versioned(
    id: &str,
    category: &str,
    out: &Option<String>,
    missing: &str,
    advice: &str,
) -> (r: CheckResult)
    ensures
        r@ == versioned(
            id@,
            category@,
            spec_version_line(out.deep_view()),
            missing@,
            advice@,
        ),
{
    match version_line(out) {
        Some(v) => make_note(id, category, Severity::Okay, v, None),
        None => make_note(
            id,
            category,
            Severity::Fail,
            missing.to_owned(),
            Some(advice.to_owned()),
        ),
    }
}

/// The apt package that has a command: most share its name.
pub open spec fn spec_apt_package_for(cmd: Seq<char>) -> Seq<char> {
    if cmd == "watch"@ {
        "procps"@
    } else if cmd == "gpg"@ {
        "gnupg"@
    } else if cmd == "ss"@ {
        "iproute2"@
    } else {
        cmd
    }
}

pub fn apt_package_for(cmd: &str) -> (r: String)
    ensures
        r@ == spec_apt_package_for(cmd@),
{
    if text::same(cmd, "watch") {
        "procps".to_owned()
    } else if text::same(cmd, "gpg") {
        "gnupg".to_owned()
    } else if text::same(cmd, "ss") {
        "iproute2".to_owned()
    } else {
        cmd.to_owned()
    }
}

/// A command that a package brings, if it is missing.
pub open spec fn installable(name: Seq<char>, present: bool, optional: bool) -> CheckView {
    CheckView {
        id: "tools."@ + name,
        category: "tools"@,
        status: if present {
            Severity::Okay
        } else if optional {
            Severity::Warn
        } else {
            Severity::Fail
        },
        value: if present {
            "found"@
        } else {
            "missing"@
        },
        fix: if present {
            None
        } else {
            Some("sudo apt install -y "@ + spec_apt_package_for(name))
        },
        auto_installable: !present,
    }
}

fn make_installable(name: &str, present: bool, optional: bool) -> (r: CheckResult)
    ensures
        r@ == installable(name@, present, optional),
{
    let pkg: String = apt_package_for(name);
    CheckResult {
        id: text::cat2("tools.", name),
        category: "tools".to_owned(),
        status: if present {
            Severity::Okay
        } else if optional {
            Severity::Warn
        } else {
            Severity::Fail
        },
        value: either_text(present, "found", "missing"),
        fix: if present {
            None
        } else {
            Some(text::cat2("sudo apt install -y ", &pkg))
        },
        auto_installable: !present,
    }
}

/// What is known of the tools: what `docker --version` and `docker compose
/// version` printed, whether the daemon answers, and which commands are there.
#[derive(Debug)]
pub struct ToolFacts {
    pub docker: Option<String>,
    pub daemon: bool,
    pub compose: Option<String>,
    pub curl: bool,
    pub jq: bool,
    pub git: bool,
    pub gpg: bool,
    pub watch: bool,
}

pub open spec fn spec_checks_tools(f: ToolFacts) -> Seq<CheckView> {
    seq![
        versioned(
            "tools.docker"@,
            "tools"@,
            spec_version_line(f.docker.deep_view()),
            "missing"@,
            "Install Docker: https://docs.docker.com/engine/install/"@,
        ),
        verdict(
            "tools.docker_daemon"@,
            "tools"@,
            f.daemon,
            Severity::Fail,
            if f.daemon {
                "reachable"@
            } else {
                "unreachable"@
            },
            "Start the daemon (`sudo systemctl start docker`) and add yourself to the docker group (`sudo usermod -aG docker $USER`, then re-login)."@,
        ),
        versioned(
            "tools.docker_compose"@,
            "tools"@,
            spec_version_line(f.compose.deep_view()),
            "missing (need v2 plugin)"@,
            "Update Docker; modern installs ship `docker compose` (v2 plugin)."@,
        ),
        installable("curl"@, f.curl, false),
        installable("jq"@, f.jq, false),
        installable("git"@, f.git, false),
        installable("gpg"@, f.gpg, false),
        installable("watch"@, f.watch, true),
    ]
}

pub fn checks_tools(f: &ToolFacts) -> (r: Vec<CheckResult>)
    ensures
        doctor::checks_of(r@) == spec_checks_tools(*f),
{
    let r: Vec<CheckResult> = vec![
        make_versioned(
            "tools.docker",
            "tools",
            &f.docker,
            "missing",
            "Install Docker: https://docs.docker.com/engine/install/",
        ),
        make_verdict(
            "tools.docker_daemon",
            "tools",
            f.daemon,
            Severity::Fail,
            either_text(f.daemon, "reachable", "unreachable"),
            "Start the daemon (`sudo systemctl start docker`) and add yourself to the docker group (`sudo usermod -aG docker $USER`, then re-login).",
        ),
        make_versioned(
            "tools.docker_compose",
            "tools",
            &f.compose,
            "missing (need v2 plugin)",
            "Update Docker; modern installs ship `docker compose` (v2 plugin).",
        ),
        make_installable("curl", f.curl, false),
        make_installable("jq", f.jq, false),
        make_installable("git", f.git, false),
        make_installable("gpg", f.gpg, false),
        make_installable("watch", f.watch, true),
    ];
    assert(doctor::checks_of(r@) =~= spec_checks_tools(*f));
    r
}

// ---------------------------------------------------------------------------
// GPU
// ---------------------------------------------------------------------------

/// A GPU: its memory and its name.
#[derive(Debug)]
pub struct GpuReading {
    pub vram_gb: Binary32,
    pub name: String,
}

/// What is known of the GPU: whether `nvidia-smi` is there, what it printed of
/// the driver, which GPU it names, whether the container toolkit is installed,
/// and whether a container could reach the GPU, if that was tried.
#[derive(Debug)]
pub struct GpuFacts {
    pub nvidia_smi: bool,
    pub driver: Option<String>,
    pub gpu: Option<GpuReading>,
    pub toolkit: bool,
    pub passthrough: bool,
}

/// The driver version: the first line of what was printed.
pub open spec fn driver_version(out: Seq<char>) -> Seq<char> {
    chars::trim(chars::first_line(chars::trim(out)))
}

/// The number before the first point of a version; zero if there is none.
pub open spec fn major(version: Seq<char>) -> nat {
    match chars::parsed(chars::before(version, '.')) {
        Some(n) if n <= u32::MAX => n,
        _ => 0,
    }
}

pub open spec fn driver_check(version: Seq<char>) -> CheckView {
    if major(version) >= 550 {
        note("gpu.driver_version"@, "gpu"@, Severity::Okay, version, None)
    } else if major(version) >= 535 {
        note(
            "gpu.driver_version"@,
            "gpu"@,
            Severity::Warn,
            version,
            Some(
                "Driver < 550 works with CUDA 12.4 but not 12.6+. Consider upgrading to 550+."@,
            ),
        )
    } else {
        note(
            "gpu.driver_version"@,
            "gpu"@,
            Severity::Fail,
            version,
            Some(
                "Driver < 535 cannot run the bundled CUDA image. Upgrade the NVIDIA driver."@,
            ),
        )
    }
}

fn make_driver_check(out: &str) -> (r: CheckResult)
    ensures
        r@ == driver_check(driver_version(out@)),
{
    let t: String = text::trim(out);
    let first: String = text::first_line(&t);
    let version: String = text::trim(&first);
    let head: String = text::before(&version, '.');
    let number: u64 = match text::parse_up_to(&head, 0xFFFF_FFFF) {
        Some(n) => n,
        None => 0,
    };
    if number >= 550 {
        make_note("gpu.driver_version", "gpu", Severity::Okay, version, None)
    } else if number >= 535 {
        make_note(
            "gpu.driver_version",
            "gpu",
            Severity::Warn,
            version,
            Some(
                "Driver < 550 works with CUDA 12.4 but not 12.6+. Consider upgrading to 550+.".to_owned(),
            ),
        )
    } else {
        make_note(
            "gpu.driver_version",
            "gpu",
            Severity::Fail,
            version,
            Some(
                "Driver < 535 cannot run the bundled CUDA image. Upgrade the NVIDIA driver.".to_owned(),
            ),
        )
    }
}

/// The memory of a GPU: 6 GB are enough. A reading that is not a number is a
/// warning without advice.
pub open spec fn vram_check(vram: Num, name: Seq<char>) -> CheckView {
    note(
        "gpu.vram"@,
        "gpu"@,
        if binary32::ratio(6, 1).le(vram) {
            Severity::Okay
        } else {
            Severity::Warn
        },
        vram.fixed1() + " GB ("@ + name + ")"@,
        if vram.lt(binary32::ratio(6, 1)) {
            Some(
                "Below 6 GB VRAM, only the smallest catalog entries (1.5B/3B) will fit comfortably."@,
            )
        } else {
            None
        },
    )
}

fn make_vram_check(g: &GpuReading) -> (r: CheckResult)
    ensures
        r@ == vram_check(g.vram_gb@, g.name@),
{
    let six: Binary32 = Binary32::ratio(6, 1);
    let shown: String = g.vram_gb.fixed1();
    let fix: Option<String> = if g.vram_gb.lt(six) {
        Some(
            "Below 6 GB VRAM, only the smallest catalog entries (1.5B/3B) will fit comfortably.".to_owned(),
        )
    } else {
        None
    };
    make_note(
        "gpu.vram",
        "gpu",
        if six.le(g.vram_gb) {
            Severity::Okay
        } else {
            Severity::Warn
        },
        text::cat4(&shown, " GB (", &g.name, ")"),
        fix,
    )
}

/// A container is started on the GPU only when asked to look deep, and where
/// the driver and the toolkit are there.
pub open spec fn spec_tries_passthrough(
    mode: Mode,
    deep: bool,
    nvidia_smi: bool,
    toolkit: bool,
) -> bool {
    mode == Mode::Gpu && deep && nvidia_smi && toolkit
}

pub fn tries_passthrough(mode: Mode, deep: bool, nvidia_smi: bool, toolkit: bool) -> (r: bool)
    ensures
        r == spec_tries_passthrough(mode, deep, nvidia_smi, toolkit),
{
    mode == Mode::Gpu && deep && nvidia_smi && toolkit
}

pub open spec fn one_if(holds: bool, c: CheckView) -> Seq<CheckView> {
    if holds {
        seq![c]
    } else {
        Seq::empty()
    }
}

pub open spec fn toolkit_check(toolkit: bool) -> CheckView {
    CheckView {
        id: "gpu.container_toolkit"@,
        category: "gpu"@,
        status: if toolkit {
            Severity::Okay
        } else {
            Severity::Fail
        },
        value: if toolkit {
            "installed"@
        } else {
            "missing"@
        },
        fix: if toolkit {
            None
        } else {
            Some(
                "Auto-installable via `./vello-installer install` (uses apt + sudo). Confirmation will be required."@,
            )
        },
        auto_installable: !toolkit,
    }
}

pub open spec fn spec_checks_gpu(mode: Mode, deep: bool, f: GpuFacts) -> Seq<CheckView> {
    match mode {
        Mode::Cpu => seq![
            note("gpu"@, "gpu"@, Severity::Skip, "skipped (mode = cpu)"@, None),
        ],
        Mode::Gpu => seq![
            verdict(
                "gpu.nvidia_smi"@,
                "gpu"@,
                f.nvidia_smi,
                Severity::Fail,
                if f.nvidia_smi {
                    "found"@
                } else {
                    "missing"@
                },
                "Install NVIDIA driver 550+ for your distro (e.g. `sudo apt install nvidia-driver-550` then reboot)."@,
            ),
        ] + one_if(
            f.nvidia_smi && f.driver is Some,
            driver_check(driver_version(f.driver->0@)),
        ) + one_if(
            f.nvidia_smi && f.gpu is Some,
            vram_check(f.gpu->0.vram_gb@, f.gpu->0.name@),
        ) + seq![toolkit_check(f.toolkit)] + one_if(
            spec_tries_passthrough(mode, deep, f.nvidia_smi, f.toolkit),
            verdict(
                "gpu.docker_passthrough"@,
                "gpu"@,
                f.passthrough,
                Severity::Fail,
                if f.passthrough {
                    "works"@
                } else {
                    "fails"@
                },
                "Docker cannot reach the GPU. Try: `sudo systemctl restart docker`."@,
            ),
        ),
    }
}

fn make_toolkit_check(toolkit: bool) -> (r: CheckResult)
    ensures
        r@ == toolkit_check(toolkit),
{
    CheckResult {
        id: "gpu.container_toolkit".to_owned(),
        category: "gpu".to_owned(),
        status: if toolkit {
            Severity::Okay
        } else {
            Severity::Fail
        },
        value: either_text(toolkit, "installed", "missing"),
        fix: if toolkit {
            None
        } else {
            Some(
                "Auto-installable via `./vello-installer install` (uses apt + sudo). Confirmation will be required.".to_owned(),
            )
        },
        auto_installable: !toolkit,
    }
}

/// Adds a check.
fn add_check(out: &mut Vec<CheckResult>, c: CheckResult)
    ensures
        doctor::checks_of(final(out)@) == doctor::checks_of(old(out)@) + seq![c@],
{
    let ghost before = doctor::checks_of(out@);
    out.push(c);
    assert(doctor::checks_of(out@) =~= before + seq![c@]);
}

/// The checks of the GPU: one that says so where the mode needs none.
pub fn checks_gpu(mode: Mode, deep: bool, f: &GpuFacts) -> (r: Vec<CheckResult>)
    ensures
        doctor::checks_of(r@) == spec_checks_gpu(mode, deep, *f),
{
    let mut out: Vec<CheckResult> = Vec::new();
    assert(doctor::checks_of(out@) =~= Seq::empty());
    if mode == Mode::Cpu {
        add_check(
            &mut out,
            make_note("gpu", "gpu", Severity::Skip, "skipped (mode = cpu)".to_owned(), None),
        );
        assert(doctor::checks_of(out@) =~= spec_checks_gpu(mode, deep, *f));
        return out;
    }
    add_check(
        &mut out,
        make_verdict(
            "gpu.nvidia_smi",
            "gpu",
            f.nvidia_smi,
            Severity::Fail,
            either_text(f.nvidia_smi, "found", "missing"),
            "Install NVIDIA driver 550+ for your distro (e.g. `sudo apt install nvidia-driver-550` then reboot).",
        ),
    );
    let ghost first = doctor::checks_of(out@);
    if f.nvidia_smi {
        if let Some(d) = &f.driver {
            add_check(&mut out, make_driver_check(d));
        }
    }
    let ghost second = doctor::checks_of(out@);
    assert(second =~= first + one_if(
        f.nvidia_smi && f.driver is Some,
        driver_check(driver_version(f.driver->0@)),
    ));
    if f.nvidia_smi {
        if let Some(g) = &f.gpu {
            add_check(&mut out, make_vram_check(g));
        }
    }
    let ghost third = doctor::checks_of(out@);
    assert(third =~= second + one_if(
        f.nvidia_smi && f.gpu is Some,
        vram_check(f.gpu->0.vram_gb@, f.gpu->0.name@),
    ));
    add_check(&mut out, make_toolkit_check(f.toolkit));
    if tries_passthrough(mode, deep, f.nvidia_smi, f.toolkit) {
        add_check(
            &mut out,
            make_verdict(
                "gpu.docker_passthrough",
                "gpu",
                f.passthrough,
                Severity::Fail,
                either_text(f.passthrough, "works", "fails"),
                "Docker cannot reach the GPU. Try: `sudo systemctl restart docker`.",
            ),
        );
    }
    assert(doctor::checks_of(out@) =~= spec_checks_gpu(mode, deep, *f));
    out
}

// ---------------------------------------------------------------------------
// Rust, ports, PATH and project
// ---------------------------------------------------------------------------

pub open spec fn spec_checks_rust(cargo: Option<Seq<char>>) -> Seq<CheckView> {
    seq![
        versioned(
            "rust.cargo"@,
            "rust"@,
            spec_version_line(cargo),
            "missing"@,
            "Install via rustup (the installer offers to do this for you): https://rustup.rs"@,
        ),
    ]
}

/// By what `cargo --version` printed, if it succeeded.
pub fn checks_rust(cargo: &Option<String>) -> (r: Vec<CheckResult>)
    ensures
        doctor::checks_of(r@) == spec_checks_rust(cargo.deep_view()),
{
    let r: Vec<CheckResult> = vec![
        make_versioned(
            "rust.cargo",
            "rust",
            cargo,
            "missing",
            "Install via rustup (the installer offers to do this for you): https://rustup.rs",
        ),
    ];
    assert(doctor::checks_of(r@) =~= spec_checks_rust(cargo.deep_view()));
    r
}

/// The line of a listening socket names the port: followed by a space, or at
/// its end.
pub open spec fn line_has_port(line: Seq<char>, port: u16) -> bool {
    let p = ":"@ + chars::decimal(port as nat);
    chars::contains(line, p + " "@) || chars::ends_with(line, p)
}

/// No listening socket has the port, by what `ss -ltn` printed. Where it could
/// not be asked, the port counts as free.
pub open spec fn spec_port_is_free(port: u16, ss: Option<Seq<char>>) -> bool {
    ss matches Some(out) ==> forall|i: int|
        0 <= i < chars::lines(out).len() ==> !line_has_port(#[trigger] chars::lines(out)[i], port)
}

pub fn port_is_free(port: u16, ss: Option<&str>) -> (r: bool)
    ensures
        r == spec_port_is_free(port, chars::opt_view(ss)),
{
    let out: &str = match ss {
        Some(t) => t,
        None => {
            return true;
        },
    };
    let digits: String = text::decimal(port as u128);
    let at_end: String = text::cat2(":", &digits);
    let inside: String = text::cat2(&at_end, " ");
    let lines: Vec<String> = text::lines(out);
    let ghost all = lines.deep_view();
    let mut i: usize = 0;
    while i < lines.len()
        invariant
            i <= lines@.len(),
            all == lines.deep_view(),
            all == chars::lines(out@),
            ss == Some(out),
            at_end@ == ":"@ + chars::decimal(port as nat),
            inside@ == at_end@ + " "@,
            forall|k: int| 0 <= k < i ==> !line_has_port(#[trigger] all[k], port),
        decreases lines@.len() - i,
    {
        assert(all[i as int] == lines@[i as int]@);
        if text::contains(&lines[i], &inside) || text::ends_with(&lines[i], &at_end) {
            proof {
                let o = chars::opt_view(ss)->0;
                assert(chars::opt_view(ss) == Some(o) && o == out@);
                assert(line_has_port(chars::lines(o)[i as int], port));
            }
            return false;
        }
        i = i + 1;
    }
    true
}

pub open spec fn port_check(id: Seq<char>, port: u16, free: bool) -> CheckView {
    let name = ":"@ + chars::decimal(port as nat);
    verdict(
        id,
        "ports"@,
        free,
        Severity::Warn,
        if free {
            name + " free"@
        } else {
            name + " bound by another process"@
        },
        "Stop the conflicting process or change the port in system.toml [ports], then `vello apply`."@,
    )
}

fn make_port_check(id: &str, port: u16, free: bool) -> (r: CheckResult)
    ensures
        r@ == port_check(id@, port, free),
{
    let digits: String = text::decimal(port as u128);
    let value: String = if free {
        text::cat3(":", &digits, " free")
    } else {
        text::cat3(":", &digits, " bound by another process")
    };
    make_verdict(
        id,
        "ports",
        free,
        Severity::Warn,
        value,
        "Stop the conflicting process or change the port in system.toml [ports], then `vello apply`.",
    )
}

pub open spec fn spec_checks_ports(llama: u16, webui: u16, ss: Option<Seq<char>>) -> Seq<
    CheckView,
> {
    seq![
        port_check("ports.llama"@, llama, spec_port_is_free(llama, ss)),
        port_check("ports.webui"@, webui, spec_port_is_free(webui, ss)),
    ]
}

pub fn checks_ports(llama: u16, webui: u16, ss: Option<&str>) -> (r: Vec<CheckResult>)
    ensures
        doctor::checks_of(r@) == spec_checks_ports(llama, webui, chars::opt_view(ss)),
{
    let first: bool = port_is_free(llama, ss);
    let second: bool = port_is_free(webui, ss);
    let r: Vec<CheckResult> = vec![
        make_port_check("ports.llama", llama, first),
        make_port_check("ports.webui", webui, second),
    ];
    assert(doctor::checks_of(r@) =~= spec_checks_ports(llama, webui, chars::opt_view(ss)));
    r
}

/// Where the user's programs are: in the home directory, if there is one.
pub open spec fn spec_bin_dir(home: Option<Seq<char>>) -> Seq<char> {
    match home {
        Some(h) => paths::spec_join(h, ".local/bin"@),
        None => "/"@,
    }
}

pub fn bin_dir(home: Option<&str>) -> (r: String)
    ensures
        r@ == spec_bin_dir(chars::opt_view(home)),
{
    match home {
        Some(h) => paths::join(h, ".local/bin"),
        None => "/".to_owned(),
    }
}

/// The directory of the user's programs is on the `PATH`, and the link in it
/// leads to this project.
pub open spec fn spec_checks_path(
    dir: Seq<char>,
    path_var: Option<Seq<char>>,
    target: Option<Seq<char>>,
    root: Seq<char>,
) -> Seq<CheckView> {
    let on = path_var matches Some(p) && paths::spec_on_path(p, dir);
    let link = paths::spec_join(dir, "vello"@);
    let expected = paths::spec_join(root, "vello"@);
    let ours = target matches Some(t) && paths::spec_same_path(t, expected);
    seq![
        verdict(
            "path.local_bin"@,
            "path"@,
            on,
            Severity::Warn,
            if on {
                dir + " on PATH"@
            } else {
                dir + " not on PATH"@
            },
            "Add to your shell rc: export PATH=\"$HOME/.local/bin:$PATH\" (or keep using ./vello from the project root)."@,
        ),
        verdict(
            "path.vello_symlink"@,
            "path"@,
            ours,
            Severity::Warn,
            match target {
                Some(t) => if ours {
                    link + " → this project"@
                } else {
                    link + " → "@ + t + " (different project)"@
                },
                None => link + " not present"@,
            },
            "`./vello-installer install` will create this symlink ("@ + link + " → "@ + expected
                + ")."@,
        ),
    ]
}

pub fn checks_path(
    dir: &str,
    path_var: Option<&str>,
    target: Option<&str>,
    root: &str,
) -> (r: Vec<CheckResult>)
    ensures
        doctor::checks_of(r@) == spec_checks_path(dir@, chars::opt_view(path_var), chars::opt_view(target), root@),
{
    let on: bool = paths::on_path(path_var, dir);
    let link: String = paths::join(dir, "vello");
    let expected: String = paths::join(root, "vello");
    let ours: bool = match target {
        Some(t) => paths::same_path(t, &expected),
        None => false,
    };
    let value: String = match target {
        Some(t) => if ours {
            text::cat2(&link, " → this project")
        } else {
            text::cat4(&link, " → ", t, " (different project)")
        },
        None => text::cat2(&link, " not present"),
    };
    let advice: String = text::cat5(
        "`./vello-installer install` will create this symlink (",
        &link,
        " → ",
        &expected,
        ").",
    );
    let shown: String = if on {
        text::cat2(dir, " on PATH")
    } else {
        text::cat2(dir, " not on PATH")
    };
    let r: Vec<CheckResult> = vec![
        make_verdict(
            "path.local_bin",
            "path",
            on,
            Severity::Warn,
            shown,
            "Add to your shell rc: export PATH=\"$HOME/.local/bin:$PATH\" (or keep using ./vello from the project root).",
        ),
        make_verdict("path.vello_symlink", "path", ours, Severity::Warn, value, &advice),
    ];
    assert(doctor::checks_of(r@) =~= spec_checks_path(
        dir@,
        chars::opt_view(path_var),
        chars::opt_view(target),
        root@,
    ));
    r
}

pub open spec fn spec_image_tag(mode: Mode) -> Seq<char> {
    match mode {
        Mode::Gpu => "vello/llama-server-cuda:12.4"@,
        Mode::Cpu => "vello/llama-server-cpu:latest"@,
    }
}

/// The image of the server for the mode.
pub fn image_tag(mode: Mode) -> (r: &'static str)
    ensures
        r@ == spec_image_tag(mode),
{
    match mode {
        Mode::Gpu => "vello/llama-server-cuda:12.4",
        Mode::Cpu => "vello/llama-server-cpu:latest",
    }
}

/// What is known of the project's files and of its image.
#[derive(Debug)]
pub struct ProjectFacts {
    pub profile: String,
    pub profile_exists: bool,
    pub system: String,
    pub system_exists: bool,
    pub image: bool,
}

pub open spec fn spec_checks_project(mode: Mode, f: ProjectFacts) -> Seq<CheckView> {
    seq![
        verdict(
            "project.profile_toml"@,
            "project"@,
            f.profile_exists,
            Severity::Warn,
            f.profile@,
            "Will be auto-generated on first run."@,
        ),
        verdict(
            "project.system_toml"@,
            "project"@,
            f.system_exists,
            Severity::Warn,
            f.system@,
            "Will be auto-generated from the template on `vello apply`."@,
        ),
        verdict(
            "project.docker_image"@,
            "project"@,
            f.image,
            Severity::Warn,
            if f.image {
                spec_image_tag(mode) + " built"@
            } else {
                spec_image_tag(mode) + " not built yet"@
            },
            "`./vello-installer install` (one-shot) or `./vello build` (rebuild) will build the image."@,
        ),
    ]
}

pub fn checks_project(mode: Mode, f: &ProjectFacts) -> (r: Vec<CheckResult>)
    ensures
        doctor::checks_of(r@) == spec_checks_project(mode, *f),
{
    let image: String = if f.image {
        text::cat2(image_tag(mode), " built")
    } else {
        text::cat2(image_tag(mode), " not built yet")
    };
    let r: Vec<CheckResult> = vec![
        make_verdict(
            "project.profile_toml",
            "project",
            f.profile_exists,
            Severity::Warn,
            f.profile.clone(),
            "Will be auto-generated on first run.",
        ),
        make_verdict(
            "project.system_toml",
            "project",
            f.system_exists,
            Severity::Warn,
            f.system.clone(),
            "Will be auto-generated from the template on `vello apply`.",
        ),
        make_verdict(
            "project.docker_image",
            "project",
            f.image,
            Severity::Warn,
            image,
            "`./vello-installer install` (one-shot) or `./vello build` (rebuild) will build the image.",
        ),
    ];
    assert(doctor::checks_of(r@) =~= spec_checks_project(mode, *f));
    r
}

/// Each command has a check of its own, by its own fact: the check passes exactly where
/// the command is there, and else can be mended by installing its package. Only the lack
/// of `watch` is no failure. Docker, its daemon and its compose plugin are checked too, and
/// cannot be installed so.
pub proof fn law_checks_tools(f: ToolFacts)
    ensures
        ({
            let list = spec_checks_tools(f);
            &&& list.len() == 8
            &&& forall|i: int| 0 <= i < 8 ==> (#[trigger] list[i]).category == "tools"@
            &&& list[0].id == "tools.docker"@
            &&& list[1].id == "tools.docker_daemon"@
            &&& list[2].id == "tools.docker_compose"@
            &&& !list[0].auto_installable && !list[1].auto_installable && !list[2].auto_installable
            &&& list[1].status == (if f.daemon { Severity::Okay } else { Severity::Fail })
            &&& list[1].value == (if f.daemon { "reachable"@ } else { "unreachable"@ })
            &&& match f.docker {
                Some(out) if chars::lines(out@).len() > 0 => list[0].status == Severity::Okay
                    && list[0].value == chars::trim(chars::lines(out@)[0]),
                _ => list[0].status == Severity::Fail && list[0].value == "missing"@,
            }
            &&& match f.compose {
                Some(out) if chars::lines(out@).len() > 0 => list[2].status == Severity::Okay
                    && list[2].value == chars::trim(chars::lines(out@)[0]),
                _ => list[2].status == Severity::Fail && list[2].value
                    == "missing (need v2 plugin)"@,
            }
            &&& forall|i: int|
                0 <= i < 8 ==> ((#[trigger] list[i]).fix is None <==> list[i].status
                    == Severity::Okay)
            &&& list[3].id == "tools.curl"@
            &&& list[3].status == (if f.curl { Severity::Okay } else { Severity::Fail })
            &&& list[3].value == (if f.curl { "found"@ } else { "missing"@ })
            &&& list[3].auto_installable <==> !f.curl
            &&& list[3].fix == (if f.curl { None } else { Some("sudo apt install -y curl"@) })
            &&& list[4].id == "tools.jq"@
            &&& list[4].status == (if f.jq { Severity::Okay } else { Severity::Fail })
            &&& list[4].value == (if f.jq { "found"@ } else { "missing"@ })
            &&& list[4].auto_installable <==> !f.jq
            &&& list[4].fix == (if f.jq { None } else { Some("sudo apt install -y jq"@) })
            &&& list[5].id == "tools.git"@
            &&& list[5].status == (if f.git { Severity::Okay } else { Severity::Fail })
            &&& list[5].value == (if f.git { "found"@ } else { "missing"@ })
            &&& list[5].auto_installable <==> !f.git
            &&& list[5].fix == (if f.git { None } else { Some("sudo apt install -y git"@) })
            &&& list[6].id == "tools.gpg"@
            &&& list[6].status == (if f.gpg { Severity::Okay } else { Severity::Fail })
            &&& list[6].value == (if f.gpg { "found"@ } else { "missing"@ })
            &&& list[6].auto_installable <==> !f.gpg
            &&& list[6].fix == (if f.gpg { None } else { Some("sudo apt install -y gnupg"@) })
            &&& list[7].id == "tools.watch"@
            &&& list[7].status == (if f.watch { Severity::Okay } else { Severity::Warn })
            &&& list[7].value == (if f.watch { "found"@ } else { "missing"@ })
            &&& list[7].auto_installable <==> !f.watch
            &&& list[7].fix == (if f.watch { None } else { Some("sudo apt install -y procps"@) })
        }),
{
    lemma_tool_texts();
    let list = spec_checks_tools(f);
    assert forall|i: int| 0 <= i < 8 implies ((#[trigger] list[i]).fix is None <==> list[i].status
        == Severity::Okay) by {}
}

proof fn lemma_tool_texts()
    ensures
        "tools."@ + "curl"@ == "tools.curl"@,
        "sudo apt install -y "@ + spec_apt_package_for("curl"@) == "sudo apt install -y curl"@,
        "tools."@ + "jq"@ == "tools.jq"@,
        "sudo apt install -y "@ + spec_apt_package_for("jq"@) == "sudo apt install -y jq"@,
        "tools."@ + "git"@ == "tools.git"@,
        "sudo apt install -y "@ + spec_apt_package_for("git"@) == "sudo apt install -y git"@,
        "tools."@ + "gpg"@ == "tools.gpg"@,
        "sudo apt install -y "@ + spec_apt_package_for("gpg"@) == "sudo apt install -y gnupg"@,
        "tools."@ + "watch"@ == "tools.watch"@,
        "sudo apt install -y "@ + spec_apt_package_for("watch"@) == "sudo apt install -y procps"@,
{
    reveal_strlit("tools.");
    reveal_strlit("sudo apt install -y ");
    reveal_strlit("curl");
    reveal_strlit("tools.curl");
    reveal_strlit("sudo apt install -y curl");
    reveal_strlit("jq");
    reveal_strlit("tools.jq");
    reveal_strlit("sudo apt install -y jq");
    reveal_strlit("git");
    reveal_strlit("tools.git");
    reveal_strlit("sudo apt install -y git");
    reveal_strlit("gpg");
    reveal_strlit("tools.gpg");
    reveal_strlit("sudo apt install -y gnupg");
    reveal_strlit("watch");
    reveal_strlit("tools.watch");
    reveal_strlit("sudo apt install -y procps");
    reveal_strlit("gnupg");
    reveal_strlit("procps");
    reveal_strlit("ss");
    assert("watch"@.len() == 5 && "curl"@.len() == 4 && "jq"@[0] == 'j' && "ss"@[0] == 's');
    assert("gpg"@[1] == 'p' && "git"@[1] == 'i' && "gpg"@.len() == 3 && "git"@.len() == 3);
    assert("jq"@.len() == 2 && "ss"@.len() == 2);
    assert("tools."@ + "curl"@ =~= "tools.curl"@);
    assert("sudo apt install -y "@ + "curl"@ =~= "sudo apt install -y curl"@);
    assert("tools."@ + "jq"@ =~= "tools.jq"@);
    assert("sudo apt install -y "@ + "jq"@ =~= "sudo apt install -y jq"@);
    assert("tools."@ + "git"@ =~= "tools.git"@);
    assert("sudo apt install -y "@ + "git"@ =~= "sudo apt install -y git"@);
    assert("tools."@ + "gpg"@ =~= "tools.gpg"@);
    assert("sudo apt install -y "@ + "gnupg"@ =~= "sudo apt install -y gnupg"@);
    assert("tools."@ + "watch"@ =~= "tools.watch"@);
    assert("sudo apt install -y "@ + "procps"@ =~= "sudo apt install -y procps"@);
}

/// What one fact is about is what one check is about: where only one of the commands is
/// there or not, the checks of all others are the same.
pub proof fn law_tools_are_apart(f: ToolFacts, g: ToolFacts)
    requires
        f.docker.deep_view() == g.docker.deep_view(),
        f.daemon == g.daemon,
        f.compose.deep_view() == g.compose.deep_view(),
    ensures
        ({
            let a = spec_checks_tools(f);
            let b = spec_checks_tools(g);
            &&& a[0] == b[0] && a[1] == b[1] && a[2] == b[2]
            &&& a[3] == b[3] <==> f.curl == g.curl
            &&& a[4] == b[4] <==> f.jq == g.jq
            &&& a[5] == b[5] <==> f.git == g.git
            &&& a[6] == b[6] <==> f.gpg == g.gpg
            &&& a[7] == b[7] <==> f.watch == g.watch
        }),
{
    law_checks_tools(f);
    law_checks_tools(g);
}

/// The package of a command has its name, but for three of them.
pub proof fn law_packages_of(cmd: Seq<char>)
    ensures
        spec_apt_package_for("watch"@) == "procps"@,
        spec_apt_package_for("gpg"@) == "gnupg"@,
        spec_apt_package_for("ss"@) == "iproute2"@,
        cmd != "watch"@ && cmd != "gpg"@ && cmd != "ss"@ ==> spec_apt_package_for(cmd) == cmd,
{
    reveal_strlit("watch");
    reveal_strlit("gpg");
    reveal_strlit("ss");
    assert("watch"@.len() == 5 && "gpg"@.len() == 3 && "ss"@.len() == 2);
}

/// What is assigned last counts: the text after the prefix, without quotes.
pub proof fn law_last_assigned(lines: Seq<Seq<char>>, prefix: Seq<char>, i: int)
    requires
        0 <= i < lines.len(),
        chars::starts_with(lines[i], prefix),
        forall|k: int| i < k < lines.len() ==> !chars::starts_with(#[trigger] lines[k], prefix),
    ensures
        last_assigned(lines, prefix) == chars::unquoted(lines[i].skip(prefix.len() as int)),
    decreases lines.len(),
{
    if i < lines.len() - 1 {
        let rest = lines.drop_last();
        assert(rest[i] == lines[i]);
        assert(!chars::starts_with(lines[lines.len() - 1], prefix));
        assert forall|k: int| i < k < rest.len() implies !chars::starts_with(
            #[trigger] rest[k],
            prefix,
        ) by {
            assert(rest[k] == lines[k]);
        }
        law_last_assigned(rest, prefix, i);
    }
}

/// What no line assigns is empty.
pub proof fn law_never_assigned(lines: Seq<Seq<char>>, prefix: Seq<char>)
    requires
        forall|k: int| 0 <= k < lines.len() ==> !chars::starts_with(#[trigger] lines[k], prefix),
    ensures
        last_assigned(lines, prefix) == Seq::<char>::empty(),
    decreases lines.len(),
{
    if lines.len() > 0 {
        let rest = lines.drop_last();
        assert(!chars::starts_with(lines[lines.len() - 1], prefix));
        assert forall|k: int| 0 <= k < rest.len() implies !chars::starts_with(
            #[trigger] rest[k],
            prefix,
        ) by {
            assert(rest[k] == lines[k]);
        }
        law_never_assigned(rest, prefix);
    }
}

/// A distribution is named by its pretty name, or by its id without one, and is supported
/// if it is Debian or Ubuntu, or like one of them.
pub proof fn law_distro(raw: Seq<char>)
    ensures
        ({
            let id = last_assigned(chars::lines(raw), "ID="@);
            let like = last_assigned(chars::lines(raw), "ID_LIKE="@);
            let name = last_assigned(chars::lines(raw), "PRETTY_NAME="@);
            let (shown, supported) = spec_detect_distro(Some(raw));
            &&& name.len() > 0 ==> shown == name
            &&& name.len() == 0 ==> shown == id
            &&& supported <==> id == "debian"@ || id == "ubuntu"@ || chars::contains(
                like,
                "debian"@,
            ) || chars::contains(like, "ubuntu"@)
        }),
        spec_detect_distro(None) == ("unknown"@, false),
{
}

/// The first manager that is there, in the order apt, dnf, pacman, zypper, apk.
pub proof fn law_package_manager(m: Managers)
    ensures
        m.apt ==> spec_package_manager(m) == "apt"@,
        !m.apt && m.dnf ==> spec_package_manager(m) == "dnf"@,
        !m.apt && !m.dnf && m.pacman ==> spec_package_manager(m) == "pacman"@,
        !m.apt && !m.dnf && !m.pacman && m.zypper ==> spec_package_manager(m) == "zypper"@,
        !m.apt && !m.dnf && !m.pacman && !m.zypper && m.apk ==> spec_package_manager(m) == "apk"@,
        !m.apt && !m.dnf && !m.pacman && !m.zypper && !m.apk ==> spec_package_manager(m)
            == "none"@,
{
}

/// The system: the kernel always passes; the distribution and the package manager get a
/// warning where they are not supported.
pub proof fn law_checks_os(kernel: Option<Seq<char>>, os_release: Option<Seq<char>>, m: Managers)
    ensures
        ({
            let list = spec_checks_os(kernel, os_release, m);
            let (distro, supported) = spec_detect_distro(os_release);
            &&& list.len() == 3
            &&& forall|i: int|
                0 <= i < 3 ==> (#[trigger] list[i]).category == "os"@ && !list[i].auto_installable
                    && (list[i].fix is None <==> list[i].status == Severity::Okay)
            &&& list[0].id == "os.kernel"@ && list[0].status == Severity::Okay
            &&& list[0].value == (match kernel {
                Some(out) => chars::trim(out),
                None => "unknown"@,
            })
            &&& list[1].id == "os.distro"@ && list[1].value == distro
            &&& list[1].status == (if supported { Severity::Okay } else { Severity::Warn })
            &&& list[2].id == "os.package_manager"@ && list[2].value == spec_package_manager(m)
            &&& list[2].status == (if m.apt { Severity::Okay } else { Severity::Warn })
        }),
{
    let list = spec_checks_os(kernel, os_release, m);
    assert forall|i: int| 0 <= i < 3 implies (#[trigger] list[i]).category == "os"@
        && !list[i].auto_installable && (list[i].fix is None <==> list[i].status
        == Severity::Okay) by {}
}

/// The processor: only x86_64 passes.
pub proof fn law_checks_cpu(nproc: Option<Seq<char>>, arch: Option<Seq<char>>)
    ensures
        ({
            let list = spec_checks_cpu(nproc, arch);
            &&& list.len() == 2
            &&& list[0].category == "cpu"@ && list[1].category == "cpu"@
            &&& !list[0].auto_installable && !list[1].auto_installable
            &&& list[0].id == "cpu.cores"@ && list[0].status == Severity::Okay
            &&& list[0].value == (match nproc {
                Some(out) => chars::trim(out),
                None => "?"@,
            }) + " threads"@
            &&& list[1].id == "cpu.arch"@
            &&& list[1].value == (match arch {
                Some(out) => chars::trim(out),
                None => "unknown"@,
            })
            &&& list[1].status == (if list[1].value == "x86_64"@ {
                Severity::Okay
            } else {
                Severity::Warn
            })
        }),
{
}

/// The memory: 8 GB are enough, and less is a warning.
pub proof fn law_checks_mem(ram: Num)
    ensures
        ({
            let list = spec_checks_mem(ram);
            &&& list.len() == 1
            &&& list[0].id == "mem.ram_total"@ && list[0].category == "mem"@
            &&& list[0].value == ram.fixed1() + " GB"@
            &&& !list[0].auto_installable
            &&& list[0].status == (if binary32::ratio(8, 1).le(ram) {
                Severity::Okay
            } else {
                Severity::Warn
            })
            &&& list[0].fix is None <==> list[0].status == Severity::Okay
        }),
{
}

/// The disk: 17 GB are enough; from 5 GB up there is a warning, and below it fails. Where
/// the space is not known, there is a warning.
pub proof fn law_checks_disk(free: Option<Num>, root: Seq<char>)
    ensures
        ({
            let list = spec_checks_disk(free, root);
            &&& list.len() == 1
            &&& list[0].id == "disk.project_root_free"@ && list[0].category == "disk"@
            &&& !list[0].auto_installable
            &&& list[0].fix is None <==> list[0].status == Severity::Okay
            &&& match free {
                None => list[0].status == Severity::Warn && list[0].value == "unknown"@,
                Some(g) => {
                    &&& list[0].value == g.fixed1() + " GB free in "@ + root
                    &&& list[0].status == Severity::Okay <==> binary32::ratio(17, 1).le(g)
                    &&& list[0].status == Severity::Warn <==> !binary32::ratio(17, 1).le(g)
                        && binary32::ratio(5, 1).le(g)
                    &&& list[0].status == Severity::Fail <==> !binary32::ratio(17, 1).le(g)
                        && !binary32::ratio(5, 1).le(g)
                },
            }
        }),
{
}

/// The free space is the number of bytes on the second line, in units of 1024^3 bytes.
pub proof fn law_free_gb(df: Seq<char>)
    ensures
        match spec_free_gb(df) {
            None => chars::lines(df).len() < 2 || (chars::parsed(chars::trim(chars::lines(df)[1]))
                matches Some(n) ==> n > u64::MAX),
            Some(g) => chars::lines(df).len() >= 2 && (chars::parsed(
                chars::trim(chars::lines(df)[1]),
            ) matches Some(n) && n <= u64::MAX && g == binary32::ratio(n, 1).over(
                binary32::ratio(1024, 1),
            ).over(binary32::ratio(1024, 1)).over(binary32::ratio(1024, 1))),
        },
        free_space(Some(df)) == spec_free_gb(df),
        free_space(None) is None,
{
}

/// The graphics card. In CPU mode nothing is checked. In GPU mode the driver and the
/// memory are checked where they can be read, the container toolkit always, and the way
/// through Docker where a thorough check is asked for and the tools for it are there. Only
/// the toolkit can be installed.
pub proof fn law_checks_gpu(mode: Mode, deep: bool, f: GpuFacts)
    ensures
        ({
            let list = spec_checks_gpu(mode, deep, f);
            let a: int = if f.nvidia_smi && f.driver is Some { 1 } else { 0 };
            let b: int = if f.nvidia_smi && f.gpu is Some { 1 } else { 0 };
            let c: int = if deep && f.nvidia_smi && f.toolkit { 1 } else { 0 };
            let kit = list[1 + a + b];
            &&& forall|i: int| 0 <= i < list.len() ==> (#[trigger] list[i]).category == "gpu"@
            &&& mode == Mode::Cpu ==> list.len() == 1 && list[0].id == "gpu"@ && list[0].status
                == Severity::Skip && !list[0].auto_installable && list[0].fix is None
            &&& mode == Mode::Gpu ==> {
                &&& list.len() == 2 + a + b + c
                &&& list[0].id == "gpu.nvidia_smi"@
                &&& list[0].status == (if f.nvidia_smi { Severity::Okay } else { Severity::Fail })
                &&& list[0].value == (if f.nvidia_smi { "found"@ } else { "missing"@ })
                &&& a == 1 ==> list[1].id == "gpu.driver_version"@ && list[1].value == chars::trim(
                    chars::first_line(chars::trim(f.driver->0@)),
                )
                &&& b == 1 ==> list[1 + a].id == "gpu.vram"@ && list[1 + a].value
                    == f.gpu->0.vram_gb@.fixed1() + " GB ("@ + f.gpu->0.name@ + ")"@
                    && list[1 + a].status == (if binary32::ratio(6, 1).le(f.gpu->0.vram_gb@) {
                    Severity::Okay
                } else {
                    Severity::Warn
                })
                &&& kit.id == "gpu.container_toolkit"@
                &&& kit.status == (if f.toolkit { Severity::Okay } else { Severity::Fail })
                &&& kit.value == (if f.toolkit { "installed"@ } else { "missing"@ })
                &&& kit.auto_installable <==> !f.toolkit
                &&& kit.fix is None <==> f.toolkit
                &&& c == 1 ==> list[2 + a + b].id == "gpu.docker_passthrough"@
                    && list[2 + a + b].status == (if f.passthrough {
                    Severity::Okay
                } else {
                    Severity::Fail
                }) && list[2 + a + b].value == (if f.passthrough { "works"@ } else { "fails"@ })
                &&& forall|i: int|
                    0 <= i < list.len() && i != 1 + a + b ==> !(
                    #[trigger] list[i]).auto_installable
            }
        }),
{
}

/// A driver from 550 up passes, from 535 up gets a warning, and below that fails; what is
/// no number counts as zero.
pub proof fn law_driver(version: Seq<char>)
    ensures
        ({
            let c = driver_check(version);
            let n = match chars::parsed(chars::before(version, '.')) {
                Some(n) if n <= u32::MAX => n,
                _ => 0,
            };
            &&& c.id == "gpu.driver_version"@ && c.value == version && !c.auto_installable
            &&& c.status == Severity::Okay <==> n >= 550
            &&& c.status == Severity::Warn <==> 535 <= n < 550
            &&& c.status == Severity::Fail <==> n < 535
            &&& c.fix is None <==> n >= 550
        }),
{
}

/// The Rust toolchain is there if cargo says its version.
pub proof fn law_checks_rust(cargo: Option<Seq<char>>)
    ensures
        ({
            let list = spec_checks_rust(cargo);
            &&& list.len() == 1
            &&& list[0].id == "rust.cargo"@ && list[0].category == "rust"@
            &&& !list[0].auto_installable
            &&& match cargo {
                Some(out) if chars::lines(out).len() > 0 => list[0].status == Severity::Okay
                    && list[0].value == chars::trim(chars::lines(out)[0]) && list[0].fix is None,
                _ => list[0].status == Severity::Fail && list[0].value == "missing"@
                    && list[0].fix is Some,
            }
        }),
{
}

/// A port is taken exactly where some listening socket has it: it ends a line, or a space
/// follows it.
pub proof fn law_port_is_free(port: u16, out: Seq<char>)
    ensures
        spec_port_is_free(port, None),
        !spec_port_is_free(port, Some(out)) <==> exists|i: int|
            0 <= i < chars::lines(out).len() && (chars::contains(
                #[trigger] chars::lines(out)[i],
                ":"@ + chars::decimal(port as nat) + " "@,
            ) || chars::ends_with(chars::lines(out)[i], ":"@ + chars::decimal(port as nat))),
{
    let all = chars::lines(out);
    let p = ":"@ + chars::decimal(port as nat);
    if !spec_port_is_free(port, Some(out)) {
        let i = choose|i: int| 0 <= i < all.len() && line_has_port(#[trigger] all[i], port);
        assert(chars::contains(all[i], p + " "@) || chars::ends_with(all[i], p));
        assert(exists|i: int|
            0 <= i < all.len() && (chars::contains(#[trigger] all[i], p + " "@)
                || chars::ends_with(all[i], p)));
    }
    if exists|i: int|
        0 <= i < all.len() && (chars::contains(#[trigger] all[i], p + " "@) || chars::ends_with(
            all[i],
            p,
        )) {
        let i = choose|i: int|
            0 <= i < all.len() && (chars::contains(#[trigger] all[i], p + " "@)
                || chars::ends_with(all[i], p));
        assert(line_has_port(all[i], port));
        lemma_taken(port, out, i);
    }
}

proof fn lemma_taken(port: u16, out: Seq<char>, i: int)
    requires
        0 <= i < chars::lines(out).len(),
        line_has_port(chars::lines(out)[i], port),
    ensures
        !spec_port_is_free(port, Some(out)),
{
    let ss = Some(out);
    assert(ss->0 == out);
}

/// Each service's port has a check of its own, and a port that is taken is a warning.
pub proof fn law_checks_ports(llama: u16, webui: u16, ss: Option<Seq<char>>)
    ensures
        ({
            let list = spec_checks_ports(llama, webui, ss);
            &&& list.len() == 2
            &&& list[0].category == "ports"@ && list[1].category == "ports"@
            &&& !list[0].auto_installable && !list[1].auto_installable
            &&& list[0].id == "ports.llama"@ && list[1].id == "ports.webui"@
            &&& list[0].status == (if spec_port_is_free(llama, ss) {
                Severity::Okay
            } else {
                Severity::Warn
            })
            &&& list[1].status == (if spec_port_is_free(webui, ss) {
                Severity::Okay
            } else {
                Severity::Warn
            })
            &&& list[0].fix is None <==> list[0].status == Severity::Okay
            &&& list[1].fix is None <==> list[1].status == Severity::Okay
            &&& list[0].value == ":"@ + chars::decimal(llama as nat) + (if list[0].status
                == Severity::Okay {
                " free"@
            } else {
                " bound by another process"@
            })
            &&& list[1].value == ":"@ + chars::decimal(webui as nat) + (if list[1].status
                == Severity::Okay {
                " free"@
            } else {
                " bound by another process"@
            })
        }),
{
}

/// The directory of programs is to be on the search path, and the link in it is to lead to
/// this project; else there is a warning.
pub proof fn law_checks_path(
    dir: Seq<char>,
    path_var: Option<Seq<char>>,
    target: Option<Seq<char>>,
    root: Seq<char>,
)
    ensures
        ({
            let list = spec_checks_path(dir, path_var, target, root);
            let on = match path_var {
                Some(p) => paths::spec_on_path(p, dir),
                None => false,
            };
            let ours = match target {
                Some(t) => paths::spec_same_path(t, paths::spec_join(root, "vello"@)),
                None => false,
            };
            &&& list.len() == 2
            &&& list[0].category == "path"@ && list[1].category == "path"@
            &&& !list[0].auto_installable && !list[1].auto_installable
            &&& list[0].id == "path.local_bin"@ && list[1].id == "path.vello_symlink"@
            &&& list[0].status == (if on { Severity::Okay } else { Severity::Warn })
            &&& list[1].status == (if ours { Severity::Okay } else { Severity::Warn })
            &&& list[0].fix is None <==> on
            &&& list[1].fix is None <==> ours
            &&& list[0].value == dir + (if on { " on PATH"@ } else { " not on PATH"@ })
            &&& target is None ==> list[1].value == paths::spec_join(dir, "vello"@)
                + " not present"@
            &&& ours ==> list[1].value == paths::spec_join(dir, "vello"@) + " → this project"@
            &&& target is Some && !ours ==> list[1].value == paths::spec_join(dir, "vello"@)
                + " → "@ + target->0 + " (different project)"@
        }),
{
}

/// The directory of programs is in the home directory; without one it is the root.
pub proof fn law_bin_dir(home: Option<Seq<char>>)
    ensures
        home matches Some(h) ==> spec_bin_dir(home) == paths::spec_join(h, ".local/bin"@),
        home is None ==> spec_bin_dir(home) == "/"@,
{
}

/// The files of the project and the image for the mode are to be there; else there is a
/// warning.
pub proof fn law_checks_project(mode: Mode, f: ProjectFacts)
    ensures
        ({
            let list = spec_checks_project(mode, f);
            let tag = match mode {
                Mode::Gpu => "vello/llama-server-cuda:12.4"@,
                Mode::Cpu => "vello/llama-server-cpu:latest"@,
            };
            &&& list.len() == 3
            &&& forall|i: int|
                0 <= i < 3 ==> (#[trigger] list[i]).category == "project"@
                    && !list[i].auto_installable && (list[i].fix is None <==> list[i].status
                    == Severity::Okay)
            &&& list[0].id == "project.profile_toml"@ && list[0].value == f.profile@
            &&& list[1].id == "project.system_toml"@ && list[1].value == f.system@
            &&& list[2].id == "project.docker_image"@
            &&& list[2].value == tag + (if f.image { " built"@ } else { " not built yet"@ })
            &&& list[0].status == (if f.profile_exists { Severity::Okay } else { Severity::Warn })
            &&& list[1].status == (if f.system_exists { Severity::Okay } else { Severity::Warn })
            &&& list[2].status == (if f.image { Severity::Okay } else { Severity::Warn })
            &&& spec_image_tag(mode) == tag
        }),
{
    let list = spec_checks_project(mode, f);
    assert forall|i: int| 0 <= i < 3 implies (#[trigger] list[i]).category == "project"@
        && !list[i].auto_installable && (list[i].fix is None <==> list[i].status
        == Severity::Okay) by {}
}

} // verus!
