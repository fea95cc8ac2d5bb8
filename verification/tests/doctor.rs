use vello::binary32::Binary32;
use vello::checks::{GpuFacts, GpuReading, Managers, ProjectFacts, ToolFacts};
use vello::doctor::{
    answered, apt_install_args, apt_install_failed, build_fix_plan, collect, consent, decide_mode,
    describe_action, exit_code, fix_step, is_yes, plan_text, render_human, summarize, truncate,
    wrap, CheckResult, Consent, DoctorOpts, FixAction, FixStep, HostFacts, ModeDecision, ModeInfo,
    Report, Severity, Summary,
};
use vello::schema::Mode;
use vello::style::Style;

fn b(x: f32) -> Binary32 {
    Binary32::from_bits(x.to_bits())
}

fn check(id: &str, status: Severity, auto: bool) -> CheckResult {
    CheckResult {
        id: id.into(),
        category: id.split('.').next().unwrap().into(),
        status,
        value: "v".into(),
        fix: None,
        auto_installable: auto,
    }
}

fn report(checks: Vec<CheckResult>) -> Report {
    Report {
        schema: 1,
        summary: summarize(&checks, Mode::Gpu),
        mode: ModeInfo {
            selected: Mode::Gpu,
            reason: "because".into(),
        },
        checks,
    }
}

fn facts() -> HostFacts {
    HostFacts {
        kernel: Some("6.1".into()),
        os_release: Some("ID=debian\n".into()),
        managers: Managers {
            apt: true,
            dnf: false,
            pacman: false,
            zypper: false,
            apk: false,
        },
        nproc: Some("8".into()),
        arch: Some("x86_64".into()),
        ram_gb: Some(b(32.0)),
        df: Some("Avail\n107374182400\n".into()),
        tools: ToolFacts {
            docker: Some("Docker version 27".into()),
            daemon: true,
            compose: Some("v2".into()),
            curl: true,
            jq: true,
            git: true,
            gpg: true,
            watch: true,
        },
        gpu: GpuFacts {
            nvidia_smi: true,
            driver: Some("550.1".into()),
            gpu: Some(GpuReading {
                vram_gb: b(8.0),
                name: "card".into(),
            }),
            toolkit: true,
            passthrough: true,
        },
        cargo: Some("cargo 1.80".into()),
        llama_port: 8080,
        webui_port: 3000,
        ss: Some(String::new()),
        home: Some("/home/me".into()),
        path_var: Some("/home/me/.local/bin".into()),
        link_target: Some("/p/vello".into()),
        project_root: "/p".into(),
        project: ProjectFacts {
            profile: "/p/profile.toml".into(),
            profile_exists: true,
            system: "/p/system.toml".into(),
            system_exists: true,
            image: true,
        },
    }
}

#[test]
fn every_check_is_made_in_order() {
    let r = collect(&facts(), b(16.0), Mode::Gpu, "why".into(), &DoctorOpts::default());
    let ids: Vec<&str> = r.checks.iter().map(|c| c.id.as_str()).collect();
    assert_eq!(
        ids,
        [
            "os.kernel",
            "os.distro",
            "os.package_manager",
            "cpu.cores",
            "cpu.arch",
            "mem.ram_total",
            "disk.project_root_free",
            "tools.docker",
            "tools.docker_daemon",
            "tools.docker_compose",
            "tools.curl",
            "tools.jq",
            "tools.git",
            "tools.gpg",
            "tools.watch",
            "gpu.nvidia_smi",
            "gpu.driver_version",
            "gpu.vram",
            "gpu.container_toolkit",
            "rust.cargo",
            "ports.llama",
            "ports.webui",
            "path.local_bin",
            "path.vello_symlink",
            "project.profile_toml",
            "project.system_toml",
            "project.docker_image"
        ]
    );
    assert_eq!(r.schema, 1);
    assert_eq!(r.summary.ok, ids.len());
    assert_eq!(r.mode.reason, "why");
    assert_eq!(exit_code(&r), 0);

    let deep = DoctorOpts {
        installer_mode: true,
        ..DoctorOpts::default()
    };
    let r = collect(&facts(), b(16.0), Mode::Gpu, String::new(), &deep);
    assert!(r.checks.iter().any(|c| c.id == "gpu.docker_passthrough"));
    let r = collect(&facts(), b(16.0), Mode::Cpu, String::new(), &deep);
    assert_eq!(r.summary.skip, 1);
    assert_eq!(r.summary.mode, Mode::Cpu);
}

#[test]
fn the_summary_counts_every_check() {
    let list = vec![
        check("a", Severity::Okay, false),
        check("b", Severity::Warn, false),
        check("c", Severity::Warn, true),
        check("d", Severity::Fail, false),
        check("e", Severity::Skip, false),
    ];
    let s = summarize(&list, Mode::Cpu);
    assert_eq!(
        s,
        Summary {
            ok: 1,
            warn: 2,
            fail: 1,
            skip: 1,
            mode: Mode::Cpu
        }
    );
    assert_eq!(s.ok + s.warn + s.fail + s.skip, list.len());
}

#[test]
fn exit_codes() {
    assert_eq!(exit_code(&report(vec![])), 0);
    assert_eq!(exit_code(&report(vec![check("a", Severity::Warn, true)])), 0);
    assert_eq!(exit_code(&report(vec![check("a", Severity::Fail, true)])), 1);
    assert_eq!(
        exit_code(&report(vec![
            check("a", Severity::Fail, true),
            check("b", Severity::Fail, false)
        ])),
        2
    );
}

fn opts() -> DoctorOpts {
    DoctorOpts::default()
}

fn reason(d: &ModeDecision) -> String {
    match d {
        ModeDecision::Keep { mode, reason } => format!("keep {} {reason}", mode.label()),
        ModeDecision::Switch { mode, reason } => format!("switch {} {reason}", mode.label()),
        ModeDecision::Ask => "ask".into(),
        ModeDecision::Refuse { why } => format!("refuse {why}"),
    }
}

#[test]
fn what_is_forced_comes_first() {
    let gpu = DoctorOpts { force_gpu: true, ..opts() };
    let cpu = DoctorOpts { force_cpu: true, ..opts() };
    assert_eq!(
        reason(&decide_mode(Mode::Cpu, true, &gpu, true)),
        "switch gpu forced by --gpu (NVIDIA GPU detected)"
    );
    assert_eq!(
        reason(&decide_mode(Mode::Gpu, false, &gpu, true)),
        "refuse --gpu requested but no NVIDIA GPU detected (nvidia-smi failed or absent)"
    );
    assert_eq!(reason(&decide_mode(Mode::Gpu, true, &cpu, true)), "switch cpu forced by --cpu");
}

#[test]
fn the_profile_is_kept_where_it_can_be() {
    assert_eq!(
        reason(&decide_mode(Mode::Gpu, true, &opts(), true)),
        "keep gpu profile.toml mode = gpu, NVIDIA GPU detected"
    );
    assert_eq!(
        reason(&decide_mode(Mode::Cpu, true, &opts(), false)),
        "keep cpu profile.toml mode = cpu"
    );
}

#[test]
fn a_missing_gpu() {
    let yes = DoctorOpts { yes: true, ..opts() };
    let installer = DoctorOpts { installer_mode: true, ..opts() };
    let json = DoctorOpts { json: true, ..opts() };
    let auto = "switch cpu no GPU detected; auto-selected CPU mode (--yes)";
    assert_eq!(reason(&decide_mode(Mode::Gpu, false, &yes, false)), auto);
    assert_eq!(reason(&decide_mode(Mode::Gpu, false, &installer, false)), auto);
    assert_eq!(
        reason(&decide_mode(Mode::Gpu, false, &opts(), false)),
        "refuse no NVIDIA GPU detected and stdin is not a TTY. Re-run with --cpu, --gpu, or --yes to choose explicitly."
    );
    assert_eq!(
        reason(&decide_mode(Mode::Gpu, false, &json, true)),
        "refuse no NVIDIA GPU detected. JSON mode does not prompt — pass --cpu, --gpu, or --yes."
    );
    assert_eq!(reason(&decide_mode(Mode::Gpu, false, &opts(), true)), "ask");
    assert_eq!(
        reason(&answered("yes\n")),
        "switch cpu no GPU detected; user confirmed CPU mode"
    );
    assert_eq!(
        reason(&answered("\n")),
        "refuse aborted by user (no GPU and CPU mode declined)"
    );
}

#[test]
fn answers() {
    for a in ["y", "Y", "yes", "YES", " y \n"] {
        assert!(is_yes(a), "{a:?}");
    }
    for a in ["", "n", "Yes", "yess", "y y"] {
        assert!(!is_yes(a), "{a:?}");
    }
}

#[test]
fn a_plan_for_what_can_be_installed() {
    let list = vec![
        check("tools.docker", Severity::Fail, false),
        check("tools.jq", Severity::Fail, true),
        check("tools.gpg", Severity::Fail, true),
        check("tools.procps", Severity::Fail, true),
        check("tools.watch", Severity::Fail, true),
        check("tools.curl", Severity::Warn, true),
        check("gpu.container_toolkit", Severity::Fail, true),
        check("other.thing", Severity::Fail, true),
    ];
    let plan = build_fix_plan(&list);
    assert_eq!(plan.len(), 2);
    match &plan[0] {
        FixAction::AptInstall { packages } => assert_eq!(packages, &["jq", "gnupg", "procps"]),
        FixAction::NvidiaContainerToolkit => panic!("packages come first"),
    }
    assert!(matches!(plan[1], FixAction::NvidiaContainerToolkit));
    assert_eq!(
        plan_text(&plan),
        "\nplan:\n  $ sudo apt-get update -y\n  $ sudo apt-get install -y jq gnupg procps\n  \
         $ curl … | sudo gpg --dearmor -o /usr/share/keyrings/nvidia-container-toolkit-keyring.gpg\n  \
         $ curl … | sudo tee /etc/apt/sources.list.d/nvidia-container-toolkit.list\n  \
         $ sudo apt-get update -y\n  $ sudo apt-get install -y nvidia-container-toolkit\n  \
         $ sudo nvidia-ctk runtime configure --runtime=docker\n  $ sudo systemctl restart docker\n\n"
    );
    assert_eq!(describe_action(&plan[1]).len(), 6);
    assert!(build_fix_plan(&vec![check("tools.jq", Severity::Warn, true)]).is_empty());
}

#[test]
fn packages_to_install() {
    let packages = vec!["jq".to_string(), "gnupg".to_string()];
    assert_eq!(apt_install_args(&packages), ["apt-get", "install", "-y", "jq", "gnupg"]);
    assert_eq!(apt_install_failed(&packages), "apt-get install failed for: jq, gnupg");
}

#[test]
fn what_is_left_to_do() {
    let plan = build_fix_plan(&vec![check("tools.jq", Severity::Fail, true)]);
    let fix = DoctorOpts { fix: true, ..opts() };
    assert_eq!(fix_step(&opts(), &plan), FixStep::Finish);
    assert_eq!(fix_step(&fix, &vec![]), FixStep::NothingToFix);
    assert_eq!(fix_step(&fix, &plan), FixStep::Apply);
}

#[test]
fn consent_to_a_plan() {
    assert!(matches!(consent(true, true, false), Consent::Given));
    assert!(matches!(consent(false, false, true), Consent::Ask));
    match consent(false, true, true) {
        Consent::Refuse { why } => assert_eq!(
            why,
            "--fix without --yes requires a TTY for confirmation; JSON mode cannot prompt"
        ),
        _ => panic!("JSON cannot ask"),
    }
    match consent(false, false, false) {
        Consent::Refuse { why } => assert_eq!(
            why,
            "--fix without --yes requires a TTY for confirmation; pass --yes for non-interactive runs"
        ),
        _ => panic!("nobody to ask"),
    }
}

#[test]
fn truncated_values() {
    assert_eq!(truncate("abc", 3), "abc");
    assert_eq!(truncate("abcd", 3), "ab…");
    assert_eq!(truncate("ábcd", 3), "áb…");
    assert_eq!(truncate("abcd", 1), "…");
    assert_eq!(truncate("abcd", 0), "…");
    assert_eq!(truncate("", 0), "");
}

#[test]
fn wrapped_text() {
    assert_eq!(wrap("one two  three", 7), ["one two", "three"]);
    assert_eq!(wrap("one two", 6), ["one", "two"]);
    assert_eq!(wrap("  unbreakable word ", 4), ["unbreakable", "word"]);
    // The width counts bytes.
    assert_eq!(wrap("éé éé", 8), ["éé", "éé"]);
    assert_eq!(wrap("éé éé", 9), ["éé éé"]);
    assert!(wrap(" \n", 10).is_empty());
    let long = "Start the daemon and add yourself to the docker group, then log in again.";
    assert_eq!(wrap(long, 20).join(" "), long);
    assert!(wrap(long, 20).iter().all(|l| l.len() <= 20));
}

#[test]
fn a_report_as_text() {
    let mut jq = check("tools.jq", Severity::Fail, true);
    jq.value = "missing".into();
    jq.fix = Some("sudo apt install -y jq".into());
    let mut os = check("os.kernel", Severity::Okay, false);
    os.value = "6.1".into();
    let mut gpu = check("gpu", Severity::Skip, false);
    gpu.value = "x".repeat(70);
    gpu.fix = Some(format!("{} {}", "a".repeat(90), "tail"));
    let mut git = check("tools.git", Severity::Warn, false);
    git.value = "odd".into();
    let text = render_human(&report(vec![os, jq, git, gpu]), &Style::new(false, false));
    let expected = format!(
        "vello doctor — host pre-flight\n  mode: gpu (because)\n\n\
         [os]\n   ok   os.kernel             6.1\n\n\
         [tools]\n  fail  tools.jq              missing\n        ↳ sudo apt install -y jq\n  \
         warn  tools.git             odd\n\n\
         [gpu]\n  skip  gpu                   {}…\n        ↳ {}\n          tail\n\n\
         summary: 1 ok, 1 warn, 1 fail, 1 skip\n  \
         hint: 1 item(s) can be auto-installed with `./vello doctor --fix` (add --yes for unattended).\n",
        "x".repeat(59),
        "a".repeat(90)
    );
    assert_eq!(text, expected);
}

#[test]
fn an_empty_report_as_text() {
    let text = render_human(&report(vec![]), &Style::new(false, false));
    assert_eq!(
        text,
        "vello doctor — host pre-flight\n  mode: gpu (because)\n\n\nsummary: 0 ok, 0 warn, 0 fail, 0 skip\n"
    );
    let c = check("a", Severity::Okay, false).clone();
    assert_eq!(c.id, "a");
}
