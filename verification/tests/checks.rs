use vello::binary32::Binary32;
use vello::checks::{
    apt_package_for, bin_dir, checks_cpu, checks_disk, checks_gpu, checks_mem, checks_os,
    checks_path, checks_ports, checks_project, checks_rust, checks_tools, detect_distro,
    detect_package_manager, free_gb, image_tag, port_is_free, tries_passthrough, GpuFacts,
    GpuReading, Managers, ProjectFacts, ToolFacts,
};
use vello::doctor::{CheckResult, Severity};
use vello::schema::Mode;

fn b(x: f32) -> Binary32 {
    Binary32::from_bits(x.to_bits())
}

fn f(x: Binary32) -> f32 {
    f32::from_bits(x.to_bits())
}

fn no_managers() -> Managers {
    Managers {
        apt: false,
        dnf: false,
        pacman: false,
        zypper: false,
        apk: false,
    }
}

fn find<'a>(list: &'a [CheckResult], id: &str) -> &'a CheckResult {
    list.iter().find(|c| c.id == id).unwrap()
}

#[test]
fn distributions() {
    let debian = "PRETTY_NAME=\"Debian GNU/Linux 13\"\nID=debian\n";
    assert_eq!(detect_distro(Some(debian)), ("Debian GNU/Linux 13".to_string(), true));
    let mint = "ID=linuxmint\nID_LIKE=\"ubuntu debian\"\n";
    assert_eq!(detect_distro(Some(mint)), ("linuxmint".to_string(), true));
    let fedora = "ID=fedora\nPRETTY_NAME=Fedora\n";
    assert_eq!(detect_distro(Some(fedora)), ("Fedora".to_string(), false));
    let twice = "ID=fedora\nID=ubuntu\n";
    assert_eq!(detect_distro(Some(twice)), ("ubuntu".to_string(), true));
    assert_eq!(detect_distro(None), ("unknown".to_string(), false));
}

#[test]
fn package_managers() {
    assert_eq!(detect_package_manager(&no_managers()), "none");
    assert_eq!(detect_package_manager(&Managers { apk: true, ..no_managers() }), "apk");
    assert_eq!(
        detect_package_manager(&Managers { zypper: true, pacman: true, ..no_managers() }),
        "pacman"
    );
    assert_eq!(
        detect_package_manager(&Managers { apt: true, dnf: true, ..no_managers() }),
        "apt"
    );
}

#[test]
fn the_operating_system() {
    let good = checks_os(
        &Some("6.1.0\n".into()),
        Some("ID=debian\n"),
        &Managers { apt: true, ..no_managers() },
    );
    assert_eq!(good.len(), 3);
    assert!(good.iter().all(|c| c.status == Severity::Okay && c.fix.is_none()));
    assert_eq!(good[0].value, "6.1.0");
    assert_eq!(good[2].value, "apt");

    let other = checks_os(&None, None, &Managers { dnf: true, ..no_managers() });
    assert_eq!(other[0].value, "unknown");
    assert_eq!(other[1].status, Severity::Warn);
    assert_eq!(
        other[2].fix.as_deref(),
        Some("Auto-install only supports apt today; detected dnf. Install missing items manually.")
    );
    let none = checks_os(&None, None, &no_managers());
    assert_eq!(
        none[2].fix.as_deref(),
        Some("No known package manager detected. Install prerequisites manually.")
    );
}

#[test]
fn the_processor() {
    let good = checks_cpu(&Some("16\n".into()), &Some("x86_64\n".into()));
    assert_eq!(good[0].value, "16 threads");
    assert_eq!(good[1].status, Severity::Okay);
    let odd = checks_cpu(&None, &Some("aarch64".into()));
    assert_eq!(odd[0].value, "? threads");
    assert_eq!(odd[1].status, Severity::Warn);
    assert_eq!(odd[1].fix.as_deref(), Some("Only x86_64 is tested today."));
}

#[test]
fn memory() {
    let good = checks_mem(Some(b(31.25)), b(1.0));
    assert_eq!(good[0].value, "31.2 GB");
    assert_eq!(good[0].status, Severity::Okay);
    let low = checks_mem(None, b(7.9));
    assert_eq!(low[0].value, "7.9 GB");
    assert_eq!(low[0].status, Severity::Warn);
    assert!(low[0].fix.is_some());
    assert_eq!(checks_mem(Some(b(8.0)), b(1.0))[0].status, Severity::Okay);
}

#[test]
fn free_space() {
    let df = "     Avail\n 21474836480\n";
    assert_eq!(f(free_gb(df).unwrap()), 20.0);
    let odd: u64 = 123456789012;
    assert_eq!(
        f(free_gb(&format!("Avail\n{odd}\n")).unwrap()),
        odd as f32 / 1024.0 / 1024.0 / 1024.0
    );
    assert!(free_gb("Avail\n").is_none());
    assert!(free_gb("Avail\nmany\n").is_none());
    assert!(free_gb("Avail\n99999999999999999999\n").is_none());

    let at = |gb: u64| checks_disk(Some(&format!("Avail\n{}\n", gb << 30)), "/p");
    assert_eq!(at(17)[0].status, Severity::Okay);
    assert_eq!(at(17)[0].value, "17.0 GB free in /p");
    assert_eq!(at(5)[0].status, Severity::Warn);
    assert_eq!(
        at(5)[0].fix.as_deref(),
        Some("5.0 GB free; the catalog assumes ~17 GB (image + first model). Pick a small model.")
    );
    assert_eq!(at(4)[0].status, Severity::Fail);
    assert_eq!(
        at(4)[0].fix.as_deref(),
        Some("4.0 GB free is too low. Free up space or move the project to a larger disk.")
    );
    let unknown = checks_disk(None, "/p");
    assert_eq!(unknown[0].status, Severity::Warn);
    assert_eq!(unknown[0].value, "unknown");
}

fn tools() -> ToolFacts {
    ToolFacts {
        docker: Some("Docker version 27.0\nmore\n".into()),
        daemon: true,
        compose: Some("Docker Compose version v2.29\n".into()),
        curl: true,
        jq: true,
        git: true,
        gpg: true,
        watch: true,
    }
}

#[test]
fn tools_that_are_there() {
    let list = checks_tools(&tools());
    assert_eq!(list.len(), 8);
    assert!(list.iter().all(|c| c.status == Severity::Okay && !c.auto_installable));
    assert_eq!(list[0].value, "Docker version 27.0");
    let ids: Vec<&str> = list.iter().map(|c| c.id.as_str()).collect();
    assert_eq!(
        ids,
        [
            "tools.docker",
            "tools.docker_daemon",
            "tools.docker_compose",
            "tools.curl",
            "tools.jq",
            "tools.git",
            "tools.gpg",
            "tools.watch"
        ]
    );
}

#[test]
fn tools_that_are_missing() {
    let list = checks_tools(&ToolFacts {
        docker: None,
        daemon: false,
        compose: Some(String::new()),
        curl: false,
        gpg: false,
        watch: false,
        ..tools()
    });
    assert_eq!(find(&list, "tools.docker").status, Severity::Fail);
    assert!(!find(&list, "tools.docker").auto_installable);
    assert_eq!(find(&list, "tools.docker_daemon").value, "unreachable");
    assert_eq!(find(&list, "tools.docker_compose").value, "missing (need v2 plugin)");
    let gpg = find(&list, "tools.gpg");
    assert_eq!(gpg.status, Severity::Fail);
    assert_eq!(gpg.fix.as_deref(), Some("sudo apt install -y gnupg"));
    assert!(gpg.auto_installable);
    let watch = find(&list, "tools.watch");
    assert_eq!(watch.status, Severity::Warn);
    assert_eq!(watch.fix.as_deref(), Some("sudo apt install -y procps"));
}

#[test]
fn packages_of_commands() {
    assert_eq!(apt_package_for("watch"), "procps");
    assert_eq!(apt_package_for("gpg"), "gnupg");
    assert_eq!(apt_package_for("ss"), "iproute2");
    assert_eq!(apt_package_for("jq"), "jq");
}

fn gpu(driver: &str, vram: f32) -> GpuFacts {
    GpuFacts {
        nvidia_smi: true,
        driver: Some(driver.into()),
        gpu: Some(GpuReading {
            vram_gb: b(vram),
            name: "card".into(),
        }),
        toolkit: true,
        passthrough: true,
    }
}

#[test]
fn no_gpu_is_looked_for_in_cpu_mode() {
    let list = checks_gpu(Mode::Cpu, true, &gpu("550.1", 8.0));
    assert_eq!(list.len(), 1);
    assert_eq!(list[0].id, "gpu");
    assert_eq!(list[0].status, Severity::Skip);
    assert_eq!(list[0].value, "skipped (mode = cpu)");
}

#[test]
fn a_gpu_that_is_fine() {
    let list = checks_gpu(Mode::Gpu, true, &gpu("550.54.14\n550.54.14\n", 8.0));
    let ids: Vec<&str> = list.iter().map(|c| c.id.as_str()).collect();
    assert_eq!(
        ids,
        [
            "gpu.nvidia_smi",
            "gpu.driver_version",
            "gpu.vram",
            "gpu.container_toolkit",
            "gpu.docker_passthrough"
        ]
    );
    assert!(list.iter().all(|c| c.status == Severity::Okay));
    assert_eq!(list[1].value, "550.54.14");
    assert_eq!(list[2].value, "8.0 GB (card)");
    assert_eq!(checks_gpu(Mode::Gpu, false, &gpu("550", 8.0)).len(), 4);
}

#[test]
fn drivers() {
    let status = |v: &str| {
        find(&checks_gpu(Mode::Gpu, false, &gpu(v, 8.0)), "gpu.driver_version").status
    };
    assert_eq!(status("550.0"), Severity::Okay);
    assert_eq!(status("549.9"), Severity::Warn);
    assert_eq!(status("535"), Severity::Warn);
    assert_eq!(status("534.99"), Severity::Fail);
    assert_eq!(status("N/A"), Severity::Fail);
    assert_eq!(status(""), Severity::Fail);
}

#[test]
fn too_little_vram() {
    let list = checks_gpu(Mode::Gpu, false, &gpu("550", 5.9));
    let v = find(&list, "gpu.vram");
    assert_eq!(v.status, Severity::Warn);
    assert!(v.fix.as_deref().unwrap().starts_with("Below 6 GB VRAM"));
    let nan = checks_gpu(Mode::Gpu, false, &gpu("550", f32::NAN));
    let v = find(&nan, "gpu.vram");
    assert_eq!((v.status, v.fix.is_none()), (Severity::Warn, true));
    assert_eq!(v.value, "NaN GB (card)");
}

#[test]
fn a_gpu_that_cannot_be_asked() {
    let list = checks_gpu(
        Mode::Gpu,
        true,
        &GpuFacts {
            nvidia_smi: false,
            toolkit: false,
            ..gpu("550", 8.0)
        },
    );
    assert_eq!(list.len(), 2);
    assert_eq!(list[0].status, Severity::Fail);
    assert!(!list[0].auto_installable);
    assert_eq!(list[1].id, "gpu.container_toolkit");
    assert!(list[1].auto_installable);
    let broken = checks_gpu(
        Mode::Gpu,
        true,
        &GpuFacts {
            passthrough: false,
            ..gpu("550", 8.0)
        },
    );
    let p = find(&broken, "gpu.docker_passthrough");
    assert_eq!((p.status, p.value.as_str()), (Severity::Fail, "fails"));
}

#[test]
fn when_a_container_is_tried() {
    assert!(tries_passthrough(Mode::Gpu, true, true, true));
    assert!(!tries_passthrough(Mode::Cpu, true, true, true));
    assert!(!tries_passthrough(Mode::Gpu, false, true, true));
    assert!(!tries_passthrough(Mode::Gpu, true, false, true));
    assert!(!tries_passthrough(Mode::Gpu, true, true, false));
}

#[test]
fn the_rust_toolchain() {
    let good = checks_rust(&Some("cargo 1.80.0\n".into()));
    assert_eq!((good[0].status, good[0].value.as_str()), (Severity::Okay, "cargo 1.80.0"));
    assert_eq!(checks_rust(&None)[0].status, Severity::Fail);
}

#[test]
fn ports() {
    let ss = "State  Local Address:Port\nLISTEN 0.0.0.0:8080 0.0.0.0:*\nLISTEN [::]:3000";
    assert!(!port_is_free(8080, Some(ss)));
    assert!(!port_is_free(3000, Some(ss)));
    assert!(port_is_free(808, Some(ss)));
    assert!(port_is_free(80, Some(ss)));
    assert!(port_is_free(8080, None));
    let list = checks_ports(8080, 3001, Some(ss));
    assert_eq!((list[0].status, list[0].value.as_str()), (Severity::Warn, ":8080 bound by another process"));
    assert!(list[0].fix.is_some());
    assert_eq!((list[1].status, list[1].value.as_str()), (Severity::Okay, ":3001 free"));
}

#[test]
fn the_path_and_the_link() {
    assert_eq!(bin_dir(Some("/home/me")), "/home/me/.local/bin");
    assert_eq!(bin_dir(None), "/");
    let dir = "/home/me/.local/bin";
    let good = checks_path(dir, Some("/bin:/home/me/.local/bin"), Some("/p/vello"), "/p");
    assert!(good.iter().all(|c| c.status == Severity::Okay));
    assert_eq!(good[0].value, "/home/me/.local/bin on PATH");
    assert_eq!(good[1].value, "/home/me/.local/bin/vello → this project");
    let other = checks_path(dir, None, Some("/q/vello"), "/p");
    assert!(other.iter().all(|c| c.status == Severity::Warn));
    assert_eq!(other[0].value, "/home/me/.local/bin not on PATH");
    assert_eq!(
        other[1].value,
        "/home/me/.local/bin/vello → /q/vello (different project)"
    );
    assert_eq!(
        other[1].fix.as_deref(),
        Some("`./vello-installer install` will create this symlink (/home/me/.local/bin/vello → /p/vello).")
    );
    let none = checks_path(dir, None, None, "/p");
    assert_eq!(none[1].value, "/home/me/.local/bin/vello not present");
}

#[test]
fn the_project() {
    let facts = ProjectFacts {
        profile: "/p/profile.toml".into(),
        profile_exists: true,
        system: "/p/system.toml".into(),
        system_exists: false,
        image: false,
    };
    let list = checks_project(Mode::Cpu, &facts);
    assert_eq!(list[0].status, Severity::Okay);
    assert_eq!(list[1].status, Severity::Warn);
    assert_eq!(list[1].value, "/p/system.toml");
    assert_eq!(list[2].value, "vello/llama-server-cpu:latest not built yet");
    let built = checks_project(Mode::Gpu, &ProjectFacts { image: true, ..facts });
    assert_eq!(built[2].value, "vello/llama-server-cuda:12.4 built");
    assert_eq!(image_tag(Mode::Gpu), "vello/llama-server-cuda:12.4");
}
