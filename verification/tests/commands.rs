use vello::binary32::Binary32;
use vello::catalog::{CatalogEntry, CatalogSource};
use vello::commands::{
    active_filename, apply_model, catalog_source, catalog_target, changes, check_clean,
    check_downloaded, choose_pick, cmd_active, cmd_apply, cmd_catalog_add, cmd_catalog_list, cmd_catalog_remove,
    cmd_info, cmd_install, cmd_list, cmd_nuke, cmd_profile_refresh, cmd_profile_show,
    cmd_recommend, cmd_remove, cmd_switch, cmd_update, consents, find_by_file,
    format_params, info_pick, install_notice, install_steps, list_rows, make_unlisted_model,
    no_catalogs, nuke_warning, on_disk_notice, pull_notice, pulled, remove_pick,
    removed_notice, round1, rows_with_tier, safe_char, sanitize, short_sha, size_gb, start_update, status_for,
    trim_b, unlisted_notice, up_to_date, AfterApply, Changes, InstallStep, ListFilters, ModelStatus, ProbedRow,
    ShownPick, ShownProfile, ShownRecommendation, UpdateAction, UpdateEvent, UpdateState,
};
use vello::fit::Pick;
use vello::profile::DetectedGpu;
use vello::resolver::Resolved;
use vello::schema::{
    Architecture, Mode, Model, ModelFields, ModelRuntime, Profile, QuantFiles, Target, Tier,
};
use vello::style::Style;

fn b(x: f32) -> Binary32 {
    Binary32::from_bits(x.to_bits())
}

fn f(x: Binary32) -> f32 {
    f32::from_bits(x.to_bits())
}

fn plain() -> Style {
    Style::new(false, false)
}

fn model(id: &str, params: f32) -> Model {
    let mut files = QuantFiles::new();
    files.insert("Q4_K_M".into(), format!("{id}-Q4.gguf"));
    files.insert("Q5_K_M".into(), format!("{id}-Q5.gguf"));
    Model::from_fields(ModelFields {
        id: id.into(),
        repo: "u/r".into(),
        default_quant: "Q4_K_M".into(),
        files,
        params_total_b: b(params),
        params_active_b: None,
        architecture: Architecture::Dense,
        modalities: None,
        targets: None,
        tags: Some(vec!["chat".into(), "tools".into()]),
        experimental: None,
        description: Some(format!("About {id}.\nSecond line.\n")),
        runtime: None,
    })
}

fn entries() -> Vec<CatalogEntry> {
    let mut cpu = model("tiny", 1.5);
    cpu.targets = vec![Target::Gpu, Target::Cpu];
    cpu.experimental = true;
    let mut vision = model("eye", 7.0);
    vision.modalities = vec!["text".into(), "image".into()];
    vision.tags = vec![];
    vec![
        CatalogEntry { model: model("mid", 7.6) },
        CatalogEntry { model: cpu },
        CatalogEntry { model: vision },
        CatalogEntry { model: model("huge", 300.0) },
    ]
}

fn profile(mode: Mode) -> Profile {
    Profile {
        mode,
        gpu_name: "card".into(),
        vram_gb: b(8.0),
        ram_gb: b(31.0),
        ..Profile::default()
    }
}

fn filters() -> ListFilters {
    ListFilters {
        tag: None,
        tier: None,
        modality: None,
        installed: false,
        all: false,
    }
}

fn ids(list: &[vello::commands::ListRow]) -> Vec<&str> {
    list.iter().map(|r| r.id.as_str()).collect()
}

fn shown(p: Pick) -> ShownPick {
    ShownPick {
        size: f(round1(p.size_gb)).to_string(),
        vram: f(round1(p.vram_need_gb)).to_string(),
        ram: f(round1(p.ram_need_gb)).to_string(),
        pick: p,
    }
}

#[test]
fn rounding_is_that_of_the_hardware() {
    for x in [0.0f32, 0.04, 0.05, 0.25, 5.32, 7.96, 31.249, -0.05, 1.0e30, f32::INFINITY] {
        assert_eq!(f(round1(b(x))), (x * 10.0).round() / 10.0, "{x}");
    }
    for n in [0u64, 4_680_000_000, 5_321_098_765, u64::MAX] {
        assert_eq!(f(size_gb(n)), ((n as f32 / 1e9) * 10.0).round() / 10.0);
    }
    for x in [7.0f32, 7.6, 0.5, 30.04, 30.06, 1.95, 0.04, 14.0, 235.0, -3.5] {
        let expected = if (x - x.round()).abs() < 0.05 {
            format!("{x:.0}")
        } else {
            format!("{x:.1}")
        };
        assert_eq!(trim_b(b(x)), expected, "{x}");
    }
}

#[test]
fn parameters() {
    let mut m = model("x", 30.0);
    assert_eq!(format_params(&m), "30B");
    m.params_active_b = Some(b(3.3));
    assert_eq!(format_params(&m), "3.3/30B");
}

#[test]
fn statuses() {
    assert_eq!(status_for("x", true, Some("x")), ModelStatus::Active);
    assert_eq!(status_for("x", false, Some("x")), ModelStatus::Active);
    assert_eq!(status_for("x", true, Some("y")), ModelStatus::Downloaded);
    assert_eq!(status_for("x", false, None), ModelStatus::NotInstalled);
    assert_eq!(ModelStatus::Active.render(&plain()), "● active");
    assert_eq!(ModelStatus::Downloaded.render(&plain()), "○ on disk");
    assert_eq!(ModelStatus::NotInstalled.render(&plain()), "· -");
    assert_eq!(active_filename(Some("A=1\nLLAMA_MODEL_FILE=\"x\"\n")).unwrap(), "x");
    assert!(active_filename(Some("A=1\n")).is_none());
    assert!(active_filename(None).is_none());
}

#[test]
fn what_is_listed() {
    let p = profile(Mode::Gpu);
    assert_eq!(ids(&list_rows(&entries(), &p, &filters())), ["mid", "tiny", "eye", "huge"]);
    let cpu = profile(Mode::Cpu);
    assert_eq!(ids(&list_rows(&entries(), &cpu, &filters())), ["tiny"]);
    let all = ListFilters { all: true, ..filters() };
    assert_eq!(list_rows(&entries(), &cpu, &all).len(), 4);
    let tag = ListFilters { tag: Some("tools".into()), ..filters() };
    assert_eq!(ids(&list_rows(&entries(), &p, &tag)), ["mid", "tiny", "huge"]);
    let modality = ListFilters { modality: Some("image".into()), ..filters() };
    assert_eq!(ids(&list_rows(&entries(), &p, &modality)), ["eye"]);
    let d = ListFilters { tier: Some("d".into()), ..filters() };
    assert_eq!(ids(&list_rows(&entries(), &p, &d)), ["huge"]);
    assert!(rows_with_tier(&entries(), &p, &filters(), Some("d")).is_empty());
    assert_eq!(ids(&rows_with_tier(&entries(), &p, &filters(), Some("D"))), ["huge"]);
}

#[test]
fn rows_of_the_list() {
    let rows = list_rows(&entries(), &profile(Mode::Gpu), &filters());
    assert_eq!((rows[0].tier, rows[0].quant.as_str()), (Tier::S, "Q5_K_M"));
    assert_eq!(rows[0].file, "mid-Q5.gguf");
    // What does not fit is listed with its default.
    assert_eq!((rows[3].tier, rows[3].quant.as_str()), (Tier::D, "Q4_K_M"));
    assert_eq!(rows[3].file, "huge-Q4.gguf");
    let mut odd = model("odd", 300.0);
    odd.default_quant = "Q9".into();
    let rows = list_rows(&vec![CatalogEntry { model: odd }], &profile(Mode::Gpu), &filters());
    assert_eq!(rows[0].file, "?");
}

#[test]
fn the_list_as_text() {
    let p = profile(Mode::Gpu);
    let probe = |installed: bool| {
        let rows: Vec<ProbedRow> = list_rows(&entries(), &p, &filters())
            .into_iter()
            .map(|row| ProbedRow {
                on_disk: row.id == "eye",
                row,
            })
            .collect();
        let f = ListFilters { installed, ..filters() };
        cmd_list(&rows, Some("mid-Q5.gguf"), &p, "8", "31", &f, &plain())
    };
    let head = "Profile: card    → 8 GB VRAM, 31 GB RAM    Mode: gpu\n\n\
                TIER   ID                             PARAMS QUANT    STATUS   TAGS\n";
    let mid = format!("[S]    {:30} 7.6B   Q5_K_M   {:17} chat,tools\n", "mid", "● active");
    let tiny = format!("[S]    {:30} 1.5B   Q5_K_M   {:17} chat,tools exp\n", "tiny", "· -");
    let eye = format!("[S]    {:30} 7B     Q5_K_M   {:17} \n", "eye", "○ on disk");
    let huge = format!("[D]    {:30} 300B   Q4_K_M   {:17} chat,tools\n", "huge", "· -");
    let legend = "\nTier legend:  S=fits VRAM  A=light overflow  B=MoE/offload  C=slow  D=won't fit\n";
    assert_eq!(probe(false), format!("{head}{mid}{tiny}{eye}{huge}{legend}"));
    // The active model is not on disk, so it is not installed.
    assert_eq!(probe(true), format!("{head}{eye}{legend}"));
}

#[test]
fn the_list_in_cpu_mode() {
    let p = profile(Mode::Cpu);
    let text = cmd_list(&vec![], None, &p, "0", "31", &filters(), &plain());
    assert!(text.starts_with(
        "Profile: card    → 0 GB VRAM, 31 GB RAM    Mode: cpu\n  \
         CPU mode: showing models tagged for CPU (use --all to also show gpu-only entries)\n\nTIER"
    ));
    assert!(text.ends_with(
        "\nTier legend:  S=small dense or MoE, fast  A=small but tight  B=7-8B, usable  C=≤14B, slow  D=won't fit / gpu-only\n"
    ));
    let all = ListFilters { all: true, ..filters() };
    let text = cmd_list(&vec![], None, &p, "0", "31", &all, &plain());
    assert!(!text.contains("--all"));
    assert_eq!(
        no_catalogs("/p/default.toml", &plain()),
        "No catalogs loaded. Expected default at /p/default.toml"
    );
}

#[test]
fn colored_columns_count_their_escapes() {
    let st = Style::new(true, false);
    let p = profile(Mode::Gpu);
    let text = cmd_list(&vec![], None, &p, "8", "31", &filters(), &st);
    assert!(text.contains("\x1b[1mTIER\x1b[0m \x1b[1mID\x1b[0m                     \x1b[1mPARAMS"));
}

#[test]
fn choosing_a_quantization() {
    let p = profile(Mode::Gpu);
    let m = model("mid", 7.6);
    assert_eq!(choose_pick("mid", &m, &p, None).unwrap().quant, "Q5_K_M");
    assert_eq!(choose_pick("mid", &m, &p, Some("Q4_K_M")).unwrap().quant, "Q4_K_M");
    assert_eq!(
        choose_pick("mid", &m, &p, Some("Q9")).unwrap_err(),
        "model 'mid' has no quant 'Q9'. Available: Q4_K_M, Q5_K_M"
    );
    assert_eq!(
        choose_pick("huge", &model("huge", 300.0), &p, None).unwrap_err(),
        "'huge' won't fit on your hardware"
    );
    assert!(info_pick("huge", &model("huge", 300.0), &p, None).unwrap().is_none());
    assert_eq!(
        info_pick("mid", &m, &p, Some("Q9")).unwrap_err(),
        "model 'mid' has no quant 'Q9'. Available: Q4_K_M, Q5_K_M"
    );
}

#[test]
fn all_about_a_model() {
    let p = profile(Mode::Gpu);
    let mut m = model("mid", 7.6);
    m.experimental = true;
    m.runtime = ModelRuntime {
        ctx_default: Some(16384),
        ngl: Some(20),
        mmproj: Some("mm.gguf".into()),
        extra_args: vec!["--a".into(), "1".into()],
        ..ModelRuntime::default()
    };
    let pick = info_pick("mid", &m, &p, None).unwrap().unwrap();
    let text = cmd_info(&m, &Some(shown(pick)), ModelStatus::Downloaded, &plain());
    assert_eq!(
        text,
        "mid\nAbout mid.\nSecond line.\n\n  \
         arch:          dense 7.6B\n  \
         modalities:    text\n  \
         tags:          chat, tools\n  \
         ctx:           16384\n  \
         ngl:           20\n  \
         extra:         --a 1\n  \
         mmproj:        mm.gguf\n  \
         repo:          u/r\n  \
         quants:        Q4_K_M, Q5_K_M\n  \
         status:        experimental\n\n\
         For your hardware:\n  \
         Tier:              [S]\n  \
         Auto-pick quant:   Q5_K_M\n  \
         Estimated size:    ~5.3 GB\n  \
         Memory need:       5.3 GB VRAM + 0 GB RAM\n  \
         File:              mid-Q5.gguf\n\n  \
         Local status:      ○ on disk\n\n  \
         Install:  vello install mid\n"
    );
}

#[test]
fn about_a_model_that_does_not_fit() {
    let mut m = model("huge", 300.0);
    m.description = String::new();
    m.tags = vec![];
    m.architecture = Architecture::Moe;
    m.params_active_b = Some(b(22.0));
    m.runtime.ngl = Some(99);
    let text = cmd_info(&m, &None, ModelStatus::NotInstalled, &plain());
    assert_eq!(
        text,
        "huge\n\n  \
         arch:          MoE 300B total / 22B active\n  \
         modalities:    text\n  \
         repo:          u/r\n  \
         quants:        Q4_K_M, Q5_K_M\n\n\
         This model won't fit on your hardware (Tier D)\n"
    );
}

#[test]
fn recommendations_as_text() {
    let p = profile(Mode::Gpu);
    let m = model("mid", 7.6);
    let pick = choose_pick("mid", &m, &p, None).unwrap();
    let mut bare = model("bare", 7.6);
    bare.description = String::new();
    bare.experimental = true;
    let second = choose_pick("bare", &bare, &p, Some("Q4_K_M")).unwrap();
    let list = vec![
        ShownRecommendation { model: &m, shown: shown(pick) },
        ShownRecommendation { model: &bare, shown: shown(second) },
    ];
    assert_eq!(
        cmd_recommend("chat", &list, &plain()),
        "Recommendations for \"chat\"\n\n  \
         1. [S] mid  7.6B\n     About mid.\n     quant Q5_K_M · ~5.3 GB · 5.3 VRAM + 0 RAM\n     vello install mid\n\n  \
         2. [S] bare  7.6B exp\n     quant Q4_K_M · ~4.5 GB · 4.5 VRAM + 0 RAM\n     vello install bare\n\n"
    );
    assert_eq!(
        cmd_recommend("zzz", &vec![], &plain()),
        "No models matched 'zzz' for your hardware.\n\
         Tip: try `vello list` to see what fits, or use simpler keywords (chat, code, vision).\n"
    );
}

#[test]
fn installing() {
    let p = profile(Mode::Gpu);
    let plan = cmd_install(&entries(), &p, "mid", None).unwrap();
    assert_eq!((plan.model.id.as_str(), plan.pick.quant.as_str()), ("mid", "Q5_K_M"));
    assert_eq!(
        install_notice(&plan, false, "5.3", &plain()),
        "Installing mid [Q5_K_M (auto-pick)] ~5.3 GB\n"
    );
    let plan = cmd_install(&entries(), &p, "huge", Some("Q4_K_M")).unwrap();
    assert_eq!(
        install_notice(&plan, true, "177", &plain()),
        "Installing huge [Q4_K_M (explicit)] ~177 GB\n  warn: tier D — this quant fits poorly on your hardware\n"
    );
    let plan = cmd_install(&entries(), &p, "tiny", None).unwrap();
    assert!(install_notice(&plan, false, "1.1", &plain())
        .ends_with("  warn: experimental — llama.cpp support may be incomplete or buggy\n"));
}

#[test]
fn what_is_not_installed() {
    let gpu = profile(Mode::Gpu);
    let err = |p: &Profile, id: &str, q: Option<&str>| cmd_install(&entries(), p, id, q).unwrap_err();
    assert_eq!(err(&gpu, "zzz", None), "model 'zzz' not in any catalog");
    assert_eq!(err(&gpu, "huge", None), "'huge' won't fit on your hardware");
    assert_eq!(
        err(&gpu, "mid", Some("Q9")),
        "model 'mid' has no quant 'Q9'. Available: Q4_K_M, Q5_K_M"
    );
    assert_eq!(
        err(&profile(Mode::Cpu), "mid", None),
        "'mid' isn't tagged for cpu mode (targets = [Gpu]). Either pick another model from \
         `vello list` or switch modes with `vello doctor --gpu`."
    );
    let mut both = model("both", 7.0);
    both.targets = vec![];
    let none = cmd_install(&vec![CatalogEntry { model: both }], &gpu, "both", None).unwrap_err();
    assert!(none.contains("(targets = [])"), "{none}");
}

#[test]
fn notices_of_files() {
    let plan = cmd_install(&entries(), &profile(Mode::Gpu), "mid", None).unwrap();
    assert_eq!(on_disk_notice("x.gguf", &plain()), "  · already on disk: x.gguf");
    assert_eq!(pull_notice(&plan, "mid-Q5.gguf", &plain()), "  → pulling mid-Q5.gguf");
    assert_eq!(
        pull_notice(&plan, "m.gguf", &plain()),
        "  → pulling mmproj for vision: m.gguf"
    );
    assert_eq!(removed_notice("x.gguf", &plain()), "ok removed x.gguf");
}

#[test]
fn steps_of_an_installation() {
    let mut plan = cmd_install(&entries(), &profile(Mode::Gpu), "mid", None).unwrap();
    let show = |steps: Vec<InstallStep>| -> Vec<String> {
        steps
            .iter()
            .map(|s| match s {
                InstallStep::Pull { file } => format!("pull {file}"),
                InstallStep::Apply { file } => format!("apply {file}"),
            })
            .collect()
    };
    let file = "mid-Q5.gguf";
    assert_eq!(
        show(install_steps(&plan, false, false, false)),
        [format!("pull {file}"), format!("apply {file}")]
    );
    assert_eq!(show(install_steps(&plan, true, false, false)), [format!("apply {file}")]);
    assert!(install_steps(&plan, true, false, true).is_empty());
    plan.model.runtime.mmproj = Some("eye.gguf".into());
    assert_eq!(
        show(install_steps(&plan, false, false, false)),
        [format!("pull {file}"), "pull eye.gguf".to_string(), format!("apply {file}")]
    );
    assert_eq!(
        show(install_steps(&plan, false, false, true)),
        [format!("pull {file}"), "pull eye.gguf".to_string()]
    );
    assert_eq!(show(install_steps(&plan, true, false, true)), ["pull eye.gguf"]);
    assert!(install_steps(&plan, true, true, true).is_empty());
    // One file is pulled once.
    plan.model.runtime.mmproj = Some(file.into());
    assert_eq!(show(install_steps(&plan, false, false, true)), [format!("pull {file}")]);
}

#[test]
fn switching() {
    let p = profile(Mode::Cpu);
    // A model that is not meant for the mode can still be switched to.
    let plan = cmd_switch(&entries(), &p, "mid", Some("Q4_K_M")).unwrap();
    assert_eq!(plan.pick.file, "mid-Q4.gguf");
    assert_eq!(
        cmd_switch(&entries(), &p, "zzz", None).unwrap_err(),
        "model 'zzz' not in any catalog"
    );
    assert_eq!(
        check_downloaded("mid", "Q4_K_M", Some("Q4_K_M"), false).unwrap_err(),
        "'mid' (Q4_K_M) is not downloaded. Run: vello install mid --quant Q4_K_M"
    );
    assert_eq!(
        check_downloaded("mid", "Q5_K_M", None, false).unwrap_err(),
        "'mid' (Q5_K_M) is not downloaded. Run: vello install mid"
    );
    assert!(check_downloaded("mid", "Q5_K_M", None, true).is_ok());
}

#[test]
fn applying_the_active_model() {
    let plan = cmd_apply(&entries(), Some("tiny-Q4.gguf")).unwrap();
    assert!(plan.listed);
    assert_eq!(plan.model.id, "tiny");
    let plan = cmd_apply(&entries(), Some("mine.gguf.gguf")).unwrap();
    assert!(!plan.listed);
    assert_eq!(plan.model.id, "mine");
    assert_eq!(plan.model.files.get("?").unwrap(), "mine.gguf.gguf");
    assert_eq!(plan.model.targets, [Target::Gpu, Target::Cpu]);
    assert_eq!(
        cmd_apply(&entries(), None).unwrap_err(),
        "no active model in .env. Use `vello switch <id>` first"
    );
    assert_eq!(
        unlisted_notice("mine.gguf", &plain()),
        "warn: active file 'mine.gguf' not in any catalog — applying system defaults only"
    );
    assert_eq!(find_by_file(&entries(), "eye-Q5.gguf").unwrap().model.id, "eye");
    assert!(find_by_file(&entries(), "eye").is_none());
    assert_eq!(make_unlisted_model("plain").id, "plain");
}

fn resolved() -> Resolved {
    Resolved {
        llama_port: 8080,
        webui_port: 3000,
        webui_auth: false,
        model_file: "x.gguf".into(),
        model_alias: "x-local".into(),
        ctx: 4096,
        ngl: 99,
        threads: 6,
        batch: 1024,
        ubatch: 256,
        kv_cache_k: "q8_0".into(),
        kv_cache_v: "q8_0".into(),
        flash_attn: true,
        mmproj: String::new(),
        extra_args: String::new(),
        mode: Mode::Gpu,
    }
}

#[test]
fn after_an_env_was_written() {
    let mut r = resolved();
    let (next, text) = apply_model("x", &r, false, true, &plain());
    assert_eq!(next, AfterApply::Nothing);
    assert_eq!(text, "applied x (4096 ctx, ngl 99)\n");
    r.mmproj = "m.gguf".into();
    r.extra_args = "--mmproj /models/m.gguf".into();
    let (next, text) = apply_model("x", &r, true, true, &plain());
    assert_eq!(next, AfterApply::Restart);
    assert_eq!(
        text,
        "applied x (4096 ctx, ngl 99, extras: --mmproj /models/m.gguf)\n  mmproj: m.gguf\n  restarting stack...\n"
    );
    let (next, text) = apply_model("x", &resolved(), true, false, &plain());
    assert_eq!(next, AfterApply::NotRunning);
    assert!(text.ends_with("  stack not running — bring it up with: vello up\n"));
}

#[test]
fn removing_everything() {
    assert!(nuke_warning(&plain()).starts_with("This will remove containers"));
    assert!(cmd_nuke(None));
    assert!(cmd_nuke(Some(" YES\n")));
    assert!(cmd_nuke(Some("Y")));
    assert!(!cmd_nuke(Some("\n")));
    assert!(!cmd_nuke(Some("no")));
    assert!(consents("yes") && consents("y"));
    assert!(!consents("Y"));
}

#[test]
fn removing_a_model() {
    let p = profile(Mode::Gpu);
    assert_eq!(remove_pick(&entries(), &p, "mid").unwrap(), "mid-Q5.gguf");
    assert_eq!(
        remove_pick(&entries(), &p, "huge").unwrap_err(),
        "'huge' has no installable quant"
    );
    assert_eq!(
        remove_pick(&entries(), &p, "zzz").unwrap_err(),
        "model 'zzz' not in any catalog"
    );
    let target = "/p/models/mid-Q5.gguf";
    assert!(cmd_remove("mid", "mid-Q5.gguf", target, true, Some("other")).is_ok());
    assert!(cmd_remove("mid", "mid-Q5.gguf", target, true, None).is_ok());
    assert_eq!(
        cmd_remove("mid", "mid-Q5.gguf", target, false, None).unwrap_err(),
        "not on disk: /p/models/mid-Q5.gguf"
    );
    assert_eq!(
        cmd_remove("mid", "mid-Q5.gguf", target, true, Some("mid-Q5.gguf")).unwrap_err(),
        "'mid' is the active model. Switch first: vello switch <other>"
    );
}

#[test]
fn the_active_model_as_text() {
    assert_eq!(cmd_active(None, None, None, &plain()), "No active model set.\n");
    assert_eq!(
        cmd_active(Some("x.gguf"), Some("x-local"), Some("4.7"), &plain()),
        "Active model file: x.gguf\n  model: x-local\n  size: 4.7 GB\n"
    );
    assert_eq!(
        cmd_active(Some("x.gguf"), None, None, &plain()),
        "Active model file: x.gguf\n"
    );
}

#[test]
fn catalogs_as_text() {
    let sources = vec![
        CatalogSource {
            name: "default".into(),
            path: "/p/default.toml".into(),
            maintainer: "team".into(),
            model_count: 29,
        },
        CatalogSource {
            name: "mine".into(),
            path: "/p/user/mine.toml".into(),
            maintainer: String::new(),
            model_count: 1,
        },
    ];
    assert_eq!(
        cmd_catalog_list(&sources, &plain()),
        "Loaded catalogs:\n  · default by team (29 models)  /p/default.toml\n  · mine  (1 models)  /p/user/mine.toml\n"
    );
}

#[test]
fn names_of_catalog_files() {
    assert_eq!(sanitize("My Catalog/2.0_x-é"), "My-Catalog-2-0_x-é");
    assert_eq!(sanitize(&sanitize("a/b c")), sanitize("a/b c"));
    assert_eq!(safe_char('é', true), 'é');
    assert_eq!(safe_char('é', false), '-');
    assert_eq!(safe_char('_', false), '_');
    assert_eq!(catalog_target("/p/user", "my cat"), "/p/user/my-cat.toml");
}

#[test]
fn adding_and_removing_catalogs() {
    assert!(catalog_source("x.toml", true, true).is_ok());
    assert_eq!(catalog_source("x", true, false).unwrap_err(), "not a file: x");
    assert_eq!(
        catalog_source("https://x", false, false).unwrap_err(),
        "remote catalogs (URLs) are not supported yet — copy the .toml locally and run again with the path"
    );
    assert_eq!(
        cmd_catalog_add("mine", 3, "/p/mine.toml", false, &plain()).unwrap(),
        "added mine (3 models) → /p/mine.toml"
    );
    assert_eq!(
        cmd_catalog_add("mine", 3, "/p/mine.toml", true, &plain()).unwrap_err(),
        "catalog 'mine' already installed at /p/mine.toml. Remove first."
    );
    assert_eq!(
        cmd_catalog_remove("mine", "/p/mine.toml", true, &plain()).unwrap(),
        "removed /p/mine.toml"
    );
    assert_eq!(
        cmd_catalog_remove("mine", "/p/mine.toml", false, &plain()).unwrap_err(),
        "no user catalog named 'mine'"
    );
}

#[test]
fn the_profile_as_text() {
    let s = ShownProfile {
        vram: "8".into(),
        ram: "31.2".into(),
        vram_reserve: "1".into(),
        ram_reserve: "4".into(),
    };
    let mut p = profile(Mode::Gpu);
    p.cuda_arch = Some(89);
    assert_eq!(
        cmd_profile_show(&p, &s, &plain()),
        "Hardware profile\n  GPU:           card\n  CUDA arch:     89\n  VRAM:          8 GB\n  \
         RAM:           31.2 GB\n  VRAM reserve:  1 GB\n  RAM reserve:   4 GB\n  Default ctx:   32768\n"
    );
    p.cuda_arch = None;
    assert!(!cmd_profile_show(&p, &s, &plain()).contains("CUDA"));
    let fresh = cmd_profile_refresh(
        Some(DetectedGpu {
            mib: b(8192.0),
            name: "new".into(),
            arch: None,
        }),
        None,
    );
    assert_eq!((f(fresh.vram_gb), fresh.gpu_name.as_str()), (8.0, "new"));
    assert_eq!(fresh.mode, Mode::Gpu);
}

#[test]
fn a_clean_working_tree() {
    assert!(check_clean("", false, &plain()).is_ok());
    assert!(check_clean(" M x\n", true, &plain()).is_ok());
    assert_eq!(
        check_clean(" M x\n?? y\n", false, &plain()).unwrap_err(),
        "uncommitted changes in working tree:\n   M x\n  ?? y\n"
    );
    let many: String = (0..12).map(|i| format!("?? {i}\n")).collect();
    assert_eq!(check_clean(&many, false, &plain()).unwrap_err().lines().count(), 11);
}

#[test]
fn what_an_update_changed() {
    let none = Changes { cli: false, docker: false, catalog: false };
    assert_eq!(changes(""), (none, 0));
    assert_eq!(changes("README.md\nvello\n"), (none, 2));
    for f in ["vello-cli/src/main.rs", "Cargo.toml", "Cargo.lock"] {
        assert_eq!(changes(f).0, Changes { cli: true, ..none }, "{f}");
    }
    for f in ["docker/Dockerfile", "docker-compose.yml"] {
        assert_eq!(changes(f).0, Changes { docker: true, ..none }, "{f}");
    }
    assert_eq!(changes("catalogs/default.toml\n").0, Changes { catalog: true, ..none });
}

#[test]
fn an_update_as_text() {
    assert_eq!(short_sha("0123456789abcdef"), "0123456");
    assert_eq!(short_sha("012"), "012");
    assert_eq!(up_to_date("0123456789", &plain()), "✓ already up to date (0123456)");
    assert_eq!(
        pulled("aaaaaaaaaa", "bbbbbbbbbb", 3, &plain()),
        "pulled aaaaaaa → bbbbbbb (3 files changed)"
    );
}

fn printed(out: &str) -> UpdateEvent {
    UpdateEvent::Printed { out: out.into() }
}

fn failed() -> UpdateEvent {
    UpdateEvent::Failed { out: String::new() }
}

/// What an update does, one line per action, until it ends or the events do.
fn update(force: bool, events: Vec<UpdateEvent>) -> Vec<String> {
    fn shown(a: &UpdateAction) -> String {
        match a {
            UpdateAction::Run { notice, program, args, captured } => {
                format!("{notice}{program} {} {captured}", args.join(" "))
            }
            UpdateAction::Refuse { notes, message } => format!("{notes}error: {message}"),
            UpdateAction::Done { text } => text.clone(),
        }
    }
    let (mut state, action) = start_update("/p", true);
    let mut log = vec![shown(&action)];
    for e in events {
        let (next, action) = cmd_update(&state, e, force, &plain());
        log.push(shown(&action));
        state = next;
    }
    log
}

const STATUS: &str = "git status --porcelain true";
const HEAD: &str = "git rev-parse HEAD true";
const PULL: &str = "→ pulling latest...\ngit pull --ff-only false";

#[test]
fn an_update_that_builds() {
    let log = update(
        false,
        vec![
            printed(""),
            printed("aaaaaaaaa\n"),
            printed(""),
            printed("bbbbbbbbb\n"),
            printed("vello-cli/src/main.rs\ndocker-compose.yml\ncatalogs/default.toml\n"),
            printed(""),
        ],
    );
    assert_eq!(
        log,
        [
            STATUS,
            HEAD,
            PULL,
            HEAD,
            "git diff --name-only aaaaaaaaa bbbbbbbbb true",
            "pulled aaaaaaa → bbbbbbb (3 files changed)\n→ rebuilding vello binary...\n\
             cargo build --release --manifest-path vello-cli/Cargo.toml false",
            "✓ vello rebuilt\n\nnext steps:\n  ! docker/ or compose changed — rebuild image: \
             ./vello build\n    then restart: ./vello restart\n  · catalog updated — see new \
             entries: ./vello list\n  ✓ models, configs, and Open WebUI data are untouched\n",
        ]
    );
}

#[test]
fn an_update_that_does_not_build() {
    let heads = |a: &str, b: &str| vec![printed(" M x\n"), printed(a), printed(""), printed(b)];
    let log = update(true, heads("aaaaaaaaa", "aaaaaaaaa\n"));
    assert_eq!(log[4], "✓ already up to date (aaaaaaa)\n");
    let mut events = heads("a", "b");
    events.push(printed("README.md\n"));
    let log = update(true, events);
    assert_eq!(
        log[5],
        "pulled a → b (1 files changed)\n  · no Rust changes — binary not rebuilt\n\nnext steps:\n  \
         · restart only if you want to pick up new defaults: ./vello restart\n  \
         ✓ models, configs, and Open WebUI data are untouched\n"
    );
    // git may fail to tell what was changed.
    let mut events = heads("a", "b");
    events.push(failed());
    assert!(update(true, events)[5].starts_with("pulled a → b (0 files changed)\n"));
}

#[test]
fn updates_that_are_refused() {
    let (state, action) = start_update("/p", false);
    assert!(matches!(state, UpdateState::Refused));
    assert!(matches!(action, UpdateAction::Refuse { message, .. }
        if message == "/p is not a git checkout — `vello update` only works on a git clone"));

    assert_eq!(
        update(false, vec![printed(" M x\n"), printed("a")]),
        [
            STATUS,
            "uncommitted changes in working tree:\n   M x\nerror: commit/stash your changes \
             first, or re-run with --force to attempt the pull anyway",
            "error: the update has ended",
        ]
    );
    let messages: [(&str, &str); 6] = [
        ("running `git status` — is git installed?", "git status failed"),
        ("git rev-parse HEAD", "git rev-parse failed"),
        (
            "running `git pull`",
            "git pull failed — resolve manually then re-run `vello update`",
        ),
        ("git rev-parse HEAD", "git rev-parse failed"),
        ("running `git diff`", ""),
        (
            "running `cargo build` — is the Rust toolchain installed?",
            "cargo build failed — fix errors above and re-run `vello update`",
        ),
    ];
    let outs = ["", "a", "", "b", "Cargo.lock\n"];
    for (n, (missing, wrong)) in messages.iter().enumerate() {
        let before = || -> Vec<UpdateEvent> { outs[..n].iter().map(|o| printed(o)).collect() };
        let mut events = before();
        events.push(UpdateEvent::NotStarted);
        assert_eq!(update(false, events)[n + 1], format!("error: {missing}"));
        if !wrong.is_empty() {
            let mut events = before();
            events.push(failed());
            assert_eq!(update(false, events)[n + 1], format!("error: {wrong}"));
        }
    }
}
