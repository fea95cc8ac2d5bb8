use vello::binary32::Binary32;
use vello::schema::{
    default_ctx, default_mode, default_modalities, default_ram_reserve, default_targets,
    default_vram_reserve, Architecture, Mode, Model, ModelFields, ModelRuntime, Profile,
    ProfileFields, QuantFiles, Target, Tier,
};

fn b(x: f32) -> Binary32 {
    Binary32::from_bits(x.to_bits())
}

fn f(x: Binary32) -> f32 {
    f32::from_bits(x.to_bits())
}

fn sample_model(targets: Vec<Target>) -> Model {
    let mut files = QuantFiles::new();
    files.insert("Q4_K_M".into(), "x.gguf".into());
    Model {
        id: "x".into(),
        repo: "r".into(),
        default_quant: "Q4_K_M".into(),
        files,
        params_total_b: b(7.0),
        params_active_b: None,
        architecture: Architecture::Dense,
        modalities: vec!["text".into()],
        targets,
        tags: vec![],
        experimental: false,
        description: String::new(),
        runtime: ModelRuntime::default(),
    }
}

#[test]
fn model_supports_returns_true_when_target_listed() {
    let m = sample_model(vec![Target::Gpu, Target::Cpu]);
    assert!(m.supports(Target::Gpu));
    assert!(m.supports(Target::Cpu));
}

#[test]
fn model_supports_returns_false_when_target_absent() {
    let m = sample_model(vec![Target::Gpu]);
    assert!(m.supports(Target::Gpu));
    assert!(!m.supports(Target::Cpu));
}

#[test]
fn mode_as_target_maps_correctly() {
    assert_eq!(Mode::Gpu.as_target(), Target::Gpu);
    assert_eq!(Mode::Cpu.as_target(), Target::Cpu);
}

#[test]
fn default_targets_is_gpu_only_for_back_compat() {
    assert_eq!(default_targets(), vec![Target::Gpu]);
}

#[test]
fn default_mode_is_gpu_for_back_compat() {
    assert_eq!(default_mode(), Mode::Gpu);
}

fn float(t: &toml::Table, key: &str) -> Option<Binary32> {
    t.get(key).map(|v| b(v.as_float().unwrap() as f32))
}

fn text(t: &toml::Table, key: &str) -> Option<String> {
    t.get(key).map(|v| v.as_str().unwrap().to_string())
}

#[test]
fn profile_without_mode_field_loads_as_gpu() {
    let raw = "vram_gb = 8.0\nram_gb = 16.0\n";
    let t: toml::Table = raw.parse().unwrap();
    let p = Profile::from_fields(ProfileFields {
        vram_gb: float(&t, "vram_gb").unwrap(),
        ram_gb: float(&t, "ram_gb").unwrap(),
        gpu_name: text(&t, "gpu_name"),
        cuda_arch: None,
        vram_reserve_gb: float(&t, "vram_reserve_gb"),
        ram_reserve_gb: float(&t, "ram_reserve_gb"),
        default_ctx: None,
        mode: t.get("mode").map(|_| Mode::Cpu),
    });
    assert_eq!(p.mode, Mode::Gpu);
    assert_eq!(f(p.vram_gb), 8.0);
    assert_eq!(f(p.ram_gb), 16.0);
    assert_eq!(f(p.vram_reserve_gb), 1.0);
    assert_eq!(f(p.ram_reserve_gb), 4.0);
    assert_eq!(p.default_ctx, 32768);
    assert_eq!(p.gpu_name, "");
}

#[test]
fn model_without_targets_field_loads_as_gpu_only() {
    let raw = r#"
id = "x"
repo = "r"
default_quant = "Q4_K_M"
params_total_b = 7.0
architecture = "dense"
[files]
Q4_K_M = "x.gguf"
"#;
    let t: toml::Table = raw.parse().unwrap();
    let mut files = QuantFiles::new();
    for (k, v) in t["files"].as_table().unwrap() {
        files.insert(k.clone(), v.as_str().unwrap().to_string());
    }
    assert_eq!(t["architecture"].as_str(), Some("dense"));
    let m = Model::from_fields(ModelFields {
        id: text(&t, "id").unwrap(),
        repo: text(&t, "repo").unwrap(),
        default_quant: text(&t, "default_quant").unwrap(),
        files,
        params_total_b: float(&t, "params_total_b").unwrap(),
        params_active_b: float(&t, "params_active_b"),
        architecture: Architecture::Dense,
        modalities: None,
        targets: t.get("targets").map(|_| vec![Target::Cpu]),
        tags: None,
        experimental: None,
        description: text(&t, "description"),
        runtime: None,
    });
    assert_eq!(m.targets, vec![Target::Gpu]);
    assert_eq!(m.modalities, ["text"]);
    assert!(m.tags.is_empty());
    assert!(!m.experimental);
    assert_eq!(m.files.get("Q4_K_M").unwrap(), "x.gguf");
}

#[test]
fn tier_factor_orders_correctly() {
    assert!(f(Tier::S.factor()) > f(Tier::A.factor()));
    assert!(f(Tier::A.factor()) > f(Tier::B.factor()));
    assert!(f(Tier::B.factor()) > f(Tier::C.factor()));
    assert!(f(Tier::C.factor()) > f(Tier::D.factor()));
}

#[test]
fn tier_labels_and_factors() {
    let all = [
        (Tier::S, "S", 1.0f32),
        (Tier::A, "A", 0.85),
        (Tier::B, "B", 0.55),
        (Tier::C, "C", 0.20),
        (Tier::D, "D", 0.0),
    ];
    for (t, label, factor) in all {
        assert_eq!(t.label(), label);
        assert_eq!(f(t.factor()), factor);
    }
}

#[test]
fn mode_labels() {
    assert_eq!(Mode::Gpu.label(), "gpu");
    assert_eq!(Mode::Cpu.label(), "cpu");
    assert_eq!(Mode::Gpu.other(), Mode::Cpu);
    assert_eq!(Mode::Cpu.other(), Mode::Gpu);
}

#[test]
fn stock_values() {
    assert_eq!(f(default_vram_reserve()), 1.0);
    assert_eq!(f(default_ram_reserve()), 4.0);
    assert_eq!(default_ctx(), 32768);
    assert_eq!(default_modalities(), ["text"]);
    let p = Profile::default();
    assert_eq!(f(p.vram_gb), 8.0);
    assert_eq!(f(p.ram_gb), 16.0);
    assert_eq!(p.cuda_arch, None);
}

#[test]
fn another_mode_changes_nothing_else() {
    let p = Profile {
        gpu_name: "card".into(),
        ..Profile::default()
    };
    let q = p.with_mode(Mode::Cpu);
    assert_eq!(q.mode, Mode::Cpu);
    assert_eq!(q.gpu_name, "card");
    assert_eq!(f(q.vram_gb), f(p.vram_gb));
}

#[test]
fn files_are_kept_by_name_in_order() {
    let mut files = QuantFiles::new();
    assert_eq!(files.len(), 0);
    files.insert("Q5_K_M".into(), "five.gguf".into());
    files.insert("IQ3_M".into(), "three.gguf".into());
    files.insert("Q4_K_M".into(), "four.gguf".into());
    files.insert("Q5_K_M".into(), "fifth.gguf".into());
    assert_eq!(files.len(), 3);
    assert_eq!(files.keys(), ["IQ3_M", "Q4_K_M", "Q5_K_M"]);
    assert_eq!(files.get("Q5_K_M").unwrap(), "fifth.gguf");
    assert!(files.get("Q6_K").is_none());
    assert!(files.contains_key("IQ3_M"));
    assert!(!files.contains_key("iq3_m"));
    assert!(files.has_file("four.gguf"));
    assert!(!files.has_file("five.gguf"));
    assert_eq!(files.clone().keys(), files.keys());
}

#[test]
fn a_profile_is_read_back_from_its_fields() {
    let p = Profile {
        vram_gb: Binary32::ratio(24, 1),
        gpu_name: "card".into(),
        cuda_arch: Some(89),
        vram_reserve_gb: Binary32::ratio(2, 1),
        default_ctx: 4096,
        mode: Mode::Cpu,
        ..Profile::default()
    };
    let f = p.to_fields();
    assert!(f.gpu_name.is_some() && f.ram_reserve_gb.is_some() && f.mode.is_some());
    let q = Profile::from_fields(f);
    assert_eq!(q.vram_gb.to_bits(), p.vram_gb.to_bits());
    assert_eq!(q.ram_gb.to_bits(), p.ram_gb.to_bits());
    assert_eq!(q.vram_reserve_gb.to_bits(), p.vram_reserve_gb.to_bits());
    assert_eq!(q.ram_reserve_gb.to_bits(), p.ram_reserve_gb.to_bits());
    assert_eq!((q.gpu_name, q.cuda_arch), ("card".to_string(), Some(89)));
    assert_eq!((q.default_ctx, q.mode), (4096, Mode::Cpu));
}
