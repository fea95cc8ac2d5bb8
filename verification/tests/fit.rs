use vello::binary32::Binary32;
use vello::fit::{
    bytes_per_param, forced_tier, pick, pick_explicit, quant_file_size_gb, Strategy,
};
use vello::schema::{
    Architecture, Mode, Model, ModelRuntime, Profile, QuantFiles, Target, Tier,
};

fn b(x: f32) -> Binary32 {
    Binary32::from_bits(x.to_bits())
}

fn f(x: Binary32) -> f32 {
    f32::from_bits(x.to_bits())
}

fn dense_model(id: &str, params_b: f32, quants: &[&str]) -> Model {
    let mut files = QuantFiles::new();
    for q in quants {
        files.insert((*q).to_string(), format!("{id}-{q}.gguf"));
    }
    Model {
        id: id.into(),
        repo: "test/repo".into(),
        default_quant: quants[0].into(),
        files,
        params_total_b: b(params_b),
        params_active_b: None,
        architecture: Architecture::Dense,
        modalities: vec!["text".into()],
        targets: vec![Target::Gpu],
        tags: vec![],
        experimental: false,
        description: String::new(),
        runtime: ModelRuntime::default(),
    }
}

fn moe_model(id: &str, total_b: f32, active_b: f32) -> Model {
    let mut m = dense_model(id, total_b, &["Q5_K_M", "Q4_K_M"]);
    m.architecture = Architecture::Moe;
    m.params_active_b = Some(b(active_b));
    m
}

fn rtx_4060_profile() -> Profile {
    Profile {
        vram_gb: b(8.0),
        ram_gb: b(31.0),
        ..Profile::default()
    }
}

#[test]
fn pick_explicit_returns_none_for_unknown_quant() {
    let m = dense_model("x", 7.0, &["Q5_K_M"]);
    let p = rtx_4060_profile();
    assert!(pick_explicit(&m, &p, "Q9_K_NOPE").is_none());
}

#[test]
fn pick_explicit_returns_some_for_known_quant() {
    let m = dense_model("x", 7.0, &["Q5_K_M", "Q4_K_M"]);
    let p = rtx_4060_profile();
    let pick = pick_explicit(&m, &p, "Q4_K_M").unwrap();
    assert_eq!(pick.quant, "Q4_K_M");
    assert_eq!(pick.file, "x-Q4_K_M.gguf");
}

#[test]
fn dense_7b_q5_fits_vram_tier_s() {
    let m = dense_model("qwen", 7.6, &["Q5_K_M", "Q4_K_M"]);
    let p = rtx_4060_profile();
    let pick = pick(&m, &p, Strategy::Balanced).unwrap();
    assert_eq!(pick.quant, "Q5_K_M");
    assert!(matches!(pick.tier, Tier::S | Tier::A));
}

#[test]
fn dense_14b_q5_overflows_falls_back_to_q4() {
    let m = dense_model("big", 14.0, &["Q5_K_M", "Q4_K_M"]);
    let p = rtx_4060_profile();
    let pick = pick(&m, &p, Strategy::Balanced).unwrap();
    assert_eq!(pick.quant, "Q4_K_M");
}

#[test]
fn moe_30b_a3b_lands_in_tier_b() {
    let m = moe_model("qwen3-30b-a3b", 30.0, 3.0);
    let p = rtx_4060_profile();
    let pick = pick(&m, &p, Strategy::Balanced).unwrap();
    assert!(matches!(pick.tier, Tier::A | Tier::B));
    assert!(f(pick.ram_need_gb) > f(pick.vram_need_gb));
}

#[test]
fn dense_70b_at_8gb_returns_tier_d_or_c() {
    let m = dense_model("big", 70.0, &["Q4_K_M", "Q3_K_M", "IQ2_M"]);
    let p = rtx_4060_profile();
    let tier = forced_tier(&m, &p);
    assert!(matches!(tier, Tier::C | Tier::D));
}

#[test]
fn bytes_per_param_q5_smaller_than_q8() {
    assert!(f(bytes_per_param("Q5_K_M")) < f(bytes_per_param("Q8_0")));
    assert!(f(bytes_per_param("Q4_K_M")) < f(bytes_per_param("Q5_K_M")));
    assert!(f(bytes_per_param("IQ2_XS")) < f(bytes_per_param("Q3_K_M")));
}

#[test]
fn quant_file_size_scales_linearly_with_params() {
    let small = f(quant_file_size_gb(b(7.0), "Q4_K_M"));
    let big = f(quant_file_size_gb(b(14.0), "Q4_K_M"));
    assert!((big - 2.0 * small).abs() < 0.01);
}

#[test]
fn bytes_per_param_table() {
    let table: [(&str, f32); 15] = [
        ("F16", 2.0),
        ("FP16", 2.0),
        ("Q8_0", 1.07),
        ("Q6_K", 0.82),
        ("Q5_K_M", 0.70),
        ("Q5_K_S", 0.68),
        ("Q4_K_M", 0.59),
        ("Q4_K_S", 0.57),
        ("IQ4_XS", 0.54),
        ("Q3_K_M", 0.49),
        ("Q3_K_S", 0.46),
        ("IQ3_M", 0.45),
        ("IQ2_M", 0.36),
        ("IQ2_XS", 0.33),
        ("something else", 0.6),
    ];
    for (quant, bytes) in table {
        assert_eq!(f(bytes_per_param(quant)), bytes, "{quant}");
        assert_eq!(f(quant_file_size_gb(b(7.6), quant)), 7.6f32 * bytes, "{quant}");
    }
}

#[test]
fn needs_of_a_dense_and_a_moe_model() {
    let p = rtx_4060_profile();
    let dense = pick_explicit(&dense_model("x", 7.6, &["Q4_K_M"]), &p, "Q4_K_M").unwrap();
    assert_eq!(f(dense.size_gb), 7.6f32 * 0.59);
    assert_eq!(f(dense.vram_need_gb), 7.6f32 * 0.59);
    assert_eq!(f(dense.ram_need_gb), 0.0);

    let moe = pick_explicit(&moe_model("y", 30.0, 3.0), &p, "Q4_K_M").unwrap();
    let size = 30.0f32 * 0.59;
    let active = size * (3.0f32 / 30.0);
    assert_eq!(f(moe.size_gb), size);
    assert_eq!(f(moe.vram_need_gb), active + 0.5);
    assert_eq!(f(moe.ram_need_gb), (size - active).max(0.0));
}

#[test]
fn moe_without_active_parameters_counts_all_of_them() {
    let mut m = moe_model("y", 4.0, 1.0);
    m.params_active_b = None;
    let x = pick_explicit(&m, &rtx_4060_profile(), "Q4_K_M").unwrap();
    assert_eq!(f(x.vram_need_gb), 4.0f32 * 0.59 + 0.5);
    assert_eq!(f(x.ram_need_gb), 0.0);
}

#[test]
fn tiers_of_dense_models_on_8_gb() {
    // The budget is 8 - 1 - 0.98304 GB of VRAM and 27 GB of RAM.
    let p = rtx_4060_profile();
    let tier = |params: f32| forced_tier(&dense_model("x", params, &["Q4_K_M"]), &p);
    assert_eq!(tier(9.6), Tier::S);
    assert_eq!(tier(10.0), Tier::A);
    assert_eq!(tier(11.0), Tier::B);
    assert_eq!(tier(33.0), Tier::C);
    assert_eq!(tier(60.0), Tier::D);
}

#[test]
fn tiers_of_moe_models() {
    let p = rtx_4060_profile();
    assert_eq!(forced_tier(&moe_model("a", 20.0, 2.0), &p), Tier::A);
    assert_eq!(forced_tier(&moe_model("b", 30.0, 3.0), &p), Tier::B);
    assert_eq!(forced_tier(&moe_model("c", 40.0, 16.0), &p), Tier::C);
    assert_eq!(forced_tier(&moe_model("d", 100.0, 3.0), &p), Tier::D);
    let cpu = Profile {
        mode: Mode::Cpu,
        vram_gb: b(0.0),
        ram_gb: b(32.0),
        ..Profile::default()
    };
    let both = |mut m: Model| {
        m.targets = vec![Target::Gpu, Target::Cpu];
        m
    };
    assert_eq!(forced_tier(&both(moe_model("b", 30.0, 3.0)), &cpu), Tier::S);
    assert_eq!(forced_tier(&both(moe_model("d", 100.0, 3.0)), &cpu), Tier::D);
    assert_eq!(forced_tier(&moe_model("b", 30.0, 3.0), &cpu), Tier::D);
}

#[test]
fn tiers_of_dense_models_without_a_gpu() {
    let tier = |params: f32, ram: f32| {
        let mut m = dense_model("x", params, &["Q4_K_M"]);
        m.targets = vec![Target::Cpu];
        let p = Profile {
            mode: Mode::Cpu,
            vram_gb: b(0.0),
            ram_gb: b(ram),
            ..Profile::default()
        };
        forced_tier(&m, &p)
    };
    assert_eq!(tier(1.5, 32.0), Tier::S);
    assert_eq!(tier(6.4, 32.0), Tier::S);
    // 3 B take 1.77 GB, and 1.8 GB are left.
    assert_eq!(tier(3.0, 5.8), Tier::A);
    assert_eq!(tier(3.0, 5.7), Tier::D);
    assert_eq!(tier(6.7, 32.0), Tier::B);
    assert_eq!(tier(7.6, 32.0), Tier::B);
    assert_eq!(tier(8.2, 32.0), Tier::B);
    assert_eq!(tier(9.0, 32.0), Tier::C);
    assert_eq!(tier(14.8, 32.0), Tier::C);
    assert_eq!(tier(70.0, 32.0), Tier::D);
    let gpu_only = dense_model("x", 3.0, &["Q4_K_M"]);
    let cpu = Profile { mode: Mode::Cpu, ..Profile::default() };
    assert_eq!(forced_tier(&gpu_only, &cpu), Tier::D);
    assert_eq!(forced_tier(&gpu_only, &Profile::default()), Tier::S);
}

#[test]
fn q5_is_picked_in_vram_only() {
    let p = rtx_4060_profile();
    let mid = dense_model("mid", 10.5, &["Q5_K_M", "Q4_K_M"]);
    assert_eq!(pick(&mid, &p, Strategy::Balanced).unwrap().quant, "Q4_K_M");
    // No larger one comes before Q4_K_M, whatever the overflow.
    for params in [10.5, 14.0, 30.0] {
        let m = dense_model("m", params, &["Q6_K", "Q5_K_M", "Q5_K_S", "Q4_K_M"]);
        assert_eq!(pick(&m, &p, Strategy::Balanced).unwrap().quant, "Q4_K_M");
    }
    // Without a Q4_K_M the best of the others is taken.
    let m = dense_model("m", 10.5, &["Q5_K_M", "Q5_K_S"]);
    assert_eq!(pick(&m, &p, Strategy::Balanced).unwrap().quant, "Q5_K_M");
    let fits = dense_model("fits", 8.0, &["Q6_K", "Q5_K_M", "Q4_K_M"]);
    assert_eq!(pick(&fits, &p, Strategy::Balanced).unwrap().quant, "Q5_K_M");
}

#[test]
fn moe_picks_q5_where_a_dense_model_gets_q4() {
    let p = rtx_4060_profile();
    let moe = pick(&moe_model("moe", 30.0, 3.0), &p, Strategy::Balanced).unwrap();
    let dense = dense_model("dense", 14.0, &["Q5_K_M", "Q4_K_M"]);
    assert_eq!(moe.quant, "Q5_K_M");
    assert_eq!(pick(&dense, &p, Strategy::Balanced).unwrap().quant, "Q4_K_M");
}

#[test]
fn smaller_vram_gives_a_smaller_quant() {
    let m = dense_model("x", 8.0, &["Q5_K_M", "Q4_K_M", "IQ3_M"]);
    let mut p = rtx_4060_profile();
    assert_eq!(pick(&m, &p, Strategy::Balanced).unwrap().quant, "Q5_K_M");
    p.vram_gb = b(7.0);
    assert_eq!(pick(&m, &p, Strategy::Balanced).unwrap().quant, "Q4_K_M");
    p.vram_gb = b(5.8);
    assert_eq!(pick(&m, &p, Strategy::Balanced).unwrap().quant, "IQ3_M");
}

#[test]
fn the_best_that_fits_is_picked_where_no_balanced_quant_is_there() {
    let m = dense_model("x", 4.0, &["IQ2_M", "Q6_K", "Q3_K_M"]);
    let x = pick(&m, &rtx_4060_profile(), Strategy::Balanced).unwrap();
    assert_eq!(x.quant, "Q6_K");
    assert_eq!(x.tier, Tier::S);
}

#[test]
fn nothing_is_picked_where_nothing_fits() {
    let m = dense_model("x", 100.0, &["Q5_K_M", "IQ2_M"]);
    assert!(pick(&m, &rtx_4060_profile(), Strategy::Balanced).is_none());
    // A quantization that is not picked by itself can still be named.
    let odd = dense_model("y", 1.0, &["Q8_0"]);
    assert!(pick(&odd, &rtx_4060_profile(), Strategy::Balanced).is_none());
    assert!(pick_explicit(&odd, &rtx_4060_profile(), "Q8_0").is_some());
}

#[test]
fn a_pick_is_what_naming_its_quant_gives() {
    let m = dense_model("x", 14.0, &["Q5_K_M", "Q4_K_M", "Q3_K_S"]);
    let p = rtx_4060_profile();
    let auto = pick(&m, &p, Strategy::Balanced).unwrap();
    let named = pick_explicit(&m, &p, &auto.quant).unwrap();
    assert_eq!(auto.file, named.file);
    assert_eq!(f(auto.size_gb), f(named.size_gb));
    assert_eq!(auto.tier, named.tier);
    let again = auto.clone();
    assert_eq!(again.quant, auto.quant);
}
