use vello::binary32::Binary32;
use vello::catalog::CatalogEntry;
use vello::recommend::{index, rank, rank_by_tags, tags_for, use_case_tags};
use vello::schema::{
    Architecture, Mode, Model, ModelRuntime, Profile, QuantFiles, Target, Tier,
};

fn b(x: f32) -> Binary32 {
    Binary32::from_bits(x.to_bits())
}

fn f(x: Binary32) -> f32 {
    f32::from_bits(x.to_bits())
}

#[test]
fn use_case_tags_maps_code_in_pt_and_en() {
    let en = use_case_tags("code");
    let pt = use_case_tags("código");
    assert!(en.contains(&"code"));
    assert!(pt.contains(&"code"));
}

#[test]
fn use_case_tags_maps_vision() {
    let tags = use_case_tags("vision");
    assert!(tags.contains(&"vision"));
    assert!(tags.contains(&"multimodal"));
}

#[test]
fn use_case_tags_maps_reasoning() {
    let tags = use_case_tags("raciocínio");
    assert!(tags.contains(&"reasoning"));
}

#[test]
fn use_case_tags_unknown_query_returns_empty() {
    assert!(use_case_tags("zzz-not-a-thing").is_empty());
}

fn model(id: &str, params_b: f32, arch: Architecture, targets: Vec<Target>) -> Model {
    let mut files = QuantFiles::new();
    files.insert("Q4_K_M".into(), format!("{id}.gguf"));
    Model {
        id: id.into(),
        repo: "test/repo".into(),
        default_quant: "Q4_K_M".into(),
        files,
        params_total_b: b(params_b),
        params_active_b: if matches!(arch, Architecture::Moe) {
            Some(b(3.0))
        } else {
            None
        },
        architecture: arch,
        modalities: vec!["text".into()],
        targets,
        tags: vec!["chat".into()],
        experimental: false,
        description: String::new(),
        runtime: ModelRuntime::default(),
    }
}

fn gpu_profile() -> Profile {
    Profile {
        mode: Mode::Gpu,
        vram_gb: b(24.0),
        ram_gb: b(64.0),
        ..Profile::default()
    }
}

fn cpu_profile() -> Profile {
    Profile {
        mode: Mode::Cpu,
        vram_gb: b(0.0),
        ram_gb: b(32.0),
        ..Profile::default()
    }
}

fn entry(m: Model) -> CatalogEntry {
    CatalogEntry { model: m }
}

#[test]
fn rank_filters_out_gpu_only_models_in_cpu_mode() {
    let entries = vec![
        entry(model("dense-big-gpu-only", 14.0, Architecture::Dense, vec![Target::Gpu])),
        entry(model("small-both", 3.0, Architecture::Dense, vec![Target::Gpu, Target::Cpu])),
    ];
    let recs = rank(&entries, &cpu_profile(), "chat", 10);
    assert_eq!(recs.len(), 1);
    assert_eq!(recs[0].entry.model.id, "small-both");
}

#[test]
fn rank_filters_out_cpu_only_models_in_gpu_mode() {
    let entries = vec![
        entry(model("cpu-only", 3.0, Architecture::Dense, vec![Target::Cpu])),
        entry(model("gpu-ok", 7.0, Architecture::Dense, vec![Target::Gpu])),
    ];
    let recs = rank(&entries, &gpu_profile(), "chat", 10);
    assert_eq!(recs.len(), 1);
    assert_eq!(recs[0].entry.model.id, "gpu-ok");
}

#[test]
fn moe_gets_score_bonus_in_cpu_mode() {
    let entries = vec![
        entry(model("dense-7b", 7.0, Architecture::Dense, vec![Target::Cpu, Target::Gpu])),
        entry(model("moe-30b-a3b", 30.0, Architecture::Moe, vec![Target::Cpu, Target::Gpu])),
    ];
    let recs = rank(&entries, &cpu_profile(), "chat", 10);
    let moe_pos = recs.iter().position(|r| r.entry.model.id == "moe-30b-a3b");
    let dense_pos = recs.iter().position(|r| r.entry.model.id == "dense-7b");
    assert!(moe_pos.is_some() && dense_pos.is_some());
    assert!(moe_pos.unwrap() < dense_pos.unwrap(), "MoE should rank above dense-7b in CPU mode");
    assert_eq!(recs[0].pick.tier, Tier::S);
    assert_eq!(recs[1].pick.tier, Tier::B);
}

#[test]
fn moe_bonus_does_not_apply_in_gpu_mode() {
    let entries = vec![
        entry(model("dense-7b", 7.0, Architecture::Dense, vec![Target::Gpu, Target::Cpu])),
        entry(model("moe-30b-a3b", 30.0, Architecture::Moe, vec![Target::Gpu, Target::Cpu])),
    ];
    let recs = rank(&entries, &gpu_profile(), "chat", 10);
    assert_eq!(recs.len(), 2);
}

#[test]
fn scores_to_the_last_bit() {
    // "chat" asks for two tags, of which the models have one.
    let base = 0.5f32 + 0.5 * (1.0f32 / 2.0);
    let mut odd = model("odd", 7.0, Architecture::Dense, vec![Target::Gpu]);
    odd.experimental = true;
    let entries = vec![entry(odd), entry(model("even", 7.0, Architecture::Dense, vec![Target::Gpu]))];
    let recs = rank(&entries, &gpu_profile(), "chat", 10);
    assert_eq!(recs[0].entry.model.id, "even");
    assert_eq!(f(recs[0].score), 1.0f32 * base);
    assert_eq!(f(recs[1].score), 1.0f32 * base * 0.85);

    let moe = vec![entry(model("moe", 30.0, Architecture::Moe, vec![Target::Cpu]))];
    let recs = rank(&moe, &cpu_profile(), "chat", 10);
    assert_eq!(f(recs[0].score), 1.0f32 * base * 1.10);
}

#[test]
fn without_a_use_case_only_the_tier_counts() {
    let entries = vec![
        entry(model("big", 40.0, Architecture::Dense, vec![Target::Gpu])),
        entry(model("small", 7.0, Architecture::Dense, vec![Target::Gpu])),
    ];
    let recs = rank(&entries, &gpu_profile(), "zzz", 10);
    assert_eq!(recs.len(), 2);
    assert_eq!(recs[0].entry.model.id, "small");
    assert_eq!(f(recs[0].score), 1.0);
    assert!(f(recs[1].score) < 1.0);
}

#[test]
fn equal_scores_keep_the_order_of_the_catalog() {
    let entries: Vec<CatalogEntry> = ["c", "a", "b"]
        .iter()
        .map(|id| entry(model(id, 7.0, Architecture::Dense, vec![Target::Gpu])))
        .collect();
    let recs = rank(&entries, &gpu_profile(), "chat", 10);
    let ids: Vec<&str> = recs.iter().map(|r| r.entry.model.id.as_str()).collect();
    assert_eq!(ids, ["c", "a", "b"]);
}

#[test]
fn no_more_than_the_limit() {
    let entries: Vec<CatalogEntry> = ["c", "a", "b"]
        .iter()
        .map(|id| entry(model(id, 7.0, Architecture::Dense, vec![Target::Gpu])))
        .collect();
    assert_eq!(rank(&entries, &gpu_profile(), "chat", 2).len(), 2);
    assert!(rank(&entries, &gpu_profile(), "chat", 0).is_empty());
}

#[test]
fn models_without_a_wanted_tag_or_in_tier_d_are_left_out() {
    let entries = vec![
        entry(model("chat-only", 7.0, Architecture::Dense, vec![Target::Gpu])),
        entry(model("too-big", 300.0, Architecture::Dense, vec![Target::Gpu])),
    ];
    assert!(rank(&entries, &gpu_profile(), "vision", 10).is_empty());
    let recs = rank(&entries, &gpu_profile(), "chat", 10);
    assert_eq!(recs.len(), 1);
    assert_eq!(recs[0].entry.model.id, "chat-only");
}

#[test]
fn more_wanted_tags_score_higher() {
    let mut both = model("both", 7.0, Architecture::Dense, vec![Target::Gpu]);
    both.tags = vec!["general".into(), "chat".into()];
    let entries = vec![
        entry(model("one", 7.0, Architecture::Dense, vec![Target::Gpu])),
        entry(both),
    ];
    let recs = rank_by_tags(&index(&entries), &gpu_profile(), "", &vec!["chat", "general"], 10);
    assert_eq!(recs[0].entry.model.id, "both");
    assert_eq!(f(recs[0].score), 1.0);
    assert_eq!(f(recs[1].score), 0.75);
}

#[test]
fn queries_are_lowercased() {
    assert_eq!(use_case_tags("CÓDIGO"), ["code", "coder"]);
    assert_eq!(use_case_tags("Vision OCR"), ["vision", "multimodal"]);
    assert!(tags_for("VISION").is_empty());
}

#[test]
fn every_trigger_has_its_tags() {
    let rules: [(&[&str], &[&str]); 9] = [
        (&["code", "código", "codigo", "coder", "coding"], &["code", "coder"]),
        (&["chat", "geral", "general", "assistant"], &["chat", "general"]),
        (&["tool", "agent", "agente", "function"], &["tools", "agent"]),
        (
            &["reason", "raciocí", "raciocin", "lógic", "logic", "math"],
            &["reasoning", "thinking"],
        ),
        (
            &["vision", "imagem", "image", "visão", "visao", "ocr"],
            &["vision", "multimodal"],
        ),
        (&["video", "vídeo"], &["video"]),
        (
            &["multilíng", "multiling", "português", "portugues", "pt-br", "pt_br"],
            &["multilingual"],
        ),
        (
            &["small", "pequeno", "leve", "fast", "rápido", "rapido"],
            &["small", "fast"],
        ),
        (&["uncensor"], &["uncensored"]),
    ];
    for (triggers, tags) in rules {
        for t in triggers {
            assert_eq!(tags_for(t), tags, "{t}");
        }
    }
    assert_eq!(
        tags_for("a fast coding agent"),
        ["code", "coder", "tools", "agent", "small", "fast"]
    );
}

#[test]
fn moe_outranks_dense_of_the_same_tier_unless_it_alone_is_experimental() {
    let profile = Profile {
        mode: Mode::Cpu,
        ..gpu_profile()
    };
    for (moe_exp, dense_exp, first) in [
        (false, false, "moe"),
        (false, true, "moe"),
        (true, true, "moe"),
        (true, false, "dense"),
    ] {
        let mut dense = model("dense", 3.0, Architecture::Dense, vec![Target::Cpu]);
        dense.experimental = dense_exp;
        let mut moe = model("moe", 30.0, Architecture::Moe, vec![Target::Cpu]);
        moe.experimental = moe_exp;
        let entries = vec![entry(dense), entry(moe)];
        let recs = rank(&entries, &profile, "chat", 10);
        assert_eq!(recs.len(), 2);
        assert_eq!(recs[0].pick.tier, Tier::S);
        assert_eq!(recs[1].pick.tier, Tier::S);
        assert_eq!(recs[0].entry.model.id, first);
    }
}

#[test]
fn queries_match_across_tags_id_and_description() {
    let coder = model("qwen2.5-coder-7b", 7.0, Architecture::Dense, vec![Target::Gpu]);
    let mut eye = model("eye", 7.0, Architecture::Dense, vec![Target::Gpu]);
    eye.description = "Vision for everyone".into();
    let mut helper = model("My-Assistant", 7.0, Architecture::Dense, vec![Target::Gpu]);
    helper.tags = vec![];
    let entries = vec![entry(coder), entry(eye), entry(helper)];
    let ids = |query: &str| -> Vec<String> {
        rank(&entries, &gpu_profile(), query, 3)
            .iter()
            .map(|r| r.entry.model.id.clone())
            .collect()
    };
    assert_eq!(ids("coder"), ["qwen2.5-coder-7b"]);
    assert_eq!(ids("vision"), ["eye"]);
    // "assistant" asks for chat models, and is itself in an id.
    assert_eq!(ids(" Assistant "), ["qwen2.5-coder-7b", "eye", "My-Assistant"]);
    let recs = rank(&entries, &gpu_profile(), "assistant", 3);
    assert_eq!(f(recs[2].score), 0.5);
    assert!(ids("math").is_empty());
}

#[test]
fn a_smaller_limit_gives_the_first() {
    let entries: Vec<CatalogEntry> = [("a", 40.0), ("b", 7.0), ("c", 3.0), ("d", 300.0), ("e", 7.0)]
        .iter()
        .map(|(id, n)| entry(model(id, *n, Architecture::Dense, vec![Target::Gpu])))
        .collect();
    let ids = |limit: usize| -> Vec<String> {
        rank(&entries, &gpu_profile(), "chat", limit)
            .iter()
            .map(|r| r.entry.model.id.clone())
            .collect()
    };
    assert_eq!(ids(10), ["b", "c", "e", "a"]);
    for limit in 0..10 {
        assert_eq!(ids(limit), ids(10)[..limit.min(4)]);
    }
}

#[test]
fn more_text_keeps_the_tags_and_none_comes_twice() {
    let texts = ["code", "chat", "raciocínio", "ocr", "vídeo", "pt-br", "leve", "uncensored"];
    for a in texts {
        for b in texts {
            let both = tags_for(&format!("{a} {b}"));
            assert!(tags_for(a).iter().all(|t| both.contains(t)));
            let mut once = both.clone();
            once.sort();
            once.dedup();
            assert_eq!(once.len(), both.len());
        }
    }
}

#[test]
fn ids_and_descriptions_are_lowercased_as_queries_are() {
    let mut thinker = model("Pensador", 7.0, Architecture::Dense, vec![Target::Gpu]);
    thinker.description = "RACIOCÍNIO".into();
    thinker.tags = vec![];
    let entries = vec![entry(thinker)];
    let list = index(&entries);
    assert_eq!((list[0].id.as_str(), list[0].description.as_str()), ("pensador", "raciocínio"));
    assert_eq!(rank(&entries, &gpu_profile(), "Raciocínio", 3).len(), 1);
    assert_eq!(rank(&entries, &gpu_profile(), "REASONING", 3).len(), 0);
}

#[test]
fn what_a_query_without_tags_names_comes_first() {
    let mut odd = model("Qwen3-40b", 40.0, Architecture::Dense, vec![Target::Gpu]);
    odd.experimental = true;
    let entries = vec![
        entry(model("llama", 7.0, Architecture::Dense, vec![Target::Gpu])),
        entry(odd),
        entry(model("qwen3-8b", 8.0, Architecture::Dense, vec![Target::Gpu])),
    ];
    let recs = rank(&entries, &gpu_profile(), " Qwen3 ", 10);
    let ids: Vec<&str> = recs.iter().map(|r| r.entry.model.id.as_str()).collect();
    assert_eq!(ids, ["qwen3-8b", "Qwen3-40b", "llama"]);
    assert_eq!(f(recs[0].score), 3.0);
    assert_eq!(f(recs[2].score), 1.0);
    assert_ne!(recs[1].pick.tier, Tier::S);
    // An empty query names nothing.
    assert_eq!(f(rank(&entries, &gpu_profile(), "  ", 1)[0].score), 1.0);
}
