use vello::docker::{active_model_file, env_value};
use vello::binary32::Binary32;
use vello::resolver::{
    apply_cpu_overrides, preserve_unmanaged, render, resolve, write_env, Resolved, ResolveInput,
};
use vello::schema::{
    Architecture, Mode, Model, ModelFields, ModelRuntime, Profile, QuantFiles,
};
use vello::system::{RuntimeDefaults, SystemConfig};

#[test]
fn preserve_unmanaged_keeps_unknown_keys() {
    let env = "LLAMA_PORT=8080\nMY_CUSTOM_KEY=hello\nLLAMA_CTX=4096\n";
    let kept = preserve_unmanaged(env);
    assert!(kept.contains("MY_CUSTOM_KEY=hello"));
    assert!(!kept.contains("LLAMA_PORT"));
    assert!(!kept.contains("LLAMA_CTX"));
}

#[test]
fn preserve_unmanaged_drops_comments_and_empty() {
    let env = "# this is a comment\n\n  \nFOO=bar\n";
    let kept = preserve_unmanaged(env);
    assert!(kept.contains("FOO=bar"));
    assert!(!kept.contains("comment"));
}

fn sample_resolved(mode: Mode) -> Resolved {
    Resolved {
        llama_port: 8080,
        webui_port: 3000,
        webui_auth: false,
        model_file: "x.gguf".into(),
        model_alias: "x-local".into(),
        ctx: 4096,
        ngl: 99,
        threads: 6,
        batch: 1024,
        ubatch: 256,
        kv_cache_k: "q8_0".into(),
        kv_cache_v: "q8_0".into(),
        flash_attn: true,
        mmproj: String::new(),
        extra_args: String::new(),
        mode,
    }
}

#[test]
fn render_includes_managed_keys() {
    let body = render(&sample_resolved(Mode::Gpu), "");
    assert!(body.contains("LLAMA_MODEL_FILE=x.gguf"));
    assert!(body.contains("LLAMA_CTX=4096"));
    assert!(body.contains("LLAMA_FLASH_ATTN=on"));
    assert!(body.contains("WEBUI_AUTH=False"));
}

#[test]
fn render_emits_cuda_profile_in_gpu_mode() {
    let body = render(&sample_resolved(Mode::Gpu), "");
    assert!(body.contains("LLAMA_RUNTIME=cuda"));
    assert!(body.contains("COMPOSE_PROFILES=cuda"));
}

#[test]
fn render_emits_cpu_profile_in_cpu_mode() {
    let body = render(&sample_resolved(Mode::Cpu), "");
    assert!(body.contains("LLAMA_RUNTIME=cpu"));
    assert!(body.contains("COMPOSE_PROFILES=cpu"));
}

#[test]
fn apply_cpu_overrides_zeroes_ngl_and_flash_attn() {
    let mut r = sample_resolved(Mode::Cpu);
    r.ngl = 99;
    r.flash_attn = true;
    let sys = SystemConfig::default();
    apply_cpu_overrides(&mut r, &sys, Some(4));
    assert_eq!(r.ngl, 0);
    assert!(!r.flash_attn);
}

#[test]
fn apply_cpu_overrides_caps_ctx_batch_ubatch() {
    let mut r = sample_resolved(Mode::Cpu);
    r.ctx = 32768;
    r.batch = 2048;
    r.ubatch = 512;
    let sys = SystemConfig::default();
    apply_cpu_overrides(&mut r, &sys, None);
    assert!(r.ctx <= 8192);
    assert!(r.batch <= 512);
    assert!(r.ubatch <= 128);
}

#[test]
fn apply_cpu_overrides_keeps_smaller_explicit_values() {
    let mut r = sample_resolved(Mode::Cpu);
    r.ctx = 4096;
    r.batch = 256;
    r.ubatch = 64;
    let sys = SystemConfig::default();
    apply_cpu_overrides(&mut r, &sys, None);
    assert_eq!(r.ctx, 4096);
    assert_eq!(r.batch, 256);
    assert_eq!(r.ubatch, 64);
}

#[test]
fn threads_follow_the_cores_unless_chosen() {
    let mut r = sample_resolved(Mode::Cpu);
    let sys = SystemConfig::default();
    apply_cpu_overrides(&mut r, &sys, None);
    assert_eq!(r.threads, 6);
    apply_cpu_overrides(&mut r, &sys, Some(8));
    assert_eq!(r.threads, 8);
    let chosen = SystemConfig {
        runtime: RuntimeDefaults {
            default_threads: 12,
            ..RuntimeDefaults::default()
        },
        ..SystemConfig::default()
    };
    r.threads = 12;
    apply_cpu_overrides(&mut r, &chosen, Some(8));
    assert_eq!(r.threads, 12);
}

fn model(runtime: ModelRuntime) -> Model {
    let mut files = QuantFiles::new();
    files.insert("Q4_K_M".into(), "x.gguf".into());
    Model::from_fields(ModelFields {
        id: "qwen3-8b".into(),
        repo: "r".into(),
        default_quant: "Q4_K_M".into(),
        files,
        params_total_b: Binary32::ratio(7, 1),
        params_active_b: None,
        architecture: Architecture::Dense,
        modalities: None,
        targets: None,
        tags: None,
        experimental: None,
        description: None,
        runtime: Some(runtime),
    })
}

fn resolved(m: &Model, sys: &SystemConfig, mode: Mode) -> Resolved {
    let profile = Profile {
        mode,
        ..Profile::default()
    };
    resolve(
        &ResolveInput {
            model: m,
            model_file: "x.gguf",
            system: sys,
            profile: &profile,
        },
        Some(4),
    )
}

#[test]
fn the_system_fills_what_a_model_leaves_open() {
    let r = resolved(&model(ModelRuntime::default()), &SystemConfig::default(), Mode::Gpu);
    assert_eq!((r.llama_port, r.webui_port, r.webui_auth), (8080, 3000, false));
    assert_eq!(r.model_file, "x.gguf");
    assert_eq!(r.model_alias, "qwen3-8b-local");
    assert_eq!((r.ctx, r.ngl, r.threads, r.batch, r.ubatch), (32768, 99, 6, 2048, 512));
    assert_eq!((r.kv_cache_k.as_str(), r.kv_cache_v.as_str()), ("q8_0", "q8_0"));
    assert!(r.flash_attn);
    assert_eq!((r.mmproj.as_str(), r.extra_args.as_str()), ("", ""));
    assert_eq!(r.mode, Mode::Gpu);
}

#[test]
fn a_model_wins_over_the_system() {
    let rt = ModelRuntime {
        ctx_default: Some(16384),
        ngl: Some(20),
        mmproj: Some("mm.gguf".into()),
        extra_args: vec!["--n-cpu-moe".into(), "32".into()],
        kv_cache_k: Some("f16".into()),
        kv_cache_v: Some("q4_0".into()),
    };
    let r = resolved(&model(rt), &SystemConfig::default(), Mode::Gpu);
    assert_eq!((r.ctx, r.ngl), (16384, 20));
    assert_eq!((r.kv_cache_k.as_str(), r.kv_cache_v.as_str()), ("f16", "q4_0"));
    assert_eq!(r.mmproj, "mm.gguf");
    assert_eq!(r.extra_args, "--mmproj /models/mm.gguf --n-cpu-moe 32");
}

#[test]
fn an_empty_vision_part_is_none() {
    let rt = ModelRuntime {
        mmproj: Some(String::new()),
        ..ModelRuntime::default()
    };
    let r = resolved(&model(rt), &SystemConfig::default(), Mode::Gpu);
    assert_eq!(r.extra_args, "");
}

#[test]
fn cpu_mode_overrides_what_was_resolved() {
    let r = resolved(&model(ModelRuntime::default()), &SystemConfig::default(), Mode::Cpu);
    assert_eq!((r.ctx, r.ngl, r.threads, r.batch, r.ubatch), (8192, 0, 4, 512, 128));
    assert!(!r.flash_attn);
}

#[test]
fn a_model_keeps_its_context_in_cpu_mode() {
    for c in [4096, 16384] {
        let rt = ModelRuntime {
            ctx_default: Some(c),
            ngl: Some(20),
            ..ModelRuntime::default()
        };
        let r = resolved(&model(rt), &SystemConfig::default(), Mode::Cpu);
        assert_eq!((r.ctx, r.ngl, r.batch, r.ubatch), (c, 0, 512, 128));
        assert!(!r.flash_attn);
    }
}

#[test]
fn lines_that_are_not_recognized_are_kept() {
    assert_eq!(preserve_unmanaged("FOO\nBAR=1\n"), "FOO\nBAR=1\n");
    assert_eq!(preserve_unmanaged("LLAMA_PORT\n # c\n\t\nLLAMA_PORT=1\n"), "LLAMA_PORT\n");
}

#[test]
fn the_whole_env() {
    let mut r = sample_resolved(Mode::Gpu);
    r.extra_args = "--mmproj /models/mm.gguf".into();
    let expected = "\
# Generated by `vello apply`. Edit system.toml or catalogs/*.toml,
# then run `vello apply` (or `vello switch <id>`) to regenerate.
# Lines you add manually are preserved across regenerations.

# Ports
LLAMA_PORT=8080
WEBUI_PORT=3000

# Active model
LLAMA_MODEL_FILE=x.gguf
LLAMA_MODEL_ALIAS=x-local

# Runtime (resolved from system.toml + model [runtime])
LLAMA_CTX=4096
LLAMA_NGL=99
LLAMA_THREADS=6
LLAMA_BATCH=1024
LLAMA_UBATCH=256
LLAMA_KV_CACHE_K=q8_0
LLAMA_KV_CACHE_V=q8_0
LLAMA_FLASH_ATTN=on

# Model-specific extras (vision mmproj, MoE flags, etc.)
LLAMA_EXTRA_ARGS=--mmproj /models/mm.gguf

# Runtime selection (docker compose profile)
LLAMA_RUNTIME=cuda
COMPOSE_PROFILES=cuda

# Web UI
WEBUI_AUTH=False
";
    assert_eq!(render(&r, ""), expected);
    assert_eq!(render(&r, " \n"), expected);
    let kept = "A=1\n";
    assert_eq!(
        render(&r, kept),
        format!("{expected}\n# --- preserved (user-added) ---\nA=1\n")
    );
}

#[test]
fn what_the_user_added_survives() {
    let r = sample_resolved(Mode::Gpu);
    let old = "# mine\nFOO=bar\n LLAMA_CTX =1\nnot an assignment\r\nX = y=z\r\nLLAMA_MMPROJ=old\n";
    assert_eq!(preserve_unmanaged(old), "FOO=bar\nnot an assignment\nX = y=z\n");
    let first = write_env(old, &r);
    assert_eq!(preserve_unmanaged(&first), "FOO=bar\nnot an assignment\nX = y=z\n");
    assert_eq!(write_env(&first, &r), first);
    let other = write_env(&first, &sample_resolved(Mode::Cpu));
    assert!(other.ends_with("\n# --- preserved (user-added) ---\nFOO=bar\nnot an assignment\nX = y=z\n"));
    assert_eq!(write_env("", &r), render(&r, ""));
}

#[test]
fn what_was_written_is_read_back() {
    let mut r = sample_resolved(Mode::Gpu);
    r.model_file = "Qwen3-8B-Q5_K_M.gguf".into();
    r.model_alias = "qwen3-8b-local".into();
    let env = write_env("LLAMA_MODEL_FILE=older.gguf\nFOO=1\n", &r);
    assert_eq!(active_model_file(&env).unwrap(), "Qwen3-8B-Q5_K_M.gguf");
    assert_eq!(env_value(&env, "LLAMA_MODEL_ALIAS=").unwrap(), "qwen3-8b-local");
    let copy = r.clone();
    assert_eq!(copy.model_file, r.model_file);
}
