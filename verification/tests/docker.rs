use vello::docker::{
    active_model_file, build, compose_failed, down, download_args, download_url, env_value,
    is_running, logs, model_file_missing, nuke, profile_flag, restart, status, up, Step,
};
use vello::schema::Mode;

fn shown(steps: &[Step]) -> Vec<String> {
    steps
        .iter()
        .map(|s| match s {
            Step::RequireActiveModel => "require".to_string(),
            Step::Compose { args } => args.join(" "),
        })
        .collect()
}

#[test]
fn profile_flag_maps_gpu_to_cuda() {
    assert_eq!(profile_flag(Mode::Gpu), "cuda");
}

#[test]
fn profile_flag_maps_cpu_to_cpu() {
    assert_eq!(profile_flag(Mode::Cpu), "cpu");
}

#[test]
fn starting_needs_an_active_model() {
    assert_eq!(shown(&up(Mode::Gpu)), ["require", "--profile cuda up -d"]);
    assert_eq!(shown(&up(Mode::Cpu)), ["require", "--profile cpu up -d"]);
}

#[test]
fn restart_is_down_and_up() {
    assert_eq!(shown(&down()), ["down"]);
    assert_eq!(
        shown(&restart(Mode::Gpu)),
        ["down", "require", "--profile cuda up -d"]
    );
}

#[test]
fn the_other_compose_calls() {
    assert_eq!(
        shown(&status()),
        ["ps --format table {{.Name}}\t{{.Status}}\t{{.Ports}}"]
    );
    assert_eq!(shown(&logs(false, &vec![])), ["logs --tail=200"]);
    assert_eq!(
        shown(&logs(true, &vec!["llama-server".to_string()])),
        ["logs --tail=200 -f llama-server"]
    );
    assert_eq!(
        shown(&nuke()),
        ["down -v --rmi all --remove-orphans"]
    );
}

#[test]
fn building_one_image_or_both() {
    assert_eq!(shown(&build(Mode::Cpu, false, false)), ["--profile cpu build"]);
    assert_eq!(
        shown(&build(Mode::Gpu, true, false)),
        ["--profile cuda build --no-cache"]
    );
    assert_eq!(
        shown(&build(Mode::Cpu, true, true)),
        ["--profile cuda --profile cpu build --no-cache"]
    );
}

#[test]
fn a_failing_call_is_named() {
    let args = vec!["up".to_string(), "-d".to_string()];
    assert_eq!(compose_failed(&args), "docker compose up -d failed");
}

#[test]
fn running_by_what_docker_says() {
    assert!(is_running(Some("true\n")));
    assert!(!is_running(Some("false\n")));
    assert!(!is_running(Some("")));
    assert!(!is_running(None));
}

#[test]
fn the_active_model_file() {
    let env = "# x\nLLAMA_MODEL_FILE= \"a b.gguf\" \r\nLLAMA_MODEL_FILE=later.gguf\n";
    assert_eq!(active_model_file(env).unwrap(), "a b.gguf");
    assert_eq!(env_value(env, "LLAMA_MODEL_FILE=").unwrap(), "a b.gguf");
    assert!(env_value(env, "LLAMA_MODEL_ALIAS=").is_none());
    let none = "no active model in .env. Run: vello install <id>";
    assert_eq!(active_model_file("").unwrap_err(), none);
    assert_eq!(active_model_file("LLAMA_MODEL_FILE=\"\"\n").unwrap_err(), none);
    assert_eq!(active_model_file(" LLAMA_MODEL_FILE=x\n").unwrap_err(), none);
    assert_eq!(
        model_file_missing("/p/models/x.gguf"),
        "model file missing: /p/models/x.gguf\n  Run: vello install <id>"
    );
}

#[test]
fn downloads() {
    let url = download_url("bartowski/Some-Model-GGUF", "Some-Q4_K_M.gguf");
    assert_eq!(
        url,
        "https://huggingface.co/bartowski/Some-Model-GGUF/resolve/main/Some-Q4_K_M.gguf?download=true"
    );
    assert_eq!(
        download_args("0.1.0", "/m/x.gguf.partial", &url),
        [
            "-L",
            "--fail",
            "--progress-bar",
            "-H",
            "User-Agent: vello/0.1.0",
            "-o",
            "/m/x.gguf.partial",
            url.as_str()
        ]
    );
}
