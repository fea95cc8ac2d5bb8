//! The `docker compose` calls, and what has to hold before they are made.
//!
//! The compose file defines two llama-server profiles that exclude each other,
//! `cuda` and `cpu`. Commands that start containers name the profile of the
//! mode, so that only the matching service is activated. Commands that read or
//! tear down work on whatever is running.
use vstd::prelude::*;
use crate::chars;
use crate::schema::Mode;
use crate::text;

verus! {

pub open spec fn spec_profile_flag(mode: Mode) -> Seq<char> {
    match mode {
        Mode::Gpu => "cuda"@,
        Mode::Cpu => "cpu"@,
    }
}

/// The docker compose profile of the mode.
pub fn profile_flag(mode: Mode) -> (r: &'static str)
    ensures
        r@ == spec_profile_flag(mode),
{
    match mode {
        Mode::Gpu => "cuda",
        Mode::Cpu => "cpu",
    }
}

/// One thing to do, in order; the first that fails ends the command.
#[derive(Debug)]
pub enum Step {
    /// There has to be an active model whose file is there.
    RequireActiveModel,
    /// `docker compose` with these arguments, in the project root.
    Compose { args: Vec<String> },
}

#[verifier::ext_equal]
pub enum StepView {
    RequireActiveModel,
    Compose { args: Seq<Seq<char>> },
}

impl View for Step {
    type V = StepView;

    open spec fn view(&self) -> StepView {
        match self {
            Step::RequireActiveModel => StepView::RequireActiveModel,
            Step::Compose { args } => StepView::Compose { args: args.deep_view() },
        }
    }
}

pub open spec fn steps_of(steps: Seq<Step>) -> Seq<StepView> {
    steps.map_values(|s: Step| s@)
}

pub open spec fn spec_up(mode: Mode) -> Seq<StepView> {
    seq![
        StepView::RequireActiveModel,
        StepView::Compose { args: seq!["--profile"@, spec_profile_flag(mode), "up"@, "-d"@] },
    ]
}

pub open spec fn spec_down() -> Seq<StepView> {
    seq![StepView::Compose { args: seq!["down"@] }]
}

pub open spec fn spec_restart(mode: Mode) -> Seq<StepView> {
    spec_down() + spec_up(mode)
}

pub open spec fn spec_status() -> Seq<StepView> {
    seq![
        StepView::Compose {
            args: seq!["ps"@, "--format"@, "table {{.Name}}\t{{.Status}}\t{{.Ports}}"@],
        },
    ]
}

pub open spec fn spec_logs(follow: bool, services: Seq<Seq<char>>) -> Seq<StepView> {
    seq![
        StepView::Compose {
            args: seq!["logs"@, "--tail=200"@] + (if follow {
                seq!["-f"@]
            } else {
                Seq::empty()
            }) + services,
        },
    ]
}

pub open spec fn spec_build(mode: Mode, no_cache: bool, all: bool) -> Seq<StepView> {
    seq![StepView::Compose { args: spec_build_args(mode, no_cache, all) }]
}

pub open spec fn spec_nuke() -> Seq<StepView> {
    seq![
        StepView::Compose { args: seq!["down"@, "-v"@, "--rmi"@, "all"@, "--remove-orphans"@] },
    ]
}

pub open spec fn spec_is_running(inspected: Option<Seq<char>>) -> bool {
    inspected matches Some(out) && chars::trim(out) == "true"@
}

/// Starts the containers of the mode, if there is an active model.
pub fn up(mode: Mode) -> (r: Vec<Step>)
    ensures
        steps_of(r@) == spec_up(mode),
{
    let args: Vec<String> = text::owned(vec!["--profile", profile_flag(mode), "up", "-d"]);
    assert(args.deep_view() =~= seq!["--profile"@, spec_profile_flag(mode), "up"@, "-d"@]);
    let r: Vec<Step> = vec![Step::RequireActiveModel, Step::Compose { args }];
    assert(steps_of(r@) =~= spec_up(mode));
    r
}

/// Stops whatever is running.
pub fn down() -> (r: Vec<Step>)
    ensures
        steps_of(r@) == spec_down(),
{
    let args: Vec<String> = text::owned(vec!["down"]);
    assert(args.deep_view() =~= seq!["down"@]);
    let r: Vec<Step> = vec![Step::Compose { args }];
    assert(steps_of(r@) =~= spec_down());
    r
}

/// Stops whatever is running, and then starts the containers of the mode.
pub fn restart(mode: Mode) -> (r: Vec<Step>)
    ensures
        steps_of(r@) == spec_restart(mode),
{
    let mut r: Vec<Step> = down();
    let mut next: Vec<Step> = up(mode);
    let ghost a = r@;
    let ghost b = next@;
    r.append(&mut next);
    assert(r@ == a + b);
    assert(steps_of(r@) =~= steps_of(a) + steps_of(b));
    r
}

pub fn status() -> (r: Vec<Step>)
    ensures
        steps_of(r@) == spec_status(),
{
    let args: Vec<String> = text::owned(
        vec!["ps", "--format", "table {{.Name}}\t{{.Status}}\t{{.Ports}}"],
    );
    let ghost expected = seq![
        "ps"@,
        "--format"@,
        "table {{.Name}}\t{{.Status}}\t{{.Ports}}"@,
    ];
    assert(args.deep_view() =~= expected);
    let r: Vec<Step> = vec![Step::Compose { args }];
    assert(steps_of(r@) =~= seq![StepView::Compose { args: expected }]);
    r
}

/// The last lines of the logs, of all services or of those named.
pub fn logs(follow: bool, services: &Vec<String>) -> (r: Vec<Step>)
    ensures
        steps_of(r@) == spec_logs(follow, services.deep_view()),
{
    let mut args: Vec<String> = text::owned(vec!["logs", "--tail=200"]);
    assert(args.deep_view() =~= seq!["logs"@, "--tail=200"@]);
    let ghost mut start = args.deep_view();
    if follow {
        args.push("-f".to_owned());
        proof {
            assert(args.deep_view() =~= start + seq!["-f"@]);
        }
    } else {
        proof {
            assert(start =~= start + Seq::<Seq<char>>::empty());
        }
    }
    proof {
        start = args.deep_view();
    }
    let mut i: usize = 0;
    assert(start + services.deep_view().take(0) =~= start);
    while i < services.len()
        invariant
            i <= services@.len(),
            args.deep_view() == start + services.deep_view().take(i as int),
        decreases services@.len() - i,
    {
        let ghost before = args.deep_view();
        args.push(services[i].clone());
        assert(args.deep_view() =~= before.push(services@[i as int]@));
        assert(args.deep_view() =~= start + services.deep_view().take(i + 1));
        i = i + 1;
    }
    assert(services.deep_view().take(i as int) =~= services.deep_view());
    let ghost expected = args.deep_view();
    let r: Vec<Step> = vec![Step::Compose { args }];
    assert(steps_of(r@) =~= seq![StepView::Compose { args: expected }]);
    r
}

pub open spec fn spec_build_args(mode: Mode, no_cache: bool, all: bool) -> Seq<Seq<char>> {
    (if all {
        seq!["--profile"@, "cuda"@, "--profile"@, "cpu"@]
    } else {
        seq!["--profile"@, spec_profile_flag(mode)]
    }) + seq!["build"@] + (if no_cache {
        seq!["--no-cache"@]
    } else {
        Seq::empty()
    })
}

/// Builds the llama-server image of the mode, or with `all` those of both modes.
pub fn build(mode: Mode, no_cache: bool, all: bool) -> (r: Vec<Step>)
    ensures
        steps_of(r@) == spec_build(mode, no_cache, all),
{
    let mut args: Vec<String> = if all {
        text::owned(vec!["--profile", "cuda", "--profile", "cpu", "build"])
    } else {
        text::owned(vec!["--profile", profile_flag(mode), "build"])
    };
    let ghost before = args.deep_view();
    assert(before =~= spec_build_args(mode, false, all));
    if no_cache {
        args.push("--no-cache".to_owned());
        assert(args.deep_view() =~= before.push("--no-cache"@));
    }
    assert(args.deep_view() =~= spec_build_args(mode, no_cache, all));
    let r: Vec<Step> = vec![Step::Compose { args }];
    assert(steps_of(r@) =~= seq![
        StepView::Compose { args: spec_build_args(mode, no_cache, all) },
    ]);
    r
}

/// Stops everything and removes images and volumes.
pub fn nuke() -> (r: Vec<Step>)
    ensures
        steps_of(r@) == spec_nuke(),
{
    let args: Vec<String> = text::owned(vec!["down", "-v", "--rmi", "all", "--remove-orphans"]);
    let ghost expected = seq!["down"@, "-v"@, "--rmi"@, "all"@, "--remove-orphans"@];
    assert(args.deep_view() =~= expected);
    let r: Vec<Step> = vec![Step::Compose { args }];
    assert(steps_of(r@) =~= seq![StepView::Compose { args: expected }]);
    r
}

/// What is said when a `docker compose` call fails.
pub fn compose_failed(args: &Vec<String>) -> (r: String)
    ensures
        r@ == "docker compose "@ + chars::join(args.deep_view(), " "@) + " failed"@,
{
    let joined: String = text::join(args, " ");
    text::cat3("docker compose ", &joined, " failed")
}

/// Whether the server container runs, by what `docker inspect` said of it, if it
/// succeeded.
pub fn is_running(inspected: Option<&str>) -> (r: bool)
    ensures
        r == spec_is_running(chars::opt_view(inspected)),
{
    match inspected {
        Some(out) => {
            let t: String = text::trim(out);
            text::same(&t, "true")
        },
        None => false,
    }
}

// ---------------------------------------------------------------------------
// The active model
// ---------------------------------------------------------------------------

/// The value behind `prefix` in the first of the lines that starts with it,
/// without the white space and the quotes around it.
pub open spec fn value_in_lines(lines: Seq<Seq<char>>, prefix: Seq<char>) -> Option<Seq<char>>
    decreases lines.len(),
{
    if lines.len() == 0 {
        None
    } else {
        match chars::strip_prefix(lines[0], prefix) {
            Some(rest) => Some(chars::unquoted(chars::trim(rest))),
            None => value_in_lines(lines.drop_first(), prefix),
        }
    }
}

/// The value of the first line of an `.env` that starts with `prefix`.
pub open spec fn spec_env_value(env: Seq<char>, prefix: Seq<char>) -> Option<Seq<char>> {
    value_in_lines(chars::lines(env), prefix)
}

pub fn env_value(env: &str, prefix: &str) -> (r: Option<String>)
    ensures
        r.deep_view() == spec_env_value(env@, prefix@),
{
    let list: Vec<String> = text::lines(env);
    let ghost all = list.deep_view();
    let mut i: usize = 0;
    assert(all.skip(0) =~= all);
    while i < list.len()
        invariant
            i <= list@.len(),
            all == list.deep_view(),
            all == chars::lines(env@),
            spec_env_value(env@, prefix@) == value_in_lines(all.skip(i as int), prefix@),
        decreases list@.len() - i,
    {
        proof {
            assert(all.skip(i as int).drop_first() =~= all.skip(i + 1));
            assert(all.skip(i as int)[0] == list@[i as int]@);
        }
        if let Some(rest) = text::strip_prefix(&list[i], prefix) {
            let t: String = text::trim(&rest);
            return Some(text::unquoted(&t));
        }
        i = i + 1;
    }
    None
}

/// The file of the active model, by the `.env`.
pub open spec fn spec_active_model_file(env: Seq<char>) -> Option<Seq<char>> {
    match spec_env_value(env, "LLAMA_MODEL_FILE="@) {
        Some(f) => if f.len() > 0 {
            Some(f)
        } else {
            None
        },
        None => None,
    }
}

/// The file of the model that the `.env` makes active. The containers are not
/// started without one.
pub fn active_model_file(env: &str) -> (r: Result<String, String>)
    ensures
        match r {
            Ok(f) => spec_active_model_file(env@) == Some(f@),
            Err(e) => spec_active_model_file(env@) is None && e@
                == "no active model in .env. Run: vello install <id>"@,
        },
{
    match env_value(env, "LLAMA_MODEL_FILE=") {
        Some(f) => if f.as_str().is_empty() {
            Err("no active model in .env. Run: vello install <id>".to_owned())
        } else {
            Ok(f)
        },
        None => Err("no active model in .env. Run: vello install <id>".to_owned()),
    }
}

/// What is said when the file of the active model is not there.
pub fn model_file_missing(path: &str) -> (r: String)
    ensures
        r@ == "model file missing: "@ + path@ + "\n  Run: vello install <id>"@,
{
    text::cat3("model file missing: ", path, "\n  Run: vello install <id>")
}

// ---------------------------------------------------------------------------
// Downloads
// ---------------------------------------------------------------------------

/// Where a file of a Hugging Face repository is downloaded from.
pub open spec fn spec_download_url(repo: Seq<char>, file: Seq<char>) -> Seq<char> {
    "https://huggingface.co/"@ + repo + "/resolve/main/"@ + file + "?download=true"@
}

pub fn download_url(repo: &str, file: &str) -> (r: String)
    ensures
        r@ == spec_download_url(repo@, file@),
{
    text::cat5("https://huggingface.co/", repo, "/resolve/main/", file, "?download=true")
}

pub open spec fn spec_download_args(
    version: Seq<char>,
    partial: Seq<char>,
    url: Seq<char>,
) -> Seq<Seq<char>> {
    seq![
        "-L"@,
        "--fail"@,
        "--progress-bar"@,
        "-H"@,
        "User-Agent: vello/"@ + version,
        "-o"@,
        partial,
        url,
    ]
}

/// The arguments of `curl` for a download to the file `partial`.
pub fn download_args(version: &str, partial: &str, url: &str) -> (r: Vec<String>)
    ensures
        r.deep_view() == spec_download_args(version@, partial@, url@),
{
    let agent: String = text::cat2("User-Agent: vello/", version);
    let r: Vec<String> = text::owned(
        vec!["-L", "--fail", "--progress-bar", "-H", &agent, "-o", partial, url],
    );
    assert(r.deep_view() =~= seq![
        "-L"@,
        "--fail"@,
        "--progress-bar"@,
        "-H"@,
        "User-Agent: vello/"@ + version@,
        "-o"@,
        partial@,
        url@,
    ]);
    r
}

/// The stack comes up only with an active model, with the services of the mode; a restart
/// takes it down first and then brings it up just so.
pub proof fn law_up_and_down(mode: Mode)
    ensures
        ({
            let flag = if mode == Mode::Gpu {
                "cuda"@
            } else {
                "cpu"@
            };
            let up = seq![
                StepView::RequireActiveModel,
                StepView::Compose { args: seq!["--profile"@, flag, "up"@, "-d"@] },
            ];
            let down = seq![StepView::Compose { args: seq!["down"@] }];
            &&& spec_up(mode) == up
            &&& spec_down() == down
            &&& spec_restart(mode).len() == 3
            &&& spec_restart(mode)[0] == down[0]
            &&& spec_restart(mode)[1] == up[0]
            &&& spec_restart(mode)[2] == up[1]
        }),
{
}

/// The logs are followed only if that is asked for, and are those of the named services.
pub proof fn law_logs(follow: bool, services: Seq<Seq<char>>)
    ensures
        ({
            let n: int = if follow { 3 } else { 2 };
            let steps = spec_logs(follow, services);
            &&& steps.len() == 1
            &&& steps[0] matches StepView::Compose { args } && args.len() == n + services.len()
                && args[0] == "logs"@ && args[1] == "--tail=200"@ && (follow ==> args[2] == "-f"@)
                && args.skip(n) == services
        }),
{
    let n: int = if follow { 3 } else { 2 };
    let steps = spec_logs(follow, services);
    let args = steps[0]->args;
    assert(args.skip(n) =~= services);
}

/// A build is for the mode, or for both, and goes without the cache only if that is asked
/// for.
pub proof fn law_build(mode: Mode, no_cache: bool, all: bool)
    ensures
        spec_build(mode, no_cache, all).len() == 1,
        spec_build(mode, no_cache, all)[0] is Compose,
        ({
            let args = spec_build(mode, no_cache, all)[0]->args;
            let flag = if mode == Mode::Gpu {
                "cuda"@
            } else {
                "cpu"@
            };
            let n: int = if all { 4 } else { 2 };
            &&& args.len() == n + (if no_cache { 2int } else { 1int })
            &&& args[0] == "--profile"@
            &&& all ==> args[1] == "cuda"@ && args[2] == "--profile"@ && args[3] == "cpu"@
            &&& !all ==> args[1] == flag
            &&& args[n] == "build"@
            &&& no_cache ==> args[n + 1] == "--no-cache"@
        }),
{
}

/// All is removed in one step: containers, volumes, images and what is left over.
pub proof fn law_nuke_step()
    ensures
        spec_nuke().len() == 1,
        spec_nuke()[0] == (StepView::Compose {
            args: seq!["down"@, "-v"@, "--rmi"@, "all"@, "--remove-orphans"@],
        }),
{
}

/// A container runs if Docker says so in so many letters.
pub proof fn law_is_running(out: Seq<char>)
    ensures
        !spec_is_running(None),
        spec_is_running(Some(out)) <==> chars::trim(out) == "true"@,
{
}

/// The value of a key is that of the first line that starts with it: what follows, trimmed
/// and without quotes around it.
pub proof fn law_env_value(env: Seq<char>, prefix: Seq<char>, i: int)
    requires
        0 <= i < chars::lines(env).len(),
        chars::starts_with(chars::lines(env)[i], prefix),
        forall|k: int|
            0 <= k < i ==> !chars::starts_with(#[trigger] chars::lines(env)[k], prefix),
    ensures
        spec_env_value(env, prefix) == Some(
            chars::unquoted(chars::trim(chars::lines(env)[i].skip(prefix.len() as int))),
        ),
{
    lemma_first_value(chars::lines(env), prefix, i);
}

proof fn lemma_first_value(lines: Seq<Seq<char>>, prefix: Seq<char>, i: int)
    requires
        0 <= i < lines.len(),
        chars::starts_with(lines[i], prefix),
        forall|k: int| 0 <= k < i ==> !chars::starts_with(#[trigger] lines[k], prefix),
    ensures
        value_in_lines(lines, prefix) == Some(
            chars::unquoted(chars::trim(lines[i].skip(prefix.len() as int))),
        ),
    decreases i,
{
    if i > 0 {
        assert(!chars::starts_with(lines[0], prefix));
        let t = lines.drop_first();
        assert(t[i - 1] == lines[i]);
        assert forall|k: int| 0 <= k < i - 1 implies !chars::starts_with(
            #[trigger] t[k],
            prefix,
        ) by {
            assert(t[k] == lines[k + 1]);
        }
        lemma_first_value(t, prefix, i - 1);
    }
}

/// A key that no line starts with has no value.
pub proof fn law_no_env_value(env: Seq<char>, prefix: Seq<char>)
    requires
        forall|k: int|
            0 <= k < chars::lines(env).len() ==> !chars::starts_with(
                #[trigger] chars::lines(env)[k],
                prefix,
            ),
    ensures
        spec_env_value(env, prefix) is None,
{
    lemma_no_value(chars::lines(env), prefix);
}

proof fn lemma_no_value(lines: Seq<Seq<char>>, prefix: Seq<char>)
    requires
        forall|k: int| 0 <= k < lines.len() ==> !chars::starts_with(#[trigger] lines[k], prefix),
    ensures
        value_in_lines(lines, prefix) is None,
    decreases lines.len(),
{
    if lines.len() > 0 {
        assert(!chars::starts_with(lines[0], prefix));
        let t = lines.drop_first();
        assert forall|k: int| 0 <= k < t.len() implies !chars::starts_with(
            #[trigger] t[k],
            prefix,
        ) by {
            assert(t[k] == lines[k + 1]);
        }
        lemma_no_value(t, prefix);
    }
}

/// There is an active model if the `.env` names a file.
pub proof fn law_active_model_file(env: Seq<char>)
    ensures
        spec_active_model_file(env) is None <==> {
            ||| spec_env_value(env, "LLAMA_MODEL_FILE="@) is None
            ||| spec_env_value(env, "LLAMA_MODEL_FILE="@)->0.len() == 0
        },
        spec_active_model_file(env) is Some ==> spec_active_model_file(env) == spec_env_value(
            env,
            "LLAMA_MODEL_FILE="@,
        ),
{
}

/// A file is downloaded from the main branch of its repository.
pub proof fn law_download_url(repo: Seq<char>, file: Seq<char>)
    ensures
        spec_download_url(repo, file) == "https://huggingface.co/"@ + repo + "/resolve/main/"@
            + file + "?download=true"@,
        chars::starts_with(spec_download_url(repo, file), "https://huggingface.co/"@ + repo),
        chars::ends_with(spec_download_url(repo, file), file + "?download=true"@),
{
    let head = "https://huggingface.co/"@ + repo;
    let tail = file + "?download=true"@;
    let all = spec_download_url(repo, file);
    assert(all =~= head + ("/resolve/main/"@ + tail));
    chars::law_ends(head, "/resolve/main/"@ + tail);
    assert(all =~= (head + "/resolve/main/"@) + tail);
    chars::law_ends(head + "/resolve/main/"@, tail);
}

/// A download follows redirects, fails on errors, tells who asks, and goes from the address
/// to the partial file.
pub proof fn law_download_args(version: Seq<char>, partial: Seq<char>, url: Seq<char>)
    ensures
        ({
            let args = spec_download_args(version, partial, url);
            &&& args.len() == 8
            &&& args[0] == "-L"@ && args[1] == "--fail"@
            &&& args[3] == "-H"@ && args[4] == "User-Agent: vello/"@ + version
            &&& args[5] == "-o"@ && args[6] == partial
            &&& args[7] == url
        }),
{
}

} // verus!
