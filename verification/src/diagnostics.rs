//! Runtime diagnostics: the requests to the server, and what its answers mean.
use vstd::prelude::*;
use crate::chars;
use crate::docker;
use crate::style;
use crate::style::Style;
use crate::text;

verus! {

// ---------------------------------------------------------------------------
// JSON strings
// ---------------------------------------------------------------------------

/// A character as it is written in a JSON string.
pub open spec fn escape(c: char) -> Seq<char> {
    if c == '\\' {
        seq!['\\', '\\']
    } else if c == '"' {
        seq!['\\', '"']
    } else if c == '\n' {
        seq!['\\', 'n']
    } else if c == '\r' {
        seq!['\\', 'r']
    } else if c == '\t' {
        seq!['\\', 't']
    } else {
        seq![c]
    }
}

pub open spec fn escaped(s: Seq<char>) -> Seq<char>
    decreases s.len(),
{
    if s.len() == 0 {
        Seq::empty()
    } else {
        escaped(s.drop_last()) + escape(s.last())
    }
}

/// The text as a JSON string.
pub open spec fn spec_json_string(s: Seq<char>) -> Seq<char> {
    "\""@ + escaped(s) + "\""@
}

pub fn json_string(s: &str) -> (r: String)
    ensures
        r@ == spec_json_string(s@),
{
    let v: Vec<char> = text::chars_of(s);
    let mut out: String = String::new();
    let mut i: usize = 0;
    assert(out@ =~= escaped(v@.take(0)));
    while i < v.len()
        invariant
            i <= v@.len(),
            out@ == escaped(v@.take(i as int)),
        decreases v@.len() - i,
    {
        let ghost before = out@;
        proof {
            let t = v@.take(i + 1);
            assert(t.drop_last() =~= v@.take(i as int));
            assert(t.last() == v@[i as int]);
        }
        let c: char = v[i];
        if c == '\\' || c == '"' {
            out.push('\\');
            out.push(c);
        } else if c == '\n' {
            out.push('\\');
            out.push('n');
        } else if c == '\r' {
            out.push('\\');
            out.push('r');
        } else if c == '\t' {
            out.push('\\');
            out.push('t');
        } else {
            out.push(c);
        }
        assert(out@ =~= before + escape(c));
        i = i + 1;
    }
    assert(v@.take(i as int) =~= v@);
    text::cat3("\"", &out, "\"")
}

/// The text that the inside of a JSON string stands for, as far as escapes are
/// used that [`escape`] writes.
pub open spec fn unescaped(s: Seq<char>) -> Seq<char>
    decreases s.len(),
{
    if s.len() == 0 {
        Seq::empty()
    } else if s[0] == '\\' && s.len() > 1 {
        let c = if s[1] == 'n' {
            '\n'
        } else if s[1] == 'r' {
            '\r'
        } else if s[1] == 't' {
            '\t'
        } else {
            s[1]
        };
        seq![c] + unescaped(s.skip(2))
    } else {
        seq![s[0]] + unescaped(s.skip(1))
    }
}

proof fn lemma_unescape_one(c: char, rest: Seq<char>)
    ensures
        unescaped(escape(c) + rest) == seq![c] + unescaped(rest),
{
    let s = escape(c) + rest;
    if escape(c).len() == 2 {
        assert(s.skip(2) =~= rest);
        assert(s[0] == escape(c)[0] && s[1] == escape(c)[1]);
    } else {
        assert(s.skip(1) =~= rest);
        assert(s[0] == c);
    }
}

proof fn lemma_unescape(s: Seq<char>, rest: Seq<char>)
    ensures
        unescaped(escaped(s) + rest) == s + unescaped(rest),
    decreases s.len(),
{
    if s.len() == 0 {
        assert(escaped(s) + rest =~= rest);
        assert(s + unescaped(rest) =~= unescaped(rest));
    } else {
        let t = s.drop_last();
        let c = s.last();
        lemma_unescape(t, escape(c) + rest);
        lemma_unescape_one(c, rest);
        assert(escaped(s) + rest =~= escaped(t) + (escape(c) + rest));
        assert(s + unescaped(rest) =~= t + (seq![c] + unescaped(rest)));
    }
}

/// What is written as a JSON string is read back as it was.
pub proof fn law_json_string_is_read_back(s: Seq<char>)
    ensures
        unescaped(escaped(s)) == s,
{
    lemma_unescape(s, Seq::empty());
    assert(escaped(s) + Seq::<char>::empty() =~= escaped(s));
    assert(s + unescaped(Seq::empty()) =~= s);
}

// ---------------------------------------------------------------------------
// Requests
// ---------------------------------------------------------------------------

/// An address of the local server.
pub open spec fn spec_url(port: u16, path: Seq<char>) -> Seq<char> {
    "http://localhost:"@ + chars::decimal(port as nat) + path
}

pub fn url(port: u16, path: &str) -> (r: String)
    ensures
        r@ == spec_url(port, path@),
{
    let digits: String = text::decimal(port as u128);
    text::cat3("http://localhost:", &digits, path)
}

pub open spec fn spec_health_args(port: u16) -> Seq<Seq<char>> {
    seq!["-fsS"@, spec_url(port, "/health"@)]
}

/// The arguments of `curl` that ask whether the server is up.
pub fn health_args(port: u16) -> (r: Vec<String>)
    ensures
        r.deep_view() == spec_health_args(port),
{
    let address: String = url(port, "/health");
    let r: Vec<String> = text::owned(vec!["-fsS", &address]);
    assert(r.deep_view() =~= seq!["-fsS"@, spec_url(port, "/health"@)]);
    r
}

/// The arguments of `curl` that send a request with a JSON body.
pub open spec fn post_args(address: Seq<char>, body: Seq<char>) -> Seq<Seq<char>> {
    seq!["-fsS"@, address, "-H"@, "Content-Type: application/json"@, "-d"@, body]
}

fn post(address: &str, body: &str) -> (r: Vec<String>)
    ensures
        r.deep_view() == post_args(address@, body@),
{
    let r: Vec<String> = text::owned(
        vec!["-fsS", address, "-H", "Content-Type: application/json", "-d", body],
    );
    assert(r.deep_view() =~= post_args(address@, body@));
    r
}

pub open spec fn spec_health(on: bool, port: u16, answered: bool) -> Result<Seq<char>, Seq<char>> {
    if answered {
        Ok(style::green_text(on, "ok"@) + " API healthy on :"@ + chars::decimal(port as nat))
    } else {
        Err("API not responding on :"@ + chars::decimal(port as nat))
    }
}

/// What the server answers when it is asked whether it is up.
pub fn health(port: u16, answered: bool, st: &Style) -> (r: Result<String, String>)
    ensures
        match r {
            Ok(line) => answered && line@ == style::green_text(st.on(), "ok"@)
                + " API healthy on :"@ + chars::decimal(port as nat),
            Err(e) => !answered && e@ == "API not responding on :"@ + chars::decimal(
                port as nat,
            ),
        },
        chars::result_view(r) == spec_health(st.on(), port, answered),
{
    let digits: String = text::decimal(port as u128);
    if answered {
        let word: String = st.green("ok");
        Ok(text::cat3(&word, " API healthy on :", &digits))
    } else {
        Err(text::cat2("API not responding on :", &digits))
    }
}

pub open spec fn bench_body(prompt: Seq<char>, n: u32) -> Seq<char> {
    "{\"prompt\":"@ + spec_json_string(prompt) + ",\"n_predict\":"@ + chars::decimal(n as nat)
        + ",\"cache_prompt\":false,\"stream\":false}"@
}

pub open spec fn spec_bench_args(port: u16, prompt: Seq<char>, n: u32) -> Seq<Seq<char>> {
    post_args(spec_url(port, "/completion"@), bench_body(prompt, n))
}

/// The arguments of `curl` for a benchmark of `n` tokens.
pub fn bench_args(port: u16, prompt: &str, n: u32) -> (r: Vec<String>)
    ensures
        r.deep_view() == spec_bench_args(port, prompt@, n),
{
    let address: String = url(port, "/completion");
    let quoted: String = json_string(prompt);
    let count: String = text::decimal(n as u128);
    let body: String = text::cat5(
        "{\"prompt\":",
        &quoted,
        ",\"n_predict\":",
        &count,
        ",\"cache_prompt\":false,\"stream\":false}",
    );
    post(&address, &body)
}

/// One line of the results of a benchmark: how many tokens in how many seconds.
pub open spec fn bench_line(
    label: Seq<char>,
    tokens: Seq<char>,
    seconds: Seq<char>,
    rate: Seq<char>,
) -> Seq<char> {
    label + chars::trim(tokens) + " tokens / "@ + seconds + "s = "@ + chars::trim(rate)
        + " tok/s"@
}

fn make_bench_line(label: &str, tokens: &str, seconds: &str, rate: &str) -> (r: String)
    ensures
        r@ == bench_line(label@, tokens@, seconds@, rate@),
{
    let t: String = text::trim(tokens);
    let p: String = text::trim(rate);
    text::cat7(label, &t, " tokens / ", seconds, "s = ", &p, " tok/s")
}

/// What the server measured: tokens, seconds and rate of a phase.
#[derive(Debug)]
pub struct Timing {
    pub tokens: String,
    pub seconds: String,
    pub rate: String,
}

/// The results of a benchmark.
pub fn bench(prompt: &Timing, generation: &Timing) -> (r: String)
    ensures
        r@ == chars::unlines(
            seq![
                bench_line(
                    "  prompt eval:  "@,
                    prompt.tokens@,
                    prompt.seconds@,
                    prompt.rate@,
                ),
                bench_line(
                    "  generation:   "@,
                    generation.tokens@,
                    generation.seconds@,
                    generation.rate@,
                ),
            ],
        ),
{
    let lines: Vec<String> = vec![
        make_bench_line("  prompt eval:  ", &prompt.tokens, &prompt.seconds, &prompt.rate),
        make_bench_line(
            "  generation:   ",
            &generation.tokens,
            &generation.seconds,
            &generation.rate,
        ),
    ];
    assert(lines.deep_view() =~= seq![
        bench_line("  prompt eval:  "@, prompt.tokens@, prompt.seconds@, prompt.rate@),
        bench_line(
            "  generation:   "@,
            generation.tokens@,
            generation.seconds@,
            generation.rate@,
        ),
    ]);
    text::unlines(&lines)
}

/// The name under which the server offers the active model.
pub open spec fn spec_active_alias(env: Option<Seq<char>>) -> Seq<char> {
    match env {
        Some(e) => match docker::spec_env_value(e, "LLAMA_MODEL_ALIAS="@) {
            Some(a) => a,
            None => "local-model"@,
        },
        None => "local-model"@,
    }
}

/// By the `.env`, if there is one that names it.
pub fn active_alias(env: Option<&str>) -> (r: String)
    ensures
        r@ == spec_active_alias(match env {
            Some(e) => Some(e@),
            None => None,
        }),
{
    match env {
        Some(e) => match docker::env_value(e, "LLAMA_MODEL_ALIAS=") {
            Some(a) => a,
            None => "local-model".to_owned(),
        },
        None => "local-model".to_owned(),
    }
}

/// A chat that a model can only answer by calling the tool that it is offered.
pub open spec fn tools_body(alias: Seq<char>) -> Seq<char> {
    "{\"model\":"@ + spec_json_string(alias)
        + ",\"messages\":[{\"role\":\"system\",\"content\":\"You use tools when external data is needed.\"},{\"role\":\"user\",\"content\":\"What is the weather in Paris right now? Use the tool.\"}],\"tools\":[{\"type\":\"function\",\"function\":{\"name\":\"get_weather\",\"description\":\"Get current weather for a city\",\"parameters\":{\"type\":\"object\",\"properties\":{\"city\":{\"type\":\"string\"}},\"required\":[\"city\"]}}}],\"tool_choice\":\"auto\",\"max_tokens\":200,\"temperature\":0}"@
}

pub open spec fn spec_tools_test_args(port: u16, alias: Seq<char>) -> Seq<Seq<char>> {
    post_args(spec_url(port, "/v1/chat/completions"@), tools_body(alias))
}

/// The arguments of `curl` for the test of tool calls.
pub fn tools_test_args(port: u16, alias: &str) -> (r: Vec<String>)
    ensures
        r.deep_view() == spec_tools_test_args(port, alias@),
{
    let address: String = url(port, "/v1/chat/completions");
    let quoted: String = json_string(alias);
    let body: String = text::cat3(
        "{\"model\":",
        &quoted,
        ",\"messages\":[{\"role\":\"system\",\"content\":\"You use tools when external data is needed.\"},{\"role\":\"user\",\"content\":\"What is the weather in Paris right now? Use the tool.\"}],\"tools\":[{\"type\":\"function\",\"function\":{\"name\":\"get_weather\",\"description\":\"Get current weather for a city\",\"parameters\":{\"type\":\"object\",\"properties\":{\"city\":{\"type\":\"string\"}},\"required\":[\"city\"]}}}],\"tool_choice\":\"auto\",\"max_tokens\":200,\"temperature\":0}",
    );
    post(&address, &body)
}

/// The lines that say that a model does not call tools.
pub open spec fn no_tool_call(on: bool, answer: Seq<char>) -> Seq<Seq<char>> {
    seq![
        style::red_text(on, "fail"@) + " model returned plain text, not a tool_call"@,
    ] + (if chars::trim(answer).len() > 0 {
        seq!["  raw: "@ + chars::trim(answer)]
    } else {
        Seq::empty()
    }) + seq!["  Tip: switch to a tools-friendly model: vello switch qwen3-8b"@]
}

pub open spec fn spec_tools_test(on: bool, called: Seq<char>, answer: Seq<char>) -> Result<
    Seq<char>,
    Seq<char>,
> {
    if chars::trim(called).len() > 0 {
        Ok(
            style::green_text(on, "ok"@) + " tool calling works ("@ + chars::trim(called) + ")"@,
        )
    } else {
        Err(chars::unlines(no_tool_call(on, answer)))
    }
}

/// What the test of tool calls found: the name of the tool that was called, if
/// one was, else what the model said instead.
pub fn tools_test(called: &str, answer: &str, st: &Style) -> (r: Result<String, String>)
    ensures
        match r {
            Ok(line) => chars::trim(called@).len() > 0 && line@ == style::green_text(st.on(), "ok"@,
            ) + " tool calling works ("@ + chars::trim(called@) + ")"@,
            Err(e) => chars::trim(called@).len() == 0 && e@ == chars::unlines(
                no_tool_call(st.on(), answer@),
            ),
        },
        chars::result_view(r) == spec_tools_test(st.on(), called@, answer@),
{
    let name: String = text::trim(called);
    if !name.as_str().is_empty() {
        let word: String = st.green("ok");
        return Ok(text::cat4(&word, " tool calling works (", &name, ")"));
    }
    let said: String = text::trim(answer);
    let word: String = st.red("fail");
    let mut lines: Vec<String> = vec![
        text::cat2(&word, " model returned plain text, not a tool_call"),
    ];
    if !said.as_str().is_empty() {
        lines.push(text::cat2("  raw: ", &said));
    }
    lines.push("  Tip: switch to a tools-friendly model: vello switch qwen3-8b".to_owned());
    assert(lines.deep_view() =~= no_tool_call(st.on(), answer@));
    Err(text::unlines(&lines))
}

/// A text in JSON has no bare line end, tab or quote: each is written with a backslash.
pub proof fn law_json_escapes(s: Seq<char>)
    ensures
        forall|i: int|
            0 <= i < escaped(s).len() ==> (#[trigger] escaped(s)[i]) != '\n' && escaped(s)[i]
                != '\r' && escaped(s)[i] != '\t',
        forall|i: int|
            0 <= i < escaped(s).len() && (#[trigger] escaped(s)[i]) == '"' ==> i > 0 && escaped(
                s,
            )[i - 1] == '\\',
        spec_json_string(s) == "\""@ + escaped(s) + "\""@,
    decreases s.len(),
{
    if s.len() > 0 {
        let rest = escaped(s.drop_last());
        let end = escape(s.last());
        let all = escaped(s);
        law_json_escapes(s.drop_last());
        assert(all == rest + end);
        assert forall|i: int| 0 <= i < all.len() implies (#[trigger] all[i]) != '\n' && all[i]
            != '\r' && all[i] != '\t' by {
            if i < rest.len() {
                assert(all[i] == rest[i]);
            } else {
                assert(all[i] == end[i - rest.len()]);
            }
        }
        assert forall|i: int| 0 <= i < all.len() && (#[trigger] all[i]) == '"' implies i > 0
            && all[i - 1] == '\\' by {
            if i < rest.len() {
                assert(all[i] == rest[i]);
                assert(rest[i - 1] == all[i - 1]);
            } else {
                assert(all[i] == end[i - rest.len()]);
                assert(all[i - 1] == end[i - rest.len() - 1]);
            }
        }
    }
}

/// What is asked of the server on its port, with `curl`: whether it is up; to complete the
/// prompt with so many tokens; and to answer a question for which the model, by its alias,
/// has a tool.
pub proof fn law_requests(port: u16, prompt: Seq<char>, n: u32, alias: Seq<char>)
    ensures
        ({
            let server = "http://localhost:"@ + chars::decimal(port as nat);
            let bench = spec_bench_args(port, prompt, n);
            let tools = spec_tools_test_args(port, alias);
            &&& spec_health_args(port) == seq!["-fsS"@, server + "/health"@]
            &&& bench.len() == 6 && bench[0] == "-fsS"@ && bench[1] == server + "/completion"@
            &&& bench[2] == "-H"@ && bench[3] == "Content-Type: application/json"@
            &&& bench[4] == "-d"@ && bench[5] == "{\"prompt\":"@ + spec_json_string(prompt)
                + ",\"n_predict\":"@ + chars::decimal(n as nat)
                + ",\"cache_prompt\":false,\"stream\":false}"@
            &&& tools.len() == 6 && tools[0] == "-fsS"@ && tools[1] == server
                + "/v1/chat/completions"@
            &&& tools[2] == "-H"@ && tools[3] == "Content-Type: application/json"@
            &&& tools[4] == "-d"@ && chars::starts_with(
                tools[5],
                "{\"model\":"@ + spec_json_string(alias),
            )
        }),
{
    let head = "{\"model\":"@ + spec_json_string(alias);
    assert(tools_body(alias).take(head.len() as int) =~= head);
}

/// The server is healthy exactly where it answered, and tool calls work exactly where a tool
/// was called.
pub proof fn law_results(port: u16, answered: bool, called: Seq<char>, answer: Seq<char>)
    ensures
        spec_health(false, port, answered) is Ok <==> answered,
        answered ==> spec_health(false, port, answered) == Ok::<Seq<char>, Seq<char>>(
            "ok"@ + " API healthy on :"@ + chars::decimal(port as nat),
        ),
        !answered ==> spec_health(false, port, answered) == Err::<Seq<char>, Seq<char>>(
            "API not responding on :"@ + chars::decimal(port as nat),
        ),
        spec_tools_test(false, called, answer) is Ok <==> chars::trim(called).len() > 0,
        chars::trim(called).len() > 0 ==> spec_tools_test(false, called, answer) == Ok::<
            Seq<char>,
            Seq<char>,
        >("ok"@ + " tool calling works ("@ + chars::trim(called) + ")"@),
        no_tool_call(false, answer).len() == (if chars::trim(answer).len() > 0 {
            3int
        } else {
            2int
        }),
        chars::trim(answer).len() > 0 ==> no_tool_call(false, answer)[1] == "  raw: "@
            + chars::trim(answer),
{
}

/// A line of a benchmark has its numbers in their places.
pub proof fn law_bench_line(
    label: Seq<char>,
    tokens: Seq<char>,
    seconds: Seq<char>,
    rate: Seq<char>,
)
    ensures
        bench_line(label, tokens, seconds, rate) == label + chars::trim(tokens) + " tokens / "@
            + seconds + "s = "@ + chars::trim(rate) + " tok/s"@,
{
}

/// The model is asked for by the alias that the `.env` has for it, and else by a name that
/// any server takes.
pub proof fn law_active_alias(env: Seq<char>)
    ensures
        spec_active_alias(None) == "local-model"@,
        docker::spec_env_value(env, "LLAMA_MODEL_ALIAS="@) matches Some(a) ==> spec_active_alias(
            Some(env),
        ) == a,
        docker::spec_env_value(env, "LLAMA_MODEL_ALIAS="@) is None ==> spec_active_alias(Some(env))
            == "local-model"@,
{
}

} // verus!
