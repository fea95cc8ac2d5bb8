use vello::diagnostics::{
    active_alias, bench, bench_args, health, health_args, json_string, tools_test,
    tools_test_args, Timing,
};
use vello::style::Style;

fn plain() -> Style {
    Style::new(false, false)
}

#[test]
fn strings_in_json() {
    assert_eq!(json_string("plain"), "\"plain\"");
    assert_eq!(json_string("a\"b\\c\nd\re\tf"), r#""a\"b\\c\nd\re\tf""#);
    for s in ["", "código", "\\n", "\"\"", "line\nline\t\\"] {
        let back: String = serde_json::from_str(&json_string(s)).unwrap();
        assert_eq!(back, s);
    }
}

#[test]
fn health_of_the_server() {
    assert_eq!(health_args(8080), ["-fsS", "http://localhost:8080/health"]);
    assert_eq!(health(8080, true, &plain()).unwrap(), "ok API healthy on :8080");
    assert_eq!(health(9000, false, &plain()).unwrap_err(), "API not responding on :9000");
}

#[test]
fn a_benchmark() {
    let args = bench_args(8080, "say \"hi\"", 256);
    assert_eq!(args[1], "http://localhost:8080/completion");
    assert_eq!(args[3], "Content-Type: application/json");
    let body: serde_json::Value = serde_json::from_str(&args[5]).unwrap();
    assert_eq!(body["prompt"], "say \"hi\"");
    assert_eq!(body["n_predict"], 256);
    assert_eq!(body["cache_prompt"], false);
    assert_eq!(body["stream"], false);
    let prompt = Timing {
        tokens: "12\n".into(),
        seconds: "0.25".into(),
        rate: "48\n".into(),
    };
    let generation = Timing {
        tokens: "256".into(),
        seconds: "8.00".into(),
        rate: "32".into(),
    };
    assert_eq!(
        bench(&prompt, &generation),
        "  prompt eval:  12 tokens / 0.25s = 48 tok/s\n  generation:   256 tokens / 8.00s = 32 tok/s\n"
    );
}

#[test]
fn the_alias_of_the_active_model() {
    assert_eq!(active_alias(Some("LLAMA_MODEL_ALIAS=\"x-local\"\n")), "x-local");
    assert_eq!(active_alias(Some("FOO=1\n")), "local-model");
    assert_eq!(active_alias(None), "local-model");
}

#[test]
fn the_request_of_the_tool_test() {
    let args = tools_test_args(8080, "x-local");
    assert_eq!(args[1], "http://localhost:8080/v1/chat/completions");
    let body: serde_json::Value = serde_json::from_str(&args[5]).unwrap();
    assert_eq!(body["model"], "x-local");
    assert_eq!(body["messages"][1]["role"], "user");
    assert_eq!(body["tools"][0]["function"]["name"], "get_weather");
    assert_eq!(body["tools"][0]["function"]["parameters"]["required"][0], "city");
    assert_eq!(body["tool_choice"], "auto");
    assert_eq!(body["max_tokens"], 200);
    assert_eq!(body["temperature"], 0);
}

#[test]
fn the_result_of_the_tool_test() {
    assert_eq!(
        tools_test("get_weather\n", "", &plain()).unwrap(),
        "ok tool calling works (get_weather)"
    );
    assert_eq!(
        tools_test("\n", " It rains. \n", &plain()).unwrap_err(),
        "fail model returned plain text, not a tool_call\n  raw: It rains.\n  \
         Tip: switch to a tools-friendly model: vello switch qwen3-8b\n"
    );
    assert_eq!(
        tools_test("", "\n", &plain()).unwrap_err(),
        "fail model returned plain text, not a tool_call\n  \
         Tip: switch to a tools-friendly model: vello switch qwen3-8b\n"
    );
}
