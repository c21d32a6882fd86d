use genesis::types::ExecResult;
use genesis::{delete_tool, exa_search, json, web_contents};

fn exec(exit_code: i32, stdout: &str) -> ExecResult {
    ExecResult {
        exit_code,
        stdout: stdout.into(),
        stderr: "E".into(),
        timed_out: false,
        truncated: false,
    }
}

const KEY: &str = r#"{"api_key":"k"}"#;

#[test]
fn a_search_is_posted() {
    let command = exa_search::plan(r#"{"action":"search","query":"it's"}"#, KEY, true).unwrap();
    assert_eq!(
        command,
        "curl -X POST 'https://api.exa.ai/search' -H 'x-api-key: k' -H 'Content-Type: application/json' -d '{\"contents\":{\"highlights\":true,\"text\":true},\"numResults\":10,\"query\":\"it'\\''s\"}' 2>&1"
    );
    let bare = exa_search::plan(
        r#"{"action":"search","query":"q","highlights":false,"text":false,"num_results":-3}"#,
        KEY,
        true,
    )
    .unwrap();
    assert!(bare.contains(r#"-d '{"numResults":-3,"query":"q"}'"#), "{bare}");
    let full =
        exa_search::plan(r#"{"action":"search","query":"q","text":true}"#, KEY, true).unwrap();
    assert!(full.contains(r#""contents":{"highlights":true,"text":true}"#), "{full}");
    let brief =
        exa_search::plan(r#"{"action":"search","query":"q","text":false}"#, KEY, true).unwrap();
    assert!(brief.contains(r#""contents":{"highlights":true},"#), "{brief}");
}

#[test]
fn pages_are_fetched_by_address() {
    let command =
        exa_search::plan(r#"{"action":"contents","urls":["u"]}"#, KEY, true).unwrap();
    assert!(command.contains("https://api.exa.ai/contents"));
    assert!(command.contains(r#"-d '{"text":true,"urls":["u"]}'"#), "{command}");
}

#[test]
fn searches_that_cannot_be_made_are_refused() {
    let plan = |args: &str, config: &str, sandbox: bool| {
        exa_search::plan(args, config, sandbox).unwrap_err()
    };
    assert!(plan("{", KEY, true).starts_with("arguments were not valid JSON: "));
    assert_eq!(
        plan(r#"{"action":"search"}"#, KEY, false),
        "sandbox is not available, cannot make HTTP requests"
    );
    assert_eq!(plan("{}", KEY, true), "missing required argument 'action'");
    assert_eq!(
        plan(r#"{"action":"search"}"#, "not json", true),
        "missing 'api_key' in tool configuration"
    );
    assert_eq!(
        plan(r#"{"action":"search"}"#, KEY, true),
        "missing required argument 'query' for search action"
    );
    assert_eq!(
        plan(r#"{"action":"contents"}"#, KEY, true),
        "missing required argument 'urls' for contents action"
    );
    assert_eq!(
        plan(r#"{"action":"contents","urls":[]}"#, KEY, true),
        "'urls' array cannot be empty"
    );
    assert_eq!(plan(r#"{"action":"fly"}"#, KEY, true), "unknown action: fly");
}

#[test]
fn a_search_result_is_made_readable() {
    assert_eq!(exa_search::conclude(&exec(0, "{\"a\":1}")).unwrap(), "{\n  \"a\": 1\n}");
    assert_eq!(exa_search::conclude(&exec(0, "plain")).unwrap(), "plain");
    assert_eq!(
        exa_search::conclude(&exec(7, "out")).unwrap_err(),
        "curl failed (exit 7): stdout: out stderr: E"
    );
    assert!(exa_search::conclude(&exec(-1, "")).unwrap_err().contains("(exit -1)"));
}

#[test]
fn the_search_tool_introduces_itself() {
    let m = exa_search::describe();
    assert_eq!(m.name, "exa-search");
    assert_eq!(m.capabilities, vec!["sandbox"]);
    let schema = json::parse(&m.args_schema_json).unwrap();
    assert_eq!(schema.get_str("type").unwrap(), "object");
    let props = schema.get("properties").unwrap();
    assert!(props.get("num_results").is_some());
    assert_eq!(schema.get_array("required").unwrap().len(), 1);
    assert_eq!(
        props.get("action").unwrap().get_array("enum").unwrap().len(),
        2
    );
}

#[test]
fn page_options_flow_through() {
    let args = r#"{"ids":["i"],"urls":[],"text":true,"highlights":false,"summary":true,
        "livecrawl":"never","subpages":2,"subpage_target":4,"max_characters":50}"#;
    let command = web_contents::plan(args, KEY, true).unwrap();
    assert!(
        command.contains(
            r#"-d '{"ids":["i"],"livecrawl":"never","maxCharacters":50,"subpageTarget":4,"subpages":2,"summary":true,"text":true}'"#
        ),
        "{command}"
    );
    let none = web_contents::plan(r#"{"urls":["u"],"subpages":0}"#, KEY, true).unwrap();
    assert!(none.contains(r#"-d '{"urls":["u"]}'"#), "{none}");
}

#[test]
fn page_requests_out_of_range_are_refused() {
    let plan = |args: &str| web_contents::plan(args, KEY, true).unwrap_err();
    assert_eq!(plan("{}"), "either 'ids' or 'urls' must be provided");
    assert_eq!(
        plan(r#"{"urls":["u"],"livecrawl":"x"}"#),
        "livecrawl must be 'always', 'fallback', or 'never'"
    );
    assert_eq!(
        plan(r#"{"urls":["u"],"subpages":6}"#),
        "subpages must be between 0 and 5"
    );
    assert_eq!(
        plan(r#"{"urls":["u"],"subpages":-1}"#),
        "subpages must be between 0 and 5"
    );
    assert_eq!(
        plan(r#"{"urls":["u"],"max_characters":49}"#),
        "max_characters must be between 50 and 2500000"
    );
    assert_eq!(
        plan(r#"{"urls":["u"],"max_characters":2500001}"#),
        "max_characters must be between 50 and 2500000"
    );
    assert_eq!(
        web_contents::plan("{}", "{}", true).unwrap_err(),
        "missing 'api_key' in tool configuration - using parent exa-search key"
    );
    assert!(web_contents::plan("{}", KEY, false).unwrap_err().contains("sandbox"));
    assert!(web_contents::plan("", KEY, true).unwrap_err().contains("not valid JSON"));
}

#[test]
fn page_results_are_checked_for_errors() {
    assert_eq!(web_contents::conclude(&exec(0, "[]")).unwrap(), "[]");
    assert_eq!(
        web_contents::conclude(&exec(0, r#"{"error":{"a":1}}"#)).unwrap_err(),
        r#"Exa API error: {"a":1}"#
    );
    assert_eq!(
        web_contents::conclude(&exec(0, "Error 500")).unwrap_err(),
        "API error: Error 500"
    );
    let odd = web_contents::conclude(&exec(0, "<html>")).unwrap_err();
    assert!(odd.starts_with("Failed to parse response as JSON: "), "{odd}");
    assert!(odd.ends_with(". Raw output: <html>"), "{odd}");
    assert!(web_contents::conclude(&exec(1, "")).unwrap_err().starts_with("curl failed"));
    let m = web_contents::describe();
    assert_eq!(m.name, "web-contents");
    assert!(json::parse(&m.args_schema_json).unwrap().get("required").is_none());
}

#[test]
fn a_tool_can_be_deleted() {
    assert_eq!(delete_tool::plan(r#"{"input":"old"}"#).unwrap(), "old");
    assert_eq!(delete_tool::plan("{}").unwrap_err(), "missing required argument 'input'");
    assert!(delete_tool::plan("x").unwrap_err().starts_with("arguments were not valid JSON"));
    assert_eq!(
        delete_tool::conclude("old", Ok(())).unwrap(),
        "Tool 'old' deleted successfully"
    );
    assert_eq!(
        delete_tool::conclude("old", Err("busy".into())).unwrap_err(),
        "failed to delete tool 'old': busy"
    );
    assert_eq!(delete_tool::describe().name, "delete-tool");
}
