//! A tool that searches the web through Exa.ai.
use vstd::prelude::*;

use crate::exa;
use crate::exa::{
    arguments_fault, failure_text, flag, post_command, readable, set_flag, settings_of,
};
use crate::json;
use crate::json::{
    array_field, compact_text, i64_field, int_tree, parse_of, parsed, put, text_field, Json,
    JsonView,
};
use crate::text;
use crate::text::{outcome_of, texts};
use crate::tools::{
    choice_prop, choice_schema, list_prop, list_schema, obj, schema, string_prop, string_schema,
    typed_prop, typed_schema,
};
use crate::types::{ExecResult, ManifestView, ToolManifest};

verus! {

/// What the tool does.
pub const DESCRIPTION: &'static str = "Search the web using Exa.ai and retrieve content from URLs";

/// The arguments it takes.
pub open spec fn arguments() -> Map<Seq<char>, JsonView> {
    map![
            "action"@ => choice_schema(
                    seq!["search"@, "contents"@],
                    "Action to perform: 'search' to search the web, 'contents' to get content from URLs"@,
                ),
            "query"@ => string_schema("Search query (required for 'search' action)"@),
            "urls"@ => list_schema(
                    "List of URLs to get content from (required for 'contents' action)"@,
                ),
            "num_results"@ => typed_schema(
                    "integer"@,
                    "Number of search results to return (default: 10)"@,
                ),
            "highlights"@ => typed_schema(
                    "boolean"@,
                    "Include highlights in search results (default: true)"@,
                ),
            "text"@ => typed_schema(
                    "boolean"@,
                    "Include full text content (default: true)"@,
                ),
    ]
}

/// How the tool introduces itself.
pub open spec fn introduction() -> ManifestView {
    ManifestView {
        name: "exa-search"@,
        description: DESCRIPTION@,
        args_schema_json: compact_text(schema(arguments(), seq!["action"@])),
        capabilities: seq!["sandbox"@],
    }
}

/// How the tool introduces itself.
pub fn describe() -> (r: ToolManifest)
    ensures
        r@ == introduction(),
{
    let props = Json::object().with(
        "action",
        choice_prop(&["search", "contents"], "Action to perform: 'search' to search the web, 'contents' to get content from URLs"),
    ).with(
        "query",
        string_prop("Search query (required for 'search' action)"),
    ).with(
        "urls",
        list_prop("List of URLs to get content from (required for 'contents' action)"),
    ).with(
        "num_results",
        typed_prop("integer", "Number of search results to return (default: 10)"),
    ).with(
        "highlights",
        typed_prop("boolean", "Include highlights in search results (default: true)"),
    ).with(
        "text",
        typed_prop("boolean", "Include full text content (default: true)"),
    );
    let parameters = obj(props, &["action"]);
    let capabilities: Vec<String> = vec!["sandbox".to_owned()];
    assert(texts(capabilities@) =~= introduction().capabilities);
    ToolManifest {
        name: "exa-search".to_owned(),
        description: DESCRIPTION.to_owned(),
        args_schema_json: parameters.to_text(),
        capabilities,
    }
}

/// What a search asks to see of each result.
pub open spec fn wanted(args: JsonView) -> Map<Seq<char>, JsonView> {
    put(
        put(Map::empty(), "highlights"@, set_flag(flag(args, "highlights"@, true))),
        "text"@,
        set_flag(flag(args, "text"@, true)),
    )
}

/// How many results a search asks for.
pub open spec fn result_count(args: JsonView) -> i64 {
    match i64_field(args, "num_results"@) {
        Some(n) => n,
        None => 10,
    }
}

/// The body of a search.
pub open spec fn search_body(args: JsonView, query: Seq<char>) -> JsonView {
    JsonView::Object(
        put(
            map![
                "query"@ => JsonView::Text(query),
                "numResults"@ => int_tree(result_count(args)),
            ],
            "contents"@,
            if flag(args, "highlights"@, true) || flag(args, "text"@, true) {
                Some(JsonView::Object(wanted(args)))
            } else {
                None
            },
        ),
    )
}

/// The command of a search, or why there is none.
pub open spec fn search_command(args: JsonView, key: Seq<char>) -> Result<Seq<char>, Seq<char>> {
    match text_field(args, "query"@) {
        None => Err("missing required argument 'query' for search action"@),
        Some(query) => Ok(post_command("search"@, key, search_body(args, query))),
    }
}

/// The command that fetches pages, or why there is none.
pub open spec fn contents_command(args: JsonView, key: Seq<char>) -> Result<
    Seq<char>,
    Seq<char>,
> {
    match array_field(args, "urls"@) {
        None => Err("missing required argument 'urls' for contents action"@),
        Some(urls) => if urls.len() == 0 {
            Err("'urls' array cannot be empty"@)
        } else {
            Ok(
                post_command(
                    "contents"@,
                    key,
                    JsonView::Object(
                        map![
                            "urls"@ => JsonView::Array(urls),
                            "text"@ => JsonView::Bool(flag(args, "text"@, true)),
                        ],
                    ),
                ),
            )
        },
    }
}

/// The command that makes a call, or why there is none.
pub open spec fn planned(
    args: Result<JsonView, Seq<char>>,
    config: Result<JsonView, Seq<char>>,
    sandbox: bool,
) -> Result<Seq<char>, Seq<char>> {
    match args {
        Err(e) => Err(arguments_fault(e)),
        Ok(a) => if !sandbox {
            Err(exa::NO_SANDBOX@)
        } else {
            match text_field(a, "action"@) {
                None => Err("missing required argument 'action'"@),
                Some(action) => match text_field(settings_of(config), "api_key"@) {
                    None => Err("missing 'api_key' in tool configuration"@),
                    Some(key) => if action == "search"@ {
                        search_command(a, key)
                    } else if action == "contents"@ {
                        contents_command(a, key)
                    } else {
                        Err("unknown action: "@ + action)
                    },
                },
            }
        },
    }
}

/// The command of a search, or why there is none.
fn handle_search(args: &Json, key: &str) -> (r: Result<String, String>)
    ensures
        outcome_of(r) == search_command(args@, key@),
{
    match args.get_str("query") {
        None => Err("missing required argument 'query' for search action".to_owned()),
        Some(query) => {
            let count: i64 = match args.get_i64("num_results") {
                Some(n) => n,
                None => 10,
            };
            let highlights = exa::flag_of(args, "highlights", true);
            let full = exa::flag_of(args, "text", true);
            let contents = if highlights || full {
                Some(
                    Json::object().with_some("highlights", exa::flag_set(highlights)).with_some(
                        "text",
                        exa::flag_set(full),
                    ),
                )
            } else {
                None
            };
            let body = Json::object().with("query", Json::Text(query)).with(
                "numResults",
                Json::whole(count),
            ).with_some("contents", contents);
            Ok(exa::post("search", key, &body))
        },
    }
}

/// The command that fetches pages, or why there is none.
fn handle_contents(args: &Json, key: &str) -> (r: Result<String, String>)
    ensures
        outcome_of(r) == contents_command(args@, key@),
{
    match args.get_array("urls") {
        None => Err("missing required argument 'urls' for contents action".to_owned()),
        Some(urls) => {
            proof {
                json::lemma_trees(urls@);
            }
            if urls.len() == 0 {
                return Err("'urls' array cannot be empty".to_owned());
            }
            let body = Json::object().with("urls", exa::copy_list(urls)).with(
                "text",
                Json::Bool(exa::flag_of(args, "text", true)),
            );
            Ok(exa::post("contents", key, &body))
        },
    }
}

/// The command that makes a call, given what its arguments and the tool's
/// settings parsed to.
pub fn plan_parsed(args: Result<Json, String>, config: Result<Json, String>, sandbox: bool) -> (r:
    Result<String, String>)
    ensures
        outcome_of(r) == planned(parse_of(args), parse_of(config), sandbox),
{
    match args {
        Err(e) => Err("arguments were not valid JSON: ".to_owned().concat(e.as_str())),
        Ok(a) => {
            if !sandbox {
                return Err(exa::NO_SANDBOX.to_owned());
            }
            let settings = match config {
                Ok(c) => c,
                Err(_) => Json::object(),
            };
            match a.get_str("action") {
                None => Err("missing required argument 'action'".to_owned()),
                Some(action) => match settings.get_str("api_key") {
                    None => Err("missing 'api_key' in tool configuration".to_owned()),
                    Some(key) => if text::same(action.as_str(), "search") {
                        handle_search(&a, key.as_str())
                    } else if text::same(action.as_str(), "contents") {
                        handle_contents(&a, key.as_str())
                    } else {
                        Err("unknown action: ".to_owned().concat(action.as_str()))
                    },
                },
            }
        },
    }
}

/// The command that makes a call, or why there is none.
pub fn plan(args_json: &str, config_json: &str, sandbox: bool) -> (r: Result<String, String>)
    ensures
        outcome_of(r) == planned(parsed(args_json@), parsed(config_json@), sandbox),
{
    plan_parsed(json::parse(args_json), json::parse(config_json), sandbox)
}

/// What a call came to, given what its output parsed to.
pub open spec fn concluded(result: ExecResult, parse: Result<JsonView, Seq<char>>) -> Result<
    Seq<char>,
    Seq<char>,
> {
    if result.exit_code != 0 {
        Err(failure_text(result))
    } else {
        Ok(readable(result.stdout@, parse))
    }
}

/// What a call came to, given what its output parsed to.
pub fn conclude_parsed(result: &ExecResult, parse: Result<Json, String>) -> (r: Result<
    String,
    String,
>)
    ensures
        outcome_of(r) == concluded(*result, parse_of(parse)),
{
    if result.exit_code != 0 {
        return Err(exa::failure(result));
    }
    match parse {
        Ok(j) => Ok(j.to_pretty()),
        Err(_) => Ok(result.stdout.clone()),
    }
}

/// What a call came to.
pub fn conclude(result: &ExecResult) -> (r: Result<String, String>)
    ensures
        outcome_of(r) == concluded(*result, parsed(result.stdout@)),
{
    conclude_parsed(result, json::parse(result.stdout.as_str()))
}

// --- laws -------------------------------------------------------------------

/// A search sends the query as it came, the number of results that was asked for or
/// else ten, and asks for highlights and for text exactly where each is wanted; both
/// are, unless the arguments say otherwise.
pub proof fn law_a_search_asks_for_what_was_wanted(args: JsonView, query: Seq<char>)
    ensures
        ({
            let body = search_body(args, query);
            let highlights = json::field(args, "highlights"@) != Some(JsonView::Bool(false));
            let text = json::field(args, "text"@) != Some(JsonView::Bool(false));
            &&& text_field(body, "query"@) == Some(query)
            &&& i64_field(args, "num_results"@) matches Some(n) ==> i64_field(body, "numResults"@)
                == Some(n)
            &&& i64_field(args, "num_results"@) is None ==> i64_field(body, "numResults"@) == Some(
                10i64,
            )
            &&& highlights || text ==> (json::field(body, "contents"@) matches Some(c) && (
            json::field(c, "highlights"@) == if highlights {
                Some(JsonView::Bool(true))
            } else {
                None
            }) && (json::field(c, "text"@) == if text {
                Some(JsonView::Bool(true))
            } else {
                None
            }))
            &&& !highlights && !text ==> json::field(body, "contents"@) is None
        }),
{
    reveal_strlit("query");
    reveal_strlit("numResults");
    reveal_strlit("contents");
    reveal_strlit("highlights");
    reveal_strlit("text");
    assert("query"@.len() == 5 && "numResults"@.len() == 10 && "contents"@.len() == 8);
    assert("highlights"@.len() == 10 && "text"@.len() == 4);
}

/// A call is planned exactly where the sandbox is there, the configuration holds a key,
/// and the action has what it needs; it then goes to the action's own endpoint with
/// that key. What is missing is named.
pub proof fn law_a_call_is_planned_by_its_action(
    args: JsonView,
    config: Result<JsonView, Seq<char>>,
    e: Seq<char>,
)
    ensures
        planned(Err(e), config, true) matches Err(why) && text::ends(why, e),
        planned(Ok(args), config, false) is Err,
        text_field(settings_of(config), "api_key"@) is None ==> planned(Ok(args), config, true)
            is Err,
        text_field(args, "action"@) is None ==> planned(Ok(args), config, true) is Err,
        text_field(settings_of(config), "api_key"@) matches Some(key) ==> {
            &&& text_field(args, "action"@) == Some("search"@) ==> (match text_field(
                args,
                "query"@,
            ) {
                Some(query) => planned(Ok(args), config, true) matches Ok(c) && text::begins(
                    c,
                    "curl -X POST 'https://api.exa.ai/"@ + "search"@ + "' -H 'x-api-key: "@ + key,
                ) && text::ends(
                    c,
                    exa::quoted(compact_text(search_body(args, query))) + "' 2>&1"@,
                ),
                None => planned(Ok(args), config, true) is Err,
            })
            &&& text_field(args, "action"@) == Some("contents"@) ==> (match array_field(
                args,
                "urls"@,
            ) {
                Some(urls) => (urls.len() > 0 <==> planned(Ok(args), config, true) is Ok) && (
                planned(Ok(args), config, true) matches Ok(c) ==> text::begins(
                    c,
                    "curl -X POST 'https://api.exa.ai/"@ + "contents"@ + "' -H 'x-api-key: "@ + key,
                )),
                None => planned(Ok(args), config, true) is Err,
            })
            &&& text_field(args, "action"@) matches Some(action) ==> (action != "search"@ && action
                != "contents"@ ==> (planned(Ok(args), config, true) matches Err(why) && text::ends(
                why,
                action,
            )))
        },
{
    reveal_strlit("search");
    reveal_strlit("contents");
    assert("search"@.len() == 6 && "contents"@.len() == 8);
    text::lemma_at_the_end("arguments were not valid JSON: "@, e);
    if let Some(key) = text_field(settings_of(config), "api_key"@) {
        if let Some(query) = text_field(args, "query"@) {
            exa::law_a_request_carries_what_it_was_given(
                "search"@,
                key,
                search_body(args, query),
            );
        }
        if let Some(urls) = array_field(args, "urls"@) {
            exa::law_a_request_carries_what_it_was_given(
                "contents"@,
                key,
                JsonView::Object(
                    map![
                        "urls"@ => JsonView::Array(urls),
                        "text"@ => JsonView::Bool(flag(args, "text"@, true)),
                    ],
                ),
            );
        }
        if let Some(action) = text_field(args, "action"@) {
            text::lemma_at_the_end("unknown action: "@, action);
        }
    }
}

/// A command that failed is told as one, and one that worked with what it printed.
pub proof fn law_a_search_is_concluded_as_it_went(
    result: ExecResult,
    parse: Result<JsonView, Seq<char>>,
)
    ensures
        result.exit_code != 0 ==> concluded(result, parse) == Err::<Seq<char>, Seq<char>>(
            failure_text(result),
        ),
        result.exit_code == 0 ==> concluded(result, parse) is Ok,
        result.exit_code == 0 && parse is Err ==> concluded(result, parse) == Ok::<
            Seq<char>,
            Seq<char>,
        >(result.stdout@),
{
}

/// Asking for contents sends every address that was given, in order, and asks for their
/// text unless the arguments say otherwise.
pub proof fn law_contents_are_asked_for_by_address(
    args: JsonView,
    key: Seq<char>,
    urls: Seq<JsonView>,
)
    requires
        array_field(args, "urls"@) == Some(urls),
        urls.len() > 0,
    ensures
        contents_command(args, key) matches Ok(c) && (exists|body: JsonView|
            text::ends(c, exa::quoted(#[trigger] compact_text(body)) + "' 2>&1"@) && array_field(
                body,
                "urls"@,
            ) == Some(urls) && json::field(body, "text"@) == Some(
                JsonView::Bool(json::field(args, "text"@) != Some(JsonView::Bool(false))),
            )),
{
    let body = JsonView::Object(
        map![
            "urls"@ => JsonView::Array(urls),
            "text"@ => JsonView::Bool(flag(args, "text"@, true)),
        ],
    );
    reveal_strlit("urls");
    reveal_strlit("text");
    assert("urls"@[0] == 'u' && "text"@[0] == 't');
    exa::law_a_request_carries_what_it_was_given("contents"@, key, body);
    assert(array_field(body, "urls"@) == Some(urls));
    assert(json::field(body, "text"@) == Some(JsonView::Bool(flag(args, "text"@, true))));
    assert(contents_command(args, key) == Ok::<Seq<char>, Seq<char>>(
        post_command("contents"@, key, body),
    ));
    assert(text::ends(
        post_command("contents"@, key, body),
        exa::quoted(compact_text(body)) + "' 2>&1"@,
    ));
}

/// The tool introduces itself as what it is: it needs the sandbox, and every argument it
/// reads is described.
pub proof fn law_the_search_introduces_itself()
    ensures
        introduction().name == "exa-search"@,
        introduction().capabilities == seq!["sandbox"@],
        arguments().contains_key("action"@) && arguments().contains_key("query"@),
        arguments().contains_key("urls"@) && arguments().contains_key("num_results"@),
        arguments().contains_key("highlights"@) && arguments().contains_key("text"@),
{
}

} // verus!
