//! A tool that retrieves web pages through Exa.ai, with control over text
//! extraction, highlights and subpages.
use vstd::prelude::*;

use crate::exa;
use crate::exa::{
    arguments_fault, failure_text, filled_list, flag, post_command, set_flag, settings_of,
};
use crate::json;
use crate::json::{
    compact_text, field, i64_field, int_tree, parse_of, parsed, put, shown_text, text_field, Json,
    JsonView,
};
use crate::text;
use crate::text::{occurs, outcome_of, text_of, texts};
use crate::tools::{
    choice_prop, choice_schema, list_prop, list_schema, string_prop, string_schema, typed_prop,
    typed_schema,
};
use crate::types::{ExecResult, ManifestView, ToolManifest};

verus! {

/// What the tool does.
pub const DESCRIPTION: &'static str = "Retrieve and parse web page contents using Exa.ai with full control over text extraction, highlights, and subpage inclusion";

/// The arguments it takes.
pub open spec fn arguments() -> Map<Seq<char>, JsonView> {
    map![
            "input"@ => string_schema("What to work on."@),
            "ids"@ => list_schema(
                    "List of Exa document IDs to retrieve (from search results)"@,
                ),
            "urls"@ => list_schema(
                    "List of URLs to retrieve content from"@,
                ),
            "text"@ => typed_schema(
                    "boolean"@,
                    "Include cleaned and parsed text content. Default: false"@,
                ),
            "highlights"@ => typed_schema(
                    "boolean"@,
                    "Include semantic highlights relevant to the query. Default: false"@,
                ),
            "summary"@ => typed_schema(
                    "boolean"@,
                    "Include AI-generated summary. Default: false"@,
                ),
            "livecrawl"@ => choice_schema(
                    seq!["always"@, "fallback"@, "never"@],
                    "When to fetch fresh content. 'always': always crawl live, 'fallback': use cache or crawl if unavailable (default), 'never': only use cached content"@,
                ),
            "subpages"@ => typed_schema(
                    "integer"@,
                    "Number of subpages to include (0-5). Requires autoprompt enabled. Default: 0"@,
                ),
            "subpage_target"@ => typed_schema(
                    "integer"@,
                    "Minimum number of subpages to fetch before using summarization. Default: 3"@,
                ),
            "max_characters"@ => typed_schema(
                    "integer"@,
                    "Maximum characters per page in text response. Min: 50, Max: 2500000"@,
                ),
    ]
}

/// How the tool introduces itself.
pub open spec fn introduction() -> ManifestView {
    ManifestView {
        name: "web-contents"@,
        description: DESCRIPTION@,
        args_schema_json: compact_text(JsonView::Object(
        map![
            "type"@ => JsonView::Text("object"@),
            "properties"@ => JsonView::Object(arguments()),
            "additionalProperties"@ => JsonView::Bool(false),
        ],
    )),
        capabilities: seq!["sandbox"@],
    }
}

/// How the tool introduces itself.
pub fn describe() -> (r: ToolManifest)
    ensures
        r@ == introduction(),
{
    let props = Json::object().with(
        "input",
        string_prop("What to work on."),
    ).with(
        "ids",
        list_prop("List of Exa document IDs to retrieve (from search results)"),
    ).with(
        "urls",
        list_prop("List of URLs to retrieve content from"),
    ).with(
        "text",
        typed_prop("boolean", "Include cleaned and parsed text content. Default: false"),
    ).with(
        "highlights",
        typed_prop("boolean", "Include semantic highlights relevant to the query. Default: false"),
    ).with(
        "summary",
        typed_prop("boolean", "Include AI-generated summary. Default: false"),
    ).with(
        "livecrawl",
        choice_prop(&["always", "fallback", "never"], "When to fetch fresh content. 'always': always crawl live, 'fallback': use cache or crawl if unavailable (default), 'never': only use cached content"),
    ).with(
        "subpages",
        typed_prop("integer", "Number of subpages to include (0-5). Requires autoprompt enabled. Default: 0"),
    ).with(
        "subpage_target",
        typed_prop("integer", "Minimum number of subpages to fetch before using summarization. Default: 3"),
    ).with(
        "max_characters",
        typed_prop("integer", "Maximum characters per page in text response. Min: 50, Max: 2500000"),
    );
    let parameters = Json::object().with("type", Json::text("object")).with("properties", props).with(
        "additionalProperties",
        Json::Bool(false),
    );
    let capabilities: Vec<String> = vec!["sandbox".to_owned()];
    assert(texts(capabilities@) =~= introduction().capabilities);
    ToolManifest {
        name: "web-contents".to_owned(),
        description: DESCRIPTION.to_owned(),
        args_schema_json: parameters.to_text(),
        capabilities,
    }
}

/// The list of pages asked for, by id and by address, and the options.
pub open spec fn options(args: JsonView) -> Map<Seq<char>, JsonView> {
    let named = put(
        put(Map::empty(), "ids"@, list_tree(filled_list(args, "ids"@))),
        "urls"@,
        list_tree(filled_list(args, "urls"@)),
    );
    let wanted = put(
        put(
            put(named, "text"@, set_flag(flag(args, "text"@, false))),
            "highlights"@,
            set_flag(flag(args, "highlights"@, false)),
        ),
        "summary"@,
        set_flag(flag(args, "summary"@, false)),
    );
    put(
        put(
            put(
                put(
                    wanted,
                    "livecrawl"@,
                    match text_field(args, "livecrawl"@) {
                        Some(s) => Some(JsonView::Text(s)),
                        None => None,
                    },
                ),
                "subpages"@,
                match i64_field(args, "subpages"@) {
                    Some(n) => if n > 0 {
                        Some(int_tree(n))
                    } else {
                        None
                    },
                    None => None,
                },
            ),
            "subpageTarget"@,
            number_tree(i64_field(args, "subpage_target"@)),
        ),
        "maxCharacters"@,
        number_tree(i64_field(args, "max_characters"@)),
    )
}

/// A list as a document.
pub open spec fn list_tree(items: Option<Seq<JsonView>>) -> Option<JsonView> {
    match items {
        Some(i) => Some(JsonView::Array(i)),
        None => None,
    }
}

/// A number as a document.
pub open spec fn number_tree(n: Option<i64>) -> Option<JsonView> {
    match n {
        Some(v) => Some(int_tree(v)),
        None => None,
    }
}

/// Whether a word says when to fetch fresh content.
pub open spec fn crawl_word(s: Seq<char>) -> bool {
    s == "always"@ || s == "fallback"@ || s == "never"@
}

/// Why a request is refused, if it is.
pub open spec fn request_fault(args: JsonView) -> Option<Seq<char>> {
    if filled_list(args, "ids"@) is None && filled_list(args, "urls"@) is None {
        Some("either 'ids' or 'urls' must be provided"@)
    } else if text_field(args, "livecrawl"@) matches Some(s) && !crawl_word(s) {
        Some("livecrawl must be 'always', 'fallback', or 'never'"@)
    } else if i64_field(args, "subpages"@) matches Some(n) && (n < 0 || n > 5) {
        Some("subpages must be between 0 and 5"@)
    } else if i64_field(args, "max_characters"@) matches Some(n) && (n < 50 || n > 2500000) {
        Some("max_characters must be between 50 and 2500000"@)
    } else {
        None
    }
}

/// The command that makes a call, or why there is none.
pub open spec fn planned(
    args: Result<JsonView, Seq<char>>,
    config: Result<JsonView, Seq<char>>,
    sandbox: bool,
) -> Result<Seq<char>, Seq<char>> {
    match args {
        Err(e) => Err(arguments_fault(e)),
        Ok(a) => if !sandbox {
            Err(exa::NO_SANDBOX@)
        } else {
            match text_field(settings_of(config), "api_key"@) {
                None => Err(
                    "missing 'api_key' in tool configuration - using parent exa-search key"@,
                ),
                Some(key) => match request_fault(a) {
                    Some(e) => Err(e),
                    None => Ok(post_command("contents"@, key, JsonView::Object(options(a)))),
                },
            }
        },
    }
}

/// Why a request is refused, if it is.
fn fault(args: &Json) -> (r: Option<String>)
    ensures
        text_of(r) == request_fault(args@),
{
    if exa::filled(args, "ids").is_none() && exa::filled(args, "urls").is_none() {
        return Some("either 'ids' or 'urls' must be provided".to_owned());
    }
    if let Some(word) = args.get_str("livecrawl") {
        if !text::same(word.as_str(), "always") && !text::same(word.as_str(), "fallback")
            && !text::same(word.as_str(), "never") {
            return Some("livecrawl must be 'always', 'fallback', or 'never'".to_owned());
        }
    }
    if let Some(n) = args.get_i64("subpages") {
        if n < 0 || n > 5 {
            return Some("subpages must be between 0 and 5".to_owned());
        }
    }
    if let Some(n) = args.get_i64("max_characters") {
        if n < 50 || n > 2500000 {
            return Some("max_characters must be between 50 and 2500000".to_owned());
        }
    }
    None
}

fn number_of(n: Option<i64>) -> (r: Option<Json>)
    ensures
        json::opt_tree(r) == number_tree(n),
{
    match n {
        Some(v) => Some(Json::whole(v)),
        None => None,
    }
}

/// The body of a request.
fn body(args: &Json) -> (r: Json)
    ensures
        r@ == JsonView::Object(options(args@)),
{
    let crawl = match args.get_str("livecrawl") {
        Some(word) => Some(Json::Text(word)),
        None => None,
    };
    let subpages = match args.get_i64("subpages") {
        Some(n) => if n > 0 {
            Some(Json::whole(n))
        } else {
            None
        },
        None => None,
    };
    Json::object().with_some("ids", exa::filled(args, "ids")).with_some(
        "urls",
        exa::filled(args, "urls"),
    ).with_some("text", exa::flag_set(exa::flag_of(args, "text", false))).with_some(
        "highlights",
        exa::flag_set(exa::flag_of(args, "highlights", false)),
    ).with_some("summary", exa::flag_set(exa::flag_of(args, "summary", false))).with_some(
        "livecrawl",
        crawl,
    ).with_some("subpages", subpages).with_some(
        "subpageTarget",
        number_of(args.get_i64("subpage_target")),
    ).with_some("maxCharacters", number_of(args.get_i64("max_characters")))
}

/// The command that makes a call, given what its arguments and the tool's
/// settings parsed to.
pub fn plan_parsed(args: Result<Json, String>, config: Result<Json, String>, sandbox: bool) -> (r:
    Result<String, String>)
    ensures
        outcome_of(r) == planned(parse_of(args), parse_of(config), sandbox),
{
    match args {
        Err(e) => Err("arguments were not valid JSON: ".to_owned().concat(e.as_str())),
        Ok(a) => {
            if !sandbox {
                return Err(exa::NO_SANDBOX.to_owned());
            }
            let settings = match config {
                Ok(c) => c,
                Err(_) => Json::object(),
            };
            match settings.get_str("api_key") {
                None => Err(
                    "missing 'api_key' in tool configuration - using parent exa-search key".to_owned(),
                ),
                Some(key) => match fault(&a) {
                    Some(e) => Err(e),
                    None => Ok(exa::post("contents", key.as_str(), &body(&a))),
                },
            }
        },
    }
}

/// The command that makes a call, or why there is none.
pub fn plan(args_json: &str, config_json: &str, sandbox: bool) -> (r: Result<String, String>)
    ensures
        outcome_of(r) == planned(parsed(args_json@), parsed(config_json@), sandbox),
{
    plan_parsed(json::parse(args_json), json::parse(config_json), sandbox)
}

/// What a call came to, given what its output parsed to.
pub open spec fn concluded(result: ExecResult, parse: Result<JsonView, Seq<char>>) -> Result<
    Seq<char>,
    Seq<char>,
> {
    if result.exit_code != 0 {
        Err(failure_text(result))
    } else {
        match parse {
            Ok(j) => match field(j, "error"@) {
                Some(error) => Err("Exa API error: "@ + compact_text(error)),
                None => Ok(shown_text(j)),
            },
            Err(e) => if occurs(result.stdout@, "error"@) || occurs(result.stdout@, "Error"@) {
                Err("API error: "@ + result.stdout@)
            } else {
                Err(
                    "Failed to parse response as JSON: "@ + e + ". Raw output: "@ + result.stdout@,
                )
            },
        }
    }
}

/// What a call came to, given what its output parsed to.
pub fn conclude_parsed(result: &ExecResult, parse: Result<Json, String>) -> (r: Result<
    String,
    String,
>)
    ensures
        outcome_of(r) == concluded(*result, parse_of(parse)),
{
    if result.exit_code != 0 {
        return Err(exa::failure(result));
    }
    match parse {
        Ok(j) => match j.get("error") {
            Some(error) => Err("Exa API error: ".to_owned().concat(error.to_text().as_str())),
            None => Ok(j.to_pretty()),
        },
        Err(e) => if text::contains(result.stdout.as_str(), "error") || text::contains(
            result.stdout.as_str(),
            "Error",
        ) {
            Err("API error: ".to_owned().concat(result.stdout.as_str()))
        } else {
            Err(
                "Failed to parse response as JSON: ".to_owned().concat(e.as_str()).concat(
                    ". Raw output: ",
                ).concat(result.stdout.as_str()),
            )
        },
    }
}

/// What a call came to.
pub fn conclude(result: &ExecResult) -> (r: Result<String, String>)
    ensures
        outcome_of(r) == concluded(*result, parsed(result.stdout@)),
{
    conclude_parsed(result, json::parse(result.stdout.as_str()))
}

// --- laws -------------------------------------------------------------------

/// Every field of a request comes from the argument of its own name: the lists where
/// they hold something, the switches where they are on, the rest where they are given.
pub proof fn law_every_option_comes_from_its_own_argument(args: JsonView)
    ensures
        ({
            let o = JsonView::Object(options(args));
            &&& json::array_field(o, "ids"@) == filled_list(args, "ids"@)
            &&& json::array_field(o, "urls"@) == filled_list(args, "urls"@)
            &&& json::field(o, "text"@) == set_flag(flag(args, "text"@, false))
            &&& json::field(o, "highlights"@) == set_flag(flag(args, "highlights"@, false))
            &&& json::field(o, "summary"@) == set_flag(flag(args, "summary"@, false))
            &&& text_field(o, "livecrawl"@) == text_field(args, "livecrawl"@)
            &&& i64_field(o, "subpageTarget"@) == i64_field(args, "subpage_target"@)
            &&& i64_field(o, "maxCharacters"@) == i64_field(args, "max_characters"@)
            &&& i64_field(args, "subpages"@) matches Some(n) ==> (i64_field(o, "subpages"@)
                == if n > 0 {
                Some(n)
            } else {
                None
            })
            &&& i64_field(args, "subpages"@) is None ==> i64_field(o, "subpages"@) is None
        }),
{
    reveal_strlit("ids");
    reveal_strlit("urls");
    reveal_strlit("text");
    reveal_strlit("highlights");
    reveal_strlit("summary");
    reveal_strlit("livecrawl");
    reveal_strlit("subpages");
    reveal_strlit("subpageTarget");
    reveal_strlit("maxCharacters");
    assert("ids"@.len() == 3 && "urls"@.len() == 4 && "urls"@[0] == 'u');
    assert("text"@.len() == 4 && "text"@[0] == 't' && "highlights"@.len() == 10);
    assert("summary"@.len() == 7 && "livecrawl"@.len() == 9 && "subpages"@.len() == 8);
    assert("subpageTarget"@.len() == 13 && "subpageTarget"@[0] == 's');
    assert("maxCharacters"@.len() == 13 && "maxCharacters"@[0] == 'm');
}

/// A request is refused exactly where it names no document, says when to crawl in a word
/// that is none, or gives a number that is out of bounds.
pub proof fn law_a_request_is_refused_only_for_a_reason(args: JsonView)
    ensures
        request_fault(args) is None <==> {
            &&& filled_list(args, "ids"@) is Some || filled_list(args, "urls"@) is Some
            &&& text_field(args, "livecrawl"@) matches Some(s) ==> s == "always"@ || s
                == "fallback"@ || s == "never"@
            &&& i64_field(args, "subpages"@) matches Some(n) ==> 0 <= n <= 5
            &&& i64_field(args, "max_characters"@) matches Some(n) ==> 50 <= n <= 2_500_000
        },
{
}

/// A call is planned exactly where the sandbox is there, the configuration holds a key
/// and the request can be made; it then carries that key and those options.
pub proof fn law_a_call_carries_its_options(
    args: JsonView,
    config: Result<JsonView, Seq<char>>,
    e: Seq<char>,
)
    ensures
        planned(Err(e), config, true) matches Err(why) && text::ends(why, e),
        planned(Ok(args), config, false) is Err,
        planned(Ok(args), config, true) is Ok <==> text_field(settings_of(config), "api_key"@)
            is Some && request_fault(args) is None,
        planned(Ok(args), config, true) matches Ok(c) ==> text::begins(
            c,
            "curl -X POST 'https://api.exa.ai/"@ + "contents"@ + "' -H 'x-api-key: "@
                + text_field(settings_of(config), "api_key"@)->0,
        ) && text::ends(
            c,
            exa::quoted(compact_text(JsonView::Object(options(args)))) + "' 2>&1"@,
        ),
{
    text::lemma_at_the_end("arguments were not valid JSON: "@, e);
    if let Some(key) = text_field(settings_of(config), "api_key"@) {
        exa::law_a_request_carries_what_it_was_given(
            "contents"@,
            key,
            JsonView::Object(options(args)),
        );
    }
}

/// A command that failed, an answer that is no document and an answer that reports an
/// error are told as failures, with what was said; any other answer is shown.
pub proof fn law_contents_are_concluded_as_they_came(
    result: ExecResult,
    parse: Result<JsonView, Seq<char>>,
)
    ensures
        result.exit_code != 0 ==> concluded(result, parse) == Err::<Seq<char>, Seq<char>>(
            failure_text(result),
        ),
        parse is Err ==> concluded(result, parse) is Err,
        result.exit_code == 0 && parse is Err ==> text::ends(
            concluded(result, parse)->Err_0,
            result.stdout@,
        ),
        parse matches Ok(j) ==> (result.exit_code == 0 ==> (concluded(result, parse) is Ok <==> field(
            j,
            "error"@,
        ) is None)),
        parse matches Ok(j) ==> (field(j, "error"@) matches Some(error) ==> (result.exit_code == 0
            ==> text::ends(concluded(result, parse)->Err_0, compact_text(error)))),
{
    if let Err(e) = parse {
        text::lemma_at_the_end("API error: "@, result.stdout@);
        text::lemma_at_the_end(
            "Failed to parse response as JSON: "@ + e + ". Raw output: "@,
            result.stdout@,
        );
    }
    if let Ok(j) = parse {
        if let Some(error) = field(j, "error"@) {
            text::lemma_at_the_end("Exa API error: "@, compact_text(error));
        }
    }
}

/// The tool introduces itself as what it is: it needs the sandbox, and every argument it
/// reads is described.
pub proof fn law_the_tool_introduces_itself()
    ensures
        introduction().name == "web-contents"@,
        introduction().capabilities == seq!["sandbox"@],
        arguments().contains_key("ids"@) && arguments().contains_key("urls"@),
        arguments().contains_key("text"@) && arguments().contains_key("highlights"@),
        arguments().contains_key("summary"@) && arguments().contains_key("livecrawl"@),
        arguments().contains_key("subpages"@) && arguments().contains_key("subpage_target"@),
        arguments().contains_key("max_characters"@),
{
}

} // verus!
