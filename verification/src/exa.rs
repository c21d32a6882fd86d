//! Calls to Exa.ai, made with `curl` in the sandbox.
use vstd::prelude::*;

use crate::json;
use crate::json::{compact_text, shown_text, Json, JsonView};
use crate::text;
use crate::text::{replaced, signed_decimal, signed_number};
use crate::types::ExecResult;

verus! {

/// How long a call may take.
pub const TIMEOUT_MS: u32 = 30000;

/// Why no call can be made without the sandbox.
pub const NO_SANDBOX: &'static str = "sandbox is not available, cannot make HTTP requests";

/// A text inside single quotes of a shell: each quote of its own ends the
/// quotes, stands escaped, and starts them again.
pub open spec fn quoted(s: Seq<char>) -> Seq<char> {
    replaced(s, "'"@, "'\\''"@)
}

/// The command that posts a document to an endpoint.
pub open spec fn post_command(endpoint: Seq<char>, key: Seq<char>, body: JsonView) -> Seq<char> {
    "curl -X POST 'https://api.exa.ai/"@ + endpoint + "' -H 'x-api-key: "@ + key
        + "' -H 'Content-Type: application/json' -d '"@ + quoted(compact_text(body)) + "' 2>&1"@
}

/// The command that posts a document to an endpoint.
pub fn post(endpoint: &str, key: &str, body: &Json) -> (r: String)
    ensures
        r@ == post_command(endpoint@, key@, body@),
{
    let plain = body.to_text();
    proof {
        reveal_strlit("'");
    }
    let safe = text::replace(plain.as_str(), "'", "'\\''");
    "curl -X POST 'https://api.exa.ai/".to_owned().concat(endpoint).concat(
        "' -H 'x-api-key: ",
    ).concat(key).concat("' -H 'Content-Type: application/json' -d '").concat(
        safe.as_str(),
    ).concat("' 2>&1")
}

/// What a command that failed left behind.
pub open spec fn failure_text(result: ExecResult) -> Seq<char> {
    "curl failed (exit "@ + signed_decimal(result.exit_code as int) + "): stdout: "@
        + result.stdout@ + " stderr: "@ + result.stderr@
}

/// What a command that failed left behind.
pub fn failure(result: &ExecResult) -> (r: String)
    ensures
        r@ == failure_text(*result),
{
    "curl failed (exit ".to_owned().concat(signed_number(result.exit_code as i64).as_str()).concat(
        "): stdout: ",
    ).concat(result.stdout.as_str()).concat(" stderr: ").concat(result.stderr.as_str())
}

/// The value of a flag that may be left out.
pub open spec fn flag(args: JsonView, name: Seq<char>, usual: bool) -> bool {
    match json::bool_field(args, name) {
        Some(b) => b,
        None => usual,
    }
}

/// The value of a flag that may be left out.
pub fn flag_of(args: &Json, name: &str, usual: bool) -> (r: bool)
    ensures
        r == flag(args@, name@, usual),
{
    match args.get_bool(name) {
        Some(b) => b,
        None => usual,
    }
}

/// A flag as a document, where it is set.
pub open spec fn set_flag(on: bool) -> Option<JsonView> {
    if on {
        Some(JsonView::Bool(true))
    } else {
        None
    }
}

/// A flag as a document, where it is set.
pub fn flag_set(on: bool) -> (r: Option<Json>)
    ensures
        json::opt_tree(r) == set_flag(on),
{
    if on {
        Some(Json::Bool(true))
    } else {
        None
    }
}

/// A list of the arguments, unless it is missing or empty.
pub open spec fn filled_list(args: JsonView, name: Seq<char>) -> Option<Seq<JsonView>> {
    match json::array_field(args, name) {
        Some(items) => if items.len() > 0 {
            Some(items)
        } else {
            None
        },
        None => None,
    }
}

/// A list of the arguments as a document, unless it is missing or empty.
pub fn filled(args: &Json, name: &str) -> (r: Option<Json>)
    ensures
        json::opt_tree(r) == match filled_list(args@, name@) {
            Some(items) => Some(JsonView::Array(items)),
            None => None,
        },
{
    match args.get_array(name) {
        Some(items) => {
            proof {
                json::lemma_trees(items@);
            }
            if items.len() > 0 {
                Some(copy_list(items))
            } else {
                None
            }
        },
        None => None,
    }
}

/// A copy of a list, as a document.
pub fn copy_list(items: &Vec<Json>) -> (r: Json)
    ensures
        r@ == JsonView::Array(json::trees(items@)),
{
    let mut out: Vec<Json> = Vec::new();
    for i in 0..items.len()
        invariant
            json::trees(out@) == json::trees(items@.take(i as int)),
    {
        let ghost had = out@;
        let item = items[i].copy();
        out.push(item);
        proof {
            json::lemma_trees_push(had, item);
            assert(items@.take(i + 1).drop_last() =~= items@.take(i as int));
        }
    }
    assert(items@.take(items@.len() as int) =~= items@);
    Json::Array(out)
}

/// The document a tool's settings spell; settings that spell none are empty.
pub open spec fn settings_of(parse: Result<JsonView, Seq<char>>) -> JsonView {
    match parse {
        Ok(j) => j,
        Err(_) => JsonView::Object(Map::empty()),
    }
}

/// Why arguments that spell no document are refused.
pub open spec fn arguments_fault(e: Seq<char>) -> Seq<char> {
    "arguments were not valid JSON: "@ + e
}

/// A document to read, or the raw output where it spells none.
pub open spec fn readable(output: Seq<char>, parse: Result<JsonView, Seq<char>>) -> Seq<char> {
    match parse {
        Ok(j) => shown_text(j),
        Err(_) => output,
    }
}

// --- laws -------------------------------------------------------------------

/// The word a shell reads from what follows a single quote, up to the quote that
/// ends the word; nothing where none does. Inside the quotes every character
/// stands for itself; between them an escaped quote stands for a quote.
pub open spec fn in_quotes(s: Seq<char>) -> Option<Seq<char>>
    decreases s.len(),
{
    if s.len() == 0 {
        None
    } else if s[0] != '\'' {
        match in_quotes(s.skip(1)) {
            Some(rest) => Some(seq![s[0]] + rest),
            None => None,
        }
    } else if s.len() == 1 {
        Some(Seq::empty())
    } else if s.len() >= 4 && s[1] == '\\' && s[2] == '\'' && s[3] == '\'' {
        match in_quotes(s.skip(4)) {
            Some(rest) => Some(seq!['\''] + rest),
            None => None,
        }
    } else {
        None
    }
}

/// A quoted text reaches the command as it is: whatever quotes it holds, a shell
/// reads it as one word, and that word is the text.
pub proof fn law_a_quoted_text_is_one_word(s: Seq<char>)
    ensures
        in_quotes(quoted(s).push('\'')) == Some(s),
    decreases s.len(),
{
    reveal_strlit("'");
    reveal_strlit("'\\''");
    let one = "'"@;
    let four = "'\\''"@;
    let t = quoted(s).push('\'');
    if s.len() == 0 {
        assert(t.len() == 1 && t[0] == '\'');
        assert(s =~= Seq::empty());
    } else {
        let rest = s.skip(1);
        let u = quoted(rest).push('\'');
        law_a_quoted_text_is_one_word(rest);
        assert(seq![s[0]] + rest =~= s);
        if s[0] == '\'' {
            assert(s.subrange(0, 1) =~= one);
            assert(text::begins(s, one));
            assert(t =~= four + u);
            assert(t.skip(4) =~= u);
        } else {
            assert(!text::begins(s, one)) by {
                if text::begins(s, one) {
                    assert(s.subrange(0, 1)[0] == one[0]);
                }
            }
            assert(t =~= seq![s[0]] + u);
            assert(t.skip(1) =~= u);
        }
    }
}

/// A request goes to its endpoint with the key it was given, and the document it sends
/// is quoted whole.
pub proof fn law_a_request_carries_what_it_was_given(
    endpoint: Seq<char>,
    key: Seq<char>,
    body: JsonView,
)
    ensures
        text::begins(
            post_command(endpoint, key, body),
            "curl -X POST 'https://api.exa.ai/"@ + endpoint + "' -H 'x-api-key: "@ + key,
        ),
        text::ends(post_command(endpoint, key, body), quoted(compact_text(body)) + "' 2>&1"@),
{
    let head = "curl -X POST 'https://api.exa.ai/"@ + endpoint + "' -H 'x-api-key: "@ + key;
    let mid = "' -H 'Content-Type: application/json' -d '"@;
    let q = quoted(compact_text(body));
    let end = "' 2>&1"@;
    text::lemma_more_follows(head, head, mid);
    text::lemma_more_follows(head + mid, head, q);
    text::lemma_more_follows(head + mid + q, head, end);
    text::lemma_at_the_end(head + mid, q + end);
    text::lemma_regroup(head + mid, q, end);
}

/// A command that failed is told with its code and with both its streams.
pub proof fn law_a_failed_command_is_told_whole(result: ExecResult)
    ensures
        text::begins(
            failure_text(result),
            "curl failed (exit "@ + signed_decimal(result.exit_code as int),
        ),
        text::occurs(failure_text(result), result.stdout@),
        text::ends(failure_text(result), result.stderr@),
{
    let a = "curl failed (exit "@ + signed_decimal(result.exit_code as int);
    let b = a + "): stdout: "@;
    let c = b + result.stdout@;
    text::lemma_more_follows(a, a, "): stdout: "@);
    text::lemma_more_follows(b, a, result.stdout@);
    text::lemma_more_follows(c, a, " stderr: "@);
    text::lemma_more_follows(c + " stderr: "@, a, result.stderr@);
    text::lemma_at_the_end(b, result.stdout@);
    text::lemma_more_follows(c, result.stdout@, " stderr: "@);
    text::lemma_more_follows(c + " stderr: "@, result.stdout@, result.stderr@);
    text::lemma_at_the_end(c + " stderr: "@, result.stderr@);
}

/// A switch stands as the arguments say, or else as usual; it is sent only where it is
/// on. A list is sent only where it holds something, and as it came. A configuration
/// that is none says nothing, and an answer that is no document is shown as it is.
pub proof fn law_arguments_are_taken_as_they_came(
    args: JsonView,
    name: Seq<char>,
    usual: bool,
    output: Seq<char>,
    e: Seq<char>,
)
    ensures
        match json::field(args, name) {
            Some(JsonView::Bool(b)) => flag(args, name, usual) == b,
            _ => flag(args, name, usual) == usual,
        },
        set_flag(true) == Some(JsonView::Bool(true)),
        set_flag(false) is None,
        match json::field(args, name) {
            Some(JsonView::Array(items)) => if items.len() > 0 {
                filled_list(args, name) == Some(items)
            } else {
                filled_list(args, name) is None
            },
            _ => filled_list(args, name) is None,
        },
        settings_of(Ok(args)) == args,
        json::field(settings_of(Err(e)), name) is None,
        readable(output, Err(e)) == output,
        text::ends(arguments_fault(e), e),
{
    text::lemma_at_the_end("arguments were not valid JSON: "@, e);
}

} // verus!
