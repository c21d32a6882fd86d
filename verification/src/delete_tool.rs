//! A tool that deletes a tool from the system.
use vstd::prelude::*;

use crate::exa::arguments_fault;
use crate::json;
use crate::json::{compact_text, parse_of, parsed, text_field, Json, JsonView};
use crate::text::{outcome_of, texts};
use crate::tools::{obj, schema, string_prop, string_schema};
use crate::types::{ManifestView, ToolManifest};

verus! {

/// What the tool does.
pub const DESCRIPTION: &'static str = "Deletes a tool from the system";

/// The arguments it takes.
pub open spec fn arguments() -> Map<Seq<char>, JsonView> {
    map![
            "input"@ => string_schema("What to work on."@),
    ]
}

/// How the tool introduces itself.
pub open spec fn introduction() -> ManifestView {
    ManifestView {
        name: "delete-tool"@,
        description: DESCRIPTION@,
        args_schema_json: compact_text(schema(arguments(), seq!["input"@])),
        capabilities: Seq::empty(),
    }
}

/// How the tool introduces itself.
pub fn describe() -> (r: ToolManifest)
    ensures
        r@ == introduction(),
{
    let props = Json::object().with(
        "input",
        string_prop("What to work on."),
    );
    let parameters = obj(props, &["input"]);
    let capabilities: Vec<String> = Vec::new();
    assert(texts(capabilities@) =~= introduction().capabilities);
    ToolManifest {
        name: "delete-tool".to_owned(),
        description: DESCRIPTION.to_owned(),
        args_schema_json: parameters.to_text(),
        capabilities,
    }
}

/// The tool a call asks to delete, or why none.
pub open spec fn planned(args: Result<JsonView, Seq<char>>) -> Result<Seq<char>, Seq<char>> {
    match args {
        Err(e) => Err(arguments_fault(e)),
        Ok(a) => match text_field(a, "input"@) {
            Some(name) => Ok(name),
            None => Err("missing required argument 'input'"@),
        },
    }
}

/// The tool a call asks to delete, given what its arguments parsed to.
pub fn plan_parsed(args: Result<Json, String>) -> (r: Result<String, String>)
    ensures
        outcome_of(r) == planned(parse_of(args)),
{
    match args {
        Err(e) => Err("arguments were not valid JSON: ".to_owned().concat(e.as_str())),
        Ok(a) => match a.get_str("input") {
            Some(name) => Ok(name),
            None => Err("missing required argument 'input'".to_owned()),
        },
    }
}

/// The tool a call asks to delete, or why none.
pub fn plan(args_json: &str) -> (r: Result<String, String>)
    ensures
        outcome_of(r) == planned(parsed(args_json@)),
{
    plan_parsed(json::parse(args_json))
}

/// What a deletion came to.
pub open spec fn concluded(name: Seq<char>, deleted: Result<(), String>) -> Result<
    Seq<char>,
    Seq<char>,
> {
    match deleted {
        Ok(_) => Ok("Tool '"@ + name + "' deleted successfully"@),
        Err(e) => Err("failed to delete tool '"@ + name + "': "@ + e@),
    }
}

/// What a deletion came to.
pub fn conclude(name: &str, deleted: Result<(), String>) -> (r: Result<String, String>)
    ensures
        outcome_of(r) == concluded(name@, deleted),
{
    match deleted {
        Ok(_) => Ok("Tool '".to_owned().concat(name).concat("' deleted successfully")),
        Err(e) => Err(
            "failed to delete tool '".to_owned().concat(name).concat("': ").concat(e.as_str()),
        ),
    }
}

// --- laws -------------------------------------------------------------------

/// The tool that is deleted is the one that the arguments name, and what became of it is
/// told with its name.
pub proof fn law_the_tool_that_is_named_is_deleted(
    args: JsonView,
    name: Seq<char>,
    e: Seq<char>,
    deleted: Result<(), String>,
)
    ensures
        match json::field(args, "input"@) {
            Some(JsonView::Text(s)) => planned(Ok(args)) == Ok::<Seq<char>, Seq<char>>(s),
            _ => planned(Ok(args)) is Err,
        },
        planned(Err(e)) matches Err(why) && crate::text::ends(why, e),
        match deleted {
            Ok(_) => concluded(name, deleted) matches Ok(s) && crate::text::occurs(s, name),
            Err(f) => concluded(name, deleted) matches Err(s) && crate::text::occurs(s, name)
                && crate::text::ends(s, f@),
        },
{
    crate::text::lemma_at_the_end("arguments were not valid JSON: "@, e);
    crate::text::lemma_occurs_between("Tool '"@, name, "' deleted successfully"@);
    if let Err(f) = deleted {
        let a = "failed to delete tool '"@ + name;
        crate::text::lemma_at_the_end("failed to delete tool '"@, name);
        crate::text::lemma_more_follows(a, name, "': "@);
        crate::text::lemma_more_follows(a + "': "@, name, f@);
        crate::text::lemma_at_the_end(a + "': "@, f@);
    }
}

/// The tool introduces itself as what it is, and describes the argument it reads.
pub proof fn law_the_tool_introduces_itself()
    ensures
        introduction().name == "delete-tool"@,
        introduction().capabilities.len() == 0,
        arguments().contains_key("input"@),
{
}

} // verus!
