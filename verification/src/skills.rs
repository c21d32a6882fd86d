//! Skills: named instruction sets that shape how the agent works.
//!
//! Each is a markdown file with a small frontmatter block:
//!
//! ```text
//! ---
//! name: Concise replies
//! description: Answer in as few words as the question needs.
//! ---
//!
//! The instructions the agent receives.
//! ```
use vstd::prelude::*;

use crate::order;
use crate::order::{arranged, before, Ranked};
use crate::paths;
use crate::paths::stem;
use crate::text;
use crate::text::{
    after_prefix, cut, find_text, joined, line_texts, pieces, replaced, same_letters, str_of,
    texts, trim_front, trimmed,
};
use crate::types::SkillInfo;

verus! {

/// A named instruction set.
#[derive(Debug, Clone, PartialEq, Eq)]
pub struct Skill {
    /// Its id: the name of its file.
    pub id: String,
    /// Its name.
    pub name: String,
    /// What it is for.
    pub description: String,
    /// What it tells the model.
    pub instructions: String,
}

/// What a skill says.
pub struct SkillView {
    /// Its id.
    pub id: Seq<char>,
    /// Its name.
    pub name: Seq<char>,
    /// What it is for.
    pub description: Seq<char>,
    /// What it tells the model.
    pub instructions: Seq<char>,
}

impl View for Skill {
    type V = SkillView;

    open spec fn view(&self) -> SkillView {
        SkillView {
            id: self.id@,
            name: self.name@,
            description: self.description@,
            instructions: self.instructions@,
        }
    }
}

/// What each skill of a list says.
pub open spec fn skill_views(items: Seq<Skill>) -> Seq<SkillView> {
    items.map_values(|s: Skill| s@)
}

// --- one file ---------------------------------------------------------------

/// An id as a title: hyphens and underscores read as spaces.
pub open spec fn title_of(id: Seq<char>) -> Seq<char> {
    id.map_values(
        |c: char|
            if c == '-' || c == '_' {
                ' '
            } else {
                c
            },
    )
}

/// A text without the characters of one kind it starts with.
pub open spec fn past_leading(s: Seq<char>, c: char) -> Seq<char>
    decreases s.len(),
{
    if s.len() > 0 && s[0] == c {
        past_leading(s.drop_first(), c)
    } else {
        s
    }
}

/// A text without the characters of one kind it ends with.
pub open spec fn before_trailing(s: Seq<char>, c: char) -> Seq<char>
    decreases s.len(),
{
    if s.len() > 0 && s.last() == c {
        before_trailing(s.drop_last(), c)
    } else {
        s
    }
}

/// A value of the frontmatter: without the space and the quotes around it.
pub open spec fn front_value(raw: Seq<char>) -> Seq<char> {
    before_trailing(past_leading(trimmed(raw), '"'), '"')
}

/// What a line of the frontmatter gives for a key, if it gives anything. Keys
/// are told apart by their letters, of either case.
pub open spec fn line_value(line: Seq<char>, key: Seq<char>) -> Option<Seq<char>> {
    match cut(line, ':') {
        Some((k, v)) => if same_letters(trimmed(k), key) {
            Some(front_value(v))
        } else {
            None
        },
        None => None,
    }
}

/// The name the frontmatter gives, the last that is not empty; else the usual
/// one.
pub open spec fn front_name(lines: Seq<Seq<char>>, usual: Seq<char>) -> Seq<char>
    decreases lines.len(),
{
    if lines.len() == 0 {
        usual
    } else {
        match line_value(lines.last(), "name"@) {
            Some(v) => if v.len() > 0 {
                v
            } else {
                front_name(lines.drop_last(), usual)
            },
            None => front_name(lines.drop_last(), usual),
        }
    }
}

/// The description the frontmatter gives, the last if there are several.
pub open spec fn front_description(lines: Seq<Seq<char>>) -> Seq<char>
    decreases lines.len(),
{
    if lines.len() == 0 {
        Seq::empty()
    } else {
        match line_value(lines.last(), "description"@) {
            Some(v) => v,
            None => front_description(lines.drop_last()),
        }
    }
}

/// The frontmatter of a file and what follows it, if it has both.
pub open spec fn divided(source: Seq<char>) -> Option<(Seq<char>, Seq<char>)> {
    match after_prefix(source, "---\n"@) {
        None => None,
        Some(rest) => match find_text(rest, "\n---"@) {
            None => None,
            Some(at) => Some((rest.take(at), rest.skip(at + "\n---"@.len()))),
        },
    }
}

/// The skill a file describes. A file without frontmatter still loads: it falls
/// back to its filename for a title.
pub open spec fn described(id: Seq<char>, source: Seq<char>) -> SkillView {
    let text = replaced(source, "\r\n"@, "\n"@);
    match divided(text) {
        Some((front, remainder)) => SkillView {
            id,
            name: front_name(line_texts(front), title_of(id)),
            description: front_description(line_texts(front)),
            instructions: trimmed(trim_front(past_leading(remainder, '-'))),
        },
        None => SkillView {
            id,
            name: title_of(id),
            description: Seq::empty(),
            instructions: trimmed(text),
        },
    }
}

fn title(id: &str) -> (r: String)
    ensures
        r@ == title_of(id@),
{
    let chars = text::chars_of(id);
    let mut out: Vec<char> = Vec::new();
    for i in 0..chars.len()
        invariant
            chars@ == id@,
            out@ == title_of(id@).take(i as int),
    {
        let c = chars[i];
        if c == '-' || c == '_' {
            out.push(' ');
        } else {
            out.push(c);
        }
        assert(out@ =~= title_of(id@).take(i + 1));
    }
    assert(title_of(id@).take(id@.len() as int) =~= title_of(id@));
    text::string_of(&out)
}

fn skip_leading(s: &str, c: char) -> (r: String)
    ensures
        r@ == past_leading(s@, c),
{
    let chars = text::chars_of(s);
    let n: usize = chars.len();
    let mut i: usize = 0;
    assert(chars@.skip(0) =~= s@);
    while i < n && chars[i] == c
        invariant
            i <= n == chars@.len(),
            past_leading(chars@.skip(i as int), c) == past_leading(s@, c),
        decreases n - i,
    {
        assert(chars@.skip(i as int).drop_first() =~= chars@.skip(i + 1));
        i = i + 1;
    }
    assert(chars@.skip(i as int) =~= chars@.subrange(i as int, n as int));
    text::slice_of(&chars, i, n)
}

fn drop_trailing(s: &str, c: char) -> (r: String)
    ensures
        r@ == before_trailing(s@, c),
{
    let chars = text::chars_of(s);
    let mut i: usize = chars.len();
    assert(chars@.take(i as int) =~= s@);
    while i > 0 && chars[i - 1] == c
        invariant
            i <= chars@.len(),
            before_trailing(chars@.take(i as int), c) == before_trailing(s@, c),
        decreases i,
    {
        assert(chars@.take(i as int).drop_last() =~= chars@.take(i - 1));
        i = i - 1;
    }
    assert(chars@.take(i as int) =~= chars@.subrange(0, i as int));
    text::slice_of(&chars, 0, i)
}

fn divide(source: &str) -> (r: Option<(String, String)>)
    ensures
        match r {
            Some((front, rest)) => divided(source@) == Some((front@, rest@)),
            None => divided(source@) is None,
        },
{
    match text::strip_prefix(source, "---\n") {
        None => None,
        Some(rest) => {
            let chars = text::chars_of(rest.as_str());
            let fence = text::chars_of("\n---");
            match text::find_from(&chars, &fence, 0) {
                None => {
                    assert(!text::occurs(rest@, "\n---"@)) by {
                        if text::occurs(rest@, "\n---"@) {
                            let i = choose|i: int| text::occurs_at(rest@, "\n---"@, i);
                            assert(text::occurs_at(chars@, fence@, i));
                        }
                    }
                    None
                },
                Some(at) => {
                    proof {
                        text::lemma_find_text(rest@, "\n---"@, at as int);
                    }
                    let n: usize = chars.len();
                    let m: usize = fence.len();
                    let from: usize = at + m;
                    assert(rest@.take(at as int) =~= chars@.subrange(0, at as int));
                    assert(rest@.skip(from as int) =~= chars@.subrange(
                        from as int,
                        chars@.len() as int,
                    ));
                    Some(
                        (
                            text::slice_of(&chars, 0, at),
                            text::slice_of(&chars, from, n),
                        ),
                    )
                },
            }
        },
    }
}

/// Splits frontmatter from body. A file without frontmatter still loads: it
/// falls back to its filename for a title.
#[verifier::spinoff_prover]
#[verifier::rlimit(60)]
pub fn parse(id: &str, source: &str) -> (r: Skill)
    ensures
        r@ == described(id@, source@),
{
    proof {
        reveal_strlit("\r\n");
    }
    let source = text::replace(source, "\r\n", "\n");
    let mut name = title(id);
    let mut description = String::new();
    let body = match divide(source.as_str()) {
        None => source,
        Some((front, remainder)) => {
            let lines = text::lines(front.as_str());
            let ghost all = texts(lines@);
            let ghost usual = name@;
            for i in 0..lines.len()
                invariant
                    all == texts(lines@),
                    name@ == front_name(all.take(i as int), usual),
                    description@ == front_description(all.take(i as int)),
            {
                proof {
                    assert(all.take(i + 1).drop_last() =~= all.take(i as int));
                    assert(all.take(i + 1).last() == lines@[i as int]@);
                }
                if let Some((key, value)) = text::split_once(lines[i].as_str(), ':') {
                    let key = text::trim(key.as_str());
                    let plain = text::trim(value.as_str());
                    let value = drop_trailing(skip_leading(plain.as_str(), '"').as_str(), '"');
                    let is_name = text::eq_ignore_case(key.as_str(), "name");
                    proof {
                        // A key is one of the two or neither.
                        reveal_strlit("name");
                        reveal_strlit("description");
                    }
                    if is_name && !text::is_empty(value.as_str()) {
                        name = value;
                    } else if text::eq_ignore_case(key.as_str(), "description") {
                        description = value;
                    }
                }
            }
            assert(all.take(lines@.len() as int) =~= all);
            text::trim_start(skip_leading(remainder.as_str(), '-').as_str())
        },
    };
    Skill {
        id: id.to_owned(),
        name,
        description,
        instructions: text::trim(body.as_str()),
    }
}

// --- the directory ----------------------------------------------------------

/// A file of the skills directory: its name, and its text where it can be read.
#[derive(Debug, PartialEq, Eq)]
pub struct SkillFile {
    /// The file's name.
    pub name: String,
    /// Its text.
    pub body: Option<String>,
}

/// Whether a name is that of a markdown file.
pub open spec fn is_markdown(name: Seq<char>) -> bool {
    name == stem(name) + ".md"@
}

/// The skills among the files of a directory.
pub open spec fn found_in(files: Seq<SkillFile>) -> Seq<SkillView>
    decreases files.len(),
{
    if files.len() == 0 {
        Seq::empty()
    } else {
        let f = files.last();
        match f.body {
            Some(body) => if is_markdown(f.name@) {
                found_in(files.drop_last()).push(described(stem(f.name@), body@))
            } else {
                found_in(files.drop_last())
            },
            None => found_in(files.drop_last()),
        }
    }
}

/// `str::to_lowercase` of a text.
pub uninterp spec fn lowercase(s: Seq<char>) -> Seq<char>;

/// `str::to_lowercase`: the text in lowercase, by Unicode's rules. It depends
/// on the text alone.
#[verifier::external_body]
fn to_lowercase(s: &str) -> (r: String)
    ensures
        r@ == lowercase(s@),
{
    s.to_lowercase()
}

impl Ranked for Skill {
    open spec fn precedes(self, other: Skill) -> bool {
        before(lowercase(self.name@), lowercase(other.name@))
    }

    proof fn ranks_well(a: Skill, b: Skill, c: Skill) {
        let x = lowercase(a.name@);
        let y = lowercase(b.name@);
        let z = lowercase(c.name@);
        order::lemma_total(x, y);
        order::lemma_total(y, z);
        order::lemma_total(x, z);
        if before(x, z) && before(z, y) {
            order::lemma_transitive(x, z, y);
        }
    }

    fn comes_first(&self, other: &Skill) -> (r: bool) {
        order::comes_before(
            to_lowercase(self.name.as_str()).as_str(),
            to_lowercase(other.name.as_str()).as_str(),
        )
    }
}

/// Every skill among the files of a directory, ordered by name so the list is
/// stable between reads.
pub fn discover(files: &Vec<SkillFile>) -> (r: Vec<Skill>)
    ensures
        order::ranked(r@),
        exists|found: Seq<Skill>|
            skill_views(found) == found_in(files@) && r@ == #[trigger] order::in_turn(found),
{
    let mut out: Vec<Skill> = Vec::new();
    assert(skill_views(out@) =~= found_in(files@.take(0)));
    for i in 0..files.len()
        invariant
            skill_views(out@) == found_in(files@.take(i as int)),
    {
        let ghost had = out@;
        proof {
            assert(files@.take(i + 1).drop_last() =~= files@.take(i as int));
            assert(files@.take(i + 1).last() == files@[i as int]);
        }
        let f = &files[i];
        let id = paths::stem_of(f.name.as_str());
        if let Some(body) = &f.body {
            if text::same(f.name.as_str(), id.clone().concat(".md").as_str()) {
                let skill = parse(id.as_str(), body.as_str());
                out.push(skill);
                assert(skill_views(out@) =~= skill_views(had).push(skill@));
            }
        }
    }
    assert(files@.take(files@.len() as int) =~= files@);
    let ghost found = out@;
    let r = order::rank(out);
    assert(r@ == order::in_turn(found));
    r
}

/// Whether some skill has an id.
pub open spec fn has_skill(items: Seq<Skill>, id: Seq<char>) -> bool {
    exists|i: int| 0 <= i < items.len() && (#[trigger] items[i]).id@ == id
}

/// Whether some skill has an id.
pub fn is_known(items: &Vec<Skill>, id: &str) -> (r: bool)
    ensures
        r == has_skill(items@, id@),
{
    for i in 0..items.len()
        invariant
            forall|j: int| 0 <= j < i ==> (#[trigger] items@[j]).id@ != id@,
    {
        if text::same(items[i].id.as_str(), id) {
            assert(items@[i as int].id@ == id@);
            return true;
        }
    }
    false
}

// --- per-session attachment -------------------------------------------------

/// Skills are enabled per conversation, stored as a comma-separated id list in
/// the session's own notes, under this key.
pub const KEY: &'static str = "__skills";

/// Texts trimmed, without those that are then empty.
pub open spec fn filled(items: Seq<Seq<char>>) -> Seq<Seq<char>>
    decreases items.len(),
{
    if items.len() == 0 {
        Seq::empty()
    } else if trimmed(items.last()).len() > 0 {
        filled(items.drop_last()).push(trimmed(items.last()))
    } else {
        filled(items.drop_last())
    }
}

/// The ids a stored list holds.
pub open spec fn ids_in(raw: Option<Seq<char>>) -> Seq<Seq<char>> {
    match raw {
        Some(list) => filled(pieces(list, ',')),
        None => Seq::empty(),
    }
}

/// A list without one id.
pub open spec fn without(ids: Seq<Seq<char>>, id: Seq<char>) -> Seq<Seq<char>>
    decreases ids.len(),
{
    if ids.len() == 0 {
        Seq::empty()
    } else if ids.last() == id {
        without(ids.drop_last(), id)
    } else {
        without(ids.drop_last(), id).push(ids.last())
    }
}

/// A list with one id, or without it, in order.
pub open spec fn toggled(ids: Seq<Seq<char>>, id: Seq<char>, on: bool) -> Seq<Seq<char>> {
    arranged(
        if on {
            without(ids, id).push(id)
        } else {
            without(ids, id)
        },
    )
}

/// What is stored once a skill has been attached or taken off.
pub open spec fn stored(raw: Option<Seq<char>>, id: Seq<char>, on: bool) -> Seq<char> {
    joined(toggled(ids_in(raw), id, on), ","@)
}

/// The ids of the skills attached to a conversation, given what is stored.
pub fn enabled_ids(raw: Option<&str>) -> (r: Vec<String>)
    ensures
        texts(r@) == ids_in(str_of(raw)),
{
    let mut out: Vec<String> = Vec::new();
    match raw {
        None => {
            assert(texts(out@) =~= Seq::<Seq<char>>::empty());
            out
        },
        Some(list) => {
            let parts = text::split(list, ',');
            let ghost all = texts(parts@);
            assert(texts(out@) =~= filled(all.take(0)));
            for i in 0..parts.len()
                invariant
                    all == texts(parts@),
                    texts(out@) == filled(all.take(i as int)),
            {
                let ghost had = out@;
                proof {
                    assert(all.take(i + 1).drop_last() =~= all.take(i as int));
                    assert(all.take(i + 1).last() == parts@[i as int]@);
                }
                let id = text::trim(parts[i].as_str());
                if !text::is_empty(id.as_str()) {
                    out.push(id);
                    proof {
                        text::lemma_texts_push(had, id);
                    }
                }
            }
            assert(all.take(parts@.len() as int) =~= all);
            out
        },
    }
}

/// What is stored once a skill has been attached or taken off, given what was.
pub fn set_enabled(raw: Option<&str>, skill_id: &str, enabled: bool) -> (r: String)
    ensures
        r@ == stored(str_of(raw), skill_id@, enabled),
{
    let ids = enabled_ids(raw);
    let ghost all = texts(ids@);
    let mut kept: Vec<String> = Vec::new();
    assert(texts(kept@) =~= without(all.take(0), skill_id@));
    for i in 0..ids.len()
        invariant
            all == texts(ids@),
            texts(kept@) == without(all.take(i as int), skill_id@),
    {
        let ghost had = kept@;
        proof {
            assert(all.take(i + 1).drop_last() =~= all.take(i as int));
            assert(all.take(i + 1).last() == ids@[i as int]@);
        }
        if !text::same(ids[i].as_str(), skill_id) {
            let id = ids[i].clone();
            kept.push(id);
            proof {
                text::lemma_texts_push(had, id);
            }
        }
    }
    assert(all.take(ids@.len() as int) =~= all);
    if enabled {
        let ghost had = kept@;
        let id = skill_id.to_owned();
        kept.push(id);
        proof {
            text::lemma_texts_push(had, id);
        }
    }
    order::sort(&mut kept);
    text::join(&kept, ",")
}

/// The skills on offer, each with whether it is attached to a conversation.
pub open spec fn infos(skills: Seq<Skill>, enabled: Seq<Seq<char>>) -> Seq<
    (SkillView, bool),
> {
    skills.map_values(|s: Skill| (s@, enabled.contains(s.id@)))
}

/// What each entry of a panel says.
pub open spec fn info_views(items: Seq<SkillInfo>) -> Seq<(SkillView, bool)> {
    items.map_values(
        |s: SkillInfo|
            (
                SkillView {
                    id: s.id@,
                    name: s.name@,
                    description: s.description@,
                    instructions: s.instructions@,
                },
                s.enabled,
            ),
    )
}

/// The skills on offer, each with whether it is attached to a conversation,
/// given what is stored for it.
pub fn list_skills(skills: &Vec<Skill>, raw: Option<&str>) -> (r: Vec<SkillInfo>)
    ensures
        info_views(r@) == infos(skills@, ids_in(str_of(raw))),
{
    let enabled = enabled_ids(raw);
    let ghost all = infos(skills@, texts(enabled@));
    let mut out: Vec<SkillInfo> = Vec::new();
    assert(info_views(out@) =~= all.take(0));
    for i in 0..skills.len()
        invariant
            all == infos(skills@, texts(enabled@)),
            info_views(out@) == all.take(i as int),
    {
        let ghost had = out@;
        let s = &skills[i];
        out.push(
            SkillInfo {
                id: s.id.clone(),
                name: s.name.clone(),
                description: s.description.clone(),
                instructions: s.instructions.clone(),
                enabled: text::listed(&enabled, s.id.as_str()),
            },
        );
        proof {
            assert(info_views(out@) =~= info_views(had).push(all[i as int]));
            assert(all.take(i + 1) =~= all.take(i as int).push(all[i as int]));
        }
    }
    assert(all.take(skills@.len() as int) =~= all);
    out
}

// --- laws -------------------------------------------------------------------

/// Whether an id survives being stored: it is not empty, has no space around it
/// and no comma in it.
pub open spec fn storable(id: Seq<char>) -> bool {
    id.len() > 0 && trimmed(id) == id && !id.contains(',')
}

proof fn lemma_filled_storable(items: Seq<Seq<char>>, i: int)
    requires
        forall|j: int| 0 <= j < items.len() ==> !(#[trigger] items[j]).contains(','),
        0 <= i < filled(items).len(),
    ensures
        storable(filled(items)[i]),
    decreases items.len(),
{
    if items.len() > 0 {
        let rest = items.drop_last();
        assert forall|j: int| 0 <= j < rest.len() implies !(#[trigger] rest[j]).contains(',') by {
            assert(rest[j] == items[j]);
        }
        if i < filled(rest).len() {
            lemma_filled_storable(rest, i);
        } else {
            let last = items.last();
            text::lemma_trimmed_twice(last);
            if trimmed(last).contains(',') {
                text::lemma_trimmed_within(last, ',');
                assert(items[items.len() - 1] == last);
            }
        }
    }
}

/// Every id in a stored list can be stored again.
proof fn lemma_ids_storable(raw: Option<Seq<char>>, i: int)
    requires
        0 <= i < ids_in(raw).len(),
    ensures
        storable(ids_in(raw)[i]),
{
    if let Some(list) = raw {
        assert forall|j: int| 0 <= j < pieces(list, ',').len() implies !(#[trigger] pieces(
            list,
            ',',
        )[j]).contains(',') by {
            text::lemma_pieces_clean(list, ',', j);
        }
        lemma_filled_storable(pieces(list, ','), i);
    }
}

proof fn lemma_filled_keeps(items: Seq<Seq<char>>)
    requires
        forall|i: int| 0 <= i < items.len() ==> storable(#[trigger] items[i]),
    ensures
        filled(items) == items,
    decreases items.len(),
{
    if items.len() > 0 {
        let rest = items.drop_last();
        assert forall|i: int| 0 <= i < rest.len() implies storable(#[trigger] rest[i]) by {
            assert(rest[i] == items[i]);
        }
        lemma_filled_keeps(rest);
        assert(storable(items[items.len() - 1]));
        assert(rest.push(items.last()) =~= items);
    }
}

/// What was stored is what is read back.
proof fn lemma_read_back(ids: Seq<Seq<char>>)
    requires
        forall|i: int| 0 <= i < ids.len() ==> storable(#[trigger] ids[i]),
    ensures
        ids_in(Some(joined(ids, ","@))) == ids,
{
    reveal_strlit(",");
    assert(","@ =~= seq![',']);
    if ids.len() == 0 {
        let none = Seq::<char>::empty();
        assert(joined(ids, ","@) == none);
        text::lemma_position(none, ',');
        assert(pieces(none, ',') == seq![none]);
        assert(seq![none].drop_last() =~= Seq::<Seq<char>>::empty());
        assert(trimmed(none).len() == 0) by {
            text::lemma_blank(none);
        }
        assert(filled(seq![none].drop_last()) == Seq::<Seq<char>>::empty());
        assert(filled(seq![none]) == Seq::<Seq<char>>::empty());
        assert(ids =~= Seq::<Seq<char>>::empty());
    } else {
        assert forall|i: int| 0 <= i < ids.len() implies !(#[trigger] ids[i]).contains(',') by {
            assert(storable(ids[i]));
        }
        text::lemma_pieces_joined(ids, ',');
        lemma_filled_keeps(ids);
    }
}

/// How often a list without an id holds another.
proof fn lemma_without_count(ids: Seq<Seq<char>>, id: Seq<char>, other: Seq<char>)
    ensures
        without(ids, id).to_multiset().count(other) == if other == id {
            0
        } else {
            ids.to_multiset().count(other)
        },
    decreases ids.len(),
{
    ids.to_multiset_ensures();
    if ids.len() == 0 {
        without(ids, id).to_multiset_ensures();
    } else {
        let rest = ids.drop_last();
        lemma_without_count(rest, id, other);
        rest.to_multiset_ensures();
        without(rest, id).to_multiset_ensures();
        assert(rest.push(ids.last()) =~= ids);
    }
}

/// Attaching or taking off a skill leaves a list in order that holds that skill
/// once or not at all, and every other as often as before.
pub proof fn law_a_skill_is_attached_and_no_other(
    raw: Option<Seq<char>>,
    id: Seq<char>,
    on: bool,
    other: Seq<char>,
)
    requires
        storable(id),
    ensures
        ids_in(Some(stored(raw, id, on))) == toggled(ids_in(raw), id, on),
        order::in_order(ids_in(Some(stored(raw, id, on)))),
        ids_in(Some(stored(raw, id, on))).to_multiset().count(id) == if on {
            1nat
        } else {
            0
        },
        other != id ==> ids_in(Some(stored(raw, id, on))).to_multiset().count(other) == ids_in(
            raw,
        ).to_multiset().count(other),
        ids_in(Some(stored(raw, id, on))).contains(id) == on,
        other != id ==> ids_in(Some(stored(raw, id, on))).contains(other) == ids_in(raw).contains(
            other,
        ),
{
    let ids = ids_in(raw);
    let next = toggled(ids, id, on);
    lemma_stored_reads_back(raw, id, on);
    lemma_toggled_count(ids, id, on, id);
    lemma_toggled_count(ids, id, on, other);
    next.to_multiset_ensures();
    ids.to_multiset_ensures();
    order::lemma_can_be_arranged(
        if on {
            without(ids, id).push(id)
        } else {
            without(ids, id)
        },
    );
}

proof fn lemma_toggled_count(ids: Seq<Seq<char>>, id: Seq<char>, on: bool, other: Seq<char>)
    ensures
        toggled(ids, id, on).to_multiset().count(other) == if other == id {
            if on {
                1nat
            } else {
                0
            }
        } else {
            ids.to_multiset().count(other)
        },
{
    let base = without(ids, id);
    lemma_without_count(ids, id, other);
    base.to_multiset_ensures();
    let list = if on {
        base.push(id)
    } else {
        base
    };
    order::lemma_can_be_arranged(list);
}

/// What is stored once a skill has been toggled is read back as it was meant.
proof fn lemma_stored_reads_back(raw: Option<Seq<char>>, id: Seq<char>, on: bool)
    requires
        storable(id),
    ensures
        ids_in(Some(stored(raw, id, on))) == toggled(ids_in(raw), id, on),
{
    let ids = ids_in(raw);
    let next = toggled(ids, id, on);
    assert forall|i: int| 0 <= i < next.len() implies storable(#[trigger] next[i]) by {
        let x = next[i];
        lemma_toggled_count(ids, id, on, x);
        next.to_multiset_ensures();
        assert(next.contains(x));
        if x != id {
            ids.to_multiset_ensures();
            assert(ids.contains(x));
            let j = choose|j: int| 0 <= j < ids.len() && ids[j] == x;
            lemma_ids_storable(raw, j);
        }
    }
    lemma_read_back(next);
}

/// Doing it twice is doing it once.
pub proof fn law_enabling_is_idempotent(raw: Option<Seq<char>>, id: Seq<char>, on: bool)
    requires
        storable(id),
    ensures
        stored(Some(stored(raw, id, on)), id, on) == stored(raw, id, on),
{
    lemma_stored_reads_back(raw, id, on);
    lemma_toggled_again(ids_in(raw), id, on, on);
}

/// The last word counts: what came before it leaves no trace.
pub proof fn law_enabling_is_reversible(
    raw: Option<Seq<char>>,
    id: Seq<char>,
    first: bool,
    last: bool,
)
    requires
        storable(id),
    ensures
        stored(Some(stored(raw, id, first)), id, last) == stored(raw, id, last),
{
    lemma_stored_reads_back(raw, id, first);
    lemma_toggled_again(ids_in(raw), id, first, last);
}

proof fn lemma_toggled_again(ids: Seq<Seq<char>>, id: Seq<char>, first: bool, last: bool)
    ensures
        toggled(toggled(ids, id, first), id, last) == toggled(ids, id, last),
{
    let mid = toggled(ids, id, first);
    let a = toggled(mid, id, last);
    let b = toggled(ids, id, last);
    assert forall|x: Seq<char>| a.to_multiset().count(x) == b.to_multiset().count(x) by {
        lemma_toggled_count(mid, id, last, x);
        lemma_toggled_count(ids, id, first, x);
        lemma_toggled_count(ids, id, last, x);
    }
    assert(a.to_multiset() =~= b.to_multiset());
    let la = if last {
        without(mid, id).push(id)
    } else {
        without(mid, id)
    };
    let lb = if last {
        without(ids, id).push(id)
    } else {
        without(ids, id)
    };
    order::lemma_can_be_arranged(la);
    order::lemma_can_be_arranged(lb);
    order::lemma_sorted_unique(lb, b, a);
}

// --- what a skill's file says ------------------------------------------------

/// A line of front matter gives its value to the key before its colon, whatever case
/// the key is in, with the white space and the quotes round it taken off; and to no
/// other key.
pub proof fn law_a_line_gives_its_value_to_its_key(k: Seq<char>, v: Seq<char>, key: Seq<char>)
    requires
        !k.contains(':'),
    ensures
        same_letters(trimmed(k), key) ==> line_value(k + seq![':'] + v, key) == Some(
            front_value(v),
        ),
        !same_letters(trimmed(k), key) ==> line_value(k + seq![':'] + v, key) is None,
        line_value(k, key) is None,
{
    text::lemma_cut(k, ':', v);
    text::lemma_position_is(k, ':', k.len() as int);
}

/// A value stands as it is, but for the white space and the quotes round it.
pub proof fn law_a_value_is_unquoted(before: Seq<char>, v: Seq<char>, after: Seq<char>)
    requires
        v.len() > 0,
        !text::is_white(v[0]),
        !text::is_white(v.last()),
        v[0] != '"',
        v.last() != '"',
        forall|i: int| 0 <= i < before.len() ==> text::is_white(#[trigger] before[i]),
        forall|i: int| 0 <= i < after.len() ==> text::is_white(#[trigger] after[i]),
    ensures
        front_value(before + v + after) == v,
        front_value(before + (seq!['"'] + v + seq!['"']) + after) == v,
{
    let q = seq!['"'] + v + seq!['"'];
    lemma_trimmed_middle(before, v, after);
    assert(!text::is_white('"'));
    assert(q[0] == '"' && q.last() == '"');
    lemma_trimmed_middle(before, q, after);
    assert(past_leading(v, '"') == v);
    assert(before_trailing(v, '"') == v);
    let w = v + seq!['"'];
    assert(q.drop_first() =~= w);
    assert(w[0] == v[0]);
    assert(past_leading(q, '"') == past_leading(w, '"'));
    assert(past_leading(w, '"') == w);
    assert(w.drop_last() =~= v);
    assert(before_trailing(w, '"') == before_trailing(v, '"'));
}

proof fn lemma_trimmed_middle(before: Seq<char>, v: Seq<char>, after: Seq<char>)
    requires
        v.len() > 0,
        !text::is_white(v[0]),
        !text::is_white(v.last()),
        forall|i: int| 0 <= i < before.len() ==> text::is_white(#[trigger] before[i]),
        forall|i: int| 0 <= i < after.len() ==> text::is_white(#[trigger] after[i]),
    ensures
        trimmed(before + v + after) == v,
    decreases before.len(),
{
    let s = before + v + after;
    if before.len() == 0 {
        assert(s =~= v + after);
        assert(s[0] == v[0]);
        text::law_the_end_is_trimmed(v, after);
        assert(text::trim_front(s) == s);
    } else {
        let rest = before.drop_first();
        assert(text::is_white(before[0]));
        assert forall|i: int| 0 <= i < rest.len() implies text::is_white(#[trigger] rest[i]) by {
            assert(rest[i] == before[i + 1]);
        }
        lemma_trimmed_middle(rest, v, after);
        assert(s.drop_first() =~= rest + v + after);
    }
}

/// The description is the last one that the front matter gives, and empty where it
/// gives none; the name is the last that is not empty, or else the usual one.
pub proof fn law_front_matter_is_read_line_by_line(
    lines: Seq<Seq<char>>,
    usual: Seq<char>,
    i: int,
)
    ensures
        0 <= i < lines.len() && line_value(lines[i], "description"@) is Some && (forall|j: int|
            i < j < lines.len() ==> line_value(#[trigger] lines[j], "description"@) is None)
            ==> front_description(lines) == line_value(lines[i], "description"@)->0,
        (forall|j: int|
            0 <= j < lines.len() ==> line_value(#[trigger] lines[j], "description"@) is None)
            ==> front_description(lines).len() == 0,
        0 <= i < lines.len() && (line_value(lines[i], "name"@) matches Some(v) && v.len() > 0) && (
        forall|j: int|
            i < j < lines.len() ==> !(line_value(#[trigger] lines[j], "name"@) matches Some(w)
                && w.len() > 0)) ==> front_name(lines, usual) == line_value(lines[i], "name"@)->0,
        (forall|j: int|
            0 <= j < lines.len() ==> !(line_value(#[trigger] lines[j], "name"@) matches Some(w)
                && w.len() > 0)) ==> front_name(lines, usual) == usual,
    decreases lines.len(),
{
    if lines.len() > 0 {
        let rest = lines.drop_last();
        law_front_matter_is_read_line_by_line(rest, usual, i);
        assert forall|j: int| 0 <= j < rest.len() implies rest[j] == #[trigger] lines[j] by {}
        let last = lines[lines.len() - 1];
        assert(lines.last() == last);
    }
}

/// A file whose front matter stands between its two lines of dashes is divided there.
pub proof fn law_front_matter_is_set_apart(front: Seq<char>, rest: Seq<char>)
    requires
        forall|j: int|
            0 <= j < front.len() ==> !#[trigger] text::occurs_at(
                front + "\n---"@ + rest,
                "\n---"@,
                j,
            ),
    ensures
        divided("---\n"@ + (front + "\n---"@ + rest)) == Some((front, rest)),
{
    let bar = "\n---"@;
    let lead = "---\n"@;
    let body = front + bar + rest;
    let all = lead + body;
    assert(all.subrange(0, lead.len() as int) =~= lead);
    assert(all.skip(lead.len() as int) =~= body);
    let at = front.len() as int;
    assert(body.subrange(at, at + bar.len()) =~= bar);
    text::lemma_find_text(body, bar, at);
    assert(body.take(at) =~= front);
    assert(body.skip(at + bar.len()) =~= rest);
}

/// Whether instructions are the body of a file: what follows the front matter, without
/// the dashes and the white space before it and the white space behind it, and with
/// nothing else left out.
pub open spec fn is_the_body(rest: Seq<char>, instructions: Seq<char>) -> bool {
    exists|i: int, j: int|
        0 <= i <= j <= rest.len() && instructions == #[trigger] rest.subrange(i, j) && (forall|
            k: int,
        |
            0 <= k < i ==> #[trigger] rest[k] == '-' || text::is_white(rest[k])) && (forall|k: int|
            j <= k < rest.len() ==> text::is_white(#[trigger] rest[k]))
}

/// A skill is what its file says: the name and the description of its front matter, and
/// as instructions what follows, without the dashes and the white space round it. A
/// file without front matter is all instructions, under its own id.
pub proof fn law_a_skill_is_what_its_file_says(id: Seq<char>, source: Seq<char>)
    ensures
        ({
            let plain = replaced(source, "\r\n"@, "\n"@);
            let s = described(id, source);
            &&& s.id == id
            &&& divided(plain) matches Some((front, rest)) ==> s.name == front_name(
                line_texts(front),
                title_of(id),
            ) && s.description == front_description(line_texts(front)) && is_the_body(
                rest,
                s.instructions,
            )
            &&& divided(plain) is None ==> s.name == title_of(id) && s.description.len() == 0
                && s.instructions == trimmed(plain)
            &&& s.instructions.len() > 0 ==> !text::is_white(s.instructions[0])
                && !text::is_white(s.instructions.last())
        }),
{
    let plain = replaced(source, "\r\n"@, "\n"@);
    match divided(plain) {
        Some((front, rest)) => {
            let b = text::trim_front(past_leading(rest, '-'));
            text::lemma_ends_dark(b);
            lemma_instructions_within(rest);
        },
        None => {
            text::lemma_ends_dark(plain);
        },
    }
}

proof fn lemma_instructions_within(rest: Seq<char>)
    ensures
        is_the_body(rest, trimmed(trim_front(past_leading(rest, '-')))),
{
    let a = past_leading(rest, '-');
    let b = trim_front(a);
    let t = trimmed(b);
    lemma_past_leading(rest, '-');
    lemma_dashes(rest, '-');
    lemma_front_within(a);
    lemma_front_white(a);
    lemma_front_within(b);
    lemma_front_white(b);
    let f = trim_front(b);
    text::lemma_trim_back(f);
    let by = rest.len() - f.len();
    let to = by + t.len();
    assert(rest.subrange(by, to) =~= t);
    assert forall|k: int| 0 <= k < by implies #[trigger] rest[k] == '-' || text::is_white(
        rest[k],
    ) by {
        let x = rest.len() - a.len();
        let y = rest.len() - b.len();
        if k >= y {
            assert(b[k - y] == rest[k]);
        } else if k >= x {
            assert(a[k - x] == rest[k]);
        }
    }
    assert forall|k: int| to <= k < rest.len() implies text::is_white(#[trigger] rest[k]) by {
        assert(f[k - by] == rest[k]);
    }
}

proof fn lemma_dashes(s: Seq<char>, c: char)
    ensures
        forall|k: int| 0 <= k < s.len() - past_leading(s, c).len() ==> #[trigger] s[k] == c,
    decreases s.len(),
{
    if s.len() > 0 && s[0] == c {
        let t = s.drop_first();
        lemma_dashes(t, c);
        assert forall|k: int| 0 <= k < s.len() - past_leading(s, c).len() implies #[trigger] s[k]
            == c by {
            if k > 0 {
                assert(t[k - 1] == s[k]);
            }
        }
    }
}

proof fn lemma_front_white(s: Seq<char>)
    ensures
        forall|k: int|
            0 <= k < s.len() - trim_front(s).len() ==> text::is_white(#[trigger] s[k]),
    decreases s.len(),
{
    if s.len() > 0 && text::is_white(s[0]) {
        let t = s.drop_first();
        lemma_front_white(t);
        assert forall|k: int| 0 <= k < s.len() - trim_front(s).len() implies text::is_white(
            #[trigger] s[k],
        ) by {
            if k > 0 {
                assert(t[k - 1] == s[k]);
            }
        }
    }
}

proof fn lemma_front_within(s: Seq<char>)
    ensures
        text::trim_front(s).len() <= s.len(),
        text::trim_front(s) == s.skip(s.len() - text::trim_front(s).len()),
    decreases s.len(),
{
    if s.len() > 0 && text::is_white(s[0]) {
        let t = s.drop_first();
        lemma_front_within(t);
        assert(text::trim_front(s) =~= s.skip(s.len() - text::trim_front(s).len()));
    } else {
        assert(s.skip(0) =~= s);
    }
}

/// What is taken off the front of a text is all of one character, and all of it.
proof fn lemma_past_leading(s: Seq<char>, c: char)
    ensures
        past_leading(s, c).len() <= s.len(),
        past_leading(s, c) == s.skip(s.len() - past_leading(s, c).len()),
        past_leading(s, c).len() > 0 ==> past_leading(s, c)[0] != c,
    decreases s.len(),
{
    if s.len() > 0 && s[0] == c {
        let t = s.drop_first();
        lemma_past_leading(t, c);
        assert(past_leading(s, c) =~= s.skip(s.len() - past_leading(s, c).len()));
    } else {
        assert(s.skip(0) =~= s);
    }
}

/// A title is the id with its hyphens and underscores as spaces.
pub proof fn law_a_title_is_the_id_spaced(id: Seq<char>, i: int)
    requires
        0 <= i < id.len(),
    ensures
        title_of(id).len() == id.len(),
        id[i] == '-' || id[i] == '_' ==> title_of(id)[i] == ' ',
        id[i] != '-' && id[i] != '_' ==> title_of(id)[i] == id[i],
{
}

/// The skills that files hold are those of the markdown files that could be read, each
/// under the name of its file, and of no others.
pub proof fn law_every_skill_file_is_read(
    before: Seq<SkillFile>,
    f: SkillFile,
    after: Seq<SkillFile>,
)
    ensures
        found_in(before + seq![f] + after) == found_in(before) + (if f.body is Some && is_markdown(
            f.name@,
        ) {
            seq![described(stem(f.name@), f.body->0@)]
        } else {
            Seq::empty()
        }) + found_in(after),
        found_in(Seq::empty()).len() == 0,
{
    let one = seq![f];
    lemma_found_add(before + one, after);
    lemma_found_add(before, one);
    assert(one.drop_last() =~= Seq::<SkillFile>::empty());
    assert(one.last() == f);
    assert(found_in(Seq::<SkillFile>::empty()) == Seq::<SkillView>::empty());
    if f.body is Some && is_markdown(f.name@) {
        assert(found_in(one) =~= seq![described(stem(f.name@), f.body->0@)]);
    } else {
        assert(found_in(one) =~= Seq::<SkillView>::empty());
    }
}

proof fn lemma_found_add(a: Seq<SkillFile>, b: Seq<SkillFile>)
    ensures
        found_in(a + b) == found_in(a) + found_in(b),
    decreases b.len(),
{
    if b.len() == 0 {
        assert(a + b =~= a);
        assert(found_in(a) + found_in(b) =~= found_in(a));
    } else {
        assert((a + b).drop_last() =~= a + b.drop_last());
        assert((a + b).last() == b.last());
        lemma_found_add(a, b.drop_last());
        let f = b.last();
        if f.body is Some && is_markdown(f.name@) {
            let s = described(stem(f.name@), f.body->0@);
            assert((found_in(a) + found_in(b.drop_last())).push(s) =~= found_in(a) + found_in(
                b.drop_last(),
            ).push(s));
        }
    }
}

/// A conversation is shown every skill, each as it is, with whether it is attached to
/// this conversation.
pub proof fn law_every_skill_is_shown(skills: Seq<Skill>, enabled: Seq<Seq<char>>, i: int)
    requires
        0 <= i < skills.len(),
    ensures
        infos(skills, enabled).len() == skills.len(),
        infos(skills, enabled)[i].0 == skills[i]@,
        infos(skills, enabled)[i].1 <==> (exists|k: int|
            0 <= k < enabled.len() && #[trigger] enabled[k] == skills[i].id@),
{
    let id = skills[i].id@;
    if enabled.contains(id) {
        let k = choose|k: int| 0 <= k < enabled.len() && enabled[k] == id;
        assert(enabled[k] == id);
    }
}

/// A skill's file is one whose name ends as markdown does, and the skill is found under
/// the rest of the name.
pub proof fn law_a_skill_is_found_under_its_files_name(name: Seq<char>, f: SkillFile, body: String)
    requires
        name.len() > 0,
        f.name@ == name + ".md"@,
        f.body == Some(body),
    ensures
        is_markdown(name + ".md"@),
        found_in(seq![f]).len() == 1,
        found_in(seq![f])[0].id == name,
        forall|n: Seq<char>| #[trigger] is_markdown(n) ==> text::ends(n, ".md"@),
{
    reveal_strlit(".md");
    reveal_strlit("md");
    assert(".md"@ =~= seq!['.'] + "md"@);
    assert(!"md"@.contains('.'));
    assert(name + ".md"@ =~= name + seq!['.'] + "md"@);
    paths::lemma_stem(name, "md"@);
    let none = Seq::<SkillFile>::empty();
    law_every_skill_file_is_read(none, f, none);
    assert(none + seq![f] + none =~= seq![f]);
    assert(found_in(none) == Seq::<SkillView>::empty());
    assert(found_in(seq![f]) =~= seq![described(name, body@)]);
    assert forall|n: Seq<char>| #[trigger] is_markdown(n) implies text::ends(n, ".md"@) by {
        text::lemma_at_the_end(stem(n), ".md"@);
    }
}

} // verus!
