//! Slot identity.
//!
//! A slot is one hot-swappable position in the running system: the agent, a
//! gateway, or a tool. Slots are the unit of building, versioning, health
//! tracking, and rollback.
use vstd::prelude::*;

use crate::text;
use crate::text::{byte_len, cut, replaced};

verus! {

/// One hot-swappable position in the running system.
#[derive(Debug, PartialEq, Eq, Hash)]
pub enum Slot {
    /// The agent itself.
    Agent,
    /// A named gateway.
    Gateway(String),
    /// A named tool.
    Tool(String),
}

/// What a slot is, with its name as text.
pub enum SlotView {
    /// The agent itself.
    Agent,
    /// A named gateway.
    Gateway(Seq<char>),
    /// A named tool.
    Tool(Seq<char>),
}

impl View for Slot {
    type V = SlotView;

    open spec fn view(&self) -> SlotView {
        match self {
            Slot::Agent => SlotView::Agent,
            Slot::Gateway(n) => SlotView::Gateway(n@),
            Slot::Tool(n) => SlotView::Tool(n@),
        }
    }
}

/// The stable key of a slot.
pub open spec fn slot_key(slot: SlotView) -> Seq<char> {
    match slot {
        SlotView::Agent => "agent"@,
        SlotView::Gateway(n) => "gateway/"@ + n,
        SlotView::Tool(n) => "tool/"@ + n,
    }
}

/// The slot a key names, if it names one.
pub open spec fn slot_named(key: Seq<char>) -> Option<SlotView> {
    match cut(key, '/') {
        None => if key == "agent"@ {
            Some(SlotView::Agent)
        } else {
            None
        },
        Some((kind, n)) => if n.len() == 0 {
            None
        } else if kind == "gateway"@ {
            Some(SlotView::Gateway(n))
        } else if kind == "tool"@ {
            Some(SlotView::Tool(n))
        } else {
            None
        },
    }
}

/// Whether a slot that carries a name carries one that is not empty.
pub open spec fn has_name(slot: SlotView) -> bool {
    match slot {
        SlotView::Agent => true,
        SlotView::Gateway(n) => n.len() > 0,
        SlotView::Tool(n) => n.len() > 0,
    }
}

/// The directory a slot's artifacts stand in, below the artifact root.
pub open spec fn slot_subdir(slot: SlotView) -> Seq<char> {
    match slot {
        SlotView::Agent => "agent"@,
        SlotView::Gateway(n) => "gateways/"@ + n,
        SlotView::Tool(n) => "tools/"@ + n,
    }
}

/// The package name of the crate behind a slot.
pub open spec fn slot_crate(slot: SlotView) -> Seq<char> {
    match slot {
        SlotView::Agent => "agent-core"@,
        SlotView::Gateway(n) => "gateway-"@ + n,
        SlotView::Tool(n) => "tool-"@ + n,
    }
}

/// The file name of the component built for a slot.
pub open spec fn slot_file(slot: SlotView) -> Seq<char> {
    replaced(slot_crate(slot), "-"@, "_"@) + ".wasm"@
}

impl Clone for Slot {
    fn clone(&self) -> (r: Slot)
        ensures
            r@ == self@,
    {
        match self {
            Slot::Agent => Slot::Agent,
            Slot::Gateway(n) => Slot::Gateway(n.clone()),
            Slot::Tool(n) => Slot::Tool(n.clone()),
        }
    }
}

impl Slot {
    /// The slot of a tool.
    pub fn tool(name: &str) -> (r: Slot)
        ensures
            r@ == SlotView::Tool(name@),
    {
        Slot::Tool(name.to_owned())
    }

    /// The slot of a gateway.
    pub fn gateway(name: &str) -> (r: Slot)
        ensures
            r@ == SlotView::Gateway(name@),
    {
        Slot::Gateway(name.to_owned())
    }

    /// The stable key of the slot, as stored and as shown to people.
    pub fn key(&self) -> (r: String)
        ensures
            r@ == slot_key(self@),
    {
        match self {
            Slot::Agent => "agent".to_owned(),
            Slot::Gateway(n) => "gateway/".to_owned().concat(n.as_str()),
            Slot::Tool(n) => "tool/".to_owned().concat(n.as_str()),
        }
    }

    /// The slot a key names.
    pub fn parse(key: &str) -> (r: Result<Slot, String>)
        ensures
            match r {
                Ok(slot) => slot_named(key@) == Some(slot@),
                Err(e) => slot_named(key@) is None && e@ == "unknown slot key: "@ + key@,
            },
    {
        match text::split_once(key, '/') {
            None => if text::same(key, "agent") {
                return Ok(Slot::Agent);
            },
            Some((kind, n)) => if !text::is_empty(n.as_str()) {
                if text::same(kind.as_str(), "gateway") {
                    return Ok(Slot::Gateway(n));
                }
                if text::same(kind.as_str(), "tool") {
                    return Ok(Slot::Tool(n));
                }
            },
        }
        Err("unknown slot key: ".to_owned().concat(key))
    }

    /// The directory of the slot's artifacts, below the artifact root.
    pub fn artifact_subdir(&self) -> (r: String)
        ensures
            r@ == slot_subdir(self@),
    {
        match self {
            Slot::Agent => "agent".to_owned(),
            Slot::Gateway(n) => "gateways/".to_owned().concat(n.as_str()),
            Slot::Tool(n) => "tools/".to_owned().concat(n.as_str()),
        }
    }

    /// The package name of the crate behind the slot.
    pub fn crate_name(&self) -> (r: String)
        ensures
            r@ == slot_crate(self@),
    {
        match self {
            Slot::Agent => "agent-core".to_owned(),
            Slot::Gateway(n) => "gateway-".to_owned().concat(n.as_str()),
            Slot::Tool(n) => "tool-".to_owned().concat(n.as_str()),
        }
    }

    /// The file name of the built component.
    pub fn wasm_filename(&self) -> (r: String)
        ensures
            r@ == slot_file(self@),
    {
        proof {
            reveal_strlit("-");
        }
        text::replace(self.crate_name().as_str(), "-", "_").concat(".wasm")
    }

    /// Whether two slots are the same position.
    pub fn is(&self, other: &Slot) -> (r: bool)
        ensures
            r == (self@ == other@),
    {
        match (self, other) {
            (Slot::Agent, Slot::Agent) => true,
            (Slot::Gateway(a), Slot::Gateway(b)) => text::same(a.as_str(), b.as_str()),
            (Slot::Tool(a), Slot::Tool(b)) => text::same(a.as_str(), b.as_str()),
            _ => false,
        }
    }
}

/// The key of a slot names that slot again.
pub proof fn law_key_round_trip(slot: SlotView)
    requires
        has_name(slot),
    ensures
        slot_named(slot_key(slot)) == Some(slot),
{
    reveal_strlit("agent");
    reveal_strlit("gateway");
    reveal_strlit("gateway/");
    reveal_strlit("tool");
    reveal_strlit("tool/");
    match slot {
        SlotView::Agent => {
            text::lemma_position_is("agent"@, '/', 5);
        },
        SlotView::Gateway(n) => {
            assert("gateway/"@ =~= "gateway"@ + seq!['/']);
            text::lemma_cut("gateway"@, '/', n);
        },
        SlotView::Tool(n) => {
            assert("tool/"@ =~= "tool"@ + seq!['/']);
            text::lemma_cut("tool"@, '/', n);
            assert("tool"@ != "gateway"@) by {
                assert("tool"@.len() == 4);
            }
        },
    }
}

/// A key that names a slot is that slot's key.
pub proof fn law_named_by_its_key(key: Seq<char>)
    requires
        slot_named(key) is Some,
    ensures
        slot_key(slot_named(key)->0) == key,
        has_name(slot_named(key)->0),
{
    reveal_strlit("gateway");
    reveal_strlit("gateway/");
    reveal_strlit("tool");
    reveal_strlit("tool/");
    text::lemma_position(key, '/');
    let i = text::position(key, '/');
    if cut(key, '/') is Some {
        let (kind, n) = cut(key, '/')->0;
        assert(key =~= kind + seq!['/'] + n);
        assert("gateway/"@ =~= "gateway"@ + seq!['/']);
        assert("tool/"@ =~= "tool"@ + seq!['/']);
    }
}

/// Slots with the same key are the same slot.
pub proof fn law_keys_tell_slots_apart(a: SlotView, b: SlotView)
    requires
        slot_key(a) == slot_key(b),
    ensures
        a == b,
{
    reveal_strlit("agent");
    reveal_strlit("gateway/");
    reveal_strlit("tool/");
    assert("agent"@.len() == 5 && "agent"@[0] == 'a');
    assert("gateway/"@.len() == 8 && "gateway/"@[0] == 'g');
    assert("tool/"@.len() == 5 && "tool/"@[0] == 't');
    let x = slot_key(a);
    let y = slot_key(b);
    assert(x[0] == y[0]);
    match (a, b) {
        (SlotView::Gateway(m), SlotView::Gateway(n)) => {
            assert(x.skip(8) =~= m);
            assert(y.skip(8) =~= n);
        },
        (SlotView::Tool(m), SlotView::Tool(n)) => {
            assert(x.skip(5) =~= m);
            assert(y.skip(5) =~= n);
        },
        _ => {},
    }
}

/// Whether a character may stand in a component name.
pub open spec fn name_char(c: char) -> bool {
    ('a' <= c && c <= 'z') || ('0' <= c && c <= '9') || c == '-'
}

/// Whether every character may stand in a component name.
pub open spec fn name_chars(name: Seq<char>) -> bool {
    forall|i: int| 0 <= i < name.len() ==> name_char(name[i])
}

/// Why a name cannot be a component's, or nothing if it can.
pub open spec fn name_fault(name: Seq<char>) -> Option<Seq<char>> {
    if name.len() == 0 || byte_len(name) > 48 {
        Some("name must be 1-48 characters"@)
    } else if !name_chars(name) {
        Some("name must contain only lowercase letters, digits, and hyphens"@)
    } else if name[0] == '-' || name.last() == '-' {
        Some("name must not start or end with a hyphen"@)
    } else {
        None
    }
}

/// Names must be safe to use as a directory, a package name, and a tool name
/// exposed to the model.
pub fn validate_component_name(name: &str) -> (r: Result<(), String>)
    ensures
        match r {
            Ok(()) => name_fault(name@) is None,
            Err(e) => name_fault(name@) == Some(e@),
        },
{
    if text::is_empty(name) || text::bytes_in(name) > 48 {
        return Err("name must be 1-48 characters".to_owned());
    }
    let chars = text::chars_of(name);
    for i in 0..chars.len()
        invariant
            chars@ == name@,
            name@.len() > 0,
            byte_len(name@) <= 48,
            forall|j: int| 0 <= j < i ==> name_char(chars@[j]),
    {
        let c: char = chars[i];
        if !(('a' <= c && c <= 'z') || ('0' <= c && c <= '9') || c == '-') {
            assert(!name_char(name@[i as int]));
            return Err(
                "name must contain only lowercase letters, digits, and hyphens".to_owned(),
            );
        }
    }
    if chars[0] == '-' || chars[chars.len() - 1] == '-' {
        return Err("name must not start or end with a hyphen".to_owned());
    }
    Ok(())
}

/// A valid component name has neither a slash nor a dot in it, so it names one
/// directory and never one above it.
pub proof fn law_valid_names_are_one_directory(name: Seq<char>)
    requires
        name_fault(name) is None,
    ensures
        name.len() > 0,
        !name.contains('/'),
        !name.contains('.'),
        !name.contains('\\'),
{
    assert forall|i: int| 0 <= i < name.len() implies name[i] != '/' && name[i] != '.' && name[i]
        != '\\' by {
        assert(name_char(name[i]));
    }
}

/// A slot's directory and its file tell it from every other slot's of its kind, and its
/// crate is named for it.
pub proof fn law_places_tell_slots_apart(a: SlotView, b: SlotView)
    ensures
        slot_subdir(a) == slot_subdir(b) ==> a == b,
        slot_crate(a) == slot_crate(b) ==> a == b || a is Agent || b is Agent,
        a matches SlotView::Tool(n) ==> text::ends(slot_crate(a), n) && text::ends(
            slot_subdir(a),
            n,
        ),
        a matches SlotView::Gateway(n) ==> text::ends(slot_crate(a), n) && text::ends(
            slot_subdir(a),
            n,
        ),
        text::ends(slot_file(a), ".wasm"@),
{
    reveal_strlit("agent");
    reveal_strlit("gateways/");
    reveal_strlit("tools/");
    reveal_strlit("gateway-");
    reveal_strlit("tool-");
    text::lemma_at_the_end(replaced(slot_crate(a), "-"@, "_"@), ".wasm"@);
    match a {
        SlotView::Tool(n) => {
            text::lemma_at_the_end("tool-"@, n);
            text::lemma_at_the_end("tools/"@, n);
        },
        SlotView::Gateway(n) => {
            text::lemma_at_the_end("gateway-"@, n);
            text::lemma_at_the_end("gateways/"@, n);
        },
        _ => {},
    }
    if slot_subdir(a) == slot_subdir(b) {
        let x = slot_subdir(a);
        let y = slot_subdir(b);
        assert(x[0] == y[0]);
        match (a, b) {
            (SlotView::Gateway(m), SlotView::Gateway(n)) => {
                assert(x.skip(9) =~= m);
                assert(y.skip(9) =~= n);
            },
            (SlotView::Tool(m), SlotView::Tool(n)) => {
                assert(x.skip(6) =~= m);
                assert(y.skip(6) =~= n);
            },
            _ => {},
        }
    }
    if slot_crate(a) == slot_crate(b) {
        let x = slot_crate(a);
        let y = slot_crate(b);
        match (a, b) {
            (SlotView::Gateway(m), SlotView::Gateway(n)) => {
                assert(x.skip(8) =~= m);
                assert(y.skip(8) =~= n);
            },
            (SlotView::Tool(m), SlotView::Tool(n)) => {
                assert(x.skip(5) =~= m);
                assert(y.skip(5) =~= n);
            },
            (SlotView::Gateway(_), SlotView::Tool(_)) => {
                assert(x[0] == 'g' && y[0] == 't');
            },
            (SlotView::Tool(_), SlotView::Gateway(_)) => {
                assert(x[0] == 't' && y[0] == 'g');
            },
            _ => {},
        }
    }
}

/// A name is one a component may have exactly where it is neither empty nor too long,
/// holds only small letters, digits and hyphens, and has a hyphen at neither end.
pub proof fn law_a_name_is_refused_only_for_a_reason(name: Seq<char>)
    ensures
        name_fault(name) is None <==> {
            &&& 1 <= name.len()
            &&& byte_len(name) <= 48
            &&& forall|i: int|
                0 <= i < name.len() ==> ('a' <= #[trigger] name[i] && name[i] <= 'z') || ('0'
                    <= name[i] && name[i] <= '9') || name[i] == '-'
            &&& name[0] != '-'
            &&& name.last() != '-'
        },
{
    if name_chars(name) {
        assert forall|i: int| 0 <= i < name.len() implies ('a' <= #[trigger] name[i] && name[i]
            <= 'z') || ('0' <= name[i] && name[i] <= '9') || name[i] == '-' by {
            assert(name_char(name[i]));
        }
    }
}

} // verus!
