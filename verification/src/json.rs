//! JSON documents.
//!
//! The library works on its own `Json`; reading and writing the text is left
//! to `serde_json`.
use vstd::prelude::*;

use crate::text;
use crate::text::{text_of, texts};

verus! {

/// `serde_json::Value`: a JSON document, opaque here.
#[verifier::external_type_specification]
#[verifier::external_body]
pub struct ExValue(serde_json::Value);

/// `serde_json::Number`: a JSON number, opaque here.
#[verifier::external_type_specification]
#[verifier::external_body]
pub struct ExNumber(serde_json::Number);

/// What a JSON document says. The order in which an object lists its fields
/// says nothing.
pub enum JsonView {
    /// `null`.
    Null,
    /// `true` or `false`.
    Bool(bool),
    /// A whole number that is not negative.
    UInt(u64),
    /// A negative whole number.
    NegInt(i64),
    /// Any other number.
    Fraction(serde_json::Number),
    /// A string.
    Text(Seq<char>),
    /// A list.
    Array(Seq<JsonView>),
    /// An object.
    Object(Map<Seq<char>, JsonView>),
}

/// A JSON document. Where an object lists a field twice, the later one counts.
#[derive(Debug, PartialEq)]
pub enum Json {
    /// `null`.
    Null,
    /// `true` or `false`.
    Bool(bool),
    /// A whole number that is not negative.
    UInt(u64),
    /// A whole number, where it is negative.
    NegInt(i64),
    /// Any other number.
    Fraction(serde_json::Number),
    /// A string.
    Text(String),
    /// A list.
    Array(Vec<Json>),
    /// An object, field by field.
    Object(Vec<(String, Json)>),
}

/// What a document says.
pub open spec fn tree(j: Json) -> JsonView
    decreases j,
{
    match j {
        Json::Null => JsonView::Null,
        Json::Bool(b) => JsonView::Bool(b),
        Json::UInt(n) => JsonView::UInt(n),
        Json::NegInt(n) => int_tree(n),
        Json::Fraction(n) => number_tree(n),
        Json::Text(s) => JsonView::Text(s@),
        Json::Array(items) => JsonView::Array(trees(items@)),
        Json::Object(fields) => JsonView::Object(field_trees(fields@)),
    }
}

/// What each document of a list says.
pub open spec fn trees(items: Seq<Json>) -> Seq<JsonView>
    decreases items,
{
    if items.len() == 0 {
        Seq::empty()
    } else {
        trees(items.drop_last()).push(tree(items.last()))
    }
}

/// What an object's fields say, the later of two with one name counting.
pub open spec fn field_trees(fields: Seq<(String, Json)>) -> Map<Seq<char>, JsonView>
    decreases fields,
{
    if fields.len() == 0 {
        Map::empty()
    } else {
        field_trees(fields.drop_last()).insert(fields.last().0@, tree(fields.last().1))
    }
}

impl View for Json {
    type V = JsonView;

    open spec fn view(&self) -> JsonView {
        tree(*self)
    }
}

/// `trees` goes through a list item by item.
pub proof fn lemma_trees(items: Seq<Json>)
    ensures
        trees(items).len() == items.len(),
        forall|i: int| 0 <= i < items.len() ==> #[trigger] trees(items)[i] == tree(items[i]),
    decreases items.len(),
{
    if items.len() > 0 {
        lemma_trees(items.drop_last());
        assert forall|i: int| 0 <= i < items.len() implies #[trigger] trees(items)[i] == tree(
            items[i],
        ) by {
            if i < items.len() - 1 {
                assert(trees(items)[i] == trees(items.drop_last())[i]);
            }
        }
    }
}

/// Pushing a document pushes what it says.
pub proof fn lemma_trees_push(items: Seq<Json>, item: Json)
    ensures
        trees(items.push(item)) == trees(items).push(tree(item)),
{
    assert(items.push(item).drop_last() =~= items);
}

/// Pushing a field puts what it says under its name.
pub proof fn lemma_fields_push(fields: Seq<(String, Json)>, name: String, value: Json)
    ensures
        field_trees(fields.push((name, value))) == field_trees(fields).insert(name@, tree(value)),
{
    assert(fields.push((name, value)).drop_last() =~= fields);
}

// --- reading a document -----------------------------------------------------

/// The field of an object, if the document is an object that has it.
pub open spec fn field(j: JsonView, name: Seq<char>) -> Option<JsonView> {
    match j {
        JsonView::Object(fields) => if fields.contains_key(name) {
            Some(fields[name])
        } else {
            None
        },
        _ => None,
    }
}

/// The string a document is, if it is one.
pub open spec fn as_text(j: JsonView) -> Option<Seq<char>> {
    match j {
        JsonView::Text(s) => Some(s),
        _ => None,
    }
}

/// The string a field is, if it is one.
pub open spec fn text_field(j: JsonView, name: Seq<char>) -> Option<Seq<char>> {
    match field(j, name) {
        Some(v) => as_text(v),
        None => None,
    }
}

/// The truth value a field is, if it is one.
pub open spec fn bool_field(j: JsonView, name: Seq<char>) -> Option<bool> {
    match field(j, name) {
        Some(JsonView::Bool(b)) => Some(b),
        _ => None,
    }
}

/// The unsigned number a field is, if it is one.
pub open spec fn u64_field(j: JsonView, name: Seq<char>) -> Option<u64> {
    match field(j, name) {
        Some(JsonView::UInt(n)) => Some(n),
        _ => None,
    }
}

/// The signed number a field is, if it is a whole number that fits.
pub open spec fn i64_field(j: JsonView, name: Seq<char>) -> Option<i64> {
    match field(j, name) {
        Some(JsonView::UInt(n)) => if n <= i64::MAX {
            Some(n as i64)
        } else {
            None
        },
        Some(JsonView::NegInt(n)) => Some(n),
        _ => None,
    }
}

/// The list a field is, if it is one.
pub open spec fn array_field(j: JsonView, name: Seq<char>) -> Option<Seq<JsonView>> {
    match field(j, name) {
        Some(JsonView::Array(items)) => Some(items),
        _ => None,
    }
}

/// The strings among a list of documents, in order.
pub open spec fn strings_in(items: Seq<JsonView>) -> Seq<Seq<char>>
    decreases items.len(),
{
    if items.len() == 0 {
        Seq::empty()
    } else {
        match items.last() {
            JsonView::Text(s) => strings_in(items.drop_last()).push(s),
            _ => strings_in(items.drop_last()),
        }
    }
}

impl Json {
    /// The field of an object.
    pub fn get(&self, name: &str) -> (r: Option<&Json>)
        ensures
            match r {
                Some(v) => field(self@, name@) == Some(v@),
                None => field(self@, name@) is None,
            },
    {
        match self {
            Json::Object(fields) => {
                let mut i: usize = fields.len();
                assert(fields@.take(i as int) =~= fields@);
                while i > 0
                    invariant
                        i <= fields@.len(),
                        self@ == JsonView::Object(field_trees(fields@)),
                        field_trees(fields@).contains_key(name@) == field_trees(
                            fields@.take(i as int),
                        ).contains_key(name@),
                        field_trees(fields@.take(i as int)).contains_key(name@) ==> field_trees(
                            fields@,
                        )[name@] == field_trees(fields@.take(i as int))[name@],
                    decreases i,
                {
                    i = i - 1;
                    proof {
                        let head = fields@.take(i + 1);
                        assert(head.drop_last() =~= fields@.take(i as int));
                        assert(head.last() == fields@[i as int]);
                    }
                    if text::same(fields[i].0.as_str(), name) {
                        return Some(&fields[i].1);
                    }
                }
                None
            },
            _ => None,
        }
    }

    /// The string a field holds.
    pub fn get_str(&self, name: &str) -> (r: Option<String>)
        ensures
            text_of(r) == text_field(self@, name@),
    {
        match self.get(name) {
            Some(Json::Text(s)) => Some(s.clone()),
            _ => None,
        }
    }

    /// The truth value a field holds.
    pub fn get_bool(&self, name: &str) -> (r: Option<bool>)
        ensures
            r == bool_field(self@, name@),
    {
        match self.get(name) {
            Some(Json::Bool(b)) => Some(*b),
            _ => None,
        }
    }

    /// The unsigned number a field holds.
    pub fn get_u64(&self, name: &str) -> (r: Option<u64>)
        ensures
            r == u64_field(self@, name@),
    {
        match self.get(name) {
            Some(Json::UInt(n)) => Some(*n),
            Some(Json::NegInt(n)) => if *n >= 0 {
                Some(*n as u64)
            } else {
                None
            },
            Some(Json::Fraction(n)) => n.as_u64(),
            _ => None,
        }
    }

    /// The signed number a field holds.
    pub fn get_i64(&self, name: &str) -> (r: Option<i64>)
        ensures
            r == i64_field(self@, name@),
    {
        match self.get(name) {
            Some(Json::UInt(n)) => if *n <= i64::MAX as u64 {
                Some(*n as i64)
            } else {
                None
            },
            Some(Json::NegInt(n)) => Some(*n),
            Some(Json::Fraction(n)) => n.as_i64(),
            _ => None,
        }
    }

    /// The list a field holds.
    pub fn get_array(&self, name: &str) -> (r: Option<&Vec<Json>>)
        ensures
            match r {
                Some(items) => array_field(self@, name@) == Some(trees(items@)),
                None => array_field(self@, name@) is None,
            },
    {
        match self.get(name) {
            Some(Json::Array(items)) => Some(items),
            _ => None,
        }
    }

    /// A copy of the document.
    pub fn copy(&self) -> (r: Json)
        ensures
            r@ == self@,
        decreases self,
    {
        match self {
            Json::Null => Json::Null,
            Json::Bool(b) => Json::Bool(*b),
            Json::UInt(n) => Json::UInt(*n),
            Json::NegInt(n) => Json::NegInt(*n),
            Json::Fraction(n) => Json::Fraction(n.clone()),
            Json::Text(s) => Json::Text(s.clone()),
            Json::Array(items) => {
                let mut out: Vec<Json> = Vec::new();
                let n: usize = items.len();
                let mut i: usize = 0;
                while i < n
                    invariant
                        i <= n == items@.len(),
                        decreases_to!(self => items),
                        trees(out@) == trees(items@.take(i as int)),
                    decreases n - i,
                {
                    assert(decreases_to!(items@ => items@[i as int]));
                    let item = items[i].copy();
                    let ghost had = out@;
                    out.push(item);
                    proof {
                        lemma_trees_push(had, item);
                        assert(items@.take(i + 1).drop_last() =~= items@.take(i as int));
                        assert(items@.take(i + 1).last() == items@[i as int]);
                    }
                    i = i + 1;
                }
                assert(items@.take(n as int) =~= items@);
                Json::Array(out)
            },
            Json::Object(fields) => {
                let mut out: Vec<(String, Json)> = Vec::new();
                let n: usize = fields.len();
                let mut i: usize = 0;
                while i < n
                    invariant
                        i <= n == fields@.len(),
                        decreases_to!(self => fields),
                        field_trees(out@) == field_trees(fields@.take(i as int)),
                    decreases n - i,
                {
                    assert(decreases_to!(fields@ => fields@[i as int]));
                    let name = fields[i].0.clone();
                    let value = fields[i].1.copy();
                    let ghost had = out@;
                    out.push((name, value));
                    proof {
                        lemma_fields_push(had, name, value);
                        assert(fields@.take(i + 1).drop_last() =~= fields@.take(i as int));
                        assert(fields@.take(i + 1).last() == fields@[i as int]);
                    }
                    i = i + 1;
                }
                assert(fields@.take(n as int) =~= fields@);
                Json::Object(out)
            },
        }
    }

    // --- building a document ------------------------------------------------

    /// A string.
    pub fn text(s: &str) -> (r: Json)
        ensures
            r@ == JsonView::Text(s@),
    {
        Json::Text(s.to_owned())
    }

    /// An object without fields.
    pub fn object() -> (r: Json)
        ensures
            r@ == JsonView::Object(Map::empty()),
    {
        Json::Object(Vec::new())
    }

    /// The object with one more field, in place of any of that name.
    pub fn with(self, name: &str, value: Json) -> (r: Json)
        requires
            self@ is Object,
        ensures
            r@ == JsonView::Object(self@->Object_0.insert(name@, value@)),
    {
        match self {
            Json::Object(mut fields) => {
                let ghost had = fields@;
                let key = name.to_owned();
                fields.push((key, value));
                proof {
                    lemma_fields_push(had, key, value);
                }
                Json::Object(fields)
            },
            other => other,
        }
    }

    /// A whole number.
    pub fn whole(n: i64) -> (r: Json)
        ensures
            r@ == int_tree(n),
    {
        if n >= 0 {
            Json::UInt(n as u64)
        } else {
            Json::NegInt(n)
        }
    }

    /// The object with one more field where there is a value for it.
    pub fn with_some(self, name: &str, value: Option<Json>) -> (r: Json)
        requires
            self@ is Object,
        ensures
            r@ == JsonView::Object(put(self@->Object_0, name@, opt_tree(value))),
    {
        match value {
            Some(v) => self.with(name, v),
            None => self,
        }
    }

    /// A list of strings.
    pub fn strings(items: &Vec<String>) -> (r: Json)
        ensures
            r@ == text_array(texts(items@)),
    {
        let mut out: Vec<Json> = Vec::new();
        for i in 0..items.len()
            invariant
                trees(out@) == text_trees(texts(items@).take(i as int)),
        {
            let ghost had = out@;
            let item = Json::text(items[i].as_str());
            out.push(item);
            proof {
                lemma_trees_push(had, item);
                assert(trees(out@) =~= text_trees(texts(items@).take(i + 1)));
            }
        }
        assert(texts(items@).take(items@.len() as int) =~= texts(items@));
        Json::Array(out)
    }
}

/// A whole number as a document.
pub open spec fn int_tree(n: i64) -> JsonView {
    if n >= 0 {
        JsonView::UInt(n as u64)
    } else {
        JsonView::NegInt(n)
    }
}

/// What a document says, where there is one.
pub open spec fn opt_tree(j: Option<Json>) -> Option<JsonView> {
    match j {
        Some(v) => Some(v@),
        None => None,
    }
}

/// An object's fields and one more where there is a value for it.
pub open spec fn put(
    fields: Map<Seq<char>, JsonView>,
    name: Seq<char>,
    value: Option<JsonView>,
) -> Map<Seq<char>, JsonView> {
    match value {
        Some(v) => fields.insert(name, v),
        None => fields,
    }
}

/// Strings as documents.
pub open spec fn text_trees(items: Seq<Seq<char>>) -> Seq<JsonView> {
    items.map_values(|s: Seq<char>| JsonView::Text(s))
}

/// A list of strings as a document.
pub open spec fn text_array(items: Seq<Seq<char>>) -> JsonView {
    JsonView::Array(text_trees(items))
}

/// The strings among a list of documents.
pub fn strings_of(items: &Vec<Json>) -> (r: Vec<String>)
    ensures
        texts(r@) == strings_in(trees(items@)),
{
    let mut out: Vec<String> = Vec::new();
    proof {
        lemma_trees(items@);
    }
    for i in 0..items.len()
        invariant
            trees(items@).len() == items@.len(),
            forall|j: int| 0 <= j < items@.len() ==> #[trigger] trees(items@)[j] == tree(items@[j]),
            texts(out@) == strings_in(trees(items@).take(i as int)),
    {
        let ghost had = out@;
        proof {
            let head = trees(items@).take(i + 1);
            assert(head.drop_last() =~= trees(items@).take(i as int));
            assert(head.last() == trees(items@)[i as int]);
        }
        if let Json::Text(s) = &items[i] {
            let item = s.clone();
            out.push(item);
            proof {
                text::lemma_texts_push(had, item);
            }
        }
    }
    assert(trees(items@).take(items@.len() as int) =~= trees(items@));
    out
}

// --- the text of a document -------------------------------------------------

/// What a `serde_json::Value` says.
pub uninterp spec fn value_tree(v: serde_json::Value) -> JsonView;

/// What `serde_json::from_str::<Value>` makes of a text: the document it spells,
/// or the message that says why it spells none.
pub uninterp spec fn parsed(text: Seq<char>) -> Result<JsonView, Seq<char>>;

/// The text `serde_json` writes for a document on one line.
pub uninterp spec fn compact_text(j: JsonView) -> Seq<char>;

/// The text `serde_json` writes for a document with line breaks and indents,
/// if it writes one.
pub uninterp spec fn pretty_text(j: JsonView) -> Option<Seq<char>>;

/// `serde_json::Number::clone` returns the same number.
pub assume_specification[ <serde_json::Number as Clone>::clone ](n: &serde_json::Number) -> (r:
    serde_json::Number)
    ensures
        r == *n,
;

/// What kind of number a `serde_json::Number` is.
pub enum Figure {
    /// A whole number that is not negative.
    UInt(u64),
    /// A whole number that an `i64` holds.
    Int(i64),
    /// Any other number.
    Other,
}

/// What kind of number a `serde_json::Number` is.
pub uninterp spec fn figure(n: serde_json::Number) -> Figure;

/// What a `serde_json::Number` says.
pub open spec fn number_tree(n: serde_json::Number) -> JsonView {
    match figure(n) {
        Figure::UInt(u) => JsonView::UInt(u),
        Figure::Int(i) => int_tree(i),
        Figure::Other => JsonView::Fraction(n),
    }
}

/// `serde_json::Number::as_u64`: the number, where it is whole and not negative.
pub assume_specification[ serde_json::Number::as_u64 ](n: &serde_json::Number) -> (r: Option<u64>)
    ensures
        match r {
            Some(u) => figure(*n) == Figure::UInt(u),
            None => figure(*n) is Other || (figure(*n) matches Figure::Int(i) && i < 0),
        },
;

/// `serde_json::Number::as_i64`: the number, where it is whole and an `i64` holds
/// it.
pub assume_specification[ serde_json::Number::as_i64 ](n: &serde_json::Number) -> (r: Option<i64>)
    ensures
        match r {
            Some(i) => if i >= 0 {
                figure(*n) == Figure::UInt(i as u64)
            } else {
                figure(*n) == Figure::Int(i)
            },
            None => figure(*n) is Other || (figure(*n) matches Figure::UInt(u) && u > i64::MAX),
        },
;

/// The outermost layer of a `serde_json::Value`.
enum Layer {
    Null,
    Bool(bool),
    UInt(u64),
    Int(i64),
    Number(serde_json::Number),
    Text(String),
    Array(Vec<serde_json::Value>),
    Object(Vec<(String, serde_json::Value)>),
}

spec fn value_trees(items: Seq<serde_json::Value>) -> Seq<JsonView> {
    items.map_values(|v: serde_json::Value| value_tree(v))
}

spec fn value_fields(fields: Seq<(String, serde_json::Value)>) -> Map<Seq<char>, JsonView>
    decreases fields.len(),
{
    if fields.len() == 0 {
        Map::empty()
    } else {
        value_fields(fields.drop_last()).insert(fields.last().0@, value_tree(fields.last().1))
    }
}

spec fn layer_tree(layer: Layer) -> JsonView {
    match layer {
        Layer::Null => JsonView::Null,
        Layer::Bool(b) => JsonView::Bool(b),
        Layer::UInt(n) => JsonView::UInt(n),
        Layer::Int(n) => int_tree(n),
        Layer::Number(n) => number_tree(n),
        Layer::Text(t) => JsonView::Text(t@),
        Layer::Array(items) => JsonView::Array(value_trees(items@)),
        Layer::Object(fields) => JsonView::Object(value_fields(fields@)),
    }
}

spec fn distinct_names(fields: Seq<(String, serde_json::Value)>) -> bool {
    forall|i: int, j: int|
        0 <= i < j < fields.len() ==> #[trigger] fields[i].0@ != #[trigger] fields[j].0@
}

/// Takes a `serde_json::Value` apart by its variant. An object gives its fields,
/// whose names are all different, in the order the map iterates in.
#[verifier::external_body]
fn open_value(v: serde_json::Value) -> (layer: Layer)
    ensures
        layer_tree(layer) == value_tree(v),
        layer matches Layer::Object(fields) ==> distinct_names(fields@),
{
    match v {
        serde_json::Value::Null => Layer::Null,
        serde_json::Value::Bool(b) => Layer::Bool(b),
        serde_json::Value::Number(n) => Layer::Number(n),
        serde_json::Value::String(t) => Layer::Text(t),
        serde_json::Value::Array(items) => Layer::Array(items),
        serde_json::Value::Object(map) => Layer::Object(map.into_iter().collect()),
    }
}

/// Puts a `serde_json::Value` together from its outermost layer. Of two fields
/// with one name, collecting into the map keeps the later.
#[verifier::external_body]
fn close_value(layer: Layer) -> (v: serde_json::Value)
    ensures
        value_tree(v) == layer_tree(layer),
{
    match layer {
        Layer::Null => serde_json::Value::Null,
        Layer::Bool(b) => serde_json::Value::Bool(b),
        Layer::UInt(n) => serde_json::Value::from(n),
        Layer::Int(n) => serde_json::Value::from(n),
        Layer::Number(n) => serde_json::Value::Number(n),
        Layer::Text(t) => serde_json::Value::String(t),
        Layer::Array(items) => serde_json::Value::Array(items),
        Layer::Object(fields) => serde_json::Value::Object(fields.into_iter().collect()),
    }
}

/// `serde_json::from_str::<Value>`, with the error as its message.
#[verifier::external_body]
fn parse_value(text: &str) -> (r: Result<serde_json::Value, String>)
    ensures
        match r {
            Ok(v) => parsed(text@) == Ok::<JsonView, Seq<char>>(value_tree(v)),
            Err(e) => parsed(text@) == Err::<JsonView, Seq<char>>(e@),
        },
{
    serde_json::from_str::<serde_json::Value>(text).map_err(|e| e.to_string())
}

/// `Value::to_string`, the compact form. Objects are kept in the order of
/// their names, so the text depends on what the document says alone.
#[verifier::external_body]
fn value_text(v: &serde_json::Value) -> (r: String)
    ensures
        r@ == compact_text(value_tree(*v)),
{
    v.to_string()
}

/// `serde_json::to_string_pretty`, or nothing where it fails.
#[verifier::external_body]
fn value_pretty(v: &serde_json::Value) -> (r: Option<String>)
    ensures
        text_of(r) == pretty_text(value_tree(*v)),
{
    serde_json::to_string_pretty(v).ok()
}

proof fn lemma_fields_finite(fields: Seq<(String, serde_json::Value)>)
    ensures
        value_fields(fields).dom().finite(),
    decreases fields.len(),
{
    if fields.len() > 0 {
        lemma_fields_finite(fields.drop_last());
    }
}

proof fn lemma_distinct_fields(fields: Seq<(String, serde_json::Value)>, i: int)
    requires
        distinct_names(fields),
        0 <= i < fields.len(),
    ensures
        value_fields(fields).contains_key(fields[i].0@),
        value_fields(fields)[fields[i].0@] == value_tree(fields[i].1),
    decreases fields.len(),
{
    if i < fields.len() - 1 {
        let head = fields.drop_last();
        assert(distinct_names(head)) by {
            assert forall|a: int, b: int| 0 <= a < b < head.len() implies #[trigger] head[a].0@
                != #[trigger] head[b].0@ by {
                assert(fields[a].0@ != fields[b].0@);
            }
        }
        lemma_distinct_fields(head, i);
        assert(fields[i].0@ != fields[fields.len() - 1].0@);
    }
}

fn read_value(v: serde_json::Value) -> (j: Json)
    ensures
        j@ == value_tree(v),
    decreases value_tree(v),
{
    match open_value(v) {
        Layer::Null => Json::Null,
        Layer::Bool(b) => Json::Bool(b),
        Layer::UInt(n) => Json::UInt(n),
        Layer::Int(n) => Json::NegInt(n),
        Layer::Number(n) => match n.as_u64() {
            Some(u) => Json::UInt(u),
            None => match n.as_i64() {
                Some(i) => Json::NegInt(i),
                None => Json::Fraction(n),
            },
        },
        Layer::Text(t) => Json::Text(t),
        Layer::Array(items) => {
            let ghost all = value_trees(items@);
            let mut left = items;
            let mut back: Vec<Json> = Vec::new();
            while left.len() > 0
                invariant
                    value_tree(v) == JsonView::Array(all),
                    left@.len() + back@.len() == all.len(),
                    value_trees(left@) == all.take(left@.len() as int),
                    forall|i: int|
                        0 <= i < back@.len() ==> tree(#[trigger] back@[i]) == all[all.len() - 1 - i],
                decreases left@.len(),
            {
                let ghost had = left@;
                let item = left.pop().unwrap();
                proof {
                    assert(value_trees(had)[left@.len() as int] == value_tree(item));
                    assert(all[left@.len() as int] == value_tree(item));
                    assert(value_trees(left@) =~= all.take(left@.len() as int));
                    assert(decreases_to!(value_tree(v) => value_tree(v)->Array_0));
                    assert(decreases_to!(all => all[left@.len() as int]));
                }
                back.push(read_value(item));
            }
            let mut out: Vec<Json> = Vec::new();
            while back.len() > 0
                invariant
                    back@.len() + out@.len() == all.len(),
                    trees(out@) == all.take(out@.len() as int),
                    forall|i: int|
                        0 <= i < back@.len() ==> tree(#[trigger] back@[i]) == all[all.len() - 1 - i],
                decreases back@.len(),
            {
                let ghost had = out@;
                let ghost waiting = back@;
                let item = back.pop().unwrap();
                assert(tree(waiting[back@.len() as int]) == all[out@.len() as int]);
                out.push(item);
                proof {
                    lemma_trees_push(had, item);
                    assert(trees(out@) =~= all.take(out@.len() as int));
                    assert forall|i: int| 0 <= i < back@.len() implies tree(#[trigger] back@[i])
                        == all[all.len() - 1 - i] by {
                        assert(back@[i] == waiting[i]);
                    }
                }
            }
            assert(all.take(all.len() as int) =~= all);
            Json::Array(out)
        },
        Layer::Object(fields) => {
            let ghost all = fields@;
            let ghost map = value_fields(all);
            let mut left = fields;
            let mut back: Vec<(String, Json)> = Vec::new();
            while left.len() > 0
                invariant
                    value_tree(v) == JsonView::Object(map),
                    map == value_fields(all),
                    distinct_names(all),
                    left@ == all.take(left@.len() as int),
                    left@.len() + back@.len() == all.len(),
                    forall|i: int|
                        0 <= i < back@.len() ==> (#[trigger] back@[i]).0@ == all[all.len() - 1
                            - i].0@ && tree(back@[i].1) == value_tree(all[all.len() - 1 - i].1),
                decreases left@.len(),
            {
                let (name, item) = left.pop().unwrap();
                let ghost at = left@.len() as int;
                proof {
                    assert(all[at] == (name, item));
                    lemma_distinct_fields(all, at);
                    lemma_fields_finite(all);
                    assert(left@ =~= all.take(at));
                    assert(decreases_to!(value_tree(v) => value_tree(v)->Object_0));
                    assert(decreases_to!(map => map[name@]));
                }
                let value = read_value(item);
                back.push((name, value));
            }
            let mut out: Vec<(String, Json)> = Vec::new();
            while back.len() > 0
                invariant
                    map == value_fields(all),
                    back@.len() + out@.len() == all.len(),
                    field_trees(out@) == value_fields(all.take(out@.len() as int)),
                    forall|i: int|
                        0 <= i < back@.len() ==> (#[trigger] back@[i]).0@ == all[all.len() - 1
                            - i].0@ && tree(back@[i].1) == value_tree(all[all.len() - 1 - i].1),
                decreases back@.len(),
            {
                let ghost had = out@;
                let ghost waiting = back@;
                let (name, value) = back.pop().unwrap();
                let ghost at = out@.len() as int;
                assert(waiting[back@.len() as int] == (name, value));
                out.push((name, value));
                proof {
                    lemma_fields_push(had, name, value);
                    let head = all.take(at + 1);
                    assert(head.drop_last() =~= all.take(at));
                    assert(head.last() == all[at]);
                    assert forall|i: int| 0 <= i < back@.len() implies (#[trigger] back@[i]).0@
                        == all[all.len() - 1 - i].0@ && tree(back@[i].1) == value_tree(
                        all[all.len() - 1 - i].1,
                    ) by {
                        assert(back@[i] == waiting[i]);
                    }
                }
            }
            assert(all.take(all.len() as int) =~= all);
            Json::Object(out)
        },
    }
}

fn build_value(j: &Json) -> (v: serde_json::Value)
    ensures
        value_tree(v) == j@,
    decreases j,
{
    match j {
        Json::Null => close_value(Layer::Null),
        Json::Bool(b) => close_value(Layer::Bool(*b)),
        Json::UInt(n) => close_value(Layer::UInt(*n)),
        Json::NegInt(n) => close_value(Layer::Int(*n)),
        Json::Fraction(n) => close_value(Layer::Number(n.clone())),
        Json::Text(s) => close_value(Layer::Text(s.clone())),
        Json::Array(items) => {
            let mut out: Vec<serde_json::Value> = Vec::new();
            let n: usize = items.len();
            let mut i: usize = 0;
            while i < n
                invariant
                    i <= n == items@.len(),
                    decreases_to!(j => items),
                    value_trees(out@) == trees(items@.take(i as int)),
                decreases n - i,
            {
                assert(decreases_to!(items@ => items@[i as int]));
                let ghost had = out@;
                let item = build_value(&items[i]);
                out.push(item);
                proof {
                    assert(items@.take(i + 1).drop_last() =~= items@.take(i as int));
                    assert(items@.take(i + 1).last() == items@[i as int]);
                    assert(value_trees(out@) =~= value_trees(had).push(value_tree(item)));
                }
                i = i + 1;
            }
            assert(items@.take(n as int) =~= items@);
            close_value(Layer::Array(out))
        },
        Json::Object(fields) => {
            let mut out: Vec<(String, serde_json::Value)> = Vec::new();
            let n: usize = fields.len();
            let mut i: usize = 0;
            while i < n
                invariant
                    i <= n == fields@.len(),
                    decreases_to!(j => fields),
                    value_fields(out@) == field_trees(fields@.take(i as int)),
                decreases n - i,
            {
                assert(decreases_to!(fields@ => fields@[i as int]));
                let ghost had = out@;
                let name = fields[i].0.clone();
                let value = build_value(&fields[i].1);
                out.push((name, value));
                proof {
                    assert(out@.drop_last() =~= had);
                    assert(fields@.take(i + 1).drop_last() =~= fields@.take(i as int));
                    assert(fields@.take(i + 1).last() == fields@[i as int]);
                }
                i = i + 1;
            }
            assert(fields@.take(n as int) =~= fields@);
            close_value(Layer::Object(out))
        },
    }
}

/// The document a text spells, or the message that says why it spells none.
pub fn parse(text: &str) -> (r: Result<Json, String>)
    ensures
        match r {
            Ok(j) => parsed(text@) == Ok::<JsonView, Seq<char>>(j@),
            Err(e) => parsed(text@) == Err::<JsonView, Seq<char>>(e@),
        },
{
    match parse_value(text) {
        Ok(v) => Ok(read_value(v)),
        Err(e) => Err(e),
    }
}

/// What a parse came to, as text.
pub open spec fn parse_of(r: Result<Json, String>) -> Result<JsonView, Seq<char>> {
    match r {
        Ok(j) => Ok(j@),
        Err(e) => Err(e@),
    }
}

impl Json {
    /// The document on one line.
    pub fn to_text(&self) -> (r: String)
        ensures
            r@ == compact_text(self@),
    {
        value_text(&build_value(self))
    }

    /// The document with line breaks and indents, or on one line where that
    /// cannot be had.
    pub fn to_pretty(&self) -> (r: String)
        ensures
            r@ == shown_text(self@),
    {
        let v = build_value(self);
        match value_pretty(&v) {
            Some(s) => s,
            None => value_text(&v),
        }
    }
}

/// The text of a document as shown to people: the pretty form where there is
/// one, the compact form otherwise.
pub open spec fn shown_text(j: JsonView) -> Seq<char> {
    match pretty_text(j) {
        Some(s) => s,
        None => compact_text(j),
    }
}

/// The strings of a list come out in order, each once, and nothing else does.
pub proof fn law_every_string_is_taken(before: Seq<JsonView>, item: JsonView, after: Seq<JsonView>)
    ensures
        strings_in(before + seq![item] + after) == strings_in(before) + (match item {
            JsonView::Text(s) => seq![s],
            _ => Seq::empty(),
        }) + strings_in(after),
        strings_in(Seq::empty()).len() == 0,
{
    let one = seq![item];
    lemma_strings_add(before + one, after);
    lemma_strings_add(before, one);
    assert(one.drop_last() =~= Seq::<JsonView>::empty());
    assert(one.last() == item);
    assert(strings_in(Seq::<JsonView>::empty()) == Seq::<Seq<char>>::empty());
    match item {
        JsonView::Text(s) => {
            assert(strings_in(one) =~= seq![s]);
        },
        _ => {
            assert(strings_in(one) =~= Seq::<Seq<char>>::empty());
        },
    }
}

proof fn lemma_strings_add(a: Seq<JsonView>, b: Seq<JsonView>)
    ensures
        strings_in(a + b) == strings_in(a) + strings_in(b),
    decreases b.len(),
{
    if b.len() == 0 {
        assert(a + b =~= a);
        assert(strings_in(a) + strings_in(b) =~= strings_in(a));
    } else {
        assert((a + b).drop_last() =~= a + b.drop_last());
        assert((a + b).last() == b.last());
        lemma_strings_add(a, b.drop_last());
        if let JsonView::Text(s) = b.last() {
            assert((strings_in(a) + strings_in(b.drop_last())).push(s) =~= strings_in(a)
                + strings_in(b.drop_last()).push(s));
        }
    }
}

/// A field that was put into a document is read back from it, and putting it there
/// leaves every other field as it was.
pub proof fn law_a_field_is_read_back(
    fields: Map<Seq<char>, JsonView>,
    name: Seq<char>,
    value: JsonView,
    other: Seq<char>,
)
    ensures
        field(JsonView::Object(fields.insert(name, value)), name) == Some(value),
        other != name ==> field(JsonView::Object(fields.insert(name, value)), other) == field(
            JsonView::Object(fields),
            other,
        ),
        field(JsonView::Object(put(fields, name, Some(value))), name) == Some(value),
        put(fields, name, None) == fields,
        !fields.contains_key(name) ==> field(JsonView::Object(fields), name) is None,
{
}

/// A whole number that is written into a document is read back from it.
pub proof fn law_numbers_are_read_back(fields: Map<Seq<char>, JsonView>, name: Seq<char>, n: i64)
    ensures
        i64_field(JsonView::Object(fields.insert(name, int_tree(n))), name) == Some(n),
        n >= 0 ==> u64_field(JsonView::Object(fields.insert(name, int_tree(n))), name) == Some(
            n as u64,
        ),
{
}

} // verus!
