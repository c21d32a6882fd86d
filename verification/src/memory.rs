//! The notes a conversation keeps, and the index that lists their keys.
//!
//! The store behind them has no listing operation, so the keys are kept under
//! a reserved key of their own, one on a line.
use vstd::prelude::*;

use crate::order;
use crate::order::arranged;
use crate::text;
use crate::text::{
    joined, line_texts, pieces, position, text_of, texts, trimmed, without_return,
};

verus! {

/// The key the index is kept under.
pub const INDEX_KEY: &'static str = "__memory_index";

/// The lines that are not blank.
pub open spec fn written_lines(lines: Seq<Seq<char>>) -> Seq<Seq<char>> {
    lines.filter(|l: Seq<char>| trimmed(l).len() > 0)
}

/// The keys an index lists.
pub open spec fn keys_in(index: Option<Seq<char>>) -> Seq<Seq<char>> {
    match index {
        Some(raw) => written_lines(line_texts(raw)),
        None => Seq::empty(),
    }
}

/// The keys an index lists.
pub fn memory_keys(index: &Option<String>) -> (r: Vec<String>)
    ensures
        texts(r@) == keys_in(text_of(*index)),
{
    match index {
        Some(raw) => keep_written(text::lines(raw.as_str())),
        None => {
            let none: Vec<String> = Vec::new();
            assert(texts(none@) =~= Seq::<Seq<char>>::empty());
            none
        },
    }
}

fn keep_written(lines: Vec<String>) -> (r: Vec<String>)
    ensures
        texts(r@) == written_lines(texts(lines@)),
{
    let ghost all = texts(lines@);
    let mut out: Vec<String> = Vec::new();
    assert(all.take(0) =~= Seq::<Seq<char>>::empty());
    assert(written_lines(all.take(0)) =~= Seq::<Seq<char>>::empty()) by {
        reveal(Seq::filter);
    }
    for i in 0..lines.len()
        invariant
            all == texts(lines@),
            texts(out@) == written_lines(all.take(i as int)),
    {
        let ghost had = out@;
        proof {
            assert(all.take(i + 1) =~= all.take(i as int).push(all[i as int]));
            assert(all.take(i as int).push(all[i as int]).drop_last() =~= all.take(i as int));
            reveal(Seq::filter);
        }
        if !text::is_blank(lines[i].as_str()) {
            let line = lines[i].clone();
            out.push(line);
            proof {
                text::lemma_texts_push(had, line);
            }
        }
    }
    assert(all.take(lines@.len() as int) =~= all);
    out
}

/// The index after a note is saved under a key, if it has to change: the keys
/// in order, one on a line.
pub open spec fn index_with(index: Option<Seq<char>>, key: Seq<char>) -> Option<Seq<char>> {
    if keys_in(index).contains(key) {
        None
    } else {
        Some(joined(arranged(keys_in(index).push(key)), "\n"@))
    }
}

/// The index to write after a note is saved under a key, if it has to change.
pub fn index_after(index: &Option<String>, key: &str) -> (r: Option<String>)
    ensures
        text_of(r) == index_with(text_of(*index), key@),
{
    let mut keys = memory_keys(index);
    if text::listed(&keys, key) {
        return None;
    }
    let ghost had = keys@;
    let item = key.to_owned();
    keys.push(item);
    proof {
        text::lemma_texts_push(had, item);
    }
    order::sort(&mut keys);
    Some(text::join(&keys, "\n"))
}

// --- laws -------------------------------------------------------------------

/// Whether a key can stand on a line of its own and be read back from it.
pub open spec fn one_line(key: Seq<char>) -> bool {
    trimmed(key).len() > 0 && !key.contains('\n') && key.last() != '\r'
}

proof fn lemma_no_feed(s: Seq<char>)
    requires
        !s.contains('\n'),
    ensures
        position(s, '\n') == s.len(),
        pieces(s, '\n') == seq![s],
{
    assert forall|j: int| 0 <= j < s.len() implies s[j] != '\n' by {
        assert(s.contains(s[j]));
    }
    text::lemma_position_is(s, '\n', s.len() as int);
}

proof fn lemma_pieces_append(a: Seq<char>, b: Seq<char>)
    requires
        !b.contains('\n'),
    ensures
        pieces(a + seq!['\n'] + b, '\n') == pieces(a, '\n').push(b),
    decreases a.len(),
{
    let s = a + seq!['\n'] + b;
    text::lemma_position(a, '\n');
    let p = position(a, '\n');
    if p < a.len() {
        assert forall|j: int| 0 <= j < p implies s[j] != '\n' by {
            assert(s[j] == a[j]);
        }
        text::lemma_position_is(s, '\n', p);
        assert(s.take(p) =~= a.take(p));
        assert(s.skip(p + 1) =~= a.skip(p + 1) + seq!['\n'] + b);
        lemma_pieces_append(a.skip(p + 1), b);
        assert(seq![a.take(p)] + pieces(a.skip(p + 1), '\n').push(b) =~= (seq![a.take(p)]
            + pieces(a.skip(p + 1), '\n')).push(b));
    } else {
        assert forall|j: int| 0 <= j < a.len() implies s[j] != '\n' by {
            assert(s[j] == a[j]);
        }
        text::lemma_position_is(s, '\n', a.len() as int);
        assert(s.take(a.len() as int) =~= a);
        assert(s.skip(a.len() as int + 1) =~= b);
        lemma_no_feed(b);
        assert(seq![a] + seq![b] =~= seq![a].push(b));
    }
}

proof fn lemma_join_splits(parts: Seq<Seq<char>>)
    requires
        parts.len() > 0,
        forall|i: int| 0 <= i < parts.len() ==> !(#[trigger] parts[i]).contains('\n'),
    ensures
        pieces(joined(parts, "\n"@), '\n') == parts,
    decreases parts.len(),
{
    reveal_strlit("\n");
    if parts.len() == 1 {
        lemma_no_feed(parts[0]);
        assert(parts =~= seq![parts[0]]);
    } else {
        let head = parts.drop_last();
        assert forall|i: int| 0 <= i < head.len() implies !(#[trigger] head[i]).contains('\n') by {
            assert(head[i] == parts[i]);
        }
        lemma_join_splits(head);
        assert("\n"@ =~= seq!['\n']);
        lemma_pieces_append(joined(head, "\n"@), parts.last());
        assert(head.push(parts.last()) =~= parts);
    }
}

proof fn lemma_pieces_have_no_feed(s: Seq<char>, i: int)
    requires
        0 <= i < pieces(s, '\n').len(),
    ensures
        !pieces(s, '\n')[i].contains('\n'),
    decreases s.len(),
{
    text::lemma_position(s, '\n');
    let p = position(s, '\n');
    if p < s.len() {
        if i == 0 {
            assert(pieces(s, '\n')[0] == s.take(p));
        } else {
            lemma_pieces_have_no_feed(s.skip(p + 1), i - 1);
            assert(pieces(s, '\n')[i] == pieces(s.skip(p + 1), '\n')[i - 1]);
        }
    } else {
        assert(pieces(s, '\n')[0] == s);
    }
}

proof fn lemma_keys_have_no_feed(index: Option<Seq<char>>, key: Seq<char>)
    requires
        keys_in(index).contains(key),
    ensures
        !key.contains('\n'),
{
    let raw = index->0;
    let lines = line_texts(raw);
    lines.lemma_filter_contains_rev(|l: Seq<char>| trimmed(l).len() > 0, key);
    let i = choose|i: int| 0 <= i < lines.len() && lines[i] == key;
    text::lemma_pieces(raw, '\n');
    let parts = pieces(raw, '\n');
    assert(lines[i] == parts[i] || lines[i] == without_return(parts[i]));
    lemma_pieces_have_no_feed(raw, i);
    if key.contains('\n') {
        let k = choose|k: int| 0 <= k < key.len() && key[k] == '\n';
        assert(parts[i][k] == '\n');
    }
}

/// A key that can stand on a line is listed once a note is saved under it.
pub proof fn law_saved_keys_are_listed(index: Option<Seq<char>>, key: Seq<char>)
    requires
        one_line(key),
    ensures
        match index_with(index, key) {
            Some(after) => keys_in(Some(after)).contains(key),
            None => keys_in(index).contains(key),
        },
{
    if !keys_in(index).contains(key) {
        let before = keys_in(index).push(key);
        let keys = arranged(before);
        order::lemma_can_be_arranged(before);
        lemma_same_members(before, keys);
        assert(before[before.len() - 1] == key);
        assert(before.contains(key));
        let i = choose|i: int| 0 <= i < keys.len() && keys[i] == key;
        assert forall|j: int| 0 <= j < keys.len() implies !(#[trigger] keys[j]).contains('\n') by {
            assert(keys.contains(keys[j]));
            assert(before.contains(keys[j]));
            if keys[j] != key {
                let b = choose|b: int| 0 <= b < before.len() && before[b] == keys[j];
                assert(keys_in(index)[b] == keys[j]);
                lemma_keys_have_no_feed(index, keys[j]);
            }
        }
        lemma_join_splits(keys);
        let lines = line_texts(joined(keys, "\n"@));
        text::lemma_blank(key);
        assert(key.len() > 0);
        assert(lines[i] == key);
        lines.lemma_filter_contains(|l: Seq<char>| trimmed(l).len() > 0, i);
    }
}

proof fn lemma_same_members(a: Seq<Seq<char>>, b: Seq<Seq<char>>)
    requires
        order::sorted_from(a, b),
    ensures
        forall|x: Seq<char>| a.contains(x) == b.contains(x),
        a.len() == b.len(),
{
    broadcast use vstd::seq_lib::group_to_multiset_ensures;

    assert forall|x: Seq<char>| a.contains(x) == b.contains(x) by {
        assert(a.to_multiset().count(x) == b.to_multiset().count(x));
    }
    assert(a.to_multiset().len() == b.to_multiset().len());
}

/// Saving a note lists its key beside those that were listed, loses none of them, lists
/// no other, and keeps the list in order; saving it again changes nothing.
pub proof fn law_saving_a_note_loses_no_other(
    index: Option<Seq<char>>,
    key: Seq<char>,
    other: Seq<char>,
)
    requires
        one_line(key),
        forall|i: int| 0 <= i < keys_in(index).len() ==> one_line(#[trigger] keys_in(index)[i]),
    ensures
        match index_with(index, key) {
            Some(after) => {
                &&& keys_in(Some(after)).contains(other) <==> keys_in(index).contains(other)
                    || other == key
                &&& order::in_order(keys_in(Some(after)))
                &&& keys_in(Some(after)).len() == keys_in(index).len() + 1
                &&& index_with(Some(after), key) is None
            },
            None => keys_in(index).contains(key),
        },
{
    let had = keys_in(index);
    if !had.contains(key) {
        let before = had.push(key);
        let keys = arranged(before);
        order::lemma_can_be_arranged(before);
        lemma_same_members(before, keys);
        assert forall|i: int| 0 <= i < keys.len() implies one_line(#[trigger] keys[i]) by {
            assert(keys.contains(keys[i]));
            let b = choose|b: int| 0 <= b < before.len() && before[b] == keys[i];
            if b < had.len() {
                assert(had[b] == keys[i]);
            }
        }
        assert(before[before.len() - 1] == key);
        assert(before.contains(key));
        lemma_list_reads_back(keys);
        if had.contains(other) {
            let i = choose|i: int| 0 <= i < had.len() && had[i] == other;
            assert(before[i] == other);
        }
        if before.contains(other) && other != key {
            let i = choose|i: int| 0 <= i < before.len() && before[i] == other;
            assert(had[i] == other);
        }
    }
}

proof fn lemma_list_reads_back(keys: Seq<Seq<char>>)
    requires
        keys.len() > 0,
        forall|i: int| 0 <= i < keys.len() ==> one_line(#[trigger] keys[i]),
    ensures
        keys_in(Some(joined(keys, "\n"@))) == keys,
{
    assert forall|i: int| 0 <= i < keys.len() implies !(#[trigger] keys[i]).contains('\n') by {
        assert(one_line(keys[i]));
    }
    lemma_join_splits(keys);
    let raw = joined(keys, "\n"@);
    let ended = keys.drop_last().map_values(|p: Seq<char>| without_return(p));
    assert(ended =~= keys.drop_last()) by {
        assert forall|i: int| 0 <= i < ended.len() implies ended[i] == keys.drop_last()[i] by {
            assert(one_line(keys[i]));
        }
    }
    assert(one_line(keys[keys.len() - 1]));
    text::lemma_blank(keys.last());
    assert(keys.last().len() > 0);
    assert(line_texts(raw) =~= keys) by {
        assert(keys.drop_last().push(keys.last()) =~= keys);
    }
    lemma_filter_all(keys);
}

proof fn lemma_filter_all(keys: Seq<Seq<char>>)
    requires
        forall|i: int| 0 <= i < keys.len() ==> one_line(#[trigger] keys[i]),
    ensures
        written_lines(keys) == keys,
    decreases keys.len(),
{
    reveal(Seq::filter);
    if keys.len() > 0 {
        let rest = keys.drop_last();
        assert forall|i: int| 0 <= i < rest.len() implies one_line(#[trigger] rest[i]) by {
            assert(rest[i] == keys[i]);
        }
        lemma_filter_all(rest);
        assert(one_line(keys[keys.len() - 1]));
        assert(rest.push(keys.last()) =~= keys);
    }
}

} // verus!
