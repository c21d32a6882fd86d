//! The order of texts: by code point, the first difference decides, and a
//! text comes before every longer one that begins with it.
use vstd::prelude::*;

use crate::text::{chars_of, texts};

verus! {

/// Whether `a` comes strictly before `b`.
pub open spec fn before(a: Seq<char>, b: Seq<char>) -> bool
    decreases a.len(),
{
    if b.len() == 0 {
        false
    } else if a.len() == 0 {
        true
    } else if a[0] == b[0] {
        before(a.skip(1), b.skip(1))
    } else {
        a[0] < b[0]
    }
}

/// Of two texts exactly one comes first, unless they are equal.
pub proof fn lemma_total(a: Seq<char>, b: Seq<char>)
    ensures
        before(a, b) ==> !before(b, a) && a != b,
        !before(a, b) && !before(b, a) ==> a == b,
    decreases a.len(),
{
    if b.len() == 0 || a.len() == 0 {
        if a.len() == 0 && b.len() == 0 {
            assert(a =~= b);
        }
    } else if a[0] == b[0] {
        lemma_total(a.skip(1), b.skip(1));
        if a.skip(1) == b.skip(1) {
            assert(a =~= seq![a[0]] + a.skip(1));
            assert(b =~= seq![b[0]] + b.skip(1));
            assert(a =~= b);
        }
    }
}

/// What comes before something comes before all that follows it.
pub proof fn lemma_transitive(a: Seq<char>, b: Seq<char>, c: Seq<char>)
    requires
        before(a, b),
        before(b, c),
    ensures
        before(a, c),
    decreases a.len(),
{
    if a.len() > 0 && a[0] == b[0] && b[0] == c[0] {
        lemma_transitive(a.skip(1), b.skip(1), c.skip(1));
    }
}

/// Whether `a` comes strictly before `b`.
pub fn comes_before(a: &str, b: &str) -> (r: bool)
    ensures
        r == before(a@, b@),
{
    let x = chars_of(a);
    let y = chars_of(b);
    let mut i: usize = 0;
    assert(x@.skip(0) =~= x@);
    assert(y@.skip(0) =~= y@);
    while i < x.len() && i < y.len() && x[i] == y[i]
        invariant
            i <= x@.len(),
            i <= y@.len(),
            before(x@.skip(i as int), y@.skip(i as int)) == before(a@, b@),
        decreases x@.len() - i,
    {
        assert(x@.skip(i as int).skip(1) =~= x@.skip(i + 1));
        assert(y@.skip(i as int).skip(1) =~= y@.skip(i + 1));
        i = i + 1;
    }
    if i >= y.len() {
        false
    } else if i >= x.len() {
        true
    } else {
        x[i] < y[i]
    }
}

/// Whether no text in the list comes before an earlier one.
pub open spec fn in_order(items: Seq<Seq<char>>) -> bool {
    forall|i: int, j: int| 0 <= i < j < items.len() ==> !before(items[j], items[i])
}

/// Whether `b` is `a` in order: the same texts, as often, none before an
/// earlier one.
pub open spec fn sorted_from(a: Seq<Seq<char>>, b: Seq<Seq<char>>) -> bool {
    in_order(b) && a.to_multiset() == b.to_multiset()
}

spec fn at_most() -> spec_fn(Seq<char>, Seq<char>) -> bool {
    |x: Seq<char>, y: Seq<char>| !before(y, x)
}

proof fn lemma_at_most()
    ensures
        vstd::relations::total_ordering(at_most()),
{
    let leq = at_most();
    assert forall|x: Seq<char>| #[trigger] leq(x, x) by {
        lemma_total(x, x);
    }
    assert forall|x: Seq<char>, y: Seq<char>|
        #[trigger] leq(x, y) && #[trigger] leq(y, x) implies x == y by {
        lemma_total(x, y);
    }
    assert forall|x: Seq<char>, y: Seq<char>, z: Seq<char>|
        #[trigger] leq(x, y) && #[trigger] leq(y, z) implies leq(x, z) by {
        lemma_total(x, y);
        lemma_total(y, z);
        lemma_total(z, x);
        if before(z, x) {
            if x != y {
                lemma_transitive(z, x, y);
                lemma_total(y, z);
            }
        }
    }
    assert forall|x: Seq<char>, y: Seq<char>| #[trigger] leq(x, y) || #[trigger] leq(y, x) by {
        lemma_total(x, y);
    }
}

/// There is only one way to put texts in order.
pub proof fn lemma_sorted_unique(a: Seq<Seq<char>>, b: Seq<Seq<char>>, c: Seq<Seq<char>>)
    requires
        sorted_from(a, b),
        sorted_from(a, c),
    ensures
        b == c,
{
    let leq = at_most();
    lemma_at_most();
    assert(vstd::relations::sorted_by(b, leq));
    assert(vstd::relations::sorted_by(c, leq));
    vstd::seq_lib::lemma_sorted_unique(b, c, leq);
}

/// Texts can always be put in order.
pub proof fn lemma_can_be_arranged(items: Seq<Seq<char>>)
    ensures
        sorted_from(items, arranged(items)),
{
    let leq = at_most();
    lemma_at_most();
    items.lemma_sort_by_ensures(leq);
    let b = items.sort_by(leq);
    assert forall|i: int, j: int| 0 <= i < j < b.len() implies !before(b[j], b[i]) by {
        assert(leq(b[i], b[j]));
    }
    assert(sorted_from(items, b));
}

/// The texts put in order.
pub open spec fn arranged(items: Seq<Seq<char>>) -> Seq<Seq<char>> {
    choose|b: Seq<Seq<char>>| sorted_from(items, b)
}

/// What holds the same texts in order is the texts put in order.
pub proof fn lemma_arranged(items: Seq<Seq<char>>, b: Seq<Seq<char>>)
    requires
        sorted_from(items, b),
    ensures
        arranged(items) == b,
{
    lemma_sorted_unique(items, b, arranged(items));
}

/// Putting texts in order neither adds nor drops one.
pub proof fn lemma_arranged_holds(items: Seq<Seq<char>>, s: Seq<char>)
    ensures
        arranged(items).contains(s) == items.contains(s),
{
    lemma_can_be_arranged(items);
    items.to_multiset_ensures();
    arranged(items).to_multiset_ensures();
    assert(items.contains(s) <==> items.to_multiset().count(s) > 0);
    assert(arranged(items).contains(s) <==> arranged(items).to_multiset().count(s) > 0);
}

/// Puts strings in order.
pub fn sort(items: &mut Vec<String>)
    ensures
        sorted_from(texts(old(items)@), texts(final(items)@)),
        texts(final(items)@) == arranged(texts(old(items)@)),
{
    let mut out: Vec<String> = Vec::new();
    let mut rest: Vec<String> = Vec::new();
    rest.append(items);
    let ghost start = texts(rest@);
    assert(texts(out@) =~= Seq::<Seq<char>>::empty());
    assert(texts(out@) + texts(rest@) =~= start);
    while rest.len() > 0
        invariant
            in_order(texts(out@)),
            (texts(out@) + texts(rest@)).to_multiset() == start.to_multiset(),
        decreases rest@.len(),
    {
        let ghost placed = texts(out@);
        let ghost left = rest@;
        let item = rest.pop().unwrap();
        let mut at: usize = 0;
        while at < out.len() && !comes_before(item.as_str(), out[at].as_str())
            invariant
                at <= out@.len(),
                forall|j: int| 0 <= j < at ==> !before(item@, texts(out@)[j]),
            decreases out@.len() - at,
        {
            at = at + 1;
        }
        proof {
            assert forall|j: int| at <= j < out@.len() implies before(item@, placed[j]) by {
                assert(before(item@, placed[at as int]));
                if j > at {
                    lemma_total(item@, placed[at as int]);
                    lemma_total(placed[j], placed[at as int]);
                    if placed[j] != placed[at as int] {
                        lemma_transitive(item@, placed[at as int], placed[j]);
                    }
                }
            }
        }
        out.insert(at, item);
        proof {
            let now = texts(out@);
            assert(now =~= placed.insert(at as int, item@));
            assert forall|i: int, j: int| 0 <= i < j < now.len() implies !before(now[j], now[i]) by {
                lemma_total(now[i], now[j]);
                if i < at && j > at {
                    assert(now[i] == placed[i] && now[j] == placed[j - 1]);
                } else if i < at && j < at {
                    assert(now[i] == placed[i] && now[j] == placed[j]);
                } else if i > at {
                    assert(now[i] == placed[i - 1] && now[j] == placed[j - 1]);
                }
            }
            assert(texts(left) =~= texts(rest@).push(item@));
            lemma_moved_any(placed, texts(rest@), at as int, item@);
        }
    }
    assert(texts(rest@) =~= Seq::<Seq<char>>::empty());
    assert(texts(out@) + texts(rest@) =~= texts(out@));
    let ghost done = out@;
    items.append(&mut out);
    assert(items@ =~= done);
    proof {
        lemma_arranged(start, texts(items@));
    }
}

// --- anything with an order -------------------------------------------------

/// Values that can be put in order.
pub trait Ranked: Sized {
    /// Whether this value comes strictly before another.
    spec fn precedes(self, other: Self) -> bool;

    /// The order is one: nothing precedes what precedes it, and what does not
    /// come before something does not come before what that does not come
    /// before.
    proof fn ranks_well(a: Self, b: Self, c: Self)
        ensures
            a.precedes(b) ==> !b.precedes(a),
            !a.precedes(b) && !b.precedes(c) ==> !a.precedes(c),
    ;

    /// Whether this value comes strictly before another.
    fn comes_first(&self, other: &Self) -> (r: bool)
        ensures
            r == self.precedes(*other),
    ;
}

/// Whether no value of a list comes before an earlier one.
pub open spec fn ranked<T: Ranked>(items: Seq<T>) -> bool {
    forall|i: int, j: int| 0 <= i < j < items.len() ==> !items[j].precedes(items[i])
}

/// Where a value goes among values in order: before the first that it precedes.
pub open spec fn spot<T: Ranked>(placed: Seq<T>, item: T) -> int
    decreases placed.len(),
{
    if placed.len() == 0 {
        0
    } else if spot(placed.drop_last(), item) < placed.len() - 1 {
        spot(placed.drop_last(), item)
    } else if item.precedes(placed.last()) {
        placed.len() - 1
    } else {
        placed.len() as int
    }
}

/// The values in order. Of two of which neither precedes the other, the one that
/// came first stays first.
pub open spec fn in_turn<T: Ranked>(items: Seq<T>) -> Seq<T>
    decreases items.len(),
{
    if items.len() == 0 {
        Seq::empty()
    } else {
        let placed = in_turn(items.drop_last());
        placed.insert(spot(placed, items.last()), items.last())
    }
}

proof fn lemma_spot<T: Ranked>(placed: Seq<T>, item: T)
    ensures
        0 <= spot(placed, item) <= placed.len(),
        forall|j: int| 0 <= j < spot(placed, item) ==> !item.precedes(#[trigger] placed[j]),
        spot(placed, item) < placed.len() ==> item.precedes(placed[spot(placed, item)]),
    decreases placed.len(),
{
    if placed.len() > 0 {
        let head = placed.drop_last();
        lemma_spot(head, item);
        assert forall|j: int| 0 <= j < spot(placed, item) implies !item.precedes(
            #[trigger] placed[j],
        ) by {
            if j < placed.len() - 1 {
                assert(placed[j] == head[j]);
            }
        }
    }
}

proof fn lemma_spot_is<T: Ranked>(placed: Seq<T>, item: T, at: int)
    requires
        0 <= at <= placed.len(),
        forall|j: int| 0 <= j < at ==> !item.precedes(#[trigger] placed[j]),
        at < placed.len() ==> item.precedes(placed[at]),
    ensures
        spot(placed, item) == at,
{
    lemma_spot(placed, item);
    let s = spot(placed, item);
    if s < at {
        assert(!item.precedes(placed[s]));
    } else if at < s {
        assert(!item.precedes(placed[at]));
    }
}

/// Putting values in order neither adds nor drops one, and puts them in order.
pub proof fn lemma_in_turn<T: Ranked>(items: Seq<T>)
    ensures
        ranked(in_turn(items)),
        in_turn(items).to_multiset() == items.to_multiset(),
    decreases items.len(),
{
    if items.len() == 0 {
        assert(in_turn(items) =~= items);
    } else {
        let head = items.drop_last();
        let item = items.last();
        let placed = in_turn(head);
        let at = spot(placed, item);
        let now = in_turn(items);
        lemma_in_turn(head);
        lemma_spot(placed, item);
        assert forall|j: int| at <= j < placed.len() implies !placed[j].precedes(item) by {
            T::ranks_well(item, placed[at], item);
            if j > at {
                T::ranks_well(placed[j], placed[at], item);
            }
        }
        assert forall|i: int, j: int| 0 <= i < j < now.len() implies !now[j].precedes(now[i]) by {
            if i < at && j > at {
                assert(now[i] == placed[i] && now[j] == placed[j - 1]);
            } else if i < at && j < at {
                assert(now[i] == placed[i] && now[j] == placed[j]);
            } else if i > at {
                assert(now[i] == placed[i - 1] && now[j] == placed[j - 1]);
            } else if i == at {
                assert(now[j] == placed[j - 1]);
            } else {
                assert(now[i] == placed[i]);
            }
        }
        let none = Seq::<T>::empty();
        lemma_moved_any(placed, none, at, item);
        assert(now + none =~= now);
        assert(placed + none.push(item) =~= placed.push(item));
        broadcast use vstd::seq_lib::group_to_multiset_ensures;

        assert(items =~= head.push(item));
    }
}

/// Puts values in order.
pub fn rank<T: Ranked>(items: Vec<T>) -> (r: Vec<T>)
    ensures
        r@ == in_turn(items@),
        ranked(r@),
        r@.to_multiset() == items@.to_multiset(),
{
    let ghost start = items@;
    let mut rest: Vec<T> = Vec::new();
    let mut given = items;
    assert(given@ + rest@.reverse() =~= start);
    // Taken from the back, so that the first is placed first.
    while given.len() > 0
        invariant
            given@ + rest@.reverse() == start,
        decreases given@.len(),
    {
        let ghost g = given@;
        let ghost q = rest@;
        let item = given.pop().unwrap();
        rest.push(item);
        assert(given@ + rest@.reverse() =~= g + q.reverse());
    }
    assert(rest@.reverse() =~= start);
    let mut out: Vec<T> = Vec::new();
    assert(start.take(0) =~= Seq::<T>::empty());
    assert(out@ =~= in_turn(start.take(0)));
    assert(start.skip(0) =~= start);
    while rest.len() > 0
        invariant
            out@.len() + rest@.len() == start.len(),
            out@ == in_turn(start.take(out@.len() as int)),
            rest@.reverse() == start.skip(out@.len() as int),
        decreases rest@.len(),
    {
        let ghost placed = out@;
        let ghost left = rest@;
        let ghost k = placed.len() as int;
        let item = rest.pop().unwrap();
        proof {
            assert(left.reverse()[0] == left.last());
            assert(start.skip(k)[0] == start[k]);
            assert(item == start[k]);
            assert(rest@.reverse() =~= left.reverse().skip(1));
            assert(start.skip(k).skip(1) =~= start.skip(k + 1));
        }
        let mut at: usize = 0;
        while at < out.len() && !item.comes_first(&out[at])
            invariant
                at <= out@.len(),
                forall|j: int| 0 <= j < at ==> !item.precedes(out@[j]),
            decreases out@.len() - at,
        {
            at = at + 1;
        }
        proof {
            lemma_spot_is(placed, item, at as int);
        }
        out.insert(at, item);
        proof {
            assert(out@ =~= placed.insert(at as int, item));
            assert(start.take(k + 1).drop_last() =~= start.take(k));
            assert(start.take(k + 1).last() == item);
        }
    }
    assert(start.take(start.len() as int) =~= start);
    proof {
        lemma_in_turn(start);
    }
    out
}

proof fn lemma_moved_any<T>(placed: Seq<T>, left: Seq<T>, at: int, item: T)
    requires
        0 <= at <= placed.len(),
    ensures
        (placed.insert(at, item) + left).to_multiset() == (placed + left.push(item)).to_multiset(),
{
    broadcast use vstd::seq_lib::group_to_multiset_ensures;
    broadcast use vstd::multiset::group_multiset_axioms;

    let now = placed.insert(at, item);
    assert(now.remove(at) =~= placed);
    assert(now[at] == item);
    assert(now.contains(item));
    assert(now.to_multiset() =~= placed.to_multiset().insert(item));
    vstd::seq_lib::lemma_multiset_commutative(now, left);
    vstd::seq_lib::lemma_multiset_commutative(placed, left.push(item));
    assert((now + left).to_multiset() =~= (placed + left.push(item)).to_multiset());
}

/// Texts are in order as words are in a dictionary: the first character that differs
/// decides, and a text comes before one that goes on from it.
pub proof fn law_order_is_decided_by_the_first_difference(
    p: Seq<char>,
    a: char,
    x: Seq<char>,
    b: char,
    y: Seq<char>,
)
    ensures
        a != b ==> before(p + seq![a] + x, p + seq![b] + y) == (a < b),
        before(p, p + seq![a] + x),
        !before(p + seq![a] + x, p),
        !before(p, p),
    decreases p.len(),
{
    let s = p + seq![a] + x;
    let t = p + seq![b] + y;
    if p.len() == 0 {
        assert(s[0] == a && t[0] == b);
    } else {
        let q = p.skip(1);
        law_order_is_decided_by_the_first_difference(q, a, x, b, y);
        assert(s.skip(1) =~= q + seq![a] + x);
        assert(t.skip(1) =~= q + seq![b] + y);
        assert(s[0] == p[0] && t[0] == p[0]);
    }
}

/// Putting things in order keeps what is in order as it is, so that equals keep their
/// turn.
pub proof fn law_what_is_in_order_stays<T: Ranked>(items: Seq<T>)
    requires
        ranked(items),
    ensures
        in_turn(items) == items,
    decreases items.len(),
{
    if items.len() > 0 {
        let head = items.drop_last();
        assert(ranked(head)) by {
            assert forall|i: int, j: int| 0 <= i < j < head.len() implies !head[j].precedes(
                head[i],
            ) by {
                assert(!items[j].precedes(items[i]));
            }
        }
        law_what_is_in_order_stays(head);
        let item = items.last();
        assert forall|j: int| 0 <= j < head.len() implies !item.precedes(#[trigger] head[j]) by {
            assert(!items[items.len() - 1].precedes(items[j]));
        }
        lemma_spot_is(head, item, head.len() as int);
        assert(head.insert(head.len() as int, item) =~= items);
    }
}

/// Putting texts in order keeps every one of them, as often as it was there.
pub proof fn law_arranging_loses_nothing(items: Seq<Seq<char>>, s: Seq<char>)
    ensures
        in_order(arranged(items)),
        arranged(items).to_multiset() == items.to_multiset(),
        arranged(items).contains(s) == items.contains(s),
        in_order(items) ==> arranged(items) == items,
{
    lemma_can_be_arranged(items);
    lemma_arranged_holds(items, s);
    if in_order(items) {
        lemma_arranged(items, items);
    }
}

} // verus!
