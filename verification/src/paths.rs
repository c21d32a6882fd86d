//! Paths as text.
//!
//! A path is read part by part: an optional root, and then names between
//! slashes, with `.` and `..` among them. Empty names and every `.` but a
//! leading one say nothing and are passed over, so two texts with the same
//! parts are the same path.
//!
//! A system with drives and backslashes writes its paths otherwise: `from_host`
//! and `to_host` go from its way of writing to this one and back.
use vstd::prelude::*;

use crate::text;
use crate::text::{pieces, text_of, texts};

verus! {

/// One part of a path.
#[derive(Debug, PartialEq, Eq)]
pub enum Part {
    /// The root.
    Root,
    /// The directory the path starts in.
    Here,
    /// The directory above.
    Up,
    /// A name.
    Name(String),
}

/// One part of a path, as text.
pub enum PartView {
    /// The root.
    Root,
    /// The directory the path starts in.
    Here,
    /// The directory above.
    Up,
    /// A name.
    Name(Seq<char>),
}

impl View for Part {
    type V = PartView;

    open spec fn view(&self) -> PartView {
        match self {
            Part::Root => PartView::Root,
            Part::Here => PartView::Here,
            Part::Up => PartView::Up,
            Part::Name(n) => PartView::Name(n@),
        }
    }
}

/// The parts a list holds, as text.
pub open spec fn part_views(parts: Seq<Part>) -> Seq<PartView> {
    parts.map_values(|p: Part| p@)
}

/// How a part is written.
pub open spec fn part_text(p: PartView) -> Seq<char> {
    match p {
        PartView::Root => "/"@,
        PartView::Here => "."@,
        PartView::Up => ".."@,
        PartView::Name(n) => n,
    }
}

/// How a part is written.
pub fn part_string(p: &Part) -> (r: String)
    ensures
        r@ == part_text(p@),
{
    match p {
        Part::Root => "/".to_owned(),
        Part::Here => ".".to_owned(),
        Part::Up => "..".to_owned(),
        Part::Name(n) => n.clone(),
    }
}

// --- reading a path ---------------------------------------------------------

/// Whether a path starts from a root.
pub open spec fn is_rooted(s: Seq<char>) -> bool {
    s.len() > 0 && s[0] == '/'
}

/// The part that stands before the names, if there is one.
pub open spec fn lead(s: Seq<char>) -> Seq<PartView> {
    if is_rooted(s) {
        seq![PartView::Root]
    } else if pieces(s, '/')[0] == "."@ {
        seq![PartView::Here]
    } else {
        Seq::empty()
    }
}

/// The names among the pieces between slashes.
pub open spec fn steps(items: Seq<Seq<char>>) -> Seq<PartView>
    decreases items.len(),
{
    if items.len() == 0 {
        Seq::empty()
    } else if items.last().len() == 0 || items.last() == "."@ {
        steps(items.drop_last())
    } else if items.last() == ".."@ {
        steps(items.drop_last()).push(PartView::Up)
    } else {
        steps(items.drop_last()).push(PartView::Name(items.last()))
    }
}

/// The parts of a path.
pub open spec fn parts(s: Seq<char>) -> Seq<PartView> {
    lead(s) + steps(pieces(s, '/'))
}

fn push_part(out: &mut Vec<Part>, p: Part)
    ensures
        part_views(final(out)@) == part_views(old(out)@).push(p@),
{
    let ghost had = out@;
    out.push(p);
    assert(part_views(out@) =~= part_views(had).push(p@));
}

/// Reads the parts of a path.
pub fn parse(s: &str) -> (r: Vec<Part>)
    ensures
        part_views(r@) == parts(s@),
{
    let chars = text::chars_of(s);
    let mut out: Vec<Part> = Vec::new();
    assert(part_views(out@) =~= Seq::<PartView>::empty());
    let rooted = chars.len() > 0 && chars[0] == '/';
    if rooted {
        push_part(&mut out, Part::Root);
    }
    let items = text::split(s, '/');
    proof {
        text::lemma_pieces(s@, '/');
    }
    let ghost all = texts(items@);
    assert(all[0] == items@[0]@);
    if !rooted && text::same(items[0].as_str(), ".") {
        push_part(&mut out, Part::Here);
    }
    assert(part_views(out@) =~= lead(s@));
    assert(all.take(0) =~= Seq::<Seq<char>>::empty());
    assert(lead(s@) + steps(all.take(0)) =~= lead(s@));
    for i in 0..items.len()
        invariant
            all == texts(items@),
            part_views(out@) == lead(s@) + steps(all.take(i as int)),
    {
        let ghost had = part_views(out@);
        proof {
            assert(all.take(i + 1).drop_last() =~= all.take(i as int));
            assert(all.take(i + 1).last() == items@[i as int]@);
        }
        let item = items[i].as_str();
        if text::is_empty(item) || text::same(item, ".") {
        } else if text::same(item, "..") {
            push_part(&mut out, Part::Up);
            assert(had.push(PartView::Up) =~= lead(s@) + steps(all.take(i as int)).push(
                PartView::Up,
            ));
        } else {
            push_part(&mut out, Part::Name(items[i].clone()));
            assert(had.push(PartView::Name(item@)) =~= lead(s@) + steps(all.take(i as int)).push(
                PartView::Name(item@),
            ));
        }
    }
    assert(all.take(items@.len() as int) =~= all);
    out
}

// --- writing a path ---------------------------------------------------------

/// Whether a slash stands between what is written and the part that follows.
pub open spec fn needs_slash(written: Seq<PartView>) -> bool {
    written.len() > 0 && !(written.last() is Root)
}

/// A path written part by part.
pub open spec fn written(items: Seq<PartView>) -> Seq<char>
    decreases items.len(),
{
    if items.len() == 0 {
        Seq::empty()
    } else {
        written(items.drop_last()) + (if needs_slash(items.drop_last()) {
            "/"@
        } else {
            Seq::empty()
        }) + part_text(items.last())
    }
}

/// Writes a path part by part.
pub fn write(items: &Vec<Part>) -> (r: String)
    ensures
        r@ == written(part_views(items@)),
{
    let mut out = String::new();
    let ghost all = part_views(items@);
    assert(all.take(0) =~= Seq::<PartView>::empty());
    for i in 0..items.len()
        invariant
            all == part_views(items@),
            out@ == written(all.take(i as int)),
    {
        let ghost had = out@;
        proof {
            assert(all.take(i + 1).drop_last() =~= all.take(i as int));
            assert(all.take(i + 1).last() == items@[i as int]@);
            if i > 0 {
                assert(all.take(i as int).last() == items@[i - 1]@);
            }
        }
        let slash = i > 0 && !is_start(&items[i - 1]);
        if slash {
            out.append("/");
        } else {
            assert(had + Seq::<char>::empty() =~= had);
        }
        out.append(part_string(&items[i]).as_str());
    }
    assert(all.take(items@.len() as int) =~= all);
    out
}

fn is_start(p: &Part) -> (r: bool)
    ensures
        r == (p@ is Root),
{
    match p {
        Part::Root => true,
        _ => false,
    }
}

// --- putting paths together -------------------------------------------------

/// Whether a path says where it is without help: from a root.
pub open spec fn absolute(s: Seq<char>) -> bool {
    is_rooted(s)
}

/// Whether a path says where it is without help: from a root.
pub fn is_absolute(s: &str) -> (r: bool)
    ensures
        r == absolute(s@),
{
    let chars = text::chars_of(s);
    chars.len() > 0 && chars[0] == '/'
}

/// A path below another. One with a root of its own stands alone.
pub open spec fn below(base: Seq<char>, s: Seq<char>) -> Seq<char> {
    if absolute(s) {
        s
    } else if base.len() == 0 || base.last() == '/' {
        base + s
    } else {
        base + "/"@ + s
    }
}

/// A path below another.
pub fn join(base: &str, s: &str) -> (r: String)
    ensures
        r@ == below(base@, s@),
{
    if is_absolute(s) {
        return s.to_owned();
    }
    let head = text::chars_of(base);
    let len: usize = head.len();
    if len == 0 || head[len - 1] == '/' {
        base.to_owned().concat(s)
    } else {
        base.to_owned().concat("/").concat(s)
    }
}

// --- names ------------------------------------------------------------------

/// The name a path ends in, if it ends in one.
pub open spec fn last_name(s: Seq<char>) -> Option<Seq<char>> {
    if parts(s).len() > 0 {
        match parts(s).last() {
            PartView::Name(n) => Some(n),
            _ => None,
        }
    } else {
        None
    }
}

/// The name a path ends in, if it ends in one.
pub fn file_name(s: &str) -> (r: Option<String>)
    ensures
        text_of(r) == last_name(s@),
{
    let items = parse(s);
    let n: usize = items.len();
    if n == 0 {
        return None;
    }
    assert(part_views(items@).last() == items@[n - 1]@);
    match &items[n - 1] {
        Part::Name(name) => Some(name.clone()),
        _ => None,
    }
}

/// Where the last `c` stands, or `-1` if there is none.
pub open spec fn last_position(s: Seq<char>, c: char) -> int
    decreases s.len(),
{
    if s.len() == 0 {
        -1
    } else if s.last() == c {
        s.len() - 1
    } else {
        last_position(s.drop_last(), c)
    }
}

/// A name without its extension. A name whose only dot is its first character
/// has none.
pub open spec fn stem(name: Seq<char>) -> Seq<char> {
    let i = last_position(name, '.');
    if i > 0 {
        name.take(i)
    } else {
        name
    }
}

/// A name without its extension.
pub fn stem_of(name: &str) -> (r: String)
    ensures
        r@ == stem(name@),
{
    let chars = text::chars_of(name);
    let mut i: usize = chars.len();
    assert(chars@.take(i as int) =~= chars@);
    while i > 0 && chars[i - 1] != '.'
        invariant
            i <= chars@.len(),
            last_position(chars@.take(i as int), '.') == last_position(chars@, '.'),
        decreases i,
    {
        assert(chars@.take(i as int).drop_last() =~= chars@.take(i - 1));
        i = i - 1;
    }
    if i > 1 {
        let r = text::slice_of(&chars, 0, i - 1);
        assert(r@ =~= name@.take(i - 1));
        r
    } else {
        name.to_owned()
    }
}

/// The same path with another name at its end, or with the name added where
/// it ends in none.
pub open spec fn renamed(s: Seq<char>, name: Seq<char>) -> Seq<char> {
    if last_name(s) is Some {
        below(written(parts(s).drop_last()), name)
    } else {
        below(s, name)
    }
}

/// The same path with another name at its end.
pub fn with_file_name(s: &str, name: &str) -> (r: String)
    ensures
        r@ == renamed(s@, name@),
{
    let mut items = parse(s);
    if file_name(s).is_some() {
        let ghost had = items@;
        let _last = items.pop();
        assert(part_views(items@) =~= part_views(had).drop_last());
        let head = write(&items);
        join(head.as_str(), name)
    } else {
        join(s, name)
    }
}

// --- one path inside another ------------------------------------------------

/// Whether a path lies inside another, or is it.
pub open spec fn inside(s: Seq<char>, root: Seq<char>) -> bool {
    parts(root).len() <= parts(s).len() && parts(s).take(parts(root).len() as int) == parts(root)
}

/// The parts of a path below another it lies inside of.
pub open spec fn relative(s: Seq<char>, root: Seq<char>) -> Option<Seq<PartView>> {
    if inside(s, root) {
        Some(parts(s).skip(parts(root).len() as int))
    } else {
        None
    }
}

fn same_part(a: &Part, b: &Part) -> (r: bool)
    ensures
        r == (a@ == b@),
{
    match (a, b) {
        (Part::Root, Part::Root) => true,
        (Part::Here, Part::Here) => true,
        (Part::Up, Part::Up) => true,
        (Part::Name(x), Part::Name(y)) => text::same(x.as_str(), y.as_str()),
        _ => false,
    }
}

fn copy_part(p: &Part) -> (r: Part)
    ensures
        r@ == p@,
{
    match p {
        Part::Root => Part::Root,
        Part::Here => Part::Here,
        Part::Up => Part::Up,
        Part::Name(n) => Part::Name(n.clone()),
    }
}

/// The parts of a path below another it lies inside of.
pub fn strip_prefix(s: &str, root: &str) -> (r: Option<Vec<Part>>)
    ensures
        match r {
            Some(rest) => relative(s@, root@) == Some(part_views(rest@)),
            None => relative(s@, root@) is None,
        },
{
    let items = parse(s);
    let head = parse(root);
    let ghost a = part_views(items@);
    let ghost b = part_views(head@);
    if head.len() > items.len() {
        return None;
    }
    for i in 0..head.len()
        invariant
            a == part_views(items@),
            b == part_views(head@),
            a == parts(s@),
            b == parts(root@),
            head@.len() <= items@.len(),
            forall|j: int| 0 <= j < i ==> a[j] == b[j],
    {
        if !same_part(&items[i], &head[i]) {
            assert(a[i as int] != b[i as int]);
            assert(a.take(b.len() as int)[i as int] != b[i as int]);
            return None;
        }
    }
    assert(a.take(b.len() as int) =~= b);
    let mut rest: Vec<Part> = Vec::new();
    let n: usize = head.len();
    assert(part_views(rest@) =~= a.subrange(n as int, n as int));
    for i in n..items.len()
        invariant
            a == part_views(items@),
            n <= items@.len(),
            part_views(rest@) == a.subrange(n as int, i as int),
    {
        let ghost had = part_views(rest@);
        push_part(&mut rest, copy_part(&items[i]));
        assert(had.push(a[i as int]) =~= a.subrange(n as int, i + 1));
    }
    assert(a.subrange(n as int, items@.len() as int) =~= a.skip(n as int));
    Some(rest)
}

/// Whether a path lies inside another, or is it.
pub fn starts_with(s: &str, root: &str) -> (r: bool)
    ensures
        r == inside(s@, root@),
{
    strip_prefix(s, root).is_some()
}

/// Whether two texts are the same path.
pub fn same_path(a: &str, b: &str) -> (r: bool)
    ensures
        r == (parts(a@) == parts(b@)),
{
    match strip_prefix(a, b) {
        Some(rest) => {
            proof {
                let x = parts(a@);
                let y = parts(b@);
                if rest@.len() == 0 {
                    assert(part_views(rest@).len() == 0);
                    assert(x.take(y.len() as int) =~= x);
                } else {
                    assert(part_views(rest@).len() > 0);
                    assert(x.len() > y.len());
                }
            }
            rest.len() == 0
        },
        None => {
            proof {
                if parts(a@) == parts(b@) {
                    assert(parts(a@).take(parts(b@).len() as int) =~= parts(b@));
                }
            }
            false
        },
    }
}

// --- without detours --------------------------------------------------------

/// The parts of a path once every `.` is passed over and every `..` has taken
/// back the name before it.
pub open spec fn direct(items: Seq<PartView>) -> Seq<PartView>
    decreases items.len(),
{
    if items.len() == 0 {
        Seq::empty()
    } else {
        let so_far = direct(items.drop_last());
        match items.last() {
            PartView::Here => so_far,
            PartView::Up => if so_far.len() > 0 && so_far.last() is Name {
                so_far.drop_last()
            } else {
                so_far
            },
            p => so_far.push(p),
        }
    }
}

/// A path without `.` and `..`, found without touching the disk.
pub open spec fn normal(s: Seq<char>) -> Seq<char> {
    written(direct(parts(s)))
}

fn without_detours(items: Vec<Part>) -> (r: Vec<Part>)
    ensures
        part_views(r@) == direct(part_views(items@)),
{
    let ghost all = part_views(items@);
    let mut out: Vec<Part> = Vec::new();
    assert(all.take(0) =~= Seq::<PartView>::empty());
    assert(part_views(out@) =~= Seq::<PartView>::empty());
    for i in 0..items.len()
        invariant
            all == part_views(items@),
            part_views(out@) == direct(all.take(i as int)),
    {
        proof {
            assert(all.take(i + 1).drop_last() =~= all.take(i as int));
            assert(all.take(i + 1).last() == items@[i as int]@);
        }
        match &items[i] {
            Part::Here => {},
            Part::Up => {
                let n: usize = out.len();
                let ghost had = out@;
                let named = n > 0 && is_name(&out[n - 1]);
                assert(n > 0 ==> part_views(had).last() == had[n - 1]@);
                if named {
                    let _gone = out.pop();
                    assert(part_views(out@) =~= part_views(had).drop_last());
                }
            },
            other => {
                push_part(&mut out, copy_part(other));
            },
        }
    }
    assert(all.take(items@.len() as int) =~= all);
    out
}

fn is_name(p: &Part) -> (r: bool)
    ensures
        r == (p@ is Name),
{
    match p {
        Part::Name(_) => true,
        _ => false,
    }
}

/// Removes `.` and `..` without touching the disk, so a path that does not
/// exist yet is still checked properly.
pub fn normalise(s: &str) -> (r: String)
    ensures
        r@ == normal(s@),
{
    write(&without_detours(parse(s)))
}

/// The directory a path lies in: the path without its last part, unless that
/// is a root.
pub open spec fn container(s: Seq<char>) -> Option<Seq<char>> {
    if parts(s).len() > 0 && !(parts(s).last() is Root) {
        Some(written(parts(s).drop_last()))
    } else {
        None
    }
}

/// The directory a path lies in.
pub fn parent(s: &str) -> (r: Option<String>)
    ensures
        text_of(r) == container(s@),
{
    let mut items = parse(s);
    let ghost had = items@;
    let n: usize = items.len();
    assert(n > 0 ==> part_views(had).last() == had[n - 1]@);
    if n == 0 || is_start(&items[n - 1]) {
        return None;
    }
    let _last = items.pop();
    assert(part_views(items@) =~= part_views(had).drop_last());
    Some(write(&items))
}

// --- laws -------------------------------------------------------------------

/// A path without detours has neither `.` nor `..` among its parts.
pub proof fn law_direct_has_no_detours(items: Seq<PartView>, i: int)
    requires
        0 <= i < direct(items).len(),
    ensures
        !(direct(items)[i] is Here),
        !(direct(items)[i] is Up),
    decreases items.len(),
{
    let so_far = direct(items.drop_last());
    if i < so_far.len() {
        law_direct_has_no_detours(items.drop_last(), i);
    }
}

/// Taking the detours out of a path that has none changes nothing.
pub proof fn law_direct_is_idempotent(items: Seq<PartView>)
    ensures
        direct(direct(items)) == direct(items),
{
    let d = direct(items);
    assert forall|i: int| 0 <= i < d.len() implies !(#[trigger] d[i] is Here) && !(d[i] is Up) by {
        law_direct_has_no_detours(items, i);
    }
    lemma_direct_keeps(d);
}

proof fn lemma_direct_keeps(items: Seq<PartView>)
    requires
        forall|i: int| 0 <= i < items.len() ==> !(#[trigger] items[i] is Here) && !(items[i] is Up),
    ensures
        direct(items) == items,
    decreases items.len(),
{
    if items.len() > 0 {
        let head = items.drop_last();
        assert forall|i: int| 0 <= i < head.len() implies !(#[trigger] head[i] is Here) && !(
        head[i] is Up) by {
            assert(head[i] == items[i]);
        }
        lemma_direct_keeps(head);
        assert(!(items[items.len() - 1] is Here));
        assert(head.push(items.last()) =~= items);
    } else {
        assert(direct(items) =~= items);
    }
}

/// Every path lies inside itself.
pub proof fn law_every_path_is_inside_itself(s: Seq<char>)
    ensures
        inside(s, s),
{
    assert(parts(s).take(parts(s).len() as int) =~= parts(s));
}

/// A path below another that has a name or a root: the parts of both.
pub open spec fn beside(base: Seq<char>, s: Seq<char>) -> Seq<char> {
    if base.last() == '/' {
        base + s
    } else {
        base + "/"@ + s
    }
}

proof fn lemma_steps_add(a: Seq<Seq<char>>, b: Seq<Seq<char>>)
    ensures
        steps(a + b) == steps(a) + steps(b),
    decreases b.len(),
{
    if b.len() == 0 {
        assert(a + b =~= a);
        assert(steps(a) + steps(b) =~= steps(a));
    } else {
        assert((a + b).drop_last() =~= a + b.drop_last());
        assert((a + b).last() == b.last());
        lemma_steps_add(a, b.drop_last());
        let x = steps(a);
        let y = steps(b.drop_last());
        if b.last().len() == 0 || b.last() == "."@ {
        } else if b.last() == ".."@ {
            assert((x + y).push(PartView::Up) =~= x + y.push(PartView::Up));
        } else {
            let n = PartView::Name(b.last());
            assert((x + y).push(n) =~= x + y.push(n));
        }
    }
}

/// No step stands still.
pub proof fn lemma_steps_hold_no_here(items: Seq<Seq<char>>, i: int)
    requires
        0 <= i < steps(items).len(),
    ensures
        !(steps(items)[i] is Here),
    decreases items.len(),
{
    if items.len() > 0 && i < steps(items.drop_last()).len() {
        lemma_steps_hold_no_here(items.drop_last(), i);
    }
}

/// The parts of a path put below another are the parts of both.
pub proof fn lemma_parts_beside(base: Seq<char>, s: Seq<char>)
    requires
        base.len() > 0,
    ensures
        parts(beside(base, s)) == parts(base) + steps(pieces(s, '/')),
{
    reveal_strlit("/");
    assert("/"@ =~= seq!['/']);
    let full = beside(base, s);
    assert(full[0] == base[0]);
    let head = if base.last() == '/' {
        base.drop_last()
    } else {
        base
    };
    assert(full =~= head + seq!['/'] + s);
    text::lemma_pieces_add(head, '/', s);
    text::lemma_pieces(head, '/');
    assert(is_rooted(full) == is_rooted(base));
    if base.last() == '/' {
        let none = Seq::<char>::empty();
        assert(base =~= head + seq!['/'] + none);
        text::lemma_pieces_add(head, '/', none);
        text::lemma_one_piece(none, '/');
        lemma_steps_add(pieces(head, '/'), seq![none]);
        assert(seq![none].drop_last() =~= Seq::<Seq<char>>::empty());
        assert(steps(seq![none]) == steps(Seq::<Seq<char>>::empty()));
        assert(steps(Seq::<Seq<char>>::empty()) == Seq::<PartView>::empty());
        assert(steps(pieces(base, '/')) =~= steps(pieces(head, '/')));
        assert(pieces(base, '/')[0] == pieces(head, '/')[0]);
    }
    assert(pieces(full, '/')[0] == pieces(head, '/')[0]);
    assert(pieces(base, '/')[0] == pieces(head, '/')[0]);
    assert(lead(full) == lead(base));
    lemma_steps_add(pieces(head, '/'), pieces(s, '/'));
    assert(parts(full) =~= parts(base) + steps(pieces(s, '/')));
}

/// A path put below another lies inside it, and what it adds are its own parts.
pub proof fn law_below_is_inside(base: Seq<char>, s: Seq<char>)
    requires
        base.len() > 0,
        !absolute(s),
    ensures
        inside(below(base, s), base),
        relative(below(base, s), base) == Some(steps(pieces(s, '/'))),
{
    lemma_parts_beside(base, s);
    assert(below(base, s) == beside(base, s));
    let a = parts(base);
    let b = steps(pieces(s, '/'));
    assert((a + b).take(a.len() as int) =~= a);
    assert((a + b).skip(a.len() as int) =~= b);
}

/// What is put below an absolute path is absolute.
pub proof fn lemma_below_is_absolute(base: Seq<char>, s: Seq<char>)
    requires
        absolute(base),
    ensures
        absolute(below(base, s)),
{
    if !absolute(s) {
        assert(below(base, s)[0] == base[0]);
    }
}

// --- writing and reading ----------------------------------------------------

/// Whether a text can be the name of a part.
pub open spec fn is_simple(n: Seq<char>) -> bool {
    n.len() > 0 && !n.contains('/') && n != "."@ && n != ".."@
}

/// A name is one step.
pub proof fn lemma_one_step(n: Seq<char>)
    requires
        is_simple(n),
    ensures
        steps(seq![n]) == seq![PartView::Name(n)],
{
    let none = Seq::<Seq<char>>::empty();
    assert(seq![n].drop_last() =~= none);
    assert(steps(none) == Seq::<PartView>::empty());
    assert(steps(seq![n]) =~= seq![PartView::Name(n)]);
}

proof fn lemma_steps_simple(items: Seq<Seq<char>>, i: int)
    requires
        forall|j: int| 0 <= j < items.len() ==> !(#[trigger] items[j]).contains('/'),
        0 <= i < steps(items).len(),
    ensures
        steps(items)[i] is Up || (steps(items)[i] matches PartView::Name(n) && is_simple(n)),
    decreases items.len(),
{
    if items.len() > 0 {
        let rest = items.drop_last();
        assert forall|j: int| 0 <= j < rest.len() implies !(#[trigger] rest[j]).contains('/') by {
            assert(rest[j] == items[j]);
        }
        if i < steps(rest).len() {
            lemma_steps_simple(rest, i);
        } else {
            assert(!items[items.len() - 1].contains('/'));
        }
    }
}

/// Whether a list of parts starts from a root and goes on with names only.
pub open spec fn is_plain(items: Seq<PartView>) -> bool {
    &&& items.len() > 0
    &&& items[0] is Root
    &&& forall|i: int|
        1 <= i < items.len() ==> (#[trigger] items[i] matches PartView::Name(n) && is_simple(n))
}

proof fn lemma_direct_shape(items: Seq<PartView>)
    requires
        items.len() > 0,
        items[0] is Root,
        forall|i: int|
            1 <= i < items.len() ==> (#[trigger] items[i] is Up || items[i] is Here || (
            items[i] matches PartView::Name(n) && is_simple(n))),
    ensures
        is_plain(direct(items)),
    decreases items.len(),
{
    let rest = items.drop_last();
    if items.len() == 1 {
        assert forall|i: int| 0 <= i < items.len() implies !(#[trigger] items[i] is Here) && !(
        items[i] is Up) by {
            assert(items[i] is Root);
        }
        lemma_direct_keeps(items);
    } else {
        assert(rest[0] == items[0]);
        assert forall|i: int| 1 <= i < rest.len() implies (#[trigger] rest[i] is Up
            || rest[i] is Here || (rest[i] matches PartView::Name(n) && is_simple(n))) by {
            assert(rest[i] == items[i]);
        }
        lemma_direct_shape(rest);
        let so_far = direct(rest);
        let last = items[items.len() - 1];
        if last is Up {
            if so_far.last() is Name {
                let short = so_far.drop_last();
                assert(so_far.len() > 1);
                assert(short[0] == so_far[0]);
                assert forall|i: int| 1 <= i < short.len() implies (
                #[trigger] short[i] matches PartView::Name(n) && is_simple(n)) by {
                    assert(short[i] == so_far[i]);
                }
            }
        } else if !(last is Here) {
            let long = so_far.push(last);
            assert(long[0] == so_far[0]);
            assert forall|i: int| 1 <= i < long.len() implies (
            #[trigger] long[i] matches PartView::Name(n) && is_simple(n)) by {
                if i < so_far.len() {
                    assert(long[i] == so_far[i]);
                }
            }
        }
    }
}

/// A path that starts from a root has a root and names left once its detours are
/// taken out.
pub proof fn lemma_rooted_shape(s: Seq<char>)
    requires
        absolute(s),
    ensures
        is_plain(direct(parts(s))),
{
    let items = parts(s);
    let names = pieces(s, '/');
    assert forall|j: int| 0 <= j < names.len() implies !(#[trigger] names[j]).contains('/') by {
        text::lemma_pieces_clean(s, '/', j);
    }
    assert forall|i: int| 1 <= i < items.len() implies (#[trigger] items[i] is Up
        || items[i] is Here || (items[i] matches PartView::Name(n) && is_simple(n))) by {
        lemma_steps_simple(names, i - 1);
        assert(items[i] == steps(names)[i - 1]);
    }
    assert(items[0] == lead(s)[0]);
    lemma_direct_shape(items);
}

/// Parts that start from a root and go on with names are read back as they were
/// written.
pub proof fn law_written_parts_read_back(items: Seq<PartView>)
    requires
        is_plain(items),
    ensures
        parts(written(items)) == items,
        written(items).len() > 0,
        (written(items).last() == '/') == (items.last() is Root),
    decreases items.len(),
{
    reveal_strlit("/");
    assert("/"@ =~= seq!['/']);
    let rest = items.drop_last();
    if items.len() == 1 {
        let none = Seq::<PartView>::empty();
        let blank = Seq::<char>::empty();
        text::lemma_one_piece(blank, '/');
        text::lemma_pieces_add(blank, '/', blank);
        assert(blank + seq!['/'] + blank =~= "/"@);
        let two = seq![blank, blank];
        assert(pieces("/"@, '/') =~= two);
        assert(two.drop_last() =~= seq![blank]);
        assert(seq![blank].drop_last() =~= Seq::<Seq<char>>::empty());
        assert(steps(Seq::<Seq<char>>::empty()) == none);
        assert(steps(seq![blank]) == none);
        assert(steps(two) == none);
        assert(rest =~= none);
        assert(written(none) == blank);
        assert(written(items) =~= "/"@);
        assert(parts("/"@) =~= items);
    } else {
        assert forall|i: int| 1 <= i < rest.len() implies (
        #[trigger] rest[i] matches PartView::Name(n) && is_simple(n)) by {
            assert(rest[i] == items[i]);
        }
        assert(rest[0] == items[0]);
        law_written_parts_read_back(rest);
        let n = items[items.len() - 1]->Name_0;
        let base = written(rest);
        text::lemma_one_piece(n, '/');
        lemma_one_step(n);
        assert(rest + seq![PartView::Name(n)] =~= items);
        assert(written(items) =~= beside(base, n));
        lemma_parts_beside(base, n);
        assert(written(items).last() == n.last());
        if n.last() == '/' {
            assert(n.contains(n.last()));
        }
    }
}

/// A path that starts from a root has no `.` and no `..` left once its detours
/// are taken out and it is read again.
pub proof fn law_normal_paths_have_no_detours(s: Seq<char>, i: int)
    requires
        absolute(s),
    ensures
        parts(normal(s)) == direct(parts(s)),
        0 <= i < parts(normal(s)).len() ==> !(parts(normal(s))[i] is Up) && !(parts(
            normal(s),
        )[i] is Here),
{
    lemma_rooted_shape(s);
    law_written_parts_read_back(direct(parts(s)));
    if 0 <= i < parts(normal(s)).len() {
        law_direct_has_no_detours(parts(s), i);
    }
}

/// Taking the detours out of a path twice is taking them out once.
pub proof fn law_normal_is_idempotent(s: Seq<char>)
    requires
        absolute(s),
    ensures
        normal(normal(s)) == normal(s),
{
    law_normal_paths_have_no_detours(s, 0);
    law_direct_is_idempotent(parts(s));
}

// --- other ways of writing a path -------------------------------------------

/// A text with its backslashes turned.
pub open spec fn slashed(s: Seq<char>) -> Seq<char> {
    s.map_values(
        |c: char|
            if c == '\\' {
                '/'
            } else {
                c
            },
    )
}

/// Whether a text begins with a drive: a letter and a colon.
pub open spec fn has_drive(s: Seq<char>) -> bool {
    s.len() >= 2 && s[1] == ':' && (('a' <= s[0] && s[0] <= 'z') || ('A' <= s[0] && s[0] <= 'Z'))
}

/// A path with its drive, if it has one, as a name below the root.
pub open spec fn drive_rooted(s: Seq<char>) -> Seq<char> {
    if has_drive(s) {
        "/"@ + s
    } else {
        s
    }
}

/// A path of the host as it is written here. Where the host has drives, either
/// slash parts names, and a drive is a name below the root.
pub open spec fn host_path(drives: bool, s: Seq<char>) -> Seq<char> {
    if drives {
        drive_rooted(slashed(s))
    } else {
        s
    }
}

/// A path as the host writes it.
pub open spec fn for_host(drives: bool, s: Seq<char>) -> Seq<char> {
    if drives && is_rooted(s) && has_drive(s.skip(1)) {
        s.skip(1)
    } else {
        s
    }
}

fn drive_at(chars: &Vec<char>, at: usize) -> (r: bool)
    requires
        at <= chars@.len(),
    ensures
        r == has_drive(chars@.skip(at as int)),
{
    if chars.len() - at < 2 {
        return false;
    }
    let c: char = chars[at];
    assert(chars@.skip(at as int)[0] == c && chars@.skip(at as int)[1] == chars@[at + 1]);
    chars[at + 1] == ':' && (('a' <= c && c <= 'z') || ('A' <= c && c <= 'Z'))
}

/// Whether a text begins with a drive.
pub fn starts_with_drive(s: &str) -> (r: bool)
    ensures
        r == has_drive(s@),
{
    let chars = text::chars_of(s);
    assert(chars@.skip(0) =~= s@);
    drive_at(&chars, 0)
}

/// A path with its drive, if it has one, as a name below the root.
pub fn root_drive(s: &str) -> (r: String)
    ensures
        r@ == drive_rooted(s@),
{
    if starts_with_drive(s) {
        "/".to_owned().concat(s)
    } else {
        s.to_owned()
    }
}

/// A path of the host as it is written here.
pub fn from_host(drives: bool, s: &str) -> (r: String)
    ensures
        r@ == host_path(drives, s@),
{
    if !drives {
        return s.to_owned();
    }
    let chars = text::chars_of(s);
    let mut turned: Vec<char> = Vec::new();
    for i in 0..chars.len()
        invariant
            chars@ == s@,
            turned@ == slashed(s@).take(i as int),
    {
        if chars[i] == '\\' {
            turned.push('/');
        } else {
            turned.push(chars[i]);
        }
        assert(turned@ =~= slashed(s@).take(i + 1));
    }
    assert(slashed(s@).take(s@.len() as int) =~= slashed(s@));
    root_drive(text::string_of(&turned).as_str())
}

/// A path as the host writes it.
pub fn to_host(drives: bool, s: &str) -> (r: String)
    ensures
        r@ == for_host(drives, s@),
{
    let chars = text::chars_of(s);
    let n: usize = chars.len();
    if drives && n > 0 && chars[0] == '/' && drive_at(&chars, 1) {
        assert(chars@.skip(1) =~= chars@.subrange(1, n as int));
        text::slice_of(&chars, 1, n)
    } else {
        s.to_owned()
    }
}

/// A path of the host comes back as the host writes it, with its slashes turned
/// where the host has drives.
pub proof fn law_host_paths_come_back(drives: bool, s: Seq<char>)
    requires
        drives && is_rooted(slashed(s)) ==> !has_drive(slashed(s).skip(1)),
    ensures
        for_host(drives, host_path(drives, s)) == if drives {
            slashed(s)
        } else {
            s
        },
{
    reveal_strlit("/");
    if drives && has_drive(slashed(s)) {
        assert(("/"@ + slashed(s)).skip(1) =~= slashed(s));
    }
}

/// What was put into a directory under a name is found there under that name, and the
/// directory holds it.
pub proof fn lemma_name_below(base: Seq<char>, name: Seq<char>)
    requires
        base.len() > 0,
        is_simple(name),
    ensures
        last_name(below(base, name)) == Some(name),
        inside(below(base, name), base),
        parts(below(base, name)) == parts(base).push(PartView::Name(name)),
{
    assert(name[0] != '/') by {
        assert(name.contains(name[0]));
    }
    law_below_is_inside(base, name);
    lemma_parts_beside(base, name);
    text::lemma_one_piece(name, '/');
    lemma_one_step(name);
    assert(parts(base) + seq![PartView::Name(name)] =~= parts(base).push(PartView::Name(name)));
}

/// Parts that make no detours stay as they are.
pub proof fn lemma_plain_is_direct(items: Seq<PartView>)
    requires
        is_plain(items),
    ensures
        direct(items) == items,
{
    assert forall|i: int| 0 <= i < items.len() implies !(#[trigger] items[i] is Here) && !(
    items[i] is Up) by {
        if i > 0 {
            assert(items[i] is Name);
        }
    }
    lemma_direct_keeps(items);
}

/// Following a path part by part: a part that stays changes nothing, a name goes down,
/// and a part that leads up takes back the name before it.
pub proof fn law_a_path_is_followed_part_by_part(items: Seq<PartView>, name: Seq<char>)
    ensures
        direct(items.push(PartView::Here)) == direct(items),
        direct(items.push(PartView::Name(name))) == direct(items).push(PartView::Name(name)),
        direct(items.push(PartView::Name(name)).push(PartView::Up)) == direct(items),
{
    let n = PartView::Name(name);
    assert(items.push(PartView::Here).drop_last() =~= items);
    assert(items.push(n).drop_last() =~= items);
    assert(items.push(n).push(PartView::Up).drop_last() =~= items.push(n));
    assert(direct(items).push(n).drop_last() =~= direct(items));
}

/// Taking the last part off a path gives what it was put into; the name of a file
/// without its last extension is its stem.
pub proof fn law_names_are_put_on_and_taken_off(base: Seq<char>, name: Seq<char>, ext: Seq<char>)
    requires
        is_plain(parts(base)),
        is_simple(name),
        !ext.contains('.'),
    ensures
        container(below(base, name)) matches Some(c) && parts(c) == parts(base),
        last_name(below(base, name)) == Some(name),
        stem(name + seq!['.'] + ext) == name,
        stem(ext) == ext,
        last_name(renamed(below(base, name), name)) == Some(name),
{
    if base.len() == 0 {
        assert(parts(base)[0] is Root);
        assert(!is_rooted(base));
        text::lemma_pieces(base, '/');
        if lead(base).len() == 0 {
            lemma_steps_not_root(pieces(base, '/'));
        }
    }
    lemma_name_below(base, name);
    let p = parts(below(base, name));
    assert(p.drop_last() =~= parts(base));
    law_written_parts_read_back(parts(base));
    lemma_last_dot(name, ext);
    lemma_no_dot(ext);
    let up = written(parts(base));
    assert(parts(up) == parts(base));
    if up.len() == 0 {
        assert(parts(base)[0] is Root);
        assert(!is_rooted(up));
        lemma_steps_not_root(pieces(up, '/'));
    }
    lemma_name_below(up, name);
}

proof fn lemma_steps_not_root(items: Seq<Seq<char>>)
    ensures
        forall|i: int| 0 <= i < steps(items).len() ==> !(#[trigger] steps(items)[i] is Root),
    decreases items.len(),
{
    if items.len() > 0 {
        lemma_steps_not_root(items.drop_last());
        let had = steps(items.drop_last());
        assert forall|i: int| 0 <= i < steps(items).len() implies !(
        #[trigger] steps(items)[i] is Root) by {
            if i < had.len() {
                assert(steps(items)[i] == had[i]);
            }
        }
    }
}

proof fn lemma_last_dot(name: Seq<char>, ext: Seq<char>)
    requires
        name.len() > 0,
        !ext.contains('.'),
    ensures
        stem(name + seq!['.'] + ext) == name,
    decreases ext.len(),
{
    let s = name + seq!['.'] + ext;
    if ext.len() == 0 {
        assert(s.last() == '.');
        assert(s.take(name.len() as int) =~= name);
    } else {
        let rest = ext.drop_last();
        assert(ext.contains(ext.last()));
        assert(!rest.contains('.')) by {
            assert forall|i: int| 0 <= i < rest.len() implies rest[i] != '.' by {
                assert(ext.contains(ext[i]));
            }
        }
        lemma_last_dot(name, rest);
        assert(s.drop_last() =~= name + seq!['.'] + rest);
        lemma_dot_at(name, rest);
        assert(s.last() == ext.last());
        assert(s.take(name.len() as int) =~= name);
    }
}

proof fn lemma_dot_at(name: Seq<char>, ext: Seq<char>)
    requires
        !ext.contains('.'),
    ensures
        last_position(name + seq!['.'] + ext, '.') == name.len(),
    decreases ext.len(),
{
    let s = name + seq!['.'] + ext;
    if ext.len() > 0 {
        let rest = ext.drop_last();
        assert(ext.contains(ext.last()));
        assert forall|i: int| 0 <= i < rest.len() implies rest[i] != '.' by {
            assert(ext.contains(ext[i]));
        }
        lemma_dot_at(name, rest);
        assert(s.drop_last() =~= name + seq!['.'] + rest);
        assert(s.last() == ext.last());
    } else {
        assert(s.last() == '.');
    }
}

proof fn lemma_no_dot(s: Seq<char>)
    requires
        !s.contains('.'),
    ensures
        last_position(s, '.') == -1,
    decreases s.len(),
{
    if s.len() > 0 {
        let rest = s.drop_last();
        assert(s.contains(s.last()));
        assert forall|i: int| 0 <= i < rest.len() implies rest[i] != '.' by {
            assert(s.contains(s[i]));
        }
        lemma_no_dot(rest);
    }
}

/// The stem of a name is what stands before its last dot.
pub proof fn lemma_stem(name: Seq<char>, ext: Seq<char>)
    requires
        name.len() > 0,
        !ext.contains('.'),
    ensures
        stem(name + seq!['.'] + ext) == name,
{
    lemma_last_dot(name, ext);
}

/// A path that starts from the root is written with something.
pub proof fn lemma_plain_is_something(s: Seq<char>)
    requires
        is_plain(parts(s)),
    ensures
        s.len() > 0,
{
    if s.len() == 0 {
        assert(!is_rooted(s));
        text::lemma_pieces(s, '/');
        lemma_steps_not_root(pieces(s, '/'));
    }
}

/// A path that is absolute stands for itself wherever it is put; any other goes below
/// the base, with one slash between the two.
pub proof fn law_a_path_is_put_below_its_base(base: Seq<char>, s: Seq<char>)
    ensures
        s.len() > 0 && s[0] == '/' ==> below(base, s) == s,
        !(s.len() > 0 && s[0] == '/') && base.len() > 0 && base.last() != '/' ==> below(base, s)
            == base + seq!['/'] + s,
        !(s.len() > 0 && s[0] == '/') && base.len() > 0 && base.last() == '/' ==> below(base, s)
            == base + s,
        !(s.len() > 0 && s[0] == '/') ==> below(Seq::empty(), s) == s,
{
    reveal_strlit("/");
    assert("/"@ =~= seq!['/']);
    assert(Seq::<char>::empty() + s =~= s);
}

/// What lies in a directory that lies in another lies in that other; a path is its root
/// with what it is relative to it; and what lies outside is relative to nothing.
pub proof fn law_what_is_inside_stays_inside(a: Seq<char>, b: Seq<char>, c: Seq<char>)
    ensures
        inside(a, b) && inside(b, c) ==> inside(a, c),
        inside(a, b) ==> (relative(a, b) matches Some(rest) && parts(a) == parts(b) + rest),
        !inside(a, b) ==> relative(a, b) is None,
{
    if inside(a, b) {
        let n = parts(b).len() as int;
        assert(parts(a) =~= parts(a).take(n) + parts(a).skip(n));
        if inside(b, c) {
            let m = parts(c).len() as int;
            assert(parts(a).take(m) =~= parts(a).take(n).take(m));
        }
    }
}

} // verus!
