//! Text as a sequence of characters: searching, splitting, trimming, joining
//! and the number formats the rest of the library writes and reads.
use vstd::prelude::*;

verus! {

/// `String::push` appends one character and changes nothing before it.
pub assume_specification[ String::push ](s: &mut String, c: char)
    ensures
        final(s)@ == old(s)@.push(c),
;

/// The texts a list of strings holds.
pub open spec fn texts(items: Seq<String>) -> Seq<Seq<char>> {
    items.map_values(|s: String| s@)
}

/// The text an optional string holds.
pub open spec fn text_of(value: Option<String>) -> Option<Seq<char>> {
    match value {
        Some(s) => Some(s@),
        None => None,
    }
}

/// A result as text.
pub open spec fn outcome_of(r: Result<String, String>) -> Result<Seq<char>, Seq<char>> {
    match r {
        Ok(s) => Ok(s@),
        Err(e) => Err(e@),
    }
}

/// The text an optional borrowed string holds.
pub open spec fn str_of(value: Option<&str>) -> Option<Seq<char>> {
    match value {
        Some(s) => Some(s@),
        None => None,
    }
}

// --- characters and strings -------------------------------------------------

/// The characters of a string, in order.
pub fn chars_of(s: &str) -> (r: Vec<char>)
    ensures
        r@ == s@,
{
    let mut out: Vec<char> = Vec::new();
    for c in it: s.chars()
        invariant
            out@ == it.seq().take(it.index()),
            it.seq() == s@,
    {
        out.push(c);
    }
    assert(s@.take(s@.len() as int) =~= s@);
    out
}

/// The string made of the characters from `from` up to, not including, `to`.
pub fn slice_of(chars: &Vec<char>, from: usize, to: usize) -> (r: String)
    requires
        from <= to <= chars@.len(),
    ensures
        r@ == chars@.subrange(from as int, to as int),
{
    let mut out = String::new();
    let mut i: usize = from;
    while i < to
        invariant
            from <= i <= to <= chars@.len(),
            out@ == chars@.subrange(from as int, i as int),
        decreases to - i,
    {
        out.push(chars[i]);
        assert(chars@.subrange(from as int, i as int).push(chars@[i as int]) =~= chars@.subrange(
            from as int,
            i + 1,
        ));
        i = i + 1;
    }
    out
}

/// The string made of all the characters.
pub fn string_of(chars: &Vec<char>) -> (r: String)
    ensures
        r@ == chars@,
{
    let r = slice_of(chars, 0, chars.len());
    assert(chars@.subrange(0, chars@.len() as int) =~= chars@);
    r
}

/// Whether a string holds no text.
pub fn is_empty(s: &str) -> (r: bool)
    ensures
        r == (s@.len() == 0),
        r == (s@ == Seq::<char>::empty()),
{
    assert((s@.len() == 0) == (s@ =~= Seq::<char>::empty()));
    s.unicode_len() == 0
}

/// Whether two strings hold the same text.
pub fn same(a: &str, b: &str) -> (r: bool)
    ensures
        r == (a@ == b@),
{
    a.to_owned() == b.to_owned()
}

/// A copy of a list of strings.
pub fn copies(items: &Vec<String>) -> (r: Vec<String>)
    ensures
        texts(r@) == texts(items@),
{
    let mut out: Vec<String> = Vec::new();
    for i in 0..items.len()
        invariant
            texts(out@) == texts(items@).take(i as int),
    {
        let ghost before = out@;
        let item = items[i].clone();
        out.push(item);
        proof {
            lemma_texts_push(before, item);
        }
        assert(texts(out@) =~= texts(items@).take(i + 1));
    }
    assert(texts(items@).take(items@.len() as int) =~= texts(items@));
    out
}

/// Whether a list of strings has the given text among its members.
pub fn listed(items: &Vec<String>, text: &str) -> (r: bool)
    ensures
        r == texts(items@).contains(text@),
{
    for i in 0..items.len()
        invariant
            forall|j: int| 0 <= j < i ==> texts(items@)[j] != text@,
    {
        if same(items[i].as_str(), text) {
            assert(texts(items@)[i as int] == text@);
            return true;
        }
    }
    false
}

/// Pushing a string pushes its text.
pub proof fn lemma_texts_push(items: Seq<String>, s: String)
    ensures
        texts(items.push(s)) == texts(items).push(s@),
{
    assert(texts(items.push(s)) =~= texts(items).push(s@));
}

// --- bytes ------------------------------------------------------------------

/// How many bytes the text takes in UTF-8.
pub open spec fn byte_len(s: Seq<char>) -> nat {
    vstd::utf8::encode_utf8(s).len()
}

/// How many bytes the string takes in UTF-8.
pub fn bytes_in(s: &str) -> (r: usize)
    ensures
        r == byte_len(s@),
{
    let bytes = s.as_bytes();
    bytes.len()
}

/// How many bytes a character takes in UTF-8.
pub open spec fn char_bytes(c: char) -> nat {
    let n = c as u32;
    if n < 0x80 {
        1
    } else if n < 0x800 {
        2
    } else if n < 0x10000 {
        3
    } else {
        4
    }
}

fn bytes_of(c: char) -> (r: usize)
    ensures
        r == char_bytes(c),
{
    let n: u32 = c as u32;
    if n < 0x80 {
        1
    } else if n < 0x800 {
        2
    } else if n < 0x10000 {
        3
    } else {
        4
    }
}

/// The bytes of two texts in a row are the bytes of both.
pub proof fn lemma_byte_len_add(a: Seq<char>, b: Seq<char>)
    ensures
        byte_len(a + b) == byte_len(a) + byte_len(b),
    decreases a.len(),
{
    if a.len() == 0 {
        assert(a + b =~= b);
    } else {
        assert((a + b).drop_first() =~= a.drop_first() + b);
        lemma_byte_len_add(a.drop_first(), b);
    }
}

/// The bytes of a text are those of its parts.
pub proof fn lemma_byte_len_ends(s: Seq<char>)
    requires
        s.len() > 0,
    ensures
        byte_len(s) == byte_len(s.drop_last()) + char_bytes(s.last()),
        byte_len(s) == char_bytes(s[0]) + byte_len(s.drop_first()),
{
    lemma_byte_len_one(s.last());
    lemma_byte_len_one(s[0]);
    lemma_byte_len_add(s.drop_last(), seq![s.last()]);
    lemma_byte_len_add(seq![s[0]], s.drop_first());
    assert(s.drop_last() + seq![s.last()] =~= s);
    assert(seq![s[0]] + s.drop_first() =~= s);
}

proof fn lemma_byte_len_one(c: char)
    ensures
        byte_len(seq![c]) == char_bytes(c),
{
    assert(seq![c].drop_first() =~= Seq::<char>::empty());
    reveal_with_fuel(vstd::utf8::encode_utf8, 2);
    assert(vstd::utf8::encode_utf8(seq![c]) =~= vstd::utf8::encode_scalar(c as u32));
}

/// The longest beginning of a text that takes no more than a number of bytes.
pub open spec fn head_within(s: Seq<char>, max: nat) -> Seq<char>
    decreases s.len(),
{
    if s.len() == 0 || byte_len(s) <= max {
        s
    } else {
        head_within(s.drop_last(), max)
    }
}

/// The longest end of a text that takes no more than a number of bytes.
pub open spec fn tail_within(s: Seq<char>, max: nat) -> Seq<char>
    decreases s.len(),
{
    if s.len() == 0 || byte_len(s) <= max {
        s
    } else {
        tail_within(s.drop_first(), max)
    }
}

/// The longest beginning of a string that takes no more than a number of bytes.
pub fn head(s: &str, max: usize) -> (r: String)
    ensures
        r@ == head_within(s@, max as nat),
{
    let chars = chars_of(s);
    let mut left: usize = bytes_in(s);
    let mut i: usize = chars.len();
    assert(chars@.take(i as int) =~= s@);
    while left > max
        invariant
            i <= chars@.len(),
            left == byte_len(chars@.take(i as int)),
            head_within(chars@.take(i as int), max as nat) == head_within(s@, max as nat),
        decreases i,
    {
        proof {
            if i == 0 {
                assert(chars@.take(0) =~= Seq::<char>::empty());
            }
            lemma_byte_len_ends(chars@.take(i as int));
            assert(chars@.take(i as int).drop_last() =~= chars@.take(i - 1));
        }
        i = i - 1;
        left = left - bytes_of(chars[i]);
    }
    proof {
        assert(chars@.take(i as int) =~= chars@.subrange(0, i as int));
    }
    slice_of(&chars, 0, i)
}

/// The longest end of a string that takes no more than a number of bytes.
pub fn tail(s: &str, max: usize) -> (r: String)
    ensures
        r@ == tail_within(s@, max as nat),
{
    let chars = chars_of(s);
    let n: usize = chars.len();
    let mut left: usize = bytes_in(s);
    let mut i: usize = 0;
    assert(chars@.skip(0) =~= s@);
    while left > max
        invariant
            i <= n == chars@.len(),
            left == byte_len(chars@.skip(i as int)),
            tail_within(chars@.skip(i as int), max as nat) == tail_within(s@, max as nat),
        decreases n - i,
    {
        proof {
            if i == n {
                assert(chars@.skip(n as int) =~= Seq::<char>::empty());
            }
            lemma_byte_len_ends(chars@.skip(i as int));
            assert(chars@.skip(i as int).drop_first() =~= chars@.skip(i + 1));
        }
        left = left - bytes_of(chars[i]);
        i = i + 1;
    }
    proof {
        assert(chars@.skip(i as int) =~= chars@.subrange(i as int, n as int));
    }
    slice_of(&chars, i, n)
}

/// The longest end of a text really is one, and fits.
pub proof fn lemma_tail_within(s: Seq<char>, max: nat)
    ensures
        ends(s, tail_within(s, max)),
        byte_len(tail_within(s, max)) <= max,
    decreases s.len(),
{
    if s.len() == 0 {
        assert(s.skip(0) =~= s);
    } else if byte_len(s) <= max {
        assert(s.skip(0) =~= s);
    } else {
        let rest = s.drop_first();
        lemma_tail_within(rest, max);
        let t = tail_within(rest, max);
        assert(rest.skip(rest.len() - t.len()) =~= s.skip(s.len() - t.len()));
    }
}

/// The longest beginning of a text really is one, and fits.
pub proof fn lemma_head_within(s: Seq<char>, max: nat)
    ensures
        begins(s, head_within(s, max)),
        byte_len(head_within(s, max)) <= max,
    decreases s.len(),
{
    if s.len() == 0 || byte_len(s) <= max {
        assert(s.take(s.len() as int) =~= s);
    } else {
        let rest = s.drop_last();
        lemma_head_within(rest, max);
        let h = head_within(rest, max);
        assert(rest.take(h.len() as int) =~= s.take(h.len() as int));
    }
}

// --- white space ------------------------------------------------------------

/// The characters Unicode calls white space.
pub open spec fn is_white(c: char) -> bool {
    let n = c as u32;
    ||| 9 <= n <= 13
    ||| n == 0x20
    ||| n == 0x85
    ||| n == 0xa0
    ||| n == 0x1680
    ||| 0x2000 <= n <= 0x200a
    ||| n == 0x2028
    ||| n == 0x2029
    ||| n == 0x202f
    ||| n == 0x205f
    ||| n == 0x3000
}

/// Whether a character is white space.
pub fn white(c: char) -> (r: bool)
    ensures
        r == is_white(c),
{
    let n: u32 = c as u32;
    (9 <= n && n <= 13) || n == 0x20 || n == 0x85 || n == 0xa0 || n == 0x1680 || (0x2000 <= n && n
        <= 0x200a) || n == 0x2028 || n == 0x2029 || n == 0x202f || n == 0x205f || n == 0x3000
}

/// The text without its leading white space.
pub open spec fn trim_front(s: Seq<char>) -> Seq<char>
    decreases s.len(),
{
    if s.len() > 0 && is_white(s[0]) {
        trim_front(s.skip(1))
    } else {
        s
    }
}

/// The text without its trailing white space.
pub open spec fn trim_back(s: Seq<char>) -> Seq<char>
    decreases s.len(),
{
    if s.len() > 0 && is_white(s.last()) {
        trim_back(s.drop_last())
    } else {
        s
    }
}

/// The text without white space at either end.
pub open spec fn trimmed(s: Seq<char>) -> Seq<char> {
    trim_back(trim_front(s))
}

/// A text has nothing but white space exactly when trimming leaves nothing.
pub proof fn lemma_blank(s: Seq<char>)
    ensures
        (trimmed(s).len() == 0) == (forall|i: int| 0 <= i < s.len() ==> is_white(s[i])),
{
    lemma_trim_front(s);
    lemma_trim_back(trim_front(s));
    let f = trim_front(s);
    if trimmed(s).len() == 0 {
        if f.len() > 0 {
            assert(is_white(f[0]));
        }
        assert forall|i: int| 0 <= i < s.len() implies is_white(s[i]) by {}
    } else {
        assert(f[0] == s[s.len() - f.len()]);
    }
}

proof fn lemma_trim_front(s: Seq<char>)
    ensures
        trim_front(s).len() <= s.len(),
        trim_front(s) == s.skip(s.len() - trim_front(s).len()),
        forall|i: int| 0 <= i < s.len() - trim_front(s).len() ==> is_white(s[i]),
        trim_front(s).len() > 0 ==> !is_white(trim_front(s)[0]),
    decreases s.len(),
{
    if s.len() > 0 && is_white(s[0]) {
        let t = s.skip(1);
        lemma_trim_front(t);
        assert(trim_front(s) =~= s.skip(s.len() - trim_front(s).len()));
        assert forall|i: int| 0 <= i < s.len() - trim_front(s).len() implies is_white(s[i]) by {
            if i > 0 {
                assert(s[i] == t[i - 1]);
            }
        }
    } else {
        assert(s.skip(0) =~= s);
    }
}

/// Trimming the back keeps the front.
pub proof fn lemma_trim_back(s: Seq<char>)
    ensures
        trim_back(s).len() <= s.len(),
        trim_back(s) == s.take(trim_back(s).len() as int),
        forall|i: int| trim_back(s).len() <= i < s.len() ==> is_white(s[i]),
        trim_back(s).len() > 0 ==> !is_white(trim_back(s).last()),
    decreases s.len(),
{
    if s.len() > 0 && is_white(s.last()) {
        lemma_trim_back(s.drop_last());
        assert(trim_back(s) =~= s.take(trim_back(s).len() as int));
        assert forall|i: int| trim_back(s).len() <= i < s.len() implies is_white(s[i]) by {
            if i < s.len() - 1 {
                assert(s[i] == s.drop_last()[i]);
            }
        }
    } else {
        assert(s.take(s.len() as int) =~= s);
    }
}

/// A trimmed text starts and ends with something that is not white space.
pub proof fn lemma_ends_dark(s: Seq<char>)
    ensures
        trimmed(s).len() > 0 ==> !is_white(trimmed(s)[0]) && !is_white(trimmed(s).last()),
{
    lemma_trim_front(s);
    lemma_trim_back(trim_front(s));
    if trimmed(s).len() > 0 {
        assert(trimmed(s)[0] == trim_front(s)[0]);
    }
}

/// A text that was trimmed has nothing left to trim.
pub proof fn lemma_trimmed_twice(s: Seq<char>)
    ensures
        trimmed(trimmed(s)) == trimmed(s),
{
    lemma_ends_dark(s);
}

/// Everything in a trimmed text was in the text.
pub proof fn lemma_trimmed_within(s: Seq<char>, c: char)
    requires
        trimmed(s).contains(c),
    ensures
        s.contains(c),
{
    lemma_trim_front(s);
    lemma_trim_back(trim_front(s));
    let i = choose|i: int| 0 <= i < trimmed(s).len() && trimmed(s)[i] == c;
    assert(trim_front(s)[i] == c);
    assert(s[s.len() - trim_front(s).len() + i] == c);
}

/// The string without leading white space.
pub fn trim_start(s: &str) -> (r: String)
    ensures
        r@ == trim_front(s@),
{
    let chars = chars_of(s);
    let mut i: usize = 0;
    assert(chars@.skip(0) =~= chars@);
    while i < chars.len() && white(chars[i])
        invariant
            i <= chars@.len(),
            trim_front(chars@.skip(i as int)) == trim_front(chars@),
        decreases chars@.len() - i,
    {
        assert(chars@.skip(i as int).skip(1) =~= chars@.skip(i + 1));
        i = i + 1;
    }
    assert(chars@.subrange(i as int, chars@.len() as int) =~= chars@.skip(i as int));
    slice_of(&chars, i, chars.len())
}

/// The string without trailing white space.
pub fn trim_end(s: &str) -> (r: String)
    ensures
        r@ == trim_back(s@),
{
    let chars = chars_of(s);
    let mut i: usize = chars.len();
    assert(chars@.take(i as int) =~= chars@);
    while i > 0 && white(chars[i - 1])
        invariant
            i <= chars@.len(),
            trim_back(chars@.take(i as int)) == trim_back(chars@),
        decreases i,
    {
        assert(chars@.take(i as int).drop_last() =~= chars@.take(i - 1));
        i = i - 1;
    }
    assert(chars@.subrange(0, i as int) =~= chars@.take(i as int));
    slice_of(&chars, 0, i)
}

/// The string without white space at either end.
pub fn trim(s: &str) -> (r: String)
    ensures
        r@ == trimmed(s@),
{
    trim_end(trim_start(s).as_str())
}

/// Whether a string has nothing but white space.
pub fn is_blank(s: &str) -> (r: bool)
    ensures
        r == (trimmed(s@).len() == 0),
{
    let t = trim(s);
    is_empty(t.as_str())
}

// --- searching --------------------------------------------------------------

/// Where the first `c` stands, or the length of the text if there is none.
pub open spec fn position(s: Seq<char>, c: char) -> int
    decreases s.len(),
{
    if s.len() == 0 || s[0] == c {
        0
    } else {
        1 + position(s.skip(1), c)
    }
}

/// `position` is the one index with `c` at it and no `c` before it.
pub proof fn lemma_position(s: Seq<char>, c: char)
    ensures
        0 <= position(s, c) <= s.len(),
        forall|j: int| 0 <= j < position(s, c) ==> s[j] != c,
        position(s, c) < s.len() ==> s[position(s, c)] == c,
    decreases s.len(),
{
    if s.len() == 0 || s[0] == c {
    } else {
        let t = s.skip(1);
        lemma_position(t, c);
        assert forall|j: int| 0 <= j < position(s, c) implies s[j] != c by {
            if j > 0 {
                assert(s[j] == t[j - 1]);
            }
        }
        if position(s, c) < s.len() {
            assert(s[position(s, c)] == t[position(t, c)]);
        }
    }
}

/// An index with `c` at it, or the end, and no `c` before it is `position`.
pub proof fn lemma_position_is(s: Seq<char>, c: char, i: int)
    requires
        0 <= i <= s.len(),
        i < s.len() ==> s[i] == c,
        forall|j: int| 0 <= j < i ==> s[j] != c,
    ensures
        position(s, c) == i,
{
    lemma_position(s, c);
    let p = position(s, c);
    if p < i {
        assert(s[p] != c);
    }
    if i < p {
        assert(s[i] != c);
    }
}

/// The first index at or after `from` where `c` stands, or the end.
pub fn find_char(chars: &Vec<char>, c: char, from: usize) -> (r: usize)
    requires
        from <= chars@.len(),
    ensures
        from <= r <= chars@.len(),
        r - from == position(chars@.skip(from as int), c),
{
    let mut i: usize = from;
    while i < chars.len() && chars[i] != c
        invariant
            from <= i <= chars@.len(),
            forall|j: int| from <= j < i ==> chars@[j] != c,
        decreases chars@.len() - i,
    {
        i = i + 1;
    }
    proof {
        let t = chars@.skip(from as int);
        assert forall|j: int| 0 <= j < i - from implies t[j] != c by {
            assert(t[j] == chars@[from + j]);
        }
        lemma_position_is(t, c, i - from);
    }
    i
}

/// The text on either side of the first `c`, if there is one.
pub open spec fn cut(s: Seq<char>, c: char) -> Option<(Seq<char>, Seq<char>)> {
    let i = position(s, c);
    if i < s.len() {
        Some((s.take(i), s.skip(i + 1)))
    } else {
        None
    }
}

/// The strings on either side of the first `c`, if there is one.
pub fn split_once(s: &str, c: char) -> (r: Option<(String, String)>)
    ensures
        match r {
            Some((a, b)) => cut(s@, c) == Some((a@, b@)),
            None => cut(s@, c) is None,
        },
{
    let chars = chars_of(s);
    let i: usize = find_char(&chars, c, 0);
    assert(chars@.skip(0) =~= chars@);
    if i < chars.len() {
        let a = slice_of(&chars, 0, i);
        let b = slice_of(&chars, i + 1, chars.len());
        assert(a@ =~= s@.take(i as int));
        assert(b@ =~= s@.skip(i + 1));
        Some((a, b))
    } else {
        None
    }
}

/// Cutting at the first `c` of a text that has one before any in `b`.
pub proof fn lemma_cut(a: Seq<char>, c: char, b: Seq<char>)
    requires
        !a.contains(c),
    ensures
        cut(a + seq![c] + b, c) == Some((a, b)),
{
    let s = a + seq![c] + b;
    assert forall|j: int| 0 <= j < a.len() implies s[j] != c by {
        assert(a.contains(a[j]));
    }
    lemma_position_is(s, c, a.len() as int);
    assert(s.take(a.len() as int) =~= a);
    assert(s.skip(a.len() as int + 1) =~= b);
}

/// The pieces of the text between one `c` and the next.
pub open spec fn pieces(s: Seq<char>, c: char) -> Seq<Seq<char>>
    decreases s.len(),
{
    let i = position(s, c);
    if 0 <= i < s.len() {
        seq![s.take(i)] + pieces(s.skip(i + 1), c)
    } else {
        seq![s]
    }
}

/// There is always at least one piece.
pub proof fn lemma_pieces(s: Seq<char>, c: char)
    ensures
        pieces(s, c).len() >= 1,
    decreases s.len(),
{
    lemma_position(s, c);
    if position(s, c) < s.len() {
        lemma_pieces(s.skip(position(s, c) + 1), c);
    }
}

/// No piece holds what the pieces were cut at.
pub proof fn lemma_pieces_clean(s: Seq<char>, c: char, i: int)
    requires
        0 <= i < pieces(s, c).len(),
    ensures
        !pieces(s, c)[i].contains(c),
    decreases s.len(),
{
    lemma_position(s, c);
    let p = position(s, c);
    if p < s.len() {
        if i == 0 {
            assert(pieces(s, c)[0] == s.take(p));
            assert forall|j: int| 0 <= j < p implies s.take(p)[j] != c by {
                assert(s[j] != c);
            }
        } else {
            lemma_pieces_clean(s.skip(p + 1), c, i - 1);
            assert(pieces(s, c)[i] == pieces(s.skip(p + 1), c)[i - 1]);
        }
    }
}

/// The pieces of two texts with a cut between them are the pieces of both.
pub proof fn lemma_pieces_add(a: Seq<char>, c: char, b: Seq<char>)
    ensures
        pieces(a + seq![c] + b, c) == pieces(a, c) + pieces(b, c),
    decreases a.len(),
{
    lemma_position(a, c);
    let p = position(a, c);
    let s = a + seq![c] + b;
    if p < a.len() {
        assert forall|j: int| 0 <= j < p implies s[j] != c by {
            assert(s[j] == a[j]);
        }
        assert(s[p] == a[p]);
        lemma_position_is(s, c, p);
        assert(s.take(p) =~= a.take(p));
        assert(s.skip(p + 1) =~= a.skip(p + 1) + seq![c] + b);
        lemma_pieces_add(a.skip(p + 1), c, b);
        assert(pieces(a, c) == seq![a.take(p)] + pieces(a.skip(p + 1), c));
        assert(pieces(s, c) == seq![s.take(p)] + pieces(s.skip(p + 1), c));
        assert(pieces(s, c) =~= pieces(a, c) + pieces(b, c));
    } else {
        assert forall|j: int| 0 <= j < a.len() implies s[j] != c by {
            assert(s[j] == a[j]);
        }
        assert(s[a.len() as int] == c);
        lemma_position_is(s, c, a.len() as int);
        assert(s.take(a.len() as int) =~= a);
        assert(s.skip(a.len() as int + 1) =~= b);
        assert(pieces(a, c) == seq![a]);
        assert(pieces(s, c) == seq![s.take(a.len() as int)] + pieces(
            s.skip(a.len() as int + 1),
            c,
        ));
    }
}

/// A text without a cut is one piece.
pub proof fn lemma_one_piece(s: Seq<char>, c: char)
    requires
        !s.contains(c),
    ensures
        pieces(s, c) == seq![s],
{
    lemma_position(s, c);
    if position(s, c) < s.len() {
        assert(s.contains(s[position(s, c)]));
    }
}

/// Texts joined by a character that none of them holds come apart again.
pub proof fn lemma_pieces_joined(items: Seq<Seq<char>>, c: char)
    requires
        items.len() >= 1,
        forall|i: int| 0 <= i < items.len() ==> !(#[trigger] items[i]).contains(c),
    ensures
        pieces(joined(items, seq![c]), c) == items,
    decreases items.len(),
{
    if items.len() == 1 {
        lemma_one_piece(items[0], c);
        assert(seq![items[0]] =~= items);
    } else {
        let rest = items.drop_last();
        assert forall|i: int| 0 <= i < rest.len() implies !(#[trigger] rest[i]).contains(c) by {
            assert(rest[i] == items[i]);
        }
        lemma_pieces_joined(rest, c);
        assert(!items[items.len() - 1].contains(c));
        lemma_one_piece(items.last(), c);
        lemma_pieces_add(joined(rest, seq![c]), c, items.last());
        assert(rest + seq![items.last()] =~= items);
    }
}

/// The strings between one `c` and the next.
pub fn split(s: &str, c: char) -> (r: Vec<String>)
    ensures
        texts(r@) == pieces(s@, c),
{
    let chars = chars_of(s);
    let mut out: Vec<String> = Vec::new();
    let mut from: usize = 0;
    assert(chars@.skip(0) =~= chars@);
    loop
        invariant
            from <= chars@.len(),
            chars@ == s@,
            texts(out@) + pieces(chars@.skip(from as int), c) == pieces(s@, c),
        decreases chars@.len() - from,
    {
        let ghost rest = chars@.skip(from as int);
        let i: usize = find_char(&chars, c, from);
        let ghost before = out@;
        let piece = slice_of(&chars, from, i);
        assert(piece@ =~= rest.take(i - from));
        out.push(piece);
        proof {
            lemma_texts_push(before, piece);
        }
        if i >= chars.len() {
            assert(rest.take(i - from) =~= rest);
            assert(texts(out@) =~= texts(before) + seq![rest]);
            return out;
        }
        assert(rest.skip(i - from + 1) =~= chars@.skip(i + 1));
        assert(texts(out@) + pieces(chars@.skip(i + 1), c) =~= texts(before) + (seq![
            rest.take(i - from),
        ] + pieces(chars@.skip(i + 1), c)));
        from = i + 1;
    }
}

/// A line with the carriage return before its line feed taken off.
pub open spec fn without_return(s: Seq<char>) -> Seq<char> {
    if s.len() > 0 && s.last() == '\r' {
        s.drop_last()
    } else {
        s
    }
}

/// The lines of a text. A line ends at a line feed, which a carriage return
/// may precede; what follows the last line feed is a line unless it is empty.
pub open spec fn line_texts(s: Seq<char>) -> Seq<Seq<char>> {
    let parts = pieces(s, '\n');
    let ended = parts.drop_last().map_values(|p: Seq<char>| without_return(p));
    if parts.last().len() == 0 {
        ended
    } else {
        ended.push(parts.last())
    }
}

/// The lines of a string.
pub fn lines(s: &str) -> (r: Vec<String>)
    ensures
        texts(r@) == line_texts(s@),
{
    let parts = split(s, '\n');
    proof {
        lemma_pieces(s@, '\n');
    }
    let ghost ended = texts(parts@).drop_last().map_values(|p: Seq<char>| without_return(p));
    let mut out: Vec<String> = Vec::new();
    assert(parts@.len() == texts(parts@).len());
    let n: usize = parts.len() - 1;
    for i in 0..n
        invariant
            n == parts@.len() - 1,
            ended == texts(parts@).drop_last().map_values(|p: Seq<char>| without_return(p)),
            texts(out@) == ended.take(i as int),
    {
        let chars = chars_of(parts[i].as_str());
        let len: usize = chars.len();
        let line = if len > 0 && chars[len - 1] == '\r' {
            slice_of(&chars, 0, len - 1)
        } else {
            string_of(&chars)
        };
        assert(line@ =~= without_return(parts@[i as int]@));
        assert(texts(parts@)[i as int] == parts@[i as int]@);
        let ghost before = out@;
        out.push(line);
        proof {
            lemma_texts_push(before, line);
        }
        assert(texts(out@) =~= ended.take(i + 1));
    }
    assert(texts(out@) =~= ended);
    if !is_empty(parts[n].as_str()) {
        let ghost before = out@;
        out.push(parts[n].clone());
        proof {
            lemma_texts_push(before, parts@[n as int]);
        }
    }
    out
}

/// The texts one after another with `sep` between them.
pub open spec fn joined(parts: Seq<Seq<char>>, sep: Seq<char>) -> Seq<char>
    decreases parts.len(),
{
    if parts.len() == 0 {
        Seq::empty()
    } else if parts.len() == 1 {
        parts[0]
    } else {
        joined(parts.drop_last(), sep) + sep + parts.last()
    }
}

/// The strings one after another with `sep` between them.
pub fn join(parts: &Vec<String>, sep: &str) -> (r: String)
    ensures
        r@ == joined(texts(parts@), sep@),
{
    let mut out = String::new();
    let ghost all = texts(parts@);
    for i in 0..parts.len()
        invariant
            all == texts(parts@),
            out@ == joined(all.take(i as int), sep@),
    {
        if i > 0 {
            out.append(sep);
        }
        out.append(parts[i].as_str());
        proof {
            let next = all.take(i + 1);
            assert(next.drop_last() =~= all.take(i as int));
            assert(next.last() == parts@[i as int]@);
            if i == 0 {
                assert(out@ =~= next[0]);
            }
        }
    }
    assert(all.take(parts@.len() as int) =~= all);
    out
}

/// Whether `part` stands in the text at `i`.
pub open spec fn occurs_at(s: Seq<char>, part: Seq<char>, i: int) -> bool {
    0 <= i && i + part.len() <= s.len() && s.subrange(i, i + part.len()) == part
}

/// Whether `part` occurs somewhere in the text.
pub open spec fn occurs(s: Seq<char>, part: Seq<char>) -> bool {
    exists|i: int| occurs_at(s, part, i)
}

/// Whether the text begins with `part`.
pub open spec fn begins(s: Seq<char>, part: Seq<char>) -> bool {
    occurs_at(s, part, 0)
}

/// Whether the text ends with `part`.
pub open spec fn ends(s: Seq<char>, part: Seq<char>) -> bool {
    occurs_at(s, part, s.len() - part.len())
}

/// Whether `part` stands in `chars` at `i`.
pub fn stands_at(chars: &Vec<char>, part: &Vec<char>, i: usize) -> (r: bool)
    requires
        i <= chars@.len(),
    ensures
        r == occurs_at(chars@, part@, i as int),
{
    if part.len() > chars.len() - i {
        return false;
    }
    for j in 0..part.len()
        invariant
            i + part@.len() <= chars@.len() <= usize::MAX,
            forall|k: int| 0 <= k < j ==> chars@[i + k] == part@[k],
    {
        if chars[i + j] != part[j] {
            assert(chars@.subrange(i as int, i + part@.len())[j as int] != part@[j as int]);
            return false;
        }
    }
    assert(chars@.subrange(i as int, i + part@.len()) =~= part@);
    true
}

/// Whether the string begins with `part`.
pub fn starts_with(s: &str, part: &str) -> (r: bool)
    ensures
        r == begins(s@, part@),
{
    stands_at(&chars_of(s), &chars_of(part), 0)
}

/// Whether the string ends with `part`.
pub fn ends_with(s: &str, part: &str) -> (r: bool)
    ensures
        r == ends(s@, part@),
{
    let chars = chars_of(s);
    let tail = chars_of(part);
    if tail.len() > chars.len() {
        return false;
    }
    stands_at(&chars, &tail, chars.len() - tail.len())
}

/// What follows `part`, if the text begins with it.
pub open spec fn after_prefix(s: Seq<char>, part: Seq<char>) -> Option<Seq<char>> {
    if begins(s, part) {
        Some(s.skip(part.len() as int))
    } else {
        None
    }
}

/// What follows `part`, if the string begins with it.
pub fn strip_prefix(s: &str, part: &str) -> (r: Option<String>)
    ensures
        text_of(r) == after_prefix(s@, part@),
{
    let chars = chars_of(s);
    let head = chars_of(part);
    if stands_at(&chars, &head, 0) {
        let rest = slice_of(&chars, head.len(), chars.len());
        assert(rest@ =~= s@.skip(part@.len() as int));
        Some(rest)
    } else {
        None
    }
}

/// Where `part` first occurs in the text, if it does.
pub open spec fn find_text(s: Seq<char>, part: Seq<char>) -> Option<int> {
    if occurs(s, part) {
        Some(
            choose|i: int|
                occurs_at(s, part, i) && forall|j: int| 0 <= j < i ==> !occurs_at(s, part, j),
        )
    } else {
        None
    }
}

/// The first occurrence is the one that no other precedes.
pub proof fn lemma_find_text(s: Seq<char>, part: Seq<char>, i: int)
    requires
        occurs_at(s, part, i),
        forall|j: int| 0 <= j < i ==> !occurs_at(s, part, j),
    ensures
        find_text(s, part) == Some(i),
{
    let k = choose|k: int|
        occurs_at(s, part, k) && forall|j: int| 0 <= j < k ==> !occurs_at(s, part, j);
    assert(occurs_at(s, part, k) && forall|j: int| 0 <= j < k ==> !occurs_at(s, part, j));
}

/// The first index at or after `from` where `part` stands.
pub fn find_from(chars: &Vec<char>, part: &Vec<char>, from: usize) -> (r: Option<usize>)
    requires
        from <= chars@.len(),
    ensures
        match r {
            Some(i) => from <= i <= chars@.len() && occurs_at(chars@, part@, i as int)
                && forall|j: int| from <= j < i ==> !occurs_at(chars@, part@, j),
            None => forall|j: int| from <= j ==> !occurs_at(chars@, part@, j),
        },
{
    let mut i: usize = from;
    loop
        invariant
            from <= i <= chars@.len(),
            forall|j: int| from <= j < i ==> !occurs_at(chars@, part@, j),
        decreases chars@.len() - i,
    {
        if stands_at(chars, part, i) {
            return Some(i);
        }
        if i == chars.len() {
            return None;
        }
        i = i + 1;
    }
}

/// Whether `part` occurs in the string.
pub fn contains(s: &str, part: &str) -> (r: bool)
    ensures
        r == occurs(s@, part@),
{
    find_from(&chars_of(s), &chars_of(part), 0).is_some()
}

/// Where a text last occurs in another at or before a position, if it does.
pub open spec fn last_before(s: Seq<char>, part: Seq<char>, i: int) -> Option<int>
    decreases i + 1,
{
    if i < 0 {
        None
    } else if occurs_at(s, part, i) {
        Some(i)
    } else {
        last_before(s, part, i - 1)
    }
}

/// Where a text last occurs in another, if it does.
pub open spec fn find_last(s: Seq<char>, part: Seq<char>) -> Option<int> {
    last_before(s, part, s.len() as int)
}

proof fn lemma_last_before(s: Seq<char>, part: Seq<char>, i: int)
    ensures
        match last_before(s, part, i) {
            Some(k) => k <= i && occurs_at(s, part, k) && forall|j: int|
                k < j <= i ==> !occurs_at(s, part, j),
            None => forall|j: int| j <= i ==> !occurs_at(s, part, j),
        },
    decreases i + 1,
{
    if i >= 0 && !occurs_at(s, part, i) {
        lemma_last_before(s, part, i - 1);
    }
}

/// The last occurrence is one that no other follows.
pub proof fn lemma_find_last(s: Seq<char>, part: Seq<char>)
    ensures
        match find_last(s, part) {
            Some(k) => occurs_at(s, part, k) && forall|j: int| k < j ==> !occurs_at(s, part, j),
            None => !occurs(s, part),
        },
{
    lemma_last_before(s, part, s.len() as int);
}

/// Joining texts by a character makes nothing occur that does not hold it.
pub proof fn lemma_joined_without(parts: Seq<Seq<char>>, c: char, part: Seq<char>)
    requires
        part.len() > 0,
        !part.contains(c),
        forall|i: int| 0 <= i < parts.len() ==> !occurs(#[trigger] parts[i], part),
    ensures
        !occurs(joined(parts, seq![c]), part),
    decreases parts.len(),
{
    let all = joined(parts, seq![c]);
    if parts.len() > 1 {
        let rest = parts.drop_last();
        assert forall|i: int| 0 <= i < rest.len() implies !occurs(#[trigger] rest[i], part) by {
            assert(rest[i] == parts[i]);
        }
        lemma_joined_without(rest, c, part);
        let head = joined(rest, seq![c]);
        let last = parts.last();
        assert(!occurs(parts[parts.len() - 1], part));
        assert forall|i: int| !occurs_at(all, part, i) by {
            if occurs_at(all, part, i) {
                let n = head.len() as int;
                if i + part.len() <= n {
                    assert(head.subrange(i, i + part.len()) =~= all.subrange(i, i + part.len()));
                    assert(occurs_at(head, part, i));
                } else if i > n {
                    let k = i - n - 1;
                    assert(last.subrange(k, k + part.len()) =~= all.subrange(i, i + part.len()));
                    assert(occurs_at(last, part, k));
                } else {
                    assert(all.subrange(i, i + part.len())[n - i] == all[n]);
                    assert(part[n - i] == c);
                }
            }
        }
    } else if parts.len() == 1 {
        assert(!occurs(parts[0], part));
    }
}

/// Where a string last occurs in another, if it does.
pub fn rfind(chars: &Vec<char>, part: &Vec<char>) -> (r: Option<usize>)
    ensures
        match r {
            Some(i) => find_last(chars@, part@) == Some(i as int) && occurs_at(
                chars@,
                part@,
                i as int,
            ),
            None => find_last(chars@, part@) is None,
        },
{
    let mut i: usize = chars.len();
    loop
        invariant
            i <= chars@.len(),
            last_before(chars@, part@, i as int) == find_last(chars@, part@),
        decreases i,
    {
        if stands_at(chars, part, i) {
            return Some(i);
        }
        if i == 0 {
            assert(last_before(chars@, part@, -1) is None);
            return None;
        }
        i = i - 1;
    }
}

/// The text with every `from`, taken from the left and never overlapping,
/// replaced by `to`.
pub open spec fn replaced(s: Seq<char>, from: Seq<char>, to: Seq<char>) -> Seq<char>
    decreases s.len(),
{
    if s.len() == 0 || from.len() == 0 {
        s
    } else if begins(s, from) {
        to + replaced(s.skip(from.len() as int), from, to)
    } else {
        seq![s[0]] + replaced(s.skip(1), from, to)
    }
}

/// The string with every `from` replaced by `to`.
pub fn replace(s: &str, from: &str, to: &str) -> (r: String)
    requires
        from@.len() > 0,
    ensures
        r@ == replaced(s@, from@, to@),
{
    let chars = chars_of(s);
    let part = chars_of(from);
    let mut out = String::new();
    let mut i: usize = 0;
    assert(chars@.skip(0) =~= chars@);
    assert(out@ + replaced(s@, from@, to@) =~= replaced(s@, from@, to@));
    while i < chars.len()
        invariant
            i <= chars@.len(),
            part@ == from@,
            part@.len() > 0,
            out@ + replaced(chars@.skip(i as int), from@, to@) == replaced(s@, from@, to@),
        decreases chars@.len() - i,
    {
        let ghost rest = chars@.skip(i as int);
        let ghost before = out@;
        if stands_at(&chars, &part, i) {
            assert(rest.subrange(0, part@.len() as int) =~= chars@.subrange(
                i as int,
                i + part@.len(),
            ));
            out.append(to);
            assert(rest.skip(part@.len() as int) =~= chars@.skip(i + part@.len()));
            assert(out@ + replaced(chars@.skip(i + part@.len()), from@, to@) =~= before + (to@
                + replaced(chars@.skip(i + part@.len()), from@, to@)));
            i = i + part.len();
        } else {
            proof {
                if begins(rest, part@) {
                    assert(rest.subrange(0, part@.len() as int) =~= chars@.subrange(
                        i as int,
                        i + part@.len(),
                    ));
                }
            }
            out.push(chars[i]);
            assert(rest.skip(1) =~= chars@.skip(i + 1));
            assert(out@ + replaced(chars@.skip(i + 1), from@, to@) =~= before + (seq![
                chars@[i as int],
            ] + replaced(chars@.skip(i + 1), from@, to@)));
            i = i + 1;
        }
    }
    assert(chars@.skip(i as int) =~= Seq::<char>::empty());
    assert(out@ + Seq::<char>::empty() =~= out@);
    out
}

// --- letter case ------------------------------------------------------------

/// An ASCII capital as its small letter, any other character as it is.
pub open spec fn small(c: char) -> char {
    if 'A' <= c && c <= 'Z' {
        ((c as u32) + 32) as char
    } else {
        c
    }
}

/// Whether two texts differ at most in the case of ASCII letters.
pub open spec fn same_letters(a: Seq<char>, b: Seq<char>) -> bool {
    a.len() == b.len() && forall|i: int| 0 <= i < a.len() ==> small(a[i]) == small(b[i])
}

fn small_code(c: char) -> (r: u32)
    ensures
        r == small(c) as u32,
{
    let n: u32 = c as u32;
    if 'A' <= c && c <= 'Z' {
        n + 32
    } else {
        n
    }
}

/// Whether two strings differ at most in the case of ASCII letters.
pub fn eq_ignore_case(a: &str, b: &str) -> (r: bool)
    ensures
        r == same_letters(a@, b@),
{
    let x = chars_of(a);
    let y = chars_of(b);
    if x.len() != y.len() {
        return false;
    }
    for i in 0..x.len()
        invariant
            x@ == a@,
            y@ == b@,
            x@.len() == y@.len(),
            forall|j: int| 0 <= j < i ==> small(a@[j]) == small(b@[j]),
    {
        let p: u32 = small_code(x[i]);
        let q: u32 = small_code(y[i]);
        if p != q {
            assert(small(a@[i as int]) != small(b@[i as int]));
            return false;
        }
        assert(small(a@[i as int]) == small(b@[i as int]));
    }
    true
}

/// Whether a text occurs in another, letters of either case alike.
pub open spec fn occurs_in_any_case(s: Seq<char>, part: Seq<char>) -> bool {
    exists|i: int|
        0 <= i <= s.len() - part.len() && same_letters(
            #[trigger] s.subrange(i, i + part.len()),
            part,
        )
}

/// Whether a string occurs in another, letters of either case alike.
pub fn contains_ignore_case(s: &str, part: &str) -> (r: bool)
    ensures
        r == occurs_in_any_case(s@, part@),
{
    let chars = chars_of(s);
    let m: usize = chars_of(part).len();
    let n: usize = chars.len();
    if m > n {
        return false;
    }
    let mut i: usize = 0;
    while i <= n - m
        invariant
            chars@ == s@,
            n == chars@.len(),
            m == part@.len(),
            m <= n,
            i <= n - m + 1,
            forall|j: int|
                0 <= j < i ==> !same_letters(#[trigger] s@.subrange(j, j + part@.len()), part@),
        decreases n - i,
    {
        if eq_ignore_case(slice_of(&chars, i, i + m).as_str(), part) {
            assert(same_letters(s@.subrange(i as int, i + part@.len()), part@));
            return true;
        }
        if i == n - m {
            return false;
        }
        i = i + 1;
    }
    false
}

// --- numbers ----------------------------------------------------------------

/// The decimal digit that stands for a number below ten.
pub open spec fn digit(n: nat) -> char {
    if n == 0 {
        '0'
    } else if n == 1 {
        '1'
    } else if n == 2 {
        '2'
    } else if n == 3 {
        '3'
    } else if n == 4 {
        '4'
    } else if n == 5 {
        '5'
    } else if n == 6 {
        '6'
    } else if n == 7 {
        '7'
    } else if n == 8 {
        '8'
    } else {
        '9'
    }
}

fn digit_char(n: u64) -> (c: char)
    requires
        n < 10,
    ensures
        c == digit(n as nat),
{
    if n == 0 {
        '0'
    } else if n == 1 {
        '1'
    } else if n == 2 {
        '2'
    } else if n == 3 {
        '3'
    } else if n == 4 {
        '4'
    } else if n == 5 {
        '5'
    } else if n == 6 {
        '6'
    } else if n == 7 {
        '7'
    } else if n == 8 {
        '8'
    } else {
        '9'
    }
}

/// A number in decimal, without leading zeros.
pub open spec fn decimal(n: nat) -> Seq<char>
    decreases n,
{
    if n < 10 {
        seq![digit(n)]
    } else {
        decimal(n / 10).push(digit(n % 10))
    }
}

/// Different numbers are written differently.
pub proof fn lemma_decimal_injective(a: nat, b: nat)
    requires
        decimal(a) == decimal(b),
    ensures
        a == b,
    decreases a,
{
    lemma_decimal_some(a);
    lemma_decimal_some(b);
    lemma_decimal_some(a / 10);
    lemma_decimal_some(b / 10);
    assert(forall|n: nat| n < 10 ==> #[trigger] digit(n) as u32 == 48 + n);
    if a < 10 && b < 10 {
        assert(decimal(a) == seq![digit(a)] && decimal(b) == seq![digit(b)]);
        assert(seq![digit(a)][0] == seq![digit(b)][0]);
    } else if a < 10 {
        assert(decimal(a) == seq![digit(a)]);
        assert(decimal(b) == decimal(b / 10).push(digit(b % 10)));
        assert(decimal(a).len() == 1 && decimal(b).len() > 1);
    } else if b < 10 {
        assert(decimal(b) == seq![digit(b)]);
        assert(decimal(a) == decimal(a / 10).push(digit(a % 10)));
        assert(decimal(b).len() == 1 && decimal(a).len() > 1);
    } else {
        assert(decimal(a).drop_last() =~= decimal(a / 10));
        assert(decimal(b).drop_last() =~= decimal(b / 10));
        assert(decimal(a).last() == digit(a % 10));
        assert(decimal(b).last() == digit(b % 10));
        lemma_decimal_injective(a / 10, b / 10);
    }
}

/// A number is written with digits only.
pub proof fn lemma_decimal_digits(n: nat)
    ensures
        forall|i: int| 0 <= i < decimal(n).len() ==> '0' <= #[trigger] decimal(n)[i] <= '9',
    decreases n,
{
    if n >= 10 {
        lemma_decimal_digits(n / 10);
        let head = decimal(n / 10);
        assert(decimal(n) == head.push(digit(n % 10)));
        assert forall|i: int| 0 <= i < decimal(n).len() implies '0' <= #[trigger] decimal(n)[i]
            <= '9' by {
            if i < head.len() {
                assert(decimal(n)[i] == head[i]);
            }
        }
    }
}

proof fn lemma_decimal_some(n: nat)
    ensures
        decimal(n).len() > 0,
    decreases n,
{
    if n >= 10 {
        lemma_decimal_some(n / 10);
    }
}

/// A number in decimal, without leading zeros.
pub fn wide_number(n: u128) -> (r: String)
    ensures
        r@ == decimal(n as nat),
    decreases n,
{
    if n < 10 {
        let mut out = String::new();
        out.push(digit_char(n as u64));
        assert(out@ =~= seq![digit(n as nat)]);
        out
    } else {
        let mut out = wide_number(n / 10);
        out.push(digit_char((n % 10) as u64));
        out
    }
}

/// A number in decimal, without leading zeros.
pub fn number(n: u64) -> (r: String)
    ensures
        r@ == decimal(n as nat),
{
    wide_number(n as u128)
}

/// A signed number in decimal.
pub open spec fn signed_decimal(n: int) -> Seq<char> {
    if n < 0 {
        seq!['-'] + decimal((-n) as nat)
    } else {
        decimal(n as nat)
    }
}

/// A signed number in decimal.
pub fn signed_number(n: i64) -> (r: String)
    ensures
        r@ == signed_decimal(n as int),
{
    if n < 0 {
        let size: u64 = if n == i64::MIN {
            9_223_372_036_854_775_808
        } else {
            (-n) as u64
        };
        let mut out = String::new();
        out.push('-');
        let digits = number(size);
        out.append(digits.as_str());
        assert(out@ =~= seq!['-'] + decimal(size as nat));
        out
    } else {
        number(n as u64)
    }
}

/// `count` copies of one character.
pub open spec fn repeated(c: char, count: int) -> Seq<char> {
    Seq::new(
        if count > 0 {
            count as nat
        } else {
            0
        },
        |i: int| c,
    )
}

fn repeat(c: char, count: usize) -> (r: String)
    ensures
        r@ == repeated(c, count as int),
{
    let mut out = String::new();
    for i in 0..count
        invariant
            out@ == repeated(c, i as int),
    {
        out.push(c);
        assert(repeated(c, i as int).push(c) =~= repeated(c, i + 1));
    }
    out
}

/// A number in decimal, padded with zeros on the left to at least `width`.
pub open spec fn zero_padded(n: nat, width: int) -> Seq<char> {
    repeated('0', width - decimal(n).len()) + decimal(n)
}

/// A number in decimal, padded with zeros on the left to at least `width`.
pub fn pad_number(n: u64, width: usize) -> (r: String)
    ensures
        r@ == zero_padded(n as nat, width as int),
{
    let digits = number(n);
    let len: usize = digits.as_str().unicode_len();
    let fill: usize = if len < width {
        width - len
    } else {
        0
    };
    let mut out = repeat('0', fill);
    out.append(digits.as_str());
    assert(repeated('0', fill as int) =~= repeated('0', width - len));
    out
}

/// The text padded with spaces on the right to at least `width` characters.
pub open spec fn left_aligned(s: Seq<char>, width: int) -> Seq<char> {
    s + repeated(' ', width - s.len())
}

/// The string padded with spaces on the right to at least `width` characters.
pub fn align_left(s: &str, width: usize) -> (r: String)
    ensures
        r@ == left_aligned(s@, width as int),
{
    let len: usize = s.unicode_len();
    let fill: usize = if len < width {
        width - len
    } else {
        0
    };
    let mut out = s.to_owned();
    out.append(repeat(' ', fill).as_str());
    assert(repeated(' ', fill as int) =~= repeated(' ', width - len));
    out
}

/// Whether a character is a decimal digit.
pub open spec fn is_digit(c: char) -> bool {
    '0' <= c && c <= '9'
}

/// The value of a run of decimal digits.
pub open spec fn digits_value(s: Seq<char>) -> nat
    decreases s.len(),
{
    if s.len() == 0 {
        0
    } else {
        (digits_value(s.drop_last()) * 10 + (s.last() as u32 - '0' as u32)) as nat
    }
}

/// The unsigned number a text spells, if it spells one no greater than `max`:
/// one digit or more, with at most a plus sign before them.
pub open spec fn unsigned_value(s: Seq<char>, max: nat) -> Option<nat> {
    let digits = without_plus(s);
    if digits.len() > 0 && all_digits(digits) && digits_value(digits) <= max {
        Some(digits_value(digits))
    } else {
        None
    }
}

/// A text without the plus sign it may begin with.
pub open spec fn without_plus(s: Seq<char>) -> Seq<char> {
    if s.len() > 0 && s[0] == '+' {
        s.skip(1)
    } else {
        s
    }
}

/// Whether every character of a text is a decimal digit.
pub open spec fn all_digits(s: Seq<char>) -> bool {
    forall|i: int| 0 <= i < s.len() ==> is_digit(s[i])
}

/// Reads an unsigned number no greater than `max`.
pub fn parse_unsigned(s: &str, max: u64) -> (r: Option<u64>)
    ensures
        match r {
            Some(n) => unsigned_value(s@, max as nat) == Some(n as nat),
            None => unsigned_value(s@, max as nat) is None,
        },
{
    let chars = chars_of(s);
    let start: usize = if chars.len() > 0 && chars[0] == '+' {
        1
    } else {
        0
    };
    let ghost digits = chars@.skip(start as int);
    assert(chars@.skip(0) =~= chars@);
    if start == chars.len() {
        assert(digits.len() == 0);
        return None;
    }
    let mut value: u64 = 0;
    let mut i: usize = start;
    assert(digits.take(0) =~= Seq::<char>::empty());
    let mut fits = true;
    while i < chars.len()
        invariant
            start <= i <= chars@.len(),
            digits == chars@.skip(start as int),
            digits == without_plus(s@),
            digits.len() > 0,
            forall|j: int| 0 <= j < i - start ==> is_digit(digits[j]),
            fits ==> value == digits_value(digits.take(i - start)) && value <= max,
            !fits ==> digits_value(digits.take(i - start)) > max,
        decreases chars@.len() - i,
    {
        let c: char = chars[i];
        assert(digits[i - start] == c);
        if c < '0' || c > '9' {
            assert(!is_digit(digits[i - start]));
            return None;
        }
        let d: u64 = (c as u32 - '0' as u32) as u64;
        proof {
            assert(digits.take(i - start + 1).drop_last() =~= digits.take(i - start));
        }
        if fits && value <= max / 10 && d <= max - value * 10 {
            value = value * 10 + d;
        } else {
            fits = false;
        }
        i = i + 1;
    }
    assert(digits.take(i - start) =~= digits);
    if fits {
        Some(value)
    } else {
        None
    }
}

/// The truth value a text spells.
pub open spec fn bool_value(s: Seq<char>) -> Option<bool> {
    if s == "true"@ {
        Some(true)
    } else if s == "false"@ {
        Some(false)
    } else {
        None
    }
}

/// Reads a truth value.
pub fn parse_bool(s: &str) -> (r: Option<bool>)
    ensures
        r == bool_value(s@),
{
    if same(s, "true") {
        Some(true)
    } else if same(s, "false") {
        Some(false)
    } else {
        None
    }
}

// --- laws -------------------------------------------------------------------

/// Trimming takes white space off both ends and nothing else: what is left starts and
/// ends with something else, or is nothing.
pub proof fn law_trimming_takes_off_white_space(s: Seq<char>)
    ensures
        exists|i: int, j: int|
            0 <= i <= j <= s.len() && trimmed(s) == #[trigger] s.subrange(i, j) && (forall|k: int|
                0 <= k < i || j <= k < s.len() ==> is_white(#[trigger] s[k])),
        trimmed(s).len() > 0 ==> !is_white(trimmed(s)[0]) && !is_white(trimmed(s).last()),
{
    lemma_trim_front(s);
    lemma_trim_back(trim_front(s));
    lemma_ends_dark(s);
    let f = trim_front(s);
    let i = s.len() - f.len();
    let j = i + trimmed(s).len();
    assert(s.subrange(i, j) =~= trimmed(s));
    assert forall|k: int| 0 <= k < i || j <= k < s.len() implies is_white(#[trigger] s[k]) by {
        if k >= j {
            assert(s[k] == f[k - i]);
        }
    }
}

/// A text cut at the first of some character falls into what stands before it, which
/// does not hold it, and what stands after it; and a text without it is not cut.
pub proof fn law_a_cut_is_at_the_first(s: Seq<char>, c: char)
    ensures
        match cut(s, c) {
            Some((a, b)) => s == a + seq![c] + b && !a.contains(c),
            None => !s.contains(c),
        },
{
    lemma_position(s, c);
    if let Some((a, b)) = cut(s, c) {
        assert(s =~= a + seq![c] + b);
        assert forall|j: int| 0 <= j < a.len() implies a[j] != c by {
            assert(a[j] == s[j]);
        }
    } else {
        assert forall|j: int| 0 <= j < s.len() implies s[j] != c by {}
    }
}

/// Joining two lists of texts puts the separator between them once.
pub proof fn law_joining_adds_up(a: Seq<Seq<char>>, b: Seq<Seq<char>>, sep: Seq<char>)
    requires
        a.len() > 0,
        b.len() > 0,
    ensures
        joined(a + b, sep) == joined(a, sep) + sep + joined(b, sep),
        joined(seq![a[0]], sep) == a[0],
    decreases b.len(),
{
    let all = a + b;
    assert(all.last() == b.last());
    if b.len() == 1 {
        assert(all.drop_last() =~= a);
    } else {
        assert(all.drop_last() =~= a + b.drop_last());
        law_joining_adds_up(a, b.drop_last(), sep);
        assert(joined(a, sep) + sep + joined(b.drop_last(), sep) + sep + b.last() =~= joined(a, sep)
            + sep + (joined(b.drop_last(), sep) + sep + b.last()));
    }
}

/// Every text of a list stands in what they are joined to.
pub proof fn law_joining_loses_nothing(parts: Seq<Seq<char>>, sep: Seq<char>, i: int)
    requires
        0 <= i < parts.len(),
    ensures
        occurs(joined(parts, sep), parts[i]),
    decreases parts.len(),
{
    let all = joined(parts, sep);
    if parts.len() == 1 {
        assert(all.subrange(0, all.len() as int) =~= parts[i]);
        assert(occurs_at(all, parts[i], 0));
    } else if i == parts.len() - 1 {
        let at = all.len() - parts[i].len();
        assert(all.subrange(at, all.len() as int) =~= parts[i]);
        assert(occurs_at(all, parts[i], at));
    } else {
        let rest = parts.drop_last();
        law_joining_loses_nothing(rest, sep, i);
        let head = joined(rest, sep);
        let k = choose|k: int| occurs_at(head, parts[i], k);
        assert(all.subrange(k, k + parts[i].len()) =~= head.subrange(k, k + parts[i].len()));
        assert(occurs_at(all, parts[i], k));
    }
}

/// A number written in decimal reads back as that number, as long as it is allowed.
pub proof fn law_numbers_read_back(n: nat, max: nat)
    ensures
        unsigned_value(decimal(n), max) == if n <= max {
            Some(n)
        } else {
            None
        },
{
    lemma_decimal_some(n);
    lemma_decimal_digits(n);
    lemma_decimal_value(n);
    assert(is_digit(decimal(n)[0]));
    assert(without_plus(decimal(n)) == decimal(n));
    assert(all_digits(decimal(n)));
}

proof fn lemma_decimal_value(n: nat)
    ensures
        digits_value(decimal(n)) == n,
    decreases n,
{
    assert(forall|k: nat| k < 10 ==> #[trigger] digit(k) as u32 == 48 + k);
    if n < 10 {
        assert(decimal(n).drop_last() =~= Seq::<char>::empty());
        assert(digits_value(Seq::<char>::empty()) == 0);
        assert(digit(n) as u32 == 48 + n);
    } else {
        lemma_decimal_value(n / 10);
        assert(decimal(n).drop_last() =~= decimal(n / 10));
        assert(digit(n % 10) as u32 == 48 + n % 10);
    }
}

/// A number that is padded to a width reads as the same number and is at least that
/// wide.
pub proof fn law_padding_keeps_the_number(n: nat, width: int)
    ensures
        digits_value(zero_padded(n, width)) == n,
        zero_padded(n, width).len() >= width,
        ends(zero_padded(n, width), decimal(n)),
{
    lemma_decimal_value(n);
    let fill = repeated('0', width - decimal(n).len());
    lemma_zeros_in_front(fill, decimal(n));
    let all = zero_padded(n, width);
    assert(all.subrange(all.len() - decimal(n).len(), all.len() as int) =~= decimal(n));
}

proof fn lemma_zeros_in_front(fill: Seq<char>, s: Seq<char>)
    requires
        forall|i: int| 0 <= i < fill.len() ==> fill[i] == '0',
    ensures
        digits_value(fill + s) == digits_value(s),
    decreases fill.len() + s.len(),
{
    if s.len() > 0 {
        assert((fill + s).drop_last() =~= fill + s.drop_last());
        lemma_zeros_in_front(fill, s.drop_last());
    } else if fill.len() > 0 {
        assert(fill + s =~= fill);
        assert(fill.drop_last() + s =~= fill.drop_last());
        lemma_zeros_in_front(fill.drop_last(), s);
    } else {
        assert(fill + s =~= s);
    }
}

/// Replacing one character leaves every other as it is, and goes through a text from
/// one end to the other.
pub proof fn law_replacing_goes_by_character(a: Seq<char>, b: Seq<char>, c: char, to: Seq<char>)
    ensures
        replaced(a + b, seq![c], to) == replaced(a, seq![c], to) + replaced(b, seq![c], to),
        !a.contains(c) ==> replaced(a, seq![c], to) == a,
        replaced(seq![c], seq![c], to) == to,
    decreases a.len(),
{
    let from = seq![c];
    if a.len() == 0 {
        assert(a + b =~= b);
        assert(replaced(a, from, to) + replaced(b, from, to) =~= replaced(b, from, to));
    } else {
        let rest = a.skip(1);
        law_replacing_goes_by_character(rest, b, c, to);
        assert((a + b).skip(1) =~= rest + b);
        assert((a + b).subrange(0, 1) =~= a.subrange(0, 1));
        assert(a.subrange(0, 1) =~= seq![a[0]]);
        assert(seq![a[0]][0] == a[0]);
        if a[0] == c {
            assert(begins(a, from) && begins(a + b, from));
            assert(to + (replaced(rest, from, to) + replaced(b, from, to)) =~= to + replaced(
                rest,
                from,
                to,
            ) + replaced(b, from, to));
        } else {
            assert(seq![a[0]] != from) by {
                assert(from[0] == c);
            }
            assert(seq![a[0]] + (replaced(rest, from, to) + replaced(b, from, to)) =~= seq![a[0]]
                + replaced(rest, from, to) + replaced(b, from, to));
        }
        if !a.contains(c) {
            assert(a[0] != c);
            assert forall|j: int| 0 <= j < rest.len() implies rest[j] != c by {
                assert(rest[j] == a[j + 1]);
            }
            assert(seq![a[0]] + rest =~= a);
        }
    }
    assert(from.skip(1) =~= Seq::<char>::empty());
    assert(from.subrange(0, 1) =~= from);
    assert(replaced(Seq::<char>::empty(), from, to) == Seq::<char>::empty());
    assert(to + Seq::<char>::empty() =~= to);
}

/// The beginning of a text that is kept is the longest that fits: one character more
/// would not.
pub proof fn law_the_longest_beginning_is_kept(s: Seq<char>, max: nat, n: int)
    requires
        head_within(s, max).len() < n <= s.len(),
    ensures
        byte_len(s.take(n)) > max,
    decreases s.len(),
{
    if s.len() > 0 && byte_len(s) > max {
        if n == s.len() {
            assert(s.take(n) =~= s);
        } else {
            law_the_longest_beginning_is_kept(s.drop_last(), max, n);
            assert(s.drop_last().take(n) =~= s.take(n));
        }
    }
}

/// The end of a text that is kept is the longest that fits: one character more would
/// not.
pub proof fn law_the_longest_end_is_kept(s: Seq<char>, max: nat, n: int)
    requires
        tail_within(s, max).len() < n <= s.len(),
    ensures
        byte_len(s.skip(s.len() - n)) > max,
    decreases s.len(),
{
    if s.len() > 0 && byte_len(s) > max {
        if n == s.len() {
            assert(s.skip(0) =~= s);
        } else {
            law_the_longest_end_is_kept(s.drop_first(), max, n);
            assert(s.drop_first().skip(s.len() - 1 - n) =~= s.skip(s.len() - n));
        }
    }
}

/// A text without carriage returns falls into lines that, put together again, are the
/// text, but for the line feed it may end with; and no line holds a line feed.
pub proof fn law_lines_make_up_the_text(s: Seq<char>)
    requires
        !s.contains('\r'),
    ensures
        ({
            let back = joined(line_texts(s), seq!['\n']);
            back == s || back + seq!['\n'] == s
        }),
        forall|i: int| 0 <= i < line_texts(s).len() ==> !(#[trigger] line_texts(s)[i]).contains(
            '\n',
        ),
{
    let parts = pieces(s, '\n');
    lemma_pieces(s, '\n');
    lemma_joined_pieces(s, '\n');
    let init = parts.drop_last();
    let ended = init.map_values(|p: Seq<char>| without_return(p));
    assert forall|i: int| 0 <= i < parts.len() implies !(#[trigger] parts[i]).contains('\r') by {
        lemma_pieces_within(s, '\n', i, '\r');
    }
    assert forall|i: int| 0 <= i < init.len() implies without_return(#[trigger] init[i])
        == init[i] by {
        assert(!parts[i].contains('\r'));
        assert(init[i] == parts[i]);
        if init[i].len() > 0 && init[i].last() == '\r' {
            assert(init[i].contains(init[i].last()));
        }
    }
    assert(ended =~= init);
    assert forall|i: int| 0 <= i < line_texts(s).len() implies !(
    #[trigger] line_texts(s)[i]).contains('\n') by {
        lemma_pieces_clean(s, '\n', i);
        assert(line_texts(s)[i] == parts[i]);
    }
    if parts.last().len() == 0 {
        if init.len() == 0 {
            assert(parts =~= seq![parts.last()]);
            assert(s =~= parts[0]);
        } else {
            assert(s =~= joined(init, seq!['\n']) + seq!['\n']);
        }
    } else {
        assert(ended.push(parts.last()) =~= parts);
    }
}

proof fn lemma_joined_pieces(s: Seq<char>, c: char)
    ensures
        joined(pieces(s, c), seq![c]) == s,
    decreases s.len(),
{
    lemma_position(s, c);
    let p = position(s, c);
    if p < s.len() {
        let rest = s.skip(p + 1);
        lemma_joined_pieces(rest, c);
        lemma_pieces(rest, c);
        law_joining_adds_up(seq![s.take(p)], pieces(rest, c), seq![c]);
        assert(joined(seq![s.take(p)], seq![c]) == s.take(p));
        assert(s.take(p) + seq![c] + rest =~= s);
    } else {
        assert(pieces(s, c)[0] == s);
    }
}

proof fn lemma_pieces_within(s: Seq<char>, c: char, i: int, d: char)
    requires
        0 <= i < pieces(s, c).len(),
        !s.contains(d),
    ensures
        !pieces(s, c)[i].contains(d),
    decreases s.len(),
{
    lemma_position(s, c);
    let p = position(s, c);
    if p < s.len() {
        if i == 0 {
            let head = s.take(p);
            assert forall|j: int| 0 <= j < head.len() implies head[j] != d by {
                assert(head[j] == s[j]);
            }
        } else {
            let rest = s.skip(p + 1);
            assert forall|j: int| 0 <= j < rest.len() implies rest[j] != d by {
                assert(rest[j] == s[p + 1 + j]);
            }
            lemma_pieces_within(rest, c, i - 1, d);
            assert(pieces(s, c)[i] == pieces(rest, c)[i - 1]);
        }
    }
}

/// The pieces of a text, put together again with what it was cut at, are the text.
pub proof fn law_pieces_make_up_the_text(s: Seq<char>, c: char)
    ensures
        joined(pieces(s, c), seq![c]) == s,
        forall|i: int| 0 <= i < pieces(s, c).len() ==> !(#[trigger] pieces(s, c)[i]).contains(c),
{
    lemma_joined_pieces(s, c);
    assert forall|i: int| 0 <= i < pieces(s, c).len() implies !(
    #[trigger] pieces(s, c)[i]).contains(c) by {
        lemma_pieces_clean(s, c, i);
    }
}

/// What stands in the middle of a text occurs in it.
pub proof fn lemma_occurs_between(a: Seq<char>, part: Seq<char>, b: Seq<char>)
    ensures
        occurs(a + part + b, part),
{
    let s = a + part + b;
    assert(s.subrange(a.len() as int, (a.len() + part.len()) as int) =~= part);
    assert(occurs_at(s, part, a.len() as int));
}

/// What occurs in a part of a text occurs in the text.
pub proof fn lemma_occurs_within(a: Seq<char>, s: Seq<char>, b: Seq<char>, part: Seq<char>)
    requires
        occurs(s, part),
    ensures
        occurs(a + s + b, part),
{
    let i = choose|i: int| occurs_at(s, part, i);
    let all = a + s + b;
    assert(all.subrange(a.len() + i, a.len() + i + part.len()) =~= part);
    assert(occurs_at(all, part, a.len() + i));
}

/// A text that starts and ends with something other than white space is trimmed.
pub proof fn lemma_trimmed_keeps(s: Seq<char>)
    requires
        s.len() > 0,
        !is_white(s[0]),
        !is_white(s.last()),
    ensures
        trimmed(s) == s,
{
}

/// Replacing goes from left to right: what stands before the first occurrence stays,
/// the new text stands in its place, and the rest is treated alike. A text without it
/// stays as it is.
pub proof fn law_replacing_goes_left_to_right(s: Seq<char>, from: Seq<char>, to: Seq<char>)
    requires
        from.len() > 0,
    ensures
        forall|i: int|
            (#[trigger] occurs_at(s, from, i) && forall|j: int| 0 <= j < i ==> !occurs_at(s, from, j))
                ==> replaced(s, from, to) == s.take(i) + to + replaced(
                s.skip(i + from.len()),
                from,
                to,
            ),
        !occurs(s, from) ==> replaced(s, from, to) == s,
{
    assert forall|i: int|
        (#[trigger] occurs_at(s, from, i) && forall|j: int| 0 <= j < i ==> !occurs_at(s, from, j))
            implies replaced(s, from, to) == s.take(i) + to + replaced(
        s.skip(i + from.len()),
        from,
        to,
    ) by {
        lemma_replaced_at(s, from, to, i);
    }
    if !occurs(s, from) {
        lemma_replaced_nowhere(s, from, to);
    }
}

proof fn lemma_replaced_at(s: Seq<char>, from: Seq<char>, to: Seq<char>, i: int)
    requires
        from.len() > 0,
        occurs_at(s, from, i),
        forall|j: int| 0 <= j < i ==> !occurs_at(s, from, j),
    ensures
        replaced(s, from, to) == s.take(i) + to + replaced(s.skip(i + from.len()), from, to),
    decreases s.len(),
{
    if i == 0 {
        assert(s.take(0) + to =~= to);
    } else {
        assert(!occurs_at(s, from, 0));
        let t = s.skip(1);
        assert(t.subrange(i - 1, i - 1 + from.len()) =~= s.subrange(i, i + from.len()));
        assert forall|j: int| 0 <= j < i - 1 implies !occurs_at(t, from, j) by {
            assert(!occurs_at(s, from, j + 1));
            if occurs_at(t, from, j) {
                assert(s.subrange(j + 1, j + 1 + from.len()) =~= t.subrange(j, j + from.len()));
            }
        }
        lemma_replaced_at(t, from, to, i - 1);
        assert(t.skip(i - 1 + from.len()) =~= s.skip(i + from.len()));
        assert(seq![s[0]] + t.take(i - 1) =~= s.take(i));
        let rest = replaced(s.skip(i + from.len()), from, to);
        assert(seq![s[0]] + (t.take(i - 1) + to + rest) =~= s.take(i) + to + rest);
    }
}

proof fn lemma_replaced_nowhere(s: Seq<char>, from: Seq<char>, to: Seq<char>)
    requires
        from.len() > 0,
        !occurs(s, from),
    ensures
        replaced(s, from, to) == s,
    decreases s.len(),
{
    if s.len() > 0 {
        assert(!occurs_at(s, from, 0));
        let t = s.skip(1);
        assert forall|j: int| !occurs_at(t, from, j) by {
            assert(!occurs_at(s, from, j + 1));
            if occurs_at(t, from, j) {
                assert(s.subrange(j + 1, j + 1 + from.len()) =~= t.subrange(j, j + from.len()));
            }
        }
        lemma_replaced_nowhere(t, from, to);
        assert(seq![s[0]] + t =~= s);
    }
}

/// The lines of a text are read one by one: each ends at its line feed, without the
/// carriage return that may stand before it.
pub proof fn law_lines_are_read_one_by_one(line: Seq<char>, rest: Seq<char>)
    requires
        !line.contains('\n'),
    ensures
        line_texts(line + seq!['\n'] + rest) == seq![without_return(line)] + line_texts(rest),
        line.len() > 0 ==> line_texts(line) == seq![line],
        line_texts(Seq::<char>::empty()).len() == 0,
        !line.contains('\r') ==> without_return(line) == line && without_return(
            line.push('\r'),
        ) == line,
{
    let none = Seq::<char>::empty();
    lemma_pieces_add(line, '\n', rest);
    lemma_one_piece(line, '\n');
    lemma_one_piece(none, '\n');
    lemma_pieces(rest, '\n');
    let tail = pieces(rest, '\n');
    let all = seq![line] + tail;
    assert(all.last() == tail.last());
    assert(all.drop_last() =~= seq![line] + tail.drop_last());
    let f = |p: Seq<char>| without_return(p);
    assert((seq![line] + tail.drop_last()).map_values(f) =~= seq![without_return(line)]
        + tail.drop_last().map_values(f));
    assert(line_texts(line + seq!['\n'] + rest) =~= seq![without_return(line)] + line_texts(rest));
    assert(seq![line].drop_last().map_values(f) =~= Seq::<Seq<char>>::empty());
    assert(seq![none].drop_last().map_values(f) =~= Seq::<Seq<char>>::empty());
    if line.len() > 0 {
        assert(line_texts(line) =~= seq![line]);
        assert(line.contains(line.last()));
    }
    assert(line.push('\r').drop_last() =~= line);
}

/// Taking white space off the end of a text takes off all of it there and nothing else.
pub proof fn law_the_end_is_trimmed(s: Seq<char>, w: Seq<char>)
    requires
        forall|i: int| 0 <= i < w.len() ==> is_white(#[trigger] w[i]),
    ensures
        trim_back(s + w) == trim_back(s),
        s.len() > 0 && !is_white(s.last()) ==> trim_back(s + w) == s,
    decreases w.len(),
{
    if w.len() == 0 {
        assert(s + w =~= s);
    } else {
        assert((s + w).drop_last() =~= s + w.drop_last());
        assert(is_white(w[w.len() - 1]));
        let v = w.drop_last();
        assert forall|i: int| 0 <= i < v.len() implies is_white(#[trigger] v[i]) by {
            assert(w[i] == v[i]);
        }
        law_the_end_is_trimmed(s, v);
    }
}

/// What a text ends with occurs in it.
pub proof fn lemma_at_the_end(a: Seq<char>, part: Seq<char>)
    ensures
        occurs(a + part, part),
        ends(a + part, part),
{
    let s = a + part;
    assert(s.subrange(s.len() - part.len(), s.len() as int) =~= part);
    assert(occurs_at(s, part, s.len() - part.len()));
}

/// What occurs in a text, or begins it, still does when more follows.
pub proof fn lemma_more_follows(s: Seq<char>, part: Seq<char>, more: Seq<char>)
    ensures
        occurs(s, part) ==> occurs(s + more, part),
        begins(s, part) ==> begins(s + more, part),
        begins(s + more, s),
{
    let all = s + more;
    if occurs(s, part) {
        let i = choose|i: int| occurs_at(s, part, i);
        assert(all.subrange(i, i + part.len()) =~= s.subrange(i, i + part.len()));
        assert(occurs_at(all, part, i));
    }
    if begins(s, part) {
        assert(all.subrange(0, part.len() as int) =~= s.subrange(0, part.len() as int));
    }
    assert(all.subrange(0, s.len() as int) =~= s);
}

/// Texts in a row can be put together from either end.
pub proof fn lemma_regroup(a: Seq<char>, b: Seq<char>, c: Seq<char>)
    ensures
        a + b + c == a + (b + c),
{
    assert(a + b + c =~= a + (b + c));
}

/// Two texts are alike but for case exactly where each letter of one, made small, is
/// that of the other made small: capitals are made the small letter of the same place
/// in the alphabet, and every other character is left alone.
pub proof fn law_case_is_all_that_is_overlooked(c: char, d: char, s: Seq<char>, t: Seq<char>)
    ensures
        'A' <= c && c <= 'Z' ==> small(c) as u32 == c as u32 + 32 && 'a' <= small(c) && small(c)
            <= 'z',
        !('A' <= c && c <= 'Z') ==> small(c) == c,
        same_letters(s, s),
        same_letters(s, t) == same_letters(t, s),
        same_letters(s.push(c), t.push(d)) <==> same_letters(s, t) && small(c) == small(d),
        occurs(s, t) ==> occurs_in_any_case(s, t),
{
    let a = s.push(c);
    let b = t.push(d);
    if same_letters(a, b) {
        assert forall|i: int| 0 <= i < s.len() implies small(s[i]) == small(t[i]) by {
            assert(small(a[i]) == small(b[i]));
        }
        assert(small(a[s.len() as int]) == small(b[s.len() as int]));
    }
    if same_letters(s, t) && small(c) == small(d) {
        assert forall|i: int| 0 <= i < a.len() implies small(a[i]) == small(b[i]) by {
            if i < s.len() {
                assert(small(s[i]) == small(t[i]));
            }
        }
    }
    if occurs(s, t) {
        let i = choose|i: int| occurs_at(s, t, i);
        assert(same_letters(s.subrange(i, i + t.len()), t));
    }
}

/// A number is written in its digits, a negative one with its sign before them; what is
/// read as a number is digits with at most a plus sign before them, none of which counts
/// for nothing.
pub proof fn law_numbers_are_written_in_digits(n: nat, s: Seq<char>, max: nat, k: int)
    ensures
        signed_decimal(n as int) == decimal(n),
        n > 0 ==> signed_decimal(-(n as int)) == seq!['-'] + decimal(n),
        digits_value(decimal(n)) == n,
        unsigned_value(s, max) matches Some(v) ==> v <= max && v == digits_value(without_plus(s)),
        unsigned_value(Seq::empty(), max) is None,
        0 <= k < s.len() && !('0' <= s[k] && s[k] <= '9') && !(k == 0 && s[k] == '+')
            ==> unsigned_value(s, max) is None,
        unsigned_value(seq!['+'] + decimal(n), max) == unsigned_value(decimal(n), max),
{
    lemma_decimal_value(n);
    lemma_decimal_digits(n);
    lemma_decimal_some(n);
    let p = seq!['+'] + decimal(n);
    assert(p.skip(1) =~= decimal(n));
    assert('0' <= decimal(n)[0] <= '9');
    if 0 <= k < s.len() && !('0' <= s[k] && s[k] <= '9') && !(k == 0 && s[k] == '+') {
        let d = without_plus(s);
        if s[0] == '+' {
            assert(d[k - 1] == s[k]);
            assert(!is_digit(d[k - 1]));
        } else {
            assert(!is_digit(d[k]));
        }
    }
}

/// A text is aligned by spaces behind it, up to the width and not beyond.
pub proof fn law_alignment_only_adds_spaces(s: Seq<char>, width: int, i: int)
    ensures
        begins(left_aligned(s, width), s),
        left_aligned(s, width).len() >= width,
        s.len() >= width ==> left_aligned(s, width) == s,
        s.len() <= width ==> left_aligned(s, width).len() == width,
        s.len() <= i < left_aligned(s, width).len() ==> left_aligned(s, width)[i] == ' ',
{
    let a = left_aligned(s, width);
    assert(a.subrange(0, s.len() as int) =~= s);
    if s.len() >= width {
        assert(a =~= s);
    }
}

/// White space is the spaces and the breaks; letters, digits and what is printed
/// otherwise in ASCII are not.
pub proof fn law_what_is_printed_is_not_white(c: char)
    ensures
        '!' <= c && c <= '~' ==> !is_white(c),
        is_white(' ') && is_white('\n') && is_white('\r') && is_white('\t'),
        is_white(c) ==> c <= ' ' || c as u32 >= 0x85,
{
}

} // verus!
