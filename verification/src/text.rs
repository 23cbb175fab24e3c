//! Text helpers shared by the protocol modules.
//!
//! Strings are modelled by their characters (`s@`, a `Seq<char>`). The
//! functions here split, trim, compare, number and decode such sequences.
use vstd::prelude::*;
use vstd::utf8::*;

verus! {

broadcast use vstd::string::group_string_axioms;

/// `String::push` appends one character to the end of the string.
pub assume_specification[ String::push ](s: &mut String, c: char)
    ensures
        final(s)@ == old(s)@.push(c),
;

/// The text that `String::from_utf8_lossy` yields for bytes that are not valid
/// UTF-8.
pub uninterp spec fn lossy_text(bytes: Seq<u8>) -> Seq<char>;

/// The text that bytes stand for: decoded where they are valid UTF-8, patched
/// with replacement characters elsewhere.
pub open spec fn lossy(bytes: Seq<u8>) -> Seq<char> {
    if valid_utf8(bytes) {
        decode_utf8(bytes)
    } else {
        lossy_text(bytes)
    }
}

/// Decode bytes with `String::from_utf8_lossy`.
///
/// The result is a function of the bytes alone. On valid UTF-8 it is the
/// decoded text; elsewhere only its name is known (each malformed run becomes
/// U+FFFD).
#[verifier::external_body]
pub(crate) fn utf8_lossy(bytes: &[u8]) -> (text: String)
    ensures
        text@ == (if valid_utf8(bytes@) {
            decode_utf8(bytes@)
        } else {
            lossy_text(bytes@)
        }),
{
    String::from_utf8_lossy(bytes).into_owned()
}

/// The text that the `{:?}` formatting of a string yields.
pub uninterp spec fn debug_text(s: Seq<char>) -> Seq<char>;

/// Quote and escape a string with its `Debug` formatting (`{:?}`). The result
/// is a function of the characters alone.
#[verifier::external_body]
pub(crate) fn debug_str(s: &str) -> (text: String)
    ensures
        text@ == debug_text(s@),
{
    format!("{:?}", s)
}

// --- conversions ------------------------------------------------------------

/// The characters of `s`.
pub fn to_chars(s: &str) -> (chars: Vec<char>)
    ensures
        chars@ == s@,
{
    let mut chars: Vec<char> = Vec::new();
    for c in it: s.chars()
        invariant
            it.seq() == s@,
            chars@ == s@.take(it.index() as int),
    {
        chars.push(c);
    }
    chars
}

/// The string made of `chars[from..to]`.
pub fn from_chars(chars: &Vec<char>, from: usize, to: usize) -> (s: String)
    requires
        from <= to <= chars@.len(),
    ensures
        s@ == chars@.subrange(from as int, to as int),
{
    let mut s = String::new();
    let mut i: usize = from;
    while i < to
        invariant
            from <= i <= to <= chars@.len(),
            s@ == chars@.subrange(from as int, i as int),
        decreases to - i,
    {
        s.push(chars[i]);
        i += 1;
        assert(chars@.subrange(from as int, i as int) =~= chars@.subrange(
            from as int,
            i - 1,
        ).push(chars@[i - 1]));
    }
    s
}

/// The characters of each string.
pub open spec fn views(lines: Seq<String>) -> Seq<Seq<char>> {
    lines.map_values(|s: String| s@)
}

/// Whether two strings hold the same characters.
pub fn str_eq(a: &str, b: &str) -> (same: bool)
    ensures
        same == (a@ == b@),
{
    broadcast use encode_utf8_decode_utf8;

    let x = a.as_bytes();
    let y = b.as_bytes();
    assert(decode_utf8(x@) == a@ && decode_utf8(y@) == b@);
    if x.len() != y.len() {
        return false;
    }
    let mut i: usize = 0;
    while i < x.len()
        invariant
            i <= x.len() == y.len(),
            x@ == encode_utf8(a@),
            y@ == encode_utf8(b@),
            x@.take(i as int) == y@.take(i as int),
        decreases x.len() - i,
    {
        if x[i] != y[i] {
            return false;
        }
        i += 1;
        assert(x@.take(i as int) =~= x@.take(i - 1).push(x@[i - 1]));
        assert(y@.take(i as int) =~= y@.take(i - 1).push(y@[i - 1]));
    }
    assert(x@ =~= x@.take(i as int));
    assert(y@ =~= y@.take(i as int));
    true
}

// --- order ------------------------------------------------------------------

/// Lexicographic order by code point: `a` comes strictly before `b`.
pub open spec fn text_lt(a: Seq<char>, b: Seq<char>) -> bool
    decreases a.len(),
{
    if b.len() == 0 {
        false
    } else if a.len() == 0 {
        true
    } else if a[0] != b[0] {
        a[0] < b[0]
    } else {
        text_lt(a.drop_first(), b.drop_first())
    }
}

pub proof fn lemma_text_lt_irreflexive(a: Seq<char>)
    ensures
        !text_lt(a, a),
    decreases a.len(),
{
    if a.len() > 0 {
        lemma_text_lt_irreflexive(a.drop_first());
    }
}

pub proof fn lemma_text_lt_transitive(a: Seq<char>, b: Seq<char>, c: Seq<char>)
    requires
        text_lt(a, b),
        text_lt(b, c),
    ensures
        text_lt(a, c),
    decreases a.len(),
{
    if a.len() > 0 && b.len() > 0 && c.len() > 0 && a[0] == b[0] && b[0] == c[0] {
        lemma_text_lt_transitive(a.drop_first(), b.drop_first(), c.drop_first());
    }
}

pub proof fn lemma_text_lt_total(a: Seq<char>, b: Seq<char>)
    ensures
        text_lt(a, b) || text_lt(b, a) || a == b,
    decreases a.len(),
{
    if a.len() == 0 || b.len() == 0 {
        if a.len() == 0 && b.len() == 0 {
            assert(a =~= b);
        }
    } else if a[0] == b[0] {
        lemma_text_lt_total(a.drop_first(), b.drop_first());
        if a.drop_first() == b.drop_first() {
            assert(a =~= seq![a[0]] + a.drop_first());
            assert(b =~= seq![b[0]] + b.drop_first());
        }
    }
}

/// Whether `a` comes strictly before `b` in lexicographic order.
pub fn str_lt(a: &str, b: &str) -> (before: bool)
    ensures
        before == text_lt(a@, b@),
{
    let x = to_chars(a);
    let y = to_chars(b);
    let mut i: usize = 0;
    assert(x@.skip(0) =~= x@ && y@.skip(0) =~= y@);
    while i < x.len() && i < y.len()
        invariant
            i <= x.len(),
            i <= y.len(),
            x@ == a@,
            y@ == b@,
            text_lt(a@, b@) == text_lt(x@.skip(i as int), y@.skip(i as int)),
        decreases x.len() - i,
    {
        if x[i] != y[i] {
            return x[i] < y[i];
        }
        assert(x@.skip(i as int).drop_first() =~= x@.skip(i + 1));
        assert(y@.skip(i as int).drop_first() =~= y@.skip(i + 1));
        i += 1;
    }
    i < y.len()
}

// --- searching and splitting -------------------------------------------------

/// The index of the first `c` in `s`, or the length of `s` where there is none.
pub open spec fn find(s: Seq<char>, c: char) -> nat
    decreases s.len(),
{
    if s.len() == 0 || s[0] == c {
        0
    } else {
        1 + find(s.drop_first(), c)
    }
}

pub proof fn lemma_find(s: Seq<char>, c: char)
    ensures
        find(s, c) <= s.len(),
        find(s, c) < s.len() ==> s[find(s, c) as int] == c,
        forall|i: int| 0 <= i < find(s, c) ==> s[i] != c,
        find(s, c) == s.len() <==> !s.contains(c),
    decreases s.len(),
{
    if s.len() > 0 && s[0] != c {
        lemma_find(s.drop_first(), c);
        let k = find(s.drop_first(), c);
        assert forall|i: int| 0 <= i < k + 1 implies s[i] != c by {
            if i > 0 {
                assert(s[i] == s.drop_first()[i - 1]);
            }
        }
        if k < s.drop_first().len() {
            assert(s[k as int + 1] == c);
        }
    }
}

/// `find` is pinned down by the prefix without `c` and what stands after it.
pub proof fn lemma_find_is(s: Seq<char>, c: char, k: int)
    requires
        0 <= k <= s.len(),
        forall|i: int| 0 <= i < k ==> s[i] != c,
        k < s.len() ==> s[k] == c,
    ensures
        find(s, c) == k,
{
    lemma_find(s, c);
    let f = find(s, c) as int;
    if f < k {
        assert(s[f] != c);
    } else if k < f {
        assert(s[k] != c);
    }
}

/// The pieces of `s` between the separators, empty pieces kept. A text without
/// the separator is one piece.
pub open spec fn split(s: Seq<char>, sep: char) -> Seq<Seq<char>>
    decreases s.len(),
    via split_decreases
{
    let k = find(s, sep);
    if k >= s.len() {
        seq![s]
    } else {
        seq![s.take(k as int)] + split(s.skip(k as int + 1), sep)
    }
}

#[via_fn]
proof fn split_decreases(s: Seq<char>, sep: char) {
    lemma_find(s, sep);
}

/// Split at every `sep`, keeping empty pieces.
pub fn split_on(s: &str, sep: char) -> (pieces: Vec<String>)
    ensures
        views(pieces@) == split(s@, sep),
{
    let chars = to_chars(s);
    let mut pieces: Vec<String> = Vec::new();
    let mut start: usize = 0;
    let mut i: usize = 0;
    assert(chars@.skip(0) =~= chars@);
    assert(views(pieces@) =~= Seq::<Seq<char>>::empty());
    while i < chars.len()
        invariant
            start <= i <= chars.len(),
            chars@ == s@,
            forall|j: int| start <= j < i ==> chars@[j] != sep,
            split(s@, sep) =~= views(pieces@) + split(chars@.skip(start as int), sep),
        decreases chars.len() - i,
    {
        if chars[i] == sep {
            let piece = from_chars(&chars, start, i);
            let ghost rest = chars@.skip(start as int);
            proof {
                lemma_find_is(rest, sep, i - start);
                assert(rest.take(i - start) =~= piece@);
                assert(rest.skip(i - start + 1) =~= chars@.skip(i + 1));
                assert(views(pieces@.push(piece)) =~= views(pieces@).push(piece@));
            }
            pieces.push(piece);
            start = i + 1;
        }
        i += 1;
    }
    let piece = from_chars(&chars, start, i);
    proof {
        let rest = chars@.skip(start as int);
        lemma_find_is(rest, sep, rest.len() as int);
        assert(rest =~= piece@);
        assert(views(pieces@.push(piece)) =~= views(pieces@).push(piece@));
    }
    pieces.push(piece);
    pieces
}

/// The non-empty pieces of `s` between spaces.
pub open spec fn words(s: Seq<char>) -> Seq<Seq<char>> {
    split(s, ' ').filter(|w: Seq<char>| w.len() > 0)
}

/// Split at spaces, dropping empty pieces.
pub fn split_words(s: &str) -> (list: Vec<String>)
    ensures
        views(list@) == words(s@),
{
    let pieces = split_on(s, ' ');
    let mut list: Vec<String> = Vec::new();
    let ghost all = views(pieces@);
    let ghost keep = |w: Seq<char>| w.len() > 0;
    let mut i: usize = 0;
    proof {
        reveal(Seq::filter);
    }
    assert(views(list@) =~= Seq::<Seq<char>>::empty());
    assert(all.take(0) =~= Seq::<Seq<char>>::empty());
    while i < pieces.len()
        invariant
            i <= pieces.len(),
            all == views(pieces@),
            keep == (|w: Seq<char>| w.len() > 0),
            views(list@) == all.take(i as int).filter(keep),
        decreases pieces.len() - i,
    {
        proof {
            reveal(Seq::filter);
            assert(all.take(i + 1).drop_last() =~= all.take(i as int));
            assert(all.take(i + 1).last() == pieces@[i as int]@);
        }
        if !pieces[i].as_str().is_empty() {
            let word = pieces[i].clone();
            assert(views(list@.push(word)) =~= views(list@).push(word@));
            list.push(word);
        }
        i += 1;
    }
    assert(all.take(i as int) =~= all);
    list
}

/// What follows `prefix` in `s`, if `s` starts with it.
pub fn after_prefix(s: &str, prefix: &str) -> (rest: Option<String>)
    ensures
        match rest {
            Some(r) => prefix@.is_prefix_of(s@) && r@ == s@.skip(prefix@.len() as int),
            None => !prefix@.is_prefix_of(s@),
        },
{
    let chars = to_chars(s);
    let start = to_chars(prefix);
    if chars.len() < start.len() {
        return None;
    }
    let mut i: usize = 0;
    while i < start.len()
        invariant
            i <= start.len() <= chars.len(),
            chars@ == s@,
            start@ == prefix@,
            forall|j: int| 0 <= j < i ==> chars@[j] == start@[j],
        decreases start.len() - i,
    {
        if chars[i] != start[i] {
            assert(s@.subrange(0, prefix@.len() as int)[i as int] == s@[i as int]);
            return None;
        }
        i += 1;
    }
    assert(s@.subrange(0, prefix@.len() as int) =~= prefix@);
    assert(s@.skip(i as int) =~= s@.subrange(i as int, s@.len() as int));
    Some(from_chars(&chars, i, chars.len()))
}

// --- lists of names --------------------------------------------------------------

/// The index of the first `name` in a list, or the length where there is none.
pub open spec fn place(list: Seq<Seq<char>>, name: Seq<char>) -> nat
    decreases list.len(),
{
    if list.len() == 0 || list[0] == name {
        0
    } else {
        1 + place(list.drop_first(), name)
    }
}

/// The list with `name` at its end, unless it holds it already.
pub open spec fn with_name(list: Seq<Seq<char>>, name: Seq<char>) -> Seq<Seq<char>> {
    if place(list, name) < list.len() {
        list
    } else {
        list.push(name)
    }
}

/// The list without the first `name`.
pub open spec fn without_name(list: Seq<Seq<char>>, name: Seq<char>) -> Seq<Seq<char>> {
    if place(list, name) < list.len() {
        list.remove(place(list, name) as int)
    } else {
        list
    }
}

pub proof fn lemma_place(list: Seq<Seq<char>>, name: Seq<char>)
    ensures
        place(list, name) <= list.len(),
        place(list, name) < list.len() ==> list[place(list, name) as int] == name,
        forall|i: int| 0 <= i < place(list, name) ==> list[i] != name,
        place(list, name) < list.len() <==> list.contains(name),
    decreases list.len(),
{
    if list.len() > 0 && list[0] != name {
        let rest = list.drop_first();
        lemma_place(rest, name);
        let k = place(rest, name);
        assert forall|i: int| 0 <= i < k + 1 implies list[i] != name by {
            if i > 0 {
                assert(list[i] == rest[i - 1]);
            }
        }
        if k < rest.len() {
            assert(list[k as int + 1] == name);
        }
        if list.contains(name) {
            let i = choose|i: int| 0 <= i < list.len() && list[i] == name;
            assert(rest[i - 1] == name);
        }
    }
}

/// The index of the first `name` in a list, or the length where there is none.
pub fn find_name(list: &Vec<String>, name: &str) -> (k: usize)
    ensures
        k == place(views(list@), name@),
        k <= list.len(),
{
    let ghost all = views(list@);
    let mut k: usize = 0;
    while k < list.len() && !str_eq(list[k].as_str(), name)
        invariant
            k <= list.len(),
            all == views(list@),
            forall|i: int| 0 <= i < k ==> all[i] != name@,
        decreases list.len() - k,
    {
        k += 1;
    }
    proof {
        lemma_place(all, name@);
        let p = place(all, name@) as int;
        if p < k {
            assert(all[p] != name@);
        } else if k < p {
            assert(all[k as int] != name@);
        }
    }
    k
}

/// Add `name` to a list, unless the list holds it already.
pub fn add_name(list: &mut Vec<String>, name: &str)
    ensures
        views(final(list)@) == with_name(views(old(list)@), name@),
{
    let k = find_name(list, name);
    if k == list.len() {
        list.push(name.to_string());
        assert(views(list@) =~= views(old(list)@).push(name@));
    }
}

/// Remove the first `name` from a list.
pub fn remove_name(list: &mut Vec<String>, name: &str)
    ensures
        views(final(list)@) == without_name(views(old(list)@), name@),
{
    let k = find_name(list, name);
    if k < list.len() {
        list.remove(k);
        assert(views(list@) =~= views(old(list)@).remove(k as int));
    }
}

// --- trimming -----------------------------------------------------------------

/// A set of characters to trim.
#[derive(Clone, Copy)]
pub enum Trim {
    /// The space character.
    Space,
    /// ASCII white space: space, tab, line feed, form feed and carriage return.
    Ascii,
    /// Every character with the Unicode `White_Space` property.
    White,
}

/// Whether `c` has the Unicode `White_Space` property.
pub open spec fn is_white(c: char) -> bool {
    ||| '\u{9}' <= c <= '\u{d}'
    ||| c == '\u{20}'
    ||| c == '\u{85}'
    ||| c == '\u{a0}'
    ||| c == '\u{1680}'
    ||| '\u{2000}' <= c <= '\u{200a}'
    ||| c == '\u{2028}'
    ||| c == '\u{2029}'
    ||| c == '\u{202f}'
    ||| c == '\u{205f}'
    ||| c == '\u{3000}'
}

impl Trim {
    /// Whether `c` belongs to the set.
    pub open spec fn has(self, c: char) -> bool {
        match self {
            Trim::Space => c == ' ',
            Trim::Ascii => c == ' ' || c == '\t' || c == '\n' || c == '\u{c}' || c == '\r',
            Trim::White => is_white(c),
        }
    }

    /// Whether `c` belongs to the set.
    pub fn contains(self, c: char) -> (member: bool)
        ensures
            member == self.has(c),
    {
        match self {
            Trim::Space => c == ' ',
            Trim::Ascii => c == ' ' || c == '\t' || c == '\n' || c == '\u{c}' || c == '\r',
            Trim::White => ('\u{9}' <= c && c <= '\u{d}') || c == '\u{20}' || c == '\u{85}' || c
                == '\u{a0}' || c == '\u{1680}' || ('\u{2000}' <= c && c <= '\u{200a}') || c
                == '\u{2028}' || c == '\u{2029}' || c == '\u{202f}' || c == '\u{205f}' || c
                == '\u{3000}',
        }
    }
}

/// `s` without the longest prefix made of characters of `set`.
pub open spec fn trim_start(s: Seq<char>, set: Trim) -> Seq<char>
    decreases s.len(),
{
    if s.len() > 0 && set.has(s[0]) {
        trim_start(s.drop_first(), set)
    } else {
        s
    }
}

/// `s` without the longest suffix made of characters of `set`.
pub open spec fn trim_end(s: Seq<char>, set: Trim) -> Seq<char>
    decreases s.len(),
{
    if s.len() > 0 && set.has(s.last()) {
        trim_end(s.drop_last(), set)
    } else {
        s
    }
}

/// `s` without characters of `set` at either end.
pub open spec fn trim(s: Seq<char>, set: Trim) -> Seq<char> {
    trim_end(trim_start(s, set), set)
}

/// The index at which `trim_start` cuts.
fn start_index(chars: &Vec<char>, set: Trim) -> (from: usize)
    ensures
        from <= chars@.len(),
        trim_start(chars@, set) == chars@.skip(from as int),
{
    let mut from: usize = 0;
    assert(chars@.skip(0) =~= chars@);
    while from < chars.len() && set.contains(chars[from])
        invariant
            from <= chars@.len(),
            trim_start(chars@, set) == trim_start(chars@.skip(from as int), set),
        decreases chars.len() - from,
    {
        assert(chars@.skip(from as int).drop_first() =~= chars@.skip(from + 1));
        from += 1;
    }
    from
}

/// Drop leading characters of `set`.
pub fn trimmed_start(s: &str, set: Trim) -> (t: String)
    ensures
        t@ == trim_start(s@, set),
{
    let chars = to_chars(s);
    let from = start_index(&chars, set);
    assert(chars@.subrange(from as int, chars@.len() as int) =~= chars@.skip(from as int));
    from_chars(&chars, from, chars.len())
}

/// Drop leading and trailing characters of `set`.
pub fn trimmed(s: &str, set: Trim) -> (t: String)
    ensures
        t@ == trim(s@, set),
{
    let chars = to_chars(s);
    let from = start_index(&chars, set);
    let mut to: usize = chars.len();
    let ghost kept = chars@.skip(from as int);
    assert(chars@.subrange(from as int, to as int) =~= kept);
    while from < to && set.contains(chars[to - 1])
        invariant
            from <= to <= chars@.len(),
            trim_end(kept, set) == trim_end(chars@.subrange(from as int, to as int), set),
        decreases to - from,
    {
        assert(chars@.subrange(from as int, to as int).drop_last() =~= chars@.subrange(
            from as int,
            to - 1,
        ));
        to -= 1;
    }
    from_chars(&chars, from, to)
}

// --- letter case ----------------------------------------------------------------

/// The ASCII upper-case form of `c`; other characters stay.
pub open spec fn upper_char(c: char) -> char {
    if 'a' <= c <= 'z' {
        (c as u32 - 32) as char
    } else {
        c
    }
}

/// The text with its ASCII letters in upper case.
pub open spec fn upper(s: Seq<char>) -> Seq<char> {
    s.map_values(|c: char| upper_char(c))
}

fn to_upper_char(c: char) -> (u: char)
    ensures
        u == upper_char(c),
{
    if 'a' <= c && c <= 'z' {
        let low: u8 = c as u8;
        let up: u8 = low - 32;
        up as char
    } else {
        c
    }
}

/// Put ASCII letters in upper case.
pub fn to_upper(s: &str) -> (u: String)
    ensures
        u@ == upper(s@),
{
    let chars = to_chars(s);
    let mut u = String::new();
    let mut i: usize = 0;
    while i < chars.len()
        invariant
            i <= chars.len(),
            chars@ == s@,
            u@ == upper(s@.take(i as int)),
        decreases chars.len() - i,
    {
        u.push(to_upper_char(chars[i]));
        assert(upper(s@.take(i + 1)) =~= upper(s@.take(i as int)).push(upper_char(s@[i as int])));
        i += 1;
    }
    assert(s@.take(i as int) =~= s@);
    u
}

} // verus!
