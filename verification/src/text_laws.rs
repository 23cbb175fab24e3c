//! What the text helpers and the numbers amount to.
use vstd::prelude::*;

use crate::frame;
use crate::number;
use crate::status;
use crate::text;
use crate::text::Trim;
use crate::validate;
use crate::wire;
use crate::wire::LineTakeView;

verus! {

broadcast use vstd::string::group_string_axioms;

// --- order ---------------------------------------------------------------------------------

/// Whether two texts agree up to an index where the first ends, or has the smaller
/// character.
pub open spec fn parts_at(a: Seq<char>, b: Seq<char>, k: int) -> bool {
    &&& 0 <= k <= a.len()
    &&& k < b.len()
    &&& forall|i: int| 0 <= i < k ==> a[i] == b[i]
    &&& k == a.len() || a[k] < b[k]
}

/// One text comes before another exactly where it is a proper beginning of it, or has
/// the smaller character where they first differ.
pub proof fn order_is_lexicographic(a: Seq<char>, b: Seq<char>)
    ensures
        text::text_lt(a, b) <==> exists|k: int| parts_at(a, b, k),
    decreases a.len(),
{
    if b.len() > 0 {
        if a.len() == 0 {
            assert(parts_at(a, b, 0));
        } else if a[0] != b[0] {
            if a[0] < b[0] {
                assert(parts_at(a, b, 0));
            }
            if exists|k: int| parts_at(a, b, k) {
                let k = choose|k: int| parts_at(a, b, k);
                assert(k == 0);
            }
        } else {
            let x = a.drop_first();
            let y = b.drop_first();
            order_is_lexicographic(x, y);
            if exists|k: int| parts_at(x, y, k) {
                let k = choose|k: int| parts_at(x, y, k);
                assert forall|i: int| 0 <= i < k + 1 implies a[i] == b[i] by {
                    if i > 0 {
                        assert(a[i] == x[i - 1]);
                        assert(b[i] == y[i - 1]);
                    }
                }
                assert(parts_at(a, b, k + 1));
            }
            if exists|k: int| parts_at(a, b, k) {
                let k = choose|k: int| parts_at(a, b, k);
                assert(k > 0);
                assert forall|i: int| 0 <= i < k - 1 implies x[i] == y[i] by {
                    assert(a[i + 1] == b[i + 1]);
                }
                assert(parts_at(x, y, k - 1));
            }
        }
    }
}

// --- splitting -----------------------------------------------------------------------------

/// Splitting at a separator gives the pieces of what stands before it, then those of
/// what stands behind it; a text without the separator is one piece.
pub proof fn split_parts_at_each_separator(a: Seq<char>, sep: char, b: Seq<char>)
    ensures
        text::split(a + seq![sep] + b, sep) == text::split(a, sep) + text::split(b, sep),
        !a.contains(sep) ==> text::split(a, sep) == seq![a],
    decreases a.len(),
{
    text::lemma_find(a, sep);
    if a.contains(sep) {
        let k = text::find(a, sep) as int;
        let head = a.take(k);
        let tail = a.skip(k + 1);
        assert(!head.contains(sep));
        split_parts_at_each_separator(tail, sep, b);
        crate::protocol_laws::lemma_split_first(head, sep, tail + seq![sep] + b);
        crate::protocol_laws::lemma_split_first(head, sep, tail);
        assert(a =~= head + seq![sep] + tail);
        assert(a + seq![sep] + b =~= head + seq![sep] + (tail + seq![sep] + b));
        assert(text::split(a + seq![sep] + b, sep) =~= text::split(a, sep) + text::split(b, sep));
    } else {
        crate::protocol_laws::lemma_split_first(a, sep, b);
        crate::protocol_laws::lemma_split_none(a, sep);
    }
}

/// The words of a text are those before a space, then those behind it; a text without
/// a space is one word, unless it is empty.
pub proof fn words_part_at_each_space(a: Seq<char>, b: Seq<char>)
    ensures
        text::words(a + seq![' '] + b) == text::words(a) + text::words(b),
        !a.contains(' ') && a.len() > 0 ==> text::words(a) == seq![a],
        a.len() == 0 ==> text::words(a).len() == 0,
{
    let keep = |w: Seq<char>| w.len() > 0;
    split_parts_at_each_separator(a, ' ', b);
    Seq::filter_distributes_over_add(text::split(a, ' '), text::split(b, ' '), keep);
    if !a.contains(' ') {
        reveal(Seq::filter);
        let one = seq![a];
        assert(one.drop_last() =~= Seq::<Seq<char>>::empty());
        assert(one.drop_last().filter(keep) =~= Seq::<Seq<char>>::empty());
        if a.len() > 0 {
            assert(one.filter(keep) =~= one);
        } else {
            assert(one.filter(keep) =~= Seq::<Seq<char>>::empty());
        }
    }
}

// --- trimming ------------------------------------------------------------------------------

/// Whether a text consists of characters of a set.
pub open spec fn made_of(s: Seq<char>, set: Trim) -> bool {
    forall|i: int| 0 <= i < s.len() ==> set.has(#[trigger] s[i])
}

/// Characters of the set in front make no difference to trimming, nor do any behind;
/// a text that neither begins nor ends with one stays as it is.
pub proof fn trimming_takes_the_ends(pre: Seq<char>, s: Seq<char>, post: Seq<char>, set: Trim)
    requires
        made_of(pre, set),
        made_of(post, set),
    ensures
        text::trim(pre + s + post, set) == text::trim(s, set),
        text::trim_start(pre + s, set) == text::trim_start(s, set),
        s.len() > 0 && !set.has(s[0]) ==> text::trim_start(s, set) == s,
        s.len() > 0 && !set.has(s[0]) && !set.has(s.last()) ==> text::trim(s, set) == s,
        made_of(s, set) ==> text::trim(s, set).len() == 0,
{
    lemma_trim_front(pre, s, set);
    lemma_trim_front(pre, s + post, set);
    assert(pre + s + post =~= pre + (s + post));
    lemma_trim_back(s, post, set);
    if made_of(s, set) {
        lemma_trim_front(s, Seq::empty(), set);
        assert(s + Seq::<char>::empty() =~= s);
    }
}

proof fn lemma_trim_front(pre: Seq<char>, s: Seq<char>, set: Trim)
    requires
        made_of(pre, set),
    ensures
        text::trim_start(pre + s, set) == text::trim_start(s, set),
    decreases pre.len(),
{
    if pre.len() == 0 {
        assert(pre + s =~= s);
    } else {
        assert(set.has(pre[0]));
        let less = pre.drop_first();
        assert forall|i: int| 0 <= i < less.len() implies set.has(#[trigger] less[i]) by {
            assert(less[i] == pre[i + 1]);
        }
        assert((pre + s).drop_first() =~= less + s);
        lemma_trim_front(less, s, set);
    }
}

proof fn lemma_end_cut(s: Seq<char>, post: Seq<char>, set: Trim)
    requires
        made_of(post, set),
    ensures
        text::trim_end(s + post, set) == text::trim_end(s, set),
    decreases post.len(),
{
    if post.len() == 0 {
        assert(s + post =~= s);
    } else {
        assert(set.has(post.last()));
        let less = post.drop_last();
        assert((s + post).drop_last() =~= s + less);
        lemma_end_cut(s, less, set);
    }
}

proof fn lemma_trim_back(s: Seq<char>, post: Seq<char>, set: Trim)
    requires
        made_of(post, set),
    ensures
        text::trim(s + post, set) == text::trim(s, set),
    decreases s.len(),
{
    if s.len() == 0 {
        assert(s + post =~= post);
        let none = Seq::<char>::empty();
        lemma_trim_front(post, none, set);
        assert(post + none =~= post);
        assert(s =~= none);
    } else if set.has(s[0]) {
        assert((s + post).drop_first() =~= s.drop_first() + post);
        lemma_trim_back(s.drop_first(), post, set);
    } else {
        assert((s + post)[0] == s[0]);
        lemma_end_cut(s, post, set);
    }
}

/// What is trimmed: the space alone, the five ASCII white space characters, or those
/// that Unicode calls white space.
pub proof fn trimmed_characters(c: char)
    ensures
        Trim::Space.has(c) <==> c as u32 == 32,
        Trim::Ascii.has(c) <==> c as u32 == 9 || c as u32 == 10 || c as u32 == 12 || c as u32 == 13
            || c as u32 == 32,
        Trim::White.has(c) <==> 9 <= c as u32 <= 13 || c as u32 == 32 || c as u32 == 0x85 || c as u32
            == 0xa0 || c as u32 == 0x1680 || 0x2000 <= c as u32 <= 0x200a || c as u32 == 0x2028
            || c as u32 == 0x2029 || c as u32 == 0x202f || c as u32 == 0x205f || c as u32 == 0x3000,
{
}

// --- letters, types and keys ------------------------------------------------------------------

/// In upper case each of the 26 small letters is its capital, and every other
/// character is itself.
pub proof fn upper_case_is_ascii(s: Seq<char>)
    ensures
        text::upper(s).len() == s.len(),
        forall|i: int|
            0 <= i < s.len() ==> (#[trigger] text::upper(s)[i]) as u32 == if 97 <= s[i] as u32
                <= 122 {
                (s[i] as u32 - 32) as u32
            } else {
                s[i] as u32
            },
        text::upper(text::upper(s)) == text::upper(s),
{
    let u = text::upper(s);
    assert forall|i: int| 0 <= i < s.len() implies text::upper(u)[i] == #[trigger] u[i] by {
        assert(u[i] == text::upper_char(s[i]));
    }
    assert(text::upper(u) =~= u);
}

/// A type is one or more letters, digits, `-`, `.`, `_` and `/`; a key is one or more
/// visible characters.
pub proof fn names_by_their_characters(s: Seq<char>, c: char)
    ensures
        validate::tchar(c) <==> 97 <= c as u32 <= 122 || 65 <= c as u32 <= 90 || 45 <= c as u32
            <= 57 || c as u32 == 95,
        validate::vchar(c) <==> 33 <= c as u32 <= 126,
        validate::valid_type(s.push(c)) <==> validate::tchar(c) && (s.len() == 0
            || validate::valid_type(s)),
        validate::valid_key(s.push(c)) <==> validate::vchar(c) && (s.len() == 0
            || validate::valid_key(s)),
        s.len() == 0 ==> !validate::valid_type(s) && !validate::valid_key(s),
        validate::valid_type(s) ==> validate::valid_key(s),
{
    let t = s.push(c);
    assert(t[s.len() as int] == c);
    assert(forall|i: int| 0 <= i < s.len() ==> t[i] == #[trigger] s[i]);
    if validate::valid_type(t) {
        assert(validate::tchar(t[s.len() as int]));
    }
    if validate::valid_key(t) {
        assert(validate::vchar(t[s.len() as int]));
    }
}

// --- numbers -------------------------------------------------------------------------------

/// The value of a digit, up to `f`.
pub open spec fn digit_value(c: char) -> int {
    if '0' <= c <= '9' {
        c as int - 48
    } else if 'a' <= c <= 'f' {
        c as int - 87
    } else {
        -1
    }
}

/// The number that a text denotes in a base.
pub open spec fn denotes(s: Seq<char>, base: int) -> int
    decreases s.len(),
{
    if s.len() == 0 {
        0
    } else {
        denotes(s.drop_last(), base) * base + digit_value(s.last())
    }
}

/// Whether a text has digits of a base only, at least one, and none in vain.
pub open spec fn proper_digits(s: Seq<char>, base: int) -> bool {
    &&& s.len() > 0
    &&& forall|i: int| 0 <= i < s.len() ==> 0 <= digit_value(#[trigger] s[i]) < base
    &&& s.len() > 1 ==> s[0] != '0'
}

proof fn lemma_digits(n: nat, base: nat)
    requires
        base == 10 || base == 16,
    ensures
        proper_digits(number::digits(n, base), base as int),
        denotes(number::digits(n, base), base as int) == n,
        n > 0 ==> number::digits(n, base)[0] != '0',
    decreases n,
{
    let s = number::digits(n, base);
    if n < base {
        assert(s.drop_last() =~= Seq::<char>::empty());
        assert(s.last() == number::digit_char(n));
        assert(s[0] == number::digit_char(n));
        assert(denotes(s.drop_last(), base as int) == 0);
        assert(denotes(s, base as int) == n);
    } else {
        let q = n / base;
        let m = n % base;
        assert(q < n && q > 0 && n == q * base + m && m < base);
        lemma_digits(q, base);
        let head = number::digits(q, base);
        assert(s.drop_last() =~= head);
        assert(s.last() == number::digit_char(m));
        assert forall|i: int| 0 <= i < s.len() implies 0 <= digit_value(#[trigger] s[i]) < base by {
            if i < head.len() {
                assert(s[i] == head[i]);
            }
        }
        assert(s[0] == head[0]);
        assert(denotes(s, base as int) == q * base + m);
    }
}

/// A number in decimal has decimal digits only and no leading zero, and denotes the
/// number; in hexadecimal likewise, with the letters in lower case.
pub proof fn numbers_are_written_out(n: nat)
    ensures
        proper_digits(number::decimal(n), 10),
        denotes(number::decimal(n), 10) == n,
        proper_digits(number::hex(n), 16),
        denotes(number::hex(n), 16) == n,
{
    lemma_digits(n, 10);
    lemma_digits(n, 16);
}

/// Different numbers are written differently.
pub proof fn numbers_are_told_apart(m: nat, n: nat)
    requires
        m != n,
    ensures
        number::decimal(m) != number::decimal(n),
        number::hex(m) != number::hex(n),
{
    lemma_digits(m, 10);
    lemma_digits(n, 10);
    lemma_digits(m, 16);
    lemma_digits(n, 16);
}

/// A text is read as a number exactly where it has digits only, at least one, and
/// denotes a number within the limit; that is then the number.
pub proof fn numbers_are_read_by_their_digits(s: Seq<char>, max: nat)
    ensures
        number::parse_digits(s, max) is Some <==> s.len() > 0 && (forall|i: int|
            0 <= i < s.len() ==> '0' <= #[trigger] s[i] <= '9') && denotes(s, 10) <= max,
        number::parse_digits(s, max) is Some ==> number::parse_digits(s, max)->0 == denotes(s, 10),
{
    if forall|i: int| 0 <= i < s.len() ==> '0' <= #[trigger] s[i] <= '9' {
        lemma_value_denotes(s);
        assert(forall|i: int| 0 <= i < s.len() ==> number::is_digit(#[trigger] s[i]));
    } else {
        let i = choose|i: int| 0 <= i < s.len() && !('0' <= #[trigger] s[i] <= '9');
        assert(!number::is_digit(s[i]));
    }
}

proof fn lemma_value_denotes(s: Seq<char>)
    requires
        forall|i: int| 0 <= i < s.len() ==> '0' <= #[trigger] s[i] <= '9',
    ensures
        number::value(s) == denotes(s, 10),
    decreases s.len(),
{
    if s.len() > 0 {
        let head = s.drop_last();
        assert forall|i: int| 0 <= i < head.len() implies '0' <= #[trigger] head[i] <= '9' by {
            assert(head[i] == s[i]);
        }
        lemma_value_denotes(head);
        assert('0' <= s[s.len() - 1] <= '9');
    }
}

// --- lines and blocks --------------------------------------------------------------------

/// On the wire a body line that starts with a dot has one more in front, and any other
/// is itself; of a received line that starts with two dots the first is taken off,
/// and any other is itself.
pub proof fn dots_are_doubled(line: Seq<char>)
    ensures
        line.len() > 0 && line[0] == '.' ==> frame::stuffed(line) == "."@ + line,
        line.len() == 0 || line[0] != '.' ==> frame::stuffed(line) == line,
        frame::unstuffed(".."@ + line) == "."@ + line,
        !".."@.is_prefix_of(line) ==> frame::unstuffed(line) == line,
{
    reveal_strlit(".");
    reveal_strlit("..");
    assert("."@ =~= seq!['.']);
    assert((".."@ + line).drop_first() =~= "."@ + line);
    if line.len() > 1 && line[0] == '.' && line[1] == '.' {
        assert(line.subrange(0, 2) =~= ".."@);
        assert(".."@.is_prefix_of(line));
    }
}

/// A block is each line in its wire form with CRLF, in order, then a line with a
/// single dot.
pub proof fn block_is_lines_and_a_dot(lines: Seq<Seq<char>>, line: Seq<char>)
    ensures
        frame::block(Seq::empty()) == ".\r\n"@,
        frame::block(seq![line] + lines) == frame::stuffed(line) + "\r\n"@ + frame::block(lines),
{
    reveal_strlit(".");
    reveal_strlit("\r\n");
    reveal_strlit(".\r\n");
    assert(frame::block(Seq::empty()) =~= ".\r\n"@);
    let more = seq![line] + lines;
    frame::lemma_stuffed_lines(more);
    assert(more.drop_first() =~= lines);
    assert(frame::block(more) =~= frame::stuffed(line) + "\r\n"@ + frame::block(lines));
}

/// A line is taken off a buffer once its line feed has arrived, without that and
/// without a carriage return in front of it; a line that is longer than the limit is
/// told so as soon as that is certain, and the buffer then keeps it only while its
/// end is missing.
pub proof fn lines_are_taken_whole(line: Seq<u8>, rest: Seq<u8>, max: nat)
    requires
        !line.contains(10u8),
    ensures
        ({
            let bare = if line.len() > 0 && line.last() == 13u8 {
                line.drop_last()
            } else {
                line
            };
            let buf = line + seq![10u8] + rest;
            &&& bare.len() <= max ==> wire::taken(buf, max) == (LineTakeView::Line(bare), rest)
            &&& bare.len() > max ==> wire::taken(buf, max) == (LineTakeView::TooLong, rest)
            &&& bare.len() <= max ==> wire::taken(line, max) == (LineTakeView::Need, line)
            &&& bare.len() > max ==> wire::taken(line, max) == (LineTakeView::TooLong, line)
        }),
{
    let buf = line + seq![10u8] + rest;
    let k = line.len() as int;
    assert forall|i: int| 0 <= i < k implies buf[i] != 10u8 by {
        assert(buf[i] == line[i]);
        assert(line.contains(line[i]));
    }
    assert forall|i: int| 0 <= i < k implies line[i] != 10u8 by {
        assert(line.contains(line[i]));
    }
    assert(buf[k] == 10u8);
    wire::lemma_find_lf_is(buf, k);
    wire::lemma_find_lf_is(line, k);
    assert(buf.take(k) =~= line);
    assert(buf.skip(k + 1) =~= rest);
}

// --- codes ---------------------------------------------------------------------------------

/// The codes of the protocol, and their classes by the first of three digits.
pub proof fn codes_of_the_protocol(code: status::Code)
    ensures
        status::MSG == 101 && status::DROP == 102 && status::NOTE == 190,
        status::SERVICE_READY == 200 && status::REGISTERED == 210 && status::SUBSCRIBED == 211,
        status::UNSUBSCRIBED == 212 && status::TYPE_LIST == 215 && status::CLOSING == 221,
        status::INFO_FOLLOWS == 231 && status::ACCEPTED == 250 && status::START_BODY == 354,
        status::NOT_AVAILABLE == 400 && status::UNKNOWN_TYPE == 430,
        status::ALREADY_REGISTERED == 433 && status::AUTH_REQUIRED == 440,
        status::KEY_MISMATCH == 441 && status::TOO_LARGE == 452,
        status::SYNTAX == 500 && status::SYNTAX_PARAMS == 501 && status::NOT_IMPLEMENTED == 502,
        status::BAD_SEQUENCE == 503 && status::INVALID_TYPE == 521,
        status::class_of(code) == status::Class::Async <==> code / 100 == 1,
        status::class_of(code) == status::Class::Positive <==> code / 100 == 2,
        status::class_of(code) == status::Class::Intermediate <==> code / 100 == 3,
        status::class_of(code) == status::Class::Transient <==> code / 100 == 4,
        status::class_of(code) == status::Class::Permanent <==> code / 100 == 5,
        status::class_of(code) == status::Class::Other <==> code / 100 == 0 || code / 100 > 5,
{
}

/// A name is added to a list once, at its end, and the others keep their places; one
/// that is taken out leaves the others in their order.
pub proof fn names_are_listed_once(list: Seq<Seq<char>>, name: Seq<char>)
    ensures
        list.contains(name) ==> text::with_name(list, name) == list,
        !list.contains(name) ==> text::with_name(list, name) == list + seq![name],
        !list.contains(name) ==> text::without_name(list, name) == list,
        list.contains(name) ==> exists|k: int|
            0 <= k < list.len() && list[k] == name && #[trigger] list.take(k) + list.skip(k + 1)
                == text::without_name(list, name) && !list.take(k).contains(name),
        list.no_duplicates() ==> text::with_name(list, name).no_duplicates(),
{
    text::lemma_place(list, name);
    assert(list.push(name) =~= list + seq![name]);
    if list.contains(name) {
        let k = text::place(list, name) as int;
        assert(list.take(k) + list.skip(k + 1) =~= text::without_name(list, name));
    }
}

} // verus!
