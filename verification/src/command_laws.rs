//! How every command line is understood.
use vstd::prelude::*;

use crate::command;
use crate::command::CommandView;
use crate::command::ParseErrorView;
use crate::protocol_laws;
use crate::status::Code;
use crate::text;
use crate::text::Trim;
use crate::text_laws;
use crate::validate;

verus! {

broadcast use vstd::string::group_string_axioms;

/// Whether a text is one or more characters, none of them white space.
pub open spec fn solid(s: Seq<char>) -> bool {
    s.len() > 0 && forall|i: int| 0 <= i < s.len() ==> !text::is_white(#[trigger] s[i])
}

/// Whether a text neither begins nor ends with white space, and is not empty.
pub open spec fn snug(s: Seq<char>) -> bool {
    s.len() > 0 && !text::is_white(s[0]) && !text::is_white(s.last())
}

/// Whether a line is refused with a code and a reason.
pub open spec fn refused(line: Seq<char>, code: Code, reason: Seq<char>) -> bool {
    command::parsed(line) == Err::<CommandView, ParseErrorView>(ParseErrorView { code, reason })
}

/// White space of ASCII around a line makes no difference, and a line of nothing
/// else is refused.
pub proof fn white_space_around_makes_no_difference(
    pre: Seq<char>,
    line: Seq<char>,
    post: Seq<char>,
)
    requires
        text_laws::made_of(pre, Trim::Ascii),
        text_laws::made_of(post, Trim::Ascii),
    ensures
        command::parsed(pre + line + post) == command::parsed(line),
        refused(pre, 500, "empty command"@),
{
    text_laws::trimming_takes_the_ends(pre, line, post, Trim::Ascii);
    text_laws::trimming_takes_the_ends(pre, pre, post, Trim::Ascii);
}

/// A line is a verb, in whatever case, and what follows it.
proof fn lemma_verb_and_args(verb: Seq<char>, args: Seq<char>)
    requires
        solid(verb),
        snug(args),
    ensures
        command::parsed(verb + " "@ + args) == command::dispatch(text::upper(verb), args),
        command::parsed(verb) == command::dispatch(text::upper(verb), Seq::empty()),
        text::trim(args, Trim::White) == args,
        text::trim(Seq::<char>::empty(), Trim::White).len() == 0,
{
    let none = Seq::<char>::empty();
    protocol_laws::lemma_space();
    let line = verb + " "@ + args;
    assert(line[0] == verb[0]);
    assert(line.last() == args.last());
    assert(!text::is_white(verb[0]));
    assert(!text::is_white(verb[verb.len() - 1]));
    text_laws::trimming_takes_the_ends(none, line, none, Trim::Ascii);
    text_laws::trimming_takes_the_ends(none, verb, none, Trim::Ascii);
    text_laws::trimming_takes_the_ends(none, args, none, Trim::White);
    text_laws::trimming_takes_the_ends(none, args, none, Trim::Space);
    text_laws::trimming_takes_the_ends(none, none, none, Trim::White);
    assert forall|i: int| 0 <= i < verb.len() implies line[i] != ' ' && verb[i] != ' ' by {
        assert(line[i] == verb[i]);
        assert(!text::is_white(verb[i]));
    }
    assert(line[verb.len() as int] == ' ');
    text::lemma_find_is(line, ' ', verb.len() as int);
    text::lemma_find_is(verb, ' ', verb.len() as int);
    assert(line.take(verb.len() as int) =~= verb);
    assert(verb.take(verb.len() as int) =~= verb);
    assert(line.skip(verb.len() as int + 1) =~= args);
}

/// The case of the verb makes no difference, and that of what follows does only to
/// `LIST`.
pub proof fn case_of_the_verb_makes_no_difference(
    verb: Seq<char>,
    other: Seq<char>,
    args: Seq<char>,
)
    requires
        solid(verb),
        solid(other),
        text::upper(verb) == text::upper(other),
        snug(args),
    ensures
        command::parsed(verb + " "@ + args) == command::parsed(other + " "@ + args),
        command::parsed(verb) == command::parsed(other),
{
    lemma_verb_and_args(verb, args);
    lemma_verb_and_args(other, args);
}

/// Another word than the eight verbs, in whatever case and with whatever behind it, is
/// refused.
pub proof fn unknown_verb_is_refused(verb: Seq<char>, args: Seq<char>)
    requires
        solid(verb),
        snug(args),
        text::upper(verb) != "CAPABILITIES"@,
        text::upper(verb) != "HELP"@,
        text::upper(verb) != "QUIT"@,
        text::upper(verb) != "REGISTER"@,
        text::upper(verb) != "PUBLISH"@,
        text::upper(verb) != "SUBSCRIBE"@,
        text::upper(verb) != "UNSUBSCRIBE"@,
        text::upper(verb) != "LIST"@,
    ensures
        refused(verb, 500, "command unrecognized"@),
        refused(verb + " "@ + args, 500, "command unrecognized"@),
{
    lemma_verb_and_args(verb, args);
}

/// `CAPABILITIES`, `HELP` and `QUIT` stand alone.
pub proof fn bare_commands_take_no_arguments(verb: Seq<char>, args: Seq<char>)
    requires
        solid(verb),
        snug(args),
    ensures
        text::upper(verb) == "CAPABILITIES"@ ==> command::parsed(verb) == Ok::<
            CommandView,
            ParseErrorView,
        >(CommandView::Capabilities),
        text::upper(verb) == "HELP"@ ==> command::parsed(verb) == Ok::<CommandView, ParseErrorView>(
            CommandView::Help,
        ),
        text::upper(verb) == "QUIT"@ ==> command::parsed(verb) == Ok::<CommandView, ParseErrorView>(
            CommandView::Quit,
        ),
        text::upper(verb) == "CAPABILITIES"@ || text::upper(verb) == "HELP"@ || text::upper(verb)
            == "QUIT"@ ==> refused(verb + " "@ + args, 501, "command takes no arguments"@),
{
    protocol_laws::lemma_verbs_differ();
    lemma_verb_and_args(verb, args);
}

/// `SUBSCRIBE` and `UNSUBSCRIBE` take one type: without it, with more behind it, and
/// with one that is no token they are refused, each with its own reason.
pub proof fn subscriptions_take_a_type(verb: Seq<char>, args: Seq<char>)
    requires
        solid(verb),
        snug(args),
        text::upper(verb) == "SUBSCRIBE"@ || text::upper(verb) == "UNSUBSCRIBE"@,
    ensures
        ({
            let line = verb + " "@ + args;
            &&& refused(verb, 501, "missing argument"@)
            &&& args.contains(' ') ==> refused(line, 501, "too many arguments"@)
            &&& !args.contains(' ') && !validate::valid_type(args) ==> refused(
                line,
                521,
                "invalid message type name"@,
            )
            &&& validate::valid_type(args) ==> command::parsed(line) == Ok::<
                CommandView,
                ParseErrorView,
            >(
                if text::upper(verb) == "SUBSCRIBE"@ {
                    CommandView::Subscribe { msg_type: args }
                } else {
                    CommandView::Unsubscribe { msg_type: args }
                },
            )
        }),
{
    protocol_laws::lemma_verbs_differ();
    lemma_verb_and_args(verb, args);
    if validate::valid_type(args) {
        protocol_laws::lemma_type_is_word(args);
    }
}

/// `REGISTER` and `PUBLISH` take a type and a key, with any spaces between them: with
/// fewer or more words, with a type that is no token, and with a key that is not
/// visible throughout they are refused, each with its own reason.
pub proof fn claims_take_a_type_and_a_key(verb: Seq<char>, args: Seq<char>)
    requires
        solid(verb),
        snug(args),
        text::upper(verb) == "REGISTER"@ || text::upper(verb) == "PUBLISH"@,
    ensures
        ({
            let line = verb + " "@ + args;
            let words = text::words(args);
            &&& refused(verb, 501, "missing arguments"@)
            &&& words.len() == 1 ==> refused(line, 501, "missing second argument"@)
            &&& words.len() > 2 ==> refused(line, 501, "too many arguments"@)
            &&& words.len() == 2 && !validate::valid_type(words[0]) ==> refused(
                line,
                521,
                "invalid message type name"@,
            )
            &&& words.len() == 2 && validate::valid_type(words[0]) && !validate::valid_key(words[1])
                ==> refused(line, 501, "invalid authorization key"@)
            &&& words.len() == 2 && validate::valid_type(words[0]) && validate::valid_key(words[1])
                ==> command::parsed(line) == Ok::<CommandView, ParseErrorView>(
                if text::upper(verb) == "REGISTER"@ {
                    CommandView::Register { msg_type: words[0], key: words[1] }
                } else {
                    CommandView::Publish { msg_type: words[0], key: words[1] }
                },
            )
            &&& words.len() > 0
        }),
{
    let none = Seq::<char>::empty();
    protocol_laws::lemma_verbs_differ();
    lemma_verb_and_args(verb, args);
    text_laws::words_part_at_each_space(none, none);
    assert(text::trim(none, Trim::White) =~= none);
    lemma_snug_has_words(args);
}

/// A text that is more than white space has a word.
proof fn lemma_snug_has_words(s: Seq<char>)
    requires
        s.len() > 0,
        s[0] != ' ',
    ensures
        text::words(s).len() > 0,
{
    text::lemma_find(s, ' ');
    let k = text::find(s, ' ') as int;
    if k < s.len() {
        let head = s.take(k);
        let tail = s.skip(k + 1);
        assert(!head.contains(' '));
        assert(s =~= head + seq![' '] + tail);
        text_laws::words_part_at_each_space(head, tail);
    } else {
        text_laws::words_part_at_each_space(s, s);
    }
}

/// `LIST` takes `TYPES`, in whatever case: without it, and with anything else, it is
/// refused, each with its own reason.
pub proof fn list_takes_types(verb: Seq<char>, args: Seq<char>)
    requires
        solid(verb),
        snug(args),
        text::upper(verb) == "LIST"@,
    ensures
        refused(verb, 501, "LIST requires a sub-command (TYPES)"@),
        text::upper(args) == "TYPES"@ ==> command::parsed(verb + " "@ + args) == Ok::<
            CommandView,
            ParseErrorView,
        >(CommandView::ListTypes),
        text::upper(args) != "TYPES"@ ==> refused(
            verb + " "@ + args,
            502,
            "only LIST TYPES is supported"@,
        ),
{
    protocol_laws::lemma_verbs_differ();
    lemma_verb_and_args(verb, args);
    reveal_strlit("TYPES");
    assert(text::upper(Seq::<char>::empty()).len() == 0);
}

/// More spaces between a verb and what follows make no difference.
pub proof fn spaces_behind_the_verb_make_no_difference(
    verb: Seq<char>,
    more: Seq<char>,
    args: Seq<char>,
)
    requires
        solid(verb),
        snug(args),
        forall|i: int| 0 <= i < more.len() ==> #[trigger] more[i] == ' ',
    ensures
        command::parsed(verb + " "@ + more + args) == command::parsed(verb + " "@ + args),
{
    let none = Seq::<char>::empty();
    protocol_laws::lemma_space();
    lemma_verb_and_args(verb, args);
    let line = verb + " "@ + more + args;
    assert(line[0] == verb[0]);
    assert(line.last() == args.last());
    assert(!text::is_white(verb[0]));
    text_laws::trimming_takes_the_ends(none, line, none, Trim::Ascii);
    text_laws::trimming_takes_the_ends(more, args, none, Trim::Space);
    assert forall|i: int| 0 <= i < verb.len() implies line[i] != ' ' by {
        assert(line[i] == verb[i]);
        assert(!text::is_white(verb[i]));
    }
    assert(line[verb.len() as int] == ' ');
    text::lemma_find_is(line, ' ', verb.len() as int);
    assert(line.take(verb.len() as int) =~= verb);
    assert(line.skip(verb.len() as int + 1) =~= more + args);
}

} // verus!
