//! Client-protocol command parsing.
//!
//! Command tokens are matched case-insensitively; arguments are
//! case-sensitive. A parsed [`Command`] is always structurally valid: type
//! names and keys have been checked against their grammar.
use vstd::prelude::*;

use crate::number;
use crate::status;
use crate::status::Code;
use crate::text;
use crate::text::Trim;
use crate::validate;

verus! {

broadcast use vstd::string::group_string_axioms;

/// A fully-parsed, structurally-valid client command.
#[derive(Debug, Clone, PartialEq, Eq)]
pub enum Command {
    /// `CAPABILITIES`: list supported capabilities.
    Capabilities,
    /// `HELP`: human-readable help.
    Help,
    /// `REGISTER <type> <key>`: claim ownership of a type.
    Register {
        /// The message type being claimed.
        msg_type: String,
        /// The authorization key bound to the type.
        key: String,
    },
    /// `SUBSCRIBE <type>`: start listening for a type.
    Subscribe {
        /// The message type to listen for.
        msg_type: String,
    },
    /// `UNSUBSCRIBE <type>`: stop listening for a type.
    Unsubscribe {
        /// The message type to stop listening for.
        msg_type: String,
    },
    /// `PUBLISH <type> <key>`: begin a publish (server replies `354`, body follows).
    Publish {
        /// The message type to publish to.
        msg_type: String,
        /// The authorization key that must match the type's owner key.
        key: String,
    },
    /// `LIST TYPES`: enumerate known types.
    ListTypes,
    /// `QUIT`: close the connection.
    Quit,
}

/// The model of a [`Command`].
pub enum CommandView {
    Capabilities,
    Help,
    Register { msg_type: Seq<char>, key: Seq<char> },
    Subscribe { msg_type: Seq<char> },
    Unsubscribe { msg_type: Seq<char> },
    Publish { msg_type: Seq<char>, key: Seq<char> },
    ListTypes,
    Quit,
}

impl View for Command {
    type V = CommandView;

    open spec fn view(&self) -> CommandView {
        match self {
            Command::Capabilities => CommandView::Capabilities,
            Command::Help => CommandView::Help,
            Command::Register { msg_type, key } => CommandView::Register {
                msg_type: msg_type@,
                key: key@,
            },
            Command::Subscribe { msg_type } => CommandView::Subscribe { msg_type: msg_type@ },
            Command::Unsubscribe { msg_type } => CommandView::Unsubscribe {
                msg_type: msg_type@,
            },
            Command::Publish { msg_type, key } => CommandView::Publish {
                msg_type: msg_type@,
                key: key@,
            },
            Command::ListTypes => CommandView::ListTypes,
            Command::Quit => CommandView::Quit,
        }
    }
}

/// Failure to parse a command line, carrying the status code the server should
/// respond with and a human-readable reason.
#[derive(Debug, Clone, PartialEq, Eq)]
pub struct ParseError {
    /// The status code to return (a `5xx`).
    pub code: Code,
    /// Short human-readable reason (goes after the code on the wire).
    pub reason: String,
}

/// The model of a [`ParseError`].
pub struct ParseErrorView {
    pub code: Code,
    pub reason: Seq<char>,
}

impl View for ParseError {
    type V = ParseErrorView;

    open spec fn view(&self) -> ParseErrorView {
        ParseErrorView { code: self.code, reason: self.reason@ }
    }
}

impl ParseError {
    fn new(code: Code, reason: &str) -> (e: Self)
        ensures
            e@ == error(code, reason@),
    {
        ParseError { code, reason: reason.to_string() }
    }

    /// The error as text: the code, a space and the reason.
    pub fn to_text(&self) -> (s: String)
        ensures
            s@ == number::decimal(self.code as nat) + " "@ + self.reason@,
    {
        number::to_decimal(self.code as u64).concat(" ").concat(self.reason.as_str())
    }
}

/// The error with a given code and reason.
pub open spec fn error(code: Code, reason: Seq<char>) -> ParseErrorView {
    ParseErrorView { code, reason }
}

/// The outcome of parsing, by its view.
pub open spec fn outcome<T: View>(r: Result<T, ParseError>) -> Result<T::V, ParseErrorView> {
    match r {
        Ok(v) => Ok(v@),
        Err(e) => Err(e@),
    }
}

/// A command without arguments, given what follows its verb.
pub open spec fn no_args(rest: Seq<char>, cmd: CommandView) -> Result<CommandView, ParseErrorView> {
    if text::trim(rest, Trim::White).len() == 0 {
        Ok(cmd)
    } else {
        Err(error(status::SYNTAX_PARAMS, "command takes no arguments"@))
    }
}

/// The single argument in what follows a verb.
pub open spec fn single_arg(rest: Seq<char>) -> Result<Seq<char>, ParseErrorView> {
    let arg = text::trim(rest, Trim::White);
    if arg.len() == 0 {
        Err(error(status::SYNTAX_PARAMS, "missing argument"@))
    } else if arg.contains(' ') {
        Err(error(status::SYNTAX_PARAMS, "too many arguments"@))
    } else {
        Ok(arg)
    }
}

/// The two arguments in what follows a verb.
pub open spec fn arg_pair(rest: Seq<char>) -> Result<(Seq<char>, Seq<char>), ParseErrorView> {
    let args = text::words(text::trim(rest, Trim::White));
    if args.len() == 0 {
        Err(error(status::SYNTAX_PARAMS, "missing arguments"@))
    } else if args.len() == 1 {
        Err(error(status::SYNTAX_PARAMS, "missing second argument"@))
    } else if args.len() > 2 {
        Err(error(status::SYNTAX_PARAMS, "too many arguments"@))
    } else {
        Ok((args[0], args[1]))
    }
}

/// The error for a type name that is not a token.
pub open spec fn bad_type() -> ParseErrorView {
    error(status::INVALID_TYPE, "invalid message type name"@)
}

/// The error for a key with characters that are not visible ASCII.
pub open spec fn bad_key() -> ParseErrorView {
    error(status::SYNTAX_PARAMS, "invalid authorization key"@)
}

/// The valid type name in what follows a verb.
pub open spec fn type_arg(rest: Seq<char>) -> Result<Seq<char>, ParseErrorView> {
    match single_arg(rest) {
        Err(e) => Err(e),
        Ok(msg_type) => if validate::valid_type(msg_type) {
            Ok(msg_type)
        } else {
            Err(bad_type())
        },
    }
}

/// The valid type name and key in what follows a verb.
pub open spec fn type_and_key(rest: Seq<char>) -> Result<(Seq<char>, Seq<char>), ParseErrorView> {
    match arg_pair(rest) {
        Err(e) => Err(e),
        Ok((msg_type, key)) => if !validate::valid_type(msg_type) {
            Err(bad_type())
        } else if !validate::valid_key(key) {
            Err(bad_key())
        } else {
            Ok((msg_type, key))
        },
    }
}

/// The verb of a trimmed command line, in upper case.
pub open spec fn verb(line: Seq<char>) -> Seq<char> {
    text::upper(line.take(text::find(line, ' ') as int))
}

/// What follows the verb of a trimmed command line, without leading spaces.
pub open spec fn arguments(line: Seq<char>) -> Seq<char> {
    let k = text::find(line, ' ') as int;
    if k < line.len() {
        text::trim_start(line.skip(k + 1), Trim::Space)
    } else {
        Seq::empty()
    }
}

/// The command that a verb and its arguments make.
pub open spec fn dispatch(verb: Seq<char>, rest: Seq<char>) -> Result<CommandView, ParseErrorView> {
    if verb == "CAPABILITIES"@ {
        no_args(rest, CommandView::Capabilities)
    } else if verb == "HELP"@ {
        no_args(rest, CommandView::Help)
    } else if verb == "QUIT"@ {
        no_args(rest, CommandView::Quit)
    } else if verb == "REGISTER"@ {
        match type_and_key(rest) {
            Err(e) => Err(e),
            Ok((msg_type, key)) => Ok(CommandView::Register { msg_type, key }),
        }
    } else if verb == "PUBLISH"@ {
        match type_and_key(rest) {
            Err(e) => Err(e),
            Ok((msg_type, key)) => Ok(CommandView::Publish { msg_type, key }),
        }
    } else if verb == "SUBSCRIBE"@ {
        match type_arg(rest) {
            Err(e) => Err(e),
            Ok(msg_type) => Ok(CommandView::Subscribe { msg_type }),
        }
    } else if verb == "UNSUBSCRIBE"@ {
        match type_arg(rest) {
            Err(e) => Err(e),
            Ok(msg_type) => Ok(CommandView::Unsubscribe { msg_type }),
        }
    } else if verb == "LIST"@ {
        if text::upper(rest) == "TYPES"@ {
            Ok(CommandView::ListTypes)
        } else if rest.len() == 0 {
            Err(error(status::SYNTAX_PARAMS, "LIST requires a sub-command (TYPES)"@))
        } else {
            Err(error(status::NOT_IMPLEMENTED, "only LIST TYPES is supported"@))
        }
    } else {
        Err(error(status::SYNTAX, "command unrecognized"@))
    }
}

/// What a command line (without its terminator) parses to.
pub open spec fn parsed(line: Seq<char>) -> Result<CommandView, ParseErrorView> {
    let line = text::trim(line, Trim::Ascii);
    if line.len() == 0 {
        Err(error(status::SYNTAX, "empty command"@))
    } else {
        dispatch(verb(line), arguments(line))
    }
}

/// Split a non-empty trimmed line into its upper-case verb and what follows.
fn split_verb(line: &str) -> (parts: (String, String))
    ensures
        parts.0@ == verb(line@),
        parts.1@ == arguments(line@),
{
    let chars = text::to_chars(line);
    let mut k: usize = 0;
    while k < chars.len() && chars[k] != ' '
        invariant
            k <= chars.len(),
            chars@ == line@,
            forall|i: int| 0 <= i < k ==> chars@[i] != ' ',
        decreases chars.len() - k,
    {
        k += 1;
    }
    proof {
        text::lemma_find_is(line@, ' ', k as int);
    }
    let word = text::from_chars(&chars, 0, k);
    assert(word@ =~= line@.take(k as int));
    let rest = if k < chars.len() {
        let tail = text::from_chars(&chars, k + 1, chars.len());
        assert(tail@ =~= line@.skip(k + 1));
        text::trimmed_start(tail.as_str(), Trim::Space)
    } else {
        String::new()
    };
    (text::to_upper(word.as_str()), rest)
}

/// Parse a single command line (without its CRLF terminator).
///
/// Leading and trailing ASCII white space is tolerated. Returns [`ParseError`] with the
/// appropriate `5xx` code when the line is not a valid command.
pub fn parse(line: &str) -> (r: Result<Command, ParseError>)
    ensures
        outcome(r) == parsed(line@),
{
    let line = text::trimmed(line, Trim::Ascii);
    if line.as_str().is_empty() {
        return Err(ParseError::new(status::SYNTAX, "empty command"));
    }
    let (word, rest) = split_verb(line.as_str());
    let word = word.as_str();
    let rest = rest.as_str();
    if text::str_eq(word, "CAPABILITIES") {
        expect_no_args(rest, Command::Capabilities)
    } else if text::str_eq(word, "HELP") {
        expect_no_args(rest, Command::Help)
    } else if text::str_eq(word, "QUIT") {
        expect_no_args(rest, Command::Quit)
    } else if text::str_eq(word, "REGISTER") {
        let (msg_type, key) = two_args(rest)?;
        check_type(msg_type.as_str())?;
        check_key(key.as_str())?;
        Ok(Command::Register { msg_type, key })
    } else if text::str_eq(word, "PUBLISH") {
        let (msg_type, key) = two_args(rest)?;
        check_type(msg_type.as_str())?;
        check_key(key.as_str())?;
        Ok(Command::Publish { msg_type, key })
    } else if text::str_eq(word, "SUBSCRIBE") {
        let msg_type = one_arg(rest)?;
        check_type(msg_type.as_str())?;
        Ok(Command::Subscribe { msg_type })
    } else if text::str_eq(word, "UNSUBSCRIBE") {
        let msg_type = one_arg(rest)?;
        check_type(msg_type.as_str())?;
        Ok(Command::Unsubscribe { msg_type })
    } else if text::str_eq(word, "LIST") {
        // Only `LIST TYPES` is defined.
        if text::str_eq(text::to_upper(rest).as_str(), "TYPES") {
            Ok(Command::ListTypes)
        } else if rest.is_empty() {
            Err(ParseError::new(status::SYNTAX_PARAMS, "LIST requires a sub-command (TYPES)"))
        } else {
            Err(ParseError::new(status::NOT_IMPLEMENTED, "only LIST TYPES is supported"))
        }
    } else {
        Err(ParseError::new(status::SYNTAX, "command unrecognized"))
    }
}

fn expect_no_args(rest: &str, cmd: Command) -> (r: Result<Command, ParseError>)
    ensures
        outcome(r) == no_args(rest@, cmd@),
{
    if text::trimmed(rest, Trim::White).as_str().is_empty() {
        Ok(cmd)
    } else {
        Err(ParseError::new(status::SYNTAX_PARAMS, "command takes no arguments"))
    }
}

fn one_arg(rest: &str) -> (r: Result<String, ParseError>)
    ensures
        outcome(r) == single_arg(rest@),
{
    let arg = text::trimmed(rest, Trim::White);
    if arg.as_str().is_empty() {
        return Err(ParseError::new(status::SYNTAX_PARAMS, "missing argument"));
    }
    let chars = text::to_chars(arg.as_str());
    let mut i: usize = 0;
    while i < chars.len()
        invariant
            i <= chars.len(),
            chars@ == arg@,
            arg@ == text::trim(rest@, Trim::White),
            arg@.len() > 0,
            forall|j: int| 0 <= j < i ==> arg@[j] != ' ',
        decreases chars.len() - i,
    {
        if chars[i] == ' ' {
            assert(arg@[i as int] == ' ');
            return Err(ParseError::new(status::SYNTAX_PARAMS, "too many arguments"));
        }
        i += 1;
    }
    Ok(arg)
}

fn two_args(rest: &str) -> (r: Result<(String, String), ParseError>)
    ensures
        match r {
            Ok((a, b)) => arg_pair(rest@) == Ok::<_, ParseErrorView>((a@, b@)),
            Err(e) => arg_pair(rest@) == Err::<(Seq<char>, Seq<char>), _>(e@),
        },
{
    let args = text::split_words(text::trimmed(rest, Trim::White).as_str());
    let ghost all = text::words(text::trim(rest@, Trim::White));
    assert(all.len() == args@.len());
    if args.len() == 0 {
        return Err(ParseError::new(status::SYNTAX_PARAMS, "missing arguments"));
    }
    if args.len() == 1 {
        return Err(ParseError::new(status::SYNTAX_PARAMS, "missing second argument"));
    }
    if args.len() > 2 {
        return Err(ParseError::new(status::SYNTAX_PARAMS, "too many arguments"));
    }
    assert(all[0] == args@[0]@ && all[1] == args@[1]@);
    Ok((args[0].clone(), args[1].clone()))
}

fn check_type(t: &str) -> (r: Result<(), ParseError>)
    ensures
        match r {
            Ok(_) => validate::valid_type(t@),
            Err(e) => !validate::valid_type(t@) && e@ == bad_type(),
        },
{
    if validate::is_valid_type(t) {
        Ok(())
    } else {
        Err(ParseError::new(status::INVALID_TYPE, "invalid message type name"))
    }
}

fn check_key(k: &str) -> (r: Result<(), ParseError>)
    ensures
        match r {
            Ok(_) => validate::valid_key(k@),
            Err(e) => !validate::valid_key(k@) && e@ == bad_key(),
        },
{
    if validate::is_valid_key(k) {
        Ok(())
    } else {
        Err(ParseError::new(status::SYNTAX_PARAMS, "invalid authorization key"))
    }
}

/// A command that was parsed is structurally valid: its type is a token, and its
/// key consists of visible characters.
pub proof fn parsed_command_is_valid(line: Seq<char>)
    ensures
        match parsed(line) {
            Ok(CommandView::Register { msg_type, key }) => validate::valid_type(msg_type)
                && validate::valid_key(key),
            Ok(CommandView::Publish { msg_type, key }) => validate::valid_type(msg_type)
                && validate::valid_key(key),
            Ok(CommandView::Subscribe { msg_type }) => validate::valid_type(msg_type),
            Ok(CommandView::Unsubscribe { msg_type }) => validate::valid_type(msg_type),
            _ => true,
        },
{
}

} // verus!
