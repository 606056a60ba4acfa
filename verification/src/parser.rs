//! Parser for bot commands embedded in free-form text.
//!
//! A configured prefix marks command lines; everything after the first
//! occurrence of the prefix on a line is split into whitespace-separated
//! parts (bare words or `key=value` pairs, truncated at the first `@`
//! mention) and resolved against an ordered chain of command matchers.
//!
//! The whole pipeline is modelled by spec functions over `Seq<char>`:
//! [`spec_tokens`] (lexical split), [`spec_parse_parts`] (parts and their
//! per-line errors), [`spec_resolve`] (command dispatch) and
//! [`spec_parse_commands`] (the per-line outcomes of a text block). The
//! executable functions are proved to return exactly what the model says.

use vstd::prelude::*;
use vstd::string::*;

use crate::text::{
    contains_str, eq_idx, find_eq, find_substr, is_ws_char, lemma_eq_idx_at,
    lemma_tokens_nonws_prefix, spec_find, spec_lines, spec_tokens, spec_tokens_acc, split_lines,
    str_eq, str_views, tokenize,
};

verus! {

/// A commit identifier: an opaque 40-character token.
#[derive(Debug, Clone, PartialEq, Eq)]
pub struct CommitSha(pub String);

impl View for CommitSha {
    type V = Seq<char>;

    open spec fn view(&self) -> Seq<char> {
        self.0@
    }
}

/// A fully parsed bot command.
#[derive(Debug, Clone, PartialEq, Eq)]
pub enum BorsCommand {
    /// Ping the bot.
    Ping,
    /// Start a try build, optionally on an explicit parent commit.
    Try { parent: Option<CommitSha> },
    /// Cancel a running try build.
    TryCancel,
}

/// Model of a [`BorsCommand`], over character sequences.
#[verifier::ext_equal]
pub enum CommandModel {
    Ping,
    Try { parent: Option<Seq<char>> },
    TryCancel,
}

impl View for BorsCommand {
    type V = CommandModel;

    open spec fn view(&self) -> CommandModel {
        match self {
            BorsCommand::Ping => CommandModel::Ping,
            BorsCommand::Try { parent: Option::None } => CommandModel::Try {
                parent: Option::None,
            },
            BorsCommand::Try { parent: Option::Some(sha) } => CommandModel::Try {
                parent: Option::Some(sha@),
            },
            BorsCommand::TryCancel => CommandModel::TryCancel,
        }
    }
}

/// An error for one command line; each variant names exactly what was wrong.
#[derive(Debug, Clone, PartialEq, Eq)]
pub enum CommandParseError {
    /// The prefix was present but no command name followed.
    MissingCommand,
    /// The command name is not one of the recognized commands.
    UnknownCommand(String),
    /// A `key=` argument had an empty value.
    MissingArgValue { arg: String },
    /// An argument is not accepted by the matched command.
    UnknownArg(String),
    /// A key occurred twice on one line.
    DuplicateArg(String),
    /// An argument value failed domain validation.
    ValidationError(String),
}

/// Model of a [`CommandParseError`], over character sequences.
#[verifier::ext_equal]
pub enum ParseErrorModel {
    MissingCommand,
    UnknownCommand(Seq<char>),
    MissingArgValue { arg: Seq<char> },
    UnknownArg(Seq<char>),
    DuplicateArg(Seq<char>),
    ValidationError(Seq<char>),
}

impl View for CommandParseError {
    type V = ParseErrorModel;

    open spec fn view(&self) -> ParseErrorModel {
        match self {
            CommandParseError::MissingCommand => ParseErrorModel::MissingCommand,
            CommandParseError::UnknownCommand(s) => ParseErrorModel::UnknownCommand(s@),
            CommandParseError::MissingArgValue { arg } => ParseErrorModel::MissingArgValue {
                arg: arg@,
            },
            CommandParseError::UnknownArg(s) => ParseErrorModel::UnknownArg(s@),
            CommandParseError::DuplicateArg(s) => ParseErrorModel::DuplicateArg(s@),
            CommandParseError::ValidationError(s) => ParseErrorModel::ValidationError(s@),
        }
    }
}

/// Part of a command line: a bare word like `cancel` or a pair like
/// `parent=<sha>`.
#[derive(Debug, Clone, PartialEq, Eq)]
pub enum CommandPart {
    Bare(String),
    KeyValue { key: String, value: String },
}

/// Model of a [`CommandPart`], over character sequences.
#[verifier::ext_equal]
pub enum PartModel {
    Bare(Seq<char>),
    KeyValue { key: Seq<char>, value: Seq<char> },
}

impl View for CommandPart {
    type V = PartModel;

    open spec fn view(&self) -> PartModel {
        match self {
            CommandPart::Bare(s) => PartModel::Bare(s@),
            CommandPart::KeyValue { key, value } => PartModel::KeyValue {
                key: key@,
                value: value@,
            },
        }
    }
}

/// The view of one per-line outcome.
pub open spec fn outcome_view(r: Result<BorsCommand, CommandParseError>) -> Result<
    CommandModel,
    ParseErrorModel,
> {
    match r {
        Result::Ok(c) => Result::Ok(c@),
        Result::Err(e) => Result::Err(e@),
    }
}

/// The view of a sequence of per-line outcomes.
pub open spec fn outcomes_view(rs: Seq<Result<BorsCommand, CommandParseError>>) -> Seq<
    Result<CommandModel, ParseErrorModel>,
> {
    rs.map_values(|r: Result<BorsCommand, CommandParseError>| outcome_view(r))
}

// ---------------------------------------------------------------------------
// Parts model: tokens to command parts.
// ---------------------------------------------------------------------------

/// Processes the tokens of one line, left to right. `seen` holds the keys
/// already taken, `acc` the parts already produced. A token starting with
/// `'@'` addresses another bot and ends the line; a token with an `'='` is a
/// key/value pair whose value must be non-empty and whose key must be fresh;
/// any other token is a bare part.
pub open spec fn spec_parts_rec(
    toks: Seq<Seq<char>>,
    seen: Seq<Seq<char>>,
    acc: Seq<PartModel>,
) -> Result<Seq<PartModel>, ParseErrorModel>
    decreases toks.len(),
{
    if toks.len() == 0 {
        Result::Ok(acc)
    } else {
        let t = toks[0];
        if t.len() > 0 && t[0] == '@' {
            Result::Ok(acc)
        } else {
            let e = eq_idx(t);
            if e == t.len() {
                spec_parts_rec(toks.drop_first(), seen, acc.push(PartModel::Bare(t)))
            } else {
                let key = t.subrange(0, e);
                let value = t.subrange(e + 1, t.len() as int);
                if value.len() == 0 {
                    Result::Err(ParseErrorModel::MissingArgValue { arg: key })
                } else if seen.contains(key) {
                    Result::Err(ParseErrorModel::DuplicateArg(key))
                } else {
                    spec_parts_rec(
                        toks.drop_first(),
                        seen.push(key),
                        acc.push(PartModel::KeyValue { key, value }),
                    )
                }
            }
        }
    }
}

/// The parts of one line's command substring, or its lexical error.
pub open spec fn spec_parse_parts(s: Seq<char>) -> Result<Seq<PartModel>, ParseErrorModel> {
    spec_parts_rec(spec_tokens(s), Seq::empty(), Seq::empty())
}

// ---------------------------------------------------------------------------
// Resolver model: parts to a command.
// ---------------------------------------------------------------------------

/// What the `ping` matcher makes of a command name: it claims `ping`
/// unconditionally and ignores every remaining part.
pub open spec fn spec_parser_ping(command: Seq<char>, rest: Seq<PartModel>) -> Option<
    Result<CommandModel, ParseErrorModel>,
> {
    if command == "ping"@ {
        Option::Some(Result::Ok(CommandModel::Ping))
    } else {
        Option::None
    }
}

/// What the `try cancel` matcher makes of a command name: it claims `try`
/// only when the first remaining part is the bare word `cancel`.
pub open spec fn spec_parser_try_cancel(command: Seq<char>, rest: Seq<PartModel>) -> Option<
    Result<CommandModel, ParseErrorModel>,
> {
    if command == "try"@ && rest.len() > 0 && rest[0] == PartModel::Bare("cancel"@) {
        Option::Some(Result::Ok(CommandModel::TryCancel))
    } else {
        Option::None
    }
}

/// The validation message produced when a `parent=` value is not a commit
/// identifier.
pub open spec fn spec_try_parent_msg() -> Seq<char> {
    "Try parent has to be a valid commit SHA: "@ + "SHA must have exactly 40 characters"@
}

/// Processes the arguments of a `try` command: a bare word or an unknown key
/// is rejected; each `parent=` value must have exactly 40 characters, and the
/// last one wins.
pub open spec fn spec_try_args(
    rest: Seq<PartModel>,
    parent: Option<Seq<char>>,
) -> Result<CommandModel, ParseErrorModel>
    decreases rest.len(),
{
    if rest.len() == 0 {
        Result::Ok(CommandModel::Try { parent })
    } else {
        match rest[0] {
            PartModel::Bare(k) => Result::Err(ParseErrorModel::UnknownArg(k)),
            PartModel::KeyValue { key, value } => {
                if key == "parent"@ {
                    if value.len() == 40 {
                        spec_try_args(rest.drop_first(), Option::Some(value))
                    } else {
                        Result::Err(ParseErrorModel::ValidationError(spec_try_parent_msg()))
                    }
                } else {
                    Result::Err(ParseErrorModel::UnknownArg(key))
                }
            },
        }
    }
}

/// What the generic `try` matcher makes of a command name: it claims `try`
/// unconditionally and validates every remaining part.
pub open spec fn spec_parser_try(command: Seq<char>, rest: Seq<PartModel>) -> Option<
    Result<CommandModel, ParseErrorModel>,
> {
    if command == "try"@ {
        Option::Some(spec_try_args(rest, Option::None))
    } else {
        Option::None
    }
}

/// Resolves the parts of one line to a command or an error. The first part
/// must be a bare command name; the matchers are consulted in the fixed
/// order ping, try-cancel, try, and the first claim wins.
pub open spec fn spec_resolve(parts: Seq<PartModel>) -> Result<CommandModel, ParseErrorModel> {
    if parts.len() == 0 {
        Result::Err(ParseErrorModel::MissingCommand)
    } else {
        match parts[0] {
            PartModel::KeyValue { key, value } => Result::Err(ParseErrorModel::MissingCommand),
            PartModel::Bare(command) => {
                let rest = parts.drop_first();
                match spec_parser_ping(command, rest) {
                    Option::Some(r) => r,
                    Option::None => match spec_parser_try_cancel(command, rest) {
                        Option::Some(r) => r,
                        Option::None => match spec_parser_try(command, rest) {
                            Option::Some(r) => r,
                            Option::None => Result::Err(
                                ParseErrorModel::UnknownCommand(command),
                            ),
                        },
                    },
                }
            },
        }
    }
}

// ---------------------------------------------------------------------------
// Line scanner model: text to per-line outcomes.
// ---------------------------------------------------------------------------

/// The outcome of one line: nothing when the prefix does not occur in it,
/// else the parse of everything after the prefix's first occurrence.
pub open spec fn spec_line_outcome(line: Seq<char>, prefix: Seq<char>) -> Option<
    Result<CommandModel, ParseErrorModel>,
> {
    let i = spec_find(line, prefix, 0);
    if i < 0 {
        Option::None
    } else {
        let command = line.subrange(i + prefix.len(), line.len() as int);
        Option::Some(
            match spec_parse_parts(command) {
                Result::Ok(parts) => spec_resolve(parts),
                Result::Err(e) => Result::Err(e),
            },
        )
    }
}

/// The outcomes of a sequence of lines, one entry per line that contains the
/// prefix, in order.
pub open spec fn spec_line_outcomes(lines: Seq<Seq<char>>, prefix: Seq<char>) -> Seq<
    Result<CommandModel, ParseErrorModel>,
>
    decreases lines.len(),
{
    if lines.len() == 0 {
        Seq::empty()
    } else {
        let rest = spec_line_outcomes(lines.drop_first(), prefix);
        match spec_line_outcome(lines[0], prefix) {
            Option::None => rest,
            Option::Some(r) => seq![r] + rest,
        }
    }
}

/// The per-line outcomes of a whole text block.
pub open spec fn spec_parse_commands(text: Seq<char>, prefix: Seq<char>) -> Seq<
    Result<CommandModel, ParseErrorModel>,
> {
    spec_line_outcomes(spec_lines(text), prefix)
}

// ---------------------------------------------------------------------------
// Parser laws.
// ---------------------------------------------------------------------------

/// The key of a key/value part; the empty sequence for a bare part.
pub open spec fn part_key(p: PartModel) -> Seq<char> {
    match p {
        PartModel::KeyValue { key, value } => key,
        PartModel::Bare(t) => Seq::empty(),
    }
}

/// Helper for [`lemma_no_prefix_no_outcomes`]: lines without the prefix
/// contribute no outcome.
proof fn lemma_no_prefix_lines(lines: Seq<Seq<char>>, prefix: Seq<char>)
    requires
        forall|i: int| 0 <= i < lines.len() ==> spec_find(#[trigger] lines[i], prefix, 0) == -1,
    ensures
        spec_line_outcomes(lines, prefix).len() == 0,
    decreases lines.len(),
{
    if lines.len() > 0 {
        assert(spec_find(lines[0], prefix, 0) == -1);
        assert(forall|i: int|
            0 <= i < lines.drop_first().len() ==> #[trigger] lines.drop_first()[i] == lines[
                i + 1
            ]);
        lemma_no_prefix_lines(lines.drop_first(), prefix);
    }
}

/// If no line of the text contains the prefix, parsing yields no outcome at
/// all.
pub proof fn lemma_no_prefix_no_outcomes(text: Seq<char>, prefix: Seq<char>)
    requires
        forall|i: int|
            0 <= i < spec_lines(text).len() ==> spec_find(
                #[trigger] spec_lines(text)[i],
                prefix,
                0,
            ) == -1,
    ensures
        spec_parse_commands(text, prefix).len() == 0,
{
    lemma_no_prefix_lines(spec_lines(text), prefix);
}

/// Parsing is a pure function of the text and the prefix: two parses of the
/// same text yield identical outcomes.
pub proof fn lemma_parse_idempotent(
    r1: Seq<Result<CommandModel, ParseErrorModel>>,
    r2: Seq<Result<CommandModel, ParseErrorModel>>,
    text: Seq<char>,
    prefix: Seq<char>,
)
    requires
        r1 == spec_parse_commands(text, prefix),
        r2 == spec_parse_commands(text, prefix),
    ensures
        r1 == r2,
{
}

/// A `try` whose `parent=` value has exactly 40 characters resolves to
/// `Try` carrying that value verbatim.
pub proof fn lemma_try_parent_accepted(value: Seq<char>)
    requires
        value.len() == 40,
    ensures
        spec_resolve(
            seq![
                PartModel::Bare("try"@),
                PartModel::KeyValue { key: "parent"@, value },
            ],
        ) == Result::<CommandModel, ParseErrorModel>::Ok(
            CommandModel::Try { parent: Option::Some(value) },
        ),
{
    reveal_strlit("try");
    reveal_strlit("ping");
    let parts = seq![PartModel::Bare("try"@), PartModel::KeyValue { key: "parent"@, value }];
    assert("try"@.len() == 3);
    assert("ping"@.len() == 4);
    let rest = parts.drop_first();
    assert(rest.len() == 1);
    assert(rest[0] == PartModel::KeyValue { key: "parent"@, value });
    assert(rest.drop_first().len() == 0);
    assert(spec_try_args(rest.drop_first(), Option::Some(value)) == Result::<
        CommandModel,
        ParseErrorModel,
    >::Ok(CommandModel::Try { parent: Option::Some(value) }));
}

/// A `try` whose `parent=` value does not have exactly 40 characters
/// resolves to a validation error, never to a silently accepted command.
pub proof fn lemma_try_parent_rejected(value: Seq<char>)
    requires
        value.len() != 40,
    ensures
        spec_resolve(
            seq![
                PartModel::Bare("try"@),
                PartModel::KeyValue { key: "parent"@, value },
            ],
        ) == Result::<CommandModel, ParseErrorModel>::Err(
            ParseErrorModel::ValidationError(spec_try_parent_msg()),
        ),
{
    reveal_strlit("try");
    reveal_strlit("ping");
    let parts = seq![PartModel::Bare("try"@), PartModel::KeyValue { key: "parent"@, value }];
    assert("try"@.len() == 3);
    assert("ping"@.len() == 4);
    let rest = parts.drop_first();
    assert(rest.len() == 1);
    assert(rest[0] == PartModel::KeyValue { key: "parent"@, value });
}

/// The splitter-and-resolver pipeline on a whole `try parent=` command
/// substring: a white-space-free value of exactly 40 characters is carried
/// into the command verbatim, and any other non-empty white-space-free
/// value draws the validation error.
pub proof fn lemma_try_parent_pipeline(v: Seq<char>)
    requires
        v.len() > 0,
        forall|i: int| 0 <= i < v.len() ==> !is_ws_char(#[trigger] v[i]),
    ensures
        ({
            let outcome = match spec_parse_parts("try"@ + " "@ + "parent="@ + v) {
                Result::Ok(parts) => spec_resolve(parts),
                Result::Err(e) => Result::Err(e),
            };
            outcome == if v.len() == 40 {
                Result::<CommandModel, ParseErrorModel>::Ok(
                    CommandModel::Try { parent: Option::Some(v) },
                )
            } else {
                Result::<CommandModel, ParseErrorModel>::Err(
                    ParseErrorModel::ValidationError(spec_try_parent_msg()),
                )
            }
        }),
{
    reveal_strlit("try");
    reveal_strlit(" ");
    reveal_strlit("parent=");
    reveal_strlit("parent");
    let cmd = "try"@ + " "@ + "parent="@ + v;
    let t2 = "parent="@ + v;
    assert("try"@.len() == 3);
    assert(" "@.len() == 1);
    assert("parent="@.len() == 7);
    assert("parent"@.len() == 6);

    // Tokenization: the command word, then one key/value token.
    assert forall|i: int| 0 <= i < "try"@.len() implies !is_ws_char(#[trigger] "try"@[i]) by {
        if i == 0 {
            assert("try"@[0] == 't');
        } else if i == 1 {
            assert("try"@[1] == 'r');
        } else {
            assert("try"@[2] == 'y');
        }
    }
    assert forall|i: int| 0 <= i < t2.len() implies !is_ws_char(#[trigger] t2[i]) by {
        if i < 7 {
            assert(t2[i] == "parent="@[i]);
            if i == 0 {
                assert("parent="@[0] == 'p');
            } else if i == 1 {
                assert("parent="@[1] == 'a');
            } else if i == 2 {
                assert("parent="@[2] == 'r');
            } else if i == 3 {
                assert("parent="@[3] == 'e');
            } else if i == 4 {
                assert("parent="@[4] == 'n');
            } else if i == 5 {
                assert("parent="@[5] == 't');
            } else {
                assert("parent="@[6] == '=');
            }
        } else {
            assert(t2[i] == v[i - 7]);
        }
    }
    assert(cmd =~= "try"@ + (" "@ + t2));
    lemma_tokens_nonws_prefix("try"@, " "@ + t2, Seq::empty());
    assert(Seq::<char>::empty() + "try"@ =~= "try"@);
    assert((" "@ + t2)[0] == ' ');
    assert((" "@ + t2).drop_first() =~= t2);
    assert(spec_tokens_acc(" "@ + t2, "try"@) == seq!["try"@] + spec_tokens_acc(
        t2,
        Seq::empty(),
    ));
    lemma_tokens_nonws_prefix(t2, Seq::empty(), Seq::empty());
    assert(t2 + Seq::<char>::empty() =~= t2);
    assert(Seq::<char>::empty() + t2 =~= t2);
    assert(spec_tokens_acc(t2, Seq::empty()) == seq![t2]);
    let toks = seq!["try"@, t2];
    assert(spec_tokens(cmd) =~= toks);

    // The first token is bare, the second a fresh `parent` key with value `v`.
    assert forall|k: int| 0 <= k < 3 implies "try"@[k] != '=' by {
        if k == 0 {
            assert("try"@[0] == 't');
        } else if k == 1 {
            assert("try"@[1] == 'r');
        } else {
            assert("try"@[2] == 'y');
        }
    }
    lemma_eq_idx_at("try"@, 3);
    assert forall|k: int| 0 <= k < 6 implies t2[k] != '=' by {
        assert(t2[k] == "parent="@[k]);
    }
    assert(t2[6] == '=');
    lemma_eq_idx_at(t2, 6);
    let key = t2.subrange(0, 6);
    let value = t2.subrange(7, t2.len() as int);
    assert forall|k: int| 0 <= k < 6 implies key[k] == "parent"@[k] by {
        assert(key[k] == "parent="@[k]);
    }
    assert(key =~= "parent"@);
    assert(value =~= v);

    let empty_seen = Seq::<Seq<char>>::empty();
    let acc1 = Seq::<PartModel>::empty().push(PartModel::Bare("try"@));
    assert(toks[0] == "try"@);
    assert("try"@[0] == 't');
    assert(toks.drop_first() =~= seq![t2]);
    assert(spec_parts_rec(toks, empty_seen, Seq::empty()) == spec_parts_rec(
        seq![t2],
        empty_seen,
        acc1,
    ));
    assert(seq![t2][0] == t2);
    assert(t2[0] == 'p');
    assert(!empty_seen.contains(key));
    let acc2 = acc1.push(PartModel::KeyValue { key: "parent"@, value: v });
    assert(seq![t2].drop_first() =~= Seq::<Seq<char>>::empty());
    assert(spec_parts_rec(seq![t2], empty_seen, acc1) == spec_parts_rec(
        Seq::empty(),
        empty_seen.push(key),
        acc2,
    ));
    assert(spec_parse_parts(cmd) == Result::<Seq<PartModel>, ParseErrorModel>::Ok(acc2));
    assert(acc2 =~= seq![
        PartModel::Bare("try"@),
        PartModel::KeyValue { key: "parent"@, value: v },
    ]);

    // Resolution of the two parts.
    if v.len() == 40 {
        lemma_try_parent_accepted(v);
    } else {
        lemma_try_parent_rejected(v);
    }
}

/// `ping` ignores all remaining parts: whatever follows the command name,
/// nothing of it is validated or rejected.
pub proof fn lemma_ping_ignores_args(rest: Seq<PartModel>)
    ensures
        spec_resolve(seq![PartModel::Bare("ping"@)] + rest) == Result::<
            CommandModel,
            ParseErrorModel,
        >::Ok(CommandModel::Ping),
{
    let parts = seq![PartModel::Bare("ping"@)] + rest;
    assert(parts[0] == PartModel::Bare("ping"@));
}

/// A `try` whose first argument is the bare word `cancel` is always a
/// cancellation, whatever follows: the try-cancel matcher is consulted
/// before the generic `try` matcher and its claim wins.
pub proof fn lemma_try_cancel_priority(rest: Seq<PartModel>)
    requires
        rest.len() > 0,
        rest[0] == PartModel::Bare("cancel"@),
    ensures
        spec_resolve(seq![PartModel::Bare("try"@)] + rest) == Result::<
            CommandModel,
            ParseErrorModel,
        >::Ok(CommandModel::TryCancel),
{
    reveal_strlit("try");
    reveal_strlit("ping");
    assert("try"@.len() == 3);
    assert("ping"@.len() == 4);
    let parts = seq![PartModel::Bare("try"@)] + rest;
    assert(parts[0] == PartModel::Bare("try"@));
    assert(parts.drop_first() =~= rest);
}

/// Helper for [`lemma_parts_keys_unique`]: the splitter never admits a key
/// it has already seen, so the keys of an accepted parts sequence stay
/// distinct.
proof fn lemma_parts_rec_unique(
    toks: Seq<Seq<char>>,
    seen: Seq<Seq<char>>,
    acc: Seq<PartModel>,
    parts: Seq<PartModel>,
)
    requires
        spec_parts_rec(toks, seen, acc) == Result::<Seq<PartModel>, ParseErrorModel>::Ok(parts),
        forall|i: int|
            0 <= i < acc.len() && #[trigger] acc[i] is KeyValue ==> seen.contains(part_key(acc[i])),
        forall|i: int, j: int|
            0 <= i < j < acc.len() && acc[i] is KeyValue && acc[j] is KeyValue ==> part_key(
                #[trigger] acc[i],
            ) != part_key(#[trigger] acc[j]),
    ensures
        forall|i: int, j: int|
            0 <= i < j < parts.len() && parts[i] is KeyValue && parts[j] is KeyValue ==> part_key(
                #[trigger] parts[i],
            ) != part_key(#[trigger] parts[j]),
    decreases toks.len(),
{
    if toks.len() == 0 {
    } else {
        let t = toks[0];
        if t.len() > 0 && t[0] == '@' {
        } else {
            let e = eq_idx(t);
            if e == t.len() {
                let acc2 = acc.push(PartModel::Bare(t));
                assert(forall|i: int|
                    0 <= i < acc.len() ==> #[trigger] acc2[i] == acc[i]);
                lemma_parts_rec_unique(toks.drop_first(), seen, acc2, parts);
            } else {
                let key = t.subrange(0, e);
                let value = t.subrange(e + 1, t.len() as int);
                if value.len() == 0 {
                } else if seen.contains(key) {
                } else {
                    let acc2 = acc.push(PartModel::KeyValue { key, value });
                    let seen2 = seen.push(key);
                    assert(forall|i: int|
                        0 <= i < acc.len() ==> #[trigger] acc2[i] == acc[i]);
                    assert forall|k: Seq<char>| seen.contains(k) implies #[trigger] seen2.contains(
                        k,
                    ) by {
                        let wi = choose|wi: int| 0 <= wi < seen.len() && seen[wi] == k;
                        assert(seen2[wi] == k);
                    }
                    assert(seen2.contains(key)) by {
                        assert(seen2[seen.len() as int] == key);
                    }
                    lemma_parts_rec_unique(toks.drop_first(), seen2, acc2, parts);
                }
            }
        }
    }
}

/// Within one accepted line the keys are unique: a parts sequence the
/// splitter returns never carries the same key twice.
pub proof fn lemma_parts_keys_unique(s: Seq<char>, parts: Seq<PartModel>)
    requires
        spec_parse_parts(s) == Result::<Seq<PartModel>, ParseErrorModel>::Ok(parts),
    ensures
        forall|i: int, j: int|
            0 <= i < j < parts.len() && parts[i] is KeyValue && parts[j] is KeyValue ==> part_key(
                #[trigger] parts[i],
            ) != part_key(#[trigger] parts[j]),
{
    lemma_parts_rec_unique(spec_tokens(s), Seq::empty(), Seq::empty(), parts);
}

/// A key/value token whose key was already taken fails the whole line with
/// `DuplicateArg` naming that key, whatever tokens follow: the error fires
/// at the repeated occurrence, no matter how often the key repeats further.
pub proof fn lemma_duplicate_key_rejected(
    toks: Seq<Seq<char>>,
    seen: Seq<Seq<char>>,
    acc: Seq<PartModel>,
)
    requires
        toks.len() > 0,
        toks[0].len() > 0,
        toks[0][0] != '@',
        eq_idx(toks[0]) < toks[0].len(),
        toks[0].subrange(eq_idx(toks[0]) + 1, toks[0].len() as int).len() > 0,
        seen.contains(toks[0].subrange(0, eq_idx(toks[0]))),
    ensures
        spec_parts_rec(toks, seen, acc) == Result::<Seq<PartModel>, ParseErrorModel>::Err(
            ParseErrorModel::DuplicateArg(toks[0].subrange(0, eq_idx(toks[0]))),
        ),
{
}

/// Tokens from a mention on do not matter: when some token starts with
/// `'@'`, the split of the whole token sequence equals the split of the
/// tokens before it.
pub proof fn lemma_mention_truncates(
    toks: Seq<Seq<char>>,
    seen: Seq<Seq<char>>,
    acc: Seq<PartModel>,
    m: int,
)
    requires
        0 <= m < toks.len(),
        toks[m].len() > 0,
        toks[m][0] == '@',
    ensures
        spec_parts_rec(toks, seen, acc) == spec_parts_rec(toks.take(m), seen, acc),
    decreases m,
{
    if m == 0 {
        assert(toks.take(0) =~= Seq::<Seq<char>>::empty());
    } else {
        let t = toks[0];
        assert(toks.take(m)[0] == t);
        assert(toks.take(m).drop_first() =~= toks.drop_first().take(m - 1));
        assert(toks.drop_first()[m - 1] == toks[m]);
        if t.len() > 0 && t[0] == '@' {
        } else {
            let e = eq_idx(t);
            if e == t.len() {
                lemma_mention_truncates(
                    toks.drop_first(),
                    seen,
                    acc.push(PartModel::Bare(t)),
                    m - 1,
                );
            } else {
                let key = t.subrange(0, e);
                let value = t.subrange(e + 1, t.len() as int);
                if value.len() == 0 {
                } else if seen.contains(key) {
                } else {
                    lemma_mention_truncates(
                        toks.drop_first(),
                        seen.push(key),
                        acc.push(PartModel::KeyValue { key, value }),
                        m - 1,
                    );
                }
            }
        }
    }
}

// ---------------------------------------------------------------------------
// Executable splitter.
// ---------------------------------------------------------------------------

/// The views of a sequence of command parts.
pub open spec fn parts_view(parts: Seq<CommandPart>) -> Seq<PartModel> {
    parts.map_values(|p: CommandPart| p@)
}

/// The view of a splitter result.
pub open spec fn parts_result_view(r: Result<Vec<CommandPart>, CommandParseError>) -> Result<
    Seq<PartModel>,
    ParseErrorModel,
> {
    match r {
        Result::Ok(parts) => Result::Ok(parts_view(parts@)),
        Result::Err(e) => Result::Err(e@),
    }
}

/// Splits one line's command substring into its parts, or reports its
/// lexical error.
pub fn parse_parts(input: &str) -> (r: Result<Vec<CommandPart>, CommandParseError>)
    ensures
        parts_result_view(r) == spec_parse_parts(input@),
{
    let toks = tokenize(input);
    let ghost t_full = spec_tokens(input@);
    let mut parts: Vec<CommandPart> = Vec::new();
    let mut seen: Vec<String> = Vec::new();
    let mut j: usize = 0;
    proof {
        assert(t_full.skip(0) =~= t_full);
        assert(str_views(seen@) =~= Seq::<Seq<char>>::empty());
        assert(parts_view(parts@) =~= Seq::<PartModel>::empty());
    }
    while j < toks.len()
        invariant
            str_views(toks@) == t_full,
            t_full == spec_tokens(input@),
            0 <= j <= toks@.len(),
            spec_parse_parts(input@) == spec_parts_rec(
                t_full.skip(j as int),
                str_views(seen@),
                parts_view(parts@),
            ),
        decreases toks@.len() - j,
    {
        let ghost rem = t_full.skip(j as int);
        proof {
            assert(rem[0] == t_full[j as int]);
            assert(t_full[j as int] == toks@[j as int]@);
            assert(rem.drop_first() =~= t_full.skip(j as int + 1));
        }
        let t = &toks[j];
        let tl = t.as_str().unicode_len();
        if tl > 0 && t.as_str().get_char(0) == '@' {
            return Result::Ok(parts);
        }
        let e = find_eq(t.as_str());
        if e == tl {
            let ghost old_parts = parts@;
            parts.push(CommandPart::Bare(t.clone()));
            proof {
                assert(parts_view(parts@) =~= parts_view(old_parts).push(PartModel::Bare(t@)));
            }
            j = j + 1;
        } else {
            let key = String::from_str(t.as_str().substring_char(0, e));
            if e + 1 == tl {
                proof {
                    assert(t@.subrange(e as int + 1, t@.len() as int) =~= Seq::<char>::empty());
                }
                return Result::Err(CommandParseError::MissingArgValue { arg: key });
            }
            let value = String::from_str(t.as_str().substring_char(e + 1, tl));
            if contains_str(&seen, key.as_str()) {
                return Result::Err(CommandParseError::DuplicateArg(key));
            }
            let ghost old_parts = parts@;
            let ghost old_seen = seen@;
            seen.push(key.clone());
            parts.push(CommandPart::KeyValue { key, value });
            proof {
                assert(str_views(seen@) =~= str_views(old_seen).push(t@.subrange(0, e as int)));
                assert(parts_view(parts@) =~= parts_view(old_parts).push(
                    PartModel::KeyValue {
                        key: t@.subrange(0, e as int),
                        value: t@.subrange(e as int + 1, t@.len() as int),
                    },
                ));
            }
            j = j + 1;
        }
    }
    proof {
        assert(t_full.skip(toks@.len() as int) =~= Seq::<Seq<char>>::empty());
    }
    Result::Ok(parts)
}

// ---------------------------------------------------------------------------
// Executable resolver.
// ---------------------------------------------------------------------------

/// The view of an optional matcher outcome.
pub open spec fn matcher_view(r: Option<Result<BorsCommand, CommandParseError>>) -> Option<
    Result<CommandModel, ParseErrorModel>,
> {
    match r {
        Option::Some(o) => Option::Some(outcome_view(o)),
        Option::None => Option::None,
    }
}

/// Validates a commit identifier: any 40-character token is accepted
/// verbatim, anything else is rejected with a message.
pub fn parse_sha(input: &str) -> (r: Result<CommitSha, String>)
    ensures
        match r {
            Result::Ok(sha) => input@.len() == 40 && sha@ == input@,
            Result::Err(m) => input@.len() != 40 && m@ == "SHA must have exactly 40 characters"@,
        },
{
    if input.unicode_len() != 40 {
        return Result::Err(String::from_str("SHA must have exactly 40 characters"));
    }
    Result::Ok(CommitSha(String::from_str(input)))
}

/// Matches the `ping` command.
pub fn parser_ping(command: &str, parts: &[CommandPart]) -> (r: Option<
    Result<BorsCommand, CommandParseError>,
>)
    ensures
        matcher_view(r) == spec_parser_ping(command@, parts_view(parts@)),
{
    if str_eq(command, "ping") {
        Option::Some(Result::Ok(BorsCommand::Ping))
    } else {
        Option::None
    }
}

/// Matches the `try cancel` command: `try` whose first argument is the bare
/// word `cancel`.
pub fn parser_try_cancel(command: &str, parts: &[CommandPart]) -> (r: Option<
    Result<BorsCommand, CommandParseError>,
>)
    ensures
        matcher_view(r) == spec_parser_try_cancel(command@, parts_view(parts@)),
{
    if !str_eq(command, "try") {
        return Option::None;
    }
    if parts.len() == 0 {
        return Option::None;
    }
    let cancel = match &parts[0] {
        CommandPart::Bare(s) => str_eq(s.as_str(), "cancel"),
        CommandPart::KeyValue { .. } => false,
    };
    if cancel {
        proof {
            assert(parts_view(parts@)[0] == PartModel::Bare("cancel"@));
        }
        Option::Some(Result::Ok(BorsCommand::TryCancel))
    } else {
        proof {
            assert(parts_view(parts@)[0] != PartModel::Bare("cancel"@));
        }
        Option::None
    }
}

/// The view of the parent argument carried while `try`'s arguments are
/// consumed.
pub open spec fn parent_view(p: Option<CommitSha>) -> Option<Seq<char>> {
    match p {
        Option::Some(sha) => Option::Some(sha@),
        Option::None => Option::None,
    }
}

/// Matches the generic `try` command and validates its arguments.
pub fn parser_try(command: &str, parts: &[CommandPart]) -> (r: Option<
    Result<BorsCommand, CommandParseError>,
>)
    ensures
        matcher_view(r) == spec_parser_try(command@, parts_view(parts@)),
{
    if !str_eq(command, "try") {
        return Option::None;
    }
    let ghost pv = parts_view(parts@);
    let mut parent: Option<CommitSha> = Option::None;
    let mut j: usize = 0;
    proof {
        assert(pv.skip(0) =~= pv);
    }
    while j < parts.len()
        invariant
            command@ == "try"@,
            pv == parts_view(parts@),
            0 <= j <= pv.len(),
            spec_try_args(pv, Option::None) == spec_try_args(
                pv.skip(j as int),
                parent_view(parent),
            ),
        decreases pv.len() - j,
    {
        let ghost rem = pv.skip(j as int);
        proof {
            assert(rem[0] == pv[j as int]);
            assert(pv[j as int] == parts@[j as int]@);
            assert(rem.drop_first() =~= pv.skip(j as int + 1));
        }
        match &parts[j] {
            CommandPart::Bare(k) => {
                return Option::Some(Result::Err(CommandParseError::UnknownArg(k.clone())));
            },
            CommandPart::KeyValue { key, value } => {
                if str_eq(key.as_str(), "parent") {
                    match parse_sha(value.as_str()) {
                        Result::Ok(sha) => {
                            parent = Option::Some(sha);
                        },
                        Result::Err(error) => {
                            let msg = String::from_str(
                                "Try parent has to be a valid commit SHA: ",
                            ).concat(error.as_str());
                            return Option::Some(
                                Result::Err(CommandParseError::ValidationError(msg)),
                            );
                        },
                    }
                } else {
                    return Option::Some(
                        Result::Err(CommandParseError::UnknownArg(key.clone())),
                    );
                }
            },
        }
        j = j + 1;
    }
    proof {
        assert(pv.skip(pv.len() as int) =~= Seq::<PartModel>::empty());
    }
    Option::Some(Result::Ok(BorsCommand::Try { parent }))
}

/// Resolves the parts of one line against the matcher chain: ping, then
/// try-cancel, then try; an unclaimed name is an unknown command.
pub fn resolve_command(parts: &[CommandPart]) -> (r: Result<BorsCommand, CommandParseError>)
    ensures
        outcome_view(r) == spec_resolve(parts_view(parts@)),
{
    if parts.len() == 0 {
        return Result::Err(CommandParseError::MissingCommand);
    }
    let (head, rest) = parts.split_at(1);
    proof {
        assert(parts_view(rest@) =~= parts_view(parts@).drop_first());
        assert(head@[0] == parts@[0]);
    }
    match &head[0] {
        CommandPart::KeyValue { .. } => Result::Err(CommandParseError::MissingCommand),
        CommandPart::Bare(command) => {
            if let Option::Some(result) = parser_ping(command.as_str(), rest) {
                return result;
            }
            if let Option::Some(result) = parser_try_cancel(command.as_str(), rest) {
                return result;
            }
            if let Option::Some(result) = parser_try(command.as_str(), rest) {
                return result;
            }
            Result::Err(CommandParseError::UnknownCommand(command.clone()))
        },
    }
}

// ---------------------------------------------------------------------------
// The parser.
// ---------------------------------------------------------------------------

/// Extracts bot commands from free-form text: one outcome per line that
/// contains the configured prefix.
pub struct CommandParser {
    prefix: String,
}

impl View for CommandParser {
    type V = Seq<char>;

    /// The configured prefix.
    closed spec fn view(&self) -> Seq<char> {
        self.prefix@
    }
}

impl CommandParser {
    /// Makes a parser that looks for `prefix` on each line.
    pub fn new(prefix: String) -> (r: Self)
        ensures
            r@ == prefix@,
    {
        CommandParser { prefix }
    }

    /// Parses bot commands from the given text: for each line that contains
    /// the prefix, in order, the command or error parsed from everything
    /// after the prefix's first occurrence.
    ///
    /// Assumes that each command spans at most one line and that there is at
    /// most one command on each line.
    pub fn parse_commands(&self, text: &str) -> (r: Vec<
        Result<BorsCommand, CommandParseError>,
    >)
        ensures
            outcomes_view(r@) == spec_parse_commands(text@, self@),
    {
        let lines = split_lines(text);
        let ghost lv = spec_lines(text@);
        let mut results: Vec<Result<BorsCommand, CommandParseError>> = Vec::new();
        let mut li: usize = 0;
        proof {
            assert(lv.skip(0) =~= lv);
            assert(outcomes_view(results@) =~= Seq::<Result<CommandModel, ParseErrorModel>>::empty());
        }
        while li < lines.len()
            invariant
                str_views(lines@) == lv,
                lv == spec_lines(text@),
                self@ == self.prefix@,
                0 <= li <= lv.len(),
                spec_parse_commands(text@, self@) == outcomes_view(results@)
                    + spec_line_outcomes(lv.skip(li as int), self@),
            decreases lv.len() - li,
        {
            let ghost rem = lv.skip(li as int);
            proof {
                assert(rem[0] == lv[li as int]);
                assert(lv[li as int] == lines@[li as int]@);
                assert(rem.drop_first() =~= lv.skip(li as int + 1));
            }
            let line = &lines[li];
            match find_substr(line.as_str(), self.prefix.as_str()) {
                Option::None => {
                },
                Option::Some(index) => {
                    let llen = line.as_str().unicode_len();
                    let command_start = index + self.prefix.unicode_len();
                    let command = line.as_str().substring_char(command_start, llen);
                    let outcome = match parse_parts(command) {
                        Result::Ok(parts) => resolve_command(parts.as_slice()),
                        Result::Err(error) => Result::Err(error),
                    };
                    let ghost old_results = results@;
                    results.push(outcome);
                    proof {
                        assert(outcomes_view(results@) =~= outcomes_view(old_results).push(
                            outcome_view(outcome),
                        ));
                        assert(outcomes_view(results@) + spec_line_outcomes(
                            lv.skip(li as int + 1),
                            self@,
                        ) =~= outcomes_view(old_results) + spec_line_outcomes(rem, self@));
                    }
                },
            }
            li = li + 1;
        }
        proof {
            assert(lv.skip(lv.len() as int) =~= Seq::<Seq<char>>::empty());
        }
        results
    }
}

} // verus!
