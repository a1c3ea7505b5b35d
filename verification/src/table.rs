//! The command table: a `Command` is one named redirect rule, and the
//! loader parses an ordered table of them from a definition text, one rule
//! per line in the grammar `"<name>[|<alias>] <arg...> = <dest>"`.

use vstd::prelude::*;

use crate::text::{find_first, join, split_lines, split_ws, trim, lemma_find_first_bounds};
use crate::tokenize::{find_sub, join_from, split_lines_str, split_ws_str, trim_str};

verus! {

/// One named redirect rule: a primary name, an alias (empty when absent), a
/// whitespace-separated placeholder template, and a destination URL
/// template in which each placeholder appears verbatim.
#[derive(Clone, Debug, PartialEq, Eq)]
pub struct Command {
    pub name: String,
    pub alias: String,
    pub args: String,
    pub dest: String,
}

/// The mathematical content of a `Command`: its fields as character
/// sequences.
pub struct CommandView {
    pub name: Seq<char>,
    pub alias: Seq<char>,
    pub args: Seq<char>,
    pub dest: Seq<char>,
}

impl View for Command {
    type V = CommandView;

    open spec fn view(&self) -> CommandView {
        CommandView { name: self.name@, alias: self.alias@, args: self.args@, dest: self.dest@ }
    }
}

impl DeepView for Command {
    type V = CommandView;

    open spec fn deep_view(&self) -> CommandView {
        self@
    }
}

/// Loading fails when a non-empty definition line does not follow the
/// per-line grammar.
#[derive(Clone, Copy, Debug, PartialEq, Eq, Structural)]
pub enum LoadError {
    MalformedLine,
}

/// The part of a combined `name|alias` token before its first `|`, or the
/// whole token when `|` is absent.
pub open spec fn cmd_name(tok: Seq<char>) -> Seq<char> {
    match find_first(tok, "|"@) {
        Option::None => tok,
        Option::Some(p) => tok.take(p),
    }
}

/// The trimmed part of a combined `name|alias` token after its first `|`;
/// empty when `|` is absent.
pub open spec fn cmd_alias(tok: Seq<char>) -> Seq<char> {
    match find_first(tok, "|"@) {
        Option::None => Seq::<char>::empty(),
        Option::Some(p) => trim(tok.skip(p + "|"@.len())),
    }
}

/// The command one definition line describes, if the line is well formed:
/// it must contain `=`, and at least one token must precede it. The first
/// token before `=` carries name and alias, the further tokens rejoined
/// with single spaces form the placeholder template, and the trimmed text
/// after the first `=` is the destination.
pub open spec fn parse_command_spec(line: Seq<char>) -> Option<CommandView> {
    match find_first(line, "="@) {
        Option::None => Option::<CommandView>::None,
        Option::Some(e) => {
            let toks = split_ws(line.take(e));
            if toks.len() == 0 {
                Option::<CommandView>::None
            } else {
                Option::Some(
                    CommandView {
                        name: cmd_name(toks[0]),
                        alias: cmd_alias(toks[0]),
                        args: join(toks.skip(1), " "@),
                        dest: trim(line.skip(e + "="@.len())),
                    },
                )
            }
        },
    }
}

/// The commands of the given definition lines, in order: empty lines add
/// nothing, and any other line that fails the per-line grammar makes the
/// whole table malformed.
pub open spec fn parse_lines(lines: Seq<Seq<char>>) -> Option<Seq<CommandView>>
    decreases lines.len(),
{
    if lines.len() == 0 {
        Option::Some(Seq::<CommandView>::empty())
    } else if lines[0].len() == 0 {
        parse_lines(lines.skip(1))
    } else {
        match parse_command_spec(lines[0]) {
            Option::None => Option::<Seq<CommandView>>::None,
            Option::Some(c) => match parse_lines(lines.skip(1)) {
                Option::None => Option::<Seq<CommandView>>::None,
                Option::Some(rest) => Option::Some(seq![c] + rest),
            },
        }
    }
}

/// The command table a whole definition text describes: one command per
/// newline-terminated line.
pub open spec fn parse_table(text: Seq<char>) -> Option<Seq<CommandView>> {
    parse_lines(split_lines(text))
}

/// Parses one definition line. A line without `=`, or without a token
/// before it, is malformed.
pub fn parse_command(line: &str) -> (r: Result<Command, LoadError>)
    ensures
        match r {
            Result::Ok(c) => parse_command_spec(line@) == Option::Some(c@),
            Result::Err(e) => parse_command_spec(line@) == Option::<CommandView>::None && e
                == LoadError::MalformedLine,
        },
{
    let n = line.unicode_len();
    match find_sub(line, "=") {
        Option::None => Result::Err(LoadError::MalformedLine),
        Option::Some(e) => {
            proof {
                lemma_find_first_bounds(line@, "="@);
            }
            let eqlen = "=".unicode_len();
            let left = line.substring_char(0, e);
            proof {
                assert(left@ == line@.take(e as int));
            }
            let dest = trim_str(line.substring_char(e + eqlen, n));
            proof {
                assert(line@.subrange(e + eqlen, n as int) =~= line@.skip(e + "="@.len()));
            }
            let toks = split_ws_str(left);
            proof {
                assert(toks.deep_view().len() == toks@.len());
            }
            if toks.len() == 0 {
                Result::Err(LoadError::MalformedLine)
            } else {
                let cmdtok = toks[0].as_str();
                proof {
                    assert(cmdtok@ == toks.deep_view()[0]);
                }
                let m = cmdtok.unicode_len();
                let args = join_from(&toks, 1, " ");
                match find_sub(cmdtok, "|") {
                    Option::None => {
                        let name = cmdtok.to_owned();
                        Result::Ok(Command { name, alias: String::new(), args, dest })
                    },
                    Option::Some(p) => {
                        proof {
                            lemma_find_first_bounds(cmdtok@, "|"@);
                        }
                        let plen = "|".unicode_len();
                        let name = cmdtok.substring_char(0, p).to_owned();
                        let alias = trim_str(cmdtok.substring_char(p + plen, m));
                        proof {
                            assert(name@ == cmdtok@.take(p as int));
                            assert(cmdtok@.subrange(p + plen, m as int) =~= cmdtok@.skip(
                                p + "|"@.len(),
                            ));
                        }
                        Result::Ok(Command { name, alias, args, dest })
                    },
                }
            }
        },
    }
}

/// Loads a command table from its definition text: one rule per line, in
/// definition order. Empty lines add nothing; any other line that fails
/// the grammar makes the whole load fail.
pub fn load_commands(source: &str) -> (r: Result<Vec<Command>, LoadError>)
    ensures
        match r {
            Result::Ok(v) => parse_table(source@) == Option::Some(v.deep_view()),
            Result::Err(e) => parse_table(source@) == Option::<Seq<CommandView>>::None && e
                == LoadError::MalformedLine,
        },
{
    let lines = split_lines_str(source);
    let mut out: Vec<Command> = Vec::new();
    let n = lines.len();
    proof {
        assert(lines.deep_view().len() == lines@.len());
        assert(lines.deep_view().skip(0) =~= lines.deep_view());
        assert(out.deep_view() =~= Seq::<CommandView>::empty());
        match parse_lines(lines.deep_view()) {
            Option::None => {},
            Option::Some(rest) => {
                assert(Seq::<CommandView>::empty() + rest =~= rest);
            },
        }
    }
    let mut i: usize = 0;
    while i < n
        invariant
            i <= n,
            n == lines@.len(),
            lines.deep_view().len() == n,
            lines.deep_view() == split_lines(source@),
            parse_lines(lines.deep_view()) == (match parse_lines(
                lines.deep_view().skip(i as int),
            ) {
                Option::None => Option::<Seq<CommandView>>::None,
                Option::Some(rest) => Option::Some(out.deep_view() + rest),
            }),
        decreases n - i,
    {
        let line = lines[i].as_str();
        proof {
            assert(line@ == lines.deep_view()[i as int]);
            assert(lines.deep_view().skip(i as int)[0] == lines.deep_view()[i as int]);
            assert(lines.deep_view().skip(i as int).skip(1) =~= lines.deep_view().skip(
                i as int + 1,
            ));
        }
        if line.unicode_len() == 0 {
            i += 1;
        } else {
            match parse_command(line) {
                Result::Err(_) => {
                    return Result::Err(LoadError::MalformedLine);
                },
                Result::Ok(c) => {
                    let ghost old_out = out.deep_view();
                    out.push(c);
                    proof {
                        assert(out.deep_view() =~= old_out.push(c@));
                        if let Option::Some(rest) = parse_lines(
                            lines.deep_view().skip(i as int + 1),
                        ) {
                            assert(old_out + (seq![c@] + rest) =~= old_out.push(c@) + rest);
                        }
                    }
                    i += 1;
                },
            }
        }
    }
    proof {
        assert(lines.deep_view().skip(n as int).len() == 0);
        assert(parse_lines(lines.deep_view().skip(n as int)) == Option::Some(
            Seq::<CommandView>::empty(),
        ));
        assert(out.deep_view() + Seq::<CommandView>::empty() =~= out.deep_view());
    }
    Result::Ok(out)
}

} // verus!
