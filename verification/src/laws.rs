//! The laws the resolver and the loader obey, stated over the model and
//! proved once and for all.

use vstd::prelude::*;

use crate::table::{CommandView, parse_table};
use crate::text::{join, split_ws, wf_token, lemma_split_join, lemma_split_ws_acc_wf};
use crate::resolve::{
    cmd_matches, fallback, first_match, resolve_spec, search_spec, subst,
    lemma_first_match_none,
};

verus! {

/// Law: a query whose first token selects a command, and which supplies at
/// least as many words as the command has placeholders, resolves to the
/// command's destination with every placeholder substituted — each
/// placeholder but the last by its word, the last by all remaining words
/// joined with single spaces.
pub proof fn lemma_resolution_substitutes(
    cmds: Seq<CommandView>,
    toks: Seq<Seq<char>>,
    c: CommandView,
)
    requires
        toks.len() >= 1,
        forall|i: int| 0 <= i < toks.len() ==> wf_token(#[trigger] toks[i]),
        first_match(cmds, toks[0]) == Option::Some(c),
        toks.len() - 1 >= split_ws(c.args).len(),
    ensures
        resolve_spec(cmds, toks[0], join(toks.skip(1), " "@)) == subst(
            c.dest,
            split_ws(c.args),
            toks.skip(1),
        ),
{
    assert(forall|i: int|
        0 <= i < toks.skip(1).len() ==> wf_token(#[trigger] toks.skip(1)[i]));
    lemma_split_join(toks.skip(1));
}

/// The same law over a whole query string: when its first token selects a
/// command and the remaining words suffice, the query resolves to that
/// command's destination with every placeholder substituted.
pub proof fn lemma_query_substitutes(cmds: Seq<CommandView>, q: Seq<char>, c: CommandView)
    requires
        split_ws(q).len() >= 1,
        first_match(cmds, split_ws(q)[0]) == Option::Some(c),
        split_ws(q).len() - 1 >= split_ws(c.args).len(),
    ensures
        search_spec(cmds, q) == subst(c.dest, split_ws(c.args), split_ws(q).skip(1)),
{
    lemma_split_ws_acc_wf(q, Seq::<char>::empty());
    lemma_resolution_substitutes(cmds, split_ws(q), c);
}

/// Law: a query whose first token selects no command resolves to the
/// fallback path carrying that very token.
pub proof fn lemma_unknown_falls_back(cmds: Seq<CommandView>, tok: Seq<char>, args: Seq<char>)
    requires
        forall|i: int| 0 <= i < cmds.len() ==> !cmd_matches(#[trigger] cmds[i], tok),
    ensures
        resolve_spec(cmds, tok, args) == fallback(tok),
{
    lemma_first_match_none(cmds, tok);
}

/// Law: a matched command without placeholders resolves to its destination
/// unchanged, whatever words are supplied.
pub proof fn lemma_no_placeholders(
    cmds: Seq<CommandView>,
    tok: Seq<char>,
    args: Seq<char>,
    c: CommandView,
)
    requires
        first_match(cmds, tok) == Option::Some(c),
        split_ws(c.args).len() == 0,
    ensures
        resolve_spec(cmds, tok, args) == c.dest,
{
}

/// Law: name and alias are interchangeable — two tokens whose first match
/// is the same command resolve identically whenever enough words are
/// supplied. (With too few words the results differ, since each fallback
/// path carries the token it was asked for.)
pub proof fn lemma_alias_interchangeable(
    cmds: Seq<CommandView>,
    t1: Seq<char>,
    t2: Seq<char>,
    args: Seq<char>,
    c: CommandView,
)
    requires
        first_match(cmds, t1) == Option::Some(c),
        first_match(cmds, t2) == Option::Some(c),
        split_ws(args).len() >= split_ws(c.args).len(),
    ensures
        resolve_spec(cmds, t1, args) == resolve_spec(cmds, t2, args),
{
}

/// Law: loading is a pure function of the definition text — two successful
/// loads of the same text yield structurally identical command sequences.
pub proof fn lemma_load_repeatable(text: Seq<char>, a: Seq<CommandView>, b: Seq<CommandView>)
    requires
        parse_table(text) == Option::Some(a),
        parse_table(text) == Option::Some(b),
    ensures
        a == b,
{
}

} // verus!
