//! The command resolver: matching an incoming command token against the
//! table, substituting the supplied words into the matched command's
//! destination template, and deciding the search endpoint's outcome.

use vstd::prelude::*;

use crate::table::{Command, CommandView};
use crate::text::{join, replace_seq, split_ws};
use crate::tokenize::{bisect_ws, join_from, replace_all, split_ws_str, str_eq};

verus! {

/// Whether `tok` selects the command: exact, case-sensitive equality with
/// its name or its alias. An empty alias stands for "no alias" and never
/// matches.
pub open spec fn cmd_matches(c: CommandView, tok: Seq<char>) -> bool {
    c.name == tok || (c.alias.len() > 0 && c.alias == tok)
}

/// The first command of the table that `tok` selects, in table order.
pub open spec fn first_match(cmds: Seq<CommandView>, tok: Seq<char>) -> Option<CommandView>
    decreases cmds.len(),
{
    if cmds.len() == 0 {
        Option::<CommandView>::None
    } else if cmd_matches(cmds[0], tok) {
        Option::Some(cmds[0])
    } else {
        first_match(cmds.skip(1), tok)
    }
}

/// The fallback path naming an unmatched command token.
pub open spec fn fallback(tok: Seq<char>) -> Seq<char> {
    "/?invalid=true&q="@ + tok
}

/// `dest` with each placeholder of `ps` textually replaced, in order: every
/// placeholder but the last is replaced by its word of `ws`, and the last
/// placeholder absorbs all remaining words joined by single spaces.
pub open spec fn subst(dest: Seq<char>, ps: Seq<Seq<char>>, ws: Seq<Seq<char>>) -> Seq<char>
    decreases ps.len(),
{
    if ps.len() == 0 {
        dest
    } else if ps.len() == 1 {
        replace_seq(dest, ps[0], join(ws, " "@))
    } else {
        subst(
            replace_seq(
                dest,
                ps[0],
                if ws.len() > 0 {
                    ws[0]
                } else {
                    Seq::<char>::empty()
                },
            ),
            ps.skip(1),
            ws.skip(1),
        )
    }
}

/// The URL a command token and its argument string resolve to: the first
/// matching command's destination with its placeholders substituted, or the
/// fallback path when no command matches or fewer words are supplied than
/// the command has placeholders.
pub open spec fn resolve_spec(cmds: Seq<CommandView>, tok: Seq<char>, args: Seq<char>) -> Seq<
    char,
> {
    match first_match(cmds, tok) {
        Option::None => fallback(tok),
        Option::Some(c) => {
            let ps = split_ws(c.args);
            let ws = split_ws(args);
            if ws.len() < ps.len() {
                fallback(tok)
            } else {
                subst(c.dest, ps, ws)
            }
        },
    }
}

/// A table whose first `i` commands are not selected by `tok` has the same
/// first match as the table without them; command `i` itself, if selected,
/// is that match.
pub proof fn lemma_first_match_at(cmds: Seq<CommandView>, tok: Seq<char>, i: int)
    requires
        0 <= i < cmds.len(),
        cmd_matches(cmds[i], tok),
        forall|j: int| 0 <= j < i ==> !cmd_matches(#[trigger] cmds[j], tok),
    ensures
        first_match(cmds, tok) == Option::Some(cmds[i]),
    decreases i,
{
    if i == 0 {
    } else {
        assert(!cmd_matches(cmds[0], tok));
        assert(forall|j: int|
            0 <= j < i - 1 ==> #[trigger] cmds.skip(1)[j] == cmds[j + 1]);
        lemma_first_match_at(cmds.skip(1), tok, i - 1);
        assert(cmds.skip(1)[i - 1] == cmds[i]);
    }
}

/// A table none of whose commands is selected by `tok` has no first match.
pub proof fn lemma_first_match_none(cmds: Seq<CommandView>, tok: Seq<char>)
    requires
        forall|j: int| 0 <= j < cmds.len() ==> !cmd_matches(#[trigger] cmds[j], tok),
    ensures
        first_match(cmds, tok) == Option::<CommandView>::None,
    decreases cmds.len(),
{
    if cmds.len() == 0 {
    } else {
        assert(forall|j: int|
            0 <= j < cmds.skip(1).len() ==> #[trigger] cmds.skip(1)[j] == cmds[j + 1]);
        lemma_first_match_none(cmds.skip(1), tok);
    }
}

/// Builds the fallback path naming the unmatched token.
pub fn fallback_path(cmd: &str) -> (r: String)
    ensures
        r@ == fallback(cmd@),
{
    let p = String::from_str("/?invalid=true&q=");
    p.concat(cmd)
}

/// Resolves a command token and its argument string against the table.
pub fn url_for(commands: &Vec<Command>, cmd: &str, args: &str) -> (r: String)
    ensures
        r@ == resolve_spec(commands.deep_view(), cmd@, args@),
{
    let n = commands.len();
    proof {
        assert(commands.deep_view().len() == commands@.len());
    }
    let mut idx: usize = 0;
    while idx < n
        invariant
            idx <= n,
            n == commands@.len(),
            commands.deep_view().len() == n,
            forall|j: int| 0 <= j < idx ==> !cmd_matches(#[trigger] commands.deep_view()[j], cmd@),
        decreases n - idx,
    {
        let c = &commands[idx];
        proof {
            assert(commands.deep_view()[idx as int] == commands@[idx as int]@);
        }
        if str_eq(c.name.as_str(), cmd) || (c.alias.unicode_len() > 0 && str_eq(
            c.alias.as_str(),
            cmd,
        )) {
            proof {
                lemma_first_match_at(commands.deep_view(), cmd@, idx as int);
            }
            let ps = split_ws_str(c.args.as_str());
            let ws = split_ws_str(args);
            proof {
                assert(ps.deep_view().len() == ps@.len());
                assert(ws.deep_view().len() == ws@.len());
            }
            if ws.len() < ps.len() {
                return fallback_path(cmd);
            }
            let mut url = c.dest.clone();
            let pn = ps.len();
            proof {
                assert(ps.deep_view().skip(0) =~= ps.deep_view());
                assert(ws.deep_view().skip(0) =~= ws.deep_view());
            }
            let mut k: usize = 0;
            while k < pn
                invariant
                    k <= pn,
                    pn == ps@.len(),
                    ps.deep_view().len() == pn,
                    ws.deep_view().len() >= pn,
                    ws@.len() == ws.deep_view().len(),
                    ps.deep_view() == split_ws(c.args@),
                    ws.deep_view() == split_ws(args@),
                    subst(c.dest@, ps.deep_view(), ws.deep_view()) == subst(
                        url@,
                        ps.deep_view().skip(k as int),
                        ws.deep_view().skip(k as int),
                    ),
                decreases pn - k,
            {
                let ghost old_url = url@;
                let rep: String;
                if k == pn - 1 {
                    rep = join_from(&ws, k, " ");
                } else {
                    rep = ws[k].clone();
                }
                url = replace_all(url.as_str(), ps[k].as_str(), rep.as_str());
                proof {
                    let psv = ps.deep_view();
                    let wsv = ws.deep_view();
                    assert(ps@[k as int]@ == psv[k as int]);
                    assert(psv.skip(k as int)[0] == psv[k as int]);
                    assert(psv.skip(k as int).skip(1) =~= psv.skip(k as int + 1));
                    assert(wsv.skip(k as int).skip(1) =~= wsv.skip(k as int + 1));
                    if k == pn - 1 {
                        assert(psv.skip(k as int).len() == 1);
                        assert(url@ == replace_seq(old_url, psv[k as int], join(
                            wsv.skip(k as int),
                            " "@,
                        )));
                        assert(subst(old_url, psv.skip(k as int), wsv.skip(k as int)) == url@);
                        assert(psv.skip(k as int + 1).len() == 0);
                    } else {
                        assert(ws@[k as int]@ == wsv[k as int]);
                        assert(wsv.skip(k as int).len() > 0);
                        assert(wsv.skip(k as int)[0] == wsv[k as int]);
                        assert(subst(old_url, psv.skip(k as int), wsv.skip(k as int)) == subst(
                            replace_seq(old_url, psv[k as int], wsv[k as int]),
                            psv.skip(k as int + 1),
                            wsv.skip(k as int + 1),
                        ));
                    }
                }
                k += 1;
            }
            proof {
                assert(ps.deep_view().skip(pn as int).len() == 0);
            }
            return url;
        }
        idx += 1;
    }
    proof {
        lemma_first_match_none(commands.deep_view(), cmd@);
    }
    fallback_path(cmd)
}

/// What the search endpoint should answer for an incoming query parameter.
#[derive(Debug, PartialEq, Eq)]
pub enum SearchOutcome {
    /// The query parameter was absent or empty: answer the plain
    /// informational message, with no redirect.
    NoQuery,
    /// Redirect to the resolved URL, which is either a matched command's
    /// substituted destination or the internal fallback path.
    Redirect(String),
}

/// The first token of a query string; empty when the query holds no token.
pub open spec fn query_head(q: Seq<char>) -> Seq<char> {
    if split_ws(q).len() == 0 {
        Seq::<char>::empty()
    } else {
        split_ws(q)[0]
    }
}

/// The words of a query string after its first token, rejoined with single
/// spaces; empty when the query holds at most one token.
pub open spec fn query_rest(q: Seq<char>) -> Seq<char> {
    if split_ws(q).len() == 0 {
        Seq::<char>::empty()
    } else {
        join(split_ws(q).skip(1), " "@)
    }
}

/// The URL a whole query string resolves to against the table.
pub open spec fn search_spec(cmds: Seq<CommandView>, q: Seq<char>) -> Seq<char> {
    resolve_spec(cmds, query_head(q), query_rest(q))
}

/// Decides the search endpoint's response: an absent or empty query gets
/// the informational answer, anything else a redirect to the URL the query
/// resolves to.
pub fn search_outcome(commands: &Vec<Command>, q: Option<&str>) -> (r: SearchOutcome)
    ensures
        match q {
            Option::None => r == SearchOutcome::NoQuery,
            Option::Some(s) => if s@.len() == 0 {
                r == SearchOutcome::NoQuery
            } else {
                r matches SearchOutcome::Redirect(u) && u@ == search_spec(
                    commands.deep_view(),
                    s@,
                )
            },
        },
{
    match q {
        Option::None => SearchOutcome::NoQuery,
        Option::Some(s) => {
            if s.unicode_len() == 0 {
                SearchOutcome::NoQuery
            } else {
                let (head, rest) = bisect_ws(s);
                SearchOutcome::Redirect(url_for(commands, head.as_str(), rest.as_str()))
            }
        },
    }
}

} // verus!
