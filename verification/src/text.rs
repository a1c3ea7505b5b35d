//! The mathematical model of the string operations the redirector is built
//! on: whitespace tokenization, line splitting, joining, trimming, substring
//! search and textual replacement, all over `Seq<char>`.

use vstd::prelude::*;

verus! {

/// Whitespace, as the tokenizer understands it: the ASCII blank characters.
pub open spec fn is_ws(c: char) -> bool {
    c == ' ' || c == '\t' || c == '\r' || c == '\n'
}

/// A well-formed token: non-empty and free of whitespace, as every token
/// produced by whitespace splitting is.
pub open spec fn wf_token(t: Seq<char>) -> bool {
    t.len() > 0 && forall|k: int| 0 <= k < t.len() ==> !is_ws(t[k])
}

/// `s` with its leading whitespace removed.
pub open spec fn trim_start(s: Seq<char>) -> Seq<char>
    decreases s.len(),
{
    if s.len() > 0 && is_ws(s[0]) {
        trim_start(s.skip(1))
    } else {
        s
    }
}

/// `s` with its trailing whitespace removed.
pub open spec fn trim_end(s: Seq<char>) -> Seq<char>
    decreases s.len(),
{
    if s.len() > 0 && is_ws(s.last()) {
        trim_end(s.drop_last())
    } else {
        s
    }
}

/// `s` with leading and trailing whitespace removed.
pub open spec fn trim(s: Seq<char>) -> Seq<char> {
    trim_end(trim_start(s))
}

/// The whitespace-separated tokens of `s` that follow a partially read
/// token `cur`: helper for `split_ws`.
pub open spec fn split_ws_acc(s: Seq<char>, cur: Seq<char>) -> Seq<Seq<char>>
    decreases s.len(),
{
    if s.len() == 0 {
        if cur.len() == 0 {
            Seq::<Seq<char>>::empty()
        } else {
            seq![cur]
        }
    } else if is_ws(s[0]) {
        if cur.len() == 0 {
            split_ws_acc(s.skip(1), cur)
        } else {
            seq![cur] + split_ws_acc(s.skip(1), Seq::<char>::empty())
        }
    } else {
        split_ws_acc(s.skip(1), cur.push(s[0]))
    }
}

/// The whitespace-separated tokens of `s`, in order: the maximal runs of
/// non-whitespace characters.
pub open spec fn split_ws(s: Seq<char>) -> Seq<Seq<char>> {
    split_ws_acc(s, Seq::<char>::empty())
}

/// The newline-separated pieces of `s` that follow a partially read piece
/// `cur`: helper for `split_lines`.
pub open spec fn split_lines_acc(s: Seq<char>, cur: Seq<char>) -> Seq<Seq<char>>
    decreases s.len(),
{
    if s.len() == 0 {
        if cur.len() == 0 {
            Seq::<Seq<char>>::empty()
        } else {
            seq![cur]
        }
    } else if s[0] == '\n' {
        seq![cur] + split_lines_acc(s.skip(1), Seq::<char>::empty())
    } else {
        split_lines_acc(s.skip(1), cur.push(s[0]))
    }
}

/// The lines of `s`, treating the newline as a terminator: a final newline
/// adds no empty line, while interior empty lines are kept.
pub open spec fn split_lines(s: Seq<char>) -> Seq<Seq<char>> {
    split_lines_acc(s, Seq::<char>::empty())
}

/// The parts joined by `sep`: no separator before the first part or after
/// the last.
pub open spec fn join(parts: Seq<Seq<char>>, sep: Seq<char>) -> Seq<char>
    decreases parts.len(),
{
    if parts.len() == 0 {
        Seq::<char>::empty()
    } else if parts.len() == 1 {
        parts[0]
    } else {
        parts[0] + sep + join(parts.skip(1), sep)
    }
}

/// The index of the first occurrence of `pat` in `s`, if there is one; an
/// empty `pat` occurs at every position, so at index zero.
pub open spec fn find_first(s: Seq<char>, pat: Seq<char>) -> Option<int>
    decreases s.len(),
{
    if pat.len() <= s.len() && s.take(pat.len() as int) == pat {
        Option::Some(0int)
    } else if s.len() == 0 {
        Option::<int>::None
    } else {
        match find_first(s.skip(1), pat) {
            Option::None => Option::<int>::None,
            Option::Some(i) => Option::Some(i + 1),
        }
    }
}

/// `s` with every occurrence of `pat` replaced by `to`, scanning left to
/// right and never rescanning replaced text; an empty `pat` replaces
/// nothing.
pub open spec fn replace_seq(s: Seq<char>, pat: Seq<char>, to: Seq<char>) -> Seq<char>
    decreases s.len(),
{
    if pat.len() == 0 || s.len() < pat.len() {
        s
    } else if s.take(pat.len() as int) == pat {
        to + replace_seq(s.skip(pat.len() as int), pat, to)
    } else {
        seq![s[0]] + replace_seq(s.skip(1), pat, to)
    }
}

/// Where `find_first` finds `pat`, the occurrence lies within `s` and the
/// characters there are exactly `pat`.
pub proof fn lemma_find_first_bounds(s: Seq<char>, pat: Seq<char>)
    ensures
        match find_first(s, pat) {
            Option::None => true,
            Option::Some(i) => 0 <= i && i + pat.len() <= s.len() && s.subrange(
                i,
                i + pat.len(),
            ) == pat,
        },
    decreases s.len(),
{
    if pat.len() <= s.len() && s.take(pat.len() as int) == pat {
    } else if s.len() == 0 {
    } else {
        lemma_find_first_bounds(s.skip(1), pat);
        if let Option::Some(i) = find_first(s.skip(1), pat) {
            assert(s.skip(1).subrange(i, i + pat.len()) =~= s.subrange(i + 1, i + 1 + pat.len()));
        }
    }
}

/// Joining one more part appends it after a separator (or is that part
/// alone when nothing was joined yet).
pub proof fn lemma_join_push(parts: Seq<Seq<char>>, x: Seq<char>, sep: Seq<char>)
    ensures
        join(parts.push(x), sep) == if parts.len() == 0 {
            x
        } else {
            join(parts, sep) + sep + x
        },
    decreases parts.len(),
{
    if parts.len() == 0 {
        assert(parts.push(x)[0] == x);
    } else if parts.len() == 1 {
        assert(parts.push(x)[0] == parts[0]);
        assert(parts.push(x).skip(1) =~= seq![x]);
        assert(join(seq![x], sep) == x);
    } else {
        assert(parts.push(x)[0] == parts[0]);
        assert(parts.push(x).skip(1) =~= parts.skip(1).push(x));
        lemma_join_push(parts.skip(1), x, sep);
        assert(parts[0] + sep + (join(parts.skip(1), sep) + sep + x) =~= (parts[0] + sep + join(
            parts.skip(1),
            sep,
        )) + sep + x);
    }
}

/// Reading a whitespace-free run `t` extends the partial token and leaves
/// the rest of the split unchanged.
pub proof fn lemma_split_ws_acc_run(t: Seq<char>, s: Seq<char>, cur: Seq<char>)
    requires
        forall|k: int| 0 <= k < t.len() ==> !is_ws(t[k]),
    ensures
        split_ws_acc(t + s, cur) == split_ws_acc(s, cur + t),
    decreases t.len(),
{
    if t.len() == 0 {
        assert(t + s =~= s);
        assert(cur + t =~= cur);
    } else {
        assert((t + s)[0] == t[0]);
        assert((t + s).skip(1) =~= t.skip(1) + s);
        lemma_split_ws_acc_run(t.skip(1), s, cur.push(t[0]));
        assert(cur.push(t[0]) + t.skip(1) =~= cur + t);
    }
}

/// Reading a newline-free run `t` extends the partial line and leaves the
/// rest of the split unchanged.
pub proof fn lemma_split_lines_acc_run(t: Seq<char>, s: Seq<char>, cur: Seq<char>)
    requires
        forall|k: int| 0 <= k < t.len() ==> t[k] != '\n',
    ensures
        split_lines_acc(t + s, cur) == split_lines_acc(s, cur + t),
    decreases t.len(),
{
    if t.len() == 0 {
        assert(t + s =~= s);
        assert(cur + t =~= cur);
    } else {
        assert((t + s)[0] == t[0]);
        assert((t + s).skip(1) =~= t.skip(1) + s);
        lemma_split_lines_acc_run(t.skip(1), s, cur.push(t[0]));
        assert(cur.push(t[0]) + t.skip(1) =~= cur + t);
    }
}

/// Every token produced by whitespace splitting is non-empty and free of
/// whitespace.
pub proof fn lemma_split_ws_acc_wf(s: Seq<char>, cur: Seq<char>)
    requires
        forall|k: int| 0 <= k < cur.len() ==> !is_ws(cur[k]),
    ensures
        forall|i: int|
            0 <= i < split_ws_acc(s, cur).len() ==> wf_token(#[trigger] split_ws_acc(s, cur)[i]),
    decreases s.len(),
{
    if s.len() == 0 {
        if cur.len() > 0 {
            assert(split_ws_acc(s, cur) == seq![cur]);
            assert(split_ws_acc(s, cur)[0] == cur);
            assert(wf_token(cur));
        }
    } else if is_ws(s[0]) {
        if cur.len() == 0 {
            lemma_split_ws_acc_wf(s.skip(1), cur);
            assert(split_ws_acc(s, cur) == split_ws_acc(s.skip(1), cur));
        } else {
            lemma_split_ws_acc_wf(s.skip(1), Seq::<char>::empty());
            assert(split_ws_acc(s, cur) == seq![cur] + split_ws_acc(
                s.skip(1),
                Seq::<char>::empty(),
            ));
            assert forall|i: int| 0 <= i < split_ws_acc(s, cur).len() implies wf_token(
                #[trigger] split_ws_acc(s, cur)[i],
            ) by {
                if i == 0 {
                    assert(split_ws_acc(s, cur)[0] == cur);
                } else {
                    assert(split_ws_acc(s, cur)[i] == split_ws_acc(
                        s.skip(1),
                        Seq::<char>::empty(),
                    )[i - 1]);
                }
            }
        }
    } else {
        assert(forall|k: int| 0 <= k < cur.push(s[0]).len() ==> !is_ws(cur.push(s[0])[k]));
        lemma_split_ws_acc_wf(s.skip(1), cur.push(s[0]));
        assert(split_ws_acc(s, cur) == split_ws_acc(s.skip(1), cur.push(s[0])));
    }
}

/// Splitting on whitespace undoes joining with single spaces: the round
/// trip over well-formed tokens is the identity.
pub proof fn lemma_split_join(parts: Seq<Seq<char>>)
    requires
        forall|i: int| 0 <= i < parts.len() ==> wf_token(#[trigger] parts[i]),
    ensures
        split_ws(join(parts, " "@)) == parts,
    decreases parts.len(),
{
    reveal_strlit(" ");
    let sep = " "@;
    if parts.len() == 0 {
    } else if parts.len() == 1 {
        lemma_split_ws_acc_run(parts[0], Seq::<char>::empty(), Seq::<char>::empty());
        assert(parts[0] + Seq::<char>::empty() =~= parts[0]);
        assert(Seq::<char>::empty() + parts[0] =~= parts[0]);
        assert(split_ws_acc(Seq::<char>::empty(), parts[0]) == seq![parts[0]]);
        assert(seq![parts[0]] =~= parts);
    } else {
        let rest = join(parts.skip(1), sep);
        assert(join(parts, sep) == parts[0] + sep + rest);
        lemma_split_ws_acc_run(parts[0], sep + rest, Seq::<char>::empty());
        assert(parts[0] + (sep + rest) =~= (parts[0] + sep + rest));
        assert(Seq::<char>::empty() + parts[0] =~= parts[0]);
        assert((sep + rest)[0] == ' ');
        assert(is_ws(' '));
        assert(parts[0].len() > 0);
        assert(split_ws_acc(sep + rest, parts[0]) == seq![parts[0]] + split_ws_acc(
            (sep + rest).skip(1),
            Seq::<char>::empty(),
        ));
        assert((sep + rest).skip(1) =~= rest);
        lemma_split_join(parts.skip(1));
        assert(seq![parts[0]] + parts.skip(1) =~= parts);
    }
}

} // verus!
