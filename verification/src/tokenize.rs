//! Executable string operations, each proved against the model in
//! `crate::text`: tokenizing, trimming, joining, searching, replacing, and
//! the two bisections the loader and the request handler are built on.

use vstd::prelude::*;

use crate::text::{
    find_first, is_ws, join, replace_seq, split_lines, split_lines_acc, split_ws, split_ws_acc,
    trim, trim_end, trim_start, wf_token, lemma_find_first_bounds, lemma_join_push,
    lemma_split_lines_acc_run, lemma_split_ws_acc_run, lemma_split_ws_acc_wf,
};

verus! {

/// Whether `c` is whitespace, exactly as the model's `is_ws` says.
pub(crate) fn char_is_ws(c: char) -> (b: bool)
    ensures
        b == is_ws(c),
{
    c == ' ' || c == '\t' || c == '\r' || c == '\n'
}

/// Whether two string slices hold the same characters.
pub(crate) fn str_eq(a: &str, b: &str) -> (r: bool)
    ensures
        r == (a@ == b@),
{
    let an = a.unicode_len();
    let bn = b.unicode_len();
    if an != bn {
        return false;
    }
    let mut i: usize = 0;
    while i < an
        invariant
            i <= an,
            an == a@.len(),
            an == b@.len(),
            forall|j: int| 0 <= j < i ==> a@[j] == b@[j],
        decreases an - i,
    {
        if a.get_char(i) != b.get_char(i) {
            return false;
        }
        i += 1;
    }
    proof {
        assert(a@ =~= b@);
    }
    true
}

/// `s` with surrounding whitespace removed.
pub(crate) fn trim_str(s: &str) -> (r: String)
    ensures
        r@ == trim(s@),
{
    let n = s.unicode_len();
    proof {
        assert(s@.skip(0) =~= s@);
    }
    let mut i: usize = 0;
    while i < n && char_is_ws(s.get_char(i))
        invariant
            i <= n,
            n == s@.len(),
            trim_start(s@) == trim_start(s@.skip(i as int)),
        decreases n - i,
    {
        proof {
            assert(s@.skip(i as int)[0] == s@[i as int]);
            assert(s@.skip(i as int).skip(1) =~= s@.skip(i as int + 1));
        }
        i += 1;
    }
    proof {
        if i < n {
            assert(s@.skip(i as int)[0] == s@[i as int]);
        }
        assert(trim_start(s@) == s@.skip(i as int));
        assert(s@.skip(i as int) =~= s@.subrange(i as int, n as int));
    }
    let mut j: usize = n;
    while j > i && char_is_ws(s.get_char(j - 1))
        invariant
            i <= j <= n,
            n == s@.len(),
            trim_start(s@) == s@.subrange(i as int, n as int),
            trim_end(s@.subrange(i as int, n as int)) == trim_end(s@.subrange(i as int, j as int)),
        decreases j,
    {
        proof {
            let t = s@.subrange(i as int, j as int);
            assert(t.last() == s@[j - 1]);
            assert(t.drop_last() =~= s@.subrange(i as int, j as int - 1));
        }
        j -= 1;
    }
    proof {
        let t = s@.subrange(i as int, j as int);
        if j > i {
            assert(t.last() == s@[j - 1]);
        }
        assert(trim_end(t) == t);
    }
    s.substring_char(i, j).to_owned()
}

/// The whitespace-separated tokens of `s`, in order.
pub(crate) fn split_ws_str(s: &str) -> (r: Vec<String>)
    ensures
        r.deep_view() == split_ws(s@),
        forall|i: int| 0 <= i < r.deep_view().len() ==> wf_token(#[trigger] r.deep_view()[i]),
{
    let n = s.unicode_len();
    let mut toks: Vec<String> = Vec::new();
    proof {
        assert(s@.skip(0) =~= s@);
        assert(toks.deep_view() =~= Seq::<Seq<char>>::empty());
        assert(toks.deep_view() + split_ws_acc(s@, Seq::<char>::empty()) =~= split_ws_acc(
            s@,
            Seq::<char>::empty(),
        ));
    }
    let mut i: usize = 0;
    while i < n
        invariant
            i <= n,
            n == s@.len(),
            split_ws(s@) == toks.deep_view() + split_ws_acc(s@.skip(i as int), Seq::<char>::empty()),
        decreases n - i,
    {
        if char_is_ws(s.get_char(i)) {
            proof {
                assert(s@.skip(i as int)[0] == s@[i as int]);
                assert(s@.skip(i as int).skip(1) =~= s@.skip(i as int + 1));
            }
            i += 1;
        } else {
            let mut j: usize = i;
            while j < n && !char_is_ws(s.get_char(j))
                invariant
                    i <= j <= n,
                    n == s@.len(),
                    forall|k: int| i <= k < j ==> !is_ws(s@[k]),
                decreases n - j,
            {
                j += 1;
            }
            let t = s.substring_char(i, j).to_owned();
            proof {
                let tv = s@.subrange(i as int, j as int);
                assert(forall|k: int| 0 <= k < tv.len() ==> tv[k] == s@[i + k]);
                assert(forall|k: int| 0 <= k < tv.len() ==> !is_ws(tv[k]));
                lemma_split_ws_acc_run(tv, s@.skip(j as int), Seq::<char>::empty());
                assert(tv + s@.skip(j as int) =~= s@.skip(i as int));
                assert(Seq::<char>::empty() + tv =~= tv);
                assert(tv.len() > 0);
                if j < n {
                    assert(s@.skip(j as int)[0] == s@[j as int]);
                    assert(is_ws(s@[j as int]));
                    assert(s@.skip(j as int).skip(1) =~= s@.skip(j as int + 1));
                    assert(split_ws_acc(s@.skip(j as int), tv) == seq![tv] + split_ws_acc(
                        s@.skip(j as int),
                        Seq::<char>::empty(),
                    ));
                } else {
                    assert(s@.skip(j as int).len() == 0);
                    assert(split_ws_acc(s@.skip(j as int), tv) == seq![tv]);
                    assert(seq![tv] =~= seq![tv] + split_ws_acc(
                        s@.skip(j as int),
                        Seq::<char>::empty(),
                    ));
                }
                assert(toks.deep_view().push(tv) =~= toks.deep_view() + seq![tv]);
                assert((toks.deep_view() + seq![tv]) + split_ws_acc(
                    s@.skip(j as int),
                    Seq::<char>::empty(),
                ) =~= toks.deep_view() + (seq![tv] + split_ws_acc(
                    s@.skip(j as int),
                    Seq::<char>::empty(),
                )));
                assert(t@ == tv);
            }
            let ghost old_toks = toks.deep_view();
            toks.push(t);
            proof {
                assert(toks.deep_view() =~= old_toks.push(s@.subrange(i as int, j as int)));
            }
            i = j;
        }
    }
    proof {
        assert(s@.skip(n as int).len() == 0);
        assert(toks.deep_view() + split_ws_acc(s@.skip(n as int), Seq::<char>::empty())
            =~= toks.deep_view());
        lemma_split_ws_acc_wf(s@, Seq::<char>::empty());
    }
    toks
}

/// The newline-terminated lines of `s`, in order; a final newline adds no
/// empty line.
pub(crate) fn split_lines_str(s: &str) -> (r: Vec<String>)
    ensures
        r.deep_view() == split_lines(s@),
{
    let n = s.unicode_len();
    let mut lines: Vec<String> = Vec::new();
    proof {
        assert(s@.skip(0) =~= s@);
        assert(lines.deep_view() =~= Seq::<Seq<char>>::empty());
        assert(lines.deep_view() + split_lines_acc(s@, Seq::<char>::empty()) =~= split_lines_acc(
            s@,
            Seq::<char>::empty(),
        ));
    }
    let mut i: usize = 0;
    while i < n
        invariant
            i <= n,
            n == s@.len(),
            split_lines(s@) == lines.deep_view() + split_lines_acc(
                s@.skip(i as int),
                Seq::<char>::empty(),
            ),
        decreases n - i,
    {
        let mut j: usize = i;
        while j < n && s.get_char(j) != '\n'
            invariant
                i <= j <= n,
                n == s@.len(),
                forall|k: int| i <= k < j ==> s@[k] != '\n',
            decreases n - j,
        {
            j += 1;
        }
        let piece = s.substring_char(i, j).to_owned();
        proof {
            let tv = s@.subrange(i as int, j as int);
            assert(forall|k: int| 0 <= k < tv.len() ==> tv[k] == s@[i + k]);
            assert(forall|k: int| 0 <= k < tv.len() ==> tv[k] != '\n');
            lemma_split_lines_acc_run(tv, s@.skip(j as int), Seq::<char>::empty());
            assert(tv + s@.skip(j as int) =~= s@.skip(i as int));
            assert(Seq::<char>::empty() + tv =~= tv);
            if j < n {
                assert(s@.skip(j as int)[0] == s@[j as int]);
                assert(s@[j as int] == '\n');
                assert(s@.skip(j as int).skip(1) =~= s@.skip(j as int + 1));
                assert(split_lines_acc(s@.skip(j as int), tv) == seq![tv] + split_lines_acc(
                    s@.skip(j as int + 1),
                    Seq::<char>::empty(),
                ));
            } else {
                assert(s@.skip(j as int).len() == 0);
                assert(tv.len() == j - i);
                assert(split_lines_acc(s@.skip(j as int), tv) == seq![tv]);
                assert(seq![tv] =~= seq![tv] + split_lines_acc(
                    s@.skip(j as int),
                    Seq::<char>::empty(),
                ));
            }
            assert(lines.deep_view().push(tv) =~= lines.deep_view() + seq![tv]);
            assert(piece@ == tv);
        }
        let ghost old_lines = lines.deep_view();
        let ghost tv = s@.subrange(i as int, j as int);
        lines.push(piece);
        proof {
            assert(lines.deep_view() =~= old_lines.push(tv));
            if j < n {
                assert((old_lines + seq![tv]) + split_lines_acc(
                    s@.skip(j as int + 1),
                    Seq::<char>::empty(),
                ) =~= old_lines + (seq![tv] + split_lines_acc(
                    s@.skip(j as int + 1),
                    Seq::<char>::empty(),
                )));
            } else {
                assert((old_lines + seq![tv]) + split_lines_acc(
                    s@.skip(j as int),
                    Seq::<char>::empty(),
                ) =~= old_lines + (seq![tv] + split_lines_acc(
                    s@.skip(j as int),
                    Seq::<char>::empty(),
                )));
            }
        }
        if j < n {
            i = j + 1;
        } else {
            i = j;
        }
    }
    proof {
        assert(s@.skip(n as int).len() == 0);
        assert(lines.deep_view() + split_lines_acc(s@.skip(n as int), Seq::<char>::empty())
            =~= lines.deep_view());
    }
    lines
}

/// The parts from `start` on, joined by `sep`.
pub(crate) fn join_from(parts: &Vec<String>, start: usize, sep: &str) -> (r: String)
    requires
        start <= parts@.len(),
    ensures
        r@ == join(parts.deep_view().skip(start as int), sep@),
{
    let mut out = String::new();
    let n = parts.len();
    let mut i: usize = start;
    while i < n
        invariant
            start <= i <= n,
            n == parts@.len(),
            parts.deep_view().len() == n,
            out@ == join(parts.deep_view().subrange(start as int, i as int), sep@),
        decreases n - i,
    {
        if i > start {
            out.append(sep);
        }
        out.append(parts[i].as_str());
        proof {
            let dv = parts.deep_view();
            assert(dv[i as int] == parts@[i as int]@);
            assert(dv.subrange(start as int, i as int + 1) =~= dv.subrange(
                start as int,
                i as int,
            ).push(dv[i as int]));
            lemma_join_push(dv.subrange(start as int, i as int), dv[i as int], sep@);
        }
        i += 1;
    }
    proof {
        assert(parts.deep_view().subrange(start as int, n as int) =~= parts.deep_view().skip(
            start as int,
        ));
    }
    out
}

/// The index of the first occurrence of `pat` in `s`, if there is one.
pub(crate) fn find_sub(s: &str, pat: &str) -> (r: Option<usize>)
    ensures
        match r {
            Option::None => find_first(s@, pat@) == Option::<int>::None,
            Option::Some(i) => find_first(s@, pat@) == Option::Some(i as int),
        },
    decreases s@.len(),
{
    let n = s.unicode_len();
    let m = pat.unicode_len();
    if m <= n && str_eq(s.substring_char(0, m), pat) {
        proof {
            assert(s@.subrange(0, m as int) == s@.take(m as int));
        }
        Option::Some(0)
    } else if n == 0 {
        Option::None
    } else {
        proof {
            assert(s@.subrange(0, m as int) == s@.take(m as int) || m > n);
        }
        let rest = s.substring_char(1, n);
        proof {
            assert(rest@ =~= s@.skip(1));
        }
        match find_sub(rest, pat) {
            Option::None => Option::None,
            Option::Some(i) => {
                proof {
                    lemma_find_first_bounds(s@.skip(1), pat@);
                }
                Option::Some(i + 1)
            },
        }
    }
}

/// `s` with every occurrence of `pat` replaced by `to`, scanning left to
/// right; an empty `pat` replaces nothing.
pub(crate) fn replace_all(s: &str, pat: &str, to: &str) -> (r: String)
    ensures
        r@ == replace_seq(s@, pat@, to@),
    decreases s@.len(),
{
    let n = s.unicode_len();
    let m = pat.unicode_len();
    if m == 0 || n < m {
        s.to_owned()
    } else if str_eq(s.substring_char(0, m), pat) {
        proof {
            assert(s@.subrange(0, m as int) == s@.take(m as int));
        }
        let mut out = to.to_owned();
        let tail = s.substring_char(m, n);
        proof {
            assert(tail@ =~= s@.skip(m as int));
        }
        let rest = replace_all(tail, pat, to);
        out.append(rest.as_str());
        out
    } else {
        proof {
            assert(s@.subrange(0, m as int) == s@.take(m as int));
        }
        let mut out = s.substring_char(0, 1).to_owned();
        let tail = s.substring_char(1, n);
        proof {
            assert(out@ =~= seq![s@[0]]);
            assert(tail@ =~= s@.skip(1));
        }
        let rest = replace_all(tail, pat, to);
        out.append(rest.as_str());
        out
    }
}

/// Splits a pre-tokenized sequence into its first element and the remaining
/// elements rejoined with `sep` and trimmed; an empty sequence yields two
/// empty strings.
pub fn _bisect(parts: Vec<&str>, sep: &str) -> (r: (String, String))
    ensures
        parts@.len() == 0 ==> r.0@ == Seq::<char>::empty() && r.1@ == Seq::<char>::empty(),
        parts@.len() > 0 ==> r.0@ == parts.deep_view()[0] && r.1@ == trim(
            join(parts.deep_view().skip(1), sep@),
        ),
{
    if parts.len() == 0 {
        (String::new(), String::new())
    } else {
        let head = parts[0].to_owned();
        let n = parts.len();
        let mut tail = String::new();
        let mut i: usize = 1;
        while i < n
            invariant
                1 <= i <= n,
                n == parts@.len(),
                parts.deep_view().len() == n,
                tail@ == join(parts.deep_view().subrange(1, i as int), sep@),
            decreases n - i,
        {
            if i > 1 {
                tail.append(sep);
            }
            tail.append(parts[i]);
            proof {
                let dv = parts.deep_view();
                assert(dv[i as int] == parts@[i as int]@);
                assert(dv.subrange(1, i as int + 1) =~= dv.subrange(1, i as int).push(
                    dv[i as int],
                ));
                lemma_join_push(dv.subrange(1, i as int), dv[i as int], sep@);
            }
            i += 1;
        }
        proof {
            assert(parts.deep_view().subrange(1, n as int) =~= parts.deep_view().skip(1));
            assert(parts.deep_view()[0] == parts@[0]@);
        }
        let trimmed = trim_str(tail.as_str());
        (head, trimmed)
    }
}

/// Splits `string` on runs of whitespace into its first token and the
/// remaining tokens rejoined with single spaces; a string without tokens
/// yields two empty strings. The rejoined tail carries no surrounding
/// whitespace, so no trimming is left to do.
pub fn bisect_ws(string: &str) -> (r: (String, String))
    ensures
        split_ws(string@).len() == 0 ==> r.0@ == Seq::<char>::empty() && r.1@ == Seq::<
            char,
        >::empty(),
        split_ws(string@).len() > 0 ==> r.0@ == split_ws(string@)[0] && r.1@ == join(
            split_ws(string@).skip(1),
            " "@,
        ),
{
    let toks = split_ws_str(string);
    proof {
        assert(toks.deep_view().len() == toks@.len());
    }
    if toks.len() == 0 {
        (String::new(), String::new())
    } else {
        let head = toks[0].clone();
        proof {
            assert(head@ == toks.deep_view()[0]);
        }
        let tail = join_from(&toks, 1, " ");
        (head, tail)
    }
}

/// Splits `string` at the first occurrence of `sep` into the part before it
/// and the trimmed part after it; when `sep` does not occur, the whole
/// string and an empty rest.
pub fn bisect_on(string: &str, sep: &str) -> (r: (String, String))
    ensures
        match find_first(string@, sep@) {
            Option::None => r.0@ == string@ && r.1@ == Seq::<char>::empty(),
            Option::Some(i) => r.0@ == string@.take(i) && r.1@ == trim(
                string@.skip(i + sep@.len()),
            ),
        },
{
    let n = string.unicode_len();
    let m = sep.unicode_len();
    match find_sub(string, sep) {
        Option::None => (string.to_owned(), String::new()),
        Option::Some(i) => {
            proof {
                lemma_find_first_bounds(string@, sep@);
            }
            let head = string.substring_char(0, i).to_owned();
            let rest = string.substring_char(i + m, n);
            proof {
                assert(head@ == string@.take(i as int));
                assert(rest@ =~= string@.skip(i + m));
            }
            let tail = trim_str(rest);
            (head, tail)
        },
    }
}

} // verus!
