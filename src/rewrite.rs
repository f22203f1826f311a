use vstd::prelude::*;

use crate::text::{chars_of, push_all, push_char, string_of};

verus! {

/// `pat` occurs in `s` starting at position `i`.
pub open spec fn occurs_at(s: Seq<char>, pat: Seq<char>, i: int) -> bool {
    0 <= i && i + pat.len() <= s.len() && s.subrange(i, i + pat.len()) == pat
}

/// `pat` occurs somewhere in `s`.
pub open spec fn contains(s: Seq<char>, pat: Seq<char>) -> bool {
    exists|i: int| occurs_at(s, pat, i)
}

/// `i` is the leftmost position at which `pat` occurs in `s`.
pub open spec fn is_first_occurrence(s: Seq<char>, pat: Seq<char>, i: int) -> bool {
    occurs_at(s, pat, i) && forall|j: int| 0 <= j < i ==> !occurs_at(s, pat, j)
}

/// The leftmost position of `pat` in `s` (meaningful when `contains(s, pat)`).
pub open spec fn first_occurrence(s: Seq<char>, pat: Seq<char>) -> int {
    choose|i: int| is_first_occurrence(s, pat, i)
}

/// One line after the edit: when `prefix` occurs, everything up to and
/// including its first occurrence, a space, then `update`; otherwise the
/// line itself.
pub open spec fn rewritten_line(line: Seq<char>, prefix: Seq<char>, update: Seq<char>) -> Seq<
    char,
> {
    if contains(line, prefix) {
        line.take(first_occurrence(line, prefix) + prefix.len()) + seq![' '] + update
    } else {
        line
    }
}

/// Length of the run of characters at the start of `s` before the first
/// newline (all of `s` when there is none).
pub open spec fn line_end(s: Seq<char>) -> nat
    decreases s.len(),
{
    if s.len() == 0 || s[0] == '\n' {
        0
    } else {
        1 + line_end(s.skip(1))
    }
}

/// A line that was ended by `\r\n` loses its carriage return.
pub open spec fn strip_cr(l: Seq<char>) -> Seq<char> {
    if l.len() > 0 && l.last() == '\r' {
        l.drop_last()
    } else {
        l
    }
}

/// The lines of a text: split at each `\n`, a `\r` before the `\n` dropped,
/// and no empty line after a final newline.
pub open spec fn lines_of(s: Seq<char>) -> Seq<Seq<char>>
    decreases s.len(),
{
    if s.len() == 0 {
        seq![]
    } else {
        let k = line_end(s);
        if k < s.len() {
            seq![strip_cr(s.take(k as int))] + lines_of(s.skip(k + 1 as int))
        } else {
            seq![s]
        }
    }
}

/// The lines joined with a newline between each two.
pub open spec fn joined(ls: Seq<Seq<char>>) -> Seq<char>
    decreases ls.len(),
{
    if ls.len() == 0 {
        seq![]
    } else if ls.len() == 1 {
        ls[0]
    } else {
        joined(ls.drop_last()) + seq!['\n'] + ls.last()
    }
}

/// Every line rewritten on its own.
pub open spec fn rewritten_lines(ls: Seq<Seq<char>>, prefix: Seq<char>, update: Seq<char>) -> Seq<
    Seq<char>,
> {
    ls.map_values(|l: Seq<char>| rewritten_line(l, prefix, update))
}

/// The whole text after the edit: its lines rewritten, joined by newlines,
/// with one newline at the end.
pub open spec fn rewritten_text(text: Seq<char>, prefix: Seq<char>, update: Seq<char>) -> Seq<
    char,
> {
    joined(rewritten_lines(lines_of(text), prefix, update)).push('\n')
}

/// Some occurrence of `pat` means a leftmost one.
pub proof fn lemma_first_occurrence_exists(s: Seq<char>, pat: Seq<char>, i: int)
    requires
        occurs_at(s, pat, i),
    ensures
        is_first_occurrence(s, pat, first_occurrence(s, pat)),
        first_occurrence(s, pat) <= i,
    decreases i,
{
    if exists|j: int| 0 <= j < i && occurs_at(s, pat, j) {
        let j = choose|j: int| 0 <= j < i && occurs_at(s, pat, j);
        lemma_first_occurrence_exists(s, pat, j);
    } else {
        assert(is_first_occurrence(s, pat, i));
        let f = first_occurrence(s, pat);
        assert(is_first_occurrence(s, pat, f));
        if f > i {
            assert(!occurs_at(s, pat, i));
        }
    }
}

/// The leftmost occurrence is unique.
proof fn lemma_first_occurrence_unique(s: Seq<char>, pat: Seq<char>, i: int)
    requires
        is_first_occurrence(s, pat, i),
    ensures
        first_occurrence(s, pat) == i,
{
    lemma_first_occurrence_exists(s, pat, i);
    let f = first_occurrence(s, pat);
    if f < i {
        assert(!occurs_at(s, pat, f));
    }
}

/// A line that holds the prefix becomes the line up to and including the
/// first occurrence of the prefix, a single space, and the update value;
/// nothing of what followed that occurrence is kept.
pub proof fn lemma_matching_line_rewritten(line: Seq<char>, prefix: Seq<char>, update: Seq<char>)
    requires
        contains(line, prefix),
    ensures
        is_first_occurrence(line, prefix, first_occurrence(line, prefix)),
        rewritten_line(line, prefix, update) == line.take(
            first_occurrence(line, prefix) + prefix.len(),
        ) + seq![' '] + update,
        rewritten_line(line, prefix, update).len() == first_occurrence(line, prefix)
            + prefix.len() + 1 + update.len(),
{
    let i = choose|i: int| occurs_at(line, prefix, i);
    lemma_first_occurrence_exists(line, prefix, i);
}

/// A line without the prefix is left exactly as it was.
pub proof fn lemma_plain_line_unchanged(line: Seq<char>, prefix: Seq<char>, update: Seq<char>)
    requires
        !contains(line, prefix),
    ensures
        rewritten_line(line, prefix, update) == line,
{
}

/// Rewriting a line without the prefix a second time changes nothing.
pub proof fn lemma_plain_line_idempotent(line: Seq<char>, prefix: Seq<char>, update: Seq<char>)
    requires
        !contains(line, prefix),
    ensures
        rewritten_line(rewritten_line(line, prefix, update), prefix, update) == rewritten_line(
            line,
            prefix,
            update,
        ),
{
}

/// The rewritten line depends only on the text up to and including the
/// first occurrence of the prefix: two lines that agree there give the same
/// result, whatever follows.
pub proof fn lemma_rewrite_ignores_tail(
    a: Seq<char>,
    b: Seq<char>,
    prefix: Seq<char>,
    update: Seq<char>,
    p: int,
)
    requires
        is_first_occurrence(a, prefix, p),
        p + prefix.len() <= b.len(),
        a.take(p + prefix.len()) == b.take(p + prefix.len()),
    ensures
        rewritten_line(a, prefix, update) == rewritten_line(b, prefix, update),
{
    let e = p + prefix.len();
    assert(is_first_occurrence(b, prefix, p)) by {
        assert(b.subrange(p, e) == a.subrange(p, e)) by {
            assert(b.subrange(p, e) == b.take(e).subrange(p, e));
            assert(a.subrange(p, e) == a.take(e).subrange(p, e));
        }
        assert forall|j: int| 0 <= j < p implies !occurs_at(b, prefix, j) by {
            assert(!occurs_at(a, prefix, j));
            if j + prefix.len() <= b.len() {
                let bs = b.subrange(j, j + prefix.len());
                let as_ = a.subrange(j, j + prefix.len());
                assert forall|m: int| 0 <= m < prefix.len() implies #[trigger] bs[m] == as_[m] by {
                    assert(b[j + m] == b.take(e)[j + m]);
                    assert(a[j + m] == a.take(e)[j + m]);
                }
                assert(bs =~= as_);
            }
        }
    }
    lemma_first_occurrence_unique(a, prefix, p);
    lemma_first_occurrence_unique(b, prefix, p);
}

/// Line by line: the edited text consists of one line for each line of the
/// original, in order, each rewritten on its own.
pub proof fn lemma_text_rewritten_by_line(text: Seq<char>, prefix: Seq<char>, update: Seq<char>)
    ensures
        rewritten_text(text, prefix, update) == joined(
            rewritten_lines(lines_of(text), prefix, update),
        ).push('\n'),
        rewritten_lines(lines_of(text), prefix, update).len() == lines_of(text).len(),
        forall|i: int|
            0 <= i < lines_of(text).len() && !contains(#[trigger] lines_of(text)[i], prefix)
                ==> rewritten_lines(lines_of(text), prefix, update)[i] == lines_of(text)[i],
        forall|i: int|
            0 <= i < lines_of(text).len() && contains(#[trigger] lines_of(text)[i], prefix)
                ==> rewritten_lines(lines_of(text), prefix, update)[i] == lines_of(text)[i].take(
                first_occurrence(lines_of(text)[i], prefix) + prefix.len(),
            ) + seq![' '] + update,
{
}

/// A text without newline or carriage-return characters.
pub open spec fn no_line_breaks(l: Seq<char>) -> bool {
    forall|j: int| 0 <= j < l.len() ==> l[j] != '\n' && l[j] != '\r'
}

/// `line_end` stops at the first newline, or at the end.
proof fn lemma_line_end_bound(s: Seq<char>)
    ensures
        line_end(s) <= s.len(),
        forall|j: int| 0 <= j < line_end(s) ==> s[j] != '\n',
        line_end(s) < s.len() ==> s[line_end(s) as int] == '\n',
    decreases s.len(),
{
    if s.len() > 0 && s[0] != '\n' {
        lemma_line_end_bound(s.skip(1));
        assert forall|j: int| 0 <= j < line_end(s) implies s[j] != '\n' by {
            if j > 0 {
                assert(s[j] == s.skip(1)[j - 1]);
            }
        }
    }
}

/// The lines of a text without carriage returns hold no line breaks.
proof fn lemma_lines_have_no_breaks(s: Seq<char>)
    requires
        forall|j: int| 0 <= j < s.len() ==> s[j] != '\r',
    ensures
        forall|i: int| 0 <= i < lines_of(s).len() ==> no_line_breaks(#[trigger] lines_of(s)[i]),
    decreases s.len(),
{
    if s.len() > 0 {
        lemma_line_end_bound(s);
        let k = line_end(s);
        if k < s.len() {
            let rest = s.skip(k + 1 as int);
            lemma_lines_have_no_breaks(rest);
            let l = s.take(k as int);
            assert(strip_cr(l) == l);
            assert(no_line_breaks(l));
            assert forall|i: int| 0 <= i < lines_of(s).len() implies no_line_breaks(
                #[trigger] lines_of(s)[i],
            ) by {
                if i > 0 {
                    assert(lines_of(s)[i] == lines_of(rest)[i - 1]);
                }
            }
        }
    }
}

/// A line followed by a newline splits off as the first line.
proof fn lemma_lines_of_cons(l: Seq<char>, rest: Seq<char>)
    requires
        no_line_breaks(l),
    ensures
        lines_of(l + seq!['\n'] + rest) == seq![l] + lines_of(rest),
{
    let s = l + seq!['\n'] + rest;
    assert forall|j: int| 0 <= j < l.len() implies s[j] != '\n' by {
        assert(s[j] == l[j]);
    }
    assert(s[l.len() as int] == '\n');
    lemma_line_end(s, l.len() as int);
    assert(s.take(l.len() as int) == l);
    assert(s.skip(l.len() + 1 as int) == rest);
    assert(strip_cr(l) == l);
}

/// Joining from the front: the first line, a newline, then the rest joined.
proof fn lemma_joined_cons(a: Seq<char>, rest: Seq<Seq<char>>)
    requires
        rest.len() >= 1,
    ensures
        joined(seq![a] + rest) == a + seq!['\n'] + joined(rest),
    decreases rest.len(),
{
    let all = seq![a] + rest;
    assert(all.drop_last() == seq![a] + rest.drop_last());
    assert(all.last() == rest.last());
    assert(joined(all) == joined(all.drop_last()) + seq!['\n'] + all.last());
    if rest.len() == 1 {
        assert(seq![a] + rest.drop_last() == seq![a]);
        assert(joined(seq![a]) == a);
        assert(joined(rest) == rest.last());
    } else {
        lemma_joined_cons(a, rest.drop_last());
        assert(joined(rest) == joined(rest.drop_last()) + seq!['\n'] + rest.last());
        assert(a + seq!['\n'] + joined(rest.drop_last()) + seq!['\n'] + rest.last() =~= a
            + seq!['\n'] + (joined(rest.drop_last()) + seq!['\n'] + rest.last()));
    }
}

/// Lines without line breaks, joined and ended by a newline, split back
/// into the same lines.
proof fn lemma_lines_of_joined(ls: Seq<Seq<char>>)
    requires
        ls.len() >= 1,
        forall|i: int| 0 <= i < ls.len() ==> no_line_breaks(#[trigger] ls[i]),
    ensures
        lines_of(joined(ls).push('\n')) == ls,
    decreases ls.len(),
{
    assert(no_line_breaks(ls[0]));
    if ls.len() == 1 {
        assert(joined(ls).push('\n') == ls[0] + seq!['\n'] + Seq::<char>::empty());
        lemma_lines_of_cons(ls[0], Seq::<char>::empty());
        assert(seq![ls[0]] + Seq::<Seq<char>>::empty() == ls);
    } else {
        let tail = ls.skip(1);
        assert(ls == seq![ls[0]] + tail);
        assert forall|i: int| 0 <= i < tail.len() implies no_line_breaks(#[trigger] tail[i]) by {
            assert(tail[i] == ls[i + 1]);
        }
        lemma_joined_cons(ls[0], tail);
        lemma_lines_of_joined(tail);
        assert(joined(ls).push('\n') == ls[0] + seq!['\n'] + joined(tail).push('\n'));
        lemma_lines_of_cons(ls[0], joined(tail).push('\n'));
    }
}

/// A rewritten line keeps free of line breaks and is left as it is by a
/// second rewrite.
proof fn lemma_rewritten_line_stable(line: Seq<char>, prefix: Seq<char>, update: Seq<char>)
    requires
        no_line_breaks(line),
        no_line_breaks(update),
    ensures
        no_line_breaks(rewritten_line(line, prefix, update)),
        rewritten_line(rewritten_line(line, prefix, update), prefix, update) == rewritten_line(
            line,
            prefix,
            update,
        ),
{
    if contains(line, prefix) {
        lemma_matching_line_rewritten(line, prefix, update);
        let f = first_occurrence(line, prefix);
        let e = f + prefix.len();
        let r = rewritten_line(line, prefix, update);
        assert(r.take(e) == line.take(e));
        lemma_rewrite_ignores_tail(line, r, prefix, update, f);
        assert forall|j: int| 0 <= j < r.len() implies r[j] != '\n' && r[j] != '\r' by {
            if j < e {
                assert(r[j] == line[j]);
            } else if j > e {
                assert(r[j] == update[j - e - 1]);
            }
        }
    }
}

/// Rewriting the edited text a second time changes nothing, for a text
/// without carriage returns, a non-empty prefix and an update value without
/// line breaks: lines without the prefix stay as they are and rewritten
/// lines are their own rewrite.
pub proof fn lemma_rewrite_text_idempotent(text: Seq<char>, prefix: Seq<char>, update: Seq<char>)
    requires
        forall|j: int| 0 <= j < text.len() ==> text[j] != '\r',
        prefix.len() > 0,
        no_line_breaks(update),
    ensures
        rewritten_text(rewritten_text(text, prefix, update), prefix, update) == rewritten_text(
            text,
            prefix,
            update,
        ),
{
    let ls = lines_of(text);
    let rs = rewritten_lines(ls, prefix, update);
    let t1 = rewritten_text(text, prefix, update);
    if ls.len() == 0 {
        let e = Seq::<char>::empty();
        assert(t1 == e.push('\n'));
        assert(t1 == e + seq!['\n'] + e);
        lemma_lines_of_cons(e, e);
        assert(lines_of(t1) == seq![e]);
        assert(!contains(e, prefix));
        assert(rewritten_lines(seq![e], prefix, update) == seq![e]);
    } else {
        lemma_lines_have_no_breaks(text);
        assert forall|i: int| 0 <= i < rs.len() implies no_line_breaks(#[trigger] rs[i])
            && rewritten_line(rs[i], prefix, update) == rs[i] by {
            assert(no_line_breaks(ls[i]));
            lemma_rewritten_line_stable(ls[i], prefix, update);
        }
        lemma_lines_of_joined(rs);
        assert(rewritten_lines(rs, prefix, update) == rs);
    }
}

/// Whether `pat` occurs in `hay` at position `i`.
fn matches_at(hay: &Vec<char>, pat: &Vec<char>, i: usize) -> (r: bool)
    requires
        i + pat.len() <= hay.len(),
    ensures
        r == occurs_at(hay@, pat@, i as int),
{
    let mut k: usize = 0;
    while k < pat.len()
        invariant
            i + pat.len() <= hay.len(),
            k <= pat.len(),
            forall|m: int| 0 <= m < k ==> hay@[i + m] == pat@[m],
        decreases pat.len() - k,
    {
        if hay[i + k] != pat[k] {
            assert(hay@.subrange(i as int, i + pat.len())[k as int] != pat@[k as int]);
            return false;
        }
        k = k + 1;
    }
    assert(hay@.subrange(i as int, i + pat.len()) =~= pat@);
    true
}

/// The leftmost position of `pat` in `hay`, if it occurs.
pub fn find_first(hay: &Vec<char>, pat: &Vec<char>) -> (r: Option<usize>)
    ensures
        match r {
            Some(p) => is_first_occurrence(hay@, pat@, p as int),
            None => !contains(hay@, pat@),
        },
{
    if pat.len() > hay.len() {
        return None;
    }
    let last = hay.len() - pat.len();
    let mut i: usize = 0;
    loop
        invariant
            last == hay.len() - pat.len(),
            pat.len() <= hay.len(),
            i <= last,
            forall|j: int| 0 <= j < i ==> !occurs_at(hay@, pat@, j),
        decreases last - i,
    {
        if matches_at(hay, pat, i) {
            return Some(i);
        }
        if i == last {
            return None;
        }
        i = i + 1;
    }
}

/// One line after the edit (see `rewritten_line`), on characters.
pub fn rewrite_line_chars(line: &Vec<char>, prefix: &Vec<char>, update: &Vec<char>) -> (r: Vec<
    char,
>)
    ensures
        r@ == rewritten_line(line@, prefix@, update@),
{
    match find_first(line, prefix) {
        Some(p) => {
            proof {
                lemma_first_occurrence_unique(line@, prefix@, p as int);
            }
            assert(occurs_at(line@, prefix@, p as int));
            assert(p + prefix.len() <= line.len());
            let end = p + prefix.len();
            let mut r: Vec<char> = Vec::new();
            let mut i: usize = 0;
            while i < end
                invariant
                    end <= line.len(),
                    i <= end,
                    r@ == line@.take(i as int),
                decreases end - i,
            {
                r.push(line[i]);
                i = i + 1;
                assert(line@.take(i as int) == line@.take(i - 1).push(line@[i - 1]));
            }
            r.push(' ');
            let mut j: usize = 0;
            while j < update.len()
                invariant
                    j <= update.len(),
                    r@ == line@.take(end as int) + seq![' '] + update@.take(j as int),
                decreases update.len() - j,
            {
                r.push(update[j]);
                j = j + 1;
                assert(update@.take(j as int) == update@.take(j - 1).push(update@[j - 1]));
            }
            assert(update@.take(update.len() as int) == update@);
            r
        },
        None => line.clone(),
    }
}

/// Rewrites one line: when `prefix` occurs in it, the text after the first
/// occurrence is replaced by a space and `update`.
pub fn rewrite_line(line: &str, prefix: &str, update: &str) -> (r: String)
    ensures
        r@ == rewritten_line(line@, prefix@, update@),
{
    let l = chars_of(line);
    let p = chars_of(prefix);
    let u = chars_of(update);
    let r = rewrite_line_chars(&l, &p, &u);
    string_of(&r)
}

/// `line_end` is the position of the first newline, or the length.
proof fn lemma_line_end(s: Seq<char>, k: int)
    requires
        0 <= k <= s.len(),
        forall|j: int| 0 <= j < k ==> s[j] != '\n',
        k == s.len() || s[k] == '\n',
    ensures
        line_end(s) == k,
    decreases k,
{
    if k > 0 {
        assert forall|j: int| 0 <= j < k - 1 implies s.skip(1)[j] != '\n' by {
            assert(s.skip(1)[j] == s[j + 1]);
        }
        lemma_line_end(s.skip(1), k - 1);
    }
}

/// Joining one more line puts a newline before it, unless it is the first.
proof fn lemma_joined_push(ls: Seq<Seq<char>>, l: Seq<char>)
    ensures
        joined(ls.push(l)) == if ls.len() == 0 {
            l
        } else {
            joined(ls) + seq!['\n'] + l
        },
{
    assert(ls.push(l).drop_last() == ls);
}

/// Rewrites a whole text line by line: each line that holds `prefix` keeps
/// what comes up to and including the first occurrence, then a space and
/// `update`; the others stay as they are. The lines are joined by newlines
/// and the result ends in one newline.
pub fn rewrite_contents(contents: &str, prefix: &str, update: &str) -> (r: String)
    ensures
        r@ == rewritten_text(contents@, prefix@, update@),
{
    let cs = chars_of(contents);
    let p = chars_of(prefix);
    let u = chars_of(update);
    let n = cs.len();
    let mut out = String::new();
    let ghost mut done: Seq<Seq<char>> = seq![];
    let mut first: bool = true;
    let mut i: usize = 0;
    assert(cs@.skip(0) == cs@);
    while i < n
        invariant
            n == cs.len(),
            i <= n,
            p@ == prefix@,
            u@ == update@,
            first == (done.len() == 0),
            lines_of(cs@) == done + lines_of(cs@.skip(i as int)),
            out@ == joined(rewritten_lines(done, prefix@, update@)),
        decreases n - i,
    {
        let ghost rest = cs@.skip(i as int);
        let mut line: Vec<char> = Vec::new();
        let mut j: usize = i;
        while j < n && cs[j] != '\n'
            invariant
                n == cs.len(),
                i <= j <= n,
                line@ == cs@.subrange(i as int, j as int),
                forall|m: int| i <= m < j ==> cs@[m] != '\n',
            decreases n - j,
        {
            line.push(cs[j]);
            j = j + 1;
        }
        let ghost raw = line@;
        proof {
            assert forall|m: int| 0 <= m < j - i implies rest[m] != '\n' by {
                assert(rest[m] == cs@[i + m]);
            }
            if j < n {
                assert(rest[j - i] == cs@[j as int]);
            }
            lemma_line_end(rest, j - i);
            assert(rest.take(j - i) == raw);
        }
        if j < n {
            if line.len() > 0 && line[line.len() - 1] == '\r' {
                line.pop();
            }
            proof {
                assert(line@ == strip_cr(raw));
                assert(rest.skip(j - i + 1) == cs@.skip(j + 1));
            }
            i = j + 1;
        } else {
            proof {
                assert(rest == raw);
                assert(cs@.skip(n as int) == Seq::<char>::empty());
            }
            i = n;
        }
        let ghost lv = line@;
        assert(lines_of(rest) == seq![lv] + lines_of(cs@.skip(i as int)));
        let r = rewrite_line_chars(&line, &p, &u);
        proof {
            lemma_joined_push(rewritten_lines(done, prefix@, update@), r@);
            assert(rewritten_lines(done.push(lv), prefix@, update@) == rewritten_lines(
                done,
                prefix@,
                update@,
            ).push(r@));
            assert(done.push(lv) + lines_of(cs@.skip(i as int)) == done + (seq![lv] + lines_of(
                cs@.skip(i as int),
            )));
        }
        if !first {
            push_char(&mut out, '\n');
        }
        push_all(&mut out, &r);
        first = false;
        proof {
            done = done.push(lv);
        }
    }
    assert(cs@.skip(n as int) == Seq::<char>::empty());
    assert(done + Seq::<Seq<char>>::empty() == done);
    push_char(&mut out, '\n');
    out
}

} // verus!
