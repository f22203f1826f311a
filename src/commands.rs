use vstd::prelude::*;

use crate::text::{chars_of, push_all, string_of};

verus! {

/// The text of each string in `v`.
pub open spec fn texts(v: Seq<String>) -> Seq<Seq<char>> {
    v.map_values(|a: String| a@)
}

/// A character of the version string that cannot stand in a branch name
/// as it is.
pub open spec fn is_separator(c: char) -> bool {
    c == ':' || c == '.'
}

/// The version string with every `:` and `.` turned into `-`.
pub open spec fn dashed(update: Seq<char>) -> Seq<char> {
    update.map_values(|c: char| if is_separator(c) { '-' } else { c })
}

/// The name of the branch that carries the update.
pub open spec fn branch_for(update: Seq<char>) -> Seq<char> {
    "update-to-"@ + dashed(update)
}

/// The commit message.
pub open spec fn message_for(update: Seq<char>) -> Seq<char> {
    "Update to "@ + update
}

/// The author in the form `name <email>`.
pub open spec fn signature_for(name: Seq<char>, email: Seq<char>) -> Seq<char> {
    name + " <"@ + email + ">"@
}

/// Derives the branch name from the update value: `update-to-` followed by
/// the value with each `:` and `.` replaced by `-`.
pub fn branch_name(update: &str) -> (r: String)
    ensures
        r@ == branch_for(update@),
{
    let u = chars_of(update);
    let mut d: Vec<char> = Vec::new();
    let mut i: usize = 0;
    while i < u.len()
        invariant
            i <= u.len(),
            u@ == update@,
            d@ == dashed(u@.take(i as int)),
        decreases u.len() - i,
    {
        let c = u[i];
        if c == ':' || c == '.' {
            d.push('-');
        } else {
            d.push(c);
        }
        i = i + 1;
        assert(u@.take(i as int) == u@.take(i - 1).push(c));
        assert(dashed(u@.take(i as int)) =~= dashed(u@.take(i - 1)).push(
            if is_separator(c) {
                '-'
            } else {
                c
            },
        ));
    }
    assert(u@.take(u.len() as int) == u@);
    let mut r = String::from_str("update-to-");
    push_all(&mut r, &d);
    r
}

/// The commit message: `Update to ` followed by the update value.
pub fn commit_message(update: &str) -> (r: String)
    ensures
        r@ == message_for(update@),
{
    let mut r = String::from_str("Update to ");
    r.append(update);
    r
}

/// The author given to the commit: `name <email>`.
pub fn author_signature(name: &str, email: &str) -> (r: String)
    ensures
        r@ == signature_for(name@, email@),
{
    let mut r = String::from_str(name);
    r.append(" <");
    r.append(email);
    r.append(">");
    r
}

/// Arguments of the clone: `clone <url>`.
pub fn clone_args(url: &str) -> (r: Vec<String>)
    ensures
        texts(r@) == seq!["clone"@, url@],
{
    let mut r: Vec<String> = Vec::new();
    r.push(String::from_str("clone"));
    r.push(String::from_str(url));
    assert(texts(r@) =~= seq!["clone"@, url@]);
    r
}

/// Arguments that create and check out the update branch:
/// `checkout -b <branch>`.
pub fn checkout_args(update: &str) -> (r: Vec<String>)
    ensures
        texts(r@) == seq!["checkout"@, "-b"@, branch_for(update@)],
{
    let mut r: Vec<String> = Vec::new();
    r.push(String::from_str("checkout"));
    r.push(String::from_str("-b"));
    r.push(branch_name(update));
    assert(texts(r@) =~= seq!["checkout"@, "-b"@, branch_for(update@)]);
    r
}

/// Arguments that stage the rewritten file: `add <path>`.
pub fn add_args(path: &str) -> (r: Vec<String>)
    ensures
        texts(r@) == seq!["add"@, path@],
{
    let mut r: Vec<String> = Vec::new();
    r.push(String::from_str("add"));
    r.push(String::from_str(path));
    assert(texts(r@) =~= seq!["add"@, path@]);
    r
}

/// Arguments of the commit: `commit -m <message> --author <name <email>>`.
pub fn commit_args(update: &str, name: &str, email: &str) -> (r: Vec<String>)
    ensures
        texts(r@) == seq![
            "commit"@,
            "-m"@,
            message_for(update@),
            "--author"@,
            signature_for(name@, email@),
        ],
{
    let mut r: Vec<String> = Vec::new();
    r.push(String::from_str("commit"));
    r.push(String::from_str("-m"));
    r.push(commit_message(update));
    r.push(String::from_str("--author"));
    r.push(author_signature(name, email));
    assert(texts(r@) =~= seq![
        "commit"@,
        "-m"@,
        message_for(update@),
        "--author"@,
        signature_for(name@, email@),
    ]);
    r
}

/// The environment given to the commit, so that the committer is the
/// author: `GIT_COMMITTER_NAME` and `GIT_COMMITTER_EMAIL`.
pub fn committer_env(name: &str, email: &str) -> (r: Vec<(String, String)>)
    ensures
        r@.len() == 2,
        r@[0].0@ == "GIT_COMMITTER_NAME"@,
        r@[0].1@ == name@,
        r@[1].0@ == "GIT_COMMITTER_EMAIL"@,
        r@[1].1@ == email@,
{
    let mut r: Vec<(String, String)> = Vec::new();
    r.push((String::from_str("GIT_COMMITTER_NAME"), String::from_str(name)));
    r.push((String::from_str("GIT_COMMITTER_EMAIL"), String::from_str(email)));
    r
}

/// Arguments of the push: `push origin <branch>`.
pub fn push_args(update: &str) -> (r: Vec<String>)
    ensures
        texts(r@) == seq!["push"@, "origin"@, branch_for(update@)],
{
    let mut r: Vec<String> = Vec::new();
    r.push(String::from_str("push"));
    r.push(String::from_str("origin"));
    r.push(branch_name(update));
    assert(texts(r@) =~= seq!["push"@, "origin"@, branch_for(update@)]);
    r
}

/// The branch name is `update-to-` followed by the update value, one
/// character for each, where `:` and `.` have become `-` and every other
/// character is kept; so no `:` or `.` of the value remains.
pub proof fn lemma_branch_name_shape(update: Seq<char>)
    ensures
        branch_for(update).len() == 10 + update.len(),
        branch_for(update).take(10) == "update-to-"@,
        forall|i: int|
            0 <= i < update.len() ==> branch_for(update)[10 + i] == if is_separator(
                #[trigger] update[i],
            ) {
                '-'
            } else {
                update[i]
            },
        forall|i: int| 10 <= i < branch_for(update).len() ==> !is_separator(#[trigger] branch_for(update)[i]),
{
    reveal_strlit("update-to-");
    assert(branch_for(update).take(10) =~= "update-to-"@);
    assert forall|i: int| 10 <= i < branch_for(update).len() implies !is_separator(
        #[trigger] branch_for(update)[i],
    ) by {
        assert(branch_for(update)[i] == dashed(update)[i - 10]);
    }
}

/// A character with the Unicode `White_Space` property.
pub open spec fn is_white_space(c: char) -> bool {
    let n = c as u32;
    (0x9 <= n <= 0xd) || n == 0x20 || n == 0x85 || n == 0xa0 || n == 0x1680 || (0x2000 <= n
        <= 0x200a) || n == 0x2028 || n == 0x2029 || n == 0x202f || n == 0x205f || n == 0x3000
}

/// Whether `c` has the Unicode `White_Space` property.
pub fn white_space(c: char) -> (r: bool)
    ensures
        r == is_white_space(c),
{
    let n = c as u32;
    (0x9 <= n && n <= 0xd) || n == 0x20 || n == 0x85 || n == 0xa0 || n == 0x1680 || (0x2000 <= n
        && n <= 0x200a) || n == 0x2028 || n == 0x2029 || n == 0x202f || n == 0x205f || n == 0x3000
}

/// Length of the run of non-whitespace characters at the start of `s`.
pub open spec fn word_len(s: Seq<char>) -> nat
    decreases s.len(),
{
    if s.len() == 0 || is_white_space(s[0]) {
        0
    } else {
        1 + word_len(s.skip(1))
    }
}

/// The words of `s`: its maximal runs of non-whitespace characters, in order.
pub open spec fn words(s: Seq<char>) -> Seq<Seq<char>>
    decreases s.len(),
{
    if s.len() == 0 {
        seq![]
    } else if is_white_space(s[0]) {
        words(s.skip(1))
    } else {
        let k = word_len(s);
        if 0 < k <= s.len() {
            seq![s.take(k as int)] + words(s.skip(k as int))
        } else {
            seq![s]
        }
    }
}

/// `word_len` is the position of the first whitespace character, or the
/// length.
proof fn lemma_word_len(s: Seq<char>, k: int)
    requires
        0 <= k <= s.len(),
        forall|j: int| 0 <= j < k ==> !is_white_space(s[j]),
        k == s.len() || is_white_space(s[k]),
    ensures
        word_len(s) == k,
    decreases k,
{
    if k > 0 {
        assert forall|j: int| 0 <= j < k - 1 implies !is_white_space(s.skip(1)[j]) by {
            assert(s.skip(1)[j] == s[j + 1]);
        }
        lemma_word_len(s.skip(1), k - 1);
    }
}

/// Splits a command line at whitespace: the program comes first, then its
/// arguments.
pub fn split_command(cmd: &str) -> (r: Vec<String>)
    ensures
        texts(r@) == words(cmd@),
{
    let cs = chars_of(cmd);
    let n = cs.len();
    let mut r: Vec<String> = Vec::new();
    let mut i: usize = 0;
    assert(cs@.skip(0) == cs@);
    while i < n
        invariant
            n == cs.len(),
            i <= n,
            words(cs@) == texts(r@) + words(cs@.skip(i as int)),
        decreases n - i,
    {
        let ghost rest = cs@.skip(i as int);
        assert(rest[0] == cs@[i as int]);
        if white_space(cs[i]) {
            assert(rest.skip(1) == cs@.skip(i + 1));
            i = i + 1;
        } else {
            let mut w: Vec<char> = Vec::new();
            let mut j: usize = i;
            while j < n && !white_space(cs[j])
                invariant
                    n == cs.len(),
                    i <= j <= n,
                    w@ == cs@.subrange(i as int, j as int),
                    forall|m: int| i <= m < j ==> !is_white_space(cs@[m]),
                decreases n - j,
            {
                w.push(cs[j]);
                j = j + 1;
            }
            proof {
                assert forall|m: int| 0 <= m < j - i implies !is_white_space(rest[m]) by {
                    assert(rest[m] == cs@[i + m]);
                }
                if j < n {
                    assert(rest[j - i] == cs@[j as int]);
                }
                lemma_word_len(rest, j - i);
                assert(rest.take(j - i) == w@);
                assert(rest.skip(j - i) == cs@.skip(j as int));
            }
            let ghost before = r@;
            r.push(string_of(&w));
            proof {
                assert(texts(r@) == texts(before).push(w@));
                assert(texts(before) + (seq![w@] + words(cs@.skip(j as int))) == texts(r@)
                    + words(cs@.skip(j as int)));
            }
            i = j;
        }
    }
    assert(cs@.skip(n as int) == Seq::<char>::empty());
    assert(texts(r@) + Seq::<Seq<char>>::empty() == texts(r@));
    r
}

} // verus!
