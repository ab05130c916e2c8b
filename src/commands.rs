use vstd::prelude::*;
use vstd::string::StringExecFns;

use crate::branches::Branches;
use crate::options::Options;
use crate::text::{
    contains_name, join_lines, join_with_newlines, split_at_char, split_on, trim, trimmed, views,
};

verus! {

/// Start of git's line for a remote branch that was already gone.
pub const MISSING_PREFIX: &'static str = "error: unable to delete '";

/// End of git's line for a remote branch that was already gone.
pub const MISSING_SUFFIX: &'static str = "': remote ref does not exist";

/// Marks git's line for a remote branch it deleted.
pub const DELETED_MARK: &'static str = " - [deleted]";

/// Appended to a branch that was already gone from the remote.
pub const ALREADY_DELETED: &'static str = " was already deleted in the remote.";

/// Whether `p` occurs in `s`.
pub open spec fn occurs(s: Seq<char>, p: Seq<char>) -> bool {
    exists|i: int| 0 <= i && i + p.len() <= s.len() && #[trigger] s.subrange(i, i + p.len()) == p
}

/// `s` without the copies of `p` at its start, as `trim_start_matches` does.
pub open spec fn strip_prefixes(s: Seq<char>, p: Seq<char>) -> Seq<char>
    decreases s.len(),
{
    if p.len() > 0 && p.len() <= s.len() && s.take(p.len() as int) == p {
        strip_prefixes(s.skip(p.len() as int), p)
    } else {
        s
    }
}

/// Whether `s` starts with `p`.
pub open spec fn has_prefix(s: Seq<char>, p: Seq<char>) -> bool {
    p.len() <= s.len() && s.take(p.len() as int) == p
}

/// `s` without the copies of `p` at its end, as `trim_end_matches` does.
pub open spec fn strip_suffixes(s: Seq<char>, p: Seq<char>) -> Seq<char>
    decreases s.len(),
{
    if p.len() > 0 && p.len() <= s.len() && s.skip(s.len() - p.len()) == p {
        strip_suffixes(s.take(s.len() - p.len()), p)
    } else {
        s
    }
}

/// The argument list of one git invocation.
pub open spec fn git_command(args: Seq<Seq<char>>, branches: Seq<Seq<char>>) -> Seq<Seq<char>> {
    seq!["git"@] + args + branches
}

/// The names on the trimmed `lines` that start with `prefix`, with that
/// prefix taken off once; the other lines are left out.
pub open spec fn names_under(lines: Seq<Seq<char>>, prefix: Seq<char>) -> Seq<Seq<char>>
    decreases lines.len(),
{
    if lines.len() == 0 {
        Seq::empty()
    } else {
        let prev = names_under(lines.drop_last(), prefix);
        let t = trimmed(lines.last());
        if has_prefix(t, prefix) {
            prev.push(t.skip(prefix.len() as int))
        } else {
            prev
        }
    }
}

/// The branches that `git branch -r` output lists on `remote`: the lines
/// that read `<remote>/<branch>`, with `<remote>/` taken off once.
pub open spec fn remote_names(output: Seq<char>, remote: Seq<char>) -> Seq<Seq<char>> {
    names_under(split_on(output, '\n'), remote + "/"@)
}

/// Whether `a` comes before `b` in `str`'s order: by code point, which is
/// the order of their UTF-8 bytes.
pub open spec fn text_lt(a: Seq<char>, b: Seq<char>) -> bool
    decreases a.len(),
{
    if a.len() == 0 {
        b.len() > 0
    } else if b.len() == 0 {
        false
    } else if a[0] != b[0] {
        (a[0] as int) < (b[0] as int)
    } else {
        text_lt(a.drop_first(), b.drop_first())
    }
}

/// Every string of `t` comes before the ones after it.
pub open spec fn ascending(t: Seq<Seq<char>>) -> bool {
    forall|i: int, j: int| 0 <= i < j < t.len() ==> text_lt(#[trigger] t[i], #[trigger] t[j])
}

/// `t` holds the branches of `c` that `names` holds, in ascending order,
/// each once.
pub open spec fn remote_targets(t: Seq<Seq<char>>, c: Seq<Seq<char>>, names: Seq<Seq<char>>) -> bool {
    &&& ascending(t)
    &&& forall|x: Seq<char>| #[trigger] t.contains(x) <==> c.contains(x) && names.contains(x)
}

pub proof fn lemma_text_lt_irreflexive(a: Seq<char>)
    ensures
        !text_lt(a, a),
    decreases a.len(),
{
    if a.len() > 0 {
        lemma_text_lt_irreflexive(a.drop_first());
    }
}

pub proof fn lemma_text_lt_total(a: Seq<char>, b: Seq<char>)
    ensures
        a != b ==> text_lt(a, b) || text_lt(b, a),
    decreases a.len(),
{
    if a.len() > 0 && b.len() > 0 {
        if a[0] == b[0] {
            lemma_text_lt_total(a.drop_first(), b.drop_first());
            if a.drop_first() == b.drop_first() {
                assert(a =~= seq![a[0]] + a.drop_first());
                assert(b =~= seq![b[0]] + b.drop_first());
            }
        } else {
            assert((a[0] as int) != (b[0] as int));
        }
    } else if a.len() == 0 && b.len() == 0 {
        assert(a =~= b);
    }
}

pub proof fn lemma_text_lt_transitive(a: Seq<char>, b: Seq<char>, c: Seq<char>)
    requires
        text_lt(a, b),
        text_lt(b, c),
    ensures
        text_lt(a, c),
    decreases a.len(),
{
    if a.len() > 0 && a[0] == b[0] && b[0] == c[0] {
        lemma_text_lt_transitive(a.drop_first(), b.drop_first(), c.drop_first());
    }
}

/// What a line of git's push report becomes, if it is kept.
pub open spec fn report_line(line: Seq<char>) -> Option<Seq<char>> {
    if occurs(line, MISSING_PREFIX@) {
        Some(strip_suffixes(strip_prefixes(line, MISSING_PREFIX@), MISSING_SUFFIX@) + ALREADY_DELETED@)
    } else if occurs(line, DELETED_MARK@) {
        Some(line)
    } else {
        None
    }
}

pub open spec fn report_lines(lines: Seq<Seq<char>>) -> Seq<Seq<char>>
    decreases lines.len(),
{
    if lines.len() == 0 {
        Seq::empty()
    } else {
        let prev = report_lines(lines.drop_last());
        match report_line(lines.last()) {
            Some(l) => prev.push(l),
            None => prev,
        }
    }
}

/// The report of a remote deletion, from what `git push --delete` wrote to
/// its error stream.
pub open spec fn remote_report_text(stderr: Seq<char>) -> Seq<char> {
    join_lines(report_lines(split_on(stderr, '\n')))
}

/// A classified branch that the remote does not list is never a target of
/// the remote deletion; one that both sides hold always is.
pub proof fn law_remote_deletion_targets(
    targets: Seq<Seq<char>>,
    classified: Seq<Seq<char>>,
    remote_listing: Seq<char>,
    remote: Seq<char>,
    b: Seq<char>,
)
    requires
        remote_targets(targets, classified, remote_names(remote_listing, remote)),
    ensures
        !remote_names(remote_listing, remote).contains(b) ==> !targets.contains(b),
        classified.contains(b) && remote_names(remote_listing, remote).contains(b)
            ==> targets.contains(b),
        targets.no_duplicates(),
{
    assert forall|i: int, j: int| 0 <= i < targets.len() && 0 <= j < targets.len() && i != j
        implies targets[i] != targets[j] by {
        if i < j {
            assert(text_lt(targets[i], targets[j]));
        } else {
            assert(text_lt(targets[j], targets[i]));
        }
        lemma_text_lt_irreflexive(targets[i]);
    }
}

fn command_with(args: Vec<String>, branches: &Vec<String>) -> (r: Vec<String>)
    ensures
        views(r@) == views(args@) + views(branches@),
{
    let mut r = args;
    let ghost start = views(r@);
    let mut i: usize = 0;
    while i < branches.len()
        invariant
            i <= branches@.len(),
            views(r@) == start + views(branches@).take(i as int),
        decreases branches@.len() - i,
    {
        let ghost before = r@;
        r.push(branches[i].clone());
        proof {
            assert(views(r@) == views(before).push(branches@[i as int]@));
            assert(views(branches@).take(i + 1) == views(branches@).take(i as int).push(
                branches@[i as int]@,
            ));
        }
        i = i + 1;
    }
    proof {
        assert(views(branches@).take(branches@.len() as int) == views(branches@));
    }
    r
}

fn word(s: &str) -> (r: String)
    ensures
        r@ == s@,
{
    String::from_str(s)
}

/// The command that deletes the branches locally, all in one invocation;
/// none when there is nothing to delete.
pub fn delete_local_branches(branches: &Branches) -> (r: Option<Vec<String>>)
    ensures
        r is None <==> branches.vec@.len() == 0,
        r matches Some(cmd) ==> views(cmd@) == git_command(
            seq!["branch"@, "-D"@],
            views(branches.vec@),
        ),
{
    if branches.vec.len() == 0 {
        return None;
    }
    proof {
        reveal_strlit("git");
        reveal_strlit("branch");
        reveal_strlit("-D");
    }
    let mut args: Vec<String> = Vec::new();
    args.push(word("git"));
    args.push(word("branch"));
    args.push(word("-D"));
    let cmd = command_with(args, &branches.vec);
    proof {
        assert(views(args@) == seq!["git"@] + seq!["branch"@, "-D"@]);
    }
    Some(cmd)
}

fn strip_prefix_copies(s: &str, p: &str) -> (r: String)
    ensures
        r@ == strip_prefixes(s@, p@),
{
    let m = p.unicode_len();
    let mut cur = String::from_str(s);
    let ghost pp = p@;
    let pat = String::from_str(p);
    loop
        invariant
            m == pp.len(),
            pp == p@,
            pat@ == pp,
            strip_prefixes(cur@, pp) == strip_prefixes(s@, pp),
        decreases cur@.len(),
    {
        let n = cur.as_str().unicode_len();
        if m == 0 || m > n {
            return cur;
        }
        let head = String::from_str(cur.as_str().substring_char(0, m));
        assert(head@ =~= cur@.take(m as int));
        if head != pat {
            return cur;
        }
        let rest = String::from_str(cur.as_str().substring_char(m, n));
        assert(rest@ =~= cur@.skip(m as int));
        cur = rest;
    }
}

/// What follows `p` in `s`, if `s` starts with `p`.
fn after_prefix(s: &str, p: &str) -> (r: Option<String>)
    ensures
        r is Some <==> has_prefix(s@, p@),
        r matches Some(rest) ==> rest@ == s@.skip(p@.len() as int),
{
    let m = p.unicode_len();
    let n = s.unicode_len();
    if m > n {
        return None;
    }
    let head = String::from_str(s.substring_char(0, m));
    if head != String::from_str(p) {
        return None;
    }
    Some(String::from_str(s.substring_char(m, n)))
}

fn text_less(a: &String, b: &String) -> (r: bool)
    ensures
        r == text_lt(a@, b@),
{
    let n = a.as_str().unicode_len();
    let m = b.as_str().unicode_len();
    let mut i: usize = 0;
    assert(a@.skip(0) =~= a@ && b@.skip(0) =~= b@);
    while i < n && i < m
        invariant
            i <= n,
            i <= m,
            n == a@.len(),
            m == b@.len(),
            text_lt(a@.skip(i as int), b@.skip(i as int)) == text_lt(a@, b@),
        decreases n - i,
    {
        let x = a.as_str().get_char(i);
        let y = b.as_str().get_char(i);
        assert(a@.skip(i as int)[0] == x && b@.skip(i as int)[0] == y);
        if x != y {
            return (x as u32) < (y as u32);
        }
        assert(a@.skip(i as int).drop_first() =~= a@.skip(i + 1));
        assert(b@.skip(i as int).drop_first() =~= b@.skip(i + 1));
        i = i + 1;
    }
    assert(i == n ==> a@.skip(i as int).len() == 0);
    assert(i == m ==> b@.skip(i as int).len() == 0);
    i < m
}

/// Puts `x` into the ascending `v` where it belongs.
fn insert_ascending(v: &mut Vec<String>, x: String)
    requires
        ascending(views(old(v)@)),
        !views(old(v)@).contains(x@),
    ensures
        ascending(views(final(v)@)),
        forall|y: Seq<char>| #[trigger]
            views(final(v)@).contains(y) <==> views(old(v)@).contains(y) || y == x@,
{
    let ghost old_views = views(v@);
    let mut k: usize = 0;
    while k < v.len() && text_less(&v[k], &x)
        invariant
            k <= v@.len(),
            views(v@) == old_views,
            forall|j: int| 0 <= j < k ==> text_lt(#[trigger] old_views[j], x@),
        decreases v@.len() - k,
    {
        assert(old_views[k as int] == v@[k as int]@);
        k = k + 1;
    }
    let ghost xv = x@;
    proof {
        if k < old_views.len() {
            assert(old_views[k as int] == v@[k as int]@);
            assert(old_views.contains(old_views[k as int]));
            lemma_text_lt_total(xv, old_views[k as int]);
        }
    }
    v.insert(k, x);
    proof {
        let nv = views(v@);
        assert(nv =~= old_views.insert(k as int, xv));
        assert forall|i: int, j: int| 0 <= i < j < nv.len() implies text_lt(
            #[trigger] nv[i],
            #[trigger] nv[j],
        ) by {
            if j < k {
                assert(nv[i] == old_views[i] && nv[j] == old_views[j]);
            } else if j == k {
                assert(nv[i] == old_views[i]);
            } else if i > k {
                assert(nv[i] == old_views[i - 1] && nv[j] == old_views[j - 1]);
            } else if i == k {
                assert(nv[j] == old_views[j - 1]);
                if j - 1 > k {
                    assert(text_lt(old_views[k as int], old_views[j - 1]));
                    lemma_text_lt_transitive(xv, old_views[k as int], old_views[j - 1]);
                }
            } else {
                assert(nv[i] == old_views[i] && nv[j] == old_views[j - 1]);
            }
        }
        assert forall|y: Seq<char>| #[trigger] nv.contains(y) <==> old_views.contains(y) || y
            == xv by {
            if nv.contains(y) {
                let i = choose|i: int| 0 <= i < nv.len() && nv[i] == y;
                if i < k {
                    assert(old_views[i] == y);
                } else if i > k {
                    assert(old_views[i - 1] == y);
                }
            }
            if old_views.contains(y) {
                let i = choose|i: int| 0 <= i < old_views.len() && old_views[i] == y;
                if i < k {
                    assert(nv[i] == y);
                } else {
                    assert(nv[i + 1] == y);
                }
            }
            if y == xv {
                assert(nv[k as int] == y);
            }
        }
    }
}

fn strip_suffix_copies(s: &str, p: &str) -> (r: String)
    ensures
        r@ == strip_suffixes(s@, p@),
{
    let m = p.unicode_len();
    let mut cur = String::from_str(s);
    let ghost pp = p@;
    let pat = String::from_str(p);
    loop
        invariant
            m == pp.len(),
            pp == p@,
            pat@ == pp,
            strip_suffixes(cur@, pp) == strip_suffixes(s@, pp),
        decreases cur@.len(),
    {
        let n = cur.as_str().unicode_len();
        if m == 0 || m > n {
            return cur;
        }
        let tail = String::from_str(cur.as_str().substring_char(n - m, n));
        assert(tail@ =~= cur@.skip(n - m));
        if tail != pat {
            return cur;
        }
        let rest = String::from_str(cur.as_str().substring_char(0, n - m));
        assert(rest@ =~= cur@.take(n - m));
        cur = rest;
    }
}

fn occurs_in(s: &str, p: &str) -> (r: bool)
    ensures
        r == occurs(s@, p@),
{
    let n = s.unicode_len();
    let m = p.unicode_len();
    if m > n {
        return false;
    }
    let pat = String::from_str(p);
    let mut i: usize = 0;
    loop
        invariant
            n == s@.len(),
            m == p@.len(),
            m <= n,
            i <= n - m,
            pat@ == p@,
            forall|j: int| 0 <= j < i ==> #[trigger] s@.subrange(j, j + m) != p@,
        decreases n - m - i,
    {
        let piece = String::from_str(s.substring_char(i, i + m));
        if piece == pat {
            return true;
        }
        if i == n - m {
            return false;
        }
        i = i + 1;
    }
}

/// The command that deletes the classified branches that the remote still
/// has, all in one invocation; `remote_listing` is what `git branch -r`
/// printed. The branches come in ascending order, each once. None when no
/// branch is left to delete there.
pub fn delete_remote_branches(branches: &Branches, options: &Options, remote_listing: &str) -> (r:
    Option<Vec<String>>)
    ensures
        r is None <==> forall|x: Seq<char>|
            !(#[trigger] views(branches.vec@).contains(x) && remote_names(
                remote_listing@,
                options.remote@,
            ).contains(x)),
        r matches Some(cmd) ==> views(cmd@) == git_command(
            seq!["push"@, options.remote@, "--delete"@],
            views(cmd@).skip(4),
        ) && remote_targets(
            views(cmd@).skip(4),
            views(branches.vec@),
            remote_names(remote_listing@, options.remote@),
        ),
{
    let lines = split_at_char(remote_listing, '\n');
    let mut prefix = options.remote.clone();
    prefix.append("/");
    proof {
        reveal_strlit("/");
    }
    let ghost all = split_on(remote_listing@, '\n');
    let mut names: Vec<String> = Vec::new();
    let mut i: usize = 0;
    while i < lines.len()
        invariant
            i <= lines@.len(),
            views(lines@) == all,
            prefix@ == options.remote@ + "/"@,
            views(names@) == names_under(all.take(i as int), options.remote@ + "/"@),
        decreases lines@.len() - i,
    {
        proof {
            assert(all.take(i + 1).drop_last() == all.take(i as int));
            assert(all.take(i + 1).last() == lines@[i as int]@);
        }
        let t = trim(lines[i].as_str());
        match after_prefix(t.as_str(), prefix.as_str()) {
            Some(name) => {
                let ghost before = names@;
                names.push(name);
                proof {
                    assert(views(names@) == views(before).push(name@));
                }
            },
            None => {},
        }
        i = i + 1;
    }
    proof {
        assert(all.take(lines@.len() as int) == all);
    }
    let ghost c = views(branches.vec@);
    let mut targets: Vec<String> = Vec::new();
    let mut k: usize = 0;
    while k < branches.vec.len()
        invariant
            k <= branches.vec@.len(),
            c == views(branches.vec@),
            views(names@) == remote_names(remote_listing@, options.remote@),
            remote_targets(views(targets@), c.take(k as int), views(names@)),
        decreases branches.vec@.len() - k,
    {
        let ghost ck = c.take(k as int);
        let ghost ck1 = c.take(k + 1);
        proof {
            assert(ck1 =~= ck.push(c[k as int]));
            assert forall|x: Seq<char>| #[trigger] ck1.contains(x) <==> ck.contains(x) || x == c[k as int] by {
                if ck1.contains(x) {
                    let i = choose|i: int| 0 <= i < ck1.len() && ck1[i] == x;
                    if i < k {
                        assert(ck[i] == x);
                    }
                }
                if ck.contains(x) {
                    let i = choose|i: int| 0 <= i < ck.len() && ck[i] == x;
                    assert(ck1[i] == x);
                }
                if x == c[k as int] {
                    assert(ck1[k as int] == x);
                }
            }
            assert(c[k as int] == branches.vec@[k as int]@);
        }
        let b = &branches.vec[k];
        if contains_name(&names, b) && !contains_name(&targets, b) {
            insert_ascending(&mut targets, b.clone());
        }
        k = k + 1;
    }
    proof {
        assert(c.take(branches.vec@.len() as int) == c);
    }
    if targets.len() == 0 {
        proof {
            assert forall|x: Seq<char>|
                !(#[trigger] c.contains(x) && views(names@).contains(x)) by {
                if c.contains(x) && views(names@).contains(x) {
                    assert(views(targets@).contains(x));
                }
            }
        }
        return None;
    }
    proof {
        assert(views(targets@).contains(views(targets@)[0]));
    }
    proof {
        reveal_strlit("git");
        reveal_strlit("push");
        reveal_strlit("--delete");
    }
    let mut args: Vec<String> = Vec::new();
    args.push(word("git"));
    args.push(word("push"));
    args.push(options.remote.clone());
    args.push(word("--delete"));
    proof {
        assert(views(args@) == seq!["git"@] + seq!["push"@, options.remote@, "--delete"@]);
    }
    let cmd = command_with(args, &targets);
    proof {
        assert(views(cmd@).skip(4) =~= views(targets@));
    }
    Some(cmd)
}

fn report_of_line(line: &str) -> (r: Option<String>)
    ensures
        r matches Some(s) ==> report_line(line@) == Some(s@),
        r is None ==> report_line(line@) is None,
{
    if occurs_in(line, MISSING_PREFIX) {
        let rest = strip_prefix_copies(line, MISSING_PREFIX);
        let mut branch = strip_suffix_copies(rest.as_str(), MISSING_SUFFIX);
        branch.append(ALREADY_DELETED);
        Some(branch)
    } else if occurs_in(line, DELETED_MARK) {
        Some(String::from_str(line))
    } else {
        None
    }
}

/// Rewrites git's report of `git push --delete` (its error stream): a branch
/// that was already gone is said so plainly, a deleted one is kept as git
/// wrote it, and every other line is dropped.
pub fn remote_report(stderr: &str) -> (r: String)
    ensures
        r@ == remote_report_text(stderr@),
{
    let lines = split_at_char(stderr, '\n');
    let ghost all = split_on(stderr@, '\n');
    let mut kept: Vec<String> = Vec::new();
    let mut i: usize = 0;
    while i < lines.len()
        invariant
            i <= lines@.len(),
            views(lines@) == all,
            views(kept@) == report_lines(all.take(i as int)),
        decreases lines@.len() - i,
    {
        proof {
            assert(all.take(i + 1).drop_last() == all.take(i as int));
            assert(all.take(i + 1).last() == lines@[i as int]@);
        }
        match report_of_line(lines[i].as_str()) {
            Some(l) => {
                let ghost before = kept@;
                kept.push(l);
                proof {
                    assert(views(kept@) == views(before).push(l@));
                }
            },
            None => {},
        }
        i = i + 1;
    }
    proof {
        assert(all.take(lines@.len() as int) == all);
    }
    join_with_newlines(&kept)
}

/// The output of a git command, trimmed.
pub fn output(stdout: &str) -> (r: String)
    ensures
        r@ == trimmed(stdout@),
{
    trim(stdout)
}

} // verus!
