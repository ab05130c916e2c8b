use vstd::prelude::*;
use vstd::string::StringExecFns;

use crate::error::Error;
use crate::options::Options;
use crate::pattern::{regex_match, regex_valid, LinePattern};
use crate::text::{split_at_char, split_on, trim, trimmed, views};

verus! {

/// Matches the line of the base branch in `git branch` output, marked as
/// checked out or not.
pub open spec fn local_exclusion(base: Seq<char>) -> Seq<char> {
    "^\\*?\\s*"@ + base + "$"@
}

/// Matches the lines of `git branch -r` output that name `HEAD` or the base
/// branch.
pub open spec fn remote_exclusion(base: Seq<char>) -> Seq<char> {
    "\\b(HEAD|"@ + base + ")\\b"@
}

/// A trimmed line with the checked-out marker taken off.
pub open spec fn entry_name(t: Seq<char>) -> Seq<char> {
    if t.len() > 0 && t[0] == '*' {
        trimmed(t.drop_first())
    } else {
        t
    }
}

/// The branch named on one line of a listing.
pub open spec fn line_entry(line: Seq<char>) -> Seq<char> {
    entry_name(trimmed(line))
}

/// The branch names on `lines`, leaving out the lines that `exclusion`
/// matches and those that name nothing.
pub open spec fn listed(lines: Seq<Seq<char>>, exclusion: Seq<char>) -> Seq<Seq<char>>
    decreases lines.len(),
{
    if lines.len() == 0 {
        Seq::empty()
    } else {
        let prev = listed(lines.drop_last(), exclusion);
        let line = lines.last();
        if regex_match(exclusion, line) || line_entry(line).len() == 0 {
            prev
        } else {
            prev.push(line_entry(line))
        }
    }
}

/// The branch names in `output` under the exclusion pattern `exclusion`.
pub open spec fn listing(output: Seq<char>, exclusion: Seq<char>) -> Seq<Seq<char>> {
    listed(split_on(output, '\n'), exclusion)
}

fn local_exclusion_text(base: &String) -> (r: String)
    ensures
        r@ == local_exclusion(base@),
{
    proof {
        reveal_strlit("^\\*?\\s*");
        reveal_strlit("$");
    }
    let mut s = String::from_str("^\\*?\\s*");
    s.append(base.as_str());
    s.append("$");
    s
}

fn remote_exclusion_text(base: &String) -> (r: String)
    ensures
        r@ == remote_exclusion(base@),
{
    proof {
        reveal_strlit("\\b(HEAD|");
        reveal_strlit(")\\b");
    }
    let mut s = String::from_str("\\b(HEAD|");
    s.append(base.as_str());
    s.append(")\\b");
    s
}

/// The branch name on one line of a listing, without the checked-out marker.
fn entry_of(line: &str) -> (r: String)
    ensures
        r@ == line_entry(line@),
{
    let t = trim(line);
    if t.as_str().unicode_len() > 0 && t.as_str().get_char(0) == '*' {
        let n = t.as_str().unicode_len();
        let rest = t.as_str().substring_char(1, n);
        proof {
            assert(rest@ == t@.drop_first());
        }
        trim(rest)
    } else {
        t
    }
}

/// The branch names in the output of a `git branch` command, leaving out the
/// lines that `exclusion` matches.
fn parse_listing(output: &str, exclusion: &LinePattern) -> (r: Vec<String>)
    ensures
        views(r@) == listing(output@, exclusion.source()),
{
    let lines = split_at_char(output, '\n');
    let ghost all = split_on(output@, '\n');
    let mut names: Vec<String> = Vec::new();
    let mut i: usize = 0;
    while i < lines.len()
        invariant
            i <= lines@.len(),
            views(lines@) == all,
            views(names@) == listed(all.take(i as int), exclusion.source()),
        decreases lines@.len() - i,
    {
        proof {
            assert(all.take(i + 1).drop_last() == all.take(i as int));
            assert(all.take(i + 1).last() == lines@[i as int]@);
        }
        let line = lines[i].as_str();
        if !exclusion.is_match(line) {
            let name = entry_of(line);
            if name.as_str().unicode_len() > 0 {
                let ghost before = names@;
                names.push(name);
                proof {
                    assert(views(names@) == views(before).push(name@));
                }
            }
        }
        i = i + 1;
    }
    proof {
        assert(all.take(lines@.len() as int) == all);
    }
    names
}

/// Branch names in the output of `git branch` (or `git branch --merged`),
/// without the base branch's line.
pub fn local_branches(output: &str, options: &Options) -> (r: Result<Vec<String>, Error>)
    ensures
        r is Err <==> !regex_valid(local_exclusion(options.base_branch@)),
        r matches Err(e) ==> e == Error::InvalidBranchName,
        r matches Ok(v) ==> views(v@) == listing(output@, local_exclusion(options.base_branch@)),
{
    match LinePattern::compile(local_exclusion_text(&options.base_branch)) {
        Some(p) => Ok(parse_listing(output, &p)),
        None => Err(Error::InvalidBranchName),
    }
}

/// Branch names in the output of `git branch -r`, without the lines that name
/// `HEAD` or the base branch.
pub fn remote_branches(output: &str, options: &Options) -> (r: Result<Vec<String>, Error>)
    ensures
        r is Err <==> !regex_valid(remote_exclusion(options.base_branch@)),
        r matches Err(e) ==> e == Error::InvalidBranchName,
        r matches Ok(v) ==> views(v@) == listing(output@, remote_exclusion(options.base_branch@)),
{
    match LinePattern::compile(remote_exclusion_text(&options.base_branch)) {
        Some(p) => Ok(parse_listing(output, &p)),
        None => Err(Error::InvalidBranchName),
    }
}

} // verus!
