use vstd::prelude::*;
use vstd::string::StringExecFns;
use vstd::utf8::encode_utf8;

use crate::classify::{classified, Classifier};
use crate::commands::{delete_local_branches, git_command, remote_report, remote_report_text};
use crate::options::{DeleteMode, Options};
use crate::text::{
    join_lines, join_with_newlines, push_char, strip_trailing, trim, trim_end_char, trimmed, views,
};

verus! {

/// Blank space between the widest entry of a column and the next column.
pub const COLUMN_SPACER_LENGTH: usize = 30;

/// A list of branch names, with the text that shows it one per line.
#[derive(Debug)]
pub struct Branches {
    pub string: String,
    pub vec: Vec<String>,
}

/// The branch names one per line, without trailing newlines.
pub open spec fn listing_text(v: Seq<Seq<char>>) -> Seq<char> {
    strip_trailing(join_lines(v), '\n')
}

/// The length of `s` in UTF-8 bytes, as `str::len` gives it.
pub open spec fn byte_len(s: Seq<char>) -> nat {
    encode_utf8(s).len() as usize as nat
}

/// The number of columns for `n` names: one per 25, at most three.
pub open spec fn column_count(n: nat) -> nat {
    if n / 25 + 1 < 3 {
        n / 25 + 1
    } else {
        3
    }
}

/// The byte length of the longest name at place `col` of the rows of `cols`
/// names that `v` is cut into (0 if there is none).
pub open spec fn widest(v: Seq<Seq<char>>, cols: nat, col: nat) -> nat
    decreases v.len(),
{
    if v.len() == 0 {
        0
    } else {
        let k = v.len() - 1;
        let w = widest(v.drop_last(), cols, col);
        if k % (cols as int) == col && byte_len(v[k]) > w {
            byte_len(v[k])
        } else {
            w
        }
    }
}

/// Where each column after the first starts.
pub open spec fn column_starts(v: Seq<Seq<char>>, cols: nat) -> Seq<nat> {
    Seq::new((cols - 1) as nat, |i: int| (widest(v, cols, i as nat) + COLUMN_SPACER_LENGTH) as nat)
}

/// `s` filled with spaces up to `width` characters.
pub open spec fn padded(s: Seq<char>, width: nat) -> Seq<char> {
    if s.len() < width {
        s + Seq::new((width - s.len()) as nat, |i: int| ' ')
    } else {
        s
    }
}

/// One row of one to three names, each but the last filled up to where the
/// next column starts.
pub open spec fn row_text(chunk: Seq<Seq<char>>, starts: Seq<nat>) -> Seq<char> {
    if chunk.len() == 1 {
        chunk[0]
    } else if chunk.len() == 2 {
        padded(chunk[0], starts[0]) + chunk[1]
    } else {
        padded(chunk[0], starts[0]) + padded(chunk[1], starts[1]) + chunk[2]
    }
}

/// The rows of `v` cut into pieces of `cols` names.
pub open spec fn rows_of(v: Seq<Seq<char>>, cols: nat, starts: Seq<nat>) -> Seq<Seq<char>>
    decreases v.len(),
{
    if v.len() == 0 || cols == 0 {
        Seq::empty()
    } else if v.len() <= cols {
        seq![row_text(v, starts)]
    } else {
        seq![row_text(v.take(cols as int), starts)] + rows_of(v.skip(cols as int), cols, starts)
    }
}

/// The names laid out in columns: one column below 26 names (`single`, the
/// one-per-line text), else one more per 25 names, up to three.
pub open spec fn columns_text(v: Seq<Seq<char>>, single: Seq<char>) -> Seq<char> {
    if v.len() < 26 {
        single
    } else {
        let cols = column_count(v.len());
        trimmed(join_lines(rows_of(v, cols, column_starts(v, cols))))
    }
}

/// Every name is short enough that its column start fits in a `usize`.
pub open spec fn widths_fit(v: Seq<Seq<char>>) -> bool {
    forall|i: int| 0 <= i < v.len() ==> byte_len(#[trigger] v[i]) + COLUMN_SPACER_LENGTH <= usize::MAX
}

fn widest_in_column(v: &Vec<String>, cols: usize, col: usize) -> (r: usize)
    requires
        cols > 0,
        widths_fit(views(v@)),
    ensures
        r == widest(views(v@), cols as nat, col as nat),
{
    let ghost all = views(v@);
    let mut w: usize = 0;
    let mut k: usize = 0;
    while k < v.len()
        invariant
            k <= v@.len(),
            cols > 0,
            all == views(v@),
            widths_fit(all),
            w == widest(all.take(k as int), cols as nat, col as nat),
        decreases v@.len() - k,
    {
        proof {
            assert(all.take(k + 1).drop_last() == all.take(k as int));
            assert(all.take(k + 1).last() == v@[k as int]@);
        }
        let len = v[k].as_str().len();
        assert(all[k as int] == v@[k as int]@);
        assert(len == byte_len(all[k as int]));
        if k % cols == col && len > w {
            w = len;
        }
        k = k + 1;
    }
    proof {
        assert(all.take(v@.len() as int) == all);
    }
    w
}

fn pad_to(s: &String, width: usize) -> (r: String)
    ensures
        r@ == padded(s@, width as nat),
{
    let n = s.as_str().unicode_len();
    let mut r = s.clone();
    if n < width {
        let mut j: usize = 0;
        while j < width - n
            invariant
                n == s@.len(),
                n < width,
                j <= width - n,
                r@ == s@ + Seq::new(j as nat, |i: int| ' '),
            decreases width - n - j,
        {
            push_char(&mut r, ' ');
            proof {
                assert(Seq::new((j + 1) as nat, |i: int| ' ') == Seq::new(j as nat, |i: int| ' ').push(' '));
                assert(r@ == s@ + Seq::new((j + 1) as nat, |i: int| ' '));
            }
            j = j + 1;
        }
    }
    r
}

/// One row of the column layout.
pub fn make_row(chunks: &[String], col_indices: &[usize]) -> (r: String)
    requires
        1 <= chunks@.len() <= 3,
        col_indices@.len() + 1 >= chunks@.len(),
    ensures
        r@ == row_text(views(chunks@), col_indices@.map_values(|x: usize| x as nat)),
{
    let ghost starts = col_indices@.map_values(|x: usize| x as nat);
    let ghost names = views(chunks@);
    assert(names[0] == chunks@[0]@);
    if chunks.len() == 1 {
        chunks[0].clone()
    } else if chunks.len() == 2 {
        assert(names[1] == chunks@[1]@);
        let mut s = pad_to(&chunks[0], col_indices[0]);
        s.append(chunks[1].as_str());
        s
    } else {
        assert(names[1] == chunks@[1]@);
        assert(names[2] == chunks@[2]@);
        let mut s = pad_to(&chunks[0], col_indices[0]);
        let second = pad_to(&chunks[1], col_indices[1]);
        s.append(second.as_str());
        s.append(chunks[2].as_str());
        s
    }
}

/// The report of a deletion: `local` is what the local deletion printed,
/// `remote_errors` what the remote one wrote to its error stream.
pub open spec fn deletion_report(
    v: Seq<Seq<char>>,
    mode: DeleteMode,
    local: Seq<char>,
    remote_errors: Seq<char>,
) -> Seq<char> {
    if v.len() == 0 {
        Seq::empty()
    } else {
        match mode {
            DeleteMode::Local => local,
            DeleteMode::Remote => remote_report_text(remote_errors),
            DeleteMode::Both => "Remote:\n"@ + remote_report_text(remote_errors) + "\n\nLocal:\n"@
                + local,
        }
    }
}

/// The git commands that a deletion runs before any push: the local
/// deletion, and the listing of remote branches that the remote deletion
/// reads (see `delete_remote_branches`).
pub struct DeletionPlan {
    pub local: Option<Vec<String>>,
    pub remote_listing: Option<Vec<String>>,
}

/// What `str::to_lowercase` makes of a string.
pub uninterp spec fn lowercase(s: Seq<char>) -> Seq<char>;

/// Relies on `str::to_lowercase`: the result depends on the characters alone.
#[verifier::external_body]
fn to_lowercase(s: &str) -> (r: String)
    ensures
        r@ == lowercase(s@),
{
    s.to_lowercase()
}

/// The lowercased answers, line end included, that go on with the deletion.
pub open spec fn is_yes(answer: Seq<char>) -> bool {
    answer == "y\n"@ || answer == "y\r\n"@ || answer == "yes\n"@ || answer == "yes\r\n"@ || answer
        == "\n"@ || answer == "\r\n"@
}

fn same_text(a: &String, b: &str) -> (r: bool)
    ensures
        r == (a@ == b@),
{
    *a == String::from_str(b)
}

/// Whether an answer already in lower case goes on with the deletion.
pub fn accepts(lowered: &str) -> (r: bool)
    ensures
        r == is_yes(lowered@),
{
    proof {
        reveal_strlit("y\n");
        reveal_strlit("y\r\n");
        reveal_strlit("yes\n");
        reveal_strlit("yes\r\n");
        reveal_strlit("\n");
        reveal_strlit("\r\n");
    }
    let a = String::from_str(lowered);
    same_text(&a, "y\n") || same_text(&a, "y\r\n") || same_text(&a, "yes\n") || same_text(
        &a,
        "yes\r\n",
    ) || same_text(&a, "\n") || same_text(&a, "\r\n")
}

/// Whether the line read after the confirmation prompt goes on with the
/// deletion: yes, y or nothing, in any case.
pub fn confirms(answer: &str) -> (r: bool)
    ensures
        r == is_yes(lowercase(answer@)),
{
    let lowered = to_lowercase(answer);
    accepts(lowered.as_str())
}

impl Branches {
    pub fn new(branches: Vec<String>) -> (r: Branches)
        ensures
            r.vec@ == branches@,
            r.string@ == listing_text(views(branches@)),
    {
        let joined = join_with_newlines(&branches);
        let trimmed_string = trim_end_char(joined.as_str(), '\n');
        Branches { string: trimmed_string, vec: branches }
    }

    /// The deletable branches of a finished classification.
    pub fn merged(classifier: Classifier) -> (r: Branches)
        requires
            classifier.wf(),
            classifier.is_done(),
        ensures
            views(r.vec@) == classified(
                classifier.candidates(),
                classifier.outcomes(),
                classifier.remote_listing(),
                classifier.merged_listing(),
                classifier.options(),
            ),
            r.string@ == listing_text(views(r.vec@)),
    {
        Branches::new(classifier.into_deletable())
    }

    /// The commands that the deletion in `options`' mode runs first; none at
    /// all when there are no branches.
    pub fn plan_deletion(&self, options: &Options) -> (r: DeletionPlan)
        ensures
            r.local is Some <==> options.delete_mode != DeleteMode::Remote && self.vec@.len() > 0,
            r.local matches Some(cmd) ==> views(cmd@) == git_command(
                seq!["branch"@, "-D"@],
                views(self.vec@),
            ),
            r.remote_listing is Some <==> options.delete_mode != DeleteMode::Local && self.vec@.len()
                > 0,
            r.remote_listing matches Some(cmd) ==> views(cmd@) == seq!["git"@, "branch"@, "-r"@],
    {
        let local = if options.delete_mode != DeleteMode::Remote {
            delete_local_branches(self)
        } else {
            None
        };
        let remote_listing = if options.delete_mode != DeleteMode::Local && self.vec.len() > 0 {
            proof {
                reveal_strlit("git");
                reveal_strlit("branch");
                reveal_strlit("-r");
            }
            let cmd = vec![String::from_str("git"), String::from_str("branch"), String::from_str("-r")];
            proof {
                assert(views(cmd@) =~= seq!["git"@, "branch"@, "-r"@]);
            }
            Some(cmd)
        } else {
            None
        };
        DeletionPlan { local, remote_listing }
    }

    /// The report of the deletion in `options`' mode: `local_output` is what
    /// the local deletion printed, `remote_errors` what the remote deletion
    /// wrote to its error stream (empty where it did not run). Remote results
    /// come first where both sides are deleted; with no branches the report is
    /// empty.
    pub fn delete(&self, options: &Options, local_output: &str, remote_errors: &str) -> (r: String)
        ensures
            r@ == deletion_report(
                views(self.vec@),
                options.delete_mode,
                local_output@,
                remote_errors@,
            ),
    {
        if self.vec.len() == 0 {
            return String::new();
        }
        match options.delete_mode {
            DeleteMode::Local => String::from_str(local_output),
            DeleteMode::Remote => remote_report(remote_errors),
            DeleteMode::Both => {
                proof {
                    reveal_strlit("Remote:\n");
                    reveal_strlit("\n\nLocal:\n");
                }
                let mut s = String::from_str("Remote:\n");
                let remote = remote_report(remote_errors);
                s.append(remote.as_str());
                s.append("\n\nLocal:\n");
                s.append(local_output);
                s
            },
        }
    }

    /// Whether every name is short enough for `format_columns`.
    pub fn columns_fit(&self) -> (r: bool)
        ensures
            r == widths_fit(views(self.vec@)),
    {
        let mut i: usize = 0;
        while i < self.vec.len()
            invariant
                i <= self.vec@.len(),
                forall|j: int|
                    0 <= j < i ==> byte_len(#[trigger] views(self.vec@)[j]) + COLUMN_SPACER_LENGTH
                        <= usize::MAX,
            decreases self.vec@.len() - i,
        {
            let len = self.vec[i].as_str().len();
            assert(views(self.vec@)[i as int] == self.vec@[i as int]@);
            if len > usize::MAX - COLUMN_SPACER_LENGTH {
                assert(len == byte_len(views(self.vec@)[i as int]));
                return false;
            }
            assert(len == byte_len(views(self.vec@)[i as int]));
            i = i + 1;
        }
        true
    }

    /// The names laid out in up to three columns.
    pub fn format_columns(&self) -> (r: String)
        requires
            widths_fit(views(self.vec@)),
        ensures
            r@ == columns_text(views(self.vec@), self.string@),
    {
        let n = self.vec.len();
        if n < 26 {
            return self.string.clone();
        }
        let ghost v = views(self.vec@);
        let cols: usize = if n / 25 + 1 < 3 {
            n / 25 + 1
        } else {
            3
        };
        let ghost starts = column_starts(v, cols as nat);
        let mut col_indices: Vec<usize> = Vec::new();
        let mut i: usize = 1;
        while i < cols
            invariant
                1 <= i <= cols,
                cols == column_count(n as nat),
                n == v.len(),
                v == views(self.vec@),
                widths_fit(v),
                col_indices@.len() == i - 1,
                starts == column_starts(v, cols as nat),
                forall|j: int| 0 <= j < i - 1 ==> #[trigger] col_indices@[j] as nat == starts[j],
            decreases cols - i,
        {
            let w = widest_in_column(&self.vec, cols, i - 1);
            proof {
                lemma_widest_is_a_width(v, cols as nat, (i - 1) as nat);
            }
            col_indices.push(w + COLUMN_SPACER_LENGTH);
            assert(starts.len() == cols - 1);
            assert(starts[i - 1] == widest(v, cols as nat, (i - 1) as nat) + COLUMN_SPACER_LENGTH);
            assert(col_indices@[i - 1] as nat == starts[i - 1]);
            i = i + 1;
        }
        proof {
            assert(col_indices@.map_values(|x: usize| x as nat) == starts);
        }
        let mut lines: Vec<String> = Vec::new();
        let mut start: usize = 0;
        assert(v.skip(0) == v);
        assert(views(lines@) == Seq::<Seq<char>>::empty());
        while start < n
            invariant
                start <= n,
                n == v.len(),
                1 <= cols <= 3,
                cols == column_count(n as nat),
                v == views(self.vec@),
                col_indices@.len() == cols - 1,
                col_indices@.map_values(|x: usize| x as nat) == starts,
                views(lines@) + rows_of(v.skip(start as int), cols as nat, starts) == rows_of(
                    v,
                    cols as nat,
                    starts,
                ),
            decreases n - start,
        {
            let end = if n - start > cols {
                start + cols
            } else {
                n
            };
            let chunk = &self.vec.as_slice()[start..end];
            let row = make_row(chunk, col_indices.as_slice());
            proof {
                let rest = v.skip(start as int);
                assert(views(chunk@) == v.subrange(start as int, end as int));
                if n - start > cols {
                    assert(rest.take(cols as int) == v.subrange(start as int, end as int));
                    assert(rest.skip(cols as int) == v.skip(end as int));
                } else {
                    assert(rest == v.subrange(start as int, end as int));
                    assert(v.skip(end as int) == Seq::<Seq<char>>::empty());
                }
            }
            let ghost before = lines@;
            lines.push(row);
            proof {
                assert(views(lines@) == views(before).push(row@));
                let rest = v.skip(start as int);
                if n - start > cols {
                    assert(rows_of(rest, cols as nat, starts) == seq![row@] + rows_of(
                        v.skip(end as int),
                        cols as nat,
                        starts,
                    ));
                } else {
                    assert(rows_of(rest, cols as nat, starts) == seq![row@]);
                }
                assert(views(lines@) + rows_of(v.skip(end as int), cols as nat, starts) == views(
                    before,
                ) + rows_of(rest, cols as nat, starts));
            }
            start = end;
        }
        proof {
            assert(v.skip(n as int) == Seq::<Seq<char>>::empty());
            assert(views(lines@) == rows_of(v, cols as nat, starts));
        }
        let joined = join_with_newlines(&lines);
        trim(joined.as_str())
    }
}

proof fn lemma_widest_is_a_width(v: Seq<Seq<char>>, cols: nat, col: nat)
    requires
        widths_fit(v),
    ensures
        widest(v, cols, col) + COLUMN_SPACER_LENGTH <= usize::MAX,
    decreases v.len(),
{
    if v.len() > 0 {
        lemma_widest_is_a_width(v.drop_last(), cols, col);
        assert forall|i: int| 0 <= i < v.drop_last().len() implies byte_len(#[trigger] v.drop_last()[i])
            + COLUMN_SPACER_LENGTH <= usize::MAX by {
            assert(v.drop_last()[i] == v[i]);
        }
    }
}

} // verus!
