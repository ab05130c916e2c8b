use vstd::prelude::*;
use vstd::string::StringExecFns;

use crate::options::Options;
use crate::text::{contains_name, views};

verus! {

/// How a fast-forward-only pull of the base branch into a branch ended.
#[derive(Debug, Clone, Copy, PartialEq, Eq, Structural)]
pub enum PullOutcome {
    /// The pull succeeded: the branch is only behind the base branch.
    FastForwarded,
    /// The pull ran and failed: the branch cannot be fast-forwarded, which is
    /// taken as a sign that it was squashed into the base branch.
    Refused,
    /// The pull could not be run (checkout or spawning failed).
    Failed,
}

/// What the cheap rules say of a branch.
#[derive(Debug, Clone, Copy, PartialEq, Eq, Structural)]
pub enum Verdict {
    /// Deletable: never pushed, and unpushed branches are to be deleted.
    Unpushed,
    /// Deletable: listed by `git branch --merged`.
    Merged,
    /// Only a fast-forward pull can tell.
    NeedsSquashCheck,
    /// Kept.
    Kept,
}

/// The git commands of one squash check. `checkout` and then `pull` run
/// first; `reset` and `restore` run after them whatever they gave, so that
/// the base branch is checked out again with a clean working tree.
pub struct SquashCheck {
    pub branch: String,
    pub checkout: Vec<String>,
    pub pull: Vec<String>,
    pub reset: Vec<String>,
    pub restore: Vec<String>,
}

/// `check` is the squash check of `b`: check it out, pull the base branch
/// from the remote with `--ff-only`, reset hard, check out the base branch.
pub open spec fn squash_check_of(check: SquashCheck, b: Seq<char>, opts: Options) -> bool {
    &&& check.branch@ == b
    &&& views(check.checkout@) == seq!["git"@, "checkout"@, b]
    &&& views(check.pull@) == seq!["git"@, "pull"@, "--ff-only"@, opts.remote@, opts.base_branch@]
    &&& views(check.reset@) == seq!["git"@, "reset"@, "--hard"@]
    &&& views(check.restore@) == seq!["git"@, "checkout"@, opts.base_branch@]
}

/// What the caller does next for a running classification.
pub enum Action {
    /// Run the squash check and report how its pull ended with
    /// `record_pull`: `Failed` where the checkout or the pull could not be
    /// run.
    CheckSquash(SquashCheck),
    /// Every branch is decided.
    Done,
}

fn word(s: &str) -> (r: String)
    ensures
        r@ == s@,
{
    String::from_str(s)
}

/// The squash check of `branch` under `options`.
pub fn squash_check(branch: &String, options: &Options) -> (r: SquashCheck)
    ensures
        squash_check_of(r, branch@, *options),
{
    proof {
        reveal_strlit("git");
        reveal_strlit("checkout");
        reveal_strlit("pull");
        reveal_strlit("--ff-only");
        reveal_strlit("reset");
        reveal_strlit("--hard");
    }
    let checkout = vec![word("git"), word("checkout"), branch.clone()];
    let pull = vec![
        word("git"),
        word("pull"),
        word("--ff-only"),
        options.remote.clone(),
        options.base_branch.clone(),
    ];
    let reset = vec![word("git"), word("reset"), word("--hard")];
    let restore = vec![word("git"), word("checkout"), options.base_branch.clone()];
    let r = SquashCheck { branch: branch.clone(), checkout, pull, reset, restore };
    proof {
        assert(views(r.checkout@) =~= seq!["git"@, "checkout"@, branch@]);
        assert(views(r.pull@) =~= seq!["git"@, "pull"@, "--ff-only"@, options.remote@, options.base_branch@]);
        assert(views(r.reset@) =~= seq!["git"@, "reset"@, "--hard"@]);
        assert(views(r.restore@) =~= seq!["git"@, "checkout"@, options.base_branch@]);
    }
    r
}

/// The name of `branch` on `remote` in `git branch -r` output.
pub open spec fn remote_ref(remote: Seq<char>, branch: Seq<char>) -> Seq<char> {
    remote + "/"@ + branch
}

/// A local branch is considered unless it is the base branch or ignored.
pub open spec fn considered(b: Seq<char>, opts: Options) -> bool {
    b != opts.base_branch@ && !views(opts.ignored_branches@).contains(b)
}

/// The local branches that are considered, in listing order.
pub open spec fn candidates(local: Seq<Seq<char>>, opts: Options) -> Seq<Seq<char>>
    decreases local.len(),
{
    if local.len() == 0 {
        Seq::empty()
    } else {
        let prev = candidates(local.drop_last(), opts);
        if considered(local.last(), opts) {
            prev.push(local.last())
        } else {
            prev
        }
    }
}

/// The rules in order, the first that applies winning.
pub open spec fn verdict(
    b: Seq<char>,
    remote: Seq<Seq<char>>,
    merged: Seq<Seq<char>>,
    opts: Options,
) -> Verdict {
    if opts.delete_unpushed_branches && !remote.contains(remote_ref(opts.remote@, b)) {
        Verdict::Unpushed
    } else if merged.contains(b) {
        Verdict::Merged
    } else if opts.squashes {
        Verdict::NeedsSquashCheck
    } else {
        Verdict::Kept
    }
}

/// Whether a branch is deletable, given its verdict and what its pull gave
/// (`None` where no pull was run).
pub open spec fn chosen(v: Verdict, outcome: Option<PullOutcome>) -> bool {
    v == Verdict::Unpushed || v == Verdict::Merged || (v == Verdict::NeedsSquashCheck && outcome
        == Some(PullOutcome::Refused))
}

/// The deletable branches among `c`, in order; `outcomes[i]` is what the pull
/// of `c[i]` gave.
pub open spec fn classified(
    c: Seq<Seq<char>>,
    outcomes: Seq<Option<PullOutcome>>,
    remote: Seq<Seq<char>>,
    merged: Seq<Seq<char>>,
    opts: Options,
) -> Seq<Seq<char>>
    decreases c.len(),
{
    if c.len() == 0 {
        Seq::empty()
    } else {
        let k = c.len() - 1;
        let prev = classified(c.drop_last(), outcomes, remote, merged, opts);
        if chosen(verdict(c[k], remote, merged, opts), outcomes[k]) {
            prev.push(c[k])
        } else {
            prev
        }
    }
}

/// Only the outcomes of `c`'s own positions matter.
pub proof fn lemma_classified_outcomes(
    c: Seq<Seq<char>>,
    o1: Seq<Option<PullOutcome>>,
    o2: Seq<Option<PullOutcome>>,
    remote: Seq<Seq<char>>,
    merged: Seq<Seq<char>>,
    opts: Options,
)
    requires
        forall|i: int| 0 <= i < c.len() ==> o1[i] == o2[i],
    ensures
        classified(c, o1, remote, merged, opts) == classified(c, o2, remote, merged, opts),
    decreases c.len(),
{
    if c.len() > 0 {
        lemma_classified_outcomes(c.drop_last(), o1, o2, remote, merged, opts);
    }
}

/// What is classified is a chosen element of `c`, and every chosen element
/// is classified.
pub proof fn lemma_classified_members(
    c: Seq<Seq<char>>,
    o: Seq<Option<PullOutcome>>,
    remote: Seq<Seq<char>>,
    merged: Seq<Seq<char>>,
    opts: Options,
)
    ensures
        forall|x: Seq<char>| #[trigger]
            classified(c, o, remote, merged, opts).contains(x) ==> exists|i: int|
                0 <= i < c.len() && c[i] == x && chosen(verdict(x, remote, merged, opts), o[i]),
        forall|i: int|
            0 <= i < c.len() && chosen(verdict(c[i], remote, merged, opts), o[i])
                ==> #[trigger] classified(c, o, remote, merged, opts).contains(c[i]),
    decreases c.len(),
{
    if c.len() > 0 {
        let k = c.len() - 1;
        let prev = classified(c.drop_last(), o, remote, merged, opts);
        lemma_classified_members(c.drop_last(), o, remote, merged, opts);
        let cur = classified(c, o, remote, merged, opts);
        assert forall|x: Seq<char>| #[trigger] cur.contains(x) implies exists|i: int|
            0 <= i < c.len() && c[i] == x && chosen(verdict(x, remote, merged, opts), o[i]) by {
            let j = choose|j: int| 0 <= j < cur.len() && cur[j] == x;
            if j < prev.len() {
                assert(prev.contains(x));
                let i = choose|i: int|
                    0 <= i < c.drop_last().len() && c.drop_last()[i] == x && chosen(
                        verdict(x, remote, merged, opts),
                        o[i],
                    );
                assert(c[i] == x);
            } else {
                assert(c[k] == x);
            }
        }
        assert forall|i: int|
            0 <= i < c.len() && chosen(verdict(c[i], remote, merged, opts), o[i]) implies #[trigger] cur.contains(
            c[i],
        ) by {
            if i < k {
                assert(c.drop_last()[i] == c[i]);
                assert(prev.contains(c[i]));
                let j = choose|j: int| 0 <= j < prev.len() && prev[j] == c[i];
                assert(cur[j] == c[i]);
            } else {
                assert(cur[cur.len() - 1] == c[i]);
            }
        }
    }
}

/// Every candidate is considered, and every considered local branch is a
/// candidate.
pub proof fn lemma_candidates_members(local: Seq<Seq<char>>, opts: Options)
    ensures
        forall|x: Seq<char>| #[trigger]
            candidates(local, opts).contains(x) ==> local.contains(x) && considered(x, opts),
        forall|x: Seq<char>|
            local.contains(x) && considered(x, opts) ==> #[trigger] candidates(
                local,
                opts,
            ).contains(x),
    decreases local.len(),
{
    if local.len() > 0 {
        let prev = candidates(local.drop_last(), opts);
        let cur = candidates(local, opts);
        lemma_candidates_members(local.drop_last(), opts);
        assert forall|x: Seq<char>| #[trigger] cur.contains(x) implies local.contains(x)
            && considered(x, opts) by {
            let j = choose|j: int| 0 <= j < cur.len() && cur[j] == x;
            if j < prev.len() {
                assert(prev.contains(x));
                let i = choose|i: int| 0 <= i < local.drop_last().len() && local.drop_last()[i] == x;
                assert(local[i] == x);
            } else {
                assert(local[local.len() - 1] == x);
            }
        }
        assert forall|x: Seq<char>| local.contains(x) && considered(x, opts) implies #[trigger] cur.contains(
            x,
        ) by {
            let i = choose|i: int| 0 <= i < local.len() && local[i] == x;
            if i < local.len() - 1 {
                assert(local.drop_last()[i] == x);
                assert(prev.contains(x));
                let j = choose|j: int| 0 <= j < prev.len() && prev[j] == x;
                assert(cur[j] == x);
            } else {
                assert(cur[cur.len() - 1] == x);
            }
        }
    }
}

/// The base branch and the ignored branches are never deletable, whatever
/// the listings and the pulls gave.
pub proof fn law_base_and_ignored_kept(
    local: Seq<Seq<char>>,
    remote: Seq<Seq<char>>,
    merged: Seq<Seq<char>>,
    opts: Options,
    outcomes: Seq<Option<PullOutcome>>,
    b: Seq<char>,
)
    requires
        b == opts.base_branch@ || views(opts.ignored_branches@).contains(b),
    ensures
        !classified(candidates(local, opts), outcomes, remote, merged, opts).contains(b),
{
    let c = candidates(local, opts);
    lemma_classified_members(c, outcomes, remote, merged, opts);
    lemma_candidates_members(local, opts);
    if classified(c, outcomes, remote, merged, opts).contains(b) {
        let i = choose|i: int|
            0 <= i < c.len() && c[i] == b && chosen(verdict(b, remote, merged, opts), outcomes[i]);
        assert(c.contains(b));
    }
}

/// With unpushed branches to be deleted, a considered local branch that has
/// no `<remote>/<branch>` entry is deletable, whatever else holds of it.
pub proof fn law_unpushed_deleted(
    local: Seq<Seq<char>>,
    remote: Seq<Seq<char>>,
    merged: Seq<Seq<char>>,
    opts: Options,
    outcomes: Seq<Option<PullOutcome>>,
    b: Seq<char>,
)
    requires
        opts.delete_unpushed_branches,
        local.contains(b),
        considered(b, opts),
        !remote.contains(remote_ref(opts.remote@, b)),
    ensures
        classified(candidates(local, opts), outcomes, remote, merged, opts).contains(b),
{
    let c = candidates(local, opts);
    lemma_classified_members(c, outcomes, remote, merged, opts);
    lemma_candidates_members(local, opts);
    assert(c.contains(b));
    let i = choose|i: int| 0 <= i < c.len() && c[i] == b;
    assert(chosen(verdict(c[i], remote, merged, opts), outcomes[i]));
}

/// A considered local branch in the merged listing is deletable, and stays so
/// when the classification runs again on the same listings, whatever the
/// pulls give either time.
pub proof fn law_merged_deleted(
    local: Seq<Seq<char>>,
    remote: Seq<Seq<char>>,
    merged: Seq<Seq<char>>,
    opts: Options,
    first: Seq<Option<PullOutcome>>,
    second: Seq<Option<PullOutcome>>,
    b: Seq<char>,
)
    requires
        local.contains(b),
        considered(b, opts),
        merged.contains(b),
    ensures
        classified(candidates(local, opts), first, remote, merged, opts).contains(b),
        classified(candidates(local, opts), second, remote, merged, opts).contains(b),
{
    let c = candidates(local, opts);
    lemma_classified_members(c, first, remote, merged, opts);
    lemma_classified_members(c, second, remote, merged, opts);
    lemma_candidates_members(local, opts);
    assert(c.contains(b));
    let i = choose|i: int| 0 <= i < c.len() && c[i] == b;
    assert(chosen(verdict(c[i], remote, merged, opts), first[i]));
    assert(chosen(verdict(c[i], remote, merged, opts), second[i]));
}

/// Without the squash check, every deletable branch is unpushed or merged,
/// and no pull outcome changes the result.
pub proof fn law_no_squash_without_flag(
    local: Seq<Seq<char>>,
    remote: Seq<Seq<char>>,
    merged: Seq<Seq<char>>,
    opts: Options,
    first: Seq<Option<PullOutcome>>,
    second: Seq<Option<PullOutcome>>,
)
    requires
        !opts.squashes,
    ensures
        forall|x: Seq<char>| #[trigger]
            classified(candidates(local, opts), first, remote, merged, opts).contains(x) ==> (
            verdict(x, remote, merged, opts) == Verdict::Unpushed || verdict(x, remote, merged, opts)
                == Verdict::Merged),
        classified(candidates(local, opts), first, remote, merged, opts) == classified(
            candidates(local, opts),
            second,
            remote,
            merged,
            opts,
        ),
{
    let c = candidates(local, opts);
    lemma_classified_members(c, first, remote, merged, opts);
    lemma_no_squash_ignores_outcomes(c, first, second, remote, merged, opts);
}

proof fn lemma_no_squash_ignores_outcomes(
    c: Seq<Seq<char>>,
    o1: Seq<Option<PullOutcome>>,
    o2: Seq<Option<PullOutcome>>,
    remote: Seq<Seq<char>>,
    merged: Seq<Seq<char>>,
    opts: Options,
)
    requires
        !opts.squashes,
    ensures
        classified(c, o1, remote, merged, opts) == classified(c, o2, remote, merged, opts),
    decreases c.len(),
{
    if c.len() > 0 {
        lemma_no_squash_ignores_outcomes(c.drop_last(), o1, o2, remote, merged, opts);
    }
}

/// The decision procedure over one run's listings, one branch at a time.
pub struct Classifier<'a> {
    options: &'a Options,
    candidates: Vec<String>,
    remote_branches: Vec<String>,
    merged_branches: Vec<String>,
    next: usize,
    awaiting: bool,
    deletable: Vec<String>,
    outcomes: Ghost<Seq<Option<PullOutcome>>>,
}

impl<'a> Classifier<'a> {
    pub closed spec fn options(&self) -> Options {
        *self.options
    }

    pub closed spec fn candidates(&self) -> Seq<Seq<char>> {
        views(self.candidates@)
    }

    pub closed spec fn remote_listing(&self) -> Seq<Seq<char>> {
        views(self.remote_branches@)
    }

    pub closed spec fn merged_listing(&self) -> Seq<Seq<char>> {
        views(self.merged_branches@)
    }

    /// How many candidates are decided.
    pub closed spec fn position(&self) -> nat {
        self.next as nat
    }

    /// Whether the pull of the candidate at `position()` is awaited.
    pub closed spec fn awaiting(&self) -> bool {
        self.awaiting
    }

    /// The pull outcome of each decided candidate, `None` where no pull ran.
    pub closed spec fn outcomes(&self) -> Seq<Option<PullOutcome>> {
        self.outcomes@
    }

    /// The deletable branches among the decided candidates.
    pub closed spec fn deletable(&self) -> Seq<Seq<char>> {
        views(self.deletable@)
    }

    pub open spec fn verdict_of(&self, b: Seq<char>) -> Verdict {
        verdict(b, self.remote_listing(), self.merged_listing(), self.options())
    }

    pub open spec fn is_done(&self) -> bool {
        self.position() == self.candidates().len() && !self.awaiting()
    }

    pub open spec fn wf(&self) -> bool {
        &&& self.position() <= self.candidates().len()
        &&& self.outcomes().len() == self.position()
        &&& self.awaiting() ==> self.position() < self.candidates().len() && self.verdict_of(
            self.candidates()[self.position() as int],
        ) == Verdict::NeedsSquashCheck
        &&& forall|i: int|
            0 <= i < self.position() ==> ((#[trigger] self.outcomes()[i]) is Some <==> self.verdict_of(
                self.candidates()[i],
            ) == Verdict::NeedsSquashCheck)
        &&& self.deletable() == classified(
            self.candidates().take(self.position() as int),
            self.outcomes(),
            self.remote_listing(),
            self.merged_listing(),
            self.options(),
        )
    }

    pub open spec fn same_inputs(&self, other: &Classifier<'a>) -> bool {
        &&& self.options() == other.options()
        &&& self.candidates() == other.candidates()
        &&& self.remote_listing() == other.remote_listing()
        &&& self.merged_listing() == other.merged_listing()
    }

    /// Starts a classification of the `local` branches, given the remote
    /// listing and the listing of branches merged into the base branch.
    pub fn new(
        local: Vec<String>,
        remote_branches: Vec<String>,
        merged_branches: Vec<String>,
        options: &'a Options,
    ) -> (r: Classifier<'a>)
        ensures
            r.wf(),
            r.options() == *options,
            r.candidates() == candidates(views(local@), *options),
            r.remote_listing() == views(remote_branches@),
            r.merged_listing() == views(merged_branches@),
            r.position() == 0,
            !r.awaiting(),
    {
        let mut kept: Vec<String> = Vec::new();
        let mut i: usize = 0;
        let ghost l = views(local@);
        while i < local.len()
            invariant
                i <= local@.len(),
                l == views(local@),
                views(kept@) == candidates(l.take(i as int), *options),
            decreases local@.len() - i,
        {
            proof {
                assert(l.take(i + 1).drop_last() == l.take(i as int));
                assert(l.take(i + 1).last() == local@[i as int]@);
            }
            let b = &local[i];
            if *b != options.base_branch && !contains_name(&options.ignored_branches, b) {
                let ghost before = kept@;
                kept.push(b.clone());
                proof {
                    assert(views(kept@) == views(before).push(b@));
                }
            }
            i = i + 1;
        }
        proof {
            assert(l.take(local@.len() as int) == l);
        }
        let r = Classifier {
            options,
            candidates: kept,
            remote_branches,
            merged_branches,
            next: 0,
            awaiting: false,
            deletable: Vec::new(),
            outcomes: Ghost(Seq::empty()),
        };
        proof {
            assert(r.candidates().take(0) == Seq::<Seq<char>>::empty());
            assert(r.deletable() == Seq::<Seq<char>>::empty());
        }
        r
    }

    fn verdict_for(&self, b: &String) -> (r: Verdict)
        ensures
            r == self.verdict_of(b@),
    {
        if self.options.delete_unpushed_branches {
            let mut name = self.options.remote.clone();
            name.append("/");
            name.append(b.as_str());
            proof {
                reveal_strlit("/");
            }
            if !contains_name(&self.remote_branches, &name) {
                return Verdict::Unpushed;
            }
        }
        if contains_name(&self.merged_branches, b) {
            Verdict::Merged
        } else if self.options.squashes {
            Verdict::NeedsSquashCheck
        } else {
            Verdict::Kept
        }
    }

    /// Decides candidates in order until one needs a pull, or none is left.
    pub fn next_action(&mut self) -> (r: Action)
        requires
            old(self).wf(),
            !old(self).awaiting(),
        ensures
            final(self).wf(),
            final(self).same_inputs(old(self)),
            old(self).outcomes().is_prefix_of(final(self).outcomes()),
            r is Done <==> final(self).is_done(),
            forall|i: int|
                old(self).position() <= i < final(self).position() ==> #[trigger] final(self).outcomes()[i] is None,
            r matches Action::CheckSquash(check) ==> final(self).awaiting() && squash_check_of(
                check,
                final(self).candidates()[final(self).position() as int],
                final(self).options(),
            ),
            r is CheckSquash ==> final(self).options().squashes,
    {
        while self.next < self.candidates.len()
            invariant
                self.wf(),
                !self.awaiting(),
                self.same_inputs(old(self)),
                old(self).outcomes().is_prefix_of(self.outcomes()),
                old(self).position() <= self.position(),
                forall|i: int|
                    old(self).position() <= i < self.position() ==> #[trigger] self.outcomes()[i] is None,
            decreases self.candidates@.len() - self.next,
        {
            let v = self.verdict_for(&self.candidates[self.next]);
            if v == Verdict::NeedsSquashCheck {
                self.awaiting = true;
                let check = squash_check(&self.candidates[self.next], self.options);
                return Action::CheckSquash(check);
            }
            let ghost n = self.next as int;
            let ghost c = self.candidates();
            let ghost o = self.outcomes@;
            if v != Verdict::Kept {
                let b = self.candidates[self.next].clone();
                let ghost before = self.deletable@;
                self.deletable.push(b);
                proof {
                    assert(views(self.deletable@) == views(before).push(b@));
                }
            }
            self.outcomes = Ghost(self.outcomes@.push(None));
            self.next = self.next + 1;
            proof {
                assert(c.take(n + 1).drop_last() == c.take(n));
                assert(c.take(n + 1)[n] == c[n]);
                lemma_classified_outcomes(
                    c.take(n),
                    o,
                    self.outcomes@,
                    self.remote_listing(),
                    self.merged_listing(),
                    self.options(),
                );
                assert(self.outcomes@[n] == None::<PullOutcome>);
                assert forall|i: int| 0 <= i < n implies self.outcomes@[i] == o[i] by {}
            }
        }
        Action::Done
    }

    /// Takes the outcome of the pull that `next_action` asked for.
    pub fn record_pull(&mut self, outcome: PullOutcome)
        requires
            old(self).wf(),
            old(self).awaiting(),
        ensures
            final(self).wf(),
            final(self).same_inputs(old(self)),
            !final(self).awaiting(),
            final(self).position() == old(self).position() + 1,
            final(self).outcomes() == old(self).outcomes().push(Some(outcome)),
    {
        let ghost n = self.next as int;
        let ghost c = self.candidates();
        let ghost o = self.outcomes@;
        let total = self.candidates.len();
        assert(self.next < total);
        if outcome == PullOutcome::Refused {
            let b = self.candidates[self.next].clone();
            let ghost before = self.deletable@;
            self.deletable.push(b);
            proof {
                assert(views(self.deletable@) == views(before).push(b@));
            }
        }
        self.outcomes = Ghost(self.outcomes@.push(Some(outcome)));
        self.next = self.next + 1;
        self.awaiting = false;
        proof {
            assert(c.take(n + 1).drop_last() == c.take(n));
            assert(c.take(n + 1)[n] == c[n]);
            lemma_classified_outcomes(
                c.take(n),
                o,
                self.outcomes@,
                self.remote_listing(),
                self.merged_listing(),
                self.options(),
            );
        }
    }

    /// The deletable branches, in the order of the local listing.
    pub fn into_deletable(self) -> (r: Vec<String>)
        requires
            self.wf(),
            self.is_done(),
        ensures
            views(r@) == classified(
                self.candidates(),
                self.outcomes(),
                self.remote_listing(),
                self.merged_listing(),
                self.options(),
            ),
    {
        proof {
            assert(self.candidates().take(self.position() as int) == self.candidates());
        }
        self.deletable
    }
}

} // verus!
