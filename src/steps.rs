//! The order of the per-package install steps. Each step is a gate on the
//! next: a failed step aborts the package, and nothing after it runs.

use vstd::prelude::*;

verus! {

/// One step of installing a package.
#[derive(Debug, Clone, Copy, PartialEq, Eq, Structural)]
pub enum Step {
    /// Create the install directory.
    Prepare,
    /// Fetch the artifact to the scratch path.
    Fetch,
    /// Check the artifact's digest.
    Verify,
    /// Unpack the archive into the install directory.
    Extract,
    /// Delete the scratch artifact.
    Cleanup,
    /// Run the package's own post-install script.
    PostInstall,
    /// Run the configured hooks that match the package.
    Hooks,
    /// Append the package's record; the package is done.
    Record,
    /// A step failed; the install stops here.
    Abort,
}

/// How a step went.
#[derive(Debug, Clone, Copy, PartialEq, Eq, Structural)]
pub enum Outcome {
    Succeeded,
    Failed,
}

pub open spec fn step_after(s: Step, o: Outcome, placeholder: bool) -> Step {
    if s == Step::Abort || o == Outcome::Failed {
        Step::Abort
    } else {
        match s {
            Step::Prepare => if placeholder { Step::PostInstall } else { Step::Fetch },
            Step::Fetch => Step::Verify,
            Step::Verify => Step::Extract,
            Step::Extract => Step::Cleanup,
            Step::Cleanup => Step::PostInstall,
            Step::PostInstall => Step::Hooks,
            Step::Hooks => Step::Record,
            Step::Record => Step::Record,
            Step::Abort => Step::Abort,
        }
    }
}

/// The step reached from `s` after the given outcomes, one per step.
pub open spec fn run_from(s: Step, outcomes: Seq<Outcome>, placeholder: bool) -> Step
    decreases outcomes.len(),
{
    if outcomes.len() == 0 {
        s
    } else {
        run_from(step_after(s, outcomes[0], placeholder), outcomes.drop_first(), placeholder)
    }
}

/// The step that follows `step` once it went as `outcome`. A package with a
/// placeholder digest goes from `Prepare` straight to its scripts.
pub fn next_step(step: Step, outcome: Outcome, placeholder: bool) -> (r: Step)
    ensures
        r == step_after(step, outcome, placeholder),
{
    if let Step::Abort = step {
        return Step::Abort;
    }
    if let Outcome::Failed = outcome {
        return Step::Abort;
    }
    match step {
        Step::Prepare => if placeholder { Step::PostInstall } else { Step::Fetch },
        Step::Fetch => Step::Verify,
        Step::Verify => Step::Extract,
        Step::Extract => Step::Cleanup,
        Step::Cleanup => Step::PostInstall,
        Step::PostInstall => Step::Hooks,
        Step::Hooks => Step::Record,
        Step::Record => Step::Record,
        Step::Abort => Step::Abort,
    }
}

proof fn lemma_abort_stays(outcomes: Seq<Outcome>, placeholder: bool)
    ensures
        run_from(Step::Abort, outcomes, placeholder) == Step::Abort,
    decreases outcomes.len(),
{
    if outcomes.len() > 0 {
        lemma_abort_stays(outcomes.drop_first(), placeholder);
    }
}

/// Once the digest check fails, every later step is `Abort`: the archive is
/// never extracted and no record is written for the package.
pub proof fn lemma_checksum_gate(later: Seq<Outcome>, placeholder: bool)
    ensures
        forall|k: int| 0 <= k <= later.len() ==>
            #[trigger] run_from(Step::Verify, seq![Outcome::Failed] + later.take(k), placeholder) == Step::Abort,
{
    assert forall|k: int| 0 <= k <= later.len() implies
        #[trigger] run_from(Step::Verify, seq![Outcome::Failed] + later.take(k), placeholder) == Step::Abort by {
        let os = seq![Outcome::Failed] + later.take(k);
        assert(os[0] == Outcome::Failed);
        assert(os.drop_first() =~= later.take(k));
        lemma_abort_stays(later.take(k), placeholder);
    }
}

/// A package whose digest is not a placeholder reaches `Extract` only
/// through a successful `Verify`: in a run that never aborts, the step
/// before `Extract` is `Verify`.
pub proof fn lemma_extract_follows_verify(s: Step, o: Outcome, placeholder: bool)
    requires
        step_after(s, o, placeholder) == Step::Extract,
    ensures
        s == Step::Verify,
        o == Outcome::Succeeded,
{
}

} // verus!
