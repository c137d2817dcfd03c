//! The outcomes of the blocks of a text, and what they come to under a policy.

use vstd::prelude::*;
use crate::ast::ControllerModel;
use crate::error::Failure;

verus! {

/// What to do when a controller block cannot be read.
#[derive(Clone, Copy, Debug, PartialEq, Eq)]
pub enum ErrorPolicy {
    /// The first block that fails ends the parse with its error.
    FailFast,
    /// A block that fails is left out; the others are returned.
    BestEffort,
}

impl Default for ErrorPolicy {
    /// Failing fast is the default: nothing is left out in silence.
    fn default() -> (r: Self)
        ensures
            r == ErrorPolicy::FailFast,
    {
        ErrorPolicy::FailFast
    }
}

/// What reading one block gives: the controller, or why the block could not be read.
pub type Outcome = Result<ControllerModel, Failure>;

/// The index of the first outcome that is a failure.
pub open spec fn first_failure(o: Seq<Outcome>) -> Option<int>
    decreases o.len(),
{
    if o.len() == 0 {
        None
    } else {
        match first_failure(o.drop_last()) {
            Some(i) => Some(i),
            None => if o.last() is Err {
                Some(o.len() - 1)
            } else {
                None
            },
        }
    }
}

/// The controllers of the outcomes that are no failures, in order.
pub open spec fn successes(o: Seq<Outcome>) -> Seq<ControllerModel>
    decreases o.len(),
{
    if o.len() == 0 {
        Seq::empty()
    } else {
        match o.last() {
            Ok(c) => successes(o.drop_last()).push(c),
            Err(_) => successes(o.drop_last()),
        }
    }
}

/// What the outcomes of the blocks come to under `policy`.
pub open spec fn settle(o: Seq<Outcome>, policy: ErrorPolicy) -> Result<
    Seq<ControllerModel>,
    Failure,
> {
    match policy {
        ErrorPolicy::FailFast => match first_failure(o) {
            Some(i) => Err(o[i]->Err_0),
            None => Ok(successes(o)),
        },
        ErrorPolicy::BestEffort => Ok(successes(o)),
    }
}

/// A failure among the first `n` outcomes is the first failure of them all.
pub proof fn lemma_first_failure_prefix(o: Seq<Outcome>, n: int)
    requires
        0 <= n <= o.len(),
        first_failure(o.take(n)) is Some,
    ensures
        first_failure(o) == first_failure(o.take(n)),
        first_failure(o)->0 < n,
    decreases o.len() - n,
{
    lemma_first_failure(o.take(n));
    if n < o.len() {
        assert(o.take(n + 1).drop_last() =~= o.take(n));
        lemma_first_failure_prefix(o, n + 1);
    } else {
        assert(o.take(n) =~= o);
    }
}

/// `first_failure` gives the least index of a failure, and `None` only where every
/// outcome is a success.
pub proof fn lemma_first_failure(o: Seq<Outcome>)
    ensures
        match first_failure(o) {
            Some(i) => 0 <= i < o.len() && o[i] is Err && forall|j: int|
                0 <= j < i ==> (#[trigger] o[j]) is Ok,
            None => forall|j: int| 0 <= j < o.len() ==> (#[trigger] o[j]) is Ok,
        },
    decreases o.len(),
{
    if o.len() > 0 {
        lemma_first_failure(o.drop_last());
        assert(forall|j: int| 0 <= j < o.len() - 1 ==> o.drop_last()[j] == o[j]);
    }
}

/// Where every outcome is a success, the successes are the outcomes, one for one.
pub proof fn lemma_successes_of_all(o: Seq<Outcome>)
    requires
        forall|i: int| 0 <= i < o.len() ==> (#[trigger] o[i]) is Ok,
    ensures
        first_failure(o) is None,
        successes(o).len() == o.len(),
        forall|i: int| 0 <= i < o.len() ==> successes(o)[i] == (#[trigger] o[i])->Ok_0,
    decreases o.len(),
{
    if o.len() > 0 {
        assert(forall|j: int| 0 <= j < o.len() - 1 ==> o.drop_last()[j] == o[j]);
        lemma_successes_of_all(o.drop_last());
    }
}

/// How many of the outcomes before the one at `i` are successes.
pub open spec fn rank(o: Seq<Outcome>, i: int) -> int {
    successes(o.take(i)).len() as int
}

/// A success is kept whatever becomes of the other outcomes: it stands among the
/// successes, after the successes that come before it.
pub proof fn lemma_success_is_kept(o: Seq<Outcome>, i: int)
    requires
        0 <= i < o.len(),
        o[i] is Ok,
    ensures
        0 <= rank(o, i) < successes(o).len(),
        successes(o)[rank(o, i)] == o[i]->Ok_0,
    decreases o.len(),
{
    if i == o.len() - 1 {
        assert(o.take(i) =~= o.drop_last());
    } else {
        lemma_success_is_kept(o.drop_last(), i);
        assert(o.drop_last().take(i) =~= o.take(i));
    }
}

/// Each of the successes comes from an outcome that is one, and they stand in the
/// order of their outcomes.
pub proof fn lemma_successes_come_from_outcomes(o: Seq<Outcome>, k: int)
    requires
        0 <= k < successes(o).len(),
    ensures
        exists|i: int| 0 <= i < o.len() && (#[trigger] o[i]) is Ok && rank(o, i) == k,
    decreases o.len(),
{
    let before = o.drop_last();
    let last = o.len() - 1;
    if o.last() is Ok && k == successes(before).len() {
        assert(o.take(last) =~= before);
        assert(o[last] is Ok && rank(o, last) == k);
    } else {
        lemma_successes_come_from_outcomes(before, k);
        let i = choose|i: int|
            0 <= i < before.len() && (#[trigger] before[i]) is Ok && rank(before, i) == k;
        assert(before.take(i) =~= o.take(i));
        assert(o[i] is Ok && rank(o, i) == k);
    }
}

/// What the two policies come to. Failing fast gives the failure of the first block
/// that fails, and every controller where none fails. Best effort never fails on a
/// block: it gives the controllers of the blocks that can be read.
pub proof fn lemma_settle(o: Seq<Outcome>)
    ensures
        match settle(o, ErrorPolicy::FailFast) {
            Ok(controllers) => controllers == successes(o) && controllers.len() == o.len()
                && forall|i: int| 0 <= i < o.len() ==> (#[trigger] o[i]) == Ok::<
                    ControllerModel,
                    Failure,
                >(controllers[i]),
            Err(f) => exists|i: int|
                0 <= i < o.len() && (#[trigger] o[i]) == Err::<ControllerModel, Failure>(f)
                    && forall|j: int| 0 <= j < i ==> (#[trigger] o[j]) is Ok,
        },
        settle(o, ErrorPolicy::BestEffort) == Ok::<Seq<ControllerModel>, Failure>(successes(o)),
        successes(o).len() <= o.len(),
{
    lemma_first_failure(o);
    lemma_successes_of_some(o);
    match first_failure(o) {
        None => {
            lemma_successes_of_all(o);
        },
        Some(i) => {
            assert(o[i] == Err::<ControllerModel, Failure>(o[i]->Err_0));
        },
    }
}

/// The successes are well formed where the outcomes they come from are.
pub proof fn lemma_successes_well_formed(o: Seq<Outcome>)
    requires
        forall|i: int| 0 <= i < o.len() && (#[trigger] o[i]) is Ok ==> o[i]->Ok_0.well_formed(),
    ensures
        forall|k: int| 0 <= k < successes(o).len() ==> (#[trigger] successes(o)[k]).well_formed(),
    decreases o.len(),
{
    if o.len() > 0 {
        assert(forall|j: int| 0 <= j < o.len() - 1 ==> o.drop_last()[j] == o[j]);
        lemma_successes_of_some(o.drop_last());
        lemma_successes_well_formed(o.drop_last());
        assert(o.last() == o[o.len() - 1]);
    }
}

/// There are no more successes than outcomes.
pub proof fn lemma_successes_of_some(o: Seq<Outcome>)
    ensures
        successes(o).len() <= o.len(),
    decreases o.len(),
{
    if o.len() > 0 {
        lemma_successes_of_some(o.drop_last());
    }
}

} // verus!
