use vstd::prelude::*;
use crate::matcher::{lemma_selection_exact, matching_devices, selected_positions, selects_device};

verus! {

/// Why a get or set did not succeed.
#[derive(Debug, Clone, PartialEq, Eq)]
pub enum BrightnessError {
    /// The query selected no device.
    NotFound,
    /// A read or write on a selected device failed; holds the message to report.
    OperationFailed(String),
}

/// Message of `BrightnessError::NotFound`.
pub open spec fn not_found_text() -> Seq<char> {
    "No matching display found."@
}

/// Message reported when a write fails with the system's text `os_text`.
pub open spec fn set_failure_text(os_text: Seq<char>) -> Seq<char> {
    "Failed to set brightness: "@ + os_text
}

impl BrightnessError {
    /// The text reported to the caller.
    pub fn message(&self) -> (r: String)
        ensures
            match self {
                BrightnessError::NotFound => r@ == not_found_text(),
                BrightnessError::OperationFailed(m) => r@ == m@,
            },
    {
        match self {
            BrightnessError::NotFound => String::from_str("No matching display found."),
            BrightnessError::OperationFailed(m) => m.clone(),
        }
    }
}

/// The device a get reads: the first selected one in enumeration order.
pub open spec fn first_selected(names: Seq<Option<String>>, query: Seq<char>) -> Option<usize> {
    let s = selected_positions(names, query);
    if s.len() == 0 {
        None
    } else {
        Some(s[0])
    }
}

/// Chooses the device whose brightness a get reads; `NotFound` exactly when
/// the query selects no device.
pub fn device_to_read(names: &Vec<Option<String>>, query: &str) -> (r: Result<usize, BrightnessError>)
    ensures
        match r {
            Ok(i) => first_selected(names@, query@) == Some(i),
            Err(e) => first_selected(names@, query@) is None && e is NotFound,
        },
{
    let selected = matching_devices(names, query);
    if selected.len() == 0 {
        Err(BrightnessError::NotFound)
    } else {
        Ok(selected[0])
    }
}

/// The result of a get, given the outcome of reading the chosen device
/// (the system's error text on failure): a failed read is surfaced.
pub fn read_result(read: Result<u32, String>) -> (r: Result<u32, BrightnessError>)
    ensures
        match read {
            Ok(v) => r == Ok::<u32, BrightnessError>(v),
            Err(e) => match r {
                Err(BrightnessError::OperationFailed(m)) => m@ == e@,
                _ => false,
            },
        },
{
    match read {
        Ok(v) => Ok(v),
        Err(e) => Err(BrightnessError::OperationFailed(e)),
    }
}

/// A get reports `NotFound` exactly when no device is selected; otherwise the
/// device it reads is selected and no device before it is.
pub proof fn lemma_get_reads_first_match(names: Seq<Option<String>>, query: Seq<char>)
    requires
        names.len() <= usize::MAX,
    ensures
        first_selected(names, query) is None <==> forall|i: int|
            0 <= i < names.len() ==> !selects_device(#[trigger] names[i], query),
        match first_selected(names, query) {
            Some(d) => d < names.len() && selects_device(names[d as int], query) && forall|i: int|
                0 <= i < d ==> !selects_device(#[trigger] names[i], query),
            None => true,
        },
{
    lemma_selection_exact(names, query);
    let s = selected_positions(names, query);
    if s.len() == 0 {
        assert forall|i: int| 0 <= i < names.len() implies !selects_device(
            #[trigger] names[i],
            query,
        ) by {
            assert(!s.contains(i as usize));
        }
    } else {
        let d = s[0];
        assert(s.contains(d));
        assert(d < names.len());
        assert(selects_device(names[d as int], query));
        assert forall|i: int| 0 <= i < d implies !selects_device(#[trigger] names[i], query) by {
            if selects_device(names[i], query) {
                assert(s.contains(i as usize));
                let w = choose|w: int| 0 <= w < s.len() && s[w] == i as usize;
                if w > 0 {
                    assert(s[0] < s[w]);
                }
            }
        }
    }
}

/// What a set run does next.
#[derive(Debug, PartialEq, Eq)]
pub enum SetStep {
    /// Write the brightness of the device at this enumeration position.
    Apply(usize),
    /// The run is over, with this result.
    Finished(Result<(), BrightnessError>),
}

/// The next step of a set run, as a value.
pub enum SetStepModel {
    Apply(usize),
    Succeeded,
    Failed(Seq<char>),
}

/// The next step of a set run over `targets` that has made `attempted` writes,
/// the last of which failed with `failure` where that is `Some`.
pub open spec fn set_step_model(targets: Seq<usize>, attempted: nat, failure: Option<Seq<char>>) -> SetStepModel {
    match failure {
        Some(e) => SetStepModel::Failed(set_failure_text(e)),
        None => if attempted < targets.len() {
            SetStepModel::Apply(targets[attempted as int])
        } else {
            SetStepModel::Succeeded
        },
    }
}

/// A set run driven by the write outcomes `outcomes` (`Some` holds a
/// failure's text): the devices written, in order, and the step it ends on.
pub open spec fn drive_set(
    targets: Seq<usize>,
    attempted: nat,
    failure: Option<Seq<char>>,
    outcomes: Seq<Option<Seq<char>>>,
) -> (Seq<usize>, SetStepModel)
    decreases outcomes.len(),
{
    match set_step_model(targets, attempted, failure) {
        SetStepModel::Apply(d) => if outcomes.len() == 0 {
            (Seq::empty(), SetStepModel::Apply(d))
        } else {
            let rest = drive_set(targets, attempted + 1, outcomes[0], outcomes.drop_first());
            (seq![d] + rest.0, rest.1)
        },
        other => (Seq::empty(), other),
    }
}

/// The state of a set: the selected devices, how many writes were made, and
/// the failure of the last one, if it failed.
pub struct SetRun {
    pub targets: Vec<usize>,
    pub attempted: usize,
    pub failure: Option<String>,
}

impl SetRun {
    pub open spec fn failure_view(&self) -> Option<Seq<char>> {
        match self.failure {
            Some(e) => Some(e@),
            None => None,
        }
    }

    pub open spec fn wf(&self) -> bool {
        self.attempted <= self.targets@.len()
    }

    pub open spec fn model(&self) -> SetStepModel {
        set_step_model(self.targets@, self.attempted as nat, self.failure_view())
    }

    /// Starts a set for `query`: every selected device is a target, in
    /// enumeration order; `NotFound` exactly when there is none.
    pub fn start(names: &Vec<Option<String>>, query: &str) -> (r: Result<SetRun, BrightnessError>)
        ensures
            match r {
                Ok(run) => {
                    &&& run.targets@ == selected_positions(names@, query@)
                    &&& run.targets@.len() > 0
                    &&& run.attempted == 0
                    &&& run.failure is None
                    &&& run.wf()
                },
                Err(e) => selected_positions(names@, query@).len() == 0 && e is NotFound,
            },
    {
        let targets = matching_devices(names, query);
        if targets.len() == 0 {
            Err(BrightnessError::NotFound)
        } else {
            Ok(SetRun { targets, attempted: 0, failure: None })
        }
    }

    /// The next step: write the next target while none has failed, stop at
    /// the first failure, succeed once all are written.
    pub fn next_step(&self) -> (r: SetStep)
        requires
            self.wf(),
        ensures
            match r {
                SetStep::Apply(d) => self.model() == SetStepModel::Apply(d),
                SetStep::Finished(Ok(())) => self.model() is Succeeded,
                SetStep::Finished(Err(BrightnessError::OperationFailed(m))) => self.model()
                    == SetStepModel::Failed(m@),
                SetStep::Finished(Err(BrightnessError::NotFound)) => false,
            },
    {
        match &self.failure {
            Some(e) => {
                let mut m = String::from_str("Failed to set brightness: ");
                m.append(e.as_str());
                SetStep::Finished(Err(BrightnessError::OperationFailed(m)))
            },
            None => if self.attempted < self.targets.len() {
                SetStep::Apply(self.targets[self.attempted])
            } else {
                SetStep::Finished(Ok(()))
            },
        }
    }

    /// Records the outcome of the write that `next_step` asked for (the
    /// system's error text on failure).
    pub fn record(&mut self, outcome: Result<(), String>)
        requires
            old(self).wf(),
            old(self).model() is Apply,
        ensures
            final(self).wf(),
            final(self).targets@ == old(self).targets@,
            final(self).attempted == old(self).attempted + 1,
            match outcome {
                Ok(_) => final(self).failure is None,
                Err(e) => final(self).failure == Some(e),
            },
    {
        let n = self.targets.len();
        assert(self.attempted < n);
        self.attempted = self.attempted + 1;
        match outcome {
            Ok(_) => {
                self.failure = None;
            },
            Err(e) => {
                self.failure = Some(e);
            },
        }
    }
}

proof fn lemma_drive_all_succeed(targets: Seq<usize>, a: nat, outcomes: Seq<Option<Seq<char>>>)
    requires
        a <= targets.len(),
        outcomes.len() >= targets.len() - a,
        forall|i: int| 0 <= i < targets.len() - a ==> #[trigger] outcomes[i] is None,
    ensures
        drive_set(targets, a, None, outcomes) == (
            targets.subrange(a as int, targets.len() as int),
            SetStepModel::Succeeded,
        ),
    decreases targets.len() - a,
{
    if a < targets.len() {
        let tail = outcomes.drop_first();
        assert(outcomes[0] is None);
        assert forall|i: int| 0 <= i < targets.len() - (a + 1) implies #[trigger] tail[i] is None by {
            assert(outcomes[i + 1] is None);
        }
        lemma_drive_all_succeed(targets, a + 1, tail);
        assert(seq![targets[a as int]] + targets.subrange(a + 1 as int, targets.len() as int)
            =~= targets.subrange(a as int, targets.len() as int));
    } else {
        assert(targets.subrange(a as int, targets.len() as int) =~= Seq::<usize>::empty());
    }
}

proof fn lemma_drive_first_failure(
    targets: Seq<usize>,
    a: nat,
    outcomes: Seq<Option<Seq<char>>>,
    k: int,
)
    requires
        0 <= k < targets.len() - a,
        outcomes.len() >= targets.len() - a,
        outcomes[k] is Some,
        forall|i: int| 0 <= i < k ==> #[trigger] outcomes[i] is None,
    ensures
        drive_set(targets, a, None, outcomes) == (
            targets.subrange(a as int, a + k + 1),
            SetStepModel::Failed(set_failure_text(outcomes[k]->0)),
        ),
    decreases k,
{
    let tail = outcomes.drop_first();
    let rest = drive_set(targets, a + 1, outcomes[0], tail);
    assert(set_step_model(targets, a, None) == SetStepModel::Apply(targets[a as int]));
    assert(drive_set(targets, a, None, outcomes) == (seq![targets[a as int]] + rest.0, rest.1));
    if k == 0 {
        assert(rest == (Seq::<usize>::empty(), SetStepModel::Failed(set_failure_text(outcomes[0]->0))));
        assert(seq![targets[a as int]] + Seq::<usize>::empty() =~= targets.subrange(
            a as int,
            a + 1 as int,
        ));
    } else {
        assert(outcomes[0] is None);
        assert(tail[k - 1] == outcomes[k]);
        assert forall|i: int| 0 <= i < k - 1 implies #[trigger] tail[i] is None by {
            assert(outcomes[i + 1] is None);
        }
        lemma_drive_first_failure(targets, a + 1, tail, k - 1);
        assert(seq![targets[a as int]] + targets.subrange(a + 1 as int, a + 1 + k)
            =~= targets.subrange(a as int, a + k + 1));
    }
}

/// A set writes every selected device in enumeration order while the writes
/// succeed; when the `k`-th write fails it writes no further device and ends
/// with that write's failure.
pub proof fn lemma_set_fail_fast(targets: Seq<usize>, outcomes: Seq<Option<Seq<char>>>)
    requires
        outcomes.len() >= targets.len(),
    ensures
        (forall|i: int| 0 <= i < targets.len() ==> #[trigger] outcomes[i] is None) ==> drive_set(
            targets,
            0,
            None,
            outcomes,
        ) == (targets, SetStepModel::Succeeded),
        forall|k: int|
            0 <= k < targets.len() && #[trigger] outcomes[k] is Some && (forall|i: int|
                0 <= i < k ==> #[trigger] outcomes[i] is None) ==> drive_set(targets, 0, None, outcomes)
                == (targets.subrange(0, k + 1), SetStepModel::Failed(set_failure_text(outcomes[k]->0))),
{
    if forall|i: int| 0 <= i < targets.len() ==> #[trigger] outcomes[i] is None {
        lemma_drive_all_succeed(targets, 0, outcomes);
        assert(targets.subrange(0, targets.len() as int) =~= targets);
    }
    assert forall|k: int|
        0 <= k < targets.len() && #[trigger] outcomes[k] is Some && (forall|i: int|
            0 <= i < k ==> #[trigger] outcomes[i] is None) implies drive_set(targets, 0, None, outcomes)
        == (targets.subrange(0, k + 1), SetStepModel::Failed(set_failure_text(outcomes[k]->0))) by {
        lemma_drive_first_failure(targets, 0, outcomes, k);
    }
}

} // verus!
