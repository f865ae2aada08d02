//! Applying one action to each of a batch of inputs, in order, going on past
//! failures and reporting one aggregate outcome.
//!
//! `BatchRun` holds the decisions of one batch; the caller performs the action
//! on the input it hands out and reports the result back.
use vstd::prelude::*;

verus! {

/// The failed inputs of a batch, in input order, each with its error: the
/// inputs `inputs` with the action results `results`, the i-th result
/// belonging to the i-th input.
pub open spec fn failures_of(inputs: Seq<String>, results: Seq<Result<(), String>>) -> Seq<(String, String)>
    decreases results.len(),
{
    if results.len() == 0 {
        Seq::empty()
    } else {
        let i = results.len() - 1;
        let earlier = failures_of(inputs, results.drop_last());
        match results[i] {
            Ok(()) => earlier,
            Err(e) => earlier.push((inputs[i], e)),
        }
    }
}

/// Whether any of the results is a failure.
pub open spec fn any_failed(results: Seq<Result<(), String>>) -> bool {
    exists|i: int| 0 <= i < results.len() && (#[trigger] results[i]) is Err
}

/// Mathematical state of a batch run.
pub struct BatchState {
    pub inputs: Seq<String>,
    /// Results of the action on the first `results.len()` inputs.
    pub results: Seq<Result<(), String>>,
}

/// The aggregate failure of a batch in which at least one action failed.
#[derive(Debug, Clone, Copy, PartialEq, Eq, Structural)]
pub struct BatchFailure {
    /// Number of inputs whose action failed.
    pub failed: usize,
}

impl BatchFailure {
    /// The message that reports the failure.
    pub fn message(&self) -> (s: String)
        ensures
            s@ == "one or more operations failed"@,
    {
        String::from_str("one or more operations failed")
    }
}

/// Session state of one batch.
pub struct BatchRun {
    inputs: Vec<String>,
    done: usize,
    failures: Vec<(String, String)>,
    results: Ghost<Seq<Result<(), String>>>,
}

impl View for BatchRun {
    type V = BatchState;

    closed spec fn view(&self) -> BatchState {
        BatchState { inputs: self.inputs@, results: self.results@ }
    }
}

/// Each failed input is surfaced exactly once, in input order: the failures
/// of a batch are those of its earlier results followed by that of the last.
pub proof fn lemma_failures_in_order(inputs: Seq<String>, results: Seq<Result<(), String>>, r: Result<(), String>)
    ensures
        failures_of(inputs, results.push(r)) == (match r {
            Ok(()) => failures_of(inputs, results),
            Err(e) => failures_of(inputs, results).push((inputs[results.len() as int], e)),
        }),
{
    assert(results.push(r).drop_last() =~= results);
}

/// The aggregate failure flag of a batch agrees with the failures surfaced
/// one by one: it is set if and only if at least one failure was surfaced.
pub proof fn lemma_flag_matches_failures(inputs: Seq<String>, results: Seq<Result<(), String>>)
    ensures
        failures_of(inputs, results).len() > 0 <==> any_failed(results),
    decreases results.len(),
{
    if results.len() > 0 {
        let prev = results.drop_last();
        lemma_flag_matches_failures(inputs, prev);
        if any_failed(prev) {
            let i = choose|i: int| 0 <= i < prev.len() && (#[trigger] prev[i]) is Err;
            assert(results[i] is Err);
        }
        if any_failed(results) {
            let i = choose|i: int| 0 <= i < results.len() && (#[trigger] results[i]) is Err;
            if i < prev.len() {
                assert(prev[i] is Err);
            }
        }
    }
}

impl BatchRun {
    pub closed spec fn wf(&self) -> bool {
        &&& self.done == self.results@.len()
        &&& self.done <= self.inputs@.len()
        &&& self.failures@ == failures_of(self.inputs@, self.results@)
    }

    /// A batch over `inputs`, none of them processed yet.
    pub fn new(inputs: Vec<String>) -> (b: BatchRun)
        ensures
            b.wf(),
            b@.inputs == inputs@,
            b@.results.len() == 0,
    {
        BatchRun { inputs, done: 0, failures: Vec::new(), results: Ghost(Seq::empty()) }
    }

    /// The input to apply the action to next, if any is left: inputs are
    /// handed out in order, each once.
    pub fn next_input(&self) -> (r: Option<String>)
        requires
            self.wf(),
        ensures
            self@.results.len() < self@.inputs.len() ==> r == Some(self@.inputs[self@.results.len() as int]),
            self@.results.len() >= self@.inputs.len() ==> r is None,
    {
        if self.done < self.inputs.len() {
            Some(self.inputs[self.done].clone())
        } else {
            None
        }
    }

    /// Records the result of the action on the input last handed out, and
    /// returns the failure entry it adds, if it failed.
    pub fn record(&mut self, result: Result<(), String>) -> (added: Option<(String, String)>)
        requires
            old(self).wf(),
            old(self)@.results.len() < old(self)@.inputs.len(),
        ensures
            final(self).wf(),
            final(self)@.inputs == old(self)@.inputs,
            final(self)@.results == old(self)@.results.push(result),
            added == (match result {
                Ok(()) => None,
                Err(e) => Some((old(self)@.inputs[old(self)@.results.len() as int], e)),
            }),
    {
        proof {
            lemma_failures_in_order(self.inputs@, self.results@, result);
        }
        let n = self.inputs.len();
        assert(self.done < n);
        let next = self.done + 1;
        let added = match result {
            Ok(()) => None,
            Err(e) => {
                let input = self.inputs[self.done].clone();
                self.failures.push((input.clone(), e.clone()));
                Some((input, e))
            },
        };
        self.results = Ghost(self.results@.push(result));
        self.done = next;
        added
    }

    /// Whether every input has been processed.
    pub fn is_complete(&self) -> (b: bool)
        requires
            self.wf(),
        ensures
            b == (self@.results.len() == self@.inputs.len()),
    {
        self.done == self.inputs.len()
    }

    /// Whether any action so far failed.
    pub fn had_failures(&self) -> (b: bool)
        requires
            self.wf(),
        ensures
            b == any_failed(self@.results),
    {
        proof {
            lemma_flag_matches_failures(self.inputs@, self.results@);
        }
        self.failures.len() > 0
    }

    /// The failed inputs so far, in input order, each with its error.
    pub fn failures(&self) -> (f: &Vec<(String, String)>)
        requires
            self.wf(),
        ensures
            f@ == failures_of(self@.inputs, self@.results),
    {
        &self.failures
    }

    /// The outcome of the batch: success if and only if no action failed.
    pub fn finish(self) -> (r: Result<(), BatchFailure>)
        requires
            self.wf(),
            self@.results.len() == self@.inputs.len(),
        ensures
            r is Err <==> any_failed(self@.results),
            r matches Err(e) ==> e.failed == failures_of(self@.inputs, self@.results).len(),
    {
        proof {
            lemma_flag_matches_failures(self.inputs@, self.results@);
        }
        if self.failures.len() > 0 {
            Err(BatchFailure { failed: self.failures.len() })
        } else {
            Ok(())
        }
    }
}

/// A batch in which every action succeeds surfaces no failure and reports
/// no aggregate failure.
pub proof fn lemma_all_succeed(inputs: Seq<String>, results: Seq<Result<(), String>>)
    requires
        forall|i: int| 0 <= i < results.len() ==> (#[trigger] results[i]) is Ok,
    ensures
        !any_failed(results),
        failures_of(inputs, results).len() == 0,
{
    lemma_flag_matches_failures(inputs, results);
}

/// A batch over no inputs hands out no input and reports no failure.
pub proof fn lemma_empty_batch(results: Seq<Result<(), String>>)
    requires
        results.len() == 0,
    ensures
        !any_failed(results),
        failures_of(Seq::empty(), results).len() == 0,
{
}

} // verus!
