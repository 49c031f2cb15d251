use vstd::prelude::*;
use crate::ctags::{Ctag, CtagsOutput};
use crate::text::{lower_of, same_text, to_lower};

verus! {

/// The boolean an answer states, if it states one: exactly `true` or `false`.
pub open spec fn answer_value(text: Seq<char>) -> Option<bool> {
    if text == "true"@ {
        Some(true)
    } else if text == "false"@ {
        Some(false)
    } else {
        None
    }
}

/// The corrective instruction sent after an answer that is not a boolean.
#[derive(Debug, PartialEq, Eq, Structural, Clone, Copy)]
pub enum Repair {
    /// The answer was `true` or `false` in another case: ask for lowercase.
    Lowercase,
    /// Anything else: ask for a boolean.
    Boolean,
}

/// What to do after one answer of the model about one record.
#[derive(Debug, PartialEq, Eq, Structural, Clone, Copy)]
pub enum ClassifyStep {
    /// The answer is final: the record matches the predicate or not.
    Verdict { matches: bool },
    /// Append the answer and the repair instruction, raise the temperature
    /// for attempt number `attempt`, and ask again.
    Retry { repair: Repair, attempt: u32 },
    /// The attempts are used up without a boolean.
    Failed,
}

/// A classification that ran out of attempts, at the position of its record.
#[derive(Debug, PartialEq, Eq, Structural, Clone, Copy)]
pub enum ClassifyError {
    ClassificationFailed { record: usize },
}

/// The repair an unparseable answer calls for.
pub open spec fn repair_of(text: Seq<char>) -> Repair {
    if lower_of(text) == "true"@ || lower_of(text) == "false"@ {
        Repair::Lowercase
    } else {
        Repair::Boolean
    }
}

/// Reads an answer as a boolean; only the exact lowercase literals count.
pub fn parse_answer(text: &str) -> (r: Option<bool>)
    ensures
        r == answer_value(text@),
{
    if same_text(text, "true") {
        Some(true)
    } else if same_text(text, "false") {
        Some(false)
    } else {
        None
    }
}

/// Chooses the repair for an answer that did not parse, from its lowercase
/// form.
pub fn repair_for_lowercased(lowered: &str) -> (r: Repair)
    ensures
        r == (if lowered@ == "true"@ || lowered@ == "false"@ {
            Repair::Lowercase
        } else {
            Repair::Boolean
        }),
{
    if same_text(lowered, "true") || same_text(lowered, "false") {
        Repair::Lowercase
    } else {
        Repair::Boolean
    }
}

/// Chooses the repair for an answer that did not parse.
pub fn repair_for(text: &str) -> (r: Repair)
    ensures
        r == repair_of(text@),
{
    let lowered = to_lower(text);
    repair_for_lowercased(lowered.as_str())
}

/// The text of each corrective instruction.
pub open spec fn repair_text(repair: Repair) -> Seq<char> {
    match repair {
        Repair::Lowercase => "Answer with `true` or `false` in lowercase letters, and nothing else."@,
        Repair::Boolean => "Answer with a boolean, `true` or `false`, and nothing else."@,
    }
}

impl Repair {
    /// The corrective system instruction.
    pub fn instruction(&self) -> (r: &'static str)
        ensures
            r@ == repair_text(*self),
    {
        match self {
            Repair::Lowercase => "Answer with `true` or `false` in lowercase letters, and nothing else.",
            Repair::Boolean => "Answer with a boolean, `true` or `false`, and nothing else.",
        }
    }
}

/// The repair loop of one record: how many answers were read, out of how many
/// allowed.
#[derive(Debug)]
pub struct RecordClassification {
    pub attempts: u32,
    pub max_attempts: u32,
}

impl RecordClassification {
    pub fn new(max_attempts: u32) -> (r: RecordClassification)
        ensures
            r.attempts == 0,
            r.max_attempts == max_attempts,
    {
        RecordClassification { attempts: 0, max_attempts }
    }

    /// Reads one answer: a boolean ends the loop with a verdict; anything else
    /// asks again with a repair, until `max_attempts` answers were read.
    pub fn on_answer(&mut self, answer: &str) -> (r: ClassifyStep)
        requires
            old(self).attempts < u32::MAX,
        ensures
            final(self).attempts == old(self).attempts + 1,
            final(self).max_attempts == old(self).max_attempts,
            match answer_value(answer@) {
                Some(b) => r == (ClassifyStep::Verdict { matches: b }),
                None => if final(self).attempts >= old(self).max_attempts {
                    r == ClassifyStep::Failed
                } else {
                    r == (ClassifyStep::Retry {
                        repair: repair_of(answer@),
                        attempt: final(self).attempts,
                    })
                },
            },
    {
        self.attempts = self.attempts + 1;
        match parse_answer(answer) {
            Some(b) => ClassifyStep::Verdict { matches: b },
            None => {
                if self.attempts >= self.max_attempts {
                    ClassifyStep::Failed
                } else {
                    ClassifyStep::Retry { repair: repair_for(answer), attempt: self.attempts }
                }
            },
        }
    }
}

/// The records whose outcome is `Some(true)`, in order; or the position of
/// the first record whose classification failed (`None`).
pub open spec fn matching(records: Seq<Ctag>, outcomes: Seq<Option<bool>>) -> Result<Seq<Ctag>, ClassifyError>
    decreases records.len(),
{
    if records.len() == 0 || outcomes.len() == 0 {
        Ok(Seq::empty())
    } else {
        let at = (records.len() - 1) as usize;
        match matching(records.drop_last(), outcomes.drop_last()) {
            Err(e) => Err(e),
            Ok(prev) => match outcomes.last() {
                None => Err(ClassifyError::ClassificationFailed { record: at }),
                Some(true) => Ok(prev.push(records.last())),
                Some(false) => Ok(prev),
            },
        }
    }
}

proof fn lemma_failure_persists(records: Seq<Ctag>, outcomes: Seq<Option<bool>>, n: int)
    requires
        0 <= n <= records.len(),
        records.len() == outcomes.len(),
        matching(records.take(n), outcomes.take(n)) is Err,
    ensures
        matching(records, outcomes) == matching(records.take(n), outcomes.take(n)),
    decreases records.len() - n,
{
    if n == records.len() {
        assert(records.take(n) =~= records);
        assert(outcomes.take(n) =~= outcomes);
    } else {
        assert(records.take(n + 1).drop_last() =~= records.take(n));
        assert(outcomes.take(n + 1).drop_last() =~= outcomes.take(n));
        lemma_failure_persists(records, outcomes, n + 1);
    }
}

impl CtagsOutput {
    /// Gathers a classification run: `outcomes[i]` is the final verdict on the
    /// `i`-th record, `None` where its attempts ran out. The records judged
    /// to match are kept, in order; a failed record fails the run.
    pub fn collect_matches(&self, outcomes: &Vec<Option<bool>>) -> (r: Result<CtagsOutput, ClassifyError>)
        requires
            outcomes@.len() == self@.len(),
        ensures
            match r {
                Ok(c) => matching(self@, outcomes@) == Ok::<Seq<Ctag>, ClassifyError>(c@),
                Err(e) => matching(self@, outcomes@) == Err::<Seq<Ctag>, ClassifyError>(e),
            },
    {
        let mut out: Vec<Ctag> = Vec::new();
        let mut i: usize = 0;
        assert(self@.take(0) =~= Seq::<Ctag>::empty());
        while i < self.0.len()
            invariant
                i <= self.0.len() == outcomes.len(),
                matching(self@.take(i as int), outcomes@.take(i as int)) == Ok::<
                    Seq<Ctag>,
                    ClassifyError,
                >(out@),
            decreases self.0.len() - i,
        {
            proof {
                assert(self@.take(i + 1).drop_last() =~= self@.take(i as int));
                assert(outcomes@.take(i + 1).drop_last() =~= outcomes@.take(i as int));
                assert(self@.take(i + 1).last() == self@[i as int]);
                assert(outcomes@.take(i + 1).last() == outcomes@[i as int]);
            }
            match outcomes[i] {
                None => {
                    proof {
                        lemma_failure_persists(self@, outcomes@, i + 1);
                    }
                    return Err(ClassifyError::ClassificationFailed { record: i });
                },
                Some(true) => {
                    out.push(self.0[i].clone());
                },
                Some(false) => {},
            }
            i = i + 1;
        }
        assert(self@.take(i as int) =~= self@);
        assert(outcomes@.take(i as int) =~= outcomes@);
        Ok(CtagsOutput(out))
    }
}

} // verus!
