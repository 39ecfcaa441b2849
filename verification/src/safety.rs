//! Whether an existing output file may be overwritten: the decision, not the
//! asking. The caller looks whether the file exists, puts the question and
//! reads the answer.

use crate::text::{
    chars_of, is_white_space, is_whitespace, lemma_trim_end, lemma_trim_start, trimmed,
};
use vstd::prelude::*;

verus! {

/// An answer confirms if it is the letter y, small or capital, with nothing
/// but white space around it.
pub open spec fn confirms(answer: Seq<char>) -> bool {
    trimmed(answer) == seq!['y'] || trimmed(answer) == seq!['Y']
}

/// Whether an answer to the question confirms it.
pub fn is_confirmation(answer: &str) -> (r: bool)
    ensures
        r == confirms(answer@),
{
    let chars = chars_of(answer);
    let mut from: usize = 0;
    while from < chars.len() && is_whitespace(chars[from])
        invariant
            from <= chars.len(),
            forall|j: int| 0 <= j < from ==> is_white_space(chars@[j]),
        decreases chars.len() - from,
    {
        from += 1;
    }
    let mut to: usize = chars.len();
    while to > from && is_whitespace(chars[to - 1])
        invariant
            from <= to <= chars.len(),
            forall|j: int| to <= j < chars.len() ==> is_white_space(chars@[j]),
        decreases to,
    {
        to -= 1;
    }
    proof {
        let rest = chars@.skip(from as int);
        lemma_trim_start(chars@, from as int);
        assert forall|j: int| to - from <= j < rest.len() implies is_white_space(rest[j]) by {
            assert(rest[j] == chars@[j + from]);
        }
        lemma_trim_end(rest, to - from);
        assert(rest.take(to - from) =~= chars@.subrange(from as int, to as int));
        if to - from == 1 {
            assert(chars@.subrange(from as int, to as int) =~= seq![chars@[from as int]]);
            assert(seq![chars@[from as int]][0] == chars@[from as int]);
        }
    }
    to - from == 1 && (chars[from] == 'y' || chars[from] == 'Y')
}

/// What to do about the output file next.
#[derive(Debug, Clone, Copy, PartialEq, Eq, Structural)]
pub enum SafetyStep {
    /// Write the output.
    Proceed,
    /// Ask whether the file may be overwritten, and come back with the
    /// answer.
    Ask,
    /// Leave the file as it is and end the run.
    Abort,
}

/// The step that follows from whether the output file exists, whether
/// overwriting is forced, and the answer to the question, once it was put.
pub open spec fn safety_step(
    file_exists: bool,
    force: bool,
    answer: Option<Seq<char>>,
) -> SafetyStep {
    if !file_exists || force {
        SafetyStep::Proceed
    } else {
        match answer {
            None => SafetyStep::Ask,
            Some(text) => if confirms(text) {
                SafetyStep::Proceed
            } else {
                SafetyStep::Abort
            },
        }
    }
}

/// Decides whether the output may be written. A file that does not exist,
/// or whose overwriting is forced, is written without a question. Else the
/// question is to be put, and only a confirming answer lets the output be
/// written.
pub fn check_output_safety(file_exists: bool, force: bool, answer: Option<&str>) -> (step:
    SafetyStep)
    ensures
        step == safety_step(
            file_exists,
            force,
            match answer {
                Some(text) => Some(text@),
                None => None,
            },
        ),
{
    if !file_exists || force {
        return SafetyStep::Proceed;
    }
    match answer {
        None => SafetyStep::Ask,
        Some(text) => if is_confirmation(text) {
            SafetyStep::Proceed
        } else {
            SafetyStep::Abort
        },
    }
}

} // verus!
