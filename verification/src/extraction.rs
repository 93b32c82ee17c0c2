//! Structured extraction: the prompt of each attempt and the retry policy between attempts.
use vstd::prelude::*;

use crate::text::{decimal, push_decimal};

verus! {

/// What every extraction prompt asks for after the caller's prompt.
pub open spec fn json_only_instruction() -> Seq<char> {
    "\n\nReturn only a valid JSON object matching the requested schema. Do not add markdown or commentary.\n"@
}

/// The prompt of an attempt: the caller's prompt, the demand for bare JSON, and, after a
/// failed attempt, that attempt's error with the request to fix it.
pub open spec fn extraction_prompt(base: Seq<char>, previous_error: Option<Seq<char>>) -> Seq<char> {
    base + json_only_instruction() + match previous_error {
        Some(e) => "\nPrevious attempt failed with error: "@ + e
            + "\nPlease fix these issues and regenerate.\n"@,
        None => Seq::empty(),
    }
}

/// The prompt for one extraction attempt.
pub fn build_extraction_prompt(base_prompt: &str, previous_error: Option<&str>) -> (r: String)
    ensures
        r@ == extraction_prompt(
            base_prompt@,
            match previous_error {
                Some(e) => Some(e@),
                None => None,
            },
        ),
{
    let mut prompt = base_prompt.to_owned();
    prompt.append(
        "\n\nReturn only a valid JSON object matching the requested schema. Do not add markdown or commentary.\n",
    );
    match previous_error {
        Some(error) => {
            prompt.append("\nPrevious attempt failed with error: ");
            prompt.append(error);
            prompt.append("\nPlease fix these issues and regenerate.\n");
        },
        None => {},
    }
    prompt
}

/// How long to wait before the next attempt, in milliseconds.
pub open spec fn retry_delay_millis() -> nat {
    3000
}

/// How many attempts an extraction makes: `max_retries`, and at least one.
pub open spec fn attempt_budget(max_retries: u32) -> nat {
    if max_retries == 0 {
        1
    } else {
        max_retries as nat
    }
}

/// The error with which an extraction gives up.
pub open spec fn give_up_message(total: nat, last_error: Seq<char>) -> Seq<char> {
    "Failed after "@ + decimal(total) + " attempts. Last error: "@ + last_error
}

/// The model of the retry state.
pub struct AttemptsView {
    pub total: nat,
    pub attempt: nat,
    pub last_error: Option<Seq<char>>,
}

/// What to do after a failed attempt.
pub enum AfterFailure {
    /// Wait this many milliseconds, then make the next attempt.
    RetryAfterMillis(u64),
    /// Stop and report this error.
    GiveUp(String),
}

/// The model of `AfterFailure`.
pub enum AfterFailureView {
    RetryAfterMillis(nat),
    GiveUp(Seq<char>),
}

impl View for AfterFailure {
    type V = AfterFailureView;

    open spec fn view(&self) -> AfterFailureView {
        match self {
            AfterFailure::RetryAfterMillis(ms) => AfterFailureView::RetryAfterMillis(*ms as nat),
            AfterFailure::GiveUp(m) => AfterFailureView::GiveUp(m@),
        }
    }
}

/// The state before the first attempt.
pub open spec fn initial_attempts(max_retries: u32) -> AttemptsView {
    AttemptsView { total: attempt_budget(max_retries), attempt: 1, last_error: None }
}

/// One failed attempt: the error is kept; another attempt follows while the budget lasts.
pub open spec fn failure_step(s: AttemptsView, error: Seq<char>) -> (AttemptsView, AfterFailureView) {
    if s.attempt < s.total {
        (
            AttemptsView { total: s.total, attempt: s.attempt + 1, last_error: Some(error) },
            AfterFailureView::RetryAfterMillis(retry_delay_millis()),
        )
    } else {
        (
            AttemptsView { total: s.total, attempt: s.attempt, last_error: Some(error) },
            AfterFailureView::GiveUp(give_up_message(s.total, error)),
        )
    }
}

/// The decisions taken after a run of failed attempts.
pub open spec fn failure_run(s: AttemptsView, errors: Seq<Seq<char>>) -> Seq<AfterFailureView>
    decreases errors.len(),
{
    if errors.len() == 0 {
        Seq::empty()
    } else {
        seq![failure_step(s, errors[0]).1] + failure_run(failure_step(s, errors[0]).0, errors.drop_first())
    }
}

/// The retry state of one extraction.
pub struct ExtractionAttempts {
    total: u32,
    attempt: u32,
    last_error: Option<String>,
}

impl View for ExtractionAttempts {
    type V = AttemptsView;

    closed spec fn view(&self) -> AttemptsView {
        AttemptsView {
            total: self.total as nat,
            attempt: self.attempt as nat,
            last_error: match self.last_error {
                Some(e) => Some(e@),
                None => None,
            },
        }
    }
}

impl ExtractionAttempts {
    #[verifier::type_invariant]
    closed spec fn inv(self) -> bool {
        1 <= self.attempt <= self.total
    }

    /// The state of an extraction allowed `max_retries` attempts (at least one).
    pub fn new(max_retries: u32) -> (r: Self)
        ensures
            r@ == initial_attempts(max_retries),
    {
        let total: u32 = if max_retries == 0 {
            1
        } else {
            max_retries
        };
        ExtractionAttempts { total, attempt: 1, last_error: None }
    }

    /// The number of the current attempt, counted from one.
    pub fn attempt(&self) -> (r: u32)
        ensures
            r == self@.attempt,
            1 <= r <= self@.total,
    {
        proof {
            use_type_invariant(self);
        }
        self.attempt
    }

    /// The number of attempts allowed.
    pub fn total(&self) -> (r: u32)
        ensures
            r == self@.total,
    {
        self.total
    }

    /// The prompt of the current attempt.
    pub fn prompt(&self, base_prompt: &str) -> (r: String)
        ensures
            r@ == extraction_prompt(base_prompt@, self@.last_error),
    {
        match &self.last_error {
            Some(e) => build_extraction_prompt(base_prompt, Some(e.as_str())),
            None => build_extraction_prompt(base_prompt, None),
        }
    }

    /// Records that the current attempt failed with `error` and says what comes next.
    pub fn record_failure(&mut self, error: String) -> (r: AfterFailure)
        ensures
            (final(self)@, r@) == failure_step(old(self)@, error@),
    {
        proof {
            use_type_invariant(&*self);
        }
        let ghost e = error@;
        if self.attempt < self.total {
            self.attempt = self.attempt + 1;
            self.last_error = Some(error);
            AfterFailure::RetryAfterMillis(3000)
        } else {
            let mut message = "Failed after ".to_owned();
            push_decimal(&mut message, self.total);
            message.append(" attempts. Last error: ");
            message.append(error.as_str());
            self.last_error = Some(error);
            AfterFailure::GiveUp(message)
        }
    }
}

/// Starting an extraction allowed `max_retries` attempts, the first `attempt_budget - 1`
/// failures each lead to a wait of three seconds and another attempt, and the failure of the
/// last attempt gives up with an error that names the number of attempts and that
/// attempt's error.
pub proof fn lemma_attempt_budget(max_retries: u32, errors: Seq<Seq<char>>)
    requires
        errors.len() == attempt_budget(max_retries),
    ensures
        failure_run(initial_attempts(max_retries), errors).len() == errors.len(),
        forall|i: int|
            0 <= i < errors.len() - 1 ==> #[trigger] failure_run(initial_attempts(max_retries), errors)[i]
                == AfterFailureView::RetryAfterMillis(retry_delay_millis()),
        failure_run(initial_attempts(max_retries), errors)[errors.len() - 1] == AfterFailureView::GiveUp(
            give_up_message(attempt_budget(max_retries), errors.last()),
        ),
{
    lemma_failure_run(initial_attempts(max_retries), errors);
}

proof fn lemma_failure_run(s: AttemptsView, errors: Seq<Seq<char>>)
    requires
        1 <= s.attempt <= s.total,
        errors.len() == s.total - s.attempt + 1,
    ensures
        failure_run(s, errors).len() == errors.len(),
        forall|i: int|
            0 <= i < errors.len() - 1 ==> #[trigger] failure_run(s, errors)[i]
                == AfterFailureView::RetryAfterMillis(retry_delay_millis()),
        failure_run(s, errors)[errors.len() - 1] == AfterFailureView::GiveUp(
            give_up_message(s.total, errors.last()),
        ),
    decreases errors.len(),
{
    let (next, a) = failure_step(s, errors[0]);
    if s.attempt < s.total {
        lemma_failure_run(next, errors.drop_first());
        let rest = failure_run(next, errors.drop_first());
        assert(failure_run(s, errors) == seq![a] + rest);
        assert forall|i: int| 0 <= i < errors.len() - 1 implies #[trigger] failure_run(s, errors)[i]
            == AfterFailureView::RetryAfterMillis(retry_delay_millis()) by {
            if i > 0 {
                assert(failure_run(s, errors)[i] == rest[i - 1]);
            }
        }
        assert(errors.drop_first().last() == errors.last());
    } else {
        assert(errors.drop_first().len() == 0);
        assert(failure_run(next, errors.drop_first()) == Seq::<AfterFailureView>::empty());
        assert(failure_run(s, errors) == seq![a]);
    }
}

/// The first attempt's prompt is the caller's prompt with the demand for bare JSON and no
/// error report; after a failure that leads to a retry, the next prompt reports that failure's
/// error.
pub proof fn lemma_prompts_report_the_last_failure(
    max_retries: u32,
    s: AttemptsView,
    error: Seq<char>,
    base: Seq<char>,
)
    requires
        s.attempt < s.total,
    ensures
        extraction_prompt(base, initial_attempts(max_retries).last_error) == base + json_only_instruction(),
        failure_step(s, error).1 == AfterFailureView::RetryAfterMillis(retry_delay_millis()),
        extraction_prompt(base, failure_step(s, error).0.last_error) == base + json_only_instruction()
            + "\nPrevious attempt failed with error: "@ + error
            + "\nPlease fix these issues and regenerate.\n"@,
{
    assert(extraction_prompt(base, None) == base + json_only_instruction() + Seq::<char>::empty());
    assert(base + json_only_instruction() + Seq::<char>::empty() == base + json_only_instruction());
    assert(extraction_prompt(base, Some(error)) == base + json_only_instruction() + (
    "\nPrevious attempt failed with error: "@ + error + "\nPlease fix these issues and regenerate.\n"@));
}

} // verus!
