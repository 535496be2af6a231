//! Dead letter handling: an operation is attempted up to a number of times; when
//! every attempt fails, the original input is sent to a dead letter destination.
//!
//! The attempts themselves, the waits between them and the delivery are performed
//! by the caller; `DeadLetterRun` decides what comes next.
use vstd::prelude::*;
use crate::duration::Duration;
use crate::json::{JsonValue, JsonNumber, JsonView, NumberView, members_view};

verus! {

/// Error of an attempted operation.
#[derive(Debug, PartialEq, Eq)]
pub struct ExecutionError {
    message: String,
}

impl ExecutionError {
    /// An error with the given message.
    pub fn new(message: String) -> (e: ExecutionError)
        ensures
            e.message()@ == message@,
    {
        ExecutionError { message }
    }

    /// The message of the error.
    pub closed spec fn message(&self) -> String {
        self.message
    }

    /// The message of the error, as displayed.
    pub fn text(&self) -> (r: &String)
        ensures
            r@ == self.message()@,
    {
        &self.message
    }
}

/// Dead letter policy configuration.
#[derive(Debug, PartialEq, Eq)]
pub struct Policy {
    /// The tool/destination to send failed requests to
    pub dead_letter_tool: String,
    /// Maximum number of attempts before dead-lettering (default: 1)
    pub max_attempts: u8,
    /// Optional backoff duration between retry attempts
    pub backoff: Option<Duration>,
    /// Whether to return the error after dead-lettering (default: false); when false
    /// the result is null.
    pub rethrow: bool,
}

/// Default number of attempts: one.
pub fn default_max_attempts() -> (r: u8)
    ensures
        r == 1,
{
    1
}

/// What the caller does next.
#[derive(Debug, PartialEq, Eq)]
pub enum DeadLetterAction {
    /// Run the operation once more.
    Attempt,
    /// Every attempt failed: deliver the payload to the dead letter tool.
    DeadLetter,
}

/// Progress of one operation under a dead letter policy.
pub struct DeadLetterRun {
    attempts: u8,
    last_error: Option<ExecutionError>,
}

impl DeadLetterRun {
    /// Number of failed attempts so far.
    pub closed spec fn attempts(&self) -> u8 {
        self.attempts
    }

    /// Message of the last failure, if any.
    pub closed spec fn last_message(&self) -> Option<Seq<char>> {
        match self.last_error {
            Some(e) => Some(e.message()@),
            None => None,
        }
    }

    /// A run with no attempt made.
    pub fn new() -> (r: DeadLetterRun)
        ensures
            r.attempts() == 0,
            r.last_message() is None,
    {
        DeadLetterRun { attempts: 0, last_error: None }
    }

    /// The next step: another attempt while fewer than `max_attempts` attempts have
    /// failed, otherwise dead-lettering.
    pub fn next_action(&self, policy: &Policy) -> (r: DeadLetterAction)
        ensures
            r == if self.attempts() < policy.max_attempts {
                DeadLetterAction::Attempt
            } else {
                DeadLetterAction::DeadLetter
            },
    {
        if self.attempts < policy.max_attempts {
            DeadLetterAction::Attempt
        } else {
            DeadLetterAction::DeadLetter
        }
    }

    /// Records a failed attempt. Returns the time to wait before the next attempt:
    /// the policy's backoff, unless this was the last attempt.
    pub fn record_failure(&mut self, policy: &Policy, error: ExecutionError) -> (r: Option<Duration>)
        requires
            old(self).attempts() < policy.max_attempts,
        ensures
            final(self).attempts() == old(self).attempts() + 1,
            final(self).last_message() == Some(error.message()@),
            r == if old(self).attempts() + 1 < policy.max_attempts {
                policy.backoff
            } else {
                None
            },
    {
        self.attempts = self.attempts + 1;
        self.last_error = Some(error);
        if self.attempts < policy.max_attempts {
            policy.backoff
        } else {
            None
        }
    }

    /// The payload sent to the dead letter tool: the original input, the last error
    /// message (or null), the number of attempts and the time of dead-lettering.
    pub fn payload(&self, policy: &Policy, input: JsonValue, timestamp: String) -> (r: JsonValue)
        ensures
            r@ == JsonView::Object(
                seq![
                    ("original_input"@, input@),
                    ("error"@, match self.last_message() {
                        Some(m) => JsonView::String(m),
                        None => JsonView::Null,
                    }),
                    ("attempts"@, JsonView::Number(NumberView::PosInt(policy.max_attempts as u64))),
                    ("timestamp"@, JsonView::String(timestamp@)),
                ],
            ),
    {
        broadcast use crate::json::group_json_view;

        let error = match &self.last_error {
            Some(e) => JsonValue::String(e.message.clone()),
            None => JsonValue::Null,
        };
        let mut members: Vec<(String, JsonValue)> = Vec::new();
        members.push(("original_input".to_owned(), input));
        members.push(("error".to_owned(), error));
        members.push(("attempts".to_owned(), JsonValue::Number(JsonNumber::PosInt(policy.max_attempts as u64))));
        members.push(("timestamp".to_owned(), JsonValue::String(timestamp)));
        let r = JsonValue::Object(members);
        assert(members_view(members@) =~= seq![
            ("original_input"@, input@),
            ("error"@, match self.last_message() {
                Some(m) => JsonView::String(m),
                None => JsonView::Null,
            }),
            ("attempts"@, JsonView::Number(NumberView::PosInt(policy.max_attempts as u64))),
            ("timestamp"@, JsonView::String(timestamp@)),
        ]);
        r
    }

    /// The result once the payload was delivered: with `rethrow` the last error (or
    /// "Unknown error" when no attempt ran), otherwise null.
    pub fn finish(self, policy: &Policy) -> (r: Result<JsonValue, ExecutionError>)
        ensures
            policy.rethrow ==> (r matches Err(e) && e.message()@ == match self.last_message() {
                Some(m) => m,
                None => "Unknown error"@,
            }),
            !policy.rethrow ==> (r matches Ok(v) && v@ == JsonView::Null),
    {
        if policy.rethrow {
            match self.last_error {
                Some(e) => Err(e),
                None => Err(ExecutionError::new("Unknown error".to_owned())),
            }
        } else {
            Ok(JsonValue::Null)
        }
    }
}

} // verus!
