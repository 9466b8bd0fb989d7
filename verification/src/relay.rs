//! The settlement relay: the instruction that is submitted to the network
//! for one payment, and how the network's answer is classified. Sending the
//! instruction is the caller's part.

use crate::text::bytes_of;
use crate::error::RelayError;
use crate::identity::PartyIdentity;
use crate::wire::{decimal, push_all, push_decimal, push_quoted, quoted};
use vstd::prelude::*;
use vstd::string::*;

verus! {

/// The path of the network's endpoint to which instructions are posted.
pub const SUBMISSION_PATH: &'static str = "/transactions";

/// The token that opens an instruction and announces the source account.
pub const INSTRUCTION_SOURCE: &'static str = "{\"source\":";

/// The token that opens the payment operation and announces its destination.
pub const INSTRUCTION_DESTINATION: &'static str =
    ",\"operations\":[{\"type\":\"payment\",\"destination\":";

/// The token that names the native asset and announces the amount.
pub const INSTRUCTION_AMOUNT: &'static str = ",\"asset\":{\"type\":\"native\"},\"amount\":\"";

/// The token that closes the operations and announces the text of the memo.
pub const INSTRUCTION_MEMO: &'static str = "\"}],\"memo\":{\"type\":\"text\",\"text\":";

/// The token that closes the memo and the instruction.
pub const INSTRUCTION_CLOSE: &'static str = "}}";

/// The settlement instruction for one payment as it is submitted: an object
/// with the source account, one payment operation in the native asset with
/// the destination and the amount as a decimal string, and a text memo.
pub open spec fn instruction_text(
    from: Seq<char>,
    to: Seq<char>,
    amount: int,
    memo: Seq<char>,
) -> Seq<u8> {
    bytes_of(INSTRUCTION_SOURCE@) + quoted(bytes_of(from)) + bytes_of(INSTRUCTION_DESTINATION@)
        + quoted(bytes_of(to)) + bytes_of(INSTRUCTION_AMOUNT@) + decimal(amount) + bytes_of(
        INSTRUCTION_MEMO@,
    ) + quoted(bytes_of(memo)) + bytes_of(INSTRUCTION_CLOSE@)
}

/// Builds the settlement instruction for a payment of `amount` from `from`
/// to `to` with the memo `memo`.
pub fn settlement_instruction(
    from: &PartyIdentity,
    to: &PartyIdentity,
    amount: i128,
    memo: &str,
) -> (instruction: Vec<u8>)
    ensures
        instruction@ == instruction_text(from@, to@, amount as int, memo@),
{
    let mut instruction: Vec<u8> = Vec::new();
    push_all(&mut instruction, INSTRUCTION_SOURCE.as_bytes());
    push_quoted(&mut instruction, from.as_str().as_bytes());
    push_all(&mut instruction, INSTRUCTION_DESTINATION.as_bytes());
    push_quoted(&mut instruction, to.as_str().as_bytes());
    push_all(&mut instruction, INSTRUCTION_AMOUNT.as_bytes());
    push_decimal(&mut instruction, amount);
    push_all(&mut instruction, INSTRUCTION_MEMO.as_bytes());
    push_quoted(&mut instruction, memo.as_bytes());
    push_all(&mut instruction, INSTRUCTION_CLOSE.as_bytes());
    assert(instruction@ == instruction_text(from@, to@, amount as int, memo@));
    instruction
}

/// What came of one attempt to submit an instruction.
#[derive(Debug, PartialEq, Eq)]
pub enum RelayReply {
    /// The network answered with this status code and this body.
    Response { status: u16, body: String },
    /// No answer came: the network could not be reached, for this cause.
    NoResponse { cause: String },
}

/// How one relay attempt ended.
#[derive(Debug, PartialEq, Eq)]
pub enum RelayResult {
    /// The network accepted the instruction; holds the response body.
    Accepted(String),
    /// The instruction was not settled.
    Failed(RelayError),
}

impl Clone for RelayReply {
    fn clone(&self) -> (copy: Self)
        ensures
            copy == *self,
    {
        match self {
            RelayReply::Response { status, body } => RelayReply::Response {
                status: *status,
                body: body.clone(),
            },
            RelayReply::NoResponse { cause } => RelayReply::NoResponse { cause: cause.clone() },
        }
    }
}

impl Clone for RelayResult {
    fn clone(&self) -> (copy: Self)
        ensures
            copy == *self,
    {
        match self {
            RelayResult::Accepted(body) => RelayResult::Accepted(body.clone()),
            RelayResult::Failed(reason) => RelayResult::Failed(reason.clone()),
        }
    }
}

/// The status codes with which the network accepts an instruction.
pub open spec fn is_success_status(status: u16) -> bool {
    200 <= status < 300
}

/// How `reply` is classified: an answer with a success status is an
/// acceptance, any other answer is a rejection, and no answer is a transport
/// failure. The body or the cause is handed on as it came.
pub open spec fn classification(reply: RelayReply) -> RelayResult {
    match reply {
        RelayReply::Response { status, body } => if is_success_status(status) {
            RelayResult::Accepted(body)
        } else {
            RelayResult::Failed(RelayError::Rejected(body))
        },
        RelayReply::NoResponse { cause } => RelayResult::Failed(RelayError::TransportFailure(cause)),
    }
}

/// Classifies what came of a relay attempt.
pub fn classify(reply: &RelayReply) -> (result: RelayResult)
    ensures
        result == classification(*reply),
{
    match reply {
        RelayReply::Response { status, body } => if 200 <= *status && *status < 300 {
            RelayResult::Accepted(body.clone())
        } else {
            RelayResult::Failed(RelayError::Rejected(body.clone()))
        },
        RelayReply::NoResponse { cause } => RelayResult::Failed(
            RelayError::TransportFailure(cause.clone()),
        ),
    }
}

} // verus!
