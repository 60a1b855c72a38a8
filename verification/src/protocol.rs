//! What an emitter program reports to the host that runs it.
//!
//! The host hands over a serialised certificate on standard input and takes the prover source from
//! standard output. The exit code is 0 for success, 2 for a certificate that the emitter does not
//! support, which none of these reports, and 3 for one that cannot be decoded; any other code is an
//! internal failure.
use vstd::prelude::*;

verus! {

/// How a run of an emitter ended.
#[derive(Clone, Copy, Debug, PartialEq, Eq, Structural)]
pub enum Outcome {
    /// The prover source was written.
    Emitted,
    /// The certificate could not be read from standard input.
    ReadFailed,
    /// The bytes read are no certificate.
    Malformed,
    /// The prover source could not be written to standard output.
    WriteFailed,
}

/// The exit code that the host is owed for an outcome.
pub open spec fn exit_status(outcome: Outcome) -> u8 {
    match outcome {
        Outcome::Emitted => 0,
        Outcome::ReadFailed => 1,
        Outcome::Malformed => 3,
        Outcome::WriteFailed => 1,
    }
}

/// The exit code for an outcome.
pub fn exit_code(outcome: Outcome) -> (r: u8)
    ensures
        r == exit_status(outcome),
        r == (match outcome {
            Outcome::Emitted => 0u8,
            Outcome::ReadFailed => 1u8,
            Outcome::Malformed => 3u8,
            Outcome::WriteFailed => 1u8,
        }),
{
    match outcome {
        Outcome::Emitted => 0,
        Outcome::ReadFailed => 1,
        Outcome::Malformed => 3,
        Outcome::WriteFailed => 1,
    }
}

/// The diagnostic that an emitter prints for an outcome, or none where it stays silent.
pub open spec fn diagnostic_text(
    emitter: Seq<char>,
    outcome: Outcome,
    detail: Seq<char>,
) -> Option<Seq<char>> {
    match outcome {
        Outcome::ReadFailed => Some(emitter + ": reading stdin: "@ + detail),
        Outcome::Malformed => Some(emitter + ": malformed certificate: "@ + detail),
        _ => None,
    }
}

/// The diagnostic for an outcome: the emitter's name, what went wrong, and the detail.
pub fn diagnostic(emitter: &str, outcome: Outcome, detail: &str) -> (r: Option<String>)
    ensures
        match r {
            Some(text) => diagnostic_text(emitter@, outcome, detail@) == Some(text@),
            None => diagnostic_text(emitter@, outcome, detail@) is None,
        },
{
    let mut out: String = emitter.to_owned();
    match outcome {
        Outcome::ReadFailed => {
            out.append(": reading stdin: ");
            out.append(detail);
            Some(out)
        },
        Outcome::Malformed => {
            out.append(": malformed certificate: ");
            out.append(detail);
            Some(out)
        },
        _ => None,
    }
}

/// Success is 0 and nothing else is; an undecodable certificate is 3 and nothing else is; any other
/// failure is internal, and neither of these nor 2.
pub proof fn exit_codes_tell_the_outcomes_apart(outcome: Outcome)
    ensures
        exit_status(outcome) == 0 <==> outcome == Outcome::Emitted,
        exit_status(outcome) == 3 <==> outcome == Outcome::Malformed,
        outcome == Outcome::ReadFailed || outcome == Outcome::WriteFailed ==> exit_status(outcome)
            == 1,
{
}

/// A failure to read or to decode is reported with the emitter's name, the kind of failure and the
/// detail, in that order; success and a failure to write are silent.
pub proof fn failures_before_writing_are_reported(
    emitter: Seq<char>,
    outcome: Outcome,
    detail: Seq<char>,
)
    ensures
        outcome == Outcome::ReadFailed ==> diagnostic_text(emitter, outcome, detail) == Some(
            emitter + ": reading stdin: "@ + detail,
        ),
        outcome == Outcome::Malformed ==> diagnostic_text(emitter, outcome, detail) == Some(
            emitter + ": malformed certificate: "@ + detail,
        ),
        outcome == Outcome::Emitted || outcome == Outcome::WriteFailed ==> diagnostic_text(
            emitter,
            outcome,
            detail,
        ) is None,
{
}

} // verus!
