//! Signing a patched bundle again.
//!
//! Rewriting the binary invalidates its code signature. Three commands put
//! the bundle back into a state in which it starts: the quarantine flag is
//! cleared, the old signature is stripped, and an ad-hoc signature is
//! applied. All three are always attempted. Only the last one decides.

use crate::error::PatchError;
use vstd::prelude::*;
use vstd::string::*;

verus! {

/// One of the three commands.
#[derive(Debug, Clone, Copy, PartialEq, Eq, Structural)]
pub enum ResignStep {
    /// Clear the quarantine flag on everything in the bundle.
    ClearQuarantine,
    /// Remove the signature that the rewrite has invalidated.
    StripSignature,
    /// Apply an ad-hoc signature to everything in the bundle.
    Sign,
}

/// The three commands in the order in which they run.
pub open spec fn resign_order() -> Seq<ResignStep> {
    seq![ResignStep::ClearQuarantine, ResignStep::StripSignature, ResignStep::Sign]
}

/// The program of a command.
pub open spec fn program_of(step: ResignStep) -> Seq<char> {
    match step {
        ResignStep::ClearQuarantine => "xattr"@,
        ResignStep::StripSignature => "codesign"@,
        ResignStep::Sign => "codesign"@,
    }
}

/// The arguments of a command that stand before the path of the bundle.
pub open spec fn arguments_of(step: ResignStep) -> Seq<Seq<char>> {
    match step {
        ResignStep::ClearQuarantine => seq!["-rd"@, "com.apple.quarantine"@],
        ResignStep::StripSignature => seq!["--remove-signature"@],
        ResignStep::Sign => seq!["--force"@, "--deep"@, "--sign"@, "-"@],
    }
}

/// How the attempt to run a command went.
#[derive(Debug, Clone, PartialEq, Eq)]
pub enum CommandRun {
    /// The process could not be started; `detail` is the account of the
    /// operating system.
    NotStarted { detail: String },
    /// The process ran to its end; `success` tells whether it reported
    /// success, and `errors` is what it wrote to its error stream.
    Exited { success: bool, errors: String },
}

/// Words one after the other, each with a space before it.
pub open spec fn spaced_words(words: Seq<Seq<char>>) -> Seq<char>
    decreases words.len(),
{
    if words.len() == 0 {
        Seq::empty()
    } else {
        spaced_words(words.drop_last()) + " "@ + words.last()
    }
}

/// A command as it would be typed, without the path of the bundle.
pub open spec fn command_text(step: ResignStep) -> Seq<char> {
    program_of(step) + spaced_words(arguments_of(step))
}

/// The account of a command that ran and did not report success: the
/// command, and what it wrote to its error stream.
pub open spec fn failure_text(step: ResignStep, errors: Seq<char>) -> Seq<char> {
    command_text(step) + ": "@ + errors
}

/// The account of a failed command as it appears in front of the accounts
/// of later ones; nothing for a command that succeeded.
pub open spec fn earlier_failure(outcome: Result<(), String>) -> Seq<char> {
    match outcome {
        Ok(_) => Seq::empty(),
        Err(detail) => detail@ + "; "@,
    }
}

/// The texts of a list of arguments.
pub open spec fn texts(arguments: Seq<&'static str>) -> Seq<Seq<char>> {
    arguments.map_values(|argument: &'static str| argument@)
}

/// The three commands in the order in which they run.
pub fn resign_steps() -> (steps: Vec<ResignStep>)
    ensures
        steps@ == resign_order(),
{
    let mut steps: Vec<ResignStep> = Vec::new();
    steps.push(ResignStep::ClearQuarantine);
    steps.push(ResignStep::StripSignature);
    steps.push(ResignStep::Sign);
    assert(steps@ =~= resign_order());
    steps
}

/// The program that a command runs.
pub fn program(step: ResignStep) -> (name: &'static str)
    ensures
        name@ == program_of(step),
{
    match step {
        ResignStep::ClearQuarantine => "xattr",
        ResignStep::StripSignature => "codesign",
        ResignStep::Sign => "codesign",
    }
}

/// The arguments of a command. The path of the bundle follows them.
pub fn arguments(step: ResignStep) -> (arguments: Vec<&'static str>)
    ensures
        texts(arguments@) == arguments_of(step),
{
    let mut arguments: Vec<&'static str> = Vec::new();
    match step {
        ResignStep::ClearQuarantine => {
            arguments.push("-rd");
            arguments.push("com.apple.quarantine");
        },
        ResignStep::StripSignature => {
            arguments.push("--remove-signature");
        },
        ResignStep::Sign => {
            arguments.push("--force");
            arguments.push("--deep");
            arguments.push("--sign");
            arguments.push("-");
        },
    }
    assert(texts(arguments@) =~= arguments_of(step));
    arguments
}

/// Judges one command from how its run went. A command has succeeded only
/// if its process was started and reported success; a process that ran and
/// reported failure has failed like one that could not be started. The
/// account of a failure is that of the operating system where the process
/// did not start, and otherwise the command with what it wrote to its error
/// stream.
pub fn command_outcome(step: ResignStep, run: CommandRun) -> (outcome: Result<(), String>)
    ensures
        outcome is Ok <==> (run matches CommandRun::Exited { success, .. } && success),
        run matches CommandRun::NotStarted { detail } ==> (outcome matches Err(account)
            && account@ == detail@),
        run matches CommandRun::Exited { success, errors } ==> (!success ==> (
        outcome matches Err(account) && account@ == failure_text(step, errors@))),
{
    match run {
        CommandRun::NotStarted { detail } => Err(detail),
        CommandRun::Exited { success, errors } => {
            if success {
                return Ok(());
            }
            let words = arguments(step);
            let mut account = String::from_str(program(step));
            let mut k: usize = 0;
            assert(texts(words@).subrange(0, 0) =~= Seq::<Seq<char>>::empty());
            while k < words.len()
                invariant
                    k <= words@.len(),
                    account@ == program_of(step) + spaced_words(
                        texts(words@).subrange(0, k as int),
                    ),
                decreases words@.len() - k,
            {
                let ghost before = account@;
                account.append(" ");
                account.append(words[k]);
                proof {
                    let longer = texts(words@).subrange(0, k + 1);
                    assert(longer.drop_last() =~= texts(words@).subrange(0, k as int));
                    assert(longer.last() == words@[k as int]@);
                    assert(account@ =~= program_of(step) + spaced_words(longer));
                }
                k = k + 1;
            }
            assert(texts(words@).subrange(0, words@.len() as int) =~= texts(words@));
            account.append(": ");
            account.append(errors.as_str());
            assert(account@ =~= failure_text(step, errors@));
            Err(account)
        },
    }
}

/// What the three commands amount to. The bundle counts as signed exactly
/// when the last command succeeded; a failure of one of the first two is
/// then passed over. When the last command failed, the error carries the
/// accounts of all the commands that failed, in their order.
pub fn resign_outcome(
    cleared: Result<(), String>,
    stripped: Result<(), String>,
    signed: Result<(), String>,
) -> (outcome: Result<(), PatchError>)
    ensures
        outcome is Ok <==> signed is Ok,
        outcome matches Err(error) ==> (error matches PatchError::Signing { detail } && detail@
            == earlier_failure(cleared) + earlier_failure(stripped) + signed->Err_0@),
{
    match signed {
        Ok(_) => Ok(()),
        Err(last) => {
            let mut detail = String::new();
            match cleared {
                Ok(_) => {},
                Err(first) => {
                    detail.append(first.as_str());
                    detail.append("; ");
                },
            }
            match stripped {
                Ok(_) => {},
                Err(second) => {
                    detail.append(second.as_str());
                    detail.append("; ");
                },
            }
            detail.append(last.as_str());
            assert(detail@ =~= earlier_failure(cleared) + earlier_failure(stripped) + last@);
            Err(PatchError::Signing { detail })
        },
    }
}

} // verus!
