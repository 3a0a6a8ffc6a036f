use vstd::prelude::*;
use crate::common::SwitchError;

verus! {

/// The process exit status that reports `e`: the conventional statuses for a
/// missing service, missing input and a configuration error, 2 for a wrong
/// command line, 1 for everything else.
pub open spec fn exit_status_of(e: SwitchError) -> int {
    match e {
        SwitchError::Unavailable => 69,
        SwitchError::EmptyConfig => 66,
        SwitchError::NoMatchingSinks => 78,
        SwitchError::InvalidArguments => 2,
        SwitchError::NotAFile => 2,
        SwitchError::InvalidConfig => 1,
        SwitchError::NotFound => 1,
        SwitchError::MalformedSinkIdentifier => 1,
        SwitchError::ExternalToolFailure => 1,
    }
}

/// `exitcode::OK`, the status of a successful run: the crate defines the
/// constant as 0.
#[verifier::external_body]
fn ok_status() -> (code: i32)
    ensures
        code == 0,
{
    exitcode::OK
}

/// `exitcode::UNAVAILABLE`, the status of a run that lacks a service it
/// needs: the crate defines the constant as 69.
#[verifier::external_body]
fn unavailable_status() -> (code: i32)
    ensures
        code == 69,
{
    exitcode::UNAVAILABLE
}

/// `exitcode::NOINPUT`, the status of a run whose input is missing: the
/// crate defines the constant as 66.
#[verifier::external_body]
fn no_input_status() -> (code: i32)
    ensures
        code == 66,
{
    exitcode::NOINPUT
}

/// `exitcode::CONFIG`, the status of a run that found its configuration in
/// error: the crate defines the constant as 78.
#[verifier::external_body]
fn config_status() -> (code: i32)
    ensures
        code == 78,
{
    exitcode::CONFIG
}

/// The exit status of a run that ended with `e`.
pub fn exit_status(e: SwitchError) -> (code: i32)
    ensures
        code == exit_status_of(e),
        code != 0,
{
    match e {
        SwitchError::Unavailable => unavailable_status(),
        SwitchError::EmptyConfig => no_input_status(),
        SwitchError::NoMatchingSinks => config_status(),
        SwitchError::InvalidArguments => 2,
        SwitchError::NotAFile => 2,
        SwitchError::InvalidConfig => 1,
        SwitchError::NotFound => 1,
        SwitchError::MalformedSinkIdentifier => 1,
        SwitchError::ExternalToolFailure => 1,
    }
}

/// The exit status of a run that viewed or switched the device.
pub fn success_status() -> (code: i32)
    ensures
        code == 0,
{
    ok_status()
}

/// The exit status of a run: 0 exactly for a run that succeeded.
pub fn status_of_run(run: Result<(), SwitchError>) -> (code: i32)
    ensures
        code == match run {
            Ok(()) => 0,
            Err(e) => exit_status_of(e),
        },
        code == 0 <==> run is Ok,
{
    match run {
        Ok(()) => success_status(),
        Err(e) => exit_status(e),
    }
}

} // verus!
