use vstd::prelude::*;

use tracing::subscriber::SetGlobalDefaultError;

verus! {

#[verifier::external_type_specification]
#[verifier::external_body]
pub struct ExSetGlobalDefaultError(SetGlobalDefaultError);

/// Why the log subscriber could not be installed.
#[derive(PartialEq, Eq, Structural, Debug, Clone, Copy)]
pub enum LoggerError {
    /// A global subscriber was installed before.
    AlreadyInstalled,
}

/// Relies on `tracing::dispatcher::set_global_default`, handed a formatting
/// subscriber of `tracing_subscriber` that logs up to the debug level without
/// targets. The call fails where a global subscriber is already set, which
/// depends on what ran before in the process: nothing is stated of the result.
#[verifier::external_body]
fn set_global_default() -> Result<(), SetGlobalDefaultError> {
    let subscriber = tracing_subscriber::FmtSubscriber::builder()
        .with_target(false)
        .with_max_level(tracing::Level::DEBUG)
        .finish();
    tracing::dispatcher::set_global_default(tracing::Dispatch::new(subscriber))
}

/// Installs the process's log subscriber, once.
pub fn init() -> (r: Result<(), LoggerError>)
    ensures
        r is Err ==> r == Err::<(), LoggerError>(LoggerError::AlreadyInstalled),
{
    match set_global_default() {
        Ok(()) => Ok(()),
        Err(_) => Err(LoggerError::AlreadyInstalled),
    }
}

} // verus!
