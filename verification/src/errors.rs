use vstd::prelude::*;

verus! {

/// `std::io::Error` declared for Verus: values of it are carried through
/// untouched.
#[verifier::external_type_specification]
#[verifier::external_body]
pub struct ExIoError(std::io::Error);

/// Everything that can go wrong while supervising a solver run.
pub enum Error {
    /// A lock or condition operation failed because a cooperating task
    /// panicked while holding the lock; unrecoverable for the whole call.
    Poisoned,
    /// Spawning, probing or reading the process failed at the OS level.
    Io(std::io::Error),
    /// Enumerating the descendant tree or signalling a descendant failed.
    Kill(String),
}

} // verus!
