//! Errors reported by game actions.
use vstd::prelude::*;

verus! {

#[derive(Clone, Copy, PartialEq, Eq, Structural, Debug)]
pub enum Error {
    Generic,
    BadPrecondition,
    UnsolvableSituation,
    MapExit,
}

/// An error kind with a message for the player's log.
#[derive(Debug)]
pub struct GameError {
    pub error: Error,
    pub message: String,
}

impl GameError {
    /// An error of the given kind carrying `message`.
    pub fn new(error: Error, message: &str) -> (r: GameError)
        ensures
            r.error == error,
            r.message@ == message@,
    {
        GameError { error, message: message.to_owned() }
    }
}

/// A unit error becomes a Generic error with an empty message.
impl From<()> for GameError {
    fn from(_err: ()) -> (r: GameError)
        ensures
            r.error == Error::Generic,
            r.message@ == Seq::<char>::empty(),
    {
        GameError { error: Error::Generic, message: String::new() }
    }
}

impl vstd::std_specs::convert::FromSpecImpl<()> for GameError {
    /// Two strings with the same text need not be the same value, so no single
    /// value stands for the converted error; the facts are in `from`'s own
    /// contract instead.
    open spec fn obeys_from_spec() -> bool {
        false
    }

    open spec fn from_spec(v: ()) -> GameError {
        choose|e: GameError| e.error == Error::Generic && e.message@ == Seq::<char>::empty()
    }
}

} // verus!
