use vstd::prelude::*;

verus! {

/// An error that the game logic reports to its caller.
#[derive(Debug, Clone)]
pub struct GameLogicError {
    pub info: String,
}

pub type LogicResult<T> = Result<T, GameLogicError>;

impl View for GameLogicError {
    type V = Seq<char>;

    open spec fn view(&self) -> Seq<char> {
        self.info@
    }
}

impl GameLogicError {
    /// An error carrying the given text.
    pub fn new(info: &str) -> (e: GameLogicError)
        ensures
            e@ == info@,
    {
        GameLogicError { info: info.to_owned() }
    }

    /// The text of the error.
    pub fn description(&self) -> (s: &str)
        ensures
            s@ == self@,
    {
        self.info.as_str()
    }

    /// The line that describes the error to a reader.
    pub fn message(&self) -> (s: String)
        ensures
            s@ == "Error while command processing "@ + self@,
    {
        let mut s = String::from_str("Error while command processing ");
        s.append(self.info.as_str());
        s
    }
}

} // verus!
