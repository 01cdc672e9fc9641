use vstd::prelude::*;

verus! {

/// The server could not be started.
#[derive(Debug, Clone)]
pub struct FailedToStart {
    pub info: String,
}

/// A message could not be handed on to its room.
#[derive(Debug, Clone)]
pub struct MessageHandlerError {
    pub info: String,
}

impl FailedToStart {
    /// The cause of the error.
    pub fn description(&self) -> (s: &str)
        ensures
            s@ == self.info@,
    {
        self.info.as_str()
    }

    /// The line that describes the error to a reader.
    pub fn message(&self) -> (s: String)
        ensures
            s@ == "Error while starting "@ + self.info@,
    {
        let mut s = String::from_str("Error while starting ");
        s.append(self.info.as_str());
        s
    }
}

impl MessageHandlerError {
    /// The cause of the error.
    pub fn description(&self) -> (s: &str)
        ensures
            s@ == self.info@,
    {
        self.info.as_str()
    }

    /// The line that describes the error to a reader.
    pub fn message(&self) -> (s: String)
        ensures
            s@ == "Error while message handling "@ + self.info@,
    {
        let mut s = String::from_str("Error while message handling ");
        s.append(self.info.as_str());
        s
    }
}

} // verus!
