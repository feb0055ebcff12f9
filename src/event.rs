use vstd::prelude::*;

verus! {

/// What the manager reports to its consumer.
#[derive(Debug, PartialEq, Eq)]
pub enum ConMgrEvent {
    /// The connection under this identifier is gone, with the transport's
    /// error where one caused it.
    Disconnect(String, Option<String>),
    /// One frame read from the connection under this identifier.
    ReceiveData(String, Vec<u8>),
}

/// What the handle asks of the manager, and the manager of a worker.
#[derive(Debug)]
pub enum ConMgrCommand<T> {
    /// Serve this already established transport under this identifier.
    Connect(String, T),
    /// Write one frame to the connection under this identifier.
    SendData(String, Vec<u8>),
    /// Close the connection under this identifier.
    Disconnect(String),
}

/// An event as a worker hands it to the manager: tagged with the worker's
/// serial number, so that a report of a displaced worker is told apart from
/// one of the worker that replaced it.
#[derive(Debug)]
pub struct WorkerReport {
    pub serial: u64,
    pub event: ConMgrEvent,
}

impl ConMgrEvent {
    /// The identifier that the event is about.
    pub open spec fn uri_of(&self) -> Seq<char> {
        match self {
            ConMgrEvent::Disconnect(u, _) => u@,
            ConMgrEvent::ReceiveData(u, _) => u@,
        }
    }

    /// The identifier that the event is about.
    pub fn uri(&self) -> (r: &String)
        ensures
            r@ == self.uri_of(),
    {
        match self {
            ConMgrEvent::Disconnect(u, _) => u,
            ConMgrEvent::ReceiveData(u, _) => u,
        }
    }
}

} // verus!
