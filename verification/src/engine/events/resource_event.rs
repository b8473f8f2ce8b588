use vstd::prelude::*;

verus! {

/// Where a resource comes from.
#[derive(Debug)]
pub enum ResourceIdentifier {
    Url(String),
    File(String),
}

/// What happened to a resource.
#[derive(Debug)]
pub enum ResourcEvent {
    Added(ResourceIdentifier),
    Loaded(ResourceIdentifier),
    UnLoaded(ResourceIdentifier),
}

impl ResourcEvent {
    /// The resource the event is about.
    pub fn resource(&self) -> (resource: &ResourceIdentifier)
        ensures
            *resource == (match *self {
                ResourcEvent::Added(r) => r,
                ResourcEvent::Loaded(r) => r,
                ResourcEvent::UnLoaded(r) => r,
            }),
    {
        match self {
            ResourcEvent::Added(r) => r,
            ResourcEvent::Loaded(r) => r,
            ResourcEvent::UnLoaded(r) => r,
        }
    }
}

} // verus!
