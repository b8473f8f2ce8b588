use vstd::prelude::*;
use crate::components::props::{clone_text, text_model};

verus! {

/// What every resource has: where it came from, until when it may be used,
/// as seconds since the start of 1970 in universal time, and its bytes once
/// they are loaded.
#[derive(Debug)]
pub struct ResourceData {
    pub path: Option<String>,
    pub expiration_time: Option<i64>,
    pub data: Option<Vec<u8>>,
}

/// An image.
#[derive(Debug)]
pub struct ImageResource {
    pub common_data: ResourceData,
}

/// Something loaded from outside the program.
#[derive(Debug)]
pub enum Resource {
    Image(ImageResource),
}

impl Resource {
    /// What every resource has.
    pub open spec fn common(&self) -> ResourceData {
        match *self {
            Resource::Image(image) => image.common_data,
        }
    }

    /// Where the resource came from.
    pub fn path(&self) -> (path: Option<String>)
        ensures
            text_model(path) == text_model(self.common().path),
    {
        match self {
            Resource::Image(data) => clone_text(&data.common_data.path),
        }
    }

    /// Until when the resource may be used.
    pub fn expiration_time(&self) -> (time: Option<i64>)
        ensures
            time == self.common().expiration_time,
    {
        match self {
            Resource::Image(data) => data.common_data.expiration_time,
        }
    }

    /// The bytes of the resource, once they are loaded.
    pub fn data(&self) -> (data: Option<&Vec<u8>>)
        ensures
            match data {
                Some(bytes) => self.common().data == Some(*bytes),
                None => self.common().data.is_none(),
            },
    {
        match self {
            Resource::Image(image) => match &image.common_data.data {
                Some(bytes) => Some(bytes),
                None => None,
            },
        }
    }
}

/// The resources an application has asked for.
#[derive(Debug)]
pub struct ResourceManager {
    pub resources: Vec<Resource>,
}

impl ResourceManager {
    pub fn new() -> (manager: ResourceManager)
        ensures
            manager.resources@.len() == 0,
    {
        ResourceManager { resources: Vec::new() }
    }
}

} // verus!
