//! The typed outcome of resolution: one arm per provider, dispatched
//! exhaustively.
use crate::api::API;
use crate::directory::Directory;
use crate::file::File;
use vstd::prelude::*;

verus! {

pub enum FSPath {
    API(API),
    File(File),
    Directory(Directory),
}

} // verus!
