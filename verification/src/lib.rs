//! Named graphs staged under a memory budget, and Grust's algorithms run on
//! them: the naming, option handling, staging and accounting logic of the
//! Nutmeg graph extension, with its contracts.
use vstd::prelude::*;

pub mod text;
pub mod catalog;
pub mod error;
pub mod options;
pub mod columns;
pub mod limits;
pub mod budget;
pub mod frame;
pub mod sizes;
pub mod order;
pub mod layout;
pub mod store;
pub mod reads;
pub mod nodes;
pub mod runs;
pub mod calls;
pub mod source;
pub mod registry;
pub mod tables;

verus! {

/// Which rows a staging call carries.
#[derive(Clone, Copy, Debug, PartialEq, Eq, Structural)]
pub enum Part {
    Nodes,
    Edges,
}

impl Part {
    pub fn name(self) -> (r: &'static str)
        ensures
            self == Part::Nodes ==> r@ == "nodes"@,
            self == Part::Edges ==> r@ == "edges"@,
    {
        match self {
            Part::Nodes => "nodes",
            Part::Edges => "edges",
        }
    }
}

} // verus!
