//! Recordings and broadcasts: what one is made of, and how it begins and ends.
use vstd::prelude::*;

pub mod disk;
pub mod muxer;
pub mod replay;
pub mod screenshot;
pub mod session;
pub mod streaming;
pub mod tracks;

verus! {

/// Which of the two outputs something belongs to.
#[derive(Clone, Copy, Debug, PartialEq, Eq, Structural)]
pub enum OutputKind {
    Recording,
    Broadcast,
}

impl OutputKind {
    /// What every element of this output is named after.
    pub open spec fn called(&self) -> Seq<char> {
        match self {
            OutputKind::Recording => "record"@,
            OutputKind::Broadcast => "stream"@,
        }
    }

    /// What every element of this output is named after.
    pub fn prefix(&self) -> (r: &'static str)
        ensures
            r@ == self.called(),
            self is Recording ==> r@ == "record"@,
            self is Broadcast ==> r@ == "stream"@,
    {
        match self {
            OutputKind::Recording => "record",
            OutputKind::Broadcast => "stream",
        }
    }
}

} // verus!
