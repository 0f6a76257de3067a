//! Saving the last stretch of what is composited.
use vstd::prelude::*;

use crate::output::session::{self, describe};

verus! {

/// Why a clip was not saved.
pub enum ReplayFailure {
    /// Nothing is held yet.
    Empty,
    Save(String),
}

/// What a save that failed is reported as. A window that emptied before it
/// could be written is the same news as having asked too early; anything else
/// is described by its causes, the outermost first.
pub fn save_failure(empty: bool, causes: &Vec<String>) -> (r: ReplayFailure)
    requires
        !empty ==> causes@.len() > 0,
    ensures
        empty ==> r is Empty,
        !empty ==> (r matches ReplayFailure::Save(reason) && reason@ == session::described(
            causes@,
            causes@.len() as int,
        )),
{
    if empty {
        ReplayFailure::Empty
    } else {
        ReplayFailure::Save(describe(causes))
    }
}

/// Every save still writing, by a number of its own.
pub struct Saves {
    writing: Vec<u64>,
}

impl View for Saves {
    type V = Seq<u64>;

    closed spec fn view(&self) -> Seq<u64> {
        self.writing@
    }
}

impl Saves {
    /// None yet.
    pub fn new() -> (r: Self)
        ensures
            r@ == Seq::<u64>::empty(),
    {
        Saves { writing: Vec::new() }
    }

    /// Takes one more save.
    pub fn add(&mut self, save: u64)
        ensures
            final(self)@ == old(self)@.push(save),
    {
        self.writing.push(save);
    }

    /// Lets go of those that have answered, given which those are, and
    /// answers with them. What is still writing stays, in its order.
    pub fn collect_finished(&mut self, finished: &Vec<u64>) -> (r: Vec<u64>)
        ensures
            r@ == old(self)@.filter(|save: u64| finished@.contains(save)),
            final(self)@ == old(self)@.filter(|save: u64| !finished@.contains(save)),
    {
        let ghost ended = |save: u64| finished@.contains(save);
        let ghost going = |save: u64| !finished@.contains(save);
        let mut done: Vec<u64> = Vec::new();
        let mut running: Vec<u64> = Vec::new();
        let mut i: usize = 0;
        proof {
            reveal(Seq::filter);
            assert(self.writing@.take(0) =~= Seq::<u64>::empty());
        }
        while i < self.writing.len()
            invariant
                i <= self.writing@.len(),
                *self == *old(self),
                ended == (|save: u64| finished@.contains(save)),
                going == (|save: u64| !finished@.contains(save)),
                done@ == self.writing@.take(i as int).filter(ended),
                running@ == self.writing@.take(i as int).filter(going),
            decreases self.writing@.len() - i,
        {
            let save: u64 = self.writing[i];
            proof {
                assert(self.writing@.take(i + 1) =~= self.writing@.take(i as int).push(save));
                self.writing@.take(i as int).lemma_filter_push(save, ended);
                self.writing@.take(i as int).lemma_filter_push(save, going);
            }
            if has(finished, save) {
                done.push(save);
            } else {
                running.push(save);
            }
            i = i + 1;
        }
        proof {
            assert(self.writing@.take(i as int) =~= self.writing@);
        }
        self.writing = running;
        done
    }

    /// Lets go of every save, and answers with those to wait for.
    pub fn wait(&mut self) -> (r: Vec<u64>)
        ensures
            r@ == old(self)@,
            final(self)@ == Seq::<u64>::empty(),
    {
        let mut all: Vec<u64> = Vec::new();
        core::mem::swap(&mut all, &mut self.writing);
        all
    }
}

fn has(list: &Vec<u64>, value: u64) -> (r: bool)
    ensures
        r == list@.contains(value),
{
    let mut i: usize = 0;
    while i < list.len()
        invariant
            i <= list@.len(),
            forall|j: int| 0 <= j < i ==> list@[j] != value,
        decreases list@.len() - i,
    {
        if list[i] == value {
            return true;
        }
        i = i + 1;
    }
    false
}

} // verus!
