//! The memory two graphics interfaces share: which of the machine's it is
//! taken from, and who gives what back.
//!
//! One interface allocates a buffer and exports it as a descriptor, and the
//! other imports that. Whichever step fails, everything taken until then is
//! given back, once.
use vstd::prelude::*;
use vstd::string::*;

use crate::text::{self, decimal_of_i64};

verus! {

/// Whether one kind of memory can be used: it is among the allowed, and has
/// every property that is wanted.
pub open spec fn suits(types: Seq<u32>, allowed: u32, wanted: u32, i: int) -> bool {
    allowed & (1u32 << (i as u32)) != 0 && types[i] & wanted == wanted
}

/// The first kind of memory that can be used, given the properties of each.
pub fn memory_type(types: &Vec<u32>, allowed: u32, wanted: u32) -> (r: Option<u32>)
    requires
        types@.len() <= 32,
    ensures
        match r {
            Some(i) => {
                &&& i < types@.len()
                &&& suits(types@, allowed, wanted, i as int)
                &&& forall|j: int| 0 <= j < i ==> !suits(types@, allowed, wanted, j)
                &&& allowed & (1u32 << i) != 0
                &&& types@[i as int] & wanted == wanted
            },
            None => forall|j: int| 0 <= j < types@.len() ==> !suits(types@, allowed, wanted, j),
        },
{
    let mut i: usize = 0;
    while i < types.len()
        invariant
            i <= types@.len() <= 32,
            forall|j: int| 0 <= j < i ==> !suits(types@, allowed, wanted, j),
        decreases types@.len() - i,
    {
        let bit: u32 = 1u32 << (i as u32);
        if allowed & bit != 0 && types[i] & wanted == wanted {
            return Some(i as u32);
        }
        i = i + 1;
    }
    None
}

/// What is given back.
#[derive(Clone, Copy, Debug, PartialEq, Eq, Structural)]
pub enum GiveBack {
    CloseDescriptor,
    DestroyBuffer,
    FreeMemory,
    DestroyImport,
    ReleaseContext,
}

/// The steps of allocating, in order.
#[derive(Clone, Copy, Debug, PartialEq, Eq, Structural)]
pub enum AllocateStep {
    /// The device must be able to export memory.
    CheckFeature,
    /// The device must be the interface's own.
    FindDevice,
    CreateBuffer,
    ChooseMemory,
    AllocateMemory,
    BindMemory,
    Export,
}

/// What is held before a step.
pub open spec fn allocated_before(step: AllocateStep) -> Seq<GiveBack> {
    match step {
        AllocateStep::CheckFeature => Seq::empty(),
        AllocateStep::FindDevice => Seq::empty(),
        AllocateStep::CreateBuffer => Seq::empty(),
        AllocateStep::ChooseMemory => seq![GiveBack::DestroyBuffer],
        AllocateStep::AllocateMemory => seq![GiveBack::DestroyBuffer],
        AllocateStep::BindMemory => seq![GiveBack::DestroyBuffer, GiveBack::FreeMemory],
        AllocateStep::Export => seq![GiveBack::DestroyBuffer, GiveBack::FreeMemory],
    }
}

/// The step after one, or `None` after the last.
pub open spec fn allocated_next(step: AllocateStep) -> Option<AllocateStep> {
    match step {
        AllocateStep::CheckFeature => Some(AllocateStep::FindDevice),
        AllocateStep::FindDevice => Some(AllocateStep::CreateBuffer),
        AllocateStep::CreateBuffer => Some(AllocateStep::ChooseMemory),
        AllocateStep::ChooseMemory => Some(AllocateStep::AllocateMemory),
        AllocateStep::AllocateMemory => Some(AllocateStep::BindMemory),
        AllocateStep::BindMemory => Some(AllocateStep::Export),
        AllocateStep::Export => None,
    }
}

/// What a step took.
pub open spec fn allocated_by(step: AllocateStep) -> Seq<GiveBack> {
    match step {
        AllocateStep::CreateBuffer => seq![GiveBack::DestroyBuffer],
        AllocateStep::AllocateMemory => seq![GiveBack::FreeMemory],
        AllocateStep::Export => seq![GiveBack::CloseDescriptor],
        _ => Seq::empty(),
    }
}

/// What allocating does after a step.
pub enum Allocating {
    Next(AllocateStep),
    Done,
    /// It failed: give these back.
    Failed(Vec<GiveBack>),
}

/// What allocating does once a step has worked or failed.
pub fn allocate(step: AllocateStep, ok: bool) -> (r: Allocating)
    ensures
        match r {
            Allocating::Next(next) => ok && allocated_next(step) == Some(next),
            Allocating::Done => ok && allocated_next(step) is None,
            Allocating::Failed(back) => !ok && back@ == allocated_before(step),
        },
{
    if !ok {
        let mut back: Vec<GiveBack> = Vec::new();
        match step {
            AllocateStep::ChooseMemory | AllocateStep::AllocateMemory => {
                back.push(GiveBack::DestroyBuffer);
            },
            AllocateStep::BindMemory | AllocateStep::Export => {
                back.push(GiveBack::DestroyBuffer);
                back.push(GiveBack::FreeMemory);
            },
            _ => {},
        }
        proof {
            assert(back@ =~= allocated_before(step));
        }
        return Allocating::Failed(back);
    }
    match step {
        AllocateStep::CheckFeature => Allocating::Next(AllocateStep::FindDevice),
        AllocateStep::FindDevice => Allocating::Next(AllocateStep::CreateBuffer),
        AllocateStep::CreateBuffer => Allocating::Next(AllocateStep::ChooseMemory),
        AllocateStep::ChooseMemory => Allocating::Next(AllocateStep::AllocateMemory),
        AllocateStep::AllocateMemory => Allocating::Next(AllocateStep::BindMemory),
        AllocateStep::BindMemory => Allocating::Next(AllocateStep::Export),
        AllocateStep::Export => Allocating::Done,
    }
}

/// What is given back on failure is what has been taken: what was held before
/// the step that comes next is what was held before this one and what it took.
pub proof fn law_a_failed_allocation_keeps_nothing(step: AllocateStep)
    requires
        allocated_next(step) is Some,
    ensures
        allocated_before(allocated_next(step)->0) == allocated_before(step) + allocated_by(step),
{
    assert(allocated_before(allocated_next(step)->0) =~= allocated_before(step) + allocated_by(
        step,
    ));
}

/// What stands for a descriptor that has been handed on.
pub const NO_DESCRIPTOR: i32 = -1;

/// An allocation that has been made: what of it is still this side's own.
#[derive(Clone, Copy, Debug, PartialEq, Eq, Structural)]
pub struct ExportedMemory {
    /// The exported descriptor, negative once it has been handed on.
    pub fd: i32,
    /// Whether someone else has the job of releasing the buffer.
    pub released: bool,
}

impl ExportedMemory {
    /// What is still this side's to give back.
    pub open spec fn owned(self) -> Seq<GiveBack> {
        (if self.fd >= 0 {
            seq![GiveBack::CloseDescriptor]
        } else {
            Seq::empty()
        }) + (if self.released {
            Seq::empty()
        } else {
            seq![GiveBack::DestroyBuffer, GiveBack::FreeMemory]
        })
    }

    /// The descriptor, which is the caller's from here on.
    pub fn take_fd(&mut self) -> (r: i32)
        ensures
            r == old(self).fd,
            *final(self) == (ExportedMemory { fd: NO_DESCRIPTOR, ..*old(self) }),
    {
        let fd: i32 = self.fd;
        self.fd = NO_DESCRIPTOR;
        fd
    }

    /// Hands on the job of releasing the buffer and its memory. Answers what
    /// is to be released, and in what order.
    pub fn release_callback(&mut self) -> (r: Vec<GiveBack>)
        ensures
            r@ == seq![GiveBack::DestroyBuffer, GiveBack::FreeMemory],
            *final(self) == (ExportedMemory { released: true, ..*old(self) }),
    {
        self.released = true;
        let mut r: Vec<GiveBack> = Vec::new();
        r.push(GiveBack::DestroyBuffer);
        r.push(GiveBack::FreeMemory);
        proof {
            assert(r@ =~= seq![GiveBack::DestroyBuffer, GiveBack::FreeMemory]);
        }
        r
    }

    /// What is given back on letting go: whatever has not been handed on.
    pub fn let_go(&self) -> (r: Vec<GiveBack>)
        ensures
            r@ == self.owned(),
    {
        let mut r: Vec<GiveBack> = Vec::new();
        if self.fd >= 0 {
            r.push(GiveBack::CloseDescriptor);
        }
        if !self.released {
            r.push(GiveBack::DestroyBuffer);
            r.push(GiveBack::FreeMemory);
        }
        proof {
            assert(r@ =~= self.owned());
        }
        r
    }
}

/// What has been handed on is not given back twice.
pub proof fn law_what_is_handed_on_is_not_given_back(memory: ExportedMemory)
    ensures
        !(ExportedMemory { fd: NO_DESCRIPTOR, ..memory }).owned().contains(
            GiveBack::CloseDescriptor,
        ),
        !(ExportedMemory { released: true, ..memory }).owned().contains(GiveBack::DestroyBuffer),
        !(ExportedMemory { released: true, ..memory }).owned().contains(GiveBack::FreeMemory),
        (ExportedMemory { fd: NO_DESCRIPTOR, released: true }).owned() == Seq::<GiveBack>::empty(),
{
    let handed_on = ExportedMemory { fd: NO_DESCRIPTOR, released: true };
    assert(handed_on.owned() =~= Seq::<GiveBack>::empty());
}

/// The steps of importing, in order.
#[derive(Clone, Copy, Debug, PartialEq, Eq, Structural)]
pub enum ImportStep {
    Start,
    FindDevice,
    RetainContext,
    PushContext,
    Import,
    MapBuffer,
    PopContext,
}

/// What a failed step gives back. The descriptor is the driver's once the
/// import has worked, and a context that could not be made current again
/// leaves what was imported into it to it.
pub open spec fn import_gives_back(step: ImportStep) -> Seq<GiveBack> {
    match step {
        ImportStep::Start | ImportStep::FindDevice | ImportStep::RetainContext => seq![
            GiveBack::CloseDescriptor,
        ],
        ImportStep::PushContext | ImportStep::Import => seq![
            GiveBack::CloseDescriptor,
            GiveBack::ReleaseContext,
        ],
        ImportStep::MapBuffer => seq![GiveBack::DestroyImport, GiveBack::ReleaseContext],
        ImportStep::PopContext => seq![GiveBack::ReleaseContext],
    }
}

/// What a step that failed gives back.
pub fn import_failed(step: ImportStep) -> (r: Vec<GiveBack>)
    ensures
        r@ == import_gives_back(step),
{
    let mut r: Vec<GiveBack> = Vec::new();
    match step {
        ImportStep::Start | ImportStep::FindDevice | ImportStep::RetainContext => {
            r.push(GiveBack::CloseDescriptor);
        },
        ImportStep::PushContext | ImportStep::Import => {
            r.push(GiveBack::CloseDescriptor);
            r.push(GiveBack::ReleaseContext);
        },
        ImportStep::MapBuffer => {
            r.push(GiveBack::DestroyImport);
            r.push(GiveBack::ReleaseContext);
        },
        ImportStep::PopContext => {
            r.push(GiveBack::ReleaseContext);
        },
    }
    proof {
        assert(r@ =~= import_gives_back(step));
    }
    r
}

/// The descriptor never stays with the caller: up to the import it is closed
/// when a step fails, and after it the driver has it. The context is released
/// exactly where it had been retained.
pub proof fn law_a_failed_import_keeps_no_descriptor(step: ImportStep)
    ensures
        import_gives_back(step).contains(GiveBack::CloseDescriptor) <==> !(step is MapBuffer || step
            is PopContext),
        import_gives_back(step).contains(GiveBack::ReleaseContext) <==> !(step is Start || step
            is FindDevice || step is RetainContext),
{
    let back = import_gives_back(step);
    if step is MapBuffer || step is PopContext {
        assert(!back.contains(GiveBack::CloseDescriptor));
    } else {
        assert(back[0] == GiveBack::CloseDescriptor);
    }
    if step is Start || step is FindDevice || step is RetainContext {
        assert(!back.contains(GiveBack::ReleaseContext));
    } else {
        assert(back.last() == GiveBack::ReleaseContext);
    }
}

/// What is said of a call into the driver that failed, and nothing of one that
/// worked: the call, and what the driver said or else its number.
pub fn check(call: &str, result: i32, said: Option<&str>) -> (r: Result<(), String>)
    ensures
        match r {
            Ok(()) => result == 0,
            Err(reason) => result != 0 && reason@ == call@ + " failed: "@ + (match said {
                Some(said) => said@,
                None => "CUDA error "@ + text::decimal_int(result as int),
            }),
        },
{
    if result == 0 {
        return Ok(());
    }
    let mut reason: String = call.to_owned();
    reason.append(" failed: ");
    match said {
        Some(said) => {
            reason.append(said);
        },
        None => {
            let ghost head = reason@;
            reason.append("CUDA error ");
            let number = decimal_of_i64(result as i64);
            reason.append(number.as_str());
            proof {
                assert(reason@ =~= head + ("CUDA error "@ + text::decimal_int(result as int)));
            }
        },
    }
    Err(reason)
}

/// A kind of memory will do exactly where it is allowed and is everything that
/// is wanted of it.
pub proof fn law_memory_is_allowed_and_all_that_is_wanted(
    types: Seq<u32>,
    allowed: u32,
    wanted: u32,
    i: int,
)
    ensures
        suits(types, allowed, wanted, i) ==> types[i] & wanted == wanted,
        allowed & (1u32 << (i as u32)) == 0 ==> !suits(types, allowed, wanted, i),
        allowed & (1u32 << (i as u32)) != 0 && types[i] & wanted == wanted ==> suits(
            types,
            allowed,
            wanted,
            i,
        ),
{
}

/// Memory is allocated in one order: the device is looked at first, the buffer
/// made before its memory, the memory bound before it is exported. A failure
/// gives back the buffer wherever there is one, and the memory wherever there
/// is any, and nothing else.
pub proof fn law_memory_is_allocated_in_order(step: AllocateStep)
    ensures
        allocated_next(AllocateStep::CheckFeature) == Some(AllocateStep::FindDevice),
        allocated_next(AllocateStep::FindDevice) == Some(AllocateStep::CreateBuffer),
        allocated_next(AllocateStep::CreateBuffer) == Some(AllocateStep::ChooseMemory),
        allocated_next(AllocateStep::ChooseMemory) == Some(AllocateStep::AllocateMemory),
        allocated_next(AllocateStep::AllocateMemory) == Some(AllocateStep::BindMemory),
        allocated_next(AllocateStep::BindMemory) == Some(AllocateStep::Export),
        allocated_next(AllocateStep::Export) is None,
        step is CheckFeature || step is FindDevice || step is CreateBuffer ==> allocated_before(
            step,
        ).len() == 0,
        step is ChooseMemory || step is AllocateMemory ==> allocated_before(step) == seq![
            GiveBack::DestroyBuffer,
        ],
        step is BindMemory || step is Export ==> allocated_before(step) == seq![
            GiveBack::DestroyBuffer,
            GiveBack::FreeMemory,
        ],
{
}

/// What an export still owns: its descriptor until it is handed on, and its
/// buffer and memory until someone else has the job of releasing them.
pub proof fn law_what_is_owned_is_given_back(memory: ExportedMemory)
    ensures
        memory.fd >= 0 && !memory.released ==> memory.owned() == seq![
            GiveBack::CloseDescriptor,
            GiveBack::DestroyBuffer,
            GiveBack::FreeMemory,
        ],
        memory.fd >= 0 && memory.released ==> memory.owned() == seq![GiveBack::CloseDescriptor],
        memory.fd < 0 && !memory.released ==> memory.owned() == seq![
            GiveBack::DestroyBuffer,
            GiveBack::FreeMemory,
        ],
        memory.fd < 0 && memory.released ==> memory.owned().len() == 0,
{
    assert(memory.fd >= 0 && !memory.released ==> memory.owned() =~= seq![
        GiveBack::CloseDescriptor,
        GiveBack::DestroyBuffer,
        GiveBack::FreeMemory,
    ]);
    assert(memory.fd >= 0 && memory.released ==> memory.owned() =~= seq![
        GiveBack::CloseDescriptor,
    ]);
    assert(memory.fd < 0 && !memory.released ==> memory.owned() =~= seq![
        GiveBack::DestroyBuffer,
        GiveBack::FreeMemory,
    ]);
}

/// An import that fails closes its descriptor until the driver has taken it,
/// undoes the import only where mapping it failed, and lets go of the device
/// last, once it holds it.
pub proof fn law_a_failed_import_gives_back_what_it_took(step: ImportStep)
    ensures
        step is Start || step is FindDevice || step is RetainContext ==> import_gives_back(step)
            == seq![GiveBack::CloseDescriptor],
        step is PushContext || step is Import ==> import_gives_back(step) == seq![
            GiveBack::CloseDescriptor,
            GiveBack::ReleaseContext,
        ],
        step is MapBuffer ==> import_gives_back(step) == seq![
            GiveBack::DestroyImport,
            GiveBack::ReleaseContext,
        ],
        step is PopContext ==> import_gives_back(step) == seq![GiveBack::ReleaseContext],
{
}

/// What each step of an allocation leaves to be given back.
pub proof fn law_what_a_step_takes(step: AllocateStep)
    ensures
        allocated_by(AllocateStep::CreateBuffer) == seq![GiveBack::DestroyBuffer],
        allocated_by(AllocateStep::AllocateMemory) == seq![GiveBack::FreeMemory],
        allocated_by(AllocateStep::Export) == seq![GiveBack::CloseDescriptor],
        !(step is CreateBuffer || step is AllocateMemory || step is Export) ==> allocated_by(
            step,
        ).len() == 0,
{
}

} // verus!
