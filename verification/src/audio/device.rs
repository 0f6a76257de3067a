//! Which endpoint a source opens.
//!
//! A source stores the endpoint it was pointed at, and that endpoint can be
//! unplugged. Both [`pick`] and [`device_available`] answer the same question,
//! the stored one if it is still there and this kind's default otherwise, and
//! they agree: a source is called openable exactly where it can be opened.
use vstd::prelude::*;

use crate::text::same;

verus! {

/// Whether a source listens to what comes in or to what is played.
#[derive(Clone, Copy, Debug, PartialEq, Eq, Structural)]
pub enum AudioSourceKind {
    Input,
    Output,
}

/// One endpoint the machine has.
#[derive(Clone, Debug)]
pub struct AudioDeviceTarget {
    pub id: String,
    pub name: String,
    pub kind: AudioSourceKind,
    pub is_default: bool,
}

/// What is said where nothing can be picked.
pub const NO_DEFAULT_DEVICE: &'static str =
    "this machine reports no default audio device of that kind";

/// Whether this endpoint is the one that is stored.
pub open spec fn is_stored(device: AudioDeviceTarget, stored: Option<Seq<char>>) -> bool {
    stored == Some(device.id@)
}

/// Whether this endpoint is the default one of a kind.
pub open spec fn is_default_of(device: AudioDeviceTarget, kind: AudioSourceKind) -> bool {
    device.kind == kind && device.is_default
}

/// Whether an endpoint is one that a source of this kind can be opened on: the
/// one it stored, or the default of its kind.
pub open spec fn serves(
    device: AudioDeviceTarget,
    kind: AudioSourceKind,
    stored: Option<Seq<char>>,
) -> bool {
    is_stored(device, stored) || is_default_of(device, kind)
}

/// Whether any endpoint would do for a source of this kind.
pub open spec fn available(
    devices: Seq<AudioDeviceTarget>,
    kind: AudioSourceKind,
    stored: Option<Seq<char>>,
) -> bool {
    exists|i: int| 0 <= i < devices.len() && #[trigger] serves(devices[i], kind, stored)
}

/// The endpoint a source names, as a text.
pub open spec fn named(device: Option<String>) -> Option<Seq<char>> {
    match device {
        Some(device) => Some(device@),
        None => None,
    }
}

/// Whether an endpoint is the one that is stored.
pub fn stores(device: &AudioDeviceTarget, stored: &Option<String>) -> (r: bool)
    ensures
        r == is_stored(*device, named(*stored)),
{
    match stored {
        Some(stored) => same(device.id.as_str(), stored.as_str()),
        None => false,
    }
}

/// Whether two sources name the same endpoint, or neither names any.
pub fn same_device(a: &Option<String>, b: &Option<String>) -> (r: bool)
    ensures
        r == (named(*a) == named(*b)),
{
    match (a, b) {
        (Some(a), Some(b)) => same(a.as_str(), b.as_str()),
        (None, None) => true,
        _ => false,
    }
}

/// Whether opening a source could find an endpoint at all.
pub fn device_available(
    devices: &Vec<AudioDeviceTarget>,
    kind: AudioSourceKind,
    stored: &Option<String>,
) -> (r: bool)
    ensures
        r == available(devices@, kind, named(*stored)),
        r == exists|i: int|
            0 <= i < devices@.len() && ((stored matches Some(id) && id@ == (
            #[trigger] devices@[i]).id@) || (devices@[i].kind == kind && devices@[i].is_default)),
{
    let mut i: usize = 0;
    while i < devices.len()
        invariant
            i <= devices@.len(),
            forall|j: int| 0 <= j < i ==> !#[trigger] serves(devices@[j], kind, named(*stored)),
        decreases devices@.len() - i,
    {
        let device = &devices[i];
        if stores(device, stored) || (device.kind == kind && device.is_default) {
            proof {
                assert(serves(devices@[i as int], kind, named(*stored)));
            }
            return true;
        }
        i = i + 1;
    }
    proof {
        assert forall|j: int| 0 <= j < devices@.len() implies !((stored matches Some(id) && id@ == (
        #[trigger] devices@[j]).id@) || (devices@[j].kind == kind && devices@[j].is_default)) by {
            assert(!serves(devices@[j], kind, named(*stored)));
        }
    }
    false
}

/// Whether `i` is the first endpoint that is the stored one.
pub open spec fn first_stored(
    devices: Seq<AudioDeviceTarget>,
    stored: Option<Seq<char>>,
    i: int,
) -> bool {
    &&& 0 <= i < devices.len()
    &&& is_stored(devices[i], stored)
    &&& forall|j: int| 0 <= j < i ==> !is_stored(#[trigger] devices[j], stored)
}

/// Whether `i` is the first endpoint that is the default of a kind.
pub open spec fn first_default(
    devices: Seq<AudioDeviceTarget>,
    kind: AudioSourceKind,
    i: int,
) -> bool {
    &&& 0 <= i < devices.len()
    &&& is_default_of(devices[i], kind)
    &&& forall|j: int| 0 <= j < i ==> !is_default_of(#[trigger] devices[j], kind)
}

/// Whether `i` is the endpoint that is picked: the stored one if it is there,
/// otherwise the default of the kind.
pub open spec fn picked(
    devices: Seq<AudioDeviceTarget>,
    stored: Option<Seq<char>>,
    kind: AudioSourceKind,
    i: int,
) -> bool {
    ||| first_stored(devices, stored, i)
    ||| (forall|j: int| 0 <= j < devices.len() ==> !is_stored(#[trigger] devices[j], stored))
        && first_default(devices, kind, i)
}

/// The stored endpoint if it is still there, otherwise the default of this
/// kind. Answers with its place in the list.
pub fn pick(
    devices: &Vec<AudioDeviceTarget>,
    stored: &Option<String>,
    kind: AudioSourceKind,
) -> (r: Result<usize, String>)
    ensures
        r is Ok <==> available(devices@, kind, named(*stored)),
        r matches Ok(i) ==> i < devices@.len() && (stored matches Some(id) && id@
            == devices@[i as int].id@ || (devices@[i as int].kind == kind
            && devices@[i as int].is_default)),
        match r {
            Ok(i) => picked(devices@, named(*stored), kind, i as int),
            Err(reason) => {
                &&& reason@ == NO_DEFAULT_DEVICE@
                &&& forall|j: int|
                    0 <= j < devices@.len() ==> !is_stored(#[trigger] devices@[j], named(*stored))
                &&& forall|j: int|
                    0 <= j < devices@.len() ==> !is_default_of(#[trigger] devices@[j], kind)
            },
        },
{
    let mut i: usize = 0;
    while i < devices.len()
        invariant
            i <= devices@.len(),
            forall|j: int| 0 <= j < i ==> !is_stored(#[trigger] devices@[j], named(*stored)),
        decreases devices@.len() - i,
    {
        if stores(&devices[i], stored) {
            proof {
                assert(serves(devices@[i as int], kind, named(*stored)));
            }
            return Ok(i);
        }
        i = i + 1;
    }
    let mut i: usize = 0;
    while i < devices.len()
        invariant
            i <= devices@.len(),
            forall|j: int|
                0 <= j < devices@.len() ==> !is_stored(#[trigger] devices@[j], named(*stored)),
            forall|j: int| 0 <= j < i ==> !is_default_of(#[trigger] devices@[j], kind),
        decreases devices@.len() - i,
    {
        if devices[i].kind == kind && devices[i].is_default {
            proof {
                assert(serves(devices@[i as int], kind, named(*stored)));
            }
            return Ok(i);
        }
        i = i + 1;
    }
    Err(NO_DEFAULT_DEVICE.to_owned())
}

/// The two answers agree: a source is called openable exactly where there is an
/// endpoint that is picked for it.
pub proof fn law_what_is_available_is_what_can_be_picked(
    devices: Seq<AudioDeviceTarget>,
    stored: Option<Seq<char>>,
    kind: AudioSourceKind,
)
    ensures
        available(devices, kind, stored) <==> exists|i: int| picked(devices, stored, kind, i),
{
    if available(devices, kind, stored) {
        let w = choose|i: int|
            0 <= i < devices.len() && #[trigger] serves(devices[i], kind, stored);
        if exists|j: int| 0 <= j < devices.len() && is_stored(#[trigger] devices[j], stored) {
            let j = choose|j: int|
                0 <= j < devices.len() && is_stored(#[trigger] devices[j], stored);
            let i = lemma_first_stored(devices, stored, j);
            assert(picked(devices, stored, kind, i));
        } else {
            assert(!is_stored(devices[w], stored));
            let i = lemma_first_default(devices, kind, w);
            assert(picked(devices, stored, kind, i));
        }
    }
    if exists|i: int| picked(devices, stored, kind, i) {
        let i = choose|i: int| picked(devices, stored, kind, i);
        assert(serves(devices[i], kind, stored));
    }
}

proof fn lemma_first_stored(
    devices: Seq<AudioDeviceTarget>,
    stored: Option<Seq<char>>,
    at: int,
) -> (i: int)
    requires
        0 <= at < devices.len(),
        is_stored(devices[at], stored),
    ensures
        first_stored(devices, stored, i),
    decreases at,
{
    if exists|j: int| 0 <= j < at && is_stored(#[trigger] devices[j], stored) {
        let j = choose|j: int| 0 <= j < at && is_stored(#[trigger] devices[j], stored);
        lemma_first_stored(devices, stored, j)
    } else {
        at
    }
}

proof fn lemma_first_default(
    devices: Seq<AudioDeviceTarget>,
    kind: AudioSourceKind,
    at: int,
) -> (i: int)
    requires
        0 <= at < devices.len(),
        is_default_of(devices[at], kind),
    ensures
        first_default(devices, kind, i),
    decreases at,
{
    if exists|j: int| 0 <= j < at && is_default_of(#[trigger] devices[j], kind) {
        let j = choose|j: int| 0 <= j < at && is_default_of(#[trigger] devices[j], kind);
        lemma_first_default(devices, kind, j)
    } else {
        at
    }
}

/// The endpoint a source stores is the one it is opened on wherever it is
/// there, whatever its kind; without it, the default of the source's own kind
/// is, and never one of another kind or one that is not the default. Of two
/// that would do, the first is taken.
pub proof fn law_what_is_stored_comes_before_the_default(
    devices: Seq<AudioDeviceTarget>,
    id: Seq<char>,
    kind: AudioSourceKind,
    i: int,
    j: int,
)
    requires
        0 <= j < devices.len(),
    ensures
        picked(devices, Some(id), kind, i) && devices[j].id@ == id ==> devices[i].id@ == id && i
            <= j,
        picked(devices, Some(id), kind, i) && devices[i].id@ != id ==> devices[i].kind == kind
            && devices[i].is_default,
        picked(devices, None, kind, i) ==> devices[i].kind == kind && devices[i].is_default,
        picked(devices, None, kind, i) && devices[j].kind == kind && devices[j].is_default ==> i
            <= j,
        devices[j].id@ == id ==> available(devices, kind, Some(id)),
        devices[j].kind == kind && devices[j].is_default ==> available(devices, kind, None)
            && available(devices, kind, Some(id)),
        available(devices, kind, None) ==> exists|k: int|
            0 <= k < devices.len() && (#[trigger] devices[k]).kind == kind
                && devices[k].is_default,
{
    if devices[j].id@ == id || (devices[j].kind == kind && devices[j].is_default) {
        assert(serves(devices[j], kind, Some(id)));
    }
    if devices[j].kind == kind && devices[j].is_default {
        assert(serves(devices[j], kind, None));
        assert(is_default_of(devices[j], kind));
    }
    if devices[j].id@ == id {
        assert(is_stored(devices[j], Some(id)));
    }
    if available(devices, kind, None) {
        let k = choose|k: int| 0 <= k < devices.len() && #[trigger] serves(devices[k], kind, None);
        assert(devices[k].kind == kind && devices[k].is_default);
    }
}

/// An endpoint is named by what is stored of it, and nothing is where nothing
/// is stored.
pub proof fn law_an_endpoint_is_named_by_what_is_stored(device: String)
    ensures
        named(Some(device)) == Some(device@),
        named(None) is None,
{
}

} // verus!
