//! How much room is left where recordings are written.
use vstd::prelude::*;

verus! {

/// The first of a directory and those above it, nearest first, that exists.
pub open spec fn nearest(exists: Seq<bool>) -> Option<int>
    decreases exists.len(),
{
    if exists.len() == 0 {
        None
    } else if exists[0] {
        Some(0)
    } else {
        match nearest(exists.skip(1)) {
            Some(i) => Some(i + 1),
            None => None,
        }
    }
}

/// Which of a directory and those above it is asked, nearest first: the first
/// that exists.
pub fn nearest_existing(exists: &Vec<bool>) -> (r: Option<usize>)
    ensures
        match r {
            Some(i) => {
                &&& nearest(exists@) == Some(i as int)
                &&& i < exists@.len()
                &&& exists@[i as int]
                &&& forall|j: int| 0 <= j < i ==> !exists@[j]
            },
            None => {
                &&& nearest(exists@) is None
                &&& forall|j: int| 0 <= j < exists@.len() ==> !exists@[j]
            },
        },
{
    let mut i: usize = 0;
    while i < exists.len()
        invariant
            i <= exists@.len(),
            forall|j: int| 0 <= j < i ==> !exists@[j],
        decreases exists@.len() - i,
    {
        if exists[i] {
            proof {
                lemma_nearest(exists@, i as int);
            }
            return Some(i);
        }
        i = i + 1;
    }
    proof {
        lemma_nearest(exists@, i as int);
    }
    None
}

/// Where nothing nearer exists, what is nearest is found further on.
proof fn lemma_nearest(exists: Seq<bool>, n: int)
    requires
        0 <= n <= exists.len(),
        forall|j: int| 0 <= j < n ==> !exists[j],
    ensures
        nearest(exists) == (match nearest(exists.skip(n)) {
            Some(i) => Some(i + n),
            None => None,
        }),
    decreases n,
{
    if n > 0 {
        let above = exists.skip(1);
        assert forall|j: int| 0 <= j < n - 1 implies !above[j] by {
            assert(!exists[j + 1]);
        }
        lemma_nearest(above, n - 1);
        assert(above.skip(n - 1) =~= exists.skip(n));
    } else {
        assert(exists.skip(0) =~= exists);
    }
}

/// The directory that is asked, of one and those above it.
pub open spec fn asked<T>(directories: Seq<T>, exists: Seq<bool>) -> Option<T> {
    match nearest(exists) {
        Some(i) => Some(directories[i]),
        None => None,
    }
}

/// A directory that does not exist yet is asked about through the nearest above
/// it that does: from either, and from any between them, it is the same one
/// that is asked, so the room there is the same. Where none exists, there is
/// none to ask.
pub proof fn law_a_missing_directory_is_asked_about_through_the_nearest_above<T>(
    directories: Seq<T>,
    exists: Seq<bool>,
    n: int,
)
    requires
        directories.len() == exists.len(),
        0 <= n <= exists.len(),
        nearest(exists) matches Some(i) ==> n <= i,
    ensures
        asked(directories.skip(n), exists.skip(n)) == asked(directories, exists),
        nearest(exists) matches Some(i) ==> {
            &&& 0 <= i < exists.len()
            &&& exists[i]
            &&& forall|j: int| 0 <= j < i ==> !exists[j]
            &&& nearest(exists.skip(i)) == Some(0int)
        },
        nearest(exists) is None <==> forall|j: int| 0 <= j < exists.len() ==> !exists[j],
{
    lemma_nearest_is_first(exists);
    lemma_nearest(exists, n);
    lemma_nearest_is_first(exists.skip(n));
    if let Some(i) = nearest(exists) {
        lemma_nearest(exists, i);
    }
}

/// What is nearest exists, and nothing before it does.
proof fn lemma_nearest_is_first(exists: Seq<bool>)
    ensures
        match nearest(exists) {
            Some(i) => 0 <= i < exists.len() && exists[i] && forall|j: int|
                0 <= j < i ==> !exists[j],
            None => forall|j: int| 0 <= j < exists.len() ==> !exists[j],
        },
    decreases exists.len(),
{
    if exists.len() > 0 && !exists[0] {
        let above = exists.skip(1);
        lemma_nearest_is_first(above);
        assert forall|j: int| 1 <= j < exists.len() implies exists[j] == above[j - 1] by {}
    }
}

/// Bytes free, from the blocks free to an unprivileged user and the size of
/// one; `None` where that is more than can be counted.
pub fn available(blocks: u64, block_size: u64) -> (r: Option<u64>)
    ensures
        r == (if blocks * block_size <= u64::MAX {
            Some((blocks * block_size) as u64)
        } else {
            None
        }),
{
    blocks.checked_mul(block_size)
}

/// The directory asked is the first that exists, and none is where none does.
pub proof fn law_the_first_that_exists_is_asked<T>(
    directories: Seq<T>,
    exists: Seq<bool>,
    i: int,
)
    requires
        directories.len() == exists.len(),
    ensures
        0 <= i < exists.len() && exists[i] && (forall|j: int| 0 <= j < i ==> !exists[j]) ==> asked(
            directories,
            exists,
        ) == Some(directories[i]),
        (forall|j: int| 0 <= j < exists.len() ==> !exists[j]) ==> asked(directories, exists)
            is None,
{
    lemma_nearest_is_first(exists);
}

} // verus!
