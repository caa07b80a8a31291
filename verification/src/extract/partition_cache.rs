//! A worker's cache of opened package files.
//!
//! A worker opens each package file at most once. The cache maps the name of
//! a file to the handle that opening it gave, and hands handles out by slot:
//! the position at which the file was put in.

use vstd::prelude::*;

verus! {

/// The opened package files of one worker, with their handles.
pub struct PartitionCache<H> {
    files: Vec<String>,
    handles: Vec<H>,
}

/// The mathematical form of a [`PartitionCache`]: the names of the files and
/// their handles, slot by slot.
pub struct PartitionCacheView<H> {
    pub files: Seq<Seq<char>>,
    pub handles: Seq<H>,
}

impl<H> PartitionCacheView<H> {
    /// Every file has a handle, and no file is there twice.
    pub open spec fn wf(self) -> bool {
        &&& self.files.len() == self.handles.len()
        &&& forall|i: int, j: int|
            0 <= i < j < self.files.len() ==> #[trigger] self.files[i] != #[trigger] self.files[j]
    }

    /// The slot of a file, if the file is in the cache.
    pub open spec fn slot_of(self, file: Seq<char>) -> Option<int> {
        if self.files.contains(file) {
            Some(self.files.index_of(file))
        } else {
            None
        }
    }

    /// The cache with one more file, in a slot of its own.
    pub open spec fn with(self, file: Seq<char>, handle: H) -> PartitionCacheView<H> {
        PartitionCacheView { files: self.files.push(file), handles: self.handles.push(handle) }
    }
}

impl<H> View for PartitionCache<H> {
    type V = PartitionCacheView<H>;

    closed spec fn view(&self) -> PartitionCacheView<H> {
        PartitionCacheView { files: self.files.deep_view(), handles: self.handles@ }
    }
}

/// A file that is not yet in a cache can be added to it.
pub proof fn lemma_with_keeps_wf<H>(cache: PartitionCacheView<H>, file: Seq<char>, handle: H)
    requires
        cache.wf(),
        !cache.files.contains(file),
    ensures
        cache.with(file, handle).wf(),
{
    let next = cache.with(file, handle);
    assert forall|i: int, j: int| 0 <= i < j < next.files.len() implies #[trigger] next.files[i]
        != #[trigger] next.files[j] by {
        if j == cache.files.len() {
            assert(cache.files[i] == next.files[i]);
            assert(cache.files.contains(next.files[i]));
        } else {
            assert(cache.files[i] == next.files[i] && cache.files[j] == next.files[j]);
        }
    }
}

/// The slot of a file is the one place where the file stands.
pub proof fn lemma_slot_of<H>(cache: PartitionCacheView<H>, file: Seq<char>, slot: int)
    requires
        cache.wf(),
        0 <= slot < cache.files.len(),
        cache.files[slot] == file,
    ensures
        cache.slot_of(file) == Some(slot),
{
    assert(cache.files.contains(file));
    let found = cache.files.index_of(file);
    assert(0 <= found < cache.files.len() && cache.files[found] == file);
    if found < slot {
        assert(cache.files[found] != cache.files[slot]);
    } else if slot < found {
        assert(cache.files[slot] != cache.files[found]);
    }
}

impl<H> PartitionCache<H> {
    /// What holds of every cache: see [`PartitionCacheView::wf`].
    #[verifier::type_invariant]
    pub open spec fn well_formed(self) -> bool {
        self@.wf()
    }

    /// A cache with no file in it.
    pub fn new() -> (cache: Self)
        ensures
            cache@.files.len() == 0,
            cache@.handles.len() == 0,
            cache@.wf(),
    {
        let files: Vec<String> = Vec::new();
        assert(files.deep_view() =~= Seq::<Seq<char>>::empty());
        PartitionCache { files, handles: Vec::new() }
    }

    /// How many files are in the cache.
    pub fn len(&self) -> (count: usize)
        ensures
            count == self@.files.len(),
            self@.wf(),
    {
        proof {
            use_type_invariant(self);
        }
        self.files.len()
    }

    /// The slot of a file, if the file is in the cache.
    pub fn find(&self, file: &String) -> (slot: Option<usize>)
        ensures
            self@.wf(),
            match slot {
                Some(found) => self@.slot_of(file@) == Some(found as int) && found
                    < self@.files.len(),
                None => self@.slot_of(file@) is None,
            },
    {
        proof {
            use_type_invariant(self);
        }
        let mut i: usize = 0;
        while i < self.files.len()
            invariant
                i <= self.files.len(),
                self@.wf(),
                forall|j: int| 0 <= j < i ==> self@.files[j] != file@,
            decreases self.files.len() - i,
        {
            if self.files[i] == *file {
                proof {
                    lemma_slot_of(self@, file@, i as int);
                }
                return Some(i);
            }
            i = i + 1;
        }
        None
    }

    /// The handle in a slot, if the slot is in use.
    pub fn handle(&self, slot: usize) -> (found: Option<&H>)
        ensures
            match found {
                Some(handle) => slot < self@.handles.len() && *handle == self@.handles[slot as int],
                None => slot >= self@.handles.len(),
            },
    {
        if slot < self.handles.len() {
            Some(&self.handles[slot])
        } else {
            None
        }
    }

    /// Puts a file and its handle into the cache and gives the file's slot.
    /// A file that is already there keeps its slot and its old handle.
    pub fn insert(self, file: String, handle: H) -> (r: (Self, usize))
        ensures
            r.0@.wf(),
            match self@.slot_of(file@) {
                Some(slot) => r.0@ == self@ && r.1 == slot,
                None => r.0@ == self@.with(file@, handle) && r.1 == self@.files.len(),
            },
    {
        match self.find(&file) {
            Some(slot) => (self, slot),
            None => {
                let ghost before = self@;
                let PartitionCache { mut files, mut handles } = self;
                let slot = files.len();
                files.push(file);
                handles.push(handle);
                proof {
                    assert(files.deep_view() =~= before.files.push(file@));
                    lemma_with_keeps_wf(before, file@, handle);
                }
                (PartitionCache { files, handles }, slot)
            },
        }
    }
}

} // verus!
