//! The values of `list_files`, which streams the files below a directory,
//! and the batching of the names that it finds.
use vstd::prelude::*;

verus! {

/// A batch of file names found since the last update.
#[derive(Debug, Clone, PartialEq, Eq)]
pub struct ListFilesUpdate {
    pub files: Vec<String>,
}

/// The arguments of `list_files`.
#[derive(Debug, Clone, PartialEq, Eq)]
pub struct ListFilesRequest {
    pub directory: String,
}

/// The final answer of `list_files`.
#[derive(Debug, Clone, Copy, PartialEq, Eq, Structural)]
pub struct ListFilesResponse;

/// How long found names may wait before they go out: 50 milliseconds.
pub const UPDATE_INTERVAL_NANOS: u64 = 50_000_000;

/// The names in `files`, as sequences of characters.
pub open spec fn names(files: Seq<String>) -> Seq<Seq<char>> {
    files.map_values(|f: String| f@)
}

/// The names found and not yet sent, and when the last batch went out.
pub struct FileBatch {
    files: Vec<String>,
    last_sent_nanos: u64,
}

impl FileBatch {
    /// The names found and not yet sent, in the order in which they were found.
    pub closed spec fn pending(&self) -> Seq<Seq<char>> {
        names(self.files@)
    }

    /// When the last batch went out, in nanoseconds on a steady clock.
    pub closed spec fn last_sent(&self) -> u64 {
        self.last_sent_nanos
    }

    /// An empty batch, started at `now_nanos`.
    pub fn new(now_nanos: u64) -> (batch: Self)
        ensures
            batch.pending() == Seq::<Seq<char>>::empty(),
            batch.last_sent() == now_nanos,
    {
        let batch = FileBatch { files: Vec::new(), last_sent_nanos: now_nanos };
        assert(batch.pending() =~= Seq::<Seq<char>>::empty());
        batch
    }

    /// Adds a name found at `now_nanos`. When more than the update interval
    /// passed since the last batch went out, all pending names go out now,
    /// in the order in which they were found.
    pub fn add(&mut self, file: String, now_nanos: u64) -> (update: Option<ListFilesUpdate>)
        ensures
            (now_nanos > old(self).last_sent() && now_nanos - old(self).last_sent() > UPDATE_INTERVAL_NANOS)
                == update is Some,
            update matches Some(u) ==> {
                &&& names(u.files@) == old(self).pending().push(file@)
                &&& final(self).pending() == Seq::<Seq<char>>::empty()
                &&& final(self).last_sent() == now_nanos
            },
            update is None ==> final(self).pending() == old(self).pending().push(file@) && final(self).last_sent()
                == old(self).last_sent(),
    {
        self.files.push(file);
        proof {
            assert(names(self.files@) =~= old(self).pending().push(file@));
        }
        if now_nanos > self.last_sent_nanos && now_nanos - self.last_sent_nanos > UPDATE_INTERVAL_NANOS {
            self.last_sent_nanos = now_nanos;
            Some(self.take())
        } else {
            None
        }
    }

    /// All pending names, in the order in which they were found; none is
    /// pending afterwards.
    pub fn take(&mut self) -> (update: ListFilesUpdate)
        ensures
            names(update.files@) == old(self).pending(),
            final(self).pending() == Seq::<Seq<char>>::empty(),
            final(self).last_sent() == old(self).last_sent(),
    {
        let mut files: Vec<String> = Vec::new();
        std::mem::swap(&mut files, &mut self.files);
        proof {
            assert(self.pending() =~= Seq::<Seq<char>>::empty());
        }
        ListFilesUpdate { files }
    }
}

} // verus!
