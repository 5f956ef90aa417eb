//! Which files an invocation has processed already.

use vstd::prelude::*;
use vstd::hash_set::StringHashSet;
use crate::model::{FileProbe, ProbeView};
use crate::text::{normalize_separators, normalized_path};

verus! {

/// Whether the file behind `probe` is to be processed: a regular file of
/// known size within the limit, whose path, separators normalized, was not
/// processed before.
pub open spec fn admissible(seen: Set<Seq<char>>, probe: ProbeView, max_size: u64) -> bool {
    &&& probe.is_file
    &&& probe.size is Some
    &&& probe.size->Some_0 <= max_size
    &&& !seen.contains(normalize_separators(probe.path))
}

/// The normalized paths of the files processed so far. A path that occurs
/// here in its original form occurs in its normalized form as well, so one
/// lookup answers for both.
pub struct Ledger {
    seen: StringHashSet,
}

impl View for Ledger {
    type V = Set<Seq<char>>;

    closed spec fn view(&self) -> Set<Seq<char>> {
        self.seen@
    }
}

impl Ledger {
    pub fn new() -> (ledger: Self)
        ensures
            ledger@ == Set::<Seq<char>>::empty(),
    {
        Ledger { seen: StringHashSet::new() }
    }

    /// Enters the file behind `probe` if it is to be processed, and says
    /// whether it is.
    pub fn enter(&mut self, probe: &FileProbe, max_size: u64) -> (entered: bool)
        ensures
            entered == admissible(old(self)@, probe@, max_size),
            final(self)@ == if entered {
                old(self)@.insert(normalize_separators(probe.path@))
            } else {
                old(self)@
            },
    {
        if !probe.is_file {
            return false;
        }
        let within = match probe.size {
            Some(size) => size <= max_size,
            None => false,
        };
        if !within {
            return false;
        }
        let key = normalized_path(probe.path.as_str());
        if self.seen.contains(key.as_str()) {
            return false;
        }
        self.seen.insert(key);
        true
    }
}

} // verus!
