//! The deduplication ledger: the record of filenames already processed,
//! consulted before an archive is handed to the pipeline.
//!
//! The library holds the ledger's contents and its membership and append
//! decisions; durability is the caller's: the backing store's lines are
//! handed in at start, and `mark_processed` answers whether its filename
//! is a new line that the caller must append to the store. Marking is
//! idempotent — a filename already present is never appended again.

use vstd::prelude::*;
use vstd::string::StringExecFns;

use crate::ordering::str_eq;

verus! {

/// The record of filenames already processed, one entry per filename.
pub struct Ledger {
    entries: Vec<String>,
}

/// What marking a filename does to the ledger's contents: nothing when
/// it is already present, one appended line when it is not.
pub open spec fn marked(l: Seq<Seq<char>>, f: Seq<char>) -> Seq<Seq<char>> {
    if l.contains(f) {
        l
    } else {
        l.push(f)
    }
}

/// Marking is idempotent: marking a filename twice changes no more than
/// marking it once, and the filename is a member afterwards.
pub proof fn lemma_marked_idempotent(l: Seq<Seq<char>>, f: Seq<char>)
    ensures
        marked(marked(l, f), f) == marked(l, f),
        marked(l, f).contains(f),
{
    if !l.contains(f) {
        assert(l.push(f)[l.len() as int] == f);
    }
}

impl View for Ledger {
    type V = Seq<Seq<char>>;

    closed spec fn view(&self) -> Seq<Seq<char>> {
        self.entries@.map_values(|s: String| s@)
    }
}

impl Ledger {
    /// Whether a filename is recorded.
    pub open spec fn contains_name(self, f: Seq<char>) -> bool {
        self@.contains(f)
    }

    /// An empty ledger.
    pub fn new() -> (l: Ledger)
        ensures
            l@ == Seq::<Seq<char>>::empty(),
    {
        let l = Ledger { entries: Vec::new() };
        proof {
            assert(l@ =~= Seq::<Seq<char>>::empty());
        }
        l
    }

    /// The ledger holding the given lines, as read from the backing
    /// store.
    pub fn from_lines(lines: Vec<String>) -> (l: Ledger)
        ensures
            l@ == lines@.map_values(|s: String| s@),
    {
        Ledger { entries: lines }
    }

    /// How many filenames are recorded.
    pub fn len(&self) -> (n: usize)
        ensures
            n == self@.len(),
    {
        self.entries.len()
    }

    /// Whether `filename` has been processed: an exact membership test
    /// against the record.
    pub fn has_processed(&self, filename: &str) -> (r: bool)
        ensures
            r == self.contains_name(filename@),
    {
        let mut i: usize = 0;
        let n = self.entries.len();
        while i < n
            invariant
                i <= n == self.entries@.len(),
                forall|m: int| 0 <= m < i ==> self@[m] != filename@,
            decreases n - i,
        {
            if str_eq(self.entries[i].as_str(), filename) {
                proof {
                    assert(self@[i as int] == filename@);
                }
                return true;
            }
            i = i + 1;
        }
        proof {
            assert(forall|m: int| 0 <= m < self@.len() ==> self@[m] != filename@);
        }
        false
    }

    /// Record `filename`. Afterwards it is a member; the answer says
    /// whether it was new — only then must the caller append it to the
    /// backing store, so a filename is never appended twice.
    pub fn mark_processed(&mut self, filename: &str) -> (appended: bool)
        ensures
            final(self)@ == marked(old(self)@, filename@),
            final(self).contains_name(filename@),
            appended <==> !old(self).contains_name(filename@),
    {
        if self.has_processed(filename) {
            return false;
        }
        let owned = String::from_str(filename);
        self.entries.push(owned);
        proof {
            assert(self@ =~= old(self)@.push(filename@));
            assert(self@[old(self)@.len() as int] == filename@);
        }
        true
    }
}

} // verus!
