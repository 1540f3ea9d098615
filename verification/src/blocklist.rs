//! Matching a decoded question name against a static blocklist.
//!
//! An entry blocks its exact name and every subdomain of it: the check is
//! on a label boundary, so entry `example.com` blocks `www.example.com`
//! but not `notexample.com`. Matching is byte-exact, hence case-sensitive;
//! any normalization (lower-casing, trailing dots) is the loader's choice,
//! made once when the entries are built.

use vstd::prelude::*;

verus! {

/// `name` matches `entry` exactly, or ends with a separator followed by
/// `entry` — a label boundary, not a raw string suffix.
pub open spec fn name_matches_entry(name: Seq<u8>, entry: Seq<u8>) -> bool {
    ||| name == entry
    ||| {
        &&& name.len() > entry.len()
        &&& name[name.len() - entry.len() - 1] == crate::dns::LABEL_SEPARATOR
        &&& name.subrange(name.len() - entry.len(), name.len() as int) == entry
    }
}

/// `name` matches some entry of the list.
pub open spec fn name_blocked(name: Seq<u8>, entries: Seq<Seq<u8>>) -> bool {
    exists|k: int| 0 <= k < entries.len() && name_matches_entry(name, #[trigger] entries[k])
}

/// A static set of blocked domain names, immutable while packets are
/// processed. An empty list is valid and blocks nothing.
pub struct Blocklist {
    entries: Vec<Vec<u8>>,
}

impl View for Blocklist {
    type V = Seq<Seq<u8>>;

    closed spec fn view(&self) -> Seq<Seq<u8>> {
        Seq::new(self.entries@.len(), |i: int| self.entries@[i]@)
    }
}

/// Compare `entry` against the bytes of `name` starting at `off`.
fn bytes_match_at(name: &[u8], off: usize, entry: &Vec<u8>) -> (r: bool)
    requires
        off + entry@.len() <= name@.len(),
    ensures
        r == (name@.subrange(off as int, off + entry@.len()) == entry@),
{
    let n = name.len();
    let mut j: usize = 0;
    while j < entry.len()
        invariant
            n == name@.len(),
            off + entry@.len() <= name@.len(),
            j <= entry@.len(),
            forall|k: int| 0 <= k < j ==> name@[off + k] == entry@[k],
        decreases entry@.len() - j,
    {
        if name[off + j] != entry[j] {
            proof {
                assert(name@.subrange(off as int, off + entry@.len())[j as int] == name@[off
                    + j]);
            }
            return false;
        }
        j += 1;
    }
    proof {
        assert(name@.subrange(off as int, off + entry@.len()) =~= entry@);
    }
    true
}

/// Does `name` match this one `entry`?
fn entry_matches(name: &[u8], entry: &Vec<u8>) -> (r: bool)
    ensures
        r == name_matches_entry(name@, entry@),
{
    let nl = name.len();
    let el = entry.len();
    if nl == el {
        let r = bytes_match_at(name, 0, entry);
        proof {
            assert(name@.subrange(0, name@.len() as int) =~= name@);
        }
        r
    } else if nl > el {
        if name[nl - el - 1] != crate::dns::LABEL_SEPARATOR {
            false
        } else {
            bytes_match_at(name, nl - el, entry)
        }
    } else {
        false
    }
}

impl Blocklist {
    /// Build the blocklist from its entries, fixed for the process
    /// lifetime. Normalization of the entries is the caller's choice,
    /// made here once, at load time.
    pub fn new(entries: Vec<Vec<u8>>) -> (b: Blocklist)
        ensures
            b@.len() == entries@.len(),
            forall|i: int| 0 <= i < entries@.len() ==> b@[i] == entries@[i]@,
    {
        Blocklist { entries }
    }

    /// How many entries the list holds.
    pub fn len(&self) -> (n: usize)
        ensures
            n == self@.len(),
    {
        self.entries.len()
    }

    /// Does the decoded `name` match the list: equal to some entry, or a
    /// subdomain of one?
    pub fn is_blocked(&self, name: &[u8]) -> (r: bool)
        ensures
            r == name_blocked(name@, self@),
    {
        let mut i: usize = 0;
        while i < self.entries.len()
            invariant
                i <= self.entries@.len(),
                self@.len() == self.entries@.len(),
                forall|k: int| 0 <= k < self.entries@.len() ==> self@[k] == self.entries@[k]@,
                forall|k: int| 0 <= k < i ==> !name_matches_entry(name@, #[trigger] self@[k]),
            decreases self.entries@.len() - i,
        {
            if entry_matches(name, &self.entries[i]) {
                proof {
                    assert(name_matches_entry(name@, self@[i as int]));
                }
                return true;
            }
            i += 1;
        }
        false
    }
}

} // verus!
