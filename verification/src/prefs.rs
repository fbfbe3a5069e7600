//! An in-memory key/value preference store with unique keys. Reading
//! and writing the backing file is the host application's concern; the
//! store itself only tracks entries and the file path they belong to.

use vstd::prelude::*;
use vstd::string::StringExecFns;
use crate::tileset::str_eq;

verus! {

/// Preference entries keyed by name, with the path of the file they
/// are persisted in.
#[derive(Debug)]
pub struct Preferences<T> {
    pub entries: Vec<(String, T)>,
    pub file: String,
}

impl<T> Preferences<T> {
    /// Keys are unique.
    pub open spec fn wf(&self) -> bool {
        forall|p: int, q: int|
            0 <= p < q < self.entries@.len() ==> (#[trigger] self.entries@[p]).0@ != (
            #[trigger] self.entries@[q]).0@
    }

    /// The value stored under `key`, if any.
    pub open spec fn spec_get(&self, key: Seq<char>) -> Option<T> {
        if exists|p: int| 0 <= p < self.entries@.len() && (#[trigger] self.entries@[p]).0@ == key {
            let p = choose|p: int|
                0 <= p < self.entries@.len() && (#[trigger] self.entries@[p]).0@ == key;
            Some(self.entries@[p].1)
        } else {
            None
        }
    }

    /// An empty store persisted at `path/filename`.
    pub fn new(path: String, filename: &str) -> (r: Self)
        ensures
            r.wf(),
            r.entries@.len() == 0,
            r.file@ == path@ + "/"@ + filename@,
    {
        let mut file = path;
        file.append("/");
        file.append(filename);
        Preferences { entries: Vec::new(), file }
    }

    /// The stored value for `key`, if present.
    pub fn get(&self, key: &str) -> (r: Option<&T>)
        requires
            self.wf(),
        ensures
            match r {
                Some(v) => self.spec_get(key@) == Some(*v),
                None => self.spec_get(key@) is None,
            },
    {
        let mut i: usize = 0;
        while i < self.entries.len()
            invariant
                self.wf(),
                i <= self.entries@.len(),
                forall|p: int| 0 <= p < i ==> (#[trigger] self.entries@[p]).0@ != key@,
            decreases self.entries@.len() - i,
        {
            if str_eq(self.entries[i].0.as_str(), key) {
                return Some(&self.entries[i].1);
            }
            i = i + 1;
        }
        None
    }

    /// Stores `value` under `key`, replacing any existing entry for
    /// that key and leaving every other entry unchanged.
    pub fn set(&mut self, key: &str, value: T)
        requires
            old(self).wf(),
        ensures
            final(self).wf(),
            final(self).file@ == old(self).file@,
            final(self).spec_get(key@) == Some(value),
            forall|k2: Seq<char>|
                k2 != key@ ==> #[trigger] final(self).spec_get(k2) == old(self).spec_get(k2),
    {
        let ghost olds = *old(self);
        let mut i: usize = 0;
        while i < self.entries.len()
            invariant
                *self == olds,
                olds == *old(self),
                olds.wf(),
                i <= self.entries@.len(),
                forall|p: int| 0 <= p < i ==> (#[trigger] self.entries@[p]).0@ != key@,
            decreases self.entries@.len() - i,
        {
            if str_eq(self.entries[i].0.as_str(), key) {
                self.entries[i] = (key.to_owned(), value);
                proof {
                    assert(self.entries@[i as int].0@ == key@);
                    assert forall|k2: Seq<char>| k2 != key@ implies #[trigger] self.spec_get(k2)
                        == olds.spec_get(k2) by {
                        assert(forall|p: int|
                            0 <= p < olds.entries@.len() && p != i ==> self.entries@[p] == (
                            #[trigger] olds.entries@[p]));
                    }
                }
                return ;
            }
            i = i + 1;
        }
        self.entries.push((key.to_owned(), value));
        proof {
            let n = olds.entries@.len() as int;
            assert(self.entries@[n].0@ == key@);
            assert(forall|p: int|
                0 <= p < n ==> self.entries@[p] == (#[trigger] olds.entries@[p]));
            assert forall|k2: Seq<char>| k2 != key@ implies #[trigger] self.spec_get(k2)
                == olds.spec_get(k2) by {
                if exists|p: int| 0 <= p < n && (#[trigger] olds.entries@[p]).0@ == k2 {
                    let p = choose|p: int| 0 <= p < n && (#[trigger] olds.entries@[p]).0@ == k2;
                    assert(self.entries@[p].0@ == k2);
                }
            }
        }
    }

    /// Removes the entry stored under `key`, if any; every other entry
    /// is kept.
    pub fn clear(&mut self, key: &str)
        requires
            old(self).wf(),
        ensures
            final(self).wf(),
            final(self).file@ == old(self).file@,
            final(self).spec_get(key@) is None,
            forall|k2: Seq<char>|
                k2 != key@ ==> #[trigger] final(self).spec_get(k2) == old(self).spec_get(k2),
    {
        let ghost olds = *old(self);
        let mut i: usize = 0;
        while i < self.entries.len()
            invariant
                *self == olds,
                olds == *old(self),
                olds.wf(),
                i <= self.entries@.len(),
                forall|p: int| 0 <= p < i ==> (#[trigger] self.entries@[p]).0@ != key@,
            decreases self.entries@.len() - i,
        {
            if str_eq(self.entries[i].0.as_str(), key) {
                self.entries.remove(i);
                proof {
                    let n = olds.entries@.len() as int;
                    assert(forall|p: int|
                        0 <= p < i ==> self.entries@[p] == (#[trigger] olds.entries@[p]));
                    assert(forall|p: int|
                        i <= p < n - 1 ==> self.entries@[p] == (#[trigger] olds.entries@[p + 1]));
                    assert forall|k2: Seq<char>| k2 != key@ implies #[trigger] self.spec_get(k2)
                        == olds.spec_get(k2) by {
                        if exists|p: int| 0 <= p < n && (#[trigger] olds.entries@[p]).0@ == k2 {
                            let p = choose|p: int|
                                0 <= p < n && (#[trigger] olds.entries@[p]).0@ == k2;
                            if p < i {
                                assert(self.entries@[p].0@ == k2);
                            } else {
                                assert(self.entries@[p - 1].0@ == k2);
                            }
                        } else {
                            if exists|p: int|
                                0 <= p < n - 1 && (#[trigger] self.entries@[p]).0@ == k2 {
                                let p = choose|p: int|
                                    0 <= p < n - 1 && (#[trigger] self.entries@[p]).0@ == k2;
                            }
                        }
                    }
                    assert forall|k2: Seq<char>| k2 == key@ implies self.spec_get(k2) is None by {
                        if exists|p: int|
                            0 <= p < n - 1 && (#[trigger] self.entries@[p]).0@ == k2 {
                            let p = choose|p: int|
                                0 <= p < n - 1 && (#[trigger] self.entries@[p]).0@ == k2;
                        }
                    }
                }
                return ;
            }
            i = i + 1;
        }
    }
}

} // verus!
