//! An ordered collection of named images, immutable once built. Tile
//! names resolve to image handles by linear scan, first match wins.

use vstd::prelude::*;
use vstd::string::StrSliceExecFns;
use std::rc::Rc;

verus! {

/// Compares two string slices character by character.
pub fn str_eq(a: &str, b: &str) -> (r: bool)
    ensures
        r == (a@ == b@),
{
    let a_len = a.unicode_len();
    let b_len = b.unicode_len();
    if a_len != b_len {
        return false;
    }
    let mut i: usize = 0;
    while i < a_len
        invariant
            a_len == a@.len(),
            b_len == b@.len(),
            a_len == b_len,
            i <= a_len,
            forall|j: int| 0 <= j < i ==> a@[j] == b@[j],
        decreases a_len - i,
    {
        if a.get_char(i) != b.get_char(i) {
            return false;
        }
        i = i + 1;
    }
    proof {
        assert(a@ =~= b@);
    }
    true
}

/// Relies on `Rc::clone`: the returned handle refers to the same
/// allocation, so it is equal to the argument and no pixel data is
/// copied.
#[verifier::external_body]
pub(crate) fn clone_rc<T>(rc: &Rc<T>) -> (r: Rc<T>)
    ensures
        r == *rc,
{
    Rc::clone(rc)
}

/// Some entry of `s` carries the key `k`.
pub open spec fn has_key<Image>(s: Seq<(String, Rc<Image>)>, k: Seq<char>) -> bool {
    exists|q: int| 0 <= q < s.len() && (#[trigger] s[q]).0@ == k
}

/// `e` pairs a name with the image of that name's last occurrence in
/// the tileset.
pub open spec fn last_entry_of<Image>(ts: &Tileset<Image>, e: (String, Rc<Image>)) -> bool {
    exists|i: int|
        {
            &&& 0 <= i < ts.spec_names().len()
            &&& e.0@ == #[trigger] ts.spec_names()[i]
            &&& e.1 == ts.spec_images()[i]
            &&& forall|i2: int| i < i2 < ts.spec_names().len() ==> ts.spec_names()[i2] != e.0@
        }
}

/// Appending an entry keeps every present key present.
proof fn lemma_has_key_push<Image>(s: Seq<(String, Rc<Image>)>, x: (String, Rc<Image>), k: Seq<char>)
    requires
        has_key(s, k),
    ensures
        has_key(s.push(x), k),
{
    let q = choose|q: int| 0 <= q < s.len() && (#[trigger] s[q]).0@ == k;
    assert((s.push(x)[q]).0@ == k);
}

/// A collection of named tiles: image handles, their names (parallel,
/// same length), and the pixel size shared by every tile.
#[derive(Debug, Clone)]
pub struct Tileset<Image> {
    pub images: Vec<Rc<Image>>,
    pub names: Vec<String>,
    pub size_w: u32,
    pub size_h: u32,
}

impl<Image> Tileset<Image> {
    /// One image handle per name.
    pub open spec fn wf(&self) -> bool {
        self.images@.len() == self.names@.len()
    }

    pub open spec fn spec_images(&self) -> Seq<Rc<Image>> {
        self.images@
    }

    pub open spec fn spec_names(&self) -> Seq<Seq<char>> {
        self.names@.map(|i: int, s: String| s@)
    }

    pub open spec fn spec_tilesize(&self) -> (u32, u32) {
        (self.size_w, self.size_h)
    }

    /// True if some entry carries this name.
    pub open spec fn has_name(&self, name: Seq<char>) -> bool {
        exists|i: int| 0 <= i < self.spec_names().len() && self.spec_names()[i] == name
    }

    pub fn new(images: Vec<Rc<Image>>, names: Vec<String>, size: (u32, u32)) -> (r: Self)
        requires
            images@.len() == names@.len(),
        ensures
            r.wf(),
            r.spec_images() == images@,
            r.names@ == names@,
            r.spec_tilesize() == size,
    {
        Self { images, names, size_w: size.0, size_h: size.1 }
    }

    /// Returns the image for the first entry whose name equals `name`,
    /// or `None` when no entry matches.
    pub fn find_by_name(&self, name: &str) -> (r: Option<&Image>)
        requires
            self.wf(),
        ensures
            match r {
                Some(img) => exists|i: int|
                    0 <= i < self.spec_names().len() && self.spec_names()[i] == name@ && *img
                        == self.spec_images()[i] && (forall|j: int|
                        0 <= j < i ==> self.spec_names()[j] != name@),
                None => !self.has_name(name@),
            },
    {
        let mut i: usize = 0;
        while i < self.names.len()
            invariant
                self.wf(),
                i <= self.names@.len(),
                forall|j: int| 0 <= j < i ==> self.spec_names()[j] != name@,
            decreases self.names@.len() - i,
        {
            if str_eq(self.names[i].as_str(), name) {
                assert(self.spec_names()[i as int] == name@);
                return Some(&*self.images[i]);
            }
            i = i + 1;
        }
        None
    }


    /// True if some entry of `r` carries this name.
    fn lookup_has_key(r: &Vec<(String, Rc<Image>)>, name: &str) -> (found: bool)
        ensures
            found == has_key(r@, name@),
    {
        let mut j: usize = 0;
        while j < r.len()
            invariant
                j <= r@.len(),
                forall|q: int| 0 <= q < j ==> (#[trigger] r@[q]).0@ != name@,
            decreases r@.len() - j,
        {
            if str_eq(r[j].0.as_str(), name) {
                assert((r@[j as int]).0@ == name@);
                return true;
            }
            j = j + 1;
        }
        false
    }

    /// A materialized, unordered lookup table: one entry per distinct
    /// name. Where names repeat, the image of the last occurrence
    /// wins — the opposite policy of `find_by_name`'s first-match
    /// scan.
    #[verifier::rlimit(60)]
    pub fn as_hashmap(&self) -> (r: Vec<(String, Rc<Image>)>)
        requires
            self.wf(),
        ensures
            forall|p: int, q: int|
                0 <= p < q < r@.len() ==> (#[trigger] r@[p]).0@ != (#[trigger] r@[q]).0@,
            forall|i: int|
                0 <= i < self.spec_names().len() ==> has_key(r@, #[trigger] self.spec_names()[i]),
            forall|j: int| 0 <= j < r@.len() ==> last_entry_of(self, #[trigger] r@[j]),
    {
        let n = self.names.len();
        let mut r: Vec<(String, Rc<Image>)> = Vec::new();
        let mut i: usize = n;
        // Walking backwards keeps exactly the last occurrence of each
        // name: earlier occurrences find their name already present.
        while i > 0
            invariant
                self.wf(),
                n == self.names@.len(),
                i <= n,
                forall|p: int, q: int|
                    0 <= p < q < r@.len() ==> (#[trigger] r@[p]).0@ != (#[trigger] r@[q]).0@,
                forall|i2: int|
                    i <= i2 < n ==> has_key(r@, #[trigger] self.spec_names()[i2]),
                forall|j: int|
                    0 <= j < r@.len() ==> exists|i2: int|
                        {
                            &&& i <= i2 < n
                            &&& (#[trigger] r@[j]).0@ == self.spec_names()[i2]
                            &&& r@[j].1 == self.spec_images()[i2]
                            &&& forall|i3: int|
                                i2 < i3 < n ==> self.spec_names()[i3] != r@[j].0@
                        },
            decreases i,
        {
            let cur = i - 1;
            let ghost oldr = r@;
            let present = Self::lookup_has_key(&r, self.names[cur].as_str());
            if !present {
                r.push((self.names[cur].clone(), clone_rc(&self.images[cur])));
                proof {
                    let m = oldr.len() as int;
                    assert(r@[m].0@ == self.spec_names()[cur as int]);
                    assert(r@[m].1 == self.spec_images()[cur as int]);
                    assert(forall|q: int| 0 <= q < m ==> r@[q] == (#[trigger] oldr[q]));
                    assert(has_key(r@, self.spec_names()[cur as int]));
                    assert forall|i2: int|
                        cur < i2 < n implies has_key(r@, #[trigger] self.spec_names()[i2]) by {
                        lemma_has_key_push(oldr, r@[m], self.spec_names()[i2]);
                        assert(oldr.push(r@[m]) =~= r@);
                    }
                }
            } else {
                proof {
                    assert(has_key(r@, self.spec_names()[cur as int]));
                }
            }
            i = cur;
        }
        proof {
            assert(n == self.spec_names().len());
            assert forall|j2: int| 0 <= j2 < r@.len() implies last_entry_of(
                self,
                #[trigger] r@[j2],
            ) by {
                let i2 = choose|i2: int|
                    {
                        &&& i <= i2 < n
                        &&& (#[trigger] r@[j2]).0@ == self.spec_names()[i2]
                        &&& r@[j2].1 == self.spec_images()[i2]
                        &&& forall|i3: int| i2 < i3 < n ==> self.spec_names()[i3] != r@[j2].0@
                    };
                assert(0 <= i2 < self.spec_names().len() && r@[j2].0@ == self.spec_names()[i2]
                    && r@[j2].1 == self.spec_images()[i2]);
            }
        }
        r
    }

    /// The tile names, in insertion order.
    pub fn names(&self) -> (r: &[String])
        ensures
            r@ == self.names@,
    {
        self.names.as_slice()
    }

    /// The image handles, in insertion order.
    pub fn images(&self) -> (r: &Vec<Rc<Image>>)
        ensures
            r@ == self.spec_images(),
    {
        &self.images
    }

    /// The pixel size shared by every tile in the set.
    pub fn tilesize(&self) -> (r: (u32, u32))
        ensures
            r == self.spec_tilesize(),
    {
        (self.size_w, self.size_h)
    }
}

} // verus!
