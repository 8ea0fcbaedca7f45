//! The table of file paths behind file handles: each distinct path is
//! stored once and named by its index.
use vstd::prelude::*;
use vstd::string::StringExecFns;

verus! {

pub struct FileNames {
    by_index: Vec<String>,
}

impl View for FileNames {
    type V = Seq<Seq<char>>;

    closed spec fn view(&self) -> Seq<Seq<char>> {
        self.by_index@.map_values(|s: String| s@)
    }
}

impl FileNames {
    /// No path is stored twice.
    pub open spec fn wf(self) -> bool {
        forall|i: int, j: int|
            0 <= i < j < self@.len() ==> #[trigger] self@[i] != #[trigger] self@[j]
    }

    pub fn new() -> (t: FileNames)
        ensures
            t.wf(),
            t@ == Seq::<Seq<char>>::empty(),
    {
        let t = FileNames { by_index: Vec::new() };
        proof {
            assert(t@ =~= Seq::<Seq<char>>::empty());
        }
        t
    }

    /// The index of `name`, storing it first if it is new. A stored path
    /// keeps its index and the table is unchanged; a new one gets the next
    /// index.
    pub fn intern(&mut self, name: &str) -> (id: u32)
        requires
            old(self).wf(),
            old(self)@.len() < u32::MAX,
        ensures
            final(self).wf(),
            id < final(self)@.len(),
            final(self)@[id as int] == name@,
            old(self)@.contains(name@) ==> final(self)@ == old(self)@ && old(self)@[id as int] == name@,
            !old(self)@.contains(name@) ==> final(self)@ == old(self)@.push(name@) && id == old(self)@.len(),
    {
        let key = String::from_str(name);
        let n = self.by_index.len();
        let mut i: usize = 0;
        while i < n
            invariant
                n == self@.len(),
                *self == *old(self),
                old(self).wf(),
                n < u32::MAX,
                i <= n,
                key@ == name@,
                forall|j: int| 0 <= j < i ==> self@[j] != name@,
            decreases n - i,
        {
            if self.by_index[i] == key {
                proof {
                    assert(self@[i as int] == name@);
                }
                return i as u32;
            }
            i += 1;
        }
        proof {
            assert(!old(self)@.contains(name@)) by {
                if old(self)@.contains(name@) {
                    let j = choose|j: int| 0 <= j < old(self)@.len() && old(self)@[j] == name@;
                    assert(self@[j] != name@);
                }
            }
        }
        self.by_index.push(key);
        proof {
            assert(self@ =~= old(self)@.push(name@));
        }
        n as u32
    }

    /// The path stored at `id`.
    pub fn name(&self, id: u32) -> (s: &str)
        requires
            id < self@.len(),
        ensures
            s@ == self@[id as int],
    {
        self.by_index[id as usize].as_str()
    }
}

} // verus!
