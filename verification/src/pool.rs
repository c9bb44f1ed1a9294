//! An append-only store of strings.
use vstd::prelude::*;

verus! {

/// A pool of strings: storing a string keeps it for the pool's lifetime.
pub struct StringPool {
    strings: Vec<String>,
}

impl View for StringPool {
    type V = Seq<Seq<char>>;

    closed spec fn view(&self) -> Seq<Seq<char>> {
        self.strings.deep_view()
    }
}

impl StringPool {
    /// An empty pool.
    pub fn new() -> (r: StringPool)
        ensures
            r@ == Seq::<Seq<char>>::empty(),
    {
        let r = StringPool { strings: Vec::new() };
        assert(r.strings.deep_view() =~= Seq::<Seq<char>>::empty());
        r
    }

    /// Stores a string in the pool and returns it.
    pub fn store(&mut self, s: String) -> (r: &str)
        ensures
            r@ == s@,
            final(self)@ == old(self)@.push(s@),
    {
        let n = self.strings.len();
        let ghost before = self.strings@;
        self.strings.push(s);
        proof {
            assert(self.strings.deep_view() =~= before.map_values(|x: String| x@).push(s@));
            assert(old(self)@ =~= before.map_values(|x: String| x@));
        }
        self.strings[n].as_str()
    }
}

impl Default for StringPool {
    fn default() -> (r: StringPool)
        ensures
            r@ == Seq::<Seq<char>>::empty(),
    {
        StringPool::new()
    }
}

} // verus!
