use vstd::prelude::*;

use crate::ir::InternerId;

verus! {

/// A string interner: each distinct string is stored once, and its `InternerId` is
/// its place.
pub struct Interner {
    strings: Vec<String>,
}

impl Interner {
    pub closed spec fn contents(&self) -> Seq<Seq<char>> {
        self.strings@.map_values(|s: String| s@)
    }

    pub open spec fn wf(&self) -> bool {
        forall|i: int, j: int|
            0 <= i < j < self.contents().len() ==> self.contents()[i] != self.contents()[j]
    }

    pub fn new() -> (r: Interner)
        ensures
            r.wf(),
            r.contents() == Seq::<Seq<char>>::empty(),
    {
        let r = Interner { strings: Vec::new() };
        assert(r.contents() =~= Seq::<Seq<char>>::empty());
        r
    }

    /// The id of `s`: the one it already has, or a new one at the end.
    pub fn intern(&mut self, s: &str) -> (r: InternerId)
        requires
            old(self).wf(),
        ensures
            final(self).wf(),
            r.index < final(self).contents().len(),
            final(self).contents()[r.index as int] == s@,
            old(self).contents().contains(s@) ==> final(self).contents() == old(self).contents(),
            !old(self).contents().contains(s@) ==> final(self).contents() == old(
                self,
            ).contents().push(s@),
    {
        let owned = s.to_owned();
        let mut i: usize = 0;
        while i < self.strings.len()
            invariant
                i <= self.strings.len(),
                self.wf(),
                self.contents() == old(self).contents(),
                owned@ == s@,
                forall|j: int| 0 <= j < i ==> self.contents()[j] != s@,
            decreases self.strings.len() - i,
        {
            if self.strings[i] == owned {
                assert(self.contents()[i as int] == s@);
                assert(old(self).contents().contains(s@));
                return InternerId { index: i };
            }
            i = i + 1;
        }
        let ghost before = self.contents();
        self.strings.push(owned);
        assert(self.contents() =~= before.push(s@));
        InternerId { index: i }
    }

    pub fn get_ref(&self, id: InternerId) -> (r: &String)
        requires
            id.index < self.contents().len(),
        ensures
            r@ == self.contents()[id.index as int],
    {
        &self.strings[id.index]
    }

    pub fn len(&self) -> (r: usize)
        ensures
            r == self.contents().len(),
    {
        self.strings.len()
    }
}

} // verus!
