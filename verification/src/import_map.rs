//! The import map: for each bare specifier the location that a browser
//! loads it from.

use vstd::prelude::*;
use crate::bytemap::ByteMap;
use crate::text::to_vec;

verus! {

/// A mapping from specifier to resolved target. A specifier has one target.
pub struct ImportMap {
    imports: ByteMap<Vec<u8>>,
}

impl View for ImportMap {
    type V = Map<Seq<u8>, Seq<u8>>;

    /// The targets by specifier.
    closed spec fn view(&self) -> Map<Seq<u8>, Seq<u8>> {
        self.imports@.map_values(|t: Vec<u8>| t@)
    }
}

/// The mapping that a list of entries stands for: where a specifier occurs
/// more than once, its last entry holds.
pub open spec fn imports_of(entries: Seq<(Seq<u8>, Seq<u8>)>) -> Map<Seq<u8>, Seq<u8>>
    decreases entries.len(),
{
    if entries.len() == 0 {
        Map::empty()
    } else {
        imports_of(entries.drop_last()).insert(entries.last().0, entries.last().1)
    }
}

/// The views of the entries held in a vector.
pub open spec fn entry_views(v: Seq<(Vec<u8>, Vec<u8>)>) -> Seq<(Seq<u8>, Seq<u8>)> {
    Seq::new(v.len(), |i: int| (v[i].0@, v[i].1@))
}

impl ImportMap {
    /// The invariant of the map.
    pub closed spec fn wf(&self) -> bool {
        self.imports.wf()
    }

    /// A map without entries.
    pub fn new() -> (r: Self)
        ensures
            r.wf(),
            r@ == Map::<Seq<u8>, Seq<u8>>::empty(),
    {
        let r = ImportMap { imports: ByteMap::new() };
        assert(r@ =~= Map::<Seq<u8>, Seq<u8>>::empty());
        r
    }

    /// Maps `specifier` to `target`, in place of any target it had.
    pub fn insert(&mut self, specifier: &[u8], target: &[u8])
        requires
            old(self).wf(),
        ensures
            final(self).wf(),
            final(self)@ == old(self)@.insert(specifier@, target@),
    {
        let key = to_vec(specifier);
        let value = to_vec(target);
        let ghost before = self.imports@;
        self.imports.insert(key, value);
        assert(before.insert(specifier@, value).map_values(|t: Vec<u8>| t@) =~= before.map_values(
            |t: Vec<u8>| t@,
        ).insert(specifier@, target@));
    }

    /// The target of `specifier`.
    pub fn get(&self, specifier: &[u8]) -> (r: Option<&Vec<u8>>)
        requires
            self.wf(),
        ensures
            r is Some == self@.contains_key(specifier@),
            r matches Some(t) ==> t@ == self@[specifier@],
    {
        self.imports.get(specifier)
    }

    /// The number of specifiers.
    pub fn len(&self) -> (n: usize)
        requires
            self.wf(),
        ensures
            n == self@.dom().len(),
    {
        assert(self@.dom() =~= self.imports@.dom());
        self.imports.len()
    }

    /// The map that the entries of an import-map document stand for, taken
    /// in the order of the document.
    pub fn from_entries(entries: &Vec<(Vec<u8>, Vec<u8>)>) -> (r: Self)
        ensures
            r.wf(),
            r@ == imports_of(entry_views(entries@)),
    {
        let mut map = ImportMap::new();
        let mut i: usize = 0;
        let ghost all = entry_views(entries@);
        assert(all.take(0) == Seq::<(Seq<u8>, Seq<u8>)>::empty());
        while i < entries.len()
            invariant
                i <= entries.len(),
                all == entry_views(entries@),
                map.wf(),
                map@ == imports_of(all.take(i as int)),
            decreases entries.len() - i,
        {
            proof {
                let next = all.take(i + 1);
                assert(next.drop_last() == all.take(i as int));
                assert(next.last() == (entries@[i as int].0@, entries@[i as int].1@));
            }
            map.insert(entries[i].0.as_slice(), entries[i].1.as_slice());
            i += 1;
        }
        assert(all.take(entries.len() as int) == all);
        map
    }
}

} // verus!
