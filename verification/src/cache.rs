//! The content cache: the registry of the sources of one build.

use vstd::prelude::*;
use crate::bytemap::ByteMap;
use crate::path::{below, source_id};
use crate::scan::{verdict_view, Verdict, VerdictView};
use crate::sources::{Source, SourceKind, SourceKindView, SourceView};
use crate::text::to_vec;

verus! {

/// The sources of one build, each under its identifier. An identifier has
/// one record; storing under a known identifier replaces the record whole.
pub struct Cache {
    sources: ByteMap<Source>,
}

impl View for Cache {
    type V = Map<Seq<u8>, SourceView>;

    /// The records by identifier.
    closed spec fn view(&self) -> Map<Seq<u8>, SourceView> {
        self.sources@.map_values(|s: Source| s@)
    }
}

/// The record that registering the file at `path` with the text `content`
/// stores.
pub open spec fn file_record(path: Seq<u8>, content: Seq<u8>, parsed: VerdictView) -> SourceView {
    SourceView { source: content, kind: SourceKindView::File { relative_path: path }, parsed }
}

/// Registration is idempotent: storing a record under an identifier where
/// the same record is stored changes nothing.
pub proof fn lemma_storing_again_changes_nothing(
    sources: Map<Seq<u8>, SourceView>,
    id: Seq<u8>,
    record: SourceView,
)
    ensures
        sources.insert(id, record).insert(id, record) == sources.insert(id, record),
        sources.insert(id, record).contains_key(id),
{
    assert(sources.insert(id, record).insert(id, record) =~= sources.insert(id, record));
}

impl Cache {
    /// The identifiers in the order in which they were first stored.
    pub closed spec fn ids(&self) -> Seq<Seq<u8>> {
        self.sources.keys()
    }

    /// The invariant of the cache.
    pub closed spec fn wf(&self) -> bool {
        self.sources.wf()
    }

    /// The identifiers are distinct and are the identifiers that have a
    /// record.
    pub proof fn lemma_model(&self)
        requires
            self.wf(),
        ensures
            self.ids().no_duplicates(),
            self@.dom().finite(),
            forall|id: Seq<u8>| self@.contains_key(id) <==> self.ids().contains(id),
            forall|i: int| 0 <= i < self.ids().len() ==> self@.contains_key(#[trigger] self.ids()[i]),
    {
        self.sources.lemma_model();
        assert(self@.dom() =~= self.sources@.dom());
    }

    /// The number of sources.
    pub fn len(&self) -> (n: usize)
        requires
            self.wf(),
        ensures
            n == self.ids().len(),
    {
        self.sources.len()
    }

    /// Whether a source is stored under `id`.
    pub fn contains(&self, id: &[u8]) -> (r: bool)
        requires
            self.wf(),
        ensures
            r == self@.contains_key(id@),
    {
        self.sources.contains_key(id)
    }

    /// The record stored under `id`.
    pub fn get_source(&self, id: &[u8]) -> (r: Option<&Source>)
        requires
            self.wf(),
        ensures
            r is Some == self@.contains_key(id@),
            r matches Some(s) ==> s@ == self@[id@],
    {
        self.sources.get(id)
    }

    /// The identifier at place `i` of the order of first storing.
    pub fn id_at(&self, i: usize) -> (r: &Vec<u8>)
        requires
            self.wf(),
            i < self.ids().len(),
        ensures
            r@ == self.ids()[i as int],
    {
        self.sources.key_at(i)
    }

    /// Stores `source` under `id`, in place of any record that was there.
    pub fn set_source(&mut self, id: &[u8], source: Source)
        requires
            old(self).wf(),
        ensures
            final(self).wf(),
            final(self)@ == old(self)@.insert(id@, source@),
            final(self).ids() == if old(self)@.contains_key(id@) {
                old(self).ids()
            } else {
                old(self).ids().push(id@)
            },
    {
        let key = to_vec(id);
        let ghost before = self.sources@;
        self.sources.insert(key, source);
        assert(before.insert(id@, source).map_values(|s: Source| s@) =~= before.map_values(
            |s: Source| s@,
        ).insert(id@, source@));
    }

    /// Registers the file found at `path` with the text `content`, of which
    /// the parser said `parsed`: derives
    /// its identifier, the path as seen from `root`, and stores the record
    /// under it. Registering a path again replaces its record. Returns the
    /// identifier, or `None`, with the cache unchanged, when the path does
    /// not lie below `root`.
    pub fn register(
        &mut self,
        root: &[u8],
        path: Vec<u8>,
        content: Vec<u8>,
        parsed: Verdict,
    ) -> (r: Option<Vec<u8>>)
        requires
            old(self).wf(),
        ensures
            final(self).wf(),
            match r {
                Some(id) => {
                    &&& below(root@, path@) == Some(id@)
                    &&& final(self)@ == old(self)@.insert(id@, file_record(path@, content@, verdict_view(parsed)))
                    &&& final(self).ids() == if old(self)@.contains_key(id@) {
                        old(self).ids()
                    } else {
                        old(self).ids().push(id@)
                    }
                },
                None => {
                    &&& below(root@, path@) is None
                    &&& final(self)@ == old(self)@
                    &&& final(self).ids() == old(self).ids()
                },
            },
    {
        match source_id(root, path.as_slice()) {
            Some(id) => {
                let record = Source {
                    source: content,
                    kind: SourceKind::File { relative_path: path },
                    parsed,
                };
                self.set_source(id.as_slice(), record);
                Some(id)
            },
            None => None,
        }
    }
}

/// An empty cache.
pub fn init() -> (r: Cache)
    ensures
        r.wf(),
        r@ == Map::<Seq<u8>, SourceView>::empty(),
        r.ids() == Seq::<Seq<u8>>::empty(),
{
    let r = Cache { sources: ByteMap::new() };
    assert(r@ =~= Map::<Seq<u8>, SourceView>::empty());
    r
}

} // verus!
