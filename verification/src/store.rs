use vstd::prelude::*;
use crate::distance::{sq_dist, squared_distance};
use crate::models::{
    entry_views, result_views, DbStats, EntryView, FileMetadata, FileMetadataView, FileResult,
    IndexedEntry,
};
use crate::ranking::{is_k_nearest, lemma_exact_match_first, nearest, rank_nearest, rows_of};

verus! {

/// Why a batch or a query was refused.
#[derive(Clone, Copy, Debug, PartialEq, Eq, Structural)]
pub enum ValidationError {
    /// The entry at `index` of the batch, with this `id`, carries an embedding
    /// of `found` components where the store holds another dimension.
    DimensionMismatch { index: usize, id: i64, found: usize },
    /// The entry at `index` of the batch repeats an `id` that the store or an
    /// earlier entry of the batch already uses.
    DuplicateId { index: usize, id: i64 },
    /// The query vector has `found` components where the store holds another
    /// dimension.
    QueryDimension { found: usize },
}

/// Every embedding has `dim` components and no id occurs twice.
pub open spec fn entries_valid(entries: Seq<EntryView>, dim: nat) -> bool {
    &&& forall|i: int| 0 <= i < entries.len() ==> (#[trigger] entries[i]).embedding.len() == dim
    &&& forall|i: int, j: int|
        0 <= i < j < entries.len() ==> (#[trigger] entries[i]).id != (#[trigger] entries[j]).id
}

/// Some entry among the first `bound` of `entries` has this id.
pub open spec fn id_among(entries: Seq<EntryView>, bound: int, id: i64) -> bool {
    exists|j: int| 0 <= j < bound && (#[trigger] entries[j]).id == id
}

/// Entry `i` of `batch` repeats an id of the store or of an earlier entry of
/// the batch.
pub open spec fn id_taken(existing: Seq<EntryView>, batch: Seq<EntryView>, i: int) -> bool {
    id_among(existing, existing.len() as int, batch[i].id) || id_among(batch, i, batch[i].id)
}

/// Entry `i` of `batch` cannot be stored: wrong dimension or repeated id.
pub open spec fn offends(existing: Seq<EntryView>, dim: nat, batch: Seq<EntryView>, i: int) -> bool {
    batch[i].embedding.len() != dim || id_taken(existing, batch, i)
}

/// No entry of `batch` offends.
pub open spec fn batch_valid(existing: Seq<EntryView>, dim: nat, batch: Seq<EntryView>) -> bool {
    forall|i: int| 0 <= i < batch.len() ==> !offends(existing, dim, batch, i)
}

/// `e` describes the first offending entry of `batch`: its position, its id,
/// and what is wrong with it, the dimension being looked at before the id.
pub open spec fn reports_first_offence(
    existing: Seq<EntryView>,
    dim: nat,
    batch: Seq<EntryView>,
    e: ValidationError,
) -> bool {
    match e {
        ValidationError::DimensionMismatch { index, id, found } => {
            &&& index < batch.len()
            &&& forall|j: int| 0 <= j < index ==> !offends(existing, dim, batch, j)
            &&& batch[index as int].id == id
            &&& batch[index as int].embedding.len() == found
            &&& found != dim
        },
        ValidationError::DuplicateId { index, id } => {
            &&& index < batch.len()
            &&& forall|j: int| 0 <= j < index ==> !offends(existing, dim, batch, j)
            &&& batch[index as int].id == id
            &&& batch[index as int].embedding.len() == dim
            &&& id_taken(existing, batch, index as int)
        },
        ValidationError::QueryDimension { .. } => false,
    }
}

/// Appending a valid batch to valid entries gives valid entries.
pub proof fn lemma_valid_batch_extends(existing: Seq<EntryView>, dim: nat, batch: Seq<EntryView>)
    requires
        entries_valid(existing, dim),
        batch_valid(existing, dim, batch),
    ensures
        entries_valid(existing + batch, dim),
{
    let all = existing + batch;
    assert forall|i: int| 0 <= i < all.len() implies (#[trigger] all[i]).embedding.len() == dim by {
        if i >= existing.len() {
            assert(!offends(existing, dim, batch, i - existing.len()));
        }
    }
    assert forall|i: int, j: int| 0 <= i < j < all.len() implies (#[trigger] all[i]).id != (
    #[trigger] all[j]).id by {
        if j >= existing.len() {
            let b = j - existing.len();
            assert(!offends(existing, dim, batch, b));
            if i >= existing.len() {
                let a = i - existing.len();
                assert(batch[a].id == all[i].id);
            } else {
                assert(existing[i].id == all[i].id);
            }
        }
    }
}

/// The contents after clearing: nothing.
pub open spec fn after_clear(entries: Seq<EntryView>) -> Seq<EntryView> {
    Seq::empty()
}

/// The contents after offering `batch` to a store that holds `existing`: the
/// batch is appended when it is valid, and dropped whole when it is not.
pub open spec fn after_insert(existing: Seq<EntryView>, dim: nat, batch: Seq<EntryView>) -> Seq<
    EntryView,
> {
    if batch_valid(existing, dim, batch) {
        existing + batch
    } else {
        existing
    }
}

/// Clearing twice is clearing once, and clearing an empty store leaves it
/// empty: either way no entry is left.
pub proof fn lemma_clear_idempotent(entries: Seq<EntryView>)
    ensures
        after_clear(entries).len() == 0,
        after_clear(after_clear(entries)) == after_clear(entries),
        after_clear(Seq::<EntryView>::empty()) == Seq::<EntryView>::empty(),
{
}

/// A batch with an embedding of another length than the store's dimension
/// leaves the contents, and so their number, as they were.
pub proof fn lemma_wrong_dimension_changes_nothing(
    existing: Seq<EntryView>,
    dim: nat,
    batch: Seq<EntryView>,
    i: int,
)
    requires
        0 <= i < batch.len(),
        batch[i].embedding.len() != dim,
    ensures
        !batch_valid(existing, dim, batch),
        after_insert(existing, dim, batch) == existing,
        after_insert(existing, dim, batch).len() == existing.len(),
{
    assert(offends(existing, dim, batch, i));
}

/// After a valid batch went in, a query that equals the embedding of its
/// entry `i` finds an entry at distance zero first: entry `i` itself, unless
/// an entry of lower id has the same embedding, which then comes first.
pub proof fn lemma_inserted_entry_found_first(
    existing: Seq<EntryView>,
    dim: nat,
    batch: Seq<EntryView>,
    i: int,
    k: nat,
    picks: Seq<usize>,
)
    requires
        entries_valid(existing, dim),
        batch_valid(existing, dim, batch),
        existing.len() + batch.len() <= usize::MAX,
        0 <= i < batch.len(),
        k >= 1,
        is_k_nearest(after_insert(existing, dim, batch), batch[i].embedding, k, picks),
    ensures
        picks.len() >= 1,
        picks[0] < existing.len() + batch.len(),
        sq_dist(after_insert(existing, dim, batch)[picks[0] as int].embedding, batch[i].embedding)
            == 0,
        after_insert(existing, dim, batch)[picks[0] as int].embedding == batch[i].embedding,
        after_insert(existing, dim, batch)[picks[0] as int].id <= batch[i].id,
        (forall|j: int|
            0 <= j < existing.len() + batch.len() && (#[trigger] after_insert(
                existing,
                dim,
                batch,
            )[j]).embedding == batch[i].embedding ==> batch[i].id <= after_insert(
                existing,
                dim,
                batch,
            )[j].id) ==> picks[0] == existing.len() + i,
{
    let all = after_insert(existing, dim, batch);
    lemma_valid_batch_extends(existing, dim, batch);
    let e = (existing.len() + i) as usize;
    assert(all[e as int] == batch[i]);
    lemma_exact_match_first(all, batch[i].embedding, k, picks, e);
}

/// One generation of indexed entries, all of one embedding dimension, with
/// pairwise distinct ids, and the time at which the last build was installed.
pub struct Database {
    dim: usize,
    entries: Vec<IndexedEntry>,
    last_build: Option<i64>,
}

/// Mathematical model of a `Database`: its dimension, its entries in the
/// order in which they went in, and the time of its last build.
pub ghost struct DatabaseView {
    pub dim: nat,
    pub entries: Seq<EntryView>,
    pub last_build: Option<i64>,
}

impl View for Database {
    type V = DatabaseView;

    closed spec fn view(&self) -> DatabaseView {
        DatabaseView {
            dim: self.dim as nat,
            entries: entry_views(self.entries@),
            last_build: self.last_build,
        }
    }
}

/// Whether some entry among the first `bound` carries `id`.
fn has_id(entries: &Vec<IndexedEntry>, bound: usize, id: i64) -> (found: bool)
    requires
        bound <= entries.len(),
    ensures
        found == id_among(entry_views(entries@), bound as int, id),
{
    let ghost views = entry_views(entries@);
    let mut j: usize = 0;
    while j < bound
        invariant
            j <= bound <= entries.len(),
            views == entry_views(entries@),
            !id_among(views, j as int, id),
        decreases bound - j,
    {
        if entries[j].id == id {
            assert(views[j as int].id == id);
            return true;
        }
        j = j + 1;
    }
    false
}

impl Database {
    /// The number of components that every stored embedding has.
    pub open spec fn dim(&self) -> nat {
        self@.dim
    }

    /// The time, in seconds since the epoch, at which the last build was
    /// installed; nothing for a store that was never built.
    pub open spec fn last_build(&self) -> Option<i64> {
        self@.last_build
    }

    /// The store's invariant.
    pub open spec fn wf(&self) -> bool {
        entries_valid(self@.entries, self.dim())
    }

    /// An empty store for embeddings of `dim` components, never built.
    pub fn new(dim: usize) -> (db: Database)
        ensures
            db.wf(),
            db.dim() == dim,
            db@.entries == Seq::<EntryView>::empty(),
            db.last_build().is_none(),
    {
        let db = Database { dim, entries: Vec::new(), last_build: None };
        assert(db@.entries =~= Seq::<EntryView>::empty());
        db
    }

    /// An empty store for embeddings of `dim` components that remembers when
    /// its last build was installed: the start of reading a kept generation
    /// back in.
    pub fn with_last_build(dim: usize, last_build: Option<i64>) -> (db: Database)
        ensures
            db.wf(),
            db.dim() == dim,
            db@.entries == Seq::<EntryView>::empty(),
            db.last_build() == last_build,
    {
        let db = Database { dim, entries: Vec::new(), last_build };
        assert(db@.entries =~= Seq::<EntryView>::empty());
        db
    }

    /// The dimension the store was made with.
    pub fn embedding_dim(&self) -> (dim: usize)
        ensures
            dim == self.dim(),
    {
        self.dim
    }

    /// The number of entries held.
    pub fn entry_count(&self) -> (count: usize)
        ensures
            count == self@.entries.len(),
    {
        self.entries.len()
    }

    /// Removes every entry. The dimension stays, and so does the time of the
    /// last build: clearing is no build.
    pub fn clear(&mut self)
        ensures
            final(self).wf(),
            final(self).dim() == old(self).dim(),
            final(self).last_build() == old(self).last_build(),
            final(self)@.entries == after_clear(old(self)@.entries),
    {
        self.entries.clear();
        assert(self@.entries =~= Seq::<EntryView>::empty());
    }

    /// Finds the first entry of `batch` that cannot be stored, if there is one.
    fn check_batch(&self, batch: &Vec<IndexedEntry>) -> (verdict: Option<ValidationError>)
        ensures
            verdict.is_none() <==> batch_valid(self@.entries, self.dim(), entry_views(batch@)),
            match verdict {
                Some(e) => reports_first_offence(self@.entries, self.dim(), entry_views(batch@), e),
                None => true,
            },
    {
        let ghost views = entry_views(batch@);
        let mut i: usize = 0;
        while i < batch.len()
            invariant
                i <= batch.len(),
                views == entry_views(batch@),
                forall|j: int| 0 <= j < i ==> !offends(self@.entries, self.dim(), views, j),
            decreases batch.len() - i,
        {
            let id: i64 = batch[i].id;
            let found: usize = batch[i].embedding.len();
            if found != self.dim {
                assert(offends(self@.entries, self.dim(), views, i as int));
                return Some(ValidationError::DimensionMismatch { index: i, id, found });
            }
            let stored: bool = has_id(&self.entries, self.entries.len(), id);
            let earlier: bool = has_id(batch, i, id);
            if stored || earlier {
                assert(offends(self@.entries, self.dim(), views, i as int));
                return Some(ValidationError::DuplicateId { index: i, id });
            }
            i = i + 1;
        }
        None
    }

    /// Stores a whole batch, or nothing. The batch is refused when an entry has
    /// an embedding of another dimension than the store's, or an id that the
    /// store or an earlier entry of the batch already uses; the error names the
    /// first such entry. An accepted batch is appended in its order. The time
    /// of the last build stays: inserting is no build.
    pub fn insert_batch(&mut self, entries: Vec<IndexedEntry>) -> (result: Result<
        (),
        ValidationError,
    >)
        requires
            old(self).wf(),
        ensures
            final(self).wf(),
            final(self).dim() == old(self).dim(),
            final(self).last_build() == old(self).last_build(),
            result.is_ok() <==> batch_valid(old(self)@.entries, old(self).dim(), entry_views(entries@)),
            final(self)@.entries == after_insert(old(self)@.entries, old(self).dim(), entry_views(entries@)),
            match result {
                Ok(_) => true,
                Err(e) => reports_first_offence(
                    old(self)@.entries,
                    old(self).dim(),
                    entry_views(entries@),
                    e,
                ),
            },
    {
        match self.check_batch(&entries) {
            Some(e) => Err(e),
            None => {
                let mut batch = entries;
                proof {
                    lemma_valid_batch_extends(self@.entries, self.dim(), entry_views(batch@));
                }
                let ghost before = self@.entries;
                self.entries.append(&mut batch);
                assert(self@.entries =~= before + entry_views(entries@));
                Ok(())
            },
        }
    }

    /// Replaces the whole contents by `generation` in one step, as the build
    /// installed at time `now`.
    pub(crate) fn install(&mut self, generation: Vec<IndexedEntry>, now: i64)
        requires
            entries_valid(entry_views(generation@), old(self).dim()),
        ensures
            final(self).wf(),
            final(self).dim() == old(self).dim(),
            final(self)@.entries == entry_views(generation@),
            final(self).last_build() == Some(now),
    {
        self.entries = generation;
        self.last_build = Some(now);
    }

    /// The `limit` entries nearest to `query`, nearest first, each with its
    /// squared Euclidean distance; of two entries at one distance the one of
    /// lower id comes first. A store with fewer entries gives them all. A query
    /// of another dimension than the store's is refused.
    pub fn search_similar(&self, query: &Vec<i32>, limit: usize) -> (result: Result<
        Vec<FileResult>,
        ValidationError,
    >)
        requires
            self.wf(),
        ensures
            match result {
                Ok(rows) => {
                    &&& query.len() == self.dim()
                    &&& rows.len() == (if limit <= self@.entries.len() {
                        limit as int
                    } else {
                        self@.entries.len() as int
                    })
                    &&& is_k_nearest(self@.entries, query@, limit as nat, nearest(self@.entries, query@, limit as nat))
                    &&& result_views(rows@) == rows_of(
                        self@.entries,
                        query@,
                        nearest(self@.entries, query@, limit as nat),
                    )
                },
                Err(e) => query.len() != self.dim() && e == (ValidationError::QueryDimension {
                    found: query.len(),
                }),
            },
    {
        if query.len() != self.dim {
            return Err(ValidationError::QueryDimension { found: query.len() });
        }
        assert forall|i: int| 0 <= i < self.entries.len() implies (#[trigger] self.entries[i]).embedding.len()
            == query.len() by {
            assert(self@.entries[i].embedding.len() == self.dim());
        }
        let picks: Vec<usize> = rank_nearest(&self.entries, query, limit);
        let mut rows: Vec<FileResult> = Vec::new();
        let mut j: usize = 0;
        while j < picks.len()
            invariant
                j <= picks.len(),
                rows.len() == j,
                self.wf(),
                query.len() == self.dim(),
                is_k_nearest(self@.entries, query@, limit as nat, picks@),
                forall|i: int| 0 <= i < j ==> (#[trigger] rows[i])@ == rows_of(self@.entries, query@, picks@)[i],
            decreases picks.len() - j,
        {
            let p: usize = picks[j];
            assert(self@.entries[p as int] == self.entries[p as int]@);
            let entry = &self.entries[p];
            let row = FileResult {
                file_name: entry.file_name.clone(),
                path: entry.path.clone(),
                distance: squared_distance(&entry.embedding, query),
            };
            rows.push(row);
            j = j + 1;
        }
        assert(result_views(rows@) =~= rows_of(self@.entries, query@, picks@));
        Ok(rows)
    }

    /// A snapshot for diagnostics: the number of entries, the dimension, and
    /// the time at which the last build was installed, which is nothing for a
    /// store never built and does not depend on the files' own times. The
    /// store's location and its size on the medium are the caller's to give.
    pub fn get_stats(&self, db_path: &str, db_size_bytes: u64) -> (stats: DbStats)
        ensures
            stats.db_path@ == db_path@,
            stats.file_count == self@.entries.len(),
            stats.db_size_bytes == db_size_bytes,
            stats.embedding_dim == self.dim(),
            stats.last_updated == self.last_build(),
    {
        DbStats {
            db_path: db_path.to_owned(),
            file_count: self.entries.len(),
            db_size_bytes,
            embedding_dim: self.dim,
            last_updated: self.last_build,
        }
    }

    /// Stores one file under `id` with its embedding, or nothing: the entry is
    /// refused as a batch of this one entry would be.
    pub fn insert_file(&mut self, id: i64, file: &FileMetadata, embedding: Vec<i32>) -> (result:
        Result<(), ValidationError>)
        requires
            old(self).wf(),
        ensures
            final(self).wf(),
            final(self).dim() == old(self).dim(),
            final(self).last_build() == old(self).last_build(),
            result.is_ok() <==> embedding@.len() == old(self).dim() && !id_among(
                old(self)@.entries,
                old(self)@.entries.len() as int,
                id,
            ),
            result.is_ok() ==> final(self)@.entries == old(self)@.entries.push(entry_of(id, file@, embedding@)),
            match result {
                Ok(_) => true,
                Err(e) => final(self)@.entries == old(self)@.entries && e == (if embedding@.len() != old(
                    self,
                ).dim() {
                    ValidationError::DimensionMismatch { index: 0, id, found: embedding.len() }
                } else {
                    ValidationError::DuplicateId { index: 0, id }
                }),
            },
    {
        let entry = IndexedEntry {
            id,
            file_name: file.file_name.clone(),
            path: file.path.clone(),
            created: file.created,
            len: file.len,
            embedding,
        };
        let mut batch: Vec<IndexedEntry> = Vec::new();
        batch.push(entry);
        let ghost views = entry_views(batch@);
        proof {
            assert(views =~= seq![entry_of(id, file@, embedding@)]);
            assert(!id_among(views, 0, id));
            assert(self@.entries + views =~= self@.entries.push(entry_of(id, file@, embedding@)));
            if embedding@.len() == self.dim() && !id_among(self@.entries, self@.entries.len() as int, id) {
                assert(!offends(self@.entries, self.dim(), views, 0));
            } else {
                assert(offends(self@.entries, self.dim(), views, 0));
            }
        }
        self.insert_batch(batch)
    }
}

/// The entry that stores `file` under `id` with `embedding`.
pub open spec fn entry_of(id: i64, file: FileMetadataView, embedding: Seq<i32>) -> EntryView {
    EntryView {
        id,
        file_name: file.file_name,
        path: file.path,
        created: file.created,
        len: file.len,
        embedding,
    }
}

} // verus!
