use vstd::prelude::*;
use crate::models::{entry_views, EntryView, FileMetadata, FileMetadataView, IndexedEntry};
use crate::ranking::{nearest, rows_of};
use crate::store::{entries_valid, entry_of, Database};

verus! {

/// Why a rebuild installed nothing.
#[derive(Clone, Copy, Debug, PartialEq, Eq, Structural)]
pub enum RebuildError {
    /// More records than there are positive ids.
    TooManyRecords { found: usize },
    /// The embedding step failed.
    EmbeddingFailed,
    /// The embedding step answered `found` vectors for `expected` records.
    EmbeddingCount { expected: usize, found: usize },
    /// The vector for the record at `index` has `found` components where the
    /// store holds another dimension.
    EmbeddingDimension { index: usize, found: usize },
}

/// What a successful rebuild did.
#[derive(Clone, Copy, Debug, PartialEq, Eq, Structural)]
pub struct Report {
    pub indexed_count: usize,
}

/// The views of a sequence of records, position by position.
pub open spec fn record_views(records: Seq<FileMetadata>) -> Seq<FileMetadataView> {
    Seq::new(records.len(), |i: int| records[i]@)
}

/// The views of a sequence of vectors, position by position.
pub open spec fn vector_views(vectors: Seq<Vec<i32>>) -> Seq<Seq<i32>> {
    Seq::new(vectors.len(), |i: int| vectors[i]@)
}

/// What the embedding step answered, as plain sequences.
pub open spec fn outcome_view(embedded: Option<Vec<Vec<i32>>>) -> Option<Seq<Seq<i32>>> {
    match embedded {
        Some(vectors) => Some(vector_views(vectors@)),
        None => None,
    }
}

/// The generation built from `records` and their `vectors`: the record at
/// position `i` gets id `i + 1` and the vector at position `i`.
pub open spec fn staged(records: Seq<FileMetadataView>, vectors: Seq<Seq<i32>>) -> Seq<EntryView> {
    Seq::new(records.len(), |i: int| entry_of((i + 1) as i64, records[i], vectors[i]))
}

/// A rebuild from `count` records and this outcome of the embedding step can
/// be installed in a store of dimension `dim`.
pub open spec fn rebuild_accepts(dim: nat, count: nat, embedded: Option<Seq<Seq<i32>>>) -> bool {
    &&& count <= i64::MAX
    &&& embedded.is_some()
    &&& embedded.unwrap().len() == count
    &&& forall|i: int| 0 <= i < count ==> (#[trigger] embedded.unwrap()[i]).len() == dim
}

/// `e` names the first thing that keeps the rebuild from being installed: the
/// number of records, then a failed embedding step, then the number of
/// vectors, then the first vector of a wrong dimension.
pub open spec fn rebuild_refusal(
    dim: nat,
    count: nat,
    embedded: Option<Seq<Seq<i32>>>,
    e: RebuildError,
) -> bool {
    match e {
        RebuildError::TooManyRecords { found } => found == count && count > i64::MAX,
        RebuildError::EmbeddingFailed => count <= i64::MAX && embedded.is_none(),
        RebuildError::EmbeddingCount { expected, found } => {
            &&& count <= i64::MAX
            &&& embedded.is_some()
            &&& expected == count
            &&& found == embedded.unwrap().len()
            &&& found != expected
        },
        RebuildError::EmbeddingDimension { index, found } => {
            &&& count <= i64::MAX
            &&& embedded.is_some()
            &&& embedded.unwrap().len() == count
            &&& index < count
            &&& forall|j: int| 0 <= j < index ==> (#[trigger] embedded.unwrap()[j]).len() == dim
            &&& embedded.unwrap()[index as int].len() == found
            &&& found != dim
        },
    }
}

/// The contents after a rebuild over `existing`: the staged generation where
/// the rebuild can be installed, the old contents where it cannot.
pub open spec fn after_rebuild(
    existing: Seq<EntryView>,
    dim: nat,
    records: Seq<FileMetadataView>,
    embedded: Option<Seq<Seq<i32>>>,
) -> Seq<EntryView> {
    if rebuild_accepts(dim, records.len(), embedded) {
        staged(records, embedded.unwrap())
    } else {
        existing
    }
}

/// A rebuild whose embedding step failed, or answered too few vectors, leaves
/// the old generation in place: the same entries, hence the same number of
/// them and the same answer to every query.
pub proof fn lemma_failed_embedding_keeps_generation(
    existing: Seq<EntryView>,
    dim: nat,
    records: Seq<FileMetadataView>,
    embedded: Option<Seq<Seq<i32>>>,
    query: Seq<i32>,
    k: nat,
)
    requires
        embedded.is_none() || embedded.unwrap().len() < records.len(),
    ensures
        after_rebuild(existing, dim, records, embedded) == existing,
        after_rebuild(existing, dim, records, embedded).len() == existing.len(),
        nearest(after_rebuild(existing, dim, records, embedded), query, k) == nearest(
            existing,
            query,
            k,
        ),
        rows_of(
            after_rebuild(existing, dim, records, embedded),
            query,
            nearest(after_rebuild(existing, dim, records, embedded), query, k),
        ) == rows_of(existing, query, nearest(existing, query, k)),
{
}

/// A staged generation is valid when every vector has the store's dimension.
pub proof fn lemma_staged_valid(records: Seq<FileMetadataView>, vectors: Seq<Seq<i32>>, dim: nat)
    requires
        records.len() <= i64::MAX,
        vectors.len() == records.len(),
        forall|i: int| 0 <= i < vectors.len() ==> (#[trigger] vectors[i]).len() == dim,
    ensures
        entries_valid(staged(records, vectors), dim),
{
    let s = staged(records, vectors);
    assert forall|i: int, j: int| 0 <= i < j < s.len() implies (#[trigger] s[i]).id != (
    #[trigger] s[j]).id by {
        assert(s[i].id == i + 1);
        assert(s[j].id == j + 1);
    }
}

/// A copy of `v`.
fn copy_vector(v: &Vec<i32>) -> (c: Vec<i32>)
    ensures
        c@ == v@,
{
    let mut c: Vec<i32> = Vec::new();
    let mut i: usize = 0;
    while i < v.len()
        invariant
            i <= v.len(),
            c@ == v@.take(i as int),
        decreases v.len() - i,
    {
        c.push(v[i]);
        assert(v@.take(i + 1) =~= v@.take(i as int).push(v@[i as int]));
        i = i + 1;
    }
    assert(v@.take(v.len() as int) =~= v@);
    c
}

/// Finds the first vector whose length is not `dim`, if there is one.
fn first_wrong_dimension(vectors: &Vec<Vec<i32>>, dim: usize) -> (hit: Option<(usize, usize)>)
    ensures
        match hit {
            None => forall|i: int| 0 <= i < vectors.len() ==> (#[trigger] vectors[i]).len() == dim,
            Some((index, found)) => {
                &&& index < vectors.len()
                &&& forall|j: int| 0 <= j < index ==> (#[trigger] vectors[j]).len() == dim
                &&& vectors[index as int].len() == found
                &&& found != dim
            },
        },
{
    let mut i: usize = 0;
    while i < vectors.len()
        invariant
            i <= vectors.len(),
            forall|j: int| 0 <= j < i ==> (#[trigger] vectors[j]).len() == dim,
        decreases vectors.len() - i,
    {
        let found: usize = vectors[i].len();
        if found != dim {
            return Some((i, found));
        }
        i = i + 1;
    }
    None
}

/// Builds the generation of `records` and `vectors` off to the side.
fn stage(records: &Vec<FileMetadata>, vectors: &Vec<Vec<i32>>) -> (generation: Vec<IndexedEntry>)
    requires
        records.len() <= i64::MAX,
        vectors.len() == records.len(),
    ensures
        entry_views(generation@) == staged(record_views(records@), vector_views(vectors@)),
{
    let ghost target = staged(record_views(records@), vector_views(vectors@));
    let mut generation: Vec<IndexedEntry> = Vec::new();
    let mut i: usize = 0;
    while i < records.len()
        invariant
            i <= records.len(),
            records.len() <= i64::MAX,
            vectors.len() == records.len(),
            generation.len() == i,
            target == staged(record_views(records@), vector_views(vectors@)),
            forall|j: int| 0 <= j < i ==> (#[trigger] generation[j])@ == target[j],
        decreases records.len() - i,
    {
        let record = &records[i];
        let entry = IndexedEntry {
            id: (i + 1) as i64,
            file_name: record.file_name.clone(),
            path: record.path.clone(),
            created: record.created,
            len: record.len,
            embedding: copy_vector(&vectors[i]),
        };
        generation.push(entry);
        i = i + 1;
    }
    assert(entry_views(generation@) =~= target);
    generation
}

/// Replaces the store's contents by a new generation built from `records`
/// and the outcome of embedding their names, or leaves the store as it was.
///
/// `embedded` is `None` where the embedding step failed, else one vector per
/// record, in the records' order. The record at position `i` is stored under
/// id `i + 1`, and `now`, the time in seconds since the epoch at which the
/// build is installed, becomes the time of the store's last build. Nothing is
/// installed, and the contents and that time stay as they were, when
/// the embedding step failed, answered another number of vectors than there
/// are records, or answered a vector of another dimension than the store's.
pub fn rebuild(
    db: &mut Database,
    records: &Vec<FileMetadata>,
    embedded: Option<Vec<Vec<i32>>>,
    now: i64,
) -> (result: Result<Report, RebuildError>)
    requires
        old(db).wf(),
    ensures
        final(db).wf(),
        final(db).dim() == old(db).dim(),
        final(db).last_build() == (if rebuild_accepts(
            old(db).dim(),
            records@.len(),
            outcome_view(embedded),
        ) {
            Some(now)
        } else {
            old(db).last_build()
        }),
        result.is_ok() <==> rebuild_accepts(old(db).dim(), records@.len(), outcome_view(embedded)),
        final(db)@.entries == after_rebuild(
            old(db)@.entries,
            old(db).dim(),
            record_views(records@),
            outcome_view(embedded),
        ),
        match result {
            Ok(report) => report.indexed_count == records.len(),
            Err(e) => rebuild_refusal(old(db).dim(), records@.len(), outcome_view(embedded), e),
        },
{
    let count: usize = records.len();
    if count as u64 > 0x7FFF_FFFF_FFFF_FFFFu64 {
        return Err(RebuildError::TooManyRecords { found: count });
    }
    match embedded {
        None => Err(RebuildError::EmbeddingFailed),
        Some(vectors) => {
            let ghost views = vector_views(vectors@);
            if vectors.len() != count {
                return Err(RebuildError::EmbeddingCount { expected: count, found: vectors.len() });
            }
            match first_wrong_dimension(&vectors, db.embedding_dim()) {
                Some((index, found)) => {
                    assert(views[index as int].len() == found);
                    assert forall|j: int| 0 <= j < index implies (#[trigger] views[j]).len()
                        == db.dim() by {
                        assert(vectors[j].len() == db.dim());
                    }
                    Err(RebuildError::EmbeddingDimension { index, found })
                },
                None => {
                    assert forall|j: int| 0 <= j < views.len() implies (#[trigger] views[j]).len()
                        == db.dim() by {
                        assert(vectors[j].len() == db.dim());
                    }
                    let generation = stage(records, &vectors);
                    proof {
                        lemma_staged_valid(record_views(records@), views, db.dim());
                    }
                    db.install(generation, now);
                    Ok(Report { indexed_count: count })
                },
            }
        },
    }
}

} // verus!
