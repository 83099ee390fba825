use vstd::prelude::*;
use vstd::string::StringExecFns;

verus! {

/// Number of components of every embedding in the standard deployment.
pub const EMBEDDING_DIM: usize = 384;

/// Number of results a search returns when the caller has no preference.
pub const DEFAULT_SEARCH_LIMIT: usize = 5;

/// One scanned file: its name, resolved path, creation time in seconds since
/// the epoch, and size in bytes.
#[derive(Clone, PartialEq, Eq)]
pub struct FileMetadata {
    pub file_name: String,
    pub path: String,
    pub created: i64,
    pub len: u64,
}

/// Mathematical model of a `FileMetadata`.
pub ghost struct FileMetadataView {
    pub file_name: Seq<char>,
    pub path: Seq<char>,
    pub created: i64,
    pub len: u64,
}

impl View for FileMetadata {
    type V = FileMetadataView;

    open spec fn view(&self) -> FileMetadataView {
        FileMetadataView {
            file_name: self.file_name@,
            path: self.path@,
            created: self.created,
            len: self.len,
        }
    }
}

impl FileMetadata {
    /// The record in one line: the name, the word `in` between a blank and a
    /// tab, and the path.
    pub fn describe(&self) -> (line: String)
        ensures
            line@ == self.file_name@ + " in \t"@ + self.path@,
    {
        let mut line = self.file_name.clone();
        line.append(" in \t");
        line.append(self.path.as_str());
        line
    }
}

/// The persisted unit: a file's metadata joined to its embedding by `id`.
/// Embedding components are fixed-point integers.
#[derive(Clone, Debug, PartialEq, Eq)]
pub struct IndexedEntry {
    pub id: i64,
    pub file_name: String,
    pub path: String,
    pub created: i64,
    pub len: u64,
    pub embedding: Vec<i32>,
}

/// Mathematical model of an `IndexedEntry`.
pub ghost struct EntryView {
    pub id: i64,
    pub file_name: Seq<char>,
    pub path: Seq<char>,
    pub created: i64,
    pub len: u64,
    pub embedding: Seq<i32>,
}

impl View for IndexedEntry {
    type V = EntryView;

    open spec fn view(&self) -> EntryView {
        EntryView {
            id: self.id,
            file_name: self.file_name@,
            path: self.path@,
            created: self.created,
            len: self.len,
            embedding: self.embedding@,
        }
    }
}

/// The views of a sequence of entries, position by position.
pub open spec fn entry_views(entries: Seq<IndexedEntry>) -> Seq<EntryView> {
    Seq::new(entries.len(), |i: int| entries[i]@)
}

/// One ranked hit: the file and its squared Euclidean distance to the query.
#[derive(Clone, Debug, PartialEq, Eq)]
pub struct FileResult {
    pub file_name: String,
    pub path: String,
    pub distance: u128,
}

/// Mathematical model of a `FileResult`.
pub ghost struct FileResultView {
    pub file_name: Seq<char>,
    pub path: Seq<char>,
    pub distance: nat,
}

impl View for FileResult {
    type V = FileResultView;

    open spec fn view(&self) -> FileResultView {
        FileResultView {
            file_name: self.file_name@,
            path: self.path@,
            distance: self.distance as nat,
        }
    }
}

/// The views of a sequence of hits, position by position.
pub open spec fn result_views(rows: Seq<FileResult>) -> Seq<FileResultView> {
    Seq::new(rows.len(), |j: int| rows[j]@)
}

/// The answer to one query: the query text and the hits, nearest first.
#[derive(Clone, Debug, PartialEq, Eq)]
pub struct SearchOutput {
    pub search: String,
    pub results: Vec<FileResult>,
}

/// Diagnostic snapshot of a store: where it lives, how many entries it holds,
/// its size on the medium, its dimension, and the time of its last build.
#[derive(Clone, Debug, PartialEq, Eq)]
pub struct DbStats {
    pub db_path: String,
    pub file_count: usize,
    pub db_size_bytes: u64,
    pub embedding_dim: usize,
    pub last_updated: Option<i64>,
}

} // verus!
