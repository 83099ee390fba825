use smart_file_search::context::{AppContext, SearchError};
use smart_file_search::indexer::{rebuild, RebuildError, Report};
use smart_file_search::models::FileMetadata;
use smart_file_search::store::Database;

fn record(name: &str, created: i64) -> FileMetadata {
    FileMetadata {
        file_name: name.to_string(),
        path: format!("/scan/{}", name),
        created,
        len: 7,
    }
}

fn three_records() -> Vec<FileMetadata> {
    vec![record("a.pdf", 1), record("b.txt", 2), record("c.png", 3)]
}

fn unit_vectors() -> Vec<Vec<i32>> {
    vec![vec![10, 0, 0], vec![0, 10, 0], vec![0, 0, 10]]
}

#[test]
fn rebuild_installs_the_new_generation() {
    let mut db = Database::new(3);
    let report = rebuild(&mut db, &three_records(), Some(unit_vectors()), 1000);
    assert_eq!(report, Ok(Report { indexed_count: 3 }));
    assert_eq!(db.entry_count(), 3);
    let rows = db.search_similar(&vec![9, 1, 0], 2).unwrap();
    assert_eq!(rows[0].file_name, "a.pdf");
    assert_eq!(rows[0].path, "/scan/a.pdf");
    assert_eq!(rows[1].file_name, "b.txt");
    assert_eq!(db.get_stats("p", 0).last_updated, Some(1000));
}

#[test]
fn rebuild_assigns_ids_from_one_in_scan_order() {
    let mut db = Database::new(1);
    let records = vec![record("first", 0), record("second", 0), record("third", 0)];
    let vectors = vec![vec![5], vec![5], vec![5]];
    assert_eq!(rebuild(&mut db, &records, Some(vectors), 1000), Ok(Report { indexed_count: 3 }));
    let names: Vec<String> =
        db.search_similar(&vec![5], 3).unwrap().into_iter().map(|r| r.file_name).collect();
    assert_eq!(names, vec!["first".to_string(), "second".to_string(), "third".to_string()]);
    let file = record("fourth", 0);
    assert!(db.insert_file(3, &file, vec![1]).is_err());
    assert!(db.insert_file(0, &file, vec![1]).is_ok());
    assert!(db.insert_file(4, &file, vec![1]).is_ok());
}

#[test]
fn rebuild_replaces_the_previous_generation() {
    let mut db = Database::new(3);
    assert!(rebuild(&mut db, &three_records(), Some(unit_vectors()), 1000).is_ok());
    let records = vec![record("only.rs", 9)];
    assert_eq!(rebuild(&mut db, &records, Some(vec![vec![1, 1, 1]]), 2000), Ok(Report { indexed_count: 1 }));
    assert_eq!(db.entry_count(), 1);
    let rows = db.search_similar(&vec![10, 0, 0], 5).unwrap();
    assert_eq!(rows.len(), 1);
    assert_eq!(rows[0].file_name, "only.rs");
}

#[test]
fn rebuild_of_no_records_leaves_an_empty_store() {
    let mut db = Database::new(3);
    assert_eq!(rebuild(&mut db, &Vec::new(), Some(Vec::new()), 3000), Ok(Report { indexed_count: 0 }));
    assert_eq!(db.entry_count(), 0);
    assert_eq!(db.get_stats("p", 0).file_count, 0);
    assert_eq!(db.get_stats("p", 0).last_updated, Some(3000));
    assert!(rebuild(&mut db, &three_records(), Some(unit_vectors()), 1000).is_ok());
    assert_eq!(rebuild(&mut db, &Vec::new(), Some(Vec::new()), 3000), Ok(Report { indexed_count: 0 }));
    assert_eq!(db.get_stats("p", 0).file_count, 0);
}

#[test]
fn failed_embedding_keeps_the_old_generation() {
    let mut db = Database::new(3);
    assert!(rebuild(&mut db, &three_records(), Some(unit_vectors()), 1000).is_ok());
    let before = db.search_similar(&vec![9, 1, 0], 3).unwrap();
    let records = vec![record("new.txt", 50), record("newer.txt", 60)];
    assert_eq!(rebuild(&mut db, &records, None, 4000), Err(RebuildError::EmbeddingFailed));
    assert_eq!(db.get_stats("p", 0).file_count, 3);
    assert_eq!(db.get_stats("p", 0).last_updated, Some(1000));
    assert_eq!(db.search_similar(&vec![9, 1, 0], 3).unwrap(), before);
}

#[test]
fn short_embedding_answer_keeps_the_old_generation() {
    let mut db = Database::new(3);
    assert!(rebuild(&mut db, &three_records(), Some(unit_vectors()), 1000).is_ok());
    let before = db.search_similar(&vec![0, 1, 0], 3).unwrap();
    let result = rebuild(&mut db, &three_records(), Some(vec![vec![1, 2, 3]]), 4000);
    assert_eq!(result, Err(RebuildError::EmbeddingCount { expected: 3, found: 1 }));
    assert_eq!(db.entry_count(), 3);
    assert_eq!(db.search_similar(&vec![0, 1, 0], 3).unwrap(), before);
}

#[test]
fn embedding_of_wrong_dimension_keeps_the_old_generation() {
    let mut db = Database::new(3);
    assert!(rebuild(&mut db, &three_records(), Some(unit_vectors()), 1000).is_ok());
    let before = db.search_similar(&vec![0, 0, 1], 3).unwrap();
    let vectors = vec![vec![1, 2, 3], vec![1, 2, 3, 4], vec![1]];
    let result = rebuild(&mut db, &three_records(), Some(vectors), 4000);
    assert_eq!(result, Err(RebuildError::EmbeddingDimension { index: 1, found: 4 }));
    assert_eq!(db.entry_count(), 3);
    assert_eq!(db.search_similar(&vec![0, 0, 1], 3).unwrap(), before);
}

#[test]
fn search_on_empty_store_gives_an_empty_answer() {
    let ctx = AppContext::new(Database::new(3));
    let out = ctx.search("anything", Some(vec![1, 2, 3]), 5).unwrap();
    assert_eq!(out.search, "anything");
    assert!(out.results.is_empty());
}

#[test]
fn search_repeats_the_query_and_ranks_nearest_first() {
    let mut db = Database::new(3);
    assert!(rebuild(&mut db, &three_records(), Some(unit_vectors()), 1000).is_ok());
    let ctx = AppContext::new(db);
    let out = ctx.search("portable document", Some(vec![9, 1, 0]), 2).unwrap();
    assert_eq!(out.search, "portable document");
    assert_eq!(out.results.len(), 2);
    assert_eq!(out.results[0].file_name, "a.pdf");
    assert_eq!(out.results[0].distance, 2);
    assert_eq!(out.results[1].file_name, "b.txt");
    assert_eq!(out.results[1].distance, 162);
    assert_eq!(ctx.db().entry_count(), 3);
}

#[test]
fn search_without_an_embedding_is_an_error() {
    let ctx = AppContext::new(Database::new(3));
    assert_eq!(ctx.search("q", None, 5).err(), Some(SearchError::EmbeddingFailed));
}

#[test]
fn search_with_an_embedding_of_wrong_dimension_is_an_error() {
    let ctx = AppContext::new(Database::new(3));
    let result = ctx.search("q", Some(vec![1, 2]), 5);
    assert_eq!(result.err(), Some(SearchError::QueryDimension { found: 2 }));
}

#[test]
fn context_store_can_be_rebuilt_in_place() {
    let mut ctx = AppContext::new(Database::new(3));
    assert!(rebuild(ctx.db_mut(), &three_records(), Some(unit_vectors()), 1000).is_ok());
    assert_eq!(ctx.db().entry_count(), 3);
    let out = ctx.search("c", Some(vec![0, 0, 10]), 1).unwrap();
    assert_eq!(out.results[0].file_name, "c.png");
    assert_eq!(out.results[0].distance, 0);
}

#[test]
fn build_time_is_that_of_the_last_accepted_rebuild() {
    let mut db = Database::new(3);
    assert_eq!(db.get_stats("p", 0).last_updated, None);
    assert!(rebuild(&mut db, &three_records(), None, 10).is_err());
    assert_eq!(db.get_stats("p", 0).last_updated, None);
    assert!(rebuild(&mut db, &three_records(), Some(unit_vectors()), 20).is_ok());
    assert_eq!(db.get_stats("p", 0).last_updated, Some(20));
    let wrong = vec![vec![1, 2, 3], vec![1, 2], vec![1, 2, 3]];
    assert!(rebuild(&mut db, &three_records(), Some(wrong), 30).is_err());
    assert_eq!(db.get_stats("p", 0).last_updated, Some(20));
    assert!(rebuild(&mut db, &three_records(), Some(vec![]), 35).is_err());
    assert_eq!(db.get_stats("p", 0).last_updated, Some(20));
    assert!(rebuild(&mut db, &three_records(), Some(unit_vectors()), -40).is_ok());
    assert_eq!(db.get_stats("p", 0).last_updated, Some(-40));
    let mut kept = Database::with_last_build(3, Some(7));
    assert!(rebuild(&mut kept, &three_records(), None, 50).is_err());
    assert_eq!(kept.get_stats("p", 0).last_updated, Some(7));
}
