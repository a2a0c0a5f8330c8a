use docstore::collection::{Indices, Store};
use docstore::datatypes::DataType;
use docstore::index::{calculate_hash, Index};
use docstore::query_ingestor::Instructions;
use docstore::query_executor::process_instructions;
use docstore::query_proc::QueryResult;

#[test]
fn insert_new_key() {
    let mut index = Index::new();
    let key = String::from("John Perry");
    let value: usize = 1;
    assert_eq!(9548898927525612867, index.insert(&key, value))
}

#[test]
fn insert_existing_key() {
    let mut index = Index::new();
    let key = String::from("John Perry");
    let value: usize = 1;
    let value2: usize = 2;
    index.insert(&key, value);
    assert_eq!(9548898927525612867, index.insert(&key, value2));
}

#[test]
fn search_missing_key() {
    let index = Index::new();
    let key = String::from("John Perry");
    assert_eq!(None, index.search(&key));
}

#[test]
fn search_existing_key() {
    let mut index = Index::new();
    let key = String::from("John Perry");
    let value: usize = 1;
    index.insert(&key, value);
    assert_eq!(Some(&vec![value]), index.search(&key));
}

#[test]
fn search_existing_key_2() {
    let mut index = Index::new();
    let key = String::from("John Perry");
    let value: usize = 1;
    let value2: usize = 2;
    index.insert(&key, value);
    index.insert(&key, value2);
    assert_eq!(Some(&vec![value, value2]), index.search(&key));
}

#[test]
fn hash_is_stable_across_calls() {
    let key = String::from("John Perry");
    assert_eq!(calculate_hash(&key), calculate_hash(&key));
    assert_eq!(9548898927525612867u64, calculate_hash(&key));
}

#[test]
fn data_value_keys_are_searchable() {
    let mut index = Index::new();
    let key = DataType::String(String::from("johnperry"));
    index.insert(&key, 7);
    assert_eq!(Some(&vec![7usize]), index.search(&key));
    assert_eq!(
        None,
        index.search(&DataType::String(String::from("louiswu")))
    );
}

#[test]
fn stale_index_entry_reports_invalid_id() {
    // An index that names a document the store does not hold is an
    // internal inconsistency, reported for the whole query.
    let store = Store::new();
    let mut indices = Indices::new();
    indices.register(String::from("username"));
    let value = DataType::String(String::from("ghost"));
    indices.add_id(&String::from("username"), &value, 99);
    let instructions = vec![Instructions::Equal(String::from("username"), value)];
    assert!(matches!(
        process_instructions(instructions, &store, &indices),
        QueryResult::InvalidIdError
    ));
}
