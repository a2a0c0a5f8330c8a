use docstore::collection::Collection;
use docstore::datatypes::DataType;
use docstore::document::Document;
use docstore::query_proc::QueryResult;

fn sample_document() -> Document {
    let mut document = Document::new();
    document.insert(
        String::from("username"),
        DataType::String(String::from("johnperry")),
    );
    document.insert(String::from("age"), DataType::U64(75u64));
    document.insert(String::from("active"), DataType::Bool(true));
    document
}

#[test]
fn create_a_new_collection() {
    Collection::new(String::from("users"));
}

#[test]
fn insert_string() {
    let mut collection = Collection::new(String::from("users"));
    let mut document = Document::new();
    document.insert(
        String::from("username"),
        DataType::String(String::from("johnperry")),
    );
    document.insert(String::from("age"), DataType::U64(75u64));
    document.insert(String::from("active"), DataType::Bool(true));
    let key = collection.insert(document);
    assert_eq!(1usize, key)
}

#[test]
fn insert_document_2() {
    let mut collection = Collection::new(String::from("users"));
    let mut document = Document::new();
    document.insert(
        String::from("username"),
        DataType::String(String::from("johnperry")),
    );
    document.insert(String::from("age"), DataType::U64(75u64));
    document.insert(String::from("active"), DataType::Bool(true));
    let document2 = document.clone();
    collection.insert(document);
    assert_eq!(2usize, collection.insert(document2))
}

#[test]
fn find_document_matching_string() {
    let mut collection = Collection::new(String::from("users"));
    let mut document = Document::new();
    document.insert(
        String::from("username"),
        DataType::String(String::from("johnperry")),
    );
    document.insert(String::from("age"), DataType::U64(75u64));
    document.insert(String::from("active"), DataType::Bool(true));
    collection.insert(document.clone());
    let results = match collection.find(&String::from("{username:\"johnperry\"}")) {
        QueryResult::Data(data) => data,
        _ => {
            println!("InvalidCommand");
            Vec::new()
        }
    };
    println!("Results {:?}", &results);
    assert_eq!(document, results[0])
}

#[test]
fn sequential_inserts_yield_consecutive_ids() {
    let mut collection = Collection::new(String::from("users"));
    assert_eq!(1usize, collection.insert(sample_document()));
    assert_eq!(2usize, collection.insert(sample_document()));
    assert_eq!(3usize, collection.insert(sample_document()));
}

fn two_user_collection() -> Collection {
    let mut collection = Collection::new(String::from("users"));
    collection.register_index(String::from("username"));
    let mut doc1 = Document::new();
    doc1.insert(
        String::from("username"),
        DataType::String(String::from("johnperry")),
    );
    doc1.insert(String::from("age"), DataType::U64(75u64));
    let mut doc2 = Document::new();
    doc2.insert(
        String::from("username"),
        DataType::String(String::from("louiswu")),
    );
    doc2.insert(String::from("age"), DataType::U64(200u64));
    assert_eq!(1usize, collection.insert(doc1));
    assert_eq!(2usize, collection.insert(doc2));
    collection
}

#[test]
fn find_by_indexed_field() {
    let collection = two_user_collection();
    match collection.find(&String::from("{username:\"johnperry\"}")) {
        QueryResult::Data(data) => {
            assert_eq!(1, data.len());
            assert_eq!(
                Some(&DataType::String(String::from("johnperry"))),
                data[0].get(&String::from("username"))
            );
            assert_eq!(Some(&DataType::U64(75u64)), data[0].get(&String::from("age")));
        }
        _ => panic!("expected data"),
    }
}

#[test]
fn find_by_unindexed_field_scans() {
    let collection = two_user_collection();
    match collection.find(&String::from("{age:200}")) {
        QueryResult::Data(data) => {
            assert_eq!(1, data.len());
            assert_eq!(
                Some(&DataType::String(String::from("louiswu"))),
                data[0].get(&String::from("username"))
            );
        }
        _ => panic!("expected data"),
    }
}

#[test]
fn find_unknown_value_returns_empty() {
    let collection = two_user_collection();
    match collection.find(&String::from("{username:\"nobody\"}")) {
        QueryResult::Data(data) => assert_eq!(0, data.len()),
        _ => panic!("expected empty data, not an error"),
    }
}

#[test]
fn malformed_query_missing_open_brace() {
    let collection = two_user_collection();
    assert!(matches!(
        collection.find(&String::from("username:\"johnperry\"}")),
        QueryResult::InvalidQueryError
    ));
}

#[test]
fn zero_predicate_query_matches_none() {
    let collection = two_user_collection();
    match collection.find(&String::from("{}")) {
        QueryResult::Data(data) => assert_eq!(0, data.len()),
        _ => panic!("expected empty data"),
    }
}

#[test]
fn equality_never_matches_across_variants() {
    let mut collection = Collection::new(String::from("users"));
    let mut document = Document::new();
    document.insert(String::from("age"), DataType::I64(5i64));
    collection.insert(document);
    // a numeric query literal is an unsigned value; I64(5) must not match
    match collection.find(&String::from("{age:5}")) {
        QueryResult::Data(data) => assert_eq!(0, data.len()),
        _ => panic!("expected empty data"),
    }
}

#[test]
fn absent_field_never_matches() {
    let collection = two_user_collection();
    match collection.find(&String::from("{email:\"johnperry@example.com\"}")) {
        QueryResult::Data(data) => assert_eq!(0, data.len()),
        _ => panic!("expected empty data"),
    }
}

#[test]
fn two_predicates_intersect_indexed_buckets() {
    let mut collection = Collection::new(String::from("users"));
    collection.register_index(String::from("username"));
    collection.register_index(String::from("age"));
    let mut doc1 = Document::new();
    doc1.insert(
        String::from("username"),
        DataType::String(String::from("johnperry")),
    );
    doc1.insert(String::from("age"), DataType::U64(75u64));
    let mut doc2 = Document::new();
    doc2.insert(
        String::from("username"),
        DataType::String(String::from("louiswu")),
    );
    doc2.insert(String::from("age"), DataType::U64(75u64));
    collection.insert(doc1);
    collection.insert(doc2);
    match collection.find(&String::from("{age:75,username:\"louiswu\"}")) {
        QueryResult::Data(data) => {
            assert_eq!(1, data.len());
            assert_eq!(
                Some(&DataType::String(String::from("louiswu"))),
                data[0].get(&String::from("username"))
            );
        }
        _ => panic!("expected data"),
    }
}
