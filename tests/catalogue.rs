use tokenize_core::components::{count_by_main_type, InMemoryDatabase, NewTokenizationComponent, TokenizationComponent};
use tokenize_core::ingest::{components_from_records, parse_csv_text, IngestError};
use tokenize_core::responses::{get_all_components, get_components_by_subtype, get_components_by_type};

fn new_component(main: &str, sub: &str, text: &str) -> NewTokenizationComponent {
    NewTokenizationComponent { main_type: main.to_string(), sub_type: sub.to_string(), components: text.to_string() }
}

fn sample() -> InMemoryDatabase {
    let mut db = InMemoryDatabase::new();
    assert_eq!(db.insert(&new_component("Asset", "Equity", "shares")), 1);
    assert_eq!(db.insert(&new_component("Wallet", "Custodial", "keys")), 2);
    assert_eq!(db.insert(&new_component("Asset", "Debt", "bonds")), 3);
    assert_eq!(db.insert(&new_component("Asset", "Equity", "options")), 4);
    db
}

fn ids(v: &[TokenizationComponent]) -> Vec<u32> {
    v.iter().map(|c| c.id).collect()
}

#[test]
fn all_components_of_empty_catalogue() {
    let db = InMemoryDatabase::new();
    let r = get_all_components(&db);
    assert!(r.success);
    assert!(r.data.unwrap().is_empty());
    assert!(r.message.is_none());
}

#[test]
fn all_components_in_order() {
    let db = sample();
    let r = get_all_components(&db);
    assert_eq!(ids(&r.data.unwrap()), vec![1, 2, 3, 4]);
}

#[test]
fn unknown_type_gives_empty_data_and_message() {
    let db = sample();
    let r = get_components_by_type(&db, "NonExistentType");
    assert!(r.success);
    assert!(r.data.unwrap().is_empty());
    assert_eq!(r.message, Some("No components found for this type".to_string()));
}

#[test]
fn components_by_type_in_order() {
    let db = sample();
    let r = get_components_by_type(&db, "Asset");
    assert!(r.success);
    assert!(r.message.is_none());
    let data = r.data.unwrap();
    assert_eq!(ids(&data), vec![1, 3, 4]);
    assert_eq!(data[1].components, "bonds");
}

#[test]
fn components_by_subtype() {
    let db = sample();
    let r = get_components_by_subtype(&db, "Asset", "Equity");
    assert_eq!(ids(&r.data.unwrap()), vec![1, 4]);
    assert!(r.message.is_none());
    let r = get_components_by_subtype(&db, "Wallet", "Equity");
    assert!(r.success);
    assert!(r.data.unwrap().is_empty());
    assert_eq!(r.message, Some("No components found for this type and subtype".to_string()));
}

#[test]
fn counts_by_main_type() {
    let db = sample();
    let counts = count_by_main_type(&db.all_components());
    assert_eq!(counts, vec![("Asset".to_string(), 3), ("Wallet".to_string(), 1)]);
    assert!(count_by_main_type(&vec![]).is_empty());
}

#[test]
fn records_with_fewer_than_three_fields_are_skipped() {
    let rows = vec![
        vec!["A".to_string(), "B".to_string(), "C".to_string(), "D".to_string()],
        vec!["x".to_string(), "y".to_string()],
        vec!["E".to_string(), "F".to_string(), "G".to_string()],
    ];
    let got = components_from_records(&rows);
    assert_eq!(got.len(), 2);
    assert_eq!((got[0].main_type.as_str(), got[0].sub_type.as_str(), got[0].components.as_str()), ("A", "B", "C"));
    assert_eq!(got[1].components, "G");
}

#[test]
fn csv_text_is_read_after_the_header() {
    let text = "main,sub,components\nAsset,Equity,\"shares, options\"\nWallet,Hybrid,keys\n";
    let got = parse_csv_text(text).unwrap();
    assert_eq!(got.len(), 2);
    assert_eq!(got[0].main_type, "Asset");
    assert_eq!(got[0].components, "shares, options");
    assert_eq!(got[1].sub_type, "Hybrid");
}

#[test]
fn malformed_csv_is_an_error() {
    let text = "a,b,c\n1,2,3\n1,2\n";
    assert_eq!(parse_csv_text(text).err(), Some(IngestError::Malformed));
}

#[test]
fn catalogue_len_counts_inserts() {
    let mut db = InMemoryDatabase::new();
    assert_eq!(db.len(), 0);
    db.insert(&new_component("A", "B", "C"));
    assert_eq!(db.len(), 1);
    assert_eq!(sample().len(), 4);
}

#[test]
fn csv_with_only_a_header_gives_nothing() {
    assert!(parse_csv_text("main,sub,components\n").unwrap().is_empty());
}
