//! Reading catalogue components from comma-separated text: a header row,
//! then one component per record of at least three fields.
use crate::components::NewTokenizationComponent;
use crate::model::strings_view;
use vstd::prelude::*;

verus! {

/// The records of `text` read as CSV with a header row: each record after
/// the header as its fields, in order; `None` when the text cannot be read.
pub uninterp spec fn csv_records(text: Seq<char>) -> Option<Seq<Seq<Seq<char>>>>;

#[verifier::external_type_specification]
#[verifier::external_body]
pub struct ExCsvError(csv::Error);

/// Why CSV text could not be read.
#[derive(Debug, Clone, Copy, PartialEq, Eq, Structural)]
pub enum IngestError {
    /// The text is not well-formed CSV (or not UTF-8, or its records have
    /// differing numbers of fields).
    Malformed,
}

/// The views of a list of records.
pub open spec fn records_view(rows: Seq<Vec<String>>) -> Seq<Seq<Seq<char>>> {
    rows.map_values(|row: Vec<String>| strings_view(row@))
}

/// The view of a component without identifier: main type, sub type, text.
pub open spec fn new_component_view(c: NewTokenizationComponent) -> (Seq<char>, Seq<char>, Seq<char>) {
    (c.main_type@, c.sub_type@, c.components@)
}

/// The components that records give: one for each record of at least three
/// fields, from its first three, in order.
pub open spec fn components_of_records(rows: Seq<Seq<Seq<char>>>) -> Seq<(Seq<char>, Seq<char>, Seq<char>)>
    decreases rows.len(),
{
    if rows.len() == 0 {
        Seq::empty()
    } else {
        let rest = components_of_records(rows.drop_last());
        let row = rows.last();
        if row.len() >= 3 {
            rest.push((row[0], row[1], row[2]))
        } else {
            rest
        }
    }
}

/// Relies on csv::ReaderBuilder with headers on, and StringRecord::iter:
/// reads `text` as CSV and hands back each record after the header row as
/// its fields.
#[verifier::external_body]
fn read_records(text: &str) -> (r: Result<Vec<Vec<String>>, csv::Error>)
    ensures
        r is Ok <==> csv_records(text@) is Some,
        r matches Ok(rows) ==> records_view(rows@) == csv_records(text@)->Some_0,
{
    let mut reader = csv::ReaderBuilder::new().has_headers(true).from_reader(text.as_bytes());
    reader.records().map(|rec| rec.map(|fields| fields.iter().map(|f| f.to_string()).collect())).collect()
}

/// The components that `rows` give: one for each record of at least three
/// fields, from its first three fields.
pub fn components_from_records(rows: &Vec<Vec<String>>) -> (r: Vec<NewTokenizationComponent>)
    ensures
        r@.map_values(|c: NewTokenizationComponent| new_component_view(c)) == components_of_records(
            records_view(rows@),
        ),
{
    let ghost all = records_view(rows@);
    let mut r: Vec<NewTokenizationComponent> = Vec::new();
    let mut i: usize = 0;
    while i < rows.len()
        invariant
            all == records_view(rows@),
            i <= rows@.len(),
            r@.map_values(|c: NewTokenizationComponent| new_component_view(c)) == components_of_records(
                all.subrange(0, i as int),
            ),
        decreases rows@.len() - i,
    {
        let row = &rows[i];
        let ghost prev = r@;
        proof {
            assert(all.subrange(0, i + 1).drop_last() =~= all.subrange(0, i as int));
            assert(all.subrange(0, i + 1).last() == strings_view(row@));
        }
        if row.len() >= 3 {
            let c = NewTokenizationComponent {
                main_type: row[0].clone(),
                sub_type: row[1].clone(),
                components: row[2].clone(),
            };
            r.push(c);
            assert(r@.map_values(|c: NewTokenizationComponent| new_component_view(c)) =~= prev.map_values(
                |c: NewTokenizationComponent| new_component_view(c),
            ).push(new_component_view(c)));
        }
        i = i + 1;
    }
    assert(all.subrange(0, i as int) =~= all);
    r
}

/// Reads components from CSV text with a header row; fails exactly when
/// the text cannot be read as CSV.
pub fn parse_csv_text(text: &str) -> (r: Result<Vec<NewTokenizationComponent>, IngestError>)
    ensures
        r is Ok <==> csv_records(text@) is Some,
        r matches Ok(v) ==> v@.map_values(|c: NewTokenizationComponent| new_component_view(c))
            == components_of_records(csv_records(text@)->Some_0),
{
    match read_records(text) {
        Ok(rows) => Ok(components_from_records(&rows)),
        Err(_) => Err(IngestError::Malformed),
    }
}

} // verus!
