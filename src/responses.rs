//! The envelopes that the catalogue's read endpoints answer with.
use crate::components::{
    ApiResponse, InMemoryDatabase, TokenizationComponent, components_view, of_main_type, of_sub_type,
};
use vstd::prelude::*;

verus! {

/// Every component, in order of insertion.
pub fn get_all_components(db: &InMemoryDatabase) -> (r: ApiResponse<Vec<TokenizationComponent>>)
    ensures
        r.success,
        r.data matches Some(v) && components_view(v@) == db.components(),
        r.message is None,
{
    ApiResponse { success: true, data: Some(db.all_components()), message: None }
}

/// The components of one main type; when there is none, an empty list and
/// a message that says so.
pub fn get_components_by_type(db: &InMemoryDatabase, main_type: &str) -> (r: ApiResponse<Vec<TokenizationComponent>>)
    requires
        db.wf(),
    ensures
        r.success,
        r.data matches Some(v) && components_view(v@) == of_main_type(db.components(), main_type@),
        of_main_type(db.components(), main_type@).len() == 0 ==> (r.message matches Some(m) && m@
            == "No components found for this type"@),
        of_main_type(db.components(), main_type@).len() > 0 ==> r.message is None,
{
    match db.components_of_type(main_type) {
        Some(found) => ApiResponse { success: true, data: Some(found), message: None },
        None => {
            let empty: Vec<TokenizationComponent> = Vec::new();
            assert(components_view(empty@) =~= of_main_type(db.components(), main_type@));
            ApiResponse {
                success: true,
                data: Some(empty),
                message: Some("No components found for this type".to_owned()),
            }
        },
    }
}

/// The components of one main type and sub type; when there is none, an
/// empty list and a message that says so.
pub fn get_components_by_subtype(db: &InMemoryDatabase, main_type: &str, sub_type: &str) -> (r: ApiResponse<
    Vec<TokenizationComponent>,
>)
    requires
        db.wf(),
    ensures
        r.success,
        r.data matches Some(v) && components_view(v@) == of_sub_type(db.components(), main_type@, sub_type@),
        of_sub_type(db.components(), main_type@, sub_type@).len() == 0 ==> (r.message matches Some(m) && m@
            == "No components found for this type and subtype"@),
        of_sub_type(db.components(), main_type@, sub_type@).len() > 0 ==> r.message is None,
{
    match db.components_of_subtype(main_type, sub_type) {
        Some(found) => ApiResponse { success: true, data: Some(found), message: None },
        None => {
            let empty: Vec<TokenizationComponent> = Vec::new();
            assert(components_view(empty@) =~= of_sub_type(db.components(), main_type@, sub_type@));
            ApiResponse {
                success: true,
                data: Some(empty),
                message: Some("No components found for this type and subtype".to_owned()),
            }
        },
    }
}

} // verus!
