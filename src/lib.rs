//! A ledger of tokenized assets and the wallets that hold them, and a
//! catalogue of tokenization components with the responses that its read
//! endpoints give.
//!
//! - `model`: asset and wallet records and their views.
//! - `table`: a string-keyed store viewed as a finite map.
//! - `ledger`: the ledger's operations and their effect on its view.
//! - `lemmas`: laws that relate the ledger's operations.
//! - `components`: the component catalogue and its indexes.
//! - `responses`: the envelopes of the catalogue's read endpoints.
//! - `ingest`: reading components from CSV text.
pub mod model;
pub mod table;
pub mod ledger;
pub mod lemmas;
pub mod components;
pub mod responses;
pub mod ingest;
