// Survey backend core: respondent identity is kept apart from anonymised responses.
//
// - `fingerprint`: the salted, normalised email digest that identifies a respondent.
// - `validation`: the rules an inbound submission must meet.
// - `store`: the respondent, response and answer tables and their invariants.
// - `submission`: the atomic submission workflow and the erasure of identity data.
// - `guarantees`: what holds across several calls (duplicates, other forms, erasure).
// - `stats`: anonymous aggregates and the administrator's view of responses.
// - `config`, `forms`: form descriptions for import, question kinds, statuses.


pub mod config;
pub mod fingerprint;
pub mod flow;
pub mod forms;
pub mod guarantees;
pub mod model;
pub mod ordering;
pub mod stats;
pub mod store;
pub mod submission;
pub mod text;
pub mod validation;
