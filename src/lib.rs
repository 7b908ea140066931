//! Checks domains: the expiry of each one's TLS certificate and whether it
//! answers HTTP, classifies what was found as good, a warning or an error, and
//! writes a report with the counts and a table of the details. Also keeps each
//! user's list of domains in a redis store.
//!
//! - `status`: the findings for one domain and how they are classified.
//! - `domain`: the run over a list of domains and the report on it.
//! - `store`: the users' domain lists.
//! - `text`: the text handling these need, with its specifications.

pub mod domain;
pub mod status;
pub mod store;
pub mod text;
