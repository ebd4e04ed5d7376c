//! Inventory of IOCs deployed for a beamline: the redirect-table grammar,
//! the version heuristic, builder-descriptor selection, and the merge of
//! partial records into a name-ordered report.

mod text;
pub mod order;
pub mod version;
pub mod pattern;
pub mod table;
pub mod paths;
pub mod ioc;
pub mod builder;
pub mod inventory;
