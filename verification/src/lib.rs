//! Local persistence facade.
//!
//! A verified model of the application's persistent state — named text blobs
//! and a flat collection of screenshot files — together with the pure
//! computations a host needs at its filesystem edge: composite screenshot
//! names, base64 inline-data strings, and aggregation over directory listings.

pub mod b64;
pub mod kvseq;
pub mod model;
pub mod store;
pub mod laws;
pub mod listing;

pub use b64::base64_of;
pub use b64::data_uri_of;
pub use b64::screenshot_data_uri;
pub use listing::EntryInfo;
pub use listing::file_names;
pub use listing::tally_stats;
pub use model::StoreModel;
pub use store::PersistError;
pub use store::Store;
pub use store::composite_name;
