//! A process-wide plugin registry core.
//!
//! Independently compiled modules register ("stain") implementations of a
//! shared interface; each registration contributes one [`entry::Entry`]
//! carrying an ordering key, a type-identity token, a display name and an
//! instance value. Application code then builds a [`store::Store`] from the
//! raw registration records: the store deduplicates the records by type
//! identity, sorts them by ordering key (ties broken by type identity, so
//! that iteration is deterministic), and answers iteration, ordering-keyed
//! lookup and concrete (type-token) lookup.
//!
//! The registration side — how the raw records are gathered before the store
//! is built — is an external collaborator: this crate only requires that the
//! full sequence of records is handed to [`store::Store::collect`].

pub mod entry;
pub mod laws;
pub mod store;

pub use entry::AsAny;
pub use entry::Entry;
pub use entry::IntoEntry;
pub use store::Store;
