pub mod text;
pub mod query;
pub mod http;
pub mod auth;
pub mod hub;
pub mod notes;
pub mod notetext;
pub mod tasks;
pub mod order;
pub mod backup;
pub mod migrate;
pub mod settings;
pub mod vaults;
pub mod route;
pub mod events;
pub mod table;
pub mod taskedit;
pub mod notefiles;
pub mod notesdir;
pub mod attachments;
pub mod system;
pub mod laws;
pub mod tagtrip;
pub mod mentionfacts;
