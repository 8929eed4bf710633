//! The parsers, one for each layout.

pub mod blank;
pub mod boot_services_app;
pub mod efi_variable;
pub mod event_tag;
pub mod handoff_table;
pub mod simple;

pub use blank::EvBlankParser;
pub use boot_services_app::EvBootServicesAppParser;
pub use efi_variable::EvEfiVariableParser;
pub use event_tag::EvEventTagParser;
pub use handoff_table::EvHandoffTableParser;
pub use simple::EvSimpleParser;
