//! Peer configuration adapter for a VyOS-family router's WireGuard setup.
//!
//! The library validates externally supplied peer data, compiles peer
//! create/delete/inspect intents into configuration-shell transactions,
//! and parses the shell's free-text output back into structured peer
//! facts. Running the external configuration shell itself is I/O and is
//! left to the surrounding application.

pub mod addr;
pub mod compiler;
pub mod orchestrator;
pub mod parser;
pub mod scan;
pub mod schemas;
pub mod validators;

pub use parser::extract_addresses;
pub use parser::infer_validity;
pub use validators::validate_device_id;
pub use validators::validate_identifier;
pub use validators::validate_key;
pub use validators::validate_name;
