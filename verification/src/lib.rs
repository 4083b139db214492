//! A verified model of a pass-through wrapper around an external
//! smart-contract compiler.  The wrapper detects a marker comment in source
//! files and splices alternate "blueprint" bytecode into the compiler's JSON
//! output at the appropriate location.  All decision logic — invocation
//! classification, marker detection, source selection and JSON patching — is
//! verified here; process handling and I/O live outside the library.

pub mod codec;
pub mod json;
pub mod laws;
pub mod paths;
pub mod proxy;
pub mod text;
