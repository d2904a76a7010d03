//! Plans and serves renderer patches for an Electron app: a JavaScript token
//! scanner, token patterns, a patch planner, the ASAR archive reader's rules, and
//! the state machines that talk to the app over its debugging pipe.

pub mod text;
pub mod text_map;
pub mod asar;
pub mod cdp;
pub mod cdp_laws;
pub mod digest;
pub mod js_tokens;
pub mod json;
pub mod literal_laws;
pub mod match_laws;
pub mod scan_laws;
pub mod token_laws;
pub mod token_match;
pub mod patch;
pub mod number_laws;
pub mod options;
pub mod path_laws;
pub mod paths;
pub mod platform;
pub mod report;
pub mod report_laws;
pub mod runtime;
