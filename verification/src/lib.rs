//! Single-machine remote-management tooling: the request dispatcher of the
//! agent protocol server, threshold alerting, the script library and the
//! software inventory, each stated and proved against its contract.

pub mod json;
pub mod text;
pub mod rmm;
