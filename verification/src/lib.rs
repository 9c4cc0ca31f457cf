use vstd::prelude::*;

pub mod claude2oai;
pub mod claude_code;
pub mod clock;
pub mod cookie;
pub mod error;
pub mod frontend;
pub mod json;
pub mod log_view;
pub mod request_log;
pub mod text;
pub mod types;
pub mod utils;

verus! {

} // verus!
