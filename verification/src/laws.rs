//! What holds of the library as a whole.

pub mod answers;
pub mod asking;
pub mod attending;
pub mod backlog;
pub mod closing;
pub mod describing;
pub mod driving;
pub mod framing;
pub mod isolation;
pub mod polling;
pub mod progress;
pub mod reading;
pub mod reassembly;
pub mod rounds;
pub mod runs;
pub mod sending;
pub mod serving;
pub mod stopping;
pub mod transfers;
pub mod transporting;
pub mod validity;
pub mod values;
pub mod writing;
