//! What the commands of the program decide and print.

pub mod epoch;
pub mod figures;
pub mod report;
pub mod request;
pub mod route;
pub mod session;
pub mod stats;
