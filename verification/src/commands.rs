//! What the commands of the program decide, apart from reading and
//! printing.

pub mod ask;
pub mod run;
pub mod show;
pub mod tell;
