//! What the node owes the people who use it, said of what it stores and of
//! what it answers.
//!
//! Each of these speaks of the address book, the mailboxes and the fields of
//! what is read or written, whatever the steps are by which they come about.

pub mod addressing;
pub mod calling;
pub mod company;
pub mod files;
pub mod pages;
pub mod reading;
pub mod showing;
pub mod words;
pub mod writing;
