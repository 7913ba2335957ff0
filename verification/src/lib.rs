//! The mail-intake cycle: list the pending messages of a mailbox, take the
//! attachments out of them, save each under a name that is not yet in use,
//! and only then have the messages deleted.

pub mod decimal;
pub mod uidset;
pub mod naming;
pub mod mail;
pub mod attachments;
pub mod cycle;
pub mod laws;
