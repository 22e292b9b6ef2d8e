//! The log plugin: `log.debug`, `log.info`, `log.warn` and `log.error` print
//! the message that they are given.
pub mod base;
