//! The core of a calendar chat bot: a store of events kept in time order, the
//! cursor that turns long-poll batches into one stream of updates, and the
//! parsing of the commands that users send.

pub mod cal;
pub mod clock;
pub mod command;
pub mod order;
pub mod tg;
