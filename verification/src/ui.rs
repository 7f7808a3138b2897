//! The state of a running user interface.
//!
//! The user interface decides; it runs no code of the program. A driver
//! holds the delegates and the view trees. For what the platform reports it
//! asks the [`ui::Ui`] for the event to deliver, runs the delegates and the
//! views on it, and hands back what they answered as a [`request::Reply`].

pub mod request;
pub mod ui;
pub mod window;
