//! Turns a chat archive into (prompt, reply) training pairs for one author.
//!
//! Each channel or thread is a timeline of [`message::Message`]s, sorted by
//! [`order::sort_by_timestamp`]. For every non-empty message of the target
//! author, [`window::get_prompt`] walks back through the timeline and
//! gathers what others wrote just before it; [`dataset::collect_replies`]
//! gathers the pairs of all timelines. [`layout::channel_files`] decides
//! which files of the archive hold those timelines, and [`laws`] states
//! what holds of every prompt.

pub mod dataset;
pub mod laws;
pub mod layout;
pub mod message;
pub mod order;
pub mod window;
