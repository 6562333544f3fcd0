//! The rules of a download manager: what the queue does with each request and
//! event, how a file is cut into segments and put together again, how the
//! programs and servers it talks to are addressed and understood.

use vstd::prelude::*;

pub mod api;
pub mod api_laws;
pub mod browser;
pub mod browser_laws;
pub mod config;
pub mod downloader;
pub mod filename;
pub mod icon;
pub mod name_laws;
pub mod number;
pub mod paths;
pub mod platform;
pub mod queue;
pub mod queue_change_laws;
pub mod queue_laws;
pub mod screen;
pub mod screen_laws;
pub mod text;
pub mod text_laws;
pub mod transfer;
pub mod transfer_laws;
pub mod types;
pub mod ytdlp;
pub mod ytdlp_laws;

verus! {

} // verus!
