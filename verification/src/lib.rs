//! Utilities for downloading media attachments from an imageboard thread:
//! parsing a thread URL into board and thread id, scanning raw page markup
//! for media links, and assembling per-link download outcomes.

pub mod errors;
pub mod extract;
pub mod pipeline;
pub mod segments;
pub mod thread_info;

use vstd::prelude::*;

verus! {

pub use crate::errors::DownloadError;
pub use crate::extract::MediaLink;
pub use crate::extract::get_image_links;
pub use crate::pipeline::DownloadOutcome;
pub use crate::pipeline::collect_outcomes;
pub use crate::pipeline::destination_path;
pub use crate::pipeline::https_url;
pub use crate::pipeline::unique_links;
pub use crate::thread_info::ThreadRef;
pub use crate::thread_info::get_thread_infos;

} // verus!
