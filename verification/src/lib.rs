//! A small terminal text editor core: a line-based document model with
//! tab-aware rendering, a byte-level escape-sequence key decoder, a stateful
//! syntax-highlighting scanner, viewport scrolling, an incremental search
//! controller, and a frame renderer.  Everything here is pure computation on
//! plain values; reading the terminal, the clock and the file system is left
//! to the surrounding program.

use vstd::prelude::*;

pub mod editor;
pub mod highlight;
pub mod keys;
pub mod render;
pub mod row;
pub mod search;
pub mod text;

verus! {

/// Version number shown in the welcome banner.
pub const RILO_VERSION: u16 = 1;

/// Tabs are expanded to the next multiple of this column width.
pub const RILO_TAB_STOP: usize = 8;

/// How many times Ctrl-Q must be pressed to quit with unsaved changes.
pub const RILO_QUIT_TIMES: u16 = 3;

} // verus!
