//! The editing core of a modal, multi-selection text editor: a text buffer
//! held in a rope, coordinate transforms between character offsets and
//! line/column positions, selections that stay consistent under edits, and a
//! per-buffer undo history.

pub mod action;
pub mod buffer;
pub mod history;
pub mod idx;
pub mod key;
pub mod mode;
pub mod position;
pub mod range;
pub mod render;
pub mod selection;
pub mod state;
pub mod text;
pub mod util;

pub use self::idx::Idx;
pub use self::key::{Key, NaturalyOrderedKey};
pub use self::mode::Mode;
pub use self::position::Position;
pub use self::state::State;
