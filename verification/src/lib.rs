//! A markdown editor's document logic: text positions, editor highlighting,
//! formatting commands, the preview's render pass, themes and window state.
pub mod code;
pub mod editor;
pub mod format;
pub mod keys;
pub mod macos_open;
pub mod preview;
pub mod state;
pub mod text;
pub mod theme;

pub use text::char_to_byte;
pub use editor::{apply_action, heading_level, highlight, CharRange, Span, SpanKind};
pub use keys::{shortcut_action, Key, WindowAction};
pub use format::{command_action, line_prefix, wrap_selection, FormatAction, ToolbarCommand};
pub use macos_open::{enqueue_found, take_pending};
pub use preview::{render, render_events, Block, MdEvent, Run};
pub use state::ZenApp;
pub use theme::{Palette, Rgb, ThemeMode};
