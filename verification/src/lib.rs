//! Text handling, popup bookkeeping and window decisions of a desktop
//! notifier that pops up highlighted chat messages.

pub mod clipboard;
pub mod encoding;
pub mod html;
pub mod popup;
pub mod store;
pub mod strings;
pub mod text;
pub mod tray;
pub mod url;
pub mod window;

pub use html::escape_html;
pub use text::clean_text_for_copy;
pub use url::urlencoding_decode;
