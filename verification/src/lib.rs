//! A file-style linter: checks a byte stream against per-project formatting
//! rules (indent style and size, end-of-line convention, character set,
//! trailing whitespace) and reports each violation with its line and column
//! range.

pub mod check;
pub mod config;
pub mod lemmas;
pub mod reader;

pub use check::Diagnosis;
pub use check::Reason;
pub use config::Charset;
pub use config::Config;
pub use config::IndentStyle;
pub use config::LineEnding;
