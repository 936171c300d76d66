//! Editor settings for an `.editorconfig` file: the settings record, its
//! text codec, and the rules that turn questionnaire answers into settings.

pub mod answers;
pub mod codec;
pub mod number;
pub mod settings;
pub mod text;

pub use answers::answer;
pub use codec::{parse_settings, serialize_settings, Key, ParseError};
pub use settings::{default_settings, Charset, EndOfLine, IndentStyle, Settings};
