use vstd::prelude::*;
use crate::text::{is_word, range_is};

verus! {

/// Line-terminator convention.
#[derive(Clone, Copy, Debug, PartialEq, Eq, Structural)]
pub enum EndOfLine {
    Lf,
    Crlf,
    Cr,
}

/// Whether indentation is made of spaces or of tab characters.
#[derive(Clone, Copy, Debug, PartialEq, Eq, Structural)]
pub enum IndentStyle {
    Space,
    Tabs,
}

/// Character encoding of the files.
#[derive(Clone, Copy, Debug, PartialEq, Eq, Structural)]
pub enum Charset {
    Utf8,
    Utf8Bom,
    Utf16Be,
    Utf16Le,
    Latin1,
}

/// The formatting conventions written to an `.editorconfig` file.
///
/// Every field holds a value of its own closed domain, so every value of this
/// type is a valid settings record.
#[derive(Clone, Copy, Debug, PartialEq, Eq, Structural)]
pub struct Settings {
    pub end_of_line: EndOfLine,
    pub indent_size: i32,
    pub indent_style: IndentStyle,
    pub tab_width: i32,
    pub charset: Charset,
    pub root: bool,
    pub trim_trailing_whitespace: bool,
    pub insert_final_newline: bool,
    pub max_line_length: i32,
}

/// The settings that hold where nothing else was chosen.
pub open spec fn spec_default_settings() -> Settings {
    Settings {
        end_of_line: EndOfLine::Lf,
        indent_size: 4,
        indent_style: IndentStyle::Space,
        tab_width: 4,
        charset: Charset::Utf8,
        root: true,
        trim_trailing_whitespace: true,
        insert_final_newline: true,
        max_line_length: 80,
    }
}

/// Returns the default settings: `lf` line endings, indentation by four
/// spaces, tab width 4, `utf-8`, a root file that trims trailing whitespace
/// and ends in a newline, and lines of at most 80 characters.
pub fn default_settings() -> (r: Settings)
    ensures
        r == spec_default_settings(),
{
    Settings {
        end_of_line: EndOfLine::Lf,
        indent_size: 4,
        indent_style: IndentStyle::Space,
        tab_width: 4,
        charset: Charset::Utf8,
        root: true,
        trim_trailing_whitespace: true,
        insert_final_newline: true,
        max_line_length: 80,
    }
}

impl EndOfLine {
    /// How the value is written: `lf`, `crlf` or `cr`.
    pub open spec fn spec_name(self) -> Seq<char> {
        match self {
            EndOfLine::Lf => "lf"@,
            EndOfLine::Crlf => "crlf"@,
            EndOfLine::Cr => "cr"@,
        }
    }

    /// The value that `t` names, if any.
    pub open spec fn spec_named(t: Seq<char>) -> Option<EndOfLine> {
        if t == "lf"@ {
            Some(EndOfLine::Lf)
        } else if t == "crlf"@ {
            Some(EndOfLine::Crlf)
        } else if t == "cr"@ {
            Some(EndOfLine::Cr)
        } else {
            None
        }
    }

    pub fn name(&self) -> (r: &'static str)
        ensures
            r@ == self.spec_name(),
    {
        match self {
            EndOfLine::Lf => "lf",
            EndOfLine::Crlf => "crlf",
            EndOfLine::Cr => "cr",
        }
    }

    /// The value that the range `[lo, hi)` of `v` names, if any.
    pub fn named_by(v: &Vec<char>, lo: usize, hi: usize) -> (r: Option<EndOfLine>)
        requires
            lo <= hi <= v@.len(),
        ensures
            r == EndOfLine::spec_named(v@.subrange(lo as int, hi as int)),
    {
        if range_is(v, lo, hi, "lf") {
            Some(EndOfLine::Lf)
        } else if range_is(v, lo, hi, "crlf") {
            Some(EndOfLine::Crlf)
        } else if range_is(v, lo, hi, "cr") {
            Some(EndOfLine::Cr)
        } else {
            None
        }
    }

    /// Each value's name is a word that names that value.
    pub proof fn lemma_name(self)
        ensures
            is_word(self.spec_name()),
            EndOfLine::spec_named(self.spec_name()) == Some(self),
    {
        reveal_strlit("lf");
        reveal_strlit("crlf");
        reveal_strlit("cr");
        assert("lf"@[1] != "cr"@[1]);
    }
}

impl IndentStyle {
    /// How the value is written: `space` or `tabs`.
    pub open spec fn spec_name(self) -> Seq<char> {
        match self {
            IndentStyle::Space => "space"@,
            IndentStyle::Tabs => "tabs"@,
        }
    }

    /// The value that `t` names, if any.
    pub open spec fn spec_named(t: Seq<char>) -> Option<IndentStyle> {
        if t == "space"@ {
            Some(IndentStyle::Space)
        } else if t == "tabs"@ {
            Some(IndentStyle::Tabs)
        } else {
            None
        }
    }

    pub fn name(&self) -> (r: &'static str)
        ensures
            r@ == self.spec_name(),
    {
        match self {
            IndentStyle::Space => "space",
            IndentStyle::Tabs => "tabs",
        }
    }

    /// The value that the range `[lo, hi)` of `v` names, if any.
    pub fn named_by(v: &Vec<char>, lo: usize, hi: usize) -> (r: Option<IndentStyle>)
        requires
            lo <= hi <= v@.len(),
        ensures
            r == IndentStyle::spec_named(v@.subrange(lo as int, hi as int)),
    {
        if range_is(v, lo, hi, "space") {
            Some(IndentStyle::Space)
        } else if range_is(v, lo, hi, "tabs") {
            Some(IndentStyle::Tabs)
        } else {
            None
        }
    }

    /// Each value's name is a word that names that value.
    pub proof fn lemma_name(self)
        ensures
            is_word(self.spec_name()),
            IndentStyle::spec_named(self.spec_name()) == Some(self),
    {
        reveal_strlit("space");
        reveal_strlit("tabs");
        assert("space"@.len() != "tabs"@.len());
    }
}

impl Charset {
    /// How the value is written: `utf-8`, `utf-8-bom`, `utf-16be`,
    /// `utf-16le` or `latin1`.
    pub open spec fn spec_name(self) -> Seq<char> {
        match self {
            Charset::Utf8 => "utf-8"@,
            Charset::Utf8Bom => "utf-8-bom"@,
            Charset::Utf16Be => "utf-16be"@,
            Charset::Utf16Le => "utf-16le"@,
            Charset::Latin1 => "latin1"@,
        }
    }

    /// The value that `t` names, if any.
    pub open spec fn spec_named(t: Seq<char>) -> Option<Charset> {
        if t == "utf-8"@ {
            Some(Charset::Utf8)
        } else if t == "utf-8-bom"@ {
            Some(Charset::Utf8Bom)
        } else if t == "utf-16be"@ {
            Some(Charset::Utf16Be)
        } else if t == "utf-16le"@ {
            Some(Charset::Utf16Le)
        } else if t == "latin1"@ {
            Some(Charset::Latin1)
        } else {
            None
        }
    }

    pub fn name(&self) -> (r: &'static str)
        ensures
            r@ == self.spec_name(),
    {
        match self {
            Charset::Utf8 => "utf-8",
            Charset::Utf8Bom => "utf-8-bom",
            Charset::Utf16Be => "utf-16be",
            Charset::Utf16Le => "utf-16le",
            Charset::Latin1 => "latin1",
        }
    }

    /// The value that the range `[lo, hi)` of `v` names, if any.
    pub fn named_by(v: &Vec<char>, lo: usize, hi: usize) -> (r: Option<Charset>)
        requires
            lo <= hi <= v@.len(),
        ensures
            r == Charset::spec_named(v@.subrange(lo as int, hi as int)),
    {
        if range_is(v, lo, hi, "utf-8") {
            Some(Charset::Utf8)
        } else if range_is(v, lo, hi, "utf-8-bom") {
            Some(Charset::Utf8Bom)
        } else if range_is(v, lo, hi, "utf-16be") {
            Some(Charset::Utf16Be)
        } else if range_is(v, lo, hi, "utf-16le") {
            Some(Charset::Utf16Le)
        } else if range_is(v, lo, hi, "latin1") {
            Some(Charset::Latin1)
        } else {
            None
        }
    }

    /// Each value's name is a word that names that value.
    pub proof fn lemma_name(self)
        ensures
            is_word(self.spec_name()),
            Charset::spec_named(self.spec_name()) == Some(self),
    {
        reveal_strlit("utf-8");
        reveal_strlit("utf-8-bom");
        reveal_strlit("utf-16be");
        reveal_strlit("utf-16le");
        reveal_strlit("latin1");
        assert("utf-16be"@[6] != "utf-16le"@[6]);
    }
}

/// How a boolean is written: `true` or `false`.
pub open spec fn bool_name(b: bool) -> Seq<char> {
    if b {
        "true"@
    } else {
        "false"@
    }
}

/// The boolean that `t` names, as `str::parse::<bool>` reads it.
pub open spec fn bool_named(t: Seq<char>) -> Option<bool> {
    if t == "true"@ {
        Some(true)
    } else if t == "false"@ {
        Some(false)
    } else {
        None
    }
}

pub fn bool_str(b: bool) -> (r: &'static str)
    ensures
        r@ == bool_name(b),
{
    if b {
        "true"
    } else {
        "false"
    }
}

/// The boolean that the range `[lo, hi)` of `v` names, if any.
pub fn bool_named_by(v: &Vec<char>, lo: usize, hi: usize) -> (r: Option<bool>)
    requires
        lo <= hi <= v@.len(),
    ensures
        r == bool_named(v@.subrange(lo as int, hi as int)),
{
    if range_is(v, lo, hi, "true") {
        Some(true)
    } else if range_is(v, lo, hi, "false") {
        Some(false)
    } else {
        None
    }
}

/// Each boolean's name is a word that names that boolean.
pub proof fn lemma_bool_name(b: bool)
    ensures
        is_word(bool_name(b)),
        bool_named(bool_name(b)) == Some(b),
{
    reveal_strlit("true");
    reveal_strlit("false");
    assert("true"@.len() != "false"@.len());
}

} // verus!
