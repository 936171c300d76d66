use vstd::prelude::*;
use crate::number::{
    decimal, int_text, lemma_decimal, lemma_parse_int_text, parse_int, parse_int_range, push_int,
};
use crate::settings::{
    bool_name, bool_named, bool_named_by, bool_str, default_settings, spec_default_settings,
    Charset, EndOfLine, IndentStyle, Settings,
};
use crate::settings::lemma_bool_name;
use crate::text::{
    chars_of, find_char, is_word, is_word_char, lemma_word_trim, range_is, trim, trim_range,
};

verus! {

/// A key of the file, one for each field of [`Settings`].
#[derive(Clone, Copy, Debug, PartialEq, Eq, Structural)]
pub enum Key {
    Root,
    EndOfLine,
    IndentSize,
    IndentStyle,
    TabWidth,
    Charset,
    TrimTrailingWhitespace,
    InsertFinalNewline,
    MaxLineLength,
}

/// Why a text could not be read as settings: a recognized key whose value
/// is not of its field's type.
#[derive(Clone, Copy, Debug, PartialEq, Eq, Structural)]
pub enum ParseError {
    /// The value of an integer field is not an `i32`.
    InvalidInteger(Key),
    /// The value of a boolean field is neither `true` nor `false`.
    InvalidBoolean(Key),
    /// The value of a field with a closed set of names is none of them.
    UnknownValue(Key),
}

impl Key {
    /// How the key is written in the file.
    pub open spec fn spec_name(self) -> Seq<char> {
        match self {
            Key::Root => "root"@,
            Key::EndOfLine => "end_of_line"@,
            Key::IndentSize => "indent_size"@,
            Key::IndentStyle => "indent_style"@,
            Key::TabWidth => "tab_width"@,
            Key::Charset => "charset"@,
            Key::TrimTrailingWhitespace => "trim_trailing_whitespace"@,
            Key::InsertFinalNewline => "insert_final_newline"@,
            Key::MaxLineLength => "max_line_length"@,
        }
    }

    /// The key that `t` names, if any.
    pub open spec fn spec_named(t: Seq<char>) -> Option<Key> {
        if t == "root"@ {
            Some(Key::Root)
        } else if t == "end_of_line"@ {
            Some(Key::EndOfLine)
        } else if t == "indent_size"@ {
            Some(Key::IndentSize)
        } else if t == "indent_style"@ {
            Some(Key::IndentStyle)
        } else if t == "tab_width"@ {
            Some(Key::TabWidth)
        } else if t == "charset"@ {
            Some(Key::Charset)
        } else if t == "trim_trailing_whitespace"@ {
            Some(Key::TrimTrailingWhitespace)
        } else if t == "insert_final_newline"@ {
            Some(Key::InsertFinalNewline)
        } else if t == "max_line_length"@ {
            Some(Key::MaxLineLength)
        } else {
            None
        }
    }

    pub fn name(&self) -> (r: &'static str)
        ensures
            r@ == self.spec_name(),
    {
        match self {
            Key::Root => "root",
            Key::EndOfLine => "end_of_line",
            Key::IndentSize => "indent_size",
            Key::IndentStyle => "indent_style",
            Key::TabWidth => "tab_width",
            Key::Charset => "charset",
            Key::TrimTrailingWhitespace => "trim_trailing_whitespace",
            Key::InsertFinalNewline => "insert_final_newline",
            Key::MaxLineLength => "max_line_length",
        }
    }

    /// The key that the range `[lo, hi)` of `v` names, if any.
    pub fn named_by(v: &Vec<char>, lo: usize, hi: usize) -> (r: Option<Key>)
        requires
            lo <= hi <= v@.len(),
        ensures
            r == Key::spec_named(v@.subrange(lo as int, hi as int)),
    {
        if range_is(v, lo, hi, "root") {
            Some(Key::Root)
        } else if range_is(v, lo, hi, "end_of_line") {
            Some(Key::EndOfLine)
        } else if range_is(v, lo, hi, "indent_size") {
            Some(Key::IndentSize)
        } else if range_is(v, lo, hi, "indent_style") {
            Some(Key::IndentStyle)
        } else if range_is(v, lo, hi, "tab_width") {
            Some(Key::TabWidth)
        } else if range_is(v, lo, hi, "charset") {
            Some(Key::Charset)
        } else if range_is(v, lo, hi, "trim_trailing_whitespace") {
            Some(Key::TrimTrailingWhitespace)
        } else if range_is(v, lo, hi, "insert_final_newline") {
            Some(Key::InsertFinalNewline)
        } else if range_is(v, lo, hi, "max_line_length") {
            Some(Key::MaxLineLength)
        } else {
            None
        }
    }

    /// Each key's name is a word that names that key.
    pub proof fn lemma_name(self)
        ensures
            is_word(self.spec_name()),
            Key::spec_named(self.spec_name()) == Some(self),
    {
        reveal_strlit("root");
        reveal_strlit("end_of_line");
        reveal_strlit("indent_size");
        reveal_strlit("indent_style");
        reveal_strlit("tab_width");
        reveal_strlit("charset");
        reveal_strlit("trim_trailing_whitespace");
        reveal_strlit("insert_final_newline");
        reveal_strlit("max_line_length");
        assert("end_of_line"@[0] != "indent_size"@[0]);
    }
}

/// `into` with the field of `k` taken from `from`.
pub open spec fn copy_field(into: Settings, from: Settings, k: Key) -> Settings {
    match k {
        Key::Root => Settings { root: from.root, ..into },
        Key::EndOfLine => Settings { end_of_line: from.end_of_line, ..into },
        Key::IndentSize => Settings { indent_size: from.indent_size, ..into },
        Key::IndentStyle => Settings { indent_style: from.indent_style, ..into },
        Key::TabWidth => Settings { tab_width: from.tab_width, ..into },
        Key::Charset => Settings { charset: from.charset, ..into },
        Key::TrimTrailingWhitespace => Settings {
            trim_trailing_whitespace: from.trim_trailing_whitespace,
            ..into
        },
        Key::InsertFinalNewline => Settings {
            insert_final_newline: from.insert_final_newline,
            ..into
        },
        Key::MaxLineLength => Settings { max_line_length: from.max_line_length, ..into },
    }
}

/// `s` with the field of `k` set to the value that `t` writes, or the error
/// that `t` is not of the field's type.
pub open spec fn set_field(s: Settings, k: Key, t: Seq<char>) -> Result<Settings, ParseError> {
    match k {
        Key::Root => match bool_named(t) {
            Some(b) => Ok(Settings { root: b, ..s }),
            None => Err(ParseError::InvalidBoolean(k)),
        },
        Key::EndOfLine => match EndOfLine::spec_named(t) {
            Some(e) => Ok(Settings { end_of_line: e, ..s }),
            None => Err(ParseError::UnknownValue(k)),
        },
        Key::IndentSize => match parse_int(t) {
            Some(n) => Ok(Settings { indent_size: n, ..s }),
            None => Err(ParseError::InvalidInteger(k)),
        },
        Key::IndentStyle => match IndentStyle::spec_named(t) {
            Some(e) => Ok(Settings { indent_style: e, ..s }),
            None => Err(ParseError::UnknownValue(k)),
        },
        Key::TabWidth => match parse_int(t) {
            Some(n) => Ok(Settings { tab_width: n, ..s }),
            None => Err(ParseError::InvalidInteger(k)),
        },
        Key::Charset => match Charset::spec_named(t) {
            Some(e) => Ok(Settings { charset: e, ..s }),
            None => Err(ParseError::UnknownValue(k)),
        },
        Key::TrimTrailingWhitespace => match bool_named(t) {
            Some(b) => Ok(Settings { trim_trailing_whitespace: b, ..s }),
            None => Err(ParseError::InvalidBoolean(k)),
        },
        Key::InsertFinalNewline => match bool_named(t) {
            Some(b) => Ok(Settings { insert_final_newline: b, ..s }),
            None => Err(ParseError::InvalidBoolean(k)),
        },
        Key::MaxLineLength => match parse_int(t) {
            Some(n) => Ok(Settings { max_line_length: n, ..s }),
            None => Err(ParseError::InvalidInteger(k)),
        },
    }
}

/// Sets the field of `k` in `s` to the value that the range `[lo, hi)` of
/// `v` writes.
pub fn set_field_from(s: Settings, k: Key, v: &Vec<char>, lo: usize, hi: usize) -> (r: Result<
    Settings,
    ParseError,
>)
    requires
        lo <= hi <= v@.len(),
    ensures
        r == set_field(s, k, v@.subrange(lo as int, hi as int)),
{
    match k {
        Key::Root => match bool_named_by(v, lo, hi) {
            Some(b) => Ok(Settings { root: b, ..s }),
            None => Err(ParseError::InvalidBoolean(k)),
        },
        Key::EndOfLine => match EndOfLine::named_by(v, lo, hi) {
            Some(e) => Ok(Settings { end_of_line: e, ..s }),
            None => Err(ParseError::UnknownValue(k)),
        },
        Key::IndentSize => match parse_int_range(v, lo, hi) {
            Some(n) => Ok(Settings { indent_size: n, ..s }),
            None => Err(ParseError::InvalidInteger(k)),
        },
        Key::IndentStyle => match IndentStyle::named_by(v, lo, hi) {
            Some(e) => Ok(Settings { indent_style: e, ..s }),
            None => Err(ParseError::UnknownValue(k)),
        },
        Key::TabWidth => match parse_int_range(v, lo, hi) {
            Some(n) => Ok(Settings { tab_width: n, ..s }),
            None => Err(ParseError::InvalidInteger(k)),
        },
        Key::Charset => match Charset::named_by(v, lo, hi) {
            Some(e) => Ok(Settings { charset: e, ..s }),
            None => Err(ParseError::UnknownValue(k)),
        },
        Key::TrimTrailingWhitespace => match bool_named_by(v, lo, hi) {
            Some(b) => Ok(Settings { trim_trailing_whitespace: b, ..s }),
            None => Err(ParseError::InvalidBoolean(k)),
        },
        Key::InsertFinalNewline => match bool_named_by(v, lo, hi) {
            Some(b) => Ok(Settings { insert_final_newline: b, ..s }),
            None => Err(ParseError::InvalidBoolean(k)),
        },
        Key::MaxLineLength => match parse_int_range(v, lo, hi) {
            Some(n) => Ok(Settings { max_line_length: n, ..s }),
            None => Err(ParseError::InvalidInteger(k)),
        },
    }
}

/// Index of the first `c` in `s`, or the length of `s` where there is none.
pub open spec fn first_index(s: Seq<char>, c: char) -> nat
    decreases s.len(),
{
    if s.len() == 0 || s[0] == c {
        0
    } else {
        1 + first_index(s.subrange(1, s.len() as int), c)
    }
}

/// The first `c` of `s` is at `i` where no `c` comes before `i` and `i` is
/// the end of `s` or holds a `c`.
pub proof fn lemma_first_index(s: Seq<char>, c: char, i: int)
    requires
        0 <= i <= s.len(),
        forall|k: int| 0 <= k < i ==> s[k] != c,
        i < s.len() ==> s[i] == c,
    ensures
        first_index(s, c) == i,
    decreases s.len(),
{
    if i > 0 {
        let t = s.subrange(1, s.len() as int);
        assert(forall|k: int| 0 <= k < i - 1 ==> t[k] == s[k + 1]);
        lemma_first_index(t, c, i - 1);
    }
}

/// The trimmed key and value of a line that holds exactly one `=`.
pub open spec fn key_value(line: Seq<char>) -> Option<(Seq<char>, Seq<char>)> {
    let i = first_index(line, '=');
    if i < line.len() && !line.subrange(i + 1 as int, line.len() as int).contains('=') {
        Some((trim(line.subrange(0, i as int)), trim(line.subrange(i + 1 as int, line.len() as int))))
    } else {
        None
    }
}

/// The key that a line sets, if it sets one.
pub open spec fn line_key(line: Seq<char>) -> Option<Key> {
    match key_value(line) {
        Some(kv) => Key::spec_named(kv.0),
        None => None,
    }
}

/// What one line does to the settings read so far: a line that sets a
/// recognized key sets its field, any other line leaves them as they are.
pub open spec fn apply_line(s: Settings, line: Seq<char>) -> Result<Settings, ParseError> {
    match key_value(line) {
        Some(kv) => match Key::spec_named(kv.0) {
            Some(k) => set_field(s, k, kv.1),
            None => Ok(s),
        },
        None => Ok(s),
    }
}

/// The settings that the lines of `text` make of `s`, one line after the
/// other, or the error of the first line that fails.
pub open spec fn parse_lines(s: Settings, text: Seq<char>) -> Result<Settings, ParseError>
    decreases text.len(),
{
    let i = first_index(text, '\n');
    match apply_line(s, text.subrange(0, i as int)) {
        Err(e) => Err(e),
        Ok(t) => if i < text.len() {
            parse_lines(t, text.subrange(i + 1 as int, text.len() as int))
        } else {
            Ok(t)
        },
    }
}

/// The settings that a text gives: the defaults, changed by each line.
pub open spec fn spec_parse(text: Seq<char>) -> Result<Settings, ParseError> {
    parse_lines(spec_default_settings(), text)
}

/// Applies the line at `[lo, hi)` of `v` to `s`.
fn apply_line_at(s: Settings, v: &Vec<char>, lo: usize, hi: usize) -> (r: Result<
    Settings,
    ParseError,
>)
    requires
        lo <= hi <= v@.len(),
    ensures
        r == apply_line(s, v@.subrange(lo as int, hi as int)),
{
    let ghost line = v@.subrange(lo as int, hi as int);
    let e = find_char(v, lo, hi, '=');
    proof {
        lemma_first_index(line, '=', e - lo);
    }
    if e == hi {
        return Ok(s);
    }
    let e2 = find_char(v, e + 1, hi, '=');
    let ghost rest = line.subrange(e - lo + 1, line.len() as int);
    assert(rest =~= v@.subrange(e + 1, hi as int));
    assert(line.subrange(0, e - lo) =~= v@.subrange(lo as int, e as int));
    if e2 < hi {
        assert(rest[e2 - e - 1] == '=');
        return Ok(s);
    }
    assert(!rest.contains('='));
    let (ka, kb) = trim_range(v, lo, e);
    let (va, vb) = trim_range(v, e + 1, hi);
    match Key::named_by(v, ka, kb) {
        Some(k) => set_field_from(s, k, v, va, vb),
        None => Ok(s),
    }
}

/// Reads settings from the text of a configuration file.
///
/// Reading starts from the default settings. Each line (the text split at
/// `\n`) that holds exactly one `=` has a key before it and a value after it,
/// both trimmed of white space; where the key is one of [`Key`]'s names, the
/// value is read into that field. Other lines, and lines with other keys,
/// change nothing. The first value that is not of its field's type ends the
/// reading with an error.
pub fn parse_settings(text: String) -> (r: Result<Settings, ParseError>)
    ensures
        r == spec_parse(text@),
{
    let v = chars_of(text.as_str());
    let n = v.len();
    let mut acc = default_settings();
    let mut pos: usize = 0;
    assert(v@.subrange(0, n as int) =~= v@);
    loop
        invariant
            pos <= n,
            n == v@.len(),
            v@ == text@,
            spec_parse(text@) == parse_lines(acc, v@.subrange(pos as int, n as int)),
        decreases n - pos,
    {
        let j = find_char(&v, pos, n, '\n');
        let ghost rest = v@.subrange(pos as int, n as int);
        proof {
            lemma_first_index(rest, '\n', j - pos);
        }
        assert(rest.subrange(0, j - pos) =~= v@.subrange(pos as int, j as int));
        match apply_line_at(acc, &v, pos, j) {
            Err(e) => {
                return Err(e);
            },
            Ok(t) => {
                acc = t;
            },
        }
        if j == n {
            return Ok(acc);
        }
        assert(rest.subrange(j - pos + 1, rest.len() as int) =~= v@.subrange(j + 1, n as int));
        pos = j + 1;
    }
}

/// How the value of the field of `k` in `s` is written.
pub open spec fn field_text(s: Settings, k: Key) -> Seq<char> {
    match k {
        Key::Root => bool_name(s.root),
        Key::EndOfLine => s.end_of_line.spec_name(),
        Key::IndentSize => int_text(s.indent_size as int),
        Key::IndentStyle => s.indent_style.spec_name(),
        Key::TabWidth => int_text(s.tab_width as int),
        Key::Charset => s.charset.spec_name(),
        Key::TrimTrailingWhitespace => bool_name(s.trim_trailing_whitespace),
        Key::InsertFinalNewline => bool_name(s.insert_final_newline),
        Key::MaxLineLength => int_text(s.max_line_length as int),
    }
}

/// The line `<key> = <value>` for the field of `k` in `s`.
pub open spec fn entry_line(s: Settings, k: Key) -> Seq<char> {
    k.spec_name() + " = "@ + field_text(s, k)
}

/// The line `l`, a line break, then `rest`.
pub open spec fn line_then(l: Seq<char>, rest: Seq<char>) -> Seq<char> {
    l + seq!['\n'] + rest
}

/// The text of a configuration file: the `root` line, a blank line, the
/// `[*]` section header, then one line for each other field, joined by `\n`
/// with no line break at the end.
pub open spec fn spec_serialize(s: Settings) -> Seq<char> {
    line_then(
        entry_line(s, Key::Root),
        line_then(
            Seq::empty(),
            line_then(
                "[*]"@,
                line_then(
                    entry_line(s, Key::EndOfLine),
                    line_then(
                        entry_line(s, Key::IndentSize),
                        line_then(
                            entry_line(s, Key::IndentStyle),
                            line_then(
                                entry_line(s, Key::TabWidth),
                                line_then(
                                    entry_line(s, Key::Charset),
                                    line_then(
                                        entry_line(s, Key::TrimTrailingWhitespace),
                                        line_then(
                                            entry_line(s, Key::InsertFinalNewline),
                                            entry_line(s, Key::MaxLineLength),
                                        ),
                                    ),
                                ),
                            ),
                        ),
                    ),
                ),
            ),
        ),
    )
}

/// Appends the line of the field of `k` in `s` to `out`.
fn push_entry(out: &mut String, s: &Settings, k: Key)
    ensures
        final(out)@ == old(out)@ + entry_line(*s, k),
{
    out.append(k.name());
    out.append(" = ");
    match k {
        Key::Root => out.append(bool_str(s.root)),
        Key::EndOfLine => out.append(s.end_of_line.name()),
        Key::IndentSize => push_int(out, s.indent_size),
        Key::IndentStyle => out.append(s.indent_style.name()),
        Key::TabWidth => push_int(out, s.tab_width),
        Key::Charset => out.append(s.charset.name()),
        Key::TrimTrailingWhitespace => out.append(bool_str(s.trim_trailing_whitespace)),
        Key::InsertFinalNewline => out.append(bool_str(s.insert_final_newline)),
        Key::MaxLineLength => push_int(out, s.max_line_length),
    }
    assert(final(out)@ =~= old(out)@ + entry_line(*s, k));
}

/// Appends a line break and the line of the field of `k` in `s` to `out`.
fn push_next_entry(out: &mut String, s: &Settings, k: Key)
    ensures
        final(out)@ == old(out)@ + seq!['\n'] + entry_line(*s, k),
{
    proof {
        reveal_strlit("\n");
    }
    out.append("\n");
    assert(out@ =~= old(out)@ + seq!['\n']);
    push_entry(out, s, k);
}

/// Moving the line `e` from the front of the rest to the end of the text
/// written so far leaves the whole text as it is.
proof fn lemma_join_step(p: Seq<char>, e: Seq<char>, t: Seq<char>)
    ensures
        p + seq!['\n'] + line_then(e, t) == (p + seq!['\n'] + e) + seq!['\n'] + t,
{
    assert(p + seq!['\n'] + line_then(e, t) =~= (p + seq!['\n'] + e) + seq!['\n'] + t);
}

/// Writes settings as the text of a configuration file:
///
/// ```text
/// root = <bool>
///
/// [*]
/// end_of_line = <value>
/// indent_size = <value>
/// indent_style = <value>
/// tab_width = <value>
/// charset = <value>
/// trim_trailing_whitespace = <bool>
/// insert_final_newline = <bool>
/// max_line_length = <value>
/// ```
///
/// with no line break after the last line.
pub fn serialize_settings(settings: &Settings) -> (r: String)
    ensures
        r@ == spec_serialize(*settings),
{
    let ghost s = *settings;
    let ghost r9 = entry_line(s, Key::MaxLineLength);
    let ghost r8 = line_then(entry_line(s, Key::InsertFinalNewline), r9);
    let ghost r7 = line_then(entry_line(s, Key::TrimTrailingWhitespace), r8);
    let ghost r6 = line_then(entry_line(s, Key::Charset), r7);
    let ghost r5 = line_then(entry_line(s, Key::TabWidth), r6);
    let ghost r4 = line_then(entry_line(s, Key::IndentStyle), r5);
    let ghost r3 = line_then(entry_line(s, Key::IndentSize), r4);
    let ghost r2 = line_then(entry_line(s, Key::EndOfLine), r3);
    let mut out = String::new();
    push_entry(&mut out, settings, Key::Root);
    let ghost a = out@;
    proof {
        reveal_strlit("\n");
        reveal_strlit("[*]");
    }
    out.append("\n");
    out.append("\n");
    out.append("[*]");
    assert(out@ =~= a + seq!['\n'] + (Seq::<char>::empty() + seq!['\n'] + "[*]"@));
    proof {
        lemma_join_step(Seq::<char>::empty(), "[*]"@, r2);
        lemma_join_step(a, Seq::<char>::empty() + seq!['\n'] + "[*]"@, r2);
        lemma_join_step(a, Seq::<char>::empty(), line_then("[*]"@, r2));
        assert(spec_serialize(s) == out@ + seq!['\n'] + r2);
        lemma_join_step(out@, entry_line(s, Key::EndOfLine), r3);
    }
    push_next_entry(&mut out, settings, Key::EndOfLine);
    proof {
        lemma_join_step(out@, entry_line(s, Key::IndentSize), r4);
    }
    push_next_entry(&mut out, settings, Key::IndentSize);
    proof {
        lemma_join_step(out@, entry_line(s, Key::IndentStyle), r5);
    }
    push_next_entry(&mut out, settings, Key::IndentStyle);
    proof {
        lemma_join_step(out@, entry_line(s, Key::TabWidth), r6);
    }
    push_next_entry(&mut out, settings, Key::TabWidth);
    proof {
        lemma_join_step(out@, entry_line(s, Key::Charset), r7);
    }
    push_next_entry(&mut out, settings, Key::Charset);
    proof {
        lemma_join_step(out@, entry_line(s, Key::TrimTrailingWhitespace), r8);
    }
    push_next_entry(&mut out, settings, Key::TrimTrailingWhitespace);
    proof {
        lemma_join_step(out@, entry_line(s, Key::InsertFinalNewline), r9);
    }
    push_next_entry(&mut out, settings, Key::InsertFinalNewline);
    push_next_entry(&mut out, settings, Key::MaxLineLength);
    out
}

/// How an `i32` is written is a word.
proof fn lemma_int_text_word(n: i32)
    ensures
        is_word(int_text(n as int)),
{
    if n < 0 {
        let d = decimal((-n) as nat);
        lemma_decimal((-n) as nat);
        let t = int_text(n as int);
        assert forall|i: int| 0 <= i < t.len() implies is_word_char(#[trigger] t[i]) by {
            if i > 0 {
                assert(t[i] == d[i - 1]);
            }
        }
    } else {
        lemma_decimal(n as nat);
    }
}

/// The written value of a field is a word, and reading it back into any
/// settings sets that field to it.
proof fn lemma_field_text(acc: Settings, s: Settings, k: Key)
    ensures
        is_word(field_text(s, k)),
        set_field(acc, k, field_text(s, k)) == Ok::<Settings, ParseError>(copy_field(acc, s, k)),
{
    match k {
        Key::Root => lemma_bool_name(s.root),
        Key::EndOfLine => s.end_of_line.lemma_name(),
        Key::IndentSize => {
            lemma_int_text_word(s.indent_size);
            lemma_parse_int_text(s.indent_size);
        },
        Key::IndentStyle => s.indent_style.lemma_name(),
        Key::TabWidth => {
            lemma_int_text_word(s.tab_width);
            lemma_parse_int_text(s.tab_width);
        },
        Key::Charset => s.charset.lemma_name(),
        Key::TrimTrailingWhitespace => lemma_bool_name(s.trim_trailing_whitespace),
        Key::InsertFinalNewline => lemma_bool_name(s.insert_final_newline),
        Key::MaxLineLength => {
            lemma_int_text_word(s.max_line_length);
            lemma_parse_int_text(s.max_line_length);
        },
    }
}

/// The line of a field holds no line break, and applying it sets that field.
proof fn lemma_entry_line(acc: Settings, s: Settings, k: Key)
    ensures
        !entry_line(s, k).contains('\n'),
        apply_line(acc, entry_line(s, k)) == Ok::<Settings, ParseError>(copy_field(acc, s, k)),
{
    reveal_strlit(" = ");
    let name = k.spec_name();
    let val = field_text(s, k);
    k.lemma_name();
    lemma_field_text(acc, s, k);
    lemma_word_trim(name);
    lemma_word_trim(val);
    let line = entry_line(s, k);
    let i = name.len() as int + 1;
    assert forall|j: int| 0 <= j < i implies line[j] != '=' by {
        if j < name.len() {
            assert(line[j] == name[j]);
        }
    }
    lemma_first_index(line, '=', i);
    assert(line.subrange(0, i) =~= name + seq![' ']);
    assert(line.subrange(i + 1, line.len() as int) =~= seq![' '] + val);
    assert(!(seq![' '] + val).contains('=')) by {
        if (seq![' '] + val).contains('=') {
            let j = choose|j: int| 0 <= j < val.len() + 1 && (seq![' '] + val)[j] == '=';
            assert(val[j - 1] == '=');
        }
    }
    assert(!line.contains('\n')) by {
        if line.contains('\n') {
            let j = choose|j: int| 0 <= j < line.len() && line[j] == '\n';
            if j < name.len() {
                assert(name[j] == '\n');
            } else if j >= i + 2 {
                assert(val[j - i - 2] == '\n');
            }
        }
    }
}

/// A line without `=` changes nothing.
proof fn lemma_plain_line(acc: Settings, l: Seq<char>)
    requires
        !l.contains('='),
    ensures
        apply_line(acc, l) == Ok::<Settings, ParseError>(acc),
{
    lemma_first_index(l, '=', l.len() as int);
}

/// Reading `l`, a line break and `rest` reads `l`, then `rest`.
proof fn lemma_parse_line_then(acc: Settings, l: Seq<char>, rest: Seq<char>)
    requires
        !l.contains('\n'),
    ensures
        parse_lines(acc, line_then(l, rest)) == match apply_line(acc, l) {
            Err(e) => Err(e),
            Ok(t) => parse_lines(t, rest),
        },
{
    let text = line_then(l, rest);
    lemma_first_index(text, '\n', l.len() as int);
    assert(text.subrange(0, l.len() as int) =~= l);
    assert(text.subrange(l.len() + 1 as int, text.len() as int) =~= rest);
}

/// Reading a field's line, a line break and `rest` sets that field, then
/// reads `rest`.
proof fn lemma_parse_entry_then(acc: Settings, s: Settings, k: Key, rest: Seq<char>)
    ensures
        parse_lines(acc, line_then(entry_line(s, k), rest)) == parse_lines(
            copy_field(acc, s, k),
            rest,
        ),
{
    lemma_entry_line(acc, s, k);
    lemma_parse_line_then(acc, entry_line(s, k), rest);
}

/// Reading back the text that settings are written as gives those settings.
pub proof fn lemma_round_trip(s: Settings)
    ensures
        spec_parse(spec_serialize(s)) == Ok::<Settings, ParseError>(s),
{
    reveal_strlit("[*]");
    let r9 = entry_line(s, Key::MaxLineLength);
    let r8 = line_then(entry_line(s, Key::InsertFinalNewline), r9);
    let r7 = line_then(entry_line(s, Key::TrimTrailingWhitespace), r8);
    let r6 = line_then(entry_line(s, Key::Charset), r7);
    let r5 = line_then(entry_line(s, Key::TabWidth), r6);
    let r4 = line_then(entry_line(s, Key::IndentStyle), r5);
    let r3 = line_then(entry_line(s, Key::IndentSize), r4);
    let r2 = line_then(entry_line(s, Key::EndOfLine), r3);
    let r1 = line_then("[*]"@, r2);
    let r0 = line_then(Seq::empty(), r1);
    let a0 = spec_default_settings();
    let a1 = copy_field(a0, s, Key::Root);
    lemma_parse_entry_then(a0, s, Key::Root, r0);
    assert(!Seq::<char>::empty().contains('\n'));
    lemma_plain_line(a1, Seq::empty());
    lemma_parse_line_then(a1, Seq::empty(), r1);
    assert(!"[*]"@.contains('\n') && !"[*]"@.contains('=')) by {
        if "[*]"@.contains('\n') || "[*]"@.contains('=') {
            let j = choose|j: int| 0 <= j < 3 && ("[*]"@[j] == '\n' || "[*]"@[j] == '=');
            assert(j == 0 || j == 1 || j == 2);
        }
    }
    lemma_plain_line(a1, "[*]"@);
    lemma_parse_line_then(a1, "[*]"@, r2);
    let a2 = copy_field(a1, s, Key::EndOfLine);
    lemma_parse_entry_then(a1, s, Key::EndOfLine, r3);
    let a3 = copy_field(a2, s, Key::IndentSize);
    lemma_parse_entry_then(a2, s, Key::IndentSize, r4);
    let a4 = copy_field(a3, s, Key::IndentStyle);
    lemma_parse_entry_then(a3, s, Key::IndentStyle, r5);
    let a5 = copy_field(a4, s, Key::TabWidth);
    lemma_parse_entry_then(a4, s, Key::TabWidth, r6);
    let a6 = copy_field(a5, s, Key::Charset);
    lemma_parse_entry_then(a5, s, Key::Charset, r7);
    let a7 = copy_field(a6, s, Key::TrimTrailingWhitespace);
    lemma_parse_entry_then(a6, s, Key::TrimTrailingWhitespace, r8);
    let a8 = copy_field(a7, s, Key::InsertFinalNewline);
    lemma_parse_entry_then(a7, s, Key::InsertFinalNewline, r9);
    let a9 = copy_field(a8, s, Key::MaxLineLength);
    lemma_entry_line(a8, s, Key::MaxLineLength);
    lemma_first_index(r9, '\n', r9.len() as int);
    assert(r9.subrange(0, r9.len() as int) =~= r9);
    assert(a9 == s);
}

/// Whether no line of `text` sets a recognized key.
pub open spec fn sets_no_key(text: Seq<char>) -> bool
    decreases text.len(),
{
    let i = first_index(text, '\n');
    line_key(text.subrange(0, i as int)) is None && (i < text.len() ==> sets_no_key(
        text.subrange(i + 1 as int, text.len() as int),
    ))
}

/// Reading a text in which no line sets a recognized key changes nothing.
proof fn lemma_parse_no_keys(acc: Settings, text: Seq<char>)
    requires
        sets_no_key(text),
    ensures
        parse_lines(acc, text) == Ok::<Settings, ParseError>(acc),
    decreases text.len(),
{
    let i = first_index(text, '\n');
    if i < text.len() {
        lemma_parse_no_keys(acc, text.subrange(i + 1 as int, text.len() as int));
    }
}

/// A text in which no line sets a recognized key, the empty text among them,
/// reads as the default settings.
pub proof fn lemma_default_merge(text: Seq<char>)
    requires
        sets_no_key(text),
    ensures
        spec_parse(text) == Ok::<Settings, ParseError>(spec_default_settings()),
        spec_parse(Seq::empty()) == Ok::<Settings, ParseError>(spec_default_settings()),
{
    lemma_parse_no_keys(spec_default_settings(), text);
    lemma_parse_no_keys(spec_default_settings(), Seq::empty());
}

/// `into` with the field of `k` taken from `from`.
pub fn copy_field_from(into: Settings, from: &Settings, k: Key) -> (r: Settings)
    ensures
        r == copy_field(into, *from, k),
{
    match k {
        Key::Root => Settings { root: from.root, ..into },
        Key::EndOfLine => Settings { end_of_line: from.end_of_line, ..into },
        Key::IndentSize => Settings { indent_size: from.indent_size, ..into },
        Key::IndentStyle => Settings { indent_style: from.indent_style, ..into },
        Key::TabWidth => Settings { tab_width: from.tab_width, ..into },
        Key::Charset => Settings { charset: from.charset, ..into },
        Key::TrimTrailingWhitespace => Settings {
            trim_trailing_whitespace: from.trim_trailing_whitespace,
            ..into
        },
        Key::InsertFinalNewline => Settings {
            insert_final_newline: from.insert_final_newline,
            ..into
        },
        Key::MaxLineLength => Settings { max_line_length: from.max_line_length, ..into },
    }
}

} // verus!
