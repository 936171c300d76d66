use add_editorconfig::{
    answer, default_settings, parse_settings, serialize_settings, Charset, EndOfLine,
    IndentStyle, Key, ParseError, Settings,
};

const DEFAULT_TEXT: &str = "root = true\n\n[*]\nend_of_line = lf\nindent_size = 4\nindent_style = space\ntab_width = 4\ncharset = utf-8\ntrim_trailing_whitespace = true\ninsert_final_newline = true\nmax_line_length = 80";

fn other_settings() -> Settings {
    Settings {
        end_of_line: EndOfLine::Crlf,
        indent_size: -3,
        indent_style: IndentStyle::Tabs,
        tab_width: 0,
        charset: Charset::Utf16Le,
        root: false,
        trim_trailing_whitespace: false,
        insert_final_newline: false,
        max_line_length: i32::MIN,
    }
}

fn parse(text: &str) -> Result<Settings, ParseError> {
    parse_settings(String::from(text))
}

#[test]
fn default_values() {
    let s = default_settings();
    assert_eq!(s.end_of_line, EndOfLine::Lf);
    assert_eq!(s.indent_size, 4);
    assert_eq!(s.indent_style, IndentStyle::Space);
    assert_eq!(s.tab_width, 4);
    assert_eq!(s.charset, Charset::Utf8);
    assert!(s.root);
    assert!(s.trim_trailing_whitespace);
    assert!(s.insert_final_newline);
    assert_eq!(s.max_line_length, 80);
}

#[test]
fn serialize_default_is_exact() {
    assert_eq!(serialize_settings(&default_settings()), DEFAULT_TEXT);
}

#[test]
fn serialize_other_is_exact() {
    let expected = "root = false\n\n[*]\nend_of_line = crlf\nindent_size = -3\nindent_style = tabs\ntab_width = 0\ncharset = utf-16le\ntrim_trailing_whitespace = false\ninsert_final_newline = false\nmax_line_length = -2147483648";
    assert_eq!(serialize_settings(&other_settings()), expected);
}

#[test]
fn round_trip_default() {
    let s = default_settings();
    assert_eq!(parse_settings(serialize_settings(&s)), Ok(s));
}

#[test]
fn round_trip_other() {
    let s = other_settings();
    assert_eq!(parse_settings(serialize_settings(&s)), Ok(s));
}

#[test]
fn round_trip_every_name() {
    let eols = [EndOfLine::Lf, EndOfLine::Crlf, EndOfLine::Cr];
    let charsets = [
        Charset::Utf8,
        Charset::Utf8Bom,
        Charset::Utf16Be,
        Charset::Utf16Le,
        Charset::Latin1,
    ];
    for e in eols {
        for c in charsets {
            let s = Settings {
                end_of_line: e,
                charset: c,
                max_line_length: i32::MAX,
                indent_size: 1234567,
                ..default_settings()
            };
            assert_eq!(parse_settings(serialize_settings(&s)), Ok(s));
        }
    }
}

#[test]
fn parse_empty_gives_defaults() {
    assert_eq!(parse(""), Ok(default_settings()));
}

#[test]
fn parse_without_known_keys_gives_defaults() {
    assert_eq!(parse("[*]\n\nfoo = bar\n# comment\nroot\n"), Ok(default_settings()));
}

#[test]
fn unknown_key_is_ignored() {
    let expected = Settings { indent_size: 2, ..default_settings() };
    assert_eq!(parse("foo = bar\nindent_size = 2"), Ok(expected));
}

#[test]
fn bad_integer_is_an_error() {
    assert_eq!(
        parse("indent_size = notanumber"),
        Err(ParseError::InvalidInteger(Key::IndentSize))
    );
}

#[test]
fn bad_boolean_is_an_error() {
    assert_eq!(parse("root = yes"), Err(ParseError::InvalidBoolean(Key::Root)));
}

#[test]
fn unknown_name_is_an_error() {
    assert_eq!(
        parse("charset = ascii"),
        Err(ParseError::UnknownValue(Key::Charset))
    );
}

#[test]
fn first_error_wins() {
    assert_eq!(
        parse("tab_width = x\nroot = maybe"),
        Err(ParseError::InvalidInteger(Key::TabWidth))
    );
}

#[test]
fn line_with_two_equals_is_skipped() {
    assert_eq!(parse("indent_size = 2 = 3"), Ok(default_settings()));
}

#[test]
fn keys_and_values_are_trimmed() {
    let expected = Settings {
        tab_width: 8,
        root: false,
        end_of_line: EndOfLine::Cr,
        ..default_settings()
    };
    assert_eq!(
        parse("  tab_width\t=  8  \r\nroot=false\r\nend_of_line =\u{a0}cr\r\n"),
        Ok(expected)
    );
}

#[test]
fn later_lines_override_earlier_ones() {
    let expected = Settings { indent_style: IndentStyle::Tabs, ..default_settings() };
    assert_eq!(parse("indent_style = space\nindent_style = tabs\n"), Ok(expected));
}

#[test]
fn integer_limits() {
    assert_eq!(parse("max_line_length = 2147483647").map(|s| s.max_line_length), Ok(i32::MAX));
    assert_eq!(parse("max_line_length = -2147483648").map(|s| s.max_line_length), Ok(i32::MIN));
    assert_eq!(parse("max_line_length = +7").map(|s| s.max_line_length), Ok(7));
    assert_eq!(parse("max_line_length = 007").map(|s| s.max_line_length), Ok(7));
    assert_eq!(
        parse("max_line_length = 2147483648"),
        Err(ParseError::InvalidInteger(Key::MaxLineLength))
    );
    assert_eq!(
        parse("max_line_length = -"),
        Err(ParseError::InvalidInteger(Key::MaxLineLength))
    );
    assert_eq!(
        parse("max_line_length = "),
        Err(ParseError::InvalidInteger(Key::MaxLineLength))
    );
    assert_eq!(
        parse("max_line_length = 1 2"),
        Err(ParseError::InvalidInteger(Key::MaxLineLength))
    );
}

#[test]
fn unrecognized_answer_falls_back() {
    let s = answer(default_settings(), Key::IndentStyle, "banana");
    assert_eq!(s.indent_style, IndentStyle::Space);
    assert_eq!(s, default_settings());
}

#[test]
fn answer_falls_back_to_default_not_current() {
    let start = Settings { indent_style: IndentStyle::Tabs, tab_width: 9, ..default_settings() };
    assert_eq!(answer(start, Key::IndentStyle, "").indent_style, IndentStyle::Space);
    assert_eq!(answer(start, Key::TabWidth, "wide").tab_width, 4);
}

#[test]
fn recognized_answers_are_taken() {
    let s = default_settings();
    assert_eq!(answer(s, Key::IndentStyle, "tabs\n").indent_style, IndentStyle::Tabs);
    assert_eq!(answer(s, Key::IndentSize, " 12\n").indent_size, 12);
    assert_eq!(answer(s, Key::EndOfLine, "crlf\r\n").end_of_line, EndOfLine::Crlf);
    assert_eq!(answer(s, Key::Charset, "latin1\n").charset, Charset::Latin1);
    assert!(!answer(s, Key::TrimTrailingWhitespace, "false\n").trim_trailing_whitespace);
    assert!(!answer(s, Key::InsertFinalNewline, "false").insert_final_newline);
    assert_eq!(answer(s, Key::MaxLineLength, "120").max_line_length, 120);
}

#[test]
fn empty_answers_keep_defaults() {
    let s = Settings { insert_final_newline: false, max_line_length: 3, ..default_settings() };
    assert!(answer(s, Key::InsertFinalNewline, "\n").insert_final_newline);
    assert!(answer(s, Key::TrimTrailingWhitespace, "").trim_trailing_whitespace);
    assert_eq!(answer(s, Key::MaxLineLength, "eighty").max_line_length, 80);
    assert_eq!(answer(s, Key::Charset, "ascii").charset, Charset::Utf8);
}
