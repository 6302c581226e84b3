use editorconfig_lint::check::check;
use editorconfig_lint::{Charset, Config, Diagnosis, IndentStyle, LineEnding, Reason};

fn empty_config() -> Config {
    Config {
        indent_style: None,
        indent_size: None,
        tab_width: None,
        end_of_line: None,
        charset: None,
        trim_trailing_whitespace: None,
        insert_final_newline: None,
    }
}

fn diag(line: usize, start: usize, end: usize, reason: Reason) -> Diagnosis {
    Diagnosis { line, range: (start, end), reason }
}

#[test]
fn empty_config_reports_nothing() {
    let config = empty_config();
    let input = b"hello\n\tworld \r\nmore\r".to_vec();
    assert_eq!(check(input, config), vec![]);
}

#[test]
fn empty_input_reports_nothing() {
    assert_eq!(check(vec![], empty_config()), vec![]);
}

#[test]
fn lone_line_feed_then_carriage_return_is_always_reported() {
    let diagnoses = check(b"\n\r".to_vec(), empty_config());
    assert_eq!(diagnoses, vec![diag(1, 1, 2, Reason::EndOfLineMismatch)]);
}

#[test]
fn crlf_pair_then_carriage_return_is_not_reported() {
    assert_eq!(check(b"\r\n\r".to_vec(), empty_config()), vec![]);
}

#[test]
fn unchecked_charset_never_reports_invalid_characters() {
    let input = vec![0x00, 0xFF, 0xFE, 0x7F, 0x80, 0xEF, 0x0A];
    assert_eq!(check(input, empty_config()), vec![]);
}

#[test]
fn check_is_deterministic() {
    let config = Config {
        indent_style: Some(IndentStyle::Space),
        indent_size: Some(2),
        tab_width: None,
        end_of_line: Some(LineEnding::Lf),
        charset: Some(Charset::Utf8),
        trim_trailing_whitespace: Some(true),
        insert_final_newline: None,
    };
    let input = b"   mixed \t\r\nnext  \n".to_vec();
    let first = check(input.clone(), config);
    let second = check(input, config);
    assert_eq!(first, second);
}

#[test]
fn crlf_input_under_lf_rule() {
    let config = Config { end_of_line: Some(LineEnding::Lf), charset: Some(Charset::Utf8), ..empty_config() };
    let diagnoses = check(b"a\r\nb\r\n".to_vec(), config);
    assert_eq!(
        diagnoses,
        vec![
            diag(1, 2, 3, Reason::EndOfLineMismatch),
            diag(2, 2, 3, Reason::EndOfLineMismatch),
        ],
    );
}

#[test]
fn crlf_input_under_crlf_rule_is_clean() {
    let config = Config { end_of_line: Some(LineEnding::Crlf), charset: Some(Charset::Utf8), ..empty_config() };
    assert_eq!(check(b"a\r\nb\r\n".to_vec(), config), vec![]);
}

#[test]
fn cr_input_under_cr_rule_is_clean() {
    let config = Config { end_of_line: Some(LineEnding::Cr), ..empty_config() };
    assert_eq!(check(b"a\rb\r".to_vec(), config), vec![]);
}

#[test]
fn lone_newline_is_resolved_on_the_next_line_with_the_old_line_number() {
    let config = Config { end_of_line: Some(LineEnding::Crlf), ..empty_config() };
    let diagnoses = check(b"a\nb".to_vec(), config);
    assert_eq!(diagnoses, vec![diag(1, 2, 3, Reason::EndOfLineMismatch)]);
}

#[test]
fn double_line_feed_under_crlf_rule() {
    let config = Config { end_of_line: Some(LineEnding::Crlf), ..empty_config() };
    let diagnoses = check(b"\n\n".to_vec(), config);
    assert_eq!(diagnoses, vec![diag(1, 1, 2, Reason::EndOfLineMismatch)]);
}

#[test]
fn mixed_indent_violates_space_style() {
    let config = Config { indent_style: Some(IndentStyle::Space), ..empty_config() };
    let diagnoses = check(b" \tx\n".to_vec(), config);
    assert_eq!(diagnoses, vec![diag(1, 1, 3, Reason::IndentStyle)]);
}

#[test]
fn space_indent_violates_tab_style() {
    let config = Config { indent_style: Some(IndentStyle::Tab), ..empty_config() };
    let diagnoses = check(b"  x\n".to_vec(), config);
    assert_eq!(diagnoses, vec![diag(1, 1, 3, Reason::IndentStyle)]);
}

#[test]
fn tab_indent_satisfies_tab_style() {
    let config = Config { indent_style: Some(IndentStyle::Tab), ..empty_config() };
    assert_eq!(check(b"\tx\n".to_vec(), config), vec![]);
}

#[test]
fn three_spaces_violate_indent_size_two() {
    let config = Config {
        indent_style: Some(IndentStyle::Space),
        indent_size: Some(2),
        ..empty_config()
    };
    let diagnoses = check(b"   x\n".to_vec(), config);
    assert_eq!(diagnoses, vec![diag(1, 1, 4, Reason::IndentSizeMismatch(3))]);
}

#[test]
fn four_spaces_satisfy_indent_size_two() {
    let config = Config {
        indent_style: Some(IndentStyle::Space),
        indent_size: Some(2),
        ..empty_config()
    };
    assert_eq!(check(b"    x\n".to_vec(), config), vec![]);
}

#[test]
fn whitespace_only_line_is_trailing_whitespace_without_size_check() {
    let config = Config {
        trim_trailing_whitespace: Some(true),
        indent_size: Some(2),
        ..empty_config()
    };
    let diagnoses = check(b"   \n".to_vec(), config);
    assert_eq!(diagnoses, vec![diag(1, 1, 4, Reason::TrailingWhiteSpaces)]);
}

#[test]
fn trailing_whitespace_after_text() {
    let config = Config { trim_trailing_whitespace: Some(true), ..empty_config() };
    let diagnoses = check(b"x \n".to_vec(), config);
    assert_eq!(diagnoses, vec![diag(1, 2, 3, Reason::TrailingWhiteSpaces)]);
}

#[test]
fn trailing_whitespace_ignored_when_trim_is_false() {
    let config = Config { trim_trailing_whitespace: Some(false), ..empty_config() };
    assert_eq!(check(b"x \n".to_vec(), config), vec![]);
}

#[test]
fn missing_bom_is_reported_once_at_a_point_range() {
    let config = Config { charset: Some(Charset::Utf8WithBom), ..empty_config() };
    let diagnoses = check(b"abc".to_vec(), config);
    assert_eq!(diagnoses, vec![diag(1, 0, 0, Reason::BomNotFound)]);
}

#[test]
fn present_bom_satisfies_utf8_bom_charset() {
    let config = Config { charset: Some(Charset::Utf8WithBom), ..empty_config() };
    assert_eq!(check(b"\xEF\xBB\xBFabc".to_vec(), config), vec![]);
}

#[test]
fn missing_bom_on_empty_input_is_still_reported() {
    let config = Config { charset: Some(Charset::Utf8WithBom), ..empty_config() };
    let diagnoses = check(vec![], config);
    assert_eq!(diagnoses, vec![diag(1, 0, 0, Reason::BomNotFound)]);
}

#[test]
fn latin1_control_band_byte_is_invalid() {
    let config = Config { charset: Some(Charset::Latin1), ..empty_config() };
    let diagnoses = check(vec![0x41, 0x7F, 0x0A], config);
    assert_eq!(diagnoses, vec![diag(1, 2, 3, Reason::InvalidCharacter)]);
}

#[test]
fn latin1_high_byte_is_valid() {
    let config = Config { charset: Some(Charset::Latin1), ..empty_config() };
    assert_eq!(check(vec![0xA1, 0xE9, 0x0A], config), vec![]);
}

#[test]
fn utf8_two_byte_sequence_is_valid() {
    let config = Config { charset: Some(Charset::Utf8), ..empty_config() };
    assert_eq!(check(b"caf\xC3\xA9\n".to_vec(), config), vec![]);
}

#[test]
fn utf8_bad_continuation_is_one_invalid_token() {
    let config = Config { charset: Some(Charset::Utf8), ..empty_config() };
    let diagnoses = check(b"\xC3\x28\n".to_vec(), config);
    assert_eq!(diagnoses, vec![diag(1, 1, 2, Reason::InvalidCharacter)]);
}

#[test]
fn utf8_truncated_sequence_at_end_is_invalid() {
    let config = Config { charset: Some(Charset::Utf8), ..empty_config() };
    let diagnoses = check(b"a\xE2\x82".to_vec(), config);
    assert_eq!(diagnoses, vec![diag(1, 2, 3, Reason::InvalidCharacter)]);
}

#[test]
fn utf8_overlong_encoding_is_invalid() {
    let config = Config { charset: Some(Charset::Utf8), ..empty_config() };
    let diagnoses = check(b"\xC0\xAF\n".to_vec(), config);
    assert_eq!(diagnoses, vec![diag(1, 1, 2, Reason::InvalidCharacter)]);
}

#[test]
fn utf8_bom_away_from_the_head_is_invalid() {
    let config = Config { charset: Some(Charset::Utf8), ..empty_config() };
    let diagnoses = check(b"a\xEF\xBB\xBFb".to_vec(), config);
    assert_eq!(diagnoses, vec![diag(1, 2, 3, Reason::InvalidCharacter)]);
}

#[test]
fn utf16le_bom_is_skipped_silently() {
    let config = Config { charset: Some(Charset::Utf16LittleEndian), ..empty_config() };
    assert_eq!(check(b"\xFF\xFEa\x00".to_vec(), config), vec![]);
}

#[test]
fn utf16le_without_bom_is_not_reported() {
    let config = Config { charset: Some(Charset::Utf16LittleEndian), ..empty_config() };
    assert_eq!(check(b"a\x00b\x00".to_vec(), config), vec![]);
}

#[test]
fn utf16le_lone_trailing_byte_is_invalid() {
    let config = Config { charset: Some(Charset::Utf16LittleEndian), ..empty_config() };
    let diagnoses = check(b"a\x00\x41".to_vec(), config);
    assert_eq!(diagnoses, vec![diag(1, 2, 3, Reason::InvalidCharacter)]);
}

#[test]
fn utf16le_surrogate_pair_is_valid() {
    let config = Config { charset: Some(Charset::Utf16LittleEndian), ..empty_config() };
    assert_eq!(check(vec![0x00, 0xD8, 0x00, 0xDC], config), vec![]);
}

#[test]
fn utf16le_unpaired_high_surrogate_is_invalid() {
    let config = Config { charset: Some(Charset::Utf16LittleEndian), ..empty_config() };
    let diagnoses = check(vec![0x00, 0xD8, 0x41, 0x00], config);
    assert_eq!(diagnoses, vec![diag(1, 1, 2, Reason::InvalidCharacter)]);
}

#[test]
fn utf16be_crlf_line_endings_are_clean_under_crlf_rule() {
    let config = Config {
        charset: Some(Charset::Utf16BigEndian),
        end_of_line: Some(LineEnding::Crlf),
        ..empty_config()
    };
    let input = vec![0x00, b'a', 0x00, 0x0D, 0x00, 0x0A];
    assert_eq!(check(input, config), vec![]);
}

#[test]
fn utf16be_bom_is_skipped_silently() {
    let config = Config { charset: Some(Charset::Utf16BigEndian), ..empty_config() };
    assert_eq!(check(vec![0xFE, 0xFF, 0x00, b'a'], config), vec![]);
}

#[test]
fn utf16be_unpaired_high_surrogate_is_invalid() {
    let config = Config { charset: Some(Charset::Utf16BigEndian), ..empty_config() };
    let diagnoses = check(vec![0xD8, 0x00, 0x00, 0x41], config);
    assert_eq!(diagnoses, vec![diag(1, 1, 2, Reason::InvalidCharacter)]);
}

#[test]
fn style_and_trailing_and_ending_report_in_source_order() {
    let config = Config {
        indent_style: Some(IndentStyle::Tab),
        trim_trailing_whitespace: Some(true),
        end_of_line: Some(LineEnding::Crlf),
        charset: Some(Charset::Utf8),
        ..empty_config()
    };
    let diagnoses = check(b"  \n x\n".to_vec(), config);
    assert_eq!(
        diagnoses,
        vec![
            diag(1, 1, 3, Reason::IndentStyle),
            diag(1, 1, 3, Reason::TrailingWhiteSpaces),
            diag(1, 3, 4, Reason::EndOfLineMismatch),
            diag(2, 1, 2, Reason::IndentStyle),
        ],
    );
    let mut last = (0usize, 0usize);
    for d in &diagnoses {
        assert!(d.line > last.0 || (d.line == last.0 && d.range.0 >= last.1));
        last = (d.line, d.range.0);
    }
}

#[test]
fn fmt_renders_a_point_range() {
    let d = diag(1, 0, 0, Reason::BomNotFound);
    let mut out = Vec::new();
    d.fmt(&mut out, b"a.txt");
    assert_eq!(out, b"error: BomNotFound at a.txt:1:0\n".to_vec());
}

#[test]
fn fmt_renders_a_span_and_the_observed_length() {
    let d = diag(12, 3, 7, Reason::IndentSizeMismatch(4));
    let mut out = Vec::new();
    d.fmt(&mut out, b"src/main.rs");
    assert_eq!(
        out,
        b"error: IndentSizeMismatch(4) at src/main.rs:12:3,7\n".to_vec(),
    );
}

#[test]
fn fmt_appends_to_what_the_buffer_already_holds() {
    let mut out = Vec::new();
    diag(1, 1, 2, Reason::EndOfLineMismatch).fmt(&mut out, b"f");
    diag(205, 1, 14, Reason::TrailingWhiteSpaces).fmt(&mut out, b"f");
    assert_eq!(
        out,
        b"error: EndOfLineMismatch at f:1:1,2\nerror: TrailingWhiteSpaces at f:205:1,14\n"
            .to_vec(),
    );
}

#[test]
fn charset_defaults_to_utf8() {
    assert_eq!(Charset::default(), Charset::Utf8);
}
