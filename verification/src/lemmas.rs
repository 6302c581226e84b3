//! Laws the checker obeys, stated over the mathematical model and proved for
//! every input.

use vstd::prelude::*;

use crate::check::{
    init_engine, lemma_run_step, lemma_step_wf, push_diag, run_engine, spec_check,
    spec_end_of_indent, spec_resolve_newline, spec_step, spec_step_other, start_engine,
    start_skipping_bom, wf_engine, DiagnosisV, EngineV, LineStateV, ReasonV,
};
use crate::config::{Charset, Config, LineEnding};
use crate::reader::{
    decode, lemma_decode_bounds, lemma_tokens_head, mode_of, tokens_from, DecodeMode, NewLineChar,
    Token,
};

verus! {

/// Whether a token is one the engine reports as an invalid character: a
/// failed decode, or a byte-order mark away from the stream head.
pub open spec fn is_unexpected(t: Token) -> bool {
    t is Invalid || t is Bom
}

/// The byte-transparent decoder recognizes no encoding, so it never yields an
/// `Invalid` token or a byte-order mark.
pub proof fn lemma_unchecked_tokens(bytes: Seq<u8>, pos: int)
    requires
        0 <= pos,
    ensures
        forall|i: int|
            0 <= i < tokens_from(DecodeMode::Unchecked, bytes, pos).len() ==> !is_unexpected(
                #[trigger] tokens_from(DecodeMode::Unchecked, bytes, pos)[i],
            ),
    decreases bytes.len() - pos,
{
    if pos < bytes.len() {
        let (t, after) = decode(DecodeMode::Unchecked, bytes, pos);
        lemma_decode_bounds(DecodeMode::Unchecked, bytes, pos);
        lemma_tokens_head(DecodeMode::Unchecked, bytes, pos);
        lemma_unchecked_tokens(bytes, after);
        let ts = tokens_from(DecodeMode::Unchecked, bytes, pos);
        let rest = tokens_from(DecodeMode::Unchecked, bytes, after);
        assert(!is_unexpected(t.unwrap()));
        assert(forall|i: int| 0 < i < ts.len() ==> ts[i] == #[trigger] rest[i - 1]);
    }
}

/// One step of the engine adds an `InvalidCharacter` diagnosis only for an
/// unexpected token.
pub proof fn lemma_step_no_invalid(m: EngineV, t: Token, config: Config)
    requires
        !is_unexpected(t),
        forall|j: int|
            0 <= j < m.diags.len() ==> (#[trigger] m.diags[j]).reason != ReasonV::InvalidCharacter,
    ensures
        forall|j: int|
            0 <= j < spec_step(m, t, config).diags.len() ==> (#[trigger] spec_step(
                m,
                t,
                config,
            ).diags[j]).reason != ReasonV::InvalidCharacter,
{
}

/// A run of the engine over tokens free of unexpected ones adds no
/// `InvalidCharacter` diagnosis.
pub proof fn lemma_run_no_invalid(m: EngineV, ts: Seq<Token>, config: Config)
    requires
        forall|i: int| 0 <= i < ts.len() ==> !is_unexpected(#[trigger] ts[i]),
        forall|j: int|
            0 <= j < m.diags.len() ==> (#[trigger] m.diags[j]).reason != ReasonV::InvalidCharacter,
    ensures
        forall|j: int|
            0 <= j < run_engine(m, ts, config).diags.len() ==> (#[trigger] run_engine(
                m,
                ts,
                config,
            ).diags[j]).reason != ReasonV::InvalidCharacter,
    decreases ts.len(),
{
    if ts.len() > 0 {
        lemma_step_no_invalid(m, ts[0], config);
        lemma_run_no_invalid(spec_step(m, ts[0], config), ts.drop_first(), config);
    }
}

/// With no character set declared, decoding is byte-transparent and an
/// `InvalidCharacter` diagnosis is never emitted.
pub proof fn lemma_unchecked_never_invalid(bytes: Seq<u8>, config: Config)
    requires
        config.charset is None,
    ensures
        forall|j: int|
            0 <= j < spec_check(bytes, config).len() ==> (#[trigger] spec_check(
                bytes,
                config,
            )[j]).reason != ReasonV::InvalidCharacter,
{
    let ts = tokens_from(DecodeMode::Unchecked, bytes, 0);
    lemma_unchecked_tokens(bytes, 0);
    lemma_run_no_invalid(init_engine(), ts, config);
}

/// Whether every option of the configuration is absent.
pub open spec fn all_options_absent(config: Config) -> bool {
    &&& config.indent_style is None
    &&& config.indent_size is None
    &&& config.tab_width is None
    &&& config.end_of_line is None
    &&& config.charset is None
    &&& config.trim_trailing_whitespace is None
    &&& config.insert_final_newline is None
}

/// The pending newline after one token: a newline token stays pending unless
/// it is the line feed completing a carriage-return pair; any other token
/// resolves whatever was pending.
pub open spec fn prev_after(prev: Option<NewLineChar>, t: Token) -> Option<NewLineChar> {
    match t {
        Token::NewLine(nl) => if prev == Some(NewLineChar::Cr) && nl == NewLineChar::Lf {
            None
        } else {
            Some(nl)
        },
        _ => None,
    }
}

/// Whether the stream never carries a carriage return right after a pending
/// line feed. A carriage return in that position is always reported as a
/// line-ending mismatch, whatever the configuration says.
pub open spec fn quiet_newlines(prev: Option<NewLineChar>, ts: Seq<Token>) -> bool
    decreases ts.len(),
{
    ts.len() == 0 || (!(ts[0] == Token::NewLine(NewLineChar::Cr) && prev == Some(
        NewLineChar::Lf,
    )) && quiet_newlines(prev_after(prev, ts[0]), ts.drop_first()))
}

/// Whether the line state carries no latched style error.
pub open spec fn no_style_error(m: EngineV) -> bool {
    match m.state {
        LineStateV::Indent { style_error, .. } => !style_error,
        _ => true,
    }
}

/// With every option absent, a run over expected tokens with quiet newlines
/// reports nothing new.
pub proof fn lemma_run_silent(m: EngineV, ts: Seq<Token>, config: Config)
    requires
        all_options_absent(config),
        wf_engine(m),
        forall|i: int| 0 <= i < ts.len() ==> !is_unexpected(#[trigger] ts[i]),
        quiet_newlines(m.prev_newline, ts),
        no_style_error(m),
    ensures
        run_engine(m, ts, config).diags == m.diags,
    decreases ts.len(),
{
    if ts.len() > 0 {
        let m1 = spec_step(m, ts[0], config);
        lemma_step_wf(m, ts[0], config);
        assert(m1.diags == m.diags);
        assert(no_style_error(m1));
        assert(m1.prev_newline == prev_after(m.prev_newline, ts[0]));
        lemma_run_silent(m1, ts.drop_first(), config);
    }
}

/// With every option absent, the checker reports nothing, provided no line
/// feed that completes no carriage-return pair is immediately followed by a
/// carriage return (that sequence alone is reported unconditionally).
pub proof fn lemma_empty_config_silent(bytes: Seq<u8>, config: Config)
    requires
        all_options_absent(config),
        quiet_newlines(None, tokens_from(DecodeMode::Unchecked, bytes, 0)),
    ensures
        spec_check(bytes, config) == Seq::<DiagnosisV>::empty(),
{
    let ts = tokens_from(DecodeMode::Unchecked, bytes, 0);
    lemma_unchecked_tokens(bytes, 0);
    lemma_run_silent(init_engine(), ts, config);
}

/// The column range a diagnosis may carry. A missing byte-order mark is
/// reported at the point range `(0, 0)`; every other finding starts at column
/// 1 or later: a line-ending or invalid-character finding spans exactly the
/// offending token's column, a whitespace finding spans its non-empty run,
/// and a size mismatch carries that run's length.
pub open spec fn range_ok(d: DiagnosisV) -> bool {
    match d.reason {
        ReasonV::BomNotFound => d.start == 0 && d.end == 0,
        ReasonV::EndOfLineMismatch => 1 <= d.start && d.end == d.start + 1,
        ReasonV::InvalidCharacter => 1 <= d.start && d.end == d.start + 1,
        ReasonV::IndentSizeMismatch(n) => 1 <= d.start && d.start < d.end && n == d.end - d.start,
        ReasonV::IndentStyle => 1 <= d.start && d.start < d.end,
        ReasonV::TrailingWhiteSpaces => 1 <= d.start && d.start < d.end,
        ReasonV::NoFinalNewline => 1 <= d.start && d.start <= d.end,
    }
}

/// One step of a well-formed engine only adds diagnoses with a well-formed
/// column range, and keeps a latched style error backed by a non-empty run.
pub proof fn lemma_step_range(m: EngineV, t: Token, config: Config)
    requires
        wf_engine(m),
        style_implies_run(m),
        forall|j: int| 0 <= j < m.diags.len() ==> range_ok(#[trigger] m.diags[j]),
    ensures
        style_implies_run(spec_step(m, t, config)),
        forall|j: int|
            0 <= j < spec_step(m, t, config).diags.len() ==> range_ok(
                #[trigger] spec_step(m, t, config).diags[j],
            ),
{
    match config.indent_size {
        Some(size) => if size > 0 {
            assert(0int % (size as int) == 0);
        } else {
        },
        None => {},
    }
}

/// A run of a well-formed engine only adds diagnoses with a well-formed
/// column range.
pub proof fn lemma_run_range(m: EngineV, ts: Seq<Token>, config: Config)
    requires
        wf_engine(m),
        style_implies_run(m),
        forall|j: int| 0 <= j < m.diags.len() ==> range_ok(#[trigger] m.diags[j]),
    ensures
        forall|j: int|
            0 <= j < run_engine(m, ts, config).diags.len() ==> range_ok(
                #[trigger] run_engine(m, ts, config).diags[j],
            ),
    decreases ts.len(),
{
    if ts.len() > 0 {
        lemma_step_range(m, ts[0], config);
        lemma_step_wf(m, ts[0], config);
        lemma_run_range(spec_step(m, ts[0], config), ts.drop_first(), config);
    }
}

/// The engine the preamble hands to the main loop is well formed and carries
/// only diagnoses with well-formed column ranges.
pub proof fn lemma_start_ok(ts: Seq<Token>, config: Config)
    ensures
        wf_engine(start_engine(ts, config).0),
        style_implies_run(start_engine(ts, config).0),
        forall|j: int|
            0 <= j < start_engine(ts, config).0.diags.len() ==> range_ok(
                #[trigger] start_engine(ts, config).0.diags[j],
            ),
{
    let missing_bom = push_diag(init_engine(), 1, 0, 0, ReasonV::BomNotFound);
    assert(wf_engine(init_engine()));
    assert(wf_engine(missing_bom));
    if ts.len() > 0 {
        lemma_step_wf(init_engine(), ts[0], config);
        lemma_step_wf(missing_bom, ts[0], config);
        lemma_step_range(init_engine(), ts[0], config);
        lemma_step_range(missing_bom, ts[0], config);
    }
}

/// Every diagnosis the checker reports carries a well-formed column range.
pub proof fn lemma_ranges_well_formed(bytes: Seq<u8>, config: Config)
    ensures
        forall|j: int|
            0 <= j < spec_check(bytes, config).len() ==> range_ok(
                #[trigger] spec_check(bytes, config)[j],
            ),
{
    let ts = tokens_from(mode_of(config.charset), bytes, 0);
    let started = start_engine(ts, config);
    lemma_start_ok(ts, config);
    lemma_run_range(started.0, started.1, config);
}

/// Whether every line of the token stream ends with the given line ending:
/// under `Lf` or `Cr` every newline token is that character; under `Crlf`
/// newline tokens come only as a CR immediately followed by an LF (a final CR
/// may be cut short by the end of input).
pub open spec fn lines_end_with(eol: LineEnding, ts: Seq<Token>) -> bool
    decreases ts.len(),
{
    if ts.len() == 0 {
        true
    } else {
        match ts[0] {
            Token::NewLine(nl) => match eol {
                LineEnding::Lf => nl == NewLineChar::Lf && lines_end_with(eol, ts.drop_first()),
                LineEnding::Cr => nl == NewLineChar::Cr && lines_end_with(eol, ts.drop_first()),
                LineEnding::Crlf => nl == NewLineChar::Cr && (ts.len() == 1 || (ts[1]
                    == Token::NewLine(NewLineChar::Lf) && lines_end_with(
                    eol,
                    ts.drop_first().drop_first(),
                ))),
            },
            _ => lines_end_with(eol, ts.drop_first()),
        }
    }
}

/// Whether no diagnosis of the sequence reports a line-ending mismatch.
pub open spec fn no_eol_mismatch(ds: Seq<DiagnosisV>) -> bool {
    forall|j: int| 0 <= j < ds.len() ==> (#[trigger] ds[j]).reason != ReasonV::EndOfLineMismatch
}

/// The pending newlines that can arise while the stream keeps to the given
/// line ending.
pub open spec fn prev_ok(eol: LineEnding, prev: Option<NewLineChar>) -> bool {
    match eol {
        LineEnding::Lf => prev != Some(NewLineChar::Cr),
        LineEnding::Cr => prev != Some(NewLineChar::Lf),
        LineEnding::Crlf => prev is None,
    }
}

/// A run over a token stream whose lines all end with the configured line
/// ending adds no `EndOfLineMismatch` diagnosis.
pub proof fn lemma_run_eol(m: EngineV, ts: Seq<Token>, eol: LineEnding, config: Config)
    requires
        config.end_of_line == Some(eol),
        lines_end_with(eol, ts),
        prev_ok(eol, m.prev_newline),
        no_eol_mismatch(m.diags),
    ensures
        no_eol_mismatch(run_engine(m, ts, config).diags),
    decreases ts.len(),
{
    if ts.len() > 0 {
        let t0 = ts[0];
        let m1 = spec_step(m, t0, config);
        match t0 {
            Token::NewLine(nl) => {
                if eol == LineEnding::Crlf {
                    assert(nl == NewLineChar::Cr);
                    assert(no_eol_mismatch(m1.diags));
                    if ts.len() == 1 {
                        assert(run_engine(m, ts, config) == run_engine(
                            m1,
                            ts.drop_first(),
                            config,
                        ));
                        assert(run_engine(m1, ts.drop_first(), config) == m1);
                    } else {
                        assert(ts.drop_first()[0] == ts[1]);
                        let m2 = spec_step(m1, ts[1], config);
                        assert(m1.prev_newline == Some(NewLineChar::Cr));
                        assert(no_eol_mismatch(m2.diags));
                        assert(m2.prev_newline is None);
                        lemma_run_step(m, ts, config);
                        lemma_run_step(m1, ts.drop_first(), config);
                        assert(ts.drop_first().drop_first() =~= ts.subrange(2, ts.len() as int));
                        lemma_run_eol(m2, ts.drop_first().drop_first(), eol, config);
                    }
                } else {
                    assert(no_eol_mismatch(m1.diags));
                    assert(prev_ok(eol, m1.prev_newline));
                    lemma_run_eol(m1, ts.drop_first(), eol, config);
                }
            },
            _ => {
                assert(no_eol_mismatch(m1.diags));
                assert(prev_ok(eol, m1.prev_newline));
                lemma_run_eol(m1, ts.drop_first(), eol, config);
            },
        }
    }
}

/// When every line of the input ends with the configured line ending, no
/// `EndOfLineMismatch` is reported.
pub proof fn lemma_matching_eol_clean(bytes: Seq<u8>, eol: LineEnding, config: Config)
    requires
        config.end_of_line == Some(eol),
        lines_end_with(eol, tokens_from(mode_of(config.charset), bytes, 0)),
    ensures
        no_eol_mismatch(spec_check(bytes, config)),
{
    let ts = tokens_from(mode_of(config.charset), bytes, 0);
    let started = start_engine(ts, config);
    let missing_bom = push_diag(init_engine(), 1, 0, 0, ReasonV::BomNotFound);
    assert(no_eol_mismatch(init_engine().diags));
    assert(no_eol_mismatch(missing_bom.diags));
    match config.charset {
        Some(Charset::Utf8WithBom) => {
            if ts.len() == 0 {
                lemma_run_eol(missing_bom, ts, eol, config);
            } else if ts[0] == Token::Bom {
                lemma_run_eol(init_engine(), ts.drop_first(), eol, config);
            } else {
                lemma_run_step(missing_bom, ts, config);
                lemma_run_eol(missing_bom, ts, eol, config);
            }
        },
        Some(Charset::Utf16BigEndian) => {
            lemma_start_skip_eol(ts, eol, config);
        },
        Some(Charset::Utf16LittleEndian) => {
            lemma_start_skip_eol(ts, eol, config);
        },
        _ => {
            lemma_run_eol(init_engine(), ts, eol, config);
        },
    }
}

/// The UTF-16 preamble keeps a stream that follows the line ending clean of
/// `EndOfLineMismatch` findings.
proof fn lemma_start_skip_eol(ts: Seq<Token>, eol: LineEnding, config: Config)
    requires
        config.end_of_line == Some(eol),
        lines_end_with(eol, ts),
    ensures
        no_eol_mismatch(
            run_engine(
                start_skipping_bom(ts, config).0,
                start_skipping_bom(ts, config).1,
                config,
            ).diags,
        ),
{
    assert(no_eol_mismatch(init_engine().diags));
    if ts.len() == 0 {
        lemma_run_eol(init_engine(), ts, eol, config);
    } else if ts[0] == Token::Bom {
        lemma_run_eol(init_engine(), ts.drop_first(), eol, config);
    } else {
        lemma_run_step(init_engine(), ts, config);
        lemma_run_eol(init_engine(), ts, eol, config);
    }
}

/// Source order on diagnoses: a later diagnosis never names an earlier line,
/// and on one line never names an earlier start column.
pub open spec fn precedes(a: DiagnosisV, b: DiagnosisV) -> bool {
    a.line < b.line || (a.line == b.line && a.start <= b.start)
}

/// Whether a diagnosis sequence is in source order.
pub open spec fn diags_ordered(ds: Seq<DiagnosisV>) -> bool {
    forall|i: int, j: int| 0 <= i <= j < ds.len() ==> precedes(#[trigger] ds[i], #[trigger] ds[j])
}

/// The length of the whitespace run the line state is tracking.
pub open spec fn run_len(st: LineStateV) -> int {
    match st {
        LineStateV::Indent { len, .. } => len,
        LineStateV::NonIndentWhitespace { len } => len,
        LineStateV::NonWhitespace => 0,
    }
}

/// No diagnosis the engine can still emit on the current line starts before
/// this column: a tracked whitespace run reaches back to where it began, and
/// any other finding names a column the cursor has not yet passed.
pub open spec fn line_floor(m: EngineV) -> int {
    if run_len(m.state) >= 1 {
        m.col - run_len(m.state)
    } else {
        m.col - 1
    }
}

/// Every diagnosis emitted so far stands on an earlier line, or on the
/// current line at or before every column the engine can still report.
pub open spec fn diags_bounded(m: EngineV) -> bool {
    forall|j: int|
        0 <= j < m.diags.len() ==> ((#[trigger] m.diags[j]).line < m.line || (m.diags[j].line
            == m.line && m.diags[j].start <= line_floor(m)))
}

/// A latched style error means at least one indent character was seen.
pub open spec fn style_implies_run(m: EngineV) -> bool {
    match m.state {
        LineStateV::Indent { len, style_error } => style_error ==> len >= 1,
        _ => true,
    }
}

/// Appending a diagnosis that no earlier one outruns keeps the sequence in
/// source order.
proof fn lemma_push_keeps_order(m: EngineV, line: int, start: int, end: int, reason: ReasonV)
    requires
        diags_ordered(m.diags),
        forall|j: int|
            0 <= j < m.diags.len() ==> precedes(
                #[trigger] m.diags[j],
                DiagnosisV { line, start, end, reason },
            ),
    ensures
        diags_ordered(push_diag(m, line, start, end, reason).diags),
{
    let d = DiagnosisV { line, start, end, reason };
    let ds = push_diag(m, line, start, end, reason).diags;
    assert forall|i: int, j: int| 0 <= i <= j < ds.len() implies precedes(
        #[trigger] ds[i],
        #[trigger] ds[j],
    ) by {
        if j < m.diags.len() {
            assert(ds[i] == m.diags[i]);
            assert(ds[j] == m.diags[j]);
        } else {
            assert(ds[j] == d);
            if i < m.diags.len() {
                assert(ds[i] == m.diags[i]);
            } else {
                assert(ds[i] == d);
            }
        }
    }
}

/// Appending a diagnosis on the current line that starts at or before the
/// line floor keeps the whole sequence bounded.
proof fn lemma_push_bounded(m: EngineV, line: int, start: int, end: int, reason: ReasonV)
    requires
        diags_bounded(m),
        line == m.line,
        start <= line_floor(m),
    ensures
        diags_bounded(push_diag(m, line, start, end, reason)),
{
    let pushed = push_diag(m, line, start, end, reason);
    assert(line_floor(pushed) == line_floor(m));
    assert forall|j: int| 0 <= j < pushed.diags.len() implies ((#[trigger] pushed.diags[j]).line
        < pushed.line || (pushed.diags[j].line == pushed.line && pushed.diags[j].start
        <= line_floor(pushed))) by {
        if j < m.diags.len() {
            assert(pushed.diags[j] == m.diags[j]);
        } else {
            assert(pushed.diags[j] == DiagnosisV { line, start, end, reason });
        }
    }
}

/// One step of the engine keeps the emitted diagnoses in source order.
pub proof fn lemma_step_ordered(m: EngineV, t: Token, config: Config)
    requires
        wf_engine(m),
        style_implies_run(m),
        diags_bounded(m),
        diags_ordered(m.diags),
    ensures
        style_implies_run(spec_step(m, t, config)),
        diags_bounded(spec_step(m, t, config)),
        diags_ordered(spec_step(m, t, config).diags),
{
    lemma_step_wf(m, t, config);
    match t {
        Token::Indent(_) => {
            lemma_resolve_ordered(m, config);
        },
        Token::NewLine(nl) => {
            let styled = match m.state {
                LineStateV::Indent { len, style_error } => if style_error {
                    lemma_push_keeps_order(
                        m,
                        m.line,
                        m.col - len,
                        m.col,
                        ReasonV::IndentStyle,
                    );
                    push_diag(m, m.line, m.col - len, m.col, ReasonV::IndentStyle)
                } else {
                    m
                },
                _ => m,
            };
            let run = run_len(m.state);
            let trimmed = if run != 0 && config.trim_trailing_whitespace == Some(true) {
                lemma_push_keeps_order(
                    styled,
                    styled.line,
                    styled.col - run,
                    styled.col,
                    ReasonV::TrailingWhiteSpaces,
                );
                push_diag(
                    styled,
                    styled.line,
                    styled.col - run,
                    styled.col,
                    ReasonV::TrailingWhiteSpaces,
                )
            } else {
                styled
            };
            if m.prev_newline is Some {
                lemma_push_keeps_order(
                    trimmed,
                    trimmed.line,
                    trimmed.col,
                    trimmed.col + 1,
                    ReasonV::EndOfLineMismatch,
                );
            }
        },
        Token::Valid(_) => {
            lemma_resolve_ordered(m, config);
        },
        Token::Invalid(_) => {
            lemma_other_ordered(m, config);
        },
        Token::Bom => {
            lemma_other_ordered(m, config);
        },
    }
}

/// Resolving a pending newline and finalizing the indent run keep the
/// diagnoses in source order. Covers the shared front of the `Indent`,
/// `Valid` and `Invalid` steps.
proof fn lemma_resolve_ordered(m: EngineV, config: Config)
    requires
        wf_engine(m),
        style_implies_run(m),
        diags_bounded(m),
        diags_ordered(m.diags),
    ensures
        diags_ordered(spec_resolve_newline(m, config).diags),
        diags_bounded(spec_resolve_newline(m, config)),
        match m.state {
            LineStateV::Indent { len, style_error } => diags_ordered(
                spec_end_of_indent(
                    spec_resolve_newline(m, config),
                    len,
                    style_error,
                    config,
                ).diags,
            ) && diags_bounded(
                spec_end_of_indent(spec_resolve_newline(m, config), len, style_error, config),
            ),
            _ => true,
        },
{
    if m.prev_newline is Some {
        lemma_push_keeps_order(m, m.line, m.col, m.col + 1, ReasonV::EndOfLineMismatch);
    }
    let resolved = spec_resolve_newline(m, config);
    match m.state {
        LineStateV::Indent { len, style_error } => {
            if style_error {
                lemma_push_keeps_order(
                    resolved,
                    resolved.line,
                    resolved.col - len,
                    resolved.col,
                    ReasonV::IndentStyle,
                );
                lemma_push_bounded(
                    resolved,
                    resolved.line,
                    resolved.col - len,
                    resolved.col,
                    ReasonV::IndentStyle,
                );
            } else {
                match config.indent_size {
                    Some(size) => if size > 0 && len % (size as int) != 0 {
                        assert(0int % (size as int) == 0);
                        assert(len >= 1);
                        lemma_push_keeps_order(
                            resolved,
                            resolved.line,
                            resolved.col - len,
                            resolved.col,
                            ReasonV::IndentSizeMismatch(len),
                        );
                        lemma_push_bounded(
                            resolved,
                            resolved.line,
                            resolved.col - len,
                            resolved.col,
                            ReasonV::IndentSizeMismatch(len),
                        );
                    } else {
                    },
                    None => {},
                }
            }
        },
        _ => {},
    }
}

/// The step for an `Invalid` or misplaced `Bom` token keeps the diagnoses in
/// source order.
proof fn lemma_other_ordered(m: EngineV, config: Config)
    requires
        wf_engine(m),
        style_implies_run(m),
        diags_bounded(m),
        diags_ordered(m.diags),
    ensures
        diags_ordered(spec_step_other(m, config).diags),
{
    lemma_resolve_ordered(m, config);
    let closed = match m.state {
        LineStateV::Indent { len, style_error } => spec_end_of_indent(
            spec_resolve_newline(m, config),
            len,
            style_error,
            config,
        ),
        _ => m,
    };
    lemma_push_keeps_order(
        closed,
        closed.line,
        closed.col,
        closed.col + 1,
        ReasonV::InvalidCharacter,
    );
}

/// A run of the engine keeps the emitted diagnoses in source order.
pub proof fn lemma_run_ordered(m: EngineV, ts: Seq<Token>, config: Config)
    requires
        wf_engine(m),
        style_implies_run(m),
        diags_bounded(m),
        diags_ordered(m.diags),
    ensures
        diags_ordered(run_engine(m, ts, config).diags),
    decreases ts.len(),
{
    if ts.len() > 0 {
        lemma_step_ordered(m, ts[0], config);
        lemma_step_wf(m, ts[0], config);
        lemma_run_ordered(spec_step(m, ts[0], config), ts.drop_first(), config);
    }
}

/// The checker reports its findings in source order: line numbers never
/// decrease along the sequence, and within one line the start columns never
/// decrease.
pub proof fn lemma_diagnoses_in_source_order(bytes: Seq<u8>, config: Config)
    ensures
        diags_ordered(spec_check(bytes, config)),
{
    let ts = tokens_from(mode_of(config.charset), bytes, 0);
    let missing_bom = push_diag(init_engine(), 1, 0, 0, ReasonV::BomNotFound);
    assert(wf_engine(init_engine()));
    assert(wf_engine(missing_bom));
    assert(diags_bounded(init_engine()));
    assert(diags_bounded(missing_bom));
    assert(diags_ordered(init_engine().diags));
    assert(diags_ordered(missing_bom.diags));
    if ts.len() > 0 {
        lemma_step_ordered(init_engine(), ts[0], config);
        lemma_step_ordered(missing_bom, ts[0], config);
        lemma_step_wf(init_engine(), ts[0], config);
        lemma_step_wf(missing_bom, ts[0], config);
    }
    let started = start_engine(ts, config);
    lemma_run_ordered(started.0, started.1, config);
}

} // verus!
