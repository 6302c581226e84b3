//! The line-oriented state machine that consumes character tokens and emits
//! diagnoses, together with its mathematical model.

use vstd::prelude::*;

use crate::config::{config_wf, Charset, Config, IndentStyle, LineEnding};
use crate::reader::{
    lemma_decode_bounds, lemma_tokens_head, mode_of, tokens_from, Character, CharacterReader,
    DecodeMode, IndentChar, NewLineChar, Reader, Token,
};

verus! {

/// Why a diagnosis was emitted. `NoFinalNewline` is declared for the
/// final-newline rule, which the engine does not yet enforce; it is never
/// emitted.
#[derive(Debug, Clone, Copy, PartialEq, Eq)]
pub enum Reason {
    IndentStyle,
    IndentSizeMismatch(usize),
    EndOfLineMismatch,
    TrailingWhiteSpaces,
    NoFinalNewline,
    BomNotFound,
    InvalidCharacter,
}

/// The mathematical form of a reason; an observed indent length is an `int`.
pub ghost enum ReasonV {
    IndentStyle,
    IndentSizeMismatch(int),
    EndOfLineMismatch,
    TrailingWhiteSpaces,
    NoFinalNewline,
    BomNotFound,
    InvalidCharacter,
}

impl View for Reason {
    type V = ReasonV;

    open spec fn view(&self) -> ReasonV {
        match self {
            Reason::IndentStyle => ReasonV::IndentStyle,
            Reason::IndentSizeMismatch(n) => ReasonV::IndentSizeMismatch(*n as int),
            Reason::EndOfLineMismatch => ReasonV::EndOfLineMismatch,
            Reason::TrailingWhiteSpaces => ReasonV::TrailingWhiteSpaces,
            Reason::NoFinalNewline => ReasonV::NoFinalNewline,
            Reason::BomNotFound => ReasonV::BomNotFound,
            Reason::InvalidCharacter => ReasonV::InvalidCharacter,
        }
    }
}

/// One reported violation: the 1-based line where the offending region
/// begins, a 1-based inclusive-exclusive column range, and the reason.
#[derive(Debug, Clone, Copy, PartialEq, Eq)]
pub struct Diagnosis {
    pub line: usize,
    pub range: (usize, usize),
    pub reason: Reason,
}

/// The mathematical form of a diagnosis.
pub ghost struct DiagnosisV {
    pub line: int,
    pub start: int,
    pub end: int,
    pub reason: ReasonV,
}

impl View for Diagnosis {
    type V = DiagnosisV;

    open spec fn view(&self) -> DiagnosisV {
        DiagnosisV {
            line: self.line as int,
            start: self.range.0 as int,
            end: self.range.1 as int,
            reason: self.reason@,
        }
    }
}

/// The decimal digits of a number, most significant first.
pub open spec fn dec_digits(n: nat) -> Seq<u8>
    decreases n,
{
    if n < 10 {
        seq![(n + 0x30) as u8]
    } else {
        dec_digits(n / 10).push((n % 10 + 0x30) as u8)
    }
}

/// The name a reason is rendered under, with the observed length of a size
/// mismatch in parentheses.
pub open spec fn reason_bytes(r: ReasonV) -> Seq<u8> {
    match r {
        ReasonV::IndentStyle => seq![
            0x49,
            0x6E,
            0x64,
            0x65,
            0x6E,
            0x74,
            0x53,
            0x74,
            0x79,
            0x6C,
            0x65,
        ],
        ReasonV::IndentSizeMismatch(n) => seq![
            0x49,
            0x6E,
            0x64,
            0x65,
            0x6E,
            0x74,
            0x53,
            0x69,
            0x7A,
            0x65,
            0x4D,
            0x69,
            0x73,
            0x6D,
            0x61,
            0x74,
            0x63,
            0x68,
            0x28,
        ] + dec_digits(n as nat) + seq![0x29],
        ReasonV::EndOfLineMismatch => seq![
            0x45,
            0x6E,
            0x64,
            0x4F,
            0x66,
            0x4C,
            0x69,
            0x6E,
            0x65,
            0x4D,
            0x69,
            0x73,
            0x6D,
            0x61,
            0x74,
            0x63,
            0x68,
        ],
        ReasonV::TrailingWhiteSpaces => seq![
            0x54,
            0x72,
            0x61,
            0x69,
            0x6C,
            0x69,
            0x6E,
            0x67,
            0x57,
            0x68,
            0x69,
            0x74,
            0x65,
            0x53,
            0x70,
            0x61,
            0x63,
            0x65,
            0x73,
        ],
        ReasonV::NoFinalNewline => seq![
            0x4E,
            0x6F,
            0x46,
            0x69,
            0x6E,
            0x61,
            0x6C,
            0x4E,
            0x65,
            0x77,
            0x6C,
            0x69,
            0x6E,
            0x65,
        ],
        ReasonV::BomNotFound => seq![
            0x42,
            0x6F,
            0x6D,
            0x4E,
            0x6F,
            0x74,
            0x46,
            0x6F,
            0x75,
            0x6E,
            0x64,
        ],
        ReasonV::InvalidCharacter => seq![
            0x49,
            0x6E,
            0x76,
            0x61,
            0x6C,
            0x69,
            0x64,
            0x43,
            0x68,
            0x61,
            0x72,
            0x61,
            0x63,
            0x74,
            0x65,
            0x72,
        ],
    }
}

/// The column range as rendered: one number for a point, two separated by a
/// comma otherwise.
pub open spec fn range_bytes(start: int, end: int) -> Seq<u8> {
    if start == end {
        dec_digits(start as nat)
    } else {
        dec_digits(start as nat) + seq![0x2C] + dec_digits(end as nat)
    }
}

/// The whole line a diagnosis is rendered as for a named file.
pub open spec fn rendered(d: DiagnosisV, name: Seq<u8>) -> Seq<u8> {
    seq![0x65, 0x72, 0x72, 0x6F, 0x72, 0x3A, 0x20] + reason_bytes(d.reason) + seq![
        0x20,
        0x61,
        0x74,
        0x20,
    ] + name + seq![0x3A] + dec_digits(d.line as nat) + seq![0x3A] + range_bytes(d.start, d.end)
        + seq![0x0A]
}

/// Appends a slice to the buffer.
fn push_bytes(out: &mut Vec<u8>, bytes: &[u8])
    ensures
        final(out)@ == old(out)@ + bytes@,
{
    let mut i: usize = 0;
    while i < bytes.len()
        invariant
            i <= bytes.len(),
            out@ == old(out)@ + bytes@.take(i as int),
        decreases bytes.len() - i,
    {
        out.push(bytes[i]);
        proof {
            assert(out@ =~= old(out)@ + bytes@.take(i + 1));
        }
        i = i + 1;
    }
    proof {
        assert(old(out)@ + bytes@.take(bytes@.len() as int) =~= old(out)@ + bytes@);
    }
}

/// Appends a number in decimal to the buffer.
fn push_decimal(out: &mut Vec<u8>, n: usize)
    ensures
        final(out)@ == old(out)@ + dec_digits(n as nat),
    decreases n,
{
    if n < 10 {
        out.push(n as u8 + 0x30);
        proof {
            assert(out@ =~= old(out)@ + dec_digits(n as nat));
        }
    } else {
        push_decimal(out, n / 10);
        out.push((n % 10) as u8 + 0x30);
        proof {
            assert(out@ =~= old(out)@ + dec_digits(n as nat));
        }
    }
}

impl Diagnosis {
    /// Appends the rendered diagnosis for the named file to the buffer, as
    /// one line `error: <reason> at <file>:<line>:<range>`.
    pub fn fmt(&self, out: &mut Vec<u8>, file_name: &[u8])
        ensures
            final(out)@ == old(out)@ + rendered(self@, file_name@),
    {
        push_bytes(out, &[0x65, 0x72, 0x72, 0x6F, 0x72, 0x3A, 0x20]);
        match self.reason {
            Reason::IndentStyle => {
                push_bytes(
                    out,
                    &[0x49, 0x6E, 0x64, 0x65, 0x6E, 0x74, 0x53, 0x74, 0x79, 0x6C, 0x65],
                );
            },
            Reason::IndentSizeMismatch(n) => {
                push_bytes(
                    out,
                    &[
                        0x49,
                        0x6E,
                        0x64,
                        0x65,
                        0x6E,
                        0x74,
                        0x53,
                        0x69,
                        0x7A,
                        0x65,
                        0x4D,
                        0x69,
                        0x73,
                        0x6D,
                        0x61,
                        0x74,
                        0x63,
                        0x68,
                        0x28,
                    ],
                );
                push_decimal(out, n);
                push_bytes(out, &[0x29]);
            },
            Reason::EndOfLineMismatch => {
                push_bytes(
                    out,
                    &[
                        0x45,
                        0x6E,
                        0x64,
                        0x4F,
                        0x66,
                        0x4C,
                        0x69,
                        0x6E,
                        0x65,
                        0x4D,
                        0x69,
                        0x73,
                        0x6D,
                        0x61,
                        0x74,
                        0x63,
                        0x68,
                    ],
                );
            },
            Reason::TrailingWhiteSpaces => {
                push_bytes(
                    out,
                    &[
                        0x54,
                        0x72,
                        0x61,
                        0x69,
                        0x6C,
                        0x69,
                        0x6E,
                        0x67,
                        0x57,
                        0x68,
                        0x69,
                        0x74,
                        0x65,
                        0x53,
                        0x70,
                        0x61,
                        0x63,
                        0x65,
                        0x73,
                    ],
                );
            },
            Reason::NoFinalNewline => {
                push_bytes(
                    out,
                    &[
                        0x4E,
                        0x6F,
                        0x46,
                        0x69,
                        0x6E,
                        0x61,
                        0x6C,
                        0x4E,
                        0x65,
                        0x77,
                        0x6C,
                        0x69,
                        0x6E,
                        0x65,
                    ],
                );
            },
            Reason::BomNotFound => {
                push_bytes(
                    out,
                    &[0x42, 0x6F, 0x6D, 0x4E, 0x6F, 0x74, 0x46, 0x6F, 0x75, 0x6E, 0x64],
                );
            },
            Reason::InvalidCharacter => {
                push_bytes(
                    out,
                    &[
                        0x49,
                        0x6E,
                        0x76,
                        0x61,
                        0x6C,
                        0x69,
                        0x64,
                        0x43,
                        0x68,
                        0x61,
                        0x72,
                        0x61,
                        0x63,
                        0x74,
                        0x65,
                        0x72,
                    ],
                );
            },
        }
        push_bytes(out, &[0x20, 0x61, 0x74, 0x20]);
        push_bytes(out, file_name);
        push_bytes(out, &[0x3A]);
        push_decimal(out, self.line);
        push_bytes(out, &[0x3A]);
        if self.range.0 == self.range.1 {
            push_decimal(out, self.range.0);
        } else {
            push_decimal(out, self.range.0);
            push_bytes(out, &[0x2C]);
            push_decimal(out, self.range.1);
        }
        push_bytes(out, &[0x0A]);
        proof {
            assert(out@ =~= old(out)@ + rendered(self@, file_name@));
        }
    }
}

/// Where on its line the engine currently stands.
#[derive(Debug, Clone, Copy, PartialEq, Eq)]
enum State {
    Indent { len: usize, style_error: bool },
    NonWhitespace,
    NonIndentWhitespace { len: usize },
}

/// The mathematical form of the line state.
pub ghost enum LineStateV {
    Indent { len: int, style_error: bool },
    NonWhitespace,
    NonIndentWhitespace { len: int },
}

impl State {
    spec fn model(&self) -> LineStateV {
        match self {
            State::Indent { len, style_error } => LineStateV::Indent {
                len: *len as int,
                style_error: *style_error,
            },
            State::NonWhitespace => LineStateV::NonWhitespace,
            State::NonIndentWhitespace { len } => LineStateV::NonIndentWhitespace {
                len: *len as int,
            },
        }
    }
}

/// The mathematical form of the whole engine: cursor, line state, the last
/// unresolved newline, and the diagnoses emitted so far.
pub ghost struct EngineV {
    pub line: int,
    pub col: int,
    pub state: LineStateV,
    pub prev_newline: Option<NewLineChar>,
    pub diags: Seq<DiagnosisV>,
}

/// The mathematical form of a list of diagnoses.
pub open spec fn diags_of(v: Seq<Diagnosis>) -> Seq<DiagnosisV> {
    v.map_values(|d: Diagnosis| d@)
}

struct CheckState {
    line: usize,
    col: usize,
    state: State,
    prev_newline: Option<NewLineChar>,
    diagnosis: Vec<Diagnosis>,
}

impl CheckState {
    spec fn model(&self) -> EngineV {
        EngineV {
            line: self.line as int,
            col: self.col as int,
            state: self.state.model(),
            prev_newline: self.prev_newline,
            diags: diags_of(self.diagnosis@),
        }
    }
}

/// The engine before any token has been consumed.
pub open spec fn init_engine() -> EngineV {
    EngineV {
        line: 1,
        col: 1,
        state: LineStateV::Indent { len: 0, style_error: false },
        prev_newline: None,
        diags: Seq::empty(),
    }
}

/// The engine with one more diagnosis appended.
pub open spec fn push_diag(m: EngineV, line: int, start: int, end: int, reason: ReasonV) -> EngineV {
    EngineV { diags: m.diags.push(DiagnosisV { line, start, end, reason }), ..m }
}

/// Whether a newline character agrees with a configured line ending.
pub open spec fn newline_matches(nl: NewLineChar, eol: LineEnding) -> bool {
    ||| (nl == NewLineChar::Cr && eol == LineEnding::Cr)
    ||| (nl == NewLineChar::Lf && eol == LineEnding::Lf)
}

/// Resolving a pending lone newline: if one is pending, it terminated the
/// previous line, so the line-ending rule is checked (a violation names the
/// terminator's own column on the line it ends) and the cursor moves to the
/// next line.
pub open spec fn spec_resolve_newline(m: EngineV, config: Config) -> EngineV {
    match m.prev_newline {
        None => m,
        Some(nl) => {
            let cleared = EngineV { prev_newline: None, ..m };
            let checked = match config.end_of_line {
                Some(eol) => if !newline_matches(nl, eol) {
                    push_diag(cleared, cleared.line, cleared.col, cleared.col + 1, ReasonV::EndOfLineMismatch)
                } else {
                    cleared
                },
                None => cleared,
            };
            EngineV { line: checked.line + 1, col: 1, ..checked }
        },
    }
}

/// Finalizing an indent run of length `len` when the first non-whitespace
/// token of the line arrives: a style violation wins over a size mismatch,
/// and a size mismatch is reported when the run is not a whole number of
/// indent units.
pub open spec fn spec_end_of_indent(m: EngineV, len: int, style_error: bool, config: Config) -> EngineV {
    if style_error {
        push_diag(m, m.line, m.col - len, m.col, ReasonV::IndentStyle)
    } else {
        match config.indent_size {
            Some(size) => if size > 0 && len % (size as int) != 0 {
                push_diag(m, m.line, m.col - len, m.col, ReasonV::IndentSizeMismatch(len))
            } else {
                m
            },
            None => m,
        }
    }
}

/// Whether an indent character disagrees with the configured indent style.
pub open spec fn indent_disagrees(kind: IndentChar, style: Option<IndentStyle>) -> bool {
    ||| (kind == IndentChar::Space && style == Some(IndentStyle::Tab))
    ||| (kind == IndentChar::Tab && style == Some(IndentStyle::Space))
}

/// One `Indent` token: extends the leading run (latching a style error), or
/// starts or extends an inner/trailing whitespace run; the column advances
/// and any pending newline is forgotten (it was resolved first when the run
/// was still empty).
pub open spec fn spec_step_indent(m: EngineV, kind: IndentChar, config: Config) -> EngineV {
    let moved = match m.state {
        LineStateV::NonWhitespace => EngineV {
            state: LineStateV::NonIndentWhitespace { len: 1 },
            ..m
        },
        LineStateV::Indent { len, style_error } => {
            let resolved = if len == 0 {
                spec_resolve_newline(m, config)
            } else {
                m
            };
            EngineV {
                state: LineStateV::Indent {
                    len: len + 1,
                    style_error: style_error || indent_disagrees(kind, config.indent_style),
                },
                ..resolved
            }
        },
        LineStateV::NonIndentWhitespace { len } => EngineV {
            state: LineStateV::NonIndentWhitespace { len: len + 1 },
            ..m
        },
    };
    EngineV { col: moved.col + 1, prev_newline: None, ..moved }
}

/// One `NewLine` token: reports the line's trailing whitespace (and a style
/// violation latched on a whitespace-only line), resets the line state, then
/// resolves the token against the previous newline, pairing CR with LF.
pub open spec fn spec_step_newline(m: EngineV, nl: NewLineChar, config: Config) -> EngineV {
    let flagged = match m.state {
        LineStateV::NonIndentWhitespace { len } => (m, Some(len)),
        LineStateV::Indent { len, style_error } => {
            let styled = if style_error {
                push_diag(m, m.line, m.col - len, m.col, ReasonV::IndentStyle)
            } else {
                m
            };
            (styled, Some(len))
        },
        LineStateV::NonWhitespace => (m, None),
    };
    let trimmed = match flagged.1 {
        Some(len) => if len != 0 && config.trim_trailing_whitespace == Some(true) {
            push_diag(flagged.0, flagged.0.line, flagged.0.col - len, flagged.0.col, ReasonV::TrailingWhiteSpaces)
        } else {
            flagged.0
        },
        None => flagged.0,
    };
    let reset = EngineV {
        state: LineStateV::Indent { len: 0, style_error: false },
        ..trimmed
    };
    match reset.prev_newline {
        None => EngineV { prev_newline: Some(nl), ..reset },
        Some(prev) => {
            let mismatch = match (nl, prev) {
                (NewLineChar::Lf, NewLineChar::Lf) => config.end_of_line is Some
                    && config.end_of_line != Some(LineEnding::Lf),
                (NewLineChar::Lf, NewLineChar::Cr) => config.end_of_line is Some
                    && config.end_of_line != Some(LineEnding::Crlf),
                (NewLineChar::Cr, NewLineChar::Lf) => true,
                (NewLineChar::Cr, NewLineChar::Cr) => config.end_of_line is Some
                    && config.end_of_line != Some(LineEnding::Cr),
            };
            let checked = if mismatch {
                push_diag(reset, reset.line, reset.col, reset.col + 1, ReasonV::EndOfLineMismatch)
            } else {
                reset
            };
            let paired = if nl == NewLineChar::Lf && prev == NewLineChar::Cr {
                EngineV { prev_newline: None, ..checked }
            } else {
                EngineV { prev_newline: Some(nl), ..checked }
            };
            EngineV { line: paired.line + 1, col: 1, ..paired }
        },
    }
}

/// One `Valid` token: resolves a pending newline and finalizes the indent
/// run if the line was still in it, then the token occupies a column.
pub open spec fn spec_step_valid(m: EngineV, config: Config) -> EngineV {
    let closed = match m.state {
        LineStateV::Indent { len, style_error } => spec_end_of_indent(
            spec_resolve_newline(m, config),
            len,
            style_error,
            config,
        ),
        LineStateV::NonWhitespace => m,
        LineStateV::NonIndentWhitespace { .. } => m,
    };
    EngineV { state: LineStateV::NonWhitespace, col: closed.col + 1, ..closed }
}

/// One `Invalid` token, or a `Bom` away from the stream head: as a `Valid`
/// token, and additionally an `InvalidCharacter` diagnosis.
pub open spec fn spec_step_other(m: EngineV, config: Config) -> EngineV {
    let closed = match m.state {
        LineStateV::Indent { len, style_error } => spec_end_of_indent(
            spec_resolve_newline(m, config),
            len,
            style_error,
            config,
        ),
        LineStateV::NonWhitespace => m,
        LineStateV::NonIndentWhitespace { .. } => m,
    };
    let flagged = push_diag(closed, closed.line, closed.col, closed.col + 1, ReasonV::InvalidCharacter);
    EngineV { state: LineStateV::NonWhitespace, col: flagged.col + 1, ..flagged }
}

/// How one token transforms the engine.
pub open spec fn spec_step(m: EngineV, t: Token, config: Config) -> EngineV {
    match t {
        Token::Indent(kind) => spec_step_indent(m, kind, config),
        Token::NewLine(nl) => spec_step_newline(m, nl, config),
        Token::Valid(_) => spec_step_valid(m, config),
        Token::Invalid(_) => spec_step_other(m, config),
        Token::Bom => spec_step_other(m, config),
    }
}

/// Bounds every reachable engine state keeps: the cursor is 1-based, a
/// whitespace run never reaches back past the start of its line, and a
/// newline can only be pending while the next line is still untouched.
pub open spec fn wf_engine(m: EngineV) -> bool {
    &&& 1 <= m.line
    &&& 1 <= m.col
    &&& match m.state {
        LineStateV::Indent { len, .. } => 0 <= len <= m.col - 1,
        LineStateV::NonIndentWhitespace { len } => 1 <= len <= m.col - 1,
        LineStateV::NonWhitespace => true,
    }
    &&& m.prev_newline is Some ==> m.state == (LineStateV::Indent {
        len: 0,
        style_error: false,
    })
}

/// One step keeps the engine well formed, and moves the cursor down or right
/// by at most one.
pub proof fn lemma_step_wf(m: EngineV, t: Token, config: Config)
    requires
        wf_engine(m),
    ensures
        wf_engine(spec_step(m, t, config)),
        spec_step(m, t, config).col <= m.col + 1,
        spec_step(m, t, config).line <= m.line + 1,
{
}

impl CheckState {
    fn push_diagnosis(&mut self, diag: Diagnosis)
        ensures
            final(self).model() == (EngineV {
                diags: old(self).model().diags.push(diag@),
                ..old(self).model()
            }),
    {
        self.diagnosis.push(diag);
        proof {
            assert(diags_of(self.diagnosis@) =~= diags_of(old(self).diagnosis@).push(diag@));
        }
    }

    fn move_next_line(&mut self)
        requires
            old(self).model().line < usize::MAX,
        ensures
            final(self).model() == (EngineV {
                line: old(self).model().line + 1,
                col: 1,
                ..old(self).model()
            }),
    {
        self.line = self.line + 1;
        self.col = 1;
    }

    fn check_end_of_newline(&mut self, config: &Config)
        requires
            1 <= old(self).model().col,
            old(self).model().col < usize::MAX,
            old(self).model().line < usize::MAX,
        ensures
            final(self).model() == spec_resolve_newline(old(self).model(), *config),
    {
        if let Some(new_line) = self.prev_newline {
            self.prev_newline = None;
            let mismatch = match (new_line, config.end_of_line) {
                (NewLineChar::Cr, Some(LineEnding::Cr)) => false,
                (NewLineChar::Lf, Some(LineEnding::Lf)) => false,
                (_, None) => false,
                (_, Some(_)) => true,
            };
            if mismatch {
                self.push_diagnosis(Diagnosis {
                    line: self.line,
                    range: (self.col, self.col + 1),
                    reason: Reason::EndOfLineMismatch,
                });
            }
            self.move_next_line();
        }
    }

    fn check_end_of_indent(&mut self, len: usize, style_error: bool, config: &Config)
        requires
            len <= old(self).model().col,
            config_wf(*config),
        ensures
            final(self).model() == spec_end_of_indent(
                old(self).model(),
                len as int,
                style_error,
                *config,
            ),
    {
        if style_error {
            self.push_diagnosis(Diagnosis {
                line: self.line,
                range: (self.col - len, self.col),
                reason: Reason::IndentStyle,
            });
        } else if let Some(size) = config.indent_size {
            if len % size != 0 {
                self.push_diagnosis(Diagnosis {
                    line: self.line,
                    range: (self.col - len, self.col),
                    reason: Reason::IndentSizeMismatch(len),
                });
            }
        }
    }

    fn check_ch(&mut self, ch: Character, config: &Config)
        requires
            wf_engine(old(self).model()),
            old(self).model().col < usize::MAX,
            old(self).model().line < usize::MAX,
            config_wf(*config),
        ensures
            final(self).model() == spec_step(old(self).model(), ch@, *config),
    {
        match ch {
            Character::Indent(indent) => {
                match self.state {
                    State::NonWhitespace => {
                        self.state = State::NonIndentWhitespace { len: 1 };
                    },
                    State::Indent { len, style_error } => {
                        if len == 0 {
                            self.check_end_of_newline(config);
                        }
                        let disagrees = match (indent, config.indent_style) {
                            (IndentChar::Space, Some(IndentStyle::Tab)) => true,
                            (IndentChar::Tab, Some(IndentStyle::Space)) => true,
                            _ => false,
                        };
                        self.state = State::Indent {
                            len: len + 1,
                            style_error: style_error || disagrees,
                        };
                    },
                    State::NonIndentWhitespace { len } => {
                        self.state = State::NonIndentWhitespace { len: len + 1 };
                    },
                }
                self.col = self.col + 1;
                self.prev_newline = None;
            },
            Character::NewLine(newline) => {
                let trailing = match self.state {
                    State::NonIndentWhitespace { len } => Some(len),
                    State::Indent { len, style_error } => {
                        if style_error {
                            self.push_diagnosis(Diagnosis {
                                line: self.line,
                                range: (self.col - len, self.col),
                                reason: Reason::IndentStyle,
                            });
                        }
                        Some(len)
                    },
                    State::NonWhitespace => None,
                };
                if let Some(len) = trailing {
                    let trim = match config.trim_trailing_whitespace {
                        Some(t) => t,
                        None => false,
                    };
                    if len != 0 && trim {
                        self.push_diagnosis(Diagnosis {
                            line: self.line,
                            range: (self.col - len, self.col),
                            reason: Reason::TrailingWhiteSpaces,
                        });
                    }
                }
                self.state = State::Indent { len: 0, style_error: false };

                match self.prev_newline {
                    None => {
                        self.prev_newline = Some(newline);
                    },
                    Some(prev) => {
                        let mismatch = match (newline, prev, config.end_of_line) {
                            (NewLineChar::Cr, NewLineChar::Lf, _) => true,
                            (_, _, None) => false,
                            (NewLineChar::Lf, NewLineChar::Lf, Some(eol)) => !matches!(
                                eol,
                                LineEnding::Lf,
                            ),
                            (NewLineChar::Lf, NewLineChar::Cr, Some(eol)) => !matches!(
                                eol,
                                LineEnding::Crlf,
                            ),
                            (NewLineChar::Cr, NewLineChar::Cr, Some(eol)) => !matches!(
                                eol,
                                LineEnding::Cr,
                            ),
                        };
                        if mismatch {
                            self.push_diagnosis(Diagnosis {
                                line: self.line,
                                range: (self.col, self.col + 1),
                                reason: Reason::EndOfLineMismatch,
                            });
                        }
                        let paired = matches!(
                            (newline, prev),
                            (NewLineChar::Lf, NewLineChar::Cr),
                        );
                        if paired {
                            self.prev_newline = None;
                        } else {
                            self.prev_newline = Some(newline);
                        }
                        self.move_next_line();
                    },
                }
            },
            Character::Valid(_) => {
                match self.state {
                    State::Indent { len, style_error } => {
                        self.check_end_of_newline(config);
                        self.check_end_of_indent(len, style_error, config);
                    },
                    State::NonWhitespace => {},
                    State::NonIndentWhitespace { .. } => {},
                }
                self.state = State::NonWhitespace;
                self.col = self.col + 1;
            },
            Character::Invalid(_) | Character::Bom => {
                match self.state {
                    State::Indent { len, style_error } => {
                        self.check_end_of_newline(config);
                        self.check_end_of_indent(len, style_error, config);
                    },
                    State::NonWhitespace => {},
                    State::NonIndentWhitespace { .. } => {},
                }
                self.push_diagnosis(Diagnosis {
                    line: self.line,
                    range: (self.col, self.col + 1),
                    reason: Reason::InvalidCharacter,
                });
                self.state = State::NonWhitespace;
                self.col = self.col + 1;
            },
        }
    }
}

/// The engine after consuming a whole token sequence.
pub open spec fn run_engine(m: EngineV, tokens: Seq<Token>, config: Config) -> EngineV
    decreases tokens.len(),
{
    if tokens.len() == 0 {
        m
    } else {
        run_engine(spec_step(m, tokens[0], config), tokens.drop_first(), config)
    }
}

/// Running a non-empty token sequence is one step followed by the rest.
pub proof fn lemma_run_step(m: EngineV, tokens: Seq<Token>, config: Config)
    requires
        tokens.len() > 0,
    ensures
        run_engine(m, tokens, config) == run_engine(
            spec_step(m, tokens[0], config),
            tokens.drop_first(),
            config,
        ),
{
}

/// The charset-specific preamble: with `Utf8WithBom` a missing byte-order
/// mark is reported before the first token is processed as usual; with UTF-16
/// a leading byte-order mark is silently dropped; otherwise nothing happens.
/// Yields the engine after the preamble and the tokens still to process.
pub open spec fn start_engine(tokens: Seq<Token>, config: Config) -> (EngineV, Seq<Token>) {
    let missing_bom = push_diag(init_engine(), 1, 0, 0, ReasonV::BomNotFound);
    match config.charset {
        Some(Charset::Utf8WithBom) => {
            if tokens.len() == 0 {
                (missing_bom, tokens)
            } else if tokens[0] == Token::Bom {
                (init_engine(), tokens.drop_first())
            } else {
                (spec_step(missing_bom, tokens[0], config), tokens.drop_first())
            }
        },
        Some(Charset::Utf16BigEndian) => start_skipping_bom(tokens, config),
        Some(Charset::Utf16LittleEndian) => start_skipping_bom(tokens, config),
        _ => (init_engine(), tokens),
    }
}

/// The preamble that drops a leading byte-order mark and reports nothing.
pub open spec fn start_skipping_bom(tokens: Seq<Token>, config: Config) -> (EngineV, Seq<Token>) {
    if tokens.len() == 0 {
        (init_engine(), tokens)
    } else if tokens[0] == Token::Bom {
        (init_engine(), tokens.drop_first())
    } else {
        (spec_step(init_engine(), tokens[0], config), tokens.drop_first())
    }
}

/// Everything `check` reports: the input is decoded under the configured
/// character set, the preamble handles a byte-order mark, and the engine then
/// consumes every token.
pub open spec fn spec_check(bytes: Seq<u8>, config: Config) -> Seq<DiagnosisV> {
    let tokens = tokens_from(mode_of(config.charset), bytes, 0);
    let started = start_engine(tokens, config);
    run_engine(started.0, started.1, config).diags
}

/// Checks the given input bytes against the configured rules and returns
/// every violation, in the order the offending positions are reached.
pub fn check(input: Vec<u8>, config: Config) -> (r: Vec<Diagnosis>)
    requires
        input.len() < usize::MAX,
        config_wf(config),
    ensures
        diags_of(r@) == spec_check(input@, config),
{
    let ghost bytes: Seq<u8> = input@;
    let ghost mode: DecodeMode = mode_of(config.charset);
    let mut state = CheckState {
        line: 1,
        col: 1,
        state: State::Indent { len: 0, style_error: false },
        prev_newline: None,
        diagnosis: Vec::new(),
    };
    proof {
        assert(diags_of(state.diagnosis@) =~= Seq::<DiagnosisV>::empty());
        assert(state.model() == init_engine());
    }
    let mut reader = CharacterReader::new(input, config.charset);

    let bom_required = matches!(config.charset, Some(Charset::Utf8WithBom));
    let bom_optional = matches!(
        config.charset,
        Some(Charset::Utf16BigEndian) | Some(Charset::Utf16LittleEndian),
    );
    if bom_required || bom_optional {
        let ch = reader.next();
        proof {
            lemma_decode_bounds(mode, bytes, 0);
            lemma_tokens_head(mode, bytes, 0);
        }
        let is_bom = matches!(ch, Some(Character::Bom));
        if bom_required && !is_bom {
            state.push_diagnosis(Diagnosis { line: 1, range: (0, 0), reason: Reason::BomNotFound });
        }
        match ch {
            Some(Character::Bom) => {},
            Some(c) => {
                proof {
                    lemma_step_wf(state.model(), c@, config);
                }
                state.check_ch(c, &config);
            },
            None => {},
        }
    }

    loop
        invariant
            bytes == input@,
            reader.source() == bytes,
            reader.mode() == mode,
            0 <= reader.offset() <= bytes.len(),
            bytes.len() < usize::MAX,
            config_wf(config),
            wf_engine(state.model()),
            state.model().col <= 1 + reader.offset(),
            state.model().line <= 1 + reader.offset(),
            run_engine(state.model(), tokens_from(mode, bytes, reader.offset()), config).diags
                == spec_check(bytes, config),
        decreases bytes.len() - reader.offset(),
    {
        let ghost before: int = reader.offset();
        let ch = reader.next();
        proof {
            lemma_decode_bounds(mode, bytes, before);
            lemma_tokens_head(mode, bytes, before);
        }
        match ch {
            None => {
                proof {
                    assert(tokens_from(mode, bytes, before) == Seq::<Token>::empty());
                    assert(run_engine(state.model(), Seq::<Token>::empty(), config)
                        == state.model());
                }
                return state.diagnosis;
            },
            Some(c) => {
                proof {
                    lemma_run_step(state.model(), tokens_from(mode, bytes, before), config);
                    lemma_step_wf(state.model(), c@, config);
                }
                state.check_ch(c, &config);
            },
        }
    }
}

} // verus!
