//! Decoders that turn a byte stream into a stream of character tokens, one
//! decoder per supported character set.

use vstd::prelude::*;

use crate::config::Charset;

verus! {

/// Which line-terminator character a `NewLine` token carries.
#[derive(Debug, Clone, Copy, PartialEq, Eq)]
pub enum NewLineChar {
    Cr,
    Lf,
}

/// Which whitespace character an `Indent` token carries.
#[derive(Debug, Clone, Copy, PartialEq, Eq)]
pub enum IndentChar {
    Space,
    Tab,
}

/// Up to four raw bytes backing one decoded character.
#[derive(Debug, Clone, Copy, PartialEq, Eq)]
pub struct CharByteArray {
    pub len: u8,
    pub buffer: [u8; 4],
}

impl View for CharByteArray {
    type V = Seq<u8>;

    open spec fn view(&self) -> Seq<u8> {
        self.buffer@.take(self.len as int)
    }
}

impl CharByteArray {
    pub fn one(b0: u8) -> (r: Self)
        ensures
            r@ == seq![b0],
    {
        let r = CharByteArray { len: 1, buffer: [b0, 0, 0, 0] };
        proof {
            assert(r@ =~= seq![b0]);
        }
        r
    }

    pub fn two(b0: u8, b1: u8) -> (r: Self)
        ensures
            r@ == seq![b0, b1],
    {
        let r = CharByteArray { len: 2, buffer: [b0, b1, 0, 0] };
        proof {
            assert(r@ =~= seq![b0, b1]);
        }
        r
    }

    pub fn three(b0: u8, b1: u8, b2: u8) -> (r: Self)
        ensures
            r@ == seq![b0, b1, b2],
    {
        let r = CharByteArray { len: 3, buffer: [b0, b1, b2, 0] };
        proof {
            assert(r@ =~= seq![b0, b1, b2]);
        }
        r
    }

    pub fn four(b0: u8, b1: u8, b2: u8, b3: u8) -> (r: Self)
        ensures
            r@ == seq![b0, b1, b2, b3],
    {
        let r = CharByteArray { len: 4, buffer: [b0, b1, b2, b3] };
        proof {
            assert(r@ =~= seq![b0, b1, b2, b3]);
        }
        r
    }
}

/// One decoded character token.
#[derive(Debug, Clone, Copy, PartialEq, Eq)]
pub enum Character {
    Bom,
    Invalid(CharByteArray),
    NewLine(NewLineChar),
    Indent(IndentChar),
    Valid(CharByteArray),
}

/// The mathematical form of a character token: payload bytes are a sequence.
pub ghost enum Token {
    Bom,
    Invalid(Seq<u8>),
    NewLine(NewLineChar),
    Indent(IndentChar),
    Valid(Seq<u8>),
}

impl View for Character {
    type V = Token;

    open spec fn view(&self) -> Token {
        match self {
            Character::Bom => Token::Bom,
            Character::Invalid(b) => Token::Invalid(b@),
            Character::NewLine(nl) => Token::NewLine(*nl),
            Character::Indent(i) => Token::Indent(*i),
            Character::Valid(b) => Token::Valid(b@),
        }
    }
}

/// The token a returned `Option<Character>` stands for.
pub open spec fn opt_token(r: Option<Character>) -> Option<Token> {
    match r {
        Some(c) => Some(c@),
        None => None,
    }
}

/// How bytes are decoded into tokens; one mode per declared character set,
/// and a byte-transparent mode when no character set is declared.
pub ghost enum DecodeMode {
    Utf8,
    Latin1,
    Utf16Le,
    Utf16Be,
    Unchecked,
}

/// The decode mode a declared character set selects.
pub open spec fn mode_of(charset: Option<Charset>) -> DecodeMode {
    match charset {
        Some(Charset::Latin1) => DecodeMode::Latin1,
        Some(Charset::Utf8) => DecodeMode::Utf8,
        Some(Charset::Utf8WithBom) => DecodeMode::Utf8,
        Some(Charset::Utf16BigEndian) => DecodeMode::Utf16Be,
        Some(Charset::Utf16LittleEndian) => DecodeMode::Utf16Le,
        None => DecodeMode::Unchecked,
    }
}

/// The token a single special byte (CR, LF, space, tab) maps to.
pub open spec fn special_token(b: u8) -> Option<Token> {
    if b == 0x0D {
        Some(Token::NewLine(NewLineChar::Cr))
    } else if b == 0x0A {
        Some(Token::NewLine(NewLineChar::Lf))
    } else if b == 0x20 {
        Some(Token::Indent(IndentChar::Space))
    } else if b == 0x09 {
        Some(Token::Indent(IndentChar::Tab))
    } else {
        None
    }
}

/// Byte-transparent decoding: the four whitespace specials are recognized,
/// every other byte is a one-byte `Valid` token.
pub open spec fn decode_unchecked(bytes: Seq<u8>, pos: int) -> (Option<Token>, int) {
    if pos < 0 || pos >= bytes.len() {
        (None, pos)
    } else {
        let b = bytes[pos];
        match special_token(b) {
            Some(t) => (Some(t), pos + 1),
            None => (Some(Token::Valid(seq![b])), pos + 1),
        }
    }
}

/// Latin-1 decoding: as the byte-transparent mode, except that bytes in the
/// control bands 0x7F through 0xA0 are `Invalid`.
pub open spec fn decode_latin1(bytes: Seq<u8>, pos: int) -> (Option<Token>, int) {
    if pos < 0 || pos >= bytes.len() {
        (None, pos)
    } else {
        let b = bytes[pos];
        match special_token(b) {
            Some(t) => (Some(t), pos + 1),
            None => if 0x7F <= b && b <= 0xA0 {
                (Some(Token::Invalid(seq![b])), pos + 1)
            } else {
                (Some(Token::Valid(seq![b])), pos + 1)
            },
        }
    }
}

/// How many bytes a UTF-8 sequence headed by `b0` announces, or 0 when `b0`
/// is no valid leading byte.
pub open spec fn utf8_seq_len(b0: u8) -> int {
    if 0xF0 <= b0 && b0 <= 0xF7 {
        4
    } else if 0xE0 <= b0 && b0 <= 0xEF {
        3
    } else if 0xC0 <= b0 && b0 <= 0xDF {
        2
    } else {
        0
    }
}

/// Whether a byte is a UTF-8 continuation byte.
pub open spec fn is_continuation(b: u8) -> bool {
    0x80 <= b && b <= 0xBF
}

/// Whether a two- to four-byte sequence is a well-formed UTF-8 encoding of
/// one code point (overlong forms and surrogates are excluded).
pub open spec fn utf8_seq_valid(s: Seq<u8>) -> bool {
    if s.len() == 2 {
        0xC2 <= s[0] && s[0] <= 0xDF && is_continuation(s[1])
    } else if s.len() == 3 {
        is_continuation(s[2]) && ((s[0] == 0xE0 && 0xA0 <= s[1] && s[1] <= 0xBF) || (0xE1 <= s[0]
            && s[0] <= 0xEC && is_continuation(s[1])) || (s[0] == 0xED && 0x80 <= s[1] && s[1]
            <= 0x9F) || (0xEE <= s[0] && s[0] <= 0xEF && is_continuation(s[1])))
    } else if s.len() == 4 {
        is_continuation(s[2]) && is_continuation(s[3]) && ((s[0] == 0xF0 && 0x90 <= s[1] && s[1]
            <= 0xBF) || (0xF1 <= s[0] && s[0] <= 0xF3 && is_continuation(s[1])) || (s[0] == 0xF4
            && 0x80 <= s[1] && s[1] <= 0x8F))
    } else {
        false
    }
}

/// The UTF-8 encoding of the byte-order mark U+FEFF.
pub open spec fn utf8_bom() -> Seq<u8> {
    seq![0xEFu8, 0xBBu8, 0xBFu8]
}

/// UTF-8 decoding. ASCII specials and other ASCII bytes are one token each; a
/// leading byte announces a multi-byte sequence, which is taken whole when
/// complete and well formed (the encoded U+FEFF is the byte-order mark), and
/// as an `Invalid` token of all bytes read otherwise.
pub open spec fn decode_utf8(bytes: Seq<u8>, pos: int) -> (Option<Token>, int) {
    if pos < 0 || pos >= bytes.len() {
        (None, pos)
    } else {
        let b0 = bytes[pos];
        match special_token(b0) {
            Some(t) => (Some(t), pos + 1),
            None => if b0 < 0x80 {
                (Some(Token::Valid(seq![b0])), pos + 1)
            } else {
                let n = utf8_seq_len(b0);
                if n == 0 {
                    (Some(Token::Invalid(seq![b0])), pos + 1)
                } else {
                    let avail = if bytes.len() - pos >= n {
                        n
                    } else {
                        bytes.len() - pos
                    };
                    let taken = bytes.subrange(pos, pos + avail);
                    if avail == n && utf8_seq_valid(taken) {
                        if taken == utf8_bom() {
                            (Some(Token::Bom), pos + avail)
                        } else {
                            (Some(Token::Valid(taken)), pos + avail)
                        }
                    } else {
                        (Some(Token::Invalid(taken)), pos + avail)
                    }
                }
            },
        }
    }
}

/// UTF-16, little endian: two bytes per code unit, low byte first; a high
/// surrogate unit takes the following unit with it, which must be a low
/// surrogate. A lone byte at the end of input is `Invalid`.
pub open spec fn decode_utf16le(bytes: Seq<u8>, pos: int) -> (Option<Token>, int) {
    if pos < 0 || pos >= bytes.len() {
        (None, pos)
    } else if bytes.len() - pos == 1 {
        (Some(Token::Invalid(seq![bytes[pos]])), pos + 1)
    } else {
        let b0 = bytes[pos];
        let b1 = bytes[pos + 1];
        if b1 == 0x00 && special_token(b0) is Some {
            (special_token(b0), pos + 2)
        } else if b0 == 0xFF && b1 == 0xFE {
            (Some(Token::Bom), pos + 2)
        } else if 0xD8 <= b1 && b1 <= 0xDB {
            let avail = if bytes.len() - pos - 2 >= 2 {
                2int
            } else {
                bytes.len() - pos - 2
            };
            let taken = bytes.subrange(pos, pos + 2 + avail);
            if avail == 2 && 0xDC <= bytes[pos + 3] && bytes[pos + 3] <= 0xDF {
                (Some(Token::Valid(taken)), pos + 4)
            } else {
                (Some(Token::Invalid(taken)), pos + 2 + avail)
            }
        } else {
            (Some(Token::Valid(seq![b0, b1])), pos + 2)
        }
    }
}

/// UTF-16, big endian: as the little-endian decoder with the bytes of each
/// unit swapped.
pub open spec fn decode_utf16be(bytes: Seq<u8>, pos: int) -> (Option<Token>, int) {
    if pos < 0 || pos >= bytes.len() {
        (None, pos)
    } else if bytes.len() - pos == 1 {
        (Some(Token::Invalid(seq![bytes[pos]])), pos + 1)
    } else {
        let b0 = bytes[pos];
        let b1 = bytes[pos + 1];
        if b0 == 0x00 && special_token(b1) is Some {
            (special_token(b1), pos + 2)
        } else if b0 == 0xFE && b1 == 0xFF {
            (Some(Token::Bom), pos + 2)
        } else if 0xD8 <= b0 && b0 <= 0xDB {
            let avail = if bytes.len() - pos - 2 >= 2 {
                2int
            } else {
                bytes.len() - pos - 2
            };
            let taken = bytes.subrange(pos, pos + 2 + avail);
            if avail == 2 && 0xDC <= bytes[pos + 2] && bytes[pos + 2] <= 0xDF {
                (Some(Token::Valid(taken)), pos + 4)
            } else {
                (Some(Token::Invalid(taken)), pos + 2 + avail)
            }
        } else {
            (Some(Token::Valid(seq![b0, b1])), pos + 2)
        }
    }
}

/// What one call of a reader yields: the next token, if any, and the position
/// the reader stands at afterwards.
pub open spec fn decode(mode: DecodeMode, bytes: Seq<u8>, pos: int) -> (Option<Token>, int) {
    match mode {
        DecodeMode::Utf8 => decode_utf8(bytes, pos),
        DecodeMode::Latin1 => decode_latin1(bytes, pos),
        DecodeMode::Utf16Le => decode_utf16le(bytes, pos),
        DecodeMode::Utf16Be => decode_utf16be(bytes, pos),
        DecodeMode::Unchecked => decode_unchecked(bytes, pos),
    }
}

/// A decoder consumes at least one byte per token, never walks past the end
/// of input, and yields a token exactly while input remains.
pub proof fn lemma_decode_bounds(mode: DecodeMode, bytes: Seq<u8>, pos: int)
    requires
        0 <= pos <= bytes.len(),
    ensures
        decode(mode, bytes, pos).0 is Some ==> pos < decode(mode, bytes, pos).1 <= bytes.len(),
        decode(mode, bytes, pos).0 is None ==> decode(mode, bytes, pos).1 == pos && pos
            == bytes.len(),
{
}

/// The whole token stream a decoder yields from `pos` to the end of input.
pub open spec fn tokens_from(mode: DecodeMode, bytes: Seq<u8>, pos: int) -> Seq<Token>
    decreases bytes.len() - pos,
{
    if pos < 0 || pos >= bytes.len() {
        Seq::empty()
    } else {
        let (t, after) = decode(mode, bytes, pos);
        match t {
            None => Seq::empty(),
            Some(t0) => seq![t0] + tokens_from(mode, bytes, after),
        }
    }
}

/// How the token stream at a position splits into the token decoded there and
/// the stream after it.
pub proof fn lemma_tokens_head(mode: DecodeMode, bytes: Seq<u8>, pos: int)
    requires
        0 <= pos <= bytes.len(),
    ensures
        decode(mode, bytes, pos).0 is None ==> tokens_from(mode, bytes, pos)
            == Seq::<Token>::empty(),
        decode(mode, bytes, pos).0 is Some ==> tokens_from(mode, bytes, pos).len() > 0
            && tokens_from(mode, bytes, pos)[0] == decode(mode, bytes, pos).0.unwrap()
            && tokens_from(mode, bytes, pos).drop_first() == tokens_from(
            mode,
            bytes,
            decode(mode, bytes, pos).1,
        ),
{
    lemma_decode_bounds(mode, bytes, pos);
    if decode(mode, bytes, pos).0 is Some {
        let t0 = decode(mode, bytes, pos).0.unwrap();
        let rest = tokens_from(mode, bytes, decode(mode, bytes, pos).1);
        assert(tokens_from(mode, bytes, pos) == seq![t0] + rest);
        assert((seq![t0] + rest).drop_first() =~= rest);
    }
}

/// A byte stream: the input and the position of the next unread byte.
struct ByteSource {
    bytes: Vec<u8>,
    pos: usize,
}

/// What every character reader offers: one token per call, decoded from the
/// reader's input at its current position.
pub trait Reader {
    /// The input this reader was built over.
    spec fn source(&self) -> Seq<u8>;

    /// The position of the next unread byte.
    spec fn offset(&self) -> int;

    /// The decode mode this reader applies.
    spec fn mode(&self) -> DecodeMode;

    /// Yields the next character token, or nothing at the end of input.
    fn next(&mut self) -> (r: Option<Character>)
        requires
            0 <= old(self).offset() <= old(self).source().len(),
        ensures
            final(self).source() == old(self).source(),
            final(self).mode() == old(self).mode(),
            opt_token(r) == decode(old(self).mode(), old(self).source(), old(self).offset()).0,
            final(self).offset() == decode(
                old(self).mode(),
                old(self).source(),
                old(self).offset(),
            ).1,
    ;
}

/// Reads one UTF-8 character per call.
pub struct Utf8Reader(ByteSource);

/// Reads one Latin-1 character per call.
pub struct Latin1Reader(ByteSource);

/// Reads one UTF-16 little-endian unit (or surrogate pair) per call.
pub struct Utf16LeReader(ByteSource);

/// Reads one UTF-16 big-endian unit (or surrogate pair) per call.
pub struct Utf16BeReader(ByteSource);

/// Reads one byte per call without checking any encoding.
pub struct UncheckedEncodingReader(ByteSource);

impl Reader for UncheckedEncodingReader {
    closed spec fn source(&self) -> Seq<u8> {
        self.0.bytes@
    }

    closed spec fn offset(&self) -> int {
        self.0.pos as int
    }

    open spec fn mode(&self) -> DecodeMode {
        DecodeMode::Unchecked
    }

    fn next(&mut self) -> (r: Option<Character>) {
        if self.0.pos >= self.0.bytes.len() {
            return None;
        }
        let b = self.0.bytes[self.0.pos];
        self.0.pos = self.0.pos + 1;
        if b == 0x0D {
            Some(Character::NewLine(NewLineChar::Cr))
        } else if b == 0x0A {
            Some(Character::NewLine(NewLineChar::Lf))
        } else if b == 0x20 {
            Some(Character::Indent(IndentChar::Space))
        } else if b == 0x09 {
            Some(Character::Indent(IndentChar::Tab))
        } else {
            Some(Character::Valid(CharByteArray::one(b)))
        }
    }
}

impl Reader for Latin1Reader {
    closed spec fn source(&self) -> Seq<u8> {
        self.0.bytes@
    }

    closed spec fn offset(&self) -> int {
        self.0.pos as int
    }

    open spec fn mode(&self) -> DecodeMode {
        DecodeMode::Latin1
    }

    fn next(&mut self) -> (r: Option<Character>) {
        if self.0.pos >= self.0.bytes.len() {
            return None;
        }
        let b = self.0.bytes[self.0.pos];
        self.0.pos = self.0.pos + 1;
        if b == 0x0D {
            Some(Character::NewLine(NewLineChar::Cr))
        } else if b == 0x0A {
            Some(Character::NewLine(NewLineChar::Lf))
        } else if b == 0x20 {
            Some(Character::Indent(IndentChar::Space))
        } else if b == 0x09 {
            Some(Character::Indent(IndentChar::Tab))
        } else if 0x7F <= b && b <= 0xA0 {
            Some(Character::Invalid(CharByteArray::one(b)))
        } else {
            Some(Character::Valid(CharByteArray::one(b)))
        }
    }
}

impl Reader for Utf8Reader {
    closed spec fn source(&self) -> Seq<u8> {
        self.0.bytes@
    }

    closed spec fn offset(&self) -> int {
        self.0.pos as int
    }

    open spec fn mode(&self) -> DecodeMode {
        DecodeMode::Utf8
    }

    fn next(&mut self) -> (r: Option<Character>) {
        let len = self.0.bytes.len();
        if self.0.pos >= len {
            return None;
        }
        let b0 = self.0.bytes[self.0.pos];
        if b0 == 0x0D {
            self.0.pos = self.0.pos + 1;
            return Some(Character::NewLine(NewLineChar::Cr));
        }
        if b0 == 0x0A {
            self.0.pos = self.0.pos + 1;
            return Some(Character::NewLine(NewLineChar::Lf));
        }
        if b0 == 0x20 {
            self.0.pos = self.0.pos + 1;
            return Some(Character::Indent(IndentChar::Space));
        }
        if b0 == 0x09 {
            self.0.pos = self.0.pos + 1;
            return Some(Character::Indent(IndentChar::Tab));
        }
        if b0 < 0x80 {
            self.0.pos = self.0.pos + 1;
            return Some(Character::Valid(CharByteArray::one(b0)));
        }
        let n: usize = if 0xF0 <= b0 && b0 <= 0xF7 {
            4
        } else if 0xE0 <= b0 && b0 <= 0xEF {
            3
        } else if 0xC0 <= b0 && b0 <= 0xDF {
            2
        } else {
            0
        };
        if n == 0 {
            self.0.pos = self.0.pos + 1;
            return Some(Character::Invalid(CharByteArray::one(b0)));
        }
        let avail: usize = if len - self.0.pos >= n {
            n
        } else {
            len - self.0.pos
        };
        let b1: u8 = if avail >= 2 {
            self.0.bytes[self.0.pos + 1]
        } else {
            0
        };
        let b2: u8 = if avail >= 3 {
            self.0.bytes[self.0.pos + 2]
        } else {
            0
        };
        let b3: u8 = if avail >= 4 {
            self.0.bytes[self.0.pos + 3]
        } else {
            0
        };
        let ghost taken = self.0.bytes@.subrange(
            self.0.pos as int,
            self.0.pos + avail as int,
        );
        proof {
            if avail == 1 {
                assert(taken =~= seq![b0]);
            } else if avail == 2 {
                assert(taken =~= seq![b0, b1]);
            } else if avail == 3 {
                assert(taken =~= seq![b0, b1, b2]);
            } else {
                assert(taken =~= seq![b0, b1, b2, b3]);
            }
        }
        let valid: bool = if avail != n {
            false
        } else if n == 2 {
            0xC2 <= b0 && b0 <= 0xDF && 0x80 <= b1 && b1 <= 0xBF
        } else if n == 3 {
            (0x80 <= b2 && b2 <= 0xBF) && ((b0 == 0xE0 && 0xA0 <= b1 && b1 <= 0xBF) || (0xE1 <= b0
                && b0 <= 0xEC && 0x80 <= b1 && b1 <= 0xBF) || (b0 == 0xED && 0x80 <= b1 && b1
                <= 0x9F) || (0xEE <= b0 && b0 <= 0xEF && 0x80 <= b1 && b1 <= 0xBF))
        } else {
            (0x80 <= b2 && b2 <= 0xBF) && (0x80 <= b3 && b3 <= 0xBF) && ((b0 == 0xF0 && 0x90 <= b1
                && b1 <= 0xBF) || (0xF1 <= b0 && b0 <= 0xF3 && 0x80 <= b1 && b1 <= 0xBF) || (b0
                == 0xF4 && 0x80 <= b1 && b1 <= 0x8F))
        };
        self.0.pos = self.0.pos + avail;
        if valid {
            if n == 3 && b0 == 0xEF && b1 == 0xBB && b2 == 0xBF {
                proof {
                    assert(taken =~= utf8_bom());
                }
                Some(Character::Bom)
            } else {
                proof {
                    assert(taken != utf8_bom());
                }
                if n == 2 {
                    Some(Character::Valid(CharByteArray::two(b0, b1)))
                } else if n == 3 {
                    Some(Character::Valid(CharByteArray::three(b0, b1, b2)))
                } else {
                    Some(Character::Valid(CharByteArray::four(b0, b1, b2, b3)))
                }
            }
        } else {
            if avail == 1 {
                Some(Character::Invalid(CharByteArray::one(b0)))
            } else if avail == 2 {
                Some(Character::Invalid(CharByteArray::two(b0, b1)))
            } else if avail == 3 {
                Some(Character::Invalid(CharByteArray::three(b0, b1, b2)))
            } else {
                Some(Character::Invalid(CharByteArray::four(b0, b1, b2, b3)))
            }
        }
    }
}

impl Reader for Utf16LeReader {
    closed spec fn source(&self) -> Seq<u8> {
        self.0.bytes@
    }

    closed spec fn offset(&self) -> int {
        self.0.pos as int
    }

    open spec fn mode(&self) -> DecodeMode {
        DecodeMode::Utf16Le
    }

    fn next(&mut self) -> (r: Option<Character>) {
        let len = self.0.bytes.len();
        if self.0.pos >= len {
            return None;
        }
        if len - self.0.pos == 1 {
            let b0 = self.0.bytes[self.0.pos];
            self.0.pos = self.0.pos + 1;
            return Some(Character::Invalid(CharByteArray::one(b0)));
        }
        let b0 = self.0.bytes[self.0.pos];
        let b1 = self.0.bytes[self.0.pos + 1];
        if b1 == 0x00 && (b0 == 0x0D || b0 == 0x0A || b0 == 0x20 || b0 == 0x09) {
            self.0.pos = self.0.pos + 2;
            return if b0 == 0x0D {
                Some(Character::NewLine(NewLineChar::Cr))
            } else if b0 == 0x0A {
                Some(Character::NewLine(NewLineChar::Lf))
            } else if b0 == 0x20 {
                Some(Character::Indent(IndentChar::Space))
            } else {
                Some(Character::Indent(IndentChar::Tab))
            };
        }
        if b0 == 0xFF && b1 == 0xFE {
            self.0.pos = self.0.pos + 2;
            return Some(Character::Bom);
        }
        if 0xD8 <= b1 && b1 <= 0xDB {
            let rest = len - self.0.pos - 2;
            if rest >= 2 {
                let b2 = self.0.bytes[self.0.pos + 2];
                let b3 = self.0.bytes[self.0.pos + 3];
                proof {
                    assert(self.0.bytes@.subrange(self.0.pos as int, self.0.pos + 4int) =~= seq![
                        b0,
                        b1,
                        b2,
                        b3,
                    ]);
                }
                self.0.pos = self.0.pos + 4;
                if 0xDC <= b3 && b3 <= 0xDF {
                    return Some(Character::Valid(CharByteArray::four(b0, b1, b2, b3)));
                }
                return Some(Character::Invalid(CharByteArray::four(b0, b1, b2, b3)));
            } else if rest == 1 {
                let b2 = self.0.bytes[self.0.pos + 2];
                proof {
                    assert(self.0.bytes@.subrange(self.0.pos as int, self.0.pos + 3int) =~= seq![
                        b0,
                        b1,
                        b2,
                    ]);
                }
                self.0.pos = self.0.pos + 3;
                return Some(Character::Invalid(CharByteArray::three(b0, b1, b2)));
            } else {
                proof {
                    assert(self.0.bytes@.subrange(self.0.pos as int, self.0.pos + 2int) =~= seq![
                        b0,
                        b1,
                    ]);
                }
                self.0.pos = self.0.pos + 2;
                return Some(Character::Invalid(CharByteArray::two(b0, b1)));
            }
        }
        self.0.pos = self.0.pos + 2;
        Some(Character::Valid(CharByteArray::two(b0, b1)))
    }
}

impl Reader for Utf16BeReader {
    closed spec fn source(&self) -> Seq<u8> {
        self.0.bytes@
    }

    closed spec fn offset(&self) -> int {
        self.0.pos as int
    }

    open spec fn mode(&self) -> DecodeMode {
        DecodeMode::Utf16Be
    }

    fn next(&mut self) -> (r: Option<Character>) {
        let len = self.0.bytes.len();
        if self.0.pos >= len {
            return None;
        }
        if len - self.0.pos == 1 {
            let b0 = self.0.bytes[self.0.pos];
            self.0.pos = self.0.pos + 1;
            return Some(Character::Invalid(CharByteArray::one(b0)));
        }
        let b0 = self.0.bytes[self.0.pos];
        let b1 = self.0.bytes[self.0.pos + 1];
        if b0 == 0x00 && (b1 == 0x0D || b1 == 0x0A || b1 == 0x20 || b1 == 0x09) {
            self.0.pos = self.0.pos + 2;
            return if b1 == 0x0D {
                Some(Character::NewLine(NewLineChar::Cr))
            } else if b1 == 0x0A {
                Some(Character::NewLine(NewLineChar::Lf))
            } else if b1 == 0x20 {
                Some(Character::Indent(IndentChar::Space))
            } else {
                Some(Character::Indent(IndentChar::Tab))
            };
        }
        if b0 == 0xFE && b1 == 0xFF {
            self.0.pos = self.0.pos + 2;
            return Some(Character::Bom);
        }
        if 0xD8 <= b0 && b0 <= 0xDB {
            let rest = len - self.0.pos - 2;
            if rest >= 2 {
                let b2 = self.0.bytes[self.0.pos + 2];
                let b3 = self.0.bytes[self.0.pos + 3];
                proof {
                    assert(self.0.bytes@.subrange(self.0.pos as int, self.0.pos + 4int) =~= seq![
                        b0,
                        b1,
                        b2,
                        b3,
                    ]);
                }
                self.0.pos = self.0.pos + 4;
                if 0xDC <= b2 && b2 <= 0xDF {
                    return Some(Character::Valid(CharByteArray::four(b0, b1, b2, b3)));
                }
                return Some(Character::Invalid(CharByteArray::four(b0, b1, b2, b3)));
            } else if rest == 1 {
                let b2 = self.0.bytes[self.0.pos + 2];
                proof {
                    assert(self.0.bytes@.subrange(self.0.pos as int, self.0.pos + 3int) =~= seq![
                        b0,
                        b1,
                        b2,
                    ]);
                }
                self.0.pos = self.0.pos + 3;
                return Some(Character::Invalid(CharByteArray::three(b0, b1, b2)));
            } else {
                proof {
                    assert(self.0.bytes@.subrange(self.0.pos as int, self.0.pos + 2int) =~= seq![
                        b0,
                        b1,
                    ]);
                }
                self.0.pos = self.0.pos + 2;
                return Some(Character::Invalid(CharByteArray::two(b0, b1)));
            }
        }
        self.0.pos = self.0.pos + 2;
        Some(Character::Valid(CharByteArray::two(b0, b1)))
    }
}

/// One reader for each supported character set, behind a single `next`.
pub enum CharacterReader {
    Utf8(Utf8Reader),
    Latin1(Latin1Reader),
    Utf16Le(Utf16LeReader),
    Utf16Be(Utf16BeReader),
    UncheckedEncoding(UncheckedEncodingReader),
}

impl Reader for CharacterReader {
    open spec fn source(&self) -> Seq<u8> {
        match self {
            CharacterReader::Utf8(r) => r.source(),
            CharacterReader::Latin1(r) => r.source(),
            CharacterReader::Utf16Le(r) => r.source(),
            CharacterReader::Utf16Be(r) => r.source(),
            CharacterReader::UncheckedEncoding(r) => r.source(),
        }
    }

    open spec fn offset(&self) -> int {
        match self {
            CharacterReader::Utf8(r) => r.offset(),
            CharacterReader::Latin1(r) => r.offset(),
            CharacterReader::Utf16Le(r) => r.offset(),
            CharacterReader::Utf16Be(r) => r.offset(),
            CharacterReader::UncheckedEncoding(r) => r.offset(),
        }
    }

    open spec fn mode(&self) -> DecodeMode {
        match self {
            CharacterReader::Utf8(_) => DecodeMode::Utf8,
            CharacterReader::Latin1(_) => DecodeMode::Latin1,
            CharacterReader::Utf16Le(_) => DecodeMode::Utf16Le,
            CharacterReader::Utf16Be(_) => DecodeMode::Utf16Be,
            CharacterReader::UncheckedEncoding(_) => DecodeMode::Unchecked,
        }
    }

    fn next(&mut self) -> (r: Option<Character>) {
        match self {
            CharacterReader::Utf8(r) => r.next(),
            CharacterReader::Latin1(r) => r.next(),
            CharacterReader::Utf16Le(r) => r.next(),
            CharacterReader::Utf16Be(r) => r.next(),
            CharacterReader::UncheckedEncoding(r) => r.next(),
        }
    }
}

impl CharacterReader {
    /// The reader the declared character set calls for, standing at the start
    /// of the input.
    pub fn new(reader: Vec<u8>, charset: Option<Charset>) -> (r: Self)
        ensures
            r.source() == reader@,
            r.offset() == 0,
            r.mode() == mode_of(charset),
    {
        let source = ByteSource { bytes: reader, pos: 0 };
        match charset {
            Some(Charset::Latin1) => CharacterReader::Latin1(Latin1Reader(source)),
            Some(Charset::Utf8) => CharacterReader::Utf8(Utf8Reader(source)),
            Some(Charset::Utf8WithBom) => CharacterReader::Utf8(Utf8Reader(source)),
            Some(Charset::Utf16BigEndian) => CharacterReader::Utf16Be(Utf16BeReader(source)),
            Some(Charset::Utf16LittleEndian) => CharacterReader::Utf16Le(Utf16LeReader(source)),
            None => CharacterReader::UncheckedEncoding(UncheckedEncodingReader(source)),
        }
    }

}

} // verus!
