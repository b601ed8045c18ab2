use vstd::prelude::*;
use vstd::string::StringSliceAdditionalSpecFns;
use vstd::utf8::{
    decode_utf8, decode_utf8_split, encode_utf8_decode_utf8, encode_utf8_valid_utf8,
    is_char_boundary, is_char_boundary_start_end_of_seq, valid_utf8,
};

use crate::fixed_buffer::{bounded_prefix, lemma_writes_compose, FixedBuffer};
use crate::severity::{ascii_bytes, lemma_ascii_str_bytes, lemma_small_index, SeverityLevel};

verus! {

/// The maximum length in bytes of a whole log line. Longer messages are
/// truncated so that the line fits.
pub const MAXIMUM_MESSAGE_LENGTH: usize = 1024;

/// Appended to a message that was truncated.
pub const TRUNCATION_SUFFIX: &'static str = "... [TRUNCATED].";

/// Separates the tag from the message.
pub const COLON_SEPARATOR: &'static str = ": ";

/// Ends every log line.
pub const NEWLINE: &'static str = "\n";

/// The stream a log line goes to.
#[derive(Debug, Clone, Copy, PartialEq, Eq, Structural)]
pub enum OutputStream {
    /// Standard output.
    Stdout,
    /// Standard error.
    Stderr,
}

/// One complete log line and the stream it is meant for.
pub struct LogLine {
    /// Where the line goes.
    pub stream: OutputStream,
    /// The exact bytes of the line, newline included.
    pub bytes: Vec<u8>,
}

/// The lengths and bytes of the fixed pieces of a log line.
pub proof fn lemma_separator_bytes()
    ensures
        COLON_SEPARATOR.spec_bytes() == ascii_bytes(COLON_SEPARATOR@),
        TRUNCATION_SUFFIX.spec_bytes() == ascii_bytes(TRUNCATION_SUFFIX@),
        NEWLINE.spec_bytes() == ascii_bytes(NEWLINE@),
        COLON_SEPARATOR.spec_bytes().len() == 2,
        TRUNCATION_SUFFIX.spec_bytes().len() == 16,
        NEWLINE.spec_bytes().len() == 1,
{
    reveal_strlit(": ");
    reveal_strlit("... [TRUNCATED].");
    reveal_strlit("\n");
    assert forall|i: int| 0 <= i < COLON_SEPARATOR@.len() implies '\0' <= #[trigger] COLON_SEPARATOR@[i]
        <= '\u{7f}' by {
        lemma_small_index(i, COLON_SEPARATOR@.len() as int);
    }
    assert forall|i: int| 0 <= i < TRUNCATION_SUFFIX@.len() implies '\0'
        <= #[trigger] TRUNCATION_SUFFIX@[i] <= '\u{7f}' by {
        lemma_small_index(i, TRUNCATION_SUFFIX@.len() as int);
    }
    assert forall|i: int| 0 <= i < NEWLINE@.len() implies '\0' <= #[trigger] NEWLINE@[i]
        <= '\u{7f}' by {
        lemma_small_index(i, NEWLINE@.len() as int);
    }
    lemma_ascii_str_bytes(COLON_SEPARATOR);
    lemma_ascii_str_bytes(TRUNCATION_SUFFIX);
    lemma_ascii_str_bytes(NEWLINE);
}

/// Whether a logger whose minimal level is `minimal` keeps messages of `level`:
/// it keeps every level at least as severe as its minimal one.
pub open spec fn is_enabled_for(minimal: SeverityLevel, level: SeverityLevel) -> bool {
    level.rank() <= minimal.rank()
}

/// The stream of a level: standard error for `Warning` and more severe levels,
/// standard output for the others.
pub open spec fn stream_for(level: SeverityLevel) -> OutputStream {
    if level.rank() <= SeverityLevel::Warning.rank() {
        OutputStream::Stderr
    } else {
        OutputStream::Stdout
    }
}

/// The bytes of the tag of a level.
pub open spec fn tag_bytes(level: SeverityLevel) -> Seq<u8> {
    ascii_bytes(level.tag_text())
}

/// How many bytes of message fit on a line of the level once the tag, the
/// separator, a truncation suffix and the newline are counted.
pub open spec fn message_budget(level: SeverityLevel) -> int {
    MAXIMUM_MESSAGE_LENGTH - (tag_bytes(level).len() + COLON_SEPARATOR.spec_bytes().len()
        + TRUNCATION_SUFFIX.spec_bytes().len() + NEWLINE.spec_bytes().len())
}

/// The largest character boundary of `bytes` that is at most `index`
/// (0 when `index` is not positive).
pub open spec fn floor_char_boundary(bytes: Seq<u8>, index: int) -> int
    decreases index,
{
    if index <= 0 {
        0
    } else if is_char_boundary(bytes, index) {
        index
    } else {
        floor_char_boundary(bytes, index - 1)
    }
}

/// The number of bytes of `bytes` kept when it may hold at most `maximum` bytes:
/// all of them when they fit, else up to the last character boundary that fits.
pub open spec fn kept_len(bytes: Seq<u8>, maximum: int) -> int {
    if bytes.len() <= maximum {
        bytes.len() as int
    } else {
        floor_char_boundary(bytes, maximum)
    }
}

/// The bytes of a log line: tag, separator, message, the truncation suffix
/// when the message was truncated, and the newline.
pub open spec fn line_bytes(tag: Seq<u8>, message: Seq<u8>, is_truncated: bool) -> Seq<u8> {
    tag + COLON_SEPARATOR.spec_bytes() + message + (if is_truncated {
        TRUNCATION_SUFFIX.spec_bytes()
    } else {
        Seq::empty()
    }) + NEWLINE.spec_bytes()
}

/// The line logged for a message of the given level, truncated to the
/// level's budget when it is too long.
pub open spec fn log_line_bytes(level: SeverityLevel, message: Seq<u8>) -> Seq<u8> {
    let budget = message_budget(level);
    if message.len() <= budget {
        line_bytes(tag_bytes(level), message, false)
    } else {
        line_bytes(tag_bytes(level), message.subrange(0, kept_len(message, budget)), true)
    }
}

/// What logging `message` at `level` gives on a logger whose minimal level is
/// `minimal`: nothing when the level is filtered out, else the line of the
/// message on the level's stream.
pub open spec fn log_outcome(
    minimal: SeverityLevel,
    level: SeverityLevel,
    message: Seq<u8>,
    result: Option<LogLine>,
) -> bool {
    match result {
        None => !is_enabled_for(minimal, level),
        Some(line) => {
            &&& is_enabled_for(minimal, level)
            &&& line.stream == stream_for(level)
            &&& line.bytes@ == log_line_bytes(level, message)
        },
    }
}

/// The largest character boundary at most `index` is a character boundary,
/// is at most `index`, and no character boundary lies above it up to `index`.
pub proof fn lemma_floor_char_boundary(bytes: Seq<u8>, index: int)
    requires
        valid_utf8(bytes),
    ensures
        0 <= floor_char_boundary(bytes, index),
        index >= 0 ==> floor_char_boundary(bytes, index) <= index,
        is_char_boundary(bytes, floor_char_boundary(bytes, index)),
        forall|j: int|
            floor_char_boundary(bytes, index) < j <= index ==> !#[trigger] is_char_boundary(
                bytes,
                j,
            ),
    decreases index,
{
    is_char_boundary_start_end_of_seq(bytes);
    if index > 0 && !is_char_boundary(bytes, index) {
        lemma_floor_char_boundary(bytes, index - 1);
    }
}

/// The bytes of the pieces, one after the other.
pub open spec fn concat_bytes(pieces: Seq<Seq<u8>>) -> Seq<u8>
    decreases pieces.len(),
{
    if pieces.len() == 0 {
        Seq::empty()
    } else {
        concat_bytes(pieces.drop_last()) + pieces.last()
    }
}

/// The UTF-8 bytes of each of the strings.
pub open spec fn pieces_bytes(pieces: Seq<&str>) -> Seq<Seq<u8>> {
    pieces.map_values(|piece: &str| piece.spec_bytes())
}

/// The message made of pieces written one after the other into a buffer of
/// `MAXIMUM_MESSAGE_LENGTH` bytes: what fits of them, or the empty message
/// when what fits is not valid UTF-8.
pub open spec fn formatted_message(pieces: Seq<Seq<u8>>) -> Seq<u8> {
    let kept = bounded_prefix(concat_bytes(pieces), MAXIMUM_MESSAGE_LENGTH as int);
    if valid_utf8(kept) {
        kept
    } else {
        Seq::empty()
    }
}

/// A logger that keeps the messages at least as severe as its minimal level.
pub struct Logger {
    minimal_severity_level: SeverityLevel,
}

impl Logger {
    /// The minimal severity level of the logger.
    pub closed spec fn minimal_level(&self) -> SeverityLevel {
        self.minimal_severity_level
    }

    /// Returns a logger that keeps the messages of `minimal_severity_level`
    /// and of every more severe level.
    pub fn new(minimal_severity_level: SeverityLevel) -> (logger: Self)
        ensures
            logger.minimal_level() == minimal_severity_level,
    {
        Self { minimal_severity_level }
    }

    /// Whether messages of `severity_level` are kept by this logger.
    pub fn is_enabled(&self, severity_level: SeverityLevel) -> (enabled: bool)
        ensures
            enabled == is_enabled_for(self.minimal_level(), severity_level),
    {
        severity_level.as_u8() <= self.minimal_severity_level.as_u8()
    }

    /// Truncates `message` if its length in bytes exceeds `maximum_bytes`.
    ///
    /// Returns the kept part of the message and whether it was truncated.
    /// A truncated message is cut at the last character boundary that fits,
    /// so that no multi-byte character is ever split.
    pub fn truncate_log_utf8(message: &str, maximum_bytes: usize) -> (result: (&str, bool))
        ensures
            result.1 == (message.spec_bytes().len() > maximum_bytes),
            !result.1 ==> result.0@ == message@,
            result.0.spec_bytes() == message.spec_bytes().subrange(
                0,
                kept_len(message.spec_bytes(), maximum_bytes as int),
            ),
            result.0.spec_bytes().len() <= maximum_bytes,
            result.0@ == message@.subrange(0, result.0@.len() as int),
    {
        let ghost bytes = message.spec_bytes();
        proof {
            encode_utf8_valid_utf8(message@);
            lemma_floor_char_boundary(bytes, maximum_bytes as int);
        }
        let message_length = message.as_bytes().len();
        if message_length <= maximum_bytes {
            proof {
                assert(bytes.subrange(0, bytes.len() as int) =~= bytes);
                assert(message@.subrange(0, message@.len() as int) =~= message@);
            }
            return (message, false);
        }
        let mut boundary = maximum_bytes;
        while boundary > 0 && !message.is_char_boundary(boundary)
            invariant
                boundary <= maximum_bytes,
                maximum_bytes < bytes.len(),
                bytes == message.spec_bytes(),
                valid_utf8(bytes),
                floor_char_boundary(bytes, boundary as int) == floor_char_boundary(
                    bytes,
                    maximum_bytes as int,
                ),
            decreases boundary,
        {
            boundary -= 1;
        }
        proof {
            is_char_boundary_start_end_of_seq(bytes);
            assert(floor_char_boundary(bytes, boundary as int) == boundary);
        }
        let (truncated_message, _) = message.split_at(boundary);
        proof {
            let prefix = bytes.subrange(0, boundary as int);
            let rest = bytes.subrange(boundary as int, bytes.len() as int);
            decode_utf8_split(bytes, boundary as int);
            encode_utf8_decode_utf8(message@);
            encode_utf8_decode_utf8(truncated_message@);
            assert(truncated_message@ == decode_utf8(prefix));
            assert(message@ == decode_utf8(prefix) + decode_utf8(rest));
            assert(truncated_message@ =~= message@.subrange(0, truncated_message@.len() as int));
        }
        (truncated_message, true)
    }

    /// Appends one log line to `writer`: the tag, the separator, the message,
    /// the truncation suffix when `is_truncated` holds, and the newline.
    /// Returns the number of bytes written.
    pub fn write_and_count(
        writer: &mut Vec<u8>,
        tag: &'static str,
        message: &str,
        is_truncated: bool,
    ) -> (total_bytes: usize)
        requires
            tag.spec_bytes().len() > 0,
            line_bytes(tag.spec_bytes(), message.spec_bytes(), is_truncated).len() <= usize::MAX,
        ensures
            final(writer)@ == old(writer)@ + line_bytes(
                tag.spec_bytes(),
                message.spec_bytes(),
                is_truncated,
            ),
            total_bytes == line_bytes(tag.spec_bytes(), message.spec_bytes(), is_truncated).len(),
    {
        proof {
            lemma_separator_bytes();
        }
        let mut total_bytes: usize = 0;
        writer.extend_from_slice(tag.as_bytes());
        total_bytes += tag.len();
        writer.extend_from_slice(COLON_SEPARATOR.as_bytes());
        total_bytes += COLON_SEPARATOR.len();
        writer.extend_from_slice(message.as_bytes());
        total_bytes += message.len();
        if is_truncated {
            writer.extend_from_slice(TRUNCATION_SUFFIX.as_bytes());
            total_bytes += TRUNCATION_SUFFIX.len();
        }
        writer.extend_from_slice(NEWLINE.as_bytes());
        total_bytes += NEWLINE.len();
        proof {
            assert(writer@ =~= old(writer)@ + line_bytes(
                tag.spec_bytes(),
                message.spec_bytes(),
                is_truncated,
            ));
        }
        total_bytes
    }

    /// Logs `message` with `severity_level`.
    ///
    /// Messages of a level less severe than the minimal level of the logger
    /// are dropped (`None`). Otherwise the result is the line to write and its
    /// stream; a message too long for the line is truncated so that the whole
    /// line takes at most `MAXIMUM_MESSAGE_LENGTH` bytes.
    pub fn log(&self, severity_level: SeverityLevel, message: &str) -> (result: Option<LogLine>)
        ensures
            log_outcome(self.minimal_level(), severity_level, message.spec_bytes(), result),
            result matches Some(line) ==> 0 < line.bytes@.len() <= MAXIMUM_MESSAGE_LENGTH,
    {
        if severity_level.as_u8() > self.minimal_severity_level.as_u8() {
            return None;
        }
        let tag = severity_level.as_tag();
        proof {
            lemma_separator_bytes();
            encode_utf8_valid_utf8(message@);
            lemma_log_line_length_bounds(severity_level, message.spec_bytes());
        }
        let total_overhead = tag.len() + COLON_SEPARATOR.len() + TRUNCATION_SUFFIX.len()
            + NEWLINE.len();
        let maximum_message_budget = MAXIMUM_MESSAGE_LENGTH - total_overhead;
        let (safe_message, is_truncated) = Self::truncate_log_utf8(message, maximum_message_budget);
        let stream = if severity_level.as_u8() <= SeverityLevel::Warning.as_u8() {
            OutputStream::Stderr
        } else {
            OutputStream::Stdout
        };
        let mut bytes: Vec<u8> = Vec::new();
        let bytes_written = Self::write_and_count(&mut bytes, tag, safe_message, is_truncated);
        proof {
            assert(bytes@ =~= log_line_bytes(severity_level, message.spec_bytes()));
            assert(0 < bytes_written <= MAXIMUM_MESSAGE_LENGTH);
        }
        Some(LogLine { stream, bytes })
    }

    /// Logs a message given as pieces, formatted into a fixed buffer of
    /// `MAXIMUM_MESSAGE_LENGTH` bytes first.
    ///
    /// Nothing is formatted when the level is filtered out.
    pub fn log_args(&self, severity_level: SeverityLevel, pieces: &[&str]) -> (result: Option<
        LogLine,
    >)
        ensures
            log_outcome(
                self.minimal_level(),
                severity_level,
                formatted_message(pieces_bytes(pieces@)),
                result,
            ),
    {
        if !self.is_enabled(severity_level) {
            return None;
        }
        let mut buffer = FixedBuffer::<MAXIMUM_MESSAGE_LENGTH>::new();
        let ghost all = pieces_bytes(pieces@);
        let mut i: usize = 0;
        while i < pieces.len()
            invariant
                i <= pieces@.len(),
                all == pieces_bytes(pieces@),
                buffer.contents() == bounded_prefix(
                    concat_bytes(all.subrange(0, i as int)),
                    MAXIMUM_MESSAGE_LENGTH as int,
                ),
            decreases pieces@.len() - i,
        {
            let _ = buffer.write_str(pieces[i]);
            proof {
                let done = all.subrange(0, i as int);
                let next = all.subrange(0, i + 1);
                assert(next.drop_last() =~= done);
                assert(concat_bytes(next) == concat_bytes(done) + pieces@[i as int].spec_bytes());
                let c = concat_bytes(done);
                let p = pieces@[i as int].spec_bytes();
                assert(Seq::<u8>::empty() + c =~= c);
                lemma_writes_compose(Seq::empty(), c, p, MAXIMUM_MESSAGE_LENGTH as int);
            }
            i += 1;
        }
        proof {
            assert(all.subrange(0, pieces@.len() as int) =~= all);
        }
        let message = buffer.as_str();
        self.log(severity_level, message)
    }

    /// Logs `message` with `SeverityLevel::Emerg`.
    pub fn emergency(&self, message: &str) -> (result: Option<LogLine>)
        ensures
            log_outcome(self.minimal_level(), SeverityLevel::Emerg, message.spec_bytes(), result),
    {
        self.log(SeverityLevel::Emerg, message)
    }

    /// Logs `message` with `SeverityLevel::Alert`.
    pub fn alert(&self, message: &str) -> (result: Option<LogLine>)
        ensures
            log_outcome(self.minimal_level(), SeverityLevel::Alert, message.spec_bytes(), result),
    {
        self.log(SeverityLevel::Alert, message)
    }

    /// Logs `message` with `SeverityLevel::Crit`.
    pub fn critical(&self, message: &str) -> (result: Option<LogLine>)
        ensures
            log_outcome(self.minimal_level(), SeverityLevel::Crit, message.spec_bytes(), result),
    {
        self.log(SeverityLevel::Crit, message)
    }

    /// Logs `message` with `SeverityLevel::Error`.
    pub fn error(&self, message: &str) -> (result: Option<LogLine>)
        ensures
            log_outcome(self.minimal_level(), SeverityLevel::Error, message.spec_bytes(), result),
    {
        self.log(SeverityLevel::Error, message)
    }

    /// Logs `message` with `SeverityLevel::Warning`.
    pub fn warning(&self, message: &str) -> (result: Option<LogLine>)
        ensures
            log_outcome(self.minimal_level(), SeverityLevel::Warning, message.spec_bytes(), result),
    {
        self.log(SeverityLevel::Warning, message)
    }

    /// Logs `message` with `SeverityLevel::Notice`.
    pub fn notice(&self, message: &str) -> (result: Option<LogLine>)
        ensures
            log_outcome(self.minimal_level(), SeverityLevel::Notice, message.spec_bytes(), result),
    {
        self.log(SeverityLevel::Notice, message)
    }

    /// Logs `message` with `SeverityLevel::Info`.
    pub fn info(&self, message: &str) -> (result: Option<LogLine>)
        ensures
            log_outcome(self.minimal_level(), SeverityLevel::Info, message.spec_bytes(), result),
    {
        self.log(SeverityLevel::Info, message)
    }

    /// Logs `message` with `SeverityLevel::Debug`.
    pub fn debug(&self, message: &str) -> (result: Option<LogLine>)
        ensures
            log_outcome(self.minimal_level(), SeverityLevel::Debug, message.spec_bytes(), result),
    {
        self.log(SeverityLevel::Debug, message)
    }
}


/// Every line the logger writes holds at least one byte and at most
/// `MAXIMUM_MESSAGE_LENGTH` bytes, whatever the message.
pub proof fn lemma_log_line_length_bounds(level: SeverityLevel, message: Seq<u8>)
    requires
        valid_utf8(message),
    ensures
        0 < log_line_bytes(level, message).len() <= MAXIMUM_MESSAGE_LENGTH,
{
    lemma_separator_bytes();
    lemma_tag_bytes_len(level);
    let budget = message_budget(level);
    if message.len() > budget {
        lemma_floor_char_boundary(message, budget);
    }
}

/// The tag of every level takes between 6 and 11 bytes.
pub proof fn lemma_tag_bytes_len(level: SeverityLevel)
    ensures
        6 <= tag_bytes(level).len() <= 11,
{
    reveal_strlit("[EMERGENCY]");
    reveal_strlit("[ALERT]");
    reveal_strlit("[CRITICAL]");
    reveal_strlit("[ERROR]");
    reveal_strlit("[WARNING]");
    reveal_strlit("[NOTICE]");
    reveal_strlit("[INFO]");
    reveal_strlit("[DEBUG]");
}

/// A logger keeps every level more severe than a level it keeps; `Emerg` is
/// kept by every logger, and a logger whose minimal level is `Debug` keeps
/// every level.
pub proof fn lemma_enabled_levels_are_monotone(
    minimal: SeverityLevel,
    kept: SeverityLevel,
    more_severe: SeverityLevel,
)
    requires
        is_enabled_for(minimal, kept),
        more_severe.rank() <= kept.rank(),
    ensures
        is_enabled_for(minimal, more_severe),
        is_enabled_for(minimal, SeverityLevel::Emerg),
        is_enabled_for(SeverityLevel::Debug, kept),
{
}

/// A message is dropped exactly when its level is not enabled on the logger.
pub proof fn lemma_dropped_iff_disabled(
    minimal: SeverityLevel,
    level: SeverityLevel,
    message: Seq<u8>,
    result: Option<LogLine>,
)
    requires
        log_outcome(minimal, level, message, result),
    ensures
        result is None <==> !is_enabled_for(minimal, level),
        result matches Some(line) ==> line.stream == stream_for(level),
{
}

/// A message that fits is logged whole: the line is the tag, the separator,
/// the message and the newline, so its length is theirs added up.
pub proof fn lemma_fitting_message_is_kept_whole(level: SeverityLevel, message: Seq<u8>)
    requires
        message.len() <= message_budget(level),
    ensures
        log_line_bytes(level, message) == tag_bytes(level) + COLON_SEPARATOR.spec_bytes() + message
            + NEWLINE.spec_bytes(),
        log_line_bytes(level, message).len() == tag_bytes(level).len() + message.len() + 3,
{
    lemma_separator_bytes();
    assert(log_line_bytes(level, message) =~= tag_bytes(level) + COLON_SEPARATOR.spec_bytes()
        + message + NEWLINE.spec_bytes());
}

/// A message too long for its line is cut at the last character boundary
/// within the budget, and the line says so with the truncation suffix. When
/// the budget itself falls on a character boundary (always for ASCII text),
/// exactly the budget is kept.
pub proof fn lemma_long_message_is_truncated(level: SeverityLevel, message: Seq<u8>)
    requires
        valid_utf8(message),
        message.len() > message_budget(level),
    ensures
        ({
            let kept = kept_len(message, message_budget(level));
            &&& 0 <= kept <= message_budget(level)
            &&& is_char_boundary(message, kept)
            &&& forall|j: int|
                kept < j <= message_budget(level) ==> !#[trigger] is_char_boundary(message, j)
            &&& log_line_bytes(level, message) == tag_bytes(level) + COLON_SEPARATOR.spec_bytes()
                + message.subrange(0, kept) + TRUNCATION_SUFFIX.spec_bytes()
                + NEWLINE.spec_bytes()
            &&& is_char_boundary(message, message_budget(level)) ==> kept == message_budget(
                level,
            )
        }),
{
    lemma_separator_bytes();
    lemma_tag_bytes_len(level);
    lemma_floor_char_boundary(message, message_budget(level));
}

/// A message given as one piece that fits the buffer is logged as the message
/// itself would be.
pub proof fn lemma_single_piece_is_the_message(piece: Seq<u8>)
    requires
        valid_utf8(piece),
        piece.len() <= MAXIMUM_MESSAGE_LENGTH,
    ensures
        formatted_message(seq![piece]) == piece,
{
    let pieces = seq![piece];
    assert(pieces.drop_last() =~= Seq::<Seq<u8>>::empty());
    assert(concat_bytes(Seq::<Seq<u8>>::empty()) == Seq::<u8>::empty());
    assert(pieces.last() == piece);
    assert(concat_bytes(pieces) =~= piece);
}

/// The tag of each level has the length of its text: 11 bytes for
/// `[EMERGENCY]`, 7 for `[ALERT]`, 10 for `[CRITICAL]`, 7 for `[ERROR]`, 9 for
/// `[WARNING]`, 8 for `[NOTICE]`, 6 for `[INFO]` and 7 for `[DEBUG]`. So the
/// room left for the message on a line of 1024 bytes, once the tag, `": "`,
/// the 16-byte truncation suffix and the newline are counted, is 994, 998,
/// 995, 998, 996, 997, 999 and 998 bytes.
pub proof fn lemma_budget_of_each_level(level: SeverityLevel)
    ensures
        message_budget(level) == 1024 - (tag_bytes(level).len() + 2 + 16 + 1),
        tag_bytes(level).len() == match level {
            SeverityLevel::Emerg => 11int,
            SeverityLevel::Alert => 7,
            SeverityLevel::Crit => 10,
            SeverityLevel::Error => 7,
            SeverityLevel::Warning => 9,
            SeverityLevel::Notice => 8,
            SeverityLevel::Info => 6,
            SeverityLevel::Debug => 7,
        },
        message_budget(level) == match level {
            SeverityLevel::Emerg => 994int,
            SeverityLevel::Alert => 998,
            SeverityLevel::Crit => 995,
            SeverityLevel::Error => 998,
            SeverityLevel::Warning => 996,
            SeverityLevel::Notice => 997,
            SeverityLevel::Info => 999,
            SeverityLevel::Debug => 998,
        },
{
    lemma_separator_bytes();
    reveal_strlit("[EMERGENCY]");
    reveal_strlit("[ALERT]");
    reveal_strlit("[CRITICAL]");
    reveal_strlit("[ERROR]");
    reveal_strlit("[WARNING]");
    reveal_strlit("[NOTICE]");
    reveal_strlit("[INFO]");
    reveal_strlit("[DEBUG]");
}

/// A message is kept whole exactly when the whole line with room for the
/// truncation suffix fits in 1024 bytes: then the line is the tag, `": "`,
/// the message and the newline. Otherwise the line ends with the truncation
/// suffix and the newline, after a part of the message that is shorter than
/// the message.
pub proof fn lemma_message_kept_whole_iff_line_fits(level: SeverityLevel, message: Seq<u8>)
    requires
        valid_utf8(message),
    ensures
        tag_bytes(level).len() + 2 + 16 + 1 + message.len() <= 1024 ==> log_line_bytes(
            level,
            message,
        ) == tag_bytes(level) + ": "@.map_values(|c: char| c as u8) + message + seq![10u8],
        tag_bytes(level).len() + 2 + 16 + 1 + message.len() > 1024 ==> ({
            let line = log_line_bytes(level, message);
            let kept = line.len() - (tag_bytes(level).len() + 2 + 16 + 1);
            &&& 0 <= kept < message.len()
            &&& line == tag_bytes(level) + ": "@.map_values(|c: char| c as u8)
                + message.subrange(0, kept) + "... [TRUNCATED]."@.map_values(
                |c: char| c as u8,
            ) + seq![10u8]
        }),
{
    lemma_budget_of_each_level(level);
    lemma_separator_bytes();
    reveal_strlit(": ");
    reveal_strlit("... [TRUNCATED].");
    reveal_strlit("\n");
    assert(COLON_SEPARATOR.spec_bytes() =~= ": "@.map_values(|c: char| c as u8));
    assert(TRUNCATION_SUFFIX.spec_bytes() =~= "... [TRUNCATED]."@.map_values(|c: char| c as u8));
    assert(NEWLINE.spec_bytes() =~= seq![10u8]);
    if tag_bytes(level).len() + 2 + 16 + 1 + message.len() > 1024 {
        lemma_floor_char_boundary(message, message_budget(level));
    }
}

/// Concatenation of pieces: no pieces give no bytes, and one more piece adds
/// its bytes at the end.
pub proof fn lemma_concat_bytes_appends(pieces: Seq<Seq<u8>>, piece: Seq<u8>)
    ensures
        concat_bytes(Seq::<Seq<u8>>::empty()) == Seq::<u8>::empty(),
        concat_bytes(pieces.push(piece)) == concat_bytes(pieces) + piece,
        concat_bytes(seq![piece]) == piece,
{
    assert(pieces.push(piece).drop_last() =~= pieces);
    assert(seq![piece].drop_last() =~= Seq::<Seq<u8>>::empty());
    assert(concat_bytes(Seq::<Seq<u8>>::empty()) == Seq::<u8>::empty());
    assert(seq![piece].last() == piece);
    assert(concat_bytes(seq![piece]) =~= piece);
}

/// The message of a formatted log call is the first 1024 bytes of the
/// pieces written one after the other (all of them when there are fewer),
/// however long the pieces are, whenever those bytes are valid UTF-8. When
/// the buffer ends inside a character, the message is empty.
pub proof fn lemma_formatted_message_keeps_what_fits(pieces: Seq<Seq<u8>>)
    ensures
        ({
            let all = concat_bytes(pieces);
            let n = if all.len() <= 1024 {
                all.len() as int
            } else {
                1024
            };
            &&& valid_utf8(all.subrange(0, n)) ==> formatted_message(pieces) == all.subrange(
                0,
                n,
            )
            &&& !valid_utf8(all.subrange(0, n)) ==> formatted_message(pieces)
                == Seq::<u8>::empty()
        }),
{
    let all = concat_bytes(pieces);
    assert(all.subrange(0, all.len() as int) =~= all);
}

/// A single piece of any length whose first 1024 bytes (all of it when it is
/// shorter) are valid UTF-8 is logged as those bytes.
pub proof fn lemma_single_piece_of_any_length(piece: Seq<u8>)
    ensures
        ({
            let n = if piece.len() <= 1024 {
                piece.len() as int
            } else {
                1024
            };
            valid_utf8(piece.subrange(0, n)) ==> formatted_message(seq![piece])
                == piece.subrange(0, n)
        }),
{
    lemma_concat_bytes_appends(Seq::empty(), piece);
    lemma_formatted_message_keeps_what_fits(seq![piece]);
}

} // verus!
