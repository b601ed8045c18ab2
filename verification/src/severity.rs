use vstd::prelude::*;
use vstd::string::StringSliceAdditionalSpecFns;
use vstd::string::is_ascii_spec_bytes;
use vstd::utf8::is_ascii_chars;

verus! {

/// Standard severities of issues, from the most severe to the least.
#[derive(Debug, Clone, Copy, PartialEq, Eq, Structural, PartialOrd, Ord)]
pub enum SeverityLevel {
    /// System is unusable.
    Emerg,
    /// Action must be taken immediately.
    Alert,
    /// Critical conditions.
    Crit,
    /// Error conditions.
    Error,
    /// Warning conditions.
    Warning,
    /// Normal but significant conditions.
    Notice,
    /// Informational messages.
    Info,
    /// Debug-level messages.
    Debug,
}

impl SeverityLevel {
    /// Numeric syslog value of the level: 0 for `Emerg` up to 7 for `Debug`.
    /// A smaller value is a more severe level.
    pub open spec fn rank(self) -> u8 {
        match self {
            SeverityLevel::Emerg => 0,
            SeverityLevel::Alert => 1,
            SeverityLevel::Crit => 2,
            SeverityLevel::Error => 3,
            SeverityLevel::Warning => 4,
            SeverityLevel::Notice => 5,
            SeverityLevel::Info => 6,
            SeverityLevel::Debug => 7,
        }
    }

    /// The text of the tag of the level: its upper-case name in square brackets.
    pub open spec fn tag_text(self) -> Seq<char> {
        match self {
            SeverityLevel::Emerg => "[EMERGENCY]"@,
            SeverityLevel::Alert => "[ALERT]"@,
            SeverityLevel::Crit => "[CRITICAL]"@,
            SeverityLevel::Error => "[ERROR]"@,
            SeverityLevel::Warning => "[WARNING]"@,
            SeverityLevel::Notice => "[NOTICE]"@,
            SeverityLevel::Info => "[INFO]"@,
            SeverityLevel::Debug => "[DEBUG]"@,
        }
    }

    /// Returns the numeric syslog value of the level.
    pub fn as_u8(self) -> (value: u8)
        ensures
            value == self.rank(),
            value <= 7,
    {
        match self {
            SeverityLevel::Emerg => 0,
            SeverityLevel::Alert => 1,
            SeverityLevel::Crit => 2,
            SeverityLevel::Error => 3,
            SeverityLevel::Warning => 4,
            SeverityLevel::Notice => 5,
            SeverityLevel::Info => 6,
            SeverityLevel::Debug => 7,
        }
    }

    /// Returns the severity level as an upper-case tag string in square brackets.
    pub fn as_tag(self) -> (tag: &'static str)
        ensures
            tag@ == self.tag_text(),
            tag.spec_bytes() == ascii_bytes(self.tag_text()),
            6 <= tag.spec_bytes().len() <= 11,
    {
        let tag = match self {
            SeverityLevel::Emerg => {
                proof { reveal_strlit("[EMERGENCY]"); }
                "[EMERGENCY]"
            },
            SeverityLevel::Alert => {
                proof { reveal_strlit("[ALERT]"); }
                "[ALERT]"
            },
            SeverityLevel::Crit => {
                proof { reveal_strlit("[CRITICAL]"); }
                "[CRITICAL]"
            },
            SeverityLevel::Error => {
                proof { reveal_strlit("[ERROR]"); }
                "[ERROR]"
            },
            SeverityLevel::Warning => {
                proof { reveal_strlit("[WARNING]"); }
                "[WARNING]"
            },
            SeverityLevel::Notice => {
                proof { reveal_strlit("[NOTICE]"); }
                "[NOTICE]"
            },
            SeverityLevel::Info => {
                proof { reveal_strlit("[INFO]"); }
                "[INFO]"
            },
            SeverityLevel::Debug => {
                proof { reveal_strlit("[DEBUG]"); }
                "[DEBUG]"
            },
        };
        proof {
            assert forall|i: int| 0 <= i < tag@.len() implies '\0' <= #[trigger] tag@[i] <= '\u{7f}' by {
                lemma_small_index(i, tag@.len() as int);
            }
            lemma_ascii_str_bytes(tag);
        }
        tag
    }
}

/// Every index below a bound of at most 16 is one of the first 16 naturals.
pub proof fn lemma_small_index(i: int, n: int)
    requires
        0 <= i < n,
        n <= 16,
    ensures
        i == 0 || i == 1 || i == 2 || i == 3 || i == 4 || i == 5 || i == 6 || i == 7 || i == 8
            || i == 9 || i == 10 || i == 11 || i == 12 || i == 13 || i == 14 || i == 15,
{
}

/// The UTF-8 bytes of an ASCII string are its characters, one byte each.
pub proof fn lemma_ascii_str_bytes(s: &str)
    requires
        is_ascii_chars(s@),
    ensures
        s.spec_bytes() == ascii_bytes(s@),
        s.spec_bytes().len() == s@.len(),
{
    is_ascii_spec_bytes(s);
    assert(s.spec_bytes() =~= ascii_bytes(s@));
}

/// The bytes of a text made of ASCII characters only: one byte per character.
pub open spec fn ascii_bytes(chars: Seq<char>) -> Seq<u8> {
    Seq::new(chars.len(), |i: int| chars[i] as u8)
}

} // verus!
