use vstd::prelude::*;
use chrono::format::ParseErrorKind;
use regex::Regex;
use crate::format::{
    accepted_tokens, is_complete, parsed_instant, search_pattern, strftime_tokens,
    DateTimeFormat,
};
use crate::items::Token;
use crate::instant::Instant;
use crate::pattern::{all_matches, compiled_from, matches_of, pattern_compiles, texts};

verus! {

/// Why a format string cannot be used.
#[derive(Debug, Clone, Copy, PartialEq, Eq, Structural)]
pub enum FormatError {
    /// The string holds a specifier that no format may hold.
    UnsupportedSpecifier,
    /// The fields of the format do not fix a full date and time.
    IncompleteFormat,
    /// The regex engine does not take the search pattern.
    PatternRejected,
}

/// Why a line gave no instant.
#[derive(Debug, Clone, Copy, PartialEq, Eq)]
pub enum ExtractError {
    /// The line has too few occurrences of the search pattern.
    NoMatch,
    /// The occurrence does not read as a date and time.
    ParseFailure(ParseErrorKind),
}

/// What the compiling of a format string comes to: its tokens, or the reason
/// why it cannot be used. An unsupported specifier is reported first, then a
/// format that says too little, then a pattern that the regex engine does
/// not take.
pub open spec fn compilation(format: Seq<char>) -> Result<Seq<Token>, FormatError> {
    match accepted_tokens(strftime_tokens(format)) {
        None => Err(FormatError::UnsupportedSpecifier),
        Some(tokens) => if !is_complete(tokens) {
            Err(FormatError::IncompleteFormat)
        } else if !pattern_compiles(search_pattern(tokens)) {
            Err(FormatError::PatternRejected)
        } else {
            Ok(tokens)
        },
    }
}

/// What a line gives under a format. The occurrences of the search pattern
/// in the line are counted from zero; where the line has too few of them for
/// `match_index` there is no match, and else the occurrence at that place is
/// read as a date and time.
pub open spec fn extraction(tokens: Seq<Token>, match_index: int, line: Seq<char>) -> Result<
    int,
    ExtractError,
> {
    let found = matches_of(search_pattern(tokens), line);
    if match_index >= found.len() {
        Err(ExtractError::NoMatch)
    } else {
        match parsed_instant(tokens, found[match_index]) {
            Ok(timestamp) => Ok(timestamp),
            Err(kind) => Err(ExtractError::ParseFailure(kind)),
        }
    }
}

/// A format that is ready for use: complete, with its search pattern
/// compiled.
pub struct CompiledFormat {
    format: DateTimeFormat,
    pattern: String,
    regex: Regex,
}

impl CompiledFormat {
    /// The tokens of the format.
    pub closed spec fn tokens(&self) -> Seq<Token> {
        self.format@
    }

    /// The search pattern of the format.
    pub closed spec fn pattern_text(&self) -> Seq<char> {
        self.pattern@
    }

    #[verifier::type_invariant]
    closed spec fn wf(&self) -> bool {
        &&& is_complete(self.format@)
        &&& self.pattern@ == search_pattern(self.format@)
        &&& compiled_from(self.regex) == Some(self.pattern@)
    }

    /// Compiles a format string into what finds and reads timestamps.
    pub fn compile(format_string: &str) -> (compiled: Result<CompiledFormat, FormatError>)
        ensures
            match compiled {
                Ok(ready) => compilation(format_string@) == Ok::<Seq<Token>, FormatError>(
                    ready.tokens(),
                ) && ready.pattern_text() == search_pattern(ready.tokens()),
                Err(error) => compilation(format_string@) == Err::<Seq<Token>, FormatError>(error),
            },
    {
        let format = match DateTimeFormat::new(format_string) {
            Some(format) => format,
            None => {
                return Err(FormatError::UnsupportedSpecifier);
            },
        };
        if !format.has_enough_info() {
            return Err(FormatError::IncompleteFormat);
        }
        let pattern = format.pattern();
        match Regex::new(pattern.as_str()) {
            Ok(regex) => Ok(CompiledFormat { format, pattern, regex }),
            Err(_) => Err(FormatError::PatternRejected),
        }
    }

    /// The search pattern.
    pub fn pattern(&self) -> (pattern: &str)
        ensures
            pattern@ == self.pattern_text(),
            pattern@ == search_pattern(self.tokens()),
    {
        proof {
            use_type_invariant(self);
        }
        self.pattern.as_str()
    }

    /// The format that was compiled.
    pub fn format(&self) -> (format: &DateTimeFormat)
        ensures
            format@ == self.tokens(),
    {
        &self.format
    }

    /// The instant that `line` holds at its occurrence number `match_index`
    /// of the search pattern, counted from zero.
    pub fn extract(&self, match_index: usize, line: &str) -> (instant: Result<
        Instant,
        ExtractError,
    >)
        ensures
            match instant {
                Ok(found) => extraction(self.tokens(), match_index as int, line@) == Ok::<
                    int,
                    ExtractError,
                >(found@),
                Err(error) => extraction(self.tokens(), match_index as int, line@) == Err::<
                    int,
                    ExtractError,
                >(error),
            },
            instant matches Err(ExtractError::NoMatch) <==> match_index >= matches_of(
                search_pattern(self.tokens()),
                line@,
            ).len(),
    {
        proof {
            use_type_invariant(self);
        }
        let found = all_matches(&self.regex, line);
        assert(found@.len() == texts(found@).len());
        if match_index >= found.len() {
            return Err(ExtractError::NoMatch);
        }
        assert(texts(found@)[match_index as int] == found@[match_index as int]@);
        match self.format.try_parse(found[match_index]) {
            Ok(instant) => Ok(instant),
            Err(kind) => Err(ExtractError::ParseFailure(kind)),
        }
    }
}

} // verus!
