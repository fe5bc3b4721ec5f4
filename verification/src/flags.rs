//! Mode flags: a short string of letters, read left to right, that settles
//! how the pattern is matched.

use vstd::prelude::*;

verus! {

/// The matching options that a flag string resolves to.
#[derive(Clone, Copy, Debug, PartialEq, Eq, Structural)]
pub struct MatchOptions {
    /// Letters match without regard to case.
    pub case_insensitive: bool,
    /// Line anchors match at every line, not only at the ends of the content.
    pub multi_line: bool,
    /// The "any character" construct also matches a newline.
    pub dot_all: bool,
    /// The pattern is wrapped in word-boundary anchors.
    pub word_boundary: bool,
}

/// The options in force before any flag is read: case-sensitive, multi-line,
/// dot stops at newlines, no word boundaries.
pub open spec fn initial_options() -> MatchOptions {
    MatchOptions { case_insensitive: false, multi_line: true, dot_all: false, word_boundary: false }
}

/// The options after one more flag letter. `keeps_lines` says whether the
/// letter `m` occurs anywhere in the whole flag string.
///
/// - `c` forces case-sensitive matching, `i` case-insensitive matching.
/// - `m` changes nothing; `e` turns multi-line matching off.
/// - `s` lets the dot match newlines, and turns multi-line matching off
///   unless `keeps_lines`.
/// - `w` asks for word boundaries and forgets what earlier letters had set
///   for case and for the dot: matching is case-sensitive again and the dot
///   stops at newlines again. Multi-line matching stays as it stands, and
///   what later letters set takes effect as usual.
/// - any other letter changes nothing.
pub open spec fn apply_flag(options: MatchOptions, flag: char, keeps_lines: bool) -> MatchOptions {
    if flag == 'c' {
        MatchOptions { case_insensitive: false, ..options }
    } else if flag == 'i' {
        MatchOptions { case_insensitive: true, ..options }
    } else if flag == 'e' {
        MatchOptions { multi_line: false, ..options }
    } else if flag == 's' {
        MatchOptions { multi_line: options.multi_line && keeps_lines, dot_all: true, ..options }
    } else if flag == 'w' {
        MatchOptions { case_insensitive: false, dot_all: false, word_boundary: true, ..options }
    } else {
        options
    }
}

/// The options after the first `n` letters of `flags`.
pub open spec fn options_after(flags: Seq<char>, n: int) -> MatchOptions
    decreases n,
{
    if n <= 0 {
        initial_options()
    } else {
        apply_flag(options_after(flags, n - 1), flags[n - 1], flags.contains('m'))
    }
}

/// The options that a whole flag string resolves to.
pub open spec fn resolve_flags(flags: Seq<char>) -> MatchOptions {
    options_after(flags, flags.len() as int)
}

impl MatchOptions {
    /// The options in force when no flags are given.
    pub fn new() -> (options: MatchOptions)
        ensures
            options == initial_options(),
    {
        MatchOptions { case_insensitive: false, multi_line: true, dot_all: false, word_boundary: false }
    }

    /// Reads a flag string letter by letter.
    pub fn from_flags(flags: &str) -> (options: MatchOptions)
        ensures
            options == resolve_flags(flags@),
    {
        let mut keeps_lines = false;
        for c in it: flags.chars()
            invariant
                it.seq() == flags@,
                keeps_lines == flags@.take(it.index()).contains('m'),
        {
            proof {
                let n = it.index();
                assert(flags@.take(n + 1) =~= flags@.take(n).push(c));
                assert(flags@.take(n + 1).contains('m') <==> flags@.take(n).contains('m') || c == 'm') by {
                    if flags@.take(n).contains('m') {
                        let k = choose|k: int| 0 <= k < n && flags@.take(n)[k] == 'm';
                        assert(flags@.take(n + 1)[k] == 'm');
                    }
                    if c == 'm' {
                        assert(flags@.take(n + 1)[n] == 'm');
                    }
                }
            }
            if c == 'm' {
                keeps_lines = true;
            }
        }
        assert(flags@.take(flags@.len() as int) =~= flags@);
        let mut options = MatchOptions::new();
        for c in it: flags.chars()
            invariant
                it.seq() == flags@,
                keeps_lines == flags@.contains('m'),
                options == options_after(flags@, it.index()),
        {
            options = Self::with_flag(options, c, keeps_lines);
        }
        options
    }

    /// The options after one more flag letter.
    pub fn with_flag(options: MatchOptions, flag: char, keeps_lines: bool) -> (next: MatchOptions)
        ensures
            next == apply_flag(options, flag, keeps_lines),
    {
        let mut next = options;
        if flag == 'c' {
            next.case_insensitive = false;
        } else if flag == 'i' {
            next.case_insensitive = true;
        } else if flag == 'e' {
            next.multi_line = false;
        } else if flag == 's' {
            next.multi_line = options.multi_line && keeps_lines;
            next.dot_all = true;
        } else if flag == 'w' {
            next.case_insensitive = false;
            next.dot_all = false;
            next.word_boundary = true;
        }
        next
    }
}

} // verus!
