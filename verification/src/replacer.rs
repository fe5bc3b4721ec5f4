//! The replacer: a compiled pattern, what its matches become, and how many
//! of them are replaced.

use crate::engine::compile;
use crate::engine::engine_accepts;
use crate::engine::engine_expansions;
use crate::engine::engine_group_names;
use crate::engine::engine_matches;
use crate::engine::escape;
use crate::engine::escaped;
use crate::engine::expand_matches;
use crate::engine::find_spans;
use crate::engine::group_names;
use crate::engine::is_match;
use crate::engine::names_of;
use crate::engine::regex_source;
use crate::engine::well_placed;
use crate::engine::Syntax;
use crate::error::PatternError;
use crate::flags::initial_options;
use crate::flags::resolve_flags;
use crate::flags::MatchOptions;
use crate::highlight::end_marker;
use crate::highlight::highlight_end;
use crate::highlight::highlight_start;
use crate::highlight::start_marker;
use crate::splice::rendered;
use crate::splice::same_text;
use crate::splice::splice;
use crate::splice::Substitute;
use crate::strip::marker_free;
use crate::strip::lemma_preview_strips_to_plain;
use crate::strip::stripped;
use crate::template::first_unsatisfied;
use crate::template::template_satisfied;
use crate::template::validate_replace;
use crate::template::InvalidReplaceCapture;
use crate::unescape::unescape;
use crate::unescape::unescaped;
use regex::bytes::Regex;
use std::borrow::Cow;
use vstd::prelude::*;
use vstd::string::StrSliceExecFns;
use vstd::string::StringExecFns;
use vstd::utf8::encode_utf8;

verus! {

/// A compiled pattern together with its replacement.
#[derive(Debug)]
pub struct Replacer {
    regex: Regex,
    replace_with: Vec<u8>,
    is_literal: bool,
    replacements: usize,
}

/// What a replacer stands for.
pub struct ReplacerModel {
    /// The pattern text and options that the matcher was compiled from.
    pub syntax: Syntax,
    /// The bytes that take a match's place.
    pub template: Seq<u8>,
    /// Whether the template is copied as it stands, without looking for
    /// capture references in it.
    pub literal: bool,
    /// The most matches that are replaced; zero for no limit.
    pub limit: int,
}

/// The options that optional flags resolve to.
pub open spec fn requested_options(flags: Option<Seq<char>>) -> MatchOptions {
    match flags {
        Some(letters) => resolve_flags(letters),
        None => initial_options(),
    }
}

/// The word-boundary anchor of the pattern syntax: a backslash and a `b`.
pub open spec fn word_anchor() -> Seq<char> {
    seq!['\\', 'b']
}

/// The pattern text that is handed to the engine: in literal mode the text
/// looked for with its meta characters escaped, else that text unchanged;
/// between two word-boundary anchors if those are asked for.
pub open spec fn pattern_text(look_for: Seq<char>, literal: bool, word_boundary: bool) -> Seq<
    char,
> {
    let base = if literal {
        escaped(look_for)
    } else {
        look_for
    };
    if word_boundary {
        word_anchor() + base + word_anchor()
    } else {
        base
    }
}

/// What the engine is asked to compile.
pub open spec fn requested_syntax(
    look_for: Seq<char>,
    literal: bool,
    flags: Option<Seq<char>>,
) -> Syntax {
    let options = requested_options(flags);
    Syntax {
        pattern: pattern_text(look_for, literal, options.word_boundary),
        case_insensitive: options.case_insensitive,
        multi_line: options.multi_line,
        dot_all: options.dot_all,
    }
}

/// The template that a replacement text gives: in literal mode the text
/// itself; else the text with its backslash escapes expanded, or the text
/// itself where it is not well formed for that.
pub open spec fn template_bytes(replace_with: Seq<u8>, literal: bool) -> Seq<u8> {
    if literal {
        replace_with
    } else {
        match unescaped(replace_with) {
            Some(expanded) => expanded,
            None => replace_with,
        }
    }
}

impl ReplacerModel {
    /// The matches in `content`, left to right.
    pub open spec fn matches(self, content: Seq<u8>) -> Seq<(usize, usize)> {
        engine_matches(self.syntax, content)
    }

    /// What each match in `content` becomes.
    pub open spec fn texts(self, content: Seq<u8>) -> Seq<Seq<u8>> {
        if self.literal {
            same_text(self.template, self.matches(content).len() as int)
        } else {
            engine_expansions(self.syntax, content, self.template)
        }
    }

    /// The content after replacement.
    pub open spec fn replaced(self, content: Seq<u8>) -> Seq<u8> {
        rendered(
            content,
            self.matches(content),
            self.texts(content),
            self.limit,
            Seq::empty(),
            Seq::empty(),
        )
    }

    /// Whether no highlight marker occurs in the content or in any of the
    /// texts that its matches become.
    pub open spec fn marker_free_on(self, content: Seq<u8>) -> bool {
        &&& marker_free(content)
        &&& forall|j: int|
            0 <= j < self.texts(content).len() ==> marker_free(#[trigger] self.texts(content)[j])
    }

    /// The content after replacement, each replacement between the two
    /// highlight markers.
    pub open spec fn previewed(self, content: Seq<u8>) -> Seq<u8> {
        rendered(
            content,
            self.matches(content),
            self.texts(content),
            self.limit,
            start_marker(),
            end_marker(),
        )
    }
}

impl View for Replacer {
    type V = ReplacerModel;

    closed spec fn view(&self) -> ReplacerModel {
        ReplacerModel {
            syntax: regex_source(&self.regex),
            template: self.replace_with@,
            literal: self.is_literal,
            limit: self.replacements as int,
        }
    }
}

impl Replacer {
    /// Builds a replacer that looks for `look_for` and puts `replace_with`
    /// in its place, at most `replacements` times per content (zero: every
    /// time).
    ///
    /// The pattern is compiled first. If the engine turns it down, that is
    /// the error. Unless `is_literal`, the replacement is then checked
    /// against the pattern's capture groups, and the first reference to a
    /// group that the pattern does not have is the error.
    pub fn new(
        look_for: String,
        replace_with: String,
        is_literal: bool,
        flags: Option<String>,
        replacements: usize,
    ) -> (r: Result<Replacer, PatternError>)
        ensures
            match r {
                Ok(replacer) => {
                    let syntax = requested_syntax(look_for@, is_literal, flags_view(flags));
                    &&& engine_accepts(syntax)
                    &&& is_literal || template_satisfied(
                        encode_utf8(replace_with@),
                        engine_group_names(syntax),
                    )
                    &&& replacer@ == (ReplacerModel {
                        syntax,
                        template: template_bytes(encode_utf8(replace_with@), is_literal),
                        literal: is_literal,
                        limit: replacements as int,
                    })
                },
                Err(PatternError::Compile(_)) => !engine_accepts(
                    requested_syntax(look_for@, is_literal, flags_view(flags)),
                ),
                Err(PatternError::InvalidReplaceCapture(e)) => {
                    let syntax = requested_syntax(look_for@, is_literal, flags_view(flags));
                    &&& engine_accepts(syntax)
                    &&& !is_literal
                    &&& first_unsatisfied(
                        encode_utf8(replace_with@),
                        engine_group_names(syntax),
                        0,
                    ) == Some((e.start as int, e.end as int))
                },
            },
    {
        let options = match &flags {
            Some(letters) => MatchOptions::from_flags(letters.as_str()),
            None => MatchOptions::new(),
        };
        let pattern = pattern_for(look_for, is_literal, options.word_boundary);
        let regex = match compile(
            pattern.as_str(),
            options.case_insensitive,
            options.multi_line,
            options.dot_all,
        ) {
            Ok(regex) => regex,
            Err(e) => {
                return Err(PatternError::Compile(e));
            },
        };
        let given = replace_with.as_str().as_bytes_vec();
        let template = if is_literal {
            given
        } else {
            let groups = group_names(&regex);
            match interpolated_template(given, &groups) {
                Ok(template) => template,
                Err(e) => {
                    return Err(PatternError::InvalidReplaceCapture(e));
                },
            }
        };
        Ok(Replacer { regex, replace_with: template, is_literal, replacements })
    }

    /// Whether the pattern matches anywhere in `content`.
    pub fn has_matches(&self, content: &[u8]) -> (found: bool)
        ensures
            found == (self@.matches(content@).len() > 0),
    {
        is_match(&self.regex, content)
    }

    /// Replaces the matches in `content`. The matches lie inside the content,
    /// left to right and without overlap, and each has its text. Content
    /// without a match is handed back as it is, not copied.
    pub fn replace<'a>(&'a self, content: &'a [u8]) -> (out: Cow<'a, [u8]>)
        ensures
            out@ == self@.replaced(content@),
            well_placed(self@.matches(content@), content@.len() as int),
            self@.texts(content@).len() == self@.matches(content@).len(),
            out is Borrowed <==> self@.matches(content@).len() == 0,
            self@.matches(content@).len() == 0 ==> out@ == content@,
    {
        Self::replacen(
            &self.regex,
            self.replacements,
            content,
            false,
            self.replace_with.as_slice(),
            self.is_literal,
        )
    }

    /// Replaces the matches in `content` and puts the highlight markers
    /// around each replacement. Taking the markers out again gives what
    /// `replace` gives, where no marker occurs in the content or in a
    /// replacement text.
    pub fn replace_preview<'a>(&self, content: &'a [u8]) -> (out: Cow<'a, [u8]>)
        ensures
            out@ == self@.previewed(content@),
            well_placed(self@.matches(content@), content@.len() as int),
            self@.texts(content@).len() == self@.matches(content@).len(),
            out is Borrowed <==> self@.matches(content@).len() == 0,
            self@.matches(content@).len() == 0 ==> out@ == content@,
            self@.marker_free_on(content@) ==> stripped(out@) == self@.replaced(content@),
    {
        Self::replacen(
            &self.regex,
            self.replacements,
            content,
            true,
            self.replace_with.as_slice(),
            self.is_literal,
        )
    }

    /// Replaces the first `limit` matches of `regex` in `haystack` (all of
    /// them when `limit` is zero) by the template: copied as it stands if
    /// `is_literal`, else rendered by the engine for each match. With
    /// `use_color` each replacement stands between the highlight markers.
    pub fn replacen<'h>(
        regex: &Regex,
        limit: usize,
        haystack: &'h [u8],
        use_color: bool,
        template: &[u8],
        is_literal: bool,
    ) -> (out: Cow<'h, [u8]>)
        ensures
            out@ == rendered(
                haystack@,
                engine_matches(regex_source(regex), haystack@),
                (ReplacerModel {
                    syntax: regex_source(regex),
                    template: template@,
                    literal: is_literal,
                    limit: limit as int,
                }).texts(haystack@),
                limit as int,
                if use_color {
                    start_marker()
                } else {
                    Seq::empty()
                },
                if use_color {
                    end_marker()
                } else {
                    Seq::empty()
                },
            ),
            well_placed(engine_matches(regex_source(regex), haystack@), haystack@.len() as int),
            (ReplacerModel {
                syntax: regex_source(regex),
                template: template@,
                literal: is_literal,
                limit: limit as int,
            }).texts(haystack@).len() == engine_matches(regex_source(regex), haystack@).len(),
            out is Borrowed <==> engine_matches(regex_source(regex), haystack@).len() == 0,
            engine_matches(regex_source(regex), haystack@).len() == 0 ==> out@ == haystack@,
            use_color && (ReplacerModel {
                syntax: regex_source(regex),
                template: template@,
                literal: is_literal,
                limit: limit as int,
            }).marker_free_on(haystack@) ==> stripped(out@) == rendered(
                haystack@,
                engine_matches(regex_source(regex), haystack@),
                (ReplacerModel {
                    syntax: regex_source(regex),
                    template: template@,
                    literal: is_literal,
                    limit: limit as int,
                }).texts(haystack@),
                limit as int,
                Seq::empty(),
                Seq::empty(),
            ),
    {
        let ghost model = ReplacerModel {
            syntax: regex_source(regex),
            template: template@,
            literal: is_literal,
            limit: limit as int,
        };
        let prefix = if use_color {
            highlight_start()
        } else {
            Vec::new()
        };
        let suffix = if use_color {
            highlight_end()
        } else {
            Vec::new()
        };
        if is_literal {
            let spans = find_spans(regex, haystack);
            proof {
                if use_color && model.marker_free_on(haystack@) {
                    lemma_preview_strips_to_plain(
                        haystack@,
                        spans@,
                        model.texts(haystack@),
                        limit as int,
                    );
                }
            }
            splice(
                haystack,
                &spans,
                Substitute::Verbatim(template),
                limit,
                prefix.as_slice(),
                suffix.as_slice(),
            )
        } else {
            let (spans, texts) = expand_matches(regex, haystack, template);
            proof {
                if use_color && model.marker_free_on(haystack@) {
                    lemma_preview_strips_to_plain(
                        haystack@,
                        spans@,
                        model.texts(haystack@),
                        limit as int,
                    );
                }
            }
            splice(
                haystack,
                &spans,
                Substitute::PerMatch(&texts),
                limit,
                prefix.as_slice(),
                suffix.as_slice(),
            )
        }
    }
}

/// Writes the pattern text that is handed to the engine.
pub fn pattern_for(look_for: String, is_literal: bool, word_boundary: bool) -> (pattern: String)
    ensures
        pattern@ == pattern_text(look_for@, is_literal, word_boundary),
{
    let base = if is_literal {
        escape(look_for.as_str())
    } else {
        look_for
    };
    if word_boundary {
        proof {
            reveal_strlit("\\b");
            assert("\\b"@ =~= word_anchor());
        }
        String::from_str("\\b").concat(base.as_str()).concat("\\b")
    } else {
        base
    }
}

/// Builds the template of a replacement in which capture references count,
/// for a pattern whose groups are named `groups`: the replacement is turned
/// down if it names a group that the pattern does not have, else its
/// backslash escapes are expanded, if it is well formed for that.
pub fn interpolated_template(replace_with: Vec<u8>, groups: &Vec<Option<Vec<u8>>>) -> (r: Result<
    Vec<u8>,
    InvalidReplaceCapture,
>)
    ensures
        match r {
            Ok(template) => {
                &&& template_satisfied(replace_with@, names_of(groups@))
                &&& template@ == template_bytes(replace_with@, false)
            },
            Err(e) => first_unsatisfied(replace_with@, names_of(groups@), 0) == Some(
                (e.start as int, e.end as int),
            ),
        },
{
    match validate_replace(replace_with.as_slice(), groups) {
        Ok(_) => {},
        Err(e) => {
            return Err(e);
        },
    }
    match unescape(replace_with.as_slice()) {
        Some(expanded) => Ok(expanded),
        None => Ok(replace_with),
    }
}

/// The letters of optional flags.
pub open spec fn flags_view(flags: Option<String>) -> Option<Seq<char>> {
    match flags {
        Some(letters) => Some(letters@),
        None => None,
    }
}

} // verus!
