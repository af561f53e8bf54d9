//! Compiled path patterns and sets of them.

use vstd::prelude::*;

verus! {

#[verifier::external_type_specification]
#[verifier::external_body]
pub struct ExRegex(regex::Regex);

#[verifier::external_type_specification]
#[verifier::external_body]
pub struct ExRegexError(regex::Error);

/// Whether `source` is a regular expression that the regex engine accepts.
pub uninterp spec fn regex_accepts(source: Seq<char>) -> bool;

/// Whether the regular expression `source` matches somewhere in `haystack`.
pub uninterp spec fn regex_finds(source: Seq<char>, haystack: Seq<char>) -> bool;

/// Relies on `regex::Regex::new`: whether compiling succeeds depends on the
/// pattern text alone.
#[verifier::external_body]
fn compile_regex(source: &str) -> (r: Result<regex::Regex, regex::Error>)
    ensures
        r is Ok <==> regex_accepts(source@),
{
    regex::Regex::new(source)
}

/// A regular expression together with the text it was compiled from.
pub struct Pattern {
    source: String,
    compiled: regex::Regex,
}

impl View for Pattern {
    type V = Seq<char>;

    closed spec fn view(&self) -> Seq<char> {
        self.source@
    }
}

/// Relies on `regex::Regex::is_match`: whether the expression matches anywhere
/// in the text. A `Pattern` is only ever built by `Pattern::compile`, so its
/// `compiled` field is the compilation of its `source`.
#[verifier::external_body]
fn pattern_finds(p: &Pattern, haystack: &str) -> (r: bool)
    ensures
        r == regex_finds(p@, haystack@),
{
    p.compiled.is_match(haystack)
}

impl Pattern {
    /// Compiles `source`; `None` when it is not a valid regular expression.
    pub fn compile(source: &str) -> (r: Option<Pattern>)
        ensures
            r is Some <==> regex_accepts(source@),
            r is Some ==> r->Some_0@ == source@,
    {
        match compile_regex(source) {
            Ok(compiled) => Some(Pattern { source: source.to_owned(), compiled }),
            Err(_) => None,
        }
    }

    /// The text the pattern was compiled from.
    pub fn source(&self) -> (r: &str)
        ensures
            r@ == self@,
    {
        self.source.as_str()
    }

    /// Whether the pattern matches somewhere in `haystack`.
    pub fn is_match(&self, haystack: &str) -> (r: bool)
        ensures
            r == regex_finds(self@, haystack@),
    {
        pattern_finds(self, haystack)
    }
}

/// Some pattern of `set` matches somewhere in `s`.
pub open spec fn set_finds(set: Seq<Seq<char>>, s: Seq<char>) -> bool {
    exists|i: int| 0 <= i < set.len() && #[trigger] regex_finds(set[i], s)
}

/// A configuration pattern that is not a valid regular expression.
pub struct InvalidPattern {
    pub pattern: String,
}

/// An ordered set of patterns; a text matches the set when any pattern matches it.
pub struct PatternSet {
    patterns: Vec<Pattern>,
}

impl View for PatternSet {
    type V = Seq<Seq<char>>;

    closed spec fn view(&self) -> Seq<Seq<char>> {
        self.patterns@.map_values(|p: Pattern| p@)
    }
}

impl PatternSet {
    /// Compiles every source in order; the error names the first invalid one.
    pub fn compile(sources: &Vec<String>) -> (r: Result<PatternSet, InvalidPattern>)
        ensures
            r is Ok <==> forall|i: int| 0 <= i < sources@.len() ==> regex_accepts(#[trigger] sources@[i]@),
            r is Ok ==> r->Ok_0@ == sources.deep_view(),
            r is Err ==> exists|i: int|
                0 <= i < sources@.len() && !regex_accepts(sources@[i]@)
                && r->Err_0.pattern@ == sources@[i]@,
    {
        let mut patterns: Vec<Pattern> = Vec::new();
        let mut i: usize = 0;
        while i < sources.len()
            invariant
                i <= sources@.len(),
                patterns@.map_values(|p: Pattern| p@) =~= sources.deep_view().take(i as int),
                forall|j: int| 0 <= j < i ==> regex_accepts(#[trigger] sources@[j]@),
            decreases sources@.len() - i,
        {
            match Pattern::compile(sources[i].as_str()) {
                Some(p) => {
                    let ghost before = patterns@;
                    patterns.push(p);
                    assert(patterns@.map_values(|p: Pattern| p@) =~= before.map_values(|p: Pattern| p@).push(sources.deep_view()[i as int]));
                },
                None => {
                    return Err(InvalidPattern { pattern: sources[i].clone() });
                },
            }
            i = i + 1;
        }
        assert(sources.deep_view().take(i as int) =~= sources.deep_view());
        Ok(PatternSet { patterns })
    }

    /// Whether any pattern of the set matches somewhere in `s`.
    pub fn any_match(&self, s: &str) -> (r: bool)
        ensures
            r == set_finds(self@, s@),
    {
        let mut i: usize = 0;
        while i < self.patterns.len()
            invariant
                i <= self.patterns@.len(),
                forall|j: int| 0 <= j < i ==> !regex_finds(#[trigger] self@[j], s@),
            decreases self.patterns@.len() - i,
        {
            assert(self@[i as int] == self.patterns@[i as int]@);
            if self.patterns[i].is_match(s) {
                return true;
            }
            i = i + 1;
        }
        false
    }

    /// The number of patterns in the set.
    pub fn len(&self) -> (r: usize)
        ensures
            r == self@.len(),
    {
        self.patterns.len()
    }
}

/// `source` with every end-of-text anchor '$' turned into a path separator: the
/// shape of a path strictly inside a directory that `source` matches.
pub open spec fn subdir_source_spec(source: Seq<char>) -> Seq<char> {
    source.map_values(|c: char| if c == '$' { '/' } else { c })
}

/// Derives the "inside a matched directory" pattern text from a directory pattern.
pub fn subdir_source(source: &str) -> (r: String)
    ensures
        r@ == subdir_source_spec(source@),
{
    let n = source.unicode_len();
    let mut out = String::new();
    let mut i: usize = 0;
    while i < n
        invariant
            i <= n,
            n == source@.len(),
            out@ =~= subdir_source_spec(source@).take(i as int),
        decreases n - i,
    {
        let c = source.get_char(i);
        if c == '$' {
            proof {
                reveal_strlit("/");
            }
            out.append("/");
        } else {
            let piece = source.substring_char(i, i + 1);
            assert(piece@ =~= seq![c]);
            out.append(piece);
        }
        assert(out@ =~= subdir_source_spec(source@).take(i as int + 1));
        i = i + 1;
    }
    out
}

} // verus!
