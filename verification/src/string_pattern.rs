//! Patterns that select names: an exact text, or a shell-style glob.

use crate::name_order::same_text;
use vstd::prelude::*;
use vstd::std_specs::iter::IteratorSpec;
use vstd::string::group_string_axioms;
use vstd::string::StrSliceExecFns;
use vstd::string::StringExecFns;

verus! {

/// The message with which `jj_lib`'s `StringPattern::glob` refuses `pattern`,
/// or `None` where it compiles. On a given target it depends on the text
/// alone.
pub uninterp spec fn glob_syntax_error(pattern: Seq<char>) -> Option<Seq<char>>;

/// Whether the glob compiled from `pattern` by `jj_lib`'s
/// `StringPattern::glob` matches `text` under `StringPattern::matches`:
/// case-sensitive, against the whole text. Meaningful where `pattern`
/// compiles; on a given target it depends on the two texts alone.
pub uninterp spec fn glob_matches(pattern: Seq<char>, text: Seq<char>) -> bool;

/// Compiles `pattern` with `jj_lib::str_util::StringPattern::glob` and
/// reports how it was refused, if it was. Trusted: the refusal, rendered as
/// text, is what [`glob_syntax_error`] names.
#[verifier::external_body]
fn check_glob(pattern: &str) -> (refusal: Option<String>)
    ensures
        refusal is None <==> glob_syntax_error(pattern@) is None,
        refusal matches Some(reason) ==> glob_syntax_error(pattern@) == Some(reason@),
{
    match jj_lib::str_util::StringPattern::glob(pattern) {
        Ok(_) => None,
        Err(error) => Some(error.to_string()),
    }
}

/// Matches `text` with `jj_lib::str_util::StringPattern::matches` on the
/// glob compiled from `pattern`. Trusted: the answer is what
/// [`glob_matches`] names.
#[verifier::external_body]
fn match_glob(pattern: &str, text: &str) -> (matched: bool)
    requires
        glob_syntax_error(pattern@) is None,
    ensures
        matched == glob_matches(pattern@, text@),
{
    match jj_lib::str_util::StringPattern::glob(pattern) {
        Ok(compiled) => compiled.matches(text),
        Err(_) => false,
    }
}

/// The mathematical value of a [`StringPattern`].
pub enum PatternView {
    /// Matches the text itself and nothing else.
    Exact(Seq<char>),
    /// Matches what the glob of this text matches.
    Glob(Seq<char>),
}

impl PatternView {
    /// Whether this pattern selects `text`.
    pub open spec fn matches(self, text: Seq<char>) -> bool {
        match self {
            PatternView::Exact(literal) => text == literal,
            PatternView::Glob(pattern) => glob_matches(pattern, text),
        }
    }

    /// The text this pattern was made of.
    pub open spec fn text(self) -> Seq<char> {
        match self {
            PatternView::Exact(literal) => literal,
            PatternView::Glob(pattern) => pattern,
        }
    }
}

/// The mathematical value of a [`PatternSyntaxError`].
pub enum SyntaxErrorView {
    InvalidKind(Seq<char>),
    GlobPattern { pattern: Seq<char>, reason: Seq<char> },
}

/// Why a text is not a pattern.
#[derive(Clone, Debug, PartialEq, Eq)]
pub enum PatternSyntaxError {
    /// The text before the first colon names no kind of pattern.
    InvalidKind(String),
    /// The glob does not compile; `reason` says where and why.
    GlobPattern { pattern: String, reason: String },
}

impl View for PatternSyntaxError {
    type V = SyntaxErrorView;

    open spec fn view(&self) -> SyntaxErrorView {
        match self {
            PatternSyntaxError::InvalidKind(kind) => SyntaxErrorView::InvalidKind(kind@),
            PatternSyntaxError::GlobPattern { pattern, reason } => SyntaxErrorView::GlobPattern {
                pattern: pattern@,
                reason: reason@,
            },
        }
    }
}

/// The message for an unknown kind of pattern.
pub open spec fn invalid_kind_message(kind: Seq<char>) -> Seq<char> {
    "Invalid string pattern kind \""@ + kind + "\""@
}

impl SyntaxErrorView {
    /// The message shown for this error.
    pub open spec fn message(self) -> Seq<char> {
        match self {
            SyntaxErrorView::InvalidKind(kind) => invalid_kind_message(kind),
            SyntaxErrorView::GlobPattern { pattern, reason } => reason,
        }
    }
}

impl PatternSyntaxError {
    /// A message that names what was wrong with the pattern.
    pub fn message(&self) -> (text: String)
        ensures
            text@ == self@.message(),
    {
        match self {
            PatternSyntaxError::InvalidKind(kind) => {
                let mut text = String::from_str("Invalid string pattern kind \"");
                text.append(kind.as_str());
                text.append("\"");
                text
            },
            PatternSyntaxError::GlobPattern { pattern: _, reason } => reason.clone(),
        }
    }
}

/// A glob that compiled.
#[derive(Debug, PartialEq, Eq)]
pub struct GlobPattern {
    text: String,
}

impl View for GlobPattern {
    type V = Seq<char>;

    closed spec fn view(&self) -> Seq<char> {
        self.text@
    }
}

impl Clone for GlobPattern {
    fn clone(&self) -> (copy: Self)
        ensures
            copy@ == self@,
    {
        proof {
            use_type_invariant(self);
        }
        GlobPattern { text: self.text.clone() }
    }
}

impl GlobPattern {
    /// Every value of this type holds a text that compiles as a glob.
    #[verifier::type_invariant]
    pub closed spec fn compiles(&self) -> bool {
        glob_syntax_error(self.text@) is None
    }

    /// Compiles `src`, or says why it is no glob.
    pub fn new(src: &str) -> (r: Result<GlobPattern, PatternSyntaxError>)
        ensures
            match r {
                Ok(glob) => glob_outcome(src@) == Ok::<PatternView, SyntaxErrorView>(
                    PatternView::Glob(glob@),
                ),
                Err(error) => glob_outcome(src@) == Err::<PatternView, SyntaxErrorView>(error@),
            },
    {
        match check_glob(src) {
            None => Ok(GlobPattern { text: String::from_str(src) }),
            Some(reason) => Err(
                PatternSyntaxError::GlobPattern { pattern: String::from_str(src), reason },
            ),
        }
    }

    /// The text this glob was compiled from.
    pub fn as_str(&self) -> (text: &str)
        ensures
            text@ == self@,
    {
        self.text.as_str()
    }

    /// Whether this glob matches the whole of `haystack`.
    pub fn matches(&self, haystack: &str) -> (matched: bool)
        ensures
            matched == glob_matches(self@, haystack@),
    {
        proof {
            use_type_invariant(self);
        }
        match_glob(self.text.as_str(), haystack)
    }
}

/// A pattern that is tested against names.
#[derive(Debug, PartialEq, Eq)]
pub enum StringPattern {
    /// Matches the names equal to the text.
    Exact(String),
    /// Shell-style wildcard pattern.
    Glob(GlobPattern),
}

impl View for StringPattern {
    type V = PatternView;

    open spec fn view(&self) -> PatternView {
        match self {
            StringPattern::Exact(literal) => PatternView::Exact(literal@),
            StringPattern::Glob(glob) => PatternView::Glob(glob@),
        }
    }
}

impl Clone for StringPattern {
    fn clone(&self) -> (copy: Self)
        ensures
            copy@ == self@,
    {
        match self {
            StringPattern::Exact(literal) => StringPattern::Exact(literal.clone()),
            StringPattern::Glob(glob) => StringPattern::Glob(glob.clone()),
        }
    }
}

/// What a parse gives, as mathematical values.
pub open spec fn outcome_view(r: Result<StringPattern, PatternSyntaxError>) -> Result<
    PatternView,
    SyntaxErrorView,
> {
    match r {
        Ok(pattern) => Ok(pattern@),
        Err(error) => Err(error@),
    }
}

/// What `src` gives when read as a glob.
pub open spec fn glob_outcome(src: Seq<char>) -> Result<PatternView, SyntaxErrorView> {
    match glob_syntax_error(src) {
        None => Ok(PatternView::Glob(src)),
        Some(reason) => Err(SyntaxErrorView::GlobPattern { pattern: src, reason }),
    }
}

/// What `src` gives when read as a pattern of the kind named `kind`.
pub open spec fn kind_outcome(src: Seq<char>, kind: Seq<char>) -> Result<
    PatternView,
    SyntaxErrorView,
> {
    if kind == "exact"@ {
        Ok(PatternView::Exact(src))
    } else if kind == "glob"@ {
        glob_outcome(src)
    } else {
        Err(SyntaxErrorView::InvalidKind(kind))
    }
}

/// `at` is where the first colon of `src` stands.
pub open spec fn first_colon_at(src: Seq<char>, at: int) -> bool {
    &&& 0 <= at < src.len()
    &&& src[at] == ':'
    &&& forall|j: int| 0 <= j < at ==> src[j] != ':'
}

/// What `src` gives as a pattern argument: the text before the first colon
/// names the kind, the text after it is the pattern; without a colon the
/// whole text is matched exactly.
pub open spec fn parse_outcome(src: Seq<char>) -> Result<PatternView, SyntaxErrorView> {
    if src.contains(':') {
        let at = choose|at: int| first_colon_at(src, at);
        kind_outcome(src.skip(at + 1), src.take(at))
    } else {
        Ok(PatternView::Exact(src))
    }
}

impl StringPattern {
    /// The pattern that matches `src` and nothing else.
    pub fn exact(src: &str) -> (pattern: Self)
        ensures
            pattern@ == PatternView::Exact(src@),
    {
        StringPattern::Exact(String::from_str(src))
    }

    /// Reads `src` as a glob.
    pub fn glob(src: &str) -> (r: Result<Self, PatternSyntaxError>)
        ensures
            outcome_view(r) == glob_outcome(src@),
    {
        match GlobPattern::new(src) {
            Ok(glob) => Ok(StringPattern::Glob(glob)),
            Err(error) => Err(error),
        }
    }

    /// Reads `src` as a pattern of the kind named `kind`.
    pub fn from_str_kind(src: &str, kind: &str) -> (r: Result<Self, PatternSyntaxError>)
        ensures
            outcome_view(r) == kind_outcome(src@, kind@),
    {
        if same_text(kind, "exact") {
            Ok(StringPattern::exact(src))
        } else if same_text(kind, "glob") {
            StringPattern::glob(src)
        } else {
            Err(PatternSyntaxError::InvalidKind(String::from_str(kind)))
        }
    }

    /// Whether this pattern matches by equality.
    pub fn is_exact(&self) -> (exact: bool)
        ensures
            exact == (self@ is Exact),
    {
        match self {
            StringPattern::Exact(_) => true,
            StringPattern::Glob(_) => false,
        }
    }

    /// The text this pattern was made of.
    pub fn as_str(&self) -> (text: &str)
        ensures
            text@ == self@.text(),
    {
        match self {
            StringPattern::Exact(literal) => literal.as_str(),
            StringPattern::Glob(glob) => glob.as_str(),
        }
    }

    /// Whether this pattern matches `haystack`.
    pub fn matches(&self, haystack: &str) -> (matched: bool)
        ensures
            matched == self@.matches(haystack@),
    {
        match self {
            StringPattern::Exact(literal) => same_text(haystack, literal.as_str()),
            StringPattern::Glob(glob) => glob.matches(haystack),
        }
    }
}

/// The patterns in `patterns`, each by its value.
pub open spec fn pattern_views(patterns: Seq<StringPattern>) -> Seq<PatternView> {
    patterns.map_values(|pattern: StringPattern| pattern@)
}

/// Whether a set of patterns selects `name`: the empty set selects every
/// name, any other set the names that at least one of its patterns matches.
pub open spec fn selects(patterns: Seq<PatternView>, name: Seq<char>) -> bool {
    patterns.len() == 0 || exists|i: int|
        0 <= i < patterns.len() && (#[trigger] patterns[i]).matches(name)
}

/// The test that keeps the names which `patterns` selects.
pub open spec fn selected_by(patterns: Seq<PatternView>) -> spec_fn(Seq<char>) -> bool {
    |name: Seq<char>| selects(patterns, name)
}

/// Whether `patterns` selects `name`.
pub fn matches_any(patterns: &Vec<StringPattern>, name: &str) -> (selected: bool)
    ensures
        selected == selects(pattern_views(patterns@), name@),
{
    if patterns.len() == 0 {
        return true;
    }
    let ghost views = pattern_views(patterns@);
    let mut i: usize = 0;
    while i < patterns.len()
        invariant
            i <= patterns.len(),
            views == pattern_views(patterns@),
            forall|j: int| 0 <= j < i ==> !(#[trigger] views[j]).matches(name@),
        decreases patterns.len() - i,
    {
        if patterns[i].matches(name) {
            assert(views[i as int].matches(name@));
            return true;
        }
        i += 1;
    }
    false
}

/// Where the first colon of `src` stands, counted in characters.
fn find_colon(src: &str) -> (found: Option<usize>)
    ensures
        match found {
            Some(at) => first_colon_at(src@, at as int),
            None => !src@.contains(':'),
        },
{
    broadcast use group_string_axioms;

    let total = src.unicode_len();
    let mut rest = src.chars();
    let mut at: usize = 0;
    while at < total
        invariant
            total == src@.len(),
            at <= total,
            rest.remaining() == src@.skip(at as int),
            forall|j: int| 0 <= j < at ==> src@[j] != ':',
        decreases total - at,
    {
        match rest.next() {
            Some(c) => {
                if c == ':' {
                    return Some(at);
                }
            },
            None => {},
        }
        assert(src@.skip(at as int).drop_first() =~= src@.skip(at + 1));
        at += 1;
    }
    None
}

/// Reads a pattern argument: `glob:` before a glob, `exact:` before a text
/// that is matched as it stands, and a text without a colon likewise.
pub fn parse_string_pattern(src: &str) -> (r: Result<StringPattern, PatternSyntaxError>)
    ensures
        outcome_view(r) == parse_outcome(src@),
{
    match find_colon(src) {
        None => Ok(StringPattern::exact(src)),
        Some(at) => {
            let total = src.unicode_len();
            let kind = src.substring_char(0, at);
            let pattern = src.substring_char(at + 1, total);
            proof {
                let chosen = choose|k: int| first_colon_at(src@, k);
                assert(first_colon_at(src@, at as int));
                assert(chosen == at);
                assert(src@.take(at as int) =~= src@.subrange(0, at as int));
                assert(src@.skip(at + 1) =~= src@.subrange(at + 1, total as int));
            }
            StringPattern::from_str_kind(pattern, kind)
        },
    }
}

} // verus!
