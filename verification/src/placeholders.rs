//! Caddy-style placeholders: `{env:NAME}` and `{file:/absolute/path}`.
//!
//! Resolution happens in two steps. `scan_placeholders` reads the template and
//! decides, under a [`PlaceholderPolicy`], which pieces are literal text and
//! which must be looked up; it stops at the first syntax or policy error.
//! The caller then looks every lookup piece up (environment, file system) and
//! `resolve_scanned` assembles the output, reporting the first failure in
//! template order.
use crate::config::PlaceholderOverride;
use crate::text::{
    chars_of, find_char, first_index, has_prefix_at, is_unicode_whitespace, lemma_first_index,
    lemma_first_index_at, starts_with, string_of,
};
use vstd::prelude::*;

verus! {

/// Which kinds of placeholders may be resolved.
#[derive(Debug, Clone, Copy, PartialEq, Eq, Structural)]
pub struct PlaceholderPolicy {
    pub allow_env_placeholders: bool,
    pub allow_file_placeholders: bool,
}

impl Default for PlaceholderPolicy {
    /// Deny-by-default: neither kind is allowed.
    fn default() -> (r: Self)
        ensures
            !r.allow_env_placeholders,
            !r.allow_file_placeholders,
    {
        PlaceholderPolicy { allow_env_placeholders: false, allow_file_placeholders: false }
    }
}

/// A piece of a scanned template. `S` is `String` at run time and
/// `Seq<char>` in specifications.
#[derive(Debug)]
pub enum Piece<S> {
    /// Literal text, copied as it is.
    Text(S),
    /// The value of the environment variable with this name.
    Env(S),
    /// The contents of the file at this absolute path.
    File(S),
}

/// Why a template could not be resolved.
#[derive(Debug)]
pub enum PlaceholderError<S> {
    /// A `{` with no `}` after it.
    Unterminated,
    /// A `{$` with no `}` after it (dollar dialect).
    UnterminatedEnv,
    /// A `{file:` with no `}` after it (dollar dialect).
    UnterminatedFile,
    EmptyEnvName,
    InvalidEnvName(S),
    /// `{env:...}` while the policy forbids environment placeholders.
    EnvDisabled,
    /// `{$...}` while the policy forbids environment placeholders.
    DollarEnvDisabled,
    EnvNotFound(S),
    FileDisabled,
    FileNotAbsolute(S),
    /// The file named by a placeholder could not be read (path, reason).
    FileUnreadable(S, S),
    /// `{$NAME}` in the `{env:NAME}` dialect.
    LegacySyntax,
    /// A placeholder-looking token of no known kind.
    Unsupported(S),
}

/// The outcome of looking up one piece.
#[derive(Debug)]
pub enum Lookup<S> {
    Found(S),
    /// The lookup failed; for files the reason is kept.
    Missing(S),
}

pub type PieceView = Piece<Seq<char>>;

pub type PlaceholderErrorView = PlaceholderError<Seq<char>>;

pub type LookupView = Lookup<Seq<char>>;

impl View for Piece<String> {
    type V = PieceView;

    open spec fn view(&self) -> PieceView {
        match self {
            Piece::Text(s) => Piece::Text(s@),
            Piece::Env(s) => Piece::Env(s@),
            Piece::File(s) => Piece::File(s@),
        }
    }
}

impl View for Lookup<String> {
    type V = LookupView;

    open spec fn view(&self) -> LookupView {
        match self {
            Lookup::Found(s) => Lookup::Found(s@),
            Lookup::Missing(s) => Lookup::Missing(s@),
        }
    }
}

impl View for PlaceholderError<String> {
    type V = PlaceholderErrorView;

    open spec fn view(&self) -> PlaceholderErrorView {
        match self {
            PlaceholderError::Unterminated => PlaceholderError::Unterminated,
            PlaceholderError::UnterminatedEnv => PlaceholderError::UnterminatedEnv,
            PlaceholderError::UnterminatedFile => PlaceholderError::UnterminatedFile,
            PlaceholderError::EmptyEnvName => PlaceholderError::EmptyEnvName,
            PlaceholderError::InvalidEnvName(s) => PlaceholderError::InvalidEnvName(s@),
            PlaceholderError::EnvDisabled => PlaceholderError::EnvDisabled,
            PlaceholderError::DollarEnvDisabled => PlaceholderError::DollarEnvDisabled,
            PlaceholderError::EnvNotFound(s) => PlaceholderError::EnvNotFound(s@),
            PlaceholderError::FileDisabled => PlaceholderError::FileDisabled,
            PlaceholderError::FileNotAbsolute(s) => PlaceholderError::FileNotAbsolute(s@),
            PlaceholderError::FileUnreadable(p, d) => PlaceholderError::FileUnreadable(p@, d@),
            PlaceholderError::LegacySyntax => PlaceholderError::LegacySyntax,
            PlaceholderError::Unsupported(s) => PlaceholderError::Unsupported(s@),
        }
    }
}

impl Clone for PlaceholderError<String> {
    fn clone(&self) -> (r: Self)
        ensures
            r@ == self@,
    {
        match self {
            PlaceholderError::Unterminated => PlaceholderError::Unterminated,
            PlaceholderError::UnterminatedEnv => PlaceholderError::UnterminatedEnv,
            PlaceholderError::UnterminatedFile => PlaceholderError::UnterminatedFile,
            PlaceholderError::EmptyEnvName => PlaceholderError::EmptyEnvName,
            PlaceholderError::InvalidEnvName(s) => PlaceholderError::InvalidEnvName(s.clone()),
            PlaceholderError::EnvDisabled => PlaceholderError::EnvDisabled,
            PlaceholderError::DollarEnvDisabled => PlaceholderError::DollarEnvDisabled,
            PlaceholderError::EnvNotFound(s) => PlaceholderError::EnvNotFound(s.clone()),
            PlaceholderError::FileDisabled => PlaceholderError::FileDisabled,
            PlaceholderError::FileNotAbsolute(s) => PlaceholderError::FileNotAbsolute(s.clone()),
            PlaceholderError::FileUnreadable(p, d) => PlaceholderError::FileUnreadable(
                p.clone(),
                d.clone(),
            ),
            PlaceholderError::LegacySyntax => PlaceholderError::LegacySyntax,
            PlaceholderError::Unsupported(s) => PlaceholderError::Unsupported(s.clone()),
        }
    }
}

/// The text of an error, as the worker reports it.
pub open spec fn spec_message(e: PlaceholderErrorView) -> Seq<char> {
    match e {
        PlaceholderError::Unterminated => "unterminated placeholder"@,
        PlaceholderError::UnterminatedEnv => "unterminated env placeholder"@,
        PlaceholderError::UnterminatedFile => "unterminated file placeholder"@,
        PlaceholderError::EmptyEnvName => "empty environment placeholder name"@,
        PlaceholderError::InvalidEnvName(n) => "invalid environment placeholder name: "@ + n,
        PlaceholderError::EnvDisabled => "env placeholders are disabled by policy: {env:...}"@,
        PlaceholderError::DollarEnvDisabled => "env placeholders are disabled by policy: {$...}"@,
        PlaceholderError::EnvNotFound(n) => "environment variable not found: "@ + n,
        PlaceholderError::FileDisabled => "file placeholders are disabled by policy: {file:...}"@,
        PlaceholderError::FileNotAbsolute(p) => "file placeholder path must be absolute: "@ + p,
        PlaceholderError::FileUnreadable(p, d) => "failed to read placeholder file `"@ + p + "`: "@
            + d,
        PlaceholderError::LegacySyntax => "legacy env placeholder syntax is not supported; use {env:VAR_NAME}"@,
        PlaceholderError::Unsupported(t) => "unsupported placeholder format: {"@ + t + "}"@,
    }
}

impl PlaceholderError<String> {
    /// The text of the error.
    pub fn message(&self) -> (r: String)
        ensures
            r@ == spec_message(self@),
    {
        match self {
            PlaceholderError::Unterminated => String::from_str("unterminated placeholder"),
            PlaceholderError::UnterminatedEnv => String::from_str("unterminated env placeholder"),
            PlaceholderError::UnterminatedFile => String::from_str("unterminated file placeholder"),
            PlaceholderError::EmptyEnvName => String::from_str(
                "empty environment placeholder name",
            ),
            PlaceholderError::InvalidEnvName(n) => {
                let mut m = String::from_str("invalid environment placeholder name: ");
                m.append(n.as_str());
                m
            },
            PlaceholderError::EnvDisabled => String::from_str(
                "env placeholders are disabled by policy: {env:...}",
            ),
            PlaceholderError::DollarEnvDisabled => String::from_str(
                "env placeholders are disabled by policy: {$...}",
            ),
            PlaceholderError::EnvNotFound(n) => {
                let mut m = String::from_str("environment variable not found: ");
                m.append(n.as_str());
                m
            },
            PlaceholderError::FileDisabled => String::from_str(
                "file placeholders are disabled by policy: {file:...}",
            ),
            PlaceholderError::FileNotAbsolute(p) => {
                let mut m = String::from_str("file placeholder path must be absolute: ");
                m.append(p.as_str());
                m
            },
            PlaceholderError::FileUnreadable(p, d) => {
                let mut m = String::from_str("failed to read placeholder file `");
                m.append(p.as_str());
                m.append("`: ");
                m.append(d.as_str());
                m
            },
            PlaceholderError::LegacySyntax => String::from_str(
                "legacy env placeholder syntax is not supported; use {env:VAR_NAME}",
            ),
            PlaceholderError::Unsupported(t) => {
                let mut m = String::from_str("unsupported placeholder format: {");
                m.append(t.as_str());
                m.append("}");
                m
            },
        }
    }
}

/// A scanned template: the pieces read before the first error, and that error.
#[derive(Debug)]
pub struct Scan {
    pub pieces: Vec<Piece<String>>,
    pub error: Option<PlaceholderError<String>>,
}

pub struct ScanView {
    pub pieces: Seq<PieceView>,
    pub error: Option<PlaceholderErrorView>,
}

impl View for Scan {
    type V = ScanView;

    open spec fn view(&self) -> ScanView {
        ScanView {
            pieces: self.pieces@.map_values(|p: Piece<String>| p@),
            error: match self.error {
                Some(e) => Some(e@),
                None => None,
            },
        }
    }
}

pub open spec fn prepend(ps: Seq<PieceView>, r: ScanView) -> ScanView {
    ScanView { pieces: ps + r.pieces, error: r.error }
}

pub open spec fn fail(e: PlaceholderErrorView) -> ScanView {
    ScanView { pieces: seq![], error: Some(e) }
}

/// A character allowed in an environment placeholder name.
pub open spec fn is_env_name_char(c: char) -> bool {
    ('A' <= c && c <= 'Z') || ('0' <= c && c <= '9') || c == '_'
}

pub open spec fn valid_env_name(name: Seq<char>) -> bool {
    forall|i: int| 0 <= i < name.len() ==> is_env_name_char(#[trigger] name[i])
}

/// A character that may appear in a placeholder-looking token.
pub open spec fn is_token_char(c: char) -> bool {
    ('a' <= c && c <= 'z') || ('A' <= c && c <= 'Z') || ('0' <= c && c <= '9') || c == '_' || c
        == ':' || c == '/' || c == '.'
}

/// A token character, `$` included when `dollar` holds.
pub open spec fn is_token_char_with(c: char, dollar: bool) -> bool {
    is_token_char(c) || (dollar && c == '$')
}

/// Nonempty, free of whitespace, and made of token characters only
/// (`$` counting as one when `dollar` holds).
pub open spec fn looks_like_token_with(t: Seq<char>, dollar: bool) -> bool {
    &&& t.len() > 0
    &&& forall|i: int| 0 <= i < t.len() ==> !is_unicode_whitespace(#[trigger] t[i])
    &&& forall|i: int| 0 <= i < t.len() ==> is_token_char_with(#[trigger] t[i], dollar)
}

pub open spec fn looks_like_token(t: Seq<char>) -> bool {
    looks_like_token_with(t, false)
}

/// `Path::is_absolute` for a Unix path.
pub open spec fn is_absolute_path(p: Seq<char>) -> bool {
    p.len() > 0 && p[0] == '/'
}

pub open spec fn env_tag() -> Seq<char> {
    seq!['e', 'n', 'v', ':']
}

pub open spec fn file_tag() -> Seq<char> {
    seq!['f', 'i', 'l', 'e', ':']
}

/// What the `{env:...}` dialect makes of `s`.
pub open spec fn spec_scan(s: Seq<char>, policy: PlaceholderPolicy) -> ScanView
    decreases s.len(),
{
    proof {
        lemma_first_index(s, '{');
    }
    match first_index(s, '{') {
        None => ScanView { pieces: seq![Piece::Text(s)], error: None },
        Some(open) => {
            let prefix = s.take(open);
            let rest = s.skip(open);
            proof {
                lemma_first_index(rest, '}');
            }
            match first_index(rest, '}') {
                None => fail(PlaceholderError::Unterminated),
                Some(close) => {
                    let token = rest.subrange(1, close);
                    let after = rest.skip(close + 1);
                    if starts_with(token, env_tag()) {
                        let name = token.skip(4);
                        if name.len() == 0 {
                            fail(PlaceholderError::EmptyEnvName)
                        } else if !valid_env_name(name) {
                            fail(PlaceholderError::InvalidEnvName(name))
                        } else if !policy.allow_env_placeholders {
                            fail(PlaceholderError::EnvDisabled)
                        } else {
                            prepend(
                                seq![Piece::Text(prefix), Piece::Env(name)],
                                spec_scan(after, policy),
                            )
                        }
                    } else if starts_with(token, file_tag()) {
                        let path = token.skip(5);
                        if !policy.allow_file_placeholders {
                            fail(PlaceholderError::FileDisabled)
                        } else if !is_absolute_path(path) {
                            fail(PlaceholderError::FileNotAbsolute(path))
                        } else {
                            prepend(
                                seq![Piece::Text(prefix), Piece::File(path)],
                                spec_scan(after, policy),
                            )
                        }
                    } else if token.len() > 0 && token[0] == '$' {
                        fail(PlaceholderError::LegacySyntax)
                    } else if looks_like_token(token) {
                        fail(PlaceholderError::Unsupported(token))
                    } else {
                        prepend(
                            seq![Piece::Text(prefix), Piece::Text(seq!['{'])],
                            spec_scan(rest.skip(1), policy),
                        )
                    }
                },
            }
        },
    }
}

/// The value a piece contributes, or the failure it reports.
pub open spec fn piece_value(p: PieceView, l: LookupView) -> Result<Seq<char>, PlaceholderErrorView> {
    match p {
        Piece::Text(t) => Ok(t),
        Piece::Env(name) => match l {
            Lookup::Found(v) => Ok(v),
            Lookup::Missing(_) => Err(PlaceholderError::EnvNotFound(name)),
        },
        Piece::File(path) => match l {
            Lookup::Found(v) => Ok(v),
            Lookup::Missing(d) => Err(PlaceholderError::FileUnreadable(path, d)),
        },
    }
}

/// The resolved text: pieces in order, the first failing lookup, and
/// otherwise the scan's own error.
pub open spec fn spec_resolve(
    pieces: Seq<PieceView>,
    lookups: Seq<LookupView>,
    tail: Option<PlaceholderErrorView>,
) -> Result<Seq<char>, PlaceholderErrorView>
    decreases pieces.len(),
{
    if pieces.len() == 0 {
        match tail {
            Some(e) => Err(e),
            None => Ok(seq![]),
        }
    } else {
        match piece_value(pieces[0], lookups[0]) {
            Err(e) => Err(e),
            Ok(v) => match spec_resolve(pieces.drop_first(), lookups.drop_first(), tail) {
                Ok(rest) => Ok(v + rest),
                Err(e) => Err(e),
            },
        }
    }
}

/// Whether `v[start..end]` is made of upper-case ASCII letters, digits and `_`.
pub(crate) fn check_env_name(v: &Vec<char>, start: usize, end: usize) -> (r: bool)
    requires
        start <= end <= v.len(),
    ensures
        r == valid_env_name(v@.subrange(start as int, end as int)),
{
    let ghost s = v@.subrange(start as int, end as int);
    let mut i = start;
    while i < end
        invariant
            start <= i <= end <= v.len(),
            s == v@.subrange(start as int, end as int),
            forall|j: int| start <= j < i ==> is_env_name_char(#[trigger] v@[j]),
        decreases end - i,
    {
        let c = v[i];
        if !(('A' <= c && c <= 'Z') || ('0' <= c && c <= '9') || c == '_') {
            assert(s[i - start] == c);
            return false;
        }
        i = i + 1;
    }
    assert forall|j: int| 0 <= j < s.len() implies is_env_name_char(#[trigger] s[j]) by {
        assert(s[j] == v@[j + start]);
    }
    true
}

/// The rule for environment variable names: not empty, and made of `A`–`Z`,
/// `0`–`9` and `_` only; `None` when the name is accepted.
pub open spec fn spec_env_name_error(name: Seq<char>) -> Option<PlaceholderErrorView> {
    if name.len() == 0 {
        Some(PlaceholderError::EmptyEnvName)
    } else if !valid_env_name(name) {
        Some(PlaceholderError::InvalidEnvName(name))
    } else {
        None
    }
}

/// Checks an environment variable name against the rule.
pub fn validate_env_name(name: &str) -> (r: Result<(), PlaceholderError<String>>)
    ensures
        match r {
            Ok(()) => spec_env_name_error(name@) is None,
            Err(e) => spec_env_name_error(name@) == Some(e@),
        },
{
    let chars = chars_of(name);
    assert(chars@.subrange(0, chars@.len() as int) =~= name@);
    if chars.len() == 0 {
        Err(PlaceholderError::EmptyEnvName)
    } else if !check_env_name(&chars, 0, chars.len()) {
        Err(PlaceholderError::InvalidEnvName(name.to_owned()))
    } else {
        Ok(())
    }
}

/// Whether `v[start..end]` looks like a placeholder token.
pub(crate) fn check_token(v: &Vec<char>, start: usize, end: usize, dollar: bool) -> (r: bool)
    requires
        start <= end <= v.len(),
    ensures
        r == looks_like_token_with(v@.subrange(start as int, end as int), dollar),
{
    let ghost s = v@.subrange(start as int, end as int);
    if start == end {
        return false;
    }
    let mut i = start;
    while i < end
        invariant
            start <= i <= end <= v.len(),
            s == v@.subrange(start as int, end as int),
            forall|j: int| start <= j < i ==> is_token_char_with(#[trigger] v@[j], dollar),
        decreases end - i,
    {
        let c = v[i];
        if !(('a' <= c && c <= 'z') || ('A' <= c && c <= 'Z') || ('0' <= c && c <= '9') || c
            == '_' || c == ':' || c == '/' || c == '.' || (dollar && c == '$')) {
            assert(s[i - start] == c);
            return false;
        }
        i = i + 1;
    }
    assert forall|j: int| 0 <= j < s.len() implies is_token_char_with(#[trigger] s[j], dollar) by {
        assert(s[j] == v@[j + start]);
    }
    assert forall|j: int| 0 <= j < s.len() implies !is_unicode_whitespace(#[trigger] s[j]) by {
        assert(is_token_char_with(s[j], dollar));
    }
    true
}

/// Reads a template in the `{env:NAME}` dialect.
///
/// Text outside braces is kept; `{env:NAME}` and `{file:/path}` become lookup
/// pieces when the policy allows them; a `{` that opens no placeholder-looking
/// token is kept as text. The scan stops at the first error.
pub fn scan_placeholders(input: &str, policy: PlaceholderPolicy) -> (r: Scan)
    ensures
        r@ == spec_scan(input@, policy),
{
    let chars = chars_of(input);
    let n = chars.len();
    let mut pieces: Vec<Piece<String>> = Vec::new();
    let mut index: usize = 0;
    let env_tag_chars: [char; 4] = ['e', 'n', 'v', ':'];
    let file_tag_chars: [char; 5] = ['f', 'i', 'l', 'e', ':'];
    assert(env_tag_chars@ =~= env_tag());
    assert(file_tag_chars@ =~= file_tag());
    assert(chars@.skip(0) =~= chars@);
    loop
        invariant
            n == chars.len(),
            chars@ == input@,
            index <= n,
            env_tag_chars@ == env_tag(),
            file_tag_chars@ == file_tag(),
            spec_scan(input@, policy) == prepend(
                pieces@.map_values(|p: Piece<String>| p@),
                spec_scan(chars@.skip(index as int), policy),
            ),
        decreases n - index,
    {
        let ghost s = chars@.skip(index as int);
        let ghost done = pieces@.map_values(|p: Piece<String>| p@);
        match find_char(&chars, index, '{') {
            None => {
                let text = string_of(&chars, index, n);
                assert(text@ =~= s);
                pieces.push(Piece::Text(text));
                assert(pieces@.map_values(|p: Piece<String>| p@) =~= done + seq![
                    Piece::Text(s),
                ]);
                return Scan { pieces, error: None };
            },
            Some(open) => {
                let ghost rest = s.skip(open - index);
                assert(rest =~= chars@.skip(open as int));
                proof {
                    lemma_first_index(s, '{');
                    assert(chars@[open as int] == s[open - index]);
                }
                let prefix = string_of(&chars, index, open);
                assert(prefix@ =~= s.take(open - index));
                match find_char(&chars, open, '}') {
                    None => {
                        return Scan { pieces, error: Some(PlaceholderError::Unterminated) };
                    },
                    Some(close) => {
                        proof {
                            lemma_first_index(rest, '}');
                            assert(rest[close - open] == chars@[close as int]);
                        }
                        let ghost token = rest.subrange(1, close - open);
                        assert(token =~= chars@.subrange(open + 1, close as int));
                        let ghost after = rest.skip(close - open + 1);
                        assert(after =~= chars@.skip(close + 1));
                        if has_prefix_at(&chars, open + 1, close, &env_tag_chars) {
                            let ghost name = token.skip(4);
                            assert(name =~= chars@.subrange(open + 5, close as int));
                            if close == open + 5 {
                                return Scan {
                                    pieces,
                                    error: Some(PlaceholderError::EmptyEnvName),
                                };
                            }
                            if !check_env_name(&chars, open + 5, close) {
                                let bad = string_of(&chars, open + 5, close);
                                return Scan {
                                    pieces,
                                    error: Some(PlaceholderError::InvalidEnvName(bad)),
                                };
                            }
                            if !policy.allow_env_placeholders {
                                return Scan { pieces, error: Some(PlaceholderError::EnvDisabled) };
                            }
                            let name_str = string_of(&chars, open + 5, close);
                            pieces.push(Piece::Text(prefix));
                            pieces.push(Piece::Env(name_str));
                            proof {
                                let add = seq![Piece::Text(s.take(open - index)), Piece::Env(name)];
                                assert(pieces@.map_values(|p: Piece<String>| p@) =~= done + add);
                                assert(done + add + spec_scan(after, policy).pieces =~= done + (add
                                    + spec_scan(after, policy).pieces));
                            }
                            index = close + 1;
                        } else if has_prefix_at(&chars, open + 1, close, &file_tag_chars) {
                            let ghost path = token.skip(5);
                            assert(path =~= chars@.subrange(open + 6, close as int));
                            if !policy.allow_file_placeholders {
                                return Scan { pieces, error: Some(PlaceholderError::FileDisabled) };
                            }
                            if !(close > open + 6 && chars[open + 6] == '/') {
                                let bad = string_of(&chars, open + 6, close);
                                return Scan {
                                    pieces,
                                    error: Some(PlaceholderError::FileNotAbsolute(bad)),
                                };
                            }
                            let path_str = string_of(&chars, open + 6, close);
                            pieces.push(Piece::Text(prefix));
                            pieces.push(Piece::File(path_str));
                            proof {
                                let add = seq![Piece::Text(s.take(open - index)), Piece::File(path)];
                                assert(pieces@.map_values(|p: Piece<String>| p@) =~= done + add);
                                assert(done + add + spec_scan(after, policy).pieces =~= done + (add
                                    + spec_scan(after, policy).pieces));
                            }
                            index = close + 1;
                        } else if close > open + 1 && chars[open + 1] == '$' {
                            return Scan { pieces, error: Some(PlaceholderError::LegacySyntax) };
                        } else if check_token(&chars, open + 1, close, false) {
                            let bad = string_of(&chars, open + 1, close);
                            return Scan { pieces, error: Some(PlaceholderError::Unsupported(bad)) };
                        } else {
                            let brace = string_of(&chars, open, open + 1);
                            assert(brace@ =~= seq!['{']);
                            pieces.push(Piece::Text(prefix));
                            pieces.push(Piece::Text(brace));
                            proof {
                                let add = seq![
                                    Piece::Text(s.take(open - index)),
                                    Piece::Text(seq!['{']),
                                ];
                                assert(pieces@.map_values(|p: Piece<String>| p@) =~= done + add);
                                assert(rest.skip(1) =~= chars@.skip(open + 1));
                                let tail = spec_scan(rest.skip(1), policy);
                                assert(done + add + tail.pieces =~= done + (add + tail.pieces));
                            }
                            index = open + 1;
                        }
                    },
                }
            },
        }
    }
}

/// Assembles the resolved text from a scan and one lookup outcome per piece
/// (the outcome given for a text piece is not used).
pub fn resolve_scanned(scan: &Scan, lookups: &Vec<Lookup<String>>) -> (r: Result<
    String,
    PlaceholderError<String>,
>)
    requires
        lookups.len() == scan.pieces.len(),
    ensures
        match r {
            Ok(s) => spec_resolve(scan@.pieces, lookups@.map_values(|l: Lookup<String>| l@), scan@.error)
                == Ok::<Seq<char>, PlaceholderErrorView>(s@),
            Err(e) => spec_resolve(scan@.pieces, lookups@.map_values(|l: Lookup<String>| l@), scan@.error)
                == Err::<Seq<char>, PlaceholderErrorView>(e@),
        },
{
    let ghost ps = scan@.pieces;
    let ghost ls = lookups@.map_values(|l: Lookup<String>| l@);
    let mut out = String::new();
    let mut i: usize = 0;
    assert(ps.skip(0) =~= ps);
    assert(ls.skip(0) =~= ls);
    while i < scan.pieces.len()
        invariant
            i <= scan.pieces.len() == lookups.len(),
            ps == scan@.pieces,
            ls == lookups@.map_values(|l: Lookup<String>| l@),
            spec_resolve(ps, ls, scan@.error) == match spec_resolve(
                ps.skip(i as int),
                ls.skip(i as int),
                scan@.error,
            ) {
                Ok(rest) => Ok(out@ + rest),
                Err(e) => Err(e),
            },
        decreases scan.pieces.len() - i,
    {
        proof {
            assert(ps.skip(i as int).drop_first() =~= ps.skip(i + 1));
            assert(ls.skip(i as int).drop_first() =~= ls.skip(i + 1));
            assert(ps.skip(i as int)[0] == ps[i as int]);
            assert(ls.skip(i as int)[0] == ls[i as int]);
        }
        let ghost before = out@;
        assert(ps[i as int] == scan.pieces@[i as int]@);
        assert(ls[i as int] == lookups@[i as int]@);
        let ghost pv = piece_value(ps[i as int], ls[i as int]);
        match &scan.pieces[i] {
            Piece::Text(t) => {
                out.append(t.as_str());
            },
            Piece::Env(name) => match &lookups[i] {
                Lookup::Found(v) => {
                    out.append(v.as_str());
                },
                Lookup::Missing(_) => {
                    return Err(PlaceholderError::EnvNotFound(name.clone()));
                },
            },
            Piece::File(path) => match &lookups[i] {
                Lookup::Found(v) => {
                    out.append(v.as_str());
                },
                Lookup::Missing(d) => {
                    return Err(PlaceholderError::FileUnreadable(path.clone(), d.clone()));
                },
            },
        }
        proof {
            let v = pv->Ok_0;
            assert(pv is Ok);
            assert(out@ == before + v);
            match spec_resolve(ps.skip(i + 1), ls.skip(i + 1), scan@.error) {
                Ok(rest) => {
                    assert(before + (v + rest) =~= out@ + rest);
                },
                Err(_) => {},
            }
        }
        i = i + 1;
    }
    assert(ps.skip(i as int).len() == 0);
    match &scan.error {
        Some(e) => Err(e.clone()),
        None => {
            assert(out@ + seq![] =~= out@);
            Ok(out)
        },
    }
}

/// Layers an override on a policy: each setting the override gives replaces
/// the base's, the others are kept.
pub fn apply_placeholder_override(
    base: PlaceholderPolicy,
    override_cfg: Option<&PlaceholderOverride>,
) -> (r: PlaceholderPolicy)
    ensures
        r == spec_apply_override(
            base,
            match override_cfg {
                Some(o) => Some(*o),
                None => None,
            },
        ),
{
    match override_cfg {
        Some(o) => PlaceholderPolicy {
            allow_env_placeholders: match o.env {
                Some(b) => b,
                None => base.allow_env_placeholders,
            },
            allow_file_placeholders: match o.file {
                Some(b) => b,
                None => base.allow_file_placeholders,
            },
        },
        None => base,
    }
}

pub open spec fn spec_apply_override(
    base: PlaceholderPolicy,
    o: Option<PlaceholderOverride>,
) -> PlaceholderPolicy {
    match o {
        Some(o) => PlaceholderPolicy {
            allow_env_placeholders: match o.env {
                Some(b) => b,
                None => base.allow_env_placeholders,
            },
            allow_file_placeholders: match o.file {
                Some(b) => b,
                None => base.allow_file_placeholders,
            },
        },
        None => base,
    }
}

} // verus!

verus! {

/// Text without `{` is one literal piece, and resolves to itself.
pub proof fn law_plain_text_is_kept(s: Seq<char>, policy: PlaceholderPolicy, lookups: Seq<LookupView>)
    requires
        forall|i: int| 0 <= i < s.len() ==> s[i] != '{',
        lookups.len() == 1,
    ensures
        spec_scan(s, policy) == (ScanView { pieces: seq![Piece::Text(s)], error: None }),
        spec_resolve(spec_scan(s, policy).pieces, lookups, spec_scan(s, policy).error) == Ok::<
            Seq<char>,
            PlaceholderErrorView,
        >(s),
{
    crate::text::lemma_first_index_none(s, '{');
    let ps = seq![Piece::<Seq<char>>::Text(s)];
    assert(ps.drop_first() =~= Seq::<PieceView>::empty());
    assert(spec_resolve(ps.drop_first(), lookups.drop_first(), None) == Ok::<
        Seq<char>,
        PlaceholderErrorView,
    >(seq![]));
    assert(s + seq![] =~= s);
}

/// A policy bounds what is looked up: no environment variable is read
/// unless environment placeholders are allowed, and no file unless file
/// placeholders are.
pub proof fn law_policy_bounds_lookups(s: Seq<char>, policy: PlaceholderPolicy)
    ensures
        forall|i: int|
            0 <= i < spec_scan(s, policy).pieces.len() ==> (#[trigger] spec_scan(s, policy).pieces[i]
                is Env ==> policy.allow_env_placeholders) && (spec_scan(s, policy).pieces[i] is File
                ==> policy.allow_file_placeholders),
    decreases s.len(),
{
    lemma_first_index(s, '{');
    match first_index(s, '{') {
        None => {},
        Some(open) => {
            let prefix = s.take(open);
            let rest = s.skip(open);
            lemma_first_index(rest, '}');
            match first_index(rest, '}') {
                None => {},
                Some(close) => {
                    let token = rest.subrange(1, close);
                    let after = rest.skip(close + 1);
                    let r = spec_scan(s, policy);
                    if starts_with(token, env_tag()) || starts_with(token, file_tag()) {
                        law_policy_bounds_lookups(after, policy);
                        let t = spec_scan(after, policy);
                        assert forall|i: int| 0 <= i < r.pieces.len() implies (#[trigger] r.pieces[i]
                            is Env ==> policy.allow_env_placeholders) && (r.pieces[i] is File
                            ==> policy.allow_file_placeholders) by {
                            if i >= 2 && r.error is None || i >= 2 && r.pieces.len() > 2 {
                                assert(r.pieces[i] == t.pieces[i - 2]);
                            }
                        }
                    } else if token.len() > 0 && token[0] == '$' {
                    } else if looks_like_token(token) {
                    } else {
                        law_policy_bounds_lookups(rest.skip(1), policy);
                        let t = spec_scan(rest.skip(1), policy);
                        assert forall|i: int| 0 <= i < r.pieces.len() implies (#[trigger] r.pieces[i]
                            is Env ==> policy.allow_env_placeholders) && (r.pieces[i] is File
                            ==> policy.allow_file_placeholders) by {
                            if i >= 2 {
                                assert(r.pieces[i] == t.pieces[i - 2]);
                            }
                        }
                    }
                },
            }
        },
    }
}

/// A lone `{env:NAME}` placeholder obeys the name rule before the policy:
/// a bad name is reported whatever the policy; a good one is refused only
/// when the policy forbids environment placeholders.
pub proof fn law_env_name_rule(name: Seq<char>, policy: PlaceholderPolicy)
    requires
        forall|i: int| 0 <= i < name.len() ==> name[i] != '}',
    ensures
        spec_scan(seq!['{'] + env_tag() + name + seq!['}'], policy).error == match spec_env_name_error(
            name,
        ) {
            Some(e) => Some(e),
            None => if policy.allow_env_placeholders {
                None::<PlaceholderErrorView>
            } else {
                Some(PlaceholderError::EnvDisabled)
            },
        },
{
    let s = seq!['{'] + env_tag() + name + seq!['}'];
    let close = name.len() as int + 5;
    lemma_first_index_at(s, '{', 0);
    assert(s.skip(0) =~= s);
    assert forall|j: int| 0 <= j < close implies s[j] != '}' by {
        if j >= 5 {
            assert(s[j] == name[j - 5]);
        }
    }
    lemma_first_index_at(s, '}', close);
    let token = s.subrange(1, close);
    assert(token =~= env_tag() + name);
    assert(token.take(4) =~= env_tag());
    assert(token.skip(4) =~= name);
    let after = s.skip(close + 1);
    assert(after.len() == 0);
    crate::text::lemma_first_index_none(after, '{');
    assert(spec_scan(after, policy).error is None);
    assert(first_index(s, '{') == Some(0int));
    assert(first_index(s.skip(0), '}') == Some(close));
    assert(starts_with(token, env_tag()));
}

/// In `a + m + b`, with no `{` in `a`, `m` opening with `{` and holding
/// its only `}` at its end: the first `{` is where `m` starts, and the first
/// `}` after it is where `m` ends.
pub(crate) proof fn lemma_locate(a: Seq<char>, m: Seq<char>, b: Seq<char>)
    requires
        forall|i: int| 0 <= i < a.len() ==> a[i] != '{',
        m.len() >= 2,
        m[0] == '{',
        m.last() == '}',
        forall|i: int| 0 <= i < m.len() - 1 ==> m[i] != '}',
    ensures
        first_index(a + m + b, '{') == Some(a.len() as int),
        (a + m + b).take(a.len() as int) == a,
        (a + m + b).skip(a.len() as int) == m + b,
        first_index(m + b, '}') == Some(m.len() - 1),
        (m + b).skip(m.len() as int) == b,
{
    let s = a + m + b;
    assert forall|j: int| 0 <= j < a.len() implies s[j] != '{' by {
        assert(s[j] == a[j]);
    }
    assert(s[a.len() as int] == m[0]);
    lemma_first_index_at(s, '{', a.len() as int);
    assert(s.take(a.len() as int) =~= a);
    assert(s.skip(a.len() as int) =~= m + b);
    let r = m + b;
    assert forall|j: int| 0 <= j < m.len() - 1 implies r[j] != '}' by {
        assert(r[j] == m[j]);
    }
    assert(r[m.len() - 1] == m.last());
    lemma_first_index_at(r, '}', m.len() - 1);
    assert(r.skip(m.len() as int) =~= b);
}

/// `{file:` + `p` + `}`.
pub open spec fn file_placeholder(p: Seq<char>) -> Seq<char> {
    seq!['{', 'f', 'i', 'l', 'e', ':'] + p + seq!['}']
}

/// `{env:` + `name` + `}`.
pub open spec fn env_placeholder(name: Seq<char>) -> Seq<char> {
    seq!['{', 'e', 'n', 'v', ':'] + name + seq!['}']
}

/// Placeholders compose: text before a file placeholder is one literal
/// piece, the placeholder reads exactly the path written between `{file:`
/// and `}`, and everything after the `}` scans exactly as it would on its
/// own.
pub proof fn law_file_placeholder_composes(
    a: Seq<char>,
    p: Seq<char>,
    b: Seq<char>,
    policy: PlaceholderPolicy,
)
    requires
        forall|i: int| 0 <= i < a.len() ==> a[i] != '{',
        forall|i: int| 0 <= i < p.len() ==> p[i] != '}',
        p.len() > 0 && p[0] == '/',
        policy.allow_file_placeholders,
    ensures
        spec_scan(a + file_placeholder(p) + b, policy).pieces == seq![
            Piece::Text(a),
            Piece::File(p),
        ] + spec_scan(b, policy).pieces,
        spec_scan(a + file_placeholder(p) + b, policy).error == spec_scan(b, policy).error,
{
    let m = file_placeholder(p);
    assert forall|i: int| 0 <= i < m.len() - 1 implies m[i] != '}' by {
        if i >= 6 {
            assert(m[i] == p[i - 6]);
        }
    }
    lemma_locate(a, m, b);
    let rest = m + b;
    let close = m.len() - 1;
    let token = rest.subrange(1, close);
    assert(token =~= file_tag() + p);
    assert(token[0] == 'f');
    assert(!starts_with(token, env_tag())) by {
        assert(token.take(4)[0] != env_tag()[0]);
    }
    assert(token.take(5) =~= file_tag());
    assert(token.skip(5) =~= p);
    assert(rest.skip(close + 1) == b);
}

/// Likewise for an environment placeholder with a valid name: it reads
/// exactly the name, and what follows scans as it would on its own.
pub proof fn law_env_placeholder_composes(
    a: Seq<char>,
    name: Seq<char>,
    b: Seq<char>,
    policy: PlaceholderPolicy,
)
    requires
        forall|i: int| 0 <= i < a.len() ==> a[i] != '{',
        name.len() > 0,
        valid_env_name(name),
        policy.allow_env_placeholders,
    ensures
        spec_scan(a + env_placeholder(name) + b, policy).pieces == seq![
            Piece::Text(a),
            Piece::Env(name),
        ] + spec_scan(b, policy).pieces,
        spec_scan(a + env_placeholder(name) + b, policy).error == spec_scan(b, policy).error,
{
    let m = env_placeholder(name);
    assert forall|i: int| 0 <= i < m.len() - 1 implies m[i] != '}' by {
        if i >= 5 {
            assert(m[i] == name[i - 5]);
            assert(is_env_name_char(name[i - 5]));
        }
    }
    lemma_locate(a, m, b);
    let rest = m + b;
    let close = m.len() - 1;
    let token = rest.subrange(1, close);
    assert(token =~= env_tag() + name);
    assert(token.take(4) =~= env_tag());
    assert(token.skip(4) =~= name);
    assert(rest.skip(close + 1) == b);
}

/// Resolution concatenates: a literal, then a placeholder found with value
/// `v`, then the rest give the literal, `v` and the rest's text, in order;
/// a failure in the rest is reported as it is.
pub proof fn law_resolve_concatenates(
    a: Seq<char>,
    ph: PieceView,
    v: Seq<char>,
    skipped: LookupView,
    rest: Seq<PieceView>,
    lookups: Seq<LookupView>,
    tail: Option<PlaceholderErrorView>,
)
    requires
        !(ph is Text),
        rest.len() == lookups.len(),
    ensures
        spec_resolve(
            seq![Piece::Text(a), ph] + rest,
            seq![skipped, Lookup::Found(v)] + lookups,
            tail,
        ) == match spec_resolve(rest, lookups, tail) {
            Ok(t) => Ok::<Seq<char>, PlaceholderErrorView>(a + v + t),
            Err(e) => Err(e),
        },
{
    let ps = seq![Piece::Text(a), ph] + rest;
    let ls = seq![skipped, Lookup::Found(v)] + lookups;
    assert(ps.drop_first().drop_first() =~= rest);
    assert(ls.drop_first().drop_first() =~= lookups);
    assert(ps[0] == Piece::<Seq<char>>::Text(a));
    assert(ps.drop_first()[0] == ph);
    assert(ls.drop_first()[0] == Lookup::<Seq<char>>::Found(v));
    assert(piece_value(ph, Lookup::Found(v)) == Ok::<Seq<char>, PlaceholderErrorView>(v));
    let mid = spec_resolve(ps.drop_first(), ls.drop_first(), tail);
    assert(mid == match spec_resolve(rest, lookups, tail) {
        Ok(t) => Ok::<Seq<char>, PlaceholderErrorView>(v + t),
        Err(e) => Err(e),
    });
    match spec_resolve(rest, lookups, tail) {
        Ok(t) => {
            assert(a + (v + t) =~= a + v + t);
        },
        Err(e) => {},
    }
}

/// Settings an override gives win; an absent override changes nothing.
pub proof fn law_override_precedence(base: PlaceholderPolicy, o: PlaceholderOverride)
    ensures
        spec_apply_override(base, None) == base,
        o.env matches Some(b) ==> spec_apply_override(base, Some(o)).allow_env_placeholders == b,
        o.file matches Some(b) ==> spec_apply_override(base, Some(o)).allow_file_placeholders == b,
        o.env is None ==> spec_apply_override(base, Some(o)).allow_env_placeholders
            == base.allow_env_placeholders,
        o.file is None ==> spec_apply_override(base, Some(o)).allow_file_placeholders
            == base.allow_file_placeholders,
{
}

} // verus!
