//! The dollar placeholder dialect: `{$NAME}` and `{file:/absolute/path}`.
//!
//! It shares pieces, errors and assembly with [`crate::placeholders`]; only
//! the reading of the template differs.
use crate::placeholders::{
    check_env_name, check_token, fail, file_placeholder, is_absolute_path, lemma_locate,
    looks_like_token_with, prepend, valid_env_name, Piece, PlaceholderError, PlaceholderPolicy,
    Scan, ScanView,
};
use crate::text::{
    chars_of, find_char, first_index, has_prefix_at, lemma_first_index, starts_with, string_of,
};
use vstd::prelude::*;

verus! {

pub open spec fn dollar_tag() -> Seq<char> {
    seq!['{', '$']
}

pub open spec fn open_file_tag() -> Seq<char> {
    seq!['{', 'f', 'i', 'l', 'e', ':']
}

/// What the dollar dialect makes of `s`.
pub open spec fn spec_scan_dollar(s: Seq<char>, policy: PlaceholderPolicy) -> ScanView
    decreases s.len(),
{
    proof {
        lemma_first_index(s, '{');
    }
    match first_index(s, '{') {
        None => ScanView { pieces: seq![Piece::Text(s)], error: None },
        Some(open) => {
            let prefix = s.take(open);
            let rest = s.skip(open);
            proof {
                lemma_first_index(rest, '}');
            }
            if starts_with(rest, dollar_tag()) {
                match first_index(rest, '}') {
                    None => fail(PlaceholderError::UnterminatedEnv),
                    Some(close) => {
                        let name = rest.subrange(2, close);
                        if name.len() == 0 {
                            fail(PlaceholderError::EmptyEnvName)
                        } else if !valid_env_name(name) {
                            fail(PlaceholderError::InvalidEnvName(name))
                        } else if !policy.allow_env_placeholders {
                            fail(PlaceholderError::DollarEnvDisabled)
                        } else {
                            prepend(
                                seq![Piece::Text(prefix), Piece::Env(name)],
                                spec_scan_dollar(rest.skip(close + 1), policy),
                            )
                        }
                    },
                }
            } else if starts_with(rest, open_file_tag()) {
                match first_index(rest, '}') {
                    None => fail(PlaceholderError::UnterminatedFile),
                    Some(close) => {
                        let path = rest.subrange(6, close);
                        if !policy.allow_file_placeholders {
                            fail(PlaceholderError::FileDisabled)
                        } else if !is_absolute_path(path) {
                            fail(PlaceholderError::FileNotAbsolute(path))
                        } else {
                            prepend(
                                seq![Piece::Text(prefix), Piece::File(path)],
                                spec_scan_dollar(rest.skip(close + 1), policy),
                            )
                        }
                    },
                }
            } else {
                match first_index(rest, '}') {
                    Some(close) if looks_like_token_with(rest.subrange(1, close), true) => fail(
                        PlaceholderError::Unsupported(rest.subrange(1, close)),
                    ),
                    _ => prepend(
                        seq![Piece::Text(prefix), Piece::Text(seq!['{'])],
                        spec_scan_dollar(rest.skip(1), policy),
                    ),
                }
            }
        },
    }
}

/// Reads a template in the dollar dialect: `{$NAME}` for environment
/// variables, `{file:/path}` for files. A `{` that opens neither is kept as
/// text unless a placeholder-looking token (letters, digits, `_ : / . $`)
/// follows it up to the next `}`, which is an error.
pub fn scan_placeholders(input: &str, policy: PlaceholderPolicy) -> (r: Scan)
    ensures
        r@ == spec_scan_dollar(input@, policy),
{
    let chars = chars_of(input);
    let n = chars.len();
    let mut pieces: Vec<Piece<String>> = Vec::new();
    let mut index: usize = 0;
    let dollar_chars: [char; 2] = ['{', '$'];
    let file_chars: [char; 6] = ['{', 'f', 'i', 'l', 'e', ':'];
    assert(dollar_chars@ =~= dollar_tag());
    assert(file_chars@ =~= open_file_tag());
    assert(chars@.skip(0) =~= chars@);
    loop
        invariant
            n == chars.len(),
            chars@ == input@,
            index <= n,
            dollar_chars@ == dollar_tag(),
            file_chars@ == open_file_tag(),
            spec_scan_dollar(input@, policy) == prepend(
                pieces@.map_values(|p: Piece<String>| p@),
                spec_scan_dollar(chars@.skip(index as int), policy),
            ),
        decreases n - index,
    {
        let ghost s = chars@.skip(index as int);
        let ghost done = pieces@.map_values(|p: Piece<String>| p@);
        match find_char(&chars, index, '{') {
            None => {
                let text = string_of(&chars, index, n);
                assert(text@ =~= s);
                pieces.push(Piece::Text(text));
                assert(pieces@.map_values(|p: Piece<String>| p@) =~= done + seq![
                    Piece::Text(s),
                ]);
                return Scan { pieces, error: None };
            },
            Some(open) => {
                let ghost rest = s.skip(open - index);
                assert(rest =~= chars@.skip(open as int));
                assert(rest =~= chars@.subrange(open as int, n as int));
                proof {
                    lemma_first_index(s, '{');
                    assert(chars@[open as int] == s[open - index]);
                    lemma_first_index(rest, '}');
                }
                let prefix = string_of(&chars, index, open);
                assert(prefix@ =~= s.take(open - index));
                let closing = find_char(&chars, open, '}');
                if has_prefix_at(&chars, open, n, &dollar_chars) {
                    match closing {
                        None => {
                            return Scan {
                                pieces,
                                error: Some(PlaceholderError::UnterminatedEnv),
                            };
                        },
                        Some(close) => {
                            proof {
                                assert(rest[1] == '$');
                                assert(rest[close - open] == chars@[close as int]);
                            }
                            let ghost name = rest.subrange(2, close - open);
                            assert(name =~= chars@.subrange(open + 2, close as int));
                            let ghost after = rest.skip(close - open + 1);
                            assert(after =~= chars@.skip(close + 1));
                            if close == open + 2 {
                                return Scan {
                                    pieces,
                                    error: Some(PlaceholderError::EmptyEnvName),
                                };
                            }
                            if !check_env_name(&chars, open + 2, close) {
                                let bad = string_of(&chars, open + 2, close);
                                return Scan {
                                    pieces,
                                    error: Some(PlaceholderError::InvalidEnvName(bad)),
                                };
                            }
                            if !policy.allow_env_placeholders {
                                return Scan {
                                    pieces,
                                    error: Some(PlaceholderError::DollarEnvDisabled),
                                };
                            }
                            let name_str = string_of(&chars, open + 2, close);
                            pieces.push(Piece::Text(prefix));
                            pieces.push(Piece::Env(name_str));
                            proof {
                                let add = seq![Piece::Text(s.take(open - index)), Piece::Env(name)];
                                assert(pieces@.map_values(|p: Piece<String>| p@) =~= done + add);
                                let tail = spec_scan_dollar(after, policy);
                                assert(done + add + tail.pieces =~= done + (add + tail.pieces));
                            }
                            index = close + 1;
                        },
                    }
                } else if has_prefix_at(&chars, open, n, &file_chars) {
                    match closing {
                        None => {
                            return Scan {
                                pieces,
                                error: Some(PlaceholderError::UnterminatedFile),
                            };
                        },
                        Some(close) => {
                            proof {
                                assert(rest[1] == 'f');
                                assert(rest[2] == 'i');
                                assert(rest[3] == 'l');
                                assert(rest[4] == 'e');
                                assert(rest[5] == ':');
                                assert(rest[close - open] == chars@[close as int]);
                            }
                            let ghost path = rest.subrange(6, close - open);
                            assert(path =~= chars@.subrange(open + 6, close as int));
                            let ghost after = rest.skip(close - open + 1);
                            assert(after =~= chars@.skip(close + 1));
                            if !policy.allow_file_placeholders {
                                return Scan { pieces, error: Some(PlaceholderError::FileDisabled) };
                            }
                            if !(close > open + 6 && chars[open + 6] == '/') {
                                let bad = string_of(&chars, open + 6, close);
                                return Scan {
                                    pieces,
                                    error: Some(PlaceholderError::FileNotAbsolute(bad)),
                                };
                            }
                            let path_str = string_of(&chars, open + 6, close);
                            pieces.push(Piece::Text(prefix));
                            pieces.push(Piece::File(path_str));
                            proof {
                                let add = seq![Piece::Text(s.take(open - index)), Piece::File(path)];
                                assert(pieces@.map_values(|p: Piece<String>| p@) =~= done + add);
                                let tail = spec_scan_dollar(after, policy);
                                assert(done + add + tail.pieces =~= done + (add + tail.pieces));
                            }
                            index = close + 1;
                        },
                    }
                } else {
                    let mut unsupported = false;
                    match closing {
                        Some(close) => {
                            proof {
                                assert(rest[close - open] == chars@[close as int]);
                            }
                            assert(rest.subrange(1, close - open) =~= chars@.subrange(
                                open + 1,
                                close as int,
                            ));
                            if check_token(&chars, open + 1, close, true) {
                                let bad = string_of(&chars, open + 1, close);
                                return Scan {
                                    pieces,
                                    error: Some(PlaceholderError::Unsupported(bad)),
                                };
                            }
                        },
                        None => {},
                    }
                    let brace = string_of(&chars, open, open + 1);
                    assert(brace@ =~= seq!['{']);
                    pieces.push(Piece::Text(prefix));
                    pieces.push(Piece::Text(brace));
                    proof {
                        let add = seq![Piece::Text(s.take(open - index)), Piece::Text(seq!['{'])];
                        assert(pieces@.map_values(|p: Piece<String>| p@) =~= done + add);
                        assert(rest.skip(1) =~= chars@.skip(open + 1));
                        let tail = spec_scan_dollar(rest.skip(1), policy);
                        assert(done + add + tail.pieces =~= done + (add + tail.pieces));
                    }
                    index = open + 1;
                }
            },
        }
    }
}

} // verus!

verus! {

/// In the dollar dialect too, a policy bounds what is looked up.
pub proof fn law_dollar_policy_bounds_lookups(s: Seq<char>, policy: PlaceholderPolicy)
    ensures
        forall|i: int|
            0 <= i < spec_scan_dollar(s, policy).pieces.len() ==> (
            #[trigger] spec_scan_dollar(s, policy).pieces[i] is Env
                ==> policy.allow_env_placeholders) && (spec_scan_dollar(s, policy).pieces[i] is File
                ==> policy.allow_file_placeholders),
    decreases s.len(),
{
    lemma_first_index(s, '{');
    match first_index(s, '{') {
        None => {},
        Some(open) => {
            let rest = s.skip(open);
            lemma_first_index(rest, '}');
            let r = spec_scan_dollar(s, policy);
            match first_index(rest, '}') {
                Some(close) => {
                    let after = rest.skip(close + 1);
                    law_dollar_policy_bounds_lookups(after, policy);
                    law_dollar_policy_bounds_lookups(rest.skip(1), policy);
                    let t = spec_scan_dollar(after, policy);
                    let u = spec_scan_dollar(rest.skip(1), policy);
                    assert forall|i: int| 0 <= i < r.pieces.len() implies (#[trigger] r.pieces[i]
                        is Env ==> policy.allow_env_placeholders) && (r.pieces[i] is File
                        ==> policy.allow_file_placeholders) by {
                        if i >= 2 {
                            if starts_with(rest, dollar_tag()) || starts_with(rest, open_file_tag()) {
                                assert(r.pieces[i] == t.pieces[i - 2]);
                            } else {
                                assert(r.pieces[i] == u.pieces[i - 2]);
                            }
                        }
                    }
                },
                None => {
                    law_dollar_policy_bounds_lookups(rest.skip(1), policy);
                    let u = spec_scan_dollar(rest.skip(1), policy);
                    assert forall|i: int| 0 <= i < r.pieces.len() implies (#[trigger] r.pieces[i]
                        is Env ==> policy.allow_env_placeholders) && (r.pieces[i] is File
                        ==> policy.allow_file_placeholders) by {
                        if i >= 2 {
                            assert(r.pieces[i] == u.pieces[i - 2]);
                        }
                    }
                },
            }
        },
    }
}

/// `{$` + `name` + `}`.
pub open spec fn dollar_placeholder(name: Seq<char>) -> Seq<char> {
    seq!['{', '$'] + name + seq!['}']
}

/// Text without `{` is one literal piece.
pub proof fn law_dollar_plain_text_is_kept(s: Seq<char>, policy: PlaceholderPolicy)
    requires
        forall|i: int| 0 <= i < s.len() ==> s[i] != '{',
    ensures
        spec_scan_dollar(s, policy) == (ScanView { pieces: seq![Piece::Text(s)], error: None }),
{
    crate::text::lemma_first_index_none(s, '{');
}

/// Placeholders compose: text before a file placeholder is one literal
/// piece, the placeholder reads exactly the path written between `{file:`
/// and `}`, and everything after the `}` scans exactly as it would on its
/// own.
pub proof fn law_dollar_file_placeholder_composes(
    a: Seq<char>,
    p: Seq<char>,
    b: Seq<char>,
    policy: PlaceholderPolicy,
)
    requires
        forall|i: int| 0 <= i < a.len() ==> a[i] != '{',
        forall|i: int| 0 <= i < p.len() ==> p[i] != '}',
        p.len() > 0 && p[0] == '/',
        policy.allow_file_placeholders,
    ensures
        spec_scan_dollar(a + file_placeholder(p) + b, policy).pieces == seq![
            Piece::Text(a),
            Piece::File(p),
        ] + spec_scan_dollar(b, policy).pieces,
        spec_scan_dollar(a + file_placeholder(p) + b, policy).error == spec_scan_dollar(
            b,
            policy,
        ).error,
{
    let m = file_placeholder(p);
    assert forall|i: int| 0 <= i < m.len() - 1 implies m[i] != '}' by {
        if i >= 6 {
            assert(m[i] == p[i - 6]);
        }
    }
    lemma_locate(a, m, b);
    let rest = m + b;
    let close = m.len() - 1;
    assert(!starts_with(rest, dollar_tag())) by {
        assert(rest.take(2)[1] != dollar_tag()[1]);
    }
    assert(rest.take(6) =~= open_file_tag());
    assert(rest.subrange(6, close) =~= p);
    assert(rest.skip(close + 1) == b);
}

/// Likewise for `{$NAME}` with a valid name: it reads exactly the name, and
/// what follows scans as it would on its own.
pub proof fn law_dollar_env_placeholder_composes(
    a: Seq<char>,
    name: Seq<char>,
    b: Seq<char>,
    policy: PlaceholderPolicy,
)
    requires
        forall|i: int| 0 <= i < a.len() ==> a[i] != '{',
        name.len() > 0,
        valid_env_name(name),
        policy.allow_env_placeholders,
    ensures
        spec_scan_dollar(a + dollar_placeholder(name) + b, policy).pieces == seq![
            Piece::Text(a),
            Piece::Env(name),
        ] + spec_scan_dollar(b, policy).pieces,
        spec_scan_dollar(a + dollar_placeholder(name) + b, policy).error == spec_scan_dollar(
            b,
            policy,
        ).error,
{
    let m = dollar_placeholder(name);
    assert forall|i: int| 0 <= i < m.len() - 1 implies m[i] != '}' by {
        if i >= 2 {
            assert(m[i] == name[i - 2]);
            assert(crate::placeholders::is_env_name_char(name[i - 2]));
        }
    }
    lemma_locate(a, m, b);
    let rest = m + b;
    let close = m.len() - 1;
    assert(rest.take(2) =~= dollar_tag());
    assert(rest.subrange(2, close) =~= name);
    assert(rest.skip(close + 1) == b);
}

} // verus!
