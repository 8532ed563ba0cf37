//! The pattern-matching configuration: which fragments survive filtering.
//!
//! A configuration holds an optional *required* pattern (a fragment must
//! satisfy it to survive) and an optional *forbidden* pattern (a fragment
//! satisfying it is dropped), each interpreted either as a literal substring
//! or as a regular expression. When case is ignored, both the patterns and
//! the fragment under test are lowercased; the patterns are lowercased once,
//! at construction, whatever their source.

use vstd::prelude::*;

use crate::casefold::{lower_of, lowercase};
use crate::regexes::{
    compile_regex, describe_regex_error, regex_is_match, regex_match, regex_ok, regex_pattern,
};
use crate::text::{contains_pattern, contains_seq, dec_str};
use crate::text::usize_to_string;

verus! {

/// Which of the two patterns an error is about.
#[derive(Clone, Copy, Debug, PartialEq, Eq, Structural)]
pub enum Role {
    Required,
    Forbidden,
}

/// An error of the core: a pattern that does not compile, a configuration
/// with no pattern at all, or a document whose chat-container marker does not
/// occur exactly once.
#[derive(Debug)]
pub enum FilterError {
    RegexSyntax { role: Role, pattern: String, detail: String },
    NoPatterns,
    Structure { found: usize },
}

/// The mathematical content of a configuration.
pub struct ConfigV {
    pub regex: bool,
    pub match_case: bool,
    pub required: Option<Seq<char>>,
    pub forbidden: Option<Seq<char>>,
}

/// A pattern-matching configuration, immutable once constructed.
pub struct Config {
    regex: bool,
    match_case: bool,
    required: Option<String>,
    forbidden: Option<String>,
    required_regex: Option<regex::Regex>,
    forbidden_regex: Option<regex::Regex>,
}

/// The view of an optional owned string.
pub open spec fn opt_str_view(o: Option<String>) -> Option<Seq<char>> {
    match o {
        Some(s) => Some(s@),
        None => None,
    }
}

/// The pattern as stored: lowercased at construction unless case matters.
pub open spec fn norm_opt(match_case: bool, p: Option<Seq<char>>) -> Option<Seq<char>> {
    if match_case {
        p
    } else {
        match p {
            Some(s) => Some(lower_of(s)),
            None => None,
        }
    }
}

impl View for Config {
    type V = ConfigV;

    closed spec fn view(&self) -> ConfigV {
        ConfigV {
            regex: self.regex,
            match_case: self.match_case,
            required: opt_str_view(self.required),
            forbidden: opt_str_view(self.forbidden),
        }
    }
}

/// At least one pattern is set, so matching can be decided.
pub open spec fn has_patterns(v: ConfigV) -> bool {
    v.required is Some || v.forbidden is Some
}

/// Whether a single pattern is satisfied by `text`: a search-anywhere regex
/// match in regex mode, substring containment otherwise.
pub open spec fn pattern_hit(v: ConfigV, pat: Seq<char>, text: Seq<char>) -> bool {
    if v.regex {
        regex_match(pat, text)
    } else {
        contains_seq(text, pat)
    }
}

/// The fragment as tested: lowercased unless case matters.
pub open spec fn normalized(v: ConfigV, s: Seq<char>) -> Seq<char> {
    if v.match_case {
        s
    } else {
        lower_of(s)
    }
}

/// The matching decision: the fragment must satisfy the required pattern (if
/// set) and must not satisfy the forbidden pattern (if set). The forbidden
/// pattern overrides a satisfied required pattern.
pub open spec fn config_matches(v: ConfigV, frag: Seq<char>) -> bool {
    let t = normalized(v, frag);
    (match v.required {
        Some(p) => pattern_hit(v, p, t),
        None => true,
    }) && (match v.forbidden {
        Some(p) => !pattern_hit(v, p, t),
        None => true,
    })
}

impl Config {
    /// The stored compiled regexes exist exactly in regex mode for the set
    /// patterns, and were compiled from the stored pattern strings.
    pub closed spec fn wf(&self) -> bool {
        &&& (self.required_regex is Some <==> (self.regex && self.required is Some))
        &&& (self.forbidden_regex is Some <==> (self.regex && self.forbidden is Some))
        &&& (self.required_regex is Some ==> regex_pattern(self.required_regex->0)
            == self.required->0@)
        &&& (self.forbidden_regex is Some ==> regex_pattern(self.forbidden_regex->0)
            == self.forbidden->0@)
    }

    /// Builds a configuration. Unless `match_case` is set, both patterns are
    /// lowercased before they are stored. In regex mode each pattern present
    /// is compiled, the required one first; a compilation failure is fatal
    /// and names the offending pattern.
    pub fn from_args(
        regex: bool,
        required: Option<String>,
        forbidden: Option<String>,
        match_case: bool,
    ) -> (r: Result<Config, FilterError>)
        ensures
            ({
                let rq = norm_opt(match_case, opt_str_view(required));
                let fb = norm_opt(match_case, opt_str_view(forbidden));
                &&& (!regex ==> r is Ok)
                &&& (regex ==> ((r is Ok) <==> ((rq is Some ==> regex_ok(rq->0)) && (fb is Some
                    ==> regex_ok(fb->0)))))
                &&& (r is Ok ==> (r->Ok_0).wf() && (r->Ok_0)@ == (ConfigV {
                    regex,
                    match_case,
                    required: rq,
                    forbidden: fb,
                }))
                &&& (regex && rq is Some && !regex_ok(rq->0) ==> (r matches Err(
                    FilterError::RegexSyntax { role, pattern, detail: _ },
                ) && role == Role::Required && pattern@ == rq->0))
                &&& (regex && (rq is Some ==> regex_ok(rq->0)) && fb is Some && !regex_ok(fb->0)
                    ==> (r matches Err(FilterError::RegexSyntax { role, pattern, detail: _ }) && role
                    == Role::Forbidden && pattern@ == fb->0))
            }),
    {
        let required = normalize_pattern(match_case, required);
        let forbidden = normalize_pattern(match_case, forbidden);
        let mut required_regex: Option<regex::Regex> = None;
        let mut forbidden_regex: Option<regex::Regex> = None;
        if regex {
            match &required {
                Some(p) => {
                    match compile_regex(p.as_str()) {
                        Ok(re) => {
                            required_regex = Some(re);
                        },
                        Err(e) => {
                            let detail = describe_regex_error(&e);
                            return Err(
                                FilterError::RegexSyntax { role: Role::Required, pattern: p.clone(), detail },
                            );
                        },
                    }
                },
                None => {},
            }
            match &forbidden {
                Some(p) => {
                    match compile_regex(p.as_str()) {
                        Ok(re) => {
                            forbidden_regex = Some(re);
                        },
                        Err(e) => {
                            let detail = describe_regex_error(&e);
                            return Err(
                                FilterError::RegexSyntax {
                                    role: Role::Forbidden,
                                    pattern: p.clone(),
                                    detail,
                                },
                            );
                        },
                    }
                },
                None => {},
            }
        }
        Ok(Config { regex, match_case, required, forbidden, required_regex, forbidden_regex })
    }

    /// Decides whether a text fragment survives filtering. Fails exactly when
    /// no pattern at all is configured; otherwise returns the matching
    /// decision.
    pub fn matches(&self, text: &str) -> (r: Result<bool, FilterError>)
        requires
            self.wf(),
        ensures
            !has_patterns(self@) ==> r matches Err(FilterError::NoPatterns),
            has_patterns(self@) ==> r == Ok::<bool, FilterError>(config_matches(self@, text@)),
    {
        let hay: String = if self.match_case {
            text.to_owned()
        } else {
            lowercase(text)
        };
        if self.required.is_none() && self.forbidden.is_none() {
            return Err(FilterError::NoPatterns);
        }
        match &self.required_regex {
            Some(re) => {
                if !regex_is_match(re, hay.as_str()) {
                    return Ok(false);
                }
            },
            None => {
                match &self.required {
                    Some(p) => {
                        if !contains_pattern(hay.as_str(), p.as_str()) {
                            return Ok(false);
                        }
                    },
                    None => {},
                }
            },
        }
        match &self.forbidden_regex {
            Some(re) => {
                if regex_is_match(re, hay.as_str()) {
                    return Ok(false);
                }
            },
            None => {
                match &self.forbidden {
                    Some(p) => {
                        if contains_pattern(hay.as_str(), p.as_str()) {
                            return Ok(false);
                        }
                    },
                    None => {},
                }
            },
        }
        Ok(true)
    }
}

/// Lowercases a pattern unless case matters, as `from_args` stores it.
fn normalize_pattern(match_case: bool, p: Option<String>) -> (r: Option<String>)
    ensures
        opt_str_view(r) == norm_opt(match_case, opt_str_view(p)),
{
    if match_case {
        p
    } else {
        match p {
            Some(s) => Some(lowercase(s.as_str())),
            None => None,
        }
    }
}

/// The wording of each error's account.
pub open spec fn role_name(role: Role) -> Seq<char> {
    match role {
        Role::Required => "required"@,
        Role::Forbidden => "forbidden"@,
    }
}

/// The text `message` returns for each error.
pub open spec fn message_spec(e: FilterError) -> Seq<char> {
    match e {
        FilterError::RegexSyntax { role, pattern, detail } => "failed to compile "@ + role_name(role)
            + " pattern from "@ + pattern@ + ": "@ + detail@,
        FilterError::NoPatterns => "no required/forbidden patterns were provided"@,
        FilterError::Structure { found } => "expected 1 chat container marker, but found "@ + dec_str(
            found as int,
        ),
    }
}

impl FilterError {
    /// A readable account of the error.
    pub fn message(&self) -> (r: String)
        ensures
            r@ == message_spec(*self),
    {
        match self {
            FilterError::RegexSyntax { role, pattern, detail } => {
                let mut s = String::new();
                s.append("failed to compile ");
                match role {
                    Role::Required => s.append("required"),
                    Role::Forbidden => s.append("forbidden"),
                }
                s.append(" pattern from ");
                s.append(pattern.as_str());
                s.append(": ");
                s.append(detail.as_str());
                s
            },
            FilterError::NoPatterns => "no required/forbidden patterns were provided".to_owned(),
            FilterError::Structure { found } => {
                let mut s = String::new();
                s.append("expected 1 chat container marker, but found ");
                let num = usize_to_string(*found);
                s.append(num.as_str());
                s
            },
        }
    }
}

} // verus!
