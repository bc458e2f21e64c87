//! Localized messages: the message table, key lookup, placeholder filling and
//! locale selection.
use vstd::prelude::*;
use crate::text::{chars_eq, chars_of, has_prefix, slice_chars, string_of, to_lowercase, unicode_lowercase};
use crate::types::{NetworkError, NetworkErrorView};

verus! {

broadcast use vstd::string::group_string_axioms;

/// The message table of one language.
#[derive(Debug, Clone)]
pub struct Messages {
    pub not_available: String,
    pub permission_denied: String,
    pub timeout: String,
    pub command_failed: String,
    pub parse_error: String,
    pub io_error: String,
}

/// The message stored under a key, if the key is one of the table's.
pub open spec fn spec_get(m: Messages, key: Seq<char>) -> Option<Seq<char>> {
    if key == "not_available"@ {
        Some(m.not_available@)
    } else if key == "permission_denied"@ {
        Some(m.permission_denied@)
    } else if key == "timeout"@ {
        Some(m.timeout@)
    } else if key == "command_failed"@ {
        Some(m.command_failed@)
    } else if key == "parse_error"@ {
        Some(m.parse_error@)
    } else if key == "io_error"@ {
        Some(m.io_error@)
    } else {
        None
    }
}

impl Messages {
    /// The built-in English table.
    pub fn en_us() -> (m: Messages)
        ensures
            m.not_available@ == "Network hardware or tool not available"@,
            m.permission_denied@ == "Permission denied"@,
            m.timeout@ == "Operation timed out"@,
            m.command_failed@ == "Command failed: {}"@,
            m.parse_error@ == "Parse error: {}"@,
            m.io_error@ == "I/O error: {}"@,
    {
        Messages {
            not_available: string_of(&chars_of("Network hardware or tool not available")),
            permission_denied: string_of(&chars_of("Permission denied")),
            timeout: string_of(&chars_of("Operation timed out")),
            command_failed: string_of(&chars_of("Command failed: {}")),
            parse_error: string_of(&chars_of("Parse error: {}")),
            io_error: string_of(&chars_of("I/O error: {}")),
        }
    }

    /// Looks a key up.
    pub fn get(&self, key: &str) -> (r: Option<&str>)
        ensures
            match r {
                Some(s) => spec_get(*self, key@) == Some(s@),
                None => spec_get(*self, key@).is_none(),
            },
    {
        let k = chars_of(key);
        if chars_eq(&k, &chars_of("not_available")) {
            Some(self.not_available.as_str())
        } else if chars_eq(&k, &chars_of("permission_denied")) {
            Some(self.permission_denied.as_str())
        } else if chars_eq(&k, &chars_of("timeout")) {
            Some(self.timeout.as_str())
        } else if chars_eq(&k, &chars_of("command_failed")) {
            Some(self.command_failed.as_str())
        } else if chars_eq(&k, &chars_of("parse_error")) {
            Some(self.parse_error.as_str())
        } else if chars_eq(&k, &chars_of("io_error")) {
            Some(self.io_error.as_str())
        } else {
            None
        }
    }
}

/// The translated message of a key, or the key itself when it is unknown.
pub open spec fn spec_t(m: Messages, key: Seq<char>) -> Seq<char> {
    match spec_get(m, key) {
        Some(s) => s,
        None => key,
    }
}

/// Returns the translated message, or the key itself when unknown.
pub fn t(messages: &Messages, key: &str) -> (r: String)
    ensures
        r@ == spec_t(*messages, key@),
{
    match messages.get(key) {
        Some(msg) => string_of(&chars_of(msg)),
        None => string_of(&chars_of(key)),
    }
}

/// Index of the first `{}` at or after `i`, or the length.
pub open spec fn find_placeholder(s: Seq<char>, i: int) -> int
    decreases s.len() - i,
{
    if 0 <= i && i + 1 < s.len() && !(s[i] == '{' && s[i + 1] == '}') {
        find_placeholder(s, i + 1)
    } else if 0 <= i && i + 1 < s.len() {
        i
    } else {
        s.len() as int
    }
}

proof fn lemma_find_placeholder(s: Seq<char>, i: int)
    requires
        0 <= i,
    ensures
        find_placeholder(s, i) == s.len() || (i <= find_placeholder(s, i) && find_placeholder(s, i)
            + 1 < s.len() && s[find_placeholder(s, i)] == '{' && s[find_placeholder(s, i) + 1]
            == '}'),
    decreases s.len() - i,
{
    if i + 1 < s.len() && !(s[i] == '{' && s[i + 1] == '}') {
        lemma_find_placeholder(s, i + 1);
    }
}

/// The text with its first `{}` replaced by `arg`.
pub open spec fn fill_first(s: Seq<char>, arg: Seq<char>) -> Seq<char> {
    let k = find_placeholder(s, 0);
    if k < s.len() {
        s.subrange(0, k) + arg + s.skip(k + 2)
    } else {
        s
    }
}

/// Replaces the first `{}` of a text by `arg`.
pub fn fill_placeholder(s: &[char], arg: &[char]) -> (r: Vec<char>)
    ensures
        r@ == fill_first(s@, arg@),
{
    let mut k: usize = 0;
    while k < s.len() && k + 1 < s.len() && !(s[k] == '{' && s[k + 1] == '}')
        invariant
            k <= s.len(),
            find_placeholder(s@, k as int) == find_placeholder(s@, 0),
        decreases s.len() - k,
    {
        k += 1;
    }
    proof {
        lemma_find_placeholder(s@, 0);
    }
    if k < s.len() && k + 1 < s.len() {
        let mut r = slice_chars(s, 0, k);
        let mut i: usize = 0;
        while i < arg.len()
            invariant
                i <= arg.len(),
                k + 1 < s.len(),
                r@ == s@.subrange(0, k as int) + arg@.take(i as int),
            decreases arg.len() - i,
        {
            r.push(arg[i]);
            i += 1;
        }
        let mut j = k + 2;
        while j < s.len()
            invariant
                k + 2 <= j <= s.len(),
                r@ == s@.subrange(0, k as int) + arg@ + s@.subrange(k + 2, j as int),
            decreases s.len() - j,
        {
            r.push(s[j]);
            j += 1;
        }
        assert(arg@.take(arg.len() as int) == arg@);
        r
    } else {
        slice_chars(s, 0, s.len())
    }
}

/// The translated message with its first `{}` filled in.
pub open spec fn spec_t_fmt(m: Messages, key: Seq<char>, arg: Seq<char>) -> Seq<char> {
    fill_first(spec_t(m, key), arg)
}

/// Returns the translated message with its first `{}` placeholder replaced by
/// the argument.
pub fn t_fmt(messages: &Messages, key: &str, arg: &str) -> (r: String)
    ensures
        r@ == spec_t_fmt(*messages, key@, arg@),
{
    let msg = t(messages, key);
    string_of(&fill_placeholder(&chars_of(msg.as_str()), &chars_of(arg)))
}

/// The languages with a built-in message table.
#[derive(Debug, Clone, Copy, PartialEq, Eq, Structural)]
pub enum Locale {
    EnUs,
    DeDe,
}

/// German when the lower-cased locale value starts with `de`, else English.
pub open spec fn spec_locale_for(value: Seq<char>) -> Locale {
    if has_prefix(unicode_lowercase(value), "de"@) {
        Locale::DeDe
    } else {
        Locale::EnUs
    }
}

/// Picks the language for a locale value such as `LANG`.
pub fn locale_for(value: &str) -> (l: Locale)
    ensures
        l == spec_locale_for(value@),
{
    let lower = to_lowercase(&chars_of(value));
    if crate::text::starts_with(&lower, &chars_of("de")) {
        Locale::DeDe
    } else {
        Locale::EnUs
    }
}

impl Locale {
    /// The name of the locale's language file.
    pub fn name(&self) -> (s: &'static str)
        ensures
            s@ == (match self {
                Locale::EnUs => "en_us"@,
                Locale::DeDe => "de_de"@,
            }),
    {
        match self {
            Locale::EnUs => "en_us",
            Locale::DeDe => "de_de",
        }
    }
}

/// The localized text of an error.
pub open spec fn spec_message(m: Messages, e: NetworkErrorView) -> Seq<char> {
    match e {
        NetworkErrorView::NotAvailable => spec_t(m, "not_available"@),
        NetworkErrorView::PermissionDenied => spec_t(m, "permission_denied"@),
        NetworkErrorView::Timeout => spec_t(m, "timeout"@),
        NetworkErrorView::CommandFailed(c) => spec_t_fmt(m, "command_failed"@, c),
        NetworkErrorView::ParseError(c) => spec_t_fmt(m, "parse_error"@, c),
        NetworkErrorView::IoError(c) => spec_t_fmt(m, "io_error"@, c),
    }
}

impl NetworkError {
    /// The localized text of the error, from the given message table.
    pub fn message(&self, messages: &Messages) -> (s: String)
        ensures
            s@ == spec_message(*messages, self@),
    {
        match self {
            NetworkError::NotAvailable => t(messages, "not_available"),
            NetworkError::PermissionDenied => t(messages, "permission_denied"),
            NetworkError::Timeout => t(messages, "timeout"),
            NetworkError::CommandFailed(c) => t_fmt(messages, "command_failed", c.as_str()),
            NetworkError::ParseError(c) => t_fmt(messages, "parse_error", c.as_str()),
            NetworkError::IoError(c) => t_fmt(messages, "io_error", c.as_str()),
        }
    }
}


/// An unknown key translates to itself, and `t_fmt` fills the key itself.
pub proof fn lemma_unknown_key(m: Messages, key: Seq<char>, arg: Seq<char>)
    requires
        spec_get(m, key).is_none(),
    ensures
        spec_t(m, key) == key,
        spec_t_fmt(m, key, arg) == fill_first(key, arg),
{
}

/// Filling a text without a placeholder leaves it unchanged; filling one
/// with a placeholder puts `arg` where the first `{}` was.
pub proof fn lemma_fill_first(s: Seq<char>, arg: Seq<char>)
    ensures
        find_placeholder(s, 0) == s.len() ==> fill_first(s, arg) == s,
        find_placeholder(s, 0) < s.len() ==> fill_first(s, arg).len() == s.len() - 2 + arg.len(),
{
    lemma_find_placeholder(s, 0);
}

} // verus!
