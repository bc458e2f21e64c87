//! Decisions around running command line tools and reading rfkill state.
use vstd::prelude::*;
use crate::text::{
    chars_eq, chars_of, decode_lossy, i32_text, int_text, string_of, trim, trim_chars, utf8_lossy,
};
use crate::types::{NetworkError, NetworkErrorView};

verus! {

broadcast use vstd::string::group_string_axioms;

/// What a finished command gives: its standard output as text when it
/// succeeded; otherwise a `CommandFailed` error naming the program and the
/// reason, which is the trimmed standard error or, when that is empty, the
/// exit code (-1 without one).
pub open spec fn spec_check_output(
    program: Seq<char>,
    success: bool,
    code: Option<i32>,
    stdout: Seq<u8>,
    stderr: Seq<u8>,
) -> Result<Seq<char>, NetworkErrorView> {
    if !success {
        let err = trim(utf8_lossy(stderr));
        let reason = if err.len() == 0 {
            "exit code "@ + int_text(
                match code {
                    Some(c) => c as int,
                    None => -1,
                },
            )
        } else {
            err
        };
        Err(NetworkErrorView::CommandFailed(program + ": "@ + reason))
    } else {
        Ok(utf8_lossy(stdout))
    }
}

/// Turns the outcome of a finished command into its output or an error.
pub fn check_output(program: &str, success: bool, code: Option<i32>, stdout: &[u8], stderr: &[u8]) -> (r: Result<String, NetworkError>)
    ensures
        match r {
            Ok(s) => spec_check_output(program@, success, code, stdout@, stderr@) == Ok::<
                Seq<char>,
                NetworkErrorView,
            >(s@),
            Err(e) => spec_check_output(program@, success, code, stdout@, stderr@) == Err::<
                Seq<char>,
                NetworkErrorView,
            >(e@),
        },
{
    if !success {
        let err = trim_chars(&decode_lossy(stderr));
        let mut msg = chars_of(program);
        msg.append(&mut chars_of(": "));
        if err.len() == 0 {
            msg.append(&mut chars_of("exit code "));
            let c = match code {
                Some(c) => c,
                None => -1,
            };
            let ghost before = msg@;
            msg.append(&mut i32_text(c));
            assert(msg@ == program@ + ": "@ + ("exit code "@ + int_text(c as int)));
        } else {
            let ghost ev = err@;
            let mut e = err;
            msg.append(&mut e);
            assert(msg@ == program@ + ": "@ + ev);
        }
        return Err(NetworkError::CommandFailed(string_of(&msg)));
    }
    Ok(string_of(&decode_lossy(stdout)))
}

/// The state of one rfkill entry: when its type (trimmed) is `kind`, whether
/// it is blocked, that is its `hard` or `soft` flag (trimmed) reads `1`; an
/// unreadable file counts as no match and no block.
pub open spec fn spec_rfkill_entry(
    type_text: Option<Seq<char>>,
    hard: Option<Seq<char>>,
    soft: Option<Seq<char>>,
    kind: Seq<char>,
) -> Option<bool> {
    match type_text {
        Some(t) => if trim(t) == kind {
            Some(
                (match hard {
                    Some(h) => trim(h) == "1"@,
                    None => false,
                }) || (match soft {
                    Some(s) => trim(s) == "1"@,
                    None => false,
                }),
            )
        } else {
            None
        },
        None => None,
    }
}

fn flag_set(text: Option<&str>) -> (r: bool)
    ensures
        r == (match text {
            Some(t) => trim(t@) == "1"@,
            None => false,
        }),
{
    match text {
        Some(t) => chars_eq(&trim_chars(&chars_of(t)), &chars_of("1")),
        None => false,
    }
}

/// Reads one rfkill entry from the contents of its `type`, `hard` and `soft`
/// files.
pub fn rfkill_entry(type_text: Option<&str>, hard: Option<&str>, soft: Option<&str>, kind: &str) -> (r: Option<bool>)
    ensures
        r == spec_rfkill_entry(
            match type_text {
                Some(t) => Some(t@),
                None => None,
            },
            match hard {
                Some(h) => Some(h@),
                None => None,
            },
            match soft {
                Some(s) => Some(s@),
                None => None,
            },
            kind@,
        ),
{
    match type_text {
        Some(t) => {
            if chars_eq(&trim_chars(&chars_of(t)), &chars_of(kind)) {
                Some(flag_set(hard) || flag_set(soft))
            } else {
                None
            }
        },
        None => None,
    }
}


/// How a finished command ended: whether it succeeded, its exit code (none
/// when a signal ended it) and what it wrote.
#[derive(Debug, Clone)]
pub struct CommandOutput {
    pub success: bool,
    pub code: Option<i32>,
    pub stdout: Vec<u8>,
    pub stderr: Vec<u8>,
}

/// What `run` gives for a command that could not be started (`Err`) or that
/// finished with `output`.
pub open spec fn spec_run(program: Seq<char>, outcome: Result<CommandOutput, NetworkError>) -> Result<
    Seq<char>,
    NetworkErrorView,
> {
    match outcome {
        Err(e) => Err(e@),
        Ok(o) => spec_check_output(program, o.success, o.code, o.stdout@, o.stderr@),
    }
}

/// The output of running `program`, given how starting it went: a start
/// failure is passed on, a finished command is checked by
/// [`check_output`].
pub fn run(program: &str, outcome: Result<CommandOutput, NetworkError>) -> (r: Result<String, NetworkError>)
    ensures
        match r {
            Ok(s) => spec_run(program@, outcome) == Ok::<Seq<char>, NetworkErrorView>(s@),
            Err(e) => spec_run(program@, outcome) == Err::<Seq<char>, NetworkErrorView>(e@),
        },
{
    match outcome {
        Err(e) => Err(e),
        Ok(o) => check_output(program, o.success, o.code, o.stdout.as_slice(), o.stderr.as_slice()),
    }
}

/// The contents of the `type`, `hard` and `soft` files of one entry under
/// `/sys/class/rfkill`, each `None` when it could not be read.
#[derive(Debug, Clone)]
pub struct RfkillEntry {
    pub type_text: Option<String>,
    pub hard: Option<String>,
    pub soft: Option<String>,
}

pub open spec fn entry_state(e: RfkillEntry, kind: Seq<char>) -> Option<bool> {
    spec_rfkill_entry(opt_chars(e.type_text), opt_chars(e.hard), opt_chars(e.soft), kind)
}

pub open spec fn opt_chars(o: Option<String>) -> Option<Seq<char>> {
    match o {
        Some(s) => Some(s@),
        None => None,
    }
}

/// Whether the radio of type `kind` is blocked: the state of the first entry
/// of that type, `None` when there is none.
pub open spec fn spec_rfkill_blocked(entries: Seq<RfkillEntry>, kind: Seq<char>) -> Option<bool>
    decreases entries.len(),
{
    if entries.len() == 0 {
        None
    } else {
        match entry_state(entries[0], kind) {
            Some(b) => Some(b),
            None => spec_rfkill_blocked(entries.drop_first(), kind),
        }
    }
}

fn opt_str(o: &Option<String>) -> (r: Option<&str>)
    ensures
        match r {
            Some(t) => o matches Some(s) && t@ == s@,
            None => o.is_none(),
        },
{
    match o {
        Some(s) => Some(s.as_str()),
        None => None,
    }
}

/// Whether a radio of the given rfkill type is blocked, read from the
/// rfkill entries in order; `None` when no entry has that type. Hard and
/// soft blocks both count.
pub fn rfkill_blocked(entries: &Vec<RfkillEntry>, kind: &str) -> (r: Option<bool>)
    ensures
        r == spec_rfkill_blocked(entries@, kind@),
{
    let mut i: usize = 0;
    assert(entries@.skip(0) == entries@);
    while i < entries.len()
        invariant
            i <= entries.len(),
            spec_rfkill_blocked(entries@.skip(i as int), kind@) == spec_rfkill_blocked(entries@, kind@),
        decreases entries.len() - i,
    {
        let e = &entries[i];
        assert(entries@.skip(i as int)[0] == entries@[i as int]);
        let st = rfkill_entry(opt_str(&e.type_text), opt_str(&e.hard), opt_str(&e.soft), kind);
        assert(st == entry_state(entries@[i as int], kind@));
        if let Some(b) = st {
            return Some(b);
        }
        assert(entries@.skip(i as int).drop_first() == entries@.skip(i + 1));
        i += 1;
    }
    None
}

} // verus!
