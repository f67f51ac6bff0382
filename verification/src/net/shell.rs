//! Quoting and result bookkeeping for the shell / UCI commands the daemon
//! runs. Running them is the program's business; this module only decides
//! what a command looks like and which of a batch failed.
//!
//! Two lessons kept from the field:
//!   * under `sh -c` a space splits an argument, so a multi-value UCI option
//!     (typically `dns "A B"`) must be quoted as a whole, see [`sq`];
//!   * deleting a UCI entry that does not exist fails even with `-q`, so
//!     deletions never count towards [`failed`].
use crate::text::push_char;
use vstd::prelude::*;

verus! {

/// How a command is run: only echoed back (`Dry`, for self tests) or for real.
#[derive(Debug, Clone, Copy, PartialEq, Eq, Structural)]
pub enum RunMode {
    Dry,
    Real,
}

/// The quoted form of one character inside single quotes: a single quote
/// closes the quoting, is escaped, and reopens it.
pub open spec fn quote_piece(c: char) -> Seq<char> {
    if c == '\'' {
        seq!['\'', '\\', '\'', '\'']
    } else {
        seq![c]
    }
}

/// The characters of `s` with every single quote escaped.
pub open spec fn quote_body(s: Seq<char>) -> Seq<char>
    decreases s.len(),
{
    if s.len() == 0 {
        seq![]
    } else {
        quote_body(s.drop_last()) + quote_piece(s.last())
    }
}

/// POSIX single-quoted shell word: `'` + body + `'`.
pub open spec fn spec_sq(s: Seq<char>) -> Seq<char> {
    seq!['\''] + quote_body(s) + seq!['\'']
}

/// Wraps a shell argument in single quotes, escaping embedded quotes.
pub fn sq(s: &str) -> (r: String)
    ensures
        r@ == spec_sq(s@),
{
    let v = crate::text::chars_of(s);
    let mut r = String::new();
    push_char(&mut r, '\'');
    let mut i: usize = 0;
    while i < v.len()
        invariant
            i <= v@.len(),
            v@ == s@,
            r@ == seq!['\''] + quote_body(v@.take(i as int)),
        decreases v.len() - i,
    {
        let c = v[i];
        if c == '\'' {
            push_char(&mut r, '\'');
            push_char(&mut r, '\\');
            push_char(&mut r, '\'');
            push_char(&mut r, '\'');
        } else {
            push_char(&mut r, c);
        }
        proof {
            assert(v@.take(i + 1).drop_last() == v@.take(i as int));
            assert(v@.take(i + 1).last() == c);
        }
        i += 1;
        assert(r@ =~= seq!['\''] + quote_body(v@.take(i as int)));
    }
    push_char(&mut r, '\'');
    assert(v@.take(v@.len() as int) == v@);
    r
}

/// The commands of a batch whose run failed, in batch order.
pub open spec fn failed_of(results: Seq<(String, bool, String)>) -> Seq<Seq<char>>
    decreases results.len(),
{
    if results.len() == 0 {
        seq![]
    } else {
        let rest = failed_of(results.drop_last());
        if results.last().1 {
            rest
        } else {
            rest.push(results.last().0@)
        }
    }
}

/// Keeps only the failed entries of a batch `(command, ok, output)`.
pub fn failed(cmds: &[(String, bool, String)]) -> (r: Vec<String>)
    ensures
        r@.map_values(|x: String| x@) == failed_of(cmds@),
{
    let mut r: Vec<String> = Vec::new();
    let mut i: usize = 0;
    while i < cmds.len()
        invariant
            i <= cmds@.len(),
            r@.map_values(|x: String| x@) == failed_of(cmds@.take(i as int)),
        decreases cmds.len() - i,
    {
        proof {
            assert(cmds@.take(i + 1).drop_last() == cmds@.take(i as int));
            assert(cmds@.take(i + 1).last() == cmds@[i as int]);
        }
        if !cmds[i].1 {
            let c = cmds[i].0.clone();
            r.push(c);
        }
        i += 1;
        assert(r@.map_values(|x: String| x@) =~= failed_of(cmds@.take(i as int)));
    }
    assert(cmds@.take(cmds@.len() as int) == cmds@);
    r
}

/// The command line that runs a UCI subcommand quietly: `uci -q <sub>`.
pub fn uci_line(sub: &str) -> (r: String)
    ensures
        r@ == "uci -q "@ + sub@,
{
    let mut r = String::new();
    crate::text::push_str(&mut r, "uci -q ");
    crate::text::push_str(&mut r, sub);
    r
}

} // verus!
