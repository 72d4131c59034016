//! Types of the todo service that surround the authorization core: the
//! share roles and entity kinds of its API, the capability witness
//! traits its handlers demand, and the parsing of the port argument.

use vstd::prelude::*;
use vstd::string::StrSliceExecFns;

verus! {

/// The role a list is shared under.
#[derive(Debug, Clone, Copy)]
pub enum ShareRole {
    Reader,
    Editor,
}

/// The body of a reply that carries no data.
#[derive(Debug, Clone)]
pub struct Empty {
    message: &'static str,
}

impl Empty {
    /// The fixed message of the reply.
    pub closed spec fn spec_message(&self) -> Seq<char> {
        self.message@
    }

    /// The message text.
    pub fn message(&self) -> (r: &str)
        ensures
            r@ == self.spec_message(),
    {
        self.message
    }
}

impl Default for Empty {
    /// The affirmative empty reply.
    fn default() -> (r: Empty)
        ensures
            r.spec_message() == "ok"@,
    {
        Empty { message: "ok" }
    }
}

/// The kinds of entities the store holds.
#[derive(Debug, Clone, Copy)]
pub enum EntityType {
    List,
    User,
    Team,
    Application,
}

/// Whether a task is done.
#[derive(Debug, Clone, Copy, PartialEq, Eq)]
pub enum TaskState {
    Checked,
    Unchecked,
}

impl TaskState {
    /// The textual form of the state.
    pub fn label(&self) -> (r: &'static str)
        ensures
            *self is Checked ==> r@ == "checked"@,
            *self is Unchecked ==> r@ == "unchecked"@,
    {
        match self {
            TaskState::Checked => "checked",
            TaskState::Unchecked => "unchecked",
        }
    }
}

/// Capability witnesses: a handler that demands one of these traits can
/// only run behind an authorization decision that grants it.
pub trait ReadList {

}

pub trait WriteList {

}

pub trait Delete {

}

pub trait ReadUser {

}

pub trait WriteUser {

}

pub trait ReadTeam {

}

pub trait WriteTeam {

}

pub trait WriteTeamUser {

}

pub trait ReadAll {

}

pub trait CreateUser {

}

pub trait CreateList {

}

pub trait CreateTeam {

}

/// The action of editing the shares of a list.
pub struct EditShare;

impl WriteTeamUser for EditShare {

}

impl ReadList for EditShare {

}

/// Failure to read the port argument.
#[derive(Debug, Clone, Copy, PartialEq, Eq)]
pub enum ArgError {
    /// The argument is not a valid port number.
    Parse,
}

/// All characters are decimal digits.
pub open spec fn all_digits(s: Seq<char>) -> bool {
    forall|i: int| 0 <= i < s.len() ==> 48 <= (#[trigger] s[i]) as u32 <= 57
}

/// The number a digit string denotes.
pub open spec fn digits_value(s: Seq<char>) -> nat
    decreases s.len(),
{
    if s.len() == 0 {
        0nat
    } else {
        digits_value(s.drop_last()) * 10 + ((s.last() as u32 - 48) as nat)
    }
}

/// What parsing a port number yields: an optional leading `+`, then at
/// least one decimal digit, denoting a value that fits in sixteen bits.
pub open spec fn parse_u16_spec(s: Seq<char>) -> Option<u16> {
    let digits = if s.len() >= 1 && s[0] == '+' {
        s.subrange(1, s.len() as int)
    } else {
        s
    };
    if digits.len() >= 1 && all_digits(digits) && digits_value(digits) <= 65535 {
        Some(digits_value(digits) as u16)
    } else {
        None
    }
}

/// The value of a digit string dominates the value of each of its
/// prefixes.
proof fn lemma_digits_prefix_le(s: Seq<char>, k: int)
    requires
        0 <= k <= s.len(),
    ensures
        digits_value(s.subrange(0, k)) <= digits_value(s),
    decreases s.len() - k,
{
    if k == s.len() {
        assert(s.subrange(0, k) =~= s);
    } else {
        lemma_digits_prefix_le(s, k + 1);
        let shorter = s.subrange(0, k);
        let longer = s.subrange(0, k + 1);
        assert(longer.drop_last() =~= shorter);
        assert(digits_value(longer) == digits_value(shorter) * 10 + ((longer.last() as u32
            - 48) as nat));
        assert(digits_value(shorter) * 10 >= digits_value(shorter));
    }
}

/// Parse a port number: an optional `+`, then decimal digits, fitting
/// in sixteen bits; anything else is refused.
pub fn parse_port(s: &str) -> (r: Result<u16, ArgError>)
    ensures
        match r {
            Ok(p) => parse_u16_spec(s@) == Some(p),
            Err(_) => parse_u16_spec(s@) is None,
        },
{
    let n: usize = s.unicode_len();
    let start: usize = if n >= 1 && s.get_char(0) == '+' {
        1
    } else {
        0
    };
    let ghost digits = if start == 1 {
        s@.subrange(1, n as int)
    } else {
        s@
    };
    proof {
        if start == 0 {
            assert(s@.subrange(0, n as int) =~= s@);
        }
    }
    if n == start {
        return Err(ArgError::Parse);
    }
    let mut val: u32 = 0;
    let mut i: usize = start;
    while i < n
        invariant
            n == s@.len(),
            start <= 1,
            start == 1 ==> n >= 1 && s@[0] == '+' && digits == s@.subrange(1, n as int),
            start == 0 ==> digits == s@ && s@[0] != '+',
            start < n,
            start <= i <= n,
            forall|t: int| start <= t < i ==> 48 <= (#[trigger] s@[t]) as u32 <= 57,
            val == digits_value(s@.subrange(start as int, i as int)),
            val <= 65535,
        decreases n - i,
    {
        let c = s.get_char(i);
        let cu: u32 = c as u32;
        if cu < 48 || cu > 57 {
            proof {
                assert(digits[i - start] == s@[i as int]);
                assert(!all_digits(digits));
            }
            return Err(ArgError::Parse);
        }
        let d: u32 = cu - 48;
        proof {
            let prefix = s@.subrange(start as int, i as int);
            let extended = s@.subrange(start as int, i as int + 1);
            assert(extended.drop_last() =~= prefix);
            assert(extended.last() == s@[i as int]);
        }
        val = val * 10 + d;
        i = i + 1;
        if val > 65535 {
            proof {
                if all_digits(digits) && digits_value(digits) <= 65535 {
                    let prefix_len = i - start;
                    assert(digits.subrange(0, prefix_len as int) =~= s@.subrange(
                        start as int,
                        i as int,
                    ));
                    lemma_digits_prefix_le(digits, prefix_len as int);
                    assert(false);
                }
            }
            return Err(ArgError::Parse);
        }
    }
    proof {
        assert(s@.subrange(start as int, n as int) =~= digits);
        assert forall|t: int| 0 <= t < digits.len() implies 48 <= (#[trigger] digits[t]) as u32
            <= 57 by {
            assert(digits[t] == s@[t + start]);
        }
    }
    Ok(val as u16)
}

/// The argument that decides the port: the first argument after the
/// program name, or the default `8080`.
pub open spec fn effective_port_arg(args: Seq<String>) -> Seq<char> {
    if args.len() >= 2 {
        args[1]@
    } else {
        "8080"@
    }
}

/// Read the port from the argument list: the argument after the program
/// name when one is given, the default `8080` otherwise.
pub fn get_port(args: &Vec<String>) -> (r: Result<u16, ArgError>)
    ensures
        match r {
            Ok(p) => parse_u16_spec(effective_port_arg(args@)) == Some(p),
            Err(_) => parse_u16_spec(effective_port_arg(args@)) is None,
        },
{
    if args.len() >= 2 {
        parse_port(args[1].as_str())
    } else {
        parse_port("8080")
    }
}

} // verus!
