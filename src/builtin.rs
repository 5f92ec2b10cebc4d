//! The closed set of commands the interpreter runs itself.
use vstd::prelude::*;

verus! {

/// A command carried out by the interpreter rather than by a child process.
#[derive(PartialEq, Eq, Structural, Clone, Copy, Debug)]
pub enum Builtin {
    Echo,
    Exit,
    Type,
    Pwd,
    Cd,
}

/// The builtin named exactly `name`, if any (case-sensitive).
pub open spec fn builtin_of(name: Seq<char>) -> Option<Builtin> {
    if name == seq!['e', 'c', 'h', 'o'] {
        Some(Builtin::Echo)
    } else if name == seq!['t', 'y', 'p', 'e'] {
        Some(Builtin::Type)
    } else if name == seq!['e', 'x', 'i', 't'] {
        Some(Builtin::Exit)
    } else if name == seq!['p', 'w', 'd'] {
        Some(Builtin::Pwd)
    } else if name == seq!['c', 'd'] {
        Some(Builtin::Cd)
    } else {
        None
    }
}

pub open spec fn is_builtin_name(name: Seq<char>) -> bool {
    builtin_of(name) is Some
}

/// Whether `a` and `b` hold the same characters.
pub fn same_text(a: &str, b: &str) -> (r: bool)
    ensures
        r == (a@ == b@),
{
    let n = a.unicode_len();
    if n != b.unicode_len() {
        return false;
    }
    let mut i: usize = 0;
    while i < n
        invariant
            n == a@.len(),
            n == b@.len(),
            i <= n,
            a@.take(i as int) == b@.take(i as int),
        decreases n - i,
    {
        if a.get_char(i) != b.get_char(i) {
            assert(a@[i as int] != b@[i as int]);
            return false;
        }
        assert(a@.take(i + 1) == a@.take(i as int).push(a@[i as int]));
        assert(b@.take(i + 1) == b@.take(i as int).push(b@[i as int]));
        i = i + 1;
    }
    assert(a@ == a@.take(n as int));
    assert(b@ == b@.take(n as int));
    true
}

/// Looks `name` up among the five builtins.
pub fn parse_builtin(name: &str) -> (r: Option<Builtin>)
    ensures
        r == builtin_of(name@),
{
    proof {
        reveal_strlit("echo");
        reveal_strlit("type");
        reveal_strlit("exit");
        reveal_strlit("pwd");
        reveal_strlit("cd");
        assert("echo"@ == seq!['e', 'c', 'h', 'o']);
        assert("type"@ == seq!['t', 'y', 'p', 'e']);
        assert("exit"@ == seq!['e', 'x', 'i', 't']);
        assert("pwd"@ == seq!['p', 'w', 'd']);
        assert("cd"@ == seq!['c', 'd']);
    }
    if same_text(name, "echo") {
        Some(Builtin::Echo)
    } else if same_text(name, "type") {
        Some(Builtin::Type)
    } else if same_text(name, "exit") {
        Some(Builtin::Exit)
    } else if same_text(name, "pwd") {
        Some(Builtin::Pwd)
    } else if same_text(name, "cd") {
        Some(Builtin::Cd)
    } else {
        None
    }
}

} // verus!
