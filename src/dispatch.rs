//! Deciding what a tokenized command line does.
use vstd::prelude::*;
use vstd::string::StringExecFns;
use crate::builtin::{Builtin, builtin_of, is_builtin_name, parse_builtin};
use crate::tokenizer::{
    is_quoting_char, lemma_plain_line_splits_on_spaces, lemma_words_are_clean, space_free, tokens_of,
    views,
};

verus! {

/// What the host must do for one command line.
#[derive(Clone, Debug, PartialEq, Eq)]
pub enum Action {
    /// An empty line: nothing happens.
    Nothing,
    /// Print this line, followed by a newline.
    Print(String),
    /// Leave the read loop.
    Exit,
    /// Print the working directory.
    Pwd,
    /// Search the path for this name and print `type_report` of the outcome.
    Lookup(String),
    /// Change the working directory to `cd_target` of this argument.
    ChangeDir(String),
    /// Resolve the program on the search path and run it with these
    /// arguments, under its name as typed.
    Run(String, Vec<String>),
}

/// The mathematical content of an `Action`.
pub ghost enum Step {
    Nothing,
    Print(Seq<char>),
    Exit,
    Pwd,
    Lookup(Seq<char>),
    ChangeDir(Seq<char>),
    Run(Seq<char>, Seq<Seq<char>>),
}

impl View for Action {
    type V = Step;

    open spec fn view(&self) -> Step {
        match self {
            Action::Nothing => Step::Nothing,
            Action::Print(s) => Step::Print(s@),
            Action::Exit => Step::Exit,
            Action::Pwd => Step::Pwd,
            Action::Lookup(s) => Step::Lookup(s@),
            Action::ChangeDir(s) => Step::ChangeDir(s@),
            Action::Run(n, a) => Step::Run(n@, views(a@)),
        }
    }
}

/// The words joined by single spaces.
pub open spec fn join_spaces(words: Seq<Seq<char>>) -> Seq<char>
    decreases words.len(),
{
    if words.len() == 0 {
        Seq::empty()
    } else if words.len() == 1 {
        words[0]
    } else {
        join_spaces(words.drop_last()) + seq![' '] + words.last()
    }
}

pub open spec fn builtin_suffix() -> Seq<char> {
    seq![' ', 'i', 's', ' ', 'a', ' ', 's', 'h', 'e', 'l', 'l', ' ', 'b', 'u', 'i', 'l', 't', 'i', 'n']
}

pub open spec fn is_infix() -> Seq<char> {
    seq![' ', 'i', 's', ' ']
}

pub open spec fn not_found_suffix() -> Seq<char> {
    seq![':', ' ', 'n', 'o', 't', ' ', 'f', 'o', 'u', 'n', 'd']
}

/// What `type name` prints, given the outcome of the path search.
pub open spec fn type_report_of(name: Seq<char>, found: Option<Seq<char>>) -> Seq<char> {
    if is_builtin_name(name) {
        name + builtin_suffix()
    } else {
        match found {
            Some(p) => name + is_infix() + p,
            None => name + not_found_suffix(),
        }
    }
}

/// The action for a command line with tokens `t`.
pub open spec fn plan_of(t: Seq<Seq<char>>) -> Step {
    if t.len() == 0 {
        Step::Nothing
    } else {
        let rest = t.drop_first();
        match builtin_of(t[0]) {
            Some(Builtin::Echo) => Step::Print(join_spaces(rest)),
            Some(Builtin::Exit) => Step::Exit,
            Some(Builtin::Pwd) => Step::Pwd,
            Some(Builtin::Type) => {
                let n = join_spaces(rest);
                if is_builtin_name(n) {
                    Step::Print(type_report_of(n, None))
                } else {
                    Step::Lookup(n)
                }
            },
            Some(Builtin::Cd) => Step::ChangeDir(join_spaces(rest)),
            None => Step::Run(t[0], rest),
        }
    }
}

/// `s` holds no two spaces in a row.
pub open spec fn no_double_space(s: Seq<char>) -> bool {
    forall|i: int| 0 <= i < s.len() - 1 ==> !(s[i] == ' ' && #[trigger] s[i + 1] == ' ')
}

proof fn lemma_join_clean(ws: Seq<Seq<char>>)
    requires
        forall|i: int| 0 <= i < ws.len() ==> (#[trigger] ws[i]).len() > 0 && space_free(ws[i]),
    ensures
        no_double_space(join_spaces(ws)),
        ws.len() > 0 ==> join_spaces(ws).len() > 0 && join_spaces(ws).last() != ' ',
    decreases ws.len(),
{
    if ws.len() == 1 {
        assert(ws[0].len() > 0 && space_free(ws[0]));
    } else if ws.len() > 1 {
        let prev = ws.drop_last();
        assert forall|i: int| 0 <= i < prev.len() implies (#[trigger] prev[i]).len() > 0
            && space_free(prev[i]) by {
            assert(prev[i] == ws[i]);
        }
        lemma_join_clean(prev);
        let a = join_spaces(prev);
        let w = ws.last();
        assert(w.len() > 0 && space_free(w));
        let j = a + seq![' '] + w;
        assert forall|i: int| 0 <= i < j.len() - 1 implies !(j[i] == ' ' && #[trigger] j[i + 1]
            == ' ') by {
            if i < a.len() - 1 {
                assert(j[i] == a[i] && j[i + 1] == a[i + 1]);
            } else if i == a.len() - 1 {
                assert(j[i] == a.last());
            } else if i == a.len() {
                assert(j[i + 1] == w[0]);
            } else {
                assert(j[i] == w[i - a.len() - 1]);
                assert(j[i + 1] == w[i + 1 - a.len() - 1]);
            }
        }
        assert(j.last() == w.last());
    }
}

/// `type` reports "is a shell builtin" for a name exactly when the name is
/// one of the five builtins, whatever the path search found (short of a
/// path that reads "a shell builtin").
pub proof fn lemma_type_reports_builtin_iff(name: Seq<char>, found: Option<Seq<char>>)
    requires
        found != Some(builtin_suffix().skip(4)),
    ensures
        (type_report_of(name, found) == name + builtin_suffix()) <==> is_builtin_name(name),
{
    if !is_builtin_name(name) && type_report_of(name, found) == name + builtin_suffix() {
        match found {
            Some(p) => {
                let r = name + is_infix() + p;
                assert(r.skip(name.len() + 4int) == p);
                assert((name + builtin_suffix()).skip(name.len() + 4int) == builtin_suffix().skip(4));
            },
            None => {
                let r = name + not_found_suffix();
                assert(r[name.len() as int] == ':');
                assert((name + builtin_suffix())[name.len() as int] == ' ');
            },
        }
    }
}

/// `echo` with no arguments prints an empty line.
pub proof fn lemma_echo_without_arguments()
    ensures
        plan_of(seq![seq!['e', 'c', 'h', 'o']]) == Step::Print(Seq::empty()),
{
    assert(seq![seq!['e', 'c', 'h', 'o']].drop_first() == Seq::<Seq<char>>::empty());
}

/// On an `echo` line without quotes or backslashes the output never holds two
/// spaces in a row: unquoted runs of spaces collapse to one.
pub proof fn lemma_plain_echo_collapses_spaces(line: Seq<char>)
    requires
        forall|i: int| 0 <= i < line.len() ==> !is_quoting_char(#[trigger] line[i]),
    ensures
        plan_of(tokens_of(line)) is Print ==> no_double_space(plan_of(tokens_of(line))->Print_0),
{
    lemma_plain_line_splits_on_spaces(line);
    lemma_words_are_clean(line);
    let t = tokens_of(line);
    if t.len() > 0 {
        let rest = t.drop_first();
        assert forall|i: int| 0 <= i < rest.len() implies (#[trigger] rest[i]).len() > 0
            && space_free(rest[i]) by {
            assert(rest[i] == t[i + 1]);
        }
        lemma_join_clean(rest);
        let n = join_spaces(rest);
        if is_builtin_name(n) {
            lemma_join_clean(seq![n]);
            assert(seq![n][0] == n);
            let r = n + builtin_suffix();
            assert forall|i: int| 0 <= i < r.len() - 1 implies !(r[i] == ' ' && #[trigger] r[i
                + 1] == ' ') by {
                if i < n.len() - 1 {
                    assert(r[i] == n[i] && r[i + 1] == n[i + 1]);
                } else if i == n.len() - 1 {
                    assert(r[i] == n.last());
                } else {
                    assert(r[i] == builtin_suffix()[i - n.len()]);
                    assert(r[i + 1] == builtin_suffix()[i + 1 - n.len()]);
                }
            }
        }
    }
}

/// `cd ~` enters the home directory, when that is an absolute path.
pub proof fn lemma_cd_home(cwd: Seq<char>, home: Seq<char>)
    requires
        home.len() > 0,
        home[0] == '/',
    ensures
        cd_target_of(cwd, home, seq!['~']) == home,
{
    assert(seq!['~'].drop_first() == Seq::<char>::empty());
    assert(home + Seq::<char>::empty() == home);
}

/// `cd` to a relative path, one that starts with neither `/` nor `~`,
/// enters that path below the working directory it left.
pub proof fn lemma_cd_relative(cwd: Seq<char>, home: Seq<char>, arg: Seq<char>)
    requires
        arg.len() > 0,
        arg[0] != '/',
        arg[0] != '~',
    ensures
        cd_target_of(cwd, home, arg) == cwd + seq!['/'] + arg,
{
}

/// A line whose first token is `exit` ends the read loop, whatever follows.
pub proof fn lemma_exit_terminates(t: Seq<Seq<char>>)
    requires
        t.len() > 0,
        t[0] == seq!['e', 'x', 'i', 't'],
    ensures
        plan_of(t) == Step::Exit,
{
}

/// Joins `words[from..]` with single spaces.
pub fn join_from(words: &Vec<String>, from: usize) -> (r: String)
    requires
        from <= words@.len(),
    ensures
        r@ == join_spaces(views(words@).skip(from as int)),
{
    let mut r = String::new();
    let mut i: usize = from;
    proof {
        assert(views(words@).subrange(from as int, from as int) == Seq::<Seq<char>>::empty());
    }
    while i < words.len()
        invariant
            from <= i <= words@.len(),
            r@ == join_spaces(views(words@).subrange(from as int, i as int)),
        decreases words@.len() - i,
    {
        let ghost done = views(words@).subrange(from as int, i as int);
        let ghost next = views(words@).subrange(from as int, i + 1);
        assert(next.drop_last() == done);
        assert(next.last() == words@[i as int]@);
        let ghost prev = r@;
        if i > from {
            proof {
                reveal_strlit(" ");
                assert(" "@ == seq![' ']);
            }
            r.append(" ");
            assert(r@ == prev + seq![' ']);
        }
        r.append(words[i].as_str());
        proof {
            if i == from {
                assert(r@ == next[0]);
            } else {
                assert(r@ =~= prev + seq![' '] + next.last());
            }
        }
        i = i + 1;
    }
    assert(views(words@).subrange(from as int, words@.len() as int) == views(words@).skip(
        from as int,
    ));
    r
}

/// What `echo` prints for the argument tokens `args`.
pub fn echo_line(args: &Vec<String>) -> (r: String)
    ensures
        r@ == join_spaces(views(args@)),
{
    let r = join_from(args, 0);
    assert(views(args@).skip(0) == views(args@));
    r
}

/// The line that `type name` prints: a builtin is reported as such; any
/// other name by the path the search found, or as not found.
pub fn type_report(name: &str, found: Option<&str>) -> (r: String)
    ensures
        r@ == type_report_of(
            name@,
            match found {
                Some(p) => Some(p@),
                None => None,
            },
        ),
{
    proof {
        reveal_strlit(" is a shell builtin");
        reveal_strlit(" is ");
        reveal_strlit(": not found");
        assert(" is a shell builtin"@ == builtin_suffix());
        assert(" is "@ == is_infix());
        assert(": not found"@ == not_found_suffix());
    }
    let mut r = String::from_str(name);
    if parse_builtin(name).is_some() {
        r.append(" is a shell builtin");
    } else {
        match found {
            Some(p) => {
                r.append(" is ");
                r.append(p);
            },
            None => {
                r.append(": not found");
            },
        }
    }
    r
}

/// The message for a command name that no builtin and no executable matches.
pub fn not_found_message(name: &str) -> (r: String)
    ensures
        r@ == name@ + not_found_suffix(),
{
    proof {
        reveal_strlit(": not found");
        assert(": not found"@ == not_found_suffix());
    }
    let mut r = String::from_str(name);
    r.append(": not found");
    r
}

/// `arg` with a leading `~` (alone, or before `/`) replaced by `home`.
pub open spec fn tilde_expanded(home: Seq<char>, arg: Seq<char>) -> Seq<char> {
    if arg == seq!['~'] || (arg.len() >= 2 && arg[0] == '~' && arg[1] == '/') {
        home + arg.drop_first()
    } else {
        arg
    }
}

/// The directory that `cd arg` enters from `cwd`: after tilde expansion an
/// absolute or empty path stands as it is, a relative one is taken from `cwd`.
pub open spec fn cd_target_of(cwd: Seq<char>, home: Seq<char>, arg: Seq<char>) -> Seq<char> {
    let p = tilde_expanded(home, arg);
    if p.len() == 0 || p[0] == '/' {
        p
    } else {
        cwd + seq!['/'] + p
    }
}

pub open spec fn no_such_dir_suffix() -> Seq<char> {
    seq![':', ' ', 'N', 'o', ' ', 's', 'u', 'c', 'h', ' ', 'f', 'i', 'l', 'e', ' ', 'o', 'r']
        + seq![' ', 'd', 'i', 'r', 'e', 'c', 't', 'o', 'r', 'y']
}

/// `cd: <arg>: No such file or directory`.
pub open spec fn cd_failure_of(arg: Seq<char>) -> Seq<char> {
    seq!['c', 'd', ':', ' '] + arg + no_such_dir_suffix()
}

/// The path that `cd arg` tries to enter, from working directory `cwd` with
/// home directory `home`.
pub fn cd_target(cwd: &str, home: &str, arg: &str) -> (r: String)
    ensures
        r@ == cd_target_of(cwd@, home@, arg@),
{
    let n = arg.unicode_len();
    let tilde = n >= 1 && arg.get_char(0) == '~' && (n == 1 || arg.get_char(1) == '/');
    assert(tilde == (arg@ == seq!['~'] || (arg@.len() >= 2 && arg@[0] == '~' && arg@[1] == '/')))
        by {
        if n == 1 && arg@[0] == '~' {
            assert(arg@ == seq!['~']);
        }
    }
    let p = if tilde {
        let mut h = String::from_str(home);
        h.append(arg.substring_char(1, n));
        h
    } else {
        String::from_str(arg)
    };
    assert(arg@.subrange(1, n as int) == arg@.drop_first()) by {
        if n >= 1 {
            assert(arg@.subrange(1, n as int) =~= arg@.drop_first());
        }
    }
    assert(p@ == tilde_expanded(home@, arg@));
    let m = p.as_str().unicode_len();
    if m == 0 || p.as_str().get_char(0) == '/' {
        p
    } else {
        proof {
            reveal_strlit("/");
            assert("/"@ == seq!['/']);
        }
        let mut r = String::from_str(cwd);
        r.append("/");
        r.append(p.as_str());
        assert(r@ =~= cwd@ + seq!['/'] + p@);
        r
    }
}

/// The message printed when `cd arg` cannot enter its target.
pub fn cd_failure_message(arg: &str) -> (r: String)
    ensures
        r@ == cd_failure_of(arg@),
{
    proof {
        reveal_strlit("cd: ");
        reveal_strlit(": No such file or directory");
    }
    let mut r = String::from_str("cd: ");
    r.append(arg);
    r.append(": No such file or directory");
    assert(r@ =~= cd_failure_of(arg@));
    r
}

/// Decides what the command line `tokens` does.
pub fn plan(tokens: &Vec<String>) -> (r: Action)
    ensures
        r@ == plan_of(views(tokens@)),
{
    if tokens.len() == 0 {
        return Action::Nothing;
    }
    let ghost t = views(tokens@);
    assert(t.skip(1) == t.drop_first());
    match parse_builtin(tokens[0].as_str()) {
        Some(Builtin::Echo) => Action::Print(join_from(tokens, 1)),
        Some(Builtin::Exit) => Action::Exit,
        Some(Builtin::Pwd) => Action::Pwd,
        Some(Builtin::Type) => {
            let n = join_from(tokens, 1);
            if parse_builtin(n.as_str()).is_some() {
                Action::Print(type_report(n.as_str(), None))
            } else {
                Action::Lookup(n)
            }
        },
        Some(Builtin::Cd) => Action::ChangeDir(join_from(tokens, 1)),
        None => {
            let mut args: Vec<String> = Vec::new();
            let mut i: usize = 1;
            while i < tokens.len()
                invariant
                    1 <= i <= tokens@.len(),
                    t == views(tokens@),
                    views(args@) == t.subrange(1, i as int),
                decreases tokens@.len() - i,
            {
                let ghost before = args@;
                args.push(tokens[i].clone());
                assert(views(args@) == views(before).push(args@.last()@));
                assert(t.subrange(1, i + 1) == t.subrange(1, i as int).push(t[i as int]));
                i = i + 1;
            }
            assert(t.subrange(1, tokens@.len() as int) == t.drop_first());
            Action::Run(tokens[0].clone(), args)
        },
    }
}

} // verus!
