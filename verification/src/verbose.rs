//! Verbosity, and the commands that are told at it.
use vstd::prelude::*;

use crate::docker;
use crate::docker::shell_quote;
use crate::invocation::Invocation;
use crate::invocation;
use crate::shell;
use crate::text::{alnum, chars};

verus! {

/// How often `--verbose` was given.
#[derive(Debug, Clone, Copy, PartialEq, Eq)]
pub struct Verbosity {
    pub level: u8,
}

/// Sets the level.
pub fn set(v: &mut Verbosity, level: u8)
    ensures
        final(v).level == level,
{
    v.level = level;
}

/// The level that was set.
pub fn level(v: &Verbosity) -> (r: u8)
    ensures
        r == v.level,
{
    v.level
}

/// Whether commands are told.
pub fn enabled(v: &Verbosity) -> (r: bool)
    ensures
        r == (v.level > 0),
{
    level(v) > 0
}

/// The `-v`, `-vv` or `-vvv` that ssh is given at a level, which is none at zero.
pub open spec fn flags_spec(level: u8) -> Seq<char> {
    if level == 0 {
        seq![]
    } else {
        "-"@ + Seq::new(
            if level < 3 {
                level as nat
            } else {
                3
            },
            |i: int| 'v',
        )
    }
}

/// The `-v`, `-vv` or `-vvv` that ssh is given at a level.
pub fn flags(v: &Verbosity) -> (r: String)
    ensures
        r@ == flags_spec(v.level),
{
    let n: u8 = level(v);
    if n == 0 {
        let r = String::new();
        assert(r@ =~= flags_spec(v.level));
        return r;
    }
    let r = if n == 1 {
        "-v".to_string()
    } else if n == 2 {
        "-vv".to_string()
    } else {
        "-vvv".to_string()
    };
    proof {
        reveal_strlit("-");
        reveal_strlit("-v");
        reveal_strlit("-vv");
        reveal_strlit("-vvv");
        assert(r@ =~= flags_spec(v.level));
    }
    r
}

/// A text that a shell takes literally without quotes.
pub open spec fn is_plain(s: Seq<char>) -> bool {
    s.len() > 0 && forall|i: int| 0 <= i < s.len() ==> shell::is_ordinary(s[i])
}

/// `s`, quoted where a shell would not take it literally.
pub open spec fn quote_spec(s: Seq<char>) -> Seq<char> {
    if is_plain(s) {
        s
    } else {
        docker::shell_quote_spec(s)
    }
}

/// Quotes only where needed, so that typical traces stay readable.
pub fn quote(s: &str) -> (r: String)
    ensures
        r@ == quote_spec(s@),
{
    let v = chars(s);
    let mut plain: bool = v.len() > 0;
    for i in 0..v.len()
        invariant
            v@ == s@,
            plain == (v@.len() > 0 && forall|j: int| 0 <= j < i ==> shell::is_ordinary(s@[j])),
    {
        let c = v[i];
        if !(alnum(c) || c == '-' || c == '_' || c == '.' || c == '/' || c == ':' || c == '=' || c
            == '@' || c == ',') {
            plain = false;
        }
    }
    if plain {
        s.to_string()
    } else {
        shell_quote(s)
    }
}

/// Each variable as `NAME=value`, the value quoted where needed, and a space.
pub open spec fn env_words(env: Seq<(Seq<char>, Seq<char>)>) -> Seq<char>
    decreases env.len(),
{
    if env.len() == 0 {
        seq![]
    } else {
        env_words(env.drop_last()) + env.last().0 + "="@ + quote_spec(env.last().1) + " "@
    }
}

/// Each argument behind a space, quoted where needed.
pub open spec fn arg_words(args: Seq<Seq<char>>) -> Seq<char>
    decreases args.len(),
{
    if args.len() == 0 {
        seq![]
    } else {
        arg_words(args.drop_last()) + " "@ + quote_spec(args.last())
    }
}

/// A command as a line that can be pasted into a shell.
pub open spec fn line_spec(cmd: invocation::InvocationView) -> Seq<char> {
    env_words(cmd.env) + cmd.program + arg_words(cmd.args)
}

/// The line that tells of a command before it runs, unless nothing is told.
pub fn trace(v: &Verbosity, cmd: &Invocation) -> (r: Option<String>)
    ensures
        match r {
            None => v.level == 0,
            Some(line) => v.level > 0 && line@ == "[graft] $ "@ + line_spec(cmd.deep_view()),
        },
{
    if !enabled(v) {
        return None;
    }
    let ghost env = cmd.env.deep_view();
    let ghost args = cmd.args.deep_view();
    let mut line = "[graft] $ ".to_string();
    for i in 0..cmd.env.len()
        invariant
            env == cmd.env.deep_view(),
            line@ == "[graft] $ "@ + env_words(env.take(i as int)),
    {
        assert(env.take(i + 1).drop_last() =~= env.take(i as int));
        let ghost before = line@;
        line.append(cmd.env[i].0.as_str());
        line.append("=");
        line.append(quote(cmd.env[i].1.as_str()).as_str());
        line.append(" ");
        assert(line@ =~= "[graft] $ "@ + env_words(env.take(i + 1)));
    }
    assert(env.take(env.len() as int) =~= env);
    line.append(cmd.program.as_str());
    let ghost head = line@;
    for i in 0..cmd.args.len()
        invariant
            args == cmd.args.deep_view(),
            line@ == head + arg_words(args.take(i as int)),
    {
        assert(args.take(i + 1).drop_last() =~= args.take(i as int));
        line.append(" ");
        line.append(quote(cmd.args[i].as_str()).as_str());
        assert(line@ =~= head + arg_words(args.take(i + 1)));
    }
    assert(args.take(args.len() as int) =~= args);
    assert(line@ =~= "[graft] $ "@ + line_spec(cmd.deep_view()));
    Some(line)
}

/// Each variable as the word `NAME=value`.
pub open spec fn assignments(env: Seq<(Seq<char>, Seq<char>)>) -> Seq<Seq<char>> {
    env.map_values(|e: (Seq<char>, Seq<char>)| e.0 + "="@ + e.1)
}

/// A told command whose program and variable names need no quotes is read by a
/// shell as exactly its variables, that program, and exactly its arguments.
pub proof fn traced_command_reads_back(cmd: invocation::InvocationView)
    requires
        is_plain(cmd.program),
        forall|i: int| 0 <= i < cmd.env.len() ==> is_plain(#[trigger] cmd.env[i].0),
    ensures
        shell::shell_words(line_spec(cmd)) == Some(
            assignments(cmd.env) + seq![cmd.program] + cmd.args,
        ),
{
    let env = env_words(cmd.env);
    lemma_read_env(cmd.env);
    let begun = shell::read(shell::fresh(), env);
    shell::lemma_read_concat(shell::fresh(), env, cmd.program);
    shell::lemma_read_ordinary(begun, cmd.program);
    assert(begun.word + cmd.program =~= cmd.program);
    let start = shell::read(shell::fresh(), env + cmd.program);
    shell::lemma_read_concat(shell::fresh(), env + cmd.program, arg_words(cmd.args));
    lemma_read_args(start, cmd.args);
    let all = assignments(cmd.env) + seq![cmd.program] + cmd.args;
    assert(assignments(cmd.env) + seq![cmd.program] =~= start.words.push(start.word));
    if cmd.args.len() == 0 {
        assert(all =~= start.words.push(start.word));
    } else {
        assert(all =~= (start.words.push(start.word) + cmd.args.drop_last()).push(
            cmd.args.last(),
        ));
    }
}

/// Variables are read as one word each.
proof fn lemma_read_env(env: Seq<(Seq<char>, Seq<char>)>)
    requires
        forall|i: int| 0 <= i < env.len() ==> is_plain(#[trigger] env[i].0),
    ensures
        shell::read(shell::fresh(), env_words(env)) == (shell::Reader {
            words: assignments(env),
            ..shell::fresh()
        }),
    decreases env.len(),
{
    if env.len() == 0 {
        assert(assignments(env) =~= seq![]);
    } else {
        let init = env.drop_last();
        let (name, value) = env.last();
        assert forall|i: int| 0 <= i < init.len() implies is_plain(#[trigger] init[i].0) by {
            assert(init[i] == env[i]);
        }
        assert(is_plain(env[env.len() - 1].0));
        lemma_read_env(init);
        reveal_strlit("=");
        reveal_strlit(" ");
        assert("="@ =~= seq!['=']);
        assert(" "@ =~= seq![' ']);
        let a = env_words(init);
        let b = a + name;
        let c = b + "="@;
        let d = c + quote_spec(value);
        let r0 = shell::read(shell::fresh(), a);
        shell::lemma_read_concat(shell::fresh(), a, name);
        shell::lemma_read_ordinary(r0, name);
        let r1 = shell::read(shell::fresh(), b);
        shell::lemma_read_concat(shell::fresh(), b, "="@);
        shell::lemma_read_one(r1, '=');
        let r2 = shell::read(shell::fresh(), c);
        shell::lemma_read_concat(shell::fresh(), c, quote_spec(value));
        lemma_read_quote(r2, value);
        let r3 = shell::read(shell::fresh(), d);
        shell::lemma_read_concat(shell::fresh(), d, " "@);
        shell::lemma_read_one(r3, ' ');
        assert(r3.word =~= name + "="@ + value);
        assert(assignments(env) =~= assignments(init).push(name + "="@ + value));
    }
}

/// A quoted argument is read as one word.
proof fn lemma_read_quote(r: shell::Reader, s: Seq<char>)
    requires
        !r.quoted,
        !r.escaped,
    ensures
        shell::read(r, quote_spec(s)) == (shell::Reader { open: true, word: r.word + s, ..r }),
{
    if is_plain(s) {
        shell::lemma_read_ordinary(r, s);
    } else {
        docker::lemma_read_quoted(r, s);
    }
}

proof fn lemma_read_args(r: shell::Reader, args: Seq<Seq<char>>)
    requires
        !r.quoted,
        !r.escaped,
        r.open,
    ensures
        shell::read(r, arg_words(args)) == if args.len() == 0 {
            r
        } else {
            shell::Reader {
                word: args.last(),
                words: r.words.push(r.word) + args.drop_last(),
                ..r
            }
        },
    decreases args.len(),
{
    if args.len() > 0 {
        let init = args.drop_last();
        lemma_read_args(r, init);
        let mid = shell::read(r, arg_words(init));
        reveal_strlit(" ");
        assert(" "@ =~= seq![' ']);
        shell::lemma_read_concat(r, arg_words(init), " "@);
        shell::lemma_read_one(mid, ' ');
        let next = shell::step(mid, ' ');
        shell::lemma_read_concat(r, arg_words(init) + " "@, quote_spec(args.last()));
        lemma_read_quote(next, args.last());
        assert(seq![] + args.last() =~= args.last());
        if init.len() == 0 {
            assert(r.words.push(r.word) + init =~= r.words.push(r.word));
        } else {
            assert(r.words.push(r.word) + init =~= (r.words.push(r.word) + init.drop_last()).push(
                init.last(),
            ));
        }
    }
}

} // verus!
