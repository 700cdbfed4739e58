//! Rendering a whole invocation: environment assignments, the program and
//! its arguments, each quoted as needed, between a pair of backticks.

use crate::quote::{quote, quoted};
use crate::reserved::{is_reserved, is_reserved_word};
use vstd::prelude::*;

verus! {

/// An invocation as the renderer sees it: the program, its arguments in
/// order, and the environment assignments in order, each with its value or
/// without one.
pub struct Invocation {
    /// The program to run.
    pub program: Seq<char>,
    /// The arguments, in the order in which they are passed.
    pub args: Seq<Seq<char>>,
    /// The environment variables by name; one without a value is unset.
    pub envs: Seq<(Seq<char>, Option<Seq<char>>)>,
}

/// A read-only view of an invocation that renders it with quotes only where
/// they are needed.
pub struct Unquoted<'a> {
    /// The program to run.
    pub program: &'a str,
    /// The arguments, in the order in which they are passed.
    pub args: &'a [String],
    /// The environment variables by name; one without a value is unset.
    pub envs: &'a [(String, Option<String>)],
}

impl<'a> View for Unquoted<'a> {
    type V = Invocation;

    open spec fn view(&self) -> Invocation {
        Invocation {
            program: self.program@,
            args: self.args.deep_view(),
            envs: self.envs.deep_view(),
        }
    }
}

/// One environment assignment: `name=value` and a space, both sides quoted
/// as needed; nothing at all for a variable without a value.
pub open spec fn rendered_env(env: (Seq<char>, Option<Seq<char>>)) -> Seq<char> {
    match env.1 {
        Some(value) => quoted(env.0) + seq!['='] + quoted(value) + seq![' '],
        None => Seq::empty(),
    }
}

/// The environment assignments one after another, in the order given.
pub open spec fn rendered_envs(envs: Seq<(Seq<char>, Option<Seq<char>>)>) -> Seq<char>
    decreases envs.len(),
{
    if envs.len() == 0 {
        Seq::empty()
    } else {
        rendered_envs(envs.drop_last()) + rendered_env(envs.last())
    }
}

/// The program: between single quotes as it is when it is a reserved word,
/// quoted as any other word when it is not.
pub open spec fn rendered_program(program: Seq<char>) -> Seq<char> {
    if is_reserved_word(program) {
        seq!['\''] + program + seq!['\'']
    } else {
        quoted(program)
    }
}

/// One argument: a space and the argument, quoted as needed.
pub open spec fn rendered_arg(arg: Seq<char>) -> Seq<char> {
    seq![' '] + quoted(arg)
}

/// The arguments one after another, in the order given.
pub open spec fn rendered_args(args: Seq<Seq<char>>) -> Seq<char>
    decreases args.len(),
{
    if args.len() == 0 {
        Seq::empty()
    } else {
        rendered_args(args.drop_last()) + rendered_arg(args.last())
    }
}

/// The whole invocation between backticks: the environment assignments, the
/// program, the arguments.
pub open spec fn rendered(invocation: Invocation) -> Seq<char> {
    seq!['`'] + rendered_envs(invocation.envs) + rendered_program(invocation.program)
        + rendered_args(invocation.args) + seq!['`']
}

/// Appends the environment assignments to `out`, skipping the variables
/// without a value.
pub fn push_envs(out: &mut String, envs: &[(String, Option<String>)])
    ensures
        final(out)@ == old(out)@ + rendered_envs(envs.deep_view()),
{
    let ghost before = out@;
    let ghost all = envs.deep_view();
    assert(all.take(0) == Seq::<(Seq<char>, Option<Seq<char>>)>::empty());
    for i in 0..envs.len()
        invariant
            all == envs.deep_view(),
            out@ == before + rendered_envs(all.take(i as int)),
    {
        proof {
            assert(all.take(i + 1).drop_last() == all.take(i as int));
            assert(all.take(i + 1).last() == all[i as int]);
            assert(all[i as int] == envs@[i as int].deep_view());
            reveal_strlit("=");
            reveal_strlit(" ");
            assert("="@ == seq!['=']);
            assert(" "@ == seq![' ']);
        }
        let env = &envs[i];
        match &env.1 {
            Some(value) => {
                let name = quote(env.0.as_str());
                let value = quote(value.as_str());
                out.append(name.as_str());
                out.append("=");
                out.append(value.as_str());
                out.append(" ");
            },
            None => {},
        }
    }
    assert(all.take(all.len() as int) == all);
}

/// Appends the program to `out`: a reserved word between single quotes,
/// any other word quoted as needed.
pub fn push_program(out: &mut String, program: &str)
    ensures
        final(out)@ == old(out)@ + rendered_program(program@),
{
    if is_reserved(program) {
        proof {
            reveal_strlit("'");
            assert("'"@ == seq!['\'']);
        }
        out.append("'");
        out.append(program);
        out.append("'");
    } else {
        let word = quote(program);
        out.append(word.as_str());
    }
}

/// Appends the arguments to `out`, a space before each.
pub fn push_args(out: &mut String, args: &[String])
    ensures
        final(out)@ == old(out)@ + rendered_args(args.deep_view()),
{
    let ghost before = out@;
    let ghost all = args.deep_view();
    assert(all.take(0) == Seq::<Seq<char>>::empty());
    for i in 0..args.len()
        invariant
            all == args.deep_view(),
            out@ == before + rendered_args(all.take(i as int)),
    {
        proof {
            assert(all.take(i + 1).drop_last() == all.take(i as int));
            assert(all.take(i + 1).last() == all[i as int]);
            assert(all[i as int] == args@[i as int].deep_view());
            reveal_strlit(" ");
            assert(" "@ == seq![' ']);
        }
        let word = quote(args[i].as_str());
        out.append(" ");
        out.append(word.as_str());
    }
    assert(all.take(all.len() as int) == all);
}

impl<'a> Unquoted<'a> {
    /// Renders the invocation as it would be typed into a shell, between
    /// backticks: the environment assignments that have a value, the
    /// program, and the arguments, in the order given and separated by single
    /// spaces.
    pub fn render(&self) -> (out: String)
        ensures
            out@ == rendered(self@),
    {
        proof {
            reveal_strlit("`");
            assert("`"@ == seq!['`']);
        }
        let mut out = String::new();
        out.append("`");
        push_envs(&mut out, self.envs);
        push_program(&mut out, self.program);
        push_args(&mut out, self.args);
        out.append("`");
        out
    }
}

} // verus!
