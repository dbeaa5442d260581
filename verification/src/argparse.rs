//! A small command-line parser: commands named `--name`, each taking a fixed
//! number of arguments or a number within a range, and a help text.
//!
//! The parser decides what a command line asks for; running the chosen
//! command and printing are left to the caller.

use crate::common::copy_string;
use crate::text::{decimal, decimal_string, push_str};
use vstd::prelude::*;

verus! {

/// How many arguments a command takes: exactly a number, or a number
/// between two bounds.
#[derive(Debug, Clone, Copy, PartialEq, Eq, Structural)]
pub enum ValueOrRange {
    Value(u8),
    Range(u8, u8),
}

/// How a count of arguments is described in messages.
pub open spec fn count_text(n: ValueOrRange) -> Seq<char> {
    match n {
        ValueOrRange::Value(v) => decimal(v as nat),
        ValueOrRange::Range(min, max) => "between "@ + decimal(min as nat) + " and "@ + decimal(
            max as nat,
        ),
    }
}

impl ValueOrRange {
    /// How this count of arguments is described in messages.
    pub fn to_string(&self) -> (r: String)
        ensures
            r@ == count_text(*self),
    {
        match self {
            ValueOrRange::Value(v) => decimal_string(*v as u64),
            ValueOrRange::Range(min, max) => {
                let mut s = "between ".to_owned();
                let a = decimal_string(*min as u64);
                push_str(&mut s, a.as_str());
                push_str(&mut s, " and ");
                let b = decimal_string(*max as u64);
                push_str(&mut s, b.as_str());
                s
            },
        }
    }
}

/// A command: its name, the action the caller runs for it, and how many
/// arguments it takes.
#[derive(Debug)]
pub struct Command<A> {
    pub name: String,
    pub action: A,
    pub number_of_args: ValueOrRange,
}

/// The commands a program knows, and its help text.
#[derive(Debug)]
pub struct Argparse<A> {
    pub commands: Vec<Command<A>>,
    pub help_text: Option<String>,
}

/// What a command line asks for.
#[derive(Debug)]
pub enum ArgparseOutcome<A> {
    /// Print the help text; the program succeeds.
    Help(String),
    /// Run this action with the whole command line; the program succeeds.
    Run(A),
    /// Print this message; the program fails.
    Failure(String),
}

/// Whether `n` arguments are what a command taking `expected` accepts, the
/// count read as a byte the way `n as u8` reads it.
pub open spec fn count_accepted(n: nat, expected: ValueOrRange) -> bool {
    let b = n % 256;
    match expected {
        ValueOrRange::Value(v) => b == v,
        ValueOrRange::Range(min, max) => min <= b && b <= max,
    }
}

/// The position of the first command called `--` followed by `flag`'s rest.
pub open spec fn command_position<A>(commands: Seq<Command<A>>, arg: Seq<char>) -> Option<int>
    decreases commands.len(),
{
    if commands.len() == 0 {
        None
    } else {
        match command_position(commands.drop_last(), arg) {
            Some(i) => Some(i),
            None => if "--"@ + commands.last().name@ == arg {
                Some(commands.len() - 1)
            } else {
                None
            },
        }
    }
}

pub proof fn lemma_command_position<A>(commands: Seq<Command<A>>, arg: Seq<char>)
    ensures
        match command_position(commands, arg) {
            Some(i) => 0 <= i < commands.len() && "--"@ + commands[i].name@ == arg && forall|j: int|
                0 <= j < i ==> "--"@ + commands[j].name@ != arg,
            None => forall|j: int| 0 <= j < commands.len() ==> "--"@ + commands[j].name@ != arg,
        },
    decreases commands.len(),
{
    if commands.len() > 0 {
        lemma_command_position(commands.drop_last(), arg);
        assert forall|j: int| 0 <= j < commands.len() - 1 implies commands.drop_last()[j] == commands[j] by {}
    }
}

/// Whether the first argument after the program's name asks for help.
pub open spec fn asks_help(args: Seq<String>) -> bool {
    args.len() < 2 || args[1]@ == "-h"@ || args[1]@ == "--help"@
}

/// The message for a command given the wrong number of arguments.
pub open spec fn wrong_count_message(name: Seq<char>, expected: ValueOrRange, got: nat) -> Seq<char> {
    "Wrong number of arguments given to `"@ + name + "` command. Expected "@ + count_text(expected)
        + " but got "@ + decimal(got) + "."@
}

/// The message for an unknown command.
pub open spec fn not_found_message(arg: Seq<char>) -> Seq<char> {
    "Command not found: `"@ + arg + "`."@
}

impl<A: Copy> Argparse<A> {
    /// A parser with no commands and no help text.
    pub fn new() -> (r: Argparse<A>)
        ensures
            r.commands@.len() == 0,
            r.help_text is None,
    {
        Argparse { commands: Vec::new(), help_text: None }
    }

    /// Adds the command `--cmd_name`, taking exactly `number_of_args`
    /// arguments.
    pub fn register(&mut self, cmd_name: &str, action: A, number_of_args: u8)
        ensures
            final(self).commands@.len() == old(self).commands@.len() + 1,
            final(self).commands@.drop_last() == old(self).commands@,
            final(self).commands@.last().name@ == cmd_name@,
            final(self).commands@.last().action == action,
            final(self).commands@.last().number_of_args == ValueOrRange::Value(number_of_args),
            final(self).help_text == old(self).help_text,
    {
        self.commands.push(
            Command {
                name: cmd_name.to_owned(),
                action,
                number_of_args: ValueOrRange::Value(number_of_args),
            },
        );
        assert(self.commands@.drop_last() =~= old(self).commands@);
    }

    /// Adds the command `--cmd_name`, taking a number of arguments between
    /// the two bounds, in either order; a single number where they are
    /// equal.
    pub fn register_range(&mut self, cmd_name: &str, action: A, args_range: (u8, u8))
        ensures
            final(self).commands@.len() == old(self).commands@.len() + 1,
            final(self).commands@.drop_last() == old(self).commands@,
            final(self).commands@.last().name@ == cmd_name@,
            final(self).commands@.last().action == action,
            final(self).commands@.last().number_of_args == ({
                let min = if args_range.0 <= args_range.1 {
                    args_range.0
                } else {
                    args_range.1
                };
                let max = if args_range.0 <= args_range.1 {
                    args_range.1
                } else {
                    args_range.0
                };
                if min == max {
                    ValueOrRange::Value(min)
                } else {
                    ValueOrRange::Range(min, max)
                }
            }),
            final(self).help_text == old(self).help_text,
    {
        let min = if args_range.0 <= args_range.1 {
            args_range.0
        } else {
            args_range.1
        };
        let max = if args_range.0 <= args_range.1 {
            args_range.1
        } else {
            args_range.0
        };
        let number_of_args = if min == max {
            ValueOrRange::Value(min)
        } else {
            ValueOrRange::Range(min, max)
        };
        self.commands.push(Command { name: cmd_name.to_owned(), action, number_of_args });
        assert(self.commands@.drop_last() =~= old(self).commands@);
    }

    /// Sets the help text.
    pub fn register_help(&mut self, text: &str)
        ensures
            final(self).help_text matches Some(t) && t@ == text@,
            final(self).commands@ == old(self).commands@,
    {
        self.help_text = Some(text.to_owned());
    }

    /// What a command line asks for. The help text where there is one and
    /// the line gives no command or asks for help; else the action of the
    /// command it names, where the number of arguments after it is right;
    /// else a message saying what is wrong.
    #[verifier::loop_isolation(false)]
    pub fn exec(&self, args: &Vec<String>) -> (r: ArgparseOutcome<A>)
        requires
            args@.len() >= 2 || self.help_text is Some,
        ensures
            if asks_help(args@) && self.help_text is Some {
                r matches ArgparseOutcome::Help(t) && t@ == self.help_text.unwrap()@
            } else {
                match command_position(self.commands@, args@[1]@) {
                    Some(i) => {
                        let c = self.commands@[i];
                        if count_accepted((args@.len() - 2) as nat, c.number_of_args) {
                            r == ArgparseOutcome::Run(c.action)
                        } else {
                            r matches ArgparseOutcome::Failure(m) && m@ == wrong_count_message(
                                c.name@,
                                c.number_of_args,
                                (args@.len() - 2) as nat,
                            )
                        }
                    },
                    None => r matches ArgparseOutcome::Failure(m) && m@ == not_found_message(args@[1]@),
                }
            },
    {
        let asks = args.len() < 2 || crate::text::string_eq_literal(&args[1], "-h")
            || crate::text::string_eq_literal(&args[1], "--help");
        if asks {
            if let Some(help_text) = &self.help_text {
                return ArgparseOutcome::Help(copy_string(help_text));
            }
        }
        proof {
            lemma_command_position(self.commands@, args@[1]@);
        }
        let mut i: usize = 0;
        while i < self.commands.len()
            invariant
                i <= self.commands@.len(),
                args@.len() >= 2,
                forall|j: int| 0 <= j < i ==> "--"@ + self.commands@[j].name@ != args@[1]@,
            decreases self.commands@.len() - i,
        {
            let command = &self.commands[i];
            let mut flag = "--".to_owned();
            push_str(&mut flag, command.name.as_str());
            if flag == args[1] {
                proof {
                    lemma_command_position(self.commands@, args@[1]@);
                    if command_position(self.commands@, args@[1]@) != Some(i as int) {
                        match command_position(self.commands@, args@[1]@) {
                            Some(p) => {
                                assert(p > i || p < i);
                            },
                            None => {},
                        }
                    }
                }
                let number_of_args = args.len() - 2;
                let b = number_of_args % 256;
                let valid = match command.number_of_args {
                    ValueOrRange::Value(val) => b == val as usize,
                    ValueOrRange::Range(min, max) => b >= min as usize && b <= max as usize,
                };
                if !valid {
                    let mut m = "Wrong number of arguments given to `".to_owned();
                    push_str(&mut m, command.name.as_str());
                    push_str(&mut m, "` command. Expected ");
                    let expected = command.number_of_args.to_string();
                    push_str(&mut m, expected.as_str());
                    push_str(&mut m, " but got ");
                    let got = decimal_string(number_of_args as u64);
                    push_str(&mut m, got.as_str());
                    push_str(&mut m, ".");
                    return ArgparseOutcome::Failure(m);
                } else {
                    return ArgparseOutcome::Run(command.action);
                }
            }
            i = i + 1;
        }
        let mut m = "Command not found: `".to_owned();
        push_str(&mut m, args[1].as_str());
        push_str(&mut m, "`.");
        ArgparseOutcome::Failure(m)
    }
}

/// A command registered under a name that no earlier command has is the
/// one that a command line naming it finds; given the number of arguments
/// it was registered with, that command line runs it.
pub proof fn lemma_registered_command_runs<A>(cmds: Seq<Command<A>>, c: Command<A>, args: Seq<String>)
    requires
        command_position(cmds, "--"@ + c.name@) is None,
        args.len() >= 2,
        args[1]@ == "--"@ + c.name@,
        c.number_of_args matches ValueOrRange::Value(v) && args.len() - 2 == v,
    ensures
        command_position(cmds.push(c), args[1]@) == Some(cmds.len() as int),
        count_accepted((args.len() - 2) as nat, c.number_of_args),
{
    assert(cmds.push(c).drop_last() =~= cmds);
}

} // verus!
