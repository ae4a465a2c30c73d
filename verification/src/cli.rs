//! Command-line handling: the version flag, the mutually exclusive
//! visibility options, and the command a running dock receives.
use vstd::prelude::*;

use crate::pins::str_views;
use crate::text::{owned, str_eq};

verus! {

broadcast use vstd::seq_lib::group_seq_properties;

/// What a command line asks of the dock.
#[derive(PartialEq, Eq, Structural, Clone, Copy, Debug)]
pub enum AppCommand {
    Show,
    Toggle,
    Hide,
}

/// Whether an argument is one of the visibility options.
pub open spec fn is_visibility_flag(a: Seq<char>) -> bool {
    a == "-t"@ || a == "--toggle"@ || a == "-s"@ || a == "--show"@ || a == "-H"@ || a == "--hide"@
}

/// How many arguments are visibility options.
pub open spec fn visibility_flag_count(args: Seq<Seq<char>>) -> nat
    decreases args.len(),
{
    if args.len() == 0 {
        0
    } else {
        visibility_flag_count(args.drop_last()) + if is_visibility_flag(args.last()) {
            1nat
        } else {
            0nat
        }
    }
}

/// The message of a command line that selects more than one visibility option.
pub open spec fn exclusive_message() -> Seq<char> {
    "visibility options are mutually exclusive"@
}

fn exclusive_error() -> (s: String)
    ensures
        s@ == exclusive_message(),
{
    owned("visibility options are mutually exclusive")
}

fn is_visibility_arg(a: &str) -> (r: bool)
    ensures
        r == is_visibility_flag(a@),
{
    str_eq(a, "-t") || str_eq(a, "--toggle") || str_eq(a, "-s") || str_eq(a, "--show") || str_eq(a, "-H")
        || str_eq(a, "--hide")
}

/// Refuses a command line with more than one visibility option.
pub fn validate_visibility_args(args: &Vec<String>) -> (r: Result<(), String>)
    ensures
        r is Ok <==> visibility_flag_count(str_views(args@)) <= 1,
        r matches Err(e) ==> e@ == exclusive_message(),
{
    let ghost av = str_views(args@);
    let mut count: usize = 0;
    let mut i: usize = 0;
    while i < args.len()
        invariant
            i <= args.len(),
            av == str_views(args@),
            count as nat == visibility_flag_count(av.take(i as int)),
            count <= i,
        decreases args.len() - i,
    {
        assert(av.take(i + 1).drop_last() == av.take(i as int));
        assert(av.take(i + 1).last() == args@[i as int]@);
        if is_visibility_arg(args[i].as_str()) {
            count = count + 1;
        }
        i = i + 1;
    }
    assert(av.take(args.len() as int) == av);
    if count > 1 {
        Err(exclusive_error())
    } else {
        Ok(())
    }
}

/// Whether the command line asks for the version (`-V` or `--version`).
pub fn wants_version(args: &Vec<String>) -> (r: bool)
    ensures
        r == exists|i: int| 0 <= i < args.len() && (args@[i]@ == "-V"@ || args@[i]@ == "--version"@),
{
    let mut i: usize = 0;
    while i < args.len()
        invariant
            i <= args.len(),
            forall|j: int| 0 <= j < i ==> !(args@[j]@ == "-V"@ || args@[j]@ == "--version"@),
        decreases args.len() - i,
    {
        if str_eq(args[i].as_str(), "-V") || str_eq(args[i].as_str(), "--version") {
            return true;
        }
        i = i + 1;
    }
    false
}

/// The boolean options a command line carried, by name (the options
/// dictionary a running dock receives); a later value replaces an earlier one.
pub struct CommandOptions {
    entries: Vec<(String, bool)>,
}

/// The value given to option `name`, if any.
pub open spec fn option_value(entries: Seq<(Seq<char>, bool)>, name: Seq<char>) -> Option<bool>
    decreases entries.len(),
{
    if entries.len() == 0 {
        None
    } else if entries.last().0 == name {
        Some(entries.last().1)
    } else {
        option_value(entries.drop_last(), name)
    }
}

impl View for CommandOptions {
    type V = Seq<(Seq<char>, bool)>;

    closed spec fn view(&self) -> Seq<(Seq<char>, bool)> {
        self.entries@.map_values(|e: (String, bool)| (e.0@, e.1))
    }
}

impl CommandOptions {
    /// No options.
    pub fn new() -> (r: Self)
        ensures
            r@ == Seq::<(Seq<char>, bool)>::empty(),
    {
        let r = CommandOptions { entries: Vec::new() };
        assert(r@ =~= Seq::<(Seq<char>, bool)>::empty());
        r
    }

    /// Sets option `name` to `value`.
    pub fn insert(&mut self, name: &str, value: bool)
        ensures
            final(self)@ == old(self)@.push((name@, value)),
    {
        let ghost before = self@;
        self.entries.push((owned(name), value));
        assert(self@ =~= before.push((name@, value)));
    }

    /// Whether option `name` was given as true (absent options are false).
    pub fn option_enabled(&self, name: &str) -> (r: bool)
        ensures
            r == (option_value(self@, name@) == Some(true)),
    {
        let ghost v = self@;
        let mut i: usize = self.entries.len();
        assert(v.take(v.len() as int) == v);
        while i > 0
            invariant
                i <= self.entries.len(),
                v == self@,
                option_value(v, name@) == option_value(v.take(i as int), name@),
            decreases i,
        {
            assert(v.take(i as int).drop_last() == v.take(i - 1));
            assert(v.take(i as int).last() == v[i - 1]);
            if str_eq(self.entries[i - 1].0.as_str(), name) {
                return self.entries[i - 1].1;
            }
            i = i - 1;
        }
        false
    }
}

/// The command of a command line: `Show` when no visibility option is set,
/// the one that is set, or an error when several are.
pub open spec fn command_spec(toggle: bool, show: bool, hide: bool) -> Result<AppCommand, Seq<char>> {
    let n = (if toggle { 1int } else { 0int }) + (if show { 1int } else { 0int }) + (if hide { 1int } else { 0int });
    if n == 0 {
        Ok(AppCommand::Show)
    } else if n > 1 {
        Err(exclusive_message())
    } else if toggle {
        Ok(AppCommand::Toggle)
    } else if show {
        Ok(AppCommand::Show)
    } else {
        Ok(AppCommand::Hide)
    }
}

/// The command that the options select (see [`command_spec`]).
pub fn command_from_options(options: &CommandOptions) -> (r: Result<AppCommand, String>)
    ensures
        ({
            let s = command_spec(
                option_value(options@, "toggle"@) == Some(true),
                option_value(options@, "show"@) == Some(true),
                option_value(options@, "hide"@) == Some(true),
            );
            match r {
                Ok(c) => s == Ok::<AppCommand, Seq<char>>(c),
                Err(e) => s == Err::<AppCommand, Seq<char>>(e@),
            }
        }),
{
    let toggle = options.option_enabled("toggle");
    let show = options.option_enabled("show");
    let hide = options.option_enabled("hide");
    let n: u8 = (if toggle { 1u8 } else { 0u8 }) + (if show { 1u8 } else { 0u8 }) + (if hide { 1u8 } else { 0u8 });
    if n == 0 {
        Ok(AppCommand::Show)
    } else if n > 1 {
        Err(exclusive_error())
    } else if toggle {
        Ok(AppCommand::Toggle)
    } else if show {
        Ok(AppCommand::Show)
    } else {
        Ok(AppCommand::Hide)
    }
}

} // verus!
