//! Command-line modes and the errors that stop the program from starting.
use vstd::prelude::*;

use crate::config::{config_error_message, ConfigError};
use crate::input::keybinding::{error_message, KeyBindingParseError};
use crate::text::str_eq;

verus! {

/// What the program runs as.
#[derive(Clone, Copy, Debug, PartialEq, Eq, Structural)]
pub enum RuntimeMode {
    Compositor,
    Simulation,
    BackendTest,
}

/// Reads the arguments left to right, from `mode`: `--simulate` and `-s`
/// select the simulation, `--backend-test` the backend test; the last such
/// flag wins, and the first other argument is refused.
pub open spec fn spec_scan_args(mode: RuntimeMode, args: Seq<Seq<char>>) -> Result<RuntimeMode, Seq<char>>
    decreases args.len(),
{
    if args.len() == 0 {
        Ok(mode)
    } else {
        let a = args[0];
        if a == "--simulate"@ || a == "-s"@ {
            spec_scan_args(RuntimeMode::Simulation, args.drop_first())
        } else if a == "--backend-test"@ {
            spec_scan_args(RuntimeMode::BackendTest, args.drop_first())
        } else {
            Err(a)
        }
    }
}

pub open spec fn arg_views(args: Seq<String>) -> Seq<Seq<char>> {
    args.map_values(|a: String| a@)
}

impl RuntimeMode {
    /// The mode that the command-line arguments (without the program name) select.
    pub fn from_args(args: Vec<String>) -> (r: Result<RuntimeMode, AppError>)
        ensures
            match r {
                Ok(mode) => spec_scan_args(RuntimeMode::Compositor, arg_views(args@)) == Ok::<
                    RuntimeMode,
                    Seq<char>,
                >(mode),
                Err(e) => e is UnknownArgument && spec_scan_args(
                    RuntimeMode::Compositor,
                    arg_views(args@),
                ) == Err::<RuntimeMode, Seq<char>>(e->UnknownArgument_0@),
            },
    {
        let mut mode = RuntimeMode::Compositor;
        let mut i: usize = 0;
        let ghost all = arg_views(args@);
        assert(all.skip(0) =~= all);
        while i < args.len()
            invariant
                0 <= i <= args.len(),
                all == arg_views(args@),
                spec_scan_args(RuntimeMode::Compositor, all) == spec_scan_args(mode, all.skip(i as int)),
            decreases args.len() - i,
        {
            let arg = args[i].as_str();
            let ghost rest = all.skip(i as int);
            assert(rest[0] == arg@);
            assert(rest.drop_first() =~= all.skip(i + 1));
            if str_eq(arg, "--simulate") || str_eq(arg, "-s") {
                mode = RuntimeMode::Simulation;
            } else if str_eq(arg, "--backend-test") {
                mode = RuntimeMode::BackendTest;
            } else {
                return Err(AppError::UnknownArgument(arg.to_owned()));
            }
            i = i + 1;
        }
        assert(all.skip(args.len() as int) =~= Seq::<Seq<char>>::empty());
        Ok(mode)
    }
}

/// An argument that selects a mode.
pub open spec fn is_mode_flag(a: Seq<char>) -> bool {
    a == "--simulate"@ || a == "-s"@ || a == "--backend-test"@
}

/// The mode that a mode flag selects.
pub open spec fn flag_mode(a: Seq<char>) -> RuntimeMode {
    if a == "--backend-test"@ {
        RuntimeMode::BackendTest
    } else {
        RuntimeMode::Simulation
    }
}

proof fn lemma_flags_differ()
    ensures
        "--simulate"@ != "--backend-test"@,
        "-s"@ != "--backend-test"@,
{
    reveal_strlit("--simulate");
    reveal_strlit("-s");
    reveal_strlit("--backend-test");
    assert("--simulate"@.len() == 10);
    assert("-s"@.len() == 2);
    assert("--backend-test"@.len() == 14);
}

/// Among mode flags the last one decides the mode; with none, the mode stays.
pub proof fn law_last_mode_flag_wins(mode: RuntimeMode, args: Seq<Seq<char>>)
    requires
        forall|i: int| 0 <= i < args.len() ==> is_mode_flag(#[trigger] args[i]),
    ensures
        spec_scan_args(mode, args) == Ok::<RuntimeMode, Seq<char>>(
            if args.len() == 0 {
                mode
            } else {
                flag_mode(args.last())
            },
        ),
    decreases args.len(),
{
    lemma_flags_differ();
    if args.len() > 0 {
        let rest = args.drop_first();
        assert(is_mode_flag(args[0]));
        assert forall|i: int| 0 <= i < rest.len() implies is_mode_flag(#[trigger] rest[i]) by {
            assert(rest[i] == args[i + 1]);
        }
        let m2 = flag_mode(args[0]);
        law_last_mode_flag_wins(m2, rest);
        if rest.len() > 0 {
            assert(rest.last() == args.last());
        }
    }
}

/// The first argument that is not a mode flag is refused, whatever follows it.
pub proof fn law_first_unknown_argument_refused(mode: RuntimeMode, args: Seq<Seq<char>>, k: int)
    requires
        0 <= k < args.len(),
        !is_mode_flag(args[k]),
        forall|i: int| 0 <= i < k ==> is_mode_flag(#[trigger] args[i]),
    ensures
        spec_scan_args(mode, args) == Err::<RuntimeMode, Seq<char>>(args[k]),
    decreases k,
{
    lemma_flags_differ();
    if k > 0 {
        let rest = args.drop_first();
        assert(is_mode_flag(args[0]));
        assert forall|i: int| 0 <= i < k - 1 implies is_mode_flag(#[trigger] rest[i]) by {
            assert(rest[i] == args[i + 1]);
        }
        assert(rest[k - 1] == args[k]);
        law_first_unknown_argument_refused(flag_mode(args[0]), rest, k - 1);
    }
}

/// `-s` and `--simulate` are the same flag: putting one for the other
/// anywhere in the arguments changes nothing.
pub proof fn law_short_simulate_flag(mode: RuntimeMode, args: Seq<Seq<char>>, args2: Seq<Seq<char>>)
    requires
        args2.len() == args.len(),
        forall|i: int|
            0 <= i < args.len() ==> #[trigger] args2[i] == args[i] || ((args[i] == "-s"@ || args[i]
                == "--simulate"@) && (args2[i] == "-s"@ || args2[i] == "--simulate"@)),
    ensures
        spec_scan_args(mode, args2) == spec_scan_args(mode, args),
    decreases args.len(),
{
    if args.len() > 0 {
        let r1 = args.drop_first();
        let r2 = args2.drop_first();
        assert(args2[0] == args[0] || ((args[0] == "-s"@ || args[0] == "--simulate"@) && (args2[0]
            == "-s"@ || args2[0] == "--simulate"@)));
        assert forall|i: int| 0 <= i < r1.len() implies #[trigger] r2[i] == r1[i] || ((r1[i] == "-s"@
            || r1[i] == "--simulate"@) && (r2[i] == "-s"@ || r2[i] == "--simulate"@)) by {
            assert(r1[i] == args[i + 1] && r2[i] == args2[i + 1]);
        }
        law_short_simulate_flag(RuntimeMode::Simulation, r1, r2);
        law_short_simulate_flag(RuntimeMode::BackendTest, r1, r2);
    }
}

/// Why the program could not start.
#[derive(Clone, Debug, PartialEq, Eq)]
pub enum AppError {
    UnknownArgument(String),
    Config(String),
    KeyBinding(String),
}

impl AppError {
    /// The human-readable description of the error.
    pub fn message(&self) -> (m: String)
        ensures
            m@ == match self {
                AppError::UnknownArgument(argument) => "unknown argument: "@ + argument@,
                AppError::Config(message) => message@,
                AppError::KeyBinding(message) => "invalid keybinding: "@ + message@,
            },
    {
        match self {
            AppError::UnknownArgument(argument) => {
                let mut m = "unknown argument: ".to_owned();
                m.append(argument.as_str());
                m
            },
            AppError::Config(message) => message.clone(),
            AppError::KeyBinding(message) => {
                let mut m = "invalid keybinding: ".to_owned();
                m.append(message.as_str());
                m
            },
        }
    }

    /// A configuration error, carried by its description.
    pub fn from_config_error(error: &ConfigError) -> (e: AppError)
        ensures
            e is Config,
            e->Config_0@ == config_error_message(*error),
    {
        AppError::Config(error.message())
    }

    /// A keybinding error, carried by its description.
    pub fn from_keybinding_error(error: &KeyBindingParseError) -> (e: AppError)
        ensures
            e is KeyBinding,
            e->KeyBinding_0@ == error_message(error@),
    {
        AppError::KeyBinding(error.message())
    }
}

} // verus!
