use vstd::prelude::*;
use vstd::string::StrSliceExecFns;
use crate::error::EnvieError;
use crate::ordered_map::{lemma_text_values_insert, OrderedMap};
use crate::text::{concat3, find_char, first_index_of, same_text, slice, slice_from, texts};

verus! {

/// The command line: one subcommand.
#[derive(Debug, Clone)]
pub struct Cli {
    pub command: Commands,
}

/// The subcommands.
#[derive(Debug, Clone)]
pub enum Commands {
    Init { name: Option<String>, description: Option<String>, no_prompt: bool, verbose: bool },
    Deploy {
        service: Option<String>,
        merge_request: String,
        environment: Vec<String>,
        dry_run: bool,
        no_prompt: bool,
        verbose: bool,
    },
    Destroy { merge_request: Option<String>, dry_run: bool, verbose: bool },
    Env { command: EnvCommands },
    Generate { env_file: String, file: Option<String> },
    List,
    Output { file: Option<String>, verbose: bool },
    Clean { service: Option<String>, upgrade: bool, verbose: bool },
    Show { service: Option<String>, modules: bool, dependencies: bool, verbose: bool },
}

/// The subcommands of `env`.
#[derive(Debug, Clone)]
pub enum EnvCommands {
    Start { merge_request_id: String, quiet: bool },
    Destroy { merge_request_id: Option<String>, quiet: bool },
    List,
    Current,
}

/// Dispatches commands for a working directory.
#[derive(Debug, Clone)]
pub struct CommandHandler {
    pub working_directory: String,
}

/// Options of `clean`.
#[derive(Debug, Clone)]
pub struct CleanOptions {
    pub service_name: Option<String>,
    pub upgrade: bool,
    pub verbose: bool,
}

/// Options of `deploy`.
#[derive(Debug, Clone)]
pub struct DeployV2Options {
    pub service_name: Option<String>,
    pub merge_request: String,
    pub environment_overrides: OrderedMap<String>,
    pub dry_run: bool,
    pub no_prompt: bool,
    pub verbose: bool,
}

/// Options of `destroy`.
#[derive(Debug, Clone)]
pub struct DestroyOptions {
    pub merge_request: Option<String>,
    pub dry_run: bool,
    pub verbose: bool,
}

/// Options of `env start` and `env destroy`.
#[derive(Debug, Clone)]
pub struct EnvOptions {
    pub merge_request_id: String,
    pub quiet: bool,
}

/// Options of `generate`.
#[derive(Debug, Clone)]
pub struct GenerateOptions {
    pub env_file: String,
    pub output_file: Option<String>,
    pub use_envie_output: bool,
}

/// Options of `init`.
#[derive(Debug, Clone)]
pub struct InitOptions {
    pub name: Option<String>,
    pub description: Option<String>,
    pub no_prompt: bool,
    pub verbose: bool,
}

/// Options of `output`.
#[derive(Debug, Clone)]
pub struct OutputOptions {
    pub output_file: Option<String>,
    pub verbose: bool,
}

/// Options of `show`.
#[derive(Debug, Clone)]
pub struct ShowOptions {
    pub service: Option<String>,
    pub modules: bool,
    pub dependencies: bool,
    pub verbose: bool,
}

/// The overrides that `key:value` arguments give, split at the first `:`;
/// a later argument for a key replaces an earlier one, and the key
/// `default` is set aside.
pub open spec fn overrides_of(args: Seq<Seq<char>>) -> Map<Seq<char>, Seq<char>>
    decreases args.len(),
{
    if args.len() == 0 {
        Map::empty()
    } else {
        let before = overrides_of(args.drop_last());
        let t = args.last();
        match first_index_of(t, ':') {
            Some(i) => if t.subrange(0, i) == "default"@ {
                before
            } else {
                before.insert(t.subrange(0, i), t.subrange(i + 1, t.len() as int))
            },
            None => before,
        }
    }
}

/// `arg` split at its first `:`.
fn split_setting(arg: &str) -> (r: Option<(String, String)>)
    ensures
        match first_index_of(arg@, ':') {
            Some(i) => r matches Some(p) && p.0@ == arg@.subrange(0, i) && p.1@ == arg@.subrange(
                i + 1,
                arg@.len() as int,
            ),
            None => r is None,
        },
{
    let n = arg.unicode_len();
    match find_char(arg, ':') {
        Some(p) => Some((slice(arg, 0, p), slice_from(arg, p + 1))),
        None => None,
    }
}

impl CommandHandler {
    /// A handler for `working_directory`.
    pub fn new(working_directory: String) -> (r: Self)
        ensures
            r.working_directory == working_directory,
    {
        CommandHandler { working_directory }
    }

    /// Reads `key:value` environment overrides. Fails on the first argument
    /// without a `:`.
    pub fn parse_environments(&self, environment_args: Vec<String>) -> (r: Result<OrderedMap<String>, EnvieError>)
        ensures
            r is Ok <==> forall|i: int|
                0 <= i < environment_args@.len() ==> first_index_of(#[trigger] environment_args@[i]@, ':') is Some,
            r matches Err(e) ==> e is ValidationError,
            r matches Ok(m) ==> m@.map_values(|v: String| v@) == overrides_of(
                texts(environment_args@),
            ),
    {
        let ghost args = texts(environment_args@);
        let mut environments: OrderedMap<String> = OrderedMap::new();
        let mut i: usize = 0;
        proof {
            reveal_strlit("default");
            assert(args.subrange(0, 0) =~= Seq::<Seq<char>>::empty());
            assert(environments@.map_values(|v: String| v@) =~= Map::<Seq<char>, Seq<char>>::empty());
        }
        while i < environment_args.len()
            invariant
                i <= environment_args@.len(),
                args == texts(environment_args@),
                forall|k: int| 0 <= k < i ==> first_index_of(#[trigger] environment_args@[k]@, ':') is Some,
                environments@.map_values(|v: String| v@) == overrides_of(args.subrange(0, i as int)),
            decreases environment_args@.len() - i,
        {
            let arg = environment_args[i].as_str();
            proof {
                assert(args.subrange(0, i + 1).drop_last() =~= args.subrange(0, i as int));
                assert(args.subrange(0, i + 1).last() == arg@);
            }
            match split_setting(arg) {
                Some((key, value)) => {
                    if !same_text(key.as_str(), "default") {
                        let ghost before = environments@;
                        environments.insert(key, value);
                        proof {
                            lemma_text_values_insert(before, key@, value);
                        }
                    }
                },
                None => {
                    let msg = concat3("Invalid environment format: ", arg, ". Expected format: key:value");
                    return Err(EnvieError::ValidationError(msg));
                },
            }
            i = i + 1;
        }
        assert(args.subrange(0, args.len() as int) =~= args);
        Ok(environments)
    }
}

} // verus!
