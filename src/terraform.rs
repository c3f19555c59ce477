use vstd::prelude::*;
use vstd::string::StringExecFns;
use vstd::string::StrSliceExecFns;
use crate::error::EnvieError;
use crate::text::{concat3, find_char, first_index_of, slice, slice_from, texts, trim, trimmed};

verus! {

/// What a deployment records about itself: its service and its dependency
/// tokens.
#[derive(Debug, Clone)]
pub struct TerraformState {
    pub service: String,
    pub dependencies: Vec<String>,
}

/// Builds the provisioner invocations for one working directory.
#[derive(Debug, Clone)]
pub struct TerraformManager {
    working_directory: String,
    verbose: bool,
}

/// One provisioner run: where, with which arguments, and whether the
/// command line is echoed first.
#[derive(Debug, Clone)]
pub struct TerraformInvocation {
    pub working_directory: String,
    pub args: Vec<String>,
    pub echo: bool,
}

/// `-var key=value` for each variable, in order.
pub open spec fn var_args(vars: Seq<(String, String)>) -> Seq<Seq<char>>
    decreases vars.len(),
{
    if vars.len() == 0 {
        Seq::empty()
    } else {
        var_args(vars.drop_last()) + seq!["-var"@, vars.last().0@ + "="@ + vars.last().1@]
    }
}

/// The non-empty lines of `s`, each without surrounding white space.
pub open spec fn listed_names(s: Seq<char>) -> Seq<Seq<char>>
    decreases s.len(),
{
    match first_index_of(s, '\n') {
        Some(i) => if 0 <= i < s.len() {
            let line = trimmed(s.subrange(0, i));
            let rest = listed_names(s.subrange(i + 1, s.len() as int));
            if line.len() == 0 {
                rest
            } else {
                seq![line] + rest
            }
        } else {
            Seq::empty()
        },
        None => if trimmed(s).len() == 0 {
            Seq::empty()
        } else {
            seq![trimmed(s)]
        },
    }
}

fn strings2(a: &str, b: &str) -> (r: Vec<String>)
    ensures
        texts(r@) == seq![a@, b@],
{
    let mut r: Vec<String> = Vec::new();
    r.push(String::from_str(a));
    r.push(String::from_str(b));
    assert(texts(r@) =~= seq![a@, b@]);
    r
}

fn strings3(a: &str, b: &str, c: &str) -> (r: Vec<String>)
    ensures
        texts(r@) == seq![a@, b@, c@],
{
    let mut r = strings2(a, b);
    let ghost before = r@;
    r.push(String::from_str(c));
    assert(texts(r@) =~= texts(before).push(c@));
    r
}

fn push_all(into: &mut Vec<String>, more: &Vec<String>)
    ensures
        texts(final(into)@) == texts(old(into)@) + texts(more@),
{
    let mut i: usize = 0;
    while i < more.len()
        invariant
            i <= more@.len(),
            texts(into@) == texts(old(into)@) + texts(more@.subrange(0, i as int)),
        decreases more@.len() - i,
    {
        let ghost before = into@;
        into.push(more[i].clone());
        assert(texts(into@) =~= texts(before).push(more@[i as int]@));
        assert(texts(more@.subrange(0, i + 1)) =~= texts(more@.subrange(0, i as int)).push(more@[i as int]@));
        i = i + 1;
    }
    assert(more@.subrange(0, more@.len() as int) =~= more@);
}

fn variable_args(vars: &Vec<(String, String)>) -> (r: Vec<String>)
    ensures
        texts(r@) == var_args(vars@),
{
    let mut r: Vec<String> = Vec::new();
    let mut i: usize = 0;
    assert(texts(r@) =~= var_args(vars@.subrange(0, 0)));
    while i < vars.len()
        invariant
            i <= vars@.len(),
            texts(r@) == var_args(vars@.subrange(0, i as int)),
        decreases vars@.len() - i,
    {
        let (k, v) = &vars[i];
        let ghost before = r@;
        r.push(String::from_str("-var"));
        r.push(concat3(k.as_str(), "=", v.as_str()));
        proof {
            assert(vars@.subrange(0, i + 1).drop_last() =~= vars@.subrange(0, i as int));
            assert(texts(r@) =~= texts(before) + seq!["-var"@, k@ + "="@ + v@]);
        }
        i = i + 1;
    }
    assert(vars@.subrange(0, vars@.len() as int) =~= vars@);
    r
}

impl TerraformManager {
    /// The directory the provisioner runs in.
    pub closed spec fn directory(self) -> Seq<char> {
        self.working_directory@
    }

    /// Whether command lines are echoed.
    pub closed spec fn is_verbose(self) -> bool {
        self.verbose
    }

    /// A manager for `working_directory`, quiet.
    pub fn new(working_directory: &str) -> (r: Self)
        ensures
            r.directory() == working_directory@,
            !r.is_verbose(),
    {
        TerraformManager { working_directory: String::from_str(working_directory), verbose: false }
    }

    /// The same manager, echoing command lines when `verbose`.
    pub fn with_verbose(self, verbose: bool) -> (r: Self)
        ensures
            r.directory() == self.directory(),
            r.is_verbose() == verbose,
    {
        TerraformManager { working_directory: self.working_directory, verbose }
    }

    /// The working directory.
    pub fn working_directory(&self) -> (r: &str)
        ensures
            r@ == self.directory(),
    {
        self.working_directory.as_str()
    }

    /// Whether command lines are echoed.
    pub fn verbose(&self) -> (r: bool)
        ensures
            r == self.is_verbose(),
    {
        self.verbose
    }

    fn run(&self, args: Vec<String>) -> (r: TerraformInvocation)
        ensures
            r.working_directory@ == self.directory(),
            r.args == args,
            r.echo == self.is_verbose(),
    {
        TerraformInvocation { working_directory: self.working_directory.clone(), args, echo: self.verbose }
    }

    /// `terraform init`.
    pub fn init(&self) -> (r: TerraformInvocation)
        ensures
            r.working_directory@ == self.directory(),
            r.echo == self.is_verbose(),
            texts(r.args@) == seq!["init"@],
    {
        let mut args: Vec<String> = Vec::new();
        args.push(String::from_str("init"));
        assert(texts(args@) =~= seq!["init"@]);
        self.run(args)
    }

    /// `terraform init -upgrade`.
    pub fn init_with_upgrade(&self) -> (r: TerraformInvocation)
        ensures
            r.working_directory@ == self.directory(),
            r.echo == self.is_verbose(),
            texts(r.args@) == seq!["init"@, "-upgrade"@],
    {
        self.run(strings2("init", "-upgrade"))
    }

    /// `terraform workspace list`; read its output with `parse_workspace_list`.
    pub fn workspace_list(&self) -> (r: TerraformInvocation)
        ensures
            r.working_directory@ == self.directory(),
            r.echo == self.is_verbose(),
            texts(r.args@) == seq!["workspace"@, "list"@],
    {
        self.run(strings2("workspace", "list"))
    }

    /// `terraform workspace show`; read its output with `parse_workspace_show`.
    pub fn workspace_show(&self) -> (r: TerraformInvocation)
        ensures
            r.working_directory@ == self.directory(),
            r.echo == self.is_verbose(),
            texts(r.args@) == seq!["workspace"@, "show"@],
    {
        self.run(strings2("workspace", "show"))
    }

    /// `terraform workspace select <workspace>`.
    pub fn workspace_select(&self, workspace: &str) -> (r: TerraformInvocation)
        ensures
            r.working_directory@ == self.directory(),
            r.echo == self.is_verbose(),
            texts(r.args@) == seq!["workspace"@, "select"@, workspace@],
    {
        self.run(strings3("workspace", "select", workspace))
    }

    /// `terraform workspace new <workspace>`.
    pub fn workspace_new(&self, workspace: &str) -> (r: TerraformInvocation)
        ensures
            r.working_directory@ == self.directory(),
            r.echo == self.is_verbose(),
            texts(r.args@) == seq!["workspace"@, "new"@, workspace@],
    {
        self.run(strings3("workspace", "new", workspace))
    }

    /// `terraform workspace delete <workspace>`.
    pub fn workspace_delete(&self, workspace: &str) -> (r: TerraformInvocation)
        ensures
            r.working_directory@ == self.directory(),
            r.echo == self.is_verbose(),
            texts(r.args@) == seq!["workspace"@, "delete"@, workspace@],
    {
        self.run(strings3("workspace", "delete", workspace))
    }

    /// `terraform apply -auto-approve -input=false`, then `-var key=value`
    /// for each variable.
    pub fn apply(&self, vars: &Vec<(String, String)>) -> (r: TerraformInvocation)
        ensures
            r.working_directory@ == self.directory(),
            r.echo == self.is_verbose(),
            texts(r.args@) == seq!["apply"@, "-auto-approve"@, "-input=false"@] + var_args(vars@),
    {
        let mut args = strings3("apply", "-auto-approve", "-input=false");
        push_all(&mut args, &variable_args(vars));
        self.run(args)
    }

    /// As `apply`, then `-out <output_file>`.
    pub fn apply_with_output(&self, vars: &Vec<(String, String)>, output_file: &str) -> (r: TerraformInvocation)
        ensures
            r.working_directory@ == self.directory(),
            r.echo == self.is_verbose(),
            texts(r.args@) == seq!["apply"@, "-auto-approve"@, "-input=false"@] + var_args(vars@)
                + seq!["-out"@, output_file@],
    {
        let mut args = strings3("apply", "-auto-approve", "-input=false");
        push_all(&mut args, &variable_args(vars));
        push_all(&mut args, &strings2("-out", output_file));
        self.run(args)
    }

    /// `terraform destroy -auto-approve -input=false`, then `-var key=value`
    /// for each variable.
    pub fn destroy(&self, vars: &Vec<(String, String)>) -> (r: TerraformInvocation)
        ensures
            r.working_directory@ == self.directory(),
            r.echo == self.is_verbose(),
            texts(r.args@) == seq!["destroy"@, "-auto-approve"@, "-input=false"@] + var_args(vars@),
    {
        let mut args = strings3("destroy", "-auto-approve", "-input=false");
        push_all(&mut args, &variable_args(vars));
        self.run(args)
    }

    /// `terraform output -json`.
    pub fn output_json(&self) -> (r: TerraformInvocation)
        ensures
            r.working_directory@ == self.directory(),
            r.echo == self.is_verbose(),
            texts(r.args@) == seq!["output"@, "-json"@],
    {
        self.run(strings2("output", "-json"))
    }

    /// `terraform output -json <key>`.
    pub fn output_value(&self, key: &str) -> (r: TerraformInvocation)
        ensures
            r.working_directory@ == self.directory(),
            r.echo == self.is_verbose(),
            texts(r.args@) == seq!["output"@, "-json"@, key@],
    {
        self.run(strings3("output", "-json", key))
    }
}

impl TerraformInvocation {
    /// The subcommand: the first argument, or nothing.
    pub open spec fn subcommand(self) -> Seq<char> {
        if self.args@.len() > 0 {
            self.args@[0]@
        } else {
            Seq::empty()
        }
    }

    /// The subcommand: the first argument.
    pub fn command(&self) -> (r: &str)
        ensures
            r@ == self.subcommand(),
    {
        if self.args.len() > 0 {
            self.args[0].as_str()
        } else {
            proof {
                reveal_strlit("");
            }
            ""
        }
    }

    /// What a run came to: its standard output when it succeeded, else a
    /// provisioner error that names the subcommand and carries the
    /// diagnostic text.
    pub fn outcome(&self, succeeded: bool, stdout: String, stderr: &str) -> (r: Result<String, EnvieError>)
        ensures
            succeeded ==> r == Ok::<String, EnvieError>(stdout),
            !succeeded ==> (r matches Err(EnvieError::TerraformError(m)) && m@ == "terraform "@
                + self.subcommand() + " failed: "@ + stderr@),
    {
        if succeeded {
            Ok(stdout)
        } else {
            let mut msg = concat3("terraform ", self.command(), " failed: ");
            msg.append(stderr);
            Err(EnvieError::TerraformError(msg))
        }
    }

    /// The error for a run that could not be started.
    pub fn launch_failure(&self, reason: &str) -> (r: EnvieError)
        ensures
            r matches EnvieError::ProcessError(m) && m@ == "Failed to execute terraform "@
                + self.subcommand() + ": "@ + reason@,
    {
        let mut msg = concat3("Failed to execute terraform ", self.command(), ": ");
        msg.append(reason);
        EnvieError::ProcessError(msg)
    }
}

/// The workspace names that `terraform workspace list` printed: the
/// non-empty lines, trimmed.
pub fn parse_workspace_list(output: &str) -> (r: Vec<String>)
    ensures
        texts(r@) == listed_names(output@),
    decreases output@.len(),
{
    let n = output.unicode_len();
    match find_char(output, '\n') {
        Some(i) => {
            let line = trim(slice(output, 0, i).as_str());
            let rest_text = slice_from(output, i + 1);
            let rest = parse_workspace_list(rest_text.as_str());
            let mut r: Vec<String> = Vec::new();
            if line.as_str().unicode_len() > 0 {
                r.push(line);
            }
            push_all(&mut r, &rest);
            assert(texts(r@) =~= listed_names(output@));
            r
        },
        None => {
            let line = trim(output);
            let mut r: Vec<String> = Vec::new();
            if line.as_str().unicode_len() > 0 {
                r.push(line);
            }
            assert(texts(r@) =~= listed_names(output@));
            r
        },
    }
}

/// The current workspace that `terraform workspace show` printed.
pub fn parse_workspace_show(output: &str) -> (r: String)
    ensures
        r@ == trimmed(output@),
{
    trim(output)
}

} // verus!
