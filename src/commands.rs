use vstd::prelude::*;
use vstd::string::StrSliceExecFns;
use vstd::string::StringExecFns;
use crate::cli::InitOptions;
use crate::config::{ProjectInfo, ServiceDiscovery, WorkspaceConfig};
use crate::error::EnvieError;
use crate::ordered_map::OrderedMap;
use crate::outputs::{split_dependency, split_token};
use crate::scanner::{is_match, pattern_matches};
use crate::text::{
    concat, concat3, find_char, first_index_of, has_prefix, same_text, slice, slice_from, starts_with, strip_char, stripped,
    texts, trim, trimmed, pieces, split_at_char, lines_of, split_lines,
};

verus! {

/// Sets up a new project in a working directory.
#[derive(Debug, Clone)]
pub struct InitCommand {
    pub working_directory: String,
}

/// One step of tearing down a deployment's dependencies.
#[derive(Debug, Clone)]
pub struct DestroyStep {
    pub component: String,
    pub environment: String,
    /// Only temporary (dev) deployments are destroyed; the rest are skipped.
    pub destroy: bool,
}

/// The model of a destroy step.
pub struct DestroyStepView {
    pub component: Seq<char>,
    pub environment: Seq<char>,
    pub destroy: bool,
}

impl View for DestroyStep {
    type V = DestroyStepView;

    open spec fn view(&self) -> DestroyStepView {
        DestroyStepView { component: self.component@, environment: self.environment@, destroy: self.destroy }
    }
}

/// The teardown steps for `component:environment` tokens: last token first,
/// malformed tokens passed over.
pub open spec fn destroy_order(deps: Seq<Seq<char>>) -> Seq<DestroyStepView>
    decreases deps.len(),
{
    if deps.len() == 0 {
        Seq::empty()
    } else {
        let later = destroy_order(deps.drop_last());
        match split_token(deps.last()) {
            Some((c, e)) => seq![DestroyStepView { component: c, environment: e, destroy: e == "dev"@ }]
                + later,
            None => later,
        }
    }
}

/// The form of a merge request id: digits, then optionally `-` and ASCII
/// letters or digits.
pub open spec fn merge_request_pattern() -> Seq<char> {
    "^[0-9]+(-[0-9A-Za-z]+)?$"@
}

/// The text the user typed, trimmed, or `default` where there is none.
pub open spec fn answer_or(given: Option<Seq<char>>, no_prompt: bool, typed: Seq<char>, default: Seq<char>) -> Seq<char> {
    match given {
        Some(g) => g,
        None => if no_prompt || trimmed(typed).len() == 0 {
            default
        } else {
            trimmed(typed)
        },
    }
}

fn choose_answer(given: &Option<String>, no_prompt: bool, typed: &str, default: &str) -> (r: String)
    ensures
        r@ == answer_or(
            match given {
                Some(g) => Some(g@),
                None => None,
            },
            no_prompt,
            typed@,
            default@,
        ),
{
    match given {
        Some(g) => g.clone(),
        None => {
            if no_prompt {
                return String::from_str(default);
            }
            let t = trim(typed);
            if t.as_str().unicode_len() == 0 {
                String::from_str(default)
            } else {
                t
            }
        },
    }
}

impl InitCommand {
    /// The command for `working_directory`.
    pub fn new(working_directory: String) -> (r: Self)
        ensures
            r.working_directory == working_directory,
    {
        InitCommand { working_directory }
    }

    /// The project's name and description: as given in the options; else,
    /// without prompting, the defaults; else the trimmed answers typed, with
    /// an empty answer meaning the default.
    pub fn project_info(options: &InitOptions, typed_name: &str, typed_description: &str) -> (r: ProjectInfo)
        ensures
            r.name@ == answer_or(
                match options.name {
                    Some(g) => Some(g@),
                    None => None,
                },
                options.no_prompt,
                typed_name@,
                "my-envie-project"@,
            ),
            r.description@ == answer_or(
                match options.description {
                    Some(g) => Some(g@),
                    None => None,
                },
                options.no_prompt,
                typed_description@,
                "An Envie-managed Terraform project"@,
            ),
    {
        ProjectInfo {
            name: choose_answer(&options.name, options.no_prompt, typed_name, "my-envie-project"),
            description: choose_answer(
                &options.description,
                options.no_prompt,
                typed_description,
                "An Envie-managed Terraform project",
            ),
        }
    }

    /// The manifest of a new project: version 1.0, the project, and the
    /// three example services.
    pub fn create_workspace_config(&self, project_info: &ProjectInfo) -> (r: WorkspaceConfig)
        ensures
            r.version@ == "1.0"@,
            r.project matches Some(p) && p.name@ == project_info.name@ && p.description@
                == project_info.description@,
            r.services@.len() == 3,
            r.services@[0].path@ == "services/networking"@,
            r.services@[0].name matches Some(n) && n@ == "networking"@,
            r.services@[1].path@ == "services/database"@,
            r.services@[1].name matches Some(n) && n@ == "database"@,
            r.services@[2].path@ == "services/api"@,
            r.services@[2].name matches Some(n) && n@ == "api"@,
            r.defaults@ == Map::<Seq<char>, String>::empty(),
    {
        let mut services: Vec<ServiceDiscovery> = Vec::new();
        services.push(
            ServiceDiscovery {
                name: Some(String::from_str("networking")),
                path: String::from_str("services/networking"),
            },
        );
        services.push(
            ServiceDiscovery {
                name: Some(String::from_str("database")),
                path: String::from_str("services/database"),
            },
        );
        services.push(
            ServiceDiscovery { name: Some(String::from_str("api")), path: String::from_str("services/api") },
        );
        WorkspaceConfig {
            version: String::from_str("1.0"),
            project: Some(
                ProjectInfo { name: project_info.name.clone(), description: project_info.description.clone() },
            ),
            services,
            defaults: OrderedMap::new(),
        }
    }
}

/// Checks a merge request id against `merge_request_pattern`.
pub fn validate_merge_request_id(merge_request_id: &str) -> (r: Result<(), EnvieError>)
    ensures
        r is Ok <==> pattern_matches(merge_request_pattern(), merge_request_id@),
        r matches Err(e) ==> e is ValidationError,
{
    if is_match("^[0-9]+(-[0-9A-Za-z]+)?$", merge_request_id) {
        Ok(())
    } else {
        Err(
            EnvieError::ValidationError(
                String::from_str(
                    "Invalid merge request ID. Please provide a valid merge request ID in the format {number}-({number})?",
                ),
            ),
        )
    }
}

/// The workspace name of a merge request: `<repository>-<id>`.
pub fn format_workspace_name(repo_name: &str, merge_request_id: &str) -> (r: String)
    ensures
        r@ == repo_name@ + "-"@ + merge_request_id@,
{
    concat3(repo_name, "-", merge_request_id)
}

/// A workspace name as shown to the user: without the `<repository>-`
/// prefix where it has one.
pub fn display_workspace_name(workspace: &str, repo_name: &str) -> (r: String)
    ensures
        has_prefix(workspace@, repo_name@ + "-"@) ==> r@ == workspace@.subrange(
            (repo_name@ + "-"@).len() as int,
            workspace@.len() as int,
        ),
        !has_prefix(workspace@, repo_name@ + "-"@) ==> r@ == workspace@,
{
    let prefix = concat(repo_name, "-");
    proof {
        reveal_strlit("-");
    }
    if starts_with(workspace, prefix.as_str()) {
        let k = prefix.as_str().unicode_len();
        slice_from(workspace, k)
    } else {
        String::from_str(workspace)
    }
}

/// The workspaces other than `default`, in order.
pub fn development_workspaces(workspaces: &Vec<String>) -> (r: Vec<String>)
    ensures
        texts(r@) == texts(workspaces@).filter(
            |w: Seq<char>| w != "default"@,
        ),
{
    let ghost all = texts(workspaces@);
    let mut r: Vec<String> = Vec::new();
    let mut i: usize = 0;
    assert(all.subrange(0, 0) =~= Seq::<Seq<char>>::empty());
    while i < workspaces.len()
        invariant
            i <= workspaces@.len(),
            all == texts(workspaces@),
            texts(r@) == all.subrange(0, i as int).filter(|w: Seq<char>| w != "default"@),
        decreases workspaces@.len() - i,
    {
        let ghost before = r@;
        proof {
            assert(all.subrange(0, i + 1).drop_last() =~= all.subrange(0, i as int));
            assert(all.subrange(0, i + 1).last() == workspaces@[i as int]@);
            reveal(Seq::filter);
        }
        if !same_text(workspaces[i].as_str(), "default") {
            r.push(workspaces[i].clone());
            assert(texts(r@) =~= texts(before).push(workspaces@[i as int]@));
        }
        i = i + 1;
    }
    assert(all.subrange(0, all.len() as int) =~= all);
    r
}

/// The teardown steps for a deployment's `component:environment` tokens,
/// last token first; only dev components are destroyed.
pub fn destroy_steps(dependencies: &Vec<String>) -> (r: Vec<DestroyStep>)
    ensures
        r@.map_values(|s: DestroyStep| s@) == destroy_order(texts(dependencies@)),
{
    let ghost deps = texts(dependencies@);
    let mut r: Vec<DestroyStep> = Vec::new();
    let mut i: usize = dependencies.len();
    proof {
        reveal_strlit("dev");
    }
    assert(deps.subrange(0, deps.len() as int) =~= deps);
    while i > 0
        invariant
            i <= dependencies@.len(),
            deps == texts(dependencies@),
            r@.map_values(|s: DestroyStep| s@) + destroy_order(deps.subrange(0, i as int)) == destroy_order(deps),
        decreases i,
    {
        let ghost before = r@;
        proof {
            assert(deps.subrange(0, i as int).drop_last() =~= deps.subrange(0, i - 1));
            assert(deps.subrange(0, i as int).last() == dependencies@[i - 1]@);
        }
        match split_dependency(dependencies[i - 1].as_str()) {
            Some((component, environment)) => {
                let destroy = same_text(environment.as_str(), "dev");
                let step = DestroyStep { component, environment, destroy };
                r.push(step);
                proof {
                    let rest = destroy_order(deps.subrange(0, i - 1));
                    assert(r@.map_values(|s: DestroyStep| s@) =~= before.map_values(|s: DestroyStep| s@).push(step@));
                    assert(before.map_values(|s: DestroyStep| s@) + (seq![step@] + rest) =~= before.map_values(
                        |s: DestroyStep| s@,
                    ).push(step@) + rest);
                }
            },
            None => {},
        }
        i = i - 1;
    }
    assert(deps.subrange(0, 0) =~= Seq::<Seq<char>>::empty());
    assert(r@.map_values(|s: DestroyStep| s@) + Seq::<DestroyStepView>::empty() =~= r@.map_values(|s: DestroyStep| s@));
    r
}

/// A `KEY=value` line split at its first `=`: the key trimmed, the value
/// trimmed and without surrounding quotes; none without `=`.
pub open spec fn env_line(line: Seq<char>) -> Option<(Seq<char>, Seq<char>)> {
    match first_index_of(line, '=') {
        Some(i) => Some(
            (
                trimmed(line.subrange(0, i)),
                stripped(trimmed(line.subrange(i + 1, line.len() as int)), '"'),
            ),
        ),
        None => None,
    }
}

/// Splits a `KEY=value` line of an environment template.
pub fn parse_env_line(line: &str) -> (r: Option<(String, String)>)
    ensures
        match env_line(line@) {
            Some((k, v)) => r matches Some(p) && p.0@ == k && p.1@ == v,
            None => r is None,
        },
{
    let n = line.unicode_len();
    match find_char(line, '=') {
        Some(i) => {
            let key = trim(slice(line, 0, i).as_str());
            let value = strip_char(trim(slice_from(line, i + 1).as_str()).as_str(), '"');
            Some((key, value))
        },
        None => None,
    }
}

/// The output path that a template reference names: a reference with
/// three or more dot-separated parts names that path; one with two parts,
/// `<first>.<second>`, names the `value` field of `<first>`; shorter ones
/// name nothing.
pub open spec fn reference_lookup(reference: Seq<char>) -> Option<Seq<Seq<char>>> {
    let parts = pieces(reference, '.');
    if parts.len() < 2 {
        None
    } else if parts.len() > 2 {
        Some(parts)
    } else {
        Some(seq![parts[0], "value"@])
    }
}

/// The `KEY=value` entries of an environment template, in order: blank
/// lines, comment lines (`#`) and lines without `=` are passed over.
pub open spec fn template_entries(lines: Seq<Seq<char>>) -> Seq<(Seq<char>, Seq<char>)>
    decreases lines.len(),
{
    if lines.len() == 0 {
        Seq::empty()
    } else {
        let before = template_entries(lines.drop_last());
        let t = trimmed(lines.last());
        if t.len() == 0 || t[0] == '#' {
            before
        } else {
            match env_line(t) {
                Some(e) => before.push(e),
                None => before,
            }
        }
    }
}

/// The path, within the deployment outputs, that a template reference names.
pub fn reference_path(reference: &str) -> (r: Option<Vec<String>>)
    ensures
        match reference_lookup(reference@) {
            Some(p) => r matches Some(v) && texts(v@) == p,
            None => r is None,
        },
{
    let parts = split_at_char(reference, '.');
    if parts.len() < 2 {
        None
    } else if parts.len() > 2 {
        Some(parts)
    } else {
        let mut path: Vec<String> = Vec::new();
        path.push(parts[0].clone());
        path.push(String::from_str("value"));
        assert(texts(path@) =~= seq![texts(parts@)[0], "value"@]);
        Some(path)
    }
}

/// The `KEY=value` entries of an environment template.
pub fn parse_env_template(content: &str) -> (r: Vec<(String, String)>)
    ensures
        r@.map_values(|e: (String, String)| (e.0@, e.1@)) == template_entries(lines_of(content@)),
{
    let lines = split_lines(content);
    let ghost ls = texts(lines@);
    let mut r: Vec<(String, String)> = Vec::new();
    let mut i: usize = 0;
    assert(ls.subrange(0, 0) =~= Seq::<Seq<char>>::empty());
    assert(r@.map_values(|e: (String, String)| (e.0@, e.1@)) =~= Seq::<(Seq<char>, Seq<char>)>::empty());
    while i < lines.len()
        invariant
            ls == texts(lines@),
            i <= lines@.len(),
            r@.map_values(|e: (String, String)| (e.0@, e.1@)) == template_entries(ls.subrange(0, i as int)),
        decreases lines@.len() - i,
    {
        proof {
            assert(ls.subrange(0, i + 1).drop_last() =~= ls.subrange(0, i as int));
            assert(ls.subrange(0, i + 1).last() == lines@[i as int]@);
        }
        let line = trim(lines[i].as_str());
        let n = line.as_str().unicode_len();
        if n > 0 && line.as_str().get_char(0) != '#' {
            match parse_env_line(line.as_str()) {
                Some(entry) => {
                    let ghost before = r@;
                    r.push(entry);
                    assert(r@.map_values(|e: (String, String)| (e.0@, e.1@)) =~= before.map_values(
                        |e: (String, String)| (e.0@, e.1@),
                    ).push((entry.0@, entry.1@)));
                },
                None => {},
            }
        }
        i = i + 1;
    }
    assert(ls.subrange(0, ls.len() as int) =~= ls);
    r
}

} // verus!
