use vstd::prelude::*;
use vstd::string::StringExecFns;
use crate::config::ProjectInfo;
use crate::error::EnvieError;
use crate::ordered_map::{pairs_keys, pairs_map, OrderedMap};
use crate::text::{concat, concat3, has_prefix, replace_all, replaced, same_text, slice_from, starts_with, texts};

verus! {

/// Static environment configuration: the ephemeral backend template and the
/// table of named stable environments.
#[derive(Debug, Clone)]
pub struct EnvironmentConfig {
    pub project: Option<ProjectInfo>,
    pub ephemeral: EphemeralConfig,
    pub stable: OrderedMap<StableEnvironmentConfig>,
}

/// How ephemeral workspaces are named and where their state is kept.
#[derive(Debug, Clone)]
pub struct EphemeralConfig {
    pub naming_pattern: String,
    pub backend: BackendConfig,
}

/// A long-lived shared environment.
#[derive(Debug, Clone)]
pub struct StableEnvironmentConfig {
    pub workspace: String,
    pub backend: BackendConfig,
    pub description: String,
}

/// A state-storage backend: its type and its key/value settings.
#[derive(Debug, Clone)]
pub struct BackendConfig {
    pub backend_type: String,
    pub config: OrderedMap<String>,
}

/// How a resolved workspace is classified.
#[derive(Debug, Clone)]
pub enum EnvironmentType {
    Ephemeral,
    Stable(String),
}

/// A concrete workspace with its classification and backend.
#[derive(Debug, Clone)]
pub struct ResolvedEnvironment {
    pub workspace: String,
    pub environment_type: EnvironmentType,
    pub backend: BackendConfig,
}

/// Resolves environment tokens against a bound current workspace, a project
/// name, the static configuration and the known workspaces.
#[derive(Debug, Clone)]
pub struct EnvironmentResolver {
    pub current_workspace: String,
    pub project_name: String,
    pub available_workspaces: Vec<String>,
    pub environment_config: EnvironmentConfig,
}

/// A symbolic environment reference, parsed once.
#[derive(Debug, Clone)]
pub enum EnvironmentToken {
    /// `stable.<name>`
    StableNamed(String),
    /// `ephemeral`
    EphemeralCurrent,
    /// `ephemeral.<id>`
    EphemeralById(String),
    /// any other text: a workspace name
    LiteralWorkspace(String),
}

/// The model of a backend.
pub struct BackendView {
    pub backend_type: Seq<char>,
    pub config: Seq<(Seq<char>, String)>,
}

/// The model of an environment classification.
pub enum EnvironmentKind {
    Ephemeral,
    Stable(Seq<char>),
}

/// The model of a resolved environment.
pub struct ResolvedView {
    pub workspace: Seq<char>,
    pub kind: EnvironmentKind,
    pub backend: BackendView,
}

/// The model of an environment token.
pub enum TokenView {
    StableNamed(Seq<char>),
    EphemeralCurrent,
    EphemeralById(Seq<char>),
    LiteralWorkspace(Seq<char>),
}

impl View for BackendConfig {
    type V = BackendView;

    open spec fn view(&self) -> BackendView {
        BackendView { backend_type: self.backend_type@, config: self.config.pairs() }
    }
}

impl View for EnvironmentType {
    type V = EnvironmentKind;

    open spec fn view(&self) -> EnvironmentKind {
        match self {
            EnvironmentType::Ephemeral => EnvironmentKind::Ephemeral,
            EnvironmentType::Stable(n) => EnvironmentKind::Stable(n@),
        }
    }
}

impl View for ResolvedEnvironment {
    type V = ResolvedView;

    open spec fn view(&self) -> ResolvedView {
        ResolvedView {
            workspace: self.workspace@,
            kind: self.environment_type@,
            backend: self.backend@,
        }
    }
}

impl View for EnvironmentToken {
    type V = TokenView;

    open spec fn view(&self) -> TokenView {
        match self {
            EnvironmentToken::StableNamed(n) => TokenView::StableNamed(n@),
            EnvironmentToken::EphemeralCurrent => TokenView::EphemeralCurrent,
            EnvironmentToken::EphemeralById(i) => TokenView::EphemeralById(i@),
            EnvironmentToken::LiteralWorkspace(w) => TokenView::LiteralWorkspace(w@),
        }
    }
}

/// The token that a text stands for, tried in this order: `stable.<name>`,
/// `ephemeral`, `ephemeral.<id>`, a literal workspace name.
pub open spec fn token_of(s: Seq<char>) -> TokenView {
    if has_prefix(s, "stable."@) {
        TokenView::StableNamed(s.subrange("stable."@.len() as int, s.len() as int))
    } else if s == "ephemeral"@ {
        TokenView::EphemeralCurrent
    } else if has_prefix(s, "ephemeral."@) {
        TokenView::EphemeralById(s.subrange("ephemeral."@.len() as int, s.len() as int))
    } else {
        TokenView::LiteralWorkspace(s)
    }
}

/// The key pattern for stable state keys when the backend sets none.
pub open spec fn default_key_pattern() -> Seq<char> {
    "stable/{environment}/{service}/{module}/terraform.tfstate"@
}

/// The state-key template of a stable backend.
pub open spec fn key_pattern_of(b: BackendView) -> Seq<char> {
    if pairs_map(b.config).contains_key("key_pattern"@) {
        pairs_map(b.config)["key_pattern"@]@
    } else {
        default_key_pattern()
    }
}

/// The storage key of the state of `module` of `service` in `r`.
pub open spec fn state_key(r: ResolvedView, service: Seq<char>, module: Seq<char>) -> Seq<char> {
    match r.kind {
        EnvironmentKind::Ephemeral => "ephemeral/"@ + r.workspace + "/"@ + service + "/"@ + module
            + "/terraform.tfstate"@,
        EnvironmentKind::Stable(env) => replaced(
            replaced(replaced(key_pattern_of(r.backend), "{environment}"@, env), "{service}"@, service),
            "{module}"@,
            module,
        ),
    }
}

/// One line per backend setting; a setting named `key` shows `key` instead
/// of its configured value.
pub open spec fn setting_lines(c: Seq<(Seq<char>, String)>, key: Seq<char>) -> Seq<char>
    decreases c.len(),
{
    if c.len() == 0 {
        Seq::empty()
    } else {
        setting_lines(c.drop_last(), key) + "    "@ + c.last().0 + " = \""@ + (if c.last().0
            == "key"@ {
            key
        } else {
            c.last().1@
        }) + "\"\n"@
    }
}

/// The backend block for a backend, with `key` as the state key.
pub open spec fn backend_block(b: BackendView, key: Seq<char>) -> Seq<char> {
    "terraform {\n  backend \""@ + b.backend_type + "\" {\n"@ + setting_lines(b.config, key)
        + "\n  }\n}\n"@
}

/// Whether one of `v` holds the text `s`.
pub open spec fn holds_text(v: Seq<String>, s: Seq<char>) -> bool {
    exists|i: int| 0 <= i < v.len() && #[trigger] v[i]@ == s
}

/// Resolving `ephemeral` gives the resolver's bound current workspace,
/// classified ephemeral, with the ephemeral backend.
pub proof fn lemma_ephemeral_is_current_workspace(resolver: EnvironmentResolver)
    ensures
        resolver.resolution(token_of("ephemeral"@)) == Some(
            ResolvedView {
                workspace: resolver.current_workspace@,
                kind: EnvironmentKind::Ephemeral,
                backend: resolver.environment_config.ephemeral.backend@,
            },
        ),
{
    reveal_strlit("ephemeral");
    reveal_strlit("stable.");
    assert("ephemeral"@.subrange(0, 7)[0] != "stable."@[0]);
}

/// `stable.<name>` resolves to the stable table's entry for `name`, with
/// its workspace and backend, and fails where the table has no such entry.
pub proof fn lemma_stable_token(resolver: EnvironmentResolver, name: Seq<char>)
    ensures
        ({
            let stable = resolver.environment_config.stable@;
            resolver.resolution(token_of("stable."@ + name)) == if stable.contains_key(name) {
                Some(
                    ResolvedView {
                        workspace: stable[name].workspace@,
                        kind: EnvironmentKind::Stable(name),
                        backend: stable[name].backend@,
                    },
                )
            } else {
                None
            }
        }),
{
    reveal_strlit("stable.");
    let t = "stable."@ + name;
    assert(t.subrange(0, 7) =~= "stable."@);
    assert(t.subrange(7, t.len() as int) =~= name);
}

/// `ephemeral.<id>` resolves to the workspace `<project>-<id>`, classified
/// ephemeral, exactly when that workspace is among the known ones.
pub proof fn lemma_ephemeral_id_token(resolver: EnvironmentResolver, id: Seq<char>)
    ensures
        ({
            let ws = resolver.project_name@ + "-"@ + id;
            resolver.resolution(token_of("ephemeral."@ + id)) == if holds_text(
                resolver.available_workspaces@,
                ws,
            ) {
                Some(
                    ResolvedView {
                        workspace: ws,
                        kind: EnvironmentKind::Ephemeral,
                        backend: resolver.environment_config.ephemeral.backend@,
                    },
                )
            } else {
                None
            }
        }),
{
    reveal_strlit("stable.");
    reveal_strlit("ephemeral");
    reveal_strlit("ephemeral.");
    let t = "ephemeral."@ + id;
    assert(t.subrange(0, 7)[0] != "stable."@[0]);
    assert(t.len() != "ephemeral"@.len());
    assert(t.subrange(0, 10) =~= "ephemeral."@);
    assert(t.subrange(10, t.len() as int) =~= id);
}

impl BackendConfig {
    /// A copy of this backend.
    pub fn duplicate(&self) -> (r: Self)
        ensures
            r@ == self@,
    {
        BackendConfig { backend_type: self.backend_type.clone(), config: self.config.duplicate() }
    }
}

impl EnvironmentConfig {
    /// The configuration used where a project declares none: ephemeral
    /// workspaces named `{project}-{id}`, kept in the `s3` bucket
    /// `terraform-state-ephemeral` in `eu-west-1`, and no stable environments.
    pub fn default_for(project: Option<ProjectInfo>) -> (r: Self)
        ensures
            r.project == project,
            r.ephemeral.naming_pattern@ == "{project}-{id}"@,
            r.ephemeral.backend.backend_type@ == "s3"@,
            r.ephemeral.backend.config@.map_values(|v: String| v@) == map![
                "bucket"@ => "terraform-state-ephemeral"@,
                "region"@ => "eu-west-1"@,
            ],
            r.stable@ == Map::<Seq<char>, StableEnvironmentConfig>::empty(),
    {
        let mut config: OrderedMap<String> = OrderedMap::new();
        config.insert(String::from_str("bucket"), String::from_str("terraform-state-ephemeral"));
        config.insert(String::from_str("region"), String::from_str("eu-west-1"));
        assert(config@.map_values(|v: String| v@) =~= map![
            "bucket"@ => "terraform-state-ephemeral"@,
            "region"@ => "eu-west-1"@,
        ]);
        EnvironmentConfig {
            project,
            ephemeral: EphemeralConfig {
                naming_pattern: String::from_str("{project}-{id}"),
                backend: BackendConfig { backend_type: String::from_str("s3"), config },
            },
            stable: OrderedMap::new(),
        }
    }
}

impl EnvironmentToken {
    /// Reads a token from its text.
    pub fn parse(s: &str) -> (r: Self)
        ensures
            r@ == token_of(s@),
    {
        proof {
            reveal_strlit("stable.");
            reveal_strlit("ephemeral.");
        }
        if starts_with(s, "stable.") {
            EnvironmentToken::StableNamed(slice_from(s, 7))
        } else if same_text(s, "ephemeral") {
            EnvironmentToken::EphemeralCurrent
        } else if starts_with(s, "ephemeral.") {
            EnvironmentToken::EphemeralById(slice_from(s, 10))
        } else {
            EnvironmentToken::LiteralWorkspace(String::from_str(s))
        }
    }
}

/// The texts of `s`, each in double quotes, separated by `, `.
pub open spec fn quoted_items(s: Seq<Seq<char>>) -> Seq<char>
    decreases s.len(),
{
    if s.len() == 0 {
        Seq::empty()
    } else if s.len() == 1 {
        "\""@ + s[0] + "\""@
    } else {
        quoted_items(s.drop_last()) + ", \""@ + s.last() + "\""@
    }
}

/// The texts of `s` as a bracketed list of quoted names.
pub open spec fn listing_of(s: Seq<Seq<char>>) -> Seq<char> {
    "["@ + quoted_items(s) + "]"@
}

/// The detail of the error for a stable environment missing from the table.
pub open spec fn stable_miss_message(name: Seq<char>, known: Seq<Seq<char>>) -> Seq<char> {
    "Stable environment '"@ + name + "' not found. Available: "@ + listing_of(known)
}

/// The detail of the error for an ephemeral workspace that is not known.
pub open spec fn ephemeral_miss_message(workspace: Seq<char>, known: Seq<Seq<char>>) -> Seq<char> {
    "Ephemeral workspace '"@ + workspace + "' does not exist. Available: "@ + listing_of(known)
}

/// The texts of `v` as a bracketed list of quoted names.
fn listing(v: &Vec<String>) -> (r: String)
    ensures
        r@ == listing_of(texts(v@)),
{
    let ghost t = texts(v@);
    let mut out = String::from_str("[");
    let mut i: usize = 0;
    assert(t.subrange(0, 0) =~= Seq::<Seq<char>>::empty());
    assert(out@ =~= "["@ + quoted_items(t.subrange(0, 0)));
    while i < v.len()
        invariant
            t == texts(v@),
            i <= v@.len(),
            out@ == "["@ + quoted_items(t.subrange(0, i as int)),
        decreases v@.len() - i,
    {
        let ghost before = out@;
        let ghost x = v@[i as int]@;
        if i > 0 {
            out.append(", \"");
        } else {
            out.append("\"");
        }
        out.append(v[i].as_str());
        out.append("\"");
        proof {
            let p = t.subrange(0, i + 1);
            assert(p.drop_last() =~= t.subrange(0, i as int));
            assert(p.last() == x);
            if i == 0 {
                assert(p[0] == x);
                assert(t.subrange(0, 0) =~= Seq::<Seq<char>>::empty());
                assert(out@ =~= "["@ + ("\""@ + x + "\""@));
            } else {
                assert(out@ =~= "["@ + (quoted_items(t.subrange(0, i as int)) + ", \""@ + x + "\""@));
            }
        }
        i = i + 1;
    }
    assert(t.subrange(0, t.len() as int) =~= t);
    out.append("]");
    out
}

/// The keys of `m`, in order.
fn keys_of<T>(m: &OrderedMap<T>) -> (r: Vec<String>)
    ensures
        texts(r@) == pairs_keys(m.pairs()),
{
    let mut r: Vec<String> = Vec::new();
    let mut i: usize = 0;
    while i < m.len()
        invariant
            i <= m.pairs().len(),
            r@.len() == i,
            forall|j: int| 0 <= j < i ==> #[trigger] r@[j]@ == m.pairs()[j].0,
        decreases m.pairs().len() - i,
    {
        let (k, _) = m.entry(i);
        r.push(k.clone());
        i = i + 1;
    }
    assert(texts(r@) =~= pairs_keys(m.pairs()));
    r
}

impl EnvironmentResolver {
    /// A resolver bound to a current workspace and project, with no known
    /// workspaces yet.
    pub fn new(current_workspace: String, project_name: String, environment_config: EnvironmentConfig) -> (r: Self)
        ensures
            r.current_workspace == current_workspace,
            r.project_name == project_name,
            r.available_workspaces@.len() == 0,
            r.environment_config == environment_config,
    {
        EnvironmentResolver {
            current_workspace,
            project_name,
            available_workspaces: Vec::new(),
            environment_config,
        }
    }

    /// The same resolver with `workspaces` as the known workspaces.
    pub fn with_available_workspaces(self, workspaces: Vec<String>) -> (r: Self)
        ensures
            r.current_workspace == self.current_workspace,
            r.project_name == self.project_name,
            r.available_workspaces == workspaces,
            r.environment_config == self.environment_config,
    {
        let mut r = self;
        r.available_workspaces = workspaces;
        r
    }

    /// The environment that a token resolves to; `None` where resolution
    /// fails. A literal workspace name is ephemeral when it starts with
    /// `<project>-`, else stable under its own name; a stable name missing
    /// from the table keeps the ephemeral backend.
    pub open spec fn resolution(self, t: TokenView) -> Option<ResolvedView> {
        let stable = self.environment_config.stable@;
        let ephemeral_backend = self.environment_config.ephemeral.backend@;
        match t {
            TokenView::StableNamed(name) => if stable.contains_key(name) {
                Some(
                    ResolvedView {
                        workspace: stable[name].workspace@,
                        kind: EnvironmentKind::Stable(name),
                        backend: stable[name].backend@,
                    },
                )
            } else {
                None
            },
            TokenView::EphemeralCurrent => Some(
                ResolvedView {
                    workspace: self.current_workspace@,
                    kind: EnvironmentKind::Ephemeral,
                    backend: ephemeral_backend,
                },
            ),
            TokenView::EphemeralById(id) => {
                let ws = self.project_name@ + "-"@ + id;
                if holds_text(self.available_workspaces@, ws) {
                    Some(
                        ResolvedView {
                            workspace: ws,
                            kind: EnvironmentKind::Ephemeral,
                            backend: ephemeral_backend,
                        },
                    )
                } else {
                    None
                }
            },
            TokenView::LiteralWorkspace(w) => if has_prefix(w, self.project_name@ + "-"@) {
                Some(
                    ResolvedView {
                        workspace: w,
                        kind: EnvironmentKind::Ephemeral,
                        backend: ephemeral_backend,
                    },
                )
            } else {
                Some(
                    ResolvedView {
                        workspace: w,
                        kind: EnvironmentKind::Stable(w),
                        backend: if stable.contains_key(w) {
                            stable[w].backend@
                        } else {
                            ephemeral_backend
                        },
                    },
                )
            },
        }
    }

    /// A failed resolution names what was missing and lists what is known:
    /// the stable table's names for `stable.<name>`, the known workspaces
    /// for `ephemeral.<id>`.
    pub open spec fn miss_message(self, t: TokenView, r: Result<ResolvedEnvironment, EnvieError>) -> bool {
        match t {
            TokenView::StableNamed(name) => r matches Err(EnvieError::ValidationError(m)) && m@
                == stable_miss_message(name, pairs_keys(self.environment_config.stable.pairs())),
            TokenView::EphemeralById(id) => r matches Err(EnvieError::ValidationError(m)) && m@
                == ephemeral_miss_message(self.project_name@ + "-"@ + id, texts(self.available_workspaces@)),
            _ => true,
        }
    }

    fn ephemeral_at(&self, workspace: String) -> (r: ResolvedEnvironment)
        ensures
            r@ == (ResolvedView {
                workspace: workspace@,
                kind: EnvironmentKind::Ephemeral,
                backend: self.environment_config.ephemeral.backend@,
            }),
    {
        ResolvedEnvironment {
            workspace,
            environment_type: EnvironmentType::Ephemeral,
            backend: self.environment_config.ephemeral.backend.duplicate(),
        }
    }

    fn is_available(&self, workspace: &String) -> (r: bool)
        ensures
            r == holds_text(self.available_workspaces@, workspace@),
    {
        let mut i: usize = 0;
        while i < self.available_workspaces.len()
            invariant
                i <= self.available_workspaces@.len(),
                forall|j: int| 0 <= j < i ==> #[trigger] self.available_workspaces@[j]@ != workspace@,
            decreases self.available_workspaces@.len() - i,
        {
            if self.available_workspaces[i] == *workspace {
                return true;
            }
            i = i + 1;
        }
        false
    }

    /// Resolves a parsed token.
    pub fn resolve_token(&self, token: &EnvironmentToken) -> (r: Result<ResolvedEnvironment, EnvieError>)
        ensures
            match self.resolution(token@) {
                Some(v) => r matches Ok(e) && e@ == v,
                None => r matches Err(e) && e is ValidationError,
            },
            self.resolution(token@) is None ==> self.miss_message(token@, r),
    {
        match token {
            EnvironmentToken::StableNamed(name) => {
                match self.environment_config.stable.get(name.as_str()) {
                    Some(entry) => Ok(
                        ResolvedEnvironment {
                            workspace: entry.workspace.clone(),
                            environment_type: EnvironmentType::Stable(name.clone()),
                            backend: entry.backend.duplicate(),
                        },
                    ),
                    None => {
                        let known = listing(&keys_of(&self.environment_config.stable));
                        let mut msg = concat3("Stable environment '", name.as_str(), "' not found. Available: ");
                        msg.append(known.as_str());
                        Err(EnvieError::ValidationError(msg))
                    },
                }
            },
            EnvironmentToken::EphemeralCurrent => Ok(self.ephemeral_at(self.current_workspace.clone())),
            EnvironmentToken::EphemeralById(id) => {
                let workspace = concat3(self.project_name.as_str(), "-", id.as_str());
                if !self.is_available(&workspace) {
                    let known = listing(&self.available_workspaces);
                    let mut msg = concat3("Ephemeral workspace '", workspace.as_str(), "' does not exist. Available: ");
                    msg.append(known.as_str());
                    return Err(EnvieError::ValidationError(msg));
                }
                Ok(self.ephemeral_at(workspace))
            },
            EnvironmentToken::LiteralWorkspace(w) => {
                let ephemeral_prefix = concat(self.project_name.as_str(), "-");
                if starts_with(w.as_str(), ephemeral_prefix.as_str()) {
                    Ok(self.ephemeral_at(w.clone()))
                } else {
                    let backend = match self.environment_config.stable.get(w.as_str()) {
                        Some(entry) => entry.backend.duplicate(),
                        None => self.environment_config.ephemeral.backend.duplicate(),
                    };
                    Ok(
                        ResolvedEnvironment {
                            workspace: w.clone(),
                            environment_type: EnvironmentType::Stable(w.clone()),
                            backend,
                        },
                    )
                }
            },
        }
    }

    /// Resolves an environment token given as text.
    pub fn resolve_environment(&self, env_ref: &str) -> (r: Result<ResolvedEnvironment, EnvieError>)
        ensures
            match self.resolution(token_of(env_ref@)) {
                Some(v) => r matches Ok(e) && e@ == v,
                None => r matches Err(e) && e is ValidationError,
            },
            self.resolution(token_of(env_ref@)) is None ==> self.miss_message(token_of(env_ref@), r),
    {
        let token = EnvironmentToken::parse(env_ref);
        self.resolve_token(&token)
    }

    /// The storage key for the state of `module` of `service` in `resolved_env`.
    pub fn generate_state_key(&self, resolved_env: &ResolvedEnvironment, service: &str, module: &str) -> (r: String)
        ensures
            r@ == state_key(resolved_env@, service@, module@),
    {
        match &resolved_env.environment_type {
            EnvironmentType::Ephemeral => {
                let mut key = String::from_str("ephemeral/");
                key.append(resolved_env.workspace.as_str());
                key.append("/");
                key.append(service);
                key.append("/");
                key.append(module);
                key.append("/terraform.tfstate");
                key
            },
            EnvironmentType::Stable(env_name) => {
                proof {
                    reveal_strlit("{environment}");
                    reveal_strlit("{service}");
                    reveal_strlit("{module}");
                }
                let pattern = match resolved_env.backend.config.get("key_pattern") {
                    Some(p) => p.as_str(),
                    None => "stable/{environment}/{service}/{module}/terraform.tfstate",
                };
                let a = replace_all(pattern, "{environment}", env_name.as_str());
                let b = replace_all(a.as_str(), "{service}", service);
                replace_all(b.as_str(), "{module}", module)
            },
        }
    }

    /// The backend block for `module` of `service` in `resolved_env`: the
    /// backend type and every setting, with a `key` setting replaced by the
    /// computed state key.
    pub fn generate_backend_config(&self, resolved_env: &ResolvedEnvironment, service: &str, module: &str) -> (r: String)
        ensures
            r@ == backend_block(resolved_env.backend@, state_key(resolved_env@, service@, module@)),
    {
        let state_key = self.generate_state_key(resolved_env, service, module);
        let config = &resolved_env.backend.config;
        let mut out = String::from_str("terraform {\n  backend \"");
        out.append(resolved_env.backend.backend_type.as_str());
        out.append("\" {\n");
        let ghost head = out@;
        let ghost c = config.pairs();
        let mut i: usize = 0;
        assert(c.subrange(0, 0) =~= Seq::<(Seq<char>, String)>::empty());
        while i < config.len()
            invariant
                c == config.pairs(),
                i <= c.len(),
                out@ == head + setting_lines(c.subrange(0, i as int), state_key@),
            decreases c.len() - i,
        {
            let (k, v) = config.entry(i);
            out.append("    ");
            out.append(k.as_str());
            out.append(" = \"");
            if same_text(k.as_str(), "key") {
                out.append(state_key.as_str());
            } else {
                out.append(v.as_str());
            }
            out.append("\"\n");
            assert(c.subrange(0, i + 1).drop_last() =~= c.subrange(0, i as int));
            i = i + 1;
        }
        assert(c.subrange(0, c.len() as int) =~= c);
        out.append("\n  }\n}\n");
        out
    }
}

} // verus!
