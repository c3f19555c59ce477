use vstd::prelude::*;
use vstd::string::StringExecFns;
use vstd::string::StrSliceExecFns;
use crate::config::{ModuleConfig, ModuleView, ServiceConfig, ServiceView, WorkspaceConfig};
use crate::error::EnvieError;
use crate::ordered_map::{pairs_unique, OrderedMap};
use crate::paths::{file_name, file_name_of, has_parent, is_within, join_path, joined, path_has_parent, within};
use crate::text::{concat, concat3, has_prefix, starts_with, texts};

verus! {

/// A service found on disk: where it lives, its descriptor, and its modules.
#[derive(Debug, Clone)]
pub struct DiscoveredService {
    pub path: String,
    pub config: ServiceConfig,
    pub modules: Vec<DiscoveredModule>,
}

/// A module of a discovered service, with its resolved path.
#[derive(Debug, Clone)]
pub struct DiscoveredModule {
    pub path: String,
    pub config: ModuleConfig,
}

/// Services by name, and modules by `service/module`.
#[derive(Debug, Clone)]
pub struct ServiceRegistry {
    pub services: OrderedMap<DiscoveredService>,
    pub modules: OrderedMap<DiscoveredModule>,
}

/// What discovery found at one service path: the service descriptor, if it
/// could be read, and for each declared module the module-local descriptor
/// that overrides it, if there is one.
#[derive(Debug, Clone)]
pub struct ServiceSource {
    pub path: String,
    pub descriptor: Option<ServiceConfig>,
    pub module_overrides: Vec<Option<ModuleConfig>>,
}

/// The model of a discovered module.
pub struct FoundModuleView {
    pub path: Seq<char>,
    pub config: ModuleView,
}

/// The model of a discovered service.
pub struct FoundServiceView {
    pub path: Seq<char>,
    pub config: ServiceView,
    pub modules: Seq<FoundModuleView>,
}

/// The model of a registry: services by name, modules by `service/module`.
pub struct RegistryView {
    pub services: Map<Seq<char>, FoundServiceView>,
    pub modules: Map<Seq<char>, FoundModuleView>,
}

impl View for DiscoveredModule {
    type V = FoundModuleView;

    open spec fn view(&self) -> FoundModuleView {
        FoundModuleView { path: self.path@, config: self.config@ }
    }
}

impl View for DiscoveredService {
    type V = FoundServiceView;

    open spec fn view(&self) -> FoundServiceView {
        FoundServiceView {
            path: self.path@,
            config: self.config@,
            modules: self.modules@.map_values(|m: DiscoveredModule| m@),
        }
    }
}

impl View for ServiceRegistry {
    type V = RegistryView;

    open spec fn view(&self) -> RegistryView {
        RegistryView {
            services: self.services@.map_values(|s: DiscoveredService| s@),
            modules: self.modules@.map_values(|m: DiscoveredModule| m@),
        }
    }
}

/// Where a module lives: its declared path under the service, or
/// `modules/<name>` when it declares none.
pub open spec fn module_path_of(service_path: Seq<char>, m: ModuleView) -> Seq<char> {
    if m.path.len() == 0 {
        joined(joined(service_path, "modules"@), m.name)
    } else {
        joined(service_path, m.path)
    }
}

/// The registry key of module `module` of service `service`.
pub open spec fn module_key(service: Seq<char>, module: Seq<char>) -> Seq<char> {
    service + "/"@ + module
}

/// The descriptor used for the `i`-th declared module: its override if
/// there is one, else the declaration.
pub open spec fn chosen_module(config: ServiceView, overrides: Seq<Option<ModuleView>>, i: int) -> ModuleView {
    if i < overrides.len() && overrides[i] is Some {
        overrides[i]->Some_0
    } else {
        config.modules[i]
    }
}

/// The service that a readable descriptor at `path` yields.
pub open spec fn found_service(path: Seq<char>, config: ServiceView, overrides: Seq<Option<ModuleView>>) -> FoundServiceView {
    FoundServiceView {
        path,
        config,
        modules: Seq::new(
            config.modules.len(),
            |i: int|
                FoundModuleView {
                    path: module_path_of(path, config.modules[i]),
                    config: chosen_module(config, overrides, i),
                },
        ),
    }
}

/// The models of optional module descriptors.
pub open spec fn override_views(v: Seq<Option<ModuleConfig>>) -> Seq<Option<ModuleView>> {
    v.map_values(
        |o: Option<ModuleConfig>|
            match o {
                Some(m) => Some(m@),
                None => None,
            },
    )
}

/// `m` after registering the modules `mods` of service `service`, in order.
pub open spec fn with_modules(
    m: Map<Seq<char>, FoundModuleView>,
    service: Seq<char>,
    mods: Seq<FoundModuleView>,
) -> Map<Seq<char>, FoundModuleView>
    decreases mods.len(),
{
    if mods.len() == 0 {
        m
    } else {
        with_modules(m, service, mods.drop_last()).insert(
            module_key(service, mods.last().config.name),
            mods.last(),
        )
    }
}

/// `r` after registering `s`: the service under its name, each of its
/// modules under `service/module`; later registrations replace earlier ones.
pub open spec fn registered(r: RegistryView, s: FoundServiceView) -> RegistryView {
    RegistryView {
        services: r.services.insert(s.config.name, s),
        modules: with_modules(r.modules, s.config.name, s.modules),
    }
}

/// The registry that the sources yield, registered in order; sources
/// without a descriptor are passed over.
pub open spec fn discovered(sources: Seq<ServiceSource>) -> RegistryView
    decreases sources.len(),
{
    if sources.len() == 0 {
        RegistryView { services: Map::empty(), modules: Map::empty() }
    } else {
        let before = discovered(sources.drop_last());
        let s = sources.last();
        match s.descriptor {
            Some(c) => registered(before, found_service(s.path@, c@, override_views(s.module_overrides@))),
            None => before,
        }
    }
}

/// The detail of the error that reports a dependency cycle through `name`.
pub open spec fn cycle_message(name: Seq<char>) -> Seq<char> {
    "Cyclic dependency detected involving service "@ + name
}

/// The number of unvisited marks in a colouring.
pub open spec fn white_count(s: Seq<u8>) -> nat
    decreases s.len(),
{
    if s.len() == 0 {
        0
    } else {
        white_count(s.drop_last()) + if s.last() == 0 {
            1nat
        } else {
            0nat
        }
    }
}

/// The position of `v` in `order`.
pub open spec fn position_in(order: Seq<Seq<char>>, v: Seq<char>) -> int {
    choose|i: int| 0 <= i < order.len() && order[i] == v
}

proof fn lemma_white_count(s1: Seq<u8>, s2: Seq<u8>, u: int)
    requires
        s1.len() == s2.len(),
        forall|i: int| 0 <= i < s1.len() && s1[i] != 0 ==> s2[i] != 0,
        0 <= u < s1.len(),
        s1[u] == 0,
        s2[u] != 0,
    ensures
        white_count(s2) < white_count(s1),
    decreases s1.len(),
{
    lemma_white_count_mono(s1.drop_last(), s2.drop_last());
    if u < s1.len() - 1 {
        lemma_white_count(s1.drop_last(), s2.drop_last(), u);
    }
}

proof fn lemma_white_count_bound(s: Seq<u8>)
    ensures
        white_count(s) <= s.len(),
    decreases s.len(),
{
    if s.len() > 0 {
        lemma_white_count_bound(s.drop_last());
    }
}

proof fn lemma_white_count_mono(s1: Seq<u8>, s2: Seq<u8>)
    requires
        s1.len() == s2.len(),
        forall|i: int| 0 <= i < s1.len() && s1[i] != 0 ==> s2[i] != 0,
    ensures
        white_count(s2) <= white_count(s1),
    decreases s1.len(),
{
    if s1.len() > 0 {
        lemma_white_count_mono(s1.drop_last(), s2.drop_last());
    }
}

impl DiscoveredService {
    /// Where `module` of a service at `service_path` lives.
    pub fn module_location(service_path: &str, module: &ModuleConfig) -> (r: String)
        ensures
            r@ == module_path_of(service_path@, module@),
    {
        if module.path.as_str().unicode_len() == 0 {
            let base = join_path(service_path, "modules");
            join_path(base.as_str(), module.name.as_str())
        } else {
            join_path(service_path, module.path.as_str())
        }
    }

    /// The service that a descriptor at `path` yields, with each module's
    /// path resolved and its override, where there is one, in place of its
    /// declaration.
    pub fn from_descriptor(path: &str, config: &ServiceConfig, module_overrides: &Vec<Option<ModuleConfig>>) -> (r: Self)
        ensures
            r@ == found_service(path@, config@, override_views(module_overrides@)),
    {
        let ghost ov = override_views(module_overrides@);
        let mut modules: Vec<DiscoveredModule> = Vec::new();
        let mut i: usize = 0;
        while i < config.modules.len()
            invariant
                i <= config.modules@.len(),
                ov == override_views(module_overrides@),
                modules@.len() == i,
                forall|j: int| 0 <= j < i ==> (#[trigger] modules@[j])@ == (FoundModuleView {
                    path: module_path_of(path@, config@.modules[j]),
                    config: chosen_module(config@, ov, j),
                }),
            decreases config.modules@.len() - i,
        {
            let declared = &config.modules[i];
            let chosen = if i < module_overrides.len() {
                match &module_overrides[i] {
                    Some(m) => m.duplicate(),
                    None => declared.duplicate(),
                }
            } else {
                declared.duplicate()
            };
            modules.push(DiscoveredModule { path: DiscoveredService::module_location(path, declared), config: chosen });
            i = i + 1;
        }
        let r = DiscoveredService { path: String::from_str(path), config: config.duplicate(), modules };
        assert(r@.modules =~= found_service(path@, config@, ov).modules);
        r
    }
}

impl ServiceRegistry {
    /// Whether a service is registered under `a`.
    pub open spec fn has_service(self, a: Seq<char>) -> bool {
        self.services@.contains_key(a)
    }

    /// The service-level dependency tokens of service `a`.
    pub open spec fn dependency_tokens(self, a: Seq<char>) -> Seq<String> {
        self.services@[a].config.depends@
    }

    /// The name that token `tok` of a service at `path` names; `None` where
    /// it names nothing. A token `../...` names the registered service whose
    /// name is the token's file name (trailing `/` and `.` passed over; none
    /// after `..`); any other token names itself.
    pub open spec fn target_at(self, path: Seq<char>, tok: Seq<char>) -> Option<Seq<char>> {
        if has_prefix(tok, "../"@) {
            match file_name_of(tok) {
                Some(name) => if has_parent(path) && self.has_service(name) {
                    Some(name)
                } else {
                    None
                },
                None => None,
            }
        } else {
            Some(tok)
        }
    }

    /// The name that token `tok` of service `a` names.
    pub open spec fn dep_target(self, a: Seq<char>, tok: Seq<char>) -> Option<Seq<char>> {
        self.target_at(self.services@[a].path@, tok)
    }

    /// Registered service `a` depends directly on registered service `b`.
    pub open spec fn edge(self, a: Seq<char>, b: Seq<char>) -> bool {
        &&& self.has_service(a)
        &&& self.has_service(b)
        &&& exists|j: int|
            0 <= j < self.dependency_tokens(a).len() && #[trigger] self.dep_target(
                a,
                self.dependency_tokens(a)[j]@,
            ) == Some(b)
    }

    /// Registered service `a` has a dependency token that names nothing.
    pub open spec fn broken(self, a: Seq<char>) -> bool {
        &&& self.has_service(a)
        &&& exists|j: int|
            0 <= j < self.dependency_tokens(a).len() && (#[trigger] self.dep_target(
                a,
                self.dependency_tokens(a)[j]@,
            )) is None
    }

    /// `p` is a walk along dependencies between registered services.
    pub open spec fn is_walk(self, p: Seq<Seq<char>>) -> bool {
        &&& p.len() >= 1
        &&& self.has_service(p[0])
        &&& forall|i: int| 0 <= i < p.len() - 1 ==> #[trigger] self.edge(p[i], p[i + 1])
    }

    /// `b` is `a` or one of its transitive dependencies.
    pub open spec fn reaches(self, a: Seq<char>, b: Seq<char>) -> bool {
        exists|p: Seq<Seq<char>>| #[trigger] self.is_walk(p) && p[0] == a && p.last() == b
    }

    /// `a` is one of its own transitive dependencies.
    pub open spec fn on_cycle(self, a: Seq<char>) -> bool {
        exists|p: Seq<Seq<char>>|
            #[trigger] self.is_walk(p) && p.len() >= 2 && p[0] == a && p.last() == a
    }

    /// No service that `root` reaches has an unresolvable token or lies on a cycle.
    pub open spec fn resolvable_from(self, root: Seq<char>) -> bool {
        forall|v: Seq<char>| #[trigger]
            self.reaches(root, v) ==> !self.broken(v) && !self.on_cycle(v)
    }

    /// `order` lists `root` and its transitive dependencies, each once, every
    /// dependency before its dependents, `root` last.
    pub open spec fn is_deployment_order(self, root: Seq<char>, order: Seq<Seq<char>>) -> bool {
        &&& order.len() > 0
        &&& order.last() == root
        &&& forall|i: int, j: int|
            0 <= i < order.len() && 0 <= j < order.len() && i != j ==> order[i] != order[j]
        &&& forall|v: Seq<char>|
            #![trigger order.contains(v)]
            #![trigger self.reaches(root, v)]
            order.contains(v) <==> self.reaches(root, v)
        &&& forall|i: int, j: int|
            0 <= i < order.len() && 0 <= j < order.len() && #[trigger] self.edge(order[i], order[j])
                ==> j < i
    }

    /// Depth-first visit of `u`, given the services finished so far
    /// (`done`, in finishing order) and those in progress (`stack`): each
    /// dependency token of `u`, in declared order, that names a registered
    /// service neither finished nor in progress is visited in turn; then `u`
    /// finishes. `None` where a token names nothing, where a dependency is in
    /// progress (a cycle), or where the search goes deeper than `depth`.
    pub open spec fn visit_from(
        self,
        u: Seq<char>,
        done: Seq<Seq<char>>,
        stack: Seq<Seq<char>>,
        depth: nat,
    ) -> Option<Seq<Seq<char>>>
        decreases depth, 0int,
    {
        if depth == 0 {
            None
        } else {
            match self.visit_tokens(u, 0, done, stack.push(u), (depth - 1) as nat) {
                Some(d) => Some(d.push(u)),
                None => None,
            }
        }
    }

    /// The dependency tokens of `u` from position `j` on, visited in order.
    pub open spec fn visit_tokens(
        self,
        u: Seq<char>,
        j: int,
        done: Seq<Seq<char>>,
        stack: Seq<Seq<char>>,
        depth: nat,
    ) -> Option<Seq<Seq<char>>>
        decreases depth, self.dependency_tokens(u).len() - j + 1,
    {
        if j < 0 || j >= self.dependency_tokens(u).len() {
            Some(done)
        } else {
            match self.dep_target(u, self.dependency_tokens(u)[j]@) {
                None => None,
                Some(d) => if !self.has_service(d) || done.contains(d) {
                    self.visit_tokens(u, j + 1, done, stack, depth)
                } else if stack.contains(d) {
                    None
                } else {
                    match self.visit_from(d, done, stack, depth) {
                        Some(d2) => self.visit_tokens(u, j + 1, d2, stack, depth),
                        None => None,
                    }
                },
            }
        }
    }

    /// The finishing order of a depth-first search from `root` (post-order:
    /// dependencies in declared order, finished services skipped), at most
    /// as deep as there are services.
    pub open spec fn depth_first_order(self, root: Seq<char>) -> Option<Seq<Seq<char>>> {
        self.visit_from(root, Seq::empty(), Seq::empty(), self.services.pairs().len())
    }

    proof fn lemma_visit_unfold(self, u: Seq<char>, done: Seq<Seq<char>>, stack: Seq<Seq<char>>, depth: nat)
        requires
            depth >= 1,
        ensures
            self.visit_from(u, done, stack, depth) == match self.visit_tokens(
                u,
                0,
                done,
                stack.push(u),
                (depth - 1) as nat,
            ) {
                Some(d) => Some(d.push(u)),
                None => None,
            },
    {
    }

    proof fn lemma_tokens_end(self, u: Seq<char>, j: int, done: Seq<Seq<char>>, stack: Seq<Seq<char>>, depth: nat)
        requires
            j >= self.dependency_tokens(u).len(),
        ensures
            self.visit_tokens(u, j, done, stack, depth) == Some(done),
    {
    }

    proof fn lemma_tokens_step(self, u: Seq<char>, j: int, done: Seq<Seq<char>>, stack: Seq<Seq<char>>, depth: nat)
        requires
            0 <= j < self.dependency_tokens(u).len(),
        ensures
            self.visit_tokens(u, j, done, stack, depth) == match self.dep_target(
                u,
                self.dependency_tokens(u)[j]@,
            ) {
                None => None,
                Some(d) => if !self.has_service(d) || done.contains(d) {
                    self.visit_tokens(u, j + 1, done, stack, depth)
                } else if stack.contains(d) {
                    None
                } else {
                    match self.visit_from(d, done, stack, depth) {
                        Some(d2) => self.visit_tokens(u, j + 1, d2, stack, depth),
                        None => None,
                    }
                },
            },
    {
    }

    spec fn key(self, i: int) -> Seq<char> {
        self.services.pairs()[i].0
    }

    spec fn dfs_inv(
        self,
        root: Seq<char>,
        state: Seq<u8>,
        order: Seq<Seq<char>>,
        stack: Seq<Seq<char>>,
    ) -> bool {
        let n = self.services.pairs().len();
        &&& pairs_unique(self.services.pairs())
        &&& state.len() == n
        &&& forall|i: int| 0 <= i < n ==> #[trigger] state[i] <= 2
        &&& forall|i: int| 0 <= i < n ==> (#[trigger] state[i] == 1) == stack.contains(self.key(i))
        &&& forall|i: int| 0 <= i < n ==> (#[trigger] state[i] == 2) == order.contains(self.key(i))
        &&& forall|i: int, j: int|
            0 <= i < order.len() && 0 <= j < order.len() && i != j ==> order[i] != order[j]
        &&& forall|i: int|
            0 <= i < order.len() ==> self.has_service(#[trigger] order[i]) && !self.broken(order[i])
                && self.reaches(root, order[i])
        &&& forall|i: int, b: Seq<char>|
            0 <= i < order.len() && #[trigger] self.edge(order[i], b) ==> order.contains(b)
        &&& forall|i: int, j: int|
            0 <= i < order.len() && 0 <= j < order.len() && #[trigger] self.edge(order[i], order[j])
                ==> j < i
        &&& stack.len() > 0 ==> self.is_walk(stack) && stack[0] == root
    }

    proof fn lemma_key_registered(self, i: int)
        requires
            pairs_unique(self.services.pairs()),
            0 <= i < self.services.pairs().len(),
        ensures
            self.has_service(self.key(i)),
            self.services@[self.key(i)] == self.services.pairs()[i].1,
    {
        crate::ordered_map::lemma_pairs_map_at(self.services.pairs(), i);
    }

    proof fn lemma_walk_prefix(self, p: Seq<Seq<char>>, k: int)
        requires
            self.is_walk(p),
            0 < k <= p.len(),
        ensures
            self.is_walk(p.subrange(0, k)),
    {
        let q = p.subrange(0, k);
        assert forall|i: int| 0 <= i < q.len() - 1 implies #[trigger] self.edge(q[i], q[i + 1]) by {
            assert(self.edge(p[i], p[i + 1]));
        }
    }

    proof fn lemma_walk_extend(self, p: Seq<Seq<char>>, x: Seq<char>)
        requires
            self.is_walk(p),
            self.edge(p.last(), x),
        ensures
            self.is_walk(p.push(x)),
    {
        let q = p.push(x);
        assert forall|i: int| 0 <= i < q.len() - 1 implies #[trigger] self.edge(q[i], q[i + 1]) by {
            if i < p.len() - 1 {
                assert(self.edge(p[i], p[i + 1]));
            }
        }
    }

    /// In a set closed under dependencies, a walk that starts inside stays inside.
    proof fn lemma_closed_walk(self, order: Seq<Seq<char>>, p: Seq<Seq<char>>, k: int)
        requires
            forall|i: int, b: Seq<char>|
                0 <= i < order.len() && #[trigger] self.edge(order[i], b) ==> order.contains(b),
            self.is_walk(p),
            order.contains(p[0]),
            0 <= k < p.len(),
        ensures
            order.contains(p[k]),
        decreases k,
    {
        if k > 0 {
            self.lemma_closed_walk(order, p, k - 1);
            let i = choose|i: int| 0 <= i < order.len() && order[i] == p[k - 1];
            let m = k - 1;
            assert(self.edge(p[m], p[m + 1]));
            assert(self.edge(order[i], p[k]));
        }
    }

    /// Along a walk inside a dependency-first order, positions strictly fall.
    proof fn lemma_walk_descends(self, order: Seq<Seq<char>>, p: Seq<Seq<char>>, k: int)
        requires
            forall|i: int, j: int|
                0 <= i < order.len() && 0 <= j < order.len() && #[trigger] self.edge(order[i], order[j])
                    ==> j < i,
            forall|i: int| 0 <= i < p.len() ==> order.contains(#[trigger] p[i]),
            self.is_walk(p),
            1 <= k < p.len(),
        ensures
            position_in(order, p[k]) < position_in(order, p[0]),
        decreases k,
    {
        assert(order.contains(p[k]));
        assert(order.contains(p[k - 1]));
        let a = position_in(order, p[k - 1]);
        let b = position_in(order, p[k]);
        let m = k - 1;
        assert(self.edge(p[m], p[m + 1]));
        assert(self.edge(order[a], order[b]));
        if k > 1 {
            self.lemma_walk_descends(order, p, k - 1);
        }
    }

    /// The name that dependency token `dep_path` of a service at
    /// `current_path` names.
    fn resolve_dependency_name(&self, dep_path: &str, current_path: &str) -> (r: Result<String, EnvieError>)
        ensures
            match self.target_at(current_path@, dep_path@) {
                Some(d) => r matches Ok(s) && s@ == d,
                None => r matches Err(e) && e is DependencyError,
            },
    {
        proof {
            reveal_strlit("../");
        }
        if starts_with(dep_path, "../") {
            if !path_has_parent(current_path) {
                return Err(EnvieError::DependencyError(String::from_str("Invalid relative path")));
            }
            match file_name(dep_path) {
                None => Err(EnvieError::DependencyError(String::from_str("Invalid service name in path"))),
                Some(name) => {
                    if self.services.contains_key(name.as_str()) {
                        Ok(name)
                    } else {
                        let mut msg = concat3("Dependency '", dep_path, "' not found - service '");
                        msg.append(name.as_str());
                        msg.append("' does not exist");
                        Err(EnvieError::DependencyError(msg))
                    }
                },
            }
        } else {
            Ok(String::from_str(dep_path))
        }
    }

    #[verifier::rlimit(80)]
    fn visit(
        &self,
        u: usize,
        state: &mut Vec<u8>,
        order: &mut Vec<String>,
        Ghost(root): Ghost<Seq<char>>,
        Ghost(stack): Ghost<Seq<Seq<char>>>,
        Ghost(depth): Ghost<nat>,
    ) -> (r: Result<(), EnvieError>)
        requires
            white_count(old(state)@) <= depth,
            u < self.services.pairs().len(),
            self.dfs_inv(root, old(state)@, texts(old(order)@), stack),
            old(state)@[u as int] == 0,
            self.is_walk(stack.push(self.key(u as int))),
            stack.push(self.key(u as int))[0] == root,
        ensures
            r is Ok ==> self.dfs_inv(root, final(state)@, texts(final(order)@), stack),
            r is Ok ==> white_count(final(state)@) < white_count(old(state)@),
            r is Ok ==> forall|i: int|
                0 <= i < old(state)@.len() && #[trigger] old(state)@[i] != 0 ==> final(state)@[i] == old(state)@[i],
            r is Ok ==> final(state)@[u as int] == 2,
            r is Ok ==> final(order)@.len() > old(order)@.len(),
            r is Ok ==> texts(final(order)@).subrange(0, old(order)@.len() as int) == texts(old(order)@),
            r is Ok ==> texts(final(order)@).last() == self.key(u as int),
            r is Ok ==> self.visit_from(self.key(u as int), texts(old(order)@), stack, depth) == Some(
                texts(final(order)@),
            ),
            r is Err ==> self.visit_from(self.key(u as int), texts(old(order)@), stack, depth) is None,
            r matches Err(e) ==> e is DependencyError && exists|v: Seq<char>|
                #[trigger] self.reaches(root, v) && (self.broken(v) || (self.on_cycle(v) && e.detail()
                    == cycle_message(v))),
        decreases white_count(old(state)@),
    {
        let ghost n = self.services.pairs().len();
        let ghost entry_state = state@;
        let ghost entry_order = texts(order@);
        let ghost ku = self.key(u as int);
        let ghost inner = stack.push(ku);
        proof {
            self.lemma_key_registered(u as int);
            assert(!stack.contains(ku));
            assert(!entry_order.contains(ku));
        }
        state.set(u, 1);
        proof {
            assert forall|i: int| 0 <= i < n implies (#[trigger] state@[i] == 1) == inner.contains(self.key(i)) by {
                if i != u {
                    assert(self.key(i) != ku);
                    if stack.contains(self.key(i)) {
                        let k = choose|k: int| 0 <= k < stack.len() && stack[k] == self.key(i);
                        assert(inner[k] == self.key(i));
                    }
                    if inner.contains(self.key(i)) {
                        let k = choose|k: int| 0 <= k < inner.len() && inner[k] == self.key(i);
                        assert(stack[k] == self.key(i));
                    }
                } else {
                    assert(inner[stack.len() as int] == ku);
                }
            }
            assert(white_count(state@) < white_count(entry_state)) by {
                lemma_white_count(entry_state, state@, u as int);
            }
        }
        let ghost d1: nat = (depth - 1) as nat;
        let (uk, svc) = self.services.entry(u);
        let deps = &svc.config.depends;
        let mut j: usize = 0;
        while j < deps.len()
            invariant
                n == self.services.pairs().len(),
                u < n,
                ku == self.key(u as int),
                uk@ == ku,
                *svc == self.services@[ku],
                *deps == svc.config.depends,
                self.has_service(ku),
                inner == stack.push(ku),
                self.is_walk(inner),
                inner[0] == root,
                !stack.contains(ku),
                j <= deps@.len(),
                entry_state.len() == n,
                entry_state == old(state)@,
                entry_order == texts(old(order)@),
                white_count(entry_state) <= depth,
                depth >= 1,
                d1 == depth - 1,
                self.visit_tokens(ku, 0, entry_order, inner, d1) == self.visit_tokens(
                    ku,
                    j as int,
                    texts(order@),
                    inner,
                    d1,
                ),
                self.dfs_inv(root, state@, texts(order@), inner),
                state@[u as int] == 1,
                white_count(state@) < white_count(entry_state),
                forall|i: int| 0 <= i < n && #[trigger] entry_state[i] != 0 ==> state@[i] == entry_state[i]
                    || (i == u && state@[i] == 1),
                forall|i: int| 0 <= i < n && #[trigger] entry_state[i] == 2 ==> state@[i] == 2,
                order@.len() >= entry_order.len(),
                texts(order@).subrange(0, entry_order.len() as int) == entry_order,
                forall|k: int|
                    0 <= k < j ==> match #[trigger] self.dep_target(ku, deps@[k]@) {
                        Some(b) => self.has_service(b) ==> texts(order@).contains(b),
                        None => false,
                    },
            decreases deps@.len() - j,
        {
            let tok = &deps[j];
            let ghost before_order = texts(order@);
            proof {
                assert(self.dependency_tokens(ku)[j as int] == deps@[j as int]);
                self.lemma_tokens_step(ku, j as int, before_order, inner, d1);
                self.lemma_visit_unfold(ku, entry_order, stack, depth);
            }
            match self.resolve_dependency_name(tok.as_str(), svc.path.as_str()) {
                Err(e) => {
                    proof {
                        assert(self.dep_target(ku, self.dependency_tokens(ku)[j as int]@) is None);
                        assert(self.broken(ku));
                        assert(inner.last() == ku);
                        assert(self.reaches(root, ku));
                        assert(self.visit_tokens(ku, j as int, before_order, inner, d1) is None);
                    }
                    return Err(e);
                },
                Ok(d) => {
                    match self.services.index_of(d.as_str()) {
                        None => {
                            proof {
                                assert(self.visit_tokens(ku, j as int, before_order, inner, d1)
                                    == self.visit_tokens(ku, j + 1, before_order, inner, d1));
                            }
                        },
                        Some(di) => {
                            proof {
                                self.lemma_key_registered(di as int);
                                assert(self.dep_target(ku, self.dependency_tokens(ku)[j as int]@) == Some(d@));
                                assert(self.edge(ku, d@));
                            }
                            if state[di] == 1 {
                                proof {
                                    let kd = self.key(di as int);
                                    assert(inner.contains(kd));
                                    let k = choose|k: int| 0 <= k < inner.len() && inner[k] == kd;
                                    let c = inner.subrange(k, inner.len() as int).push(kd);
                                    assert(self.is_walk(c)) by {
                                        assert forall|t: int| 0 <= t < c.len() - 1 implies #[trigger] self.edge(c[t], c[t + 1]) by {
                                            if t < c.len() - 2 {
                                                assert(self.edge(inner[k + t], inner[k + t + 1]));
                                            } else {
                                                assert(c[t] == ku);
                                            }
                                        }
                                    }
                                    self.lemma_walk_prefix(inner, k + 1);
                                    let w = inner.subrange(0, k + 1);
                                    assert(w.last() == kd);
                                    assert(self.reaches(root, kd));
                                    assert(self.on_cycle(kd));
                                    assert(!before_order.contains(kd));
                                    assert(self.visit_tokens(ku, j as int, before_order, inner, d1) is None);
                                    assert(self.visit_from(ku, entry_order, stack, depth) is None);
                                }
                                let msg = concat("Cyclic dependency detected involving service ", d.as_str());
                                return Err(EnvieError::DependencyError(msg));
                            } else if state[di] == 0 {
                                proof {
                                    self.lemma_walk_extend(inner, d@);
                                }
                                let ghost pre_state = state@;
                                let ghost pre_order = texts(order@);
                                proof {
                                    assert(!before_order.contains(d@));
                                    assert(!inner.contains(d@));
                                }
                                let res = self.visit(di, state, order, Ghost(root), Ghost(inner), Ghost(d1));
                                match res {
                                    Err(e) => {
                                        proof {
                                            assert(self.visit_tokens(ku, j as int, before_order, inner, d1) is None);
                                        }
                                        return Err(e);
                                    },
                                    Ok(()) => {},
                                }
                                proof {
                                    let now = texts(order@);
                                    assert forall|x: Seq<char>| pre_order.contains(x) implies now.contains(x) by {
                                        let i = choose|i: int| 0 <= i < pre_order.len() && pre_order[i] == x;
                                        assert(now.subrange(0, pre_order.len() as int)[i] == x);
                                    }
                                    assert(now.last() == d@);
                                    assert(now[now.len() - 1] == d@);
                                    assert forall|i: int| 0 <= i < entry_order.len() implies now[i] == entry_order[i] by {
                                        assert(now.subrange(0, pre_order.len() as int)[i] == pre_order[i]);
                                        assert(pre_order.subrange(0, entry_order.len() as int)[i] == entry_order[i]);
                                    }
                                    assert(now.subrange(0, entry_order.len() as int) =~= entry_order);
                                    assert(self.visit_tokens(ku, j as int, before_order, inner, d1)
                                        == self.visit_tokens(ku, j + 1, now, inner, d1));
                                }
                            } else {
                                proof {
                                    assert(state@[di as int] == 2);
                                    assert(before_order.contains(d@));
                                    assert(self.visit_tokens(ku, j as int, before_order, inner, d1)
                                        == self.visit_tokens(ku, j + 1, before_order, inner, d1));
                                }
                            }
                        },
                    }
                },
            }
            proof {
                let now = texts(order@);
                assert forall|k: int| 0 <= k <= j implies match #[trigger] self.dep_target(ku, deps@[k]@) {
                    Some(b) => self.has_service(b) ==> now.contains(b),
                    None => false,
                } by {
                    if k < j {
                        match self.dep_target(ku, deps@[k]@) {
                            Some(b) => {
                                if self.has_service(b) {
                                    assert(before_order.contains(b));
                                    let i = choose|i: int| 0 <= i < before_order.len() && before_order[i] == b;
                                    assert(now.len() >= before_order.len());
                                }
                            },
                            None => {},
                        }
                    }
                }
            }
            j = j + 1;
        }
        let ghost mid_state = state@;
        let ghost mid_order = texts(order@);
        proof {
            self.lemma_tokens_end(ku, j as int, mid_order, inner, d1);
            self.lemma_visit_unfold(ku, entry_order, stack, depth);
        }
        state.set(u, 2);
        order.push(uk.clone());
        proof {
            let now = texts(order@);
            assert(now =~= mid_order.push(ku));
            assert(self.visit_from(ku, entry_order, stack, depth) == Some(now));
            assert(!mid_order.contains(ku));
            assert(self.reaches(root, ku)) by {
                assert(inner.last() == ku);
            }
            assert(!self.broken(ku)) by {
                if self.broken(ku) {
                    let k = choose|k: int| 0 <= k < self.dependency_tokens(ku).len() && (#[trigger] self.dep_target(ku, self.dependency_tokens(ku)[k]@)) is None;
                    assert(self.dep_target(ku, deps@[k]@) is None);
                }
            }
            assert forall|b: Seq<char>| #[trigger] self.edge(ku, b) implies mid_order.contains(b) by {
                let k = choose|k: int| 0 <= k < self.dependency_tokens(ku).len() && #[trigger] self.dep_target(ku, self.dependency_tokens(ku)[k]@) == Some(b);
                assert(self.dep_target(ku, deps@[k]@) == Some(b));
            }
            assert forall|x: Seq<char>| now.contains(x) == (mid_order.contains(x) || x == ku) by {
                if mid_order.contains(x) {
                    let i = choose|i: int| 0 <= i < mid_order.len() && mid_order[i] == x;
                    assert(now[i] == x);
                }
                if x == ku {
                    assert(now[mid_order.len() as int] == x);
                }
                if now.contains(x) {
                    let i = choose|i: int| 0 <= i < now.len() && now[i] == x;
                    if i < mid_order.len() {
                        assert(mid_order[i] == x);
                    }
                }
            }
            assert forall|i: int| 0 <= i < n implies (#[trigger] state@[i] == 1) == stack.contains(self.key(i)) by {
                if i != u {
                    assert(self.key(i) != ku);
                    assert(mid_state[i] == state@[i]);
                    if stack.contains(self.key(i)) {
                        let k = choose|k: int| 0 <= k < stack.len() && stack[k] == self.key(i);
                        assert(inner[k] == self.key(i));
                    }
                    if inner.contains(self.key(i)) {
                        let k = choose|k: int| 0 <= k < inner.len() && inner[k] == self.key(i);
                        assert(k < stack.len());
                        assert(stack[k] == self.key(i));
                    }
                }
            }
            assert forall|i: int| 0 <= i < n implies (#[trigger] state@[i] == 2) == now.contains(self.key(i)) by {
                if i != u {
                    assert(self.key(i) != ku);
                    assert(mid_state[i] == state@[i]);
                }
            }
            assert forall|i: int, j2: int| 0 <= i < now.len() && 0 <= j2 < now.len() && i != j2 implies now[i] != now[j2] by {
                if i < mid_order.len() && j2 < mid_order.len() {
                    assert(now[i] == mid_order[i]);
                    assert(now[j2] == mid_order[j2]);
                } else if i < mid_order.len() {
                    assert(now[i] == mid_order[i]);
                } else if j2 < mid_order.len() {
                    assert(now[j2] == mid_order[j2]);
                }
            }
            assert forall|i: int| 0 <= i < now.len() implies self.has_service(#[trigger] now[i]) && !self.broken(now[i])
                && self.reaches(root, now[i]) by {
                if i < mid_order.len() {
                    assert(now[i] == mid_order[i]);
                }
            }
            assert forall|i: int, b: Seq<char>| 0 <= i < now.len() && #[trigger] self.edge(now[i], b) implies now.contains(b) by {
                if i < mid_order.len() {
                    assert(now[i] == mid_order[i]);
                    assert(self.edge(mid_order[i], b));
                }
            }
            assert forall|i: int, j2: int| 0 <= i < now.len() && 0 <= j2 < now.len() && #[trigger] self.edge(now[i], now[j2]) implies j2 < i by {
                if i < mid_order.len() && j2 < mid_order.len() {
                    assert(now[i] == mid_order[i]);
                    assert(now[j2] == mid_order[j2]);
                } else if i < mid_order.len() {
                    assert(now[i] == mid_order[i]);
                    assert(self.edge(mid_order[i], ku));
                    assert(mid_order.contains(ku));
                } else if j2 == i {
                    assert(self.edge(ku, ku));
                    assert(mid_order.contains(ku));
                }
            }
            if stack.len() > 0 {
                self.lemma_walk_prefix(inner, stack.len() as int);
                assert(inner.subrange(0, stack.len() as int) =~= stack);
            }
            assert(self.dfs_inv(root, state@, now, stack));
            assert(white_count(state@) < white_count(entry_state)) by {
                lemma_white_count(entry_state, state@, u as int);
            }
            assert(now.subrange(0, entry_order.len() as int) =~= entry_order) by {
                assert forall|i: int| 0 <= i < entry_order.len() implies now[i] == entry_order[i] by {
                    assert(mid_order.subrange(0, entry_order.len() as int)[i] == entry_order[i]);
                }
            }
        }
        Ok(())
    }

    /// The service at position `i` of the registration order.
    pub open spec fn service_at(self, i: int) -> DiscoveredService {
        self.services.pairs()[i].1
    }

    /// The service at position `i` is the one whose path is the longest of
    /// those that are `p` or an ancestor of it; among equally long ones, the
    /// first registered.
    pub open spec fn best_match(self, p: Seq<char>, i: int) -> bool {
        let n = self.services.pairs().len();
        &&& 0 <= i < n
        &&& within(p, self.service_at(i).path@)
        &&& forall|j: int|
            0 <= j < n && within(p, #[trigger] self.service_at(j).path@) ==> self.service_at(j).path@.len()
                < self.service_at(i).path@.len() || (self.service_at(j).path@.len()
                == self.service_at(i).path@.len() && i <= j)
    }

    /// A registry with no services and no modules.
    pub fn new() -> (r: Self)
        ensures
            r@ == (RegistryView { services: Map::empty(), modules: Map::empty() }),
    {
        let r = ServiceRegistry { services: OrderedMap::new(), modules: OrderedMap::new() };
        assert(r@.services =~= Map::<Seq<char>, FoundServiceView>::empty());
        assert(r@.modules =~= Map::<Seq<char>, FoundModuleView>::empty());
        r
    }

    /// Adds `service` under its name and each of its modules under
    /// `service/module`, replacing entries of the same names.
    pub fn register(&mut self, service: DiscoveredService)
        ensures
            final(self)@ == registered(old(self)@, service@),
    {
        let name = service.config.name.clone();
        let ghost mods = service@.modules;
        let ghost start = old(self)@;
        let mut i: usize = 0;
        assert(mods.subrange(0, 0) =~= Seq::<FoundModuleView>::empty());
        while i < service.modules.len()
            invariant
                i <= service.modules@.len(),
                mods == service@.modules,
                name@ == service.config.name@,
                self.services == old(self).services,
                self@.modules == with_modules(start.modules, name@, mods.subrange(0, i as int)),
            decreases service.modules@.len() - i,
        {
            let m = &service.modules[i];
            let key = concat3(name.as_str(), "/", m.config.name.as_str());
            let entry = DiscoveredModule { path: m.path.clone(), config: m.config.duplicate() };
            let ghost before = self.modules@;
            self.modules.insert(key, entry);
            proof {
                assert(mods.subrange(0, i + 1).drop_last() =~= mods.subrange(0, i as int));
                assert(mods[i as int] == m@);
                assert(self.modules@.map_values(|d: DiscoveredModule| d@) =~= before.map_values(
                    |d: DiscoveredModule| d@,
                ).insert(key@, entry@));
            }
            i = i + 1;
        }
        assert(mods.subrange(0, mods.len() as int) =~= mods);
        let ghost before = self.services@;
        self.services.insert(name, service);
        assert(self.services@.map_values(|d: DiscoveredService| d@) =~= before.map_values(
            |d: DiscoveredService| d@,
        ).insert(service.config.name@, service@));
    }

    /// Builds the registry from what discovery found at each service path.
    /// With an explicit manifest (`explicit`), a path whose descriptor could
    /// not be read is a configuration error; otherwise it is passed over.
    pub fn discover_from_path(explicit: bool, sources: &Vec<ServiceSource>) -> (r: Result<Self, EnvieError>)
        ensures
            r is Err <==> explicit && exists|i: int|
                0 <= i < sources@.len() && (#[trigger] sources@[i]).descriptor is None,
            r matches Err(e) ==> e is ConfigError,
            r matches Ok(reg) ==> reg@ == discovered(sources@),
    {
        let mut reg = ServiceRegistry::new();
        let mut i: usize = 0;
        assert(sources@.subrange(0, 0) =~= Seq::<ServiceSource>::empty());
        while i < sources.len()
            invariant
                i <= sources@.len(),
                reg@ == discovered(sources@.subrange(0, i as int)),
                explicit ==> forall|j: int| 0 <= j < i ==> (#[trigger] sources@[j]).descriptor is Some,
            decreases sources@.len() - i,
        {
            let source = &sources[i];
            proof {
                assert(sources@.subrange(0, i + 1).drop_last() =~= sources@.subrange(0, i as int));
                assert(sources@.subrange(0, i + 1).last() == sources@[i as int]);
            }
            match &source.descriptor {
                None => {
                    if explicit {
                        let msg = concat("No .envie file found in ", source.path.as_str());
                        return Err(EnvieError::ConfigError(msg));
                    }
                },
                Some(config) => {
                    let service = DiscoveredService::from_descriptor(
                        source.path.as_str(),
                        config,
                        &source.module_overrides,
                    );
                    reg.register(service);
                },
            }
            i = i + 1;
        }
        assert(sources@.subrange(0, sources@.len() as int) =~= sources@);
        Ok(reg)
    }

    /// The service paths that a manifest names, each taken relative to `root`.
    pub fn manifest_service_paths(root: &str, manifest: &WorkspaceConfig) -> (r: Vec<String>)
        ensures
            r@.len() == manifest.services@.len(),
            forall|i: int| 0 <= i < r@.len() ==> #[trigger] r@[i]@ == joined(root@, manifest.services@[i].path@),
    {
        let mut r: Vec<String> = Vec::new();
        let mut i: usize = 0;
        while i < manifest.services.len()
            invariant
                i <= manifest.services@.len(),
                r@.len() == i,
                forall|j: int| 0 <= j < i ==> #[trigger] r@[j]@ == joined(root@, manifest.services@[j].path@),
            decreases manifest.services@.len() - i,
        {
            r.push(join_path(root, manifest.services[i].path.as_str()));
            i = i + 1;
        }
        r
    }

    /// The service that `path` lies in: the registered service whose path is
    /// the longest of those that are `path` or an ancestor of it, the first
    /// registered among equally long ones.
    pub fn find_service_by_path(&self, path: &str) -> (r: Option<&DiscoveredService>)
        ensures
            match r {
                Some(s) => exists|i: int| self.best_match(path@, i) && *s == self.service_at(i),
                None => forall|i: int|
                    0 <= i < self.services.pairs().len() ==> !within(path@, #[trigger] self.service_at(i).path@),
            },
    {
        let n = self.services.len();
        let mut best: Option<usize> = None;
        let mut best_len: usize = 0;
        let mut i: usize = 0;
        while i < n
            invariant
                n == self.services.pairs().len(),
                i <= n,
                match best {
                    None => forall|j: int| 0 <= j < i ==> !within(path@, #[trigger] self.service_at(j).path@),
                    Some(b) => {
                        &&& b < i
                        &&& within(path@, self.service_at(b as int).path@)
                        &&& best_len == self.service_at(b as int).path@.len()
                        &&& forall|j: int|
                            0 <= j < i && within(path@, #[trigger] self.service_at(j).path@)
                                ==> self.service_at(j).path@.len() < best_len || (
                            self.service_at(j).path@.len() == best_len && b <= j)
                    },
                },
            decreases n - i,
        {
            let (_, svc) = self.services.entry(i);
            if is_within(path, svc.path.as_str()) {
                let l = svc.path.as_str().unicode_len();
                match best {
                    None => {
                        best = Some(i);
                        best_len = l;
                    },
                    Some(_) => {
                        if l > best_len {
                            best = Some(i);
                            best_len = l;
                        }
                    },
                }
            }
            i = i + 1;
        }
        match best {
            None => None,
            Some(b) => {
                let (_, svc) = self.services.entry(b);
                Some(svc)
            },
        }
    }

    /// The first registered module whose path is exactly `path`.
    pub fn find_module_by_path(&self, path: &str) -> (r: Option<&DiscoveredModule>)
        ensures
            match r {
                Some(m) => exists|i: int|
                    0 <= i < self.modules.pairs().len() && *m == self.modules.pairs()[i].1 && m.path@ == path@
                        && forall|j: int| 0 <= j < i ==> (#[trigger] self.modules.pairs()[j]).1.path@ != path@,
                None => forall|i: int|
                    0 <= i < self.modules.pairs().len() ==> (#[trigger] self.modules.pairs()[i]).1.path@ != path@,
            },
    {
        let n = self.modules.len();
        let mut i: usize = 0;
        while i < n
            invariant
                n == self.modules.pairs().len(),
                i <= n,
                forall|j: int| 0 <= j < i ==> (#[trigger] self.modules.pairs()[j]).1.path@ != path@,
            decreases n - i,
        {
            let (_, m) = self.modules.entry(i);
            if crate::text::same_text(m.path.as_str(), path) {
                return Some(m);
            }
            i = i + 1;
        }
        None
    }

    /// The service a deployment is for: the one named, or else the one that
    /// `working_directory` lies in. Fails where nothing is registered or no
    /// service fits.
    pub fn select_service(&self, service_name: Option<&str>, working_directory: &str) -> (r: Result<&DiscoveredService, EnvieError>)
        ensures
            self.services.pairs().len() == 0 ==> (r matches Err(e) && e is ValidationError),
            self.services.pairs().len() > 0 ==> match service_name {
                Some(n) => if self.has_service(n@) {
                    r matches Ok(s) && *s == self.services@[n@]
                } else {
                    r matches Err(e) && e is ValidationError
                },
                None => match r {
                    Ok(s) => exists|i: int| self.best_match(working_directory@, i) && *s == self.service_at(i),
                    Err(e) => e is ValidationError && forall|i: int|
                        0 <= i < self.services.pairs().len() ==> !within(
                            working_directory@,
                            #[trigger] self.service_at(i).path@,
                        ),
                },
            },
    {
        if self.services.len() == 0 {
            return Err(
                EnvieError::ValidationError(
                    String::from_str(
                        "No services found. Make sure you're in a directory with .envie files or run from the project root.",
                    ),
                ),
            );
        }
        match service_name {
            Some(name) => match self.services.get(name) {
                Some(service) => Ok(service),
                None => Err(EnvieError::ValidationError(concat3("Service '", name, "' not found"))),
            },
            None => match self.find_service_by_path(working_directory) {
                Some(service) => Ok(service),
                None => Err(
                    EnvieError::ValidationError(
                        String::from_str(
                            "No service found in current directory. Specify a service name or run from a service directory.",
                        ),
                    ),
                ),
            },
        }
    }

    /// The deployment order for `service_name`: the finishing order of a
    /// depth-first search over dependency tokens in declared order, so each
    /// transitive dependency comes once and before its dependents, and the
    /// service itself comes last.
    pub fn resolve_dependencies(&self, service_name: &str) -> (r: Result<Vec<String>, EnvieError>)
        ensures
            !self.has_service(service_name@) ==> (r matches Err(EnvieError::ValidationError(m)) && m@
                == "Service '"@ + service_name@ + "' not found"@),
            self.has_service(service_name@) ==> match self.depth_first_order(service_name@) {
                Some(o) => r matches Ok(order) && texts(order@) == o,
                None => r is Err,
            },
            self.has_service(service_name@) ==> (r is Ok <==> self.resolvable_from(service_name@)),
            r matches Ok(order) ==> self.is_deployment_order(service_name@, texts(order@)),
            self.has_service(service_name@) ==> (r matches Err(e) ==> e is DependencyError
                && exists|v: Seq<char>| #[trigger]
                self.reaches(service_name@, v) && (self.broken(v) || (self.on_cycle(v)
                    && e.detail() == cycle_message(v)))),
    {
        let n = self.services.len();
        let ghost root = service_name@;
        match self.services.index_of(service_name) {
            None => Err(EnvieError::ValidationError(concat3("Service '", service_name, "' not found"))),
            Some(u) => {
                let mut state: Vec<u8> = Vec::new();
                let mut i: usize = 0;
                while i < n
                    invariant
                        i <= n,
                        state@.len() == i,
                        forall|k: int| 0 <= k < i ==> #[trigger] state@[k] == 0,
                    decreases n - i,
                {
                    state.push(0);
                    i = i + 1;
                }
                let mut order: Vec<String> = Vec::new();
                proof {
                    self.lemma_key_registered(u as int);
                    let empty = Seq::<Seq<char>>::empty();
                    assert(texts(order@) =~= empty);
                    assert(empty.push(root)[0] == root);
                    assert(self.is_walk(empty.push(root)));
                    assert(self.dfs_inv(root, state@, texts(order@), empty));
                }
                proof {
                    lemma_white_count_bound(state@);
                }
                match self.visit(u, &mut state, &mut order, Ghost(root), Ghost(Seq::empty()), Ghost(n as nat)) {
                    Err(e) => {
                        proof {
                            let v = choose|v: Seq<char>| #[trigger]
                                self.reaches(root, v) && (self.broken(v) || (self.on_cycle(v)
                                    && e.detail() == cycle_message(v)));
                            assert(!self.resolvable_from(root));
                        }
                        Err(e)
                    },
                    Ok(()) => {
                        proof {
                            let o = texts(order@);
                            assert(o.contains(root)) by {
                                assert(o[o.len() - 1] == root);
                            }
                            assert forall|v: Seq<char>| #[trigger] self.reaches(root, v) implies o.contains(v) by {
                                let p = choose|p: Seq<Seq<char>>| #[trigger] self.is_walk(p) && p[0] == root && p.last() == v;
                                self.lemma_closed_walk(o, p, p.len() - 1);
                            }
                            assert forall|v: Seq<char>| o.contains(v) implies #[trigger] self.reaches(root, v) by {
                                let i = choose|i: int| 0 <= i < o.len() && o[i] == v;
                                assert(self.reaches(root, o[i]));
                            }
                            assert forall|v: Seq<char>| #[trigger] self.reaches(root, v) implies !self.broken(v) && !self.on_cycle(v) by {
                                let i = choose|i: int| 0 <= i < o.len() && o[i] == v;
                                assert(!self.broken(o[i]));
                                if self.on_cycle(v) {
                                    let c = choose|c: Seq<Seq<char>>| #[trigger] self.is_walk(c) && c.len() >= 2 && c[0] == v && c.last() == v;
                                    assert forall|k: int| 0 <= k < c.len() implies o.contains(#[trigger] c[k]) by {
                                        self.lemma_closed_walk(o, c, k);
                                    }
                                    self.lemma_walk_descends(o, c, c.len() - 1);
                                }
                            }
                            assert(self.is_deployment_order(root, o));
                        }
                        Ok(order)
                    },
                }
            },
        }
    }
}

/// A deployment order puts each service strictly after all of its transitive
/// dependencies: where `order[i]` reaches `order[j]` by one or more
/// dependency steps, `j` comes first.
pub proof fn lemma_order_respects_transitive_dependencies(
    reg: ServiceRegistry,
    root: Seq<char>,
    order: Seq<Seq<char>>,
    p: Seq<Seq<char>>,
    i: int,
    j: int,
)
    requires
        reg.is_deployment_order(root, order),
        0 <= i < order.len(),
        0 <= j < order.len(),
        reg.is_walk(p),
        p.len() >= 2,
        p[0] == order[i],
        p.last() == order[j],
    ensures
        j < i,
{
    assert forall|k: int, b: Seq<char>| 0 <= k < order.len() && #[trigger] reg.edge(order[k], b) implies order.contains(b) by {
        assert(order.contains(order[k]));
        assert(reg.reaches(root, order[k]));
        let w = choose|w: Seq<Seq<char>>| #[trigger] reg.is_walk(w) && w[0] == root && w.last() == order[k];
        reg.lemma_walk_extend(w, b);
        assert(w.push(b)[0] == root);
        assert(reg.reaches(root, b));
    }
    assert(order.contains(p[0]));
    assert forall|k: int| 0 <= k < p.len() implies order.contains(#[trigger] p[k]) by {
        reg.lemma_closed_walk(order, p, k);
    }
    reg.lemma_walk_descends(order, p, p.len() - 1);
    assert(order.contains(order[i]));
    assert(order.contains(order[j]));
    let a = position_in(order, p[0]);
    let b = position_in(order, p.last());
    assert(order[a] == order[i]);
    assert(order[b] == order[j]);
}

} // verus!
