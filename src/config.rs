use vstd::prelude::*;
use crate::ordered_map::OrderedMap;

verus! {

/// A service: a named group of modules with service-level dependencies.
#[derive(Debug, Clone)]
pub struct ServiceConfig {
    pub name: String,
    pub description: String,
    pub modules: Vec<ModuleConfig>,
    /// Dependency tokens: a relative path (`../name`), `service/module`, or a
    /// bare service name.
    pub depends: Vec<String>,
}

/// A module: the smallest deployable unit of a service.
#[derive(Debug, Clone)]
pub struct ModuleConfig {
    pub name: String,
    pub description: String,
    /// Path relative to the service; empty means `modules/<name>`.
    pub path: String,
    pub depends: Vec<DependencyReference>,
}

/// A module-level pointer to another unit, and the environment token that
/// says where that unit's state is read from.
#[derive(Debug, Clone)]
pub struct DependencyReference {
    pub path: String,
    pub environment: String,
}

/// The workspace manifest at a project's root.
#[derive(Debug, Clone)]
pub struct WorkspaceConfig {
    pub version: String,
    pub project: Option<ProjectInfo>,
    pub services: Vec<ServiceDiscovery>,
    /// Project-wide defaults; each value is kept as the text of its JSON form.
    pub defaults: OrderedMap<String>,
}

/// The project's name and description.
#[derive(Debug, Clone)]
pub struct ProjectInfo {
    pub name: String,
    pub description: String,
}

/// An entry of the manifest's service list.
#[derive(Debug, Clone)]
pub struct ServiceDiscovery {
    pub path: String,
    pub name: Option<String>,
}

/// The model of a dependency reference: its target and environment texts.
pub struct DependencyView {
    pub path: Seq<char>,
    pub environment: Seq<char>,
}

/// The model of a module descriptor.
pub struct ModuleView {
    pub name: Seq<char>,
    pub description: Seq<char>,
    pub path: Seq<char>,
    pub depends: Seq<DependencyView>,
}

/// The model of a service descriptor.
pub struct ServiceView {
    pub name: Seq<char>,
    pub description: Seq<char>,
    pub modules: Seq<ModuleView>,
    pub depends: Seq<Seq<char>>,
}

impl View for DependencyReference {
    type V = DependencyView;

    open spec fn view(&self) -> DependencyView {
        DependencyView { path: self.path@, environment: self.environment@ }
    }
}

impl View for ModuleConfig {
    type V = ModuleView;

    open spec fn view(&self) -> ModuleView {
        ModuleView {
            name: self.name@,
            description: self.description@,
            path: self.path@,
            depends: self.depends@.map_values(|d: DependencyReference| d@),
        }
    }
}

impl View for ServiceConfig {
    type V = ServiceView;

    open spec fn view(&self) -> ServiceView {
        ServiceView {
            name: self.name@,
            description: self.description@,
            modules: self.modules@.map_values(|m: ModuleConfig| m@),
            depends: self.depends@.map_values(|d: String| d@),
        }
    }
}

impl DependencyReference {
    /// A copy of this reference.
    pub fn duplicate(&self) -> (r: Self)
        ensures
            r@ == self@,
    {
        DependencyReference { path: self.path.clone(), environment: self.environment.clone() }
    }
}

impl ServiceDiscovery {
    /// The name to show for this entry: its declared name, else the final
    /// component of its path.
    pub fn display_name(&self) -> (r: String)
        ensures
            match self.name {
                Some(n) => r@ == n@,
                None => r@ == crate::paths::final_segment(self.path@),
            },
    {
        match &self.name {
            Some(n) => n.clone(),
            None => crate::paths::final_component(self.path.as_str()),
        }
    }
}

impl ServiceConfig {
    /// A copy of this descriptor.
    pub fn duplicate(&self) -> (r: Self)
        ensures
            r@ == self@,
    {
        let mut modules: Vec<ModuleConfig> = Vec::new();
        let mut i: usize = 0;
        while i < self.modules.len()
            invariant
                i <= self.modules@.len(),
                modules@.len() == i,
                forall|j: int| 0 <= j < i ==> #[trigger] modules@[j]@ == self.modules@[j]@,
            decreases self.modules@.len() - i,
        {
            modules.push(self.modules[i].duplicate());
            i = i + 1;
        }
        let mut depends: Vec<String> = Vec::new();
        let mut i: usize = 0;
        while i < self.depends.len()
            invariant
                i <= self.depends@.len(),
                depends@.len() == i,
                forall|j: int| 0 <= j < i ==> #[trigger] depends@[j]@ == self.depends@[j]@,
            decreases self.depends@.len() - i,
        {
            depends.push(self.depends[i].clone());
            i = i + 1;
        }
        let r = ServiceConfig {
            name: self.name.clone(),
            description: self.description.clone(),
            modules,
            depends,
        };
        assert(r@.modules =~= self@.modules);
        assert(r@.depends =~= self@.depends);
        r
    }
}

impl ModuleConfig {
    /// A copy of this descriptor.
    pub fn duplicate(&self) -> (r: Self)
        ensures
            r@ == self@,
    {
        let mut depends: Vec<DependencyReference> = Vec::new();
        let mut i: usize = 0;
        while i < self.depends.len()
            invariant
                i <= self.depends@.len(),
                depends@.len() == i,
                forall|j: int| 0 <= j < i ==> #[trigger] depends@[j]@ == self.depends@[j]@,
            decreases self.depends@.len() - i,
        {
            depends.push(self.depends[i].duplicate());
            i = i + 1;
        }
        let r = ModuleConfig {
            name: self.name.clone(),
            description: self.description.clone(),
            path: self.path.clone(),
            depends,
        };
        assert(r@.depends =~= self@.depends);
        r
    }
}

} // verus!
