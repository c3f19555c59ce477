use vstd::prelude::*;
use vstd::string::StringExecFns;
use vstd::string::StrSliceExecFns;
use crate::ordered_map::{lemma_pairs_insert, pairs_insert, pairs_map, pairs_unique, OrderedMap};
use crate::text::{concat3, find_char, first_index_of, same_text, slice, slice_from, texts};

verus! {

/// Where the outputs of a dependency are read from.
#[derive(Debug, Clone, PartialEq, Eq)]
pub enum QueryKind {
    /// The shared deployment of a whole service in a stable environment.
    Stable,
    /// The temporary deployment of one component.
    Ephemeral,
}

/// One output query for the provisioner: which deployment, in which
/// environment.
#[derive(Debug, Clone)]
pub struct OutputQuery {
    pub kind: QueryKind,
    /// The service (stable) or the `service/module` component (ephemeral).
    pub component: String,
    pub environment: String,
}

/// The model of an output query.
pub struct QueryView {
    pub stable: bool,
    pub component: Seq<char>,
    pub environment: Seq<char>,
}

impl View for OutputQuery {
    type V = QueryView;

    open spec fn view(&self) -> QueryView {
        QueryView {
            stable: self.kind == QueryKind::Stable,
            component: self.component@,
            environment: self.environment@,
        }
    }
}

/// A `component:environment` token split at its only `:`; `None` where the
/// token has no `:` or more than one.
pub open spec fn split_token(t: Seq<char>) -> Option<(Seq<char>, Seq<char>)> {
    match first_index_of(t, ':') {
        Some(i) => if first_index_of(t.subrange(i + 1, t.len() as int), ':') is None {
            Some((t.subrange(0, i), t.subrange(i + 1, t.len() as int)))
        } else {
            None
        },
        None => None,
    }
}

/// The service part of a component: the text before its first `/`.
pub open spec fn service_of(c: Seq<char>) -> Seq<char> {
    match first_index_of(c, '/') {
        Some(i) => c.subrange(0, i),
        None => c,
    }
}

/// The environment that marks a temporary deployment.
pub open spec fn is_dev(e: Seq<char>) -> bool {
    e == "dev"@
}

/// The (service, environment) pairs of the well-formed tokens outside the
/// dev environment, in order, repeats included.
pub open spec fn stable_pairs(deps: Seq<Seq<char>>) -> Seq<(Seq<char>, Seq<char>)>
    decreases deps.len(),
{
    if deps.len() == 0 {
        Seq::empty()
    } else {
        let before = stable_pairs(deps.drop_last());
        match split_token(deps.last()) {
            Some((c, e)) => if is_dev(e) {
                before
            } else {
                before.push((service_of(c), e))
            },
            None => before,
        }
    }
}

/// The (component, environment) pairs of the well-formed dev tokens, in order.
pub open spec fn dev_pairs(deps: Seq<Seq<char>>) -> Seq<(Seq<char>, Seq<char>)>
    decreases deps.len(),
{
    if deps.len() == 0 {
        Seq::empty()
    } else {
        let before = dev_pairs(deps.drop_last());
        match split_token(deps.last()) {
            Some((c, e)) => if is_dev(e) {
                before.push((c, e))
            } else {
                before
            },
            None => before,
        }
    }
}

/// `s` with each element kept at its first occurrence only.
pub open spec fn first_occurrences<A>(s: Seq<A>) -> Seq<A>
    decreases s.len(),
{
    if s.len() == 0 {
        Seq::empty()
    } else {
        let before = first_occurrences(s.drop_last());
        if before.contains(s.last()) {
            before
        } else {
            before.push(s.last())
        }
    }
}

/// The queries for a list of `component:environment` tokens: one per
/// distinct (service, environment) pair outside dev, in order of first
/// appearance, then one per dev component, in order.
pub open spec fn planned(deps: Seq<Seq<char>>) -> Seq<QueryView> {
    first_occurrences(stable_pairs(deps)).map_values(
        |p: (Seq<char>, Seq<char>)| QueryView { stable: true, component: p.0, environment: p.1 },
    ) + dev_pairs(deps).map_values(
        |p: (Seq<char>, Seq<char>)| QueryView { stable: false, component: p.0, environment: p.1 },
    )
}

/// The maps merged in order; on a shared key the later map wins.
pub open spec fn merged<V>(maps: Seq<Map<Seq<char>, V>>) -> Map<Seq<char>, V>
    decreases maps.len(),
{
    if maps.len() == 0 {
        Map::empty()
    } else {
        merged(maps.drop_last()).union_prefer_right(maps.last())
    }
}

proof fn lemma_first_occurrences<A>(s: Seq<A>)
    ensures
        forall|i: int, j: int|
            0 <= i < first_occurrences(s).len() && 0 <= j < first_occurrences(s).len() && i != j
                ==> first_occurrences(s)[i] != first_occurrences(s)[j],
        forall|x: A| first_occurrences(s).contains(x) <==> s.contains(x),
    decreases s.len(),
{
    if s.len() > 0 {
        let before = first_occurrences(s.drop_last());
        lemma_first_occurrences(s.drop_last());
        assert forall|x: A| first_occurrences(s).contains(x) <==> s.contains(x) by {
            if s.drop_last().contains(x) {
                let k = choose|k: int| 0 <= k < s.drop_last().len() && s.drop_last()[k] == x;
                assert(s[k] == x);
            }
            if s.contains(x) {
                let k = choose|k: int| 0 <= k < s.len() && s[k] == x;
                if k < s.len() - 1 {
                    assert(s.drop_last()[k] == x);
                }
            }
            if !before.contains(s.last()) {
                let t = before.push(s.last());
                assert(t[before.len() as int] == s.last());
                if t.contains(x) {
                    let k = choose|k: int| 0 <= k < t.len() && t[k] == x;
                    if k < before.len() {
                        assert(before[k] == x);
                    }
                }
                if before.contains(x) {
                    let k = choose|k: int| 0 <= k < before.len() && before[k] == x;
                    assert(t[k] == x);
                }
            }
        }
        if !before.contains(s.last()) {
            let t = before.push(s.last());
            assert forall|i: int, j: int| 0 <= i < t.len() && 0 <= j < t.len() && i != j implies t[i] != t[j] by {
                if i == before.len() && j < before.len() {
                    assert(before[j] == t[j]);
                }
                if j == before.len() && i < before.len() {
                    assert(before[i] == t[i]);
                }
            }
        }
    }
}

/// Where the outputs of one distinct stable pair are wanted, exactly one
/// query asks for them: two tokens naming the same service and environment
/// lead to a single query.
pub proof fn lemma_one_query_per_stable_pair(deps: Seq<Seq<char>>, service: Seq<char>, environment: Seq<char>)
    requires
        stable_pairs(deps).contains((service, environment)),
    ensures
        exists|k: int|
            #![trigger planned(deps)[k]]
            0 <= k < planned(deps).len() && planned(deps)[k] == (QueryView {
                stable: true,
                component: service,
                environment,
            }) && forall|m: int|
                0 <= m < planned(deps).len() && planned(deps)[m] == (QueryView {
                    stable: true,
                    component: service,
                    environment,
                }) ==> m == k,
{
    let f = first_occurrences(stable_pairs(deps));
    lemma_first_occurrences(stable_pairs(deps));
    let q = QueryView { stable: true, component: service, environment };
    let p = planned(deps);
    let k = choose|k: int| 0 <= k < f.len() && f[k] == (service, environment);
    assert(p[k] == q);
    assert forall|m: int| 0 <= m < p.len() && p[m] == q implies m == k by {
        if m < f.len() {
            assert(f[m] == (service, environment));
        }
    }
}

/// A `component:environment` token split at its only `:`.
pub fn split_dependency(token: &str) -> (r: Option<(String, String)>)
    ensures
        match split_token(token@) {
            Some((c, e)) => r matches Some(p) && p.0@ == c && p.1@ == e,
            None => r is None,
        },
{
    let n = token.unicode_len();
    match find_char(token, ':') {
        None => None,
        Some(i) => {
            let rest = slice_from(token, i + 1);
            match find_char(rest.as_str(), ':') {
                Some(_) => None,
                None => Some((slice(token, 0, i), rest)),
            }
        },
    }
}

/// The service part of a component.
pub fn service_part(component: &str) -> (r: String)
    ensures
        r@ == service_of(component@),
{
    match find_char(component, '/') {
        Some(i) => slice(component, 0, i),
        None => String::from_str(component),
    }
}

impl OutputQuery {
    /// The deployment directory to read, relative to the project root.
    pub fn directory(&self) -> (r: String)
        ensures
            r@ == "services/"@ + self.component@ + (if self.kind == QueryKind::Stable {
                "/stable_deployments"@
            } else {
                "/temp_deployments"@
            }),
    {
        match self.kind {
            QueryKind::Stable => concat3("services/", self.component.as_str(), "/stable_deployments"),
            QueryKind::Ephemeral => concat3("services/", self.component.as_str(), "/temp_deployments"),
        }
    }
}

/// The provisioner queries for a list of `component:environment` tokens:
/// one per distinct (service, environment) pair outside dev, in order of
/// first appearance, then one per dev component, in order. Malformed tokens
/// are passed over.
pub fn plan_output_queries(dependencies: &Vec<String>) -> (r: Vec<OutputQuery>)
    ensures
        r@.map_values(|q: OutputQuery| q@) == planned(texts(dependencies@)),
{
    let ghost deps = texts(dependencies@);
    let mut stable: Vec<OutputQuery> = Vec::new();
    let mut dev: Vec<OutputQuery> = Vec::new();
    let mut i: usize = 0;
    proof {
        reveal_strlit("dev");
    }
    assert(deps.subrange(0, 0) =~= Seq::<Seq<char>>::empty());
    while i < dependencies.len()
        invariant
            i <= dependencies@.len(),
            deps == texts(dependencies@),
            stable@.map_values(|q: OutputQuery| q@) == first_occurrences(stable_pairs(deps.subrange(0, i as int))).map_values(
                |p: (Seq<char>, Seq<char>)| QueryView { stable: true, component: p.0, environment: p.1 },
            ),
            dev@.map_values(|q: OutputQuery| q@) == dev_pairs(deps.subrange(0, i as int)).map_values(
                |p: (Seq<char>, Seq<char>)| QueryView { stable: false, component: p.0, environment: p.1 },
            ),
        decreases dependencies@.len() - i,
    {
        let ghost pre = deps.subrange(0, i as int);
        let ghost post = deps.subrange(0, i + 1);
        proof {
            assert(post.drop_last() =~= pre);
            assert(post.last() == dependencies@[i as int]@);
        }
        match split_dependency(dependencies[i].as_str()) {
            None => {},
            Some((component, environment)) => {
                if same_text(environment.as_str(), "dev") {
                    let q = OutputQuery { kind: QueryKind::Ephemeral, component, environment };
                    let ghost before = dev@;
                    dev.push(q);
                    proof {
                        assert(dev@.map_values(|q: OutputQuery| q@) =~= before.map_values(|q: OutputQuery| q@).push(q@));
                        assert(dev_pairs(post).map_values(
                            |p: (Seq<char>, Seq<char>)| QueryView { stable: false, component: p.0, environment: p.1 },
                        ) =~= dev_pairs(pre).map_values(
                            |p: (Seq<char>, Seq<char>)| QueryView { stable: false, component: p.0, environment: p.1 },
                        ).push(q@));
                    }
                } else {
                    let service = service_part(component.as_str());
                    let ghost pairs = first_occurrences(stable_pairs(pre));
                    let ghost pair = (service@, environment@);
                    assert(pairs.len() == stable@.len()) by {
                        assert(stable@.map_values(|q: OutputQuery| q@).len() == stable@.len());
                    }
                    let mut seen = false;
                    let mut k: usize = 0;
                    while k < stable.len()
                        invariant
                            k <= stable@.len(),
                            pair == (service@, environment@),
                            pairs.len() == stable@.len(),
                            stable@.map_values(|q: OutputQuery| q@) == pairs.map_values(
                                |p: (Seq<char>, Seq<char>)| QueryView { stable: true, component: p.0, environment: p.1 },
                            ),
                            seen == exists|m: int| 0 <= m < k && pairs[m] == pair,
                        decreases stable@.len() - k,
                    {
                        let qk = &stable[k];
                        let same_component = qk.component == service;
                        let same_environment = qk.environment == environment;
                        let hit = same_component && same_environment;
                        proof {
                            assert(same_component == (qk.component@ == service@));
                            assert(same_environment == (qk.environment@ == environment@));
                            assert(stable@.map_values(|q: OutputQuery| q@)[k as int] == stable@[k as int]@);
                            assert(pairs.map_values(
                                |p: (Seq<char>, Seq<char>)| QueryView { stable: true, component: p.0, environment: p.1 },
                            )[k as int] == QueryView { stable: true, component: pairs[k as int].0, environment: pairs[k as int].1 });
                            assert(stable@[k as int]@ == QueryView { stable: true, component: pairs[k as int].0, environment: pairs[k as int].1 });
                            if hit {
                                assert(pairs[k as int] == pair);
                            }
                            if pairs[k as int] == pair {
                                assert(stable@[k as int].component@ == service@);
                            }
                        }
                        seen = seen || hit;
                        k = k + 1;
                    }
                    proof {
                        assert(stable_pairs(post) == stable_pairs(pre).push(pair));
                        assert(first_occurrences(stable_pairs(post)) == if pairs.contains(pair) { pairs } else { pairs.push(pair) }) by {
                            assert(stable_pairs(post).drop_last() =~= stable_pairs(pre));
                        }
                        if seen {
                            let m = choose|m: int| 0 <= m < stable@.len() && pairs[m] == pair;
                            assert(pairs.contains(pair));
                        } else {
                            assert(!pairs.contains(pair));
                        }
                    }
                    if !seen {
                        let q = OutputQuery { kind: QueryKind::Stable, component: service, environment };
                        let ghost before = stable@;
                        stable.push(q);
                        proof {
                            assert(stable@.map_values(|q: OutputQuery| q@) =~= before.map_values(|q: OutputQuery| q@).push(q@));
                            assert(pairs.push(pair).map_values(
                                |p: (Seq<char>, Seq<char>)| QueryView { stable: true, component: p.0, environment: p.1 },
                            ) =~= pairs.map_values(
                                |p: (Seq<char>, Seq<char>)| QueryView { stable: true, component: p.0, environment: p.1 },
                            ).push(q@));
                        }
                    }
                }
            },
        }
        i = i + 1;
    }
    assert(deps.subrange(0, deps.len() as int) =~= deps);
    let ghost sv = stable@.map_values(|q: OutputQuery| q@);
    let ghost dv = dev@.map_values(|q: OutputQuery| q@);
    stable.append(&mut dev);
    assert(stable@.map_values(|q: OutputQuery| q@) =~= sv + dv);
    stable
}

/// Merges `new` into `combined`; where both hold a key, `new` wins.
pub fn merge_outputs<V>(combined: &mut OrderedMap<V>, new: OrderedMap<V>)
    ensures
        final(combined)@ == old(combined)@.union_prefer_right(new@),
{
    let ghost p = new.pairs();
    let mut entries = new.into_entries();
    let ghost start = old(combined)@;
    let n = entries.len();
    let mut i: usize = 0;
    assert(p.subrange(0, 0) =~= Seq::<(Seq<char>, V)>::empty());
    assert(pairs_map(p.subrange(0, 0)) =~= Map::<Seq<char>, V>::empty());
    assert(start.union_prefer_right(Map::<Seq<char>, V>::empty()) =~= start);
    while i < n
        invariant
            n == p.len(),
            i <= n,
            pairs_unique(p),
            entries@.len() == n - i,
            forall|k: int| 0 <= k < n - i ==> ((#[trigger] entries@[k]).0@, entries@[k].1) == p[i + k],
            combined@ == start.union_prefer_right(pairs_map(p.subrange(0, i as int))),
        decreases n - i,
    {
        let (key, value) = entries.remove(0);
        proof {
            let done = p.subrange(0, i as int);
            assert(p.subrange(0, i + 1) =~= done.push(p[i as int]));
            assert(!crate::ordered_map::pairs_have_key(done, key@)) by {
                if crate::ordered_map::pairs_have_key(done, key@) {
                    let j = choose|j: int| 0 <= j < done.len() && #[trigger] done[j].0 == key@;
                    assert(p[j].0 == p[i as int].0);
                }
            }
            assert(pairs_unique(done));
            lemma_pairs_insert(done, key@, value);
            assert(pairs_insert(done, key@, value) == done.push((key@, value)));
        }
        combined.insert(key, value);
        proof {
            let done = p.subrange(0, i as int);
            assert(start.union_prefer_right(pairs_map(done)).insert(key@, value) =~= start.union_prefer_right(
                pairs_map(done).insert(key@, value),
            ));
        }
        i = i + 1;
    }
    assert(p.subrange(0, n as int) =~= p);
}

/// All `outputs` merged in order into one map; on a shared key the later
/// map wins.
pub fn combine_outputs<V>(outputs: Vec<OrderedMap<V>>) -> (r: OrderedMap<V>)
    ensures
        r@ == merged(outputs@.map_values(|m: OrderedMap<V>| m@)),
{
    let ghost all = outputs@.map_values(|m: OrderedMap<V>| m@);
    let mut rest = outputs;
    let mut out: OrderedMap<V> = OrderedMap::new();
    let n = rest.len();
    let mut i: usize = 0;
    assert(all.subrange(0, 0) =~= Seq::<Map<Seq<char>, V>>::empty());
    while i < n
        invariant
            n == all.len(),
            i <= n,
            rest@.len() == n - i,
            forall|k: int| 0 <= k < n - i ==> (#[trigger] rest@[k])@ == all[i + k],
            out@ == merged(all.subrange(0, i as int)),
        decreases n - i,
    {
        let next = rest.remove(0);
        proof {
            assert(all.subrange(0, i + 1).drop_last() =~= all.subrange(0, i as int));
        }
        merge_outputs(&mut out, next);
        i = i + 1;
    }
    assert(all.subrange(0, n as int) =~= all);
    out
}

} // verus!
