use vstd::prelude::*;
use vstd::string::StrSliceExecFns;
use vstd::string::StringExecFns;
use crate::error::EnvieError;
use crate::ordered_map::{lemma_text_values_insert, OrderedMap};
use crate::outputs::first_occurrences;
use crate::text::{
    concat3, contains_text, find_char, first_index_of, occurs_in, same_text, slice, slice_from, strip_char, stripped,
    texts, trim, trimmed, lines_of, split_lines,
};

verus! {

/// Group 1 of the first match of the regular expression `pattern` in
/// `text`; none where the pattern does not compile, nothing matches, or the
/// group took no part in the match.
pub uninterp spec fn captured(pattern: Seq<char>, text: Seq<char>) -> Option<Seq<char>>;

/// Group 1 of each successive non-overlapping match of the regular
/// expression `pattern` in `text`; empty where the pattern does not compile.
pub uninterp spec fn captured_all(pattern: Seq<char>, text: Seq<char>) -> Seq<Option<Seq<char>>>;

/// Whether the regular expression `pattern` matches somewhere in `text`;
/// false where the pattern does not compile.
pub uninterp spec fn pattern_matches(pattern: Seq<char>, text: Seq<char>) -> bool;

/// Relies on `regex::Regex::new` to compile `pattern` and on
/// `regex::Regex::is_match` to test `text`.
#[verifier::external_body]
pub(crate) fn is_match(pattern: &str, text: &str) -> (r: bool)
    ensures
        r == pattern_matches(pattern@, text@),
{
    match regex::Regex::new(pattern) {
        Ok(re) => re.is_match(text),
        Err(_) => false,
    }
}

/// Relies on `regex::Regex::new` to compile `pattern` and on
/// `regex::Regex::captures` for the first match's group 1.
#[verifier::external_body]
fn first_capture(pattern: &str, text: &str) -> (r: Option<String>)
    ensures
        match captured(pattern@, text@) {
            Some(c) => r matches Some(s) && s@ == c,
            None => r is None,
        },
{
    match regex::Regex::new(pattern) {
        Ok(re) => match re.captures(text) {
            Some(caps) => caps.get(1).map(|m| m.as_str().to_string()),
            None => None,
        },
        Err(_) => None,
    }
}

/// Relies on `regex::Regex::new` to compile `pattern` and on
/// `regex::Regex::captures_iter` for group 1 of every match.
#[verifier::external_body]
fn all_captures(pattern: &str, text: &str) -> (r: Vec<Option<String>>)
    ensures
        r@.len() == captured_all(pattern@, text@).len(),
        forall|i: int|
            0 <= i < r@.len() ==> match #[trigger] captured_all(pattern@, text@)[i] {
                Some(c) => r@[i] matches Some(s) && s@ == c,
                None => r@[i] is None,
            },
{
    match regex::Regex::new(pattern) {
        Ok(re) => re.captures_iter(text).map(|caps| caps.get(1).map(|m| m.as_str().to_string())).collect(),
        Err(_) => Vec::new(),
    }
}

/// A reference to another module's remote state found in configuration
/// text: its name, backend type and backend settings.
#[derive(Debug, Clone)]
pub struct TerraformDependency {
    pub data_source_name: String,
    pub backend_type: String,
    pub backend_config: OrderedMap<String>,
}

/// Finds remote-state references line by line. A heuristic for
/// diagnostics: it tracks whether it is inside a reference block and inside
/// its backend settings, and tolerates formatting it does not expect.
#[derive(Debug, Clone)]
pub struct TerraformScanner {
    /// Matches the start of a reference; group 1 is its name.
    pub data_source_pattern: String,
    /// Matches a backend declaration; group 1 is the backend type.
    pub backend_pattern: String,
}

/// The model of a found reference.
pub struct RemoteStateView {
    pub name: Seq<char>,
    pub backend_type: Seq<char>,
    pub config: Map<Seq<char>, Seq<char>>,
}

impl View for TerraformDependency {
    type V = RemoteStateView;

    open spec fn view(&self) -> RemoteStateView {
        RemoteStateView {
            name: self.data_source_name@,
            backend_type: self.backend_type@,
            config: self.backend_config@.map_values(|v: String| v@),
        }
    }
}

/// The scanner's state between lines.
pub struct ScanView {
    pub found: Seq<RemoteStateView>,
    pub current: Option<Seq<char>>,
    pub backend: Option<Seq<char>>,
    pub config: Map<Seq<char>, Seq<char>>,
    pub in_data_source: bool,
    pub in_backend_config: bool,
}

/// The state before the first line.
pub open spec fn scan_start() -> ScanView {
    ScanView {
        found: Seq::empty(),
        current: None,
        backend: None,
        config: Map::empty(),
        in_data_source: false,
        in_backend_config: false,
    }
}

/// The references found, with the open one, if any, closed.
pub open spec fn closed_out(s: ScanView) -> Seq<RemoteStateView> {
    match s.current {
        Some(n) => s.found.push(
            RemoteStateView {
                name: n,
                backend_type: match s.backend {
                    Some(b) => b,
                    None => "s3"@,
                },
                config: s.config,
            },
        ),
        None => s.found,
    }
}

/// A `key = "value"` setting line: split at its only `=`, both sides
/// trimmed, the value without surrounding quotes.
pub open spec fn setting_of(line: Seq<char>) -> Option<(Seq<char>, Seq<char>)> {
    match first_index_of(line, '=') {
        Some(i) => if first_index_of(line.subrange(i + 1, line.len() as int), '=') is None {
            Some(
                (
                    trimmed(line.subrange(0, i)),
                    stripped(trimmed(line.subrange(i + 1, line.len() as int)), '"'),
                ),
            )
        } else {
            None
        },
        None => None,
    }
}

/// The state after one line.
pub open spec fn scan_step(s: ScanView, raw: Seq<char>, ds: Seq<char>, bk: Seq<char>) -> ScanView {
    let line = trimmed(raw);
    match captured(ds, line) {
        Some(name) => ScanView {
            found: closed_out(s),
            current: Some(name),
            backend: None,
            config: Map::empty(),
            in_data_source: true,
            in_backend_config: false,
        },
        None => if !s.in_data_source {
            s
        } else {
            match captured(bk, line) {
                Some(b) => ScanView { backend: Some(b), in_backend_config: true, ..s },
                None => if occurs_in(line, "config"@) && first_index_of(line, '{') is Some {
                    ScanView { in_backend_config: true, ..s }
                } else if s.in_backend_config && first_index_of(line, '=') is Some {
                    match setting_of(line) {
                        Some((k, v)) => ScanView { config: s.config.insert(k, v), ..s },
                        None => s,
                    }
                } else if line == "}"@ && !s.in_backend_config {
                    ScanView {
                        found: closed_out(s),
                        current: None,
                        backend: None,
                        config: Map::empty(),
                        in_data_source: false,
                        in_backend_config: false,
                    }
                } else {
                    s
                },
            }
        },
    }
}

/// The state after the given lines.
pub open spec fn scan_lines(lines: Seq<Seq<char>>, ds: Seq<char>, bk: Seq<char>) -> ScanView
    decreases lines.len(),
{
    if lines.len() == 0 {
        scan_start()
    } else {
        scan_step(scan_lines(lines.drop_last(), ds, bk), lines.last(), ds, bk)
    }
}

/// The values present among optional values, in order.
pub open spec fn present(s: Seq<Option<Seq<char>>>) -> Seq<Seq<char>>
    decreases s.len(),
{
    if s.len() == 0 {
        Seq::empty()
    } else {
        match s.last() {
            Some(v) => present(s.drop_last()).push(v),
            None => present(s.drop_last()),
        }
    }
}

/// The pattern for the outputs of reference `name` used in the text.
pub open spec fn used_output_pattern(name: Seq<char>) -> Seq<char> {
    "data\\.terraform_remote_state\\."@ + name + "\\.outputs\\.(\\w+)"@
}

/// A `key = "value"` setting line, split.
fn parse_config_line(line: &str) -> (r: Option<(String, String)>)
    ensures
        match setting_of(line@) {
            Some((k, v)) => r matches Some(p) && p.0@ == k && p.1@ == v,
            None => r is None,
        },
{
    let n = line.unicode_len();
    match find_char(line, '=') {
        None => None,
        Some(i) => {
            let rest = slice_from(line, i + 1);
            match find_char(rest.as_str(), '=') {
                Some(_) => None,
                None => {
                    let key = trim(slice(line, 0, i).as_str());
                    let value = strip_char(trim(rest.as_str()).as_str(), '"');
                    Some((key, value))
                },
            }
        },
    }
}

/// The text of an optional string.
pub open spec fn opt_text(o: Option<String>) -> Option<Seq<char>> {
    match o {
        Some(s) => Some(s@),
        None => None,
    }
}

/// The reference found so far, closed: `found` with `current`, if any,
/// appended with its backend (`s3` where none was declared) and settings.
pub open spec fn closed(
    found: Seq<RemoteStateView>,
    current: Option<Seq<char>>,
    backend: Option<Seq<char>>,
    config: Map<Seq<char>, Seq<char>>,
) -> Seq<RemoteStateView> {
    closed_out(
        ScanView { found, current, backend, config, in_data_source: false, in_backend_config: false },
    )
}

spec fn state_matches(
    st: ScanView,
    found: Seq<TerraformDependency>,
    current: Option<String>,
    backend: Option<String>,
    config: OrderedMap<String>,
    in_ds: bool,
    in_bc: bool,
) -> bool {
    &&& found.map_values(|d: TerraformDependency| d@) == st.found
    &&& opt_text(current) == st.current
    &&& opt_text(backend) == st.backend
    &&& config@.map_values(|v: String| v@) == st.config
    &&& in_ds == st.in_data_source
    &&& in_bc == st.in_backend_config
}

fn close_out(
    found: &mut Vec<TerraformDependency>,
    current: Option<String>,
    backend: &Option<String>,
    config: &OrderedMap<String>,
)
    ensures
        final(found)@.map_values(|d: TerraformDependency| d@) == closed(
            old(found)@.map_values(|d: TerraformDependency| d@),
            opt_text(current),
            opt_text(*backend),
            config@.map_values(|v: String| v@),
        ),
{
    match current {
        Some(name) => {
            let backend_type = match backend {
                Some(b) => b.clone(),
                None => String::from_str("s3"),
            };
            let dep = TerraformDependency {
                data_source_name: name,
                backend_type,
                backend_config: config.duplicate(),
            };
            let ghost before = found@;
            found.push(dep);
            assert(found@.map_values(|d: TerraformDependency| d@) =~= before.map_values(
                |d: TerraformDependency| d@,
            ).push(dep@));
        },
        None => {},
    }
}

impl TerraformScanner {
    /// A scanner with the reference and backend patterns.
    pub fn new() -> (r: Result<Self, EnvieError>)
        ensures
            r matches Ok(s) && s.data_source_pattern@ == "data\\s+\"terraform_remote_state\"\\s+\"([^\"]+)\""@
                && s.backend_pattern@ == "backend\\s*=\\s*\"([^\"]+)\""@,
    {
        Ok(
            TerraformScanner {
                data_source_pattern: String::from_str("data\\s+\"terraform_remote_state\"\\s+\"([^\"]+)\""),
                backend_pattern: String::from_str("backend\\s*=\\s*\"([^\"]+)\""),
            },
        )
    }

    /// The remote-state references in configuration text, in order.
    pub fn scan_content(&self, content: &str) -> (r: Result<Vec<TerraformDependency>, EnvieError>)
        ensures
            r matches Ok(d) && d@.map_values(|x: TerraformDependency| x@) == closed_out(
                scan_lines(lines_of(content@), self.data_source_pattern@, self.backend_pattern@),
            ),
    {
        let ghost ds = self.data_source_pattern@;
        let ghost bk = self.backend_pattern@;
        let lines = split_lines(content);
        let ghost ls = texts(lines@);
        let mut found: Vec<TerraformDependency> = Vec::new();
        let mut current: Option<String> = None;
        let mut backend: Option<String> = None;
        let mut config: OrderedMap<String> = OrderedMap::new();
        let mut in_ds = false;
        let mut in_bc = false;
        let mut i: usize = 0;
        proof {
            assert(ls.subrange(0, 0) =~= Seq::<Seq<char>>::empty());
            assert(found@.map_values(|d: TerraformDependency| d@) =~= Seq::<RemoteStateView>::empty());
            assert(config@.map_values(|v: String| v@) =~= Map::<Seq<char>, Seq<char>>::empty());
        }
        while i < lines.len()
            invariant
                ls == texts(lines@),
                ls == lines_of(content@),
                ds == self.data_source_pattern@,
                bk == self.backend_pattern@,
                i <= lines@.len(),
                state_matches(scan_lines(ls.subrange(0, i as int), ds, bk), found@, current, backend, config, in_ds, in_bc),
            decreases lines@.len() - i,
        {
            let ghost st = scan_lines(ls.subrange(0, i as int), ds, bk);
            proof {
                assert(ls.subrange(0, i + 1).drop_last() =~= ls.subrange(0, i as int));
                assert(ls.subrange(0, i + 1).last() == lines@[i as int]@);
            }
            let line = trim(lines[i].as_str());
            match first_capture(self.data_source_pattern.as_str(), line.as_str()) {
                Some(name) => {
                    close_out(&mut found, current, &backend, &config);
                    current = Some(name);
                    backend = None;
                    config = OrderedMap::new();
                    in_ds = true;
                    in_bc = false;
                    assert(config@.map_values(|v: String| v@) =~= Map::<Seq<char>, Seq<char>>::empty());
                },
                None => {
                    if in_ds {
                        match first_capture(self.backend_pattern.as_str(), line.as_str()) {
                            Some(b) => {
                                backend = Some(b);
                                in_bc = true;
                            },
                            None => {
                                if contains_text(line.as_str(), "config") && find_char(line.as_str(), '{').is_some() {
                                    in_bc = true;
                                } else if in_bc && find_char(line.as_str(), '=').is_some() {
                                    match parse_config_line(line.as_str()) {
                                        Some((k, v)) => {
                                            let ghost before = config@;
                                            config.insert(k, v);
                                            proof {
                                                lemma_text_values_insert(before, k@, v);
                                            }
                                        },
                                        None => {},
                                    }
                                } else if same_text(line.as_str(), "}") && !in_bc {
                                    close_out(&mut found, current, &backend, &config);
                                    current = None;
                                    in_ds = false;
                                    in_bc = false;
                                    backend = None;
                                    config = OrderedMap::new();
                                    assert(config@.map_values(|v: String| v@) =~= Map::<Seq<char>, Seq<char>>::empty());
                                }
                            },
                        }
                    }
                },
            }
            i = i + 1;
        }
        assert(ls.subrange(0, ls.len() as int) =~= ls);
        close_out(&mut found, current, &backend, &config);
        Ok(found)
    }

    /// The output names that the text reads from reference
    /// `data_source_name`, each once, in order of first use.
    pub fn extract_used_outputs(&self, content: &str, data_source_name: &str) -> (r: Vec<String>)
        ensures
            texts(r@) == first_occurrences(present(captured_all(used_output_pattern(data_source_name@), content@))),
    {
        let pattern = concat3("data\\.terraform_remote_state\\.", data_source_name, "\\.outputs\\.(\\w+)");
        let caps = all_captures(pattern.as_str(), content);
        let ghost cv = captured_all(pattern@, content@);
        let mut out: Vec<String> = Vec::new();
        let mut i: usize = 0;
        assert(cv.subrange(0, 0) =~= Seq::<Option<Seq<char>>>::empty());
        assert(texts(out@) =~= first_occurrences(present(cv.subrange(0, 0))));
        while i < caps.len()
            invariant
                cv == captured_all(pattern@, content@),
                caps@.len() == cv.len(),
                forall|j: int|
                    0 <= j < caps@.len() ==> match #[trigger] captured_all(pattern@, content@)[j] {
                        Some(c) => caps@[j] matches Some(s) && s@ == c,
                        None => caps@[j] is None,
                    },
                i <= caps@.len(),
                texts(out@) == first_occurrences(present(cv.subrange(0, i as int))),
            decreases caps@.len() - i,
        {
            let ghost pre = cv.subrange(0, i as int);
            proof {
                assert(cv.subrange(0, i + 1).drop_last() =~= pre);
                assert(cv.subrange(0, i + 1).last() == cv[i as int]);
                assert(match captured_all(pattern@, content@)[i as int] {
                    Some(c) => caps@[i as int] matches Some(s) && s@ == c,
                    None => caps@[i as int] is None,
                });
            }
            match &caps[i] {
                None => {},
                Some(name) => {
                    let ghost fo = first_occurrences(present(pre));
                    let mut seen = false;
                    let mut k: usize = 0;
                    while k < out.len()
                        invariant
                            k <= out@.len(),
                            texts(out@) == fo,
                            seen == exists|m: int| 0 <= m < k && fo[m] == name@,
                        decreases out@.len() - k,
                    {
                        let hit = out[k] == *name;
                        proof {
                            assert(texts(out@)[k as int] == out@[k as int]@);
                        }
                        seen = seen || hit;
                        k = k + 1;
                    }
                    proof {
                        assert(present(cv.subrange(0, i + 1)) == present(pre).push(name@));
                        assert(present(pre).push(name@).drop_last() =~= present(pre));
                        if seen {
                            let m = choose|m: int| 0 <= m < out@.len() && fo[m] == name@;
                            assert(fo.contains(name@));
                        } else {
                            assert(!fo.contains(name@));
                        }
                    }
                    if !seen {
                        let ghost before = out@;
                        out.push(name.clone());
                        assert(texts(out@) =~= texts(before).push(name@));
                    }
                },
            }
            i = i + 1;
        }
        assert(cv.subrange(0, cv.len() as int) =~= cv);
        assert(pattern@ == used_output_pattern(data_source_name@));
        out
    }
}

} // verus!
