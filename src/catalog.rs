use vstd::prelude::*;

verus! {

/// One artifact that a catalog offers.
pub struct PackageMetadata {
    pub name: String,
    pub version: String,
    pub description: String,
    pub download_url: String,
    pub size_mb: u32,
    pub archive_type: String,
    pub dependencies: Option<Vec<String>>,
}

/// What a catalog source publishes: its name, a description and the
/// artifacts it offers.
pub struct ConstellationMetadata {
    pub name: String,
    pub description: String,
    pub packages: Vec<PackageMetadata>,
}

/// A catalog source: a display name and where its metadata is published.
pub struct Constellation {
    pub name: String,
    pub metadata_url: String,
}

impl Constellation {
    /// The catalog sources consulted when none is configured.
    pub fn default_constellations() -> (r: Vec<Constellation>)
        ensures
            r@.len() == 1,
            r@[0].name@ == "Hoshi Core"@,
            r@[0].metadata_url@ == "http://localhost:8000/hoshi-core-constellation.json"@,
    {
        let name = String::from_str("Hoshi Core");
        let metadata_url = String::from_str("http://localhost:8000/hoshi-core-constellation.json");
        let mut r: Vec<Constellation> = Vec::new();
        r.push(Constellation { name, metadata_url });
        r
    }

    /// The catalog sources that package search consults.
    pub fn search_constellations() -> (r: Vec<Constellation>)
        ensures
            r@.len() == 2,
            r@[0].name@ == "Hoshi-Core"@,
            r@[0].metadata_url@ == "http://localhost:8000/hoshi-core-constellation.json"@,
            r@[1].name@ == "Hoshi-Extra"@,
            r@[1].metadata_url@ == "http://localhost:8000/hoshi-extra-constellation.json"@,
    {
        let mut r: Vec<Constellation> = Vec::new();
        r.push(
            Constellation {
                name: String::from_str("Hoshi-Core"),
                metadata_url: String::from_str("http://localhost:8000/hoshi-core-constellation.json"),
            },
        );
        r.push(
            Constellation {
                name: String::from_str("Hoshi-Extra"),
                metadata_url: String::from_str("http://localhost:8000/hoshi-extra-constellation.json"),
            },
        );
        r
    }
}

/// The names of the artifacts of a catalog, in catalog order.
pub open spec fn names_of(cat: Seq<PackageMetadata>) -> Seq<Seq<char>> {
    cat.map_values(|p: PackageMetadata| p.name@)
}

/// The dependency names that an artifact lists (none when it lists no field).
pub open spec fn deps_of(p: PackageMetadata) -> Seq<Seq<char>> {
    match p.dependencies {
        Some(d) => d@.map_values(|s: String| s@),
        None => Seq::empty(),
    }
}

/// Index of the earliest artifact named `name`.
pub open spec fn first_named(names: Seq<Seq<char>>, name: Seq<char>) -> Option<int> {
    if exists|i: int| 0 <= i < names.len() && names[i] == name {
        Some(choose|i: int| 0 <= i < names.len() && names[i] == name && forall|k: int| 0 <= k < i ==> names[k] != name)
    } else {
        None
    }
}

/// Whether an artifact named `name` is already queued in `sel`.
pub open spec fn queued(names: Seq<Seq<char>>, sel: Seq<int>, name: Seq<char>) -> bool {
    exists|j: int| 0 <= j < sel.len() && names[sel[j]] == name
}

/// The queue (catalog indices) and the missing dependencies (indices into
/// `deps`) after the first `n` dependencies of the target at index `t` were
/// looked at.
pub open spec fn resolve_deps(names: Seq<Seq<char>>, deps: Seq<Seq<char>>, t: int, n: int) -> (Seq<int>, Seq<int>)
    decreases n,
{
    if n <= 0 {
        (seq![t], Seq::empty())
    } else {
        let (sel, miss) = resolve_deps(names, deps, t, n - 1);
        match first_named(names, deps[n - 1]) {
            Some(k) => if queued(names, sel, deps[n - 1]) {
                (sel, miss)
            } else {
                (sel.push(k), miss)
            },
            None => (sel, miss.push(n - 1)),
        }
    }
}

/// What resolving a target gives: the artifacts to fetch, as indices into the
/// catalog with the target first, and the dependency names of the target that
/// no catalog entry carries (to be reported as warnings).
pub struct Resolution {
    pub selected: Vec<usize>,
    pub missing: Vec<String>,
}

/// Why a run stopped.
#[derive(Debug, Clone, Copy, PartialEq, Eq, Structural)]
pub enum MergeError {
    NotFound,
    UserAborted,
    TransferFailed,
    ArchiveFailed,
    RegistryCorrupt,
    UnsupportedFormat,
}

pub open spec fn usize_seq_as_int(s: Seq<usize>) -> Seq<int> {
    s.map_values(|x: usize| x as int)
}

proof fn lemma_first_named(names: Seq<Seq<char>>, name: Seq<char>, i: int)
    requires
        0 <= i < names.len(),
        names[i] == name,
    ensures
        first_named(names, name) matches Some(c) && 0 <= c <= i && names[c] == name && forall|k: int|
            0 <= k < c ==> names[k] != name,
    decreases i,
{
    if exists|k: int| 0 <= k < i && names[k] == name {
        let k = choose|k: int| 0 <= k < i && names[k] == name;
        lemma_first_named(names, name, k);
    } else {
        assert(names[i] == name && forall|k: int| 0 <= k < i ==> names[k] != name);
    }
}

fn is_queued(catalog: &Vec<PackageMetadata>, selected: &Vec<usize>, name: &String) -> (r: bool)
    requires
        forall|q: int| 0 <= q < selected@.len() ==> selected@[q] < catalog@.len(),
    ensures
        r == queued(names_of(catalog@), usize_seq_as_int(selected@), name@),
{
    let ghost names = names_of(catalog@);
    let ghost sel = usize_seq_as_int(selected@);
    let mut j: usize = 0;
    while j < selected.len()
        invariant
            0 <= j <= selected@.len(),
            names == names_of(catalog@),
            sel == usize_seq_as_int(selected@),
            forall|q: int| 0 <= q < selected@.len() ==> selected@[q] < catalog@.len(),
            forall|q: int| 0 <= q < j ==> names[sel[q]] != name@,
        decreases selected@.len() - j,
    {
        if catalog[selected[j]].name == *name {
            assert(names[sel[j as int]] == name@);
            return true;
        }
        j = j + 1;
    }
    false
}

fn find_named(catalog: &Vec<PackageMetadata>, name: &String) -> (r: Option<usize>)
    ensures
        r matches Some(i) ==> i < catalog@.len() && first_named(names_of(catalog@), name@) == Some(i as int),
        r is None ==> first_named(names_of(catalog@), name@) is None,
{
    let ghost names = names_of(catalog@);
    let mut i: usize = 0;
    while i < catalog.len()
        invariant
            0 <= i <= catalog@.len(),
            names == names_of(catalog@),
            forall|k: int| 0 <= k < i ==> names[k] != name@,
        decreases catalog@.len() - i,
    {
        if catalog[i].name == *name {
            proof {
                assert(names[i as int] == name@);
                lemma_first_named(names, name@, i as int);
            }
            return Some(i);
        }
        i = i + 1;
    }
    None
}

/// Resolves `target` against `catalog`: the earliest artifact of that name,
/// then each of its direct dependencies in order (the earliest artifact of
/// each name, queued once). A dependency that the catalog lacks is listed in
/// `missing` and does not stop the resolution. `NotFound` when no artifact
/// is named `target`.
#[verifier::rlimit(50)]
pub fn resolve(catalog: &Vec<PackageMetadata>, target: &str) -> (r: Result<Resolution, MergeError>)
    ensures
        first_named(names_of(catalog@), target@) is None ==> r == Err::<Resolution, MergeError>(MergeError::NotFound),
        first_named(names_of(catalog@), target@) matches Some(t) ==> r matches Ok(res) && {
            let deps = deps_of(catalog@[t]);
            let (sel, miss) = resolve_deps(names_of(catalog@), deps, t, deps.len() as int);
            &&& usize_seq_as_int(res.selected@) == sel
            &&& res.missing@.len() == miss.len()
            &&& forall|j: int| 0 <= j < miss.len() ==> res.missing@[j]@ == deps[miss[j]]
        },
{
    let tname = target.to_owned();
    let ghost names = names_of(catalog@);
    let t = match find_named(catalog, &tname) {
        Some(t) => t,
        None => {
            return Err(MergeError::NotFound);
        },
    };
    let mut selected: Vec<usize> = Vec::new();
    selected.push(t);
    let mut missing: Vec<String> = Vec::new();
    let tp = &catalog[t];
    match &tp.dependencies {
        None => {
            assert(usize_seq_as_int(selected@) =~= seq![t as int]);
        },
        Some(deps) => {
            let ghost dv = deps_of(catalog@[t as int]);
            assert(usize_seq_as_int(selected@) =~= seq![t as int]);
            let mut d: usize = 0;
            while d < deps.len()
                invariant
                    0 <= d <= deps@.len(),
                    t < catalog@.len(),
                    names == names_of(catalog@),
                    catalog@[t as int].dependencies == Some(*deps),
                    dv == deps_of(catalog@[t as int]),
                    dv == deps@.map_values(|s: String| s@),
                    usize_seq_as_int(selected@) == resolve_deps(names, dv, t as int, d as int).0,
                    missing@.len() == resolve_deps(names, dv, t as int, d as int).1.len(),
                    forall|j: int|
                        0 <= j < missing@.len() ==> missing@[j]@ == dv[resolve_deps(
                            names,
                            dv,
                            t as int,
                            d as int,
                        ).1[j]],
                    forall|j: int| 0 <= j < selected@.len() ==> selected@[j] < catalog@.len(),
                decreases deps@.len() - d,
            {
                let dn = &deps[d];
                let ghost prev = resolve_deps(names, dv, t as int, d as int);
                assert(dv[d as int] == dn@);
                match find_named(catalog, dn) {
                    Some(k) => {
                        let already = is_queued(catalog, &selected, dn);
                        if !already {
                            selected.push(k);
                            assert(usize_seq_as_int(selected@) =~= prev.0.push(k as int));
                        }
                    },
                    None => {
                        missing.push(dn.clone());
                    },
                }
                d = d + 1;
            }
        },
    }
    Ok(Resolution { selected, missing })
}

} // verus!
