use vstd::prelude::*;
use vstd::string::StringSliceAdditionalSpecFns;
use vstd::utf8::{encode_utf8, encode_utf8_decode_utf8};
use crate::search::{bytes_le, lemma_lex_antisym, lemma_lex_total, lemma_lex_trans, lex_le};

verus! {

/// A package that was extracted and recorded: its name, its version and the
/// directory it was installed into.
#[derive(Debug, Clone)]
pub struct InstalledPackage {
    pub name: String,
    pub version: String,
    pub install_path: String,
}

/// The mathematical form of an installed package.
pub struct PackageRecord {
    pub name: Seq<char>,
    pub version: Seq<char>,
    pub install_path: Seq<char>,
}

impl View for InstalledPackage {
    type V = PackageRecord;

    open spec fn view(&self) -> PackageRecord {
        PackageRecord { name: self.name@, version: self.version@, install_path: self.install_path@ }
    }
}

pub open spec fn same_key(a: PackageRecord, b: PackageRecord) -> bool {
    a.name == b.name && a.version == b.version
}

/// Records are identified by name and version together: no two share both.
pub open spec fn keys_unique(s: Seq<PackageRecord>) -> bool {
    forall|i: int, j: int| 0 <= i < j < s.len() ==> !same_key(s[i], s[j])
}

/// Index of the record with the key of `r`, if there is one.
pub open spec fn key_index(s: Seq<PackageRecord>, r: PackageRecord) -> Option<int> {
    if exists|i: int| 0 <= i < s.len() && same_key(s[i], r) {
        Some(choose|i: int| 0 <= i < s.len() && same_key(s[i], r))
    } else {
        None
    }
}

/// `s` after adding `r`: a record with the same key is replaced where it
/// stands, otherwise `r` is appended.
pub open spec fn added(s: Seq<PackageRecord>, r: PackageRecord) -> Seq<PackageRecord> {
    match key_index(s, r) {
        Some(i) => s.update(i, r),
        None => s.push(r),
    }
}

/// Whether the record at `i` is named `name` and has the greatest version, in
/// byte order, of all records named `name`.
pub open spec fn is_newest(s: Seq<PackageRecord>, name: Seq<char>, i: int) -> bool {
    &&& 0 <= i < s.len()
    &&& s[i].name == name
    &&& forall|j: int|
        0 <= j < s.len() && #[trigger] s[j].name == name ==> lex_le(
            encode_utf8(s[j].version),
            encode_utf8(s[i].version),
        )
}

/// The record that a removal selects: with a version, the record with exactly
/// that name and version; without one, the record of that name whose version
/// is greatest in byte order, whatever order the records were added in.
pub open spec fn removal_index(
    s: Seq<PackageRecord>,
    name: Seq<char>,
    version: Option<Seq<char>>,
) -> Option<int> {
    match version {
        Some(v) => if exists|i: int| 0 <= i < s.len() && s[i].name == name && s[i].version == v {
            Some(choose|i: int| 0 <= i < s.len() && s[i].name == name && s[i].version == v)
        } else {
            None
        },
        None => if exists|i: int| 0 <= i < s.len() && s[i].name == name {
            Some(choose|i: int| is_newest(s, name, i))
        } else {
            None
        },
    }
}

pub open spec fn version_view(version: Option<&str>) -> Option<Seq<char>> {
    match version {
        Some(v) => Some(v@),
        None => None,
    }
}

/// The installed packages of one user, in the order in which they were first
/// recorded.
pub struct PackageRegistry {
    packages: Vec<InstalledPackage>,
}

impl View for PackageRegistry {
    type V = Seq<PackageRecord>;

    closed spec fn view(&self) -> Seq<PackageRecord> {
        self.packages@.map_values(|p: InstalledPackage| p@)
    }
}

pub proof fn lemma_added_keeps_keys_unique(s: Seq<PackageRecord>, r: PackageRecord)
    requires
        keys_unique(s),
    ensures
        keys_unique(added(s, r)),
        added(s, r).contains(r),
{
    match key_index(s, r) {
        Some(i) => {
            let t = added(s, r);
            assert(same_key(s[i], r));
            assert(t[i] == r);
            assert forall|a: int, b: int| 0 <= a < b < t.len() implies !same_key(t[a], t[b]) by {
                assert(!same_key(s[a], s[b]));
            }
        },
        None => {
            let t = added(s, r);
            assert(t[s.len() as int] == r);
            assert forall|a: int, b: int| 0 <= a < b < t.len() implies !same_key(t[a], t[b]) by {
                if b < s.len() {
                    assert(!same_key(s[a], s[b]));
                } else {
                    assert(!same_key(s[a], r));
                }
            }
        },
    }
}

impl PackageRegistry {
    pub closed spec fn wf(&self) -> bool {
        keys_unique(self@)
    }

    /// An empty registry, as a missing registry file gives.
    pub fn new() -> (r: PackageRegistry)
        ensures
            r.wf(),
            r@ == Seq::<PackageRecord>::empty(),
    {
        let r = PackageRegistry { packages: Vec::new() };
        assert(r@ =~= Seq::<PackageRecord>::empty());
        r
    }

    /// The registry whose records are `entries`, in that order; `None` when two
    /// of them share a name and version, which no saved registry holds.
    pub fn from_entries(entries: Vec<InstalledPackage>) -> (r: Option<PackageRegistry>)
        ensures
            r is Some <==> keys_unique(entries@.map_values(|p: InstalledPackage| p@)),
            r matches Some(reg) ==> reg.wf() && reg@ == entries@.map_values(
                |p: InstalledPackage| p@,
            ),
    {
        let ghost s = entries@.map_values(|p: InstalledPackage| p@);
        let mut i: usize = 0;
        while i < entries.len()
            invariant
                0 <= i <= entries@.len(),
                s == entries@.map_values(|p: InstalledPackage| p@),
                forall|a: int, b: int| 0 <= a < b < i ==> !same_key(s[a], s[b]),
            decreases entries@.len() - i,
        {
            let mut j: usize = 0;
            while j < i
                invariant
                    0 <= j <= i < entries@.len(),
                    s == entries@.map_values(|p: InstalledPackage| p@),
                    forall|a: int, b: int| 0 <= a < b < i ==> !same_key(s[a], s[b]),
                    forall|a: int| 0 <= a < j ==> !same_key(s[a], s[i as int]),
                decreases i - j,
            {
                if entries[j].name == entries[i].name && entries[j].version == entries[i].version {
                    assert(same_key(s[j as int], s[i as int]));
                    return None;
                }
                j = j + 1;
            }
            i = i + 1;
        }
        let r = PackageRegistry { packages: entries };
        Some(r)
    }

    /// The records, in registry order.
    pub fn entries(&self) -> (r: Vec<InstalledPackage>)
        ensures
            r@.map_values(|p: InstalledPackage| p@) == self@,
    {
        let mut r: Vec<InstalledPackage> = Vec::new();
        let mut i: usize = 0;
        while i < self.packages.len()
            invariant
                0 <= i <= self.packages@.len(),
                r@.len() == i,
                forall|k: int| 0 <= k < i ==> r@[k]@ == self.packages@[k]@,
            decreases self.packages@.len() - i,
        {
            let p = &self.packages[i];
            r.push(
                InstalledPackage {
                    name: p.name.clone(),
                    version: p.version.clone(),
                    install_path: p.install_path.clone(),
                },
            );
            i = i + 1;
        }
        assert(r@.map_values(|p: InstalledPackage| p@) =~= self@);
        r
    }

    /// The installed packages; the same records as `entries`.
    pub fn list_packages(&self) -> (r: Vec<InstalledPackage>)
        ensures
            r@.map_values(|p: InstalledPackage| p@) == self@,
    {
        self.entries()
    }

    fn find_key(&self, name: &String, version: &String) -> (r: Option<usize>)
        ensures
            r matches Some(i) ==> i < self@.len() && self@[i as int].name == name@
                && self@[i as int].version == version@,
            r is None ==> forall|i: int|
                0 <= i < self@.len() ==> !(self@[i].name == name@ && self@[i].version
                    == version@),
    {
        let mut i: usize = 0;
        while i < self.packages.len()
            invariant
                0 <= i <= self.packages@.len(),
                forall|k: int|
                    0 <= k < i ==> !(self@[k].name == name@ && self@[k].version == version@),
            decreases self.packages@.len() - i,
        {
            if self.packages[i].name == *name && self.packages[i].version == *version {
                return Some(i);
            }
            i = i + 1;
        }
        None
    }

    fn find_newest(&self, name: &String) -> (r: Option<usize>)
        ensures
            r matches Some(i) ==> is_newest(self@, name@, i as int),
            r is None ==> forall|i: int| 0 <= i < self@.len() ==> self@[i].name != name@,
    {
        let ghost s = self@;
        let mut best: Option<usize> = None;
        let mut i: usize = 0;
        while i < self.packages.len()
            invariant
                0 <= i <= self.packages@.len(),
                s == self@,
                best is None ==> forall|k: int| 0 <= k < i ==> s[k].name != name@,
                best matches Some(b) ==> b < i && s[b as int].name == name@ && forall|k: int|
                    0 <= k < i && #[trigger] s[k].name == name@ ==> lex_le(
                        encode_utf8(s[k].version),
                        encode_utf8(s[b as int].version),
                    ),
            decreases self.packages@.len() - i,
        {
            if self.packages[i].name == *name {
                match best {
                    None => {
                        proof {
                            lemma_lex_total(encode_utf8(s[i as int].version), encode_utf8(s[i as int].version));
                        }
                        best = Some(i);
                    },
                    Some(b) => {
                        let newer = bytes_le(
                            self.packages[b].version.as_str().as_bytes(),
                            self.packages[i].version.as_str().as_bytes(),
                        );
                        if newer {
                            proof {
                                let vb = encode_utf8(s[b as int].version);
                                let vi = encode_utf8(s[i as int].version);
                                assert forall|k: int| 0 <= k < i + 1 && #[trigger] s[k].name == name@ implies lex_le(
                                    encode_utf8(s[k].version),
                                    vi,
                                ) by {
                                    if k < i {
                                        lemma_lex_trans(encode_utf8(s[k].version), vb, vi);
                                    } else {
                                        lemma_lex_total(vi, vi);
                                    }
                                }
                            }
                            best = Some(i);
                        } else {
                            proof {
                                let vb = encode_utf8(s[b as int].version);
                                let vi = encode_utf8(s[i as int].version);
                                lemma_lex_total(vb, vi);
                            }
                        }
                    },
                }
            }
            i = i + 1;
        }
        best
    }

    /// Records `package`, replacing the record with the same name and version
    /// if there is one.
    pub fn add(&mut self, package: InstalledPackage)
        requires
            old(self).wf(),
        ensures
            final(self).wf(),
            final(self)@ == added(old(self)@, package@),
    {
        let ghost s = self@;
        proof {
            lemma_added_keeps_keys_unique(s, package@);
        }
        match self.find_key(&package.name, &package.version) {
            Some(i) => {
                proof {
                    assert(same_key(s[i as int], package@));
                    let k = key_index(s, package@).unwrap();
                    if k != i as int {
                        if k < i {
                            assert(!same_key(s[k], s[i as int]));
                        } else {
                            assert(!same_key(s[i as int], s[k]));
                        }
                    }
                }
                self.packages.set(i, package);
                assert(self@ =~= s.update(i as int, package@));
            },
            None => {
                self.packages.push(package);
                assert(self@ =~= s.push(package@));
            },
        }
    }

    /// Takes out and returns the record named `name` with the given version,
    /// or, with no version, the record named `name` whose version is greatest
    /// in byte order (so `2.0` before `10.0`: the comparison is not numeric).
    pub fn remove(&mut self, name: &str, version: Option<&str>) -> (r: Option<InstalledPackage>)
        requires
            old(self).wf(),
        ensures
            final(self).wf(),
            match removal_index(old(self)@, name@, version_view(version)) {
                Some(i) => r matches Some(p) && p@ == old(self)@[i] && final(self)@
                    == old(self)@.remove(i),
                None => r is None && final(self)@ == old(self)@,
            },
    {
        let ghost s = self@;
        let n = name.to_owned();
        let found = match version {
            Some(v) => {
                let vs = v.to_owned();
                let f = self.find_key(&n, &vs);
                proof {
                    if let Some(i) = f {
                        let k = removal_index(s, name@, Some(v@)).unwrap();
                        if k != i as int {
                            if k < i {
                                assert(!same_key(s[k], s[i as int]));
                            } else {
                                assert(!same_key(s[i as int], s[k]));
                            }
                        }
                    }
                }
                f
            },
            None => {
                let f = self.find_newest(&n);
                proof {
                    if let Some(i) = f {
                        lemma_newest_exists(s, name@);
                        let k = removal_index(s, name@, None).unwrap();
                        lemma_newest_unique(s, name@, i as int, k);
                    }
                }
                f
            },
        };
        match found {
            Some(i) => {
                let p = self.packages.remove(i);
                assert(self@ =~= s.remove(i as int));
                Some(p)
            },
            None => {
                proof {
                    if version is None {
                        assert(!(exists|i: int| 0 <= i < s.len() && s[i].name == name@));
                    }
                }
                None
            },
        }
    }
}

/// Adding the same record twice leaves the registry as one addition does,
/// with exactly one record under that name and version.
pub proof fn lemma_add_idempotent(s: Seq<PackageRecord>, r: PackageRecord)
    requires
        keys_unique(s),
    ensures
        added(added(s, r), r) == added(s, r),
        exists|i: int|
            0 <= i < added(s, r).len() && added(s, r)[i] == r && forall|j: int|
                0 <= j < added(s, r).len() && same_key(added(s, r)[j], r) ==> j == i,
{
    let t = added(s, r);
    lemma_added_keeps_keys_unique(s, r);
    let i = choose|i: int| 0 <= i < t.len() && t[i] == r;
    assert(same_key(t[i], r));
    let k = key_index(t, r).unwrap();
    if k != i {
        if k < i {
            assert(!same_key(t[k], t[i]));
        } else {
            assert(!same_key(t[i], t[k]));
        }
    }
    assert(added(t, r) =~= t);
    assert forall|j: int| 0 <= j < t.len() && same_key(t[j], r) implies j == i by {
        if j < i {
            assert(!same_key(t[j], t[i]));
        } else if j > i {
            assert(!same_key(t[i], t[j]));
        }
    }
}

pub proof fn lemma_newest_unique(s: Seq<PackageRecord>, name: Seq<char>, i: int, k: int)
    requires
        keys_unique(s),
        is_newest(s, name, i),
        is_newest(s, name, k),
    ensures
        i == k,
{
    let vk = s[k].version;
    let vi = s[i].version;
    lemma_lex_antisym(encode_utf8(vk), encode_utf8(vi));
    encode_utf8_decode_utf8(vk);
    encode_utf8_decode_utf8(vi);
    if k < i {
        assert(!same_key(s[k], s[i]));
    } else if k > i {
        assert(!same_key(s[i], s[k]));
    }
}

proof fn lemma_newest_upto(s: Seq<PackageRecord>, name: Seq<char>, n: int)
    requires
        0 < n <= s.len(),
        exists|j: int| 0 <= j < n && s[j].name == name,
    ensures
        exists|i: int|
            0 <= i < n && s[i].name == name && forall|j: int|
                0 <= j < n && #[trigger] s[j].name == name ==> lex_le(
                    encode_utf8(s[j].version),
                    encode_utf8(s[i].version),
                ),
    decreases n,
{
    let last = n - 1;
    if exists|j: int| 0 <= j < last && s[j].name == name {
        lemma_newest_upto(s, name, last);
        let i = choose|i: int|
            0 <= i < last && s[i].name == name && forall|j: int|
                0 <= j < last && #[trigger] s[j].name == name ==> lex_le(
                    encode_utf8(s[j].version),
                    encode_utf8(s[i].version),
                );
        let vi = encode_utf8(s[i].version);
        let vl = encode_utf8(s[last].version);
        if s[last].name == name && !lex_le(vl, vi) {
            lemma_lex_total(vl, vi);
            assert forall|j: int| 0 <= j < n && #[trigger] s[j].name == name implies lex_le(
                encode_utf8(s[j].version),
                vl,
            ) by {
                if j < last {
                    lemma_lex_trans(encode_utf8(s[j].version), vi, vl);
                } else {
                    lemma_lex_total(vl, vl);
                }
            }
            assert(0 <= last < n && s[last].name == name);
        } else {
            assert forall|j: int| 0 <= j < n && #[trigger] s[j].name == name implies lex_le(
                encode_utf8(s[j].version),
                vi,
            ) by {}
        }
    } else {
        let vl = encode_utf8(s[last].version);
        lemma_lex_total(vl, vl);
        assert(s[last].name == name);
        assert forall|j: int| 0 <= j < n && #[trigger] s[j].name == name implies lex_le(
            encode_utf8(s[j].version),
            vl,
        ) by {
            assert(j == last);
        }
    }
}

/// Whenever a record has the name, one of the records with that name has
/// the greatest version.
pub proof fn lemma_newest_exists(s: Seq<PackageRecord>, name: Seq<char>)
    ensures
        (exists|j: int| 0 <= j < s.len() && s[j].name == name) ==> exists|i: int|
            is_newest(s, name, i),
{
    if exists|j: int| 0 <= j < s.len() && s[j].name == name {
        lemma_newest_upto(s, name, s.len() as int);
        let i = choose|i: int|
            0 <= i < s.len() && s[i].name == name && forall|j: int|
                0 <= j < s.len() && #[trigger] s[j].name == name ==> lex_le(
                    encode_utf8(s[j].version),
                    encode_utf8(s[i].version),
                );
        assert(is_newest(s, name, i));
    }
}

/// Removal by name alone does not depend on the order in which records were
/// added: two registries that hold the same records select the same record.
pub proof fn lemma_remove_ignores_order(s1: Seq<PackageRecord>, s2: Seq<PackageRecord>, name: Seq<char>)
    requires
        keys_unique(s1),
        keys_unique(s2),
        forall|r: PackageRecord| s1.contains(r) <==> s2.contains(r),
    ensures
        removal_index(s1, name, None) is Some <==> removal_index(s2, name, None) is Some,
        removal_index(s1, name, None) matches Some(i) ==> s1[i] == s2[removal_index(s2, name, None)->Some_0],
{
    lemma_newest_exists(s1, name);
    lemma_newest_exists(s2, name);
    if exists|j: int| 0 <= j < s1.len() && s1[j].name == name {
        let j = choose|j: int| 0 <= j < s1.len() && s1[j].name == name;
        assert(s1.contains(s1[j]));
        let k = choose|k: int| 0 <= k < s2.len() && s2[k] == s1[j];
        assert(s2[k].name == name);
    }
    if exists|j: int| 0 <= j < s2.len() && s2[j].name == name {
        let j = choose|j: int| 0 <= j < s2.len() && s2[j].name == name;
        assert(s2.contains(s2[j]));
        let k = choose|k: int| 0 <= k < s1.len() && s1[k] == s2[j];
        assert(s1[k].name == name);
    }
    if let Some(i) = removal_index(s1, name, None) {
        let j = removal_index(s2, name, None).unwrap();
        assert(is_newest(s1, name, i));
        assert(is_newest(s2, name, j));
        assert(s1.contains(s1[i]));
        let k = choose|k: int| 0 <= k < s2.len() && s2[k] == s1[i];
        assert forall|q: int| 0 <= q < s2.len() && #[trigger] s2[q].name == name implies lex_le(
            encode_utf8(s2[q].version),
            encode_utf8(s2[k].version),
        ) by {
            assert(s2.contains(s2[q]));
            let p = choose|p: int| 0 <= p < s1.len() && s1[p] == s2[q];
            assert(s1[p].name == name);
        }
        assert(is_newest(s2, name, k));
        lemma_newest_unique(s2, name, j, k);
    }
}

/// The records listed by `entries` of a well-formed registry have unique
/// names and versions, which is what `from_entries` asks to rebuild them.
pub proof fn lemma_entries_round_trip(reg: PackageRegistry, entries: Seq<InstalledPackage>)
    requires
        reg.wf(),
        entries.map_values(|p: InstalledPackage| p@) == reg@,
    ensures
        keys_unique(entries.map_values(|p: InstalledPackage| p@)),
{
}

} // verus!
