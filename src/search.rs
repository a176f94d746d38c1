use vstd::prelude::*;
use vstd::string::StringSliceAdditionalSpecFns;
use vstd::utf8::encode_utf8;
use crate::catalog::{Constellation, PackageMetadata};

verus! {

broadcast use vstd::seq_lib::group_to_multiset_ensures;

/// ASCII lower case of a byte; other bytes are left alone.
pub open spec fn ascii_lower(x: u8) -> u8 {
    if 65u8 <= x <= 90u8 {
        (x + 32) as u8
    } else {
        x
    }
}

/// Equal up to ASCII case.
pub open spec fn eq_ascii_ci(a: Seq<u8>, b: Seq<u8>) -> bool {
    a.len() == b.len() && forall|i: int| 0 <= i < a.len() ==> ascii_lower(a[i]) == ascii_lower(b[i])
}

/// `q` occurs in `h` as a run of bytes.
pub open spec fn contains_bytes(h: Seq<u8>, q: Seq<u8>) -> bool {
    exists|i: int| 0 <= i && i + q.len() <= h.len() && #[trigger] h.subrange(i, i + q.len()) == q
}

/// A package name matches a query when it contains the query or equals it up
/// to ASCII case.
pub open spec fn name_matches(name: Seq<u8>, query: Seq<u8>) -> bool {
    contains_bytes(name, query) || eq_ascii_ci(name, query)
}

/// Byte-wise lexicographic order, the order of `str`.
pub open spec fn lex_le(a: Seq<u8>, b: Seq<u8>) -> bool
    decreases a.len(),
{
    if a.len() == 0 {
        true
    } else if b.len() == 0 {
        false
    } else if a[0] != b[0] {
        a[0] < b[0]
    } else {
        lex_le(a.drop_first(), b.drop_first())
    }
}

pub proof fn lemma_lex_total(a: Seq<u8>, b: Seq<u8>)
    ensures
        lex_le(a, b) || lex_le(b, a),
    decreases a.len(),
{
    if a.len() > 0 && b.len() > 0 && a[0] == b[0] {
        lemma_lex_total(a.drop_first(), b.drop_first());
    }
}

pub proof fn lemma_lex_trans(a: Seq<u8>, b: Seq<u8>, c: Seq<u8>)
    requires
        lex_le(a, b),
        lex_le(b, c),
    ensures
        lex_le(a, c),
    decreases a.len(),
{
    if a.len() > 0 && b.len() > 0 && c.len() > 0 && a[0] == b[0] && b[0] == c[0] {
        lemma_lex_trans(a.drop_first(), b.drop_first(), c.drop_first());
    }
}

pub proof fn lemma_lex_antisym(a: Seq<u8>, b: Seq<u8>)
    requires
        lex_le(a, b),
        lex_le(b, a),
    ensures
        a == b,
    decreases a.len(),
{
    if a.len() > 0 && b.len() > 0 {
        lemma_lex_antisym(a.drop_first(), b.drop_first());
        assert(a =~= seq![a[0]] + a.drop_first());
        assert(b =~= seq![b[0]] + b.drop_first());
    }
}

/// Whether `a` comes before `b` in byte order, or equals it.
pub fn bytes_le(a: &[u8], b: &[u8]) -> (r: bool)
    ensures
        r == lex_le(a@, b@),
{
    let mut i: usize = 0;
    assert(a@.subrange(0, a@.len() as int) =~= a@);
    assert(b@.subrange(0, b@.len() as int) =~= b@);
    while i < a.len() && i < b.len() && a[i] == b[i]
        invariant
            0 <= i <= a@.len(),
            i <= b@.len(),
            lex_le(a@, b@) == lex_le(a@.subrange(i as int, a@.len() as int), b@.subrange(i as int, b@.len() as int)),
        decreases a@.len() - i,
    {
        let ghost x = a@.subrange(i as int, a@.len() as int);
        let ghost y = b@.subrange(i as int, b@.len() as int);
        assert(x.drop_first() =~= a@.subrange(i + 1, a@.len() as int));
        assert(y.drop_first() =~= b@.subrange(i + 1, b@.len() as int));
        i = i + 1;
    }
    let ghost x = a@.subrange(i as int, a@.len() as int);
    let ghost y = b@.subrange(i as int, b@.len() as int);
    if i == a.len() {
        assert(x.len() == 0);
        true
    } else if i == b.len() {
        assert(y.len() == 0);
        false
    } else {
        assert(x[0] == a@[i as int] && y[0] == b@[i as int]);
        a[i] < b[i]
    }
}

/// Order of (name, index) pairs: by name, then by index.
pub open spec fn pair_le(x: (String, usize), y: (String, usize)) -> bool {
    let a = encode_utf8(x.0@);
    let b = encode_utf8(y.0@);
    if a == b {
        x.1 <= y.1
    } else {
        lex_le(a, b)
    }
}

/// Relies on `slice::sort`: afterwards the vector holds the same items, in
/// ascending order; strings compare by their bytes and tuples field by field.
#[verifier::external_body]
fn sort_pairs(v: &mut Vec<(String, usize)>)
    ensures
        final(v)@.to_multiset() == old(v)@.to_multiset(),
        forall|i: int, j: int| 0 <= i < j < final(v)@.len() ==> pair_le(final(v)@[i], final(v)@[j]),
{
    v.sort();
}

/// Whether `a` and `b` are equal up to ASCII case.
pub fn eq_ignore_ascii_case(a: &str, b: &str) -> (r: bool)
    ensures
        r == eq_ascii_ci(a.spec_bytes(), b.spec_bytes()),
{
    let x = a.as_bytes();
    let y = b.as_bytes();
    if x.len() != y.len() {
        return false;
    }
    let mut i: usize = 0;
    while i < x.len()
        invariant
            x@ == a.spec_bytes(),
            y@ == b.spec_bytes(),
            x@.len() == y@.len(),
            0 <= i <= x@.len(),
            forall|k: int| 0 <= k < i ==> ascii_lower(x@[k]) == ascii_lower(y@[k]),
        decreases x@.len() - i,
    {
        let p = x[i];
        let q = y[i];
        let lp = if 65u8 <= p && p <= 90u8 { p + 32 } else { p };
        let lq = if 65u8 <= q && q <= 90u8 { q + 32 } else { q };
        assert(lp == ascii_lower(x@[i as int]) && lq == ascii_lower(y@[i as int]));
        if lp != lq {
            return false;
        }
        i = i + 1;
    }
    true
}

/// Whether `q` occurs in `h`.
pub fn contains(h: &str, q: &str) -> (r: bool)
    ensures
        r == contains_bytes(h.spec_bytes(), q.spec_bytes()),
{
    let x = h.as_bytes();
    let y = q.as_bytes();
    if y.len() > x.len() {
        return false;
    }
    let xl = x.len();
    let last = xl - y.len();
    let mut i: usize = 0;
    while i <= last
        invariant
            x@ == h.spec_bytes(),
            y@ == q.spec_bytes(),
            xl == x@.len(),
            last == x@.len() - y@.len(),
            y@.len() <= x@.len(),
            0 <= i <= last + 1,
            forall|s: int| 0 <= s < i ==> #[trigger] x@.subrange(s, s + y@.len()) != y@,
        decreases last + 1 - i,
    {
        let mut j: usize = 0;
        let mut same = true;
        while j < y.len()
            invariant
                xl == x@.len(),
                last == x@.len() - y@.len(),
                y@.len() <= x@.len(),
                i <= last,
                0 <= j <= y@.len(),
                same <==> forall|k: int| 0 <= k < j ==> x@[i + k] == y@[k],
            decreases y@.len() - j,
        {
            if x[i + j] != y[j] {
                same = false;
            }
            j = j + 1;
        }
        if same {
            assert(x@.subrange(i as int, i + y@.len()) =~= y@);
            return true;
        }
        proof {
            let k = choose|k: int| 0 <= k < y@.len() && x@[i + k] != y@[k];
            assert(x@.subrange(i as int, i + y@.len())[k] != y@[k]);
        }
        assert(i < xl);
        i = i + 1;
    }
    assert forall|s: int| 0 <= s && s + y@.len() <= x@.len() implies #[trigger] x@.subrange(s, s + y@.len()) != y@ by {
        assert(s < i);
    }
    false
}

/// Whether a package name matches a query.
pub fn matches_query(name: &str, query: &str) -> (r: bool)
    ensures
        r == name_matches(name.spec_bytes(), query.spec_bytes()),
{
    contains(name, query) || eq_ignore_ascii_case(name, query)
}

/// Whether a catalog source is searched when `name` is asked for.
pub open spec fn source_selected(c: Constellation, name: Option<&str>) -> bool {
    match name {
        Some(n) => eq_ascii_ci(encode_utf8(c.name@), n.spec_bytes()),
        None => true,
    }
}

/// Indices below `n` of the sources that are searched, in list order.
pub open spec fn selected_upto(cs: Seq<Constellation>, name: Option<&str>, n: int) -> Seq<usize>
    decreases n,
{
    if n <= 0 {
        Seq::empty()
    } else if source_selected(cs[n - 1], name) {
        selected_upto(cs, name, n - 1).push((n - 1) as usize)
    } else {
        selected_upto(cs, name, n - 1)
    }
}

/// The catalog sources to search: all of them without a name, else those
/// whose name equals `name` up to ASCII case (indices, in list order).
pub fn select_constellations(cs: &Vec<Constellation>, name: Option<&str>) -> (r: Vec<usize>)
    ensures
        r@ == selected_upto(cs@, name, cs@.len() as int),
{
    let mut r: Vec<usize> = Vec::new();
    let mut i: usize = 0;
    while i < cs.len()
        invariant
            0 <= i <= cs@.len(),
            r@ == selected_upto(cs@, name, i as int),
        decreases cs@.len() - i,
    {
        let keep = match name {
            Some(n) => eq_ignore_ascii_case(cs[i].name.as_str(), n),
            None => true,
        };
        if keep {
            r.push(i);
        }
        i = i + 1;
    }
    r
}

/// Indices below `n` of the catalog's packages whose name matches `query`,
/// with their names, in catalog order.
pub open spec fn matching_upto(cat: Seq<PackageMetadata>, query: Seq<u8>, n: int) -> Seq<usize>
    decreases n,
{
    if n <= 0 {
        Seq::empty()
    } else if name_matches(encode_utf8(cat[n - 1].name@), query) {
        matching_upto(cat, query, n - 1).push((n - 1) as usize)
    } else {
        matching_upto(cat, query, n - 1)
    }
}

/// The packages of `catalog` whose name matches `query`, as catalog indices
/// ordered by name (bytewise), equal names in catalog order.
pub fn search_packages(catalog: &Vec<PackageMetadata>, query: &str) -> (r: Vec<usize>)
    ensures
        r@.len() == matching_upto(catalog@, query.spec_bytes(), catalog@.len() as int).len(),
        forall|x: usize|
            r@.contains(x) <==> matching_upto(catalog@, query.spec_bytes(), catalog@.len() as int).contains(x),
        forall|i: int, j: int|
            0 <= i < j < r@.len() ==> pair_le(
                (catalog@[r@[i] as int].name, r@[i]),
                (catalog@[r@[j] as int].name, r@[j]),
            ),
{
    let mut pairs: Vec<(String, usize)> = Vec::new();
    let mut idx: Vec<usize> = Vec::new();
    let mut i: usize = 0;
    while i < catalog.len()
        invariant
            0 <= i <= catalog@.len(),
            idx@ == matching_upto(catalog@, query.spec_bytes(), i as int),
            pairs@.len() == idx@.len(),
            forall|k: int| 0 <= k < idx@.len() ==> idx@[k] < catalog@.len(),
            forall|k: int| 0 <= k < pairs@.len() ==> pairs@[k].1 == idx@[k] && pairs@[k].0@ == catalog@[idx@[k] as int].name@,
        decreases catalog@.len() - i,
    {
        if matches_query(catalog[i].name.as_str(), query) {
            pairs.push((catalog[i].name.clone(), i));
            idx.push(i);
        }
        i = i + 1;
    }
    let ghost before = pairs@;
    sort_pairs(&mut pairs);
    let mut r: Vec<usize> = Vec::new();
    let mut k: usize = 0;
    while k < pairs.len()
        invariant
            0 <= k <= pairs@.len(),
            r@.len() == k,
            forall|m: int| 0 <= m < k ==> r@[m] == pairs@[m].1,
        decreases pairs@.len() - k,
    {
        r.push(pairs[k].1);
        k = k + 1;
    }
    let ghost after = pairs@;
    proof {
        assert(after.len() == before.len()) by {
            assert(after.to_multiset().len() == before.to_multiset().len());
        }
        assert forall|m: int| 0 <= m < after.len() implies before.contains(#[trigger] after[m]) by {
            assert(after.contains(after[m]));
            assert(after.to_multiset().count(after[m]) > 0);
        }
        assert forall|m: int| 0 <= m < before.len() implies after.contains(#[trigger] before[m]) by {
            assert(before.contains(before[m]));
            assert(before.to_multiset().count(before[m]) > 0);
        }
        assert forall|m: int| 0 <= m < after.len() implies after[m].1 < catalog@.len()
            && after[m].0@ == catalog@[after[m].1 as int].name@ by {
            assert(before.contains(after[m]));
            let q = choose|q: int| 0 <= q < before.len() && before[q] == after[m];
            assert(before[q].1 == idx@[q]);
        }
        assert forall|x: usize| r@.contains(x) <==> idx@.contains(x) by {
            if r@.contains(x) {
                let m = choose|m: int| 0 <= m < r@.len() && r@[m] == x;
                assert(before.contains(after[m]));
                let q = choose|q: int| 0 <= q < before.len() && before[q] == after[m];
                assert(idx@[q] == x);
            }
            if idx@.contains(x) {
                let q = choose|q: int| 0 <= q < idx@.len() && idx@[q] == x;
                assert(after.contains(before[q]));
                let m = choose|m: int| 0 <= m < after.len() && after[m] == before[q];
                assert(r@[m] == x);
            }
        }
        assert forall|i: int, j: int| 0 <= i < j < r@.len() implies pair_le(
            (catalog@[r@[i] as int].name, r@[i]),
            (catalog@[r@[j] as int].name, r@[j]),
        ) by {
            assert(pair_le(after[i], after[j]));
            assert(after[i].0@ == catalog@[after[i].1 as int].name@);
            assert(after[j].0@ == catalog@[after[j].1 as int].name@);
        }
    }
    r
}

} // verus!
