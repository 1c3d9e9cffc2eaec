//! Lockfiles, the matching engine and the report it produces.
use vstd::prelude::*;
use crate::advisory::{
    Advisory, AdvisoryDatabase, is_vulnerable, ids_unique, crate_positions, lemma_crate_positions, positions_view,
};
use crate::range::{ComparatorV, Op, lower, range_matches, group_matches, comparator_matches};
use crate::version::{Version, VersionV, VersionParseError, version_lt};

verus! {

/// One resolved dependency of a lockfile.
#[derive(Debug, Clone, PartialEq, Eq)]
pub struct Package {
    pub name: String,
    pub version: Version,
}

impl Package {
    /// A package named `name` at the version that `version` spells.
    pub fn parse(name: &str, version: &str) -> (r: Result<Package, VersionParseError>)
        ensures
            r is Ok <==> crate::version::parse_version(version@) is Some,
            r is Ok ==> r.unwrap().name@ == name@ && r.unwrap().version@
                == crate::version::parse_version(version@).unwrap(),
    {
        match Version::parse(version) {
            Ok(v) => Ok(Package { name: name.to_string(), version: v }),
            Err(e) => Err(e),
        }
    }
}

/// The resolved packages under audit, in lockfile order.
#[derive(Debug, Clone, PartialEq, Eq)]
pub struct Lockfile {
    pub packages: Vec<Package>,
}

/// One report line: the package at `package` in the lockfile is vulnerable to
/// the advisory at `advisory` in the database.
#[derive(Debug, Clone, Copy, PartialEq, Eq, Structural)]
pub struct VulnerabilityMatch {
    pub package: usize,
    pub advisory: usize,
}

/// The matches of one scan, in lockfile order and, within a package, in
/// advisory insertion order.
#[derive(Debug, Clone, PartialEq, Eq)]
pub struct VulnerabilityReport {
    pub matches: Vec<VulnerabilityMatch>,
}

pub open spec fn matches_view(s: Seq<VulnerabilityMatch>) -> Seq<(int, int)> {
    s.map_values(|m: VulnerabilityMatch| (m.package as int, m.advisory as int))
}

impl View for VulnerabilityReport {
    type V = Seq<(int, int)>;

    open spec fn view(&self) -> Seq<(int, int)> {
        matches_view(self.matches@)
    }
}

/// An advisory applies to a package when it names the package's crate exactly
/// and the package's version is vulnerable to it.
pub open spec fn applies(p: Package, a: Advisory) -> bool {
    a.crate_name@ == p.name@ && is_vulnerable(a, p.version@)
}

/// The matches of package `pi` against the first `n` advisories, in order.
pub open spec fn package_matches(pkgs: Seq<Package>, pi: int, advs: Seq<Advisory>, n: int) -> Seq<(int, int)>
    decreases n,
{
    if n <= 0 {
        Seq::empty()
    } else {
        let rest = package_matches(pkgs, pi, advs, n - 1);
        if applies(pkgs[pi], advs[n - 1]) {
            rest.push((pi, n - 1))
        } else {
            rest
        }
    }
}

/// The matches of the first `m` packages against every advisory.
pub open spec fn scan_prefix(pkgs: Seq<Package>, advs: Seq<Advisory>, m: int) -> Seq<(int, int)>
    decreases m,
{
    if m <= 0 {
        Seq::empty()
    } else {
        scan_prefix(pkgs, advs, m - 1) + package_matches(pkgs, m - 1, advs, advs.len() as int)
    }
}

/// The report of a scan, as (package position, advisory position) pairs.
pub open spec fn scan_spec(pkgs: Seq<Package>, advs: Seq<Advisory>) -> Seq<(int, int)> {
    scan_prefix(pkgs, advs, pkgs.len() as int)
}

impl VulnerabilityReport {
    /// The number of matches.
    pub fn count(&self) -> (r: usize)
        ensures
            r == self@.len(),
    {
        self.matches.len()
    }

    /// Whether no package is vulnerable.
    pub fn is_empty(&self) -> (r: bool)
        ensures
            r == (self@.len() == 0),
    {
        self.matches.len() == 0
    }

    /// The match at position `i`.
    pub fn get(&self, i: usize) -> (r: VulnerabilityMatch)
        requires
            i < self@.len(),
        ensures
            (r.package as int, r.advisory as int) == self@[i as int],
    {
        self.matches[i]
    }
}

/// Checks every package of `lockfile` against the advisories for its crate.
pub fn scan(lockfile: &Lockfile, db: &AdvisoryDatabase) -> (r: VulnerabilityReport)
    requires
        db.wf(),
    ensures
        r@ == scan_spec(lockfile.packages@, db@),
{
    let ghost pkgs = lockfile.packages@;
    let ghost advs = db@;
    let mut out: Vec<VulnerabilityMatch> = Vec::new();
    let mut i: usize = 0;
    while i < lockfile.packages.len()
        invariant
            pkgs == lockfile.packages@,
            advs == db@,
            db.wf(),
            i <= pkgs.len(),
            matches_view(out@) == scan_prefix(pkgs, advs, i as int),
        decreases pkgs.len() - i,
    {
        let p = &lockfile.packages[i];
        let found = db.find_by_crate(p.name.as_str());
        let ghost ps = crate_positions(advs, p.name@);
        proof {
            lemma_crate_positions(advs, p.name@);
            assert forall|k: int| 0 <= k < found@.len() implies found@[k] as int == #[trigger] ps[k] by {
                assert(positions_view(found@)[k] == found@[k] as int);
            }
        }
        let ghost before = matches_view(out@);
        assert(package_matches(pkgs, i as int, advs, 0) =~= Seq::<(int, int)>::empty());
        assert(before + package_matches(pkgs, i as int, advs, 0) =~= before);
        let mut k: usize = 0;
        while k < found.len()
            invariant
                pkgs == lockfile.packages@,
                advs == db@,
                i < pkgs.len(),
                *p == pkgs[i as int],
                ps == crate_positions(advs, p.name@),
                found@.len() == ps.len(),
                forall|x: int| 0 <= x < found@.len() ==> found@[x] as int == #[trigger] ps[x],
                forall|a: int, b: int| 0 <= a < b < ps.len() ==> #[trigger] ps[a] < #[trigger] ps[b],
                forall|x: int|
                    0 <= x < ps.len() ==> 0 <= #[trigger] ps[x] < advs.len() && advs[ps[x]].crate_name@
                        == p.name@,
                forall|j: int|
                    0 <= j < advs.len() && advs[j].crate_name@ == p.name@ ==> #[trigger] ps.contains(j),
                k <= found@.len(),
                matches_view(out@) == before + package_matches(
                    pkgs,
                    i as int,
                    advs,
                    if k == 0 { 0 } else { ps[k - 1] + 1 },
                ),
            decreases found@.len() - k,
        {
            let j = found[k];
            let ghost from: int = if k == 0 { 0 } else { ps[k - 1] + 1 };
            assert(j as int == ps[k as int]);
            assert(0 <= ps[k as int] < advs.len());
            assert(k > 0 ==> ps[k - 1] < ps[k as int]);
            proof {
                lemma_no_hits_between(pkgs, i as int, advs, ps, from, j as int);
            }
            let a = db.get(j);
            let ghost prev = out@;
            let hit = a.is_version_vulnerable(&p.version);
            assert(hit == applies(pkgs[i as int], advs[j as int]));
            if hit {
                out.push(VulnerabilityMatch { package: i, advisory: j });
                assert(out@ =~= prev.push(VulnerabilityMatch { package: i, advisory: j }));
            }
            k += 1;
            assert(matches_view(out@) =~= before + package_matches(pkgs, i as int, advs, j + 1)) by {
                if hit {
                    assert(matches_view(out@) =~= matches_view(prev).push((i as int, j as int)));
                } else {
                    assert(out@ == prev);
                }
            }
        }
        proof {
            let from: int = if k == 0 { 0 } else { ps[k - 1] + 1 };
            lemma_no_hits_between(pkgs, i as int, advs, ps, from, advs.len() as int);
        }
        i += 1;
    }
    VulnerabilityReport { matches: out }
}

proof fn lemma_package_matches_members(pkgs: Seq<Package>, pi: int, advs: Seq<Advisory>, n: int)
    requires
        0 <= pi < pkgs.len(),
        0 <= n <= advs.len(),
    ensures
        forall|x: (int, int)| #[trigger] package_matches(pkgs, pi, advs, n).contains(x) <==> (x.0
            == pi && 0 <= x.1 < n && applies(pkgs[pi], advs[x.1])),
    decreases n,
{
    if n > 0 {
        lemma_package_matches_members(pkgs, pi, advs, n - 1);
        let rest = package_matches(pkgs, pi, advs, n - 1);
        assert forall|x: (int, int)| #[trigger] package_matches(pkgs, pi, advs, n).contains(x) <==> (
        x.0 == pi && 0 <= x.1 < n && applies(pkgs[pi], advs[x.1])) by {
            if applies(pkgs[pi], advs[n - 1]) {
                let full = rest.push((pi, n - 1));
                if full.contains(x) {
                    let k = choose|k: int| 0 <= k < full.len() && full[k] == x;
                    if k < rest.len() {
                        assert(rest.contains(x));
                    }
                }
                if rest.contains(x) {
                    let k = choose|k: int| 0 <= k < rest.len() && rest[k] == x;
                    assert(full[k] == x);
                }
                if x == (pi, n - 1) {
                    assert(full[rest.len() as int] == x);
                }
            }
        }
    }
}

proof fn lemma_concat_contains(a: Seq<(int, int)>, b: Seq<(int, int)>, x: (int, int))
    ensures
        (a + b).contains(x) <==> a.contains(x) || b.contains(x),
{
    if (a + b).contains(x) {
        let k = choose|k: int| 0 <= k < (a + b).len() && (a + b)[k] == x;
        if k < a.len() {
            assert(a[k] == x);
        } else {
            assert(b[k - a.len()] == x);
        }
    }
    if a.contains(x) {
        let k = choose|k: int| 0 <= k < a.len() && a[k] == x;
        assert((a + b)[k] == x);
    }
    if b.contains(x) {
        let k = choose|k: int| 0 <= k < b.len() && b[k] == x;
        assert((a + b)[k + a.len()] == x);
    }
}

proof fn lemma_scan_prefix_members(pkgs: Seq<Package>, advs: Seq<Advisory>, m: int)
    requires
        0 <= m <= pkgs.len(),
    ensures
        forall|x: (int, int)| #[trigger] scan_prefix(pkgs, advs, m).contains(x) <==> (0 <= x.0 < m
            && 0 <= x.1 < advs.len() && applies(pkgs[x.0], advs[x.1])),
    decreases m,
{
    if m > 0 {
        lemma_scan_prefix_members(pkgs, advs, m - 1);
        lemma_package_matches_members(pkgs, m - 1, advs, advs.len() as int);
        assert forall|x: (int, int)| #[trigger] scan_prefix(pkgs, advs, m).contains(x) <==> (0
            <= x.0 < m && 0 <= x.1 < advs.len() && applies(pkgs[x.0], advs[x.1])) by {
            lemma_concat_contains(
                scan_prefix(pkgs, advs, m - 1),
                package_matches(pkgs, m - 1, advs, advs.len() as int),
                x,
            );
        }
    }
}

/// A pair is reported exactly when the advisory names the package's crate and
/// the package's version is vulnerable to it.
pub proof fn lemma_scan_members(pkgs: Seq<Package>, advs: Seq<Advisory>, i: int, j: int)
    ensures
        scan_spec(pkgs, advs).contains((i, j)) <==> (0 <= i < pkgs.len() && 0 <= j < advs.len()
            && applies(pkgs[i], advs[j])),
{
    lemma_scan_prefix_members(pkgs, advs, pkgs.len() as int);
}

/// Scanning is a function of its inputs: two reports on the same lockfile and
/// database hold the same matches in the same order.
pub proof fn lemma_scan_deterministic(
    l: Lockfile,
    d: AdvisoryDatabase,
    r1: VulnerabilityReport,
    r2: VulnerabilityReport,
)
    requires
        r1@ == scan_spec(l.packages@, d@),
        r2@ == scan_spec(l.packages@, d@),
    ensures
        r1.matches@ == r2.matches@,
{
    assert(r1.matches@.len() == r1@.len());
    assert(r2.matches@.len() == r2@.len());
    assert forall|k: int| 0 <= k < r1.matches@.len() implies r1.matches@[k] == r2.matches@[k] by {
        assert(r1@[k] == r2@[k]);
    }
    assert(r1.matches@ =~= r2.matches@);
}

/// The reported (package position, advisory) pairs, whatever the advisory's position.
pub open spec fn reported_pairs(pkgs: Seq<Package>, advs: Seq<Advisory>) -> Set<(int, Advisory)> {
    Set::new(
        |m: (int, Advisory)|
            exists|j: int|
                0 <= j < advs.len() && advs[j] == m.1 && #[trigger] scan_spec(pkgs, advs).contains(
                    (m.0, j),
                ),
    )
}

proof fn lemma_reported_pairs_members(pkgs: Seq<Package>, advs: Seq<Advisory>)
    ensures
        reported_pairs(pkgs, advs) == Set::new(
            |m: (int, Advisory)|
                0 <= m.0 < pkgs.len() && advs.contains(m.1) && applies(pkgs[m.0], m.1),
        ),
{
    assert forall|m: (int, Advisory)| #[trigger] reported_pairs(pkgs, advs).contains(m) <==> (0
        <= m.0 < pkgs.len() && advs.contains(m.1) && applies(pkgs[m.0], m.1)) by {
        if reported_pairs(pkgs, advs).contains(m) {
            let j = choose|j: int|
                0 <= j < advs.len() && advs[j] == m.1 && #[trigger] scan_spec(pkgs, advs).contains(
                    (m.0, j),
                );
            lemma_scan_members(pkgs, advs, m.0, j);
        }
        if 0 <= m.0 < pkgs.len() && advs.contains(m.1) && applies(pkgs[m.0], m.1) {
            let j = choose|j: int| 0 <= j < advs.len() && advs[j] == m.1;
            lemma_scan_members(pkgs, advs, m.0, j);
        }
    }
    assert(reported_pairs(pkgs, advs) =~= Set::new(
        |m: (int, Advisory)| 0 <= m.0 < pkgs.len() && advs.contains(m.1) && applies(pkgs[m.0], m.1),
    ));
}

/// The reported (package position, advisory) pairs, in report order.
pub open spec fn reported_seq(pkgs: Seq<Package>, advs: Seq<Advisory>) -> Seq<(int, Advisory)> {
    scan_spec(pkgs, advs).map_values(|x: (int, int)| (x.0, advs[x.1]))
}

proof fn lemma_reported_seq(pkgs: Seq<Package>, advs: Seq<Advisory>)
    requires
        ids_unique(advs),
    ensures
        reported_seq(pkgs, advs).no_duplicates(),
        reported_seq(pkgs, advs).to_set() == reported_pairs(pkgs, advs),
{
    let sc = scan_spec(pkgs, advs);
    let rs = reported_seq(pkgs, advs);
    lemma_scan_ordered(pkgs, advs);
    assert forall|k: int| 0 <= k < sc.len() implies 0 <= (#[trigger] sc[k]).1 < advs.len() by {
        assert(sc.contains(sc[k]));
        lemma_scan_members(pkgs, advs, sc[k].0, sc[k].1);
    }
    assert forall|a: int, b: int| 0 <= a < rs.len() && 0 <= b < rs.len() && a != b implies rs[a]
        != rs[b] by {
        if a < b {
            assert(pair_lt(sc[a], sc[b]));
        } else {
            assert(pair_lt(sc[b], sc[a]));
        }
        assert(0 <= sc[a].1 < advs.len() && 0 <= sc[b].1 < advs.len());
        if sc[a].0 == sc[b].0 && sc[a].1 != sc[b].1 {
            if sc[a].1 < sc[b].1 {
                assert(advs[sc[a].1].id@ != advs[sc[b].1].id@);
            } else {
                assert(advs[sc[b].1].id@ != advs[sc[a].1].id@);
            }
        }
    }
    assert forall|m: (int, Advisory)| rs.to_set().contains(m) <==> #[trigger] reported_pairs(pkgs, advs).contains(m) by {
        if rs.to_set().contains(m) {
            assert(rs.contains(m));
            let k = choose|k: int| 0 <= k < rs.len() && rs[k] == m;
            assert(sc.contains(sc[k]));
            assert(sc[k] == (m.0, sc[k].1));
        }
        if reported_pairs(pkgs, advs).contains(m) {
            let j = choose|j: int|
                0 <= j < advs.len() && advs[j] == m.1 && #[trigger] sc.contains((m.0, j));
            let k = choose|k: int| 0 <= k < sc.len() && sc[k] == (m.0, j);
            assert(rs[k] == m);
            assert(rs.contains(m));
        }
    }
    assert(rs.to_set() =~= reported_pairs(pkgs, advs));
}

/// Feeding the same advisories (no two sharing an id) in another order changes
/// which positions are reported, never which (package, advisory) pairs are,
/// nor how many: each pair is reported once in either order.
pub proof fn lemma_scan_ignores_advisory_order(l: Lockfile, d1: AdvisoryDatabase, d2: AdvisoryDatabase)
    requires
        d1@.to_multiset() == d2@.to_multiset(),
        ids_unique(d1@),
        ids_unique(d2@),
    ensures
        reported_pairs(l.packages@, d1@) == reported_pairs(l.packages@, d2@),
        reported_seq(l.packages@, d1@).to_set() == reported_seq(l.packages@, d2@).to_set(),
        reported_seq(l.packages@, d1@).no_duplicates(),
        reported_seq(l.packages@, d2@).no_duplicates(),
        reported_seq(l.packages@, d1@).len() == reported_seq(l.packages@, d2@).len(),
{
    let a1 = d1@;
    let a2 = d2@;
    a1.to_multiset_ensures();
    a2.to_multiset_ensures();
    lemma_reported_pairs_members(l.packages@, a1);
    lemma_reported_pairs_members(l.packages@, a2);
    assert forall|a: Advisory| a1.contains(a) <==> a2.contains(a) by {
        assert(a1.to_multiset().count(a) == a2.to_multiset().count(a));
    }
    assert(Set::new(
        |m: (int, Advisory)|
            0 <= m.0 < l.packages@.len() && a1.contains(m.1) && applies(l.packages@[m.0], m.1),
    ) =~= Set::new(
        |m: (int, Advisory)|
            0 <= m.0 < l.packages@.len() && a2.contains(m.1) && applies(l.packages@[m.0], m.1),
    ));
    lemma_reported_seq(l.packages@, a1);
    lemma_reported_seq(l.packages@, a2);
    reported_seq(l.packages@, a1).unique_seq_to_set();
    reported_seq(l.packages@, a2).unique_seq_to_set();
}

/// A comparator that sets a lower bound: every operator but `<` and `<=`.
pub open spec fn is_lower_bound(op: Op) -> bool {
    op != Op::Less && op != Op::LessEq
}

/// Every group of `r` has a lower bound that `v` falls short of.
pub open spec fn below_every_lower_bound(r: Seq<Seq<ComparatorV>>, v: VersionV) -> bool {
    forall|g: int|
        0 <= g < r.len() ==> exists|k: int|
            0 <= k < (#[trigger] r[g]).len() && is_lower_bound(r[g][k].op) && version_lt(
                v,
                lower(r[g][k]),
            )
}

/// A package below every patched lower bound of an advisory for its crate,
/// and outside its unaffected range, is reported against that advisory.
pub proof fn lemma_unpatched_is_reported(l: Lockfile, d: AdvisoryDatabase, i: int, j: int)
    requires
        0 <= i < l.packages@.len(),
        0 <= j < d@.len(),
        d@[j].crate_name@ == l.packages@[i].name@,
        below_every_lower_bound(d@[j].patched_versions@, l.packages@[i].version@),
        !range_matches(d@[j].unaffected_versions@, l.packages@[i].version@),
    ensures
        scan_spec(l.packages@, d@).contains((i, j)),
{
    let a = d@[j];
    let v = l.packages@[i].version@;
    let r = a.patched_versions@;
    assert forall|g: int| 0 <= g < r.len() implies !group_matches(#[trigger] r[g], v) by {
        let k = choose|k: int|
            0 <= k < r[g].len() && is_lower_bound(r[g][k].op) && version_lt(v, lower(r[g][k]));
        assert(!comparator_matches(r[g][k], v));
    }
    lemma_scan_members(l.packages@, d@, i, j);
}

/// A package inside an advisory's patched range is never reported against it.
pub proof fn lemma_patched_is_not_reported(l: Lockfile, d: AdvisoryDatabase, i: int, j: int)
    requires
        0 <= i < l.packages@.len(),
        0 <= j < d@.len(),
        range_matches(d@[j].patched_versions@, l.packages@[i].version@),
    ensures
        !scan_spec(l.packages@, d@).contains((i, j)),
{
    lemma_scan_members(l.packages@, d@, i, j);
}

/// `x` comes before `y` by package position, then by advisory position.
pub open spec fn pair_lt(x: (int, int), y: (int, int)) -> bool {
    x.0 < y.0 || (x.0 == y.0 && x.1 < y.1)
}

pub open spec fn strictly_ordered(s: Seq<(int, int)>) -> bool {
    forall|a: int, b: int| 0 <= a < b < s.len() ==> pair_lt(#[trigger] s[a], #[trigger] s[b])
}

proof fn lemma_package_matches_ordered(pkgs: Seq<Package>, pi: int, advs: Seq<Advisory>, n: int)
    ensures
        strictly_ordered(package_matches(pkgs, pi, advs, n)),
        forall|k: int|
            0 <= k < package_matches(pkgs, pi, advs, n).len() ==> (#[trigger] package_matches(
                pkgs,
                pi,
                advs,
                n,
            )[k]).0 == pi && package_matches(pkgs, pi, advs, n)[k].1 < n,
    decreases n,
{
    if n > 0 {
        lemma_package_matches_ordered(pkgs, pi, advs, n - 1);
    }
}

proof fn lemma_scan_prefix_ordered(pkgs: Seq<Package>, advs: Seq<Advisory>, m: int)
    ensures
        strictly_ordered(scan_prefix(pkgs, advs, m)),
        forall|k: int|
            0 <= k < scan_prefix(pkgs, advs, m).len() ==> (#[trigger] scan_prefix(pkgs, advs, m)[k]).0
                < m,
    decreases m,
{
    if m > 0 {
        lemma_scan_prefix_ordered(pkgs, advs, m - 1);
        lemma_package_matches_ordered(pkgs, m - 1, advs, advs.len() as int);
        let a = scan_prefix(pkgs, advs, m - 1);
        let b = package_matches(pkgs, m - 1, advs, advs.len() as int);
        let s = a + b;
        assert forall|x: int, y: int| 0 <= x < y < s.len() implies pair_lt(
            #[trigger] s[x],
            #[trigger] s[y],
        ) by {
            if y < a.len() {
                assert(pair_lt(a[x], a[y]));
            } else if x >= a.len() {
                assert(pair_lt(b[x - a.len()], b[y - a.len()]));
            } else {
                assert(a[x].0 < m - 1);
                assert(b[y - a.len()].0 == m - 1);
            }
        }
        assert forall|k: int| 0 <= k < s.len() implies (#[trigger] s[k]).0 < m by {
            if k < a.len() {
                assert(a[k].0 < m - 1);
            } else {
                assert(b[k - a.len()].0 == m - 1);
            }
        }
    }
}

/// A report lists its matches in lockfile order and, within a package, in
/// advisory insertion order, each pair once.
pub proof fn lemma_scan_ordered(pkgs: Seq<Package>, advs: Seq<Advisory>)
    ensures
        strictly_ordered(scan_spec(pkgs, advs)),
{
    lemma_scan_prefix_ordered(pkgs, advs, pkgs.len() as int);
}

/// Advisories between two consecutive positions of a package's crate add no match.
proof fn lemma_no_hits_between(
    pkgs: Seq<Package>,
    pi: int,
    advs: Seq<Advisory>,
    ps: Seq<int>,
    from: int,
    to: int,
)
    requires
        0 <= pi < pkgs.len(),
        0 <= from <= to <= advs.len(),
        forall|j: int| 0 <= j < advs.len() && advs[j].crate_name@ == pkgs[pi].name@ ==> #[trigger] ps.contains(j),
        forall|j: int| from <= j < to ==> !ps.contains(j),
    ensures
        package_matches(pkgs, pi, advs, to) == package_matches(pkgs, pi, advs, from),
    decreases to - from,
{
    if to > from {
        lemma_no_hits_between(pkgs, pi, advs, ps, from, to - 1);
        assert(!ps.contains(to - 1));
    }
}

} // verus!
