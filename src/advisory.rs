//! Advisories and the database that holds them.
use vstd::prelude::*;
use crate::range::{VersionRange, range_matches, parse_range};
use crate::version::Version;
use vstd::hash_map::StringHashMap;

verus! {

/// Why an advisory or a database could not be built.
#[derive(Debug, Clone, PartialEq, Eq)]
pub enum AdvisoryError {
    MissingId,
    MissingCrateName,
    MalformedRange,
    DuplicateId(String),
}

/// One known vulnerability of one crate.
#[derive(Debug, Clone, PartialEq, Eq)]
pub struct Advisory {
    pub id: String,
    pub crate_name: String,
    pub title: String,
    pub description: String,
    pub url: Option<String>,
    pub date: Option<String>,
    pub patched_versions: VersionRange,
    pub unaffected_versions: VersionRange,
}

/// A version is vulnerable to an advisory when it is neither patched nor unaffected.
pub open spec fn is_vulnerable(a: Advisory, v: crate::version::VersionV) -> bool {
    !range_matches(a.patched_versions@, v) && !range_matches(a.unaffected_versions@, v)
}

impl Advisory {
    /// Builds an advisory from its raw fields; the id and the crate name must not
    /// be empty, and every range group must parse.
    pub fn new(
        id: String,
        crate_name: String,
        title: String,
        description: String,
        url: Option<String>,
        date: Option<String>,
        patched: &Vec<String>,
        unaffected: &Vec<String>,
    ) -> (r: Result<Advisory, AdvisoryError>)
        ensures
            id@.len() == 0 ==> r == Err::<Advisory, AdvisoryError>(AdvisoryError::MissingId),
            id@.len() > 0 && crate_name@.len() == 0 ==> r == Err::<Advisory, AdvisoryError>(
                AdvisoryError::MissingCrateName,
            ),
            id@.len() > 0 && crate_name@.len() > 0 && (parse_range(patched@) is None || parse_range(
                unaffected@,
            ) is None) ==> r == Err::<Advisory, AdvisoryError>(AdvisoryError::MalformedRange),
            r is Ok <==> (id@.len() > 0 && crate_name@.len() > 0 && parse_range(patched@) is Some
                && parse_range(unaffected@) is Some),
            r is Ok ==> ({
                let a = r.unwrap();
                &&& a.id == id
                &&& a.crate_name == crate_name
                &&& a.title == title
                &&& a.description == description
                &&& a.url == url
                &&& a.date == date
                &&& a.patched_versions@ == parse_range(patched@).unwrap()
                &&& a.unaffected_versions@ == parse_range(unaffected@).unwrap()
            }),
    {
        if id.as_str().is_empty() {
            return Err(AdvisoryError::MissingId);
        }
        if crate_name.as_str().is_empty() {
            return Err(AdvisoryError::MissingCrateName);
        }
        let patched_versions = match VersionRange::parse(patched) {
            Ok(p) => p,
            Err(_) => return Err(AdvisoryError::MalformedRange),
        };
        let unaffected_versions = match VersionRange::parse(unaffected) {
            Ok(u) => u,
            Err(_) => return Err(AdvisoryError::MalformedRange),
        };
        Ok(Advisory { id, crate_name, title, description, url, date, patched_versions, unaffected_versions })
    }

    /// Whether `v` is neither patched nor unaffected. With no patched range,
    /// every version outside the unaffected range is vulnerable.
    pub fn is_version_vulnerable(&self, v: &Version) -> (r: bool)
        ensures
            r == is_vulnerable(*self, v@),
    {
        !self.patched_versions.matches(v) && !self.unaffected_versions.matches(v)
    }
}

/// No two advisories share an id.
pub open spec fn ids_unique(advs: Seq<Advisory>) -> bool {
    forall|i: int, j: int| 0 <= i < j < advs.len() ==> (#[trigger] advs[i]).id@ != (#[trigger] advs[j]).id@
}

/// The positions, in insertion order, of the advisories for crate `name`.
pub open spec fn crate_positions(advs: Seq<Advisory>, name: Seq<char>) -> Seq<int>
    decreases advs.len(),
{
    if advs.len() == 0 {
        Seq::empty()
    } else {
        let rest = crate_positions(advs.drop_last(), name);
        if advs.last().crate_name@ == name {
            rest.push(advs.len() - 1)
        } else {
            rest
        }
    }
}

pub open spec fn positions_view(v: Seq<usize>) -> Seq<int> {
    v.map_values(|k: usize| k as int)
}

/// The advisories of one audit, in insertion order, with an index from crate
/// name to positions. Read-only once built.
pub struct AdvisoryDatabase {
    advisories: Vec<Advisory>,
    by_crate: StringHashMap<Vec<usize>>,
}

impl View for AdvisoryDatabase {
    type V = Seq<Advisory>;

    closed spec fn view(&self) -> Seq<Advisory> {
        self.advisories@
    }
}

/// `index` maps each crate name of `advs` to its positions, and nothing else.
pub open spec fn index_of(index: Map<Seq<char>, Vec<usize>>, advs: Seq<Advisory>) -> bool {
    forall|name: Seq<char>|
        #[trigger] index.contains_key(name) ==> positions_view(index[name]@) == crate_positions(
            advs,
            name,
        ) && crate_positions(advs, name).len() > 0
}

pub open spec fn index_complete(index: Map<Seq<char>, Vec<usize>>, advs: Seq<Advisory>) -> bool {
    forall|name: Seq<char>|
        !(#[trigger] index.contains_key(name)) ==> crate_positions(advs, name).len() == 0
}

impl AdvisoryDatabase {
    /// The index agrees with the advisories and no two advisories share an id.
    pub closed spec fn wf(&self) -> bool {
        &&& index_of(self.by_crate@, self.advisories@)
        &&& index_complete(self.by_crate@, self.advisories@)
        &&& ids_unique(self.advisories@)
    }

    /// Builds a database, refusing two advisories with the same id.
    pub fn from_advisories(list: Vec<Advisory>) -> (r: Result<AdvisoryDatabase, AdvisoryError>)
        ensures
            r is Ok <==> ids_unique(list@),
            r is Ok ==> r.unwrap()@ == list@ && r.unwrap().wf(),
            r is Err ==> (exists|i: int, j: int|
                0 <= i < j < list@.len() && list@[i].id@ == list@[j].id@ && r
                    == Err::<AdvisoryDatabase, AdvisoryError>(
                    AdvisoryError::DuplicateId(list@[j].id),
                )),
    {
        let mut j: usize = 0;
        while j < list.len()
            invariant
                j <= list@.len(),
                forall|a: int, b: int| 0 <= a < b < j ==> (#[trigger] list@[a]).id@ != (
                #[trigger] list@[b]).id@,
            decreases list@.len() - j,
        {
            let mut i: usize = 0;
            while i < j
                invariant
                    i <= j < list@.len(),
                    forall|a: int| 0 <= a < i ==> (#[trigger] list@[a]).id@ != list@[j as int].id@,
                decreases j - i,
            {
                if list[i].id == list[j].id {
                    let dup = list[j].id.clone();
                    return Err(AdvisoryError::DuplicateId(dup));
                }
                i += 1;
            }
            j += 1;
        }
        let by_crate = build_index(&list);
        Ok(AdvisoryDatabase { advisories: list, by_crate })
    }

    /// The number of advisories.
    pub fn len(&self) -> (r: usize)
        ensures
            r == self@.len(),
    {
        self.advisories.len()
    }

    /// The advisory at position `i`.
    pub fn get(&self, i: usize) -> (r: &Advisory)
        requires
            i < self@.len(),
        ensures
            *r == self@[i as int],
    {
        &self.advisories[i]
    }

    /// The positions of the advisories for crate `name`, in insertion order;
    /// empty when there are none. Looked up in the name index.
    pub fn find_by_crate(&self, name: &str) -> (r: Vec<usize>)
        requires
            self.wf(),
        ensures
            positions_view(r@) == crate_positions(self@, name@),
    {
        match self.by_crate.get(name) {
            Some(ps) => copy_positions(ps),
            None => {
                let r: Vec<usize> = Vec::new();
                assert(positions_view(r@) =~= crate_positions(self@, name@));
                r
            },
        }
    }
}

fn copy_positions(v: &Vec<usize>) -> (r: Vec<usize>)
    ensures
        r@ == v@,
{
    let mut r: Vec<usize> = Vec::new();
    let mut i: usize = 0;
    while i < v.len()
        invariant
            i <= v@.len(),
            r@ == v@.subrange(0, i as int),
        decreases v@.len() - i,
    {
        r.push(v[i]);
        i += 1;
        assert(r@ =~= v@.subrange(0, i as int));
    }
    assert(r@ =~= v@);
    r
}

fn build_index(list: &Vec<Advisory>) -> (r: StringHashMap<Vec<usize>>)
    ensures
        index_of(r@, list@),
        index_complete(r@, list@),
{
    let mut index: StringHashMap<Vec<usize>> = StringHashMap::new();
    let mut i: usize = 0;
    let ghost advs = list@;
    assert(advs.subrange(0, 0) =~= Seq::<Advisory>::empty());
    while i < list.len()
        invariant
            advs == list@,
            i <= advs.len(),
            index_of(index@, advs.subrange(0, i as int)),
            index_complete(index@, advs.subrange(0, i as int)),
        decreases advs.len() - i,
    {
        let name = &list[i].crate_name;
        let ghost pre = advs.subrange(0, i as int);
        let ghost post = advs.subrange(0, i + 1);
        assert(post.drop_last() =~= pre);
        let mut ps: Vec<usize> = match index.get(name.as_str()) {
            Some(old_ps) => copy_positions(old_ps),
            None => Vec::new(),
        };
        assert(positions_view(ps@) == crate_positions(pre, name@)) by {
            if !index@.contains_key(name@) {
                assert(positions_view(ps@) =~= crate_positions(pre, name@));
            }
        }
        ps.push(i);
        assert(positions_view(ps@) =~= crate_positions(post, name@));
        let ghost old_index = index@;
        index.insert(name.clone(), ps);
        assert forall|n: Seq<char>| #[trigger] index@.contains_key(n) implies positions_view(index@[n]@)
            == crate_positions(post, n) && crate_positions(post, n).len() > 0 by {
            if n != name@ {
                assert(old_index.contains_key(n));
            }
        }
        assert forall|n: Seq<char>| !(#[trigger] index@.contains_key(n)) implies crate_positions(post, n).len() == 0 by {
            assert(!old_index.contains_key(n));
        }
        i += 1;
    }
    assert(advs.subrange(0, advs.len() as int) =~= advs);
    index
}

/// The positions of the advisories for `name` are increasing, in range, and
/// are exactly those whose crate is `name`.
pub proof fn lemma_crate_positions(advs: Seq<Advisory>, name: Seq<char>)
    ensures
        forall|a: int, b: int|
            0 <= a < b < crate_positions(advs, name).len() ==> #[trigger] crate_positions(advs, name)[a]
                < #[trigger] crate_positions(advs, name)[b],
        forall|k: int|
            0 <= k < crate_positions(advs, name).len() ==> 0 <= #[trigger] crate_positions(advs, name)[k]
                < advs.len() && advs[crate_positions(advs, name)[k]].crate_name@ == name,
        forall|j: int|
            0 <= j < advs.len() && advs[j].crate_name@ == name ==> #[trigger] crate_positions(
                advs,
                name,
            ).contains(j),
    decreases advs.len(),
{
    if advs.len() > 0 {
        let init = advs.drop_last();
        lemma_crate_positions(init, name);
        let rest = crate_positions(init, name);
        let ps = crate_positions(advs, name);
        assert forall|k: int| 0 <= k < rest.len() implies advs[rest[k]] == init[rest[k]] by {}
        assert forall|j: int| 0 <= j < advs.len() && advs[j].crate_name@ == name implies #[trigger] ps.contains(j) by {
            if j < advs.len() - 1 {
                assert(init[j] == advs[j]);
                assert(rest.contains(j));
                let k = choose|k: int| 0 <= k < rest.len() && rest[k] == j;
                assert(ps[k] == j);
            } else {
                assert(ps[ps.len() - 1] == j);
            }
        }
    }
}

} // verus!
