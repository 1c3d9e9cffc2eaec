//! Version requirements: comparators, conjunctive groups of them, and
//! disjunctive sets of groups.
use vstd::prelude::*;
use core::cmp::Ordering;
use crate::text::{split_all, without_spaces, chars_of, split_all_exec, without_spaces_exec, skip_exec};
use crate::version::{
    Ident, IdentV, Version, VersionV, VersionParseError, idents_view, labels_view, version_cmp,
    version_lt, release, compare_with, parse_version_parts, parse_version_parts_exec,
    lemma_version_cmp_order,
};

verus! {

/// The operator of a comparator: `=`, `<`, `<=`, `>`, `>=`, `^` or `~`.
#[derive(Debug, Clone, Copy, PartialEq, Eq, Structural)]
pub enum Op {
    Exact,
    Less,
    LessEq,
    Greater,
    GreaterEq,
    Caret,
    Tilde,
}

/// One comparator such as `>= 1.2.0` or `~1.2`; minor and patch may be left out.
#[derive(Debug, Clone, PartialEq, Eq)]
pub struct Comparator {
    pub op: Op,
    pub major: u64,
    pub minor: Option<u64>,
    pub patch: Option<u64>,
    pub pre: Vec<Ident>,
}

/// The model of a comparator.
pub struct ComparatorV {
    pub op: Op,
    pub major: u64,
    pub minor: Option<u64>,
    pub patch: Option<u64>,
    pub pre: Seq<IdentV>,
}

impl View for Comparator {
    type V = ComparatorV;

    open spec fn view(&self) -> ComparatorV {
        ComparatorV {
            op: self.op,
            major: self.major,
            minor: self.minor,
            patch: self.patch,
            pre: idents_view(self.pre@),
        }
    }
}

pub open spec fn opt_or_zero(o: Option<u64>) -> nat {
    match o {
        Some(n) => n as nat,
        None => 0,
    }
}

/// The version a comparator is anchored at, missing components read as zero.
pub open spec fn lower(c: ComparatorV) -> VersionV {
    VersionV {
        major: c.major as nat,
        minor: opt_or_zero(c.minor),
        patch: opt_or_zero(c.patch),
        pre: c.pre,
        build: Seq::empty(),
    }
}

/// The first version excluded by `^`: the leftmost non-zero component given is bumped.
pub open spec fn caret_upper(c: ComparatorV) -> VersionV {
    if c.major > 0 || c.minor is None {
        release((c.major + 1) as nat, 0, 0)
    } else if c.minor.unwrap() > 0 || c.patch is None {
        release(0, (c.minor.unwrap() + 1) as nat, 0)
    } else {
        release(0, 0, (c.patch.unwrap() + 1) as nat)
    }
}

/// The first version excluded by `~`, and the first version past a partial
/// version's line: the minor is bumped, or the major when only the major is given.
pub open spec fn tilde_upper(c: ComparatorV) -> VersionV {
    if c.minor is Some {
        release(c.major as nat, (c.minor.unwrap() + 1) as nat, 0)
    } else {
        release((c.major + 1) as nat, 0, 0)
    }
}

/// Whether `v` lies within the bounds of `c`, by precedence alone. A partial
/// version under `=`, `<=` or `>` stands for the whole line it names: `=1.2`
/// is `>=1.2.0, <1.3.0`, `<=1.2` is `<1.3.0` and `>1.2` is `>=1.3.0`.
pub open spec fn comparator_matches(c: ComparatorV, v: VersionV) -> bool {
    let o = version_cmp(v, lower(c));
    let up = version_cmp(v, tilde_upper(c));
    match c.op {
        Op::Exact => if c.patch is None {
            o != Ordering::Less && up == Ordering::Less
        } else {
            o == Ordering::Equal
        },
        Op::Less => o == Ordering::Less,
        Op::LessEq => if c.patch is None {
            up == Ordering::Less
        } else {
            o != Ordering::Greater
        },
        Op::Greater => if c.patch is None {
            up != Ordering::Less
        } else {
            o == Ordering::Greater
        },
        Op::GreaterEq => o != Ordering::Less,
        Op::Caret => o != Ordering::Less && version_cmp(v, caret_upper(c)) == Ordering::Less,
        Op::Tilde => o != Ordering::Less && version_cmp(v, tilde_upper(c)) == Ordering::Less,
    }
}

/// `c` carries a pre-release label on the same `major.minor.patch` as `v`.
pub open spec fn pre_compatible(c: ComparatorV, v: VersionV) -> bool {
    &&& c.major as nat == v.major
    &&& c.minor == Some(v.minor as u64) && v.minor <= u64::MAX
    &&& c.patch == Some(v.patch as u64) && v.patch <= u64::MAX
    &&& c.pre.len() > 0
}

/// A single comparator admits `v` when `v` is within its bounds and, if `v`
/// is a pre-release, the comparator names a pre-release of the same triple.
pub open spec fn comparator_admits(c: ComparatorV, v: VersionV) -> bool {
    comparator_matches(c, v) && (v.pre.len() == 0 || pre_compatible(c, v))
}

/// A group matches when it has at least one comparator, all of them match,
/// and, for a pre-release `v`, one of them names a pre-release of `v`'s triple.
pub open spec fn group_matches(g: Seq<ComparatorV>, v: VersionV) -> bool {
    &&& g.len() > 0
    &&& forall|k: int| 0 <= k < g.len() ==> comparator_matches(#[trigger] g[k], v)
    &&& (v.pre.len() == 0 || exists|k: int| 0 <= k < g.len() && pre_compatible(#[trigger] g[k], v))
}

/// A range set matches when one of its groups matches.
pub open spec fn range_matches(r: Seq<Seq<ComparatorV>>, v: VersionV) -> bool {
    exists|k: int| 0 <= k < r.len() && group_matches(#[trigger] r[k], v)
}

impl Comparator {
    /// Whether `v` meets this comparator on its own.
    pub fn matches(&self, v: &Version) -> (r: bool)
        ensures
            r == comparator_admits(self@, v@),
    {
        self.within_bounds(v) && (v.pre.len() == 0 || self.pre_compatible(v))
    }

    fn pre_compatible(&self, v: &Version) -> (r: bool)
        ensures
            r == pre_compatible(self@, v@),
    {
        self.major == v.major && self.minor == Some(v.minor) && self.patch == Some(v.patch)
            && self.pre.len() > 0
    }

    /// `v` compared with `tilde_upper` of this comparator.
    fn line_end(&self, v: &Version) -> (r: Ordering)
        ensures
            r == version_cmp(v@, tilde_upper(self@)),
    {
        let empty: Vec<Ident> = Vec::new();
        assert(idents_view(empty@) =~= Seq::<IdentV>::empty());
        match self.minor {
            Some(m) => compare_with(v, self.major as u128, m as u128 + 1, 0, &empty),
            None => compare_with(v, self.major as u128 + 1, 0, 0, &empty),
        }
    }

    fn within_bounds(&self, v: &Version) -> (r: bool)
        ensures
            r == comparator_matches(self@, v@),
    {
        let minor: u128 = match self.minor {
            Some(m) => m as u128,
            None => 0,
        };
        let patch: u128 = match self.patch {
            Some(p) => p as u128,
            None => 0,
        };
        let o = compare_with(v, self.major as u128, minor, patch, &self.pre);
        let empty: Vec<Ident> = Vec::new();
        proof {
            assert(idents_view(empty@) =~= Seq::<IdentV>::empty());
        }
        let partial = self.patch.is_none();
        match self.op {
            Op::Exact => if partial {
                !matches!(o, Ordering::Less) && matches!(self.line_end(v), Ordering::Less)
            } else {
                matches!(o, Ordering::Equal)
            },
            Op::Less => matches!(o, Ordering::Less),
            Op::LessEq => if partial {
                matches!(self.line_end(v), Ordering::Less)
            } else {
                !matches!(o, Ordering::Greater)
            },
            Op::Greater => if partial {
                !matches!(self.line_end(v), Ordering::Less)
            } else {
                matches!(o, Ordering::Greater)
            },
            Op::GreaterEq => !matches!(o, Ordering::Less),
            Op::Caret => {
                if matches!(o, Ordering::Less) {
                    false
                } else {
                    let up = if self.major > 0 || self.minor.is_none() {
                        compare_with(v, self.major as u128 + 1, 0, 0, &empty)
                    } else if minor > 0 || self.patch.is_none() {
                        compare_with(v, 0, minor + 1, 0, &empty)
                    } else {
                        compare_with(v, 0, 0, patch + 1, &empty)
                    };
                    matches!(up, Ordering::Less)
                }
            },
            Op::Tilde => {
                if matches!(o, Ordering::Less) {
                    false
                } else {
                    matches!(self.line_end(v), Ordering::Less)
                }
            },
        }
    }
}

/// The operator a term starts with and its length; a bare version reads as `^`.
pub open spec fn op_prefix(s: Seq<char>) -> (Op, int) {
    if s.len() >= 2 && s[0] == '>' && s[1] == '=' {
        (Op::GreaterEq, 2)
    } else if s.len() >= 2 && s[0] == '<' && s[1] == '=' {
        (Op::LessEq, 2)
    } else if s.len() >= 1 && s[0] == '>' {
        (Op::Greater, 1)
    } else if s.len() >= 1 && s[0] == '<' {
        (Op::Less, 1)
    } else if s.len() >= 1 && s[0] == '=' {
        (Op::Exact, 1)
    } else if s.len() >= 1 && s[0] == '^' {
        (Op::Caret, 1)
    } else if s.len() >= 1 && s[0] == '~' {
        (Op::Tilde, 1)
    } else {
        (Op::Caret, 0)
    }
}

/// The comparator a term (without spaces) spells. A pre-release label is
/// allowed only on a full version.
pub open spec fn parse_comparator(s: Seq<char>) -> Option<ComparatorV> {
    let (op, n) = op_prefix(s);
    match parse_version_parts(s.skip(n)) {
        Some((nums, pre, _)) => if 1 <= nums.len() <= 3 && (nums.len() == 3 || pre.len() == 0) {
            Some(
                ComparatorV {
                    op,
                    major: nums[0],
                    minor: if nums.len() >= 2 { Some(nums[1]) } else { None },
                    patch: if nums.len() == 3 { Some(nums[2]) } else { None },
                    pre,
                },
            )
        } else {
            None
        },
        None => None,
    }
}

/// The comma-separated terms of a group, spaces ignored.
pub open spec fn group_terms(s: Seq<char>) -> Seq<Seq<char>> {
    split_all(without_spaces(s), ',')
}

/// The group that `s` spells, if every one of its terms is a comparator.
pub open spec fn parse_group(s: Seq<char>) -> Option<Seq<ComparatorV>> {
    let terms = group_terms(s);
    if forall|k: int| 0 <= k < terms.len() ==> (#[trigger] parse_comparator(terms[k])) is Some {
        Some(Seq::new(terms.len(), |k: int| parse_comparator(terms[k]).unwrap()))
    } else {
        None
    }
}

fn op_prefix_exec(s: &Vec<char>) -> (r: (Op, usize))
    ensures
        r.0 == op_prefix(s@).0,
        r.1 as int == op_prefix(s@).1,
{
    let n = s.len();
    if n >= 2 && s[0] == '>' && s[1] == '=' {
        (Op::GreaterEq, 2)
    } else if n >= 2 && s[0] == '<' && s[1] == '=' {
        (Op::LessEq, 2)
    } else if n >= 1 && s[0] == '>' {
        (Op::Greater, 1)
    } else if n >= 1 && s[0] == '<' {
        (Op::Less, 1)
    } else if n >= 1 && s[0] == '=' {
        (Op::Exact, 1)
    } else if n >= 1 && s[0] == '^' {
        (Op::Caret, 1)
    } else if n >= 1 && s[0] == '~' {
        (Op::Tilde, 1)
    } else {
        (Op::Caret, 0)
    }
}

fn parse_comparator_exec(s: &Vec<char>) -> (r: Option<Comparator>)
    ensures
        r is Some <==> parse_comparator(s@) is Some,
        r is Some ==> r.unwrap()@ == parse_comparator(s@).unwrap(),
{
    let (op, n) = op_prefix_exec(s);
    let rest = skip_exec(s, n);
    match parse_version_parts_exec(&rest) {
        Some((nums, pre, _)) => {
            let len = nums.len();
            let partial_ok = pre.len() == 0;
            if 1 <= len && len <= 3 && (len == 3 || partial_ok) {
                let minor = if len >= 2 { Some(nums[1]) } else { None };
                let patch = if len == 3 { Some(nums[2]) } else { None };
                Some(Comparator { op, major: nums[0], minor, patch, pre })
            } else {
                None
            }
        },
        None => None,
    }
}

pub open spec fn comparators_view(s: Seq<Comparator>) -> Seq<ComparatorV> {
    s.map_values(|c: Comparator| c@)
}

/// A conjunction of comparators, such as `> 1.0.0, <= 2.0.0`.
#[derive(Debug, Clone, PartialEq, Eq)]
pub struct VersionReq {
    pub comparators: Vec<Comparator>,
}

impl View for VersionReq {
    type V = Seq<ComparatorV>;

    open spec fn view(&self) -> Seq<ComparatorV> {
        comparators_view(self.comparators@)
    }
}

impl VersionReq {
    /// Reads a group of comma-separated comparators.
    pub fn parse(text: &str) -> (r: Result<VersionReq, VersionParseError>)
        ensures
            r is Ok <==> parse_group(text@) is Some,
            r is Ok ==> r.unwrap()@ == parse_group(text@).unwrap(),
    {
        let chars = chars_of(text);
        let compact = without_spaces_exec(&chars);
        let terms = split_all_exec(&compact, ',');
        let ghost g = group_terms(text@);
        assert(labels_view(terms@) =~= g);
        let mut out: Vec<Comparator> = Vec::new();
        let mut i: usize = 0;
        while i < terms.len()
            invariant
                i <= terms@.len(),
                g == labels_view(terms@),
                g == group_terms(text@),
                out@.len() == i,
                forall|k: int| 0 <= k < i ==> (#[trigger] parse_comparator(g[k])) is Some
                    && out@[k]@ == parse_comparator(g[k]).unwrap(),
            decreases terms@.len() - i,
        {
            let c = parse_comparator_exec(&terms[i]);
            if c.is_none() {
                assert(parse_comparator(g[i as int]) is None);
                return Err(VersionParseError);
            }
            out.push(c.unwrap());
            i += 1;
        }
        let r = VersionReq { comparators: out };
        assert(r@ =~= parse_group(text@).unwrap());
        Ok(r)
    }

    /// Whether `v` meets every comparator of a non-empty group.
    pub fn matches(&self, v: &Version) -> (r: bool)
        ensures
            r == group_matches(self@, v@),
    {
        if self.comparators.len() == 0 {
            return false;
        }
        let mut compatible = false;
        let mut i: usize = 0;
        while i < self.comparators.len()
            invariant
                i <= self@.len(),
                self@.len() > 0,
                forall|k: int| 0 <= k < i ==> comparator_matches(#[trigger] self@[k], v@),
                compatible == exists|k: int| 0 <= k < i && pre_compatible(#[trigger] self@[k], v@),
            decreases self@.len() - i,
        {
            if !self.comparators[i].within_bounds(v) {
                assert(!comparator_matches(self@[i as int], v@));
                return false;
            }
            let c = self.comparators[i].pre_compatible(v);
            if c {
                assert(pre_compatible(self@[i as int], v@));
            }
            compatible = compatible || c;
            i += 1;
        }
        v.pre.len() == 0 || compatible
    }
}

pub open spec fn groups_view(s: Seq<VersionReq>) -> Seq<Seq<ComparatorV>> {
    s.map_values(|g: VersionReq| g@)
}

/// A disjunction of groups; empty, it matches nothing.
#[derive(Debug, Clone, PartialEq, Eq)]
pub struct VersionRange {
    pub groups: Vec<VersionReq>,
}

impl View for VersionRange {
    type V = Seq<Seq<ComparatorV>>;

    open spec fn view(&self) -> Seq<Seq<ComparatorV>> {
        groups_view(self.groups@)
    }
}

/// The range that a list of group texts spells, if every group is well formed.
pub open spec fn parse_range(texts: Seq<String>) -> Option<Seq<Seq<ComparatorV>>> {
    if forall|k: int| 0 <= k < texts.len() ==> (#[trigger] parse_group(texts[k]@)) is Some {
        Some(Seq::new(texts.len(), |k: int| parse_group(texts[k]@).unwrap()))
    } else {
        None
    }
}

impl VersionRange {
    /// The range that matches no version.
    pub fn empty() -> (r: VersionRange)
        ensures
            r@ == Seq::<Seq<ComparatorV>>::empty(),
    {
        let r = VersionRange { groups: Vec::new() };
        assert(r@ =~= Seq::<Seq<ComparatorV>>::empty());
        r
    }

    /// Reads one group from each text; any malformed group is an error.
    pub fn parse(texts: &Vec<String>) -> (r: Result<VersionRange, VersionParseError>)
        ensures
            r is Ok <==> parse_range(texts@) is Some,
            r is Ok ==> r.unwrap()@ == parse_range(texts@).unwrap(),
    {
        let mut out: Vec<VersionReq> = Vec::new();
        let mut i: usize = 0;
        while i < texts.len()
            invariant
                i <= texts@.len(),
                out@.len() == i,
                forall|k: int| 0 <= k < i ==> (#[trigger] parse_group(texts@[k]@)) is Some
                    && out@[k]@ == parse_group(texts@[k]@).unwrap(),
            decreases texts@.len() - i,
        {
            let g = VersionReq::parse(texts[i].as_str());
            match g {
                Ok(g) => out.push(g),
                Err(e) => {
                    assert(parse_group(texts@[i as int]@) is None);
                    return Err(e);
                },
            }
            i += 1;
        }
        let r = VersionRange { groups: out };
        assert(r@ =~= parse_range(texts@).unwrap());
        Ok(r)
    }

    /// Whether `v` meets one of the groups.
    pub fn matches(&self, v: &Version) -> (r: bool)
        ensures
            r == range_matches(self@, v@),
    {
        let mut i: usize = 0;
        while i < self.groups.len()
            invariant
                i <= self@.len(),
                forall|k: int| 0 <= k < i ==> !group_matches(#[trigger] self@[k], v@),
            decreases self@.len() - i,
        {
            if self.groups[i].matches(v) {
                assert(group_matches(self@[i as int], v@));
                return true;
            }
            i += 1;
        }
        false
    }

    /// Whether the range has no group, and so matches nothing.
    pub fn is_empty(&self) -> (r: bool)
        ensures
            r == (self@.len() == 0),
    {
        self.groups.len() == 0
    }
}

/// The comparator `op v` anchored at the full version `v`, without its build labels.
pub open spec fn full_comparator(op: Op, v: Version) -> ComparatorV {
    ComparatorV { op, major: v.major, minor: Some(v.minor), patch: Some(v.patch), pre: v@.pre }
}

/// For versions `v1 < v2 < v3`, the group `> v1, <= v3` admits `v3`, rejects
/// `v1`, and admits `v2` unless `v2` is a pre-release on neither bound's triple.
pub proof fn lemma_exclusive_inclusive_group(v1: Version, v2: Version, v3: Version)
    requires
        version_lt(v1@, v2@),
        version_lt(v2@, v3@),
        v2.pre@.len() == 0 || pre_compatible(full_comparator(Op::Greater, v1), v2@)
            || pre_compatible(full_comparator(Op::LessEq, v3), v2@),
    ensures
        ({
            let g = seq![full_comparator(Op::Greater, v1), full_comparator(Op::LessEq, v3)];
            &&& group_matches(g, v2@)
            &&& !group_matches(g, v1@)
            &&& group_matches(g, v3@)
        }),
{
    lemma_version_cmp_order(v1@, v2@, v3@);
    lemma_version_cmp_order(v2@, v3@, v1@);
    lemma_version_cmp_order(v3@, v1@, v2@);
    let g = seq![full_comparator(Op::Greater, v1), full_comparator(Op::LessEq, v3)];
    assert(comparator_matches(g[0], v2@));
    assert(comparator_matches(g[1], v2@));
    assert(comparator_matches(g[0], v3@));
    assert(comparator_matches(g[1], v3@));
    assert(!comparator_matches(g[0], v1@));
    if v2.pre@.len() > 0 {
        if pre_compatible(g[0], v2@) {
            assert(pre_compatible(g[0], v2@));
        } else {
            assert(pre_compatible(g[1], v2@));
        }
    }
    if v3.pre@.len() > 0 {
        assert(pre_compatible(g[1], v3@));
    }
}

/// A pre-release version meets no group in which no comparator names a
/// pre-release of its own `major.minor.patch`, whatever the bounds say; so
/// `1.0.0-alpha` fails `>= 1.0.0`. It does meet `>=` itself.
pub proof fn lemma_prerelease_needs_own_triple(g: Seq<ComparatorV>, v: Version)
    requires
        v.pre@.len() > 0,
        forall|k: int| 0 <= k < g.len() ==> !pre_compatible(#[trigger] g[k], v@),
    ensures
        !group_matches(g, v@),
        group_matches(seq![full_comparator(Op::GreaterEq, v)], v@),
{
    lemma_version_cmp_order(v@, v@, v@);
    let own = seq![full_comparator(Op::GreaterEq, v)];
    assert(comparator_matches(own[0], v@));
    assert(pre_compatible(own[0], v@));
}

} // verus!
