//! Semantic versions: their model, their precedence and their textual form.
use vstd::prelude::*;
use core::cmp::Ordering;
use crate::text::{
    split_all, split_once, is_digit, all_digits, parse_number, chars_of, split_all_exec,
    split_once_exec, parse_number_exec,
};

verus! {

/// One dot-separated identifier of a pre-release label.
#[derive(Debug, Clone, PartialEq, Eq)]
pub enum Ident {
    Numeric(u64),
    Alpha(Vec<char>),
}

/// The model of a pre-release identifier.
pub enum IdentV {
    Numeric(u64),
    Alpha(Seq<char>),
}

impl View for Ident {
    type V = IdentV;

    open spec fn view(&self) -> IdentV {
        match self {
            Ident::Numeric(n) => IdentV::Numeric(*n),
            Ident::Alpha(s) => IdentV::Alpha(s@),
        }
    }
}

pub open spec fn idents_view(s: Seq<Ident>) -> Seq<IdentV> {
    s.map_values(|i: Ident| i@)
}

/// A parsed semantic version. Build metadata is kept but plays no part in
/// precedence.
#[derive(Debug, Clone, PartialEq, Eq)]
pub struct Version {
    pub major: u64,
    pub minor: u64,
    pub patch: u64,
    pub pre: Vec<Ident>,
    pub build: Vec<Vec<char>>,
}

/// The mathematical model of a version; the numeric components are unbounded so
/// that range bounds such as "the next major version" can be written as models too.
pub struct VersionV {
    pub major: nat,
    pub minor: nat,
    pub patch: nat,
    pub pre: Seq<IdentV>,
    pub build: Seq<Seq<char>>,
}

impl View for Version {
    type V = VersionV;

    open spec fn view(&self) -> VersionV {
        VersionV {
            major: self.major as nat,
            minor: self.minor as nat,
            patch: self.patch as nat,
            pre: idents_view(self.pre@),
            build: self.build@.map_values(|b: Vec<char>| b@),
        }
    }
}

/// The release version `major.minor.patch` with no labels.
pub open spec fn release(major: nat, minor: nat, patch: nat) -> VersionV {
    VersionV { major, minor, patch, pre: Seq::empty(), build: Seq::empty() }
}

/// Three-way comparison of integers.
pub open spec fn cmp_int(a: int, b: int) -> Ordering {
    if a < b {
        Ordering::Less
    } else if a > b {
        Ordering::Greater
    } else {
        Ordering::Equal
    }
}

/// Lexical order of character strings, by code point; a proper prefix comes first.
pub open spec fn cmp_chars(a: Seq<char>, b: Seq<char>) -> Ordering
    decreases a.len(),
{
    if a.len() == 0 {
        if b.len() == 0 { Ordering::Equal } else { Ordering::Less }
    } else if b.len() == 0 {
        Ordering::Greater
    } else if a[0] < b[0] {
        Ordering::Less
    } else if a[0] > b[0] {
        Ordering::Greater
    } else {
        cmp_chars(a.drop_first(), b.drop_first())
    }
}

/// Numeric identifiers compare numerically and come before alphanumeric ones,
/// which compare lexically.
pub open spec fn cmp_ident(a: IdentV, b: IdentV) -> Ordering {
    match (a, b) {
        (IdentV::Numeric(x), IdentV::Numeric(y)) => cmp_int(x as int, y as int),
        (IdentV::Numeric(_), IdentV::Alpha(_)) => Ordering::Less,
        (IdentV::Alpha(_), IdentV::Numeric(_)) => Ordering::Greater,
        (IdentV::Alpha(x), IdentV::Alpha(y)) => cmp_chars(x, y),
    }
}

/// Identifier lists compare field by field; a proper prefix comes first.
pub open spec fn cmp_idents(a: Seq<IdentV>, b: Seq<IdentV>) -> Ordering
    decreases a.len(),
{
    if a.len() == 0 {
        if b.len() == 0 { Ordering::Equal } else { Ordering::Less }
    } else if b.len() == 0 {
        Ordering::Greater
    } else if cmp_ident(a[0], b[0]) != Ordering::Equal {
        cmp_ident(a[0], b[0])
    } else {
        cmp_idents(a.drop_first(), b.drop_first())
    }
}

/// A version with a pre-release label comes before the same version without one.
pub open spec fn cmp_pre(a: Seq<IdentV>, b: Seq<IdentV>) -> Ordering {
    if a.len() == 0 && b.len() == 0 {
        Ordering::Equal
    } else if a.len() == 0 {
        Ordering::Greater
    } else if b.len() == 0 {
        Ordering::Less
    } else {
        cmp_idents(a, b)
    }
}

/// Semantic-versioning precedence.
pub open spec fn version_cmp(a: VersionV, b: VersionV) -> Ordering {
    if a.major != b.major {
        cmp_int(a.major as int, b.major as int)
    } else if a.minor != b.minor {
        cmp_int(a.minor as int, b.minor as int)
    } else if a.patch != b.patch {
        cmp_int(a.patch as int, b.patch as int)
    } else {
        cmp_pre(a.pre, b.pre)
    }
}

pub open spec fn version_lt(a: VersionV, b: VersionV) -> bool {
    version_cmp(a, b) == Ordering::Less
}

pub open spec fn flip(o: Ordering) -> Ordering {
    match o {
        Ordering::Less => Ordering::Greater,
        Ordering::Greater => Ordering::Less,
        Ordering::Equal => Ordering::Equal,
    }
}

proof fn lemma_cmp_chars_props(a: Seq<char>, b: Seq<char>, c: Seq<char>)
    ensures
        cmp_chars(a, a) == Ordering::Equal,
        cmp_chars(b, a) == flip(cmp_chars(a, b)),
        cmp_chars(a, b) == Ordering::Less && cmp_chars(b, c) == Ordering::Less ==> cmp_chars(a, c)
            == Ordering::Less,
    decreases a.len(),
{
    if a.len() > 0 && b.len() > 0 && c.len() > 0 {
        lemma_cmp_chars_props(a.drop_first(), b.drop_first(), c.drop_first());
    } else if a.len() > 0 && b.len() > 0 {
        lemma_cmp_chars_props(a.drop_first(), b.drop_first(), c);
    } else if a.len() > 0 {
        lemma_cmp_chars_props(a.drop_first(), b, c);
    }
}

proof fn lemma_cmp_ident_props(a: IdentV, b: IdentV, c: IdentV)
    ensures
        cmp_ident(a, a) == Ordering::Equal,
        cmp_ident(b, a) == flip(cmp_ident(a, b)),
        cmp_ident(a, b) == Ordering::Less && cmp_ident(b, c) == Ordering::Less ==> cmp_ident(a, c)
            == Ordering::Less,
        cmp_ident(a, b) == Ordering::Equal ==> a == b,
{
    match (a, b, c) {
        (IdentV::Alpha(x), IdentV::Alpha(y), IdentV::Alpha(z)) => {
            lemma_cmp_chars_props(x, y, z);
            lemma_cmp_chars_props(x, x, x);
            lemma_cmp_chars_equal(x, y);
        },
        (IdentV::Alpha(x), IdentV::Alpha(y), _) => {
            lemma_cmp_chars_props(x, y, x);
            lemma_cmp_chars_equal(x, y);
        },
        (IdentV::Alpha(x), _, _) => {
            lemma_cmp_chars_props(x, x, x);
        },
        (_, IdentV::Alpha(y), IdentV::Alpha(z)) => {
            lemma_cmp_chars_props(y, z, y);
        },
        _ => {},
    }
}

proof fn lemma_cmp_chars_equal(a: Seq<char>, b: Seq<char>)
    ensures
        cmp_chars(a, b) == Ordering::Equal ==> a == b,
    decreases a.len(),
{
    if a.len() > 0 && b.len() > 0 && a[0] == b[0] {
        lemma_cmp_chars_equal(a.drop_first(), b.drop_first());
        if cmp_chars(a, b) == Ordering::Equal {
            assert(a =~= seq![a[0]] + a.drop_first());
            assert(b =~= seq![b[0]] + b.drop_first());
        }
    } else if a.len() == 0 && b.len() == 0 {
        assert(a =~= b);
    }
}

proof fn lemma_cmp_idents_props(a: Seq<IdentV>, b: Seq<IdentV>, c: Seq<IdentV>)
    ensures
        cmp_idents(a, a) == Ordering::Equal,
        cmp_idents(b, a) == flip(cmp_idents(a, b)),
        cmp_idents(a, b) == Ordering::Less && cmp_idents(b, c) == Ordering::Less ==> cmp_idents(a, c)
            == Ordering::Less,
    decreases a.len(),
{
    if a.len() > 0 && b.len() > 0 && c.len() > 0 {
        lemma_cmp_ident_props(a[0], b[0], c[0]);
        lemma_cmp_ident_props(b[0], c[0], a[0]);
        lemma_cmp_ident_props(a[0], c[0], b[0]);
        lemma_cmp_idents_props(a.drop_first(), b.drop_first(), c.drop_first());
    } else if a.len() > 0 && b.len() > 0 {
        lemma_cmp_ident_props(a[0], b[0], a[0]);
        lemma_cmp_idents_props(a.drop_first(), b.drop_first(), c);
    } else if a.len() > 0 {
        lemma_cmp_ident_props(a[0], a[0], a[0]);
        lemma_cmp_idents_props(a.drop_first(), b, c);
    }
}

/// Precedence is a total order: reflexive, antisymmetric and transitive.
pub proof fn lemma_version_cmp_order(a: VersionV, b: VersionV, c: VersionV)
    ensures
        version_cmp(a, a) == Ordering::Equal,
        version_cmp(b, a) == flip(version_cmp(a, b)),
        version_lt(a, b) && version_lt(b, c) ==> version_lt(a, c),
{
    lemma_cmp_idents_props(a.pre, b.pre, c.pre);
    lemma_cmp_idents_props(a.pre, a.pre, a.pre);
}

fn cmp_u128(a: u128, b: u128) -> (r: Ordering)
    ensures
        r == cmp_int(a as int, b as int),
{
    if a < b {
        Ordering::Less
    } else if a > b {
        Ordering::Greater
    } else {
        Ordering::Equal
    }
}

fn compare_chars(a: &Vec<char>, b: &Vec<char>) -> (r: Ordering)
    ensures
        r == cmp_chars(a@, b@),
{
    let mut i: usize = 0;
    assert(a@.skip(0) =~= a@);
    assert(b@.skip(0) =~= b@);
    while i < a.len() && i < b.len() && a[i] == b[i]
        invariant
            i <= a@.len(),
            i <= b@.len(),
            cmp_chars(a@, b@) == cmp_chars(a@.skip(i as int), b@.skip(i as int)),
        decreases a@.len() - i,
    {
        assert(a@.skip(i as int).drop_first() =~= a@.skip(i + 1));
        assert(b@.skip(i as int).drop_first() =~= b@.skip(i + 1));
        i += 1;
    }
    if i == a.len() {
        if i == b.len() { Ordering::Equal } else { Ordering::Less }
    } else if i == b.len() {
        Ordering::Greater
    } else {
        if a[i] < b[i] { Ordering::Less } else { Ordering::Greater }
    }
}

fn compare_ident(a: &Ident, b: &Ident) -> (r: Ordering)
    ensures
        r == cmp_ident(a@, b@),
{
    match (a, b) {
        (Ident::Numeric(x), Ident::Numeric(y)) => cmp_u128(*x as u128, *y as u128),
        (Ident::Numeric(_), Ident::Alpha(_)) => Ordering::Less,
        (Ident::Alpha(_), Ident::Numeric(_)) => Ordering::Greater,
        (Ident::Alpha(x), Ident::Alpha(y)) => compare_chars(x, y),
    }
}

fn compare_idents(a: &Vec<Ident>, b: &Vec<Ident>) -> (r: Ordering)
    ensures
        r == cmp_idents(idents_view(a@), idents_view(b@)),
{
    let ghost av = idents_view(a@);
    let ghost bv = idents_view(b@);
    let mut i: usize = 0;
    assert(av.skip(0) =~= av);
    assert(bv.skip(0) =~= bv);
    while i < a.len() && i < b.len()
        invariant
            i <= a@.len(),
            i <= b@.len(),
            av == idents_view(a@),
            bv == idents_view(b@),
            cmp_idents(av, bv) == cmp_idents(av.skip(i as int), bv.skip(i as int)),
        decreases a@.len() - i,
    {
        let o = compare_ident(&a[i], &b[i]);
        assert(av.skip(i as int).len() > 0 && bv.skip(i as int).len() > 0);
        assert(av[i as int] == a@[i as int]@);
        assert(bv[i as int] == b@[i as int]@);
        assert(av.skip(i as int)[0] == a@[i as int]@);
        assert(bv.skip(i as int)[0] == b@[i as int]@);
        assert(cmp_idents(av.skip(i as int), bv.skip(i as int)) == if o != Ordering::Equal { o } else {
            cmp_idents(av.skip(i as int).drop_first(), bv.skip(i as int).drop_first())
        });
        if !matches!(o, Ordering::Equal) {
            return o;
        }
        assert(av.skip(i as int).drop_first() =~= av.skip(i + 1));
        assert(bv.skip(i as int).drop_first() =~= bv.skip(i + 1));
        i += 1;
    }
    if i == a.len() {
        if i == b.len() { Ordering::Equal } else { Ordering::Less }
    } else {
        Ordering::Greater
    }
}

/// Compares `v` with the version `major.minor.patch` labelled `pre`.
pub fn compare_with(v: &Version, major: u128, minor: u128, patch: u128, pre: &Vec<Ident>) -> (r:
    Ordering)
    ensures
        r == version_cmp(
            v@,
            VersionV {
                major: major as nat,
                minor: minor as nat,
                patch: patch as nat,
                pre: idents_view(pre@),
                build: Seq::empty(),
            },
        ),
{
    if v.major as u128 != major {
        cmp_u128(v.major as u128, major)
    } else if v.minor as u128 != minor {
        cmp_u128(v.minor as u128, minor)
    } else if v.patch as u128 != patch {
        cmp_u128(v.patch as u128, patch)
    } else if v.pre.len() == 0 && pre.len() == 0 {
        Ordering::Equal
    } else if v.pre.len() == 0 {
        Ordering::Greater
    } else if pre.len() == 0 {
        Ordering::Less
    } else {
        compare_idents(&v.pre, pre)
    }
}

impl Version {
    /// Semantic-versioning precedence of `self` against `other`.
    pub fn compare(&self, other: &Version) -> (r: Ordering)
        ensures
            r == version_cmp(self@, other@),
    {
        compare_with(self, other.major as u128, other.minor as u128, other.patch as u128, &other.pre)
    }
}

/// Why a version or a range term was rejected.
#[derive(Debug, Clone, Copy, PartialEq, Eq)]
pub struct VersionParseError;

pub open spec fn is_ident_char(c: char) -> bool {
    is_digit(c) || ('a' <= c && c <= 'z') || ('A' <= c && c <= 'Z') || c == '-'
}

/// A non-empty run of `[0-9A-Za-z-]`.
pub open spec fn is_label(s: Seq<char>) -> bool {
    s.len() > 0 && forall|i: int| 0 <= i < s.len() ==> is_ident_char(#[trigger] s[i])
}

/// A pre-release identifier: numeric when it is all digits (and must then fit in `u64`).
pub open spec fn parse_ident(s: Seq<char>) -> Option<IdentV> {
    if !is_label(s) {
        None
    } else if all_digits(s) {
        match parse_number(s) {
            Some(n) => Some(IdentV::Numeric(n)),
            None => None,
        }
    } else {
        Some(IdentV::Alpha(s))
    }
}

pub open spec fn parse_numbers(parts: Seq<Seq<char>>) -> Option<Seq<u64>> {
    if forall|k: int| 0 <= k < parts.len() ==> (#[trigger] parse_number(parts[k])) is Some {
        Some(Seq::new(parts.len(), |k: int| parse_number(parts[k]).unwrap()))
    } else {
        None
    }
}

pub open spec fn parse_idents(parts: Seq<Seq<char>>) -> Option<Seq<IdentV>> {
    if forall|k: int| 0 <= k < parts.len() ==> (#[trigger] parse_ident(parts[k])) is Some {
        Some(Seq::new(parts.len(), |k: int| parse_ident(parts[k]).unwrap()))
    } else {
        None
    }
}

pub open spec fn all_labels(parts: Seq<Seq<char>>) -> bool {
    forall|k: int| 0 <= k < parts.len() ==> is_label(#[trigger] parts[k])
}

/// The dot-separated numbers, pre-release identifiers and build labels of
/// `core[-pre][+build]`, the number of numeric components left open.
pub open spec fn parse_version_parts(s: Seq<char>) -> Option<(Seq<u64>, Seq<IdentV>, Seq<Seq<char>>)> {
    let (main, build) = split_once(s, '+');
    let (core, pre) = split_once(main, '-');
    let nums = parse_numbers(split_all(core, '.'));
    let ids = match pre {
        Some(p) => parse_idents(split_all(p, '.')),
        None => Some(Seq::<IdentV>::empty()),
    };
    let labels = match build {
        Some(b) => split_all(b, '.'),
        None => Seq::<Seq<char>>::empty(),
    };
    if nums is Some && ids is Some && all_labels(labels) {
        Some((nums.unwrap(), ids.unwrap(), labels))
    } else {
        None
    }
}

/// The version that `s` spells, if it is a well-formed `major.minor.patch[-pre][+build]`.
pub open spec fn parse_version(s: Seq<char>) -> Option<VersionV> {
    match parse_version_parts(s) {
        Some((n, p, b)) => if n.len() == 3 {
            Some(VersionV { major: n[0] as nat, minor: n[1] as nat, patch: n[2] as nat, pre: p, build: b })
        } else {
            None
        },
        None => None,
    }
}

pub open spec fn labels_view(v: Seq<Vec<char>>) -> Seq<Seq<char>> {
    v.map_values(|b: Vec<char>| b@)
}

fn is_label_exec(s: &Vec<char>) -> (r: (bool, bool))
    ensures
        r.0 == is_label(s@),
        r.1 == all_digits(s@),
{
    let mut label = s.len() > 0;
    let mut digits = true;
    let mut i: usize = 0;
    while i < s.len()
        invariant
            i <= s@.len(),
            label == (s@.len() > 0 && forall|j: int| 0 <= j < i ==> is_ident_char(#[trigger] s@[j])),
            digits == (forall|j: int| 0 <= j < i ==> is_digit(#[trigger] s@[j])),
        decreases s@.len() - i,
    {
        let c = s[i];
        let d = '0' <= c && c <= '9';
        let l = d || ('a' <= c && c <= 'z') || ('A' <= c && c <= 'Z') || c == '-';
        label = label && l;
        digits = digits && d;
        i += 1;
    }
    (label, digits)
}

fn parse_ident_exec(s: &Vec<char>) -> (r: Option<Ident>)
    ensures
        r is Some <==> parse_ident(s@) is Some,
        r is Some ==> r.unwrap()@ == parse_ident(s@).unwrap(),
{
    let (label, digits) = is_label_exec(s);
    if !label {
        None
    } else if digits {
        match parse_number_exec(s) {
            Some(n) => Some(Ident::Numeric(n)),
            None => None,
        }
    } else {
        Some(Ident::Alpha(s.clone()))
    }
}

fn parse_numbers_exec(parts: &Vec<Vec<char>>) -> (r: Option<Vec<u64>>)
    ensures
        r is Some <==> parse_numbers(labels_view(parts@)) is Some,
        r is Some ==> r.unwrap()@ == parse_numbers(labels_view(parts@)).unwrap(),
{
    let ghost g = labels_view(parts@);
    assert(forall|k: int| 0 <= k < parts@.len() ==> #[trigger] parts@[k]@ == g[k]);
    let mut out: Vec<u64> = Vec::new();
    let mut i: usize = 0;
    while i < parts.len()
        invariant
            i <= parts@.len(),
            g == labels_view(parts@),
            out@.len() == i,
            forall|k: int| 0 <= k < i ==> (#[trigger] parse_number(g[k])) is Some && out@[k] == parse_number(g[k]).unwrap(),
        decreases parts@.len() - i,
    {
        let item = parse_number_exec(&parts[i]);
        if item.is_none() {
            assert(parse_number(g[i as int]) is None);
            assert(parse_numbers(g) is None);
            return None;
        }
        out.push(item.unwrap());
        i += 1;
    }
    assert(out@ =~= parse_numbers(g).unwrap());
    Some(out)
}

fn parse_idents_exec(parts: &Vec<Vec<char>>) -> (r: Option<Vec<Ident>>)
    ensures
        r is Some <==> parse_idents(labels_view(parts@)) is Some,
        r is Some ==> idents_view(r.unwrap()@) == parse_idents(labels_view(parts@)).unwrap(),
{
    let ghost g = labels_view(parts@);
    assert(forall|k: int| 0 <= k < parts@.len() ==> #[trigger] parts@[k]@ == g[k]);
    let mut out: Vec<Ident> = Vec::new();
    let mut i: usize = 0;
    while i < parts.len()
        invariant
            i <= parts@.len(),
            g == labels_view(parts@),
            out@.len() == i,
            forall|k: int| 0 <= k < i ==> (#[trigger] parse_ident(g[k])) is Some && out@[k]@ == parse_ident(g[k]).unwrap(),
        decreases parts@.len() - i,
    {
        let item = parse_ident_exec(&parts[i]);
        if item.is_none() {
            assert(parse_ident(g[i as int]) is None);
            assert(parse_idents(g) is None);
            return None;
        }
        out.push(item.unwrap());
        i += 1;
    }
    assert(idents_view(out@) =~= parse_idents(g).unwrap());
    Some(out)
}

fn all_labels_exec(parts: &Vec<Vec<char>>) -> (r: bool)
    ensures
        r == all_labels(labels_view(parts@)),
{
    let mut i: usize = 0;
    while i < parts.len()
        invariant
            i <= parts@.len(),
            forall|k: int| 0 <= k < i ==> is_label(#[trigger] labels_view(parts@)[k]),
        decreases parts@.len() - i,
    {
        let (l, _) = is_label_exec(&parts[i]);
        if !l {
            assert(!is_label(labels_view(parts@)[i as int]));
            return false;
        }
        i += 1;
    }
    true
}

/// Splits `s` into its numeric components, pre-release identifiers and build
/// labels, as `parse_version_parts` describes.
pub fn parse_version_parts_exec(s: &Vec<char>) -> (r: Option<(Vec<u64>, Vec<Ident>, Vec<Vec<char>>)>)
    ensures
        r is Some <==> parse_version_parts(s@) is Some,
        r is Some ==> ({
            let (n, p, b) = parse_version_parts(s@).unwrap();
            &&& r.unwrap().0@ == n
            &&& idents_view(r.unwrap().1@) == p
            &&& labels_view(r.unwrap().2@) == b
        }),
{
    let (main, build) = split_once_exec(s, '+');
    let (core, pre) = split_once_exec(&main, '-');
    let core_parts = split_all_exec(&core, '.');
    assert(labels_view(core_parts@) =~= split_all(core@, '.'));
    let nums = parse_numbers_exec(&core_parts);
    let ids = match pre {
        Some(p) => {
            let pre_parts = split_all_exec(&p, '.');
            assert(labels_view(pre_parts@) =~= split_all(p@, '.'));
            parse_idents_exec(&pre_parts)
        },
        None => {
            let v: Vec<Ident> = Vec::new();
            assert(idents_view(v@) =~= Seq::<IdentV>::empty());
            Some(v)
        },
    };
    let labels = match build {
        Some(b) => {
            let l = split_all_exec(&b, '.');
            assert(labels_view(l@) =~= split_all(b@, '.'));
            l
        },
        None => {
            let v: Vec<Vec<char>> = Vec::new();
            assert(labels_view(v@) =~= Seq::<Seq<char>>::empty());
            v
        },
    };
    let ok = all_labels_exec(&labels);
    match (nums, ids) {
        (Some(n), Some(p)) => if ok {
            Some((n, p, labels))
        } else {
            None
        },
        _ => None,
    }
}

impl Version {
    /// Reads a version written `major.minor.patch[-pre][+build]`.
    pub fn parse(text: &str) -> (r: Result<Version, VersionParseError>)
        ensures
            r is Ok <==> parse_version(text@) is Some,
            r is Ok ==> r.unwrap()@ == parse_version(text@).unwrap(),
    {
        let s = chars_of(text);
        match parse_version_parts_exec(&s) {
            Some((n, p, b)) => if n.len() == 3 {
                Ok(Version { major: n[0], minor: n[1], patch: n[2], pre: p, build: b })
            } else {
                Err(VersionParseError)
            },
            None => Err(VersionParseError),
        }
    }
}

} // verus!
