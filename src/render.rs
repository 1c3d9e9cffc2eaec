//! Text of versions, ranges and report lines, for terminal and machine renderers.
use vstd::prelude::*;
use crate::advisory::Advisory;
use crate::range::{Comparator, ComparatorV, Op, VersionRange, VersionReq};
use crate::scan::Package;
use crate::text::{split_all, split_once, chars_of, parse_number, decimal_value, all_digits, is_digit, digit_value};
use crate::version::{Ident, IdentV, Version, VersionV, parse_version, parse_numbers};

verus! {

pub open spec fn digit_char(d: nat) -> char {
    if d == 0 { '0' } else if d == 1 { '1' } else if d == 2 { '2' } else if d == 3 { '3' }
    else if d == 4 { '4' } else if d == 5 { '5' } else if d == 6 { '6' } else if d == 7 { '7' }
    else if d == 8 { '8' } else { '9' }
}

/// The decimal digits of `n`, without leading zeros.
pub open spec fn decimal_text(n: nat) -> Seq<char>
    decreases n,
{
    if n < 10 {
        seq![digit_char(n)]
    } else {
        decimal_text(n / 10).push(digit_char(n % 10))
    }
}

/// `parts` with `sep` between each two.
pub open spec fn join(parts: Seq<Seq<char>>, sep: Seq<char>) -> Seq<char>
    decreases parts.len(),
{
    if parts.len() == 0 {
        Seq::empty()
    } else if parts.len() == 1 {
        parts[0]
    } else {
        join(parts.drop_last(), sep) + sep + parts.last()
    }
}

pub open spec fn ident_text(i: IdentV) -> Seq<char> {
    match i {
        IdentV::Numeric(n) => decimal_text(n as nat),
        IdentV::Alpha(s) => s,
    }
}

/// `-` and the dot-joined identifiers, or nothing when there are none.
pub open spec fn pre_text(pre: Seq<IdentV>) -> Seq<char> {
    if pre.len() == 0 {
        Seq::empty()
    } else {
        seq!['-'] + join(pre.map_values(|i: IdentV| ident_text(i)), seq!['.'])
    }
}

/// `+` and the dot-joined labels, or nothing when there are none.
pub open spec fn build_text(build: Seq<Seq<char>>) -> Seq<char> {
    if build.len() == 0 {
        Seq::empty()
    } else {
        seq!['+'] + join(build, seq!['.'])
    }
}

/// `major.minor.patch[-pre][+build]`.
pub open spec fn version_text(v: VersionV) -> Seq<char> {
    decimal_text(v.major) + seq!['.'] + decimal_text(v.minor) + seq!['.'] + decimal_text(v.patch)
        + pre_text(v.pre) + build_text(v.build)
}

pub open spec fn op_text(op: Op) -> Seq<char> {
    match op {
        Op::Exact => seq!['='],
        Op::Less => seq!['<'],
        Op::LessEq => seq!['<', '='],
        Op::Greater => seq!['>'],
        Op::GreaterEq => seq!['>', '='],
        Op::Caret => seq!['^'],
        Op::Tilde => seq!['~'],
    }
}

/// A comparator as written: operator, then the components it gives.
pub open spec fn comparator_text(c: ComparatorV) -> Seq<char> {
    op_text(c.op) + decimal_text(c.major as nat) + match c.minor {
        Some(m) => seq!['.'] + decimal_text(m as nat),
        None => Seq::empty(),
    } + match c.patch {
        Some(p) => seq!['.'] + decimal_text(p as nat),
        None => Seq::empty(),
    } + pre_text(c.pre)
}

pub open spec fn group_text(g: Seq<ComparatorV>) -> Seq<char> {
    join(g.map_values(|c: ComparatorV| comparator_text(c)), seq![',', ' '])
}

/// The groups of a range, each as its comparators, all joined by `, `.
pub open spec fn range_text(r: Seq<Seq<ComparatorV>>) -> Seq<char> {
    join(r.map_values(|g: Seq<ComparatorV>| group_text(g)), seq![',', ' '])
}

fn digit_char_exec(d: u64) -> (c: char)
    requires
        d < 10,
    ensures
        c == digit_char(d as nat),
{
    if d == 0 { '0' } else if d == 1 { '1' } else if d == 2 { '2' } else if d == 3 { '3' }
    else if d == 4 { '4' } else if d == 5 { '5' } else if d == 6 { '6' } else if d == 7 { '7' }
    else if d == 8 { '8' } else { '9' }
}

/// The decimal text of `n`.
pub fn number_text(n: u64) -> (r: Vec<char>)
    ensures
        r@ == decimal_text(n as nat),
    decreases n,
{
    if n < 10 {
        let mut r: Vec<char> = Vec::new();
        r.push(digit_char_exec(n));
        assert(r@ =~= seq![digit_char(n as nat)]);
        r
    } else {
        let mut r = number_text(n / 10);
        r.push(digit_char_exec(n % 10));
        r
    }
}

fn push_all(r: &mut Vec<char>, s: &Vec<char>)
    ensures
        final(r)@ == old(r)@ + s@,
{
    let mut i: usize = 0;
    let ghost start = r@;
    while i < s.len()
        invariant
            i <= s@.len(),
            r@ == start + s@.subrange(0, i as int),
        decreases s@.len() - i,
    {
        r.push(s[i]);
        i += 1;
        assert(r@ =~= start + s@.subrange(0, i as int));
    }
    assert(s@.subrange(0, s@.len() as int) =~= s@);
}

pub open spec fn texts_view(v: Seq<Vec<char>>) -> Seq<Seq<char>> {
    v.map_values(|t: Vec<char>| t@)
}

fn join_exec(parts: &Vec<Vec<char>>, sep: &Vec<char>) -> (r: Vec<char>)
    ensures
        r@ == join(texts_view(parts@), sep@),
{
    let mut r: Vec<char> = Vec::new();
    let mut i: usize = 0;
    let ghost ps = texts_view(parts@);
    assert(ps.subrange(0, 0) =~= Seq::<Seq<char>>::empty());
    while i < parts.len()
        invariant
            ps == texts_view(parts@),
            i <= ps.len(),
            r@ == join(ps.subrange(0, i as int), sep@),
        decreases ps.len() - i,
    {
        assert(ps.subrange(0, i + 1).drop_last() =~= ps.subrange(0, i as int));
        if i > 0 {
            push_all(&mut r, sep);
        }
        push_all(&mut r, &parts[i]);
        i += 1;
        assert(r@ =~= join(ps.subrange(0, i as int), sep@));
    }
    assert(ps.subrange(0, ps.len() as int) =~= ps);
    r
}

fn ident_text_exec(i: &Ident) -> (r: Vec<char>)
    ensures
        r@ == ident_text(i@),
{
    match i {
        Ident::Numeric(n) => number_text(*n),
        Ident::Alpha(s) => s.clone(),
    }
}

fn pre_text_exec(pre: &Vec<Ident>) -> (r: Vec<char>)
    ensures
        r@ == pre_text(crate::version::idents_view(pre@)),
{
    let ghost pv = crate::version::idents_view(pre@);
    if pre.len() == 0 {
        let r: Vec<char> = Vec::new();
        assert(r@ =~= Seq::<char>::empty());
        return r;
    }
    let mut parts: Vec<Vec<char>> = Vec::new();
    let mut i: usize = 0;
    while i < pre.len()
        invariant
            pv == crate::version::idents_view(pre@),
            i <= pre@.len(),
            parts@.len() == i,
            forall|k: int| 0 <= k < i ==> (#[trigger] parts@[k])@ == ident_text(pv[k]),
        decreases pre@.len() - i,
    {
        parts.push(ident_text_exec(&pre[i]));
        i += 1;
    }
    assert(texts_view(parts@) =~= pv.map_values(|i: IdentV| ident_text(i)));
    let mut r: Vec<char> = Vec::new();
    r.push('-');
    let dot: Vec<char> = vec!['.'];
    assert(dot@ =~= seq!['.']);
    let joined = join_exec(&parts, &dot);
    push_all(&mut r, &joined);
    assert(r@ =~= seq!['-'] + joined@);
    r
}

fn build_text_exec(build: &Vec<Vec<char>>) -> (r: Vec<char>)
    ensures
        r@ == build_text(crate::version::labels_view(build@)),
{
    if build.len() == 0 {
        let r: Vec<char> = Vec::new();
        assert(r@ =~= Seq::<char>::empty());
        return r;
    }
    let mut r: Vec<char> = Vec::new();
    r.push('+');
    let dot: Vec<char> = vec!['.'];
    assert(dot@ =~= seq!['.']);
    let joined = join_exec(build, &dot);
    assert(texts_view(build@) =~= crate::version::labels_view(build@));
    push_all(&mut r, &joined);
    assert(r@ =~= seq!['+'] + joined@);
    r
}

impl Version {
    /// The version written `major.minor.patch[-pre][+build]`.
    pub fn text(&self) -> (r: Vec<char>)
        ensures
            r@ == version_text(self@),
    {
        let mut r = number_text(self.major);
        r.push('.');
        push_all(&mut r, &number_text(self.minor));
        r.push('.');
        push_all(&mut r, &number_text(self.patch));
        push_all(&mut r, &pre_text_exec(&self.pre));
        push_all(&mut r, &build_text_exec(&self.build));
        r
    }
}

fn op_text_exec(op: Op) -> (r: Vec<char>)
    ensures
        r@ == op_text(op),
{
    let r: Vec<char> = match op {
        Op::Exact => vec!['='],
        Op::Less => vec!['<'],
        Op::LessEq => vec!['<', '='],
        Op::Greater => vec!['>'],
        Op::GreaterEq => vec!['>', '='],
        Op::Caret => vec!['^'],
        Op::Tilde => vec!['~'],
    };
    assert(r@ =~= op_text(op));
    r
}

impl Comparator {
    /// The comparator as written, such as `>=1.2.0` or `~1.2`.
    pub fn text(&self) -> (r: Vec<char>)
        ensures
            r@ == comparator_text(self@),
    {
        let mut r = op_text_exec(self.op);
        push_all(&mut r, &number_text(self.major));
        match self.minor {
            Some(m) => {
                r.push('.');
                push_all(&mut r, &number_text(m));
            },
            None => {},
        }
        match self.patch {
            Some(p) => {
                r.push('.');
                push_all(&mut r, &number_text(p));
            },
            None => {},
        }
        push_all(&mut r, &pre_text_exec(&self.pre));
        assert(r@ =~= comparator_text(self@));
        r
    }
}

impl VersionReq {
    /// The comparators joined by `, `.
    pub fn text(&self) -> (r: Vec<char>)
        ensures
            r@ == group_text(self@),
    {
        let mut parts: Vec<Vec<char>> = Vec::new();
        let mut i: usize = 0;
        while i < self.comparators.len()
            invariant
                i <= self@.len(),
                parts@.len() == i,
                forall|k: int| 0 <= k < i ==> (#[trigger] parts@[k])@ == comparator_text(self@[k]),
            decreases self@.len() - i,
        {
            parts.push(self.comparators[i].text());
            i += 1;
        }
        assert(texts_view(parts@) =~= self@.map_values(|c: ComparatorV| comparator_text(c)));
        let sep: Vec<char> = vec![',', ' '];
        assert(sep@ =~= seq![',', ' ']);
        join_exec(&parts, &sep)
    }
}

impl VersionRange {
    /// The groups joined by `, `.
    pub fn text(&self) -> (r: Vec<char>)
        ensures
            r@ == range_text(self@),
    {
        let mut parts: Vec<Vec<char>> = Vec::new();
        let mut i: usize = 0;
        while i < self.groups.len()
            invariant
                i <= self@.len(),
                parts@.len() == i,
                forall|k: int| 0 <= k < i ==> (#[trigger] parts@[k])@ == group_text(self@[k]),
            decreases self@.len() - i,
        {
            parts.push(self.groups[i].text());
            i += 1;
        }
        assert(texts_view(parts@) =~= self@.map_values(|g: Seq<ComparatorV>| group_text(g)));
        let sep: Vec<char> = vec![',', ' '];
        assert(sep@ =~= seq![',', ' ']);
        join_exec(&parts, &sep)
    }
}

pub open spec fn optional_line(label: Seq<char>, value: Option<String>) -> Seq<(Seq<char>, Seq<char>)> {
    match value {
        Some(v) => seq![(label, v@)],
        None => Seq::empty(),
    }
}

/// The labelled lines that describe one match: id, crate, version, date and
/// URL when known, title, and the patched versions to upgrade to.
pub open spec fn advisory_lines_spec(p: Package, a: Advisory) -> Seq<(Seq<char>, Seq<char>)> {
    seq![("ID"@, a.id@), ("Crate"@, p.name@), ("Version"@, version_text(p.version@))]
        + optional_line("Date"@, a.date) + optional_line("URL"@, a.url)
        + seq![("Title"@, a.title@), ("Solution: upgrade to"@, range_text(a.patched_versions@))]
}

pub open spec fn lines_view(v: Seq<(Vec<char>, Vec<char>)>) -> Seq<(Seq<char>, Seq<char>)> {
    v.map_values(|l: (Vec<char>, Vec<char>)| (l.0@, l.1@))
}

fn push_line(lines: &mut Vec<(Vec<char>, Vec<char>)>, label: &str, value: Vec<char>)
    ensures
        lines_view(final(lines)@) == lines_view(old(lines)@).push((label@, value@)),
{
    let ghost before = lines@;
    lines.push((chars_of(label), value));
    assert(lines_view(lines@) =~= lines_view(before).push((label@, value@)));
}

/// The (label, value) lines that describe `advisory` applying to `package`.
pub fn advisory_lines(package: &Package, advisory: &Advisory) -> (r: Vec<(Vec<char>, Vec<char>)>)
    ensures
        lines_view(r@) == advisory_lines_spec(*package, *advisory),
{
    let mut r: Vec<(Vec<char>, Vec<char>)> = Vec::new();
    assert(lines_view(r@) =~= Seq::<(Seq<char>, Seq<char>)>::empty());
    push_line(&mut r, "ID", chars_of(advisory.id.as_str()));
    push_line(&mut r, "Crate", chars_of(package.name.as_str()));
    push_line(&mut r, "Version", package.version.text());
    let ghost head = lines_view(r@);
    match &advisory.date {
        Some(d) => push_line(&mut r, "Date", chars_of(d.as_str())),
        None => {},
    }
    let ghost with_date = lines_view(r@);
    assert(with_date =~= head + optional_line("Date"@, advisory.date));
    match &advisory.url {
        Some(u) => push_line(&mut r, "URL", chars_of(u.as_str())),
        None => {},
    }
    let ghost with_url = lines_view(r@);
    assert(with_url =~= with_date + optional_line("URL"@, advisory.url));
    push_line(&mut r, "Title", chars_of(advisory.title.as_str()));
    push_line(&mut r, "Solution: upgrade to", advisory.patched_versions.text());
    assert(lines_view(r@) =~= advisory_lines_spec(*package, *advisory));
    r
}

/// The closing message of a report with `count` matches.
pub open spec fn summary_message_spec(count: nat) -> Seq<char> {
    if count == 1 {
        "1 vulnerability found!"@
    } else {
        decimal_text(count) + " vulnerabilities found!"@
    }
}

/// `1 vulnerability found!`, or the count and `vulnerabilities found!`.
pub fn summary_message(count: usize) -> (r: Vec<char>)
    ensures
        r@ == summary_message_spec(count as nat),
{
    if count == 1 {
        chars_of("1 vulnerability found!")
    } else {
        let mut r = number_text(count as u64);
        push_all(&mut r, &chars_of(" vulnerabilities found!"));
        r
    }
}

/// The fields of the machine-readable record of one match, in order; the URL
/// is absent when the advisory gives none.
pub open spec fn record_fields_spec(a: Advisory) -> Seq<(Seq<char>, Option<Seq<char>>)> {
    seq![
        ("tool"@, Some("cargo-audit"@)),
        ("message"@, Some(a.title@)),
        ("url"@, match a.url { Some(u) => Some(u@), None => None }),
        ("cve"@, Some(a.id@)),
        ("file"@, Some("Cargo.lock"@)),
        ("priority"@, Some("Unknown"@)),
    ]
}

pub open spec fn fields_view(v: Seq<(Vec<char>, Option<Vec<char>>)>) -> Seq<(Seq<char>, Option<Seq<char>>)> {
    v.map_values(|f: (Vec<char>, Option<Vec<char>>)| (f.0@, match f.1 { Some(x) => Some(x@), None => None }))
}

/// The (key, value) fields of the machine-readable record of `advisory`.
pub fn record_fields(advisory: &Advisory) -> (r: Vec<(Vec<char>, Option<Vec<char>>)>)
    ensures
        fields_view(r@) == record_fields_spec(*advisory),
{
    let url = match &advisory.url {
        Some(u) => Some(chars_of(u.as_str())),
        None => None,
    };
    let r = vec![
        (chars_of("tool"), Some(chars_of("cargo-audit"))),
        (chars_of("message"), Some(chars_of(advisory.title.as_str()))),
        (chars_of("url"), url),
        (chars_of("cve"), Some(chars_of(advisory.id.as_str()))),
        (chars_of("file"), Some(chars_of("Cargo.lock"))),
        (chars_of("priority"), Some(chars_of("Unknown"))),
    ];
    assert(fields_view(r@) =~= record_fields_spec(*advisory));
    r
}

proof fn lemma_decimal_text_shape(n: nat)
    ensures
        decimal_text(n).len() >= 1,
        all_digits(decimal_text(n)),
        decimal_value(decimal_text(n)) == n,
        decimal_text(n).len() > 1 ==> decimal_text(n)[0] != '0',
        (decimal_text(n).len() == 1) == (n < 10),
    decreases n,
{
    let d = n % 10;
    vstd::arithmetic::div_mod::lemma_fundamental_div_mod(n as int, 10);
    assert(digit_value(digit_char(d)) == d && is_digit(digit_char(d)));
    if n >= 10 {
        lemma_decimal_text_shape(n / 10);
        let t = decimal_text(n);
        let h = decimal_text(n / 10);
        assert(t.drop_last() =~= h);
        assert(t.last() == digit_char(d));
        assert(decimal_value(t) == decimal_value(h) * 10 + digit_value(digit_char(d)));
        assert(decimal_value(h) == n / 10);
        assert((n / 10) * 10 + d == n);
        assert(decimal_value(t) == n);
        assert(all_digits(t)) by {
            assert forall|k: int| 0 <= k < t.len() implies is_digit(#[trigger] t[k]) by {
                if k < h.len() {
                    assert(t[k] == h[k]);
                }
            }
        }
        assert(n / 10 >= 1);
        if h.len() == 1 {
            assert(n / 10 < 10);
            assert(h[0] == digit_char(n / 10));
        }
        assert(t[0] == h[0]);
    } else {
        assert(decimal_text(n).drop_last() =~= Seq::<char>::empty());
        assert(d == n);
        assert(decimal_value(Seq::<char>::empty()) == 0);
        assert(decimal_text(n).last() == digit_char(n));
        assert(decimal_value(decimal_text(n)) == decimal_value(decimal_text(n).drop_last()) * 10
            + digit_value(digit_char(n)));
    }
}

/// The decimal text of a number reads back as that number.
pub proof fn lemma_number_text_round_trip(n: u64)
    ensures
        parse_number(decimal_text(n as nat)) == Some(n),
{
    lemma_decimal_text_shape(n as nat);
}

proof fn lemma_split_once_absent(s: Seq<char>, c: char)
    requires
        !s.contains(c),
    ensures
        split_once(s, c) == (s, Option::<Seq<char>>::None),
    decreases s.len(),
{
    if s.len() > 0 {
        assert(!s.drop_last().contains(c)) by {
            if s.drop_last().contains(c) {
                let k = choose|k: int| 0 <= k < s.drop_last().len() && s.drop_last()[k] == c;
                assert(s[k] == c);
            }
        }
        lemma_split_once_absent(s.drop_last(), c);
        assert(s.last() != c) by {
            assert(s[s.len() - 1] == s.last());
        }
        assert(s.drop_last().push(s.last()) =~= s);
    }
}

proof fn lemma_split_all_absent(s: Seq<char>, c: char)
    requires
        !s.contains(c),
    ensures
        split_all(s, c) == seq![s],
    decreases s.len(),
{
    if s.len() > 0 {
        assert(!s.drop_last().contains(c)) by {
            if s.drop_last().contains(c) {
                let k = choose|k: int| 0 <= k < s.drop_last().len() && s.drop_last()[k] == c;
                assert(s[k] == c);
            }
        }
        lemma_split_all_absent(s.drop_last(), c);
        assert(s.last() != c) by {
            assert(s[s.len() - 1] == s.last());
        }
        assert(s.drop_last().push(s.last()) =~= s);
        assert(split_all(s, c) =~= seq![s]);
    } else {
        assert(s =~= Seq::<char>::empty());
    }
}

proof fn lemma_split_all_append(a: Seq<char>, b: Seq<char>, c: char)
    requires
        !b.contains(c),
    ensures
        split_all(a + seq![c] + b, c) == split_all(a, c).push(b),
    decreases b.len(),
{
    let s = a + seq![c] + b;
    if b.len() == 0 {
        assert(s.drop_last() =~= a);
        assert(b =~= Seq::<char>::empty());
    } else {
        assert(!b.drop_last().contains(c)) by {
            if b.drop_last().contains(c) {
                let k = choose|k: int| 0 <= k < b.drop_last().len() && b.drop_last()[k] == c;
                assert(b[k] == c);
            }
        }
        lemma_split_all_append(a, b.drop_last(), c);
        assert(s.drop_last() =~= a + seq![c] + b.drop_last());
        assert(s.last() == b.last());
        assert(b.last() != c) by {
            assert(b[b.len() - 1] == b.last());
        }
        assert(b.drop_last().push(b.last()) =~= b);
        assert(split_all(s, c) =~= split_all(a, c).push(b));
    }
}

proof fn lemma_digits_lack(n: nat, c: char)
    requires
        !is_digit(c),
    ensures
        !decimal_text(n).contains(c),
{
    lemma_decimal_text_shape(n);
}

/// A release version (no pre-release identifiers, no build labels) reads back
/// from its text.
pub proof fn lemma_release_text_round_trip(v: Version)
    requires
        v.pre@.len() == 0,
        v.build@.len() == 0,
    ensures
        parse_version(version_text(v@)) == Some(v@),
{
    let d1 = decimal_text(v.major as nat);
    let d2 = decimal_text(v.minor as nat);
    let d3 = decimal_text(v.patch as nat);
    let t = version_text(v@);
    assert(t =~= d1 + seq!['.'] + d2 + seq!['.'] + d3);
    lemma_digits_lack(v.major as nat, '.');
    lemma_digits_lack(v.minor as nat, '.');
    lemma_digits_lack(v.patch as nat, '.');
    lemma_digits_lack(v.major as nat, '+');
    lemma_digits_lack(v.minor as nat, '+');
    lemma_digits_lack(v.patch as nat, '+');
    lemma_digits_lack(v.major as nat, '-');
    lemma_digits_lack(v.minor as nat, '-');
    lemma_digits_lack(v.patch as nat, '-');
    assert(!t.contains('+')) by {
        if t.contains('+') {
            let k = choose|k: int| 0 <= k < t.len() && t[k] == '+';
            if k < d1.len() {
                assert(d1[k] == '+');
            } else if k == d1.len() {
            } else if k < d1.len() + 1 + d2.len() {
                assert(d2[k - d1.len() - 1] == '+');
            } else if k == d1.len() + 1 + d2.len() {
            } else {
                assert(d3[k - d1.len() - 2 - d2.len()] == '+');
            }
        }
    }
    assert(!t.contains('-')) by {
        if t.contains('-') {
            let k = choose|k: int| 0 <= k < t.len() && t[k] == '-';
            if k < d1.len() {
                assert(d1[k] == '-');
            } else if k == d1.len() {
            } else if k < d1.len() + 1 + d2.len() {
                assert(d2[k - d1.len() - 1] == '-');
            } else if k == d1.len() + 1 + d2.len() {
            } else {
                assert(d3[k - d1.len() - 2 - d2.len()] == '-');
            }
        }
    }
    lemma_split_once_absent(t, '+');
    lemma_split_once_absent(t, '-');
    lemma_split_all_absent(d1, '.');
    lemma_split_all_append(d1, d2, '.');
    lemma_split_all_append(d1 + seq!['.'] + d2, d3, '.');
    let parts = split_all(t, '.');
    assert(parts =~= seq![d1, d2, d3]);
    lemma_number_text_round_trip(v.major);
    lemma_number_text_round_trip(v.minor);
    lemma_number_text_round_trip(v.patch);
    let nums = parse_numbers(parts);
    assert(nums == Some(seq![v.major, v.minor, v.patch])) by {
        assert(Seq::new(parts.len(), |k: int| crate::text::parse_number(parts[k]).unwrap()) =~= seq![v.major, v.minor, v.patch]);
    }
    assert(v@.pre =~= Seq::<IdentV>::empty());
    assert(v@.build =~= Seq::<Seq<char>>::empty());
}

} // verus!
