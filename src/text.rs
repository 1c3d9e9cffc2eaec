//! Character-level helpers shared by the version and range parsers.
use vstd::prelude::*;

verus! {

/// The pieces of `s` between occurrences of `sep`; always at least one piece.
pub open spec fn split_all(s: Seq<char>, sep: char) -> Seq<Seq<char>>
    decreases s.len(),
{
    if s.len() == 0 {
        seq![Seq::<char>::empty()]
    } else {
        let rest = split_all(s.drop_last(), sep);
        if s.last() == sep {
            rest.push(Seq::<char>::empty())
        } else {
            rest.update(rest.len() - 1, rest.last().push(s.last()))
        }
    }
}

/// `s` cut at the first occurrence of `sep`: what precedes it, and what follows
/// it if `sep` occurs at all.
pub open spec fn split_once(s: Seq<char>, sep: char) -> (Seq<char>, Option<Seq<char>>)
    decreases s.len(),
{
    if s.len() == 0 {
        (Seq::<char>::empty(), None)
    } else {
        let (head, tail) = split_once(s.drop_last(), sep);
        match tail {
            Some(t) => (head, Some(t.push(s.last()))),
            None => if s.last() == sep {
                (head, Some(Seq::<char>::empty()))
            } else {
                (head.push(s.last()), None)
            },
        }
    }
}

/// `s` with every space removed.
pub open spec fn without_spaces(s: Seq<char>) -> Seq<char>
    decreases s.len(),
{
    if s.len() == 0 {
        s
    } else if s.last() == ' ' {
        without_spaces(s.drop_last())
    } else {
        without_spaces(s.drop_last()).push(s.last())
    }
}

pub open spec fn is_digit(c: char) -> bool {
    '0' <= c && c <= '9'
}

pub open spec fn all_digits(s: Seq<char>) -> bool {
    forall|i: int| 0 <= i < s.len() ==> is_digit(#[trigger] s[i])
}

pub open spec fn digit_value(c: char) -> nat {
    (c as u32 - '0' as u32) as nat
}

/// The decimal value of a string of digits.
pub open spec fn decimal_value(s: Seq<char>) -> nat
    decreases s.len(),
{
    if s.len() == 0 {
        0
    } else {
        decimal_value(s.drop_last()) * 10 + digit_value(s.last())
    }
}

/// A number: one or more decimal digits, no leading zero, whose value fits in `u64`.
pub open spec fn parse_number(s: Seq<char>) -> Option<u64> {
    if s.len() > 0 && (s.len() == 1 || s[0] != '0') && all_digits(s) && decimal_value(s) <= u64::MAX {
        Some(decimal_value(s) as u64)
    } else {
        None
    }
}

/// The characters of `s`.
pub fn chars_of(s: &str) -> (r: Vec<char>)
    ensures
        r@ == s@,
{
    let n = s.unicode_len();
    let mut r: Vec<char> = Vec::new();
    let mut i: usize = 0;
    while i < n
        invariant
            n == s@.len(),
            i <= n,
            r@ == s@.subrange(0, i as int),
        decreases n - i,
    {
        r.push(s.get_char(i));
        i += 1;
        assert(r@ =~= s@.subrange(0, i as int));
    }
    assert(r@ =~= s@);
    r
}

/// Splits `s` at every `sep`, as `split_all` does.
pub fn split_all_exec(s: &Vec<char>, sep: char) -> (r: Vec<Vec<char>>)
    ensures
        r@.len() == split_all(s@, sep).len(),
        forall|k: int| 0 <= k < r@.len() ==> #[trigger] r@[k]@ == split_all(s@, sep)[k],
{
    let mut r: Vec<Vec<char>> = Vec::new();
    r.push(Vec::new());
    let mut i: usize = 0;
    assert(s@.subrange(0, 0) =~= Seq::<char>::empty());
    while i < s.len()
        invariant
            i <= s@.len(),
            r@.len() == split_all(s@.subrange(0, i as int), sep).len(),
            r@.len() >= 1,
            forall|k: int| 0 <= k < r@.len() ==> #[trigger] r@[k]@ == split_all(s@.subrange(0, i as int), sep)[k],
        decreases s@.len() - i,
    {
        let c = s[i];
        proof {
            assert(s@.subrange(0, i + 1).drop_last() =~= s@.subrange(0, i as int));
        }
        if c == sep {
            r.push(Vec::new());
        } else {
            let last = r.len() - 1;
            let mut piece = r.pop().unwrap();
            piece.push(c);
            r.push(piece);
            proof {
                let prev = split_all(s@.subrange(0, i as int), sep);
                assert forall|k: int| 0 <= k < r@.len() implies #[trigger] r@[k]@ == split_all(s@.subrange(0, i + 1), sep)[k] by {
                    if k == last {
                        assert(r@[k]@ =~= prev.last().push(c));
                    }
                }
            }
        }
        i += 1;
    }
    assert(s@.subrange(0, s@.len() as int) =~= s@);
    r
}

/// Cuts `s` at its first `sep`, as `split_once` does.
pub fn split_once_exec(s: &Vec<char>, sep: char) -> (r: (Vec<char>, Option<Vec<char>>))
    ensures
        r.0@ == split_once(s@, sep).0,
        r.1 is Some <==> split_once(s@, sep).1 is Some,
        r.1 is Some ==> r.1.unwrap()@ == split_once(s@, sep).1.unwrap(),
{
    let mut head: Vec<char> = Vec::new();
    let mut tail: Option<Vec<char>> = None;
    let mut i: usize = 0;
    assert(s@.subrange(0, 0) =~= Seq::<char>::empty());
    while i < s.len()
        invariant
            i <= s@.len(),
            head@ == split_once(s@.subrange(0, i as int), sep).0,
            tail is Some <==> split_once(s@.subrange(0, i as int), sep).1 is Some,
            tail is Some ==> tail.unwrap()@ == split_once(s@.subrange(0, i as int), sep).1.unwrap(),
        decreases s@.len() - i,
    {
        let c = s[i];
        proof {
            assert(s@.subrange(0, i + 1).drop_last() =~= s@.subrange(0, i as int));
        }
        match tail {
            Some(mut t) => {
                t.push(c);
                tail = Some(t);
            },
            None => {
                if c == sep {
                    tail = Some(Vec::new());
                } else {
                    head.push(c);
                }
            },
        }
        i += 1;
    }
    assert(s@.subrange(0, s@.len() as int) =~= s@);
    (head, tail)
}

/// `s` with its spaces removed.
pub fn without_spaces_exec(s: &Vec<char>) -> (r: Vec<char>)
    ensures
        r@ == without_spaces(s@),
{
    let mut r: Vec<char> = Vec::new();
    let mut i: usize = 0;
    assert(s@.subrange(0, 0) =~= Seq::<char>::empty());
    while i < s.len()
        invariant
            i <= s@.len(),
            r@ == without_spaces(s@.subrange(0, i as int)),
        decreases s@.len() - i,
    {
        let c = s[i];
        proof {
            assert(s@.subrange(0, i + 1).drop_last() =~= s@.subrange(0, i as int));
        }
        if c != ' ' {
            r.push(c);
        }
        i += 1;
    }
    assert(s@.subrange(0, s@.len() as int) =~= s@);
    r
}

/// Reads a decimal number that fits in `u64`.
pub fn parse_number_exec(s: &Vec<char>) -> (r: Option<u64>)
    ensures
        r == parse_number(s@),
{
    if s.len() == 0 || (s.len() > 1 && s[0] == '0') {
        return None;
    }
    let mut acc: u64 = 0;
    let mut overflow = false;
    let mut i: usize = 0;
    assert(s@.subrange(0, 0) =~= Seq::<char>::empty());
    while i < s.len()
        invariant
            i <= s@.len(),
            all_digits(s@.subrange(0, i as int)),
            !overflow ==> acc as nat == decimal_value(s@.subrange(0, i as int)),
            overflow ==> decimal_value(s@.subrange(0, i as int)) > u64::MAX,
        decreases s@.len() - i,
    {
        let c = s[i];
        if !('0' <= c && c <= '9') {
            assert(!all_digits(s@)) by {
                assert(!is_digit(s@[i as int]));
            }
            return None;
        }
        let d = (c as u32 - '0' as u32) as u64;
        let ghost prev = decimal_value(s@.subrange(0, i as int));
        proof {
            assert(s@.subrange(0, i + 1).drop_last() =~= s@.subrange(0, i as int));
            assert(decimal_value(s@.subrange(0, i + 1)) == prev * 10 + d);
        }
        if !overflow {
            if acc > 1844674407370955161 || (acc == 1844674407370955161 && d > 5) {
                overflow = true;
            } else {
                acc = acc * 10 + d;
            }
        } else {
            assert(prev * 10 + d > u64::MAX) by (nonlinear_arith)
                requires prev > u64::MAX;
        }
        i += 1;
        assert(all_digits(s@.subrange(0, i as int))) by {
            assert forall|k: int| 0 <= k < i implies is_digit(#[trigger] s@.subrange(0, i as int)[k]) by {
                if k < i - 1 {
                    assert(s@.subrange(0, i as int)[k] == s@.subrange(0, i - 1)[k]);
                }
            }
        }
    }
    assert(s@.subrange(0, s@.len() as int) =~= s@);
    if overflow {
        None
    } else {
        Some(acc)
    }
}

/// `s` without its first `n` characters.
pub fn skip_exec(s: &Vec<char>, n: usize) -> (r: Vec<char>)
    requires
        n <= s@.len(),
    ensures
        r@ == s@.skip(n as int),
{
    let mut r: Vec<char> = Vec::new();
    let mut i: usize = n;
    while i < s.len()
        invariant
            n <= i <= s@.len(),
            r@ == s@.subrange(n as int, i as int),
        decreases s@.len() - i,
    {
        r.push(s[i]);
        i += 1;
        assert(r@ =~= s@.subrange(n as int, i as int));
    }
    assert(r@ =~= s@.skip(n as int));
    r
}

} // verus!
