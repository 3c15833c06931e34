//! Character-level helpers shared by the parsers: decimal numbers, splitting
//! on a separator, and building strings.
use vstd::prelude::*;

verus! {

pub open spec fn is_digit(c: char) -> bool {
    '0' <= c && c <= '9'
}

pub open spec fn all_digits(s: Seq<char>) -> bool {
    forall|i: int| 0 <= i < s.len() ==> is_digit(#[trigger] s[i])
}

pub open spec fn digit_value(c: char) -> nat {
    (c as u32 - '0' as u32) as nat
}

/// The value of a string of decimal digits, most significant first.
pub open spec fn decimal_value(s: Seq<char>) -> nat
    decreases s.len(),
{
    if s.len() == 0 {
        0
    } else {
        decimal_value(s.drop_last()) * 10 + digit_value(s.last())
    }
}

/// The text of a number after an optional leading `+`, as Rust's integer
/// parsing accepts it for unsigned types.
pub open spec fn without_plus(s: Seq<char>) -> Seq<char> {
    if s.len() > 0 && s[0] == '+' {
        s.drop_first()
    } else {
        s
    }
}

/// Whether `s` is an unsigned decimal number (optionally preceded by `+`)
/// whose value is at most `max`.
pub open spec fn is_unsigned(s: Seq<char>, max: nat) -> bool {
    let d = without_plus(s);
    d.len() > 0 && all_digits(d) && decimal_value(d) <= max
}

pub open spec fn unsigned_value(s: Seq<char>) -> nat {
    decimal_value(without_plus(s))
}

/// `s` split at every occurrence of `sep`; always at least one part.
pub open spec fn split(s: Seq<char>, sep: char) -> Seq<Seq<char>>
    decreases s.len(),
{
    if s.len() == 0 {
        seq![Seq::empty()]
    } else {
        let p = split(s.drop_last(), sep);
        if s.last() == sep {
            p.push(Seq::empty())
        } else {
            p.update(p.len() - 1, p.last().push(s.last()))
        }
    }
}

pub proof fn lemma_split_nonempty(s: Seq<char>, sep: char)
    ensures
        split(s, sep).len() >= 1,
    decreases s.len(),
{
    if s.len() > 0 {
        lemma_split_nonempty(s.drop_last(), sep);
    }
}

proof fn lemma_decimal_prefix_grows(s: Seq<char>, i: int, j: int)
    requires
        0 <= i <= j <= s.len(),
    ensures
        decimal_value(s.take(i)) <= decimal_value(s.take(j)),
    decreases j - i,
{
    if i < j {
        lemma_decimal_prefix_grows(s, i, j - 1);
        assert(s.take(j).drop_last() =~= s.take(j - 1));
    }
}

/// Whether `v[start..end]` holds decimal digits only.
pub fn digits_only(v: &Vec<char>, start: usize, end: usize) -> (r: bool)
    requires
        start <= end <= v@.len(),
    ensures
        r == all_digits(v@.subrange(start as int, end as int)),
{
    let mut i: usize = start;
    while i < end
        invariant
            start <= i <= end <= v@.len(),
            all_digits(v@.subrange(start as int, i as int)),
        decreases end - i,
    {
        if !('0' <= v[i] && v[i] <= '9') {
            assert(!is_digit(v@.subrange(start as int, end as int)[i - start]));
            return false;
        }
        i = i + 1;
        assert(all_digits(v@.subrange(start as int, i as int)));
    }
    assert(v@.subrange(start as int, end as int) =~= v@.subrange(start as int, i as int));
    true
}

/// Where the parts of `split(v[start..end], sep)` lie in `v`.
pub fn split_bounds(v: &Vec<char>, start: usize, end: usize, sep: char) -> (r: Vec<(usize, usize)>)
    requires
        start <= end <= v@.len(),
    ensures
        r@.len() == split(v@.subrange(start as int, end as int), sep).len(),
        forall|k: int|
            0 <= k < r@.len() ==> {
                &&& start <= (#[trigger] r@[k]).0 <= r@[k].1 <= end
                &&& split(v@.subrange(start as int, end as int), sep)[k] == v@.subrange(
                    r@[k].0 as int,
                    r@[k].1 as int,
                )
            },
{
    let mut bounds: Vec<(usize, usize)> = Vec::new();
    let mut from: usize = start;
    let mut i: usize = start;
    while i < end
        invariant
            start <= from <= i <= end <= v@.len(),
            ({
                let parts = split(v@.subrange(start as int, i as int), sep);
                &&& parts.len() == bounds@.len() + 1
                &&& parts.last() == v@.subrange(from as int, i as int)
                &&& forall|k: int|
                    0 <= k < bounds@.len() ==> {
                        &&& start <= (#[trigger] bounds@[k]).0 <= bounds@[k].1 <= from
                        &&& parts[k] == v@.subrange(bounds@[k].0 as int, bounds@[k].1 as int)
                    }
            }),
        decreases end - i,
    {
        proof {
            lemma_split_nonempty(v@.subrange(start as int, i as int), sep);
            assert(v@.subrange(start as int, i + 1).drop_last() =~= v@.subrange(
                start as int,
                i as int,
            ));
        }
        if v[i] == sep {
            bounds.push((from, i));
            from = i + 1;
            assert(v@.subrange(from as int, i + 1) =~= Seq::<char>::empty());
        } else {
            assert(v@.subrange(from as int, i + 1) =~= v@.subrange(from as int, i as int).push(
                v@[i as int],
            ));
        }
        i = i + 1;
    }
    bounds.push((from, end));
    bounds
}

/// Parses `t` as an unsigned decimal number (optionally preceded by `+`)
/// of at most `max`.
pub fn parse_number(t: &str, max: u64) -> (r: Option<u64>)
    ensures
        match r {
            Some(x) => is_unsigned(t@, max as nat) && x == unsigned_value(t@),
            None => !is_unsigned(t@, max as nat),
        },
{
    let v = chars_of(t);
    assert(v@.subrange(0, v@.len() as int) =~= t@);
    parse_unsigned(&v, 0, v.len(), max, true)
}

/// Whether two strings hold the same characters.
pub fn str_eq(a: &str, b: &str) -> (r: bool)
    ensures
        r == (a@ == b@),
{
    let n = a.unicode_len();
    if n != b.unicode_len() {
        return false;
    }
    let mut i: usize = 0;
    while i < n
        invariant
            n == a@.len() == b@.len(),
            i <= n,
            a@.take(i as int) == b@.take(i as int),
        decreases n - i,
    {
        if a.get_char(i) != b.get_char(i) {
            return false;
        }
        assert(a@.take(i + 1) =~= a@.take(i as int).push(a@[i as int]));
        assert(b@.take(i + 1) =~= b@.take(i as int).push(b@[i as int]));
        i = i + 1;
    }
    assert(a@ =~= a@.take(n as int));
    assert(b@ =~= b@.take(n as int));
    true
}

/// The characters of `s`, one by one.
pub fn chars_of(s: &str) -> (r: Vec<char>)
    ensures
        r@ == s@,
{
    let n = s.unicode_len();
    let mut r: Vec<char> = Vec::new();
    let mut i: usize = 0;
    while i < n
        invariant
            n == s@.len(),
            i <= n,
            r@ == s@.take(i as int),
        decreases n - i,
    {
        let c = s.get_char(i);
        r.push(c);
        i = i + 1;
        assert(r@ =~= s@.take(i as int));
    }
    assert(r@ =~= s@);
    r
}

/// Relies on std's `String::push`: appends one character.
#[verifier::external_body]
pub fn push_char(s: &mut String, c: char)
    ensures
        final(s)@ == old(s)@.push(c),
{
    s.push(c);
}

/// The string made of the characters `v[start..end]`.
pub fn string_of(v: &Vec<char>, start: usize, end: usize) -> (r: String)
    requires
        start <= end <= v@.len(),
    ensures
        r@ == v@.subrange(start as int, end as int),
{
    let mut r = String::new();
    let mut i: usize = start;
    while i < end
        invariant
            start <= i <= end <= v@.len(),
            r@ == v@.subrange(start as int, i as int),
        decreases end - i,
    {
        push_char(&mut r, v[i]);
        i = i + 1;
        assert(r@ =~= v@.subrange(start as int, i as int));
    }
    r
}

/// Parses `v[start..end]` as an unsigned decimal number of at most `max`;
/// a leading `+` is accepted when `allow_plus` holds.
pub fn parse_unsigned(v: &Vec<char>, start: usize, end: usize, max: u64, allow_plus: bool) -> (r:
    Option<u64>)
    requires
        start <= end <= v@.len(),
    ensures
        ({
            let s = v@.subrange(start as int, end as int);
            let d = if allow_plus { without_plus(s) } else { s };
            match r {
                Some(n) => d.len() > 0 && all_digits(d) && decimal_value(d) <= max && n
                    == decimal_value(d),
                None => !(d.len() > 0 && all_digits(d) && decimal_value(d) <= max),
            }
        }),
{
    let ghost s = v@.subrange(start as int, end as int);
    let mut from = start;
    if allow_plus && start < end && v[start] == '+' {
        from = start + 1;
    }
    let ghost d = v@.subrange(from as int, end as int);
    assert(d == if allow_plus { without_plus(s) } else { s }) by {
        if allow_plus && s.len() > 0 && s[0] == '+' {
            assert(d =~= s.drop_first());
        } else {
            assert(d =~= s);
        }
    }
    if from == end {
        return None;
    }
    let mut value: u64 = 0;
    let mut i: usize = from;
    while i < end
        invariant
            start <= from <= i <= end <= v@.len(),
            d == v@.subrange(from as int, end as int),
            d == (if allow_plus { without_plus(s) } else { s }),
            s == v@.subrange(start as int, end as int),
            all_digits(d.take(i - from)),
            value == decimal_value(d.take(i - from)),
            value <= max,
        decreases end - i,
    {
        let c = v[i];
        if !('0' <= c && c <= '9') {
            assert(d[i - from] == c);
            assert(!is_digit(d[i - from]));
            assert(!all_digits(d));
            return None;
        }
        let digit = (c as u32 - '0' as u32) as u64;
        assert(d.take(i - from + 1).drop_last() =~= d.take(i - from));
        assert(d.take(i - from + 1).last() == c);
        assert(digit_value(c) == digit);
        assert(decimal_value(d.take(i - from + 1)) == value * 10 + digit);
        if digit > max || value > (max - digit) / 10 {
            proof {
                assert(value * 10 + digit > max) by (nonlinear_arith)
                    requires
                        digit > max || value > (max - digit) / 10,
                        digit <= 9,
                ;
                lemma_decimal_prefix_grows(d, i - from + 1, d.len() as int);
                assert(d.take(d.len() as int) =~= d);
            }
            return None;
        }
        assert(value * 10 + digit <= max) by (nonlinear_arith)
            requires
                digit <= max,
                value <= (max - digit) / 10,
        ;
        value = value * 10 + digit;
        i = i + 1;
        assert(all_digits(d.take(i - from)));
    }
    assert(d.take(i - from) =~= d);
    Some(value)
}

} // verus!
