use vstd::prelude::*;

verus! {

/// Characters with the Unicode `White_Space` property.
pub open spec fn is_ws(c: char) -> bool {
    let u: u32 = c as u32;
    (0x09 <= u && u <= 0x0D) || u == 0x20 || u == 0x85 || u == 0xA0 || u == 0x1680 || (0x2000
        <= u && u <= 0x200A) || u == 0x2028 || u == 0x2029 || u == 0x202F || u == 0x205F || u
        == 0x3000
}

pub fn is_whitespace(c: char) -> (r: bool)
    ensures
        r == is_ws(c),
{
    let u: u32 = c as u32;
    (0x09 <= u && u <= 0x0D) || u == 0x20 || u == 0x85 || u == 0xA0 || u == 0x1680 || (0x2000
        <= u && u <= 0x200A) || u == 0x2028 || u == 0x2029 || u == 0x202F || u == 0x205F || u
        == 0x3000
}

/// `s` without its leading whitespace.
pub open spec fn trim_start(s: Seq<char>) -> Seq<char>
    decreases s.len(),
{
    if s.len() > 0 && is_ws(s[0]) {
        trim_start(s.drop_first())
    } else {
        s
    }
}

/// `s` without its trailing whitespace.
pub open spec fn trim_end(s: Seq<char>) -> Seq<char>
    decreases s.len(),
{
    if s.len() > 0 && is_ws(s.last()) {
        trim_end(s.drop_last())
    } else {
        s
    }
}

/// `s` without leading and trailing whitespace.
pub open spec fn trim(s: Seq<char>) -> Seq<char> {
    trim_end(trim_start(s))
}

/// The pieces of `s` between commas: one more than there are commas, empty
/// pieces included.
pub open spec fn split_commas(s: Seq<char>) -> Seq<Seq<char>>
    decreases s.len(),
{
    if s.len() == 0 {
        seq![Seq::empty()]
    } else {
        let rest = split_commas(s.drop_last());
        if s.last() == ',' {
            rest.push(Seq::empty())
        } else {
            rest.update(rest.len() - 1, rest.last().push(s.last()))
        }
    }
}

/// The views of a sequence of character vectors.
pub open spec fn views(v: Seq<Vec<char>>) -> Seq<Seq<char>> {
    v.map_values(|f: Vec<char>| f@)
}

/// Relies on String::push: appends one character.
#[verifier::external_body]
fn push_char(s: &mut String, c: char)
    ensures
        final(s)@ == old(s)@.push(c),
{
    s.push(c)
}

/// The characters of `s`, in order.
pub fn chars_of(s: &str) -> (r: Vec<char>)
    ensures
        r@ == s@,
{
    let mut v: Vec<char> = Vec::new();
    for c in it: s.chars()
        invariant
            v@ == it.seq().take(it.index() as int),
    {
        v.push(c);
    }
    v
}

/// A string holding the characters of `v`.
pub fn string_of(v: &Vec<char>) -> (r: String)
    ensures
        r@ == v@,
{
    let mut s = String::new();
    let mut i: usize = 0;
    while i < v.len()
        invariant
            i <= v.len(),
            s@ == v@.take(i as int),
        decreases v.len() - i,
    {
        push_char(&mut s, v[i]);
        i = i + 1;
        assert(s@ =~= v@.take(i as int));
    }
    assert(v@.take(v.len() as int) =~= v@);
    s
}

/// Splits `s` at each comma.
pub fn split_on_commas(s: &Vec<char>) -> (r: Vec<Vec<char>>)
    ensures
        views(r@) == split_commas(s@),
{
    let mut done: Vec<Vec<char>> = Vec::new();
    let mut cur: Vec<char> = Vec::new();
    let mut i: usize = 0;
    while i < s.len()
        invariant
            i <= s.len(),
            views(done@).push(cur@) == split_commas(s@.take(i as int)),
        decreases s.len() - i,
    {
        let c = s[i];
        let ghost before = views(done@).push(cur@);
        proof {
            let t = s@.take(i as int + 1);
            assert(t.drop_last() =~= s@.take(i as int));
            assert(t.last() == c);
        }
        if c == ',' {
            let ghost prev = done@;
            done.push(cur);
            cur = Vec::new();
            assert(views(done@) =~= views(prev).push(before.last()));
            assert(views(done@).push(cur@) =~= before.push(Seq::empty()));
        } else {
            cur.push(c);
            assert(views(done@).push(cur@) =~= before.update(
                before.len() - 1,
                before.last().push(c),
            ));
        }
        i = i + 1;
    }
    assert(s@.take(s.len() as int) =~= s@);
    done.push(cur);
    done
}

/// The characters of `s` without leading and trailing whitespace.
pub fn trim_chars(s: &Vec<char>) -> (r: Vec<char>)
    ensures
        r@ == trim(s@),
{
    let n = s.len();
    let mut a: usize = 0;
    assert(s@.subrange(0, n as int) =~= s@);
    while a < n && is_whitespace(s[a])
        invariant
            a <= n,
            n == s.len(),
            trim_start(s@.subrange(a as int, n as int)) == trim_start(s@),
        decreases n - a,
    {
        assert(s@.subrange(a as int, n as int).drop_first() =~= s@.subrange(a as int + 1, n as int));
        a = a + 1;
    }
    let mut b: usize = n;
    while b > a && is_whitespace(s[b - 1])
        invariant
            a <= b <= n,
            n == s.len(),
            trim_start(s@) == s@.subrange(a as int, n as int),
            trim_end(s@.subrange(a as int, b as int)) == trim(s@),
        decreases b - a,
    {
        assert(s@.subrange(a as int, b as int).drop_last() =~= s@.subrange(a as int, b as int - 1));
        b = b - 1;
    }
    let mut r: Vec<char> = Vec::new();
    let mut i: usize = a;
    while i < b
        invariant
            a <= i <= b <= n,
            n == s.len(),
            r@ == s@.subrange(a as int, i as int),
        decreases b - i,
    {
        r.push(s[i]);
        i = i + 1;
    }
    r
}

/// A decimal digit, `0` to `9`.
pub open spec fn is_digit(c: char) -> bool {
    48 <= c as u32 && c as u32 <= 57
}

pub open spec fn all_digits(d: Seq<char>) -> bool {
    forall|i: int| 0 <= i < d.len() ==> is_digit(#[trigger] d[i])
}

/// The number that the decimal digits `d` write, most significant first.
pub open spec fn digits_value(d: Seq<char>) -> nat
    decreases d.len(),
{
    if d.len() == 0 {
        0
    } else {
        digits_value(d.drop_last()) * 10 + (d.last() as u32 - 48) as nat
    }
}

/// The digits of `s` after an optional leading sign.
pub open spec fn unsigned_part(s: Seq<char>) -> Seq<char> {
    if s.len() > 0 && (s[0] == '-' || s[0] == '+') {
        s.drop_first()
    } else {
        s
    }
}

/// The integer that `s` writes: an optional `+` or `-`, then one or more
/// decimal digits, with a value in the range of `i32`; `None` for any
/// other text.
pub open spec fn parse_int(s: Seq<char>) -> Option<i32> {
    let d = unsigned_part(s);
    let v: int = if s.len() > 0 && s[0] == '-' {
        -(digits_value(d) as int)
    } else {
        digits_value(d) as int
    };
    if d.len() == 0 || !all_digits(d) || v < i32::MIN || v > i32::MAX {
        None
    } else {
        Some(v as i32)
    }
}

/// Above every magnitude that an `i32` can have.
const MAGNITUDE_CAP: u64 = 2147483649;

/// Reads `s` as a decimal integer.
pub fn parse_i32(s: &Vec<char>) -> (r: Option<i32>)
    ensures
        r == parse_int(s@),
{
    let n = s.len();
    if n == 0 {
        return None;
    }
    let neg = s[0] == '-';
    let start: usize = if s[0] == '-' || s[0] == '+' { 1 } else { 0 };
    let ghost d = unsigned_part(s@);
    assert(d =~= s@.subrange(start as int, n as int));
    if start == n {
        return None;
    }
    let mut acc: u64 = 0;
    let mut i: usize = start;
    while i < n
        invariant
            start <= i <= n,
            n == s.len(),
            d == s@.subrange(start as int, n as int),
            d == unsigned_part(s@),
            neg == (s@[0] == '-'),
            all_digits(d.take(i - start)),
            acc == if digits_value(d.take(i - start)) < MAGNITUDE_CAP {
                digits_value(d.take(i - start))
            } else {
                MAGNITUDE_CAP as nat
            },
        decreases n - i,
    {
        let c: char = s[i];
        let u: u32 = c as u32;
        if u < 48 || u > 57 {
            assert(!is_digit(d[i - start]));
            assert(!all_digits(d));
            return None;
        }
        proof {
            let p = d.take(i - start + 1);
            assert(p.drop_last() =~= d.take(i - start));
            assert(p.last() == s@[i as int]);
        }
        let next = acc * 10 + (u - 48) as u64;
        acc = if next > MAGNITUDE_CAP { MAGNITUDE_CAP } else { next };
        i = i + 1;
    }
    assert(d.take(n - start) =~= d);
    if neg {
        if acc > 2147483648 {
            None
        } else {
            Some((0 - acc as i64) as i32)
        }
    } else {
        if acc > 2147483647 {
            None
        } else {
            Some(acc as i32)
        }
    }
}

} // verus!
