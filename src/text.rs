//! Character-level scanning of the management pages: locating literal
//! markers, splitting comma-separated lists and reading unsigned decimals.
use vstd::prelude::*;
use vstd::std_specs::iter::IteratorSpec;

verus! {

/// `p` occurs in `t` starting at index `i`.
pub open spec fn occurs_at(t: Seq<char>, i: int, p: Seq<char>) -> bool {
    0 <= i && i + p.len() <= t.len() && t.subrange(i, i + p.len()) == p
}

/// `p` occurs somewhere in `t`.
pub open spec fn contains(t: Seq<char>, p: Seq<char>) -> bool {
    exists|i: int| occurs_at(t, i, p)
}

/// The characters of a string, in order.
pub fn chars_of(s: &str) -> (v: Vec<char>)
    ensures
        v@ == s@,
{
    broadcast use vstd::string::axiom_spec_iter, vstd::string::next_postcondition;

    let mut it = s.chars();
    let mut v: Vec<char> = Vec::new();
    loop
        invariant
            it.remaining() == s@.skip(v.len() as int),
            v@ == s@.take(v.len() as int),
            v.len() <= s@.len(),
            it.decrease() is Some,
        ensures
            v@ == s@,
        decreases it.decrease()->0,
    {
        match it.next() {
            Some(c) => {
                proof {
                    assert(s@.take(v.len() + 1) =~= s@.take(v.len() as int).push(c));
                    assert(s@.skip(v.len() + 1) =~= s@.skip(v.len() as int).drop_first());
                }
                v.push(c);
            },
            None => {
                assert(s@.skip(v.len() as int).len() == 0);
                assert(v@ =~= s@);
                break ;
            },
        }
    }
    v
}


/// Whitespace in the Unicode sense (the `White_Space` property).
pub open spec fn is_space(c: char) -> bool {
    let u = c as u32;
    (0x9 <= u <= 0xd) || u == 0x20 || u == 0x85 || u == 0xa0 || u == 0x1680 || (0x2000 <= u
        <= 0x200a) || u == 0x2028 || u == 0x2029 || u == 0x202f || u == 0x205f || u == 0x3000
}

pub open spec fn is_digit(c: char) -> bool {
    '0' <= c <= '9'
}

/// The value of a decimal digit, and zero for any other character.
pub open spec fn digit_value(c: char) -> nat {
    if is_digit(c) {
        (c as u32 - '0' as u32) as nat
    } else {
        0
    }
}

/// The value of a string of decimal digits, most significant first.
pub open spec fn digits_value(s: Seq<char>) -> nat
    decreases s.len(),
{
    if s.len() == 0 {
        0
    } else {
        digits_value(s.drop_last()) * 10 + digit_value(s.last())
    }
}

pub open spec fn all_digits(s: Seq<char>) -> bool {
    forall|i: int| 0 <= i < s.len() ==> is_digit(#[trigger] s[i])
}

/// What follows an optional leading `+`.
pub open spec fn unsigned_digits(s: Seq<char>) -> Seq<char> {
    if s.len() > 0 && s[0] == '+' {
        s.drop_first()
    } else {
        s
    }
}

/// An unsigned decimal as Rust's integer parsing reads it: an optional
/// `+`, then one or more ASCII digits, of a value no larger than `max`.
pub open spec fn parse_unsigned(s: Seq<char>, max: nat) -> Option<nat> {
    let d = unsigned_digits(s);
    if d.len() > 0 && all_digits(d) && digits_value(d) <= max {
        Some(digits_value(d))
    } else {
        None
    }
}

/// The index just past the run of digits (of whitespace, when `spaces` is
/// set) that starts at `j`.
pub open spec fn run_end(t: Seq<char>, j: int, spaces: bool) -> int
    decreases t.len() - j,
{
    if 0 <= j < t.len() && (if spaces {
        is_space(t[j])
    } else {
        is_digit(t[j])
    }) {
        run_end(t, j + 1, spaces)
    } else {
        j
    }
}

/// Split on every comma; an empty string gives one empty piece.
pub open spec fn split_commas(s: Seq<char>) -> Seq<Seq<char>>
    decreases s.len(),
{
    if s.len() == 0 {
        seq![Seq::<char>::empty()]
    } else {
        let prev = split_commas(s.drop_last());
        if s.last() == ',' {
            prev.push(Seq::<char>::empty())
        } else {
            prev.update(prev.len() - 1, prev.last().push(s.last()))
        }
    }
}

proof fn lemma_digits_value_prefix(s: Seq<char>, k: int)
    requires
        0 <= k <= s.len(),
    ensures
        digits_value(s.take(k)) <= digits_value(s),
    decreases s.len() - k,
{
    if k < s.len() {
        lemma_digits_value_prefix(s.drop_last(), k);
        assert(s.drop_last().take(k) =~= s.take(k));
    } else {
        assert(s.take(k) =~= s);
    }
}

pub fn is_space_char(c: char) -> (r: bool)
    ensures
        r == is_space(c),
{
    let u = c as u32;
    (0x9 <= u && u <= 0xd) || u == 0x20 || u == 0x85 || u == 0xa0 || u == 0x1680 || (0x2000 <= u
        && u <= 0x200a) || u == 0x2028 || u == 0x2029 || u == 0x202f || u == 0x205f || u == 0x3000
}

pub fn is_digit_char(c: char) -> (r: bool)
    ensures
        r == is_digit(c),
{
    '0' <= c && c <= '9'
}

/// Whether `p` occurs in `t` at index `i`.
pub fn occurs_at_exec(t: &Vec<char>, i: usize, p: &Vec<char>) -> (r: bool)
    ensures
        r == occurs_at(t@, i as int, p@),
{
    if i > t.len() || p.len() > t.len() - i {
        return false;
    }
    let mut k: usize = 0;
    while k < p.len()
        invariant
            k <= p.len(),
            i + p.len() <= t.len(),
            forall|m: int| 0 <= m < k ==> t@[i + m] == p@[m],
        decreases p.len() - k,
    {
        if t[i + k] != p[k] {
            assert(t@.subrange(i as int, i + p.len())[k as int] != p@[k as int]);
            return false;
        }
        k = k + 1;
    }
    assert(t@.subrange(i as int, i + p.len()) =~= p@);
    true
}

/// Whether `p` occurs anywhere in `t`.
pub fn contains_exec(t: &Vec<char>, p: &Vec<char>) -> (r: bool)
    ensures
        r == contains(t@, p@),
{
    let mut i: usize = 0;
    while i <= t.len()
        invariant
            i <= t.len(),
            forall|j: int| 0 <= j < i ==> !occurs_at(t@, j, p@),
        ensures
            forall|j: int| 0 <= j <= t.len() ==> !occurs_at(t@, j, p@),
        decreases t.len() + 1 - i,
    {
        if occurs_at_exec(t, i, p) {
            return true;
        }
        if i == t.len() {
            break;
        }
        i = i + 1;
    }
    false
}

/// The end of the run of digits (or of whitespace) that starts at `j`.
pub fn run_end_exec(t: &Vec<char>, j: usize, spaces: bool) -> (r: usize)
    requires
        j <= t.len(),
    ensures
        r == run_end(t@, j as int, spaces),
        j <= r <= t.len(),
{
    let mut k = j;
    while k < t.len()
        invariant
            j <= k <= t.len(),
            run_end(t@, j as int, spaces) == run_end(t@, k as int, spaces),
        ensures
            run_end(t@, j as int, spaces) == k,
            j <= k <= t.len(),
        decreases t.len() - k,
    {
        let c = t[k];
        let more = if spaces {
            is_space_char(c)
        } else {
            is_digit_char(c)
        };
        if !more {
            break;
        }
        k = k + 1;
    }
    k
}


/// The comma-separated pieces of `t[a..b]`.
pub fn split_commas_exec(t: &Vec<char>, a: usize, b: usize) -> (r: Vec<Vec<char>>)
    requires
        a <= b <= t.len(),
    ensures
        r.deep_view() == split_commas(t@.subrange(a as int, b as int)),
{
    let mut done: Vec<Vec<char>> = Vec::new();
    let mut cur: Vec<char> = Vec::new();
    let mut i = a;
    assert(t@.subrange(a as int, a as int) =~= Seq::<char>::empty());
    assert(done.deep_view().push(cur@) =~= seq![Seq::<char>::empty()]);
    while i < b
        invariant
            a <= i <= b <= t.len(),
            split_commas(t@.subrange(a as int, i as int)) == done.deep_view().push(cur@),
        decreases b - i,
    {
        let c = t[i];
        let ghost before = t@.subrange(a as int, i as int);
        assert(t@.subrange(a as int, i + 1).drop_last() =~= before);
        if c == ',' {
            let ghost old_done = done.deep_view();
            let ghost cur_v = cur@;
            assert(cur.deep_view() =~= cur_v);
            done.push(cur);
            cur = Vec::new();
            assert(done.deep_view() =~= old_done.push(cur_v));
            assert(done.deep_view().push(cur@) =~= split_commas(before).push(Seq::<char>::empty()));
        } else {
            cur.push(c);
            assert(done.deep_view().push(cur@) =~= split_commas(before).update(
                split_commas(before).len() - 1,
                split_commas(before).last().push(c),
            ));
        }
        i = i + 1;
    }
    let ghost old_done = done.deep_view();
    let ghost cur_v = cur@;
            assert(cur.deep_view() =~= cur_v);
    done.push(cur);
    assert(done.deep_view() =~= old_done.push(cur_v));
    assert(done.deep_view() =~= split_commas(t@.subrange(a as int, b as int)));
    done
}


/// Reads an unsigned decimal no larger than `max`, as `parse_unsigned` says.
pub fn parse_unsigned_exec(s: &Vec<char>, max: u128) -> (r: Option<u128>)
    ensures
        match parse_unsigned(s@, max as nat) {
            Some(v) => r == Some(v as u128),
            None => r is None,
        },
{
    let start: usize = if s.len() > 0 && s[0] == '+' {
        1
    } else {
        0
    };
    let ghost d = s@.subrange(start as int, s.len() as int);
    assert(d =~= unsigned_digits(s@));
    if start >= s.len() {
        return None;
    }
    let mut k = start;
    while k < s.len()
        invariant
            start <= k <= s.len(),
            d == s@.subrange(start as int, s.len() as int),
            d == unsigned_digits(s@),
            forall|m: int| start <= m < k ==> is_digit(#[trigger] s@[m]),
        decreases s.len() - k,
    {
        if !is_digit_char(s[k]) {
            assert(d[k - start] == s@[k as int]);
            assert(!all_digits(d));
            return None;
        }
        k = k + 1;
    }
    assert(all_digits(d)) by {
        assert forall|m: int| 0 <= m < d.len() implies is_digit(#[trigger] d[m]) by {
            assert(d[m] == s@[m + start]);
        }
    }
    let mut acc: u128 = 0;
    k = start;
    assert(s@.subrange(start as int, k as int) =~= Seq::<char>::empty());
    while k < s.len()
        invariant
            start <= k <= s.len(),
            d == s@.subrange(start as int, s.len() as int),
            d == unsigned_digits(s@),
            all_digits(d),
            acc == digits_value(s@.subrange(start as int, k as int)),
            acc <= max,
        decreases s.len() - k,
    {
        let c = s[k];
        assert(is_digit(c)) by {
            assert(d[k - start] == c);
        }
        let dig = (c as u32 - '0' as u32) as u128;
        let ghost next = s@.subrange(start as int, k + 1);
        assert(next.drop_last() =~= s@.subrange(start as int, k as int));
        assert(digits_value(next) == acc * 10 + dig);
        let v = match acc.checked_mul(10) {
            Some(m) => m.checked_add(dig),
            None => None,
        };
        match v {
            Some(v) if v <= max => {
                acc = v;
            },
            _ => {
                proof {
                    assert(acc * 10 + dig > max);
                    assert(next =~= d.take(k + 1 - start));
                    lemma_digits_value_prefix(d, k + 1 - start);
                    assert(digits_value(d) > max);
                }
                return None;
            },
        }
        k = k + 1;
    }
    assert(s@.subrange(start as int, k as int) =~= d);
    Some(acc)
}


/// The first index at or after `j` where `c` starts, provided no line
/// break comes before it.
pub open spec fn close_from(t: Seq<char>, c: Seq<char>, j: int) -> Option<int>
    decreases t.len() - j,
{
    if j < 0 || j >= t.len() {
        None
    } else if occurs_at(t, j, c) {
        Some(j)
    } else if t[j] == '\n' {
        None
    } else {
        close_from(t, c, j + 1)
    }
}

/// A bracketed field starts at `i`: `open`, then text on one line up to `close`.
pub open spec fn list_match_at(t: Seq<char>, open: Seq<char>, close: Seq<char>, i: int) -> bool {
    occurs_at(t, i, open) && close_from(t, close, i + open.len()) is Some
}

pub open spec fn first_list_match(t: Seq<char>, open: Seq<char>, close: Seq<char>, i: int) -> Option<
    int,
>
    decreases t.len() - i,
{
    if i < 0 || i >= t.len() {
        None
    } else if list_match_at(t, open, close, i) {
        Some(i)
    } else {
        first_list_match(t, open, close, i + 1)
    }
}

/// The text between `open` and the nearest following `close` on the same
/// line, at the first place in `t` where such a field stands.
pub open spec fn list_field(t: Seq<char>, open: Seq<char>, close: Seq<char>) -> Option<Seq<char>> {
    match first_list_match(t, open, close, 0) {
        Some(i) => Some(t.subrange(i + open.len(), close_from(t, close, i + open.len())->0)),
        None => None,
    }
}

fn close_from_exec(t: &Vec<char>, c: &Vec<char>, j: usize) -> (r: Option<usize>)
    ensures
        match close_from(t@, c@, j as int) {
            Some(k) => r == Some(k as usize) && j <= k < t.len(),
            None => r is None,
        },
{
    let mut k = j;
    while k < t.len()
        invariant
            j <= k,
            close_from(t@, c@, j as int) == close_from(t@, c@, k as int),
        decreases t.len() - k,
    {
        if occurs_at_exec(t, k, c) {
            return Some(k);
        }
        if t[k] == '\n' {
            return None;
        }
        k = k + 1;
    }
    None
}

/// Where the field that `list_field` describes stands, as a range of `t`.
pub fn find_list_field(t: &Vec<char>, open: &Vec<char>, close: &Vec<char>) -> (r: Option<
    (usize, usize),
>)
    ensures
        match list_field(t@, open@, close@) {
            Some(f) => r matches Some((a, b)) && a <= b <= t.len() && t@.subrange(a as int, b as int)
                == f,
            None => r is None,
        },
{
    let mut i: usize = 0;
    while i < t.len()
        invariant
            first_list_match(t@, open@, close@, 0) == first_list_match(t@, open@, close@, i as int),
        decreases t.len() - i,
    {
        if occurs_at_exec(t, i, open) {
            let a = i + open.len();
            match close_from_exec(t, close, a) {
                Some(b) => {
                    return Some((a, b));
                },
                None => {},
            }
        }
        i = i + 1;
    }
    None
}

} // verus!
