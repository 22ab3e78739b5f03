//! Numbered menus: the label of each entry, and reading the number typed back.
use vstd::prelude::*;
use vstd::string::*;
use crate::text::{chars_of, is_whitespace, is_ws, lemma_trim_end_prefix, string_of, trim_end};

verus! {

pub open spec fn is_digit(c: char) -> bool {
    48 <= (c as int) <= 57
}

pub open spec fn digit_value(c: char) -> int {
    (c as int) - 48
}

/// The value of a string of decimal digits.
pub open spec fn digits_value(s: Seq<char>) -> int
    decreases s.len(),
{
    if s.len() == 0 {
        0
    } else {
        digits_value(s.drop_last()) * 10 + digit_value(s.last())
    }
}

pub open spec fn all_digits(s: Seq<char>) -> bool {
    forall|i: int| 0 <= i < s.len() ==> is_digit(#[trigger] s[i])
}

/// The number a text spells: an optional `+`, then one digit or more.
pub open spec fn numeral_of(s: Seq<char>) -> Option<int> {
    let d = if s.len() > 0 && s[0] == '+' {
        s.drop_first()
    } else {
        s
    };
    if d.len() > 0 && all_digits(d) {
        Some(digits_value(d))
    } else {
        None
    }
}

/// The entry picked by typing `input` into a menu of `count` entries
/// numbered from 1: the number the input spells once trailing whitespace is
/// dropped, when it numbers an entry.
pub open spec fn choice_of(input: Seq<char>, count: int) -> Option<int> {
    match numeral_of(trim_end(input)) {
        Some(n) => if 1 <= n <= count {
            Some(n)
        } else {
            None
        },
        None => None,
    }
}

proof fn lemma_digits_grow(s: Seq<char>, k: int)
    requires
        0 <= k <= s.len(),
        all_digits(s),
    ensures
        0 <= digits_value(s.subrange(0, k)) <= digits_value(s),
    decreases s.len() - k,
{
    if k < s.len() {
        lemma_digits_grow(s.drop_last(), k);
        assert(s.drop_last().subrange(0, k) == s.subrange(0, k));
        assert(is_digit(s.last()));
        lemma_digits_nonneg(s.drop_last());
    } else {
        assert(s.subrange(0, k) == s);
        lemma_digits_nonneg(s);
    }
}

proof fn lemma_digits_nonneg(s: Seq<char>)
    requires
        all_digits(s),
    ensures
        digits_value(s) >= 0,
    decreases s.len(),
{
    if s.len() > 0 {
        assert(is_digit(s.last()));
        lemma_digits_nonneg(s.drop_last());
    }
}

fn digit_of(c: char) -> (r: Option<usize>)
    ensures
        r is Some <==> is_digit(c),
        r matches Some(x) ==> x == digit_value(c) && x <= 9,
{
    let u = c as u32;
    if u >= 48 && u <= 57 {
        Some((u - 48) as usize)
    } else {
        None
    }
}

/// The entry number that `input` picks in a menu of `count` entries, if it
/// picks one.
pub fn parse_choice(input: &str, count: usize) -> (r: Option<usize>)
    ensures
        match r {
            Some(n) => choice_of(input@, count as int) == Some(n as int),
            None => choice_of(input@, count as int) is None,
        },
{
    let v = chars_of(input);
    let mut end: usize = v.len();
    while end > 0 && is_whitespace(v[end - 1])
        invariant
            end <= v@.len(),
            forall|k: int| end <= k < v@.len() ==> is_ws(v@[k]),
        decreases end,
    {
        end = end - 1;
    }
    proof {
        lemma_trim_end_prefix(v@, end as int);
        let t = v@.subrange(0, end as int);
        if end > 0 {
            assert(!is_ws(t.last()));
        }
        assert(trim_end(t) == t);
    }
    let ghost t = v@.subrange(0, end as int);
    let start: usize = if end > 0 && v[0] == '+' {
        1
    } else {
        0
    };
    let ghost d = t.subrange(start as int, end as int);
    assert(d == (if t.len() > 0 && t[0] == '+' { t.drop_first() } else { t }));
    if start == end {
        return None;
    }
    let mut value: usize = 0;
    let mut j: usize = start;
    while j < end
        invariant
            start <= j <= end <= v@.len(),
            t == v@.subrange(0, end as int),
            d == t.subrange(start as int, end as int),
            trim_end(input@) == t,
            d == (if t.len() > 0 && t[0] == '+' { t.drop_first() } else { t }),
            d.len() > 0,
            forall|k: int| 0 <= k < j - start ==> is_digit(#[trigger] d[k]),
            value as int == digits_value(d.subrange(0, j - start)),
            value <= count,
        decreases end - j,
    {
        let c = v[j];
        assert(d[j - start] == c);
        let digit = match digit_of(c) {
            Some(x) => x,
            None => {
                assert(!all_digits(d));
                return None;
            },
        };
        let ghost next = d.subrange(0, j + 1 - start);
        assert(next.drop_last() == d.subrange(0, j - start));
        assert(digits_value(next) == value * 10 + digit);
        if digit > count || value > (count - digit) / 10 {
            proof {
                assert(value * 10 + digit > count) by (nonlinear_arith)
                    requires
                        digit > count || value > (count - digit) / 10,
                        value >= 0,
                ;
                if all_digits(d) {
                    lemma_digits_grow(d, j + 1 - start);
                }
            }
            return None;
        }
        proof {
            assert(value * 10 + digit <= count) by (nonlinear_arith)
                requires
                    digit <= count,
                    value <= (count - digit) / 10,
            ;
        }
        value = value * 10 + digit;
        j = j + 1;
    }
    assert(d.subrange(0, (end - start) as int) == d);
    if value == 0 {
        None
    } else {
        Some(value)
    }
}

pub open spec fn digit_char(d: nat) -> char {
    seq!['0', '1', '2', '3', '4', '5', '6', '7', '8', '9'][d as int]
}

/// The decimal digits of `n`.
pub open spec fn decimal(n: nat) -> Seq<char>
    decreases n,
{
    if n < 10 {
        seq![digit_char(n)]
    } else {
        decimal(n / 10).push(digit_char(n % 10))
    }
}

fn digit_to_char(d: usize) -> (r: char)
    requires
        d < 10,
    ensures
        r == digit_char(d as nat),
{
    let r = match d {
        0 => '0',
        1 => '1',
        2 => '2',
        3 => '3',
        4 => '4',
        5 => '5',
        6 => '6',
        7 => '7',
        8 => '8',
        _ => '9',
    };
    r
}

fn decimal_chars(n: usize) -> (r: Vec<char>)
    ensures
        r@ == decimal(n as nat),
    decreases n,
{
    if n < 10 {
        let mut v: Vec<char> = Vec::new();
        v.push(digit_to_char(n));
        v
    } else {
        let mut v = decimal_chars(n / 10);
        v.push(digit_to_char(n % 10));
        v
    }
}

/// How the entry at `index` of a menu of `count` entries is shown: its
/// number from 1 in brackets, one more space while numbers of two digits
/// follow, and the entry.
pub open spec fn label_of(index: nat, count: nat, choice: Seq<char>) -> Seq<char> {
    seq!['['] + decimal(index + 1) + seq![']', ' '] + (if count > 9 && index < 9 {
        seq![' ']
    } else {
        Seq::empty()
    }) + choice
}

pub fn choice_label(index: usize, count: usize, choice: &String) -> (r: String)
    requires
        index < count,
    ensures
        r@ == label_of(index as nat, count as nat, choice@),
{
    let mut v: Vec<char> = Vec::new();
    v.push('[');
    let digits = decimal_chars(index + 1);
    let mut i: usize = 0;
    while i < digits.len()
        invariant
            i <= digits@.len(),
            v@ == seq!['['] + digits@.subrange(0, i as int),
        decreases digits@.len() - i,
    {
        v.push(digits[i]);
        i = i + 1;
        assert(v@ =~= seq!['['] + digits@.subrange(0, i as int));
    }
    assert(digits@.subrange(0, digits@.len() as int) == digits@);
    v.push(']');
    v.push(' ');
    if count > 9 && index < 9 {
        v.push(' ');
        assert(v@ =~= seq!['['] + decimal((index + 1) as nat) + seq![']', ' '] + seq![' ']);
    } else {
        assert(v@ =~= seq!['['] + decimal((index + 1) as nat) + seq![']', ' '] + Seq::<char>::empty());
    }
    string_of(&v).concat(choice.as_str())
}

} // verus!
