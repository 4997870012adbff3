//! Character-level helpers: reading a `str` as characters, comparing text,
//! and the decimal-number and boolean grammars of `u64::from_str` and
//! `bool::from_str`, which configuration values are parsed with.

use vstd::prelude::*;

verus! {

broadcast use vstd::string::group_string_axioms;

/// Copies the characters of `s` into a vector.
pub fn chars_of(s: &str) -> (res: Vec<char>)
    ensures
        res@ == s@,
{
    let mut res: Vec<char> = Vec::new();
    for c in it: s.chars()
        invariant
            res@ == it.seq().take(it.index() as int),
            it.seq() == s@,
    {
        res.push(c);
    }
    res
}

/// Whether two strings hold the same characters.
pub fn same_text(a: &str, b: &str) -> (res: bool)
    ensures
        res == (a@ == b@),
{
    let x = a.to_owned();
    let y = b.to_owned();
    x == y
}

/// The concatenation of three pieces of text, as an owned string.
pub fn join3(a: &str, b: &str, c: &str) -> (res: String)
    ensures
        res@ == a@ + b@ + c@,
{
    let mut s = a.to_owned();
    s.append(b);
    s.append(c);
    s
}

/// An ASCII decimal digit.
pub open spec fn is_digit(c: char) -> bool {
    '0' <= c && c <= '9'
}

/// The value of a decimal digit character.
pub open spec fn digit_value(c: char) -> nat {
    (c as int - '0' as int) as nat
}

/// Every character of `s` is a decimal digit.
pub open spec fn all_digits(s: Seq<char>) -> bool {
    forall|i: int| 0 <= i < s.len() ==> is_digit(#[trigger] s[i])
}

/// The number that a string of decimal digits denotes (leading zeros allowed).
pub open spec fn decimal_value(s: Seq<char>) -> nat
    decreases s.len(),
{
    if s.len() == 0 {
        0
    } else {
        decimal_value(s.drop_last()) * 10 + digit_value(s.last())
    }
}

/// `s` without one leading `+`, if it has one.
pub open spec fn without_plus(s: Seq<char>) -> Seq<char> {
    if s.len() > 0 && s[0] == '+' {
        s.drop_first()
    } else {
        s
    }
}

/// What `u64::from_str` accepts: an optional `+` followed by at least one
/// decimal digit and nothing else, denoting a number that fits in a `u64`.
pub open spec fn spec_parse_u64(s: Seq<char>) -> Option<u64> {
    let d = without_plus(s);
    if d.len() > 0 && all_digits(d) && decimal_value(d) <= u64::MAX {
        Some(decimal_value(d) as u64)
    } else {
        None
    }
}

/// What `bool::from_str` accepts: exactly `true` or exactly `false`.
pub open spec fn spec_parse_bool(s: Seq<char>) -> Option<bool> {
    if s == "true"@ {
        Some(true)
    } else if s == "false"@ {
        Some(false)
    } else {
        None
    }
}

/// One more digit appended to a digit string.
pub proof fn lemma_decimal_push(s: Seq<char>, k: int)
    requires
        0 <= k < s.len(),
    ensures
        decimal_value(s.take(k + 1)) == decimal_value(s.take(k)) * 10 + digit_value(s[k]),
{
    assert(s.take(k + 1).drop_last() =~= s.take(k));
}

/// Reads the digits `chars[start..end]` as a decimal number.  Returns `None`
/// when one of them is not a digit or the number does not fit in a `u64`.
pub fn parse_decimal(chars: &Vec<char>, start: usize, end: usize) -> (res: Option<u64>)
    requires
        start <= end <= chars.len(),
    ensures
        ({
            let d = chars@.subrange(start as int, end as int);
            res == if all_digits(d) && decimal_value(d) <= u64::MAX {
                Some(decimal_value(d) as u64)
            } else {
                None::<u64>
            }
        }),
{
    let ghost d = chars@.subrange(start as int, end as int);
    let mut acc: u64 = 0;
    let mut overflow = false;
    let mut i = start;
    assert(d.take(0) =~= Seq::<char>::empty());
    while i < end
        invariant
            start <= i <= end <= chars.len(),
            d == chars@.subrange(start as int, end as int),
            all_digits(d.take(i - start)),
            !overflow ==> acc == decimal_value(d.take(i - start)),
            overflow ==> decimal_value(d.take(i - start)) > u64::MAX,
        decreases end - i,
    {
        let c = chars[i];
        if !('0' <= c && c <= '9') {
            assert(!is_digit(d[i - start]));
            return None;
        }
        let dv = (c as u32 - '0' as u32) as u64;
        proof {
            lemma_decimal_push(d, i - start);
            assert(d.take(i - start + 1)[i - start] == c);
        }
        if !overflow {
            if acc > 1844674407370955161 || (acc == 1844674407370955161 && dv > 5) {
                overflow = true;
            } else {
                acc = acc * 10 + dv;
            }
        }
        i = i + 1;
        assert(all_digits(d.take(i - start))) by {
            assert forall|j: int| 0 <= j < d.take(i - start).len() implies is_digit(
                #[trigger] d.take(i - start)[j],
            ) by {
                if j < i - start - 1 {
                    assert(d.take(i - start)[j] == d.take(i - start - 1)[j]);
                }
            }
        }
    }
    assert(d.take(end - start) =~= d);
    if overflow {
        None
    } else {
        Some(acc)
    }
}

/// `u64::from_str`: an optional `+` and then decimal digits.
pub fn parse_u64(s: &str) -> (res: Option<u64>)
    ensures
        res == spec_parse_u64(s@),
{
    let chars = chars_of(s);
    let len = chars.len();
    let start: usize = if len > 0 && chars[0] == '+' { 1 } else { 0 };
    assert(chars@.subrange(start as int, len as int) =~= without_plus(s@));
    if start == len {
        return None;
    }
    parse_decimal(&chars, start, len)
}

/// `bool::from_str`: exactly `true` or `false`.
pub fn parse_bool(s: &str) -> (res: Option<bool>)
    ensures
        res == spec_parse_bool(s@),
{
    if same_text(s, "true") {
        Some(true)
    } else if same_text(s, "false") {
        Some(false)
    } else {
        None
    }
}

/// Name, value pairs as text.
pub open spec fn pairs_view(vars: Seq<(String, String)>) -> Seq<(Seq<char>, Seq<char>)> {
    vars.map_values(|p: (String, String)| (p.0@, p.1@))
}

/// Position `i` holds the last binding of `name` in `env`.
pub open spec fn last_binding(env: Seq<(Seq<char>, Seq<char>)>, name: Seq<char>, i: int) -> bool {
    &&& 0 <= i < env.len()
    &&& env[i].0 == name
    &&& forall|j: int| i < j < env.len() ==> (#[trigger] env[j]).0 != name
}

/// The value bound to `name`; where a name is bound more than once the last binding counts.
pub open spec fn lookup_last(env: Seq<(Seq<char>, Seq<char>)>, name: Seq<char>) -> Option<Seq<char>> {
    if exists|i: int| last_binding(env, name, i) {
        Some(env[choose|i: int| last_binding(env, name, i)].1)
    } else {
        None
    }
}

/// Finds the value last bound to `name` in `vars`.
pub fn find_last<'a>(vars: &'a Vec<(String, String)>, name: &str) -> (res: Option<&'a String>)
    ensures
        match res {
            Some(v) => lookup_last(pairs_view(vars@), name@) == Some(v@),
            None => lookup_last(pairs_view(vars@), name@) is None,
        },
{
    let ghost env = pairs_view(vars@);
    let mut i = vars.len();
    while i > 0
        invariant
            i <= vars.len(),
            env == pairs_view(vars@),
            forall|j: int| i <= j < env.len() ==> (#[trigger] env[j]).0 != name@,
        decreases i,
    {
        i = i - 1;
        if same_text(vars[i].0.as_str(), name) {
            proof {
                assert(last_binding(env, name@, i as int));
                let k = choose|k: int| last_binding(env, name@, k);
                if k < i {
                    assert(env[i as int].0 != name@);
                } else if k > i {
                    assert(env[k].0 != name@);
                }
            }
            return Some(&vars[i].1);
        }
    }
    assert forall|k: int| !last_binding(env, name@, k) by {
        if 0 <= k < env.len() {
            assert(env[k].0 != name@);
        }
    }
    None
}

} // verus!
