//! Text helpers: command parsing and string assembly, with their models.

use vstd::prelude::*;
use vstd::string::*;

verus! {

/// Index of the first space in `m` at or after `from`, if any.
pub open spec fn space_index(m: Seq<char>, from: int) -> Option<int>
    decreases m.len() - from,
{
    if from < 0 || from >= m.len() {
        None
    } else if m[from] == ' ' {
        Some(from)
    } else {
        space_index(m, from + 1)
    }
}

/// A message cut at its first space: the command word, and what follows the
/// space when there is one (`str::split_once(' ')`).
pub open spec fn split_command(m: Seq<char>) -> (Seq<char>, Option<Seq<char>>) {
    match space_index(m, 0) {
        Some(k) => (m.take(k), Some(m.skip(k + 1))),
        None => (m, None),
    }
}

/// Splits `m` at its first space into the command and its parameters.
pub fn split_once_space(m: &str) -> (r: (String, Option<String>))
    ensures
        r.0@ == split_command(m@).0,
        r.1 is Some == split_command(m@).1 is Some,
        r.1 matches Some(p) ==> p@ == split_command(m@).1->0,
{
    let ghost s = m@;
    let len = m.unicode_len();
    let mut i: usize = 0;
    let mut found: Option<usize> = None;
    let chars = m.chars();
    for c in it: chars
        invariant
            it.seq() == s,
            len == s.len(),
            i == it.index(),
            i <= s.len(),
            found is None ==> space_index(s, 0) == space_index(s, i as int),
            found matches Some(k) ==> space_index(s, 0) == Some(k as int) && k < i,
    {
        if found.is_none() && c == ' ' {
            found = Some(i);
        }
        i = i + 1;
    }
    match found {
        Some(k) => {
            let command = m.substring_char(0, k);
            let params = m.substring_char(k + 1, len);
            (String::from_str(command), Some(String::from_str(params)))
        },
        None => {
            assert(i == s.len());
            (String::from_str(m), None)
        },
    }
}


/// The models of a sequence of strings, in order.
pub open spec fn string_views(v: Seq<String>) -> Seq<Seq<char>> {
    v.map_values(|s: String| s@)
}

/// `xs` with every element that already occurred earlier removed: the first
/// occurrence of each value is kept, in the order of first occurrence.
pub open spec fn dedup_first(xs: Seq<Seq<char>>) -> Seq<Seq<char>>
    decreases xs.len(),
{
    if xs.len() == 0 {
        Seq::empty()
    } else if xs.drop_last().contains(xs.last()) {
        dedup_first(xs.drop_last())
    } else {
        dedup_first(xs.drop_last()).push(xs.last())
    }
}

/// All the strings of `xs` joined together, in order.
pub open spec fn concat_all(xs: Seq<Seq<char>>) -> Seq<char>
    decreases xs.len(),
{
    if xs.len() == 0 {
        Seq::empty()
    } else {
        concat_all(xs.drop_last()) + xs.last()
    }
}

/// A lowercase hexadecimal digit.
pub open spec fn is_lower_hex(c: char) -> bool {
    ('0' <= c && c <= '9') || ('a' <= c && c <= 'f')
}

/// The "simple" text form of a UUID: 32 lowercase hexadecimal digits.
pub open spec fn is_simple_uuid(s: Seq<char>) -> bool {
    &&& s.len() == 32
    &&& forall|i: int| 0 <= i < s.len() ==> is_lower_hex(#[trigger] s[i])
}

/// Joins all the strings of `parts`, in order.
pub fn concat_strings(parts: &Vec<String>) -> (r: String)
    ensures
        r@ == concat_all(string_views(parts@)),
{
    let mut r = String::new();
    let mut i: usize = 0;
    while i < parts.len()
        invariant
            i <= parts.len(),
            r@ == concat_all(string_views(parts@.take(i as int))),
        decreases parts.len() - i,
    {
        proof {
            assert(string_views(parts@.take(i + 1)).drop_last() =~= string_views(parts@.take(i as int)));
        }
        r.append(parts[i].as_str());
        i = i + 1;
    }
    proof {
        assert(parts@.take(parts@.len() as int) =~= parts@);
    }
    r
}


/// The decimal digit `d` (for `0 <= d <= 9`).
pub open spec fn digit_char(d: int) -> char {
    if d == 0 {
        '0'
    } else if d == 1 {
        '1'
    } else if d == 2 {
        '2'
    } else if d == 3 {
        '3'
    } else if d == 4 {
        '4'
    } else if d == 5 {
        '5'
    } else if d == 6 {
        '6'
    } else if d == 7 {
        '7'
    } else if d == 8 {
        '8'
    } else {
        '9'
    }
}

/// The decimal text of `n`, without leading zeros (as `Display` writes it).
pub open spec fn decimal(n: nat) -> Seq<char>
    decreases n,
{
    if n < 10 {
        seq![digit_char(n as int)]
    } else {
        decimal(n / 10) + seq![digit_char((n % 10) as int)]
    }
}

/// The text of the single decimal digit `d`.
fn digit_str(d: usize) -> (r: &'static str)
    requires
        d < 10,
    ensures
        r@ == seq![digit_char(d as int)],
{
    proof {
        reveal_strlit("0");
        reveal_strlit("1");
        reveal_strlit("2");
        reveal_strlit("3");
        reveal_strlit("4");
        reveal_strlit("5");
        reveal_strlit("6");
        reveal_strlit("7");
        reveal_strlit("8");
        reveal_strlit("9");
    }
    let r = if d == 0 {
        "0"
    } else if d == 1 {
        "1"
    } else if d == 2 {
        "2"
    } else if d == 3 {
        "3"
    } else if d == 4 {
        "4"
    } else if d == 5 {
        "5"
    } else if d == 6 {
        "6"
    } else if d == 7 {
        "7"
    } else if d == 8 {
        "8"
    } else {
        "9"
    };
    assert(r@ =~= seq![digit_char(d as int)]);
    r
}

/// Writes `n` in decimal.
pub fn decimal_string(n: usize) -> (r: String)
    ensures
        r@ == decimal(n as nat),
    decreases n,
{
    if n < 10 {
        String::from_str(digit_str(n))
    } else {
        let mut r = decimal_string(n / 10);
        r.append(digit_str(n % 10));
        r
    }
}


/// The characters of `s`, in order.
pub fn chars_of(s: &str) -> (r: Vec<char>)
    ensures
        r@ == s@,
{
    let mut r: Vec<char> = Vec::new();
    for c in it: s.chars()
        invariant
            it.seq() == s@,
            r@ == s@.take(it.index()),
    {
        proof {
            assert(s@.take(it.index() + 1) =~= s@.take(it.index()).push(c));
        }
        r.push(c);
    }
    proof {
        assert(s@.take(s@.len() as int) =~= s@);
    }
    r
}

/// Whether `pat` occurs in `cs` starting at position `pos`.
pub fn matches_at(cs: &Vec<char>, pos: usize, pat: &Vec<char>) -> (r: bool)
    ensures
        r == (pos + pat@.len() <= cs@.len() && cs@.subrange(pos as int, pos + pat@.len()) == pat@),
{
    if pat.len() > cs.len() || pos > cs.len() - pat.len() {
        return false;
    }
    let mut k: usize = 0;
    while k < pat.len()
        invariant
            pos + pat@.len() <= cs@.len(),
            cs@.len() == cs.len(),
            k <= pat@.len(),
            forall|j: int| 0 <= j < k ==> cs@[pos + j] == pat@[j],
        decreases pat@.len() - k,
    {
        if cs[pos + k] != pat[k] {
            proof {
                assert(cs@.subrange(pos as int, pos + pat@.len())[k as int] != pat@[k as int]);
            }
            return false;
        }
        k = k + 1;
    }
    assert(cs@.subrange(pos as int, pos + pat@.len()) =~= pat@);
    true
}

/// Whether `cs` holds a newline.
pub fn has_newline(cs: &Vec<char>) -> (r: bool)
    ensures
        r == cs@.contains('\n'),
{
    let mut k: usize = 0;
    while k < cs.len()
        invariant
            k <= cs@.len(),
            forall|j: int| 0 <= j < k ==> cs@[j] != '\n',
        decreases cs@.len() - k,
    {
        if cs[k] == '\n' {
            assert(cs@[k as int] == '\n');
            return true;
        }
        k = k + 1;
    }
    false
}

} // verus!
