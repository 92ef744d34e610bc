//! Small text utilities shared by the parsers and renderers: building
//! strings character by character, decimal formatting, file extensions,
//! and the Unicode character classes that the standard library decides.

use crate::diagram::svg::text_wrap::{is_white_space, white_space};
use vstd::prelude::*;

verus! {

/// Whether the standard library classifies `c` as alphanumeric
/// (`char::is_alphanumeric`, Unicode `Alphabetic` or `Numeric`).
pub uninterp spec fn unicode_alphanumeric(c: char) -> bool;

/// Whether the standard library classifies `c` as uppercase
/// (`char::is_uppercase`, Unicode `Uppercase`).
pub uninterp spec fn unicode_uppercase(c: char) -> bool;

/// The lowercase form of `s` given by `str::to_lowercase` (full Unicode
/// case mapping).
pub uninterp spec fn unicode_lowercase(s: Seq<char>) -> Seq<char>;

/// How many white space characters (Unicode `White_Space`) `s` starts
/// with.
pub open spec fn leading_ws(s: Seq<char>) -> nat
    decreases s.len(),
{
    if s.len() > 0 && is_white_space(s[0]) {
        1 + leading_ws(s.drop_first())
    } else {
        0
    }
}

/// How many white space characters `s` ends with.
pub open spec fn trailing_ws(s: Seq<char>) -> nat
    decreases s.len(),
{
    if s.len() > 0 && is_white_space(s.last()) {
        1 + trailing_ws(s.drop_last())
    } else {
        0
    }
}

/// `s` without its leading and trailing white space, which is what
/// `str::trim` gives.
pub open spec fn unicode_trim(s: Seq<char>) -> Seq<char> {
    let t = s.skip(leading_ws(s) as int);
    t.take(t.len() - trailing_ws(t))
}

/// `s` without its leading and trailing white space.
pub fn trim(s: &str) -> (r: String)
    ensures
        r@ == unicode_trim(s@),
{
    let chars = chars_of(s);
    let ghost v = s@;
    let n = chars.len();
    let mut a: usize = 0;
    assert(v.skip(0) =~= v);
    while a < n && white_space(chars[a])
        invariant
            chars@ == v,
            n == v.len(),
            a <= n,
            leading_ws(v) == a + leading_ws(v.skip(a as int)),
        decreases n - a,
    {
        assert(v.skip(a as int)[0] == v[a as int]);
        assert(v.skip(a as int).drop_first() =~= v.skip(a + 1));
        a = a + 1;
    }
    proof {
        if a < n {
            assert(v.skip(a as int)[0] == v[a as int]);
        }
    }
    let ghost t = v.skip(a as int);
    let mut b: usize = n;
    assert(t.take((n - a) as int) =~= t);
    while b > a && white_space(chars[b - 1])
        invariant
            chars@ == v,
            n == v.len(),
            a <= b <= n,
            t == v.skip(a as int),
            trailing_ws(t) == (n - b) + trailing_ws(t.take((b - a) as int)),
        decreases b,
    {
        let ghost u = t.take((b - a) as int);
        assert(u.last() == v[b - 1]);
        assert(u.drop_last() =~= t.take((b - 1 - a) as int));
        b = b - 1;
    }
    proof {
        if b > a {
            assert(t.take((b - a) as int).last() == v[b - 1]);
        }
    }
    let r = string_from_range(&chars, a, b);
    assert(r@ =~= t.take(t.len() - trailing_ws(t)));
    r
}

/// The characters of the path `p` after its last `/`.
pub open spec fn last_segment(p: Seq<char>) -> Seq<char>
    decreases p.len(),
{
    if p.len() == 0 || p.last() == '/' {
        Seq::empty()
    } else {
        last_segment(p.drop_last()).push(p.last())
    }
}

/// The file name of the path `p` in Unix path syntax (components split at
/// `/`): its last component, skipping trailing `/`s and `.` components that
/// follow another component; none for an empty path, a root, a lone `.`
/// or a last component `..`.
pub open spec fn file_name(p: Seq<char>) -> Option<Seq<char>>
    decreases p.len(),
{
    if p.len() == 0 {
        None
    } else if p.last() == '/' {
        file_name(p.drop_last())
    } else if p.last() == '.' && (p.len() == 1 || p[p.len() - 2] == '/') {
        if p.len() == 1 {
            None
        } else {
            file_name(p.drop_last())
        }
    } else {
        let name = last_segment(p);
        if name == seq!['.', '.'] {
            None
        } else {
            Some(name)
        }
    }
}

/// The index of the last `.` in `s`, if there is one.
pub open spec fn last_dot(s: Seq<char>) -> Option<int>
    decreases s.len(),
{
    if s.len() == 0 {
        None
    } else if s.last() == '.' {
        Some(s.len() - 1)
    } else {
        last_dot(s.drop_last())
    }
}

/// The extension of the path `p` in Unix path syntax: what follows the last
/// `.` of its file name, unless that `.` begins the name; none when the
/// path has no file name or the name no such `.`.
pub open spec fn path_extension(p: Seq<char>) -> Option<Seq<char>> {
    match file_name(p) {
        None => None,
        Some(name) => match last_dot(name) {
            Some(i) => if i > 0 {
                Some(name.subrange(i + 1, name.len() as int))
            } else {
                None
            },
            None => None,
        },
    }
}

/// Where the file name of the path `chars` lies in it, if it has one.
fn file_name_range(chars: &Vec<char>) -> (r: Option<(usize, usize)>)
    ensures
        match r {
            Some((a, b)) => a <= b <= chars@.len() && file_name(chars@) == Some(chars@.subrange(a as int, b as int)),
            None => file_name(chars@) is None,
        },
{
    let ghost s = chars@;
    let mut end = chars.len();
    assert(s.take(end as int) =~= s);
    loop
        invariant
            chars@ == s,
            end <= s.len(),
            file_name(s) == file_name(s.take(end as int)),
        ensures
            end > 0,
            end <= s.len(),
            file_name(s) == file_name(s.take(end as int)),
            chars@[end - 1] != '/',
            !(chars@[end - 1] == '.' && (end == 1 || chars@[end - 2] == '/')),
        decreases end,
    {
        if end == 0 {
            assert(s.take(0) =~= Seq::<char>::empty());
            return None;
        }
        let ghost t = s.take(end as int);
        assert(t.drop_last() =~= s.take(end - 1));
        assert(t.last() == chars@[end - 1]);
        if chars[end - 1] == '/' {
            end = end - 1;
        } else if chars[end - 1] == '.' && (end == 1 || chars[end - 2] == '/') {
            if end == 1 {
                assert(t.len() == 1 && t.last() == '.');
                return None;
            }
            assert(t[t.len() - 2] == chars@[end - 2]);
            end = end - 1;
        } else {
            if end >= 2 {
                assert(t[t.len() - 2] == chars@[end - 2]);
            }
            break;
        }
    }
    let ghost t = s.take(end as int);
    proof {
        assert(t.last() == chars@[end - 1]);
        if end >= 2 {
            assert(t[t.len() - 2] == chars@[end - 2]);
        }
    }
    let mut start = end;
    assert(t.take(start as int) =~= t);
    assert(t.subrange(start as int, end as int) =~= Seq::<char>::empty());
    while start > 0 && chars[start - 1] != '/'
        invariant
            chars@ == s,
            start <= end <= s.len(),
            t == s.take(end as int),
            last_segment(t) == last_segment(t.take(start as int)) + t.subrange(start as int, end as int),
        decreases start,
    {
        let ghost u = t.take(start as int);
        assert(u.drop_last() =~= t.take(start - 1));
        assert(u.last() == chars@[start - 1]);
        assert(t.subrange(start - 1, end as int) =~= seq![chars@[start - 1]] + t.subrange(start as int, end as int));
        assert(last_segment(u.drop_last()).push(u.last()) + t.subrange(start as int, end as int) =~= last_segment(
            t.take(start - 1),
        ) + t.subrange(start - 1, end as int));
        start = start - 1;
    }
    let ghost name = t.subrange(start as int, end as int);
    proof {
        if start > 0 {
            assert(t.take(start as int).last() == chars@[start - 1]);
        }
        assert(last_segment(t.take(start as int)) =~= Seq::<char>::empty());
        assert(last_segment(t) =~= name);
        assert(name =~= chars@.subrange(start as int, end as int));
    }
    if end - start == 2 && chars[start] == '.' && chars[start + 1] == '.' {
        assert(name =~= seq!['.', '.']);
        return None;
    }
    assert(name != seq!['.', '.']) by {
        if name == seq!['.', '.'] {
            assert(name[0] == chars@[start as int] && name[1] == chars@[start + 1]);
        }
    }
    Some((start, end))
}

/// The index of the last `.` in `chars[a..b]`, counted from `a`, if any.
fn last_dot_in(chars: &Vec<char>, a: usize, b: usize) -> (r: Option<usize>)
    requires
        a <= b <= chars@.len(),
    ensures
        match r {
            Some(i) => last_dot(chars@.subrange(a as int, b as int)) == Some(i as int) && i < b - a,
            None => last_dot(chars@.subrange(a as int, b as int)) is None,
        },
{
    let ghost name = chars@.subrange(a as int, b as int);
    let mut i = b;
    assert(name.take((i - a) as int) =~= name);
    while i > a && chars[i - 1] != '.'
        invariant
            a <= i <= b <= chars@.len(),
            name == chars@.subrange(a as int, b as int),
            last_dot(name) == last_dot(name.take((i - a) as int)),
        decreases i,
    {
        let ghost u = name.take((i - a) as int);
        assert(u.drop_last() =~= name.take((i - 1 - a) as int));
        assert(u.last() == chars@[i - 1]);
        i = i - 1;
    }
    if i == a {
        assert(name.take(0) =~= Seq::<char>::empty());
        None
    } else {
        assert(name.take((i - a) as int).last() == chars@[i - 1]);
        Some(i - 1 - a)
    }
}

/// The extension of the path `p`, as `path_extension` states it.
pub fn extension_of(p: &str) -> (r: Option<String>)
    ensures
        match r {
            Some(e) => path_extension(p@) == Some(e@),
            None => path_extension(p@) is None,
        },
{
    let chars = chars_of(p);
    match file_name_range(&chars) {
        None => None,
        Some((a, b)) => match last_dot_in(&chars, a, b) {
            None => None,
            Some(i) => {
                if i == 0 {
                    None
                } else {
                    let e = string_from_range(&chars, a + i + 1, b);
                    assert(e@ =~= chars@.subrange(a as int, b as int).subrange(i + 1, (b - a) as int));
                    Some(e)
                }
            },
        },
    }
}

/// Calls `char::is_alphanumeric`. Its result is named by
/// `unicode_alphanumeric`; nothing else is claimed about it.
#[verifier::external_body]
pub fn is_alphanumeric(c: char) -> (r: bool)
    ensures
        r == unicode_alphanumeric(c),
{
    c.is_alphanumeric()
}

/// Calls `char::is_uppercase`. Its result is named by `unicode_uppercase`;
/// of ASCII letters, as its documentation shows, `A` to `Z` are uppercase
/// and `a` to `z` are not.
#[verifier::external_body]
pub fn is_uppercase(c: char) -> (r: bool)
    ensures
        r == unicode_uppercase(c),
        'A' <= c <= 'Z' ==> r,
        'a' <= c <= 'z' ==> !r,
{
    c.is_uppercase()
}

/// Calls `str::to_lowercase`. Its result is named by `unicode_lowercase`;
/// nothing else is claimed about it.
#[verifier::external_body]
pub fn to_lowercase(s: &str) -> (r: String)
    ensures
        r@ == unicode_lowercase(s@),
{
    s.to_lowercase()
}

/// Calls `String::push`: appends `c` to `s`.
#[verifier::external_body]
pub fn push_char(s: &mut String, c: char)
    ensures
        final(s)@ == old(s)@.push(c),
{
    s.push(c)
}

/// A string holding the characters of `chars`, in order.
pub fn string_from_chars(chars: &[char]) -> (r: String)
    ensures
        r@ == chars@,
{
    let mut r = String::new();
    let n = chars.len();
    for i in 0..n
        invariant
            n == chars@.len(),
            r@ == chars@.take(i as int),
    {
        push_char(&mut r, chars[i]);
        assert(chars@.take(i + 1) =~= chars@.take(i as int).push(chars@[i as int]));
    }
    assert(chars@.take(n as int) =~= chars@);
    r
}

/// A string holding the characters `chars[from..to]`.
pub fn string_from_range(chars: &Vec<char>, from: usize, to: usize) -> (r: String)
    requires
        from <= to <= chars@.len(),
    ensures
        r@ == chars@.subrange(from as int, to as int),
{
    let mut r = String::new();
    let mut i = from;
    while i < to
        invariant
            from <= i <= to,
            to <= chars@.len(),
            r@ == chars@.subrange(from as int, i as int),
        decreases to - i,
    {
        push_char(&mut r, chars[i]);
        assert(chars@.subrange(from as int, i + 1) =~= chars@.subrange(from as int, i as int).push(
            chars@[i as int],
        ));
        i += 1;
    }
    r
}

/// The characters of `s`, in order.
pub fn chars_of(s: &str) -> (r: Vec<char>)
    ensures
        r@ == s@,
{
    let n = s.unicode_len();
    let mut r: Vec<char> = Vec::new();
    for i in 0..n
        invariant
            n == s@.len(),
            r@ == s@.take(i as int),
    {
        r.push(s.get_char(i));
        assert(s@.take(i + 1) =~= s@.take(i as int).push(s@[i as int]));
    }
    assert(s@.take(n as int) =~= s@);
    r
}

/// Whether the characters of `a` and `b` are the same.
pub fn str_equal(a: &str, b: &str) -> (r: bool)
    ensures
        r == (a@ == b@),
{
    let n = a.unicode_len();
    if n != b.unicode_len() {
        return false;
    }
    let mut i: usize = 0;
    while i < n
        invariant
            n == a@.len(),
            n == b@.len(),
            i <= n,
            forall|j: int| 0 <= j < i ==> a@[j] == b@[j],
        decreases n - i,
    {
        if a.get_char(i) != b.get_char(i) {
            return false;
        }
        i += 1;
    }
    assert(a@ =~= b@);
    true
}

/// Whether the characters `chars[from..to]` spell `lit`.
pub fn range_equals(chars: &Vec<char>, from: usize, to: usize, lit: &str) -> (r: bool)
    requires
        from <= to <= chars@.len(),
    ensures
        r == (chars@.subrange(from as int, to as int) == lit@),
{
    let n = lit.unicode_len();
    if to - from != n {
        return false;
    }
    let mut i: usize = 0;
    while i < n
        invariant
            n == lit@.len(),
            to - from == n,
            from <= to <= chars@.len(),
            i <= n,
            forall|j: int| 0 <= j < i ==> chars@[from + j] == lit@[j],
        decreases n - i,
    {
        if chars[from + i] != lit.get_char(i) {
            return false;
        }
        i += 1;
    }
    assert(chars@.subrange(from as int, to as int) =~= lit@);
    true
}

/// Appends the characters of `t` to `s`.
pub fn append_str(s: &mut String, t: &str)
    ensures
        final(s)@ == old(s)@ + t@,
{
    s.append(t);
}

/// The digit character for `d` (`0` to `9`).
pub open spec fn digit_char(d: nat) -> char {
    if d == 0 { '0' }
    else if d == 1 { '1' }
    else if d == 2 { '2' }
    else if d == 3 { '3' }
    else if d == 4 { '4' }
    else if d == 5 { '5' }
    else if d == 6 { '6' }
    else if d == 7 { '7' }
    else if d == 8 { '8' }
    else { '9' }
}

/// The decimal representation of `n`, without leading zeros ("0" for zero).
pub open spec fn decimal(n: nat) -> Seq<char>
    decreases n,
{
    if n < 10 {
        seq![digit_char(n)]
    } else {
        decimal(n / 10).push(digit_char(n % 10))
    }
}

fn digit(d: u64) -> (r: char)
    requires
        d < 10,
    ensures
        r == digit_char(d as nat),
{
    if d == 0 { '0' }
    else if d == 1 { '1' }
    else if d == 2 { '2' }
    else if d == 3 { '3' }
    else if d == 4 { '4' }
    else if d == 5 { '5' }
    else if d == 6 { '6' }
    else if d == 7 { '7' }
    else if d == 8 { '8' }
    else { '9' }
}

/// Appends the decimal representation of `n` to `s`.
pub fn push_decimal(s: &mut String, n: u64)
    ensures
        final(s)@ == old(s)@ + decimal(n as nat),
    decreases n,
{
    if n < 10 {
        push_char(s, digit(n));
        assert(decimal(n as nat) =~= seq![digit_char(n as nat)]);
    } else {
        push_decimal(s, n / 10);
        push_char(s, digit(n % 10));
        assert(decimal(n as nat) =~= decimal((n / 10) as nat).push(digit_char((n % 10) as nat)));
    }
}

/// The decimal representation of `n`.
pub fn u64_to_string(n: u64) -> (r: String)
    ensures
        r@ == decimal(n as nat),
{
    let mut s = String::new();
    push_decimal(&mut s, n);
    assert(s@ =~= decimal(n as nat));
    s
}

} // verus!
