//! Entity names as they appear in boxes: words spaced apart at capitals,
//! wrapped into lines that fit the box, and the box sizes they need.

use crate::infrastructure::text::{is_uppercase, push_char, string_from_chars, unicode_uppercase};
use vstd::prelude::*;

verus! {

/// Whether `c` has the Unicode `White_Space` property, which is what
/// `char::is_whitespace` (and so `str::split_whitespace`) tests.
pub open spec fn is_white_space(c: char) -> bool {
    let v = c as u32;
    ||| 0x9 <= v <= 0xd
    ||| v == 0x20
    ||| v == 0x85
    ||| v == 0xa0
    ||| v == 0x1680
    ||| 0x2000 <= v <= 0x200a
    ||| v == 0x2028
    ||| v == 0x2029
    ||| v == 0x202f
    ||| v == 0x205f
    ||| v == 0x3000
}

/// Whether `c` is white space.
pub fn white_space(c: char) -> (r: bool)
    ensures
        r == is_white_space(c),
{
    let v = c as u32;
    (0x9 <= v && v <= 0xd) || v == 0x20 || v == 0x85 || v == 0xa0 || v == 0x1680 || (0x2000 <= v
        && v <= 0x200a) || v == 0x2028 || v == 0x2029 || v == 0x202f || v == 0x205f || v == 0x3000
}

/// The number of bytes `c` takes in UTF-8.
pub open spec fn utf8_width(c: char) -> nat {
    let v = c as u32;
    if v < 0x80 {
        1
    } else if v < 0x800 {
        2
    } else if v < 0x10000 {
        3
    } else {
        4
    }
}

/// The number of bytes `s` takes in UTF-8, which is what `String::len`
/// counts.
pub open spec fn byte_len(s: Seq<char>) -> nat
    decreases s.len(),
{
    if s.len() == 0 {
        0
    } else {
        byte_len(s.drop_last()) + utf8_width(s.last())
    }
}

/// The UTF-8 size of a concatenation is the sum of the sizes.
pub proof fn lemma_byte_len_concat(a: Seq<char>, b: Seq<char>)
    ensures
        byte_len(a + b) == byte_len(a) + byte_len(b),
    decreases b.len(),
{
    if b.len() == 0 {
        assert(a + b =~= a);
    } else {
        lemma_byte_len_concat(a, b.drop_last());
        assert((a + b).drop_last() =~= a + b.drop_last());
        assert((a + b).last() == b.last());
    }
}

/// A text takes at most four bytes per character.
pub proof fn lemma_byte_len_bound(s: Seq<char>)
    ensures
        byte_len(s) <= 4 * s.len(),
    decreases s.len(),
{
    if s.len() > 0 {
        lemma_byte_len_bound(s.drop_last());
    }
}

/// The number of bytes `c` takes in UTF-8.
fn char_width(c: char) -> (r: usize)
    ensures
        r == utf8_width(c),
{
    let v = c as u32;
    if v < 0x80 {
        1
    } else if v < 0x800 {
        2
    } else if v < 0x10000 {
        3
    } else {
        4
    }
}

/// The number of bytes `s` takes in UTF-8.
fn utf8_len(s: &Vec<char>) -> (r: usize)
    requires
        s@.len() <= 0x1000_0000,
    ensures
        r == byte_len(s@),
{
    let mut total: usize = 0;
    let mut i: usize = 0;
    while i < s.len()
        invariant
            i <= s@.len() <= 0x1000_0000,
            total == byte_len(s@.take(i as int)),
            total <= 4 * i,
        decreases s@.len() - i,
    {
        assert(s@.take(i + 1).drop_last() =~= s@.take(i as int));
        total = total + char_width(s[i]);
        i += 1;
    }
    assert(s@.take(i as int) =~= s@);
    total
}

/// Whether a space goes before character `i` of `name`: it is a capital
/// that is not the first character, and the character before it is not a
/// capital, or the one after it exists and is not a capital.
pub open spec fn space_before(name: Seq<char>, i: int) -> bool {
    &&& 0 < i < name.len()
    &&& unicode_uppercase(name[i])
    &&& (!unicode_uppercase(name[i - 1]) || (i + 1 < name.len() && !unicode_uppercase(name[i + 1])))
}

/// The first `n` characters of `name` with the spaces that go before them.
pub open spec fn spaced_prefix(name: Seq<char>, n: int) -> Seq<char>
    decreases n,
{
    if n <= 0 {
        Seq::empty()
    } else {
        spaced_prefix(name, n - 1) + (if space_before(name, n - 1) {
            seq![' ']
        } else {
            Seq::empty()
        }) + seq![name[n - 1]]
    }
}

/// `name` with a space before each capital that starts a new word
/// ("LoginScreen" reads "Login Screen", "XMLParser" reads "XML Parser").
pub open spec fn spaced_name(name: Seq<char>) -> Seq<char> {
    spaced_prefix(name, name.len() as int)
}

/// Spacing adds at most one character per character.
pub proof fn lemma_spaced_prefix_len(name: Seq<char>, n: int)
    requires
        0 <= n <= name.len(),
    ensures
        n <= spaced_prefix(name, n).len() <= 2 * n,
    decreases n,
{
    if n > 0 {
        lemma_spaced_prefix_len(name, n - 1);
    }
}

/// Formats an entity name by inserting spaces before capital letters.
pub fn format_entity_name(name: &str) -> (r: String)
    ensures
        r@ == spaced_name(name@),
{
    let n = name.unicode_len();
    let mut result = String::new();
    let mut i: usize = 0;
    while i < n
        invariant
            n == name@.len(),
            i <= n,
            result@ == spaced_prefix(name@, i as int),
        decreases n - i,
    {
        let ch = name.get_char(i);
        if i > 0 && is_uppercase(ch) {
            let prev_upper = is_uppercase(name.get_char(i - 1));
            let next_lower = i + 1 < n && !is_uppercase(name.get_char(i + 1));
            if !prev_upper || next_lower {
                push_char(&mut result, ' ');
            }
        }
        push_char(&mut result, ch);
        i += 1;
    }
    result
}

/// The length of the run of non-white-space characters that `s` starts
/// with.
pub open spec fn run_len(s: Seq<char>) -> nat
    decreases s.len(),
{
    if s.len() == 0 || is_white_space(s[0]) {
        0
    } else {
        1 + run_len(s.drop_first())
    }
}

/// A run is no longer than the text.
pub proof fn lemma_run_len_bound(s: Seq<char>)
    ensures
        run_len(s) <= s.len(),
    decreases s.len(),
{
    if s.len() > 0 && !is_white_space(s[0]) {
        lemma_run_len_bound(s.drop_first());
    }
}

/// The words of `s`: its maximal runs of characters that are not white
/// space, in order, as `str::split_whitespace` yields them.
pub open spec fn words(s: Seq<char>) -> Seq<Seq<char>>
    decreases s.len(),
{
    if s.len() == 0 {
        Seq::empty()
    } else if is_white_space(s[0]) {
        words(s.drop_first())
    } else {
        proof {
            lemma_run_len_bound(s.drop_first());
        }
        seq![s.take(run_len(s) as int)] + words(s.skip(run_len(s) as int))
    }
}

/// A run that ends at `end` (at white space or the end of the text) has the
/// length of its span.
proof fn lemma_run_len_span(s: Seq<char>, start: int, end: int)
    requires
        0 <= start <= end <= s.len(),
        forall|j: int| start <= j < end ==> !is_white_space(#[trigger] s[j]),
        end == s.len() || is_white_space(s[end]),
    ensures
        run_len(s.skip(start)) == end - start,
    decreases end - start,
{
    if start < end {
        lemma_run_len_span(s, start + 1, end);
        assert(s.skip(start).drop_first() =~= s.skip(start + 1));
    } else if end < s.len() {
        assert(s.skip(start)[0] == s[end]);
    }
}

/// The words of `chars`, in order.
fn split_words(chars: &Vec<char>) -> (r: Vec<Vec<char>>)
    ensures
        r@.map_values(|w: Vec<char>| w@) == words(chars@),
        forall|k: int| 0 <= k < r@.len() ==> (#[trigger] r@[k])@.len() <= chars@.len(),
{
    let ghost s = chars@;
    let n = chars.len();
    let mut out: Vec<Vec<char>> = Vec::new();
    let mut i: usize = 0;
    assert(s.skip(0) =~= s);
    while i < n
        invariant
            n == s.len(),
            s == chars@,
            i <= n,
            words(s) == out@.map_values(|w: Vec<char>| w@) + words(s.skip(i as int)),
            forall|k: int| 0 <= k < out@.len() ==> (#[trigger] out@[k])@.len() <= s.len(),
        decreases n - i,
    {
        if white_space(chars[i]) {
            assert(s.skip(i as int)[0] == s[i as int]);
            assert(s.skip(i as int).drop_first() =~= s.skip(i + 1));
            i += 1;
        } else {
            let start = i;
            let mut word: Vec<char> = Vec::new();
            while i < n && !white_space(chars[i])
                invariant
                    n == s.len(),
                    s == chars@,
                    start <= i <= n,
                    word@ == s.subrange(start as int, i as int),
                    forall|j: int| start <= j < i ==> !is_white_space(#[trigger] s[j]),
                decreases n - i,
            {
                word.push(chars[i]);
                assert(s.subrange(start as int, i + 1) =~= s.subrange(start as int, i as int).push(s[i as int]));
                i += 1;
            }
            proof {
                lemma_run_len_span(s, start as int, i as int);
                let rest = s.skip(start as int);
                assert(rest[0] == s[start as int]);
                assert(rest.take(run_len(rest) as int) =~= word@);
                assert(rest.skip(run_len(rest) as int) =~= s.skip(i as int));
                assert(words(rest) == seq![word@] + words(s.skip(i as int)));
            }
            let ghost before = out@.map_values(|w: Vec<char>| w@);
            out.push(word);
            assert(out@.map_values(|w: Vec<char>| w@) =~= before.push(s.subrange(start as int, i as int)));
            assert(before + (seq![s.subrange(start as int, i as int)] + words(s.skip(i as int))) =~= before.push(
                s.subrange(start as int, i as int),
            ) + words(s.skip(i as int)));
        }
    }
    assert(s.skip(n as int) =~= Seq::<char>::empty());
    assert(words(s.skip(n as int)) =~= Seq::<Seq<char>>::empty());
    assert(out@.map_values(|w: Vec<char>| w@) + Seq::<Seq<char>>::empty() =~= out@.map_values(
        |w: Vec<char>| w@,
    ));
    out
}

/// The lines made so far and the line being filled.
pub type WrapState = (Seq<Seq<char>>, Seq<char>);

/// One step of filling lines: `word` joins the current line (after a
/// space) when the line then takes at most `max_chars` bytes; otherwise the
/// current line, if any, is closed and `word` starts the next.
pub open spec fn wrap_step(st: WrapState, word: Seq<char>, max_chars: nat) -> WrapState {
    let test = if st.1.len() == 0 {
        word
    } else {
        st.1 + seq![' '] + word
    };
    if byte_len(test) <= max_chars {
        (st.0, test)
    } else {
        (if st.1.len() == 0 {
            st.0
        } else {
            st.0.push(st.1)
        }, word)
    }
}

/// The state after filling lines with the first `k` words.
pub open spec fn wrap_prefix(ws: Seq<Seq<char>>, k: int, max_chars: nat) -> WrapState
    decreases k,
{
    if k <= 0 {
        (Seq::empty(), Seq::empty())
    } else {
        wrap_step(wrap_prefix(ws, k - 1, max_chars), ws[k - 1], max_chars)
    }
}

/// The lines `text` is wrapped into: its words filled greedily into lines
/// of at most `max_chars` bytes (a longer word stands alone on its line);
/// a text without words is one line as it is.
pub open spec fn wrapped_lines(text: Seq<char>, max_chars: nat) -> Seq<Seq<char>> {
    let ws = words(text);
    if ws.len() == 0 {
        seq![text]
    } else {
        let st = wrap_prefix(ws, ws.len() as int, max_chars);
        if st.1.len() == 0 {
            st.0
        } else {
            st.0.push(st.1)
        }
    }
}

/// The largest UTF-8 size among `lines` (0 for none).
pub open spec fn max_byte_len(lines: Seq<Seq<char>>) -> nat
    decreases lines.len(),
{
    if lines.len() == 0 {
        0
    } else {
        let m = max_byte_len(lines.drop_last());
        let l = byte_len(lines.last());
        if l > m {
            l
        } else {
            m
        }
    }
}

/// The width of a character at `font_size`: three fifths of it, rounded
/// down (for the sizes accepted here, this is what multiplying by 0.6 in
/// single precision and truncating gives).
pub open spec fn char_px(font_size: u32) -> nat {
    (font_size * 3 / 5) as nat
}

/// The height of a line at `font_size`: six fifths of it, rounded down.
pub open spec fn line_px(font_size: u32) -> nat {
    (font_size * 6 / 5) as nat
}

/// The lines `text` wraps into for `max_width` pixels at `font_size`.
pub open spec fn text_lines(text: Seq<char>, max_width: u32, font_size: u32) -> Seq<Seq<char>> {
    wrapped_lines(text, max_width as nat / char_px(font_size))
}

/// The width wrapped text needs: the standard entity width, unless some
/// line is longer than fits, in which case that line's width (at least the
/// standard width); a text without words keeps `max_width`.
pub open spec fn text_width(text: Seq<char>, max_width: u32, font_size: u32) -> nat {
    if words(text).len() == 0 {
        max_width as nat
    } else {
        let m = max_byte_len(text_lines(text, max_width, font_size));
        if m > max_width as nat / char_px(font_size) {
            let w = m * char_px(font_size);
            if w > ENTITY_BOX_WIDTH { w } else { ENTITY_BOX_WIDTH as nat }
        } else {
            ENTITY_BOX_WIDTH as nat
        }
    }
}

/// The height wrapped text needs: one line height per line; a text
/// without words needs `font_size`.
pub open spec fn text_height(text: Seq<char>, max_width: u32, font_size: u32) -> nat {
    if words(text).len() == 0 {
        font_size as nat
    } else {
        text_lines(text, max_width, font_size).len() * line_px(font_size)
    }
}

/// Width of entity boxes.
pub const ENTITY_BOX_WIDTH: u32 = 120;

/// The words of a line are no longer than the text, nor is any line.
proof fn lemma_wrap_prefix_bounds(ws: Seq<Seq<char>>, k: int, max_chars: nat, bound: nat)
    requires
        0 <= k <= ws.len(),
        forall|j: int| 0 <= j < ws.len() ==> byte_len(#[trigger] ws[j]) <= bound,
        forall|j: int| 0 <= j < ws.len() ==> (#[trigger] ws[j]).len() > 0,
    ensures
        ({
            let st = wrap_prefix(ws, k, max_chars);
            &&& (k > 0 ==> st.0.len() < k)
            &&& (st.1.len() == 0 <==> k == 0)
            &&& byte_len(st.1) <= if max_chars > bound { max_chars } else { bound }
            &&& max_byte_len(st.0) <= if max_chars > bound { max_chars } else { bound }
        }),
    decreases k,
{
    if k > 0 {
        lemma_wrap_prefix_bounds(ws, k - 1, max_chars, bound);
        let prev = wrap_prefix(ws, k - 1, max_chars);
        let w = ws[k - 1];
        if prev.1.len() != 0 {
            lemma_byte_len_concat(prev.1 + seq![' '], w);
            lemma_byte_len_concat(prev.1, seq![' ']);
            lemma_byte_len_space();
            if byte_len(prev.1 + seq![' '] + w) > max_chars {
                assert(prev.0.push(prev.1).drop_last() =~= prev.0);
            }
        }
        if prev.1.len() == 0 || byte_len(prev.1 + seq![' '] + w) > max_chars {
            if prev.1.len() != 0 {
                assert(prev.0.push(prev.1).drop_last() =~= prev.0);
            }
        }
    }
}

/// A space takes one byte.
proof fn lemma_byte_len_space()
    ensures
        byte_len(seq![' ']) == 1,
{
    let s = seq![' '];
    assert(s.drop_last().len() == 0);
    assert(byte_len(s.drop_last()) == 0);
    assert(s.last() == ' ');
    assert((' ' as u32) == 32);
}

/// Every word has a character.
proof fn lemma_words_nonempty(s: Seq<char>)
    ensures
        forall|j: int| 0 <= j < words(s).len() ==> (#[trigger] words(s)[j]).len() > 0,
    decreases s.len(),
{
    if s.len() > 0 {
        if is_white_space(s[0]) {
            lemma_words_nonempty(s.drop_first());
            assert(words(s) == words(s.drop_first()));
        } else {
            lemma_run_len_bound(s.drop_first());
            assert(words(s) == seq![s.take(run_len(s) as int)] + words(s.skip(run_len(s) as int)));
            lemma_words_nonempty(s.skip(run_len(s) as int));
            let rest = words(s.skip(run_len(s) as int));
            lemma_run_len_bound(s);
            assert(run_len(s) >= 1);
            assert forall|j: int| 0 <= j < words(s).len() implies (#[trigger] words(s)[j]).len() > 0 by {
                if j == 0 {
                    assert(words(s)[0] == s.take(run_len(s) as int));
                } else {
                    assert(words(s)[j] == rest[j - 1]);
                }
            }
        }
    }
}

/// Wraps text into balanced lines, prioritizing wrapping over width
/// expansion, and gives the width and height the lines need.
pub fn wrap_text(text: &str, max_width: u32, font_size: u32) -> (r: (Vec<String>, u32, u32))
    requires
        2 <= font_size <= 100,
        max_width <= 10000,
        text@.len() <= 0x10_0000,
    ensures
        r.0@.map_values(|l: String| l@) == text_lines(text@, max_width, font_size),
        r.1 == text_width(text@, max_width, font_size),
        r.2 == text_height(text@, max_width, font_size),
        r.1 <= 0x1000_0000,
        r.2 <= 0x1000_0000,
{
    let char_w = font_size * 3 / 5;
    let max_chars: u32 = max_width / char_w;
    let chars = crate::infrastructure::text::chars_of(text);
    let words_v = split_words(&chars);
    let ghost ws = words_v@.map_values(|w: Vec<char>| w@);
    if words_v.len() == 0 {
        let mut lines: Vec<String> = Vec::new();
        lines.push(text.to_string());
        assert(lines@.map_values(|l: String| l@) =~= seq![text@]);
        return (lines, max_width, font_size);
    }
    proof {
        assert forall|j: int| 0 <= j < ws.len() implies byte_len(#[trigger] ws[j]) <= 4 * 0x10_0000 by {
            lemma_byte_len_bound(ws[j]);
        }
        lemma_words_nonempty(chars@);
    }
    let mut lines: Vec<Vec<char>> = Vec::new();
    let mut current: Vec<char> = Vec::new();
    let mut current_len: usize = 0;
    let mut i: usize = 0;
    while i < words_v.len()
        invariant
            ws == words_v@.map_values(|w: Vec<char>| w@),
            ws == words(chars@),
            chars@ == text@,
            ws.len() > 0,
            i <= ws.len(),
            forall|j: int| 0 <= j < ws.len() ==> byte_len(#[trigger] ws[j]) <= 4 * 0x10_0000,
            forall|j: int| 0 <= j < ws.len() ==> (#[trigger] ws[j]).len() > 0,
            max_chars <= 10000,
            current_len <= 0x40_0000,
            forall|k: int| 0 <= k < words_v@.len() ==> (#[trigger] words_v@[k])@.len() <= chars@.len(),
            chars@.len() <= 0x10_0000,
            (lines@.map_values(|l: Vec<char>| l@), current@) == wrap_prefix(ws, i as int, max_chars as nat),
            current_len == byte_len(current@),
            lines@.len() <= i,
        decreases ws.len() - i,
    {
        proof {
            lemma_wrap_prefix_bounds(ws, i as int, max_chars as nat, 4 * 0x10_0000);
        }
        let word = &words_v[i];
        assert(word@ == ws[i as int]);
        let word_len = utf8_len(word);
        let ghost st = wrap_prefix(ws, i as int, max_chars as nat);
        if current.len() == 0 {
            current = word.clone();
            current_len = word_len;
        } else {
            proof {
                lemma_byte_len_concat(current@ + seq![' '], word@);
                lemma_byte_len_concat(current@, seq![' ']);
                lemma_byte_len_space();
            }
            let test_len = current_len + 1 + word_len;
            if test_len <= max_chars as usize {
                let mut test = current.clone();
                test.push(' ');
                let mut j: usize = 0;
                while j < word.len()
                    invariant
                        j <= word@.len(),
                        test@ == current@ + seq![' '] + word@.take(j as int),
                    decreases word@.len() - j,
                {
                    test.push(word[j]);
                    assert(word@.take(j + 1) =~= word@.take(j as int).push(word@[j as int]));
                    j += 1;
                }
                assert(word@.take(word@.len() as int) =~= word@);
                current = test;
                current_len = test_len;
            } else {
                let ghost before = lines@.map_values(|l: Vec<char>| l@);
                lines.push(current);
                assert(lines@.map_values(|l: Vec<char>| l@) =~= before.push(st.1));
                current = word.clone();
                current_len = word_len;
            }
        }
        assert(current@ == wrap_prefix(ws, i + 1, max_chars as nat).1);
        i += 1;
    }
    proof {
        lemma_wrap_prefix_bounds(ws, ws.len() as int, max_chars as nat, 4 * 0x10_0000);
    }
    let ghost before = lines@.map_values(|l: Vec<char>| l@);
    lines.push(current);
    assert(lines@.map_values(|l: Vec<char>| l@) =~= before.push(wrap_prefix(ws, ws.len() as int, max_chars as nat).1));
    let ghost all = lines@.map_values(|l: Vec<char>| l@);
    assert(all == text_lines(text@, max_width, font_size));
    proof {
        lemma_words_count(chars@);
        lemma_each_below_max(before.push(wrap_prefix(ws, ws.len() as int, max_chars as nat).1));
        assert(before.push(wrap_prefix(ws, ws.len() as int, max_chars as nat).1).drop_last() =~= before);
    }
    let mut max_line: usize = 0;
    let mut out: Vec<String> = Vec::new();
    let mut k: usize = 0;
    while k < lines.len()
        invariant
            all == lines@.map_values(|l: Vec<char>| l@),
            k <= all.len(),
            max_line == max_byte_len(all.take(k as int)),
            max_line <= 0x40_0000,
            out@.map_values(|l: String| l@) == all.take(k as int),
            forall|j: int| 0 <= j < all.len() ==> byte_len(#[trigger] all[j]) <= 0x40_0000,
        decreases all.len() - k,
    {
        proof {
            lemma_len_le_byte_len(all[k as int]);
        }
        let l = utf8_len(&lines[k]);
        assert(all.take(k + 1).drop_last() =~= all.take(k as int));
        if l > max_line {
            max_line = l;
        }
        let ghost prev = out@.map_values(|l: String| l@);
        out.push(string_from_chars(lines[k].as_slice()));
        assert(out@.map_values(|l: String| l@) =~= prev.push(all[k as int]));
        assert(all.take(k + 1) =~= all.take(k as int).push(all[k as int]));
        k += 1;
    }
    assert(all.take(all.len() as int) =~= all);
    let mut width = ENTITY_BOX_WIDTH;
    assert(lines@.len() <= 0x10_0000);
    assert(max_line * char_w <= 0x40_0000 * 60) by (nonlinear_arith)
        requires
            max_line <= 0x40_0000,
            char_w <= 60,
    ;
    assert(lines@.len() * (font_size * 6 / 5) <= 0x10_0000 * 120) by (nonlinear_arith)
        requires
            lines@.len() <= 0x10_0000,
            font_size * 6 / 5 <= 120,
    ;
    if max_line > max_chars as usize {
        let w = max_line as u32 * char_w;
        if w > ENTITY_BOX_WIDTH {
            width = w;
        }
    }
    let line_h = font_size * 6 / 5;
    let height = lines.len() as u32 * line_h;
    (out, width, height)
}

/// A text has at least as many bytes as characters.
proof fn lemma_len_le_byte_len(s: Seq<char>)
    ensures
        s.len() <= byte_len(s),
    decreases s.len(),
{
    if s.len() > 0 {
        lemma_len_le_byte_len(s.drop_last());
    }
}

/// Every line is within the largest size.
proof fn lemma_each_below_max(lines: Seq<Seq<char>>)
    ensures
        forall|j: int| 0 <= j < lines.len() ==> byte_len(#[trigger] lines[j]) <= max_byte_len(lines),
    decreases lines.len(),
{
    if lines.len() > 0 {
        lemma_each_below_max(lines.drop_last());
        assert forall|j: int| 0 <= j < lines.len() implies byte_len(#[trigger] lines[j]) <= max_byte_len(lines) by {
            if j < lines.len() - 1 {
                assert(lines[j] == lines.drop_last()[j]);
            }
        }
    }
}

/// A text has no more words than characters.
proof fn lemma_words_count(s: Seq<char>)
    ensures
        words(s).len() <= s.len(),
    decreases s.len(),
{
    if s.len() > 0 {
        if is_white_space(s[0]) {
            lemma_words_count(s.drop_first());
        } else {
            lemma_run_len_bound(s.drop_first());
            lemma_words_count(s.skip(run_len(s) as int));
        }
    }
}

} // verus!
