//! Text matching for settings: Unicode whitespace trimming and ASCII
//! case-insensitive keyword comparison.
use vstd::prelude::*;

verus! {

/// The characters with the Unicode `White_Space` property, which
/// `char::is_whitespace` and `str::trim` use.
pub open spec fn is_unicode_whitespace(c: char) -> bool {
    let u = c as u32;
    (0x09 <= u <= 0x0d) || u == 0x20 || u == 0x85 || u == 0xa0 || u == 0x1680 || (0x2000 <= u
        <= 0x200a) || u == 0x2028 || u == 0x2029 || u == 0x202f || u == 0x205f || u == 0x3000
}

pub fn is_whitespace(c: char) -> (ws: bool)
    ensures
        ws == is_unicode_whitespace(c),
{
    let u = c as u32;
    (0x09 <= u && u <= 0x0d) || u == 0x20 || u == 0x85 || u == 0xa0 || u == 0x1680 || (0x2000 <= u
        && u <= 0x200a) || u == 0x2028 || u == 0x2029 || u == 0x202f || u == 0x205f || u == 0x3000
}

/// Index of the first non-whitespace character at or after `i`.
pub open spec fn trim_start_from(s: Seq<char>, i: int) -> int
    decreases s.len() - i,
{
    if i >= s.len() || !is_unicode_whitespace(s[i]) {
        i
    } else {
        trim_start_from(s, i + 1)
    }
}

/// One past the last non-whitespace character before `j`, not going below
/// `lo`.
pub open spec fn trim_end_from(s: Seq<char>, lo: int, j: int) -> int
    decreases j - lo,
{
    if j <= lo || !is_unicode_whitespace(s[j - 1]) {
        j
    } else {
        trim_end_from(s, lo, j - 1)
    }
}

/// `str::trim`: leading and trailing whitespace removed.
pub open spec fn spec_trim(s: Seq<char>) -> Seq<char> {
    let a = trim_start_from(s, 0);
    s.subrange(a, trim_end_from(s, a, s.len() as int))
}

/// The code point of `c` after `to_ascii_lowercase`: ASCII capitals are
/// lowered, everything else is kept.
pub open spec fn ascii_lower_code(c: char) -> u32 {
    if 'A' <= c && c <= 'Z' {
        ((c as u32) + 32) as u32
    } else {
        c as u32
    }
}

/// `s.to_ascii_lowercase() == word`.
pub open spec fn eq_ignore_ascii_case_to(s: Seq<char>, word: Seq<char>) -> bool {
    s.len() == word.len() && forall|k: int| 0 <= k < s.len() ==> ascii_lower_code(#[trigger] s[k])
        == word[k] as u32
}

/// The characters of a string.
pub fn chars_of(s: &str) -> (chars: Vec<char>)
    ensures
        chars@ == s@,
{
    let mut chars: Vec<char> = Vec::new();
    for c in it: s.chars()
        invariant
            chars@ == it.seq().take(it.index()),
    {
        chars.push(c);
        assert(chars@ =~= it.seq().take(it.index() + 1));
    }
    chars
}

/// The bounds `[start, end)` of the trimmed characters.
pub fn trim_bounds(chars: &Vec<char>) -> (bounds: (usize, usize))
    ensures
        bounds.0 == trim_start_from(chars@, 0),
        bounds.1 == trim_end_from(chars@, bounds.0 as int, chars@.len() as int),
        bounds.0 <= bounds.1 <= chars@.len(),
        chars@.subrange(bounds.0 as int, bounds.1 as int) == spec_trim(chars@),
{
    let mut start: usize = 0;
    while start < chars.len() && is_whitespace(chars[start])
        invariant
            start <= chars@.len(),
            trim_start_from(chars@, 0) == trim_start_from(chars@, start as int),
        decreases chars@.len() - start,
    {
        start += 1;
    }
    let mut end: usize = chars.len();
    while end > start && is_whitespace(chars[end - 1])
        invariant
            start <= end <= chars@.len(),
            trim_end_from(chars@, start as int, chars@.len() as int) == trim_end_from(
                chars@,
                start as int,
                end as int,
            ),
        decreases end - start,
    {
        end -= 1;
    }
    (start, end)
}

/// Whether the characters `chars[start..end]`, lowered as ASCII, spell
/// `word`.
pub fn equals_ascii_lowercase(chars: &Vec<char>, start: usize, end: usize, word: &str) -> (eq: bool)
    requires
        start <= end <= chars@.len(),
    ensures
        eq == eq_ignore_ascii_case_to(chars@.subrange(start as int, end as int), word@),
{
    let word_chars = chars_of(word);
    let ghost part = chars@.subrange(start as int, end as int);
    if end - start != word_chars.len() {
        return false;
    }
    let mut i: usize = 0;
    while i < word_chars.len()
        invariant
            start <= end <= chars@.len(),
            end - start == word_chars@.len(),
            word_chars@ == word@,
            part == chars@.subrange(start as int, end as int),
            i <= word_chars@.len(),
            forall|k: int| 0 <= k < i ==> ascii_lower_code(#[trigger] part[k]) == word@[k] as u32,
        decreases word_chars@.len() - i,
    {
        let c = chars[start + i];
        let w = word_chars[i];
        assert(part[i as int] == c);
        let code = if 'A' <= c && c <= 'Z' {
            c as u32 + 32
        } else {
            c as u32
        };
        if code != w as u32 {
            return false;
        }
        i += 1;
    }
    true
}

} // verus!
