//! Character classes of the KeyFile text format.
//!
//! Every validated field of the document model is constrained to one of the
//! character classes below: group names are printable ASCII without square
//! brackets, keys are ASCII alphanumerics and `-`, locale components are
//! ASCII letters (encodings also allow digits and `-`), values exclude
//! control characters, and the whitespace around `=` is blank characters
//! only. Decor lines (comments and blank lines) are empty or start with `#`.

use vstd::prelude::*;
use vstd::string::*;

verus! {

/// A control character: the Unicode `Cc` category,
/// `U+0000`..`U+001F` and `U+007F`..`U+009F`.
pub open spec fn is_control_char(c: char) -> bool {
    (c as u32) < 0x20 || (0x7f <= c as u32 && c as u32 <= 0x9f)
}

/// Printable ASCII: space through tilde.
pub open spec fn is_print_char(c: char) -> bool {
    0x20 <= c as u32 && c as u32 <= 0x7e
}

/// A character allowed in a group name: printable ASCII except `[` and `]`.
pub open spec fn is_group_name_char(c: char) -> bool {
    is_print_char(c) && c != '[' && c != ']'
}

/// An ASCII letter.
pub open spec fn is_alpha_char(c: char) -> bool {
    (('a' as u32) <= c as u32 && c as u32 <= ('z' as u32)) || (('A' as u32) <= c as u32 && c as u32
        <= ('Z' as u32))
}

/// An ASCII digit.
pub open spec fn is_digit_char(c: char) -> bool {
    ('0' as u32) <= c as u32 && c as u32 <= ('9' as u32)
}

/// A character allowed in a key or an encoding: ASCII alphanumeric or `-`.
pub open spec fn is_key_char(c: char) -> bool {
    is_alpha_char(c) || is_digit_char(c) || c == '-'
}

/// A blank character: ASCII space or tab.
pub open spec fn is_blank_char(c: char) -> bool {
    c == ' ' || c == '\t'
}

/// A character allowed in a value: anything but a control character.
pub open spec fn is_value_char(c: char) -> bool {
    !is_control_char(c)
}

/// Every character of `s` satisfies `p`.
pub open spec fn all_chars(s: Seq<char>, p: spec_fn(char) -> bool) -> bool {
    forall|i: int| 0 <= i < s.len() ==> p(#[trigger] s[i])
}

/// A valid group name: one or more group-name characters.
pub open spec fn valid_group_name(s: Seq<char>) -> bool {
    s.len() > 0 && all_chars(s, |c: char| is_group_name_char(c))
}

/// A valid key: one or more key characters.
pub open spec fn valid_key(s: Seq<char>) -> bool {
    s.len() > 0 && all_chars(s, |c: char| is_key_char(c))
}

/// A valid language, country, or modifier: one or more ASCII letters.
pub open spec fn valid_alpha_word(s: Seq<char>) -> bool {
    s.len() > 0 && all_chars(s, |c: char| is_alpha_char(c))
}

/// A valid encoding: one or more key characters.
pub open spec fn valid_encoding(s: Seq<char>) -> bool {
    s.len() > 0 && all_chars(s, |c: char| is_key_char(c))
}

/// A valid value: any characters except control characters.
pub open spec fn valid_value(s: Seq<char>) -> bool {
    all_chars(s, |c: char| is_value_char(c))
}

/// Valid whitespace around `=`: zero or more blank characters.
pub open spec fn valid_whitespace(s: Seq<char>) -> bool {
    all_chars(s, |c: char| is_blank_char(c))
}

/// A valid decor line: empty, or starting with `#`.
pub open spec fn valid_decor_line(s: Seq<char>) -> bool {
    s.len() == 0 || s[0] == '#'
}

/// Every line of `d` is a valid decor line.
pub open spec fn valid_decor(d: Seq<Seq<char>>) -> bool {
    forall|i: int| 0 <= i < d.len() ==> valid_decor_line(#[trigger] d[i])
}

/// The end of the run of characters satisfying `p` that starts at `from`:
/// the first index at or after `from` whose character fails `p`, or the
/// length of `s` if every remaining character satisfies `p`.
pub open spec fn run_end(s: Seq<char>, from: int, p: spec_fn(char) -> bool) -> int
    recommends
        0 <= from <= s.len(),
    decreases s.len() - from,
{
    if from < s.len() && p(s[from]) {
        run_end(s, from + 1, p)
    } else {
        from
    }
}

/// The run starting at `from` ends exactly where the characters stop
/// satisfying `p`.
pub proof fn lemma_run_end_is(s: Seq<char>, from: int, p: spec_fn(char) -> bool, end: int)
    requires
        0 <= from <= end <= s.len(),
        forall|j: int| from <= j < end ==> p(#[trigger] s[j]),
        end == s.len() || !p(s[end]),
    ensures
        run_end(s, from, p) == end,
    decreases end - from,
{
    if from < end {
        lemma_run_end_is(s, from + 1, p, end);
    }
}

/// Basic bounds and membership facts about `run_end`.
pub proof fn lemma_run_end_props(s: Seq<char>, from: int, p: spec_fn(char) -> bool)
    requires
        0 <= from <= s.len(),
    ensures
        from <= run_end(s, from, p) <= s.len(),
        forall|j: int| from <= j < run_end(s, from, p) ==> p(#[trigger] s[j]),
        run_end(s, from, p) == s.len() || !p(s[run_end(s, from, p)]),
    decreases s.len() - from,
{
    if from < s.len() && p(s[from]) {
        lemma_run_end_props(s, from + 1, p);
    }
}

/// Executable scan for the end of a run of ASCII letters.
pub fn scan_alpha(s: &str, from: usize) -> (r: usize)
    requires
        from <= s@.len(),
    ensures
        r == run_end(s@, from as int, |c: char| is_alpha_char(c)),
        from <= r <= s@.len(),
{
    let n = s.unicode_len();
    let mut i: usize = from;
    while i < n
        invariant
            from <= i <= n,
            n == s@.len(),
            forall|j: int| from <= j < i ==> is_alpha_char(#[trigger] s@[j]),
        decreases n - i,
    {
        if !alpha_char(s.get_char(i)) {
            proof {
                lemma_run_end_is(s@, from as int, |c: char| is_alpha_char(c), i as int);
            }
            return i;
        }
        i = i + 1;
    }
    proof {
        lemma_run_end_is(s@, from as int, |c: char| is_alpha_char(c), i as int);
    }
    i
}

/// Executable scan for the end of a run of key characters.
pub fn scan_key(s: &str, from: usize) -> (r: usize)
    requires
        from <= s@.len(),
    ensures
        r == run_end(s@, from as int, |c: char| is_key_char(c)),
        from <= r <= s@.len(),
{
    let n = s.unicode_len();
    let mut i: usize = from;
    while i < n
        invariant
            from <= i <= n,
            n == s@.len(),
            forall|j: int| from <= j < i ==> is_key_char(#[trigger] s@[j]),
        decreases n - i,
    {
        if !key_char(s.get_char(i)) {
            proof {
                lemma_run_end_is(s@, from as int, |c: char| is_key_char(c), i as int);
            }
            return i;
        }
        i = i + 1;
    }
    proof {
        lemma_run_end_is(s@, from as int, |c: char| is_key_char(c), i as int);
    }
    i
}

/// Executable scan for the end of a run of blank characters.
pub fn scan_blank(s: &str, from: usize) -> (r: usize)
    requires
        from <= s@.len(),
    ensures
        r == run_end(s@, from as int, |c: char| is_blank_char(c)),
        from <= r <= s@.len(),
{
    let n = s.unicode_len();
    let mut i: usize = from;
    while i < n
        invariant
            from <= i <= n,
            n == s@.len(),
            forall|j: int| from <= j < i ==> is_blank_char(#[trigger] s@[j]),
        decreases n - i,
    {
        if !blank_char(s.get_char(i)) {
            proof {
                lemma_run_end_is(s@, from as int, |c: char| is_blank_char(c), i as int);
            }
            return i;
        }
        i = i + 1;
    }
    proof {
        lemma_run_end_is(s@, from as int, |c: char| is_blank_char(c), i as int);
    }
    i
}

/// Executable check for a group-name character.
pub fn group_name_char(c: char) -> (r: bool)
    ensures
        r == is_group_name_char(c),
{
    let u = c as u32;
    0x20 <= u && u <= 0x7e && c != '[' && c != ']'
}

/// Executable check for an ASCII letter.
pub fn alpha_char(c: char) -> (r: bool)
    ensures
        r == is_alpha_char(c),
{
    let u = c as u32;
    (0x61 <= u && u <= 0x7a) || (0x41 <= u && u <= 0x5a)
}

/// Executable check for a key or encoding character.
pub fn key_char(c: char) -> (r: bool)
    ensures
        r == is_key_char(c),
{
    let u = c as u32;
    (0x61 <= u && u <= 0x7a) || (0x41 <= u && u <= 0x5a) || (0x30 <= u && u <= 0x39) || c == '-'
}

/// Executable check for a blank character.
pub fn blank_char(c: char) -> (r: bool)
    ensures
        r == is_blank_char(c),
{
    c == ' ' || c == '\t'
}

/// Executable check for a value character.
pub fn value_char(c: char) -> (r: bool)
    ensures
        r == is_value_char(c),
{
    let u = c as u32;
    !(u < 0x20 || (0x7f <= u && u <= 0x9f))
}

/// Executable check that `s` is a valid group name.
pub fn check_group_name(s: &str) -> (r: bool)
    ensures
        r == valid_group_name(s@),
{
    let n = s.unicode_len();
    if n == 0 {
        return false;
    }
    let mut i: usize = 0;
    while i < n
        invariant
            i <= n,
            n == s@.len(),
            forall|j: int| 0 <= j < i ==> is_group_name_char(#[trigger] s@[j]),
        decreases n - i,
    {
        if !group_name_char(s.get_char(i)) {
            return false;
        }
        i = i + 1;
    }
    true
}

/// Executable check that `s` is a valid key.
pub fn check_key(s: &str) -> (r: bool)
    ensures
        r == valid_key(s@),
{
    let n = s.unicode_len();
    if n == 0 {
        return false;
    }
    let mut i: usize = 0;
    while i < n
        invariant
            i <= n,
            n == s@.len(),
            forall|j: int| 0 <= j < i ==> is_key_char(#[trigger] s@[j]),
        decreases n - i,
    {
        if !key_char(s.get_char(i)) {
            return false;
        }
        i = i + 1;
    }
    true
}

/// Executable check that `s` is a valid language, country, or modifier.
pub fn check_alpha_word(s: &str) -> (r: bool)
    ensures
        r == valid_alpha_word(s@),
{
    let n = s.unicode_len();
    if n == 0 {
        return false;
    }
    let mut i: usize = 0;
    while i < n
        invariant
            i <= n,
            n == s@.len(),
            forall|j: int| 0 <= j < i ==> is_alpha_char(#[trigger] s@[j]),
        decreases n - i,
    {
        if !alpha_char(s.get_char(i)) {
            return false;
        }
        i = i + 1;
    }
    true
}

/// Executable check that `s` is a valid value.
pub fn check_value(s: &str) -> (r: bool)
    ensures
        r == valid_value(s@),
{
    let n = s.unicode_len();
    let mut i: usize = 0;
    while i < n
        invariant
            i <= n,
            n == s@.len(),
            forall|j: int| 0 <= j < i ==> is_value_char(#[trigger] s@[j]),
        decreases n - i,
    {
        if !value_char(s.get_char(i)) {
            return false;
        }
        i = i + 1;
    }
    true
}

/// Executable check that `s` is valid whitespace.
pub fn check_whitespace(s: &str) -> (r: bool)
    ensures
        r == valid_whitespace(s@),
{
    let n = s.unicode_len();
    let mut i: usize = 0;
    while i < n
        invariant
            i <= n,
            n == s@.len(),
            forall|j: int| 0 <= j < i ==> is_blank_char(#[trigger] s@[j]),
        decreases n - i,
    {
        if !blank_char(s.get_char(i)) {
            return false;
        }
        i = i + 1;
    }
    true
}

/// Executable check that `s` is a valid decor line.
pub fn check_decor_line(s: &str) -> (r: bool)
    ensures
        r == valid_decor_line(s@),
{
    s.unicode_len() == 0 || s.get_char(0) == '#'
}

} // verus!
