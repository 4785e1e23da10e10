//! Line matchers of the KeyFile grammar.
//!
//! A non-blank, non-comment line of a KeyFile is either a group header,
//! `[name]`, or a key-value pair,
//! `key[locale]wsl=wsrvalue`, where the bracketed locale and the whitespace
//! runs are optional. [`parse_as_header`] and [`parse_as_key_value_pair`]
//! classify one line (without its terminating newline) and extract the
//! fields; a line that matches neither pattern and is not blank or a `#`
//! comment is invalid.
//!
//! The matchers are anchored: the whole line must belong to the pattern.
//! Both decompositions are exact, in the sense that concatenating the
//! extracted fields (with their delimiters) yields the original line; this
//! is what makes the rendered output of a parsed document reproduce its
//! input.

use vstd::prelude::*;
use vstd::string::*;

use crate::chars::{
    check_group_name, check_value, is_blank_char, is_key_char, lemma_run_end_props, run_end,
    scan_blank, scan_key, valid_group_name, valid_value,
};
use crate::types::{render_locale_full, scan_locale_body, spec_locale_body, Locale, LocaleV};

verus! {

/// The name captured by the group-header pattern `[name]`, if the line
/// matches it.
pub open spec fn spec_header_name(line: Seq<char>) -> Option<Seq<char>> {
    if line.len() >= 3 && line[0] == '[' && line[line.len() - 1] == ']' && valid_group_name(
        line.subrange(1, line.len() - 1),
    ) {
        Some(line.subrange(1, line.len() - 1))
    } else {
        None
    }
}

/// The fields of a key-value line: key, optional locale, value, and the
/// whitespace on each side of the `=` separator.
#[verifier::ext_equal]
pub ghost struct KvPartsV {
    pub key: Seq<char>,
    pub locale: Option<LocaleV>,
    pub value: Seq<char>,
    pub wsl: Seq<char>,
    pub wsr: Seq<char>,
}

/// The whitespace, separator, and value part of a key-value line, starting
/// at `pos` (just after the key and optional locale).
pub open spec fn spec_kv_tail(
    line: Seq<char>,
    key: Seq<char>,
    locale: Option<LocaleV>,
    pos: int,
) -> Option<KvPartsV>
    recommends
        0 <= pos <= line.len(),
{
    let we = run_end(line, pos, |c: char| is_blank_char(c));
    if we < line.len() && line[we] == '=' {
        let ve = run_end(line, we + 1, |c: char| is_blank_char(c));
        let value = line.subrange(ve, line.len() as int);
        if valid_value(value) {
            Some(
                KvPartsV {
                    key,
                    locale,
                    value,
                    wsl: line.subrange(pos, we),
                    wsr: line.subrange(we + 1, ve),
                },
            )
        } else {
            None
        }
    } else {
        None
    }
}

/// The fields captured by the key-value pattern, if the line matches it.
///
/// The key is the longest run of key characters at the start of the line
/// and must not be empty. If a `[` follows, a complete locale followed by
/// `]` must follow. The whitespace runs on both sides of `=` are the longest
/// runs of blanks, so the value never starts with a blank (it may be empty).
pub open spec fn spec_key_value_pair(line: Seq<char>) -> Option<KvPartsV> {
    let ke = run_end(line, 0, |c: char| is_key_char(c));
    if ke == 0 {
        None
    } else {
        let key = line.subrange(0, ke);
        if ke < line.len() && line[ke] == '[' {
            match spec_locale_body(line, ke + 1) {
                None => None,
                Some((lv, p)) => if p < line.len() && line[p] == ']' {
                    spec_kv_tail(line, key, Some(lv), p + 1)
                } else {
                    None
                },
            }
        } else {
            spec_kv_tail(line, key, None, ke)
        }
    }
}

/// Attempt to parse one line as a group header; on a match, the captured
/// group name is returned.
pub fn parse_as_header(line: &str) -> (r: Option<String>)
    ensures
        match spec_header_name(line@) {
            Some(name) => r matches Some(s) && s@ == name,
            None => r is None,
        },
{
    let n = line.unicode_len();
    if n < 3 {
        return None;
    }
    if line.get_char(0) != '[' || line.get_char(n - 1) != ']' {
        return None;
    }
    let mid = line.substring_char(1, n - 1);
    if check_group_name(mid) {
        Some(mid.to_owned())
    } else {
        None
    }
}

/// Attempt to parse one line as a key-value pair; on a match, the key, the
/// optional locale, the value, and the whitespace on each side of `=` are
/// returned.
pub fn parse_as_key_value_pair(line: &str) -> (r: Option<
    (String, Option<Locale>, String, String, String),
>)
    ensures
        match spec_key_value_pair(line@) {
            Some(p) => r matches Some(t) && t.0@ == p.key && t.1.deep_view() == p.locale && t.2@
                == p.value && t.3@ == p.wsl && t.4@ == p.wsr,
            None => r is None,
        },
{
    let n = line.unicode_len();
    let ke = scan_key(line, 0);
    if ke == 0 {
        return None;
    }
    let key = line.substring_char(0, ke).to_owned();
    if ke < n && line.get_char(ke) == '[' {
        match scan_locale_body(line, ke + 1) {
            None => None,
            Some((locale, p)) => {
                if p < n && line.get_char(p) == ']' {
                    kv_tail(line, key, Some(locale), p + 1)
                } else {
                    None
                }
            },
        }
    } else {
        kv_tail(line, key, None, ke)
    }
}

/// Parse the whitespace, separator, and value that end a key-value line.
fn kv_tail(line: &str, key: String, locale: Option<Locale>, pos: usize) -> (r: Option<
    (String, Option<Locale>, String, String, String),
>)
    requires
        pos <= line@.len(),
    ensures
        match spec_kv_tail(line@, key@, locale.deep_view(), pos as int) {
            Some(p) => r matches Some(t) && t.0@ == p.key && t.1.deep_view() == p.locale && t.2@
                == p.value && t.3@ == p.wsl && t.4@ == p.wsr,
            None => r is None,
        },
{
    let n = line.unicode_len();
    let we = scan_blank(line, pos);
    if we < n && line.get_char(we) == '=' {
        let ve = scan_blank(line, we + 1);
        let value = line.substring_char(ve, n);
        if check_value(value) {
            let wsl = line.substring_char(pos, we).to_owned();
            let wsr = line.substring_char(we + 1, ve).to_owned();
            Some((key, locale, value.to_owned(), wsl, wsr))
        } else {
            None
        }
    } else {
        None
    }
}

/// The components of a matched locale satisfy their character classes.
pub proof fn lemma_locale_body_wf(s: Seq<char>, from: int, lv: LocaleV, p: int)
    requires
        0 <= from <= s.len(),
        spec_locale_body(s, from) == Some((lv, p)),
    ensures
        crate::types::loc_wf(lv),
{
    let alpha = |c: char| crate::chars::is_alpha_char(c);
    let keyc = |c: char| is_key_char(c);
    let le = run_end(s, from, alpha);
    lemma_run_end_props(s, from, alpha);
    let p1 = if le < s.len() && s[le] == '_' {
        lemma_run_end_props(s, le + 1, alpha);
        run_end(s, le + 1, alpha)
    } else {
        le
    };
    let p2 = if p1 < s.len() && s[p1] == '.' {
        lemma_run_end_props(s, p1 + 1, keyc);
        run_end(s, p1 + 1, keyc)
    } else {
        p1
    };
    if p2 < s.len() && s[p2] == '@' {
        lemma_run_end_props(s, p2 + 1, alpha);
    }
}

/// The fields of a matched key-value line satisfy their character classes.
pub proof fn lemma_kv_parts_wf(line: Seq<char>, p: KvPartsV)
    requires
        spec_key_value_pair(line) == Some(p),
    ensures
        crate::chars::valid_key(p.key),
        crate::chars::valid_whitespace(p.wsl),
        crate::chars::valid_whitespace(p.wsr),
        valid_value(p.value),
        p.locale matches Some(l) ==> crate::types::loc_wf(l),
{
    let keyc = |c: char| is_key_char(c);
    let blank = |c: char| is_blank_char(c);
    let ke = run_end(line, 0, keyc);
    lemma_run_end_props(line, 0, keyc);
    if ke < line.len() && line[ke] == '[' {
        let (lv, lp) = spec_locale_body(line, ke + 1).unwrap();
        lemma_locale_body_reassemble(line, ke + 1, lv, lp);
        lemma_locale_body_wf(line, ke + 1, lv, lp);
        let pos = lp + 1;
        lemma_run_end_props(line, pos, blank);
        let we = run_end(line, pos, blank);
        lemma_run_end_props(line, we + 1, blank);
    } else {
        let pos = ke;
        lemma_run_end_props(line, pos, blank);
        let we = run_end(line, pos, blank);
        lemma_run_end_props(line, we + 1, blank);
    }
}

/// A line matched by the header pattern is exactly `[` + name + `]`.
pub proof fn lemma_header_reassemble(line: Seq<char>, name: Seq<char>)
    requires
        spec_header_name(line) == Some(name),
    ensures
        line == seq!['['] + name + seq![']'],
{
    assert(line =~= seq!['['] + name + seq![']']);
}

/// A locale matched starting at `from` occupies exactly the characters up
/// to the returned position, in the full source form.
pub proof fn lemma_locale_body_reassemble(s: Seq<char>, from: int, lv: LocaleV, p: int)
    requires
        0 <= from <= s.len(),
        spec_locale_body(s, from) == Some((lv, p)),
    ensures
        from <= p <= s.len(),
        s.subrange(from, p) == render_locale_full(lv),
{
    let alpha = |c: char| crate::chars::is_alpha_char(c);
    let keyc = |c: char| is_key_char(c);
    let le = run_end(s, from, alpha);
    lemma_run_end_props(s, from, alpha);
    let p1 = if le < s.len() && s[le] == '_' {
        lemma_run_end_props(s, le + 1, alpha);
        run_end(s, le + 1, alpha)
    } else {
        le
    };
    let p2 = if p1 < s.len() && s[p1] == '.' {
        lemma_run_end_props(s, p1 + 1, keyc);
        run_end(s, p1 + 1, keyc)
    } else {
        p1
    };
    let p3 = if p2 < s.len() && s[p2] == '@' {
        lemma_run_end_props(s, p2 + 1, alpha);
        run_end(s, p2 + 1, alpha)
    } else {
        p2
    };
    assert(p == p3);
    assert(s.subrange(from, p) =~= render_locale_full(lv));
}

/// A line matched by the key-value pattern is exactly the concatenation of
/// its fields: key, bracketed locale (if any), left whitespace, `=`, right
/// whitespace, value.
pub proof fn lemma_kv_reassemble(line: Seq<char>, p: KvPartsV)
    requires
        spec_key_value_pair(line) == Some(p),
    ensures
        line == p.key + (match p.locale {
            Some(l) => seq!['['] + render_locale_full(l) + seq![']'],
            None => Seq::<char>::empty(),
        }) + p.wsl + seq!['='] + p.wsr + p.value,
{
    let keyc = |c: char| is_key_char(c);
    let blank = |c: char| is_blank_char(c);
    let ke = run_end(line, 0, keyc);
    lemma_run_end_props(line, 0, keyc);
    if ke < line.len() && line[ke] == '[' {
        let (lv, lp) = spec_locale_body(line, ke + 1).unwrap();
        lemma_locale_body_reassemble(line, ke + 1, lv, lp);
        let pos = lp + 1;
        let we = run_end(line, pos, blank);
        lemma_run_end_props(line, pos, blank);
        let ve = run_end(line, we + 1, blank);
        lemma_run_end_props(line, we + 1, blank);
        assert(line.subrange(ke + 1, lp) == render_locale_full(lv));
        assert(line =~= p.key + (seq!['['] + render_locale_full(lv) + seq![']']) + p.wsl + seq![
            '=',
        ] + p.wsr + p.value) by {
            assert(forall|i: int|
                ke + 1 <= i < lp ==> line[i] == #[trigger] render_locale_full(lv)[i - (ke + 1)]);
        }
    } else {
        let pos = ke;
        let we = run_end(line, pos, blank);
        lemma_run_end_props(line, pos, blank);
        let ve = run_end(line, we + 1, blank);
        lemma_run_end_props(line, we + 1, blank);
        assert(line =~= p.key + Seq::<char>::empty() + p.wsl + seq!['='] + p.wsr + p.value);
    }
}

} // verus!
