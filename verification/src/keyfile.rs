//! The KeyFile document model: [`KeyFile`], [`Group`], and [`KeyValuePair`].
//!
//! A [`KeyFile`] holds an ordered collection of named groups; a [`Group`]
//! holds an ordered collection of key-value pairs under compound
//! `(key, locale)` keys; a [`KeyValuePair`] is one entry. Every level keeps
//! the formatting it was parsed with — comment and blank lines ("decor")
//! attached to the entity that follows them, and the whitespace around each
//! `=` — so a parsed document renders back to its input exactly.

use vstd::prelude::*;
use vstd::string::*;

use indexmap::IndexMap;

use crate::chars::{valid_decor, valid_decor_line, valid_group_name, valid_key, valid_value,
    valid_whitespace};
use crate::lines::{join_lines, lemma_join_lines_push, lines_of, split_lines};
use crate::parse::{parse_as_header, parse_as_key_value_pair, spec_header_name,
    spec_key_value_pair, KvPartsV};
use crate::ordmap::{em_get, em_get_index, em_has, em_insert, em_len, em_new, em_shift_remove,
    ekey_view, entry_map_seq, gm_get, gm_get_index, gm_has, gm_insert, gm_len, gm_new,
    gm_shift_remove, group_map_seq, EntryKey};
use crate::types::{loc_wf, render_locale, Decor, GroupName, Key, Locale, LocaleV, Value,
    Whitespace};

verus! {

/// The mathematical value of a [`KeyValuePair`].
#[verifier::ext_equal]
pub ghost struct KeyValuePairV {
    pub key: Seq<char>,
    pub locale: Option<LocaleV>,
    pub value: Seq<char>,
    pub wsl: Seq<char>,
    pub wsr: Seq<char>,
    pub decor: Seq<Seq<char>>,
}

/// The mathematical value of a [`Group`]: its name, its entries in order,
/// and its decor lines.
#[verifier::ext_equal]
pub ghost struct GroupV {
    pub name: Seq<char>,
    pub entries: Seq<KeyValuePairV>,
    pub decor: Seq<Seq<char>>,
}

/// The mathematical value of a [`KeyFile`]: its groups in order and its
/// trailing decor lines.
#[verifier::ext_equal]
pub ghost struct KeyFileV {
    pub groups: Seq<GroupV>,
    pub decor: Seq<Seq<char>>,
}

/// Well-formedness of an entry value: every field satisfies its character
/// class.
pub open spec fn kv_wf(kv: KeyValuePairV) -> bool {
    &&& valid_key(kv.key)
    &&& (kv.locale matches Some(l) ==> loc_wf(l))
    &&& valid_value(kv.value)
    &&& valid_whitespace(kv.wsl)
    &&& valid_whitespace(kv.wsr)
    &&& valid_decor(kv.decor)
}

/// Two entries collide when they share the compound `(key, locale)` key.
pub open spec fn kv_same_key(a: KeyValuePairV, b: KeyValuePairV) -> bool {
    a.key == b.key && a.locale == b.locale
}

/// Some entry of `es` has this compound key.
pub open spec fn entries_have_key(
    es: Seq<KeyValuePairV>,
    key: Seq<char>,
    locale: Option<LocaleV>,
) -> bool {
    exists|i: int| 0 <= i < es.len() && (#[trigger] es[i]).key == key && es[i].locale == locale
}

/// Well-formedness of a group value: a valid name and decor, well-formed
/// entries, and no two entries under the same compound key.
pub open spec fn group_v_wf(g: GroupV) -> bool {
    &&& valid_group_name(g.name)
    &&& valid_decor(g.decor)
    &&& (forall|i: int| 0 <= i < g.entries.len() ==> kv_wf(#[trigger] g.entries[i]))
    &&& (forall|i: int, j: int|
        0 <= i < j < g.entries.len() ==> !kv_same_key(g.entries[i], g.entries[j]))
}

/// Some group of `gs` has this name.
pub open spec fn groups_have_name(gs: Seq<GroupV>, name: Seq<char>) -> bool {
    exists|i: int| 0 <= i < gs.len() && (#[trigger] gs[i]).name == name
}

/// Well-formedness of a document value: valid trailing decor, well-formed
/// groups, and no two groups under the same name.
pub open spec fn keyfile_v_wf(f: KeyFileV) -> bool {
    &&& valid_decor(f.decor)
    &&& (forall|i: int| 0 <= i < f.groups.len() ==> group_v_wf(#[trigger] f.groups[i]))
    &&& (forall|i: int, j: int|
        0 <= i < j < f.groups.len() ==> f.groups[i].name != f.groups[j].name)
}

/// The rendering of one entry: its decor lines, each followed by a line
/// feed, then `key[locale]wsl=wsrvalue` and a line feed. The locale is
/// rendered as `lang[_COUNTRY][@MODIFIER]` and omitted entirely when absent.
pub open spec fn render_kv(kv: KeyValuePairV) -> Seq<char> {
    join_lines(kv.decor) + kv.key + (match kv.locale {
        Some(l) => seq!['['] + render_locale(l) + seq![']'],
        None => Seq::<char>::empty(),
    }) + kv.wsl + seq!['='] + kv.wsr + kv.value + seq!['\n']
}

/// The renderings of a sequence of entries, concatenated in order.
pub open spec fn render_entries(es: Seq<KeyValuePairV>) -> Seq<char>
    decreases es.len(),
{
    if es.len() == 0 {
        Seq::<char>::empty()
    } else {
        render_kv(es[0]) + render_entries(es.drop_first())
    }
}

/// The rendering of a group: its decor lines, the header line `[name]`,
/// then its entries in order.
pub open spec fn render_group(g: GroupV) -> Seq<char> {
    join_lines(g.decor) + seq!['['] + g.name + seq![']'] + seq!['\n'] + render_entries(g.entries)
}

/// The renderings of a sequence of groups, concatenated in order.
pub open spec fn render_groups(gs: Seq<GroupV>) -> Seq<char>
    decreases gs.len(),
{
    if gs.len() == 0 {
        Seq::<char>::empty()
    } else {
        render_group(gs[0]) + render_groups(gs.drop_first())
    }
}

/// The rendering of a document: its groups in order, then its trailing
/// decor lines.
pub open spec fn render_keyfile(f: KeyFileV) -> Seq<char> {
    render_groups(f.groups) + join_lines(f.decor)
}

/// Rendering one more entry appends its rendering.
pub proof fn lemma_render_entries_push(es: Seq<KeyValuePairV>, kv: KeyValuePairV)
    ensures
        render_entries(es.push(kv)) == render_entries(es) + render_kv(kv),
    decreases es.len(),
{
    if es.len() == 0 {
        assert(es.push(kv) =~~= seq![kv]);
        assert(es.push(kv)[0] == kv);
        assert(es.push(kv).drop_first() =~~= Seq::<KeyValuePairV>::empty());
        assert(render_entries(es.push(kv).drop_first()) == Seq::<char>::empty());
        assert(render_entries(es.push(kv)) == render_kv(kv) + render_entries(
            es.push(kv).drop_first(),
        ));
        assert(render_entries(es.push(kv)) =~= render_entries(es) + render_kv(kv));
    } else {
        assert(es.push(kv)[0] == es[0]);
        assert(es.push(kv).drop_first() =~~= es.drop_first().push(kv));
        lemma_render_entries_push(es.drop_first(), kv);
        assert(render_entries(es.push(kv)) == render_kv(es[0]) + render_entries(
            es.push(kv).drop_first(),
        ));
        assert(render_entries(es.push(kv).drop_first()) == render_entries(es.drop_first())
            + render_kv(kv));
        assert(render_entries(es) == render_kv(es[0]) + render_entries(es.drop_first()));
        assert(render_entries(es.push(kv)) =~= render_entries(es) + render_kv(kv));
    }
}

/// Rendering one more group appends its rendering.
pub proof fn lemma_render_groups_push(gs: Seq<GroupV>, g: GroupV)
    ensures
        render_groups(gs.push(g)) == render_groups(gs) + render_group(g),
    decreases gs.len(),
{
    if gs.len() == 0 {
        assert(gs.push(g) =~~= seq![g]);
        assert(gs.push(g)[0] == g);
        assert(gs.push(g).drop_first() =~~= Seq::<GroupV>::empty());
        assert(render_groups(gs.push(g).drop_first()) == Seq::<char>::empty());
        assert(render_groups(gs.push(g)) == render_group(g) + render_groups(
            gs.push(g).drop_first(),
        ));
        assert(render_groups(gs.push(g)) =~= render_groups(gs) + render_group(g));
    } else {
        assert(gs.push(g)[0] == gs[0]);
        assert(gs.push(g).drop_first() =~~= gs.drop_first().push(g));
        lemma_render_groups_push(gs.drop_first(), g);
        assert(render_groups(gs.push(g)) == render_group(gs[0]) + render_groups(
            gs.push(g).drop_first(),
        ));
        assert(render_groups(gs.push(g).drop_first()) == render_groups(gs.drop_first())
            + render_group(g));
        assert(render_groups(gs) == render_group(gs[0]) + render_groups(gs.drop_first()));
        assert(render_groups(gs.push(g)) =~= render_groups(gs) + render_group(g));
    }
}

/// Concatenating two entry sequences concatenates their renderings.
proof fn lemma_render_entries_concat(a: Seq<KeyValuePairV>, b: Seq<KeyValuePairV>)
    ensures
        render_entries(a + b) == render_entries(a) + render_entries(b),
    decreases a.len(),
{
    if a.len() == 0 {
        assert(a + b =~~= b);
        assert(render_entries(a + b) =~= render_entries(a) + render_entries(b));
    } else {
        assert((a + b)[0] == a[0]);
        assert((a + b).drop_first() =~~= a.drop_first() + b);
        lemma_render_entries_concat(a.drop_first(), b);
        assert(render_entries(a + b) == render_kv(a[0]) + render_entries((a + b).drop_first()));
        assert(render_entries(a) == render_kv(a[0]) + render_entries(a.drop_first()));
        assert(render_entries(a + b) =~= render_entries(a) + render_entries(b));
    }
}

/// Concatenating two group sequences concatenates their renderings.
proof fn lemma_render_groups_concat(a: Seq<GroupV>, b: Seq<GroupV>)
    ensures
        render_groups(a + b) == render_groups(a) + render_groups(b),
    decreases a.len(),
{
    if a.len() == 0 {
        assert(a + b =~~= b);
        assert(render_groups(a + b) =~= render_groups(a) + render_groups(b));
    } else {
        assert((a + b)[0] == a[0]);
        assert((a + b).drop_first() =~~= a.drop_first() + b);
        lemma_render_groups_concat(a.drop_first(), b);
        assert(render_groups(a + b) == render_group(a[0]) + render_groups((a + b).drop_first()));
        assert(render_groups(a) == render_group(a[0]) + render_groups(a.drop_first()));
        assert(render_groups(a + b) =~= render_groups(a) + render_groups(b));
    }
}

/// In-place replacement law for entries: after replacing the entry at
/// position `i`, the rendering holds the new entry at that position,
/// between the unchanged renderings of the entries before and after it —
/// not at the end.
pub proof fn lemma_render_entries_update_in_place(es: Seq<KeyValuePairV>, i: int, kv: KeyValuePairV)
    requires
        0 <= i < es.len(),
    ensures
        render_entries(es.update(i, kv)) == render_entries(es.take(i)) + render_kv(kv)
            + render_entries(es.skip(i + 1)),
{
    assert(es.update(i, kv) =~~= es.take(i) + (seq![kv] + es.skip(i + 1)));
    lemma_render_entries_concat(es.take(i), seq![kv] + es.skip(i + 1));
    lemma_render_entries_concat(seq![kv], es.skip(i + 1));
    assert(seq![kv].drop_first() =~~= Seq::<KeyValuePairV>::empty());
    assert(render_entries(seq![kv]) == render_kv(seq![kv][0]) + render_entries(
        seq![kv].drop_first(),
    ));
    assert(seq![kv][0] == kv);
    assert(render_entries(seq![kv]) =~= render_kv(kv));
}

/// In-place removal law for entries: after removing the entry at position
/// `i`, the rendering is the unchanged rendering of the entries before it
/// followed by the unchanged rendering of the entries after it.
pub proof fn lemma_render_entries_remove_in_place(es: Seq<KeyValuePairV>, i: int)
    requires
        0 <= i < es.len(),
    ensures
        render_entries(es.remove(i)) == render_entries(es.take(i)) + render_entries(
            es.skip(i + 1),
        ),
{
    assert(es.remove(i) =~~= es.take(i) + es.skip(i + 1));
    lemma_render_entries_concat(es.take(i), es.skip(i + 1));
}

/// In-place replacement law for groups: after replacing the group at
/// position `i`, the rendering holds the new group at that position,
/// between the unchanged renderings of the groups before and after it —
/// not at the end.
pub proof fn lemma_render_groups_update_in_place(gs: Seq<GroupV>, i: int, g: GroupV)
    requires
        0 <= i < gs.len(),
    ensures
        render_groups(gs.update(i, g)) == render_groups(gs.take(i)) + render_group(g)
            + render_groups(gs.skip(i + 1)),
{
    assert(gs.update(i, g) =~~= gs.take(i) + (seq![g] + gs.skip(i + 1)));
    lemma_render_groups_concat(gs.take(i), seq![g] + gs.skip(i + 1));
    lemma_render_groups_concat(seq![g], gs.skip(i + 1));
    assert(seq![g].drop_first() =~~= Seq::<GroupV>::empty());
    assert(render_groups(seq![g]) == render_group(seq![g][0]) + render_groups(
        seq![g].drop_first(),
    ));
    assert(seq![g][0] == g);
    assert(render_groups(seq![g]) =~= render_group(g));
}

/// In-place removal law for groups: after removing the group at position
/// `i`, the rendering is the unchanged rendering of the groups before it
/// followed by the unchanged rendering of the groups after it.
pub proof fn lemma_render_groups_remove_in_place(gs: Seq<GroupV>, i: int)
    requires
        0 <= i < gs.len(),
    ensures
        render_groups(gs.remove(i)) == render_groups(gs.take(i)) + render_groups(gs.skip(i + 1)),
{
    assert(gs.remove(i) =~~= gs.take(i) + gs.skip(i + 1));
    lemma_render_groups_concat(gs.take(i), gs.skip(i + 1));
}

/// Append `decor` to `out`: every line followed by a line feed.
fn append_decor(out: &mut String, decor: &Vec<String>)
    ensures
        final(out)@ == old(out)@ + join_lines(decor.deep_view()),
{
    proof {
        reveal_strlit("\n");
        assert(decor.deep_view().take(0) =~~= Seq::<Seq<char>>::empty());
        assert(out@ + join_lines(decor.deep_view().take(0)) =~= out@);
    }
    let n = decor.len();
    let mut i: usize = 0;
    while i < n
        invariant
            i <= n,
            n == decor.len(),
            "\n"@ == seq!['\n'],
            out@ == old(out)@ + join_lines(decor.deep_view().take(i as int)),
        decreases n - i,
    {
        out.append(decor[i].as_str());
        out.append("\n");
        proof {
            let d = decor.deep_view();
            lemma_join_lines_push(d.take(i as int), d[i as int]);
            assert(d.take(i + 1) =~~= d.take(i as int).push(d[i as int]));
            assert(out@ =~= old(out)@ + join_lines(d.take(i + 1)));
        }
        i = i + 1;
    }
    proof {
        assert(decor.deep_view().take(n as int) =~~= decor.deep_view());
    }
}

/// One key-value pair ("entry"): a key, an optional locale marking a
/// translated value, a value, the whitespace on each side of the `=`
/// separator, and the comment and blank lines that precede the entry.
#[derive(Debug)]
pub struct KeyValuePair {
    pub(crate) key: String,
    pub(crate) locale: Option<Locale>,
    pub(crate) value: String,
    pub(crate) wsl: String,
    pub(crate) wsr: String,
    pub(crate) decor: Vec<String>,
}

impl View for KeyValuePair {
    type V = KeyValuePairV;

    closed spec fn view(&self) -> KeyValuePairV {
        KeyValuePairV {
            key: self.key@,
            locale: self.locale.deep_view(),
            value: self.value@,
            wsl: self.wsl@,
            wsr: self.wsr@,
            decor: self.decor.deep_view(),
        }
    }
}

impl KeyValuePair {
    /// Well-formedness: every field satisfies its character class. All
    /// constructors establish it and all methods preserve it.
    pub open spec fn wf(&self) -> bool {
        kv_wf(self@)
    }

    /// A plain entry: no locale, no decor, one space on each side of `=`.
    pub fn new(key: Key, value: Value) -> (r: Self)
        ensures
            r.wf(),
            r@ == (KeyValuePairV {
                key: key@,
                locale: None,
                value: value@,
                wsl: " "@,
                wsr: " "@,
                decor: Seq::<Seq<char>>::empty(),
            }),
    {
        proof {
            use_type_invariant(&key);
            use_type_invariant(&value);
            reveal_strlit(" ");
        }
        let r = KeyValuePair {
            key: key.into_string(),
            locale: None,
            value: value.into_string(),
            wsl: " ".to_owned(),
            wsr: " ".to_owned(),
            decor: Vec::new(),
        };
        proof {
            assert(r.decor.deep_view() =~= Seq::<Seq<char>>::empty());
            assert(valid_whitespace(" "@));
        }
        r
    }

    /// An entry with a translated value: like [`KeyValuePair::new`], with a
    /// locale.
    pub fn new_with_locale(key: Key, locale: Locale, value: Value) -> (r: Self)
        ensures
            r.wf(),
            r@ == (KeyValuePairV {
                key: key@,
                locale: Some(locale@),
                value: value@,
                wsl: " "@,
                wsr: " "@,
                decor: Seq::<Seq<char>>::empty(),
            }),
    {
        proof {
            use_type_invariant(&key);
            use_type_invariant(&locale);
            use_type_invariant(&value);
            reveal_strlit(" ");
        }
        let r = KeyValuePair {
            key: key.into_string(),
            locale: Some(locale),
            value: value.into_string(),
            wsl: " ".to_owned(),
            wsr: " ".to_owned(),
            decor: Vec::new(),
        };
        proof {
            assert(r.decor.deep_view() =~= Seq::<Seq<char>>::empty());
            assert(valid_whitespace(" "@));
        }
        r
    }

    /// An entry with every field set explicitly.
    pub fn from_fields(
        key: Key,
        locale: Option<Locale>,
        value: Value,
        wsl: Whitespace,
        wsr: Whitespace,
        decor: Decor,
    ) -> (r: Self)
        ensures
            r.wf(),
            r@ == (KeyValuePairV {
                key: key@,
                locale: locale.deep_view(),
                value: value@,
                wsl: wsl@,
                wsr: wsr@,
                decor: decor@,
            }),
    {
        proof {
            use_type_invariant(&key);
            if let Some(l) = &locale {
                use_type_invariant(l);
            }
            use_type_invariant(&value);
            use_type_invariant(&wsl);
            use_type_invariant(&wsr);
            use_type_invariant(&decor);
        }
        KeyValuePair {
            key: key.into_string(),
            locale,
            value: value.into_string(),
            wsl: wsl.into_string(),
            wsr: wsr.into_string(),
            decor: decor.into_vec(),
        }
    }

    /// Convert into an entry that borrows nothing. Every entry already owns
    /// its strings, so this returns the value unchanged.
    pub fn into_owned(self) -> (r: KeyValuePair)
        ensures
            r == self,
    {
        self
    }

    /// The key string.
    pub fn get_key(&self) -> (r: &str)
        ensures
            r@ == self@.key,
    {
        self.key.as_str()
    }

    /// Replace the key; the replaced string is returned.
    pub fn set_key(&mut self, key: Key) -> (r: String)
        requires
            old(self).wf(),
        ensures
            final(self).wf(),
            final(self)@ == (KeyValuePairV { key: key@, ..old(self)@ }),
            r@ == old(self)@.key,
    {
        proof {
            use_type_invariant(&key);
        }
        let prev = self.key.clone();
        self.key = key.into_string();
        prev
    }

    /// The locale, if any.
    pub fn get_locale(&self) -> (r: Option<&Locale>)
        ensures
            match self@.locale {
                Some(l) => r matches Some(x) && x@ == l,
                None => r is None,
            },
    {
        self.locale.as_ref()
    }

    /// Replace the locale; the replaced locale is returned.
    pub fn set_locale(&mut self, locale: Option<Locale>) -> (r: Option<Locale>)
        requires
            old(self).wf(),
        ensures
            final(self).wf(),
            final(self)@ == (KeyValuePairV { locale: locale.deep_view(), ..old(self)@ }),
            r.deep_view() == old(self)@.locale,
    {
        proof {
            if let Some(l) = &locale {
                use_type_invariant(l);
            }
        }
        let mut locale = locale;
        core::mem::swap(&mut self.locale, &mut locale);
        locale
    }

    /// The value string.
    pub fn get_value(&self) -> (r: &str)
        ensures
            r@ == self@.value,
    {
        self.value.as_str()
    }

    /// Replace the value; the replaced string is returned.
    pub fn set_value(&mut self, value: Value) -> (r: String)
        requires
            old(self).wf(),
        ensures
            final(self).wf(),
            final(self)@ == (KeyValuePairV { value: value@, ..old(self)@ }),
            r@ == old(self)@.value,
    {
        proof {
            use_type_invariant(&value);
        }
        let prev = self.value.clone();
        self.value = value.into_string();
        prev
    }

    /// The whitespace on each side of the `=` separator.
    pub fn get_whitespace(&self) -> (r: (&str, &str))
        ensures
            r.0@ == self@.wsl,
            r.1@ == self@.wsr,
    {
        (self.wsl.as_str(), self.wsr.as_str())
    }

    /// Replace the whitespace on each side of `=`; the replaced strings are
    /// returned.
    pub fn set_whitespace(&mut self, wsl: Whitespace, wsr: Whitespace) -> (r: (String, String))
        requires
            old(self).wf(),
        ensures
            final(self).wf(),
            final(self)@ == (KeyValuePairV { wsl: wsl@, wsr: wsr@, ..old(self)@ }),
            r.0@ == old(self)@.wsl,
            r.1@ == old(self)@.wsr,
    {
        proof {
            use_type_invariant(&wsl);
            use_type_invariant(&wsr);
        }
        let pl = self.wsl.clone();
        let pr = self.wsr.clone();
        self.wsl = wsl.into_string();
        self.wsr = wsr.into_string();
        (pl, pr)
    }

    /// The comment and blank lines preceding the entry.
    pub fn get_decor(&self) -> (r: &Vec<String>)
        ensures
            r.deep_view() == self@.decor,
    {
        &self.decor
    }

    /// Replace the decor lines; the replaced lines are returned.
    pub fn set_decor(&mut self, decor: Decor) -> (r: Vec<String>)
        requires
            old(self).wf(),
        ensures
            final(self).wf(),
            final(self)@ == (KeyValuePairV { decor: decor@, ..old(self)@ }),
            r.deep_view() == old(self)@.decor,
    {
        proof {
            use_type_invariant(&decor);
        }
        let mut lines = decor.into_vec();
        core::mem::swap(&mut self.decor, &mut lines);
        lines
    }

    /// Render the entry: its decor lines, then `key[locale]wsl=wsrvalue`
    /// and a line feed.
    pub fn render(&self) -> (r: String)
        ensures
            r@ == render_kv(self@),
    {
        proof {
            reveal_strlit("[");
            reveal_strlit("]");
            reveal_strlit("=");
            reveal_strlit("\n");
        }
        let mut out = String::new();
        append_decor(&mut out, &self.decor);
        out.append(self.key.as_str());
        if let Some(l) = &self.locale {
            let lr = l.render();
            out.append("[");
            out.append(lr.as_str());
            out.append("]");
        }
        out.append(self.wsl.as_str());
        out.append("=");
        out.append(self.wsr.as_str());
        out.append(self.value.as_str());
        out.append("\n");
        proof {
            assert("["@ =~= seq!['[']);
            assert("]"@ =~= seq![']']);
            assert("="@ =~= seq!['=']);
            assert("\n"@ =~= seq!['\n']);
            assert(out@ =~= render_kv(self@));
        }
        out
    }
}

/// Error returned when parsing an invalid KeyFile: a line that matches no
/// pattern of the format, a group header reusing the name of an earlier
/// group, or a key-value line reusing a compound key within its group.
#[derive(Debug)]
pub enum KeyFileError {
    /// A non-blank, non-comment line matched neither the header nor the
    /// key-value pattern, a key-value line appeared before any group header,
    /// or a key-value line carried a locale with an encoding component.
    InvalidLine { line: String, lineno: usize },
    /// A group header reused the name of a group that already exists; the
    /// line number is that of the second header.
    DuplicateGroup { name: String, lineno: usize },
    /// A key-value line reused a compound key already present in its group;
    /// the key is reported as `key` or `key[locale]`.
    DuplicateKey { key: String, lineno: usize },
}

/// The mathematical value of a [`KeyFileError`].
#[verifier::ext_equal]
pub ghost enum KeyFileErrorV {
    InvalidLine { line: Seq<char>, lineno: int },
    DuplicateGroup { name: Seq<char>, lineno: int },
    DuplicateKey { key: Seq<char>, lineno: int },
}

impl View for KeyFileError {
    type V = KeyFileErrorV;

    open spec fn view(&self) -> KeyFileErrorV {
        match self {
            KeyFileError::InvalidLine { line, lineno } => KeyFileErrorV::InvalidLine {
                line: line@,
                lineno: *lineno as int,
            },
            KeyFileError::DuplicateGroup { name, lineno } => KeyFileErrorV::DuplicateGroup {
                name: name@,
                lineno: *lineno as int,
            },
            KeyFileError::DuplicateKey { key, lineno } => KeyFileErrorV::DuplicateKey {
                key: key@,
                lineno: *lineno as int,
            },
        }
    }
}

impl KeyFileError {
    /// A line matching no pattern of the format.
    pub(crate) fn invalid_line(line: String, lineno: usize) -> (r: Self)
        ensures
            r@ == (KeyFileErrorV::InvalidLine { line: line@, lineno: lineno as int }),
    {
        KeyFileError::InvalidLine { line, lineno }
    }

    /// A header reusing an existing group name.
    pub(crate) fn duplicate_group(name: String, lineno: usize) -> (r: Self)
        ensures
            r@ == (KeyFileErrorV::DuplicateGroup { name: name@, lineno: lineno as int }),
    {
        KeyFileError::DuplicateGroup { name, lineno }
    }

    /// A key-value line reusing a compound key.
    pub(crate) fn duplicate_key(key: String, lineno: usize) -> (r: Self)
        ensures
            r@ == (KeyFileErrorV::DuplicateKey { key: key@, lineno: lineno as int }),
    {
        KeyFileError::DuplicateKey { key, lineno }
    }
}

/// The state of the parser between lines: the groups already finished, the
/// group whose entries are being collected, and the decor lines waiting to
/// be attached to whatever comes next.
#[verifier::ext_equal]
pub ghost struct ParseStateV {
    pub done: Seq<GroupV>,
    pub cur: Option<GroupV>,
    pub pending: Seq<Seq<char>>,
}

/// The groups of a parse state, the one under construction last.
pub open spec fn state_groups(st: ParseStateV) -> Seq<GroupV> {
    st.done + (match st.cur {
        Some(g) => seq![g],
        None => Seq::<GroupV>::empty(),
    })
}

/// The entry built from the fields of a key-value line and the decor lines
/// collected before it.
pub open spec fn kv_of_parts(p: KvPartsV, decor: Seq<Seq<char>>) -> KeyValuePairV {
    KeyValuePairV {
        key: p.key,
        locale: p.locale,
        value: p.value,
        wsl: p.wsl,
        wsr: p.wsr,
        decor,
    }
}

/// How a duplicate compound key is reported: `key` or `key[locale]`.
pub open spec fn dup_key_label(p: KvPartsV) -> Seq<char> {
    p.key + (match p.locale {
        Some(l) => seq!['['] + render_locale(l) + seq![']'],
        None => Seq::<char>::empty(),
    })
}

/// One step of the parser: how a single line transforms the parse state.
///
/// A blank or `#` line joins the pending decor. A header line finishes the
/// current group and opens a new one carrying the pending decor, unless its
/// name is already taken, which is a `DuplicateGroup` error. A key-value
/// line becomes an entry of the current group carrying the pending decor;
/// one before any header, one whose locale carries an encoding component,
/// and one matching no pattern at all are `InvalidLine` errors; one whose
/// compound key is already present in the current group is a `DuplicateKey`
/// error.
pub open spec fn spec_step(st: ParseStateV, line: Seq<char>, lineno: int) -> Result<
    ParseStateV,
    KeyFileErrorV,
> {
    if valid_decor_line(line) {
        Ok(ParseStateV { pending: st.pending.push(line), ..st })
    } else {
        match spec_header_name(line) {
            Some(name) => {
                if groups_have_name(st.done, name) || (st.cur matches Some(g) && g.name == name) {
                    Err(KeyFileErrorV::DuplicateGroup { name, lineno })
                } else {
                    Ok(
                        ParseStateV {
                            done: state_groups(st),
                            cur: Some(
                                GroupV {
                                    name,
                                    entries: Seq::<KeyValuePairV>::empty(),
                                    decor: st.pending,
                                },
                            ),
                            pending: Seq::<Seq<char>>::empty(),
                        },
                    )
                }
            },
            None => match spec_key_value_pair(line) {
                Some(p) => match st.cur {
                    None => Err(KeyFileErrorV::InvalidLine { line, lineno }),
                    Some(g) => {
                        if p.locale matches Some(l) && l.encoding is Some {
                            Err(KeyFileErrorV::InvalidLine { line, lineno })
                        } else if entries_have_key(g.entries, p.key, p.locale) {
                            Err(KeyFileErrorV::DuplicateKey { key: dup_key_label(p), lineno })
                        } else {
                            Ok(
                                ParseStateV {
                                    cur: Some(
                                        GroupV {
                                            entries: g.entries.push(kv_of_parts(p, st.pending)),
                                            ..g
                                        },
                                    ),
                                    pending: Seq::<Seq<char>>::empty(),
                                    ..st
                                },
                            )
                        }
                    },
                },
                None => Err(KeyFileErrorV::InvalidLine { line, lineno }),
            },
        }
    }
}

/// The parser folded over the lines from position `i` on: the document, or
/// the first error. At the end of the input the current group is finished
/// and the pending decor becomes the document's trailing decor.
pub open spec fn spec_parse_lines(lines: Seq<Seq<char>>, i: int, st: ParseStateV) -> Result<
    KeyFileV,
    KeyFileErrorV,
>
    recommends
        0 <= i <= lines.len(),
    decreases lines.len() - i,
{
    if i >= lines.len() {
        Ok(KeyFileV { groups: state_groups(st), decor: st.pending })
    } else {
        match spec_step(st, lines[i], i) {
            Ok(st2) => spec_parse_lines(lines, i + 1, st2),
            Err(e) => Err(e),
        }
    }
}

/// The initial parse state: nothing finished, no group open, no decor
/// pending.
pub open spec fn initial_state() -> ParseStateV {
    ParseStateV { done: Seq::<GroupV>::empty(), cur: None, pending: Seq::<Seq<char>>::empty() }
}

/// What parsing `s` yields: the document built line by line, or the first
/// error.
pub open spec fn spec_parse(s: Seq<char>) -> Result<KeyFileV, KeyFileErrorV> {
    spec_parse_lines(lines_of(s), 0, initial_state())
}

/// The rendering of a parse state: the finished groups, the group under
/// construction, and the pending decor lines, in that order.
pub open spec fn render_state(st: ParseStateV) -> Seq<char> {
    render_groups(st.done) + (match st.cur {
        Some(g) => render_group(g),
        None => Seq::<char>::empty(),
    }) + join_lines(st.pending)
}

/// Appending one group to a sequence appends its rendering.
proof fn lemma_render_groups_append_one(gs: Seq<GroupV>, g: GroupV)
    ensures
        render_groups(gs + seq![g]) == render_groups(gs) + render_group(g),
{
    assert(gs + seq![g] =~~= gs.push(g));
    lemma_render_groups_push(gs, g);
}

/// The rendering of the groups of a state: the finished groups, then the
/// one under construction.
proof fn lemma_render_state_groups(st: ParseStateV)
    ensures
        render_groups(state_groups(st)) == render_groups(st.done) + (match st.cur {
            Some(g) => render_group(g),
            None => Seq::<char>::empty(),
        }),
{
    match st.cur {
        Some(g) => {
            lemma_render_groups_append_one(st.done, g);
        },
        None => {
            assert(state_groups(st) =~~= st.done);
            assert(render_groups(state_groups(st)) =~= render_groups(st.done) + Seq::<
                char,
            >::empty());
        },
    }
}

/// One accepted line extends the rendering of the parse state by exactly
/// that line and its line feed.
#[verifier::rlimit(60)]
#[verifier::spinoff_prover]
proof fn lemma_step_render(st: ParseStateV, line: Seq<char>, lineno: int, st2: ParseStateV)
    requires
        spec_step(st, line, lineno) == Ok::<ParseStateV, KeyFileErrorV>(st2),
    ensures
        render_state(st2) == render_state(st) + line + seq!['\n'],
{
    if valid_decor_line(line) {
        lemma_join_lines_push(st.pending, line);
        assert(render_state(st2) =~= render_state(st) + line + seq!['\n']);
    } else {
        match spec_header_name(line) {
            Some(name) => {
                crate::parse::lemma_header_reassemble(line, name);
                lemma_render_state_groups(st);
                let g2 = st2.cur.unwrap();
                assert(render_entries(g2.entries) == Seq::<char>::empty());
                assert(render_group(g2) == join_lines(st.pending) + seq!['['] + name + seq![']']
                    + seq!['\n'] + Seq::<char>::empty());
                assert(join_lines(st2.pending) == Seq::<char>::empty());
                assert(render_state(st2) =~= render_state(st) + line + seq!['\n']);
            },
            None => {
                let p = spec_key_value_pair(line).unwrap();
                let g = st.cur.unwrap();
                let kvp = kv_of_parts(p, st.pending);
                let g2 = st2.cur.unwrap();
                lemma_render_entries_push(g.entries, kvp);
                crate::parse::lemma_kv_reassemble(line, p);
                match p.locale {
                    Some(l) => {
                        assert(l.encoding is None);
                        assert(crate::types::render_locale_full(l) =~= render_locale(l));
                    },
                    None => {},
                }
                assert(render_kv(kvp) =~= join_lines(st.pending) + line + seq!['\n']);
                assert(render_group(g2) == join_lines(g.decor) + seq!['['] + g.name + seq![']']
                    + seq!['\n'] + render_entries(g.entries.push(kvp)));
                assert(join_lines(st2.pending) == Seq::<char>::empty());
                assert(render_state(st2) =~= render_state(st) + line + seq!['\n']);
            },
        }
    }
}

/// The document parsed from the lines at and after `i` renders to the
/// current state's rendering followed by those lines.
proof fn lemma_parse_lines_render(lines: Seq<Seq<char>>, i: int, st: ParseStateV, v: KeyFileV)
    requires
        0 <= i <= lines.len(),
        spec_parse_lines(lines, i, st) == Ok::<KeyFileV, KeyFileErrorV>(v),
    ensures
        render_keyfile(v) == render_state(st) + join_lines(lines.skip(i)),
    decreases lines.len() - i,
{
    if i >= lines.len() {
        lemma_render_state_groups(st);
        assert(lines.skip(i) =~~= Seq::<Seq<char>>::empty());
        assert(render_keyfile(v) =~= render_state(st) + join_lines(lines.skip(i)));
    } else {
        let st2 = spec_step(st, lines[i], i)->Ok_0;
        lemma_step_render(st, lines[i], i, st2);
        lemma_parse_lines_render(lines, i + 1, st2, v);
        assert(lines.skip(i).len() > 0);
        assert(lines.skip(i)[0] == lines[i]);
        assert(lines.skip(i).drop_first() =~~= lines.skip(i + 1));
        assert(join_lines(lines.skip(i)) == lines.skip(i)[0] + seq!['\n'] + join_lines(
            lines.skip(i).drop_first(),
        ));
        assert(render_keyfile(v) =~= render_state(st) + join_lines(lines.skip(i)));
    }
}

/// Round-trip law: a document parsed from an input that is empty or ends
/// with a line feed renders back to exactly that input.
///
/// An input whose final line lacks a terminating line feed parses, but its
/// rendering appends the missing line feed, so such inputs are excluded.
pub proof fn lemma_parse_round_trip(s: Seq<char>, v: KeyFileV)
    requires
        s.len() == 0 || s[s.len() - 1] == '\n',
        spec_parse(s) == Ok::<KeyFileV, KeyFileErrorV>(v),
    ensures
        render_keyfile(v) == s,
{
    lemma_parse_lines_render(lines_of(s), 0, initial_state(), v);
    crate::lines::lemma_join_lines_of(s);
    assert(lines_of(s).skip(0) =~~= lines_of(s));
    assert(render_groups(Seq::<GroupV>::empty()) == Seq::<char>::empty());
    assert(join_lines(Seq::<Seq<char>>::empty()) == Seq::<char>::empty());
    assert(render_state(initial_state()) =~= Seq::<char>::empty());
    assert(render_keyfile(v) =~= s);
}

/// The names of the groups of a parse state.
pub open spec fn state_has_name(st: ParseStateV, name: Seq<char>) -> bool {
    groups_have_name(state_groups(st), name)
}

/// Names already taken stay taken across every accepted line.
proof fn lemma_step_keeps_names(
    st: ParseStateV,
    line: Seq<char>,
    lineno: int,
    st2: ParseStateV,
    name: Seq<char>,
)
    requires
        spec_step(st, line, lineno) == Ok::<ParseStateV, KeyFileErrorV>(st2),
        state_has_name(st, name),
    ensures
        state_has_name(st2, name),
{
    let j = choose|j: int|
        0 <= j < state_groups(st).len() && (#[trigger] state_groups(st)[j]).name == name;
    if valid_decor_line(line) {
        assert(state_groups(st2) =~~= state_groups(st));
        assert(state_groups(st2)[j].name == name);
    } else {
        match spec_header_name(line) {
            Some(n) => {
                assert(state_groups(st2)[j].name == name);
            },
            None => {
                let g = st.cur.unwrap();
                if j < st.done.len() {
                    assert(state_groups(st2)[j].name == name);
                } else {
                    assert(state_groups(st)[j] == g);
                    let k = state_groups(st2).len() - 1;
                    assert(state_groups(st2)[k].name == name);
                }
            },
        }
    }
}

/// Duplicate-header law: if two different lines of the input are group
/// headers with the same name, parsing does not succeed.
pub proof fn lemma_duplicate_header_fails(s: Seq<char>, a: int, b: int, name: Seq<char>)
    requires
        0 <= a < b < lines_of(s).len(),
        spec_header_name(lines_of(s)[a]) == Some(name),
        spec_header_name(lines_of(s)[b]) == Some(name),
    ensures
        !(spec_parse(s) is Ok),
{
    lemma_two_headers(lines_of(s), 0, initial_state(), a, b, name);
}

/// A parse that still has two same-named headers ahead of it cannot
/// succeed.
proof fn lemma_two_headers(
    lines: Seq<Seq<char>>,
    i: int,
    st: ParseStateV,
    a: int,
    b: int,
    name: Seq<char>,
)
    requires
        0 <= i <= a < b < lines.len(),
        spec_header_name(lines[a]) == Some(name),
        spec_header_name(lines[b]) == Some(name),
    ensures
        !(spec_parse_lines(lines, i, st) is Ok),
    decreases a - i,
{
    match spec_step(st, lines[i], i) {
        Err(e) => {},
        Ok(st2) => {
            if i == a {
                assert(!valid_decor_line(lines[a]));
                assert(state_has_name(st2, name)) by {
                    let gs2 = state_groups(st2);
                    assert(gs2[gs2.len() - 1].name == name);
                }
                lemma_header_taken(lines, a + 1, st2, b, name);
            } else {
                lemma_two_headers(lines, i + 1, st2, a, b, name);
            }
        },
    }
}

/// A parse whose state already holds a group name that a later header line
/// reuses cannot succeed.
proof fn lemma_header_taken(
    lines: Seq<Seq<char>>,
    i: int,
    st: ParseStateV,
    b: int,
    name: Seq<char>,
)
    requires
        0 <= i <= b < lines.len(),
        state_has_name(st, name),
        spec_header_name(lines[b]) == Some(name),
    ensures
        !(spec_parse_lines(lines, i, st) is Ok),
    decreases b - i,
{
    if i == b {
        assert(!valid_decor_line(lines[b]));
        let j = choose|j: int|
            0 <= j < state_groups(st).len() && (#[trigger] state_groups(st)[j]).name == name;
        if j < st.done.len() {
            assert(groups_have_name(st.done, name));
        } else {
            assert(st.cur matches Some(g) && g.name == name);
        }
        assert(spec_step(st, lines[b], b) is Err);
    } else {
        match spec_step(st, lines[i], i) {
            Err(e) => {},
            Ok(st2) => {
                lemma_step_keeps_names(st, lines[i], i, st2, name);
                lemma_header_taken(lines, i + 1, st2, b, name);
            },
        }
    }
}

/// Uniqueness law: a successfully parsed document has pairwise distinct
/// group names, and within every group pairwise distinct compound
/// `(key, locale)` keys.
pub proof fn lemma_parse_unique(s: Seq<char>, v: KeyFileV)
    requires
        spec_parse(s) == Ok::<KeyFileV, KeyFileErrorV>(v),
    ensures
        forall|i: int, j: int|
            0 <= i < j < v.groups.len() ==> v.groups[i].name != v.groups[j].name,
        forall|gi: int, i: int, j: int|
            #![trigger v.groups[gi].entries[i], v.groups[gi].entries[j]]
            0 <= gi < v.groups.len() && 0 <= i < j < v.groups[gi].entries.len() ==> !kv_same_key(
                v.groups[gi].entries[i],
                v.groups[gi].entries[j],
            ),
{
    lemma_parse_lines_unique(lines_of(s), 0, initial_state(), v);
}

/// Uniqueness of names and compound keys in a parse state.
spec fn state_unique(st: ParseStateV) -> bool {
    let gs = state_groups(st);
    &&& (forall|i: int, j: int| 0 <= i < j < gs.len() ==> gs[i].name != gs[j].name)
    &&& (forall|gi: int, i: int, j: int|
        #![trigger gs[gi].entries[i], gs[gi].entries[j]]
        0 <= gi < gs.len() && 0 <= i < j < gs[gi].entries.len() ==> !kv_same_key(
            gs[gi].entries[i],
            gs[gi].entries[j],
        ))
}

/// Every accepted line preserves uniqueness of names and compound keys.
proof fn lemma_step_unique(st: ParseStateV, line: Seq<char>, lineno: int, st2: ParseStateV)
    requires
        spec_step(st, line, lineno) == Ok::<ParseStateV, KeyFileErrorV>(st2),
        state_unique(st),
    ensures
        state_unique(st2),
{
    let gs = state_groups(st);
    let gs2 = state_groups(st2);
    if valid_decor_line(line) {
        assert(gs2 =~~= gs);
    } else {
        match spec_header_name(line) {
            Some(name) => {
                assert(gs2 =~~= gs.push(GroupV {
                    name,
                    entries: Seq::<KeyValuePairV>::empty(),
                    decor: st.pending,
                }));
                assert forall|i: int, j: int|
                    0 <= i < j < gs2.len() implies gs2[i].name != gs2[j].name by {
                    if j < gs.len() {
                        assert(gs2[i] == gs[i] && gs2[j] == gs[j]);
                    } else {
                        assert(gs2[i] == gs[i]);
                        if gs2[i].name == name {
                            if i < st.done.len() {
                                assert(groups_have_name(st.done, name));
                            } else {
                                assert(st.cur matches Some(g) && g.name == name);
                            }
                            assert(false);
                        }
                    }
                }
                assert forall|gi: int, i: int, j: int|
                    #![trigger gs2[gi].entries[i], gs2[gi].entries[j]]
                    0 <= gi < gs2.len() && 0 <= i < j < gs2[gi].entries.len() implies !kv_same_key(
                        gs2[gi].entries[i],
                        gs2[gi].entries[j],
                    ) by {
                    if gi < gs.len() {
                        assert(gs2[gi] == gs[gi]);
                    }
                }
            },
            None => {
                let p = spec_key_value_pair(line).unwrap();
                let g = st.cur.unwrap();
                let kvp = kv_of_parts(p, st.pending);
                let g2 = st2.cur.unwrap();
                let last = gs.len() - 1;
                assert(gs[last] == g);
                assert(gs2 =~~= gs.update(last, g2));
                assert forall|i: int, j: int|
                    0 <= i < j < gs2.len() implies gs2[i].name != gs2[j].name by {
                    assert(gs2[i].name == gs[i].name);
                    assert(gs2[j].name == gs[j].name);
                }
                assert forall|gi: int, i: int, j: int|
                    #![trigger gs2[gi].entries[i], gs2[gi].entries[j]]
                    0 <= gi < gs2.len() && 0 <= i < j < gs2[gi].entries.len() implies !kv_same_key(
                        gs2[gi].entries[i],
                        gs2[gi].entries[j],
                    ) by {
                    if gi < last {
                        assert(gs2[gi] == gs[gi]);
                    } else {
                        assert(gs2[gi] == g2);
                        assert(g2.entries == g.entries.push(kvp));
                        if j < g.entries.len() {
                            assert(g2.entries[i] == g.entries[i]);
                            assert(g2.entries[j] == g.entries[j]);
                            assert(gs[last].entries[i] == g.entries[i]);
                            assert(!kv_same_key(g.entries[i], g.entries[j]));
                        } else {
                            assert(g2.entries[j] == kvp);
                            assert(g2.entries[i] == g.entries[i]);
                            if kv_same_key(g.entries[i], kvp) {
                                assert(entries_have_key(g.entries, p.key, p.locale));
                            }
                        }
                    }
                }
            },
        }
    }
}

/// Uniqueness carried through the whole parse.
proof fn lemma_parse_lines_unique(lines: Seq<Seq<char>>, i: int, st: ParseStateV, v: KeyFileV)
    requires
        0 <= i <= lines.len(),
        spec_parse_lines(lines, i, st) == Ok::<KeyFileV, KeyFileErrorV>(v),
        state_unique(st),
    ensures
        forall|a: int, b: int|
            0 <= a < b < v.groups.len() ==> v.groups[a].name != v.groups[b].name,
        forall|gi: int, a: int, b: int|
            #![trigger v.groups[gi].entries[a], v.groups[gi].entries[b]]
            0 <= gi < v.groups.len() && 0 <= a < b < v.groups[gi].entries.len() ==> !kv_same_key(
                v.groups[gi].entries[a],
                v.groups[gi].entries[b],
            ),
    decreases lines.len() - i,
{
    if i >= lines.len() {
        assert(v.groups == state_groups(st));
    } else {
        let st2 = spec_step(st, lines[i], i)->Ok_0;
        lemma_step_unique(st, lines[i], i, st2);
        lemma_parse_lines_unique(lines, i + 1, st2, v);
    }
}

/// The view of the parser's executable state.
spec fn parse_state_view(
    groups: IndexMap<String, Group>,
    cur: Option<Group>,
    pending: Vec<String>,
) -> ParseStateV {
    ParseStateV {
        done: Seq::new(group_map_seq(groups).len(), |i: int| group_map_seq(groups)[i].1@),
        cur: match cur {
            Some(g) => Some(g@),
            None => None,
        },
        pending: pending.deep_view(),
    }
}

/// Well-formedness of the parser's executable state: the finished groups
/// are well-formed, coupled to their map keys, and pairwise distinct, and
/// the group under construction is well-formed with a fresh name.
spec fn parse_state_wf(groups: IndexMap<String, Group>, cur: Option<Group>) -> bool {
    let s = group_map_seq(groups);
    &&& (forall|i: int| 0 <= i < s.len() ==> (#[trigger] s[i]).1.wf())
    &&& (forall|i: int| 0 <= i < s.len() ==> (#[trigger] s[i]).0@ == s[i].1@.name)
    &&& (forall|i: int, j: int| 0 <= i < j < s.len() ==> s[i].1@.name != s[j].1@.name)
    &&& (cur matches Some(g) ==> g.wf() && (forall|i: int|
        0 <= i < s.len() ==> (#[trigger] s[i]).1@.name != g@.name))
}

/// A named group of key-value pairs: a header line `[name]`, the entries
/// under it in insertion order, and the comment and blank lines preceding
/// the header.
#[derive(Debug)]
pub struct Group {
    pub(crate) name: String,
    pub(crate) entries: IndexMap<EntryKey, KeyValuePair>,
    pub(crate) decor: Vec<String>,
}

impl View for Group {
    type V = GroupV;

    closed spec fn view(&self) -> GroupV {
        GroupV {
            name: self.name@,
            entries: Seq::new(
                entry_map_seq(self.entries).len(),
                |i: int| entry_map_seq(self.entries)[i].1@,
            ),
            decor: self.decor.deep_view(),
        }
    }
}

impl Group {
    /// Well-formedness: the view is well-formed and each map key equals the
    /// compound key of the pair stored under it. All constructors establish
    /// it and all methods preserve it.
    pub closed spec fn wf(&self) -> bool {
        &&& group_v_wf(self@)
        &&& (forall|i: int|
            0 <= i < entry_map_seq(self.entries).len() ==> ekey_view(
                (#[trigger] entry_map_seq(self.entries)[i]).0,
            ) == (entry_map_seq(self.entries)[i].1@.key, entry_map_seq(self.entries)[i].1@.locale))
    }

    /// A new, empty group with the given name.
    pub fn new(name: GroupName) -> (r: Self)
        ensures
            r.wf(),
            r@ == (GroupV {
                name: name@,
                entries: Seq::<KeyValuePairV>::empty(),
                decor: Seq::<Seq<char>>::empty(),
            }),
    {
        proof {
            use_type_invariant(&name);
        }
        let r = Group { name: name.into_string(), entries: em_new(), decor: Vec::new() };
        proof {
            assert(r.decor.deep_view() =~= Seq::<Seq<char>>::empty());
            assert(r@.entries =~= Seq::<KeyValuePairV>::empty());
        }
        r
    }

    /// A group assembled by the parser from a name, a finished entry map,
    /// and the decor collected before its header.
    pub(crate) fn from_entries(
        name: GroupName,
        entries: IndexMap<EntryKey, KeyValuePair>,
        decor: Decor,
    ) -> (r: Self)
        requires
            entry_map_wf(entries),
        ensures
            r.wf(),
            r@ == (GroupV {
                name: name@,
                entries: Seq::new(
                    entry_map_seq(entries).len(),
                    |i: int| entry_map_seq(entries)[i].1@,
                ),
                decor: decor@,
            }),
    {
        proof {
            use_type_invariant(&name);
            use_type_invariant(&decor);
        }
        Group { name: name.into_string(), entries, decor: decor.into_vec() }
    }

    /// The group's name.
    pub fn get_name(&self) -> (r: &str)
        ensures
            r@ == self@.name,
    {
        self.name.as_str()
    }

    /// The comment and blank lines preceding the group's header.
    pub fn get_decor(&self) -> (r: &Vec<String>)
        ensures
            r.deep_view() == self@.decor,
    {
        &self.decor
    }

    /// Convert into a group that borrows nothing. Every group already owns
    /// its strings, so this returns the value unchanged.
    pub fn into_owned(self) -> (r: Group)
        ensures
            r == self,
    {
        self
    }

    /// The number of entries.
    pub fn len(&self) -> (r: usize)
        ensures
            r == self@.entries.len(),
    {
        em_len(&self.entries)
    }

    /// The entry at a position, in order.
    pub fn get_index(&self, i: usize) -> (r: Option<&KeyValuePair>)
        ensures
            match r {
                Some(kv) => i < self@.entries.len() && kv@ == self@.entries[i as int],
                None => i >= self@.entries.len(),
            },
    {
        match em_get_index(&self.entries, i) {
            Some(p) => Some(p.1),
            None => None,
        }
    }

    /// The entry under the compound key `(key, locale)`, if any.
    pub fn get(&self, key: &str, locale: Option<Locale>) -> (r: Option<&KeyValuePair>)
        requires
            self.wf(),
        ensures
            match r {
                Some(kv) => exists|i: int|
                    0 <= i < self@.entries.len() && (#[trigger] self@.entries[i]).key == key@
                        && self@.entries[i].locale == locale.deep_view() && kv@
                        == self@.entries[i],
                None => !entries_have_key(self@.entries, key@, locale.deep_view()),
            },
    {
        let k: EntryKey = (key.to_owned(), locale);
        let r = em_get(&self.entries, &k);
        proof {
            let s = entry_map_seq(self.entries);
            match r {
                Some(kv) => {
                    let i = choose|i: int|
                        0 <= i < s.len() && ekey_view(#[trigger] s[i].0) == ekey_view(k) && *kv
                            == s[i].1;
                    assert(self@.entries[i] == s[i].1@);
                },
                None => {
                    if entries_have_key(self@.entries, key@, locale.deep_view()) {
                        let i = choose|i: int|
                            0 <= i < self@.entries.len() && (#[trigger] self@.entries[i]).key
                                == key@ && self@.entries[i].locale == locale.deep_view();
                        assert(ekey_view(s[i].0) == (key@, locale.deep_view()));
                        assert(em_has(s, k.0@, k.1.deep_view()));
                    }
                },
            }
        }
        r
    }

    /// Insert an entry under its compound key `(key, locale)`.
    ///
    /// If an entry with the same compound key exists, it keeps its position
    /// and only its value is replaced; the replaced entry is returned. A new
    /// compound key is appended as the last entry.
    pub fn insert(&mut self, kv: KeyValuePair) -> (r: Option<KeyValuePair>)
        requires
            old(self).wf(),
            kv.wf(),
        ensures
            final(self).wf(),
            final(self)@.name == old(self)@.name,
            final(self)@.decor == old(self)@.decor,
            if entries_have_key(old(self)@.entries, kv@.key, kv@.locale) {
                exists|i: int|
                    0 <= i < old(self)@.entries.len()
                        && kv_same_key(#[trigger] old(self)@.entries[i], kv@)
                        && final(self)@.entries == old(self)@.entries.update(i, kv@)
                        && (r matches Some(p) && p@ == old(self)@.entries[i])
            } else {
                final(self)@.entries == old(self)@.entries.push(kv@) && r is None
            },
    {
        let key_clone = kv.key.clone();
        let locale_clone = match &kv.locale {
            Some(l) => Some(l.clone()),
            None => None,
        };
        let ghost old_s = entry_map_seq(self.entries);
        let ghost old_view = self@;
        let k: EntryKey = (key_clone, locale_clone);
        proof {
            assert(ekey_view(k) == (kv@.key, kv@.locale));
            assert(em_has(old_s, k.0@, k.1.deep_view()) == entries_have_key(
                old_view.entries,
                kv@.key,
                kv@.locale,
            )) by {
                if em_has(old_s, k.0@, k.1.deep_view()) {
                    let i = choose|i: int|
                        0 <= i < old_s.len() && ekey_view(#[trigger] old_s[i].0) == (
                        k.0@,
                        k.1.deep_view(),
                        );
                    assert(old_view.entries[i].key == kv@.key && old_view.entries[i].locale
                        == kv@.locale);
                }
                if entries_have_key(old_view.entries, kv@.key, kv@.locale) {
                    let i = choose|i: int|
                        0 <= i < old_view.entries.len() && (#[trigger] old_view.entries[i]).key
                            == kv@.key && old_view.entries[i].locale == kv@.locale;
                    assert(ekey_view(old_s[i].0) == (k.0@, k.1.deep_view()));
                }
            }
        }
        let ghost kv_view = kv@;
        let r = em_insert(&mut self.entries, k, kv);
        proof {
            let s = entry_map_seq(self.entries);
            let es = self@.entries;
            if em_has(old_s, k.0@, k.1.deep_view()) {
                let i = choose|i: int|
                    0 <= i < old_s.len() && ekey_view(#[trigger] old_s[i].0) == ekey_view(k) && s
                        == old_s.update(i, (old_s[i].0, kv)) && r == Some(old_s[i].1);
                assert(self@.entries =~~= old_view.entries.update(i, kv_view));
                assert(kv_same_key(old_view.entries[i], kv_view));
                assert forall|j: int| 0 <= j < s.len() implies ekey_view((#[trigger] s[j]).0) == (
                    s[j].1@.key,
                    s[j].1@.locale,
                ) by {
                    if j != i {
                        assert(s[j] == old_s[j]);
                    }
                }
                assert forall|j: int| 0 <= j < es.len() implies kv_wf(#[trigger] es[j]) by {
                    if j != i {
                        assert(es[j] == old_view.entries[j]);
                    }
                }
                assert forall|a: int, b: int| 0 <= a < b < es.len() implies !kv_same_key(
                    es[a],
                    es[b],
                ) by {
                    assert(!kv_same_key(old_view.entries[a], old_view.entries[b]));
                    assert(es[a].key == old_view.entries[a].key && es[a].locale
                        == old_view.entries[a].locale);
                    assert(es[b].key == old_view.entries[b].key && es[b].locale
                        == old_view.entries[b].locale);
                }
            } else {
                assert(self@.entries =~~= old_view.entries.push(kv_view));
                assert forall|j: int| 0 <= j < s.len() implies ekey_view((#[trigger] s[j]).0) == (
                    s[j].1@.key,
                    s[j].1@.locale,
                ) by {
                    if j < old_s.len() {
                        assert(s[j] == old_s[j]);
                    } else {
                        assert(s[j] == (k, kv));
                    }
                }
                assert forall|j: int| 0 <= j < es.len() implies kv_wf(#[trigger] es[j]) by {
                    if j < old_view.entries.len() {
                        assert(es[j] == old_view.entries[j]);
                    }
                }
                assert forall|a: int, b: int| 0 <= a < b < es.len() implies !kv_same_key(
                    es[a],
                    es[b],
                ) by {
                    if b < old_view.entries.len() {
                        assert(!kv_same_key(old_view.entries[a], old_view.entries[b]));
                    } else {
                        assert(es[b] == kv_view);
                        assert(es[a] == old_view.entries[a]);
                        if kv_same_key(es[a], es[b]) {
                            assert(entries_have_key(old_view.entries, kv_view.key, kv_view.locale));
                        }
                    }
                }
            }
        }
        r
    }

    /// Remove the entry under the compound key `(key, locale)`, if any.
    ///
    /// The entries that follow it shift down by one position, so the order
    /// of the remaining entries is preserved.
    pub fn remove(&mut self, key: &str, locale: Option<Locale>) -> (r: Option<KeyValuePair>)
        requires
            old(self).wf(),
        ensures
            final(self).wf(),
            final(self)@.name == old(self)@.name,
            final(self)@.decor == old(self)@.decor,
            if entries_have_key(old(self)@.entries, key@, locale.deep_view()) {
                exists|i: int|
                    0 <= i < old(self)@.entries.len() && (#[trigger] old(self)@.entries[i]).key
                        == key@ && old(self)@.entries[i].locale == locale.deep_view()
                        && final(self)@.entries == old(self)@.entries.remove(i)
                        && (r matches Some(p) && p@ == old(self)@.entries[i])
            } else {
                final(self)@ == old(self)@ && r is None
            },
    {
        let ghost old_s = entry_map_seq(self.entries);
        let ghost old_view = self@;
        let k: EntryKey = (key.to_owned(), locale);
        proof {
            assert(em_has(old_s, k.0@, k.1.deep_view()) == entries_have_key(
                old_view.entries,
                key@,
                k.1.deep_view(),
            )) by {
                if em_has(old_s, k.0@, k.1.deep_view()) {
                    let i = choose|i: int|
                        0 <= i < old_s.len() && ekey_view(#[trigger] old_s[i].0) == (
                        k.0@,
                        k.1.deep_view(),
                        );
                    assert(old_view.entries[i].key == key@ && old_view.entries[i].locale
                        == k.1.deep_view());
                }
                if entries_have_key(old_view.entries, key@, k.1.deep_view()) {
                    let i = choose|i: int|
                        0 <= i < old_view.entries.len() && (#[trigger] old_view.entries[i]).key
                            == key@ && old_view.entries[i].locale == k.1.deep_view();
                    assert(ekey_view(old_s[i].0) == (k.0@, k.1.deep_view()));
                }
            }
        }
        let r = em_shift_remove(&mut self.entries, &k);
        proof {
            let s = entry_map_seq(self.entries);
            let es = self@.entries;
            if em_has(old_s, k.0@, k.1.deep_view()) {
                let i = choose|i: int|
                    0 <= i < old_s.len() && ekey_view(#[trigger] old_s[i].0) == ekey_view(k) && s
                        == old_s.remove(i) && r == Some(old_s[i].1);
                assert(self@.entries =~~= old_view.entries.remove(i));
                assert(old_view.entries[i].key == key@ && old_view.entries[i].locale
                    == locale.deep_view());
                assert forall|j: int| 0 <= j < s.len() implies ekey_view((#[trigger] s[j]).0) == (
                    s[j].1@.key,
                    s[j].1@.locale,
                ) by {
                    if j < i {
                        assert(s[j] == old_s[j]);
                    } else {
                        assert(s[j] == old_s[j + 1]);
                    }
                }
                assert forall|j: int| 0 <= j < es.len() implies kv_wf(#[trigger] es[j]) by {
                    if j < i {
                        assert(es[j] == old_view.entries[j]);
                    } else {
                        assert(es[j] == old_view.entries[j + 1]);
                    }
                }
                assert forall|a: int, b: int| 0 <= a < b < es.len() implies !kv_same_key(
                    es[a],
                    es[b],
                ) by {
                    let oa: int = if a < i { a } else { a + 1 };
                    let ob: int = if b < i { b } else { b + 1 };
                    assert(es[a] == old_view.entries[oa]);
                    assert(es[b] == old_view.entries[ob]);
                    assert(!kv_same_key(old_view.entries[oa], old_view.entries[ob]));
                }
            } else {
                assert(self@ =~~= old_view);
            }
        }
        r
    }

    /// Render the group: its decor lines, the header line `[name]`, then
    /// its entries in order.
    pub fn render(&self) -> (r: String)
        ensures
            r@ == render_group(self@),
    {
        proof {
            reveal_strlit("[");
            reveal_strlit("]");
            reveal_strlit("\n");
        }
        let mut out = String::new();
        append_decor(&mut out, &self.decor);
        out.append("[");
        out.append(self.name.as_str());
        out.append("]");
        out.append("\n");
        let ghost header = out@;
        proof {
            assert(self@.entries.take(0) =~~= Seq::<KeyValuePairV>::empty());
            assert(out@ =~= header + render_entries(self@.entries.take(0)));
        }
        let n = em_len(&self.entries);
        let mut i: usize = 0;
        while i < n
            invariant
                i <= n,
                n == self@.entries.len(),
                out@ == header + render_entries(self@.entries.take(i as int)),
            decreases n - i,
        {
            let kv = match em_get_index(&self.entries, i) {
                Some(p) => p.1,
                None => unreached(),
            };
            let kvr = kv.render();
            out.append(kvr.as_str());
            proof {
                let es = self@.entries;
                lemma_render_entries_push(es.take(i as int), es[i as int]);
                assert(es.take(i + 1) =~~= es.take(i as int).push(es[i as int]));
                assert(out@ =~= header + render_entries(es.take(i + 1)));
            }
            i = i + 1;
        }
        proof {
            assert(self@.entries.take(n as int) =~~= self@.entries);
            assert("["@ =~= seq!['[']);
            assert("]"@ =~= seq![']']);
            assert("\n"@ =~= seq!['\n']);
            assert(header =~= join_lines(self@.decor) + seq!['['] + self@.name + seq![']'] + seq![
                '\n',
            ]);
            assert(out@ =~= render_group(self@));
        }
        out
    }
}

/// Well-formedness of a raw entry map: every stored pair is well-formed,
/// every map key equals the compound key of the pair stored under it, and
/// no two pairs share a compound key.
pub(crate) open spec fn entry_map_wf(m: IndexMap<EntryKey, KeyValuePair>) -> bool {
    let s = entry_map_seq(m);
    &&& (forall|i: int| 0 <= i < s.len() ==> kv_wf((#[trigger] s[i]).1@))
    &&& (forall|i: int|
        0 <= i < s.len() ==> ekey_view((#[trigger] s[i]).0) == (s[i].1@.key, s[i].1@.locale))
    &&& (forall|i: int, j: int|
        0 <= i < j < s.len() ==> !kv_same_key(s[i].1@, s[j].1@))
}

/// The top-level document: named groups in order, and the trailing comment
/// and blank lines that follow the last entry.
#[derive(Debug)]
pub struct KeyFile {
    pub(crate) groups: IndexMap<String, Group>,
    pub(crate) decor: Vec<String>,
}

impl View for KeyFile {
    type V = KeyFileV;

    closed spec fn view(&self) -> KeyFileV {
        KeyFileV {
            groups: Seq::new(
                group_map_seq(self.groups).len(),
                |i: int| group_map_seq(self.groups)[i].1@,
            ),
            decor: self.decor.deep_view(),
        }
    }
}

impl KeyFile {
    /// Well-formedness: the view is well-formed, each group under the map is
    /// well-formed, and each map key equals the name of the group stored
    /// under it. All constructors establish it and all methods preserve it.
    pub closed spec fn wf(&self) -> bool {
        &&& keyfile_v_wf(self@)
        &&& (forall|i: int|
            0 <= i < group_map_seq(self.groups).len() ==> (#[trigger] group_map_seq(
                self.groups,
            )[i]).1.wf())
        &&& (forall|i: int|
            0 <= i < group_map_seq(self.groups).len() ==> (#[trigger] group_map_seq(
                self.groups,
            )[i]).0@ == group_map_seq(self.groups)[i].1@.name)
    }

    /// A new, empty document.
    pub fn new() -> (r: Self)
        ensures
            r.wf(),
            r@ == (KeyFileV { groups: Seq::<GroupV>::empty(), decor: Seq::<Seq<char>>::empty() }),
    {
        let r = KeyFile { groups: gm_new(), decor: Vec::new() };
        proof {
            assert(r.decor.deep_view() =~= Seq::<Seq<char>>::empty());
            assert(r@.groups =~= Seq::<GroupV>::empty());
        }
        r
    }

    /// Parse a string into a document.
    ///
    /// The input is processed line by line exactly as [`spec_parse`]
    /// describes: blank and `#` lines collect as decor for the entity that
    /// follows, `[name]` lines open groups, and `key[locale]ws=wsvalue`
    /// lines become entries of the current group. Parsing stops at the
    /// first offending line: a line matching no pattern, a key-value line
    /// before any header, or one whose locale carries an encoding component
    /// is an `InvalidLine` error; a reused group name is a `DuplicateGroup`
    /// error; a reused compound key within a group is a `DuplicateKey`
    /// error.
    pub fn parse(value: &str) -> (r: Result<KeyFile, KeyFileError>)
        ensures
            r matches Ok(kf) ==> kf.wf() && keyfile_v_wf(kf@) && spec_parse(value@) == Ok::<
                KeyFileV,
                KeyFileErrorV,
            >(kf@),
            r matches Err(e) ==> spec_parse(value@) == Err::<KeyFileV, KeyFileErrorV>(e@),
    {
        let lines = split_lines(value);
        let ghost linesv = lines_of(value@);
        let n = lines.len();
        let mut groups: IndexMap<String, Group> = gm_new();
        let mut cur: Option<Group> = None;
        let mut pending: Vec<String> = Vec::new();
        proof {
            assert(Seq::new(group_map_seq(groups).len(), |i: int| group_map_seq(groups)[i].1@)
                =~~= Seq::<GroupV>::empty());
            assert(pending.deep_view() =~~= Seq::<Seq<char>>::empty());
            assert(parse_state_view(groups, cur, pending) =~~= initial_state());
        }
        let mut i: usize = 0;
        while i < n
            invariant
                i <= n,
                n == lines.len(),
                lines.deep_view() == linesv,
                linesv == lines_of(value@),
                spec_parse(value@) == spec_parse_lines(
                    linesv,
                    i as int,
                    parse_state_view(groups, cur, pending),
                ),
                parse_state_wf(groups, cur),
                valid_decor(pending.deep_view()),
            decreases n - i,
        {
            let ghost st = parse_state_view(groups, cur, pending);
            let ghost linev = linesv[i as int];
            proof {
                assert(lines.deep_view()[i as int] == lines[i as int]@);
            }
            let ll = lines[i].as_str().unicode_len();
            if ll == 0 || lines[i].as_str().get_char(0) == '#' {
                proof {
                    assert(valid_decor_line(linev));
                }
                let line_copy = lines[i].clone();
                pending.push(line_copy);
                proof {
                    let st2 = ParseStateV { pending: st.pending.push(linev), ..st };
                    assert(spec_step(st, linev, i as int) == Ok::<ParseStateV, KeyFileErrorV>(st2));
                    assert(pending.deep_view() =~~= st.pending.push(linev));
                    assert(parse_state_view(groups, cur, pending) =~~= st2);
                }
            } else {
                proof {
                    assert(!valid_decor_line(linev));
                }
                if let Some(name) = parse_as_header(lines[i].as_str()) {
                    proof {
                        assert(spec_header_name(linev) == Some(name@));
                    }
                    let dup_done = gm_get(&groups, name.as_str()).is_some();
                    let dup_cur = match &cur {
                        Some(g) => g.name == name,
                        None => false,
                    };
                    proof {
                        let s = group_map_seq(groups);
                        assert(dup_done == groups_have_name(st.done, name@)) by {
                            if dup_done {
                                let j = choose|j: int|
                                    0 <= j < s.len() && (#[trigger] s[j]).0@ == name@;
                                assert(st.done[j].name == name@);
                            }
                            if groups_have_name(st.done, name@) {
                                let j = choose|j: int|
                                    0 <= j < st.done.len() && (#[trigger] st.done[j]).name
                                        == name@;
                                assert(s[j].0@ == name@);
                                assert(gm_has(s, name@));
                            }
                        }
                        assert(dup_cur == (st.cur matches Some(g) && g.name == name@));
                    }
                    if dup_done || dup_cur {
                        let e = KeyFileError::duplicate_group(name, i);
                        proof {
                            assert(spec_step(st, linev, i as int) == Err::<
                                ParseStateV,
                                KeyFileErrorV,
                            >(e@));
                        }
                        return Err(e);
                    }
                    let ghost st2 = ParseStateV {
                        done: state_groups(st),
                        cur: Some(
                            GroupV {
                                name: name@,
                                entries: Seq::<KeyValuePairV>::empty(),
                                decor: st.pending,
                            },
                        ),
                        pending: Seq::<Seq<char>>::empty(),
                    };
                    proof {
                        assert(spec_step(st, linev, i as int) == Ok::<ParseStateV, KeyFileErrorV>(
                            st2,
                        ));
                    }
                    let d = pending;
                    pending = Vec::new();
                    let prev = cur;
                    match prev {
                        Some(g) => {
                            let gname = g.name.clone();
                            let ghost old_s = group_map_seq(groups);
                            proof {
                                assert(!gm_has(old_s, gname@)) by {
                                    if gm_has(old_s, gname@) {
                                        let j = choose|j: int|
                                            0 <= j < old_s.len() && (#[trigger] old_s[j]).0@
                                                == gname@;
                                        assert(old_s[j].1@.name == g@.name);
                                    }
                                }
                            }
                            gm_insert(&mut groups, gname, g);
                            proof {
                                let s = group_map_seq(groups);
                                assert(s == old_s.push((gname, g)));
                                assert(Seq::new(s.len(), |k: int| s[k].1@) =~~= st.done.push(g@));
                                assert(Seq::new(s.len(), |k: int| s[k].1@) =~~= state_groups(st));
                            }
                        },
                        None => {
                            proof {
                                assert(state_groups(st) =~~= st.done);
                            }
                        },
                    }
                    let em = em_new();
                    proof {
                        assert(entry_map_wf(em));
                        assert(Seq::new(entry_map_seq(em).len(), |k: int| entry_map_seq(em)[k].1@)
                            =~~= Seq::<KeyValuePairV>::empty());
                    }
                    cur = Some(
                        Group::from_entries(
                            GroupName::new_unchecked(name),
                            em,
                            Decor::new_unchecked(d),
                        ),
                    );
                    proof {
                        assert(pending.deep_view() =~~= Seq::<Seq<char>>::empty());
                        assert(parse_state_view(groups, cur, pending) =~~= st2);
                        let s = group_map_seq(groups);
                        assert forall|a: int, b: int|
                            0 <= a < b < s.len() implies s[a].1@.name != s[b].1@.name by {
                            if b < st.done.len() {
                            }
                        }
                    }
                } else if let Some((key, locale, val, wsl, wsr)) = parse_as_key_value_pair(
                    lines[i].as_str(),
                ) {
                    let ghost p = spec_key_value_pair(linev).unwrap();
                    proof {
                        assert(key@ == p.key && locale.deep_view() == p.locale && val@ == p.value
                            && wsl@ == p.wsl && wsr@ == p.wsr);
                    }
                    let cur0 = cur;
                    match cur0 {
                        None => {
                            let e = KeyFileError::invalid_line(lines[i].clone(), i);
                            proof {
                                assert(st.cur is None);
                                assert(spec_step(st, linev, i as int) == Err::<
                                    ParseStateV,
                                    KeyFileErrorV,
                                >(e@));
                            }
                            return Err(e);
                        },
                        Some(mut g) => {
                            let ghost gv = g@;
                            let has_enc = match &locale {
                                Some(l) => l.has_encoding(),
                                None => false,
                            };
                            if has_enc {
                                let e = KeyFileError::invalid_line(lines[i].clone(), i);
                                proof {
                                    assert(p.locale matches Some(l) && l.encoding is Some);
                                    assert(spec_step(st, linev, i as int) == Err::<
                                        ParseStateV,
                                        KeyFileErrorV,
                                    >(e@));
                                }
                                return Err(e);
                            }
                            let loc2 = match &locale {
                                Some(l) => Some(l.clone()),
                                None => None,
                            };
                            proof {
                                assert(loc2.deep_view() == p.locale);
                            }
                            let dup = g.get(key.as_str(), loc2).is_some();
                            proof {
                                assert(dup == entries_have_key(gv.entries, p.key, p.locale));
                            }
                            if dup {
                                proof {
                                    reveal_strlit("[");
                                    reveal_strlit("]");
                                }
                                let key_str = match &locale {
                                    Some(l) => {
                                        let lr = l.render();
                                        let mut ks = key.clone();
                                        ks.append("[");
                                        ks.append(lr.as_str());
                                        ks.append("]");
                                        ks
                                    },
                                    None => key.clone(),
                                };
                                proof {
                                    assert("["@ =~= seq!['[']);
                                    assert("]"@ =~= seq![']']);
                                    assert(key_str@ =~= dup_key_label(p));
                                }
                                let e = KeyFileError::duplicate_key(key_str, i);
                                proof {
                                    assert(spec_step(st, linev, i as int) == Err::<
                                        ParseStateV,
                                        KeyFileErrorV,
                                    >(e@));
                                }
                                return Err(e);
                            }
                            let ghost st2 = ParseStateV {
                                cur: Some(
                                    GroupV {
                                        entries: gv.entries.push(kv_of_parts(p, st.pending)),
                                        ..gv
                                    },
                                ),
                                pending: Seq::<Seq<char>>::empty(),
                                ..st
                            };
                            proof {
                                assert(spec_step(st, linev, i as int) == Ok::<
                                    ParseStateV,
                                    KeyFileErrorV,
                                >(st2));
                                crate::parse::lemma_kv_parts_wf(linev, p);
                            }
                            let d = pending;
                            pending = Vec::new();
                            let kv = KeyValuePair::from_fields(
                                Key::new_unchecked(key),
                                locale,
                                Value::new_unchecked(val),
                                Whitespace::new_unchecked(wsl),
                                Whitespace::new_unchecked(wsr),
                                Decor::new_unchecked(d),
                            );
                            proof {
                                assert(kv@ =~~= kv_of_parts(p, st.pending));
                            }
                            g.insert(kv);
                            cur = Some(g);
                            proof {
                                assert(pending.deep_view() =~~= Seq::<Seq<char>>::empty());
                                assert(g@ =~~= st2.cur.unwrap());
                                assert(parse_state_view(groups, cur, pending) =~~= st2);
                            }
                        },
                    }
                } else {
                    let e = KeyFileError::invalid_line(lines[i].clone(), i);
                    proof {
                        assert(spec_header_name(linev) is None);
                        assert(spec_key_value_pair(linev) is None);
                        assert(spec_step(st, linev, i as int) == Err::<
                            ParseStateV,
                            KeyFileErrorV,
                        >(e@));
                    }
                    return Err(e);
                }
            }
            i = i + 1;
        }
        let ghost st = parse_state_view(groups, cur, pending);
        proof {
            assert(spec_parse(value@) == Ok::<KeyFileV, KeyFileErrorV>(
                KeyFileV { groups: state_groups(st), decor: st.pending },
            ));
        }
        match cur {
            Some(g) => {
                let gname = g.name.clone();
                let ghost old_s = group_map_seq(groups);
                proof {
                    assert(!gm_has(old_s, gname@)) by {
                        if gm_has(old_s, gname@) {
                            let j = choose|j: int|
                                0 <= j < old_s.len() && (#[trigger] old_s[j]).0@ == gname@;
                            assert(old_s[j].1@.name == g@.name);
                        }
                    }
                }
                gm_insert(&mut groups, gname, g);
                proof {
                    let s = group_map_seq(groups);
                    assert(s == old_s.push((gname, g)));
                    assert(Seq::new(s.len(), |k: int| s[k].1@) =~~= st.done.push(g@));
                    assert(Seq::new(s.len(), |k: int| s[k].1@) =~~= state_groups(st));
                }
            },
            None => {
                proof {
                    assert(state_groups(st) =~~= st.done);
                    assert(Seq::new(
                        group_map_seq(groups).len(),
                        |k: int| group_map_seq(groups)[k].1@,
                    ) =~~= state_groups(st));
                }
            },
        }
        let kf = KeyFile { groups, decor: pending };
        proof {
            assert(kf@ =~~= KeyFileV { groups: state_groups(st), decor: st.pending });
            let s = group_map_seq(kf.groups);
            assert forall|a: int, b: int|
                0 <= a < b < kf@.groups.len() implies kf@.groups[a].name != kf@.groups[b].name by {
                assert(kf@.groups[a] == s[a].1@);
                assert(kf@.groups[b] == s[b].1@);
            }
            assert(kf.wf());
        }
        Ok(kf)
    }

    /// Convert into a document that borrows nothing. Every document already
    /// owns its strings, so this returns the value unchanged.
    pub fn into_owned(self) -> (r: KeyFile)
        ensures
            r == self,
    {
        self
    }

    /// The comment and blank lines trailing the last group.
    pub fn get_decor(&self) -> (r: &Vec<String>)
        ensures
            r.deep_view() == self@.decor,
    {
        &self.decor
    }

    /// The number of groups.
    pub fn len(&self) -> (r: usize)
        ensures
            r == self@.groups.len(),
    {
        gm_len(&self.groups)
    }

    /// The group at a position, in order.
    pub fn get_index(&self, i: usize) -> (r: Option<&Group>)
        ensures
            match r {
                Some(g) => i < self@.groups.len() && g@ == self@.groups[i as int],
                None => i >= self@.groups.len(),
            },
    {
        match gm_get_index(&self.groups, i) {
            Some(p) => Some(p.1),
            None => None,
        }
    }

    /// The group with the given name, if any.
    pub fn get_group(&self, name: &str) -> (r: Option<&Group>)
        requires
            self.wf(),
        ensures
            match r {
                Some(g) => exists|i: int|
                    0 <= i < self@.groups.len() && (#[trigger] self@.groups[i]).name == name@ && g@
                        == self@.groups[i],
                None => !groups_have_name(self@.groups, name@),
            },
    {
        let r = gm_get(&self.groups, name);
        proof {
            let s = group_map_seq(self.groups);
            match r {
                Some(g) => {
                    let i = choose|i: int|
                        0 <= i < s.len() && (#[trigger] s[i]).0@ == name@ && *g == s[i].1;
                    assert(self@.groups[i] == s[i].1@);
                    assert(self@.groups[i].name == name@);
                },
                None => {
                    if groups_have_name(self@.groups, name@) {
                        let i = choose|i: int|
                            0 <= i < self@.groups.len() && (#[trigger] self@.groups[i]).name
                                == name@;
                        assert(s[i].0@ == name@);
                        assert(gm_has(s, name@));
                    }
                },
            }
        }
        r
    }

    /// Insert a group under its name.
    ///
    /// If a group with the same name exists, it keeps its position and is
    /// replaced; the replaced group is returned. A new name is appended as
    /// the last group.
    pub fn insert_group(&mut self, group: Group) -> (r: Option<Group>)
        requires
            old(self).wf(),
            group.wf(),
        ensures
            final(self).wf(),
            final(self)@.decor == old(self)@.decor,
            if groups_have_name(old(self)@.groups, group@.name) {
                exists|i: int|
                    0 <= i < old(self)@.groups.len() && (#[trigger] old(self)@.groups[i]).name
                        == group@.name && final(self)@.groups == old(self)@.groups.update(
                        i,
                        group@,
                    ) && (r matches Some(p) && p@ == old(self)@.groups[i])
            } else {
                final(self)@.groups == old(self)@.groups.push(group@) && r is None
            },
    {
        let name_clone = group.name.clone();
        let ghost old_s = group_map_seq(self.groups);
        let ghost old_view = self@;
        let ghost group_view = group@;
        proof {
            assert(gm_has(old_s, name_clone@) == groups_have_name(old_view.groups, group@.name))
                by {
                if gm_has(old_s, name_clone@) {
                    let i = choose|i: int|
                        0 <= i < old_s.len() && (#[trigger] old_s[i]).0@ == name_clone@;
                    assert(old_view.groups[i].name == group@.name);
                }
                if groups_have_name(old_view.groups, group@.name) {
                    let i = choose|i: int|
                        0 <= i < old_view.groups.len() && (#[trigger] old_view.groups[i]).name
                            == group@.name;
                    assert(old_s[i].0@ == name_clone@);
                }
            }
        }
        let ghost inserted_group = group;
        let r = gm_insert(&mut self.groups, name_clone, group);
        proof {
            let s = group_map_seq(self.groups);
            let gs = self@.groups;
            if gm_has(old_s, group_view.name) {
                let i = choose|i: int|
                    0 <= i < old_s.len() && (#[trigger] old_s[i]).0@ == group_view.name && s
                        == old_s.update(i, (old_s[i].0, inserted_group)) && r == Some(old_s[i].1);
                assert(self@.groups =~~= old_view.groups.update(i, group_view));
                assert(old_view.groups[i].name == group_view.name);
                assert forall|j: int| 0 <= j < s.len() implies (#[trigger] s[j]).1.wf() && s[j].0@
                    == s[j].1@.name by {
                    if j != i {
                        assert(s[j] == old_s[j]);
                    }
                }
                assert forall|j: int| 0 <= j < gs.len() implies group_v_wf(#[trigger] gs[j]) by {
                    if j != i {
                        assert(gs[j] == old_view.groups[j]);
                    }
                }
                assert forall|a: int, b: int| 0 <= a < b < gs.len() implies gs[a].name
                    != gs[b].name by {
                    assert(gs[a].name == old_view.groups[a].name);
                    assert(gs[b].name == old_view.groups[b].name);
                    assert(old_view.groups[a].name != old_view.groups[b].name);
                }
            } else {
                assert(self@.groups =~~= old_view.groups.push(group_view));
                assert forall|j: int| 0 <= j < s.len() implies (#[trigger] s[j]).1.wf() && s[j].0@
                    == s[j].1@.name by {
                    if j < old_s.len() {
                        assert(s[j] == old_s[j]);
                    } else {
                        assert(s[j].1 == inserted_group);
                    }
                }
                assert forall|j: int| 0 <= j < gs.len() implies group_v_wf(#[trigger] gs[j]) by {
                    if j < old_view.groups.len() {
                        assert(gs[j] == old_view.groups[j]);
                    }
                }
                assert forall|a: int, b: int| 0 <= a < b < gs.len() implies gs[a].name
                    != gs[b].name by {
                    if b < old_view.groups.len() {
                        assert(gs[a].name == old_view.groups[a].name);
                        assert(gs[b].name == old_view.groups[b].name);
                    } else {
                        assert(gs[b] == group_view);
                        assert(gs[a] == old_view.groups[a]);
                        if gs[a].name == gs[b].name {
                            assert(groups_have_name(old_view.groups, group_view.name));
                        }
                    }
                }
            }
        }
        r
    }

    /// Remove the group with the given name, if any.
    ///
    /// The groups that follow it shift down by one position, so the order of
    /// the remaining groups is preserved.
    pub fn remove_group(&mut self, name: &str) -> (r: Option<Group>)
        requires
            old(self).wf(),
        ensures
            final(self).wf(),
            final(self)@.decor == old(self)@.decor,
            if groups_have_name(old(self)@.groups, name@) {
                exists|i: int|
                    0 <= i < old(self)@.groups.len() && (#[trigger] old(self)@.groups[i]).name
                        == name@ && final(self)@.groups == old(self)@.groups.remove(i) && (
                    r matches Some(p) && p@ == old(self)@.groups[i])
            } else {
                final(self)@ == old(self)@ && r is None
            },
    {
        let ghost old_s = group_map_seq(self.groups);
        let ghost old_view = self@;
        proof {
            assert(gm_has(old_s, name@) == groups_have_name(old_view.groups, name@)) by {
                if gm_has(old_s, name@) {
                    let i = choose|i: int|
                        0 <= i < old_s.len() && (#[trigger] old_s[i]).0@ == name@;
                    assert(old_view.groups[i].name == name@);
                }
                if groups_have_name(old_view.groups, name@) {
                    let i = choose|i: int|
                        0 <= i < old_view.groups.len() && (#[trigger] old_view.groups[i]).name
                            == name@;
                    assert(old_s[i].0@ == name@);
                }
            }
        }
        let r = gm_shift_remove(&mut self.groups, name);
        proof {
            let s = group_map_seq(self.groups);
            let gs = self@.groups;
            if gm_has(old_s, name@) {
                let i = choose|i: int|
                    0 <= i < old_s.len() && (#[trigger] old_s[i]).0@ == name@ && s == old_s.remove(
                        i,
                    ) && r == Some(old_s[i].1);
                assert(self@.groups =~~= old_view.groups.remove(i));
                assert(old_view.groups[i].name == name@);
                assert forall|j: int| 0 <= j < s.len() implies (#[trigger] s[j]).1.wf() && s[j].0@
                    == s[j].1@.name by {
                    if j < i {
                        assert(s[j] == old_s[j]);
                    } else {
                        assert(s[j] == old_s[j + 1]);
                    }
                }
                assert forall|j: int| 0 <= j < gs.len() implies group_v_wf(#[trigger] gs[j]) by {
                    if j < i {
                        assert(gs[j] == old_view.groups[j]);
                    } else {
                        assert(gs[j] == old_view.groups[j + 1]);
                    }
                }
                assert forall|a: int, b: int| 0 <= a < b < gs.len() implies gs[a].name
                    != gs[b].name by {
                    let oa: int = if a < i { a } else { a + 1 };
                    let ob: int = if b < i { b } else { b + 1 };
                    assert(gs[a] == old_view.groups[oa]);
                    assert(gs[b] == old_view.groups[ob]);
                    assert(old_view.groups[oa].name != old_view.groups[ob].name);
                }
            } else {
                assert(self@ =~~= old_view);
            }
        }
        r
    }

    /// Render the document: its groups in order, then its trailing decor
    /// lines.
    pub fn render(&self) -> (r: String)
        ensures
            r@ == render_keyfile(self@),
    {
        let mut out = String::new();
        proof {
            assert(self@.groups.take(0) =~~= Seq::<GroupV>::empty());
            assert(out@ =~= render_groups(self@.groups.take(0)));
        }
        let n = gm_len(&self.groups);
        let mut i: usize = 0;
        while i < n
            invariant
                i <= n,
                n == self@.groups.len(),
                out@ == render_groups(self@.groups.take(i as int)),
            decreases n - i,
        {
            let g = match gm_get_index(&self.groups, i) {
                Some(p) => p.1,
                None => unreached(),
            };
            let gr = g.render();
            out.append(gr.as_str());
            proof {
                let gs = self@.groups;
                lemma_render_groups_push(gs.take(i as int), gs[i as int]);
                assert(gs.take(i + 1) =~~= gs.take(i as int).push(gs[i as int]));
                assert(out@ =~= render_groups(gs.take(i + 1)));
            }
            i = i + 1;
        }
        proof {
            assert(self@.groups.take(n as int) =~~= self@.groups);
        }
        append_decor(&mut out, &self.decor);
        out
    }
}

} // verus!
