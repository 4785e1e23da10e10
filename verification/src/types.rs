//! Validated scalar types of the KeyFile document model.
//!
//! Each newtype wraps a string and can only be constructed through a
//! fallible conversion that checks the character class of its field, or
//! through a crate-internal unchecked constructor whose caller has already
//! established the same property. A value of one of these types therefore
//! always satisfies its character-class predicate.
//!
//! [`Locale`] is the composite identifier `lang[_COUNTRY][.ENCODING][@MODIFIER]`
//! attached to a key to mark a translated value.

use vstd::prelude::*;
use vstd::string::*;

use crate::chars::{
    check_alpha_word, check_decor_line, check_group_name, check_key, check_value,
    check_whitespace, is_alpha_char, is_control_char, is_key_char, lemma_run_end_props, run_end,
    valid_alpha_word, valid_decor, valid_decor_line, valid_encoding, valid_group_name, valid_key,
    valid_value, valid_whitespace,
};

verus! {

/// Error returned when constructing a validated type from an invalid string.
///
/// One variant per validated type, naming the character-class rule that was
/// violated.
#[derive(Clone, Copy, Debug, PartialEq, Eq, Structural)]
pub enum InvalidString {
    /// Group names may only contain printable ASCII except `[` and `]`.
    GroupName,
    /// Keys may only contain ASCII alphanumerics and `-`.
    Key,
    /// Languages may only contain ASCII letters.
    Language,
    /// Countries may only contain ASCII letters.
    Country,
    /// Encodings may only contain ASCII alphanumerics and `-`.
    Encoding,
    /// Modifiers may only contain ASCII letters.
    Modifier,
    /// Values may not contain control characters.
    Value,
    /// Whitespace may only contain spaces and tabs.
    Whitespace,
    /// Decor lines must be empty or start with `#`.
    Decor,
    /// The locale string did not match `lang[_COUNTRY][.ENCODING][@MODIFIER]`.
    Locale,
}

/// A valid group name: printable ASCII without `[` or `]`, non-empty.
#[derive(Debug)]
pub struct GroupName {
    inner: String,
}

impl View for GroupName {
    type V = Seq<char>;

    closed spec fn view(&self) -> Seq<char> {
        self.inner@
    }
}

impl DeepView for GroupName {
    type V = Seq<char>;

    open spec fn deep_view(&self) -> Seq<char> {
        self.view()
    }
}

impl GroupName {
    /// The character-class invariant; holds of every constructed value.
    #[verifier::type_invariant]
    pub open spec fn wf(self) -> bool {
        valid_group_name(self@)
    }

    /// Wrap a string that is already known to be a valid group name.
    pub(crate) fn new_unchecked(value: String) -> (r: Self)
        requires
            valid_group_name(value@),
        ensures
            r@ == value@,
    {
        GroupName { inner: value }
    }

    /// Validate `value` as a group name.
    pub fn try_from(value: &str) -> (r: Result<Self, InvalidString>)
        ensures
            valid_group_name(value@) ==> (r matches Ok(v) && v@ == value@),
            !valid_group_name(value@) ==> r == Err::<Self, _>(InvalidString::GroupName),
    {
        if check_group_name(value) {
            Ok(GroupName { inner: value.to_owned() })
        } else {
            Err(InvalidString::GroupName)
        }
    }

    /// The wrapped string.
    pub fn as_str(&self) -> (r: &str)
        ensures
            r@ == self@,
    {
        self.inner.as_str()
    }

    /// Unwrap into the underlying string.
    pub fn into_string(self) -> (r: String)
        ensures
            r@ == self@,
    {
        self.inner
    }
}

/// A valid key: ASCII alphanumerics and `-`, non-empty.
#[derive(Debug)]
pub struct Key {
    inner: String,
}

impl View for Key {
    type V = Seq<char>;

    closed spec fn view(&self) -> Seq<char> {
        self.inner@
    }
}

impl DeepView for Key {
    type V = Seq<char>;

    open spec fn deep_view(&self) -> Seq<char> {
        self.view()
    }
}

impl Key {
    /// The character-class invariant; holds of every constructed value.
    #[verifier::type_invariant]
    pub open spec fn wf(self) -> bool {
        valid_key(self@)
    }

    /// Wrap a string that is already known to be a valid key.
    pub(crate) fn new_unchecked(value: String) -> (r: Self)
        requires
            valid_key(value@),
        ensures
            r@ == value@,
    {
        Key { inner: value }
    }

    /// Validate `value` as a key.
    pub fn try_from(value: &str) -> (r: Result<Self, InvalidString>)
        ensures
            valid_key(value@) ==> (r matches Ok(v) && v@ == value@),
            !valid_key(value@) ==> r == Err::<Self, _>(InvalidString::Key),
    {
        if check_key(value) {
            Ok(Key { inner: value.to_owned() })
        } else {
            Err(InvalidString::Key)
        }
    }

    /// The wrapped string.
    pub fn as_str(&self) -> (r: &str)
        ensures
            r@ == self@,
    {
        self.inner.as_str()
    }

    /// Unwrap into the underlying string.
    pub fn into_string(self) -> (r: String)
        ensures
            r@ == self@,
    {
        self.inner
    }
}

/// A valid language identifier: ASCII letters, non-empty.
#[derive(Debug)]
pub struct Language {
    inner: String,
}

impl View for Language {
    type V = Seq<char>;

    closed spec fn view(&self) -> Seq<char> {
        self.inner@
    }
}

impl DeepView for Language {
    type V = Seq<char>;

    open spec fn deep_view(&self) -> Seq<char> {
        self.view()
    }
}

impl Language {
    /// The character-class invariant; holds of every constructed value.
    #[verifier::type_invariant]
    pub open spec fn wf(self) -> bool {
        valid_alpha_word(self@)
    }

    /// Wrap a string that is already known to be a valid language.
    pub(crate) fn new_unchecked(value: String) -> (r: Self)
        requires
            valid_alpha_word(value@),
        ensures
            r@ == value@,
    {
        Language { inner: value }
    }

    /// Validate `value` as a language identifier.
    pub fn try_from(value: &str) -> (r: Result<Self, InvalidString>)
        ensures
            valid_alpha_word(value@) ==> (r matches Ok(v) && v@ == value@),
            !valid_alpha_word(value@) ==> r == Err::<Self, _>(InvalidString::Language),
    {
        if check_alpha_word(value) {
            Ok(Language { inner: value.to_owned() })
        } else {
            Err(InvalidString::Language)
        }
    }

    /// The wrapped string.
    pub fn as_str(&self) -> (r: &str)
        ensures
            r@ == self@,
    {
        self.inner.as_str()
    }

    /// Unwrap into the underlying string.
    pub fn into_string(self) -> (r: String)
        ensures
            r@ == self@,
    {
        self.inner
    }
}

/// A valid country / territory identifier: ASCII letters, non-empty.
#[derive(Debug)]
pub struct Country {
    inner: String,
}

impl View for Country {
    type V = Seq<char>;

    closed spec fn view(&self) -> Seq<char> {
        self.inner@
    }
}

impl DeepView for Country {
    type V = Seq<char>;

    open spec fn deep_view(&self) -> Seq<char> {
        self.view()
    }
}

impl Country {
    /// The character-class invariant; holds of every constructed value.
    #[verifier::type_invariant]
    pub open spec fn wf(self) -> bool {
        valid_alpha_word(self@)
    }

    /// Wrap a string that is already known to be a valid country.
    pub(crate) fn new_unchecked(value: String) -> (r: Self)
        requires
            valid_alpha_word(value@),
        ensures
            r@ == value@,
    {
        Country { inner: value }
    }

    /// Validate `value` as a country identifier.
    pub fn try_from(value: &str) -> (r: Result<Self, InvalidString>)
        ensures
            valid_alpha_word(value@) ==> (r matches Ok(v) && v@ == value@),
            !valid_alpha_word(value@) ==> r == Err::<Self, _>(InvalidString::Country),
    {
        if check_alpha_word(value) {
            Ok(Country { inner: value.to_owned() })
        } else {
            Err(InvalidString::Country)
        }
    }

    /// The wrapped string.
    pub fn as_str(&self) -> (r: &str)
        ensures
            r@ == self@,
    {
        self.inner.as_str()
    }

    /// Unwrap into the underlying string.
    pub fn into_string(self) -> (r: String)
        ensures
            r@ == self@,
    {
        self.inner
    }
}

/// A valid encoding identifier: ASCII alphanumerics and `-`, non-empty.
#[derive(Debug)]
pub struct Encoding {
    inner: String,
}

impl View for Encoding {
    type V = Seq<char>;

    closed spec fn view(&self) -> Seq<char> {
        self.inner@
    }
}

impl DeepView for Encoding {
    type V = Seq<char>;

    open spec fn deep_view(&self) -> Seq<char> {
        self.view()
    }
}

impl Encoding {
    /// The character-class invariant; holds of every constructed value.
    #[verifier::type_invariant]
    pub open spec fn wf(self) -> bool {
        valid_encoding(self@)
    }

    /// Wrap a string that is already known to be a valid encoding.
    pub(crate) fn new_unchecked(value: String) -> (r: Self)
        requires
            valid_encoding(value@),
        ensures
            r@ == value@,
    {
        Encoding { inner: value }
    }

    /// Validate `value` as an encoding identifier.
    pub fn try_from(value: &str) -> (r: Result<Self, InvalidString>)
        ensures
            valid_encoding(value@) ==> (r matches Ok(v) && v@ == value@),
            !valid_encoding(value@) ==> r == Err::<Self, _>(InvalidString::Encoding),
    {
        if check_key(value) {
            Ok(Encoding { inner: value.to_owned() })
        } else {
            Err(InvalidString::Encoding)
        }
    }

    /// The wrapped string.
    pub fn as_str(&self) -> (r: &str)
        ensures
            r@ == self@,
    {
        self.inner.as_str()
    }

    /// Unwrap into the underlying string.
    pub fn into_string(self) -> (r: String)
        ensures
            r@ == self@,
    {
        self.inner
    }
}

/// A valid locale modifier: ASCII letters, non-empty.
#[derive(Debug)]
pub struct Modifier {
    inner: String,
}

impl View for Modifier {
    type V = Seq<char>;

    closed spec fn view(&self) -> Seq<char> {
        self.inner@
    }
}

impl DeepView for Modifier {
    type V = Seq<char>;

    open spec fn deep_view(&self) -> Seq<char> {
        self.view()
    }
}

impl Modifier {
    /// The character-class invariant; holds of every constructed value.
    #[verifier::type_invariant]
    pub open spec fn wf(self) -> bool {
        valid_alpha_word(self@)
    }

    /// Wrap a string that is already known to be a valid modifier.
    pub(crate) fn new_unchecked(value: String) -> (r: Self)
        requires
            valid_alpha_word(value@),
        ensures
            r@ == value@,
    {
        Modifier { inner: value }
    }

    /// Validate `value` as a locale modifier.
    pub fn try_from(value: &str) -> (r: Result<Self, InvalidString>)
        ensures
            valid_alpha_word(value@) ==> (r matches Ok(v) && v@ == value@),
            !valid_alpha_word(value@) ==> r == Err::<Self, _>(InvalidString::Modifier),
    {
        if check_alpha_word(value) {
            Ok(Modifier { inner: value.to_owned() })
        } else {
            Err(InvalidString::Modifier)
        }
    }

    /// The wrapped string.
    pub fn as_str(&self) -> (r: &str)
        ensures
            r@ == self@,
    {
        self.inner.as_str()
    }

    /// Unwrap into the underlying string.
    pub fn into_string(self) -> (r: String)
        ensures
            r@ == self@,
    {
        self.inner
    }
}

/// A valid value: any characters except control characters.
#[derive(Debug)]
pub struct Value {
    inner: String,
}

impl View for Value {
    type V = Seq<char>;

    closed spec fn view(&self) -> Seq<char> {
        self.inner@
    }
}

impl DeepView for Value {
    type V = Seq<char>;

    open spec fn deep_view(&self) -> Seq<char> {
        self.view()
    }
}

impl Value {
    /// The character-class invariant; holds of every constructed value.
    #[verifier::type_invariant]
    pub open spec fn wf(self) -> bool {
        valid_value(self@)
    }

    /// Wrap a string that is already known to be a valid value.
    pub(crate) fn new_unchecked(value: String) -> (r: Self)
        requires
            valid_value(value@),
        ensures
            r@ == value@,
    {
        Value { inner: value }
    }

    /// Validate `value` as a value string.
    pub fn try_from(value: &str) -> (r: Result<Self, InvalidString>)
        ensures
            valid_value(value@) ==> (r matches Ok(v) && v@ == value@),
            !valid_value(value@) ==> r == Err::<Self, _>(InvalidString::Value),
    {
        if check_value(value) {
            Ok(Value { inner: value.to_owned() })
        } else {
            Err(InvalidString::Value)
        }
    }

    /// The value rendering an unsigned integer in decimal.
    pub fn from_u64(value: u64) -> (r: Self)
        ensures
            r@ == dec_digits(value as int),
    {
        proof {
            lemma_dec_digits_valid(value as int);
        }
        Value { inner: u64_decimal(value) }
    }

    /// The value rendering a signed integer in decimal, with a leading `-`
    /// when it is negative.
    pub fn from_i64(value: i64) -> (r: Self)
        ensures
            value >= 0 ==> r@ == dec_digits(value as int),
            value < 0 ==> r@ == seq!['-'] + dec_digits(-(value as int)),
    {
        proof {
            reveal_strlit("-");
        }
        if value >= 0 {
            Value::from_u64(value as u64)
        } else {
            let magnitude = (-(value as i128)) as u64;
            let digits = u64_decimal(magnitude);
            let mut out = "-".to_owned();
            out.append(digits.as_str());
            proof {
                lemma_dec_digits_valid(magnitude as int);
                assert("-"@ =~= seq!['-']);
                assert(out@ =~= seq!['-'] + dec_digits(-(value as int)));
                assert(!is_control_char('-'));
                assert(valid_value(out@));
            }
            Value { inner: out }
        }
    }

    /// The value rendering a boolean: `true` or `false`.
    pub fn from_bool(value: bool) -> (r: Self)
        ensures
            value ==> r@ == "true"@,
            !value ==> r@ == "false"@,
    {
        proof {
            reveal_strlit("true");
            reveal_strlit("false");
        }
        if value {
            Value { inner: "true".to_owned() }
        } else {
            Value { inner: "false".to_owned() }
        }
    }

    /// The wrapped string.
    pub fn as_str(&self) -> (r: &str)
        ensures
            r@ == self@,
    {
        self.inner.as_str()
    }

    /// Unwrap into the underlying string.
    pub fn into_string(self) -> (r: String)
        ensures
            r@ == self@,
    {
        self.inner
    }
}

/// Valid whitespace around `=`: zero or more spaces and tabs.
#[derive(Debug)]
pub struct Whitespace {
    inner: String,
}

impl View for Whitespace {
    type V = Seq<char>;

    closed spec fn view(&self) -> Seq<char> {
        self.inner@
    }
}

impl DeepView for Whitespace {
    type V = Seq<char>;

    open spec fn deep_view(&self) -> Seq<char> {
        self.view()
    }
}

impl Whitespace {
    /// The character-class invariant; holds of every constructed value.
    #[verifier::type_invariant]
    pub open spec fn wf(self) -> bool {
        valid_whitespace(self@)
    }

    /// Wrap a string that is already known to be valid whitespace.
    pub(crate) fn new_unchecked(value: String) -> (r: Self)
        requires
            valid_whitespace(value@),
        ensures
            r@ == value@,
    {
        Whitespace { inner: value }
    }

    /// Validate `value` as whitespace.
    pub fn try_from(value: &str) -> (r: Result<Self, InvalidString>)
        ensures
            valid_whitespace(value@) ==> (r matches Ok(v) && v@ == value@),
            !valid_whitespace(value@) ==> r == Err::<Self, _>(InvalidString::Whitespace),
    {
        if check_whitespace(value) {
            Ok(Whitespace { inner: value.to_owned() })
        } else {
            Err(InvalidString::Whitespace)
        }
    }

    /// The wrapped string.
    pub fn as_str(&self) -> (r: &str)
        ensures
            r@ == self@,
    {
        self.inner.as_str()
    }

    /// Unwrap into the underlying string.
    pub fn into_string(self) -> (r: String)
        ensures
            r@ == self@,
    {
        self.inner
    }
}

/// A valid decor list: every line is empty or starts with `#`.
#[derive(Debug)]
pub struct Decor {
    inner: Vec<String>,
}

impl View for Decor {
    type V = Seq<Seq<char>>;

    closed spec fn view(&self) -> Seq<Seq<char>> {
        self.inner.deep_view()
    }
}

impl Decor {
    /// The character-class invariant; holds of every constructed value.
    #[verifier::type_invariant]
    pub open spec fn wf(self) -> bool {
        valid_decor(self@)
    }

    /// Wrap lines that are already known to be valid decor.
    pub(crate) fn new_unchecked(value: Vec<String>) -> (r: Self)
        requires
            valid_decor(value.deep_view()),
        ensures
            r@ == value.deep_view(),
    {
        Decor { inner: value }
    }

    /// Validate `value` as a decor list.
    pub fn try_from(value: Vec<String>) -> (r: Result<Self, InvalidString>)
        ensures
            valid_decor(value.deep_view()) ==> (r matches Ok(v) && v@ == value.deep_view()),
            !valid_decor(value.deep_view()) ==> r == Err::<Self, _>(InvalidString::Decor),
    {
        let n = value.len();
        let mut i: usize = 0;
        while i < n
            invariant
                i <= n,
                n == value.len(),
                forall|j: int| 0 <= j < i ==> valid_decor_line(#[trigger] value.deep_view()[j]),
            decreases n - i,
        {
            if !check_decor_line(value[i].as_str()) {
                assert(!valid_decor_line(value.deep_view()[i as int]));
                return Err(InvalidString::Decor);
            }
            i = i + 1;
        }
        Ok(Decor { inner: value })
    }

    /// Unwrap into the underlying lines.
    pub fn into_vec(self) -> (r: Vec<String>)
        ensures
            r.deep_view() == self@,
    {
        self.inner
    }
}

/// The decimal digit character for `d`.
pub open spec fn digit_char(d: int) -> char
    recommends
        0 <= d < 10,
{
    if d == 0 {
        '0'
    } else if d == 1 {
        '1'
    } else if d == 2 {
        '2'
    } else if d == 3 {
        '3'
    } else if d == 4 {
        '4'
    } else if d == 5 {
        '5'
    } else if d == 6 {
        '6'
    } else if d == 7 {
        '7'
    } else if d == 8 {
        '8'
    } else {
        '9'
    }
}

/// The decimal rendering of a non-negative integer: its digits, most
/// significant first, with no leading zeros (except for zero itself).
pub open spec fn dec_digits(n: int) -> Seq<char>
    recommends
        n >= 0,
    decreases n,
{
    if n < 10 {
        seq![digit_char(n)]
    } else {
        dec_digits(n / 10).push(digit_char(n % 10))
    }
}

/// Every decimal rendering is a non-empty valid value.
pub proof fn lemma_dec_digits_valid(n: int)
    requires
        n >= 0,
    ensures
        valid_value(dec_digits(n)),
        dec_digits(n).len() > 0,
    decreases n,
{
    if n < 10 {
        assert(!crate::chars::is_control_char(digit_char(n)));
        assert(valid_value(dec_digits(n)));
    } else {
        lemma_dec_digits_valid(n / 10);
        let d = dec_digits(n / 10);
        let c = digit_char(n % 10);
        assert(!crate::chars::is_control_char(c));
        assert(forall|i: int|
            0 <= i < d.push(c).len() ==> crate::chars::is_value_char(#[trigger] d.push(c)[i]));
    }
}

/// The digit character of `d`, as a one-character string.
fn digit_str(d: u64) -> (r: &'static str)
    requires
        d < 10,
    ensures
        r@ == seq![digit_char(d as int)],
{
    proof {
        reveal_strlit("0");
        reveal_strlit("1");
        reveal_strlit("2");
        reveal_strlit("3");
        reveal_strlit("4");
        reveal_strlit("5");
        reveal_strlit("6");
        reveal_strlit("7");
        reveal_strlit("8");
        reveal_strlit("9");
    }
    if d == 0 {
        "0"
    } else if d == 1 {
        "1"
    } else if d == 2 {
        "2"
    } else if d == 3 {
        "3"
    } else if d == 4 {
        "4"
    } else if d == 5 {
        "5"
    } else if d == 6 {
        "6"
    } else if d == 7 {
        "7"
    } else if d == 8 {
        "8"
    } else {
        "9"
    }
}

/// Render an unsigned integer in decimal.
fn u64_decimal(n: u64) -> (r: String)
    ensures
        r@ == dec_digits(n as int),
    decreases n,
{
    if n < 10 {
        digit_str(n).to_owned()
    } else {
        let mut s = u64_decimal(n / 10);
        s.append(digit_str(n % 10));
        proof {
            assert(s@ =~= dec_digits(n as int));
        }
        s
    }
}

/// The mathematical value of a [`Locale`]: the four components as character
/// sequences.
#[verifier::ext_equal]
pub ghost struct LocaleV {
    pub lang: Seq<char>,
    pub country: Option<Seq<char>>,
    pub encoding: Option<Seq<char>>,
    pub modifier: Option<Seq<char>>,
}

/// Well-formedness of a locale value: each component satisfies its
/// character class.
pub open spec fn loc_wf(l: LocaleV) -> bool {
    &&& valid_alpha_word(l.lang)
    &&& (l.country matches Some(c) ==> valid_alpha_word(c))
    &&& (l.encoding matches Some(e) ==> valid_encoding(e))
    &&& (l.modifier matches Some(m) ==> valid_alpha_word(m))
}

/// How a locale is rendered after a key: `lang[_COUNTRY][@MODIFIER]`.
/// The encoding is never rendered.
pub open spec fn render_locale(l: LocaleV) -> Seq<char> {
    l.lang + (match l.country {
        Some(c) => seq!['_'] + c,
        None => Seq::<char>::empty(),
    }) + (match l.modifier {
        Some(m) => seq!['@'] + m,
        None => Seq::<char>::empty(),
    })
}

/// The full source form of a locale, `lang[_COUNTRY][.ENCODING][@MODIFIER]`,
/// as it appears between brackets in a key-value line.
pub open spec fn render_locale_full(l: LocaleV) -> Seq<char> {
    l.lang + (match l.country {
        Some(c) => seq!['_'] + c,
        None => Seq::<char>::empty(),
    }) + (match l.encoding {
        Some(e) => seq!['.'] + e,
        None => Seq::<char>::empty(),
    }) + (match l.modifier {
        Some(m) => seq!['@'] + m,
        None => Seq::<char>::empty(),
    })
}

/// A marked optional locale component: if the character at `pos` is `mark`,
/// the component is the non-empty run of `p`-characters after it (`None` if
/// that run is empty, which fails the whole locale); otherwise the component
/// is absent and the position does not move.
pub open spec fn spec_marked_word(
    s: Seq<char>,
    pos: int,
    mark: char,
    p: spec_fn(char) -> bool,
) -> Option<(Option<Seq<char>>, int)>
    recommends
        0 <= pos <= s.len(),
{
    if pos < s.len() && s[pos] == mark {
        let e = run_end(s, pos + 1, p);
        if e == pos + 1 {
            None
        } else {
            Some((Some(s.subrange(pos + 1, e)), e))
        }
    } else {
        Some((None, pos))
    }
}

/// The locale grammar `lang[_COUNTRY][.ENCODING][@MODIFIER]` starting at
/// `from`: the parsed components and the position after them, or `None` if
/// the text at `from` does not begin with a valid locale.
pub open spec fn spec_locale_body(s: Seq<char>, from: int) -> Option<(LocaleV, int)>
    recommends
        0 <= from <= s.len(),
{
    let le = run_end(s, from, |c: char| is_alpha_char(c));
    if le == from {
        None
    } else {
        match spec_marked_word(s, le, '_', |c: char| is_alpha_char(c)) {
            None => None,
            Some((country, p1)) => match spec_marked_word(s, p1, '.', |c: char| is_key_char(c)) {
                None => None,
                Some((encoding, p2)) => match spec_marked_word(
                    s,
                    p2,
                    '@',
                    |c: char| is_alpha_char(c),
                ) {
                    None => None,
                    Some((modifier, p3)) => Some(
                        (
                            LocaleV {
                                lang: s.subrange(from, le),
                                country,
                                encoding,
                                modifier,
                            },
                            p3,
                        ),
                    ),
                },
            },
        }
    }
}

/// What [`Locale::try_from`] returns for a given input: the input must be a
/// complete locale, and a locale with an encoding component is rejected
/// because only UTF-8 values can be constructed.
pub open spec fn locale_from_str(s: Seq<char>) -> Result<LocaleV, InvalidString> {
    match spec_locale_body(s, 0) {
        None => Err(InvalidString::Locale),
        Some((lv, p)) => if p != s.len() {
            Err(InvalidString::Locale)
        } else if lv.encoding is Some {
            Err(InvalidString::Encoding)
        } else {
            Ok(lv)
        },
    }
}

/// A locale identifier attached to a key to mark a translated value:
/// required language, optional country, optional encoding, and optional
/// modifier.
///
/// Rendered as `lang[_COUNTRY][@MODIFIER]`; the encoding component is
/// recognized by the parser but never rendered, and cannot be constructed
/// programmatically.
#[derive(Debug, PartialEq, Eq, Hash)]
pub struct Locale {
    lang: String,
    country: Option<String>,
    encoding: Option<String>,
    modifier: Option<String>,
}

impl View for Locale {
    type V = LocaleV;

    closed spec fn view(&self) -> LocaleV {
        LocaleV {
            lang: self.lang@,
            country: match self.country {
                Some(c) => Some(c@),
                None => None,
            },
            encoding: match self.encoding {
                Some(e) => Some(e@),
                None => None,
            },
            modifier: match self.modifier {
                Some(m) => Some(m@),
                None => None,
            },
        }
    }
}

impl DeepView for Locale {
    type V = LocaleV;

    open spec fn deep_view(&self) -> LocaleV {
        self.view()
    }
}

impl Clone for Locale {
    /// Cloning a locale preserves its value.
    fn clone(&self) -> (r: Self)
        ensures
            r == *self,
    {
        proof {
            use_type_invariant(self);
        }
        Locale {
            lang: self.lang.clone(),
            country: match &self.country {
                Some(c) => Some(c.clone()),
                None => None,
            },
            encoding: match &self.encoding {
                Some(e) => Some(e.clone()),
                None => None,
            },
            modifier: match &self.modifier {
                Some(m) => Some(m.clone()),
                None => None,
            },
        }
    }
}

impl Locale {
    /// The component invariant; holds of every constructed value.
    #[verifier::type_invariant]
    pub open spec fn wf(self) -> bool {
        loc_wf(self@)
    }

    /// Create a new locale. No encoding can be set: only UTF-8 values can
    /// be constructed, so a value for a key with an encoding could never be
    /// valid.
    pub fn new(lang: Language, country: Option<Country>, modifier: Option<Modifier>) -> (r: Self)
        ensures
            r@ == (LocaleV {
                lang: lang@,
                country: country.deep_view(),
                encoding: None,
                modifier: modifier.deep_view(),
            }),
    {
        proof {
            use_type_invariant(&lang);
            if let Some(c) = &country {
                use_type_invariant(c);
            }
            if let Some(m) = &modifier {
                use_type_invariant(m);
            }
        }
        Locale {
            lang: lang.into_string(),
            country: match country {
                Some(c) => Some(c.into_string()),
                None => None,
            },
            encoding: None,
            modifier: match modifier {
                Some(m) => Some(m.into_string()),
                None => None,
            },
        }
    }

    /// Create a new locale with all four components. Used by the parser,
    /// which accepts an encoding syntactically.
    pub(crate) fn new_with_encoding(
        lang: Language,
        country: Option<Country>,
        encoding: Option<Encoding>,
        modifier: Option<Modifier>,
    ) -> (r: Self)
        ensures
            r@ == (LocaleV {
                lang: lang@,
                country: country.deep_view(),
                encoding: encoding.deep_view(),
                modifier: modifier.deep_view(),
            }),
    {
        proof {
            use_type_invariant(&lang);
            if let Some(c) = &country {
                use_type_invariant(c);
            }
            if let Some(e) = &encoding {
                use_type_invariant(e);
            }
            if let Some(m) = &modifier {
                use_type_invariant(m);
            }
        }
        Locale {
            lang: lang.into_string(),
            country: match country {
                Some(c) => Some(c.into_string()),
                None => None,
            },
            encoding: match encoding {
                Some(e) => Some(e.into_string()),
                None => None,
            },
            modifier: match modifier {
                Some(m) => Some(m.into_string()),
                None => None,
            },
        }
    }

    /// Validate `value` as a complete locale. A locale with an encoding
    /// component is rejected: only UTF-8 values can be constructed.
    pub fn try_from(value: &str) -> (r: Result<Self, InvalidString>)
        ensures
            match locale_from_str(value@) {
                Ok(lv) => r matches Ok(l) && l@ == lv,
                Err(e) => r == Err::<Self, _>(e),
            },
    {
        let n = value.unicode_len();
        match scan_locale_body(value, 0) {
            None => Err(InvalidString::Locale),
            Some((locale, pos)) => {
                if pos != n {
                    Err(InvalidString::Locale)
                } else if locale.has_encoding() {
                    Err(InvalidString::Encoding)
                } else {
                    Ok(locale)
                }
            },
        }
    }

    /// Convert into a locale that borrows nothing. Every locale already
    /// owns its strings, so this returns the value unchanged.
    pub fn into_owned(self) -> (r: Locale)
        ensures
            r == self,
    {
        self
    }

    /// The language component.
    pub fn get_lang(&self) -> (r: &str)
        ensures
            r@ == self@.lang,
    {
        self.lang.as_str()
    }

    /// Replace the language component; the replaced string is returned.
    pub fn set_lang(&mut self, lang: Language) -> (r: String)
        ensures
            final(self)@ == (LocaleV { lang: lang@, ..old(self)@ }),
            r@ == old(self)@.lang,
    {
        proof {
            use_type_invariant(&*self);
            use_type_invariant(&lang);
        }
        let prev = self.lang.clone();
        self.lang = lang.into_string();
        prev
    }

    /// The country component, if any.
    pub fn get_country(&self) -> (r: Option<&str>)
        ensures
            match self@.country {
                Some(c) => r matches Some(s) && s@ == c,
                None => r is None,
            },
    {
        match &self.country {
            Some(c) => Some(c.as_str()),
            None => None,
        }
    }

    /// Replace the country component; the replaced string is returned.
    pub fn set_country(&mut self, country: Option<Country>) -> (r: Option<String>)
        ensures
            final(self)@ == (LocaleV { country: country.deep_view(), ..old(self)@ }),
            match old(self)@.country {
                Some(c) => r matches Some(s) && s@ == c,
                None => r is None,
            },
    {
        proof {
            use_type_invariant(&*self);
            if let Some(c) = &country {
                use_type_invariant(c);
            }
        }
        let prev = match &self.country {
            Some(c) => Some(c.clone()),
            None => None,
        };
        self.country = match country {
            Some(c) => Some(c.into_string()),
            None => None,
        };
        prev
    }

    /// The encoding component, if any. It can only be present on a locale
    /// produced by the line matcher.
    pub fn get_encoding(&self) -> (r: Option<&str>)
        ensures
            match self@.encoding {
                Some(e) => r matches Some(s) && s@ == e,
                None => r is None,
            },
    {
        match &self.encoding {
            Some(e) => Some(e.as_str()),
            None => None,
        }
    }

    /// Whether the encoding component is present.
    pub fn has_encoding(&self) -> (r: bool)
        ensures
            r == (self@.encoding is Some),
    {
        self.encoding.is_some()
    }

    /// The modifier component, if any.
    pub fn get_modifier(&self) -> (r: Option<&str>)
        ensures
            match self@.modifier {
                Some(m) => r matches Some(s) && s@ == m,
                None => r is None,
            },
    {
        match &self.modifier {
            Some(m) => Some(m.as_str()),
            None => None,
        }
    }

    /// Replace the modifier component; the replaced string is returned.
    pub fn set_modifier(&mut self, modifier: Option<Modifier>) -> (r: Option<String>)
        ensures
            final(self)@ == (LocaleV { modifier: modifier.deep_view(), ..old(self)@ }),
            match old(self)@.modifier {
                Some(m) => r matches Some(s) && s@ == m,
                None => r is None,
            },
    {
        proof {
            use_type_invariant(&*self);
            if let Some(m) = &modifier {
                use_type_invariant(m);
            }
        }
        let prev = match &self.modifier {
            Some(m) => Some(m.clone()),
            None => None,
        };
        self.modifier = match modifier {
            Some(m) => Some(m.into_string()),
            None => None,
        };
        prev
    }

    /// Render the locale as it appears after a key: `lang[_COUNTRY][@MODIFIER]`.
    /// The encoding is never rendered.
    pub fn render(&self) -> (r: String)
        ensures
            r@ == render_locale(self@),
    {
        proof {
            reveal_strlit("_");
            reveal_strlit("@");
        }
        let mut out = self.lang.clone();
        if let Some(c) = &self.country {
            out.append("_");
            out.append(c.as_str());
        }
        if let Some(m) = &self.modifier {
            out.append("@");
            out.append(m.as_str());
        }
        proof {
            assert(r"_"@ =~= seq!['_']);
            assert(r"@"@ =~= seq!['@']);
            assert(out@ =~= render_locale(self@));
        }
        out
    }
}

/// Scan the locale grammar starting at `from`: the locale and the position
/// after it, or `None` if no valid locale begins there.
pub(crate) fn scan_locale_body(s: &str, from: usize) -> (r: Option<(Locale, usize)>)
    requires
        from <= s@.len(),
    ensures
        match spec_locale_body(s@, from as int) {
            Some((lv, p)) => r matches Some(x) && x.0@ == lv && x.1 == p && from < p <= s@.len(),
            None => r is None,
        },
{
    let n = s.unicode_len();
    proof {
        lemma_run_end_props(s@, from as int, |c: char| is_alpha_char(c));
    }
    let le = crate::chars::scan_alpha(s, from);
    if le == from {
        return None;
    }
    let lang = s.substring_char(from, le).to_owned();

    let mut pos = le;
    let country: Option<String>;
    if pos < n && s.get_char(pos) == '_' {
        proof {
            lemma_run_end_props(s@, pos + 1, |c: char| is_alpha_char(c));
        }
        let ce = crate::chars::scan_alpha(s, pos + 1);
        if ce == pos + 1 {
            return None;
        }
        country = Some(s.substring_char(pos + 1, ce).to_owned());
        pos = ce;
    } else {
        country = None;
    }

    let encoding: Option<String>;
    if pos < n && s.get_char(pos) == '.' {
        proof {
            lemma_run_end_props(s@, pos + 1, |c: char| is_key_char(c));
        }
        let ee = crate::chars::scan_key(s, pos + 1);
        if ee == pos + 1 {
            return None;
        }
        encoding = Some(s.substring_char(pos + 1, ee).to_owned());
        pos = ee;
    } else {
        encoding = None;
    }

    let modifier: Option<String>;
    if pos < n && s.get_char(pos) == '@' {
        proof {
            lemma_run_end_props(s@, pos + 1, |c: char| is_alpha_char(c));
        }
        let me = crate::chars::scan_alpha(s, pos + 1);
        if me == pos + 1 {
            return None;
        }
        modifier = Some(s.substring_char(pos + 1, me).to_owned());
        pos = me;
    } else {
        modifier = None;
    }

    Some((Locale { lang, country, encoding, modifier }, pos))
}

} // verus!
