//! Keybinding strings such as `Super+Shift+Q`: the typed binding and its parser.
use vstd::prelude::*;
use vstd::string::StrSliceExecFns;

use crate::text::{
    ascii_lower, ascii_upper, chars_of, is_ascii_alphanumeric, is_ascii_alphanumeric_char,
    is_ascii_upper, is_white_space, lower_matches, lowercase, to_ascii_upper, trim, trim_end,
    trim_start, trimmed_range,
};

verus! {

/// Which modifier keys a binding holds down.
#[derive(Clone, Copy, Debug, PartialEq, Eq, Structural, Hash)]
pub struct Modifiers {
    pub super_key: bool,
    pub ctrl: bool,
    pub alt: bool,
    pub shift: bool,
}

impl Modifiers {
    pub open spec fn spec_none() -> Modifiers {
        Modifiers { super_key: false, ctrl: false, alt: false, shift: false }
    }
}

impl Default for Modifiers {
    fn default() -> (m: Self)
        ensures
            m == Modifiers::spec_none(),
    {
        Modifiers { super_key: false, ctrl: false, alt: false, shift: false }
    }
}

/// The non-modifier key of a binding.
#[derive(Clone, Copy, Debug, PartialEq, Eq, Structural, Hash)]
pub enum Key {
    Char(char),
    Enter,
    Equal,
    Minus,
    Left,
    Right,
    Up,
    Down,
    Zero,
}

/// A set of modifiers together with one key.
#[derive(Clone, Copy, Debug, PartialEq, Eq, Structural, Hash)]
pub struct KeyBinding {
    pub modifiers: Modifiers,
    pub key: Key,
}

/// Why a keybinding string, or a set of them, was refused.
#[derive(Clone, Debug, PartialEq, Eq)]
pub enum KeyBindingParseError {
    Empty,
    UnknownKey(String),
    MultipleKeys,
    MissingKey,
    DuplicateBinding { first: &'static str, second: &'static str },
}

/// A parse error as a mathematical value.
pub enum KeyBindingErrorView {
    Empty,
    UnknownKey(Seq<char>),
    MultipleKeys,
    MissingKey,
    DuplicateBinding { first: Seq<char>, second: Seq<char> },
}

impl View for KeyBindingParseError {
    type V = KeyBindingErrorView;

    open spec fn view(&self) -> KeyBindingErrorView {
        match self {
            KeyBindingParseError::Empty => KeyBindingErrorView::Empty,
            KeyBindingParseError::UnknownKey(s) => KeyBindingErrorView::UnknownKey(s@),
            KeyBindingParseError::MultipleKeys => KeyBindingErrorView::MultipleKeys,
            KeyBindingParseError::MissingKey => KeyBindingErrorView::MissingKey,
            KeyBindingParseError::DuplicateBinding { first, second } => {
                KeyBindingErrorView::DuplicateBinding { first: first@, second: second@ }
            },
        }
    }
}

impl KeyBindingParseError {
    /// The human-readable description of the error.
    pub fn message(&self) -> (m: String)
        ensures
            m@ == error_message(self@),
    {
        match self {
            KeyBindingParseError::Empty => "keybinding is empty".to_owned(),
            KeyBindingParseError::UnknownKey(key) => {
                let mut m = "unknown key: ".to_owned();
                m.append(key.as_str());
                m
            },
            KeyBindingParseError::MultipleKeys => "keybinding contains multiple keys".to_owned(),
            KeyBindingParseError::MissingKey => "keybinding is missing a key".to_owned(),
            KeyBindingParseError::DuplicateBinding { first, second } => {
                let mut m = "duplicate keybinding for ".to_owned();
                m.append(first);
                m.append(" and ");
                m.append(second);
                m
            },
        }
    }
}

/// The text that describes a parse error.
pub open spec fn error_message(e: KeyBindingErrorView) -> Seq<char> {
    match e {
        KeyBindingErrorView::Empty => "keybinding is empty"@,
        KeyBindingErrorView::UnknownKey(key) => "unknown key: "@ + key,
        KeyBindingErrorView::MultipleKeys => "keybinding contains multiple keys"@,
        KeyBindingErrorView::MissingKey => "keybinding is missing a key"@,
        KeyBindingErrorView::DuplicateBinding { first, second } => "duplicate keybinding for "@
            + first + " and "@ + second,
    }
}

/// The named keys, matched without regard to ASCII case.
pub open spec fn named_key(lower: Seq<char>) -> Option<Key> {
    if lower == seq!['e', 'n', 't', 'e', 'r'] {
        Some(Key::Enter)
    } else if lower == seq!['e', 'q', 'u', 'a', 'l'] {
        Some(Key::Equal)
    } else if lower == seq!['m', 'i', 'n', 'u', 's'] {
        Some(Key::Minus)
    } else if lower == seq!['l', 'e', 'f', 't'] {
        Some(Key::Left)
    } else if lower == seq!['r', 'i', 'g', 'h', 't'] {
        Some(Key::Right)
    } else if lower == seq!['u', 'p'] {
        Some(Key::Up)
    } else if lower == seq!['d', 'o', 'w', 'n'] {
        Some(Key::Down)
    } else if lower == seq!['0'] {
        Some(Key::Zero)
    } else {
        None
    }
}

/// The key that a (trimmed) token names: a named key, or one ASCII letter or
/// digit, which is stored upper-cased.
pub open spec fn spec_parse_key(token: Seq<char>) -> Result<Key, KeyBindingErrorView> {
    match named_key(lowercase(token)) {
        Some(k) => Ok(k),
        None => if token.len() == 1 && is_ascii_alphanumeric(token[0]) {
            Ok(Key::Char(ascii_upper(token[0])))
        } else {
            Err(KeyBindingErrorView::UnknownKey(token))
        },
    }
}

/// What has been read so far: the modifiers and, once seen, the key.
pub type ParseState = (Modifiers, Option<Key>);

/// Reads one `+`-separated token into the state.
pub open spec fn spec_step(st: ParseState, raw: Seq<char>) -> Result<ParseState, KeyBindingErrorView> {
    let t = trim(raw);
    let l = lowercase(t);
    if t.len() == 0 {
        Err(KeyBindingErrorView::UnknownKey(t))
    } else if l == seq!['s', 'u', 'p', 'e', 'r'] {
        Ok((Modifiers { super_key: true, ..st.0 }, st.1))
    } else if l == seq!['c', 't', 'r', 'l'] || l == seq!['c', 'o', 'n', 't', 'r', 'o', 'l'] {
        Ok((Modifiers { ctrl: true, ..st.0 }, st.1))
    } else if l == seq!['a', 'l', 't'] {
        Ok((Modifiers { alt: true, ..st.0 }, st.1))
    } else if l == seq!['s', 'h', 'i', 'f', 't'] {
        Ok((Modifiers { shift: true, ..st.0 }, st.1))
    } else if st.1 is Some {
        Err(KeyBindingErrorView::MultipleKeys)
    } else {
        match spec_parse_key(t) {
            Ok(k) => Ok((st.0, Some(k))),
            Err(e) => Err(e),
        }
    }
}

/// Reads the tokens of `cur + rest`, where `cur` is the token being read and
/// `rest` what follows it; tokens are separated by `+` and read left to right,
/// and the first token that fails decides the error.
pub open spec fn spec_scan(st: ParseState, cur: Seq<char>, rest: Seq<char>) -> Result<
    ParseState,
    KeyBindingErrorView,
>
    decreases rest.len(),
{
    if rest.len() == 0 {
        spec_step(st, cur)
    } else if rest[0] == '+' {
        match spec_step(st, cur) {
            Ok(st2) => spec_scan(st2, Seq::empty(), rest.drop_first()),
            Err(e) => Err(e),
        }
    } else {
        spec_scan(st, cur.push(rest[0]), rest.drop_first())
    }
}

/// The meaning of a keybinding string.
pub open spec fn spec_parse_keybinding(s: Seq<char>) -> Result<KeyBinding, KeyBindingErrorView> {
    if trim(s).len() == 0 {
        Err(KeyBindingErrorView::Empty)
    } else {
        match spec_scan((Modifiers::spec_none(), None), Seq::empty(), s) {
            Err(e) => Err(e),
            Ok((_, None)) => Err(KeyBindingErrorView::MissingKey),
            Ok((m, Some(k))) => Ok(KeyBinding { modifiers: m, key: k }),
        }
    }
}

/// A parse result as a mathematical value.
pub open spec fn parse_result_view(r: Result<KeyBinding, KeyBindingParseError>) -> Result<
    KeyBinding,
    KeyBindingErrorView,
> {
    match r {
        Ok(b) => Ok(b),
        Err(e) => Err(e@),
    }
}

fn parse_key(input: &str, v: &Vec<char>, a: usize, b: usize) -> (r: Result<Key, KeyBindingParseError>)
    requires
        v@ == input@,
        a < b <= v.len(),
    ensures
        match r {
            Ok(k) => spec_parse_key(v@.subrange(a as int, b as int)) == Ok::<Key, KeyBindingErrorView>(k),
            Err(e) => spec_parse_key(v@.subrange(a as int, b as int)) == Err::<Key, KeyBindingErrorView>(e@),
        },
{
    let w_enter = ['e', 'n', 't', 'e', 'r'];
    let w_equal = ['e', 'q', 'u', 'a', 'l'];
    let w_minus = ['m', 'i', 'n', 'u', 's'];
    let w_left = ['l', 'e', 'f', 't'];
    let w_right = ['r', 'i', 'g', 'h', 't'];
    let w_up = ['u', 'p'];
    let w_down = ['d', 'o', 'w', 'n'];
    let w_zero = ['0'];
    assert(w_enter@ =~= seq!['e', 'n', 't', 'e', 'r']);
    assert(w_equal@ =~= seq!['e', 'q', 'u', 'a', 'l']);
    assert(w_minus@ =~= seq!['m', 'i', 'n', 'u', 's']);
    assert(w_left@ =~= seq!['l', 'e', 'f', 't']);
    assert(w_right@ =~= seq!['r', 'i', 'g', 'h', 't']);
    assert(w_up@ =~= seq!['u', 'p']);
    assert(w_down@ =~= seq!['d', 'o', 'w', 'n']);
    assert(w_zero@ =~= seq!['0']);
    if lower_matches(v, a, b, &w_enter) {
        Ok(Key::Enter)
    } else if lower_matches(v, a, b, &w_equal) {
        Ok(Key::Equal)
    } else if lower_matches(v, a, b, &w_minus) {
        Ok(Key::Minus)
    } else if lower_matches(v, a, b, &w_left) {
        Ok(Key::Left)
    } else if lower_matches(v, a, b, &w_right) {
        Ok(Key::Right)
    } else if lower_matches(v, a, b, &w_up) {
        Ok(Key::Up)
    } else if lower_matches(v, a, b, &w_down) {
        Ok(Key::Down)
    } else if lower_matches(v, a, b, &w_zero) {
        Ok(Key::Zero)
    } else {
        let ghost t = v@.subrange(a as int, b as int);
        assert(named_key(lowercase(t)) is None);
        parse_char_key(input, v, a, b)
    }
}

fn parse_char_key(input: &str, v: &Vec<char>, a: usize, b: usize) -> (r: Result<Key, KeyBindingParseError>)
    requires
        v@ == input@,
        a < b <= v.len(),
    ensures
        match r {
            Ok(k) => {
                let t = v@.subrange(a as int, b as int);
                t.len() == 1 && is_ascii_alphanumeric(t[0]) && k == Key::Char(ascii_upper(t[0]))
            },
            Err(e) => {
                let t = v@.subrange(a as int, b as int);
                !(t.len() == 1 && is_ascii_alphanumeric(t[0])) && e@ == KeyBindingErrorView::UnknownKey(t)
            },
        },
{
    if b - a == 1 && is_ascii_alphanumeric_char(v[a]) {
        Ok(Key::Char(to_ascii_upper(v[a])))
    } else {
        Err(KeyBindingParseError::UnknownKey(input.substring_char(a, b).to_owned()))
    }
}

/// Reads the token `v[seg..end]` into the state.
fn step(input: &str, v: &Vec<char>, seg: usize, end: usize, st: ParseState) -> (r: Result<
    ParseState,
    KeyBindingParseError,
>)
    requires
        v@ == input@,
        seg <= end <= v.len(),
    ensures
        match r {
            Ok(s2) => spec_step(st, v@.subrange(seg as int, end as int)) == Ok::<ParseState, KeyBindingErrorView>(s2),
            Err(e) => spec_step(st, v@.subrange(seg as int, end as int)) == Err::<ParseState, KeyBindingErrorView>(e@),
        },
{
    let (a, b) = trimmed_range(v, seg, end);
    let (mods, key) = st;
    if a == b {
        return Err(KeyBindingParseError::UnknownKey(input.substring_char(a, b).to_owned()));
    }
    let w_super = ['s', 'u', 'p', 'e', 'r'];
    let w_ctrl = ['c', 't', 'r', 'l'];
    let w_control = ['c', 'o', 'n', 't', 'r', 'o', 'l'];
    let w_alt = ['a', 'l', 't'];
    let w_shift = ['s', 'h', 'i', 'f', 't'];
    assert(w_super@ =~= seq!['s', 'u', 'p', 'e', 'r']);
    assert(w_ctrl@ =~= seq!['c', 't', 'r', 'l']);
    assert(w_control@ =~= seq!['c', 'o', 'n', 't', 'r', 'o', 'l']);
    assert(w_alt@ =~= seq!['a', 'l', 't']);
    assert(w_shift@ =~= seq!['s', 'h', 'i', 'f', 't']);
    if lower_matches(v, a, b, &w_super) {
        Ok((Modifiers { super_key: true, ..mods }, key))
    } else if lower_matches(v, a, b, &w_ctrl) || lower_matches(v, a, b, &w_control) {
        Ok((Modifiers { ctrl: true, ..mods }, key))
    } else if lower_matches(v, a, b, &w_alt) {
        Ok((Modifiers { alt: true, ..mods }, key))
    } else if lower_matches(v, a, b, &w_shift) {
        Ok((Modifiers { shift: true, ..mods }, key))
    } else if key.is_some() {
        Err(KeyBindingParseError::MultipleKeys)
    } else {
        match parse_key(input, v, a, b) {
            Ok(k) => Ok((mods, Some(k))),
            Err(e) => Err(e),
        }
    }
}

/// Parses a keybinding string: `+`-separated tokens, each trimmed of white
/// space; `Super`, `Ctrl`/`Control`, `Alt` and `Shift` (in any ASCII case)
/// are modifiers, and exactly one other token names the key.
pub fn parse_keybinding(input: &str) -> (r: Result<KeyBinding, KeyBindingParseError>)
    ensures
        parse_result_view(r) == spec_parse_keybinding(input@),
{
    let v = chars_of(input);
    let n = v.len();
    let (ta, tb) = trimmed_range(&v, 0, n);
    assert(v@.subrange(0, n as int) =~= input@);
    if ta == tb {
        return Err(KeyBindingParseError::Empty);
    }
    let mut st: ParseState = (Modifiers::default(), None);
    let mut seg: usize = 0;
    let mut i: usize = 0;
    assert(v@.skip(0) =~= v@);
    assert(v@.subrange(0, 0) =~= Seq::<char>::empty());
    while i < n
        invariant
            v@ == input@,
            trim(input@).len() > 0,
            n == v.len(),
            seg <= i <= n,
            spec_scan((Modifiers::spec_none(), None), Seq::empty(), v@) == spec_scan(
                st,
                v@.subrange(seg as int, i as int),
                v@.skip(i as int),
            ),
        decreases n - i,
    {
        let ghost rest = v@.skip(i as int);
        assert(rest.drop_first() =~= v@.skip(i + 1));
        assert(rest.len() > 0 && rest[0] == v@[i as int]);
        if v[i] == '+' {
            match step(input, &v, seg, i, st) {
                Ok(s2) => {
                    st = s2;
                },
                Err(e) => {
                    return Err(e);
                },
            }
            seg = i + 1;
            assert(v@.subrange(seg as int, i + 1) =~= Seq::<char>::empty());
        } else {
            assert(v@.subrange(seg as int, i as int).push(v@[i as int]) =~= v@.subrange(
                seg as int,
                i + 1,
            ));
        }
        i = i + 1;
    }
    assert(v@.skip(n as int) =~= Seq::<char>::empty());
    match step(input, &v, seg, n, st) {
        Err(e) => Err(e),
        Ok((mods, key)) => match key {
            None => Err(KeyBindingParseError::MissingKey),
            Some(k) => Ok(KeyBinding { modifiers: mods, key: k }),
        },
    }
}

impl core::str::FromStr for KeyBinding {
    type Err = KeyBindingParseError;

    fn from_str(input: &str) -> (r: Result<Self, Self::Err>)
        ensures
            parse_result_view(r) == spec_parse_keybinding(input@),
    {
        parse_keybinding(input)
    }
}

/// The error with an unknown key's text ASCII lower-cased.
pub open spec fn lower_unknown_key(e: KeyBindingErrorView) -> KeyBindingErrorView {
    match e {
        KeyBindingErrorView::UnknownKey(t) => KeyBindingErrorView::UnknownKey(lowercase(t)),
        _ => e,
    }
}

pub open spec fn lower_unknown_key_in<T>(r: Result<T, KeyBindingErrorView>) -> Result<T, KeyBindingErrorView> {
    match r {
        Ok(v) => Ok(v),
        Err(e) => Err(lower_unknown_key(e)),
    }
}

proof fn lemma_lower_char(c: char)
    ensures
        is_white_space(ascii_lower(c)) == is_white_space(c),
        (ascii_lower(c) == '+') == (c == '+'),
        ascii_lower(ascii_lower(c)) == ascii_lower(c),
        is_ascii_alphanumeric(ascii_lower(c)) == is_ascii_alphanumeric(c),
        ascii_upper(ascii_lower(c)) == ascii_upper(c),
{
    if is_ascii_upper(c) {
        let u = c as u32;
        assert(65 <= u <= 90);
        assert((ascii_lower(c) as u32) == u + 32);
    }
}

proof fn lemma_lowercase_shape(s: Seq<char>)
    ensures
        lowercase(s).len() == s.len(),
        forall|i: int| 0 <= i < s.len() ==> #[trigger] lowercase(s)[i] == ascii_lower(s[i]),
        lowercase(lowercase(s)) == lowercase(s),
        s.len() > 0 ==> lowercase(s).drop_first() == lowercase(s.drop_first()),
        s.len() > 0 ==> lowercase(s).drop_last() == lowercase(s.drop_last()),
{
    assert forall|i: int| 0 <= i < s.len() implies #[trigger] lowercase(lowercase(s))[i] == lowercase(s)[i] by {
        lemma_lower_char(s[i]);
    }
    assert(lowercase(lowercase(s)) =~= lowercase(s));
    if s.len() > 0 {
        assert(lowercase(s).drop_first() =~= lowercase(s.drop_first()));
        assert(lowercase(s).drop_last() =~= lowercase(s.drop_last()));
    }
}

proof fn lemma_push_lowercase(s: Seq<char>, c: char)
    ensures
        lowercase(s.push(c)) == lowercase(s).push(ascii_lower(c)),
{
    assert(lowercase(s.push(c)) =~= lowercase(s).push(ascii_lower(c)));
}

proof fn lemma_trim_start_lowercase(s: Seq<char>)
    ensures
        trim_start(lowercase(s)) == lowercase(trim_start(s)),
    decreases s.len(),
{
    lemma_lowercase_shape(s);
    if s.len() > 0 {
        lemma_lower_char(s[0]);
        if is_white_space(s[0]) {
            lemma_trim_start_lowercase(s.drop_first());
        }
    }
}

proof fn lemma_trim_end_lowercase(s: Seq<char>)
    ensures
        trim_end(lowercase(s)) == lowercase(trim_end(s)),
    decreases s.len(),
{
    lemma_lowercase_shape(s);
    if s.len() > 0 {
        lemma_lower_char(s.last());
        assert(lowercase(s).last() == ascii_lower(s.last()));
        if is_white_space(s.last()) {
            lemma_trim_end_lowercase(s.drop_last());
        }
    }
}

proof fn lemma_trim_lowercase(s: Seq<char>)
    ensures
        trim(lowercase(s)) == lowercase(trim(s)),
{
    lemma_trim_start_lowercase(s);
    lemma_trim_end_lowercase(trim_start(s));
}

proof fn lemma_parse_key_lowercase(t: Seq<char>)
    ensures
        spec_parse_key(lowercase(t)) == lower_unknown_key_in(spec_parse_key(t)),
{
    lemma_lowercase_shape(t);
    if t.len() == 1 {
        lemma_lower_char(t[0]);
    }
}

proof fn lemma_step_lowercase(st: ParseState, raw: Seq<char>)
    ensures
        spec_step(st, lowercase(raw)) == lower_unknown_key_in(spec_step(st, raw)),
{
    let t = trim(raw);
    lemma_trim_lowercase(raw);
    lemma_lowercase_shape(t);
    lemma_parse_key_lowercase(t);
}

proof fn lemma_scan_lowercase(st: ParseState, cur: Seq<char>, rest: Seq<char>)
    ensures
        spec_scan(st, lowercase(cur), lowercase(rest)) == lower_unknown_key_in(spec_scan(st, cur, rest)),
    decreases rest.len(),
{
    lemma_lowercase_shape(rest);
    if rest.len() == 0 {
        lemma_step_lowercase(st, cur);
    } else {
        lemma_lower_char(rest[0]);
        if rest[0] == '+' {
            lemma_step_lowercase(st, cur);
            match spec_step(st, cur) {
                Ok(st2) => {
                    assert(lowercase(Seq::<char>::empty()) =~= Seq::<char>::empty());
                    lemma_scan_lowercase(st2, Seq::empty(), rest.drop_first());
                },
                Err(_) => {},
            }
        } else {
            lemma_push_lowercase(cur, rest[0]);
            lemma_scan_lowercase(st, cur.push(rest[0]), rest.drop_first());
        }
    }
}

/// ASCII case does not matter: the lower-cased string parses to the same
/// binding, or fails the same way (an unknown key then reads in lower case).
pub proof fn law_parse_ignores_ascii_case(s: Seq<char>)
    ensures
        spec_parse_keybinding(lowercase(s)) == lower_unknown_key_in(spec_parse_keybinding(s)),
{
    lemma_trim_lowercase(s);
    lemma_lowercase_shape(trim(s));
    assert(lowercase(Seq::<char>::empty()) =~= Seq::<char>::empty());
    lemma_scan_lowercase((Modifiers::spec_none(), None), Seq::empty(), s);
}


/// Reads a sequence of tokens into the state, left to right; the first token
/// that fails decides the error.
pub open spec fn spec_fold(st: ParseState, toks: Seq<Seq<char>>) -> Result<ParseState, KeyBindingErrorView>
    decreases toks.len(),
{
    if toks.len() == 0 {
        Ok(st)
    } else {
        match spec_step(st, toks[0]) {
            Ok(st2) => spec_fold(st2, toks.drop_first()),
            Err(e) => Err(e),
        }
    }
}

/// The `+`-separated tokens of `cur + rest`, where `cur` is the token begun.
pub open spec fn spec_split(cur: Seq<char>, rest: Seq<char>) -> Seq<Seq<char>>
    decreases rest.len(),
{
    if rest.len() == 0 {
        seq![cur]
    } else if rest[0] == '+' {
        seq![cur] + spec_split(Seq::empty(), rest.drop_first())
    } else {
        spec_split(cur.push(rest[0]), rest.drop_first())
    }
}

/// The `+`-separated tokens of a keybinding string.
pub open spec fn tokens(s: Seq<char>) -> Seq<Seq<char>> {
    spec_split(Seq::empty(), s)
}

/// What a token says once white space around it and ASCII case are set aside.
pub open spec fn token_key(t: Seq<char>) -> Seq<char> {
    lowercase(trim(t))
}

pub open spec fn keys_of(toks: Seq<Seq<char>>) -> Seq<Seq<char>> {
    toks.map_values(|t: Seq<char>| token_key(t))
}

/// The tokens of a keybinding string, trimmed and ASCII lower-cased, in order.
pub open spec fn token_keys(s: Seq<char>) -> Seq<Seq<char>> {
    keys_of(tokens(s))
}

proof fn lemma_scan_fold(st: ParseState, cur: Seq<char>, rest: Seq<char>)
    ensures
        spec_scan(st, cur, rest) == spec_fold(st, spec_split(cur, rest)),
    decreases rest.len(),
{
    if rest.len() == 0 {
        assert(seq![cur].drop_first() =~= Seq::<Seq<char>>::empty());
        reveal_with_fuel(spec_fold, 2);
    } else if rest[0] == '+' {
        let tail = spec_split(Seq::empty(), rest.drop_first());
        assert((seq![cur] + tail)[0] == cur);
        assert((seq![cur] + tail).drop_first() =~= tail);
        match spec_step(st, cur) {
            Ok(st2) => lemma_scan_fold(st2, Seq::empty(), rest.drop_first()),
            Err(_) => {},
        }
    } else {
        lemma_scan_fold(st, cur.push(rest[0]), rest.drop_first());
    }
}

proof fn lemma_trim_start_head(s: Seq<char>)
    ensures
        trim_start(s).len() > 0 ==> !is_white_space(trim_start(s)[0]),
        trim_start(s).len() == 0 ==> forall|i: int| 0 <= i < s.len() ==> is_white_space(#[trigger] s[i]),
    decreases s.len(),
{
    if s.len() > 0 && is_white_space(s[0]) {
        lemma_trim_start_head(s.drop_first());
        if trim_start(s).len() == 0 {
            assert forall|i: int| 0 <= i < s.len() implies is_white_space(#[trigger] s[i]) by {
                if i > 0 {
                    assert(s[i] == s.drop_first()[i - 1]);
                }
            }
        }
    }
}

proof fn lemma_trim_end_prefix(s: Seq<char>)
    ensures
        trim_end(s).len() <= s.len(),
        forall|i: int| 0 <= i < trim_end(s).len() ==> #[trigger] trim_end(s)[i] == s[i],
        trim_end(s).len() > 0 ==> !is_white_space(trim_end(s).last()),
        trim_end(s).len() == 0 ==> forall|i: int| 0 <= i < s.len() ==> is_white_space(#[trigger] s[i]),
    decreases s.len(),
{
    if s.len() > 0 && is_white_space(s.last()) {
        lemma_trim_end_prefix(s.drop_last());
        if trim_end(s).len() == 0 {
            assert forall|i: int| 0 <= i < s.len() implies is_white_space(#[trigger] s[i]) by {
                if i < s.len() - 1 {
                    assert(s[i] == s.drop_last()[i]);
                }
            }
        }
    }
}

proof fn lemma_trim_idempotent(s: Seq<char>)
    ensures
        trim(trim(s)) == trim(s),
        trim(s).len() == 0 ==> forall|i: int| 0 <= i < s.len() ==> is_white_space(#[trigger] s[i]),
{
    let a = trim_start(s);
    let b = trim_end(a);
    lemma_trim_start_head(s);
    lemma_trim_end_prefix(a);
    if b.len() > 0 {
        assert(b[0] == a[0]);
    }
    assert(trim_start(b) == b);
    assert(trim_end(b) == b);
    if b.len() == 0 && a.len() > 0 {
        assert(is_white_space(a[0]));
    }
}

proof fn lemma_step_key(st: ParseState, raw: Seq<char>)
    ensures
        spec_step(st, token_key(raw)) == lower_unknown_key_in(spec_step(st, raw)),
{
    lemma_trim_idempotent(raw);
    lemma_step_lowercase(st, trim(raw));
}

proof fn lemma_fold_keys(st: ParseState, toks: Seq<Seq<char>>)
    ensures
        spec_fold(st, keys_of(toks)) == lower_unknown_key_in(spec_fold(st, toks)),
    decreases toks.len(),
{
    if toks.len() > 0 {
        assert(keys_of(toks)[0] == token_key(toks[0]));
        assert(keys_of(toks).drop_first() =~= keys_of(toks.drop_first()));
        lemma_step_key(st, toks[0]);
        match spec_step(st, toks[0]) {
            Ok(st2) => lemma_fold_keys(st2, toks.drop_first()),
            Err(_) => {},
        }
    }
}

/// Two tokens read one after the other in either order give the same state.
proof fn lemma_step_commute(st: ParseState, y: Seq<char>, x: Seq<char>, s1: ParseState, s2: ParseState)
    requires
        spec_step(st, y) == Ok::<ParseState, KeyBindingErrorView>(s1),
        spec_step(s1, x) == Ok::<ParseState, KeyBindingErrorView>(s2),
    ensures
        match spec_step(st, x) {
            Ok(s1p) => spec_step(s1p, y) == Ok::<ParseState, KeyBindingErrorView>(s2),
            Err(_) => false,
        },
{
}

/// A token that reads can be read first instead, with the same outcome.
proof fn lemma_fold_to_front(st: ParseState, ks: Seq<Seq<char>>, j: int, r: ParseState)
    requires
        0 <= j < ks.len(),
        spec_fold(st, ks) == Ok::<ParseState, KeyBindingErrorView>(r),
    ensures
        match spec_step(st, ks[j]) {
            Ok(s1) => spec_fold(s1, ks.remove(j)) == Ok::<ParseState, KeyBindingErrorView>(r),
            Err(_) => false,
        },
    decreases j,
{
    if j == 0 {
        assert(ks.remove(0) =~= ks.drop_first());
    } else {
        let y = ks[0];
        let rest = ks.drop_first();
        match spec_step(st, y) {
            Ok(s1) => {
                assert(rest[j - 1] == ks[j]);
                lemma_fold_to_front(s1, rest, j - 1, r);
                match spec_step(s1, ks[j]) {
                    Ok(s2) => {
                        lemma_step_commute(st, y, ks[j], s1, s2);
                        let tail = rest.remove(j - 1);
                        assert(ks.remove(j) =~= seq![y] + tail);
                        assert((seq![y] + tail)[0] == y);
                        assert((seq![y] + tail).drop_first() =~= tail);
                    },
                    Err(_) => {},
                }
            },
            Err(_) => {},
        }
    }
}

/// Reading the same tokens in another order gives the same state.
proof fn lemma_fold_permutation(st: ParseState, ks1: Seq<Seq<char>>, ks2: Seq<Seq<char>>, r: ParseState)
    requires
        ks1.to_multiset() == ks2.to_multiset(),
        spec_fold(st, ks2) == Ok::<ParseState, KeyBindingErrorView>(r),
    ensures
        spec_fold(st, ks1) == Ok::<ParseState, KeyBindingErrorView>(r),
    decreases ks1.len(),
{
    broadcast use vstd::seq_lib::group_to_multiset_ensures;

    if ks1.len() == 0 {
        assert(ks1.to_multiset().len() == ks1.len());
        assert(ks2.to_multiset().len() == ks2.len());
    } else {
        let x = ks1[0];
        assert(ks1.to_multiset().count(x) > 0);
        assert(ks2.to_multiset().count(x) > 0);
        assert(ks2.contains(x));
        let j = choose|j: int| 0 <= j < ks2.len() && ks2[j] == x;
        lemma_fold_to_front(st, ks2, j, r);
        match spec_step(st, x) {
            Ok(s1) => {
                assert(ks1.remove(0) =~= ks1.drop_first());
                assert(ks1.drop_first().to_multiset() == ks1.to_multiset().remove(x));
                assert(ks2.remove(j).to_multiset() == ks2.to_multiset().remove(x));
                lemma_fold_permutation(s1, ks1.drop_first(), ks2.remove(j), r);
            },
            Err(_) => {},
        }
    }
}

proof fn lemma_fold_ok_tokens_nonblank(st: ParseState, ks: Seq<Seq<char>>)
    requires
        spec_fold(st, ks) is Ok,
    ensures
        forall|i: int| 0 <= i < ks.len() ==> trim(#[trigger] ks[i]).len() > 0,
    decreases ks.len(),
{
    if ks.len() > 0 {
        match spec_step(st, ks[0]) {
            Ok(st2) => {
                lemma_fold_ok_tokens_nonblank(st2, ks.drop_first());
                assert forall|i: int| 0 <= i < ks.len() implies trim(#[trigger] ks[i]).len() > 0 by {
                    if i > 0 {
                        assert(ks[i] == ks.drop_first()[i - 1]);
                    }
                }
            },
            Err(_) => {},
        }
    }
}

proof fn lemma_split_without_plus(cur: Seq<char>, rest: Seq<char>)
    requires
        forall|i: int| 0 <= i < rest.len() ==> #[trigger] rest[i] != '+',
    ensures
        spec_split(cur, rest) == seq![cur + rest],
    decreases rest.len(),
{
    if rest.len() == 0 {
        assert(cur + rest =~= cur);
    } else {
        assert(rest[0] != '+');
        assert forall|i: int| 0 <= i < rest.drop_first().len() implies #[trigger] rest.drop_first()[i] != '+' by {
            assert(rest.drop_first()[i] == rest[i + 1]);
        }
        lemma_split_without_plus(cur.push(rest[0]), rest.drop_first());
        assert(cur.push(rest[0]) + rest.drop_first() =~= cur + rest);
    }
}

/// Neither ASCII case, nor white space around the tokens, nor the order of the
/// tokens matters: a string whose tokens, trimmed and ASCII lower-cased, are
/// those of a string that parses, in any order, parses to the same binding.
pub proof fn law_parse_ignores_case_spacing_and_order(s: Seq<char>, s2: Seq<char>)
    requires
        spec_parse_keybinding(s) is Ok,
        token_keys(s2).to_multiset() == token_keys(s).to_multiset(),
    ensures
        spec_parse_keybinding(s2) == spec_parse_keybinding(s),
{
    broadcast use vstd::seq_lib::group_to_multiset_ensures;

    let st0: ParseState = (Modifiers::spec_none(), None);
    lemma_scan_fold(st0, Seq::empty(), s);
    lemma_scan_fold(st0, Seq::empty(), s2);
    lemma_fold_keys(st0, tokens(s));
    lemma_fold_keys(st0, tokens(s2));
    let r = match spec_fold(st0, tokens(s)) {
        Ok(v) => v,
        Err(_) => st0,
    };
    assert(spec_fold(st0, token_keys(s)) == Ok::<ParseState, KeyBindingErrorView>(r));
    lemma_fold_permutation(st0, token_keys(s2), token_keys(s), r);
    assert(spec_fold(st0, tokens(s2)) == Ok::<ParseState, KeyBindingErrorView>(r));
    if trim(s2).len() == 0 {
        lemma_trim_idempotent(s2);
        assert(is_white_space('+') == false);
        lemma_split_without_plus(Seq::empty(), s2);
        assert(Seq::<char>::empty() + s2 =~= s2);
        assert(tokens(s2) == seq![s2]);
        assert(token_keys(s2)[0] == token_key(s2));
        lemma_lowercase_shape(trim(s2));
        assert(token_keys(s2).to_multiset().count(token_key(s2)) > 0);
        assert(token_keys(s).contains(token_key(s2)));
        lemma_fold_ok_tokens_nonblank(st0, token_keys(s));
        let i = choose|i: int| 0 <= i < token_keys(s).len() && token_keys(s)[i] == token_key(s2);
        assert(token_key(s2).len() == 0);
        assert(trim(token_keys(s)[i]) =~= Seq::<char>::empty());
    }
}


/// The modifier names, as a token reads once trimmed and ASCII lower-cased.
pub open spec fn word_super() -> Seq<char> {
    seq!['s', 'u', 'p', 'e', 'r']
}

pub open spec fn word_ctrl() -> Seq<char> {
    seq!['c', 't', 'r', 'l']
}

pub open spec fn word_control() -> Seq<char> {
    seq!['c', 'o', 'n', 't', 'r', 'o', 'l']
}

pub open spec fn word_alt() -> Seq<char> {
    seq!['a', 'l', 't']
}

pub open spec fn word_shift() -> Seq<char> {
    seq!['s', 'h', 'i', 'f', 't']
}

proof fn lemma_words_differ()
    ensures
        word_super() != word_ctrl(),
        word_super() != word_control(),
        word_super() != word_alt(),
        word_super() != word_shift(),
        word_ctrl() != word_control(),
        word_ctrl() != word_alt(),
        word_ctrl() != word_shift(),
        word_control() != word_alt(),
        word_control() != word_shift(),
        word_alt() != word_shift(),
{
    assert(word_super().len() == 5 && word_shift().len() == 5);
    assert(word_ctrl().len() == 4 && word_control().len() == 7 && word_alt().len() == 3);
    assert(word_super()[1] != word_shift()[1]);
}

proof fn lemma_step_modifiers(st: ParseState, raw: Seq<char>, st2: ParseState)
    requires
        spec_step(st, raw) == Ok::<ParseState, KeyBindingErrorView>(st2),
    ensures
        st2.0.super_key == (st.0.super_key || token_key(raw) == word_super()),
        st2.0.ctrl == (st.0.ctrl || token_key(raw) == word_ctrl() || token_key(raw) == word_control()),
        st2.0.alt == (st.0.alt || token_key(raw) == word_alt()),
        st2.0.shift == (st.0.shift || token_key(raw) == word_shift()),
{
    lemma_words_differ();
}

proof fn lemma_keys_contains(toks: Seq<Seq<char>>, w: Seq<char>)
    requires
        toks.len() > 0,
    ensures
        keys_of(toks).contains(w) == (token_key(toks[0]) == w || keys_of(toks.drop_first()).contains(w)),
{
    let ks = keys_of(toks);
    let rest = keys_of(toks.drop_first());
    assert(ks[0] == token_key(toks[0]));
    if ks.contains(w) {
        let i = choose|i: int| 0 <= i < ks.len() && ks[i] == w;
        if i > 0 {
            assert(rest[i - 1] == ks[i]);
        }
    }
    if rest.contains(w) {
        let i = choose|i: int| 0 <= i < rest.len() && rest[i] == w;
        assert(ks[i + 1] == rest[i]);
    }
}

proof fn lemma_fold_modifiers(st: ParseState, toks: Seq<Seq<char>>, r: ParseState)
    requires
        spec_fold(st, toks) == Ok::<ParseState, KeyBindingErrorView>(r),
    ensures
        r.0.super_key == (st.0.super_key || keys_of(toks).contains(word_super())),
        r.0.ctrl == (st.0.ctrl || keys_of(toks).contains(word_ctrl()) || keys_of(toks).contains(
            word_control(),
        )),
        r.0.alt == (st.0.alt || keys_of(toks).contains(word_alt())),
        r.0.shift == (st.0.shift || keys_of(toks).contains(word_shift())),
    decreases toks.len(),
{
    if toks.len() == 0 {
        assert(keys_of(toks).len() == 0);
    } else {
        match spec_step(st, toks[0]) {
            Ok(s1) => {
                lemma_step_modifiers(st, toks[0], s1);
                lemma_fold_modifiers(s1, toks.drop_first(), r);
                lemma_keys_contains(toks, word_super());
                lemma_keys_contains(toks, word_ctrl());
                lemma_keys_contains(toks, word_control());
                lemma_keys_contains(toks, word_alt());
                lemma_keys_contains(toks, word_shift());
            },
            Err(_) => {},
        }
    }
}

/// A binding holds down exactly the modifiers that its string names: Super
/// when a token reads `super`, Ctrl when one reads `ctrl` or `control`, Alt
/// when one reads `alt`, Shift when one reads `shift` (tokens trimmed and
/// ASCII lower-cased), and no other.
pub proof fn law_modifiers_are_the_named_ones(s: Seq<char>)
    requires
        spec_parse_keybinding(s) is Ok,
    ensures
        ({
            let m = spec_parse_keybinding(s)->Ok_0.modifiers;
            &&& m.super_key == token_keys(s).contains(word_super())
            &&& m.ctrl == (token_keys(s).contains(word_ctrl()) || token_keys(s).contains(word_control()))
            &&& m.alt == token_keys(s).contains(word_alt())
            &&& m.shift == token_keys(s).contains(word_shift())
        }),
{
    let st0: ParseState = (Modifiers::spec_none(), None);
    lemma_scan_fold(st0, Seq::empty(), s);
    match spec_fold(st0, tokens(s)) {
        Ok(r) => {
            lemma_fold_modifiers(st0, tokens(s), r);
        },
        Err(_) => {},
    }
}


proof fn lemma_step_error_not_duplicate(st: ParseState, raw: Seq<char>)
    ensures
        !(spec_step(st, raw) matches Err(KeyBindingErrorView::DuplicateBinding { .. })),
{
}

proof fn lemma_fold_error_not_duplicate(st: ParseState, toks: Seq<Seq<char>>)
    ensures
        !(spec_fold(st, toks) matches Err(KeyBindingErrorView::DuplicateBinding { .. })),
    decreases toks.len(),
{
    if toks.len() > 0 {
        lemma_step_error_not_duplicate(st, toks[0]);
        match spec_step(st, toks[0]) {
            Ok(s1) => lemma_fold_error_not_duplicate(s1, toks.drop_first()),
            Err(_) => {},
        }
    }
}

/// Parsing one string never reports a duplicate binding: that error belongs
/// to a set of bindings.
pub proof fn lemma_parse_error_not_duplicate(s: Seq<char>)
    ensures
        !(spec_parse_keybinding(s) matches Err(KeyBindingErrorView::DuplicateBinding { .. })),
{
    let st0: ParseState = (Modifiers::spec_none(), None);
    lemma_scan_fold(st0, Seq::empty(), s);
    lemma_fold_error_not_duplicate(st0, tokens(s));
}

} // verus!
