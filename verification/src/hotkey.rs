//! Hotkey combinations such as `Ctrl+Alt+Shift+1`: their parsed form and the
//! parser.

use vstd::prelude::*;

use crate::text::{
    lemma_lower_idempotent, lemma_split_lower, lemma_trimmed_nonempty_lower, lower_all,
    ascii_upper, is_ascii_alpha, is_ascii_digit, lower_seq, number_message, parse_unsigned,
    parse_unsigned_str, NumberError, decimal, digit_char, is_white_space, lemma_trim_padded,
    law_parse_reads_decimal, spec_trim, split_on, split_trimmed_nonempty, str_eq, str_views, to_ascii_lowercase, trim,
    trimmed_nonempty,
};

verus! {

/// A set of modifier keys, one bit each.
#[derive(Debug, Clone, Copy, PartialEq, Eq, Hash, Structural)]
pub struct Modifiers(pub u32);

impl Modifiers {
    pub const ALT: u32 = 0b0001;

    pub const CONTROL: u32 = 0b0010;

    pub const SHIFT: u32 = 0b0100;

    pub const WIN: u32 = 0b1000;

    /// Whether every bit of `flag` is set.
    pub fn contains(self, flag: u32) -> (r: bool)
        ensures
            r == (self.0 & flag == flag),
    {
        self.0 & flag == flag
    }

    /// Sets the bits of `flag`.
    fn insert(&mut self, flag: u32)
        ensures
            final(self).0 == old(self).0 | flag,
    {
        self.0 = self.0 | flag;
    }

    /// Whether no modifier is set.
    pub fn is_empty(self) -> (r: bool)
        ensures
            r == (self.0 == 0),
    {
        self.0 == 0
    }
}

impl Default for Modifiers {
    fn default() -> (r: Self)
        ensures
            r.0 == 0,
    {
        Modifiers(0)
    }
}

/// The one key of a hotkey that is not a modifier.
#[derive(Debug, Clone, Copy, PartialEq, Eq, Hash, Structural)]
pub enum KeyCode {
    /// `0` to `9`.
    Digit(u8),
    /// `A` to `Z`, in upper case.
    Letter(char),
    /// `F1` to `F24`.
    Function(u8),
}

/// A parsed hotkey: its modifiers and its key.
#[derive(Debug, Clone, Copy, PartialEq, Eq, Hash, Structural)]
pub struct HotKeySpec {
    pub modifiers: Modifiers,
    pub key: KeyCode,
}

/// Why a hotkey combination was refused.
#[derive(Debug, Clone, PartialEq, Eq)]
pub enum HotkeyError {
    /// Fewer than two non-empty parts between the `+` signs.
    TooFewParts,
    /// A second key that is not a modifier.
    MultipleKeys,
    /// A key that is neither a digit, a letter nor `F1`..`F24` (held in
    /// lower case), with the reason the text after an `F` is no number,
    /// where that is why.
    UnsupportedKey(String, Option<NumberError>),
    /// No modifier at all.
    NoModifier,
    /// Modifiers only.
    MissingKey,
}

/// `HotkeyError` with its text as a character sequence.
pub enum HotkeyFault {
    TooFewParts,
    MultipleKeys,
    UnsupportedKey(Seq<char>, Option<NumberError>),
    NoModifier,
    MissingKey,
}

impl View for HotkeyError {
    type V = HotkeyFault;

    open spec fn view(&self) -> HotkeyFault {
        match self {
            HotkeyError::TooFewParts => HotkeyFault::TooFewParts,
            HotkeyError::MultipleKeys => HotkeyFault::MultipleKeys,
            HotkeyError::UnsupportedKey(k, cause) => HotkeyFault::UnsupportedKey(k@, *cause),
            HotkeyError::NoModifier => HotkeyFault::NoModifier,
            HotkeyError::MissingKey => HotkeyFault::MissingKey,
        }
    }
}

/// The message of each refusal; for a key whose number does not parse
/// `hotkey_detail_message` adds why.
pub open spec fn hotkey_message(f: HotkeyFault) -> Seq<char> {
    match f {
        HotkeyFault::TooFewParts => "hotkey must include at least one modifier and one key"@,
        HotkeyFault::MultipleKeys => "hotkey may only contain one non-modifier key"@,
        HotkeyFault::UnsupportedKey(k, _) => "unsupported key '"@ + k + "'"@,
        HotkeyFault::NoModifier => "hotkey must include at least one modifier"@,
        HotkeyFault::MissingKey => "hotkey is missing a key"@,
    }
}

/// The message followed by its cause, where it has one.
pub open spec fn hotkey_detail_message(f: HotkeyFault) -> Seq<char> {
    match f {
        HotkeyFault::UnsupportedKey(_, Some(e)) => hotkey_message(f) + ": "@ + number_message(e),
        _ => hotkey_message(f),
    }
}

impl HotkeyError {
    /// The error's message.
    pub fn message(&self) -> (r: String)
        ensures
            r@ == hotkey_message(self@),
    {
        let mut out = String::new();
        match self {
            HotkeyError::TooFewParts => out.append(
                "hotkey must include at least one modifier and one key",
            ),
            HotkeyError::MultipleKeys => out.append("hotkey may only contain one non-modifier key"),
            HotkeyError::UnsupportedKey(k, _) => {
                out.append("unsupported key '");
                out.append(k.as_str());
                out.append("'");
            },
            HotkeyError::NoModifier => out.append("hotkey must include at least one modifier"),
            HotkeyError::MissingKey => out.append("hotkey is missing a key"),
        }
        out
    }

    /// The message followed by its cause, as `{:#}` shows a chain of
    /// contexts.
    pub fn detail_message(&self) -> (r: String)
        ensures
            r@ == hotkey_detail_message(self@),
    {
        let mut out = self.message();
        match self {
            HotkeyError::UnsupportedKey(_, Some(e)) => {
                out.append(": ");
                out.append(e.message());
            },
            _ => {},
        }
        out
    }
}

/// The text after an `F`, read as `u8` is read: the number of a function
/// key `F1`..`F24`, no key for another number, or why it is no number.
pub open spec fn function_number(rest: Seq<char>) -> Result<Option<u8>, NumberError> {
    match parse_unsigned(rest, 255) {
        Ok(n) => Ok(
            if 1 <= n <= 24 {
                Some(n as u8)
            } else {
                None
            },
        ),
        Err(e) => Err(e),
    }
}

/// What `parse_key` makes of a token: a digit, a letter (in upper case) or
/// `F1`..`F24` (with either `f` or `F`); the token is trimmed first and
/// reported trimmed when refused, with the reason the text after an `F` is
/// no number where that is why.
pub open spec fn spec_parse_key(token: Seq<char>) -> Result<KeyCode, HotkeyFault> {
    let t = spec_trim(token);
    if t.len() == 1 && (t[0] as u32) < 128 && is_ascii_digit(t[0]) {
        Ok(KeyCode::Digit(((t[0] as u32) - ('0' as u32)) as u8))
    } else if t.len() == 1 && (t[0] as u32) < 128 && is_ascii_alpha(t[0]) {
        Ok(KeyCode::Letter(ascii_upper(t[0])))
    } else if t.len() > 0 && (t[0] == 'f' || t[0] == 'F') {
        match function_number(t.drop_first()) {
            Ok(Some(k)) => Ok(KeyCode::Function(k)),
            Ok(None) => Err(HotkeyFault::UnsupportedKey(t, None)),
            Err(e) => Err(HotkeyFault::UnsupportedKey(t, Some(e))),
        }
    } else {
        Err(HotkeyFault::UnsupportedKey(t, None))
    }
}

/// Parses the key part of a hotkey.
fn parse_key(token: &str) -> (r: Result<KeyCode, HotkeyError>)
    ensures
        r matches Ok(k) ==> spec_parse_key(token@) == Ok::<KeyCode, HotkeyFault>(k),
        r matches Err(e) ==> spec_parse_key(token@) == Err::<KeyCode, HotkeyFault>(e@),
{
    let t = trim(token);
    let n = t.unicode_len();
    if n == 1 {
        let ch = t.get_char(0);
        if (ch as u32) < 128 {
            if '0' <= ch && ch <= '9' {
                return Ok(KeyCode::Digit((ch as u32 - '0' as u32) as u8));
            }
            if 'a' <= ch && ch <= 'z' {
                return Ok(KeyCode::Letter(((ch as u32 - 32) as u8) as char));
            }
            if 'A' <= ch && ch <= 'Z' {
                return Ok(KeyCode::Letter(ch));
            }
        }
    }
    if n > 0 {
        let first = t.get_char(0);
        if first == 'f' || first == 'F' {
            let rest = t.substring_char(1, n);
            assert(rest@ =~= t@.drop_first());
            match parse_unsigned_str(rest, 255) {
                Ok(number) => {
                    if 1 <= number && number <= 24 {
                        return Ok(KeyCode::Function(number as u8));
                    }
                },
                Err(e) => {
                    return Err(HotkeyError::UnsupportedKey(t.to_owned(), Some(e)));
                },
            }
        }
    }
    Err(HotkeyError::UnsupportedKey(t.to_owned(), None))
}


/// The modifier bit that a lower-case token names, if it names one.
pub open spec fn modifier_bit(low: Seq<char>) -> Option<u32> {
    if low == "alt"@ {
        Some(Modifiers::ALT)
    } else if low == "ctrl"@ || low == "control"@ {
        Some(Modifiers::CONTROL)
    } else if low == "shift"@ {
        Some(Modifiers::SHIFT)
    } else if low == "win"@ || low == "meta"@ || low == "super"@ {
        Some(Modifiers::WIN)
    } else {
        None
    }
}

/// The modifiers and key read so far.
pub type PartialHotkey = (u32, Option<KeyCode>);

/// Reads one token (case-insensitively): a modifier adds its bit; any
/// other token is the key, which may come only once.
pub open spec fn read_token(st: PartialHotkey, token: Seq<char>) -> Result<
    PartialHotkey,
    HotkeyFault,
> {
    let low = lower_seq(token);
    match modifier_bit(low) {
        Some(bit) => Ok((st.0 | bit, st.1)),
        None => if st.1 is Some {
            Err(HotkeyFault::MultipleKeys)
        } else {
            match spec_parse_key(low) {
                Ok(k) => Ok((st.0, Some(k))),
                Err(e) => Err(e),
            }
        },
    }
}

/// Reads the tokens in order; the first refusal stands.
pub open spec fn read_tokens(tokens: Seq<Seq<char>>) -> Result<PartialHotkey, HotkeyFault>
    decreases tokens.len(),
{
    if tokens.len() == 0 {
        Ok((0u32, None))
    } else {
        match read_tokens(tokens.drop_last()) {
            Ok(st) => read_token(st, tokens.last()),
            Err(e) => Err(e),
        }
    }
}

/// Once a refusal is read, the tokens after it change nothing.
proof fn lemma_read_tokens_error_stands(tokens: Seq<Seq<char>>, i: int)
    requires
        0 <= i <= tokens.len(),
        read_tokens(tokens.take(i)) is Err,
    ensures
        read_tokens(tokens) == read_tokens(tokens.take(i)),
    decreases tokens.len() - i,
{
    if i < tokens.len() {
        assert(tokens.drop_last().take(i) =~= tokens.take(i));
        lemma_read_tokens_error_stands(tokens.drop_last(), i);
    } else {
        assert(tokens.take(i) =~= tokens);
    }
}

/// The parts of a combination: split on `+`, trimmed, empty ones dropped.
pub open spec fn hotkey_tokens(input: Seq<char>) -> Seq<Seq<char>> {
    trimmed_nonempty(split_on(input, '+'))
}

/// What `HotKeySpec::parse` gives for `input`.
pub open spec fn spec_parse_hotkey(input: Seq<char>) -> Result<HotKeySpec, HotkeyFault> {
    let tokens = hotkey_tokens(input);
    if tokens.len() < 2 {
        Err(HotkeyFault::TooFewParts)
    } else {
        match read_tokens(tokens) {
            Err(e) => Err(e),
            Ok(st) => if st.0 == 0 {
                Err(HotkeyFault::NoModifier)
            } else {
                match st.1 {
                    None => Err(HotkeyFault::MissingKey),
                    Some(k) => Ok(HotKeySpec { modifiers: Modifiers(st.0), key: k }),
                }
            },
        }
    }
}

impl HotKeySpec {
    /// Parses a combination such as `Ctrl+Alt+Shift+1`: at least one of the
    /// modifiers `Ctrl`/`Control`, `Alt`, `Shift`, `Win`/`Meta`/`Super` and
    /// exactly one key `0`-`9`, `A`-`Z` or `F1`-`F24`, in any case, joined by
    /// `+`.
    pub fn parse(input: &str) -> (r: Result<HotKeySpec, HotkeyError>)
        ensures
            r matches Ok(h) ==> spec_parse_hotkey(input@) == Ok::<HotKeySpec, HotkeyFault>(h),
            r matches Err(e) ==> spec_parse_hotkey(input@) == Err::<HotKeySpec, HotkeyFault>(e@),
    {
        let tokens = split_trimmed_nonempty(input, '+');
        let ghost toks = str_views(tokens@);
        if tokens.len() < 2 {
            return Err(HotkeyError::TooFewParts);
        }
        let mut modifiers = Modifiers(0);
        let mut key: Option<KeyCode> = None;
        let mut i: usize = 0;
        assert(toks.take(0) =~= Seq::<Seq<char>>::empty());
        while i < tokens.len()
            invariant
                toks == str_views(tokens@),
                toks == hotkey_tokens(input@),
                i <= tokens.len(),
                tokens.len() >= 2,
                read_tokens(toks.take(i as int)) == Ok::<PartialHotkey, HotkeyFault>(
                    (modifiers.0, key),
                ),
            decreases tokens.len() - i,
        {
            let token = tokens[i];
            let lowered = to_ascii_lowercase(token);
            let low = lowered.as_str();
            proof {
                assert(toks.take(i + 1).drop_last() =~= toks.take(i as int));
                assert(toks.take(i + 1).last() == token@);
                reveal_strlit("alt");
                reveal_strlit("ctrl");
                reveal_strlit("control");
                reveal_strlit("shift");
                reveal_strlit("win");
                reveal_strlit("meta");
                reveal_strlit("super");
            }
            if str_eq(low, "alt") {
                modifiers.insert(Modifiers::ALT);
            } else if str_eq(low, "ctrl") || str_eq(low, "control") {
                modifiers.insert(Modifiers::CONTROL);
            } else if str_eq(low, "shift") {
                modifiers.insert(Modifiers::SHIFT);
            } else if str_eq(low, "win") || str_eq(low, "meta") || str_eq(low, "super") {
                modifiers.insert(Modifiers::WIN);
            } else {
                if key.is_some() {
                    proof {
                        lemma_read_tokens_error_stands(toks, i + 1);
                    }
                    return Err(HotkeyError::MultipleKeys);
                }
                match parse_key(low) {
                    Ok(k) => {
                        key = Some(k);
                    },
                    Err(e) => {
                        proof {
                            lemma_read_tokens_error_stands(toks, i + 1);
                        }
                        return Err(e);
                    },
                }
            }
            i += 1;
        }
        assert(toks.take(tokens.len() as int) =~= toks);
        if modifiers.is_empty() {
            return Err(HotkeyError::NoModifier);
        }
        match key {
            Some(k) => Ok(HotKeySpec { modifiers, key: k }),
            None => Err(HotkeyError::MissingKey),
        }
    }
}


/// A key that the parser can produce: `0`-`9`, `A`-`Z` or `F1`-`F24`.
pub open spec fn is_supported_key(k: KeyCode) -> bool {
    match k {
        KeyCode::Digit(d) => d <= 9,
        KeyCode::Letter(c) => 'A' <= c <= 'Z',
        KeyCode::Function(n) => 1 <= n <= 24,
    }
}

/// A hotkey that the parser can produce: some of the four modifiers, at
/// least one, and a supported key.
pub open spec fn is_supported_hotkey(h: HotKeySpec) -> bool {
    &&& h.modifiers.0 != 0
    &&& h.modifiers.0 < 16
    &&& is_supported_key(h.key)
}

proof fn lemma_parse_key_supported(token: Seq<char>)
    ensures
        spec_parse_key(token) matches Ok(k) ==> is_supported_key(k),
{
}

proof fn lemma_read_tokens_supported(tokens: Seq<Seq<char>>)
    ensures
        read_tokens(tokens) matches Ok(st) ==> st.0 < 16 && (st.1 matches Some(k)
            ==> is_supported_key(k)),
    decreases tokens.len(),
{
    if tokens.len() > 0 {
        lemma_read_tokens_supported(tokens.drop_last());
        if let Ok(st) = read_tokens(tokens.drop_last()) {
            let low = lower_seq(tokens.last());
            lemma_parse_key_supported(low);
            let m = st.0;
            assert(m < 16 ==> (m | 1u32) < 16 && (m | 2u32) < 16 && (m | 4u32) < 16 && (m | 8u32)
                < 16) by (bit_vector);
        }
    }
}

/// Every combination that parses has at least one of the four modifiers
/// and one key among `0`-`9`, `A`-`Z` (upper case) and `F1`-`F24`.
pub proof fn law_parsed_hotkey_is_supported(input: Seq<char>)
    ensures
        spec_parse_hotkey(input) matches Ok(h) ==> is_supported_hotkey(h),
{
    lemma_read_tokens_supported(hotkey_tokens(input));
}


proof fn lemma_read_tokens_lower(tokens: Seq<Seq<char>>)
    ensures
        read_tokens(lower_all(tokens)) == read_tokens(tokens),
    decreases tokens.len(),
{
    if tokens.len() > 0 {
        assert(lower_all(tokens).drop_last() =~= lower_all(tokens.drop_last()));
        assert(lower_all(tokens).last() == lower_seq(tokens.last()));
        lemma_read_tokens_lower(tokens.drop_last());
        lemma_lower_idempotent(tokens.last());
    }
}

/// Parsing ignores ASCII case: a combination parses as its lower-case
/// form does, refusals included.
pub proof fn law_parse_ignores_case(input: Seq<char>)
    ensures
        spec_parse_hotkey(lower_seq(input)) == spec_parse_hotkey(input),
{
    lemma_split_lower(input, '+');
    lemma_trimmed_nonempty_lower(split_on(input, '+'));
    let toks = hotkey_tokens(input);
    assert(hotkey_tokens(lower_seq(input)) == lower_all(toks));
    lemma_read_tokens_lower(toks);
}

/// Two combinations that differ only in ASCII case parse alike.
pub proof fn law_parse_same_up_to_case(a: Seq<char>, b: Seq<char>)
    requires
        lower_seq(a) == lower_seq(b),
    ensures
        spec_parse_hotkey(a) == spec_parse_hotkey(b),
{
    law_parse_ignores_case(a);
    law_parse_ignores_case(b);
}

/// A key is read as written: the digit `d` as that digit, a letter as
/// that letter in upper case, and `F` or `f` followed by the decimal
/// number `n` of 1 to 24 as that function key.
pub proof fn law_keys_read_as_written(d: nat, c: char, n: u8)
    ensures
        d < 10 ==> spec_parse_key(seq![digit_char(d)]) == Ok::<KeyCode, HotkeyFault>(
            KeyCode::Digit(d as u8),
        ),
        is_ascii_alpha(c) ==> spec_parse_key(seq![c]) == Ok::<KeyCode, HotkeyFault>(
            KeyCode::Letter(ascii_upper(c)),
        ),
        1 <= n <= 24 ==> spec_parse_key(seq!['f'] + decimal(n as nat)) == Ok::<
            KeyCode,
            HotkeyFault,
        >(KeyCode::Function(n)),
        1 <= n <= 24 ==> spec_parse_key(seq!['F'] + decimal(n as nat)) == Ok::<
            KeyCode,
            HotkeyFault,
        >(KeyCode::Function(n)),
{
    let e = Seq::<char>::empty();
    if d < 10 {
        let t = seq![digit_char(d)];
        lemma_trim_padded(e, t, e);
        assert(e + t + e =~= t);
    }
    if is_ascii_alpha(c) {
        let t = seq![c];
        lemma_trim_padded(e, t, e);
        assert(e + t + e =~= t);
    }
    if 1 <= n <= 24 {
        let m = n as nat;
        assert(decimal(m).last() == digit_char(m % 10));
        assert(decimal(m).len() >= 1);
        law_parse_reads_decimal(m, 255);
        let tl = seq!['f'] + decimal(m);
        lemma_trim_padded(e, tl, e);
        assert(e + tl + e =~= tl);
        assert(tl.drop_first() =~= decimal(m));
        assert(tl.len() >= 2);
        let tu = seq!['F'] + decimal(m);
        lemma_trim_padded(e, tu, e);
        assert(e + tu + e =~= tu);
        assert(tu.drop_first() =~= decimal(m));
    }
}

} // verus!
