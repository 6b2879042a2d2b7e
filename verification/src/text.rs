//! Text operations on `str` used by the parsers: whitespace trimming, ASCII
//! case folding, splitting on a separator and decimal rendering.

use vstd::prelude::*;

verus! {

/// Unicode `White_Space`, the set that `char::is_whitespace` and
/// `str::trim` use.
pub open spec fn is_white_space(c: char) -> bool {
    let v = c as u32;
    ||| 0x09 <= v <= 0x0d
    ||| v == 0x20
    ||| v == 0x85
    ||| v == 0xa0
    ||| v == 0x1680
    ||| 0x2000 <= v <= 0x200a
    ||| v == 0x2028
    ||| v == 0x2029
    ||| v == 0x202f
    ||| v == 0x205f
    ||| v == 0x3000
}

/// Decides `is_white_space`.
pub fn is_white_space_char(c: char) -> (r: bool)
    ensures
        r == is_white_space(c),
{
    let v = c as u32;
    (0x09 <= v && v <= 0x0d) || v == 0x20 || v == 0x85 || v == 0xa0 || v == 0x1680 || (0x2000
        <= v && v <= 0x200a) || v == 0x2028 || v == 0x2029 || v == 0x202f || v == 0x205f || v
        == 0x3000
}

/// `s` without its leading white space.
pub open spec fn trim_start(s: Seq<char>) -> Seq<char>
    decreases s.len(),
{
    if s.len() > 0 && is_white_space(s[0]) {
        trim_start(s.drop_first())
    } else {
        s
    }
}

/// `s` without its trailing white space.
pub open spec fn trim_end(s: Seq<char>) -> Seq<char>
    decreases s.len(),
{
    if s.len() > 0 && is_white_space(s.last()) {
        trim_end(s.drop_last())
    } else {
        s
    }
}

/// `s` without leading and trailing white space, as `str::trim` gives it.
pub open spec fn spec_trim(s: Seq<char>) -> Seq<char> {
    trim_end(trim_start(s))
}

proof fn lemma_trim_start_skip(s: Seq<char>, i: int)
    requires
        0 <= i <= s.len(),
        forall|k: int| 0 <= k < i ==> is_white_space(#[trigger] s[k]),
    ensures
        trim_start(s) == trim_start(s.skip(i)),
    decreases i,
{
    if i > 0 {
        assert(s.drop_first().skip(i - 1) =~= s.skip(i));
        lemma_trim_start_skip(s.drop_first(), i - 1);
    } else {
        assert(s.skip(0) =~= s);
    }
}

proof fn lemma_trim_end_take(s: Seq<char>, j: int)
    requires
        0 <= j <= s.len(),
        forall|k: int| j <= k < s.len() ==> is_white_space(#[trigger] s[k]),
    ensures
        trim_end(s) == trim_end(s.take(j)),
    decreases s.len() - j,
{
    if j < s.len() {
        assert(s.drop_last().take(j) =~= s.take(j));
        lemma_trim_end_take(s.drop_last(), j);
    } else {
        assert(s.take(j) =~= s);
    }
}

/// Trimming removes exactly the white space around a text that neither
/// starts nor ends with white space.
pub proof fn lemma_trim_padded(before: Seq<char>, t: Seq<char>, after: Seq<char>)
    requires
        forall|k: int| 0 <= k < before.len() ==> is_white_space(#[trigger] before[k]),
        forall|k: int| 0 <= k < after.len() ==> is_white_space(#[trigger] after[k]),
        t.len() > 0,
        !is_white_space(t[0]),
        !is_white_space(t.last()),
    ensures
        spec_trim(before + t + after) == t,
{
    let s = before + t + after;
    assert forall|k: int| 0 <= k < before.len() implies is_white_space(#[trigger] s[k]) by {
        assert(s[k] == before[k]);
    }
    lemma_trim_start_skip(s, before.len() as int);
    let u = t + after;
    assert(s.skip(before.len() as int) =~= u);
    assert(u[0] == t[0]);
    assert(trim_start(u) == u);
    assert forall|k: int| t.len() <= k < u.len() implies is_white_space(#[trigger] u[k]) by {
        assert(u[k] == after[k - t.len()]);
    }
    lemma_trim_end_take(u, t.len() as int);
    assert(u.take(t.len() as int) =~= t);
    assert(trim_end(t) == t);
}

/// `s.trim()`.
pub fn trim(s: &str) -> (r: &str)
    ensures
        r@ == spec_trim(s@),
{
    let n = s.unicode_len();
    let mut lo: usize = 0;
    while lo < n && is_white_space_char(s.get_char(lo))
        invariant
            n == s@.len(),
            lo <= n,
            forall|k: int| 0 <= k < lo ==> is_white_space(#[trigger] s@[k]),
        decreases n - lo,
    {
        lo += 1;
    }
    let mut hi: usize = n;
    while hi > lo && is_white_space_char(s.get_char(hi - 1))
        invariant
            n == s@.len(),
            lo <= hi <= n,
            forall|k: int| hi <= k < n ==> is_white_space(#[trigger] s@[k]),
        decreases hi,
    {
        hi -= 1;
    }
    proof {
        lemma_trim_start_skip(s@, lo as int);
        let t = s@.skip(lo as int);
        assert(lo == n || !is_white_space(t[0]));
        assert(trim_start(t) == t);
        assert forall|k: int| hi - lo <= k < t.len() implies is_white_space(#[trigger] t[k]) by {
            assert(t[k] == s@[k + lo]);
        }
        lemma_trim_end_take(t, hi - lo);
        let u = t.take(hi - lo);
        assert(u =~= s@.subrange(lo as int, hi as int));
        if hi > lo {
            assert(u.last() == s@[hi - 1]);
        }
        assert(trim_end(u) == u);
    }
    s.substring_char(lo, hi)
}


/// ASCII upper-case letters folded to lower case; every other character
/// unchanged (`char::to_ascii_lowercase`).
pub open spec fn ascii_lower(c: char) -> char {
    if 'A' <= c <= 'Z' {
        ((c as u32) + 32) as char
    } else {
        c
    }
}

/// ASCII lower-case letters raised to upper case; every other character
/// unchanged (`char::to_ascii_uppercase`).
pub open spec fn ascii_upper(c: char) -> char {
    if 'a' <= c <= 'z' {
        ((c as u32) - 32) as char
    } else {
        c
    }
}

/// `s.to_ascii_lowercase()` on a character sequence.
pub open spec fn lower_seq(s: Seq<char>) -> Seq<char> {
    Seq::new(s.len(), |i: int| ascii_lower(s[i]))
}

/// The one-character string at position `k` of the lower-case alphabet.
fn lower_letter(k: usize) -> (r: &'static str)
    requires
        k < 26,
    ensures
        r@ == seq![(('a' as u32) + k) as char],
{
    let letters = "abcdefghijklmnopqrstuvwxyz";
    proof {
        reveal_strlit("abcdefghijklmnopqrstuvwxyz");
    }
    let r = letters.substring_char(k, k + 1);
    assert(r@ =~= seq![letters@[k as int]]);
    r
}

/// `s.to_ascii_lowercase()`.
pub fn to_ascii_lowercase(s: &str) -> (r: String)
    ensures
        r@ == lower_seq(s@),
{
    let n = s.unicode_len();
    let mut out = String::new();
    let mut i: usize = 0;
    while i < n
        invariant
            n == s@.len(),
            i <= n,
            out@ =~= lower_seq(s@).take(i as int),
        decreases n - i,
    {
        let c = s.get_char(i);
        if 'A' <= c && c <= 'Z' {
            let k = (c as u32 - 'A' as u32) as usize;
            out.append(lower_letter(k));
        } else {
            out.append(s.substring_char(i, i + 1));
        }
        i += 1;
    }
    out
}

/// The decimal digit `d`.
pub open spec fn digit_char(d: nat) -> char {
    (('0' as u32) + d) as char
}

/// The decimal rendering of `n`, as `n.to_string()` gives it.
pub open spec fn decimal(n: nat) -> Seq<char>
    decreases n,
{
    if n < 10 {
        seq![digit_char(n)]
    } else {
        decimal(n / 10) + seq![digit_char(n % 10)]
    }
}

/// The one-character string of the decimal digit `d`.
fn digit_str(d: u32) -> (r: &'static str)
    requires
        d < 10,
    ensures
        r@ == seq![digit_char(d as nat)],
{
    let digits = "0123456789";
    proof {
        reveal_strlit("0123456789");
    }
    let r = digits.substring_char(d as usize, d as usize + 1);
    assert(r@ =~= seq![digits@[d as int]]);
    r
}

/// `n.to_string()` for a `u64`.
pub fn u64_to_string(n: u64) -> (r: String)
    ensures
        r@ == decimal(n as nat),
    decreases n,
{
    if n < 10 {
        let mut out = String::new();
        out.append(digit_str(n as u32));
        assert(out@ =~= decimal(n as nat));
        out
    } else {
        let mut out = u64_to_string(n / 10);
        out.append(digit_str((n % 10) as u32));
        out
    }
}

/// Lexicographic order of character sequences by code point; on `str` it is
/// the order of `Ord for str`, since UTF-8 keeps code point order.
pub open spec fn lex_le(a: Seq<char>, b: Seq<char>) -> bool
    decreases a.len(),
{
    if a.len() == 0 {
        true
    } else if b.len() == 0 {
        false
    } else if (a[0] as u32) != (b[0] as u32) {
        (a[0] as u32) < (b[0] as u32)
    } else {
        lex_le(a.drop_first(), b.drop_first())
    }
}

pub proof fn lemma_lex_total(a: Seq<char>, b: Seq<char>)
    ensures
        lex_le(a, b) || lex_le(b, a),
    decreases a.len(),
{
    if a.len() > 0 && b.len() > 0 && (a[0] as u32) == (b[0] as u32) {
        lemma_lex_total(a.drop_first(), b.drop_first());
    }
}

pub proof fn lemma_lex_transitive(a: Seq<char>, b: Seq<char>, c: Seq<char>)
    requires
        lex_le(a, b),
        lex_le(b, c),
    ensures
        lex_le(a, c),
    decreases a.len(),
{
    if a.len() > 0 && b.len() > 0 && c.len() > 0 && (a[0] as u32) == (b[0] as u32) && (b[0] as u32)
        == (c[0] as u32) {
        lemma_lex_transitive(a.drop_first(), b.drop_first(), c.drop_first());
    }
}

proof fn lemma_lex_skip(a: Seq<char>, b: Seq<char>, i: int)
    requires
        0 <= i <= a.len(),
        i <= b.len(),
        forall|k: int| 0 <= k < i ==> (a[k] as u32) == (b[k] as u32),
    ensures
        lex_le(a, b) == lex_le(a.skip(i), b.skip(i)),
    decreases i,
{
    if i > 0 {
        assert(a.drop_first().skip(i - 1) =~= a.skip(i));
        assert(b.drop_first().skip(i - 1) =~= b.skip(i));
        lemma_lex_skip(a.drop_first(), b.drop_first(), i - 1);
    } else {
        assert(a.skip(0) =~= a);
        assert(b.skip(0) =~= b);
    }
}

/// `a <= b` on `str`.
pub fn str_le(a: &str, b: &str) -> (r: bool)
    ensures
        r == lex_le(a@, b@),
{
    let n = a.unicode_len();
    let m = b.unicode_len();
    let mut i: usize = 0;
    while i < n && i < m && (a.get_char(i) as u32) == (b.get_char(i) as u32)
        invariant
            n == a@.len(),
            m == b@.len(),
            i <= n,
            i <= m,
            forall|k: int| 0 <= k < i ==> (a@[k] as u32) == (b@[k] as u32),
        decreases n - i,
    {
        i += 1;
    }
    proof {
        lemma_lex_skip(a@, b@, i as int);
        if i < n && i < m {
            assert(a@.skip(i as int)[0] == a@[i as int]);
            assert(b@.skip(i as int)[0] == b@[i as int]);
        }
    }
    if i == n {
        true
    } else if i == m {
        false
    } else {
        (a.get_char(i) as u32) < (b.get_char(i) as u32)
    }
}


/// The pieces of `s` between occurrences of `sep`, as `str::split` yields
/// them: `n` separators give `n + 1` pieces, some of them empty.
pub open spec fn split_on(s: Seq<char>, sep: char) -> Seq<Seq<char>>
    decreases s.len(),
{
    if s.len() == 0 {
        seq![Seq::empty()]
    } else {
        let prev = split_on(s.drop_last(), sep);
        if s.last() == sep {
            prev.push(Seq::empty())
        } else {
            prev.update(prev.len() - 1, prev.last().push(s.last()))
        }
    }
}

/// Each piece trimmed, empty ones dropped.
pub open spec fn trimmed_nonempty(pieces: Seq<Seq<char>>) -> Seq<Seq<char>>
    decreases pieces.len(),
{
    if pieces.len() == 0 {
        Seq::empty()
    } else {
        let rest = trimmed_nonempty(pieces.drop_last());
        let t = spec_trim(pieces.last());
        if t.len() > 0 {
            rest.push(t)
        } else {
            rest
        }
    }
}

/// The views of a sequence of string slices.
pub open spec fn str_views(v: Seq<&str>) -> Seq<Seq<char>> {
    v.map_values(|t: &str| t@)
}

proof fn lemma_trimmed_nonempty_push(pieces: Seq<Seq<char>>, p: Seq<char>)
    ensures
        trimmed_nonempty(pieces.push(p)) == (if spec_trim(p).len() > 0 {
            trimmed_nonempty(pieces).push(spec_trim(p))
        } else {
            trimmed_nonempty(pieces)
        }),
{
    assert(pieces.push(p).drop_last() =~= pieces);
}

/// `s.split(sep).map(str::trim).filter(|t| !t.is_empty())`, collected.
pub fn split_trimmed_nonempty(s: &str, sep: char) -> (r: Vec<&str>)
    ensures
        str_views(r@) == trimmed_nonempty(split_on(s@, sep)),
{
    let n = s.unicode_len();
    let mut out: Vec<&str> = Vec::new();
    let mut start: usize = 0;
    let mut i: usize = 0;
    let ghost mut done: Seq<Seq<char>> = Seq::empty();
    assert(s@.take(0) =~= Seq::<char>::empty());
    assert(s@.subrange(0, 0) =~= Seq::<char>::empty());
    assert(split_on(s@.take(0), sep) =~= done.push(s@.subrange(0, 0)));
    while i < n
        invariant
            n == s@.len(),
            start <= i <= n,
            split_on(s@.take(i as int), sep) == done.push(s@.subrange(start as int, i as int)),
            str_views(out@) == trimmed_nonempty(done),
        decreases n - i,
    {
        let c = s.get_char(i);
        let ghost prefix = s@.take(i as int);
        assert(s@.take(i + 1).drop_last() =~= prefix);
        assert(s@.take(i + 1).last() == c);
        if c == sep {
            let piece = s.substring_char(start, i);
            let t = trim(piece);
            proof {
                lemma_trimmed_nonempty_push(done, piece@);
            }
            if t.unicode_len() > 0 {
                let ghost before = out@;
                out.push(t);
                assert(str_views(out@) =~= str_views(before).push(t@));
            }
            proof {
                done = done.push(piece@);
            }
            start = i + 1;
            assert(s@.subrange(start as int, (i + 1) as int) =~= Seq::<char>::empty());
        } else {
            assert(s@.subrange(start as int, (i + 1) as int) =~= s@.subrange(
                start as int,
                i as int,
            ).push(c));
        }
        i += 1;
    }
    let piece = s.substring_char(start, n);
    let t = trim(piece);
    proof {
        lemma_trimmed_nonempty_push(done, piece@);
        assert(s@.take(n as int) =~= s@);
    }
    if t.unicode_len() > 0 {
        let ghost before = out@;
        out.push(t);
        assert(str_views(out@) =~= str_views(before).push(t@));
    }
    out
}


/// `a == b` on `str`.
pub fn str_eq(a: &str, b: &str) -> (r: bool)
    ensures
        r == (a@ == b@),
{
    let n = a.unicode_len();
    if n != b.unicode_len() {
        return false;
    }
    let mut i: usize = 0;
    while i < n
        invariant
            n == a@.len(),
            n == b@.len(),
            i <= n,
            forall|k: int| 0 <= k < i ==> a@[k] == b@[k],
        decreases n - i,
    {
        if a.get_char(i) != b.get_char(i) {
            return false;
        }
        i += 1;
    }
    assert(a@ =~= b@);
    true
}

/// `c.is_ascii_digit()`.
pub open spec fn is_ascii_digit(c: char) -> bool {
    '0' <= c <= '9'
}

/// `c.is_ascii_alphabetic()`.
pub open spec fn is_ascii_alpha(c: char) -> bool {
    ('a' <= c <= 'z') || ('A' <= c <= 'Z')
}

/// Why `from_str` refused an unsigned integer (`IntErrorKind`).
#[derive(Debug, Clone, Copy, PartialEq, Eq, Structural)]
pub enum NumberError {
    /// Nothing to read.
    Empty,
    /// A character that is no decimal digit.
    InvalidDigit,
    /// A value above the type's largest.
    TooLarge,
}

/// The message of each refusal, as `ParseIntError` displays it.
pub open spec fn number_message(e: NumberError) -> Seq<char> {
    match e {
        NumberError::Empty => "cannot parse integer from empty string"@,
        NumberError::InvalidDigit => "invalid digit found in string"@,
        NumberError::TooLarge => "number too large to fit in target type"@,
    }
}

impl NumberError {
    /// The error's message.
    pub fn message(&self) -> (r: &'static str)
        ensures
            r@ == number_message(*self),
    {
        match self {
            NumberError::Empty => "cannot parse integer from empty string",
            NumberError::InvalidDigit => "invalid digit found in string",
            NumberError::TooLarge => "number too large to fit in target type",
        }
    }
}

/// The value of the decimal digit `c`.
pub open spec fn digit_value(c: char) -> nat {
    ((c as u32) - ('0' as u32)) as nat
}

/// Reads `d` from the left as decimal digits of a value at most `max`: the
/// first character that is no digit refuses it, and so does the first
/// digit after which the value passes `max`, whichever comes first.
pub open spec fn scan_digits(d: Seq<char>, max: nat) -> Result<nat, NumberError>
    decreases d.len(),
{
    if d.len() == 0 {
        Ok(0)
    } else {
        match scan_digits(d.drop_last(), max) {
            Err(e) => Err(e),
            Ok(v) => if !is_ascii_digit(d.last()) {
                Err(NumberError::InvalidDigit)
            } else if v * 10 + digit_value(d.last()) > max {
                Err(NumberError::TooLarge)
            } else {
                Ok(v * 10 + digit_value(d.last()))
            },
        }
    }
}

/// The digits that `from_str` reads for an unsigned integer: a leading `+`
/// is dropped when something follows it.
pub open spec fn unsigned_digits(s: Seq<char>) -> Seq<char> {
    if s.len() > 1 && s[0] == '+' {
        s.drop_first()
    } else {
        s
    }
}

/// What `s.parse::<uN>()` gives for an unsigned type whose largest value is
/// `max`.
pub open spec fn parse_unsigned(s: Seq<char>, max: nat) -> Result<nat, NumberError> {
    if s.len() == 0 {
        Err(NumberError::Empty)
    } else {
        scan_digits(unsigned_digits(s), max)
    }
}

/// Once a refusal is read, the characters after it change nothing.
proof fn lemma_scan_error_stands(d: Seq<char>, i: int, max: nat)
    requires
        0 <= i <= d.len(),
        scan_digits(d.take(i), max) is Err,
    ensures
        scan_digits(d, max) == scan_digits(d.take(i), max),
    decreases d.len() - i,
{
    if i < d.len() {
        assert(d.drop_last().take(i) =~= d.take(i));
        lemma_scan_error_stands(d.drop_last(), i, max);
    } else {
        assert(d.take(i) =~= d);
    }
}

/// Reading the decimal rendering of a number gives the number back when it
/// fits, and so does the rendering behind a `+`.
pub proof fn law_parse_reads_decimal(n: nat, max: nat)
    requires
        n <= max,
    ensures
        parse_unsigned(decimal(n), max) == Ok::<nat, NumberError>(n),
        parse_unsigned(seq!['+'] + decimal(n), max) == Ok::<nat, NumberError>(n),
{
    lemma_scan_decimal(n, max);
    assert((seq!['+'] + decimal(n)).drop_first() =~= decimal(n));
}

/// What reading accepts is a non-empty run of decimal digits (after an
/// optional `+`) whose value does not pass `max`.
pub proof fn law_parse_accepts_only_digits(s: Seq<char>, max: nat)
    ensures
        parse_unsigned(s, max) matches Ok(v) ==> {
            &&& v <= max
            &&& unsigned_digits(s).len() > 0
            &&& forall|k: int|
                0 <= k < unsigned_digits(s).len() ==> is_ascii_digit(
                    #[trigger] unsigned_digits(s)[k],
                )
        },
{
    if s.len() > 0 {
        lemma_scan_ok(unsigned_digits(s), max);
    }
}

proof fn lemma_scan_ok(d: Seq<char>, max: nat)
    ensures
        scan_digits(d, max) matches Ok(v) ==> v <= max && forall|k: int|
            0 <= k < d.len() ==> is_ascii_digit(#[trigger] d[k]),
    decreases d.len(),
{
    if d.len() > 0 {
        lemma_scan_ok(d.drop_last(), max);
        if scan_digits(d, max) is Ok {
            assert forall|k: int| 0 <= k < d.len() implies is_ascii_digit(#[trigger] d[k]) by {
                if k < d.len() - 1 {
                    assert(d[k] == d.drop_last()[k]);
                }
            }
        }
    }
}

proof fn lemma_scan_decimal(n: nat, max: nat)
    requires
        n <= max,
    ensures
        scan_digits(decimal(n), max) == Ok::<nat, NumberError>(n),
        decimal(n).len() > 0,
        decimal(n)[0] != '+',
    decreases n,
{
    if n < 10 {
        let d = decimal(n);
        assert(d.drop_last() =~= Seq::<char>::empty());
        assert(scan_digits(d.drop_last(), max) == Ok::<nat, NumberError>(0));
    } else {
        let d = decimal(n);
        lemma_scan_decimal(n / 10, max);
        assert(d.drop_last() =~= decimal(n / 10));
        assert(d.last() == digit_char(n % 10));
        assert(digit_value(digit_char(n % 10)) == n % 10);
        assert((n / 10) * 10 + n % 10 == n);
        assert(d[0] == decimal(n / 10)[0]);
    }
}

/// `s.parse::<u32>()` when `max` is `u32::MAX`, `s.parse::<u8>()` when it
/// is 255.
pub fn parse_unsigned_str(s: &str, max: u32) -> (r: Result<u32, NumberError>)
    ensures
        r matches Ok(v) ==> parse_unsigned(s@, max as nat) == Ok::<nat, NumberError>(v as nat),
        r matches Err(e) ==> parse_unsigned(s@, max as nat) == Err::<nat, NumberError>(e),
{
    let n = s.unicode_len();
    if n == 0 {
        return Err(NumberError::Empty);
    }
    let mut start: usize = 0;
    if n > 1 && s.get_char(0) == '+' {
        start = 1;
    }
    let ghost d = unsigned_digits(s@);
    assert(d =~= s@.skip(start as int));
    let mut acc: u64 = 0;
    let mut i: usize = start;
    assert(d.take(0) =~= Seq::<char>::empty());
    while i < n
        invariant
            n == s@.len(),
            n > 0,
            start <= i <= n,
            d =~= s@.skip(start as int),
            d == unsigned_digits(s@),
            acc <= max,
            scan_digits(d.take(i - start), max as nat) == Ok::<nat, NumberError>(acc as nat),
        decreases n - i,
    {
        let c = s.get_char(i);
        let ghost t = d.take(i - start + 1);
        assert(t.drop_last() =~= d.take(i - start));
        assert(t.last() == c);
        if !('0' <= c && c <= '9') {
            proof {
                lemma_scan_error_stands(d, i - start + 1, max as nat);
            }
            return Err(NumberError::InvalidDigit);
        }
        let next = acc * 10 + (c as u32 - '0' as u32) as u64;
        if next > max as u64 {
            proof {
                lemma_scan_error_stands(d, i - start + 1, max as nat);
            }
            return Err(NumberError::TooLarge);
        }
        acc = next;
        i += 1;
    }
    assert(d.take(n - start) =~= d);
    Ok(acc as u32)
}


/// Each piece folded to lower case.
pub open spec fn lower_all(pieces: Seq<Seq<char>>) -> Seq<Seq<char>> {
    pieces.map_values(|p: Seq<char>| lower_seq(p))
}

pub proof fn lemma_lower_idempotent(s: Seq<char>)
    ensures
        lower_seq(lower_seq(s)) == lower_seq(s),
{
    assert(lower_seq(lower_seq(s)) =~= lower_seq(s));
}

proof fn lemma_lower_drop_last(s: Seq<char>)
    requires
        s.len() > 0,
    ensures
        lower_seq(s).drop_last() == lower_seq(s.drop_last()),
        lower_seq(s).last() == ascii_lower(s.last()),
{
    assert(lower_seq(s).drop_last() =~= lower_seq(s.drop_last()));
}

proof fn lemma_lower_drop_first(s: Seq<char>)
    requires
        s.len() > 0,
    ensures
        lower_seq(s).drop_first() == lower_seq(s.drop_first()),
        lower_seq(s)[0] == ascii_lower(s[0]),
{
    assert(lower_seq(s).drop_first() =~= lower_seq(s.drop_first()));
}

/// Splitting commutes with folding to lower case, for a separator that is
/// not an ASCII letter.
pub proof fn lemma_split_lower(s: Seq<char>, sep: char)
    requires
        !is_ascii_alpha(sep),
    ensures
        split_on(lower_seq(s), sep) == lower_all(split_on(s, sep)),
    decreases s.len(),
{
    if s.len() == 0 {
        assert(lower_seq(s) =~= Seq::<char>::empty());
        assert(lower_seq(Seq::<char>::empty()) =~= Seq::<char>::empty());
        assert(lower_all(split_on(s, sep)) =~= seq![Seq::<char>::empty()]);
    } else {
        lemma_lower_drop_last(s);
        lemma_split_lower(s.drop_last(), sep);
        lemma_split_nonempty(s.drop_last(), sep);
        let prev = split_on(s.drop_last(), sep);
        let c = s.last();
        if 'A' <= c <= 'Z' {
            assert('a' <= ascii_lower(c) <= 'z');
        }
        assert((ascii_lower(c) == sep) == (c == sep));
        if c == sep {
            assert(lower_seq(Seq::<char>::empty()) =~= Seq::<char>::empty());
            assert(lower_all(prev.push(Seq::empty())) =~= lower_all(prev).push(Seq::empty()));
        } else {
            let upd = prev.update(prev.len() - 1, prev.last().push(c));
            assert(lower_seq(prev.last().push(c)) =~= lower_seq(prev.last()).push(ascii_lower(c)));
            assert(lower_all(upd) =~= lower_all(prev).update(
                prev.len() - 1,
                lower_all(prev).last().push(ascii_lower(c)),
            ));
        }
    }
}

pub proof fn lemma_split_nonempty(s: Seq<char>, sep: char)
    ensures
        split_on(s, sep).len() >= 1,
    decreases s.len(),
{
    if s.len() > 0 {
        lemma_split_nonempty(s.drop_last(), sep);
    }
}

proof fn lemma_trim_start_lower(s: Seq<char>)
    ensures
        trim_start(lower_seq(s)) == lower_seq(trim_start(s)),
    decreases s.len(),
{
    if s.len() > 0 {
        lemma_lower_drop_first(s);
        assert(is_white_space(ascii_lower(s[0])) == is_white_space(s[0]));
        lemma_trim_start_lower(s.drop_first());
    } else {
        assert(lower_seq(s) =~= s);
    }
}

proof fn lemma_trim_end_lower(s: Seq<char>)
    ensures
        trim_end(lower_seq(s)) == lower_seq(trim_end(s)),
    decreases s.len(),
{
    if s.len() > 0 {
        lemma_lower_drop_last(s);
        assert(is_white_space(ascii_lower(s.last())) == is_white_space(s.last()));
        lemma_trim_end_lower(s.drop_last());
    } else {
        assert(lower_seq(s) =~= s);
    }
}

/// Trimming commutes with folding to lower case.
pub proof fn lemma_trim_lower(s: Seq<char>)
    ensures
        spec_trim(lower_seq(s)) == lower_seq(spec_trim(s)),
{
    lemma_trim_start_lower(s);
    lemma_trim_end_lower(trim_start(s));
}

/// Trimming and dropping empty pieces commutes with folding to lower case.
pub proof fn lemma_trimmed_nonempty_lower(pieces: Seq<Seq<char>>)
    ensures
        trimmed_nonempty(lower_all(pieces)) == lower_all(trimmed_nonempty(pieces)),
    decreases pieces.len(),
{
    if pieces.len() == 0 {
        assert(lower_all(pieces) =~= Seq::<Seq<char>>::empty());
        assert(lower_all(Seq::<Seq<char>>::empty()) =~= Seq::<Seq<char>>::empty());
    } else {
        assert(lower_all(pieces).drop_last() =~= lower_all(pieces.drop_last()));
        assert(lower_all(pieces).last() == lower_seq(pieces.last()));
        lemma_trimmed_nonempty_lower(pieces.drop_last());
        lemma_trim_lower(pieces.last());
        let rest = trimmed_nonempty(pieces.drop_last());
        let t = spec_trim(pieces.last());
        assert(lower_seq(t).len() == t.len());
        assert(lower_all(rest.push(t)) =~= lower_all(rest).push(lower_seq(t)));
    }
}

} // verus!
