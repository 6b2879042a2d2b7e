//! Windows path equality as `Path` decides it: by components, so that
//! `buffer/`, `buffer\` and `buffer\.\` name the same directory, while a
//! leading `.` (as in `.\buffer`) is a component of its own.

use vstd::prelude::*;
use crate::text::{ascii_upper, is_ascii_alpha};

verus! {

/// A path separator on Windows: `/` or `\`.
pub open spec fn is_separator(c: char) -> bool {
    c == '/' || c == '\\'
}

/// A separator where `verbatim` tells whether the path is a `\\?\` one, in
/// which only `\` separates.
pub open spec fn is_path_separator(c: char, verbatim: bool) -> bool {
    if verbatim {
        c == '\\'
    } else {
        is_separator(c)
    }
}

/// Where the first separator of `s` stands (its length when it has none).
pub open spec fn separator_index(s: Seq<char>, verbatim: bool) -> int
    decreases s.len(),
{
    if s.len() == 0 {
        0
    } else if is_path_separator(s[0], verbatim) {
        0
    } else {
        1 + separator_index(s.drop_first(), verbatim)
    }
}

/// The text of `s` up to its first separator, and what follows that
/// separator.
pub open spec fn next_component(s: Seq<char>, verbatim: bool) -> (Seq<char>, Seq<char>) {
    let k = separator_index(s, verbatim);
    if k < s.len() {
        (s.take(k), s.skip(k + 1))
    } else {
        (s, Seq::empty())
    }
}

/// The prefix of a Windows path, as `std::path::Prefix` reads it.
pub enum PathPrefix {
    /// `\\?\name`
    Verbatim(Seq<char>),
    /// `\\?\UNC\server\share`
    VerbatimUnc(Seq<char>, Seq<char>),
    /// `\\?\C:`
    VerbatimDisk(char),
    /// `\\.\device`
    DeviceNs(Seq<char>),
    /// `\\server\share`
    Unc(Seq<char>, Seq<char>),
    /// `C:`
    Disk(char),
}

/// How many characters of the path the prefix takes.
pub open spec fn prefix_len(p: PathPrefix) -> int {
    match p {
        PathPrefix::Verbatim(x) => 4 + x.len() as int,
        PathPrefix::VerbatimUnc(x, y) => 8 + x.len() as int + if y.len() > 0 {
            1 + y.len() as int
        } else {
            0int
        },
        PathPrefix::VerbatimDisk(_) => 6,
        PathPrefix::DeviceNs(x) => 4 + x.len() as int,
        PathPrefix::Unc(x, y) => 2 + x.len() as int + if y.len() > 0 {
            1 + y.len() as int
        } else {
            0int
        },
        PathPrefix::Disk(_) => 2,
    }
}

/// A `\\?\` prefix, after which paths are taken as written.
pub open spec fn is_verbatim(p: PathPrefix) -> bool {
    ||| p is Verbatim
    ||| p is VerbatimUnc
    ||| p is VerbatimDisk
}

/// The drive a path starts with (`C:`), its letter in upper case.
pub open spec fn path_drive(s: Seq<char>) -> Option<char> {
    if s.len() >= 2 && is_ascii_alpha(s[0]) && s[1] == ':' {
        Some(ascii_upper(s[0]))
    } else {
        None
    }
}

/// A drive that is all of `s` or followed by `\`, as a `\\?\` path needs.
pub open spec fn exact_drive(s: Seq<char>) -> Option<char> {
    if s.len() <= 2 || s[2] == '\\' {
        path_drive(s)
    } else {
        None
    }
}

/// The prefix of a path. A path starting with two separators is read as
/// `\\?\` (written with `\` only), `\\.\`, or `\\server\share` (both
/// present); any other such path has no prefix. Else a drive `C:` is one.
pub open spec fn path_prefix(s: Seq<char>) -> Option<PathPrefix> {
    if s.len() >= 2 && is_separator(s[0]) && is_separator(s[1]) {
        if s.len() >= 4 && s[0] == '\\' && s[1] == '\\' && s[2] == '?' && s[3] == '\\' {
            let p = s.skip(4);
            if p.len() >= 4 && p[0] == 'U' && p[1] == 'N' && p[2] == 'C' && is_separator(p[3]) {
                let (server, r) = next_component(p.skip(4), true);
                Some(PathPrefix::VerbatimUnc(server, next_component(r, true).0))
            } else {
                match exact_drive(p) {
                    Some(d) => Some(PathPrefix::VerbatimDisk(d)),
                    None => Some(PathPrefix::Verbatim(next_component(p, true).0)),
                }
            }
        } else if s.len() >= 4 && s[2] == '.' && is_separator(s[3]) {
            Some(PathPrefix::DeviceNs(next_component(s.skip(4), false).0))
        } else {
            let (server, r) = next_component(s.skip(2), false);
            let share = next_component(r, false).0;
            if server.len() > 0 && share.len() > 0 {
                Some(PathPrefix::Unc(server, share))
            } else {
                None
            }
        }
    } else {
        match path_drive(s) {
            Some(d) => Some(PathPrefix::Disk(d)),
            None => None,
        }
    }
}

/// What follows the prefix.
pub open spec fn after_prefix(s: Seq<char>) -> Seq<char> {
    match path_prefix(s) {
        Some(p) => s.skip(prefix_len(p)),
        None => s,
    }
}

/// The path has a `\\?\` prefix.
pub open spec fn path_is_verbatim(s: Seq<char>) -> bool {
    path_prefix(s) matches Some(p) && is_verbatim(p)
}

/// A separator right after the prefix.
pub open spec fn path_has_physical_root(s: Seq<char>) -> bool {
    let r = after_prefix(s);
    r.len() > 0 && is_separator(r[0])
}

/// The path has a root: a separator after the prefix, or a prefix other
/// than a drive, which stands for one.
pub open spec fn path_has_root(s: Seq<char>) -> bool {
    ||| path_has_physical_root(s)
    ||| (path_prefix(s) matches Some(p) && !(p is Disk))
}

/// A path without a root that starts at `.`: `.` alone or followed by a
/// separator.
pub open spec fn path_starts_at_cur_dir(s: Seq<char>) -> bool {
    let r = after_prefix(s);
    &&& !path_has_root(s)
    &&& r.len() >= 1
    &&& r[0] == '.'
    &&& (r.len() == 1 || is_separator(r[1]))
}

/// `names` with the piece `piece` added, unless it is empty, or `.` outside
/// a `\\?\` path.
pub open spec fn with_name(names: Seq<Seq<char>>, piece: Seq<char>, verbatim: bool) -> Seq<
    Seq<char>,
> {
    if piece.len() == 0 || (!verbatim && piece == seq!['.']) {
        names
    } else {
        names.push(piece)
    }
}

/// Reading `s` from the left: the names finished so far, and the piece
/// after the last separator.
pub open spec fn name_scan(s: Seq<char>, verbatim: bool) -> (Seq<Seq<char>>, Seq<char>)
    decreases s.len(),
{
    if s.len() == 0 {
        (Seq::empty(), Seq::empty())
    } else {
        let (done, piece) = name_scan(s.drop_last(), verbatim);
        if is_path_separator(s.last(), verbatim) {
            (with_name(done, piece, verbatim), Seq::empty())
        } else {
            (done, piece.push(s.last()))
        }
    }
}

/// The pieces of `s` between separators, without empty pieces and, outside
/// a `\\?\` path, without `.`.
pub open spec fn path_names(s: Seq<char>, verbatim: bool) -> Seq<Seq<char>> {
    let (done, piece) = name_scan(s, verbatim);
    with_name(done, piece, verbatim)
}

/// The components after the root: a leading `.` where the path starts
/// there, then the names of the rest.
pub open spec fn path_body_names(s: Seq<char>) -> Seq<Seq<char>> {
    let r = after_prefix(s);
    if path_starts_at_cur_dir(s) {
        seq![seq!['.']] + path_names(r.skip(1), false)
    } else if path_has_physical_root(s) {
        path_names(r.skip(1), path_is_verbatim(s))
    } else {
        path_names(r, path_is_verbatim(s))
    }
}

/// The components of a path: its prefix, whether it has a root, and the
/// names that follow.
pub open spec fn path_parts(s: Seq<char>) -> (Option<PathPrefix>, bool, Seq<Seq<char>>) {
    (path_prefix(s), path_has_root(s), path_body_names(s))
}

/// Two paths name the same place component by component.
pub open spec fn same_path(a: Seq<char>, b: Seq<char>) -> bool {
    path_parts(a) == path_parts(b)
}

/// The views of a list of character vectors.
pub open spec fn char_vec_views(v: Seq<Vec<char>>) -> Seq<Seq<char>> {
    v.map_values(|p: Vec<char>| p@)
}

/// A character of `s` separates.
fn separator_at(s: &str, i: usize, verbatim: bool) -> (r: bool)
    requires
        i < s@.len(),
    ensures
        r == is_path_separator(s@[i as int], verbatim),
{
    let c = s.get_char(i);
    c == '\\' || (!verbatim && c == '/')
}

proof fn lemma_separator_index(t: Seq<char>, m: int, verbatim: bool)
    requires
        0 <= m <= t.len(),
        forall|k: int| 0 <= k < m ==> !is_path_separator(#[trigger] t[k], verbatim),
        m == t.len() || is_path_separator(t[m], verbatim),
    ensures
        separator_index(t, verbatim) == m,
    decreases m,
{
    if m > 0 {
        assert forall|k: int| 0 <= k < m - 1 implies !is_path_separator(
            #[trigger] t.drop_first()[k],
            verbatim,
        ) by {
            assert(t.drop_first()[k] == t[k + 1]);
        }
        if m < t.len() {
            assert(t.drop_first()[m - 1] == t[m]);
        }
        lemma_separator_index(t.drop_first(), m - 1, verbatim);
    }
}

/// Where the component of `s` that starts at `start` ends.
fn component_end(s: &str, start: usize, verbatim: bool) -> (end: usize)
    requires
        start <= s@.len(),
    ensures
        start <= end <= s@.len(),
        next_component(s@.skip(start as int), verbatim) == (
            if end < s@.len() {
                (s@.subrange(start as int, end as int), s@.skip(end + 1))
            } else {
                (s@.subrange(start as int, end as int), Seq::<char>::empty())
            }
        ),
{
    let n = s.unicode_len();
    let mut j: usize = start;
    while j < n && !separator_at(s, j, verbatim)
        invariant
            n == s@.len(),
            start <= j <= n,
            forall|k: int| start <= k < j ==> !is_path_separator(#[trigger] s@[k], verbatim),
        decreases n - j,
    {
        j += 1;
    }
    let ghost t = s@.skip(start as int);
    proof {
        assert forall|k: int| 0 <= k < j - start implies !is_path_separator(
            #[trigger] t[k],
            verbatim,
        ) by {
            assert(t[k] == s@[start + k]);
        }
        if j < n {
            assert(t[j - start] == s@[j as int]);
        }
        lemma_separator_index(t, j - start, verbatim);
        assert(t.take(j - start) =~= s@.subrange(start as int, j as int));
        if j < n {
            assert(t.skip(j - start + 1) =~= s@.skip(j + 1));
        } else {
            assert(t =~= s@.subrange(start as int, j as int));
        }
    }
    j
}

/// The characters of `s` from `i` up to `j`.
fn chars_of(s: &str, i: usize, j: usize) -> (r: Vec<char>)
    requires
        i <= j <= s@.len(),
    ensures
        r@ == s@.subrange(i as int, j as int),
{
    let mut out: Vec<char> = Vec::new();
    let mut k: usize = i;
    while k < j
        invariant
            i <= k <= j <= s@.len(),
            out@ =~= s@.subrange(i as int, k as int),
        decreases j - k,
    {
        out.push(s.get_char(k));
        k += 1;
    }
    out
}

/// A prefix with its texts held.
enum PrefixText {
    Verbatim(Vec<char>),
    VerbatimUnc(Vec<char>, Vec<char>),
    VerbatimDisk(char),
    DeviceNs(Vec<char>),
    Unc(Vec<char>, Vec<char>),
    Disk(char),
}

impl View for PrefixText {
    type V = PathPrefix;

    closed spec fn view(&self) -> PathPrefix {
        match self {
            PrefixText::Verbatim(x) => PathPrefix::Verbatim(x@),
            PrefixText::VerbatimUnc(x, y) => PathPrefix::VerbatimUnc(x@, y@),
            PrefixText::VerbatimDisk(d) => PathPrefix::VerbatimDisk(*d),
            PrefixText::DeviceNs(x) => PathPrefix::DeviceNs(x@),
            PrefixText::Unc(x, y) => PathPrefix::Unc(x@, y@),
            PrefixText::Disk(d) => PathPrefix::Disk(*d),
        }
    }
}

spec fn prefix_view(p: Option<PrefixText>) -> Option<PathPrefix> {
    match p {
        Some(x) => Some(x@),
        None => None,
    }
}

/// `c` in upper case, for an ASCII letter.
fn upper_letter(c: char) -> (r: char)
    requires
        is_ascii_alpha(c),
    ensures
        r == ascii_upper(c),
{
    if 'a' <= c && c <= 'z' {
        ((c as u8) - 32) as char
    } else {
        c
    }
}

/// The prefix of `s` and how many characters it takes.
fn prefix_of(s: &str) -> (r: (Option<PrefixText>, usize))
    ensures
        prefix_view(r.0) == path_prefix(s@),
        r.1 == (match path_prefix(s@) {
            Some(p) => prefix_len(p),
            None => 0,
        }),
        r.1 <= s@.len(),
{
    let n = s.unicode_len();
    if n >= 2 && separator_at(s, 0, false) && separator_at(s, 1, false) {
        if n >= 4 && s.get_char(0) == '\\' && s.get_char(1) == '\\' && s.get_char(2) == '?'
            && s.get_char(3) == '\\' {
            let ghost p = s@.skip(4);
            if n >= 8 && s.get_char(4) == 'U' && s.get_char(5) == 'N' && s.get_char(6) == 'C'
                && separator_at(s, 7, false) {
                assert(p.skip(4) =~= s@.skip(8));
                let e1 = component_end(s, 8, true);
                let server = chars_of(s, 8, e1);
                if e1 < n {
                    let e2 = component_end(s, e1 + 1, true);
                    let share = chars_of(s, e1 + 1, e2);
                    let len = if e2 > e1 + 1 {
                        e2
                    } else {
                        e1
                    };
                    return (Some(PrefixText::VerbatimUnc(server, share)), len);
                } else {
                    let share: Vec<char> = Vec::new();
                    proof {
                        let r = next_component(p.skip(4), true).1;
                        assert(r =~= Seq::<char>::empty());
                        assert(next_component(r, true).0 =~= share@);
                    }
                    return (Some(PrefixText::VerbatimUnc(server, share)), e1);
                }
            }
            if n >= 6 && (n == 6 || s.get_char(6) == '\\') {
                let c = s.get_char(4);
                if (('a' <= c && c <= 'z') || ('A' <= c && c <= 'Z')) && s.get_char(5) == ':' {
                    return (Some(PrefixText::VerbatimDisk(upper_letter(c))), 6);
                }
            }
            let e = component_end(s, 4, true);
            return (Some(PrefixText::Verbatim(chars_of(s, 4, e))), e);
        } else if n >= 4 && s.get_char(2) == '.' && separator_at(s, 3, false) {
            let e = component_end(s, 4, false);
            return (Some(PrefixText::DeviceNs(chars_of(s, 4, e))), e);
        } else {
            let e1 = component_end(s, 2, false);
            if e1 < n && e1 > 2 {
                let e2 = component_end(s, e1 + 1, false);
                if e2 > e1 + 1 {
                    let server = chars_of(s, 2, e1);
                    let share = chars_of(s, e1 + 1, e2);
                    return (Some(PrefixText::Unc(server, share)), e2);
                }
            } else if e1 >= n {
                proof {
                    let r = next_component(s@.skip(2), false).1;
                    assert(r =~= Seq::<char>::empty());
                }
            }
            return (None, 0);
        }
    }
    if n >= 2 {
        let c = s.get_char(0);
        if (('a' <= c && c <= 'z') || ('A' <= c && c <= 'Z')) && s.get_char(1) == ':' {
            return (Some(PrefixText::Disk(upper_letter(c))), 2);
        }
    }
    (None, 0)
}

/// The parts of `s` that `path_parts` describes, computed.
fn parts_of(s: &str) -> (r: (Option<PrefixText>, bool, Vec<Vec<char>>))
    ensures
        prefix_view(r.0) == path_prefix(s@),
        r.1 == path_has_root(s@),
        char_vec_views(r.2@) == path_body_names(s@),
{
    let (prefix, plen) = prefix_of(s);
    let n = s.unicode_len();
    let verbatim = match &prefix {
        Some(PrefixText::Verbatim(_)) => true,
        Some(PrefixText::VerbatimUnc(_, _)) => true,
        Some(PrefixText::VerbatimDisk(_)) => true,
        _ => false,
    };
    let implicit = match &prefix {
        Some(PrefixText::Disk(_)) => false,
        None => false,
        _ => true,
    };
    let ghost rest = after_prefix(s@);
    assert(rest =~= s@.skip(plen as int));
    let physical = plen < n && separator_at(s, plen, false);
    let root = physical || implicit;
    let cur_dir = !root && plen < n && s.get_char(plen) == '.' && (plen + 1 == n || separator_at(
        s,
        plen + 1,
        false,
    ));
    let start = if physical || cur_dir {
        plen + 1
    } else {
        plen
    };
    let ghost body = s@.skip(start as int);
    let ghost lead: Seq<Seq<char>> = if cur_dir {
        seq![seq!['.']]
    } else {
        Seq::empty()
    };
    let mut names: Vec<Vec<char>> = Vec::new();
    if cur_dir {
        let mut dot: Vec<char> = Vec::new();
        dot.push('.');
        names.push(dot);
        assert(char_vec_views(names@) =~= lead);
    } else {
        assert(char_vec_views(names@) =~= lead);
    }
    let mut piece: Vec<char> = Vec::new();
    let mut i: usize = start;
    assert(body.take(0) =~= Seq::<char>::empty());
    while i < n
        invariant
            n == s@.len(),
            start <= i <= n,
            body =~= s@.skip(start as int),
            char_vec_views(names@) == lead + name_scan(body.take(i - start), verbatim).0,
            piece@ == name_scan(body.take(i - start), verbatim).1,
        decreases n - i,
    {
        let c = s.get_char(i);
        let ghost t = body.take(i - start + 1);
        assert(t.drop_last() =~= body.take(i - start));
        assert(t.last() == c);
        let ghost done = name_scan(body.take(i - start), verbatim).0;
        if separator_at(s, i, verbatim) {
            let dot = !verbatim && piece.len() == 1 && piece[0] == '.';
            proof {
                if !verbatim && piece.len() == 1 && piece[0] == '.' {
                    assert(piece@ =~= seq!['.']);
                }
            }
            if piece.len() > 0 && !dot {
                let ghost before = names@;
                let ghost pv = piece@;
                names.push(piece);
                assert(char_vec_views(names@) =~= char_vec_views(before).push(pv));
                assert(lead + done.push(pv) =~= (lead + done).push(pv));
            }
            piece = Vec::new();
        } else {
            piece.push(c);
        }
        i += 1;
    }
    assert(body.take(n - start) =~= body);
    let ghost done = name_scan(body, verbatim).0;
    let dot = !verbatim && piece.len() == 1 && piece[0] == '.';
    proof {
        if dot {
            assert(piece@ =~= seq!['.']);
        }
    }
    if piece.len() > 0 && !dot {
        let ghost before = names@;
        let ghost pv = piece@;
        names.push(piece);
        assert(char_vec_views(names@) =~= char_vec_views(before).push(pv));
        assert(lead + done.push(pv) =~= (lead + done).push(pv));
    }
    proof {
        if physical || cur_dir {
            assert(body =~= rest.skip(1));
        } else {
            assert(body =~= rest);
        }
    }
    (prefix, root, names)
}

/// Two character vectors hold the same characters.
fn chars_equal(a: &Vec<char>, b: &Vec<char>) -> (r: bool)
    ensures
        r == (a@ == b@),
{
    if a.len() != b.len() {
        return false;
    }
    let mut i: usize = 0;
    while i < a.len()
        invariant
            a@.len() == b@.len(),
            i <= a@.len(),
            forall|k: int| 0 <= k < i ==> a@[k] == b@[k],
        decreases a@.len() - i,
    {
        if a[i] != b[i] {
            return false;
        }
        i += 1;
    }
    assert(a@ =~= b@);
    true
}

/// Two prefixes are the same.
fn prefixes_equal(a: &Option<PrefixText>, b: &Option<PrefixText>) -> (r: bool)
    ensures
        r == (prefix_view(*a) == prefix_view(*b)),
{
    match (a, b) {
        (None, None) => true,
        (Some(PrefixText::Verbatim(x)), Some(PrefixText::Verbatim(y))) => chars_equal(x, y),
        (Some(PrefixText::VerbatimUnc(x1, x2)), Some(PrefixText::VerbatimUnc(y1, y2))) => {
            chars_equal(x1, y1) && chars_equal(x2, y2)
        },
        (Some(PrefixText::VerbatimDisk(x)), Some(PrefixText::VerbatimDisk(y))) => *x == *y,
        (Some(PrefixText::DeviceNs(x)), Some(PrefixText::DeviceNs(y))) => chars_equal(x, y),
        (Some(PrefixText::Unc(x1, x2)), Some(PrefixText::Unc(y1, y2))) => {
            chars_equal(x1, y1) && chars_equal(x2, y2)
        },
        (Some(PrefixText::Disk(x)), Some(PrefixText::Disk(y))) => *x == *y,
        _ => false,
    }
}

/// `Path::new(a) == Path::new(b)` for Windows paths: the same prefix, root
/// and components, whatever the separators between them.
pub fn paths_equal(a: &str, b: &str) -> (r: bool)
    ensures
        r == same_path(a@, b@),
{
    let (pa, ra, na) = parts_of(a);
    let (pb, rb, nb) = parts_of(b);
    if !prefixes_equal(&pa, &pb) || ra != rb || na.len() != nb.len() {
        proof {
            if prefix_view(pa) != prefix_view(pb) {
                assert(path_parts(a@).0 != path_parts(b@).0);
            } else if ra != rb {
                assert(path_parts(a@).1 != path_parts(b@).1);
            } else {
                assert(path_parts(a@).2.len() != path_parts(b@).2.len());
            }
        }
        return false;
    }
    let mut i: usize = 0;
    while i < na.len()
        invariant
            na@.len() == nb@.len(),
            i <= na@.len(),
            char_vec_views(na@) == path_body_names(a@),
            char_vec_views(nb@) == path_body_names(b@),
            prefix_view(pa) == path_prefix(a@) && prefix_view(pb) == path_prefix(b@),
            prefix_view(pa) == prefix_view(pb),
            ra == path_has_root(a@) && rb == path_has_root(b@) && ra == rb,
            forall|k: int| 0 <= k < i ==> na@[k]@ == nb@[k]@,
        decreases na@.len() - i,
    {
        if !chars_equal(&na[i], &nb[i]) {
            assert(char_vec_views(na@)[i as int] != char_vec_views(nb@)[i as int]);
            assert(path_parts(a@).2 != path_parts(b@).2);
            return false;
        }
        i += 1;
    }
    assert(char_vec_views(na@) =~= char_vec_views(nb@));
    true
}

} // verus!
