//! Character-level helpers on strings, each specified over `Seq<char>`.

use vstd::prelude::*;

verus! {

/// `needle` occurs in `hay` as a contiguous run that starts at index `i`.
pub open spec fn occurs_at(hay: Seq<char>, needle: Seq<char>, i: int) -> bool {
    &&& 0 <= i
    &&& i + needle.len() <= hay.len()
    &&& hay.subrange(i, i + needle.len()) == needle
}

/// `needle` occurs somewhere in `hay` (the empty needle occurs everywhere).
pub open spec fn contains_seq(hay: Seq<char>, needle: Seq<char>) -> bool {
    exists|i: int| occurs_at(hay, needle, i)
}

/// Every non-overlapping occurrence of `pat` in `s`, scanned from the left,
/// replaced by `to`. An empty pattern leaves `s` as it is.
pub open spec fn replace_all(s: Seq<char>, pat: Seq<char>, to: Seq<char>) -> Seq<char>
    decreases s.len(),
{
    if s.len() == 0 || pat.len() == 0 {
        s
    } else if occurs_at(s, pat, 0) {
        to + replace_all(s.skip(pat.len() as int), pat, to)
    } else {
        seq![s[0]] + replace_all(s.skip(1), pat, to)
    }
}

/// The strings of `list` with `sep` between each two neighbours.
pub open spec fn join_seqs(list: Seq<Seq<char>>, sep: Seq<char>) -> Seq<char>
    decreases list.len(),
{
    if list.len() == 0 {
        Seq::empty()
    } else if list.len() == 1 {
        list[0]
    } else {
        join_seqs(list.drop_last(), sep) + sep + list.last()
    }
}

/// What `str::to_lowercase` gives for a string (Unicode lowercase mapping).
pub uninterp spec fn lowercase(s: Seq<char>) -> Seq<char>;

/// Every character is ASCII.
pub open spec fn is_ascii_seq(s: Seq<char>) -> bool {
    forall|i: int| 0 <= i < s.len() ==> (#[trigger] s[i] as u32) < 128
}

/// The lowercase of an ASCII character: `A`..`Z` become `a`..`z`, the rest
/// stay.
pub open spec fn ascii_lower_char(c: char) -> char {
    if 'A' <= c && c <= 'Z' {
        ((c as u32) + 32) as char
    } else {
        c
    }
}

/// The uppercase of an ASCII character: `a`..`z` become `A`..`Z`, the rest
/// stay.
pub open spec fn ascii_upper_char(c: char) -> char {
    if 'a' <= c && c <= 'z' {
        ((c as u32) - 32) as char
    } else {
        c
    }
}

/// `s` with its ASCII letters lowercased.
pub open spec fn ascii_lower(s: Seq<char>) -> Seq<char> {
    s.map_values(|c: char| ascii_lower_char(c))
}

/// `s` with its ASCII letters uppercased.
pub open spec fn ascii_upper(s: Seq<char>) -> Seq<char> {
    s.map_values(|c: char| ascii_upper_char(c))
}

/// Calls `str::to_lowercase`; its result is named `lowercase` of the input.
/// On ASCII text, Unicode lowercasing maps `A`..`Z` to `a`..`z` and keeps
/// every other character, which is stated.
#[verifier::external_body]
pub(crate) fn to_lowercase(s: &str) -> (r: String)
    ensures
        r@ == lowercase(s@),
        is_ascii_seq(s@) ==> r@ == ascii_lower(s@),
{
    s.to_lowercase()
}

/// The lowercase of a string as `str::to_lowercase` gives it: the ASCII
/// lowercase for ASCII text, the Unicode mapping `lowercase` otherwise.
pub open spec fn lower(s: Seq<char>) -> Seq<char> {
    if is_ascii_seq(s) {
        ascii_lower(s)
    } else {
        lowercase(s)
    }
}

/// The lowercase of `s`, as `str::to_lowercase`.
pub fn lowercase_str(s: &str) -> (r: String)
    ensures
        r@ == lower(s@),
{
    to_lowercase(s)
}

/// On ASCII text, lowercasing ignores letter case.
pub proof fn lemma_lower_ignores_ascii_case(s: Seq<char>)
    requires
        is_ascii_seq(s),
    ensures
        is_ascii_seq(ascii_upper(s)),
        lower(ascii_upper(s)) == lower(s),
{
    let u = ascii_upper(s);
    assert forall|i: int| 0 <= i < u.len() implies (#[trigger] u[i] as u32) < 128 by {
        assert((s[i] as u32) < 128);
    }
    assert(ascii_lower(u) =~= ascii_lower(s));
}

/// `prefix` followed by `detail`.
pub fn prefixed(prefix: &str, detail: &str) -> (r: String)
    ensures
        r@ == prefix@ + detail@,
{
    let mut r = String::from_str(prefix);
    r.append(detail);
    r
}

/// The characters of `s`, in order.
pub fn chars_of(s: &str) -> (v: Vec<char>)
    ensures
        v@ == s@,
{
    let n = s.unicode_len();
    let mut v: Vec<char> = Vec::new();
    let mut i: usize = 0;
    while i < n
        invariant
            n == s@.len(),
            i <= n,
            v@ == s@.take(i as int),
        decreases n - i,
    {
        let c = s.get_char(i);
        v.push(c);
        i = i + 1;
        assert(v@ =~= s@.take(i as int));
    }
    assert(v@ =~= s@);
    v
}

/// Whether `needle` occurs in `hay` at index `i`.
pub fn matches_at(hay: &[char], needle: &[char], i: usize) -> (b: bool)
    ensures
        b == occurs_at(hay@, needle@, i as int),
{
    let n = hay.len();
    let m = needle.len();
    if i > n || m > n - i {
        return false;
    }
    let mut k: usize = 0;
    while k < m
        invariant
            n == hay@.len(),
            m == needle@.len(),
            i + m <= n,
            k <= m,
            forall|j: int| 0 <= j < k ==> hay@[i + j] == needle@[j],
        decreases m - k,
    {
        if hay[i + k] != needle[k] {
            assert(hay@.subrange(i as int, i + m)[k as int] != needle@[k as int]);
            return false;
        }
        k = k + 1;
    }
    assert(hay@.subrange(i as int, i + m) =~= needle@);
    true
}

/// Whether `needle` occurs in `hay`, as `str::contains` with a string pattern.
pub fn contains_str(hay: &str, needle: &str) -> (b: bool)
    ensures
        b == contains_seq(hay@, needle@),
{
    let h = chars_of(hay);
    let p = chars_of(needle);
    let n = h.len();
    let m = p.len();
    if m > n {
        assert forall|i: int| !occurs_at(hay@, needle@, i) by {}
        return false;
    }
    let last = n - m;
    let mut i: usize = 0;
    while i < last
        invariant
            h@ == hay@,
            p@ == needle@,
            n == hay@.len(),
            m == needle@.len(),
            last == n - m,
            i <= last,
            forall|j: int| 0 <= j < i ==> !occurs_at(hay@, needle@, j),
        decreases last - i,
    {
        if matches_at(h.as_slice(), p.as_slice(), i) {
            return true;
        }
        i = i + 1;
    }
    if matches_at(h.as_slice(), p.as_slice(), last) {
        return true;
    }
    assert forall|j: int| !occurs_at(hay@, needle@, j) by {
        if j < last {
            assert(!occurs_at(hay@, needle@, j));
        }
    }
    false
}

/// `s` with every occurrence of `pat` replaced by `to`, as `str::replace`
/// with a non-empty string pattern.
pub fn replace_str(s: &str, pat: &str, to: &str) -> (r: String)
    requires
        pat@.len() > 0,
    ensures
        r@ == replace_all(s@, pat@, to@),
{
    let sc = chars_of(s);
    let pc = chars_of(pat);
    let n = sc.len();
    let m = pc.len();
    let mut out = String::new();
    let mut i: usize = 0;
    assert(s@.skip(0) =~= s@);
    assert(out@ + replace_all(s@, pat@, to@) =~= replace_all(s@, pat@, to@));
    while i < n
        invariant
            sc@ == s@,
            pc@ == pat@,
            n == s@.len(),
            m == pat@.len(),
            m > 0,
            i <= n,
            out@ + replace_all(s@.skip(i as int), pat@, to@) == replace_all(s@, pat@, to@),
        decreases n - i,
    {
        let ghost rest = s@.skip(i as int);
        let ghost before = out@;
        if matches_at(sc.as_slice(), pc.as_slice(), i) {
            assert(rest.subrange(0, m as int) =~= s@.subrange(i as int, i + m));
            assert(occurs_at(rest, pat@, 0));
            assert(rest.skip(m as int) =~= s@.skip(i + m));
            out.append(to);
            assert((before + to@) + replace_all(s@.skip(i + m), pat@, to@) =~= before + (to@
                + replace_all(s@.skip(i + m), pat@, to@)));
            i = i + m;
        } else {
            assert(!occurs_at(rest, pat@, 0)) by {
                if i + m <= n {
                    assert(rest.subrange(0, m as int) =~= s@.subrange(i as int, i + m));
                }
            }
            let piece = s.substring_char(i, i + 1);
            assert(piece@ =~= seq![rest[0]]);
            assert(rest.skip(1) =~= s@.skip(i + 1));
            out.append(piece);
            assert((before + piece@) + replace_all(s@.skip(i + 1), pat@, to@) =~= before + (
            piece@ + replace_all(s@.skip(i + 1), pat@, to@)));
            i = i + 1;
        }
    }
    assert(s@.skip(n as int) =~= Seq::<char>::empty());
    out
}

/// The strings of `parts` joined with `sep`, as `[String]::join`.
pub fn join_strings(parts: &[String], sep: &str) -> (r: String)
    ensures
        r@ == join_seqs(parts.deep_view(), sep@),
{
    let ghost words = parts.deep_view();
    let mut out = String::new();
    let n = parts.len();
    let mut i: usize = 0;
    while i < n
        invariant
            n == parts@.len(),
            words == parts.deep_view(),
            words.len() == n,
            i <= n,
            out@ == join_seqs(words.take(i as int), sep@),
        decreases n - i,
    {
        assert(words.take(i + 1).drop_last() =~= words.take(i as int));
        assert(words[i as int] == parts@[i as int]@);
        if i > 0 {
            out.append(sep);
        } else {
            assert(out@ =~= Seq::<char>::empty());
        }
        out.append(parts[i].as_str());
        i = i + 1;
    }
    assert(words.take(n as int) =~= words);
    out
}

} // verus!
