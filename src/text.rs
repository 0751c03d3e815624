//! Character-level primitives: character classes, runs, literal search and
//! whitespace trimming, all stated over `Seq<char>`.
use vstd::prelude::*;

verus! {

/// Unicode `White_Space`: what `char::is_whitespace` accepts.
pub open spec fn is_space(c: char) -> bool {
    let u = c as u32;
    (9 <= u && u <= 13) || u == 32 || u == 0x85 || u == 0xA0 || u == 0x1680
        || (0x2000 <= u && u <= 0x200A) || u == 0x2028 || u == 0x2029 || u == 0x202F
        || u == 0x205F || u == 0x3000
}

/// An ASCII letter.
pub open spec fn is_alpha(c: char) -> bool {
    ('a' <= c && c <= 'z') || ('A' <= c && c <= 'Z')
}

/// An ASCII letter or digit.
pub open spec fn is_alnum(c: char) -> bool {
    is_alpha(c) || ('0' <= c && c <= '9')
}

/// One of the two quote characters that may delimit an attribute value.
pub open spec fn is_quote(c: char) -> bool {
    c == '\'' || c == '"'
}

/// Whether `c` is whitespace.
pub fn is_space_char(c: char) -> (r: bool)
    ensures
        r == is_space(c),
{
    let u = c as u32;
    (9 <= u && u <= 13) || u == 32 || u == 0x85 || u == 0xA0 || u == 0x1680
        || (0x2000 <= u && u <= 0x200A) || u == 0x2028 || u == 0x2029 || u == 0x202F
        || u == 0x205F || u == 0x3000
}

/// Whether `c` is an ASCII letter.
pub fn is_alpha_char(c: char) -> (r: bool)
    ensures
        r == is_alpha(c),
{
    ('a' <= c && c <= 'z') || ('A' <= c && c <= 'Z')
}

/// The kinds of character runs that the scanner steps over.
#[derive(Clone, Copy, PartialEq, Eq, Structural)]
pub enum Run {
    Space,
    NotSpace,
    Alnum,
    /// Letters, digits and `-`: the characters of an attribute name after its first.
    NameChar,
    NotQuote,
    /// Anything but `"`: a value opened by `"` runs up to the next `"`.
    NotDouble,
    /// Anything but `'`: a value opened by `'` runs up to the next `'`.
    NotSingle,
    NotGt,
}

pub open spec fn in_run(c: char, k: Run) -> bool {
    match k {
        Run::Space => is_space(c),
        Run::NotSpace => !is_space(c),
        Run::Alnum => is_alnum(c),
        Run::NameChar => is_alnum(c) || c == '-',
        Run::NotQuote => !is_quote(c),
        Run::NotDouble => c != '"',
        Run::NotSingle => c != '\'',
        Run::NotGt => c != '>',
    }
}

/// The end of the longest run of kind `k` that starts at `i`.
pub open spec fn run_end(s: Seq<char>, i: int, k: Run) -> int
    decreases s.len() - i,
{
    if 0 <= i < s.len() && in_run(s[i], k) {
        run_end(s, i + 1, k)
    } else {
        i
    }
}

pub proof fn lemma_run_end(s: Seq<char>, i: int, k: Run)
    requires
        0 <= i <= s.len(),
    ensures
        i <= run_end(s, i, k) <= s.len(),
        forall|j: int| i <= j < run_end(s, i, k) ==> in_run(#[trigger] s[j], k),
        run_end(s, i, k) < s.len() ==> !in_run(s[run_end(s, i, k)], k),
    decreases s.len() - i,
{
    if i < s.len() && in_run(s[i], k) {
        lemma_run_end(s, i + 1, k);
    }
}

/// `pat` occurs in `s` at position `i`.
pub open spec fn occurs_at(s: Seq<char>, i: int, pat: Seq<char>) -> bool {
    0 <= i && i + pat.len() <= s.len() && s.subrange(i, i + pat.len()) == pat
}

/// The first position at or after `i` where `pat` occurs in `s`.
pub open spec fn find_from(s: Seq<char>, i: int, pat: Seq<char>) -> Option<int>
    decreases s.len() + 1 - i,
{
    if i < 0 || i + pat.len() > s.len() {
        None
    } else if occurs_at(s, i, pat) {
        Some(i)
    } else {
        find_from(s, i + 1, pat)
    }
}

pub proof fn lemma_find_from(s: Seq<char>, i: int, pat: Seq<char>)
    requires
        0 <= i,
    ensures
        match find_from(s, i, pat) {
            Some(j) => i <= j && occurs_at(s, j, pat) && forall|m: int|
                i <= m < j ==> !occurs_at(s, m, pat),
            None => forall|m: int| i <= m ==> !occurs_at(s, m, pat),
        },
    decreases s.len() + 1 - i,
{
    if i + pat.len() > s.len() {
    } else if occurs_at(s, i, pat) {
    } else {
        lemma_find_from(s, i + 1, pat);
    }
}

/// The end of the run of whitespace that stops at `j`, looking no further back than `lo`.
pub open spec fn back_space_run(s: Seq<char>, lo: int, j: int) -> int
    decreases j - lo,
{
    if lo < j && j <= s.len() && is_space(s[j - 1]) {
        back_space_run(s, lo, j - 1)
    } else {
        j
    }
}

/// `s` with its leading and trailing whitespace removed, as `str::trim` does.
pub open spec fn trim(s: Seq<char>) -> Seq<char> {
    let a = run_end(s, 0, Run::Space);
    s.subrange(a, back_space_run(s, a, s.len() as int))
}

pub fn in_run_char(c: char, k: Run) -> (r: bool)
    ensures
        r == in_run(c, k),
{
    match k {
        Run::Space => is_space_char(c),
        Run::NotSpace => !is_space_char(c),
        Run::Alnum => is_alpha_char(c) || ('0' <= c && c <= '9'),
        Run::NameChar => is_alpha_char(c) || ('0' <= c && c <= '9') || c == '-',
        Run::NotQuote => !(c == '\'' || c == '"'),
        Run::NotDouble => c != '"',
        Run::NotSingle => c != '\'',
        Run::NotGt => c != '>',
    }
}

/// Steps over the run of kind `k` that starts at `i`.
pub fn skip(v: &Vec<char>, i: usize, k: Run) -> (r: usize)
    requires
        i <= v.len(),
    ensures
        r == run_end(v@, i as int, k),
        i <= r <= v.len(),
{
    let mut j: usize = i;
    while j < v.len() && in_run_char(v[j], k)
        invariant
            i <= j <= v.len(),
            run_end(v@, j as int, k) == run_end(v@, i as int, k),
        decreases v.len() - j,
    {
        j = j + 1;
    }
    j
}

/// Whether `pat` occurs in `v` at position `i`.
pub fn occurs_at_exec(v: &Vec<char>, i: usize, pat: &Vec<char>) -> (r: bool)
    ensures
        r == occurs_at(v@, i as int, pat@),
{
    if pat.len() > v.len() || i > v.len() - pat.len() {
        return false;
    }
    let mut k: usize = 0;
    while k < pat.len()
        invariant
            i + pat.len() <= v.len(),
            k <= pat.len(),
            forall|m: int| 0 <= m < k ==> v@[i + m] == pat@[m],
        decreases pat.len() - k,
    {
        if v[i + k] != pat[k] {
            assert(v@.subrange(i as int, i + pat.len())[k as int] != pat@[k as int]);
            return false;
        }
        k = k + 1;
    }
    assert(v@.subrange(i as int, i + pat.len()) =~= pat@);
    true
}

/// The first position at or after `i` where `pat` occurs in `v`.
pub fn find_from_exec(v: &Vec<char>, i: usize, pat: &Vec<char>) -> (r: Option<usize>)
    ensures
        match r {
            Some(j) => find_from(v@, i as int, pat@) == Some(j as int),
            None => find_from(v@, i as int, pat@) is None,
        },
{
    if pat.len() > v.len() {
        return None;
    }
    let last: usize = v.len() - pat.len();
    let mut j: usize = i;
    while j <= last
        invariant
            i <= j,
            last == v.len() - pat.len(),
            find_from(v@, j as int, pat@) == find_from(v@, i as int, pat@),
        decreases last - j,
    {
        if occurs_at_exec(v, j, pat) {
            return Some(j);
        }
        if j == last {
            assert(find_from(v@, j + 1, pat@) is None);
            return None;
        }
        j = j + 1;
    }
    None
}

/// The characters of `s`, one per entry.
pub fn chars_of(s: &str) -> (r: Vec<char>)
    ensures
        r@ == s@,
{
    let mut r: Vec<char> = Vec::new();
    for c in it: s.chars()
        invariant
            r@ == it.seq().take(it.index() as int),
            it.seq() == s@,
    {
        r.push(c);
    }
    r
}

/// The characters of `v` between `lo` and `hi` as a new vector.
pub fn sub_vec(v: &Vec<char>, lo: usize, hi: usize) -> (r: Vec<char>)
    requires
        lo <= hi <= v.len(),
    ensures
        r@ == v@.subrange(lo as int, hi as int),
{
    let mut r: Vec<char> = Vec::new();
    let mut k: usize = lo;
    while k < hi
        invariant
            lo <= k <= hi <= v.len(),
            r@ == v@.subrange(lo as int, k as int),
        decreases hi - k,
    {
        r.push(v[k]);
        assert(v@.subrange(lo as int, k + 1) =~= v@.subrange(lo as int, k as int).push(v@[k as int]));
        k = k + 1;
    }
    r
}

/// Relies on `String::push`: appends one character at the end.
#[verifier::external_body]
fn push_char(s: &mut String, c: char)
    ensures
        final(s)@ == old(s)@.push(c),
{
    s.push(c);
}

/// Relies on `String::push_str`: appends the characters of `t` at the end.
#[verifier::external_body]
pub(crate) fn push_str(s: &mut String, t: &str)
    ensures
        final(s)@ == old(s)@ + t@,
{
    s.push_str(t);
}

/// The characters of `v` between `lo` and `hi` as a new `String`.
pub fn string_of(v: &Vec<char>, lo: usize, hi: usize) -> (r: String)
    requires
        lo <= hi <= v.len(),
    ensures
        r@ == v@.subrange(lo as int, hi as int),
{
    let mut r = String::new();
    let mut k: usize = lo;
    while k < hi
        invariant
            lo <= k <= hi <= v.len(),
            r@ == v@.subrange(lo as int, k as int),
        decreases hi - k,
    {
        push_char(&mut r, v[k]);
        assert(v@.subrange(lo as int, k + 1) =~= v@.subrange(lo as int, k as int).push(v@[k as int]));
        k = k + 1;
    }
    r
}

/// The characters of `v` between `lo` and `hi`, trimmed of whitespace at both ends.
pub fn trimmed_string(v: &Vec<char>, lo: usize, hi: usize) -> (r: String)
    requires
        lo <= hi <= v.len(),
    ensures
        r@ == trim(v@.subrange(lo as int, hi as int)),
{
    let ghost s = v@.subrange(lo as int, hi as int);
    let mut a: usize = lo;
    while a < hi && is_space_char(v[a])
        invariant
            lo <= a <= hi <= v.len(),
            s == v@.subrange(lo as int, hi as int),
            run_end(s, (a - lo) as int, Run::Space) == run_end(s, 0, Run::Space),
        decreases hi - a,
    {
        a = a + 1;
    }
    let mut b: usize = hi;
    while b > a && is_space_char(v[b - 1])
        invariant
            lo <= a <= b <= hi <= v.len(),
            s == v@.subrange(lo as int, hi as int),
            back_space_run(s, (a - lo) as int, (b - lo) as int) == back_space_run(
                s,
                (a - lo) as int,
                s.len() as int,
            ),
        decreases b - a,
    {
        b = b - 1;
    }
    assert(v@.subrange(a as int, b as int) =~= s.subrange((a - lo) as int, (b - lo) as int));
    string_of(v, a, b)
}

} // verus!
