//! The text of a menu entry: collapsing whitespace, removing markers, and
//! the key under which an entry's rating is cached.
use vstd::prelude::*;
use crate::text::{
    is_space, lemma_run_end, occurs_at, occurs_at_exec, push_str, run_end, skip, string_of, trim,
    trimmed_string, Run,
};

verus! {

/// The whitespace-separated words of `s` from `i` on.
pub open spec fn words_from(s: Seq<char>, i: int) -> Seq<Seq<char>>
    decreases s.len() - i,
    via words_from_decreases
{
    let a = run_end(s, i, Run::Space);
    if i < 0 || a >= s.len() {
        seq![]
    } else {
        let b = run_end(s, a, Run::NotSpace);
        seq![s.subrange(a, b)] + words_from(s, b)
    }
}

#[via_fn]
proof fn words_from_decreases(s: Seq<char>, i: int) {
    if 0 <= i <= s.len() {
        lemma_run_end(s, i, Run::Space);
        let a = run_end(s, i, Run::Space);
        if a < s.len() {
            lemma_run_end(s, a, Run::NotSpace);
        }
    } else if i > s.len() {
        assert(run_end(s, i, Run::Space) == i);
    }
}

/// The words joined with one space between each two.
pub open spec fn join_words(ws: Seq<Seq<char>>) -> Seq<char>
    decreases ws.len(),
{
    if ws.len() == 0 {
        seq![]
    } else if ws.len() == 1 {
        ws[0]
    } else {
        join_words(ws.drop_last()) + seq![' '] + ws.last()
    }
}

/// `s` from `i` on with each occurrence of `from` replaced by `to`, taken
/// from left to right without overlap.
pub open spec fn replace_from(s: Seq<char>, i: int, from: Seq<char>, to: Seq<char>) -> Seq<char>
    decreases s.len() - i,
{
    if i < 0 || i >= s.len() {
        seq![]
    } else if from.len() > 0 && occurs_at(s, i, from) {
        to + replace_from(s, i + from.len(), from, to)
    } else {
        seq![s[i]] + replace_from(s, i + 1, from, to)
    }
}

/// `s` with each occurrence of `from` replaced by `to`, as `str::replace`
/// does for a pattern that is not empty. An empty pattern leaves `s` as it is.
pub open spec fn replace_all(s: Seq<char>, from: Seq<char>, to: Seq<char>) -> Seq<char> {
    replace_from(s, 0, from, to)
}

/// The words of `text` joined by single spaces, with no space left before a
/// comma.
pub open spec fn clean(text: Seq<char>) -> Seq<char> {
    trim(replace_all(join_words(words_from(text, 0)), " ,"@, ","@))
}

/// `s` with each occurrence of `from` replaced by `to`.
pub fn replace_all_exec(s: &Vec<char>, from: &Vec<char>, to: &Vec<char>) -> (r: Vec<char>)
    ensures
        r@ == replace_all(s@, from@, to@),
{
    let mut out: Vec<char> = Vec::new();
    let mut i: usize = 0;
    while i < s.len()
        invariant
            i <= s.len(),
            out@ + replace_from(s@, i as int, from@, to@) == replace_all(s@, from@, to@),
        decreases s.len() - i,
    {
        let ghost before = out@;
        if from.len() > 0 && occurs_at_exec(s, i, from) {
            let mut k: usize = 0;
            while k < to.len()
                invariant
                    k <= to.len(),
                    out@ == before + to@.subrange(0, k as int),
                decreases to.len() - k,
            {
                out.push(to[k]);
                assert(to@.subrange(0, k + 1) =~= to@.subrange(0, k as int).push(to@[k as int]));
                k = k + 1;
            }
            assert(to@.subrange(0, to.len() as int) =~= to@);
            let ghost rest = replace_from(s@, i + from.len(), from@, to@);
            assert(before + (to@ + rest) =~= out@ + rest);
            i = i + from.len();
        } else {
            out.push(s[i]);
            let ghost rest = replace_from(s@, i + 1, from@, to@);
            assert(before + (seq![s@[i as int]] + rest) =~= out@ + rest);
            i = i + 1;
        }
    }
    assert(out@ + seq![] =~= out@);
    out
}

/// The words of `v`, joined by single spaces.
fn join_words_exec(v: &Vec<char>) -> (r: Vec<char>)
    ensures
        r@ == join_words(words_from(v@, 0)),
{
    let mut out: Vec<char> = Vec::new();
    let ghost done: Seq<Seq<char>> = seq![];
    let mut any: bool = false;
    let mut i: usize = 0;
    assert(words_from(v@, 0) =~= done + words_from(v@, 0));
    while i < v.len()
        invariant
            i <= v.len(),
            words_from(v@, 0) == done + words_from(v@, i as int),
            out@ == join_words(done),
            any == (done.len() > 0),
        decreases v.len() - i,
    {
        let a = skip(v, i, Run::Space);
        if a >= v.len() {
            i = a;
        } else {
            let b = skip(v, a, Run::NotSpace);
            proof {
                lemma_run_end(v@, a as int, Run::NotSpace);
            }
            let ghost w = v@.subrange(a as int, b as int);
            if any {
                out.push(' ');
            }
            let mut k: usize = a;
            let ghost start = out@;
            while k < b
                invariant
                    a <= k <= b <= v.len(),
                    out@ == start + v@.subrange(a as int, k as int),
                decreases b - k,
            {
                out.push(v[k]);
                assert(v@.subrange(a as int, k + 1) =~= v@.subrange(a as int, k as int).push(
                    v@[k as int],
                ));
                k = k + 1;
            }
            proof {
                let next = done.push(w);
                assert(next.drop_last() =~= done);
                if done.len() == 0 {
                    assert(out@ =~= w);
                } else {
                    assert(out@ =~= join_words(done) + seq![' '] + w);
                }
                assert(done + words_from(v@, i as int) =~= next + words_from(v@, b as int));
                done = next;
            }
            any = true;
            i = b;
        }
    }
    proof {
        lemma_run_end(v@, i as int, Run::Space);
        assert(done + words_from(v@, i as int) =~= done);
    }
    out
}

/// Collapses each run of whitespace to one space, trims both ends, and
/// removes a space that stands before a comma.
pub fn clean_text(text: &str) -> (r: String)
    ensures
        r@ == clean(text@),
{
    let v = crate::text::chars_of(text);
    let joined = join_words_exec(&v);
    let from = crate::text::chars_of(" ,");
    let to = crate::text::chars_of(",");
    let replaced = replace_all_exec(&joined, &from, &to);
    assert(replaced@.subrange(0, replaced@.len() as int) =~= replaced@);
    trimmed_string(&replaced, 0, replaced.len())
}


fn replaced(s: &String, from: &str, to: &str) -> (r: String)
    ensures
        r@ == replace_all(s@, from@, to@),
{
    let v = crate::text::chars_of(s.as_str());
    let f = crate::text::chars_of(from);
    let t = crate::text::chars_of(to);
    let out = replace_all_exec(&v, &f, &t);
    string_of(&out, 0, out.len())
}

fn trimmed(s: &String) -> (r: String)
    ensures
        r@ == trim(s@),
{
    let v = crate::text::chars_of(s.as_str());
    assert(v@.subrange(0, v@.len() as int) =~= v@);
    trimmed_string(&v, 0, v.len())
}

/// One tap of the menu.
pub struct BeerEntry {
    pub tap_number: i32,
    pub brewery: String,
    pub name: String,
    pub abv: String,
    pub category: String,
    pub origin: String,
    pub style: String,
    pub days_old: i32,
}

/// The brewery as listed: cleaned, without the `**Nitro**` marker.
pub open spec fn entry_brewery(raw: Seq<char>) -> Seq<char> {
    trim(replace_all(clean(raw), "**Nitro**"@, ""@))
}

/// The beer's name as listed: cleaned, without the nitro markers
/// `**NITRO**`, `**Nitro**`, `NITRO` and `Nitro` (removed in that order),
/// and without the brewery's name where the name repeats it.
pub open spec fn entry_name(raw: Seq<char>, brewery: Seq<char>) -> Seq<char> {
    let n = replace_all(clean(raw), "**NITRO**"@, ""@);
    let n = replace_all(n, "**Nitro**"@, ""@);
    let n = replace_all(n, "NITRO"@, ""@);
    let n = trim(replace_all(n, "Nitro"@, ""@));
    trim(replace_all(n, brewery, ""@))
}

/// The strength as listed, cleaned; `0.0` where none is given.
pub open spec fn entry_abv(raw: Seq<char>) -> Seq<char> {
    if clean(raw).len() == 0 {
        "0.0"@
    } else {
        clean(raw)
    }
}

impl BeerEntry {
    /// An entry from the raw fields of a menu item: each text is cleaned,
    /// the nitro markers are removed from brewery and name, and the brewery's
    /// name is removed from the beer's name.
    pub fn from_raw(
        tap_number: i32,
        brewery: &str,
        name: &str,
        abv: &str,
        category: &str,
        origin: &str,
        style: &str,
        days_old: i32,
    ) -> (r: BeerEntry)
        ensures
            r.tap_number == tap_number,
            r.brewery@ == entry_brewery(brewery@),
            r.name@ == entry_name(name@, entry_brewery(brewery@)),
            r.abv@ == entry_abv(abv@),
            r.category@ == clean(category@),
            r.origin@ == clean(origin@),
            r.style@ == clean(style@),
            r.days_old == days_old,
    {
        let b = trimmed(&replaced(&clean_text(brewery), "**Nitro**", ""));
        let n = replaced(&clean_text(name), "**NITRO**", "");
        let n = replaced(&n, "**Nitro**", "");
        let n = replaced(&n, "NITRO", "");
        let n = trimmed(&replaced(&n, "Nitro", ""));
        let n = trimmed(&replaced(&n, b.as_str(), ""));
        let mut a = clean_text(abv);
        if a.as_str().is_empty() {
            a = String::new();
            push_str(&mut a, "0.0");
            assert(a@ =~= "0.0"@);
        }
        BeerEntry {
            tap_number,
            brewery: b,
            name: n,
            abv: a,
            category: clean_text(category),
            origin: clean_text(origin),
            style: clean_text(style),
            days_old,
        }
    }
}

// ---------------------------------------------------------------------------
// Cache keys

/// What `str::to_lowercase` gives for `s`.
pub uninterp spec fn lower_of(s: Seq<char>) -> Seq<char>;

/// Relies on `str::to_lowercase`: the lowercase mapping of the text, which
/// depends on its characters alone.
#[verifier::external_body]
fn lowercase(s: &str) -> (r: String)
    ensures
        r@ == lower_of(s@),
{
    s.to_lowercase()
}

/// The cache key for a brewery and a beer name that are already lowercase.
pub fn key_from_lowered(brewery: &str, name: &str) -> (r: String)
    ensures
        r@ == "rating:"@ + brewery@ + ":"@ + name@,
{
    let mut key = String::new();
    push_str(&mut key, "rating:");
    push_str(&mut key, brewery);
    push_str(&mut key, ":");
    push_str(&mut key, name);
    assert(key@ =~= "rating:"@ + brewery@ + ":"@ + name@);
    key
}

/// The key under which the rating of a beer is cached: `rating:` with the
/// brewery and the name in lowercase, separated by `:`.
pub fn generate_cache_key(brewery: &str, name: &str) -> (r: String)
    ensures
        r@ == "rating:"@ + lower_of(brewery@) + ":"@ + lower_of(name@),
{
    let b = lowercase(brewery);
    let n = lowercase(name);
    key_from_lowered(b.as_str(), n.as_str())
}

} // verus!
