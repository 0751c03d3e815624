//! Finding elements in HTML text by class name, and the first anchor.
//!
//! The document is read as a sequence of characters. An opening tag is `<`,
//! a letter, further letters or digits (the tag name), and everything up to
//! the next `>` (the attribute text). Attributes are the quoted
//! `name = "value"` pairs of that text, in order. An element's content ends
//! at the closing tag that balances its opening tag, counting every later
//! `<name` as one level deeper and every `</name>` as one level up.
use vstd::prelude::*;
use crate::text::{
    find_from, find_from_exec, is_alnum, is_alpha, is_alpha_char, is_quote, is_space,
    is_space_char, lemma_find_from, lemma_run_end, occurs_at, occurs_at_exec, run_end, skip,
    string_of, sub_vec, trim, trimmed_string, chars_of, Run,
};

verus! {

// ---------------------------------------------------------------------------
// Opening tags

/// An opening tag starts at `p`: `<`, a letter, and a `>` somewhere after.
pub open spec fn open_tag_at(h: Seq<char>, p: int) -> bool {
    0 <= p && p + 1 < h.len() && h[p] == '<' && is_alpha(h[p + 1]) && tag_gt(h, p) < h.len()
}

/// The end of the tag name of the tag that starts at `p`.
pub open spec fn tag_name_end(h: Seq<char>, p: int) -> int {
    run_end(h, p + 1, Run::Alnum)
}

/// The position of the `>` that ends the tag that starts at `p`.
pub open spec fn tag_gt(h: Seq<char>, p: int) -> int {
    run_end(h, tag_name_end(h, p), Run::NotGt)
}

/// The first opening tag at or after `i`.
pub open spec fn next_open_tag(h: Seq<char>, i: int) -> Option<int>
    decreases h.len() - i,
{
    if i < 0 || i >= h.len() {
        None
    } else if open_tag_at(h, i) {
        Some(i)
    } else {
        next_open_tag(h, i + 1)
    }
}

proof fn lemma_open_tag_bounds(h: Seq<char>, p: int)
    requires
        0 <= p,
        p + 1 < h.len(),
    ensures
        p + 1 <= tag_name_end(h, p) <= tag_gt(h, p) <= h.len(),
        forall|j: int| p + 1 <= j < tag_name_end(h, p) ==> is_alnum(#[trigger] h[j]),
        forall|j: int| tag_name_end(h, p) <= j < tag_gt(h, p) ==> #[trigger] h[j] != '>',
        tag_gt(h, p) < h.len() ==> h[tag_gt(h, p)] == '>',
{
    lemma_run_end(h, p + 1, Run::Alnum);
    lemma_run_end(h, tag_name_end(h, p), Run::NotGt);
}

pub proof fn lemma_next_open_tag(h: Seq<char>, i: int)
    requires
        0 <= i,
    ensures
        match next_open_tag(h, i) {
            Some(p) => i <= p && open_tag_at(h, p),
            None => true,
        },
    decreases h.len() - i,
{
    if i < h.len() && !open_tag_at(h, i) {
        lemma_next_open_tag(h, i + 1);
    }
}

/// Without a `>` after `j`, no opening tag starts at or after `m`.
proof fn lemma_no_open_tag(h: Seq<char>, j: int, m: int)
    requires
        0 <= j <= m,
        forall|k: int| j < k < h.len() ==> #[trigger] h[k] != '>',
    ensures
        next_open_tag(h, m) is None,
    decreases h.len() - m,
{
    if m < h.len() {
        if m + 1 < h.len() {
            lemma_open_tag_bounds(h, m);
        }
        lemma_no_open_tag(h, j, m + 1);
    }
}

/// The first opening tag at or after `i`.
fn next_open_tag_exec(h: &Vec<char>, i: usize) -> (r: Option<usize>)
    requires
        i <= h.len(),
    ensures
        match r {
            Some(p) => next_open_tag(h@, i as int) == Some(p as int),
            None => next_open_tag(h@, i as int) is None,
        },
{
    let mut j: usize = i;
    while j < h.len()
        invariant
            i <= j <= h.len(),
            next_open_tag(h@, j as int) == next_open_tag(h@, i as int),
        decreases h.len() - j,
    {
        if h[j] == '<' && j + 1 < h.len() && is_alpha_char(h[j + 1]) {
            let ne = skip(h, j + 1, Run::Alnum);
            let gt = skip(h, ne, Run::NotGt);
            if gt < h.len() {
                return Some(j);
            }
            proof {
                lemma_open_tag_bounds(h@, j as int);
                lemma_no_open_tag(h@, j as int, j as int);
            }
            return None;
        }
        j = j + 1;
    }
    None
}

// ---------------------------------------------------------------------------
// Attributes

/// The run that a value opened by the quote `q` stays within.
pub open spec fn closing_run(q: char) -> Run {
    if q == '"' {
        Run::NotDouble
    } else {
        Run::NotSingle
    }
}

/// After `j`: optional whitespace, `=`, optional whitespace, a quote (`"`
/// or `'`), then any characters up to the next quote of the same kind, which
/// closes the value. Gives the bounds of the quoted value.
pub open spec fn quoted_value_after(a: Seq<char>, j: int) -> Option<(int, int)> {
    let eq = run_end(a, j, Run::Space);
    if 0 <= eq < a.len() && a[eq] == '=' {
        let q = run_end(a, eq + 1, Run::Space);
        if q < a.len() && is_quote(a[q]) {
            let ve = run_end(a, q + 1, closing_run(a[q]));
            if ve < a.len() {
                Some((q + 1, ve))
            } else {
                None
            }
        } else {
            None
        }
    } else {
        None
    }
}

/// A `name = "value"` pair starts at `i` of the attribute text `a`: the end
/// of its name and the bounds of its value. A name is a letter followed by
/// letters, digits and `-`.
pub open spec fn attr_at(a: Seq<char>, i: int) -> Option<(int, int, int)> {
    if 0 <= i < a.len() && is_alpha(a[i]) {
        let ne = run_end(a, i + 1, Run::NameChar);
        match quoted_value_after(a, ne) {
            Some((vs, ve)) => Some((ne, vs, ve)),
            None => None,
        }
    } else {
        None
    }
}

proof fn lemma_quoted_value_after(a: Seq<char>, j: int)
    requires
        0 <= j <= a.len(),
    ensures
        match quoted_value_after(a, j) {
            Some((vs, ve)) => j < vs <= ve < a.len(),
            None => true,
        },
{
    let eq = run_end(a, j, Run::Space);
    lemma_run_end(a, j, Run::Space);
    if 0 <= eq < a.len() && a[eq] == '=' {
        let q = run_end(a, eq + 1, Run::Space);
        lemma_run_end(a, eq + 1, Run::Space);
        if q < a.len() && is_quote(a[q]) {
            lemma_run_end(a, q + 1, closing_run(a[q]));
        }
    }
}

proof fn lemma_attr_at(a: Seq<char>, i: int)
    requires
        0 <= i,
    ensures
        match attr_at(a, i) {
            Some((ne, vs, ve)) => i < ne < vs <= ve < a.len(),
            None => true,
        },
{
    if 0 <= i < a.len() && is_alpha(a[i]) {
        lemma_run_end(a, i + 1, Run::NameChar);
        lemma_quoted_value_after(a, run_end(a, i + 1, Run::NameChar));
    }
}

/// The `(name, value)` pairs of the attribute text `a` from `i` on, in order:
/// each search for the next pair resumes after the closing quote of the last.
pub open spec fn attrs_from(a: Seq<char>, i: int) -> Seq<(Seq<char>, Seq<char>)>
    decreases a.len() - i,
    via attrs_from_decreases
{
    if i < 0 || i >= a.len() {
        seq![]
    } else {
        match attr_at(a, i) {
            Some((ne, vs, ve)) => seq![(a.subrange(i, ne), a.subrange(vs, ve))] + attrs_from(
                a,
                ve + 1,
            ),
            None => attrs_from(a, i + 1),
        }
    }
}

#[via_fn]
proof fn attrs_from_decreases(a: Seq<char>, i: int) {
    if 0 <= i < a.len() {
        lemma_attr_at(a, i);
    }
}

/// The `(name, value)` pairs of the attribute text `a`, in order; repeated
/// names are kept.
pub open spec fn attributes_of(a: Seq<char>) -> Seq<(Seq<char>, Seq<char>)> {
    attrs_from(a, 0)
}

/// The views of a list of `(name, value)` strings.
pub open spec fn pairs_view(v: Seq<(String, String)>) -> Seq<(Seq<char>, Seq<char>)> {
    v.map_values(|p: (String, String)| (p.0@, p.1@))
}

fn quoted_value_after_exec(a: &Vec<char>, j: usize) -> (r: Option<(usize, usize)>)
    requires
        j <= a.len(),
    ensures
        match r {
            Some((vs, ve)) => quoted_value_after(a@, j as int) == Some((vs as int, ve as int)),
            None => quoted_value_after(a@, j as int) is None,
        },
{
    let eq = skip(a, j, Run::Space);
    if eq < a.len() && a[eq] == '=' {
        let q = skip(a, eq + 1, Run::Space);
        if q < a.len() && (a[q] == '\'' || a[q] == '"') {
            let ve = skip(a, q + 1, if a[q] == '"' { Run::NotDouble } else { Run::NotSingle });
            if ve < a.len() {
                return Some((q + 1, ve));
            }
        }
    }
    None
}

fn attr_at_exec(a: &Vec<char>, i: usize) -> (r: Option<(usize, usize, usize)>)
    requires
        i < a.len(),
    ensures
        match r {
            Some((ne, vs, ve)) => attr_at(a@, i as int) == Some((ne as int, vs as int, ve as int)),
            None => attr_at(a@, i as int) is None,
        },
{
    if is_alpha_char(a[i]) {
        let ne = skip(a, i + 1, Run::NameChar);
        match quoted_value_after_exec(a, ne) {
            Some((vs, ve)) => Some((ne, vs, ve)),
            None => None,
        }
    } else {
        None
    }
}

/// The `(name, value)` pairs of an attribute text.
pub fn parse_attributes(a: &Vec<char>) -> (r: Vec<(String, String)>)
    ensures
        pairs_view(r@) == attributes_of(a@),
{
    let mut r: Vec<(String, String)> = Vec::new();
    let mut i: usize = 0;
    while i < a.len()
        invariant
            i <= a.len() + 1,
            pairs_view(r@) + attrs_from(a@, i as int) == attributes_of(a@),
        decreases a.len() + 1 - i,
    {
        proof {
            lemma_attr_at(a@, i as int);
        }
        match attr_at_exec(a, i) {
            Some((ne, vs, ve)) => {
                let name = string_of(a, i, ne);
                let value = string_of(a, vs, ve);
                let ghost before = r@;
                r.push((name, value));
                assert(pairs_view(r@) =~= pairs_view(before) + seq![(a@.subrange(i as int, ne as int), a@.subrange(vs as int, ve as int))]);
                i = ve + 1;
            },
            None => {
                i = i + 1;
            },
        }
    }
    assert(attrs_from(a@, i as int) =~= seq![]);
    assert(pairs_view(r@) + seq![] =~= pairs_view(r@));
    r
}


// ---------------------------------------------------------------------------
// Class names

pub open spec fn class_word() -> Seq<char> {
    seq!['c', 'l', 'a', 's', 's']
}

/// `class = "..."` starts at `i` of the attribute text: the bounds of its value.
pub open spec fn class_at(a: Seq<char>, i: int) -> Option<(int, int)> {
    if occurs_at(a, i, class_word()) {
        quoted_value_after(a, i + 5)
    } else {
        None
    }
}

/// The bounds of the value of the first `class = "..."` at or after `i`.
pub open spec fn class_from(a: Seq<char>, i: int) -> Option<(int, int)>
    decreases a.len() + 1 - i,
{
    if i < 0 || i > a.len() {
        None
    } else {
        match class_at(a, i) {
            Some(b) => Some(b),
            None => class_from(a, i + 1),
        }
    }
}

/// The value of the first `class = "..."` in the attribute text `a`.
pub open spec fn class_value(a: Seq<char>) -> Option<Seq<char>> {
    match class_from(a, 0) {
        Some((vs, ve)) => Some(a.subrange(vs, ve)),
        None => None,
    }
}

/// `c` is one of the whitespace-separated words of `v`: it is not empty, holds
/// no whitespace, and occurs in `v` with whitespace or an end of `v` on each side.
pub open spec fn has_token(v: Seq<char>, c: Seq<char>) -> bool {
    &&& c.len() > 0
    &&& forall|k: int| 0 <= k < c.len() ==> !is_space(#[trigger] c[k])
    &&& exists|i: int| #[trigger] token_at(v, i, c)
}

/// `c` occurs in `v` at `i` with whitespace or an end of `v` on each side.
pub open spec fn token_at(v: Seq<char>, i: int, c: Seq<char>) -> bool {
    &&& occurs_at(v, i, c)
    &&& (i == 0 || is_space(v[i - 1]))
    &&& (i + c.len() == v.len() || is_space(v[i + c.len()]))
}

/// The attribute text `a` has a `class` attribute among whose words is `c`.
pub open spec fn has_class(a: Seq<char>, c: Seq<char>) -> bool {
    match class_value(a) {
        Some(v) => has_token(v, c),
        None => false,
    }
}

fn class_word_exec() -> (r: Vec<char>)
    ensures
        r@ == class_word(),
{
    let r = vec!['c', 'l', 'a', 's', 's'];
    assert(r@ =~= class_word());
    r
}

fn class_value_exec(a: &Vec<char>) -> (r: Option<(usize, usize)>)
    ensures
        match r {
            Some((vs, ve)) => class_from(a@, 0) == Some((vs as int, ve as int)) && vs <= ve
                <= a.len(),
            None => class_from(a@, 0) is None,
        },
{
    let word = class_word_exec();
    assert(word@.len() == 5);
    let mut i: usize = 0;
    while i <= a.len()
        invariant
            i <= a.len() + 1,
            word@ == class_word(),
            class_from(a@, i as int) == class_from(a@, 0),
        decreases a.len() + 1 - i,
    {
        assert(class_from(a@, i as int) == match class_at(a@, i as int) {
            Some(b) => Some(b),
            None => class_from(a@, i + 1),
        });
        if occurs_at_exec(a, i, &word) {
            match quoted_value_after_exec(a, i + 5) {
                Some((vs, ve)) => {
                    proof {
                        lemma_quoted_value_after(a@, i + 5);
                    }
                    return Some((vs, ve));
                },
                None => {},
            }
        }
        if i == a.len() {
            assert(class_from(a@, i + 1) is None);
            return None;
        }
        i = i + 1;
    }
    None
}

fn has_token_exec(v: &Vec<char>, c: &Vec<char>) -> (r: bool)
    ensures
        r == has_token(v@, c@),
{
    if c.len() == 0 {
        return false;
    }
    let mut k: usize = 0;
    while k < c.len()
        invariant
            k <= c.len(),
            forall|m: int| 0 <= m < k ==> !is_space(#[trigger] c@[m]),
        decreases c.len() - k,
    {
        if is_space_char(c[k]) {
            return false;
        }
        k = k + 1;
    }
    if c.len() > v.len() {
        assert forall|i: int| !token_at(v@, i, c@) by {}
        return false;
    }
    let last: usize = v.len() - c.len();
    let mut i: usize = 0;
    while i <= last
        invariant
            last == v.len() - c.len(),
            c.len() > 0,
            forall|m: int| 0 <= m < c.len() ==> !is_space(#[trigger] c@[m]),
            forall|m: int| 0 <= m < i ==> !#[trigger] token_at(v@, m, c@),
        decreases last + 1 - i,
    {
        let before = i == 0 || is_space_char(v[i - 1]);
        let after = i + c.len() == v.len() || is_space_char(v[i + c.len()]);
        if before && after && occurs_at_exec(v, i, c) {
            assert(token_at(v@, i as int, c@));
            return true;
        }
        i = i + 1;
    }
    assert forall|m: int| !token_at(v@, m, c@) by {
        if 0 <= m < i {
        }
    }
    false
}

// ---------------------------------------------------------------------------
// Balanced closing tags

/// `<` followed by the tag name: what counts as one level deeper.
pub open spec fn open_prefix(t: Seq<char>) -> Seq<char> {
    seq!['<'] + t
}

/// `</name>`: what counts as one level up.
pub open spec fn close_tag(t: Seq<char>) -> Seq<char> {
    seq!['<', '/'] + t + seq!['>']
}

/// Where the content ends of an element named `t` that is `depth` levels
/// deep at `pos`: from `pos` on, whichever of the next `<t` and the next
/// `</t>` comes first decides the step. None when the text ends first.
pub open spec fn matching_close(h: Seq<char>, t: Seq<char>, pos: int, depth: nat) -> Option<int>
    decreases h.len() - pos,
    via matching_close_decreases
{
    if pos < 0 || pos >= h.len() || depth == 0 {
        None
    } else {
        match (find_from(h, pos, open_prefix(t)), find_from(h, pos, close_tag(t))) {
            (Some(o), Some(c)) => if o < c {
                matching_close(h, t, o + 1, depth + 1)
            } else if depth == 1 {
                Some(c)
            } else {
                matching_close(h, t, c + close_tag(t).len(), (depth - 1) as nat)
            },
            (None, Some(c)) => if depth == 1 {
                Some(c)
            } else {
                matching_close(h, t, c + close_tag(t).len(), (depth - 1) as nat)
            },
            _ => None,
        }
    }
}

#[via_fn]
proof fn matching_close_decreases(h: Seq<char>, t: Seq<char>, pos: int, depth: nat) {
    if 0 <= pos {
        lemma_find_from(h, pos, open_prefix(t));
        lemma_find_from(h, pos, close_tag(t));
    }
}

proof fn lemma_matching_close(h: Seq<char>, t: Seq<char>, pos: int, depth: nat)
    requires
        0 <= pos,
    ensures
        match matching_close(h, t, pos, depth) {
            Some(c) => pos <= c && occurs_at(h, c, close_tag(t)),
            None => true,
        },
    decreases h.len() - pos,
{
    if pos < h.len() && depth > 0 {
        lemma_find_from(h, pos, open_prefix(t));
        lemma_find_from(h, pos, close_tag(t));
        match (find_from(h, pos, open_prefix(t)), find_from(h, pos, close_tag(t))) {
            (Some(o), Some(c)) => {
                if o < c {
                    lemma_matching_close(h, t, o + 1, depth + 1);
                } else if depth != 1 {
                    lemma_matching_close(h, t, c + close_tag(t).len(), (depth - 1) as nat);
                }
            },
            (None, Some(c)) => {
                if depth != 1 {
                    lemma_matching_close(h, t, c + close_tag(t).len(), (depth - 1) as nat);
                }
            },
            _ => {},
        }
    }
}

fn matching_close_exec(h: &Vec<char>, t: &Vec<char>, start: usize) -> (r: Option<usize>)
    requires
        1 <= start <= h.len(),
    ensures
        match r {
            Some(c) => matching_close(h@, t@, start as int, 1) == Some(c as int),
            None => matching_close(h@, t@, start as int, 1) is None,
        },
{
    let mut open: Vec<char> = vec!['<'];
    let mut close: Vec<char> = vec!['<', '/'];
    let mut k: usize = 0;
    while k < t.len()
        invariant
            k <= t.len(),
            open@ == seq!['<'] + t@.subrange(0, k as int),
            close@ == seq!['<', '/'] + t@.subrange(0, k as int),
        decreases t.len() - k,
    {
        open.push(t[k]);
        close.push(t[k]);
        assert(t@.subrange(0, k + 1) =~= t@.subrange(0, k as int).push(t@[k as int]));
        k = k + 1;
    }
    close.push('>');
    assert(open@ =~= open_prefix(t@));
    assert(close@ =~= close_tag(t@));
    let mut pos: usize = start;
    let mut depth: usize = 1;
    while pos < h.len()
        invariant
            1 <= depth <= pos <= h.len(),
            open@ == open_prefix(t@),
            close@ == close_tag(t@),
            matching_close(h@, t@, pos as int, depth as nat) == matching_close(
                h@,
                t@,
                start as int,
                1,
            ),
        decreases h.len() - pos,
    {
        proof {
            lemma_find_from(h@, pos as int, open@);
            lemma_find_from(h@, pos as int, close@);
        }
        let next_open = find_from_exec(h, pos, &open);
        let next_close = find_from_exec(h, pos, &close);
        match (next_open, next_close) {
            (Some(o), Some(c)) => {
                if o < c {
                    depth = depth + 1;
                    pos = o + 1;
                } else {
                    if depth == 1 {
                        return Some(c);
                    }
                    depth = depth - 1;
                    pos = c + close.len();
                }
            },
            (None, Some(c)) => {
                if depth == 1 {
                    return Some(c);
                }
                depth = depth - 1;
                pos = c + close.len();
            },
            _ => {
                return None;
            },
        }
    }
    None
}


// ---------------------------------------------------------------------------
// Elements

/// What an element is made of: its tag name as written, its `(name, value)`
/// attributes in the order of the opening tag, and its content between the
/// opening and the closing tag, trimmed of whitespace at both ends.
pub struct ElementView {
    pub tag_name: Seq<char>,
    pub attributes: Seq<(Seq<char>, Seq<char>)>,
    pub content: Seq<char>,
}

/// An element found in a document. Built only by the two extractors.
#[derive(Debug, Clone)]
pub struct Element {
    tag_name: String,
    attributes: Vec<(String, String)>,
    content: String,
}

impl View for Element {
    type V = ElementView;

    closed spec fn view(&self) -> ElementView {
        ElementView {
            tag_name: self.tag_name@,
            attributes: pairs_view(self.attributes@),
            content: self.content@,
        }
    }
}

/// The value of the first attribute called `name`.
pub open spec fn attr_lookup(attrs: Seq<(Seq<char>, Seq<char>)>, name: Seq<char>) -> Option<
    Seq<char>,
>
    decreases attrs.len(),
{
    if attrs.len() == 0 {
        None
    } else if attrs[0].0 == name {
        Some(attrs[0].1)
    } else {
        attr_lookup(attrs.drop_first(), name)
    }
}

impl Element {
    /// The value of the first attribute called `name`, compared exactly.
    pub fn get_attr(&self, name: &str) -> (r: Option<String>)
        ensures
            match r {
                Some(v) => attr_lookup(self@.attributes, name@) == Some(v@),
                None => attr_lookup(self@.attributes, name@) is None,
            },
    {
        let key = name.to_owned();
        let ghost all = pairs_view(self.attributes@);
        let mut i: usize = 0;
        assert(all.subrange(0, all.len() as int) =~= all);
        while i < self.attributes.len()
            invariant
                i <= self.attributes.len(),
                key@ == name@,
                all == pairs_view(self.attributes@),
                attr_lookup(all.subrange(i as int, all.len() as int), name@) == attr_lookup(
                    all,
                    name@,
                ),
            decreases self.attributes.len() - i,
        {
            let ghost rest = all.subrange(i as int, all.len() as int);
            assert(rest.drop_first() =~= all.subrange(i + 1, all.len() as int));
            if self.attributes[i].0 == key {
                return Some(self.attributes[i].1.clone());
            }
            i = i + 1;
        }
        assert(all.subrange(i as int, all.len() as int) =~= seq![]);
        None
    }

    /// The trimmed content between the opening and the closing tag.
    pub fn get_content(&self) -> (r: &str)
        ensures
            r@ == self@.content,
    {
        self.content.as_str()
    }

    /// The tag name as written in the opening tag.
    pub fn tag_name(&self) -> (r: &str)
        ensures
            r@ == self@.tag_name,
    {
        self.tag_name.as_str()
    }
}

/// The views of a list of elements.
pub open spec fn elements_view(v: Seq<Element>) -> Seq<ElementView> {
    v.map_values(|e: Element| e@)
}

/// The element whose opening tag starts at `p` and whose closing tag starts at `close`.
pub open spec fn element_at(h: Seq<char>, p: int, close: int) -> ElementView {
    let ne = tag_name_end(h, p);
    let gt = tag_gt(h, p);
    ElementView {
        tag_name: h.subrange(p + 1, ne),
        attributes: attributes_of(h.subrange(ne, gt)),
        content: trim(h.subrange(gt + 1, close)),
    }
}

/// The tag name of the opening tag at `p`.
pub open spec fn tag_name_at(h: Seq<char>, p: int) -> Seq<char> {
    h.subrange(p + 1, tag_name_end(h, p))
}

/// The class matches from `i` on, as pairs of where the opening tag starts
/// and where the balancing closing tag starts. A tag whose class does not
/// match, or whose element is unbalanced, is stepped over alone; after a
/// match the scan resumes behind its closing tag.
pub open spec fn class_matches_from(h: Seq<char>, c: Seq<char>, i: int) -> Seq<(int, int)>
    decreases h.len() - i,
    via class_matches_from_decreases
{
    match next_open_tag(h, i) {
        None => seq![],
        Some(p) => {
            let te = tag_gt(h, p) + 1;
            let t = tag_name_at(h, p);
            if has_class(h.subrange(tag_name_end(h, p), tag_gt(h, p)), c) {
                match matching_close(h, t, te, 1) {
                    Some(ce) => seq![(p, ce)] + class_matches_from(h, c, ce + close_tag(t).len()),
                    None => class_matches_from(h, c, te),
                }
            } else {
                class_matches_from(h, c, te)
            }
        },
    }
}

#[via_fn]
proof fn class_matches_from_decreases(h: Seq<char>, c: Seq<char>, i: int) {
    if i < 0 {
        assert(next_open_tag(h, i) is None);
    } else {
        lemma_next_open_tag(h, i);
        match next_open_tag(h, i) {
            Some(p) => {
                lemma_open_tag_bounds(h, p);
                lemma_matching_close(h, tag_name_at(h, p), tag_gt(h, p) + 1, 1);
            },
            None => {},
        }
    }
}

/// The elements of `h` whose class attribute holds the word `c`, in the
/// order of their opening tags.
pub open spec fn elements_by_class(h: Seq<char>, c: Seq<char>) -> Seq<ElementView> {
    if h.len() == 0 || c.len() == 0 {
        seq![]
    } else {
        elements_of_matches(h, class_matches_from(h, c, 0))
    }
}

/// The elements that a list of matches stands for.
pub open spec fn elements_of_matches(h: Seq<char>, ms: Seq<(int, int)>) -> Seq<ElementView> {
    ms.map_values(|m: (int, int)| element_at(h, m.0, m.1))
}

/// Every element of `html` whose `class` attribute lists `class_name` as one
/// of its words, in document order, each with its balanced content.
pub fn find_elements_by_class(html: &str, class_name: &str) -> (r: Vec<Element>)
    ensures
        elements_view(r@) == elements_by_class(html@, class_name@),
{
    let h = chars_of(html);
    let c = chars_of(class_name);
    let mut elements: Vec<Element> = Vec::new();
    if h.len() == 0 || c.len() == 0 {
        assert(elements_view(elements@) =~= seq![]);
        return elements;
    }
    let ghost found = class_matches_from(h@, c@, 0);
    let mut pos: usize = 0;
    loop
        invariant
            pos <= h.len(),
            h@ == html@,
            c@ == class_name@,
            h.len() > 0 && c.len() > 0,
            found == class_matches_from(h@, c@, 0),
            elements_view(elements@) + elements_of_matches(
                h@,
                class_matches_from(h@, c@, pos as int),
            ) == elements_of_matches(h@, found),
        decreases h.len() - pos,
    {
        proof {
            lemma_next_open_tag(h@, pos as int);
        }
        match next_open_tag_exec(&h, pos) {
            None => {
                assert(elements_of_matches(h@, class_matches_from(h@, c@, pos as int)) =~= seq![]);
                assert(elements_view(elements@) + seq![] =~= elements_view(elements@));
                return elements;
            },
            Some(p) => {
                proof {
                    lemma_open_tag_bounds(h@, p as int);
                }
                let ne = skip(&h, p + 1, Run::Alnum);
                let gt = skip(&h, ne, Run::NotGt);
                let te = gt + 1;
                let attrs = sub_vec(&h, ne, gt);
                let mut next: usize = te;
                if has_class_exec(&attrs, &c) {
                    let tag = sub_vec(&h, p + 1, ne);
                    proof {
                        lemma_matching_close(h@, tag@, te as int, 1);
                    }
                    match matching_close_exec(&h, &tag, te) {
                        Some(ce) => {
                            let element = Element {
                                tag_name: string_of(&h, p + 1, ne),
                                attributes: parse_attributes(&attrs),
                                content: trimmed_string(&h, te, ce),
                            };
                            assert(element@ == element_at(h@, p as int, ce as int));
                            let ghost rest = class_matches_from(
                                h@,
                                c@,
                                ce + close_tag(tag@).len(),
                            );
                            assert(elements_of_matches(h@, seq![(p as int, ce as int)] + rest)
                                =~= seq![element@] + elements_of_matches(h@, rest));
                            let ghost before = elements@;
                            elements.push(element);
                            assert(elements_view(elements@) =~= elements_view(before) + seq![
                                element@,
                            ]);
                            next = ce + tag.len() + 3;
                        },
                        None => {},
                    }
                }
                pos = next;
            },
        }
    }
}

fn has_class_exec(a: &Vec<char>, c: &Vec<char>) -> (r: bool)
    ensures
        r == has_class(a@, c@),
{
    match class_value_exec(a) {
        Some((vs, ve)) => {
            let v = sub_vec(a, vs, ve);
            has_token_exec(&v, c)
        },
        None => false,
    }
}

// ---------------------------------------------------------------------------
// The first anchor

pub open spec fn anchor_open() -> Seq<char> {
    seq!['<', 'a']
}

pub open spec fn anchor_close() -> Seq<char> {
    seq!['<', '/', 'a', '>']
}

/// The first `<a ...>` of `h` with its attribute text up to the next `>`,
/// and the content up to the first `</a>` after it, whatever lies between.
pub open spec fn first_anchor(h: Seq<char>) -> Option<ElementView> {
    match find_from(h, 0, anchor_open()) {
        None => None,
        Some(p) => {
            let gt = run_end(h, p + 2, Run::NotGt);
            if gt >= h.len() {
                None
            } else {
                match find_from(h, gt + 1, anchor_close()) {
                    Some(c) => Some(
                        ElementView {
                            tag_name: seq!['a'],
                            attributes: attributes_of(h.subrange(p + 2, gt)),
                            content: trim(h.subrange(gt + 1, c)),
                        },
                    ),
                    None => None,
                }
            }
        },
    }
}

/// The first anchor element of `html`, ended by the first `</a>` after its
/// opening tag; nested anchors are not balanced.
pub fn find_first_anchor(html: &str) -> (r: Option<Element>)
    ensures
        match r {
            Some(e) => first_anchor(html@) == Some(e@),
            None => first_anchor(html@) is None,
        },
{
    let h = chars_of(html);
    if h.len() == 0 {
        return None;
    }
    let open = vec!['<', 'a'];
    let close = vec!['<', '/', 'a', '>'];
    assert(open@ =~= anchor_open());
    assert(close@ =~= anchor_close());
    proof {
        lemma_find_from(h@, 0, open@);
    }
    match find_from_exec(&h, 0, &open) {
        None => None,
        Some(p) => {
            let gt = skip(&h, p + 2, Run::NotGt);
            if gt >= h.len() {
                return None;
            }
            proof {
                lemma_find_from(h@, gt + 1, close@);
            }
            match find_from_exec(&h, gt + 1, &close) {
                Some(c) => {
                    let attrs = sub_vec(&h, p + 2, gt);
                    let element = Element {
                        tag_name: string_of(&open, 1, 2),
                        attributes: parse_attributes(&attrs),
                        content: trimmed_string(&h, gt + 1, c),
                    };
                    assert(open@.subrange(1, 2) =~= seq!['a']);
                    Some(element)
                },
                None => None,
            }
        },
    }
}


// ---------------------------------------------------------------------------
// Properties

proof fn lemma_matches_from(h: Seq<char>, c: Seq<char>, i: int)
    requires
        0 <= i,
    ensures
        ({
            let ms = class_matches_from(h, c, i);
            &&& forall|k: int| 0 <= k < ms.len() ==> i <= #[trigger] ms[k].0
            &&& forall|k: int|
                0 <= k < ms.len() ==> open_tag_at(h, #[trigger] ms[k].0) && ms[k].0 < ms[k].1
                    && tag_gt(h, ms[k].0) < ms[k].1 && occurs_at(
                    h,
                    ms[k].1,
                    close_tag(tag_name_at(h, ms[k].0)),
                )
            &&& forall|j: int, k: int| 0 <= j < k < ms.len() ==> #[trigger] ms[j].1 < #[trigger] ms[k].0
        }),
    decreases h.len() - i,
{
    lemma_next_open_tag(h, i);
    match next_open_tag(h, i) {
        None => {},
        Some(p) => {
            lemma_open_tag_bounds(h, p);
            let te = tag_gt(h, p) + 1;
            let t = tag_name_at(h, p);
            lemma_matching_close(h, t, te, 1);
            if has_class(h.subrange(tag_name_end(h, p), tag_gt(h, p)), c) {
                match matching_close(h, t, te, 1) {
                    Some(ce) => {
                        let next = ce + close_tag(t).len();
                        lemma_matches_from(h, c, next);
                        let rest = class_matches_from(h, c, next);
                        let ms = seq![(p, ce)] + rest;
                        assert(class_matches_from(h, c, i) == ms);
                        assert forall|k: int| 0 <= k < ms.len() implies i <= #[trigger] ms[k].0
                            && open_tag_at(h, ms[k].0) && ms[k].0 < ms[k].1 && tag_gt(h, ms[k].0)
                            < ms[k].1 && occurs_at(h, ms[k].1, close_tag(tag_name_at(h, ms[k].0))) by {
                            if k > 0 {
                                assert(ms[k] == rest[k - 1]);
                            }
                        }
                        assert forall|j: int, k: int| 0 <= j < k < ms.len() implies #[trigger] ms[j].1
                            < #[trigger] ms[k].0 by {
                            assert(ms[k] == rest[k - 1]);
                            if j > 0 {
                                assert(ms[j] == rest[j - 1]);
                            }
                        }
                    },
                    None => {
                        lemma_matches_from(h, c, te);
                        assert(class_matches_from(h, c, i) == class_matches_from(h, c, te));
                    },
                }
            } else {
                lemma_matches_from(h, c, te);
                assert(class_matches_from(h, c, i) == class_matches_from(h, c, te));
            }
        },
    }
}

/// Document order: the elements found by class are those of a list of
/// matches, each an opening tag followed, after its `>`, by a closing tag of
/// the same name that balances it, and each match opens after the one before
/// it has closed. So the elements come in the order of their opening tags,
/// none comes twice, and no content holds its element's own tags.
pub proof fn lemma_document_order(h: Seq<char>, c: Seq<char>)
    ensures
        ({
            let ms = class_matches_from(h, c, 0);
            &&& h.len() > 0 && c.len() > 0 ==> elements_by_class(h, c) == elements_of_matches(h, ms)
            &&& forall|k: int|
                0 <= k < ms.len() ==> open_tag_at(h, #[trigger] ms[k].0) && ms[k].0 < ms[k].1
                    && tag_gt(h, ms[k].0) < ms[k].1 && occurs_at(
                    h,
                    ms[k].1,
                    close_tag(tag_name_at(h, ms[k].0)),
                )
            &&& forall|j: int, k: int| 0 <= j < k < ms.len() ==> #[trigger] ms[j].1 < #[trigger] ms[k].0
            &&& forall|j: int, k: int| 0 <= j < k < ms.len() ==> #[trigger] ms[j].0 < #[trigger] ms[k].0
        }),
{
    lemma_matches_from(h, c, 0);
    let ms = class_matches_from(h, c, 0);
    assert forall|j: int, k: int| 0 <= j < k < ms.len() implies #[trigger] ms[j].0
        < #[trigger] ms[k].0 by {
        assert(ms[j].0 < ms[j].1);
        assert(ms[j].1 < ms[k].0);
    }
}

/// An empty document or an empty class name gives no elements, and an empty
/// document has no anchor.
pub proof fn lemma_empty_inputs(d: Seq<char>, c: Seq<char>)
    ensures
        elements_by_class(seq![], c) == Seq::<ElementView>::empty(),
        elements_by_class(d, seq![]) == Seq::<ElementView>::empty(),
        first_anchor(seq![]) is None,
{
    reveal_with_fuel(find_from, 2);
}

/// Two searches by class on the same document and class name give the same
/// elements: nothing carries over from one call to the next.
pub proof fn lemma_class_search_repeatable(
    d: Seq<char>,
    c: Seq<char>,
    first: Seq<Element>,
    second: Seq<Element>,
)
    requires
        elements_view(first) == elements_by_class(d, c),
        elements_view(second) == elements_by_class(d, c),
    ensures
        elements_view(first) == elements_view(second),
{
}

/// Two anchor searches on the same document give the same anchor.
pub proof fn lemma_anchor_search_repeatable(d: Seq<char>, first: Option<Element>, second: Option<Element>)
    requires
        match first {
            Some(e) => first_anchor(d) == Some(e@),
            None => first_anchor(d) is None,
        },
        match second {
            Some(e) => first_anchor(d) == Some(e@),
            None => first_anchor(d) is None,
        },
    ensures
        match (first, second) {
            (Some(a), Some(b)) => a@ == b@,
            (None, None) => true,
            _ => false,
        },
{
}

} // verus!
