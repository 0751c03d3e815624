//! The tap list as an HTML table: one row per tap, the category shown once
//! per run of equal categories, and the strength coloured by band.
use vstd::prelude::*;
use crate::page::AppError;
use crate::text::{push_str, string_of, trim, trimmed_string};

verus! {

/// The page around the table: its styles, up to the opening of the body.
pub const PAGE_HEAD: &'static str = r#"
<head>
  <style>
    table { 
        border-collapse: collapse; 
        width: 100%; 
        margin: 20px 0;
        font-family: Arial, sans-serif;
    }
    th, td { 
        border: 1px solid #ddd; 
        padding: 8px; 
        text-align: left;
        vertical-align: middle;
    }
    th { 
        background-color: #f2f2f2;
        font-weight: bold;
        text-align: center !important;  /* Force center alignment for all headers */
    }
    tr:nth-child(even) td:not(.category-cell) { 
        background-color: #f9f9f9;
    }
    tr:nth-child(odd) td:not(.category-cell) { 
        background-color: #ffffff;
    }
    tr:hover td:not(.category-cell) {
        background-color: #f5f5f5;
    }
    .category-cell {
        font-weight: bold;
        text-align: center;
    }
    .category-cell-even {
        background-color: #f0f6fc;
    }
    .category-cell-odd {
        background-color: #ffffff;
    }
    .numeric {
        text-align: right;
    }
    .abv-low {
        background-color: #1a9850 !important;
        color: black;
    }
    .abv-medium-low {
        background-color: #91cf60 !important;
        color: black;
    }
    .abv-medium {
        background-color: #fee08b !important;
        color: black;
    }
    .abv-high {
        background-color: #fc8d59 !important;
        color: black;
    }
  </style>
</head>
<body>
"#;

/// How strong a beer is, as the strength column's colour shows it.
#[derive(Clone, Copy, PartialEq, Eq, Structural, Debug)]
pub enum AbvBand {
    /// Under 6%.
    Low,
    /// From 6% to under 6.5%.
    MediumLow,
    /// From 6.5% to under 7%.
    Medium,
    /// 7% and over.
    High,
}

pub open spec fn band_class(b: AbvBand) -> Seq<char> {
    match b {
        AbvBand::Low => "abv-low numeric"@,
        AbvBand::MediumLow => "abv-medium-low numeric"@,
        AbvBand::Medium => "abv-medium numeric"@,
        AbvBand::High => "abv-high numeric"@,
    }
}

fn band_class_exec(b: AbvBand) -> (r: &'static str)
    ensures
        r@ == band_class(b),
{
    match b {
        AbvBand::Low => "abv-low numeric",
        AbvBand::MediumLow => "abv-medium-low numeric",
        AbvBand::Medium => "abv-medium numeric",
        AbvBand::High => "abv-high numeric",
    }
}

/// A cell's text without the double quotes that enclose it, if both are there.
pub open spec fn unquoted(s: Seq<char>) -> Seq<char> {
    if s.len() >= 2 && s[0] == '"' && s[s.len() - 1] == '"' {
        s.subrange(1, s.len() - 1)
    } else {
        s
    }
}

/// Removes the double quotes that enclose a cell's text, if both are there.
pub fn unquote(s: &str) -> (r: String)
    ensures
        r@ == unquoted(s@),
{
    let v = crate::text::chars_of(s);
    let n = v.len();
    if n >= 2 && v[0] == '"' && v[n - 1] == '"' {
        string_of(&v, 1, n - 1)
    } else {
        assert(v@.subrange(0, n as int) =~= v@);
        string_of(&v, 0, n)
    }
}

/// A category as shown: a blank one stands for `(Uncategorized)`.
pub open spec fn normalized(s: Seq<char>) -> Seq<char> {
    if trim(unquoted(s)).len() == 0 {
        "(Uncategorized)"@
    } else {
        unquoted(s)
    }
}

fn normalized_exec(s: &String) -> (r: String)
    ensures
        r@ == normalized(s@),
{
    let u = unquote(s.as_str());
    let v = crate::text::chars_of(u.as_str());
    let t = trimmed_string(&v, 0, v.len());
    assert(v@.subrange(0, v@.len() as int) =~= v@);
    if t.as_str().is_empty() {
        "(Uncategorized)".to_owned()
    } else {
        u
    }
}

/// The decimal digits of `n`.
pub open spec fn decimal(n: nat) -> Seq<char>
    decreases n,
{
    if n < 10 {
        seq![digit(n)]
    } else {
        decimal(n / 10) + seq![digit(n % 10)]
    }
}

pub open spec fn digit(d: nat) -> char {
    if d == 0 { '0' }
    else if d == 1 { '1' }
    else if d == 2 { '2' }
    else if d == 3 { '3' }
    else if d == 4 { '4' }
    else if d == 5 { '5' }
    else if d == 6 { '6' }
    else if d == 7 { '7' }
    else if d == 8 { '8' }
    else { '9' }
}

fn digit_exec(d: usize) -> (r: char)
    requires
        d < 10,
    ensures
        r == digit(d as nat),
{
    if d == 0 { '0' }
    else if d == 1 { '1' }
    else if d == 2 { '2' }
    else if d == 3 { '3' }
    else if d == 4 { '4' }
    else if d == 5 { '5' }
    else if d == 6 { '6' }
    else if d == 7 { '7' }
    else if d == 8 { '8' }
    else { '9' }
}

/// `n` written in decimal.
pub fn decimal_exec(n: usize) -> (r: String)
    ensures
        r@ == decimal(n as nat),
    decreases n,
{
    if n < 10 {
        let mut v: Vec<char> = Vec::new();
        v.push(digit_exec(n));
        assert(v@.subrange(0, 1) =~= seq![digit(n as nat)]);
        string_of(&v, 0, 1)
    } else {
        let mut s = decimal_exec(n / 10);
        let mut v: Vec<char> = Vec::new();
        v.push(digit_exec(n % 10));
        let last = string_of(&v, 0, 1);
        assert(v@.subrange(0, 1) =~= seq![digit((n % 10) as nat)]);
        push_str(&mut s, last.as_str());
        s
    }
}


// ---------------------------------------------------------------------------
// The table

/// The text of the cell in row `i` and column `j`.
pub open spec fn cell(rows: Seq<Vec<String>>, i: int, j: int) -> Seq<char> {
    rows[i]@[j]@
}

/// The category of row `i`, as shown; `c` is the category column.
pub open spec fn category(rows: Seq<Vec<String>>, c: int, i: int) -> Seq<char> {
    normalized(cell(rows, i, c))
}

/// Row `i` begins a run of rows of one category.
pub open spec fn starts_group(rows: Seq<Vec<String>>, c: int, i: int) -> bool {
    i == 0 || category(rows, c, i) != category(rows, c, i - 1)
}

/// How many runs of one category begin before row `i`.
pub open spec fn groups_before(rows: Seq<Vec<String>>, c: int, i: int) -> nat
    decreases i,
{
    if i <= 0 {
        0
    } else {
        groups_before(rows, c, i - 1) + if starts_group(rows, c, i - 1) {
            1nat
        } else {
            0nat
        }
    }
}

/// How many rows from `j` on share the category of row `i`, without a break.
pub open spec fn span_from(rows: Seq<Vec<String>>, c: int, i: int, j: int) -> nat
    decreases rows.len() - j,
{
    if 0 <= j < rows.len() && category(rows, c, j) == category(rows, c, i) {
        1 + span_from(rows, c, i, j + 1)
    } else {
        0
    }
}

/// The columns whose cells are aligned as numbers.
pub open spec fn is_numeric_column(name: Seq<char>) -> bool {
    name == "tap"@ || name == "age"@ || name == "days_old"@ || name == "rating"@
}

/// The cell of row `i` and column `j`: the category only where a run of one
/// category begins, spanning that run, shaded by whether the run is even or
/// odd, and left blank for `(Uncategorized)`; the strength with the class of
/// its band; numbers aligned right; the rest as it is.
pub open spec fn cell_html(
    cols: Seq<String>,
    rows: Seq<Vec<String>>,
    bands: Seq<AbvBand>,
    c: int,
    a: int,
    i: int,
    j: int,
) -> Seq<char> {
    let text = unquoted(cell(rows, i, j));
    if j == c {
        if starts_group(rows, c, i) {
            "<td class=\""@ + (if groups_before(rows, c, i) % 2 == 0 {
                "category-cell category-cell-even"@
            } else {
                "category-cell category-cell-odd"@
            }) + "\" rowspan=\""@ + decimal(1 + span_from(rows, c, i, i + 1)) + "\">"@ + (
            if category(rows, c, i) == "(Uncategorized)"@ {
                Seq::<char>::empty()
            } else {
                category(rows, c, i)
            }) + "</td>"@
        } else {
            Seq::<char>::empty()
        }
    } else if j == a {
        "<td class=\""@ + band_class(bands[i]) + "\">"@ + text + "</td>"@
    } else if is_numeric_column(cols[j]@) {
        "<td class=\"numeric\">"@ + text + "</td>"@
    } else {
        "<td>"@ + text + "</td>"@
    }
}

/// The cells of row `i` in the first `n` columns.
pub open spec fn cells_upto(
    cols: Seq<String>,
    rows: Seq<Vec<String>>,
    bands: Seq<AbvBand>,
    c: int,
    a: int,
    i: int,
    n: int,
) -> Seq<char>
    decreases n,
{
    if n <= 0 {
        seq![]
    } else {
        cells_upto(cols, rows, bands, c, a, i, n - 1) + cell_html(cols, rows, bands, c, a, i, n - 1)
    }
}

/// Row `i`, or nothing where it has no cell to show.
pub open spec fn row_html(
    cols: Seq<String>,
    rows: Seq<Vec<String>>,
    bands: Seq<AbvBand>,
    c: int,
    a: int,
    i: int,
) -> Seq<char> {
    let cells = cells_upto(cols, rows, bands, c, a, i, cols.len() as int);
    if cells.len() == 0 {
        seq![]
    } else {
        "<tr>"@ + cells + "</tr>\n"@
    }
}

/// The first `n` rows.
pub open spec fn rows_upto(
    cols: Seq<String>,
    rows: Seq<Vec<String>>,
    bands: Seq<AbvBand>,
    c: int,
    a: int,
    n: int,
) -> Seq<char>
    decreases n,
{
    if n <= 0 {
        seq![]
    } else {
        rows_upto(cols, rows, bands, c, a, n - 1) + row_html(cols, rows, bands, c, a, n - 1)
    }
}

/// The headers of the first `n` columns.
pub open spec fn header_upto(cols: Seq<String>, n: int) -> Seq<char>
    decreases n,
{
    if n <= 0 {
        seq![]
    } else {
        header_upto(cols, n - 1) + "<th>"@ + cols[n - 1]@ + "</th>"@
    }
}

/// The first column from `k` on that is called `name`.
pub open spec fn first_named(cols: Seq<String>, name: Seq<char>, k: int) -> Option<int>
    decreases cols.len() - k,
{
    if k < 0 || k >= cols.len() {
        None
    } else if cols[k]@ == name {
        Some(k)
    } else {
        first_named(cols, name, k + 1)
    }
}

/// The page with the table of the given columns and rows, or the message
/// for a missing `abv` or `category` column (the strength is looked for first).
pub open spec fn table_html(cols: Seq<String>, rows: Seq<Vec<String>>, bands: Seq<AbvBand>) -> Result<
    Seq<char>,
    Seq<char>,
> {
    match first_named(cols, "abv"@, 0) {
        None => Err("ABV column not found"@),
        Some(a) => match first_named(cols, "category"@, 0) {
            None => Err("Category column not found"@),
            Some(c) => Ok(
                PAGE_HEAD@ + "<table>\n<thead>\n<tr>"@ + header_upto(cols, cols.len() as int)
                    + "</tr>\n</thead>\n<tbody>\n"@ + rows_upto(
                    cols,
                    rows,
                    bands,
                    c,
                    a,
                    rows.len() as int,
                ) + "</tbody>\n</table>"@ + "</body>"@,
            ),
        },
    }
}

fn first_named_exec(cols: &Vec<String>, name: &str) -> (r: Option<usize>)
    ensures
        match r {
            Some(k) => first_named(cols@, name@, 0) == Some(k as int) && k < cols.len(),
            None => first_named(cols@, name@, 0) is None,
        },
{
    let key = name.to_owned();
    let mut k: usize = 0;
    while k < cols.len()
        invariant
            k <= cols.len(),
            key@ == name@,
            first_named(cols@, name@, k as int) == first_named(cols@, name@, 0),
        decreases cols.len() - k,
    {
        if cols[k] == key {
            return Some(k);
        }
        k = k + 1;
    }
    None
}


/// Every row has one cell per column, and every row has a band.
pub open spec fn well_formed(cols: Seq<String>, rows: Seq<Vec<String>>, bands: Seq<AbvBand>) -> bool {
    &&& bands.len() == rows.len()
    &&& forall|i: int| 0 <= i < rows.len() ==> (#[trigger] rows[i]).len() == cols.len()
}

fn span_exec(rows: &Vec<Vec<String>>, c: usize, i: usize, cat_i: &String) -> (r: usize)
    requires
        i < rows.len(),
        forall|k: int| 0 <= k < rows.len() ==> c < (#[trigger] rows@[k]).len(),
        cat_i@ == category(rows@, c as int, i as int),
    ensures
        r == 1 + span_from(rows@, c as int, i as int, i + 1),
{
    let mut k: usize = i + 1;
    while k < rows.len()
        invariant
            i < k <= rows.len(),
            cat_i@ == category(rows@, c as int, i as int),
            forall|m: int| 0 <= m < rows.len() ==> c < (#[trigger] rows@[m]).len(),
            span_from(rows@, c as int, i as int, i + 1) == (k - i - 1) + span_from(
                rows@,
                c as int,
                i as int,
                k as int,
            ),
        decreases rows.len() - k,
    {
        let cat_k = normalized_exec(&rows[k][c]);
        if cat_k != *cat_i {
            return k - i;
        }
        k = k + 1;
    }
    k - i
}

fn is_numeric_name(name: &String) -> (r: bool)
    ensures
        r == is_numeric_column(name@),
{
    *name == "tap".to_owned() || *name == "age".to_owned() || *name == "days_old".to_owned()
        || *name == "rating".to_owned()
}

fn cell_html_exec(
    cols: &Vec<String>,
    rows: &Vec<Vec<String>>,
    bands: &Vec<AbvBand>,
    c: usize,
    a: usize,
    i: usize,
    j: usize,
    starts: bool,
    groups: usize,
    cat_i: &String,
) -> (r: String)
    requires
        well_formed(cols@, rows@, bands@),
        i < rows.len(),
        j < cols.len(),
        c < cols.len(),
        starts == starts_group(rows@, c as int, i as int),
        groups == groups_before(rows@, c as int, i as int),
        cat_i@ == category(rows@, c as int, i as int),
    ensures
        r@ == cell_html(cols@, rows@, bands@, c as int, a as int, i as int, j as int),
{
    let mut r = String::new();
    if j == c {
        if starts {
            let span = span_exec(rows, c, i, cat_i);
            push_str(&mut r, "<td class=\"");
            if groups % 2 == 0 {
                push_str(&mut r, "category-cell category-cell-even");
            } else {
                push_str(&mut r, "category-cell category-cell-odd");
            }
            push_str(&mut r, "\" rowspan=\"");
            let digits = decimal_exec(span);
            push_str(&mut r, digits.as_str());
            push_str(&mut r, "\">");
            let ghost before = r@;
            let uncategorized = "(Uncategorized)".to_owned();
            if *cat_i != uncategorized {
                push_str(&mut r, cat_i.as_str());
            } else {
                assert(r@ =~= before + Seq::<char>::empty());
            }
            push_str(&mut r, "</td>");
        }
    } else {
        let text = unquote(rows[i][j].as_str());
        if j == a {
            push_str(&mut r, "<td class=\"");
            push_str(&mut r, band_class_exec(bands[i]));
            push_str(&mut r, "\">");
        } else if is_numeric_name(&cols[j]) {
            push_str(&mut r, "<td class=\"numeric\">");
        } else {
            push_str(&mut r, "<td>");
        }
        push_str(&mut r, text.as_str());
        push_str(&mut r, "</td>");
    }
    assert(r@ =~= cell_html(cols@, rows@, bands@, c as int, a as int, i as int, j as int));
    r
}


/// The page with the tap list as a table: a header per column, then one row
/// per tap. Fails when there is no `abv` or no `category` column.
pub fn render_table(cols: &Vec<String>, rows: &Vec<Vec<String>>, bands: &Vec<AbvBand>) -> (r:
    Result<String, AppError>)
    requires
        well_formed(cols@, rows@, bands@),
    ensures
        match r {
            Ok(s) => table_html(cols@, rows@, bands@) == Ok::<Seq<char>, Seq<char>>(s@),
            Err(e) => e is Internal && table_html(cols@, rows@, bands@) == Err::<
                Seq<char>,
                Seq<char>,
            >(e->Internal_0@),
        },
{
    let a = match first_named_exec(cols, "abv") {
        Some(a) => a,
        None => {
            return Err(AppError::Internal("ABV column not found".to_owned()));
        },
    };
    let c = match first_named_exec(cols, "category") {
        Some(c) => c,
        None => {
            return Err(AppError::Internal("Category column not found".to_owned()));
        },
    };
    let mut out = String::new();
    push_str(&mut out, PAGE_HEAD);
    push_str(&mut out, "<table>\n<thead>\n<tr>");
    let ghost base = out@;
    let mut j: usize = 0;
    while j < cols.len()
        invariant
            j <= cols.len(),
            out@ == base + header_upto(cols@, j as int),
        decreases cols.len() - j,
    {
        push_str(&mut out, "<th>");
        push_str(&mut out, cols[j].as_str());
        push_str(&mut out, "</th>");
        assert(out@ =~= base + header_upto(cols@, j + 1));
        j = j + 1;
    }
    push_str(&mut out, "</tr>\n</thead>\n<tbody>\n");
    let ghost body = out@;
    let mut groups: usize = 0;
    let mut prev = String::new();
    let mut i: usize = 0;
    while i < rows.len()
        invariant
            i <= rows.len(),
            a < cols.len(),
            c < cols.len(),
            well_formed(cols@, rows@, bands@),
            out@ == body + rows_upto(cols@, rows@, bands@, c as int, a as int, i as int),
            groups == groups_before(rows@, c as int, i as int),
            groups <= i,
            i > 0 ==> prev@ == category(rows@, c as int, i - 1),
        decreases rows.len() - i,
    {
        assert(rows@[i as int].len() == cols.len());
        let cat_i = normalized_exec(&rows[i][c]);
        let starts = i == 0 || cat_i != prev;
        let mut cells = String::new();
        let mut k: usize = 0;
        while k < cols.len()
            invariant
                k <= cols.len(),
                i < rows.len(),
                c < cols.len(),
                well_formed(cols@, rows@, bands@),
                starts == starts_group(rows@, c as int, i as int),
                groups == groups_before(rows@, c as int, i as int),
                cat_i@ == category(rows@, c as int, i as int),
                cells@ == cells_upto(cols@, rows@, bands@, c as int, a as int, i as int, k as int),
            decreases cols.len() - k,
        {
            let piece = cell_html_exec(cols, rows, bands, c, a, i, k, starts, groups, &cat_i);
            push_str(&mut cells, piece.as_str());
            k = k + 1;
        }
        let ghost before = out@;
        if !cells.as_str().is_empty() {
            push_str(&mut out, "<tr>");
            push_str(&mut out, cells.as_str());
            push_str(&mut out, "</tr>\n");
            assert(out@ =~= before + ("<tr>"@ + cells@ + "</tr>\n"@));
        } else {
            assert(out@ =~= before + Seq::<char>::empty());
        }
        if starts {
            groups = groups + 1;
        }
        prev = cat_i;
        i = i + 1;
    }
    push_str(&mut out, "</tbody>\n</table>");
    push_str(&mut out, "</body>");
    assert(out@ =~= PAGE_HEAD@ + "<table>\n<thead>\n<tr>"@ + header_upto(cols@, cols.len() as int)
        + "</tr>\n</thead>\n<tbody>\n"@ + rows_upto(
        cols@,
        rows@,
        bands@,
        c as int,
        a as int,
        rows.len() as int,
    ) + "</tbody>\n</table>"@ + "</body>"@);
    Ok(out)
}

} // verus!
