//! Formatting of command-line listings in aligned columns and tables, and
//! format names that only the command line knows.
use crate::printing::utf8_len;
use crate::text::{chars_of, string_of, push_str, lowercase_of, to_lowercase, trail_ws, is_whitespace, str_lt};
use vstd::prelude::*;

verus! {

/* #region format names */

/// Resolve a command-line format name: the alias `rest` (in any ASCII case)
/// stands for `dir-json`; any other name is returned as it is.
pub fn resolve_cli_format(fmt: &str) -> (r: String)
    ensures
        r@ == (if crate::formats::ascii_ci_eq("rest"@, lowercase_of(fmt@)) { "dir-json"@ } else { fmt@ }),
{
    let low = to_lowercase(fmt);
    if crate::formats::eq_ignore_ascii_case("rest", low.as_str()) {
        "dir-json".to_owned()
    } else {
        fmt.to_owned()
    }
}

/// The format entries that only the command line lists: (name, aliases,
/// display name).
pub fn get_cli_only_formats() -> (r: Vec<(String, String, String)>)
    ensures
        r@.len() == 1,
        r@[0].0@ == "rest"@,
        r@[0].1@ == Seq::<char>::empty(),
        r@[0].2@ == "REST (directory only format)"@,
{
    vec![("rest".to_owned(), String::new(), "REST (directory only format)".to_owned())]
}

/// The path extension of a file name, as `std::path::Path::extension` finds
/// it (the part after the last dot of the file name, if any).
pub uninterp spec fn path_extension(filename: Seq<char>) -> Option<Seq<char>>;

/// Calls `std::path::Path::extension` on a file name and converts the result
/// to a string; its value is named by `path_extension`.
#[verifier::external_body]
fn file_extension(filename: &str) -> (r: Option<String>)
    ensures
        match (r, path_extension(filename@)) {
            (Some(e), Some(x)) => e@ == x,
            (None, None) => true,
            _ => false,
        },
{
    std::path::Path::new(filename).extension().map(|e| e.to_string_lossy().to_string())
}

/// Detect the format of a file from its extension (case insensitive): by
/// the table of input formats when `is_reader`, else of output formats. The
/// extension is lowercased here and again by the table lookup.
pub fn detect_format_from_extension(filename: &str, is_reader: bool) -> (r: Option<String>)
    ensures
        match path_extension(filename@) {
            None => r is None,
            Some(x) => {
                let key = lowercase_of(lowercase_of(x));
                if is_reader {
                    match crate::readers::read::reader_by_ext_below(key, crate::readers::read::NUM_READERS as int) {
                        Some(k) => r matches Some(n) && n@ == crate::readers::read::reader_row(k).name,
                        None => r is None,
                    }
                } else {
                    match crate::writers::write::writer_by_ext_below(key, crate::writers::write::NUM_WRITERS as int) {
                        Some(k) => r matches Some(n) && n@ == crate::writers::write::writer_row(k).name,
                        None => r is None,
                    }
                }
            },
        },
{
    let ext = match file_extension(filename) {
        Some(e) => e,
        None => {
            return None;
        },
    };
    let low = to_lowercase(ext.as_str());
    if is_reader {
        match crate::readers::read::get_reader_format_by_extension(low.as_str()) {
            Some(n) => Some(n.to_owned()),
            None => None,
        }
    } else {
        match crate::writers::write::get_writer_format_by_extension(low.as_str()) {
            Some(n) => Some(n.to_owned()),
            None => None,
        }
    }
}

/* #endregion */

/* #region columns and tables */

/// The largest of `a` and `b`.
pub open spec fn max_nat(a: nat, b: nat) -> nat {
    if a >= b {
        a
    } else {
        b
    }
}

/// The largest row length.
pub open spec fn max_cols(lines: Seq<Seq<Seq<char>>>) -> nat
    decreases lines.len(),
{
    if lines.len() == 0 {
        0
    } else {
        max_nat(max_cols(lines.drop_last()), lines.last().len())
    }
}

/// The widest entry (in bytes) of column `c`, 0 for rows without it.
pub open spec fn col_width(lines: Seq<Seq<Seq<char>>>, c: int) -> nat
    decreases lines.len(),
{
    if lines.len() == 0 {
        0
    } else {
        let w = if 0 <= c < lines.last().len() {
            utf8_len(lines.last()[c])
        } else {
            0
        };
        max_nat(col_width(lines.drop_last(), c), w)
    }
}

/// `n` spaces.
pub open spec fn blanks(n: int) -> Seq<char> {
    Seq::new(n as nat, |i: int| ' ')
}

/// The text without trailing whitespace.
pub open spec fn trim_end_spec(s: Seq<char>) -> Seq<char> {
    s.take(s.len() - trail_ws(s))
}

/// The first `c` entries of a row, each but the last column padded to its
/// column's width and three more spaces.
pub open spec fn column_line(lines: Seq<Seq<Seq<char>>>, row: Seq<Seq<char>>, ncols: int, c: int) -> Seq<char>
    decreases c,
{
    if c <= 0 {
        Seq::empty()
    } else {
        let s = row[c - 1];
        let prev = column_line(lines, row, ncols, c - 1);
        if c - 1 < ncols - 1 {
            let w = col_width(lines, c - 1) as int;
            let pad = if w > utf8_len(s) { w - utf8_len(s) } else { 0 };
            prev + s + blanks(pad + 3)
        } else {
            prev + s
        }
    }
}

/// Lines formatted in aligned columns, each after the prefix and without
/// trailing whitespace.
pub open spec fn format_columns_spec(lines: Seq<Seq<Seq<char>>>, prefix: Seq<char>) -> Seq<Seq<char>> {
    let ncols = max_cols(lines) as int;
    if ncols == 0 {
        Seq::empty()
    } else {
        Seq::new(lines.len(), |i: int| prefix + trim_end_spec(column_line(lines, lines[i], ncols, lines[i].len() as int)))
    }
}

/// Byte lengths fit in a `usize`, with room to spare.
pub open spec fn widths_fit(lines: Seq<Seq<Seq<char>>>) -> bool {
    forall|i: int, c: int| 0 <= i < lines.len() && 0 <= c < lines[i].len() ==> utf8_len(#[trigger] lines[i][c]) < 0x1000_0000
}

fn byte_len(s: &str) -> (r: usize)
    requires
        utf8_len(s@) < 0x1000_0000,
    ensures
        r == utf8_len(s@),
{
    let v = chars_of(s);
    crate::printing::text_len(v.as_slice())
}

proof fn lemma_max_cols(lines: Seq<Seq<Seq<char>>>, i: int)
    requires
        0 <= i < lines.len(),
    ensures
        lines[i].len() <= max_cols(lines),
    decreases lines.len(),
{
    if i < lines.len() - 1 {
        lemma_max_cols(lines.drop_last(), i);
    }
}

proof fn lemma_col_width(lines: Seq<Seq<Seq<char>>>, i: int, c: int)
    requires
        0 <= i < lines.len(),
        0 <= c < lines[i].len(),
    ensures
        utf8_len(lines[i][c]) <= col_width(lines, c),
    decreases lines.len(),
{
    if i < lines.len() - 1 {
        lemma_col_width(lines.drop_last(), i, c);
    }
}

proof fn lemma_col_width_bound(lines: Seq<Seq<Seq<char>>>, c: int)
    requires
        widths_fit(lines),
        c >= 0,
    ensures
        col_width(lines, c) < 0x1000_0000,
    decreases lines.len(),
{
    if lines.len() > 0 {
        assert(widths_fit(lines.drop_last())) by {
            assert forall|i: int, k: int| 0 <= i < lines.drop_last().len() && 0 <= k < lines.drop_last()[i].len() implies utf8_len(#[trigger] lines.drop_last()[i][k]) < 0x1000_0000 by {
                assert(lines.drop_last()[i] == lines[i]);
            }
        }
        lemma_col_width_bound(lines.drop_last(), c);
        if c >= 0 && c < lines.last().len() {
            assert(lines.last() == lines[lines.len() - 1]);
            assert(utf8_len(lines[lines.len() - 1][c]) < 0x1000_0000);
        }
    }
}

/// The width of column `c`.
fn column_width(lines: &[Vec<String>], c: usize) -> (r: usize)
    requires
        widths_fit(lines.deep_view()),
    ensures
        r == col_width(lines.deep_view(), c as int),
{
    let ghost lv = lines.deep_view();
    let mut w: usize = 0;
    let mut i: usize = 0;
    while i < lines.len()
        invariant
            i <= lines@.len(),
            lv == lines.deep_view(),
            widths_fit(lv),
            w == col_width(lv.take(i as int), c as int),
        decreases lines.len() - i,
    {
        assert(lv.take(i + 1).drop_last() =~= lv.take(i as int));
        assert(lv[i as int] == lines@[i as int].deep_view());
        let x = if c < lines[i].len() {
            assert(lv[i as int][c as int] == lines@[i as int]@[c as int]@);
            byte_len(lines[i][c].as_str())
        } else {
            0
        };
        if x > w {
            w = x;
        }
        i = i + 1;
    }
    assert(lv.take(lines.len() as int) =~= lv);
    w
}

/// The text without trailing whitespace.
fn trim_end(v: &Vec<char>) -> (r: Vec<char>)
    ensures
        r@ == trim_end_spec(v@),
{
    let mut k: usize = v.len();
    while k > 0 && is_whitespace(v[k - 1])
        invariant
            k <= v@.len(),
            forall|i: int| k <= i < v@.len() ==> crate::text::is_ws(#[trigger] v@[i]),
        decreases k,
    {
        k = k - 1;
    }
    proof {
        lemma_trail(v@, (v@.len() - k) as int);
    }
    let mut r: Vec<char> = Vec::new();
    let mut j: usize = 0;
    while j < k
        invariant
            j <= k <= v@.len(),
            r@ =~= v@.take(j as int),
        decreases k - j,
    {
        r.push(v[j]);
        j = j + 1;
    }
    r
}

proof fn lemma_trail(s: Seq<char>, k: int)
    requires
        0 <= k <= s.len(),
        forall|i: int| s.len() - k <= i < s.len() ==> crate::text::is_ws(#[trigger] s[i]),
        k == s.len() || !crate::text::is_ws(s[s.len() - k - 1]),
    ensures
        trail_ws(s) == k,
    decreases k,
{
    if k > 0 {
        lemma_trail(s.drop_last(), k - 1);
    }
}

/// Append `n` spaces.
fn push_blanks(v: &mut Vec<char>, n: usize)
    ensures
        final(v)@ == old(v)@ + blanks(n as int),
{
    let ghost start = v@;
    let mut k: usize = 0;
    while k < n
        invariant
            k <= n,
            v@ == start + blanks(k as int),
        decreases n - k,
    {
        v.push(' ');
        assert(v@ =~= start + blanks(k + 1));
        k = k + 1;
    }
}

/// Append the characters of a string.
fn push_chars(v: &mut Vec<char>, s: &str)
    ensures
        final(v)@ == old(v)@ + s@,
{
    let c = chars_of(s);
    let ghost start = v@;
    let mut k: usize = 0;
    while k < c.len()
        invariant
            k <= c@.len(),
            c@ == s@,
            v@ == start + c@.take(k as int),
        decreases c.len() - k,
    {
        v.push(c[k]);
        assert(v@ =~= start + c@.take(k + 1));
        k = k + 1;
    }
    assert(c@.take(c@.len() as int) =~= c@);
}

/// Format lines into aligned columns: every column but the last is padded
/// to its widest entry and three more spaces; each line starts with `prefix`
/// and loses its trailing whitespace.
pub fn format_columns(lines: &[Vec<String>], prefix: &str) -> (r: Vec<String>)
    requires
        widths_fit(lines.deep_view()),
    ensures
        r.deep_view() == format_columns_spec(lines.deep_view(), prefix@),
{
    let ghost lv = lines.deep_view();
    let mut ncols: usize = 0;
    let mut i: usize = 0;
    while i < lines.len()
        invariant
            i <= lines@.len(),
            lv == lines.deep_view(),
            ncols == max_cols(lv.take(i as int)),
        decreases lines.len() - i,
    {
        assert(lv.take(i + 1).drop_last() =~= lv.take(i as int));
        assert(lv[i as int].len() == lines@[i as int]@.len());
        if lines[i].len() > ncols {
            ncols = lines[i].len();
        }
        i = i + 1;
    }
    assert(lv.take(lines.len() as int) =~= lv);
    let mut out: Vec<String> = Vec::new();
    if ncols == 0 {
        return out;
    }
    let ghost target = format_columns_spec(lv, prefix@);
    i = 0;
    while i < lines.len()
        invariant
            i <= lines@.len(),
            lv == lines.deep_view(),
            widths_fit(lv),
            ncols == max_cols(lv),
            ncols > 0,
            target == format_columns_spec(lv, prefix@),
            out.deep_view() == target.take(i as int),
        decreases lines.len() - i,
    {
        let row = &lines[i];
        assert(lv[i as int] == row.deep_view());
        let mut line: Vec<char> = Vec::new();
        let mut c: usize = 0;
        while c < row.len()
            invariant
                c <= row@.len(),
                i < lines@.len(),
                lv == lines.deep_view(),
                lv[i as int] == row.deep_view(),
                widths_fit(lv),
                ncols == max_cols(lv),
                ncols > 0,
                line@ == column_line(lv, lv[i as int], ncols as int, c as int),
            decreases row.len() - c,
        {
            assert(lv[i as int][c as int] == row@[c as int]@);
            push_chars(&mut line, row[c].as_str());
            if c < ncols - 1 {
                let w = column_width(lines, c);
                proof {
                    lemma_col_width(lv, i as int, c as int);
                    lemma_col_width_bound(lv, c as int);
                }
                let len = byte_len(row[c].as_str());
                let pad = if w > len { w - len } else { 0 };
                push_blanks(&mut line, pad + 3);
            }
            c = c + 1;
        }
        let t = trim_end(&line);
        let mut full: Vec<char> = chars_of(prefix);
        let ghost p0 = full@;
        let mut j: usize = 0;
        while j < t.len()
            invariant
                j <= t@.len(),
                full@ == p0 + t@.take(j as int),
            decreases t.len() - j,
        {
            full.push(t[j]);
            assert(full@ =~= p0 + t@.take(j + 1));
            j = j + 1;
        }
        assert(t@.take(t@.len() as int) =~= t@);
        let ghost before = out.deep_view();
        out.push(string_of(full.as_slice()));
        assert(out.deep_view() =~= before.push(target[i as int]));
        assert(out.deep_view() =~= target.take(i + 1));
        i = i + 1;
    }
    assert(target.take(lines.len() as int) =~= target);
    out
}

/// The texts of key-value pairs.
pub open spec fn pairs_view(items: Seq<(String, String)>) -> Seq<(Seq<char>, Seq<char>)> {
    items.map_values(|p: (String, String)| (p.0@, p.1@))
}

/// A pair inserted into a list sorted by key, after the pairs whose keys
/// are not greater.
pub open spec fn key_insert(s: Seq<(Seq<char>, Seq<char>)>, x: (Seq<char>, Seq<char>)) -> Seq<(Seq<char>, Seq<char>)>
    decreases s.len(),
{
    if s.len() == 0 {
        seq![x]
    } else if str_lt(x.0, s[0].0) {
        seq![x] + s
    } else {
        seq![s[0]] + key_insert(s.drop_first(), x)
    }
}

/// Pairs sorted by key, pairs of equal keys in their first order.
pub open spec fn key_sorted(v: Seq<(Seq<char>, Seq<char>)>) -> Seq<(Seq<char>, Seq<char>)>
    decreases v.len(),
{
    if v.len() == 0 {
        Seq::empty()
    } else {
        key_insert(key_sorted(v.drop_last()), v.last())
    }
}

/// The rows of a key-value listing: one row of key and value each.
pub open spec fn pair_rows(ps: Seq<(Seq<char>, Seq<char>)>) -> Seq<Seq<Seq<char>>> {
    ps.map_values(|p: (Seq<char>, Seq<char>)| seq![p.0, p.1])
}

proof fn lemma_insert_at(s: Seq<(Seq<char>, Seq<char>)>, x: (Seq<char>, Seq<char>), j: int)
    requires
        0 <= j <= s.len(),
        forall|i: int| 0 <= i < j ==> !str_lt(x.0, #[trigger] s[i].0),
        j == s.len() || str_lt(x.0, s[j].0),
    ensures
        key_insert(s, x) == s.take(j).push(x) + s.skip(j),
    decreases j,
{
    if j == 0 {
        assert(s.take(0).push(x) + s.skip(0) =~= seq![x] + s);
        if s.len() == 0 {
            assert(seq![x] + s =~= seq![x]);
        }
    } else {
        let t = s.drop_first();
        assert forall|i: int| 0 <= i < j - 1 implies !str_lt(x.0, #[trigger] t[i].0) by {
            assert(t[i] == s[i + 1]);
        }
        lemma_insert_at(t, x, j - 1);
        assert(s.take(j).push(x) + s.skip(j) =~= seq![s[0]] + (t.take(j - 1).push(x) + t.skip(j - 1)));
    }
}

proof fn lemma_insert_from(s: Seq<(Seq<char>, Seq<char>)>, x: (Seq<char>, Seq<char>), y: (Seq<char>, Seq<char>))
    requires
        key_insert(s, x).contains(y),
    ensures
        y == x || s.contains(y),
    decreases s.len(),
{
    if s.len() > 0 && !str_lt(x.0, s[0].0) {
        let k = choose|k: int| 0 <= k < key_insert(s, x).len() && key_insert(s, x)[k] == y;
        if k > 0 {
            assert(key_insert(s.drop_first(), x)[k - 1] == y);
            lemma_insert_from(s.drop_first(), x, y);
            if s.drop_first().contains(y) {
                let m = choose|m: int| 0 <= m < s.drop_first().len() && s.drop_first()[m] == y;
                assert(s[m + 1] == y);
            }
        } else {
            assert(s[0] == y);
        }
    } else if s.len() > 0 {
        let k = choose|k: int| 0 <= k < key_insert(s, x).len() && key_insert(s, x)[k] == y;
        if k > 0 {
            assert(s[k - 1] == y);
        }
    }
}

proof fn lemma_sorted_from(v: Seq<(Seq<char>, Seq<char>)>, y: (Seq<char>, Seq<char>))
    requires
        key_sorted(v).contains(y),
    ensures
        v.contains(y),
    decreases v.len(),
{
    if v.len() > 0 {
        lemma_insert_from(key_sorted(v.drop_last()), v.last(), y);
        if y == v.last() {
            assert(v[v.len() - 1] == y);
        } else {
            lemma_sorted_from(v.drop_last(), y);
            let m = choose|m: int| 0 <= m < v.drop_last().len() && v.drop_last()[m] == y;
            assert(v[m] == y);
        }
    }
}

/// Format a key-value listing as two aligned columns, the lines sorted by
/// key (pairs of equal keys keep their order).
pub fn format_map_columns(items: &[(String, String)], prefix: &str) -> (r: Vec<String>)
    requires
        widths_fit(pair_rows(pairs_view(items@))),
    ensures
        r.deep_view() == format_columns_spec(pair_rows(key_sorted(pairs_view(items@))), prefix@),
{
    let ghost pv = pairs_view(items@);
    let mut sorted: Vec<(String, String)> = Vec::new();
    let mut k: usize = 0;
    while k < items.len()
        invariant
            k <= items@.len(),
            pv == pairs_view(items@),
            pairs_view(sorted@) == key_sorted(pv.take(k as int)),
        decreases items.len() - k,
    {
        let key = chars_of(items[k].0.as_str());
        let ghost sv = pairs_view(sorted@);
        let mut j: usize = 0;
        while j < sorted.len() && !crate::text::str_less(key.as_slice(), chars_of(sorted[j].0.as_str()).as_slice())
            invariant
                j <= sorted@.len(),
                sv == pairs_view(sorted@),
                key@ == items@[k as int].0@,
                forall|i: int| 0 <= i < j ==> !str_lt(key@, #[trigger] sv[i].0),
            decreases sorted.len() - j,
        {
            assert(sv[j as int].0 == sorted@[j as int].0@);
            j = j + 1;
        }
        let x = (items[k].0.clone(), items[k].1.clone());
        let ghost xv = (x.0@, x.1@);
        proof {
            assert(xv == pv[k as int]);
            if j < sorted@.len() {
                assert(sv[j as int].0 == sorted@[j as int].0@);
            }
            lemma_insert_at(sv, xv, j as int);
            assert(pv.take(k + 1).drop_last() =~= pv.take(k as int));
            assert(pv.take(k + 1).last() == xv);
        }
        sorted.insert(j, x);
        assert(pairs_view(sorted@) =~= sv.take(j as int).push(xv) + sv.skip(j as int));
        k = k + 1;
    }
    assert(pv.take(items@.len() as int) =~= pv);
    let ghost sp = pairs_view(sorted@);
    let mut lines: Vec<Vec<String>> = Vec::new();
    k = 0;
    while k < sorted.len()
        invariant
            k <= sorted@.len(),
            sp == pairs_view(sorted@),
            lines.deep_view() == pair_rows(sp).take(k as int),
        decreases sorted.len() - k,
    {
        let row = vec![sorted[k].0.clone(), sorted[k].1.clone()];
        let ghost before = lines.deep_view();
        assert(row.deep_view() =~= seq![sorted@[k as int].0@, sorted@[k as int].1@]);
        lines.push(row);
        assert(lines.deep_view() =~= before.push(pair_rows(sp)[k as int]));
        assert(lines.deep_view() =~= pair_rows(sp).take(k + 1));
        k = k + 1;
    }
    assert(pair_rows(sp).take(sorted@.len() as int) =~= pair_rows(sp));
    proof {
        let rs = pair_rows(sp);
        let ri = pair_rows(pv);
        assert forall|i: int, c: int| 0 <= i < rs.len() && 0 <= c < rs[i].len() implies utf8_len(#[trigger] rs[i][c]) < 0x1000_0000 by {
            assert(sp.contains(sp[i]));
            lemma_sorted_from(pv, sp[i]);
            let m = choose|m: int| 0 <= m < pv.len() && pv[m] == sp[i];
            assert(ri[m][0] == rs[i][0] && ri[m][1] == rs[i][1]);
        }
    }
    format_columns(lines.as_slice(), prefix)
}

/// The widths of the columns of a table: the widest of the header and the
/// entries, in bytes.
pub open spec fn table_widths(headers: Seq<Seq<char>>, rows: Seq<Seq<Seq<char>>>) -> Seq<int> {
    Seq::new(headers.len(), |c: int| max_nat(utf8_len(headers[c]), col_width(rows, c)) as int)
}

/// `n` horizontal box-drawing lines.
pub open spec fn dashes(n: int) -> Seq<char> {
    Seq::new(n as nat, |i: int| '─')
}

/// The segments of a horizontal border for the first `n` columns.
pub open spec fn hparts(w: Seq<int>, cross: char, n: int) -> Seq<char>
    decreases n,
{
    if n <= 0 {
        Seq::empty()
    } else {
        hparts(w, cross, n - 1) + dashes(w[n - 1] + 2) + (if n - 1 < w.len() - 1 {
            seq![cross]
        } else {
            Seq::empty()
        })
    }
}

/// A horizontal border of a table.
pub open spec fn hline(w: Seq<int>, left: char, right: char, cross: char) -> Seq<char> {
    seq![left] + hparts(w, cross, w.len() as int) + seq![right]
}

/// A text padded with spaces to `width` characters.
pub open spec fn pad_to(s: Seq<char>, width: int) -> Seq<char> {
    if s.len() < width {
        s + blanks(width - s.len())
    } else {
        s
    }
}

/// A cell of a table and the separator after it.
pub open spec fn cell(s: Seq<char>, width: int) -> Seq<char> {
    seq![' '] + pad_to(s, width) + seq![' ', '│']
}

/// The cells of the first `n` entries of a row; entries beyond the columns
/// show empty.
pub open spec fn row_cells(row: Seq<Seq<char>>, w: Seq<int>, n: int) -> Seq<char>
    decreases n,
{
    if n <= 0 {
        Seq::empty()
    } else {
        let c = n - 1;
        row_cells(row, w, n - 1) + if c < w.len() {
            cell(row[c], w[c])
        } else {
            cell(Seq::empty(), 0)
        }
    }
}

/// A bordered table: top border, header row, separator, the rows, and the
/// bottom border; no lines without headers.
pub open spec fn format_table_spec(headers: Seq<Seq<char>>, rows: Seq<Seq<Seq<char>>>) -> Seq<Seq<char>> {
    if headers.len() == 0 {
        Seq::empty()
    } else {
        let w = table_widths(headers, rows);
        seq![hline(w, '┌', '┐', '┬'), seq!['│'] + row_cells(headers, w, headers.len() as int), hline(w, '├', '┤', '┼')]
            + Seq::new(rows.len(), |i: int| seq!['│'] + row_cells(rows[i], w, rows[i].len() as int))
            + seq![hline(w, '└', '┘', '┴')]
    }
}

/// The characters counted by a string.
fn char_count(s: &str) -> (r: usize)
    ensures
        r == s@.len(),
{
    let v = chars_of(s);
    v.len()
}

/// Append a cell.
fn push_cell(line: &mut Vec<char>, s: &str, width: usize)
    ensures
        final(line)@ == old(line)@ + cell(s@, width as int),
{
    let ghost start = line@;
    line.push(' ');
    push_chars(line, s);
    let n = char_count(s);
    if n < width {
        push_blanks(line, width - n);
    }
    line.push(' ');
    line.push('│');
    assert(line@ =~= start + cell(s@, width as int));
}

/// A horizontal border.
fn border(w: &Vec<usize>, left: char, right: char, cross: char) -> (r: String)
    requires
        forall|c: int| 0 <= c < w@.len() ==> w@[c] < 0x1000_0000,
    ensures
        r@ == hline(w@.map_values(|x: usize| x as int), left, right, cross),
{
    let ghost wi = w@.map_values(|x: usize| x as int);
    let mut line: Vec<char> = Vec::new();
    line.push(left);
    let mut c: usize = 0;
    while c < w.len()
        invariant
            c <= w@.len(),
            wi == w@.map_values(|x: usize| x as int),
            forall|k: int| 0 <= k < w@.len() ==> w@[k] < 0x1000_0000,
            line@ == seq![left] + hparts(wi, cross, c as int),
        decreases w.len() - c,
    {
        let ghost before = line@;
        let n = w[c] + 2;
        let mut k: usize = 0;
        while k < n
            invariant
                k <= n,
                line@ == before + dashes(k as int),
            decreases n - k,
        {
            line.push('─');
            assert(line@ =~= before + dashes(k + 1));
            k = k + 1;
        }
        if c + 1 < w.len() {
            line.push(cross);
        }
        assert(line@ =~= seq![left] + hparts(wi, cross, c + 1));
        c = c + 1;
    }
    line.push(right);
    assert(line@ =~= hline(wi, left, right, cross));
    string_of(line.as_slice())
}

/// Format data as a bordered table with headers, drawn with box-drawing
/// characters; columns are as wide as their widest header or entry, in
/// bytes, and entries of a row beyond the headers show empty.
pub fn format_table(headers: &[String], rows: &[Vec<String>]) -> (r: Vec<String>)
    requires
        widths_fit(rows.deep_view()),
        forall|c: int| 0 <= c < headers@.len() ==> utf8_len(#[trigger] headers@[c]@) < 0x1000_0000,
    ensures
        r.deep_view() == format_table_spec(headers.deep_view(), rows.deep_view()),
{
    let ghost hv = headers.deep_view();
    let ghost rv = rows.deep_view();
    let mut out: Vec<String> = Vec::new();
    if headers.len() == 0 {
        return out;
    }
    let ncols = headers.len();
    let mut w: Vec<usize> = Vec::new();
    let mut c: usize = 0;
    while c < ncols
        invariant
            c <= ncols,
            ncols == hv.len(),
            hv == headers.deep_view(),
            rv == rows.deep_view(),
            widths_fit(rv),
            forall|k: int| 0 <= k < headers@.len() ==> utf8_len(#[trigger] headers@[k]@) < 0x1000_0000,
            w@.map_values(|x: usize| x as int) == table_widths(hv, rv).take(c as int),
            forall|k: int| 0 <= k < c ==> w@[k] < 0x1000_0000,
        decreases ncols - c,
    {
        assert(hv[c as int] == headers@[c as int]@);
        let hw = byte_len(headers[c].as_str());
        let rw = column_width(rows, c);
        proof {
            lemma_col_width_bound(rv, c as int);
        }
        let x = if hw >= rw { hw } else { rw };
        let ghost before = w@;
        assert(x as int == table_widths(hv, rv)[c as int]);
        w.push(x);
        assert(w@.map_values(|x: usize| x as int) =~= before.map_values(|x: usize| x as int).push(x as int));
        assert(w@.map_values(|x: usize| x as int) =~= table_widths(hv, rv).take(c + 1));
        c = c + 1;
    }
    let ghost wi = w@.map_values(|x: usize| x as int);
    assert(table_widths(hv, rv).take(ncols as int) =~= table_widths(hv, rv));
    let ghost target = format_table_spec(hv, rv);
    out.push(border(&w, '┌', '┐', '┬'));
    let mut line: Vec<char> = Vec::new();
    line.push('│');
    c = 0;
    while c < ncols
        invariant
            c <= ncols,
            ncols == hv.len(),
            hv == headers.deep_view(),
            w@.len() == ncols,
            wi == w@.map_values(|x: usize| x as int),
            line@ == seq!['│'] + row_cells(hv, wi, c as int),
        decreases ncols - c,
    {
        assert(hv[c as int] == headers@[c as int]@);
        push_cell(&mut line, headers[c].as_str(), w[c]);
        c = c + 1;
    }
    out.push(string_of(line.as_slice()));
    out.push(border(&w, '├', '┤', '┼'));
    let mut i: usize = 0;
    while i < rows.len()
        invariant
            i <= rows@.len(),
            rv == rows.deep_view(),
            hv == headers.deep_view(),
            w@.len() == ncols,
            ncols == hv.len(),
            ncols > 0,
            wi == w@.map_values(|x: usize| x as int),
            wi == table_widths(hv, rv),
            target == format_table_spec(hv, rv),
            out.deep_view() == target.take(3 + i),
        decreases rows.len() - i,
    {
        let row = &rows[i];
        assert(rv[i as int] == row.deep_view());
        let mut line: Vec<char> = Vec::new();
        line.push('│');
        let mut c: usize = 0;
        while c < row.len()
            invariant
                c <= row@.len(),
                rv[i as int] == row.deep_view(),
                w@.len() == ncols,
                wi == w@.map_values(|x: usize| x as int),
                line@ == seq!['│'] + row_cells(rv[i as int], wi, c as int),
            decreases row.len() - c,
        {
            if c < ncols {
                assert(rv[i as int][c as int] == row@[c as int]@);
                push_cell(&mut line, row[c].as_str(), w[c]);
            } else {
                push_cell(&mut line, "", 0);
                proof {
                    reveal_strlit("");
                }
                assert(""@ =~= Seq::<char>::empty());
            }
            c = c + 1;
        }
        let ghost before = out.deep_view();
        out.push(string_of(line.as_slice()));
        assert(out.deep_view() =~= before.push(target[3 + i]));
        assert(out.deep_view() =~= target.take(3 + i + 1));
        i = i + 1;
    }
    let ghost before = out.deep_view();
    let b = border(&w, '└', '┘', '┴');
    let ghost bv = b@;
    out.push(b);
    assert(out.deep_view() =~= before.push(bv));
    assert(target.len() == rows@.len() + 4);
    assert(target[rows@.len() as int + 3] == bv);
    assert(before =~= target.take(rows@.len() as int + 3));
    assert(out.deep_view() =~= target);
    out
}

/* #endregion */

} // verus!
