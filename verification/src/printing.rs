//! Formatting of coefficient matrices with aligned decimal points.
use crate::misc::{rows_cover, transpose_matrix, transpose_spec};
use crate::text::{chars_of, string_of, join_spec};
use vstd::prelude::*;

verus! {

/// The number of bytes of a character in UTF-8.
pub open spec fn char_bytes(c: char) -> nat {
    if (c as u32) < 0x80 {
        1
    } else if (c as u32) < 0x800 {
        2
    } else if (c as u32) < 0x10000 {
        3
    } else {
        4
    }
}

/// The length of a text in UTF-8 bytes (what `str::len` gives).
pub open spec fn utf8_len(s: Seq<char>) -> nat
    decreases s.len(),
{
    if s.len() == 0 {
        0
    } else {
        utf8_len(s.drop_last()) + char_bytes(s.last())
    }
}

/// The position of the first `.` of a text, or its length when it has none.
pub open spec fn first_dot(s: Seq<char>) -> int
    decreases s.len(),
{
    if s.len() == 0 {
        0
    } else if s[0] == '.' {
        0
    } else {
        1 + first_dot(s.drop_first())
    }
}

/// The byte position of the first `.` of a text, or 0 when it has none.
pub open spec fn dot_bytes(s: Seq<char>) -> int {
    if first_dot(s) < s.len() {
        utf8_len(s.take(first_dot(s))) as int
    } else {
        0
    }
}

/// The spaces before an entry so that its decimal point lands at
/// `point_place`: `point_place - 1` less the bytes before the point, or 0.
pub open spec fn leftpad(s: Seq<char>, point_place: int) -> int {
    let p = point_place - 1 - dot_bytes(s);
    if p > 0 {
        p
    } else {
        0
    }
}

/// `n` spaces.
pub open spec fn spaces(n: int) -> Seq<char> {
    Seq::new(n as nat, |i: int| ' ')
}

/// The spaces before column `c` of a line that is `len` bytes long so far:
/// enough to reach the column's padding, and at least one after the first
/// column.
pub open spec fn gap(pad: int, len: int, c: int) -> int {
    let sp = pad - len;
    if c > 0 && sp < 1 {
        1
    } else {
        sp
    }
}

/// The first `c` entries of a row, each placed at its padding.
pub open spec fn build_line(row: Seq<Seq<char>>, pads: Seq<int>, c: int) -> Seq<char>
    decreases c,
{
    if c <= 0 {
        Seq::empty()
    } else {
        let prev = build_line(row, pads, c - 1);
        prev + spaces(gap(pads[c - 1], utf8_len(prev) as int, c - 1)) + row[c - 1]
    }
}

/// Every entry of a row can be placed: the line so far is never longer than
/// the padding of the next entry.
pub open spec fn line_fits(row: Seq<Seq<char>>, pads: Seq<int>) -> bool {
    forall|c: int| 0 <= c < row.len() ==> utf8_len(#[trigger] build_line(row, pads, c)) <= pads[c]
}

/// The paddings of row `r` of a matrix given by columns.
pub open spec fn row_pads(mat: Seq<Seq<Seq<char>>>, point_places: Seq<usize>, r: int) -> Seq<int> {
    Seq::new(mat.len(), |c: int| leftpad(mat[c][r], point_places[c] as int))
}

/// The lines of a matrix given by columns: one line per row.
pub open spec fn matrix_lines(mat: Seq<Seq<Seq<char>>>, point_places: Seq<usize>) -> Seq<Seq<char>> {
    let rows = transpose_spec(mat);
    Seq::new(rows.len(), |r: int| build_line(rows[r], row_pads(mat, point_places, r), mat.len() as int))
}

/// A text with each `E` and `e` written `D`.
pub open spec fn fortran_exp(s: Seq<char>) -> Seq<char> {
    Seq::new(s.len(), |i: int| if s[i] == 'E' || s[i] == 'e' { 'D' } else { s[i] })
}

/// The text of a matrix: its lines joined by newlines, with Fortran
/// exponents when `convert_exp`.
pub open spec fn write_matrix_spec(mat: Seq<Seq<Seq<char>>>, point_places: Seq<usize>, convert_exp: bool) -> Seq<char> {
    let t = join_spec(matrix_lines(mat, point_places), "\n"@);
    if convert_exp {
        fortran_exp(t)
    } else {
        t
    }
}

/// What writing a matrix needs: every column at least as long as the
/// first, a decimal point place for every column, positions within 32-bit
/// range, and every line able to hold its entries.
pub open spec fn write_matrix_ok(mat: Seq<Seq<Seq<char>>>, point_places: Seq<usize>) -> bool {
    mat.len() > 0 ==> {
        &&& rows_cover(mat, mat[0].len() as int)
        &&& (mat[0].len() > 0 ==> point_places.len() >= mat.len())
        &&& forall|c: int| 0 <= c < point_places.len() ==> (#[trigger] point_places[c]) < 0x7fff_ffff
        &&& forall|c: int, r: int|
            0 <= c < mat.len() && 0 <= r < mat[0].len() ==> utf8_len(#[trigger] mat[c][r]) < 0x7fff_ffff
        &&& forall|r: int|
            0 <= r < mat[0].len() ==> line_fits(#[trigger] transpose_spec(mat)[r], row_pads(mat, point_places, r))
    }
}

/// The UTF-8 length of a character.
fn char_len(c: char) -> (r: usize)
    ensures
        r == char_bytes(c),
{
    if (c as u32) < 0x80 {
        1
    } else if (c as u32) < 0x800 {
        2
    } else if (c as u32) < 0x10000 {
        3
    } else {
        4
    }
}

proof fn lemma_utf8_len_bound(s: Seq<char>)
    ensures
        utf8_len(s) <= 4 * s.len(),
    decreases s.len(),
{
    if s.len() > 0 {
        lemma_utf8_len_bound(s.drop_last());
    }
}

proof fn lemma_utf8_len_prefix(s: Seq<char>, k: int)
    requires
        0 <= k <= s.len(),
    ensures
        utf8_len(s.take(k)) <= utf8_len(s),
    decreases s.len() - k,
{
    if k < s.len() {
        lemma_utf8_len_prefix(s, k + 1);
        assert(s.take(k + 1).drop_last() =~= s.take(k));
    } else {
        assert(s.take(k) =~= s);
    }
}

/// The UTF-8 length of a text, when it fits in a `usize`.
pub(crate) fn text_len(s: &[char]) -> (r: usize)
    requires
        utf8_len(s@) < 0x7fff_ffff,
    ensures
        r == utf8_len(s@),
{
    let mut n: usize = 0;
    let mut i: usize = 0;
    while i < s.len()
        invariant
            i <= s@.len(),
            utf8_len(s@) < 0x7fff_ffff,
            n == utf8_len(s@.take(i as int)),
        decreases s.len() - i,
    {
        assert(s@.take(i + 1).drop_last() =~= s@.take(i as int));
        proof {
            lemma_utf8_len_prefix(s@, i + 1);
        }
        n = n + char_len(s[i]);
        i = i + 1;
    }
    assert(s@.take(s.len() as int) =~= s@);
    n
}

proof fn lemma_first_dot(s: Seq<char>, k: int)
    requires
        0 <= k <= s.len(),
        forall|j: int| 0 <= j < k ==> #[trigger] s[j] != '.',
        k == s.len() || s[k] == '.',
    ensures
        first_dot(s) == k,
    decreases k,
{
    if k > 0 {
        lemma_first_dot(s.drop_first(), k - 1);
    }
}

/// The padding of an entry.
fn leftpad_exec(s: &String, point_place: usize) -> (r: usize)
    requires
        utf8_len(s@) < 0x7fff_ffff,
        point_place < 0x7fff_ffff,
    ensures
        r == leftpad(s@, point_place as int),
{
    let v = chars_of(s.as_str());
    let mut k: usize = 0;
    while k < v.len() && v[k] != '.'
        invariant
            k <= v@.len(),
            v@ == s@,
            forall|j: int| 0 <= j < k ==> #[trigger] v@[j] != '.',
        decreases v.len() - k,
    {
        k = k + 1;
    }
    proof {
        lemma_first_dot(s@, k as int);
        lemma_utf8_len_prefix(s@, k as int);
    }
    let before: usize = if k < v.len() {
        let mut pre: Vec<char> = Vec::new();
        let mut j: usize = 0;
        while j < k
            invariant
                j <= k <= v@.len(),
                pre@ =~= v@.take(j as int),
            decreases k - j,
        {
            pre.push(v[j]);
            j = j + 1;
        }
        text_len(pre.as_slice())
    } else {
        0
    };
    if point_place > 1 + before {
        point_place - 1 - before
    } else {
        0
    }
}

/// Format a matrix, given by columns, with aligned decimal points: one line
/// per row, each entry padded so that its decimal point lands at the
/// column's place (and at least one space between entries); with
/// `convert_exp`, exponents are written with `D` for Fortran.
pub fn write_matrix(mat: &[Vec<String>], point_places: &[usize], convert_exp: bool) -> (r: String)
    requires
        write_matrix_ok(mat.deep_view(), point_places@),
    ensures
        r@ == write_matrix_spec(mat.deep_view(), point_places@, convert_exp),
{
    let ghost mv = mat.deep_view();
    let rows = transpose_matrix(mat);
    let ghost rv = rows.deep_view();
    let ghost target = matrix_lines(mv, point_places@);
    let mut lines: Vec<String> = Vec::new();
    let mut r: usize = 0;
    while r < rows.len()
        invariant
            r <= rows@.len(),
            mv == mat.deep_view(),
            rv == rows.deep_view(),
            rv == transpose_spec(mv),
            target == matrix_lines(mv, point_places@),
            write_matrix_ok(mv, point_places@),
            lines.deep_view() == target.take(r as int),
        decreases rows.len() - r,
    {
        assert(mv.len() > 0);
        let row = &rows[r];
        assert(rv[r as int] == row.deep_view());
        assert(row.deep_view().len() == mv.len());
        let ghost pads = row_pads(mv, point_places@, r as int);
        assert(line_fits(rv[r as int], pads));
        let mut line: Vec<char> = Vec::new();
        let mut len: usize = 0;
        let mut c: usize = 0;
        while c < row.len()
            invariant
                c <= row@.len(),
                row@.len() == mv.len(),
                mv == mat.deep_view(),
                rv[r as int] == row.deep_view(),
                rv == transpose_spec(mv),
                mv.len() > 0,
                r < mv[0].len(),
                pads == row_pads(mv, point_places@, r as int),
                write_matrix_ok(mv, point_places@),
                line_fits(rv[r as int], pads),
                line@ == build_line(rv[r as int], pads, c as int),
                c < row@.len() ==> len == utf8_len(line@),
            decreases row.len() - c,
        {
            assert(mat@[c as int].deep_view() == mv[c as int]);
            assert(mv[c as int].len() >= mv[0].len());
            assert(mat@[c as int]@[r as int]@ == mv[c as int][r as int]);
            assert(utf8_len(mv[c as int][r as int]) < 0x7fff_ffff);
            let pad = leftpad_exec(&mat[c][r], point_places[c]);
            assert(pad == pads[c as int]);
            assert(utf8_len(build_line(rv[r as int], pads, c as int)) <= pads[c as int]);
            let mut sp: usize = pad - len;
            if c > 0 && sp < 1 {
                sp = 1;
            }
            let ghost prev = line@;
            let mut t: usize = 0;
            while t < sp
                invariant
                    t <= sp,
                    line@ == prev + spaces(t as int),
                decreases sp - t,
            {
                line.push(' ');
                assert(line@ =~= prev + spaces(t + 1));
                t = t + 1;
            }
            let ev = chars_of(row[c].as_str());
            assert(ev@ == rv[r as int][c as int]);
            let mut j: usize = 0;
            let ghost mid = line@;
            while j < ev.len()
                invariant
                    j <= ev@.len(),
                    line@ == mid + ev@.take(j as int),
                decreases ev.len() - j,
            {
                line.push(ev[j]);
                assert(line@ =~= mid + ev@.take(j + 1));
                j = j + 1;
            }
            assert(ev@.take(ev@.len() as int) =~= ev@);
            assert(line@ == build_line(rv[r as int], pads, c + 1));
            proof {
                lemma_utf8_len_bound(line@);
            }
            if c + 1 < row.len() {
                assert(utf8_len(build_line(rv[r as int], pads, c + 1)) <= pads[c + 1]);
                assert(mat@[c + 1].deep_view() == mv[c + 1]);
                assert(mv[c + 1].len() >= mv[0].len());
                assert(mat@[c + 1]@[r as int]@ == mv[c + 1][r as int]);
                let np = leftpad_exec(&mat[c + 1][r], point_places[c + 1]);
                assert(np == pads[c + 1]);
                len = text_len_small(line.as_slice(), np);
            } else {
                len = 0;
            }
            c = c + 1;
        }
        assert(line@ == target[r as int]);
        let ghost before = lines.deep_view();
        lines.push(string_of(line.as_slice()));
        assert(lines.deep_view() =~= before.push(target[r as int]));
        assert(lines.deep_view() =~= target.take(r + 1));
        r = r + 1;
    }
    assert(target.take(rows@.len() as int) =~= target);
    let joined = crate::text::join(&lines, "\n");
    if convert_exp {
        let v = chars_of(joined.as_str());
        let mut out: Vec<char> = Vec::new();
        let mut i: usize = 0;
        while i < v.len()
            invariant
                i <= v@.len(),
                v@ == joined@,
                out@ =~= fortran_exp(joined@).take(i as int),
            decreases v.len() - i,
        {
            if v[i] == 'E' || v[i] == 'e' {
                out.push('D');
            } else {
                out.push(v[i]);
            }
            i = i + 1;
        }
        string_of(out.as_slice())
    } else {
        joined
    }
}

/// The UTF-8 length of a text no longer than `bound`.
fn text_len_small(s: &[char], bound: usize) -> (r: usize)
    requires
        utf8_len(s@) <= bound,
    ensures
        r == utf8_len(s@),
{
    let mut n: usize = 0;
    let mut i: usize = 0;
    while i < s.len()
        invariant
            i <= s@.len(),
            utf8_len(s@) <= bound,
            n == utf8_len(s@.take(i as int)),
        decreases s.len() - i,
    {
        assert(s@.take(i + 1).drop_last() =~= s@.take(i as int));
        proof {
            lemma_utf8_len_prefix(s@, i + 1);
        }
        n = n + char_len(s[i]);
        i = i + 1;
    }
    assert(s@.take(s.len() as int) =~= s@);
    n
}

} // verus!
