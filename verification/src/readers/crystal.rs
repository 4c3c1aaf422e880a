//! Reading basis sets in the CRYSTAL format.
//!
//! Each element opens with a line `Z nshells`, where `Z` is the atomic
//! number, plus 200 for an element with an effective core potential. Such
//! an element first gives its potential after a line `INPUT`: a line
//! `Zeff m ns np nd nf ng`, then, for each angular momentum from `s` to
//! `g`, that many lines `exponent coefficient r-exponent`. The shells
//! follow, each a line `type lat nprim charge scale` and `nprim` lines of
//! primitives. The data ends with a line `99 0`.
use crate::error::BseError;
use crate::fields::{
    BseBasisElement, BseBasisMinimal, BseEcpPotential, BseElectronShell, ElementV, PotentialV, ShellV, elements_view,
    keys_increasing,
};
use crate::compose::shell_types;
use crate::lut::{function_type_from_am, function_type_spec};
use crate::readers::helpers::{
    add_potential, add_shell, entry_of, f64_syntax, groups_text, matrix_spec, parse_line_regex, parse_matrix, parses_as_f64,
    partition_lines, partition_spec, prune_lines, prune_lines_spec, push_potential, push_shell, put_entry, reader_basis,
    reader_name, regex_captures_of, regex_is_match, replace_d, replace_d_spec, set_core, text_lines, trimmed_lines,
    with_core,
};
use crate::text::{chars_of, parse_i32, parse_i32_spec, parse_usize, parse_usize_spec, sort_distinct_strs, split_ws, ws_tokens};
use vstd::prelude::*;

verus! {

/// The line that opens an element: atomic number (plus 200 with a
/// potential) and number of shells.
pub const CRYSTAL_ELEMENT_PATTERN: &'static str = r"^(\d+)\s+(\d+)\s*$";

/// The line that opens a shell: type, shell code, number of primitives,
/// charge, scale factor.
pub const CRYSTAL_SHELL_PATTERN: &'static str = r"^(\d+)\s+(\d+)\s+(\d+)\s+(\d+)\s+([0-9.]+)\s*$";

/// The line before a potential.
pub const CRYSTAL_INPUT_PATTERN: &'static str = r"^INPUT\s*$";

/// The line that describes a potential: effective charge, number of scalar
/// terms, and the number of terms for `s` to `g`.
pub const CRYSTAL_ECP_PATTERN: &'static str = r"^(\d+)\s+(\d+)\s+(\d+)\s+(\d+)\s+(\d+)\s+(\d+)\s+(\d+)\s*$";

/// The line that ends the data.
pub const CRYSTAL_END_PATTERN: &'static str = r"^99\s+0\s*$";

/* #region specification */

/// The angular momenta of a shell code: `0` is `s`, `1` is `sp`, and
/// `n` above that is angular momentum `n - 1`.
pub open spec fn lat_am(lat: i32) -> Seq<i32> {
    if lat == 0 {
        seq![0i32]
    } else if lat == 1 {
        seq![0i32, 1i32]
    } else {
        seq![(lat - 1) as i32]
    }
}

/// Which lines open a block: element lines and the end line.
pub open spec fn block_flags(lines: Seq<Seq<char>>) -> Seq<bool> {
    Seq::new(
        lines.len(),
        |i: int| regex_captures_of(CRYSTAL_ELEMENT_PATTERN@, lines[i]) is Some || regex_captures_of(CRYSTAL_END_PATTERN@, lines[i]) is Some,
    )
}

/// A block that holds the end line.
pub open spec fn has_end(b: Seq<Seq<char>>) -> bool {
    exists|k: int| 0 <= k < b.len() && #[trigger] regex_captures_of(CRYSTAL_END_PATTERN@, b[k]) is Some
}

/// The first line at or after `i` that is `INPUT`, else the number of
/// lines.
pub open spec fn input_from(b: Seq<Seq<char>>, i: int) -> int
    decreases b.len() - i,
{
    if i < 0 || i >= b.len() {
        b.len() as int
    } else if regex_captures_of(CRYSTAL_INPUT_PATTERN@, b[i]) is Some {
        i
    } else {
        input_from(b, i + 1)
    }
}

/// The potential terms in lines `i` on: `n` lines of three tokens,
/// gathered after those already read (gaussian exponents and coefficients
/// with `d` read as `e`, integer r-exponents).
pub open spec fn cry_terms(
    b: Seq<Seq<char>>,
    i: int,
    n: nat,
    acc: (Seq<Seq<char>>, Seq<Seq<char>>, Seq<i32>),
) -> Option<(Seq<Seq<char>>, Seq<Seq<char>>, Seq<i32>)>
    decreases n,
{
    if n == 0 {
        Some(acc)
    } else if i < 0 || i >= b.len() {
        None
    } else {
        let t = ws_tokens(b[i]);
        if t.len() != 3 {
            None
        } else {
            match parse_i32_spec(t[2]) {
                None => None,
                Some(r) => cry_terms(
                    b,
                    i + 1,
                    (n - 1) as nat,
                    (acc.0.push(replace_d_spec(t[0])), acc.1.push(replace_d_spec(t[1])), acc.2.push(r)),
                ),
            }
        }
    }
}

/// The potential of angular momentum `am` from its terms.
pub open spec fn cry_potential(am: int, t: (Seq<Seq<char>>, Seq<Seq<char>>, Seq<i32>)) -> PotentialV {
    PotentialV {
        am: seq![am as i32],
        coefficients: seq![t.1],
        ecp_type: "scalar_ecp"@,
        r_exponents: t.2,
        gaussian_exponents: t.0,
    }
}

/// The element map and the next line after the potentials of element `z`
/// for angular momenta `am` to `g` from line `i`; `counts` gives the number
/// of terms of each, and one with none is skipped.
pub open spec fn cry_pots(b: Seq<Seq<char>>, i: int, am: int, counts: Seq<usize>, z: i32, w: Seq<(i32, ElementV)>) -> Option<(Seq<(i32, ElementV)>, int)>
    decreases 5 - am,
{
    if am >= 5 || am < 0 || am >= counts.len() {
        Some((w, i))
    } else if counts[am] == 0 {
        cry_pots(b, i, am + 1, counts, z, w)
    } else {
        match cry_terms(b, i, counts[am] as nat, (Seq::empty(), Seq::empty(), Seq::empty())) {
            None => None,
            Some(t) => cry_pots(
                b,
                i + counts[am],
                am + 1,
                counts,
                z,
                put_entry(w, z, push_potential(entry_of(w, z), cry_potential(am, t))),
            ),
        }
    }
}

/// The five term counts of a potential descriptor's groups all parse.
pub open spec fn counts_parse(g: Seq<Seq<char>>) -> bool {
    forall|j: int| 0 <= j < 5 ==> #[trigger] parse_usize_spec(g[j + 2]) is Some
}

/// The five term counts of a potential descriptor's groups.
pub open spec fn counts_of(g: Seq<Seq<char>>) -> Seq<usize> {
    Seq::new(5, |j: int| parse_usize_spec(g[j + 2])->0)
}

/// The element map and the next line after the potential of element `z`:
/// nothing when no line is `INPUT` (the next line is then past the end),
/// else its descriptor after `INPUT`, the core electrons `z - Zeff`, and
/// its terms.
pub open spec fn cry_ecp(b: Seq<Seq<char>>, z: i32, w: Seq<(i32, ElementV)>) -> Option<(Seq<(i32, ElementV)>, int)> {
    let k = input_from(b, 1);
    if k >= b.len() {
        Some((w, b.len() as int))
    } else if k + 1 >= b.len() {
        None
    } else {
        match regex_captures_of(CRYSTAL_ECP_PATTERN@, b[k + 1]) {
            None => None,
            Some(caps) => {
                let g = groups_text(caps);
                if g.len() < 7 {
                    None
                } else {
                    if parse_i32_spec(g[0]) is None || parse_i32_spec(g[1]) is None || !counts_parse(g) {
                        None
                    } else {
                        let zeff = parse_i32_spec(g[0])->0;
                        if z - zeff < i32::MIN || z - zeff > i32::MAX {
                            None
                        } else {
                            let w1 = put_entry(w, z, with_core(entry_of(w, z), (z - zeff) as i32));
                            cry_pots(b, k + 2, 0, counts_of(g), z, w1)
                        }
                    }
                }
            },
        }
    }
}

/// The shell of shell code `lat` from its rows of primitives.
pub open spec fn cry_shell(lat: i32, m: Seq<Seq<Seq<char>>>) -> ShellV {
    let am = lat_am(lat);
    let col = |c: int| Seq::new(m.len(), |r: int| replace_d_spec(m[r][c]));
    ShellV {
        function_type: function_type_spec(am, "gto"@, "spherical"@),
        region: Seq::empty(),
        am,
        exponents: col(0),
        coefficients: if lat == 1 {
            seq![col(1), col(2)]
        } else {
            seq![col(1)]
        },
    }
}

/// The element map after at most `k` more shells of element `z` from line
/// `i`; reading stops when the lines run out, and an `INPUT` line counts as
/// a shell.
pub open spec fn cry_shells(b: Seq<Seq<char>>, i: int, k: nat, z: i32, w: Seq<(i32, ElementV)>) -> Option<Seq<(i32, ElementV)>>
    decreases k,
{
    if k == 0 || i < 0 || i >= b.len() {
        Some(w)
    } else if regex_captures_of(CRYSTAL_INPUT_PATTERN@, b[i]) is Some {
        cry_shells(b, i + 1, (k - 1) as nat, z, w)
    } else {
        match regex_captures_of(CRYSTAL_SHELL_PATTERN@, b[i]) {
            None => None,
            Some(caps) => {
                let g = groups_text(caps);
                if g.len() < 5 || parse_i32_spec(g[0]) is None || parse_i32_spec(g[1]) is None || parse_usize_spec(g[2]) is None
                    || parse_i32_spec(g[3]) is None || !f64_syntax(g[4]) || parse_i32_spec(g[1])->0 < 0 {
                    None
                } else {
                    let lat = parse_i32_spec(g[1])->0;
                    let nprim = parse_usize_spec(g[2])->0;
                    let ncol: usize = if lat == 1 {
                        3
                    } else {
                        2
                    };
                    if i + 1 + nprim > b.len() {
                        None
                    } else {
                        match matrix_spec(b.subrange(i + 1, i + 1 + nprim), Some(nprim), Some(ncol)) {
                            None => None,
                            Some(m) => cry_shells(
                                b,
                                i + 1 + nprim,
                                (k - 1) as nat,
                                z,
                                put_entry(w, z, push_shell(entry_of(w, z), cry_shell(lat, m))),
                            ),
                        }
                    }
                }
            },
        }
    }
}

/// The element map after one element block (of at least two lines): its
/// potential, when its number is 200 or more, then its shells.
pub open spec fn cry_block(b: Seq<Seq<char>>, w: Seq<(i32, ElementV)>) -> Option<Seq<(i32, ElementV)>> {
    match regex_captures_of(CRYSTAL_ELEMENT_PATTERN@, b[0]) {
        None => None,
        Some(caps) => {
            let g = groups_text(caps);
            if g.len() < 2 {
                None
            } else {
                match (parse_i32_spec(g[0]), parse_usize_spec(g[1])) {
                    (Some(num), Some(nshells)) => if num >= 200 {
                        let z = (num - 200) as i32;
                        match cry_ecp(b, z, w) {
                            None => None,
                            Some((w2, i)) => cry_shells(b, i, nshells as nat, z, w2),
                        }
                    } else {
                        cry_shells(b, 1, nshells as nat, num, w)
                    },
                    _ => None,
                }
            }
        },
    }
}

/// The element map after the first `n` blocks; a block that holds the end
/// line, or has fewer than two lines, adds nothing.
pub open spec fn cry_blocks(blocks: Seq<Seq<Seq<char>>>, n: int) -> Option<Seq<(i32, ElementV)>>
    decreases n,
{
    if n <= 0 {
        Some(Seq::empty())
    } else {
        match cry_blocks(blocks, n - 1) {
            None => None,
            Some(w) => {
                let b = blocks[n - 1];
                if has_end(b) || b.len() < 2 {
                    Some(w)
                } else {
                    cry_block(b, w)
                }
            },
        }
    }
}

/// What a CRYSTAL text holds: its lines trimmed, without comments (`*`,
/// `!` or `#`) and blank lines, cut into blocks at the element lines and
/// the end line; the element map, or `None` when the text does not parse.
pub open spec fn crystal_spec(text: Seq<char>) -> Option<Seq<(i32, ElementV)>> {
    let lines = prune_lines_spec(text_lines(text), "*!#"@, true, true);
    if lines.len() == 0 {
        Some(Seq::empty())
    } else {
        match partition_spec(lines, block_flags(lines), 0, None, None, None, 1, true) {
            None => None,
            Some(blocks) => cry_blocks(blocks, blocks.len() as int),
        }
    }
}

proof fn lemma_blocks_none(blocks: Seq<Seq<Seq<char>>>, k: int, n: int)
    requires
        0 <= k <= n,
        cry_blocks(blocks, k) is None,
    ensures
        cry_blocks(blocks, n) is None,
    decreases n - k,
{
    if k < n {
        lemma_blocks_none(blocks, k + 1, n);
    }
}

/* #endregion */

/* #region reading */

fn block_flag_lines(lines: &Vec<String>) -> (r: Vec<bool>)
    ensures
        r@ == block_flags(lines.deep_view()),
{
    let ghost lv = lines.deep_view();
    let mut r: Vec<bool> = Vec::new();
    let mut q: usize = 0;
    while q < lines.len()
        invariant
            q <= lines@.len(),
            lv == lines.deep_view(),
            r@ == block_flags(lv).take(q as int),
        decreases lines.len() - q,
    {
        assert(lv[q as int] == lines@[q as int]@);
        let f = regex_is_match(CRYSTAL_ELEMENT_PATTERN, lines[q].as_str()) || regex_is_match(CRYSTAL_END_PATTERN, lines[q].as_str());
        r.push(f);
        assert(r@ =~= block_flags(lv).take(q + 1));
        q = q + 1;
    }
    assert(block_flags(lv).take(lines@.len() as int) =~= block_flags(lv));
    r
}

fn holds_end(b: &Vec<String>) -> (r: bool)
    ensures
        r == has_end(b.deep_view()),
{
    let ghost bv = b.deep_view();
    let mut q: usize = 0;
    while q < b.len()
        invariant
            q <= b@.len(),
            bv == b.deep_view(),
            forall|k: int| 0 <= k < q ==> !(#[trigger] regex_captures_of(CRYSTAL_END_PATTERN@, bv[k]) is Some),
        decreases b.len() - q,
    {
        assert(bv[q as int] == b@[q as int]@);
        if regex_is_match(CRYSTAL_END_PATTERN, b[q].as_str()) {
            return true;
        }
        q = q + 1;
    }
    false
}

fn line_range(b: &Vec<String>, from: usize, to: usize) -> (r: Vec<String>)
    requires
        from <= to <= b@.len(),
    ensures
        r.deep_view() == b.deep_view().subrange(from as int, to as int),
{
    let mut r: Vec<String> = Vec::new();
    let mut k: usize = from;
    while k < to
        invariant
            from <= k <= to <= b@.len(),
            r.deep_view() == b.deep_view().subrange(from as int, k as int),
        decreases to - k,
    {
        let ghost o = r.deep_view();
        r.push(b[k].clone());
        assert(r.deep_view() =~= o.push(b.deep_view()[k as int]));
        assert(r.deep_view() =~= b.deep_view().subrange(from as int, k + 1));
        k = k + 1;
    }
    r
}

fn ecp_terms(b: &Vec<String>, i: usize, n: usize) -> (r: Result<(Vec<String>, Vec<String>, Vec<i32>), BseError>)
    ensures
        match cry_terms(b.deep_view(), i as int, n as nat, (Seq::empty(), Seq::empty(), Seq::empty())) {
            Some(t) => r matches Ok((g, c, e)) && g.deep_view() == t.0 && c.deep_view() == t.1 && e@ == t.2 && (n > 0 ==> i + n <= b@.len()),
            None => r matches Err(x) && x is ValueError,
        },
{
    let ghost bv = b.deep_view();
    let mut g: Vec<String> = Vec::new();
    let mut c: Vec<String> = Vec::new();
    let mut e: Vec<i32> = Vec::new();
    let mut j: usize = 0;
    proof {
        assert(g.deep_view() =~= Seq::<Seq<char>>::empty());
        assert(c.deep_view() =~= Seq::<Seq<char>>::empty());
    }
    while j < n
        invariant
            j <= n,
            bv == b.deep_view(),
            j > 0 ==> i + j <= b@.len(),
            cry_terms(bv, i as int, n as nat, (Seq::empty(), Seq::empty(), Seq::empty()))
                == cry_terms(bv, i + j, (n - j) as nat, (g.deep_view(), c.deep_view(), e@)),
        decreases n - j,
    {
        if i >= b.len() || j >= b.len() - i {
            return Err(BseError::ValueError("Missing ECP entry".to_string()));
        }
        assert(bv[i + j] == b@[i + j]@);
        let parts = split_ws(b[i + j].as_str());
        if parts.len() != 3 {
            return Err(BseError::ValueError("Invalid ECP entry".to_string()));
        }
        assert(parts.deep_view()[0] == parts@[0]@ && parts.deep_view()[1] == parts@[1]@ && parts.deep_view()[2] == parts@[2]@);
        let rexp = match parse_i32(chars_of(parts[2].as_str()).as_slice()) {
            Some(v) => v,
            None => {
                return Err(BseError::ValueError("Invalid r_exp".to_string()));
            },
        };
        let ghost (og, oc) = (g.deep_view(), c.deep_view());
        g.push(replace_d(parts[0].as_str()));
        c.push(replace_d(parts[1].as_str()));
        e.push(rexp);
        assert(g.deep_view() =~= og.push(replace_d_spec(parts@[0]@)));
        assert(c.deep_view() =~= oc.push(replace_d_spec(parts@[1]@)));
        j = j + 1;
    }
    Ok((g, c, e))
}

fn read_pots(b: &Vec<String>, start: usize, counts: &Vec<usize>, z: i32, elements: &mut Vec<(i32, BseBasisElement)>) -> (r: Result<usize, BseError>)
    requires
        keys_increasing(old(elements)@),
        counts@.len() == 5,
        start <= b@.len(),
    ensures
        match cry_pots(b.deep_view(), start as int, 0, counts@, z, elements_view(old(elements)@)) {
            Some((w, nx)) => r matches Ok(n) && n == nx && elements_view(final(elements)@) == w && keys_increasing(final(elements)@),
            None => r matches Err(e) && e is ValueError,
        },
{
    let ghost bv = b.deep_view();
    let ghost target = cry_pots(bv, start as int, 0, counts@, z, elements_view(elements@));
    let blen = b.len();
    let mut i = start;
    let mut am: usize = 0;
    while am < 5
        invariant
            am <= 5,
            i <= b@.len(),
            blen == b@.len(),
            counts@.len() == 5,
            bv == b.deep_view(),
            keys_increasing(elements@),
            target == cry_pots(bv, start as int, 0, counts@, z, elements_view(old(elements)@)),
            target == cry_pots(bv, i as int, am as int, counts@, z, elements_view(elements@)),
        decreases 5 - am,
    {
        let n = counts[am];
        if n > 0 {
            let (g, c, e) = match ecp_terms(b, i, n) {
                Ok(t) => t,
                Err(x) => {
                    return Err(x);
                },
            };
            assert(i + n <= b@.len());
            let next = i + n;
            let pot = BseEcpPotential {
                angular_momentum: vec![am as i32],
                coefficients: vec![c],
                ecp_type: "scalar_ecp".to_string(),
                r_exponents: e,
                gaussian_exponents: g,
            };
            proof {
                reveal_strlit("scalar_ecp");
                assert(pot@.am =~= seq![am as i32]);
                assert(pot@.coefficients =~= seq![c.deep_view()]);
                assert(pot@ == cry_potential(am as int, (g.deep_view(), c.deep_view(), e@)));
            }
            add_potential(elements, z, pot);
            i = next;
        }
        am = am + 1;
    }
    Ok(i)
}

fn term_counts(g: &Vec<String>) -> (r: Option<Vec<usize>>)
    requires
        g@.len() >= 7,
    ensures
        match r {
            Some(v) => counts_parse(g.deep_view()) && v@ == counts_of(g.deep_view()),
            None => !counts_parse(g.deep_view()),
        },
{
    let ghost gv = g.deep_view();
    let mut counts: Vec<usize> = Vec::new();
    let mut j: usize = 0;
    while j < 5
        invariant
            j <= 5,
            g@.len() >= 7,
            gv == g.deep_view(),
            counts@.len() == j,
            forall|q: int| 0 <= q < j ==> #[trigger] parse_usize_spec(gv[q + 2]) == Some(counts@[q]),
        decreases 5 - j,
    {
        assert(gv[j + 2] == g@[j + 2]@);
        match parse_usize(chars_of(g[j + 2].as_str()).as_slice()) {
            Some(v) => {
                counts.push(v);
            },
            None => {
                assert(!counts_parse(gv));
                return None;
            },
        }
        j = j + 1;
    }
    assert(counts_parse(gv));
    assert(counts_of(gv) =~= counts@);
    Some(counts)
}

fn read_ecp(b: &Vec<String>, z: i32, elements: &mut Vec<(i32, BseBasisElement)>) -> (r: Result<usize, BseError>)
    requires
        keys_increasing(old(elements)@),
    ensures
        match cry_ecp(b.deep_view(), z, elements_view(old(elements)@)) {
            Some((w, nx)) => r matches Ok(n) && n == nx && elements_view(final(elements)@) == w && keys_increasing(final(elements)@),
            None => r matches Err(e) && e is ValueError,
        },
{
    let ghost bv = b.deep_view();
    let mut k: usize = 1;
    proof {
        if bv.len() <= 1 {
            assert(input_from(bv, 1) == bv.len());
        }
    }
    while k < b.len() && !regex_is_match(CRYSTAL_INPUT_PATTERN, b[k].as_str())
        invariant
            1 <= k,
            k <= b@.len() || b@.len() <= 1,
            bv == b.deep_view(),
            input_from(bv, 1) == input_from(bv, k as int),
        decreases b.len() - k,
    {
        assert(bv[k as int] == b@[k as int]@);
        k = k + 1;
    }
    if k >= b.len() {
        return Ok(b.len());
    }
    assert(bv[k as int] == b@[k as int]@);
    assert(input_from(bv, 1) == k);
    if k + 1 >= b.len() {
        return Err(BseError::ValueError("Missing ECP descriptor".to_string()));
    }
    assert(bv[k + 1] == b@[k + 1]@);
    let g = parse_line_regex(CRYSTAL_ECP_PATTERN, b[k + 1].as_str(), "ECP descriptor")?;
    if g.len() < 7 {
        return Err(BseError::ValueError("ECP descriptor".to_string()));
    }
    let ghost gv = g.deep_view();
    assert(forall|j: int| 0 <= j < 7 ==> #[trigger] gv[j] == g@[j]@);
    let zeff = match parse_i32(chars_of(g[0].as_str()).as_slice()) {
        Some(v) => v,
        None => {
            return Err(BseError::ValueError("Invalid Zeff".to_string()));
        },
    };
    if parse_i32(chars_of(g[1].as_str()).as_slice()).is_none() {
        return Err(BseError::ValueError("Invalid number of scalar terms".to_string()));
    }
    let counts = match term_counts(&g) {
        Some(v) => v,
        None => {
            return Err(BseError::ValueError("Invalid number of ECP terms".to_string()));
        },
    };
    let core = match z.checked_sub(zeff) {
        Some(v) => v,
        None => {
            return Err(BseError::ValueError("Invalid Zeff".to_string()));
        },
    };
    set_core(elements, z, core);
    read_pots(b, k + 2, &counts, z, elements)
}

/// The rows of a matrix of primitives as a shell of shell code `lat`: the
/// first column as exponents, the next one or two (for `sp`) as
/// coefficients, with `d` read as `e` (see [`cry_shell`]).
pub fn crystal_shell(lat: i32, m: &Vec<Vec<String>>) -> (r: BseElectronShell)
    requires
        lat >= 0,
        forall|q: int| 0 <= q < m@.len() ==> (#[trigger] m@[q])@.len() == (if lat == 1 { 3int } else { 2int }),
    ensures
        r@ == cry_shell(lat, m.deep_view()),
{
    let ghost mv = m.deep_view();
    let mut c0: Vec<String> = Vec::new();
    let mut c1: Vec<String> = Vec::new();
    let mut c2: Vec<String> = Vec::new();
    let mut q: usize = 0;
    while q < m.len()
        invariant
            q <= m@.len(),
            mv == m.deep_view(),
            forall|p: int| 0 <= p < m@.len() ==> (#[trigger] m@[p])@.len() == (if lat == 1 { 3int } else { 2int }),
            c0.deep_view() == Seq::new(q as nat, |r: int| replace_d_spec(mv[r][0])),
            c1.deep_view() == Seq::new(q as nat, |r: int| replace_d_spec(mv[r][1])),
            lat == 1 ==> c2.deep_view() == Seq::new(q as nat, |r: int| replace_d_spec(mv[r][2])),
        decreases m.len() - q,
    {
        assert(mv[q as int] == m@[q as int].deep_view());
        assert(mv[q as int][0] == m@[q as int]@[0]@ && mv[q as int][1] == m@[q as int]@[1]@);
        let ghost (o0, o1, o2) = (c0.deep_view(), c1.deep_view(), c2.deep_view());
        c0.push(replace_d(m[q][0].as_str()));
        c1.push(replace_d(m[q][1].as_str()));
        assert(c0.deep_view() =~= o0.push(replace_d_spec(mv[q as int][0])));
        assert(c1.deep_view() =~= o1.push(replace_d_spec(mv[q as int][1])));
        if lat == 1 {
            assert(mv[q as int][2] == m@[q as int]@[2]@);
            c2.push(replace_d(m[q][2].as_str()));
            assert(c2.deep_view() =~= o2.push(replace_d_spec(mv[q as int][2])));
        }
        q = q + 1;
    }
    let am: Vec<i32> = if lat == 0 {
        vec![0]
    } else if lat == 1 {
        vec![0, 1]
    } else {
        vec![lat - 1]
    };
    let function_type = function_type_from_am(am.as_slice(), "gto", "spherical");
    let coefficients = if lat == 1 {
        vec![c1, c2]
    } else {
        vec![c1]
    };
    let sh = BseElectronShell { function_type, region: String::new(), angular_momentum: am, exponents: c0, coefficients };
    proof {
        reveal_strlit("gto");
        reveal_strlit("spherical");
        assert(sh@.region =~= Seq::<char>::empty());
        assert(sh@.am =~= lat_am(lat));
        assert(sh@.coefficients =~= cry_shell(lat, mv).coefficients);
    }
    sh
}

fn read_shells(b: &Vec<String>, start: usize, count: usize, z: i32, elements: &mut Vec<(i32, BseBasisElement)>) -> (r: Result<(), BseError>)
    requires
        keys_increasing(old(elements)@),
    ensures
        match cry_shells(b.deep_view(), start as int, count as nat, z, elements_view(old(elements)@)) {
            Some(w) => r is Ok && elements_view(final(elements)@) == w && keys_increasing(final(elements)@),
            None => r matches Err(e) && e is ValueError,
        },
{
    let ghost bv = b.deep_view();
    let ghost target = cry_shells(bv, start as int, count as nat, z, elements_view(elements@));
    let mut i = start;
    let mut k = count;
    while k > 0 && i < b.len()
        invariant
            bv == b.deep_view(),
            keys_increasing(elements@),
            target == cry_shells(bv, start as int, count as nat, z, elements_view(old(elements)@)),
            target == cry_shells(bv, i as int, k as nat, z, elements_view(elements@)),
        decreases k,
    {
        assert(bv[i as int] == b@[i as int]@);
        if regex_is_match(CRYSTAL_INPUT_PATTERN, b[i].as_str()) {
            i = i + 1;
            k = k - 1;
            continue;
        }
        let g = parse_line_regex(CRYSTAL_SHELL_PATTERN, b[i].as_str(), "Shell descriptor")?;
        if g.len() < 5 {
            return Err(BseError::ValueError("Shell descriptor".to_string()));
        }
        let ghost gv = g.deep_view();
        assert(forall|j: int| 0 <= j < 5 ==> #[trigger] gv[j] == g@[j]@);
        if parse_i32(chars_of(g[0].as_str()).as_slice()).is_none() {
            return Err(BseError::ValueError("Invalid shell type".to_string()));
        }
        let lat = match parse_i32(chars_of(g[1].as_str()).as_slice()) {
            Some(v) => v,
            None => {
                return Err(BseError::ValueError("Invalid shell code".to_string()));
            },
        };
        let nprim = match parse_usize(chars_of(g[2].as_str()).as_slice()) {
            Some(v) => v,
            None => {
                return Err(BseError::ValueError("Invalid nprim".to_string()));
            },
        };
        if parse_i32(chars_of(g[3].as_str()).as_slice()).is_none() {
            return Err(BseError::ValueError("Invalid shell charge".to_string()));
        }
        if !parses_as_f64(g[4].as_str()) {
            return Err(BseError::ValueError("Invalid scale factor".to_string()));
        }
        if lat < 0 {
            return Err(BseError::ValueError("Invalid shell code".to_string()));
        }
        let ncol: usize = if lat == 1 {
            3
        } else {
            2
        };
        if nprim > b.len() - (i + 1) {
            return Err(BseError::ValueError("Too few primitive lines".to_string()));
        }
        let prim = line_range(b, i + 1, i + 1 + nprim);
        let m = parse_matrix(prim.as_slice(), Some(nprim), Some(ncol))?;
        proof {
            let mm = m.deep_view();
            assert forall|q: int| 0 <= q < m@.len() implies (#[trigger] m@[q])@.len() == (if lat == 1 { 3int } else { 2int }) by {
                assert(mm[q] == m@[q].deep_view());
                assert(mm[q].len() == mm[0].len());
            }
        }
        let sh = crystal_shell(lat, &m);
        add_shell(elements, z, sh);
        i = i + 1 + nprim;
        k = k - 1;
    }
    Ok(())
}

fn read_block(b: &Vec<String>, elements: &mut Vec<(i32, BseBasisElement)>) -> (r: Result<(), BseError>)
    requires
        keys_increasing(old(elements)@),
        b@.len() >= 2,
    ensures
        match cry_block(b.deep_view(), elements_view(old(elements)@)) {
            Some(w) => r is Ok && elements_view(final(elements)@) == w && keys_increasing(final(elements)@),
            None => r matches Err(e) && e is ValueError,
        },
{
    assert(b.deep_view()[0] == b@[0]@);
    let g = parse_line_regex(CRYSTAL_ELEMENT_PATTERN, b[0].as_str(), "Element block")?;
    if g.len() < 2 {
        return Err(BseError::ValueError("Element block".to_string()));
    }
    assert(g.deep_view()[0] == g@[0]@ && g.deep_view()[1] == g@[1]@);
    let num = match parse_i32(chars_of(g[0].as_str()).as_slice()) {
        Some(v) => v,
        None => {
            return Err(BseError::ValueError("Invalid element number".to_string()));
        },
    };
    let nshells = match parse_usize(chars_of(g[1].as_str()).as_slice()) {
        Some(v) => v,
        None => {
            return Err(BseError::ValueError("Invalid number of shells".to_string()));
        },
    };
    if num >= 200 {
        let z = num - 200;
        let i = read_ecp(b, z, elements)?;
        read_shells(b, i, nshells, z, elements)
    } else {
        read_shells(b, 1, nshells, num, elements)
    }
}

/// Read a basis set in the CRYSTAL format: for each element block (before
/// the end line), its potential, when its number is 200 or more, then its
/// shells (`s`, `sp`, `p`, `d`, ... by shell code), each added at the end
/// of its element's shells or potentials. A `ValueError` comes when the
/// text does not parse (see [`crystal_spec`]).
pub fn read_crystal(basis_str: &str) -> (r: Result<BseBasisMinimal, BseError>)
    ensures
        match crystal_spec(basis_str@) {
            Some(elems) => r matches Ok(b) && elements_view(b.elements@) == elems && keys_increasing(b.elements@)
                && b.function_types.deep_view() == sort_distinct_strs(shell_types(elems))
                && b.name@ == reader_name(None) && b.description@ == "no_description"@
                && b.molssi_bse_schema.schema_type@ == "minimal"@ && b.molssi_bse_schema.schema_version@ == "0.1"@,
            None => r matches Err(e) && e is ValueError,
        },
{
    let raw = trimmed_lines(basis_str);
    let lines = prune_lines(raw.as_slice(), "*!#", true, true);
    let mut elements: Vec<(i32, BseBasisElement)> = Vec::new();
    proof {
        assert(elements_view(elements@) =~= Seq::<(i32, ElementV)>::empty());
    }
    if lines.len() == 0 {
        return Ok(reader_basis(elements, None));
    }
    let flags = block_flag_lines(&lines);
    let blocks = partition_lines(lines.as_slice(), flags.as_slice(), 0, None, None, None, 1, true)?;
    let ghost bv = blocks.deep_view();
    proof {
        assert(crystal_spec(basis_str@) == cry_blocks(bv, bv.len() as int));
    }
    let mut i: usize = 0;
    while i < blocks.len()
        invariant
            i <= blocks@.len(),
            bv == blocks.deep_view(),
            crystal_spec(basis_str@) == cry_blocks(bv, bv.len() as int),
            keys_increasing(elements@),
            cry_blocks(bv, i as int) == Some(elements_view(elements@)),
        decreases blocks.len() - i,
    {
        assert(bv[i as int] == blocks@[i as int].deep_view());
        if !holds_end(&blocks[i]) && blocks[i].len() >= 2 {
            match read_block(&blocks[i], &mut elements) {
                Ok(()) => {},
                Err(e) => {
                    proof {
                        assert(cry_blocks(bv, i + 1) is None);
                        lemma_blocks_none(bv, i + 1, bv.len() as int);
                    }
                    return Err(e);
                },
            }
        }
        i = i + 1;
    }
    Ok(reader_basis(elements, None))
}

/* #endregion */

} // verus!
