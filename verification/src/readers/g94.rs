//! Reading basis sets in the Gaussian94 format.
//!
//! Elements are blocks opened by a line `symbol 0` (a leading `-` on the
//! symbol is allowed). An electron block holds shells, each a line
//! `letters nprim scale` (or `L=l nprim scale`) followed by a line per
//! primitive, and ends with `****`. A potential block gives
//! `name max_am ncore`, then per potential a comment line, its number of
//! terms and a line per term (power, exponent, coefficient).
//!
//! The scale factors of the shells are floating-point numbers, which this
//! library does not compute with: reading gives each shell's scale text
//! along with the basis set, for the caller to apply.
use crate::error::BseError;
use crate::fields::{BseBasisElement, BseBasisMinimal, BseEcpPotential, BseElectronShell, BseMolssiBseSchema, ElementV, PotentialV, ShellV, elements_view, keys_increasing};
use crate::compose::shell_types;
use crate::lut::{amchar_to_int, amchar_to_int_spec, element_Z_from_sym, function_type_from_am, function_type_spec, sym_search};
use crate::compose::lemma_count_key_split;
use crate::readers::helpers::{
    add_potential, add_shell, alpha_flag_lines, alpha_flags, ecp_table_spec, entry_of, entry_slot, groups_text,
    is_integer, is_integer_spec, lines_from, parse_ecp_table, parse_line_regex, parse_primitive_matrix, partition_lines,
    partition_spec, primitive_matrix_spec, prune_lines, prune_lines_spec, push_potential, push_shell, put_entry,
    reader_basis, regex_captures_of, regex_is_match, text_lines, trimmed_lines, with_core, with_entry, entry_index,
};
use crate::text::{chars_of, lowercase_of, parse_i32, parse_i32_spec, parse_usize, parse_usize_spec, sort_distinct_strs, split_ws, ws_tokens};
use vstd::prelude::*;

verus! {

/// A line that opens an element block.
pub const G94_ELEMENT_PATTERN: &'static str = r"^-?([A-Za-z]{1,3})(?:\s+0)?$";

/// The second line of a potential block: name, highest angular momentum,
/// core electrons.
pub const G94_ECP_AM_NELEC_PATTERN: &'static str = r"^\S+\s+(\d+)\s+(\d+)$";

/// A shell line: letters, number of primitives, scale factors.
pub const G94_AM_LINE_PATTERN: &'static str = r"^([A-Za-z]+)\s+(\d+)((?:\s+[-+]?\d*\.\d*(?:[dDeE][-+]?\d+)?)+)$";

/// A shell line with an explicit angular momentum.
pub const G94_EXPLICIT_AM_LINE_PATTERN: &'static str = r"^\s*L=(\d+)\s+(\d+)((?:\s+[-+]?\d*\.\d*(?:[dDeE][-+]?\d+)?)+)$";

/// The scale text of one shell: the element, the position of the shell
/// among the element's shells, and the text of its scale factors.
pub struct G94Scale {
    pub z: i32,
    pub shell: usize,
    pub factors: String,
}

/* #region specification */

/// Which lines open an element block.
pub open spec fn g94_element_flags(lines: Seq<Seq<char>>) -> Seq<bool> {
    Seq::new(lines.len(), |i: int| regex_captures_of(G94_ELEMENT_PATTERN@, lines[i]) is Some)
}

/// Which lines are 32-bit integers.
pub open spec fn integer_flags(lines: Seq<Seq<char>>) -> Seq<bool> {
    Seq::new(lines.len(), |i: int| is_integer_spec(lines[i]))
}

/// A text without its leading dashes.
pub open spec fn strip_dashes(t: Seq<char>) -> Seq<char>
    decreases t.len(),
{
    if t.len() > 0 && t[0] == '-' {
        strip_dashes(t.drop_first())
    } else {
        t
    }
}

/// The angular momentum, number of primitives and scale text of a shell
/// line (letters in the order with `j`, or `L=` and a number).
pub open spec fn g94_shell_head(line: Seq<char>) -> Option<(Seq<i32>, Seq<char>, Seq<char>)> {
    match regex_captures_of(G94_AM_LINE_PATTERN@, line) {
        Some(caps) => {
            let g = groups_text(caps);
            if g.len() < 3 {
                None
            } else {
                match amchar_to_int_spec(lowercase_of(g[0]), true) {
                    Some(am) => Some((am, g[1], g[2])),
                    None => None,
                }
            }
        },
        None => match regex_captures_of(G94_EXPLICIT_AM_LINE_PATTERN@, line) {
            Some(caps) => {
                let g = groups_text(caps);
                if g.len() < 3 {
                    None
                } else {
                    match parse_i32_spec(g[0]) {
                        Some(l) => Some((seq![l], g[1], g[2])),
                        None => None,
                    }
                }
            },
            None => None,
        },
    }
}

/// A shell from its block: its opening line and its primitive lines, with
/// one contraction per angular momentum; and its scale text.
pub open spec fn g94_shell_spec(b: Seq<Seq<char>>) -> Option<(ShellV, Seq<char>)> {
    match g94_shell_head(b[0]) {
        None => None,
        Some((am, np, sc)) => if am.len() == 0 {
            None
        } else {
            match parse_usize_spec(np) {
                None => None,
                Some(nprim) => match primitive_matrix_spec(b.skip(1), Some(nprim), Some(am.len() as usize)) {
                    None => None,
                    Some((e, c)) => Some(
                        (
                            ShellV {
                                function_type: function_type_spec(am, "gto"@, "spherical"@),
                                region: Seq::empty(),
                                am,
                                exponents: e,
                                coefficients: c,
                            },
                            sc,
                        ),
                    ),
                },
            }
        },
    }
}

/// The number of shells of an element.
pub open spec fn shell_count(e: ElementV) -> nat {
    match e.shells {
        Some(s) => s.len(),
        None => 0,
    }
}

/// A scale record: element, position of the shell, scale text.
pub type ScaleV = (i32, nat, Seq<char>);

/// The element map and scale records after the first `n` shell blocks of
/// element `z`.
pub open spec fn g94_shells(blocks: Seq<Seq<Seq<char>>>, z: i32, st: (Seq<(i32, ElementV)>, Seq<ScaleV>), n: int) -> Option<(Seq<(i32, ElementV)>, Seq<ScaleV>)>
    decreases n,
{
    if n <= 0 {
        Some(st)
    } else {
        match g94_shells(blocks, z, st, n - 1) {
            Some((w, recs)) => match g94_shell_spec(blocks[n - 1]) {
                Some((sh, sc)) => Some(
                    (put_entry(w, z, push_shell(entry_of(w, z), sh)), recs.push((z, shell_count(entry_of(w, z)), sc))),
                ),
                None => None,
            },
            None => None,
        }
    }
}

/// The element map and scale records after an electron block: it must have
/// two lines or more and end with `****`; its first token names the element (leading dashes
/// dropped); the lines between are cut into shells at the lines starting
/// with a letter.
pub open spec fn g94_electron(es: Seq<Seq<char>>, st: (Seq<(i32, ElementV)>, Seq<ScaleV>)) -> Option<(Seq<(i32, ElementV)>, Seq<ScaleV>)> {
    if es.len() < 2 || es.last() != "****"@ || ws_tokens(es[0]).len() == 0 {
        None
    } else {
        match sym_search(lowercase_of(strip_dashes(ws_tokens(es[0])[0])), 1) {
            None => None,
            Some(z) => {
                let inner = es.subrange(1, es.len() - 1);
                match partition_spec(inner, alpha_flags(inner), 0, None, None, None, 1, true) {
                    None => None,
                    Some(blocks) => g94_shells(blocks, z, st, blocks.len() as int),
                }
            },
        }
    }
}

/// The column order of a potential table: power, exponent, coefficient.
pub open spec fn g94_order() -> Seq<Seq<char>> {
    seq!["r_exp"@, "g_exp"@, "coeff"@]
}

/// A potential from its block: a comment line, the number of terms (which
/// must be positive and match the lines), then the terms; its angular
/// momentum is set later.
pub open spec fn g94_potential(p: Seq<Seq<char>>) -> Option<PotentialV> {
    if p.len() < 2 {
        None
    } else {
        match parse_i32_spec(p[1]) {
            None => None,
            Some(nlines) => if nlines <= 0 || p.len() != nlines + 2 {
                None
            } else {
                match ecp_table_spec(p.skip(2), g94_order()) {
                    Some((r, e, c)) => Some(
                        PotentialV { am: Seq::empty(), coefficients: seq![c], ecp_type: "scalar_ecp"@, r_exponents: r, gaussian_exponents: e },
                    ),
                    None => None,
                }
            },
        }
    }
}

/// The element map after the first `n` potential blocks of element `z`.
pub open spec fn g94_potentials(blocks: Seq<Seq<Seq<char>>>, z: i32, v: Seq<(i32, ElementV)>, n: int) -> Option<Seq<(i32, ElementV)>>
    decreases n,
{
    if n <= 0 {
        Some(v)
    } else {
        match g94_potentials(blocks, z, v, n - 1) {
            Some(w) => match g94_potential(blocks[n - 1]) {
                Some(p) => Some(put_entry(w, z, push_potential(entry_of(w, z), p))),
                None => None,
            },
            None => None,
        }
    }
}

/// The angular momenta of the potentials of an element of highest angular
/// momentum `max_am`: `max_am` first, then 0, 1, and so on.
pub open spec fn potential_am_list(max_am: i32) -> Seq<i32> {
    if max_am <= 0 {
        seq![max_am]
    } else {
        seq![max_am] + Seq::new(max_am as nat, |i: int| i as i32)
    }
}

/// An element whose potentials get the given angular momenta in turn, and
/// the given core electrons.
pub open spec fn set_potential_am(e: ElementV, ams: Seq<i32>, ncore: i32) -> ElementV {
    ElementV {
        potentials: Some(Seq::new(e.potentials->0.len(), |i: int| PotentialV { am: seq![ams[i]], ..e.potentials->0[i] })),
        ecp_electrons: Some(ncore),
        ..e
    }
}

/// The potentials of element `z` get the angular momenta of
/// [`potential_am_list`] in turn, and the element its core electrons;
/// `None` when it has no potentials or not as many.
pub open spec fn finish_spec(w: Seq<(i32, ElementV)>, z: i32, max_am: i32, ncore: i32) -> Option<Seq<(i32, ElementV)>> {
    let e = entry_of(w, z);
    let ams = potential_am_list(max_am);
    if !crate::compose::has_key(w, z) || e.potentials is None || ams.len() != e.potentials->0.len() {
        None
    } else {
        Some(put_entry(w, z, set_potential_am(e, ams, ncore)))
    }
}

/// The element map after a potential block: its first token names the
/// element; the second line gives the highest angular momentum and the core
/// electrons; the other lines are cut into potentials before each line that
/// is an integer. The element's potentials (all of them) then get their
/// angular momenta, which must be as many.
pub open spec fn g94_ecp(es: Seq<Seq<char>>, w: Seq<(i32, ElementV)>) -> Option<Seq<(i32, ElementV)>> {
    if es.len() < 2 || ws_tokens(es[0]).len() == 0 {
        None
    } else {
        match (sym_search(lowercase_of(ws_tokens(es[0])[0]), 1), regex_captures_of(G94_ECP_AM_NELEC_PATTERN@, es[1])) {
            (Some(z), Some(caps)) => {
                let g = groups_text(caps);
                if g.len() < 2 || parse_i32_spec(g[0]) is None || parse_i32_spec(g[1]) is None {
                    None
                } else {
                    let max_am = parse_i32_spec(g[0])->0;
                    let ncore = parse_i32_spec(g[1])->0;
                    let rest = es.skip(2);
                    match partition_spec(rest, integer_flags(rest), 1, None, None, None, 1, true) {
                        None => None,
                        Some(blocks) => match g94_potentials(blocks, z, w, blocks.len() as int) {
                            None => None,
                            Some(w2) => finish_spec(w2, z, max_am, ncore),
                        },
                    }
                }
            },
            _ => None,
        }
    }
}

/// The element map and scale records after one element block: a potential
/// block when it has more than three lines and the fourth is an integer,
/// an electron block otherwise.
pub open spec fn g94_section(s: Seq<Seq<char>>, st: (Seq<(i32, ElementV)>, Seq<ScaleV>)) -> Option<(Seq<(i32, ElementV)>, Seq<ScaleV>)> {
    if s.len() > 3 && is_integer_spec(s[3]) {
        match g94_ecp(s, st.0) {
            Some(w) => Some((w, st.1)),
            None => None,
        }
    } else {
        g94_electron(s, st)
    }
}

/// The element map and scale records after the first `n` element blocks.
pub open spec fn g94_sections(secs: Seq<Seq<Seq<char>>>, n: int) -> Option<(Seq<(i32, ElementV)>, Seq<ScaleV>)>
    decreases n,
{
    if n <= 0 {
        Some((Seq::empty(), Seq::empty()))
    } else {
        match g94_sections(secs, n - 1) {
            Some(st) => g94_section(secs[n - 1], st),
            None => None,
        }
    }
}

/// The lines of a Gaussian94 text that are read: trimmed, without comments
/// (`!`) and blank lines.
pub open spec fn g94_lines(text: Seq<char>) -> Seq<Seq<char>> {
    prune_lines_spec(text_lines(text), "!"@, true, true)
}

/// What a Gaussian94 text holds: its lines cut into element blocks of at
/// least three lines; the elements and the scale records of the shells, or
/// `None` when the text does not parse.
pub open spec fn g94_spec(text: Seq<char>) -> Option<(Seq<(i32, ElementV)>, Seq<ScaleV>)> {
    let lines = g94_lines(text);
    match partition_spec(lines, g94_element_flags(lines), 0, None, None, None, 3, true) {
        None => None,
        Some(secs) => g94_sections(secs, secs.len() as int),
    }
}

/* #endregion */

/* #region reading */

/// The scale records of a list of scale texts.
pub open spec fn scales_view(v: Seq<G94Scale>) -> Seq<ScaleV> {
    v.map_values(|s: G94Scale| (s.z, s.shell as nat, s.factors@))
}

proof fn lemma_strip_dashes(t: Seq<char>, k: int)
    requires
        0 <= k <= t.len(),
        forall|i: int| 0 <= i < k ==> t[i] == '-',
        k == t.len() || t[k] != '-',
    ensures
        strip_dashes(t) == t.skip(k),
    decreases k,
{
    if k > 0 {
        lemma_strip_dashes(t.drop_first(), k - 1);
        assert(t.drop_first().skip(k - 1) =~= t.skip(k));
    } else {
        assert(t.skip(0) =~= t);
    }
}

fn without_dashes(t: &str) -> (r: String)
    ensures
        r@ == strip_dashes(t@),
{
    let c = chars_of(t);
    let mut k: usize = 0;
    while k < c.len() && c[k] == '-'
        invariant
            k <= c@.len(),
            c@ == t@,
            forall|i: int| 0 <= i < k ==> c@[i] == '-',
        decreases c.len() - k,
    {
        k = k + 1;
    }
    proof {
        lemma_strip_dashes(t@, k as int);
    }
    let mut out: Vec<char> = Vec::new();
    let mut q: usize = k;
    while q < c.len()
        invariant
            k <= q <= c@.len(),
            out@ == c@.subrange(k as int, q as int),
        decreases c.len() - q,
    {
        out.push(c[q]);
        q = q + 1;
    }
    assert(out@ =~= t@.skip(k as int));
    crate::text::string_of(out.as_slice())
}

fn shell_head(line: &str) -> (r: Result<(Vec<i32>, String, String), BseError>)
    ensures
        match g94_shell_head(line@) {
            Some((am, np, sc)) => r matches Ok((a, b, c)) && a@ == am && b@ == np && c@ == sc,
            None => r matches Err(e) && e is ValueError,
        },
{
    if regex_is_match(G94_AM_LINE_PATTERN, line) {
        let g = parse_line_regex(G94_AM_LINE_PATTERN, line, "Shell AM, nprim, scaling")?;
        if g.len() < 3 {
            return Err(BseError::ValueError("Shell AM, nprim, scaling".to_string()));
        }
        assert(g.deep_view()[0] == g@[0]@ && g.deep_view()[1] == g@[1]@ && g.deep_view()[2] == g@[2]@);
        match amchar_to_int(g[0].as_str(), true) {
            Some(am) => Ok((am, g[1].clone(), g[2].clone())),
            None => Err(BseError::ValueError("Unknown angular momentum".to_string())),
        }
    } else {
        let g = parse_line_regex(G94_EXPLICIT_AM_LINE_PATTERN, line, "Shell AM, nprim, scaling")?;
        if g.len() < 3 {
            return Err(BseError::ValueError("Shell AM, nprim, scaling".to_string()));
        }
        assert(g.deep_view()[0] == g@[0]@ && g.deep_view()[1] == g@[1]@ && g.deep_view()[2] == g@[2]@);
        match parse_i32(chars_of(g[0].as_str()).as_slice()) {
            Some(l) => {
                let am = vec![l];
                assert(am@ =~= seq![l]);
                Ok((am, g[1].clone(), g[2].clone()))
            },
            None => Err(BseError::ValueError("Invalid angular momentum".to_string())),
        }
    }
}

/// A shell from its block (its opening line, then a line per primitive),
/// with one contraction per angular momentum, and the text of its scale
/// factors; a `ValueError` when the opening line does not match or the
/// primitives do not parse (see [`g94_shell_spec`]).
pub fn g94_shell(b: &Vec<String>) -> (r: Result<(BseElectronShell, String), BseError>)
    requires
        b@.len() >= 1,
    ensures
        match g94_shell_spec(b.deep_view()) {
            Some((sh, sc)) => r matches Ok((a, t)) && a@ == sh && t@ == sc,
            None => r matches Err(e) && e is ValueError,
        },
{
    assert(b.deep_view()[0] == b@[0]@);
    let (am, np, sc) = shell_head(b[0].as_str())?;
    if am.len() == 0 {
        return Err(BseError::ValueError("Unknown angular momentum".to_string()));
    }
    let func_type = function_type_from_am(am.as_slice(), "gto", "spherical");
    let nprim = match parse_usize(chars_of(np.as_str()).as_slice()) {
        Some(n) => n,
        None => {
            return Err(BseError::ValueError("Invalid nprim value".to_string()));
        },
    };
    let data = lines_from(b.as_slice(), 1);
    let (exponents, coefficients) = parse_primitive_matrix(data.as_slice(), Some(nprim), Some(am.len()))?;
    let sh = BseElectronShell { function_type: func_type, region: String::new(), angular_momentum: am, exponents, coefficients };
    proof {
        reveal_strlit("gto");
        reveal_strlit("spherical");
        assert(sh@.region =~= Seq::<char>::empty());
    }
    Ok((sh, sc))
}

/// The position of element `z` in an element map, if it has one.
fn find_element(v: &Vec<(i32, BseBasisElement)>, z: i32) -> (r: Option<usize>)
    requires
        keys_increasing(v@),
    ensures
        match r {
            Some(k) => k < v@.len() && v@[k as int].0 == z && crate::compose::has_key(elements_view(v@), z)
                && entry_of(elements_view(v@), z) == v@[k as int].1@ && entry_index(elements_view(v@), z) == k,
            None => !crate::compose::has_key(elements_view(v@), z) && entry_of(elements_view(v@), z) == crate::compose::empty_element(),
        },
{
    let ghost ev = elements_view(v@);
    assert(forall|j: int| 0 <= j < v@.len() ==> #[trigger] ev[j].0 == v@[j].0);
    let mut k: usize = 0;
    while k < v.len()
        invariant
            k <= v@.len(),
            ev == elements_view(v@),
            keys_increasing(v@),
            forall|j: int| 0 <= j < v@.len() ==> #[trigger] ev[j].0 == v@[j].0,
            forall|j: int| 0 <= j < k ==> v@[j].0 != z,
        decreases v.len() - k,
    {
        if v[k].0 == z {
            assert(ev[k as int].0 == z);
            assert(crate::compose::has_key(ev, z));
            let ghost ki = crate::compose::key_index(ev, z);
            assert(ki == k) by {
                if ki < k {
                    assert(v@[ki].0 != z);
                } else if ki > k {
                    assert(v@[k as int].0 < v@[ki].0);
                }
            }
            return Some(k);
        }
        k = k + 1;
    }
    assert(!crate::compose::has_key(ev, z)) by {
        if crate::compose::has_key(ev, z) {
            let j = choose|j: int| 0 <= j < ev.len() && (#[trigger] ev[j]).0 == z;
            assert(v@[j].0 != z);
        }
    }
    proof {
        lemma_count_key(ev, z);
    }
    None
}

proof fn lemma_count_key(ev: Seq<(i32, ElementV)>, z: i32)
    requires
        keys_increasing(ev),
        !crate::compose::has_key(ev, z),
    ensures
        entry_of(ev, z) == crate::compose::empty_element(),
{
    crate::compose::lemma_count_key_split(ev, z);
    let c = crate::compose::count_key_lt(ev, z) as int;
    let w = with_entry(ev, z);
    assert(w[c] == (z, crate::compose::empty_element()));
}

/// The number of shells of element `z` in an element map.
fn shells_of(v: &Vec<(i32, BseBasisElement)>, z: i32) -> (r: usize)
    requires
        keys_increasing(v@),
    ensures
        r as nat == shell_count(entry_of(elements_view(v@), z)),
{
    match find_element(v, z) {
        Some(k) => match &v[k].1.electron_shells {
            Some(s) => s.len(),
            None => 0,
        },
        None => 0,
    }
}

proof fn lemma_shells_none(blocks: Seq<Seq<Seq<char>>>, z: i32, st: (Seq<(i32, ElementV)>, Seq<ScaleV>), k: int, n: int)
    requires
        0 <= k <= n,
        g94_shells(blocks, z, st, k) is None,
    ensures
        g94_shells(blocks, z, st, n) is None,
    decreases n - k,
{
    if k < n {
        lemma_shells_none(blocks, z, st, k + 1, n);
    }
}

#[verifier::rlimit(40)]
fn read_electron(
    es: &Vec<String>,
    elements: &mut Vec<(i32, BseBasisElement)>,
    scales: &mut Vec<G94Scale>,
) -> (r: Result<(), BseError>)
    requires
        keys_increasing(old(elements)@),
    ensures
        match g94_electron(es.deep_view(), (elements_view(old(elements)@), scales_view(old(scales)@))) {
            Some((w, recs)) => r is Ok && elements_view(final(elements)@) == w && keys_increasing(final(elements)@)
                && scales_view(final(scales)@) == recs,
            None => r matches Err(e) && e is ValueError,
        },
{
    let ghost ev = es.deep_view();
    let n = es.len();
    if n < 2 {
        return Err(BseError::ValueError("Empty basis lines".to_string()));
    }
    assert(ev[0] == es@[0]@ && ev.last() == es@[n - 1]@);
    if !crate::text::chars_eq(chars_of(es[n - 1].as_str()).as_slice(), chars_of("****").as_slice()) {
        return Err(BseError::ValueError("Electron shell is missing terminating ****".to_string()));
    }
    let toks = split_ws(es[0].as_str());
    if toks.len() == 0 {
        return Err(BseError::ValueError("Invalid element line".to_string()));
    }
    assert(toks.deep_view()[0] == toks@[0]@);
    let sym = without_dashes(toks[0].as_str());
    let z = match element_Z_from_sym(sym.as_str()) {
        Some(z) => z,
        None => {
            return Err(BseError::ValueError("Unknown element symbol".to_string()));
        },
    };
    let mut inner: Vec<String> = Vec::new();
    let mut q: usize = 1;
    while q < n - 1
        invariant
            1 <= q <= n - 1,
            n == es@.len(),
            ev == es.deep_view(),
            inner.deep_view() == ev.subrange(1, q as int),
        decreases n - q,
    {
        let ghost before = inner.deep_view();
        assert(ev[q as int] == es@[q as int]@);
        inner.push(es[q].clone());
        assert(inner.deep_view() =~= before.push(ev[q as int]));
        assert(inner.deep_view() =~= ev.subrange(1, q + 1));
        q = q + 1;
    }
    assert(inner.deep_view() =~= ev.subrange(1, ev.len() - 1));
    let flags = alpha_flag_lines(&inner);
    let blocks = partition_lines(inner.as_slice(), flags.as_slice(), 0, None, None, None, 1, true)?;
    let ghost bv = blocks.deep_view();
    let ghost st0 = (elements_view(elements@), scales_view(scales@));
    proof {
        assert forall|k: int| 0 <= k < bv.len() implies #[trigger] bv[k].len() >= 1 by {
            if bv[k].len() < 1 {
                assert(crate::readers::helpers::has_short_block(bv, 1));
            }
        }
    }
    let mut i: usize = 0;
    while i < blocks.len()
        invariant
            i <= blocks@.len(),
            bv == blocks.deep_view(),
            st0 == (elements_view(old(elements)@), scales_view(old(scales)@)),
            g94_electron(es.deep_view(), st0) == g94_shells(bv, z, st0, bv.len() as int),
            forall|k: int| 0 <= k < bv.len() ==> #[trigger] bv[k].len() >= 1,
            keys_increasing(elements@),
            g94_shells(bv, z, st0, i as int) == Some((elements_view(elements@), scales_view(scales@))),
        decreases blocks.len() - i,
    {
        assert(bv[i as int] == blocks@[i as int].deep_view());
        assert(bv[i as int].len() >= 1);
        match g94_shell(&blocks[i]) {
            Ok((sh, sc)) => {
                let count = shells_of(elements, z);
                let ghost before = scales_view(scales@);
                scales.push(G94Scale { z, shell: count, factors: sc });
                assert(scales_view(scales@) =~= before.push((z, count as nat, scales@[scales@.len() - 1].factors@)));
                add_shell(elements, z, sh);
            },
            Err(e) => {
                proof {
                    assert(g94_shells(bv, z, st0, i + 1) is None);
                    lemma_shells_none(bv, z, st0, i + 1, bv.len() as int);
                }
                return Err(e);
            },
        }
        i = i + 1;
    }
    Ok(())
}

/* #endregion */

/* #region reading potentials */

proof fn lemma_potentials_none(blocks: Seq<Seq<Seq<char>>>, z: i32, v: Seq<(i32, ElementV)>, k: int, n: int)
    requires
        0 <= k <= n,
        g94_potentials(blocks, z, v, k) is None,
    ensures
        g94_potentials(blocks, z, v, n) is None,
    decreases n - k,
{
    if k < n {
        lemma_potentials_none(blocks, z, v, k + 1, n);
    }
}

/// A potential from its block: a comment line, the number of terms, then a
/// line per term (see [`g94_potential`]); its angular momentum is left
/// empty.
pub fn g94_potential_exec(p: &Vec<String>) -> (r: Result<BseEcpPotential, BseError>)
    ensures
        match g94_potential(p.deep_view()) {
            Some(pot) => r matches Ok(a) && a@ == pot,
            None => r matches Err(e) && e is ValueError,
        },
{
    if p.len() < 2 {
        return Err(BseError::ValueError("Number of lines for potential is missing".to_string()));
    }
    assert(p.deep_view()[1] == p@[1]@);
    let nlines = match parse_i32(chars_of(p[1].as_str()).as_slice()) {
        Some(n) => n,
        None => {
            return Err(BseError::ValueError("Number of lines for potential is not an integer".to_string()));
        },
    };
    if nlines <= 0 {
        return Err(BseError::ValueError("Number of lines for potential is <= 0".to_string()));
    }
    if p.len() - 2 != nlines as usize {
        return Err(BseError::ValueError("Number of lines is incorrect".to_string()));
    }
    let data = lines_from(p.as_slice(), 2);
    let order: [&str; 3] = ["r_exp", "g_exp", "coeff"];
    proof {
        assert(crate::formats::strs_view(order@) =~= g94_order());
    }
    let t = parse_ecp_table(data.as_slice(), &order)?;
    let pot = BseEcpPotential {
        angular_momentum: Vec::new(),
        coefficients: t.coeff,
        ecp_type: "scalar_ecp".to_string(),
        r_exponents: t.r_exp,
        gaussian_exponents: t.g_exp,
    };
    proof {
        assert(pot@.am =~= Seq::<i32>::empty());
    }
    Ok(pot)
}

/// Give the potentials of element `z` the angular momenta of
/// `potential_am_list(max_am)` and set its core electrons; a `ValueError`
/// when the element has no potentials or not as many.
fn finish_potentials(v: &mut Vec<(i32, BseBasisElement)>, z: i32, max_am: i32, ncore: i32) -> (r: Result<(), BseError>)
    requires
        keys_increasing(old(v)@),
    ensures
        match finish_spec(elements_view(old(v)@), z, max_am, ncore) {
            Some(w2) => r is Ok && elements_view(final(v)@) == w2 && keys_increasing(final(v)@),
            None => r matches Err(err) && err is ValueError,
        },
{
    let ghost w = elements_view(v@);
    let k = match find_element(v, z) {
        Some(k) => k,
        None => {
            return Err(BseError::ValueError("Element has no potentials".to_string()));
        },
    };
    let count: u64 = if max_am <= 0 {
        1
    } else {
        max_am as u64 + 1
    };
    let ghost ams = potential_am_list(max_am);
    assert(ams.len() == count);
    let ghost mid = v@;
    let (zz, mut e) = v.remove(k);
    let ghost e0 = e@;
    assert(e0 == entry_of(w, z));
    let ps = match e.ecp_potentials {
        Some(ps) => ps,
        None => {
            return Err(BseError::ValueError("Element has no potentials".to_string()));
        },
    };
    if ps.len() as u64 != count {
        return Err(BseError::ValueError("Found incorrect number of potentials".to_string()));
    }
    let ghost pv = crate::fields::pots_view(ps@);
    let mut fixed: Vec<BseEcpPotential> = Vec::new();
    let mut i: usize = 0;
    while i < ps.len()
        invariant
            i <= ps@.len(),
            ps@.len() == count,
            ams == potential_am_list(max_am),
            ams.len() == count,
            pv == crate::fields::pots_view(ps@),
            crate::fields::pots_view(fixed@) == Seq::new(i as nat, |j: int| PotentialV { am: seq![ams[j]], ..pv[j] }),
        decreases ps.len() - i,
    {
        let am: i32 = if i == 0 {
            max_am
        } else {
            (i - 1) as i32
        };
        assert(am == ams[i as int]);
        let mut p = ps[i].copy();
        assert(p@ == pv[i as int]);
        p.angular_momentum = vec![am];
        assert(p@.am =~= seq![ams[i as int]]);
        assert(p@ == PotentialV { am: seq![ams[i as int]], ..pv[i as int] });
        let ghost before = crate::fields::pots_view(fixed@);
        fixed.push(p);
        assert(crate::fields::pots_view(fixed@) =~= Seq::new((i + 1) as nat, |j: int| PotentialV { am: seq![ams[j]], ..pv[j] })) by {
            assert(crate::fields::pots_view(fixed@) =~= before.push(PotentialV { am: seq![ams[i as int]], ..pv[i as int] }));
        }
        i = i + 1;
    }
    e.ecp_potentials = Some(fixed);
    e.ecp_electrons = Some(ncore);
    assert(e@ == set_potential_am(e0, ams, ncore)) by {
        assert(e@.potentials->0 =~= set_potential_am(e0, ams, ncore).potentials->0);
    }
    v.insert(k, (zz, e));
    proof {
        assert(entry_index(w, z) == k);
        assert(with_entry(w, z) == w);
        assert(elements_view(v@) =~= put_entry(w, z, set_potential_am(e0, ams, ncore))) by {
            assert forall|j: int| 0 <= j < v@.len() implies #[trigger] elements_view(v@)[j] == put_entry(w, z, set_potential_am(e0, ams, ncore))[j] by {
                if j != k {
                    assert(v@[j] == mid[j]);
                }
            }
        }
        assert forall|i: int, j: int| 0 <= i < j < v@.len() implies v@[i].0 < v@[j].0 by {
            assert(v@[i].0 == mid[i].0 && v@[j].0 == mid[j].0);
        }
    }
    Ok(())
}

fn read_ecp(es: &Vec<String>, elements: &mut Vec<(i32, BseBasisElement)>) -> (r: Result<(), BseError>)
    requires
        keys_increasing(old(elements)@),
    ensures
        match g94_ecp(es.deep_view(), elements_view(old(elements)@)) {
            Some(w) => r is Ok && elements_view(final(elements)@) == w && keys_increasing(final(elements)@),
            None => r matches Err(e) && e is ValueError,
        },
{
    let ghost ev = es.deep_view();
    if es.len() < 2 {
        return Err(BseError::ValueError("ECP block too short".to_string()));
    }
    assert(ev[0] == es@[0]@ && ev[1] == es@[1]@);
    let toks = split_ws(es[0].as_str());
    if toks.len() == 0 {
        return Err(BseError::ValueError("Invalid element line".to_string()));
    }
    assert(toks.deep_view()[0] == toks@[0]@);
    let z = match element_Z_from_sym(toks[0].as_str()) {
        Some(z) => z,
        None => {
            return Err(BseError::ValueError("Unknown element symbol".to_string()));
        },
    };
    let g = parse_line_regex(G94_ECP_AM_NELEC_PATTERN, es[1].as_str(), "ECP max_am, nelec")?;
    if g.len() < 2 {
        return Err(BseError::ValueError("ECP max_am, nelec".to_string()));
    }
    assert(g.deep_view()[0] == g@[0]@ && g.deep_view()[1] == g@[1]@);
    let max_am = match parse_i32(chars_of(g[0].as_str()).as_slice()) {
        Some(n) => n,
        None => {
            return Err(BseError::ValueError("Invalid max_am value".to_string()));
        },
    };
    let ncore = match parse_i32(chars_of(g[1].as_str()).as_slice()) {
        Some(n) => n,
        None => {
            return Err(BseError::ValueError("Invalid nelec value".to_string()));
        },
    };
    let rest = lines_from(es.as_slice(), 2);
    let ghost rv = rest.deep_view();
    let mut flags: Vec<bool> = Vec::new();
    let mut q: usize = 0;
    while q < rest.len()
        invariant
            q <= rest@.len(),
            rv == rest.deep_view(),
            flags@ == integer_flags(rv).take(q as int),
        decreases rest.len() - q,
    {
        assert(rv[q as int] == rest@[q as int]@);
        flags.push(is_integer(rest[q].as_str()));
        assert(flags@ =~= integer_flags(rv).take(q + 1));
        q = q + 1;
    }
    assert(integer_flags(rv).take(rest@.len() as int) =~= integer_flags(rv));
    let blocks = partition_lines(rest.as_slice(), flags.as_slice(), 1, None, None, None, 1, true)?;
    let ghost bv = blocks.deep_view();
    let ghost v0 = elements_view(elements@);
    let mut i: usize = 0;
    while i < blocks.len()
        invariant
            i <= blocks@.len(),
            bv == blocks.deep_view(),
            v0 == elements_view(old(elements)@),
            g94_ecp(es.deep_view(), v0) == match g94_potentials(bv, z, v0, bv.len() as int) {
                Some(w2) => finish_spec(w2, z, max_am, ncore),
                None => None,
            },
            keys_increasing(elements@),
            g94_potentials(bv, z, v0, i as int) == Some(elements_view(elements@)),
        decreases blocks.len() - i,
    {
        assert(bv[i as int] == blocks@[i as int].deep_view());
        match g94_potential_exec(&blocks[i]) {
            Ok(p) => {
                add_potential(elements, z, p);
            },
            Err(e) => {
                proof {
                    assert(g94_potentials(bv, z, v0, i + 1) is None);
                    lemma_potentials_none(bv, z, v0, i + 1, bv.len() as int);
                }
                return Err(e);
            },
        }
        i = i + 1;
    }
    finish_potentials(elements, z, max_am, ncore)
}

/* #endregion */

/* #region reading a text */

proof fn lemma_sections_none(secs: Seq<Seq<Seq<char>>>, k: int, n: int)
    requires
        0 <= k <= n,
        g94_sections(secs, k) is None,
    ensures
        g94_sections(secs, n) is None,
    decreases n - k,
{
    if k < n {
        lemma_sections_none(secs, k + 1, n);
    }
}

fn read_section(s: &Vec<String>, elements: &mut Vec<(i32, BseBasisElement)>, scales: &mut Vec<G94Scale>) -> (r: Result<(), BseError>)
    requires
        keys_increasing(old(elements)@),
    ensures
        match g94_section(s.deep_view(), (elements_view(old(elements)@), scales_view(old(scales)@))) {
            Some((w, recs)) => r is Ok && elements_view(final(elements)@) == w && keys_increasing(final(elements)@)
                && scales_view(final(scales)@) == recs,
            None => r matches Err(e) && e is ValueError,
        },
{
    if s.len() > 3 {
        assert(s.deep_view()[3] == s@[3]@);
        if is_integer(s[3].as_str()) {
            return read_ecp(s, elements);
        }
    }
    read_electron(s, elements, scales)
}

/// The basis set a reader gives for an empty Gaussian94 text: every field
/// empty.
pub open spec fn empty_minimal(b: BseBasisMinimal) -> bool {
    &&& b.elements@.len() == 0
    &&& b.function_types@.len() == 0
    &&& b.name@.len() == 0
    &&& b.description@.len() == 0
    &&& b.molssi_bse_schema.schema_type@.len() == 0
    &&& b.molssi_bse_schema.schema_version@.len() == 0
}

/// Read a basis set in the Gaussian94 format: for each element block, its
/// shells or its potentials, added at the end of its element's shells or
/// potentials, with the core electrons of each potential element. Along
/// with the basis set come the scale texts of the shells, in order, which
/// the reader does not apply. A text with no line to read gives a basis set
/// with every field empty. A `ValueError` comes when the text does not
/// parse (see [`g94_spec`]).
pub fn read_g94(basis_str: &str) -> (r: Result<(BseBasisMinimal, Vec<G94Scale>), BseError>)
    ensures
        g94_lines(basis_str@).len() == 0 ==> (r matches Ok((b, sc)) && empty_minimal(b) && sc@.len() == 0),
        g94_lines(basis_str@).len() > 0 ==> match g94_spec(basis_str@) {
            Some((elems, recs)) => r matches Ok((b, sc)) && elements_view(b.elements@) == elems && keys_increasing(b.elements@)
                && b.function_types.deep_view() == sort_distinct_strs(shell_types(elems))
                && b.name@ == crate::readers::helpers::reader_name(None) && b.description@ == "no_description"@
                && b.molssi_bse_schema.schema_type@ == "minimal"@ && b.molssi_bse_schema.schema_version@ == "0.1"@
                && scales_view(sc@) == recs,
            None => r matches Err(e) && e is ValueError,
        },
{
    let raw = trimmed_lines(basis_str);
    let lines = prune_lines(raw.as_slice(), "!", true, true);
    let ghost lv = lines.deep_view();
    let mut elements: Vec<(i32, BseBasisElement)> = Vec::new();
    let mut scales: Vec<G94Scale> = Vec::new();
    if lines.len() == 0 {
        let b = BseBasisMinimal {
            molssi_bse_schema: BseMolssiBseSchema { schema_type: String::new(), schema_version: String::new() },
            elements,
            function_types: Vec::new(),
            name: String::new(),
            description: String::new(),
        };
        return Ok((b, scales));
    }
    let flags = crate::readers::helpers::pattern_flags(G94_ELEMENT_PATTERN, &lines);
    assert(flags@ =~= g94_element_flags(lv));
    let secs = partition_lines(lines.as_slice(), flags.as_slice(), 0, None, None, None, 3, true)?;
    let ghost sv = secs.deep_view();
    proof {
        assert(elements_view(elements@) =~= Seq::<(i32, ElementV)>::empty());
        assert(scales_view(scales@) =~= Seq::<ScaleV>::empty());
        assert(g94_spec(basis_str@) == g94_sections(sv, sv.len() as int));
    }
    let mut i: usize = 0;
    while i < secs.len()
        invariant
            i <= secs@.len(),
            sv == secs.deep_view(),
            g94_spec(basis_str@) == g94_sections(sv, sv.len() as int),
            keys_increasing(elements@),
            g94_sections(sv, i as int) == Some((elements_view(elements@), scales_view(scales@))),
        decreases secs.len() - i,
    {
        assert(sv[i as int] == secs@[i as int].deep_view());
        match read_section(&secs[i], &mut elements, &mut scales) {
            Ok(()) => {},
            Err(e) => {
                proof {
                    assert(g94_sections(sv, i + 1) is None);
                    lemma_sections_none(sv, i + 1, sv.len() as int);
                }
                return Err(e);
            },
        }
        i = i + 1;
    }
    Ok((reader_basis(elements, None), scales))
}

/* #endregion */

} // verus!
