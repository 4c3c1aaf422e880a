//! Writing basis sets in the Molcas basis library format: for each element
//! a header naming the element, basis, first author, contraction and
//! potential, a citation, the contraction, then the shells (with their
//! cartesian angular momenta, if any) and the potential.
use crate::api::{first_index, first_index_below};
use crate::compose::{split_at_char, split_char};
use crate::fields::{BseBasis, BseBasisElement, BseEcpPotential, BseElectronShell, ElementV, PotentialV, ShellV, elements_view, keys_increasing, pots_view, shells_view};
use crate::lut::{am_in_range, amint_to_char_spec, capitalize_spec, name_spec, sym_spec};
use crate::manip::dedup;
use crate::misc::{all_ams, contraction_ok, contraction_spec, max_or_zero};
use crate::printing::{write_matrix_ok, write_matrix_spec};
use crate::readers::helpers::opt_text;
use crate::text::{chars_of, string_of, push_str, to_lowercase, to_uppercase, split_ws, trim_chars, join, i32_text, usize_text, chars_eq, ascii_text, int_text, join_spec, lowercase_of, nat_digits, trim_spec, uppercase_of, ws_tokens};
use crate::writers::g94::{max_first_am, right_aligned};
use crate::writers::libmol::libmol_pot_ok;
use crate::writers::molpro::molpro_pot_lines;
use crate::sort::ecp_order;
use vstd::prelude::*;

verus! {

/// What `deunicode::deunicode` makes of a text: its ASCII transliteration.
pub uninterp spec fn ascii_of(s: Seq<char>) -> Seq<char>;

/// Calls `deunicode::deunicode`. Claimed, as its documentation states: the
/// result is ASCII, and ASCII text is returned unchanged; otherwise the
/// result is named `ascii_of` of the text, which it depends on alone.
#[verifier::external_body]
fn deunicode_of(s: &str) -> (r: String)
    ensures
        r@ == ascii_of(s@),
        ascii_text(r@),
        ascii_text(s@) ==> r@ == s@,
{
    deunicode::deunicode(s)
}

/// The bibliographic data of a reference that citations use.
#[derive(Debug)]
pub struct MolcasReference {
    pub authors: Vec<String>,
    pub journal: Option<String>,
    pub volume: Option<String>,
    pub year: Option<String>,
    pub pages: Option<String>,
    pub booktitle: Option<String>,
    pub title: Option<String>,
    pub doi: Option<String>,
}

/* #region specification */

/// The text with spaces turned into underscores.
pub open spec fn underscored(s: Seq<char>) -> Seq<char> {
    s.map_values(|c: char| if c == ' ' { '_' } else { c })
}

/// The keys of the references.
pub open spec fn ref_keys(refs: Seq<(String, MolcasReference)>) -> Seq<Seq<char>> {
    refs.map_values(|e: (String, MolcasReference)| e.0@)
}

/// The first author of the reference `key`: `Gaussian` for the Gaussian
/// manual; else the part before the first comma of the first author,
/// transliterated to ASCII, with underscores for spaces; empty when there
/// is no key, no such reference, or no author.
pub open spec fn first_author_spec(key: Option<Seq<char>>, refs: Seq<(String, MolcasReference)>) -> Seq<char> {
    match key {
        None => Seq::empty(),
        Some(k) => if k == "gaussian09e01"@ {
            "Gaussian"@
        } else {
            match first_index(ref_keys(refs), k) {
                None => Seq::empty(),
                Some(i) => {
                    let a = refs[i].1.authors.deep_view();
                    if a.len() == 0 {
                        Seq::empty()
                    } else {
                        underscored(ascii_of(split_char(a[0], ',')[0]))
                    }
                },
            }
        },
    }
}

/// The initial of a name: the name itself when it ends with a period,
/// else its first character and a period (nothing for an empty name).
pub open spec fn initial_of(n: Seq<char>) -> Seq<char> {
    if n.len() > 0 && n.last() == '.' {
        n
    } else if n.len() > 0 {
        seq![n[0], '.']
    } else {
        Seq::empty()
    }
}

/// The initials of the first `k` names, separated by `sep`.
pub open spec fn initials(names: Seq<Seq<char>>, sep: Seq<char>, k: int) -> Seq<char>
    decreases k,
{
    if k <= 0 {
        Seq::empty()
    } else {
        initials(names, sep, k - 1) + (if k - 1 > 0 {
            sep
        } else {
            Seq::empty()
        }) + initial_of(names[k - 1])
    }
}

/// An author written `Last, First Second` as `F.S. Last`: one first name
/// with hyphens gives its parts' initials joined, one without gives its
/// initial, several give their initials one after the other.
pub open spec fn format_author_spec(a: Seq<char>) -> Seq<char> {
    let parts = split_char(a, ',').map_values(|p: Seq<char>| trim_spec(p));
    let last = parts[0];
    let fp = if parts.len() > 1 {
        ws_tokens(parts[1])
    } else {
        Seq::empty()
    };
    let sep_names: (Seq<char>, Seq<Seq<char>>) = if fp.len() == 1 {
        if fp[0].contains('-') {
            (Seq::empty(), split_char(fp[0], '-'))
        } else {
            ("-"@, fp)
        }
    } else {
        (Seq::empty(), fp)
    };
    let t = initials(sep_names.1, sep_names.0, sep_names.1.len() as int);
    (if t.len() > 0 {
        t + " "@
    } else {
        t
    }) + last
}

/// The text with a period at the end, unless it ends with one.
pub open spec fn dotted(t: Seq<char>) -> Seq<char> {
    if t.len() > 0 && t.last() == '.' {
        t
    } else {
        t + "."@
    }
}

/// An optional field after a prefix, with a suffix; nothing without it.
pub open spec fn opt_part(o: Option<Seq<char>>, pre: Seq<char>, post: Seq<char>) -> Seq<char> {
    match o {
        Some(v) => pre + v + post,
        None => Seq::empty(),
    }
}

/// Where a reference appeared: the journal with volume, year and pages; or
/// the book with year and pages; or the title.
pub open spec fn venue_spec(e: MolcasReference) -> Seq<char> {
    match opt_text(e.journal) {
        Some(j) => " "@ + j + opt_part(opt_text(e.volume), " "@, Seq::empty()) + opt_part(opt_text(e.year), " ("@, ")"@)
            + opt_part(opt_text(e.pages), " "@, Seq::empty()),
        None => match opt_text(e.booktitle) {
            Some(b) => " In \""@ + b + "\""@ + opt_part(opt_text(e.year), " ("@, ")"@) + opt_part(opt_text(e.pages), " "@, Seq::empty()),
            None => opt_part(opt_text(e.title), " "@, Seq::empty()),
        },
    }
}

/// The citation of the reference `key`: its authors (the first and
/// `et al.` beyond nine), where it appeared, and its DOI in lowercase,
/// transliterated to ASCII; `Unknown reference` without a key or such a
/// reference.
pub open spec fn format_reference_spec(key: Option<Seq<char>>, refs: Seq<(String, MolcasReference)>) -> Seq<char> {
    match key {
        None => "Unknown reference"@,
        Some(k) => match first_index(ref_keys(refs), k) {
            None => "Unknown reference"@,
            Some(i) => {
                let e = refs[i].1;
                let a = e.authors.deep_view();
                let t0 = if a.len() > 9 {
                    format_author_spec(a[0]) + ", et al."@
                } else {
                    join_spec(a.map_values(|x: Seq<char>| format_author_spec(x)), ", "@)
                };
                let t3 = dotted(dotted(t0) + venue_spec(e));
                ascii_of(t3 + opt_part(
                    match opt_text(e.doi) {
                        Some(d) => Some(lowercase_of(d)),
                        None => None,
                    },
                    " doi:"@,
                    Seq::empty(),
                ))
            },
        },
    }
}

/// The key of an element's data: the last key of its last reference.
pub open spec fn ref_key_of(e: ElementV) -> Option<Seq<char>> {
    if e.references.len() == 0 || e.references.last().keys.len() == 0 {
        None
    } else {
        Some(e.references.last().keys.last())
    }
}

/// The letters of the angular momenta of the cartesian shells, in order.
pub open spec fn cart_chars(shells: Seq<ShellV>) -> Seq<Seq<char>>
    decreases shells.len(),
{
    if shells.len() == 0 {
        Seq::empty()
    } else {
        let sh = shells.last();
        cart_chars(shells.drop_last()) + (if sh.function_type == "gto_cartesian"@ {
            sh.am.map_values(|a: i32| amint_to_char_spec(seq![a], false))
        } else {
            Seq::empty()
        })
    }
}

/// Where the decimal points of `n` columns of coefficients go.
pub open spec fn coef_places(n: nat) -> Seq<usize> {
    Seq::new(n, |k: int| (8 * (k + 1) + 15 * k) as usize)
}

/// The lines of the shells.
pub open spec fn molcas_shell_lines(shells: Seq<ShellV>) -> Seq<Seq<char>>
    decreases shells.len(),
{
    if shells.len() == 0 {
        Seq::empty()
    } else {
        let sh = shells.last();
        molcas_shell_lines(shells.drop_last()) + seq![
            "* "@ + lowercase_of(amint_to_char_spec(sh.am, false)) + "-type functions"@,
            right_aligned(nat_digits(sh.exponents.len()), 6) + "    "@ + nat_digits(sh.coefficients.len()),
            write_matrix_spec(seq![sh.exponents], seq![17usize], false),
            write_matrix_spec(sh.coefficients, coef_places(sh.coefficients.len()), false),
        ]
    }
}

/// The number of electrons of element `z`: its core electrons removed when
/// it has a potential.
pub open spec fn valence_of(z: i32, e: ElementV) -> int {
    if e.potentials is Some {
        z - e.ecp_electrons->0
    } else {
        z as int
    }
}

/// The first lines of an element: the header, the citation, and the name
/// with the contraction.
pub open spec fn molcas_head(z: i32, e: ElementV, bs_name: Seq<char>, refs: Seq<(String, MolcasReference)>) -> Seq<Seq<char>> {
    let sym = capitalize_spec(sym_spec(z as int));
    let cont = match e.shells {
        Some(s) => contraction_spec(s, false, true),
        None => Seq::empty(),
    };
    let cont_full = match e.shells {
        Some(s) => contraction_spec(s, false, false),
        None => Seq::empty(),
    };
    let key = ref_key_of(e);
    seq![
        "/"@ + sym + "."@ + bs_name + "."@ + first_author_spec(key, refs) + "."@ + cont + "."@ + (if e.potentials is Some {
            "ECP."@ + int_text(valence_of(z, e)) + "el."@
        } else {
            Seq::empty()
        }),
        format_reference_spec(key, refs),
        uppercase_of(name_spec(z as int)) + " "@ + cont_full,
    ]
}

/// The shell lines of an element.
pub open spec fn molcas_electron(z: i32, e: ElementV) -> Seq<Seq<char>> {
    match e.shells {
        None => Seq::empty(),
        Some(s) => {
            let cc = dedup(cart_chars(s));
            (if cc.len() > 0 {
                seq!["Options"@, "Cartesian "@ + join_spec(cc, " "@), "EndOptions"@]
            } else {
                Seq::empty()
            }) + seq![right_aligned(int_text(valence_of(z, e)), 7) + ".0   "@ + int_text(max_or_zero(all_ams(s)) as int)]
                + molcas_shell_lines(s)
        },
    }
}

/// The potential lines of an element.
pub open spec fn molcas_ecp(z: i32, e: ElementV) -> Seq<Seq<char>> {
    match e.potentials {
        None => Seq::empty(),
        Some(p) => {
            let m = max_first_am(p);
            seq![
                "PP, "@ + capitalize_spec(sym_spec(z as int)) + ", "@ + int_text(e.ecp_electrons->0 as int) + ", "@ + int_text(m as int)
                    + " ;"@,
            ] + molpro_pot_lines(ecp_order(p), m) + seq![
                "Spectral Representation Operator"@,
                "End of Spectral Representation Operator"@,
            ]
        },
    }
}

/// The lines of the first `n` elements.
pub open spec fn molcas_lines(elems: Seq<(i32, ElementV)>, bs_name: Seq<char>, refs: Seq<(String, MolcasReference)>, n: int) -> Seq<Seq<char>>
    decreases n,
{
    if n <= 0 {
        Seq::empty()
    } else {
        let (z, e) = elems[n - 1];
        molcas_lines(elems, bs_name, refs, n - 1) + molcas_head(z, e, bs_name, refs) + molcas_electron(z, e) + molcas_ecp(z, e)
            + seq![Seq::<char>::empty()]
    }
}

/// The name of a basis set in headers: its first other name, else its
/// name, with underscores for spaces.
pub open spec fn header_name(name: Seq<char>, names: Seq<Seq<char>>) -> Seq<char> {
    if names.len() > 0 {
        underscored(names[0])
    } else {
        underscored(name)
    }
}

/// The text of a basis set in the Molcas basis library format.
pub open spec fn molcas_library_text(
    name: Seq<char>,
    names: Seq<Seq<char>>,
    refs: Seq<(String, MolcasReference)>,
    elems: Seq<(i32, ElementV)>,
) -> Seq<char> {
    join_spec(molcas_lines(elems, header_name(name, names), refs, elems.len() as int), "\n"@) + "\n"@
}

/// What writing a shell needs.
pub open spec fn molcas_shell_ok(sh: ShellV) -> bool {
    &&& am_in_range(sh.am)
    &&& sh.coefficients.len() < 1000000
    &&& write_matrix_ok(seq![sh.exponents], seq![17usize])
    &&& write_matrix_ok(sh.coefficients, coef_places(sh.coefficients.len()))
}

/// What writing one element needs.
pub open spec fn molcas_element_ok(z: i32, e: ElementV) -> bool {
    &&& 1 <= z <= 118
    &&& e.shells is Some ==> contraction_ok(e.shells->0)
    &&& e.shells is Some ==> forall|k: int| 0 <= k < e.shells->0.len() ==> molcas_shell_ok(#[trigger] e.shells->0[k])
    &&& e.potentials is Some ==> e.ecp_electrons is Some && e.potentials->0.len() > 0
    &&& e.potentials is Some ==> i32::MIN <= z - e.ecp_electrons->0 <= i32::MAX
    &&& e.potentials is Some ==> forall|k: int|
        0 <= k < e.potentials->0.len() ==> libmol_pot_ok(#[trigger] e.potentials->0[k])
}

/// What writing a basis set in the Molcas basis library format needs.
pub open spec fn molcas_library_ok(elems: Seq<(i32, ElementV)>) -> bool {
    forall|i: int| 0 <= i < elems.len() ==> molcas_element_ok(#[trigger] elems[i].0, elems[i].1)
}

/* #endregion */

/* #region texts */

fn underscore(s: &str) -> (r: String)
    ensures
        r@ == underscored(s@),
{
    let v = chars_of(s);
    let mut out: Vec<char> = Vec::new();
    let mut k: usize = 0;
    while k < v.len()
        invariant
            k <= v@.len(),
            v@ == s@,
            out@ == underscored(s@).take(k as int),
        decreases v.len() - k,
    {
        out.push(if v[k] == ' ' { '_' } else { v[k] });
        assert(out@ =~= underscored(s@).take(k + 1));
        k = k + 1;
    }
    assert(underscored(s@).take(v@.len() as int) =~= underscored(s@));
    string_of(out.as_slice())
}

fn find_ref(refs: &Vec<(String, MolcasReference)>, key: &str) -> (r: Option<usize>)
    ensures
        match r {
            Some(i) => first_index(ref_keys(refs@), key@) == Some(i as int) && i < refs@.len(),
            None => first_index(ref_keys(refs@), key@) is None,
        },
{
    let ghost keys = ref_keys(refs@);
    let kc = chars_of(key);
    let mut k: usize = 0;
    while k < refs.len()
        invariant
            k <= refs@.len(),
            keys == ref_keys(refs@),
            kc@ == key@,
            first_index_below(keys, key@, k as int) is None,
        decreases refs.len() - k,
    {
        proof {
            crate::api::lemma_first_index_step(keys, key@, k as int);
        }
        assert(keys[k as int] == refs@[k as int].0@);
        if chars_eq(chars_of(refs[k].0.as_str()).as_slice(), kc.as_slice()) {
            proof {
                crate::api::lemma_first_index_stable(keys, key@, k + 1, keys.len() as int);
            }
            return Some(k);
        }
        k = k + 1;
    }
    None
}

fn first_author(key: &Option<String>, refs: &Vec<(String, MolcasReference)>) -> (r: String)
    ensures
        r@ == first_author_spec(opt_text(*key), refs@),
{
    match key {
        None => String::new(),
        Some(k) => {
            proof {
                reveal_strlit("gaussian09e01");
            }
            if chars_eq(chars_of(k.as_str()).as_slice(), chars_of("gaussian09e01").as_slice()) {
                return "Gaussian".to_owned();
            }
            match find_ref(refs, k.as_str()) {
                None => String::new(),
                Some(i) => {
                    let a = &refs[i].1.authors;
                    if a.len() == 0 {
                        return String::new();
                    }
                    assert(a.deep_view()[0] == a@[0]@);
                    let parts = split_at_char(a[0].as_str(), ',');
                    let first = string_of(parts[0].as_slice());
                    let t = deunicode_of(first.as_str());
                    underscore(t.as_str())
                },
            }
        },
    }
}

fn initial(n: &Vec<char>) -> (r: String)
    ensures
        r@ == initial_of(n@),
{
    if n.len() > 0 && n[n.len() - 1] == '.' {
        string_of(n.as_slice())
    } else if n.len() > 0 {
        let v = vec![n[0], '.'];
        assert(v@ =~= seq![n@[0], '.']);
        string_of(v.as_slice())
    } else {
        String::new()
    }
}

fn initials_exec(names: &Vec<Vec<char>>, sep: &str) -> (r: String)
    ensures
        r@ == initials(names@.map_values(|v: Vec<char>| v@), sep@, names@.len() as int),
{
    let ghost nv = names@.map_values(|v: Vec<char>| v@);
    let mut t = String::new();
    let mut k: usize = 0;
    while k < names.len()
        invariant
            k <= names@.len(),
            nv == names@.map_values(|v: Vec<char>| v@),
            t@ == initials(nv, sep@, k as int),
        decreases names.len() - k,
    {
        if k > 0 {
            push_str(&mut t, sep);
        }
        let i = initial(&names[k]);
        assert(nv[k as int] == names@[k as int]@);
        push_str(&mut t, i.as_str());
        k = k + 1;
    }
    t
}

fn contains_char(v: &Vec<char>, c: char) -> (r: bool)
    ensures
        r == v@.contains(c),
{
    let mut k: usize = 0;
    while k < v.len()
        invariant
            k <= v@.len(),
            forall|j: int| 0 <= j < k ==> v@[j] != c,
        decreases v.len() - k,
    {
        if v[k] == c {
            return true;
        }
        k = k + 1;
    }
    false
}

/// An author written `Last, First Second` as its initials and last name
/// (see [`format_author_spec`]).
pub fn format_author(a: &str) -> (r: String)
    ensures
        r@ == format_author_spec(a@),
{
    let raw = split_at_char(a, ',');
    let ghost parts = split_char(a@, ',').map_values(|p: Seq<char>| trim_spec(p));
    let last = trim_chars(raw[0].as_slice());
    assert(last@ == parts[0]);
    let fp: Vec<String> = if raw.len() > 1 {
        let second = string_of(trim_chars(raw[1].as_slice()).as_slice());
        assert(second@ == parts[1]);
        split_ws(second.as_str())
    } else {
        Vec::new()
    };
    let ghost fpv = if parts.len() > 1 {
        ws_tokens(parts[1])
    } else {
        Seq::<Seq<char>>::empty()
    };
    assert(fp.deep_view() =~= fpv);
    let mut names: Vec<Vec<char>> = Vec::new();
    let sep: &str;
    if fp.len() == 1 {
        assert(fp.deep_view()[0] == fp@[0]@);
        let f0 = chars_of(fp[0].as_str());
        if contains_char(&f0, '-') {
            names = split_at_char(fp[0].as_str(), '-');
            sep = "";
            proof {
                reveal_strlit("");
                assert(names@.map_values(|v: Vec<char>| v@) =~= split_char(fpv[0], '-'));
            }
        } else {
            names.push(f0);
            sep = "-";
            assert(names@.map_values(|v: Vec<char>| v@) =~= fpv);
        }
    } else {
        let mut k: usize = 0;
        while k < fp.len()
            invariant
                k <= fp@.len(),
                fp.deep_view() == fpv,
                names@.map_values(|v: Vec<char>| v@) == fpv.take(k as int),
            decreases fp.len() - k,
        {
            assert(fpv[k as int] == fp@[k as int]@);
            let c = chars_of(fp[k].as_str());
            let ghost o = names@.map_values(|v: Vec<char>| v@);
            names.push(c);
            assert(names@.map_values(|v: Vec<char>| v@) =~= o.push(fpv[k as int]));
            assert(names@.map_values(|v: Vec<char>| v@) =~= fpv.take(k + 1));
            k = k + 1;
        }
        assert(fpv.take(fp@.len() as int) =~= fpv);
        sep = "";
        proof {
            reveal_strlit("");
        }
    }
    let ghost sn: (Seq<char>, Seq<Seq<char>>) = if fpv.len() == 1 {
        if fpv[0].contains('-') {
            (Seq::empty(), split_char(fpv[0], '-'))
        } else {
            ("-"@, fpv)
        }
    } else {
        (Seq::empty(), fpv)
    };
    proof {
        reveal_strlit("");
        reveal_strlit("-");
        assert(sep@ == sn.0);
        assert(names@.map_values(|v: Vec<char>| v@) == sn.1);
    }
    let mut t = initials_exec(&names, sep);
    assert(t@ == initials(sn.1, sn.0, sn.1.len() as int));
    if chars_of(t.as_str()).len() > 0 {
        push_str(&mut t, " ");
    }
    push_str(&mut t, string_of(last.as_slice()).as_str());
    proof {
        reveal_strlit("");
        reveal_strlit("-");
    }
    t
}

/* #endregion */

/* #region citations */

fn dot(t: &mut String)
    ensures
        final(t)@ == dotted(old(t)@),
{
    let v = chars_of(t.as_str());
    if !(v.len() > 0 && v[v.len() - 1] == '.') {
        push_str(t, ".");
    }
}

fn push_opt(t: &mut String, o: &Option<String>, pre: &str, post: &str)
    ensures
        final(t)@ == old(t)@ + opt_part(opt_text(*o), pre@, post@),
{
    match o {
        Some(v) => {
            push_str(t, pre);
            push_str(t, v.as_str());
            push_str(t, post);
        },
        None => {},
    }
}

fn venue(e: &MolcasReference, t: &mut String)
    ensures
        final(t)@ == old(t)@ + venue_spec(*e),
{
    proof {
        reveal_strlit("");
    }
    match &e.journal {
        Some(j) => {
            push_str(t, " ");
            push_str(t, j.as_str());
            push_opt(t, &e.volume, " ", "");
            push_opt(t, &e.year, " (", ")");
            push_opt(t, &e.pages, " ", "");
        },
        None => match &e.booktitle {
            Some(b) => {
                push_str(t, " In \"");
                push_str(t, b.as_str());
                push_str(t, "\"");
                push_opt(t, &e.year, " (", ")");
                push_opt(t, &e.pages, " ", "");
            },
            None => {
                push_opt(t, &e.title, " ", "");
            },
        },
    }
}

fn format_reference(key: &Option<String>, refs: &Vec<(String, MolcasReference)>) -> (r: String)
    ensures
        r@ == format_reference_spec(opt_text(*key), refs@),
{
    let k = match key {
        None => {
            return "Unknown reference".to_owned();
        },
        Some(k) => k,
    };
    let i = match find_ref(refs, k.as_str()) {
        None => {
            return "Unknown reference".to_owned();
        },
        Some(i) => i,
    };
    let e = &refs[i].1;
    assert(*e == refs@[i as int].1);
    let a = &e.authors;
    let ghost av = a.deep_view();
    let ghost t0 = if av.len() > 9 {
        format_author_spec(av[0]) + ", et al."@
    } else {
        join_spec(av.map_values(|x: Seq<char>| format_author_spec(x)), ", "@)
    };
    let mut t = String::new();
    if a.len() > 9 {
        assert(av[0] == a@[0]@);
        let f = format_author(a[0].as_str());
        push_str(&mut t, f.as_str());
        push_str(&mut t, ", et al.");
    } else {
        let mut fs: Vec<String> = Vec::new();
        let mut q: usize = 0;
        while q < a.len()
            invariant
                q <= a@.len(),
                av == a.deep_view(),
                fs.deep_view() == av.map_values(|x: Seq<char>| format_author_spec(x)).take(q as int),
            decreases a.len() - q,
        {
            assert(av[q as int] == a@[q as int]@);
            let f = format_author(a[q].as_str());
            let ghost o = fs.deep_view();
            fs.push(f);
            assert(fs.deep_view() =~= o.push(format_author_spec(av[q as int])));
            assert(fs.deep_view() =~= av.map_values(|x: Seq<char>| format_author_spec(x)).take(q + 1));
            q = q + 1;
        }
        assert(av.map_values(|x: Seq<char>| format_author_spec(x)).take(a@.len() as int) =~= av.map_values(|x: Seq<char>| format_author_spec(x)));
        let j = join(&fs, ", ");
        push_str(&mut t, j.as_str());
    }
    assert(t@ == t0);
    dot(&mut t);
    venue(e, &mut t);
    dot(&mut t);
    assert(t@ == dotted(dotted(t0) + venue_spec(*e)));
    let ghost t3 = t@;
    match &e.doi {
        Some(d) => {
            push_str(&mut t, " doi:");
            let l = to_lowercase(d.as_str());
            push_str(&mut t, l.as_str());
        },
        None => {},
    }
    proof {
        reveal_strlit("");
        assert(t@ == t3 + opt_part(
            match opt_text(e.doi) {
                Some(d) => Some(lowercase_of(d)),
                None => None,
            },
            " doi:"@,
            Seq::empty(),
        ));
    }
    deunicode_of(t.as_str())
}

/* #endregion */

/* #region elements */

fn ref_key(e: &BseBasisElement) -> (r: Option<String>)
    ensures
        opt_text(r) == ref_key_of(e@),
{
    let n = e.references.len();
    if n == 0 {
        return None;
    }
    let last = &e.references[n - 1];
    assert(e@.references.last() == last@);
    let m = last.reference_keys.len();
    if m == 0 {
        return None;
    }
    assert(last@.keys.last() == last.reference_keys@[m - 1]@);
    Some(last.reference_keys[m - 1].clone())
}

fn cart_letters(shells: &Vec<BseElectronShell>) -> (r: Vec<String>)
    requires
        forall|k: int| 0 <= k < shells@.len() ==> am_in_range(#[trigger] shells@[k]@.am),
    ensures
        r.deep_view() == dedup(cart_chars(shells_view(shells@))),
{
    let ghost sv = shells_view(shells@);
    let mut out: Vec<String> = Vec::new();
    let ghost mut seen: Seq<Seq<char>> = Seq::empty();
    let mut i: usize = 0;
    while i < shells.len()
        invariant
            i <= shells@.len(),
            sv == shells_view(shells@),
            forall|k: int| 0 <= k < shells@.len() ==> am_in_range(#[trigger] shells@[k]@.am),
            seen == cart_chars(sv.take(i as int)),
            out.deep_view() == dedup(seen),
        decreases shells.len() - i,
    {
        let sh = &shells[i];
        assert(sv[i as int] == sh@);
        assert(sv.take(i + 1).drop_last() =~= sv.take(i as int));
        assert(sv.take(i + 1).last() == sh@);
        let cart = chars_eq(chars_of(sh.function_type.as_str()).as_slice(), chars_of("gto_cartesian").as_slice());
        let ghost add: Seq<Seq<char>> = if sh@.function_type == "gto_cartesian"@ {
            sh@.am.map_values(|a: i32| amint_to_char_spec(seq![a], false))
        } else {
            Seq::empty()
        };
        if cart {
            let mut j: usize = 0;
            while j < sh.angular_momentum.len()
                invariant
                    j <= sh.angular_momentum@.len(),
                    am_in_range(sh@.am),
                    add == sh@.am.map_values(|a: i32| amint_to_char_spec(seq![a], false)),
                    out.deep_view() == dedup(seen + add.take(j as int)),
                decreases sh.angular_momentum.len() - j,
            {
                let one = vec![sh.angular_momentum[j]];
                assert(one@ =~= seq![sh@.am[j as int]]);
                assert(am_in_range(one@)) by {
                    assert(am_in_range(sh@.am));
                }
                let c = crate::lut::amint_to_char(one.as_slice(), false);
                assert(c@ == add[j as int]);
                assert((seen + add.take(j + 1)).drop_last() =~= seen + add.take(j as int));
                assert((seen + add.take(j + 1)).last() == add[j as int]);
                let mut found = false;
                let mut q: usize = 0;
                let cc = chars_of(c.as_str());
                while q < out.len()
                    invariant
                        q <= out@.len(),
                        cc@ == c@,
                        found == (exists|p: int| 0 <= p < q && out@[p]@ == c@),
                    decreases out.len() - q,
                {
                    if chars_eq(chars_of(out[q].as_str()).as_slice(), cc.as_slice()) {
                        found = true;
                    }
                    q = q + 1;
                }
                let ghost d = out.deep_view();
                proof {
                    if found {
                        let p = choose|p: int| 0 <= p < q && out@[p]@ == c@;
                        assert(d[p] == c@);
                    } else {
                        assert forall|p: int| 0 <= p < d.len() implies d[p] != c@ by {
                            assert(d[p] == out@[p]@);
                        }
                    }
                }
                if !found {
                    out.push(c);
                    assert(out.deep_view() =~= d.push(add[j as int]));
                }
                j = j + 1;
            }
            assert(add.take(sh.angular_momentum@.len() as int) =~= add);
        } else {
            assert(seen + add =~= seen);
        }
        proof {
            seen = seen + add;
        }
        i = i + 1;
    }
    assert(sv.take(shells@.len() as int) =~= sv);
    out
}

fn places(n: usize) -> (r: Vec<usize>)
    requires
        n < 1000000,
    ensures
        r@ == coef_places(n as nat),
{
    let mut r: Vec<usize> = Vec::new();
    let mut k: usize = 0;
    while k < n
        invariant
            k <= n,
            n < 1000000,
            r@ == coef_places(k as nat),
        decreases n - k,
    {
        r.push(8 * (k + 1) + 15 * k);
        assert(r@ =~= coef_places((k + 1) as nat));
        k = k + 1;
    }
    r
}

fn shell_lines_exec(lines: &mut Vec<String>, shells: &Vec<BseElectronShell>)
    requires
        forall|k: int| 0 <= k < shells@.len() ==> molcas_shell_ok(#[trigger] shells_view(shells@)[k]),
    ensures
        final(lines).deep_view() == old(lines).deep_view() + molcas_shell_lines(shells_view(shells@)),
{
    let ghost start = lines.deep_view();
    let ghost sv = shells_view(shells@);
    let mut i: usize = 0;
    while i < shells.len()
        invariant
            i <= shells@.len(),
            sv == shells_view(shells@),
            forall|k: int| 0 <= k < sv.len() ==> molcas_shell_ok(#[trigger] sv[k]),
            lines.deep_view() == start + molcas_shell_lines(sv.take(i as int)),
        decreases shells.len() - i,
    {
        let sh = &shells[i];
        assert(sv[i as int] == sh@);
        assert(molcas_shell_ok(sh@));
        assert(sv.take(i + 1).drop_last() =~= sv.take(i as int));
        assert(sv.take(i + 1).last() == sh@);
        let letters = crate::lut::amint_to_char(sh.angular_momentum.as_slice(), false);
        let low = to_lowercase(letters.as_str());
        let mut l = "* ".to_owned();
        push_str(&mut l, low.as_str());
        push_str(&mut l, "-type functions");
        crate::writers::g94::push_line(lines, l);
        let np = usize_text(sh.exponents.len());
        let mut l = crate::writers::g94::pad_left(np.as_str(), 6);
        push_str(&mut l, "    ");
        let ng = usize_text(sh.coefficients.len());
        push_str(&mut l, ng.as_str());
        crate::writers::g94::push_line(lines, l);
        let ex = vec![crate::fields::copy_strings(&sh.exponents)];
        assert(ex.deep_view() =~= seq![sh@.exponents]);
        let p17 = vec![17usize];
        assert(p17@ =~= seq![17usize]);
        let m1 = crate::printing::write_matrix(ex.as_slice(), p17.as_slice(), false);
        crate::writers::g94::push_line(lines, m1);
        let pl = places(sh.coefficients.len());
        let m2 = crate::printing::write_matrix(sh.coefficients.as_slice(), pl.as_slice(), false);
        crate::writers::g94::push_line(lines, m2);
        assert(lines.deep_view() =~= start + molcas_shell_lines(sv.take(i + 1)));
        i = i + 1;
    }
    assert(sv.take(shells@.len() as int) =~= sv);
}

/* #endregion */

/* #region writing */

fn element_lines(lines: &mut Vec<String>, z: i32, e: &BseBasisElement, bs_name: &str, refs: &Vec<(String, MolcasReference)>)
    requires
        molcas_element_ok(z, e@),
    ensures
        final(lines).deep_view() == old(lines).deep_view() + molcas_head(z, e@, bs_name@, refs@) + molcas_electron(z, e@)
            + molcas_ecp(z, e@) + seq![Seq::<char>::empty()],
{
    let ghost start = lines.deep_view();
    let ghost ev = e@;
    let sym = match crate::lut::element_sym_from_Z_with_normalize(z) {
        Some(s) => s,
        None => String::new(),
    };
    let nel: i32 = match (&e.ecp_potentials, e.ecp_electrons) {
        (Some(_), Some(n)) => z - n,
        _ => z,
    };
    assert(nel as int == valence_of(z, ev));
    let cont = match &e.electron_shells {
        Some(s) => crate::misc::contraction_string(s.as_slice(), false, true),
        None => String::new(),
    };
    let cont_full = match &e.electron_shells {
        Some(s) => crate::misc::contraction_string(s.as_slice(), false, false),
        None => String::new(),
    };
    let key = ref_key(e);
    let author = first_author(&key, refs);
    let mut h = "/".to_owned();
    push_str(&mut h, sym.as_str());
    push_str(&mut h, ".");
    push_str(&mut h, bs_name);
    push_str(&mut h, ".");
    push_str(&mut h, author.as_str());
    push_str(&mut h, ".");
    push_str(&mut h, cont.as_str());
    push_str(&mut h, ".");
    if e.ecp_potentials.is_some() {
        push_str(&mut h, "ECP.");
        let nt = i32_text(nel);
        push_str(&mut h, nt.as_str());
        push_str(&mut h, "el.");
    }
    let ghost hs = molcas_head(z, ev, bs_name@, refs@);
    assert(sym@ == capitalize_spec(sym_spec(z as int)));
    assert(cont@ == (match ev.shells {
        Some(s) => contraction_spec(s, false, true),
        None => Seq::empty(),
    }));
    assert(author@ == first_author_spec(ref_key_of(ev), refs@));
    assert(h@ == hs[0]);
    crate::writers::g94::push_line(lines, h);
    let rf = format_reference(&key, refs);
    crate::writers::g94::push_line(lines, rf);
    let name = match crate::lut::element_name_from_Z(z) {
        Some(n) => n,
        None => "",
    };
    let mut l = to_uppercase(name);
    push_str(&mut l, " ");
    push_str(&mut l, cont_full.as_str());
    assert(rf@ == hs[1]);
    assert(l@ == hs[2]);
    crate::writers::g94::push_line(lines, l);
    proof {
        reveal_strlit("");
    }
    assert(lines.deep_view() =~= start + molcas_head(z, ev, bs_name@, refs@));
    let ghost l1 = lines.deep_view();
    match &e.electron_shells {
        None => {
            assert(lines.deep_view() =~= l1 + molcas_electron(z, ev));
        },
        Some(s) => {
            let ghost sv = shells_view(s@);
            assert(ev.shells == Some(sv));
            assert forall|k: int| 0 <= k < s@.len() implies am_in_range(#[trigger] s@[k]@.am) by {
                assert(sv[k] == s@[k]@);
                assert(molcas_shell_ok(sv[k]));
            }
            let cc = cart_letters(s);
            if cc.len() > 0 {
                crate::writers::g94::push_line(lines, "Options".to_owned());
                let mut c = "Cartesian ".to_owned();
                let j = join(&cc, " ");
                push_str(&mut c, j.as_str());
                crate::writers::g94::push_line(lines, c);
                crate::writers::g94::push_line(lines, "EndOptions".to_owned());
            }
            let nt = i32_text(nel);
            let mut l = crate::writers::g94::pad_left(nt.as_str(), 7);
            push_str(&mut l, ".0   ");
            let ma = crate::misc::max_am(s.as_slice());
            let mt = i32_text(ma);
            push_str(&mut l, mt.as_str());
            crate::writers::g94::push_line(lines, l);
            let ghost l2 = lines.deep_view();
            shell_lines_exec(lines, s);
            assert(lines.deep_view() =~= l1 + molcas_electron(z, ev));
        },
    }
    let ghost l3 = lines.deep_view();
    match &e.ecp_potentials {
        None => {
            assert(lines.deep_view() =~= l3 + molcas_ecp(z, ev));
        },
        Some(p) => {
            let ghost pv = pots_view(p@);
            assert(ev.potentials == Some(pv));
            let ncore: i32 = match e.ecp_electrons {
                Some(n) => n,
                None => 0,
            };
            assert forall|k: int| 0 <= k < p@.len() implies (#[trigger] p@[k]).angular_momentum@.len() > 0 by {
                assert(pv[k] == p@[k]@);
                assert(libmol_pot_ok(pv[k]));
            }
            let (m, ordered) = crate::writers::g94::ordered_pots(p);
            let mut l = "PP, ".to_owned();
            push_str(&mut l, sym.as_str());
            push_str(&mut l, ", ");
            let ct = i32_text(ncore);
            push_str(&mut l, ct.as_str());
            push_str(&mut l, ", ");
            let mt = i32_text(m);
            push_str(&mut l, mt.as_str());
            push_str(&mut l, " ;");
            crate::writers::g94::push_line(lines, l);
            assert forall|k: int| 0 <= k < ordered@.len() implies libmol_pot_ok(#[trigger] ordered@[k]@) by {
                assert(pv.contains(ordered@[k]@));
                let q = choose|q: int| 0 <= q < pv.len() && pv[q] == ordered@[k]@;
                assert(libmol_pot_ok(pv[q]));
            }
            crate::writers::molpro::molpro_pots_exec(lines, &ordered, m);
            crate::writers::g94::push_line(lines, "Spectral Representation Operator".to_owned());
            crate::writers::g94::push_line(lines, "End of Spectral Representation Operator".to_owned());
            assert(lines.deep_view() =~= l3 + molcas_ecp(z, ev));
        },
    }
    crate::writers::g94::push_line(lines, String::new());
}

/// Write a basis set (already made generally contracted, pruned and
/// sorted) in the Molcas basis library format, citing from `references`
/// (see [`molcas_library_text`]).
pub fn write_molcas_library_sorted(basis: &BseBasis, references: &Vec<(String, MolcasReference)>) -> (r: String)
    requires
        keys_increasing(basis.elements@),
        molcas_library_ok(elements_view(basis.elements@)),
    ensures
        r@ == molcas_library_text(basis.name@, basis.names.deep_view(), references@, elements_view(basis.elements@)),
{
    let ghost ev = elements_view(basis.elements@);
    let bs_name = if basis.names.len() > 0 {
        assert(basis.names.deep_view()[0] == basis.names@[0]@);
        underscore(basis.names[0].as_str())
    } else {
        underscore(basis.name.as_str())
    };
    assert(bs_name@ == header_name(basis.name@, basis.names.deep_view()));
    let mut lines: Vec<String> = Vec::new();
    let mut i: usize = 0;
    while i < basis.elements.len()
        invariant
            i <= basis.elements@.len(),
            ev == elements_view(basis.elements@),
            molcas_library_ok(ev),
            bs_name@ == header_name(basis.name@, basis.names.deep_view()),
            lines.deep_view() == molcas_lines(ev, bs_name@, references@, i as int),
        decreases basis.elements.len() - i,
    {
        let z = basis.elements[i].0;
        let e = &basis.elements[i].1;
        assert(ev[i as int] == (z, e@));
        assert(molcas_element_ok(ev[i as int].0, ev[i as int].1));
        element_lines(&mut lines, z, e, bs_name.as_str(), references);
        i = i + 1;
    }
    let mut r = join(&lines, "\n");
    push_str(&mut r, "\n");
    r
}

/* #endregion */

} // verus!
