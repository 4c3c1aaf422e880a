//! Main interface to the basis set data: names, families, roles, auxiliary
//! lookup and filtering over the metadata of all basis sets, and the
//! arguments of basis set retrieval.
//!
//! Reading the data directory is left to the caller: the functions here take
//! the metadata that was read (or `None` when no data directory is known).
use crate::error::BseError;
use crate::fields::{
    AuxV, BseAuxiliary, BseBasis, BseBasisReference, BseRootMetadata, BseRootMetadataVer, MetaV, VerV,
    metadata_view, versions_view, aux_map_view, elements_view, refs_view, ElementV, ReferenceV,
};
use crate::text::{
    chars_of, chars_eq, lowercase_of, to_lowercase, uppercase_of, to_uppercase, push_str, sort_strs,
    sort_distinct_strs, insert_sorted, contains_spec, starts_with,
};
use vstd::prelude::*;

verus! {

/// The version of this library.
pub fn version() -> (r: &'static str)
    ensures
        r@ == "0.1.0"@,
{
    "0.1.0"
}

/// The address of the Basis Set Exchange.
pub open spec fn main_url() -> Seq<char> {
    "https://www.basissetexchange.org"@
}

/// The lines that `textwrap::wrap` makes of a text for a width, the
/// indent of the first line and the indent of the lines after it.
pub uninterp spec fn wrapped_header_line(s: Seq<char>, width: usize, initial: Seq<char>, subsequent: Seq<char>) -> Seq<Seq<char>>;

/// Calls `textwrap::wrap` on a text with options of the given width, first
/// indent and later indent; the lines it returns are claimed to be
/// `wrapped_header_line` of those four, on which alone they depend.
#[verifier::external_body]
fn wrap_header_line(s: &str, width: usize, initial: &str, subsequent: &str) -> (r: Vec<String>)
    ensures
        r.deep_view() == wrapped_header_line(s@, width, initial@, subsequent@),
{
    let opts = textwrap::Options::new(width).initial_indent(initial).subsequent_indent(subsequent);
    textwrap::wrap(s, &opts).into_iter().map(|c| c.into_owned()).collect()
}

/// `n` spaces.
pub open spec fn indent_of(n: nat) -> Seq<char> {
    Seq::new(n, |i: int| ' ')
}

/// The lines of the header of a basis set, before wrapping.
pub open spec fn header_lines(name: Seq<char>, description: Seq<char>, role: Seq<char>, version: Seq<char>, revdesc: Seq<char>) -> Seq<Seq<char>> {
    let rule = Seq::new(70, |i: int| '-');
    seq![
        rule,
        " BSE-rs (Basis Set Exchange in Rust)"@,
        " Version "@ + "0.1.0"@,
        " Acknowledges: "@ + main_url(),
        rule,
        "   Basis set: "@ + name,
        " Description: "@ + description,
        "        Role: "@ + role,
        "     Version: "@ + version + "  ("@ + revdesc + ")"@,
        rule,
    ]
}

/// The wrapped lines of the first `n` lines, one after the other, each
/// wrapped at `width` with the given indents.
pub open spec fn wrapped_lines(lines: Seq<Seq<char>>, n: int, width: usize, initial: Seq<char>, subsequent: Seq<char>) -> Seq<Seq<char>>
    decreases n,
{
    if n <= 0 {
        Seq::empty()
    } else {
        wrapped_lines(lines, n - 1, width, initial, subsequent) + wrapped_header_line(lines[n - 1], width, initial, subsequent)
    }
}

/// A header with information about a basis set (its name, description,
/// role, version and revision), each line wrapped at 70 columns with no
/// indent on its first line and 14 spaces on the lines after it.
pub fn header_string(basis: &BseBasis) -> (r: String)
    ensures
        ({
            let lines = header_lines(basis.name@, basis.description@, basis.role@, basis.version@, basis.revision_description@);
            r@ == crate::text::join_spec(wrapped_lines(lines, lines.len() as int, 70, ""@, indent_of(14)), "\n"@)
        }),
{
    let mut rule = String::new();
    let mut k: usize = 0;
    while k < 70
        invariant
            k <= 70,
            rule@ == Seq::new(k as nat, |i: int| '-'),
        decreases 70 - k,
    {
        crate::text::push_char(&mut rule, '-');
        assert(rule@ =~= Seq::new((k + 1) as nat, |i: int| '-'));
        k = k + 1;
    }
    let mut lines: Vec<String> = Vec::new();
    lines.push(rule.clone());
    lines.push(" BSE-rs (Basis Set Exchange in Rust)".to_owned());
    let mut l = " Version ".to_owned();
    push_str(&mut l, version());
    lines.push(l);
    let mut l = " Acknowledges: ".to_owned();
    push_str(&mut l, "https://www.basissetexchange.org");
    lines.push(l);
    lines.push(rule.clone());
    let mut l = "   Basis set: ".to_owned();
    push_str(&mut l, basis.name.as_str());
    lines.push(l);
    let mut l = " Description: ".to_owned();
    push_str(&mut l, basis.description.as_str());
    lines.push(l);
    let mut l = "        Role: ".to_owned();
    push_str(&mut l, basis.role.as_str());
    lines.push(l);
    let mut l = "     Version: ".to_owned();
    push_str(&mut l, basis.version.as_str());
    push_str(&mut l, "  (");
    push_str(&mut l, basis.revision_description.as_str());
    push_str(&mut l, ")");
    lines.push(l);
    lines.push(rule);
    let ghost target = header_lines(basis.name@, basis.description@, basis.role@, basis.version@, basis.revision_description@);
    assert(lines.deep_view() =~= target);
    let mut out: Vec<String> = Vec::new();
    let first = "";
    let later = "              ";
    proof {
        reveal_strlit("              ");
        assert(later@ =~= indent_of(14));
    }
    let mut i: usize = 0;
    while i < lines.len()
        invariant
            i <= lines@.len(),
            lines.deep_view() == target,
            first@ == ""@,
            later@ == indent_of(14),
            out.deep_view() == wrapped_lines(target, i as int, 70, ""@, indent_of(14)),
        decreases lines.len() - i,
    {
        let w = wrap_header_line(lines[i].as_str(), 70, first, later);
        assert(lines@[i as int]@ == target[i as int]);
        let ghost before = out.deep_view();
        let mut j: usize = 0;
        while j < w.len()
            invariant
                j <= w@.len(),
                out.deep_view() == before + w.deep_view().take(j as int),
            decreases w.len() - j,
        {
            let ghost b2 = out.deep_view();
            out.push(w[j].clone());
            assert(out.deep_view() =~= b2.push(w.deep_view()[j as int]));
            assert(out.deep_view() =~= before + w.deep_view().take(j + 1));
            j = j + 1;
        }
        assert(w.deep_view().take(w@.len() as int) =~= w.deep_view());
        i = i + 1;
    }
    crate::text::join(&out, "\n")
}

/// The message of the error for a missing data directory.
pub open spec fn no_data_dir_msg() -> Seq<char> {
    "No data directory specified. Please set `BSE_DATA_DIR` environment variable."@
}

fn no_data_dir() -> (e: BseError)
    ensures
        e matches BseError::DataNotFound(m) && m@ == no_data_dir_msg(),
{
    BseError::DataNotFound("No data directory specified. Please set `BSE_DATA_DIR` environment variable.".to_owned())
}

/* #region roles and formats */

/// The roles of basis sets and their display names.
pub open spec fn role_table() -> Seq<(Seq<char>, Seq<char>)> {
    seq![
        ("orbital"@, "Orbital basis"@),
        ("jfit"@, "J-fitting"@),
        ("jkfit"@, "JK-fitting"@),
        ("rifit"@, "RI-fitting"@),
        ("optri"@, "Optimized RI-fitting"@),
        ("admmfit"@, "Auxiliary-Density Matrix Method Fitting"@),
        ("dftxfit"@, "DFT Exchange Fitting"@),
        ("dftjfit"@, "DFT Correlation Fitting"@),
        ("guess"@, "Initial guess"@),
    ]
}

/// The names of the roles.
pub open spec fn role_names() -> Seq<Seq<char>> {
    role_table().map_values(|p: (Seq<char>, Seq<char>)| p.0)
}

/// The characters of a list of pairs of string slices.
pub open spec fn str_pairs_view(v: Seq<(&str, &str)>) -> Seq<(Seq<char>, Seq<char>)> {
    v.map_values(|p: (&str, &str)| (p.0@, p.1@))
}

/// The available basis set roles and their display names.
pub fn get_roles() -> (r: Vec<(&'static str, &'static str)>)
    ensures
        str_pairs_view(r@) == role_table(),
{
    let r = vec![
        ("orbital", "Orbital basis"),
        ("jfit", "J-fitting"),
        ("jkfit", "JK-fitting"),
        ("rifit", "RI-fitting"),
        ("optri", "Optimized RI-fitting"),
        ("admmfit", "Auxiliary-Density Matrix Method Fitting"),
        ("dftxfit", "DFT Exchange Fitting"),
        ("dftjfit", "DFT Correlation Fitting"),
        ("guess", "Initial guess"),
    ];
    assert(str_pairs_view(r@) =~= role_table());
    r
}

/// Whether `role` (already lowercased) is one of the roles.
fn is_role(role: &[char]) -> (r: bool)
    ensures
        r == role_names().contains(role@),
{
    let roles = get_roles();
    let mut k: usize = 0;
    while k < roles.len()
        invariant
            k <= roles@.len(),
            str_pairs_view(roles@) == role_table(),
            forall|t: int| 0 <= t < k ==> #[trigger] role_names()[t] != role@,
        decreases roles.len() - k,
    {
        let c = chars_of(roles[k].0);
        assert(role_names()[k as int] == roles@[k as int].0@);
        if chars_eq(c.as_slice(), role) {
            return true;
        }
        k = k + 1;
    }
    false
}

/// The output formats, as [`crate::writers::write::get_writer_formats`]
/// gives them.
pub fn get_formats(function_types: Option<Vec<String>>) -> (r: Vec<(String, String)>)
    ensures
        crate::writers::write::pairs_view(r@) == crate::writers::write::writer_formats_below(
            crate::formats::opt_strings(function_types),
            crate::writers::write::NUM_WRITERS as int,
        ),
{
    crate::writers::write::get_writer_formats(function_types)
}

/// The citation formats and their display names.
pub open spec fn reference_format_table() -> Seq<(Seq<char>, Seq<char>)> {
    seq![
        ("txt"@, "Plain Text"@),
        ("bib"@, "BibTeX"@),
        ("ris"@, "RIS"@),
        ("endnote"@, "EndNote"@),
        ("json"@, "JSON"@),
    ]
}

/// The formats available for references and citations, with their display
/// names.
pub fn get_reference_formats() -> (r: Vec<(String, String)>)
    ensures
        crate::writers::write::pairs_view(r@) == reference_format_table(),
{
    let r = vec![
        ("txt".to_owned(), "Plain Text".to_owned()),
        ("bib".to_owned(), "BibTeX".to_owned()),
        ("ris".to_owned(), "RIS".to_owned()),
        ("endnote".to_owned(), "EndNote".to_owned()),
        ("json".to_owned(), "JSON".to_owned()),
    ];
    assert(crate::writers::write::pairs_view(r@) =~= reference_format_table());
    r
}

/* #endregion */

/* #region Truhlar calendar names */

/// The month prefix of a (lowercased) calendar basis set name and the rest
/// of the name after the prefix and its hyphen: one of the months `jul`
/// down to `jan`, checked in that order, or `maug`.
pub open spec fn calendar_spec(low: Seq<char>) -> Option<(Seq<char>, Seq<char>)> {
    if "jul-"@.is_prefix_of(low) {
        Some(("jul"@, low.skip(4)))
    } else if "jun-"@.is_prefix_of(low) {
        Some(("jun"@, low.skip(4)))
    } else if "may-"@.is_prefix_of(low) {
        Some(("may"@, low.skip(4)))
    } else if "apr-"@.is_prefix_of(low) {
        Some(("apr"@, low.skip(4)))
    } else if "mar-"@.is_prefix_of(low) {
        Some(("mar"@, low.skip(4)))
    } else if "feb-"@.is_prefix_of(low) {
        Some(("feb"@, low.skip(4)))
    } else if "jan-"@.is_prefix_of(low) {
        Some(("jan"@, low.skip(4)))
    } else if "maug-"@.is_prefix_of(low) {
        Some(("maug"@, low.skip(5)))
    } else {
        None
    }
}

/// Whether `v` starts with `p`, and the rest of `v` after it.
fn strip_prefix(v: &Vec<char>, p: &str) -> (r: Option<String>)
    ensures
        match r {
            Some(s) => p@.is_prefix_of(v@) && s@ == v@.skip(p@.len() as int),
            None => !p@.is_prefix_of(v@),
        },
{
    let pc = chars_of(p);
    if starts_with(v.as_slice(), pc.as_slice()) {
        let mut rest: Vec<char> = Vec::new();
        let mut j: usize = pc.len();
        while j < v.len()
            invariant
                pc@.len() <= j <= v@.len(),
                pc@ == p@,
                rest@ =~= v@.subrange(pc@.len() as int, j as int),
            decreases v.len() - j,
        {
            rest.push(v[j]);
            j = j + 1;
        }
        Some(crate::text::string_of(rest.as_slice()))
    } else {
        None
    }
}

/// Detect a Truhlar calendar basis set name: the month (or `maug`) and the
/// rest of the lowercased name after the prefix and its hyphen.
pub fn parse_truhlar_calendar_name(name: &str) -> (r: Option<(String, String)>)
    ensures
        match calendar_spec(lowercase_of(name@)) {
            Some((m, rest)) => r matches Some((a, b)) && a@ == m && b@ == rest,
            None => r is None,
        },
{
    let low = to_lowercase(name);
    let v = chars_of(low.as_str());
    proof {
        reveal_strlit("jul-");
        reveal_strlit("jun-");
        reveal_strlit("may-");
        reveal_strlit("apr-");
        reveal_strlit("mar-");
        reveal_strlit("feb-");
        reveal_strlit("jan-");
        reveal_strlit("maug-");
    }
    if let Some(rest) = strip_prefix(&v, "jul-") {
        return Some(("jul".to_owned(), rest));
    }
    if let Some(rest) = strip_prefix(&v, "jun-") {
        return Some(("jun".to_owned(), rest));
    }
    if let Some(rest) = strip_prefix(&v, "may-") {
        return Some(("may".to_owned(), rest));
    }
    if let Some(rest) = strip_prefix(&v, "apr-") {
        return Some(("apr".to_owned(), rest));
    }
    if let Some(rest) = strip_prefix(&v, "mar-") {
        return Some(("mar".to_owned(), rest));
    }
    if let Some(rest) = strip_prefix(&v, "feb-") {
        return Some(("feb".to_owned(), rest));
    }
    if let Some(rest) = strip_prefix(&v, "jan-") {
        return Some(("jan".to_owned(), rest));
    }
    if let Some(rest) = strip_prefix(&v, "maug-") {
        return Some(("maug".to_owned(), rest));
    }
    None
}

/// The month that `maug` stands for, from the uppercased rest of the name:
/// `apr` for a QZ basis, else `may` for TZ, else `jun` for DZ.
pub open spec fn maug_spec(up: Seq<char>) -> Option<Seq<char>> {
    if contains_spec(up, "QZ"@) {
        Some("apr"@)
    } else if contains_spec(up, "TZ"@) {
        Some("may"@)
    } else if contains_spec(up, "DZ"@) {
        Some("jun"@)
    } else {
        None
    }
}

/// Determine the month for `maug` from the rest of a basis set name; a
/// `ValueError` when it is none of DZ, TZ or QZ.
pub fn determine_maug_month(rest: &str) -> (r: Result<&'static str, BseError>)
    ensures
        match maug_spec(uppercase_of(rest@)) {
            Some(m) => r matches Ok(s) && s@ == m,
            None => r matches Err(BseError::ValueError(msg)) && msg@
                == "Cannot determine 'maug' month for basis set. Expected DZ, TZ, or QZ in the basis name: "@
                + rest@,
        },
{
    let up = to_uppercase(rest);
    let v = chars_of(up.as_str());
    let qz = chars_of("QZ");
    let tz = chars_of("TZ");
    let dz = chars_of("DZ");
    if crate::text::contains(v.as_slice(), qz.as_slice()) {
        return Ok("apr");
    }
    if crate::text::contains(v.as_slice(), tz.as_slice()) {
        return Ok("may");
    }
    if crate::text::contains(v.as_slice(), dz.as_slice()) {
        return Ok("jun");
    }
    let mut m = "Cannot determine 'maug' month for basis set. Expected DZ, TZ, or QZ in the basis name: ".to_owned();
    push_str(&mut m, rest);
    Err(BseError::ValueError(m))
}

/// A name after calendarization: a name whose lowercase form starts with
/// `aug-` gets the month in place of `aug`.
pub open spec fn calendar_renamed(name: Seq<char>, month_low: Seq<char>) -> Seq<char> {
    if "aug-"@.is_prefix_of(lowercase_of(name)) && name.len() >= 4 {
        month_low + "-"@ + name.skip(4)
    } else {
        name
    }
}

/// The reference of the Papajak and Truhlar calendar basis sets.
pub open spec fn papajak_ref() -> ReferenceV {
    ReferenceV { description: "Truhlar calendar basis set"@, keys: seq!["papajak2011a"@] }
}

/// Element data with the Papajak and Truhlar reference first.
pub open spec fn calendar_element(o: (i32, ElementV)) -> (i32, ElementV) {
    (o.0, ElementV { references: seq![papajak_ref()] + o.1.references, ..o.1 })
}

fn renamed(name: &String, month_low: &str) -> (r: String)
    ensures
        r@ == calendar_renamed(name@, month_low@),
{
    let low = to_lowercase(name.as_str());
    let lv = chars_of(low.as_str());
    let v = chars_of(name.as_str());
    let aug = chars_of("aug-");
    if starts_with(lv.as_slice(), aug.as_slice()) && v.len() >= 4 {
        let mut r = month_low.to_owned();
        push_str(&mut r, "-");
        let mut j: usize = 4;
        let mut rest: Vec<char> = Vec::new();
        while j < v.len()
            invariant
                4 <= j <= v@.len(),
                v@ == name@,
                rest@ =~= name@.subrange(4, j as int),
            decreases v.len() - j,
        {
            rest.push(v[j]);
            j = j + 1;
        }
        let rs = crate::text::string_of(rest.as_slice());
        push_str(&mut r, rs.as_str());
        r
    } else {
        name.clone()
    }
}

/// Update the metadata of a calendarized basis set: the name and the
/// description lose their `aug` prefix for the (lowercased) month, and every
/// element gets the Papajak and Truhlar reference first.
pub fn update_calendar_basis_metadata(basis: &mut BseBasis, month: &str)
    ensures
        final(basis).name@ == calendar_renamed(old(basis).name@, lowercase_of(month@)),
        final(basis).description@ == calendar_renamed(old(basis).description@, lowercase_of(month@)),
        elements_view(final(basis).elements@) == elements_view(old(basis).elements@).map_values(
            |o: (i32, ElementV)| calendar_element(o),
        ),
        final(basis).molssi_bse_schema == old(basis).molssi_bse_schema,
        final(basis).revision_description == old(basis).revision_description,
        final(basis).revision_date == old(basis).revision_date,
        final(basis).version == old(basis).version,
        final(basis).function_types == old(basis).function_types,
        final(basis).names == old(basis).names,
        final(basis).tags == old(basis).tags,
        final(basis).family == old(basis).family,
        final(basis).role == old(basis).role,
        final(basis).auxiliaries == old(basis).auxiliaries,
{
    let ml = to_lowercase(month);
    basis.name = renamed(&basis.name, ml.as_str());
    basis.description = renamed(&basis.description, ml.as_str());
    let ghost ev = elements_view(basis.elements@);
    let mut out: Vec<(i32, crate::fields::BseBasisElement)> = Vec::new();
    let n = basis.elements.len();
    let mut i: usize = 0;
    while i < n
        invariant
            i <= n,
            n == basis.elements@.len(),
            ev == elements_view(basis.elements@),
            elements_view(out@) == ev.take(i as int).map_values(|o: (i32, ElementV)| calendar_element(o)),
        decreases n - i,
    {
        let z = basis.elements[i].0;
        let el = &basis.elements[i].1;
        assert(ev[i as int] == (z, el@));
        let mut refs: Vec<BseBasisReference> = Vec::new();
        let pap = BseBasisReference {
            reference_description: "Truhlar calendar basis set".to_owned(),
            reference_keys: vec!["papajak2011a".to_owned()],
        };
        assert(pap@.keys =~= seq!["papajak2011a"@]);
        refs.push(pap);
        let mut k: usize = 0;
        while k < el.references.len()
            invariant
                k <= el.references@.len(),
                refs_view(refs@) == seq![papajak_ref()] + refs_view(el.references@).take(k as int),
            decreases el.references.len() - k,
        {
            let ghost before = refs_view(refs@);
            refs.push(el.references[k].copy());
            assert(refs_view(refs@) =~= before.push(refs_view(el.references@)[k as int]));
            assert(refs_view(refs@) =~= seq![papajak_ref()] + refs_view(el.references@).take(k + 1));
            k = k + 1;
        }
        assert(refs_view(el.references@).take(el.references@.len() as int) =~= refs_view(el.references@));
        let shells = match &el.electron_shells {
            Some(s) => Some(crate::fields::copy_shells(s)),
            None => None,
        };
        let pots = match &el.ecp_potentials {
            Some(p) => Some(crate::fields::copy_potentials(p)),
            None => None,
        };
        let ne = crate::fields::BseBasisElement {
            references: refs,
            electron_shells: shells,
            ecp_potentials: pots,
            ecp_electrons: el.ecp_electrons,
        };
        let ghost before = elements_view(out@);
        out.push((z, ne));
        assert(elements_view(out@) =~= before.push(calendar_element(ev[i as int])));
        assert(elements_view(out@) =~= ev.take(i + 1).map_values(|o: (i32, ElementV)| calendar_element(o)));
        i = i + 1;
    }
    assert(ev.take(n as int) =~= ev);
    basis.elements = out;
}

/* #endregion */

/* #region data source and arguments */

/// Data source for basis set information.
#[derive(Debug, Clone, Copy, PartialEq, Eq, Structural)]
pub enum BseDataSource {
    /// Use the local data directory.
    Local,
    /// Try the local data first; this is the default.
    Auto,
}

impl Default for BseDataSource {
    fn default() -> (r: Self)
        ensures
            r == BseDataSource::Auto,
    {
        BseDataSource::Auto
    }
}

/// Parse a data source: `local`, `0`, `false` and `no` (in any case) give
/// `Local`; anything else, including `remote`, which this build does not
/// offer, gives `Auto`.
pub fn parse_source_from_str(source_str: &str) -> (r: BseDataSource)
    ensures
        r == (if seq!["local"@, "0"@, "false"@, "no"@].contains(lowercase_of(source_str@)) {
            BseDataSource::Local
        } else {
            BseDataSource::Auto
        }),
{
    let low = to_lowercase(source_str);
    let v = chars_of(low.as_str());
    let names = crate::formats::list4("local", "0", "false", "no");
    assert(crate::formats::strs_view(names@) == seq!["local"@, "0"@, "false"@, "no"@]);
    if crate::formats::names_contain(&names, v.as_slice()) {
        BseDataSource::Local
    } else {
        BseDataSource::Auto
    }
}

/// Arguments of basis set retrieval.
#[derive(Debug, Clone)]
pub struct BseGetBasisArgs {
    /// Elements to include: atomic numbers, symbols or ranges like
    /// "1-3,H-Li,C-O".
    pub elements: Option<String>,
    /// Specific version of the basis set; the latest by default.
    pub version: Option<String>,
    /// Remove general contractions by duplicating primitives.
    pub uncontract_general: bool,
    /// Split combined shells (sp, spd, spdf) into separate shells.
    pub uncontract_spdf: bool,
    /// Fully uncontract: each primitive becomes a separate shell.
    pub uncontract_segmented: bool,
    /// Remove uncontracted (free) primitives.
    pub remove_free_primitives: bool,
    /// Make the basis set as generally contracted as possible.
    pub make_general: bool,
    /// Optimize general contractions.
    pub optimize_general: bool,
    /// Number of diffuse functions to add by even-tempered extrapolation.
    pub augment_diffuse: i32,
    /// Number of steep functions to add by even-tempered extrapolation.
    pub augment_steep: i32,
    /// Which auxiliary basis to generate: 0 none, 1 AutoAux, 2 AutoABS.
    pub get_aux: i32,
    /// Override of the data directory path.
    pub data_dir: Option<String>,
    /// Include header information in formatted output.
    pub header: bool,
    /// Data source for the basis set.
    pub source: BseDataSource,
}

/// The default arguments: every option off, header on, automatic source.
pub open spec fn default_args(a: BseGetBasisArgs) -> bool {
    &&& a.elements is None
    &&& a.version is None
    &&& !a.uncontract_general
    &&& !a.uncontract_spdf
    &&& !a.uncontract_segmented
    &&& !a.remove_free_primitives
    &&& !a.make_general
    &&& !a.optimize_general
    &&& a.augment_diffuse == 0
    &&& a.augment_steep == 0
    &&& a.get_aux == 0
    &&& a.data_dir is None
    &&& a.header
    &&& a.source == BseDataSource::Auto
}

impl Default for BseGetBasisArgs {
    fn default() -> (r: Self)
        ensures
            default_args(r),
    {
        BseGetBasisArgs {
            elements: None,
            version: None,
            uncontract_general: false,
            uncontract_spdf: false,
            uncontract_segmented: false,
            remove_free_primitives: false,
            make_general: false,
            optimize_general: false,
            augment_diffuse: 0,
            augment_steep: 0,
            get_aux: 0,
            data_dir: None,
            header: true,
            source: BseDataSource::Auto,
        }
    }
}

/// Builder of [`BseGetBasisArgs`]: every field left unset takes its
/// default.
#[derive(Debug, Clone)]
pub struct BseGetBasisArgsBuilder {
    pub elements: Option<Option<String>>,
    pub version: Option<Option<String>>,
    pub uncontract_general: Option<bool>,
    pub uncontract_spdf: Option<bool>,
    pub uncontract_segmented: Option<bool>,
    pub remove_free_primitives: Option<bool>,
    pub make_general: Option<bool>,
    pub optimize_general: Option<bool>,
    pub augment_diffuse: Option<i32>,
    pub augment_steep: Option<i32>,
    pub get_aux: Option<i32>,
    pub data_dir: Option<Option<String>>,
    pub header: Option<bool>,
    pub source: Option<BseDataSource>,
}

impl Default for BseGetBasisArgsBuilder {
    fn default() -> (r: Self)
        ensures
            r.elements is None && r.version is None && r.uncontract_general is None
                && r.uncontract_spdf is None && r.uncontract_segmented is None
                && r.remove_free_primitives is None && r.make_general is None
                && r.optimize_general is None && r.augment_diffuse is None && r.augment_steep is None
                && r.get_aux is None && r.data_dir is None && r.header is None && r.source is None,
    {
        BseGetBasisArgsBuilder {
            elements: None,
            version: None,
            uncontract_general: None,
            uncontract_spdf: None,
            uncontract_segmented: None,
            remove_free_primitives: None,
            make_general: None,
            optimize_general: None,
            augment_diffuse: None,
            augment_steep: None,
            get_aux: None,
            data_dir: None,
            header: None,
            source: None,
        }
    }
}

impl BseGetBasisArgsBuilder {
    /// Set the elements.
    pub fn elements(self, value: String) -> (r: Self)
        ensures
            r == (BseGetBasisArgsBuilder { elements: Some(Some(value)), ..self }),
    {
        BseGetBasisArgsBuilder { elements: Some(Some(value)), ..self }
    }

    /// Set the version.
    pub fn version(self, value: String) -> (r: Self)
        ensures
            r == (BseGetBasisArgsBuilder { version: Some(Some(value)), ..self }),
    {
        BseGetBasisArgsBuilder { version: Some(Some(value)), ..self }
    }

    /// Set whether to remove general contractions.
    pub fn uncontract_general(self, value: bool) -> (r: Self)
        ensures
            r == (BseGetBasisArgsBuilder { uncontract_general: Some(value), ..self }),
    {
        BseGetBasisArgsBuilder { uncontract_general: Some(value), ..self }
    }

    /// Set whether to split combined shells.
    pub fn uncontract_spdf(self, value: bool) -> (r: Self)
        ensures
            r == (BseGetBasisArgsBuilder { uncontract_spdf: Some(value), ..self }),
    {
        BseGetBasisArgsBuilder { uncontract_spdf: Some(value), ..self }
    }

    /// Set whether to uncontract fully.
    pub fn uncontract_segmented(self, value: bool) -> (r: Self)
        ensures
            r == (BseGetBasisArgsBuilder { uncontract_segmented: Some(value), ..self }),
    {
        BseGetBasisArgsBuilder { uncontract_segmented: Some(value), ..self }
    }

    /// Set whether to remove free primitives.
    pub fn remove_free_primitives(self, value: bool) -> (r: Self)
        ensures
            r == (BseGetBasisArgsBuilder { remove_free_primitives: Some(value), ..self }),
    {
        BseGetBasisArgsBuilder { remove_free_primitives: Some(value), ..self }
    }

    /// Set whether to make general contractions.
    pub fn make_general(self, value: bool) -> (r: Self)
        ensures
            r == (BseGetBasisArgsBuilder { make_general: Some(value), ..self }),
    {
        BseGetBasisArgsBuilder { make_general: Some(value), ..self }
    }

    /// Set whether to optimize general contractions.
    pub fn optimize_general(self, value: bool) -> (r: Self)
        ensures
            r == (BseGetBasisArgsBuilder { optimize_general: Some(value), ..self }),
    {
        BseGetBasisArgsBuilder { optimize_general: Some(value), ..self }
    }

    /// Set the number of diffuse functions to add.
    pub fn augment_diffuse(self, value: i32) -> (r: Self)
        ensures
            r == (BseGetBasisArgsBuilder { augment_diffuse: Some(value), ..self }),
    {
        BseGetBasisArgsBuilder { augment_diffuse: Some(value), ..self }
    }

    /// Set the number of steep functions to add.
    pub fn augment_steep(self, value: i32) -> (r: Self)
        ensures
            r == (BseGetBasisArgsBuilder { augment_steep: Some(value), ..self }),
    {
        BseGetBasisArgsBuilder { augment_steep: Some(value), ..self }
    }

    /// Set which auxiliary basis to generate.
    pub fn get_aux(self, value: i32) -> (r: Self)
        ensures
            r == (BseGetBasisArgsBuilder { get_aux: Some(value), ..self }),
    {
        BseGetBasisArgsBuilder { get_aux: Some(value), ..self }
    }

    /// Set the data directory.
    pub fn data_dir(self, value: Option<String>) -> (r: Self)
        ensures
            r == (BseGetBasisArgsBuilder { data_dir: Some(value), ..self }),
    {
        BseGetBasisArgsBuilder { data_dir: Some(value), ..self }
    }

    /// Set whether formatted output has a header.
    pub fn header(self, value: bool) -> (r: Self)
        ensures
            r == (BseGetBasisArgsBuilder { header: Some(value), ..self }),
    {
        BseGetBasisArgsBuilder { header: Some(value), ..self }
    }

    /// Set the data source.
    pub fn source(self, value: BseDataSource) -> (r: Self)
        ensures
            r == (BseGetBasisArgsBuilder { source: Some(value), ..self }),
    {
        BseGetBasisArgsBuilder { source: Some(value), ..self }
    }

    /// Build the arguments: each field set in the builder, or its default.
    pub fn build(self) -> (r: Result<BseGetBasisArgs, BseError>)
        ensures
            r matches Ok(a) && {
                &&& a.elements == (match self.elements { Some(v) => v, None => None })
                &&& a.version == (match self.version { Some(v) => v, None => None })
                &&& a.uncontract_general == (match self.uncontract_general { Some(v) => v, None => false })
                &&& a.uncontract_spdf == (match self.uncontract_spdf { Some(v) => v, None => false })
                &&& a.uncontract_segmented == (match self.uncontract_segmented { Some(v) => v, None => false })
                &&& a.remove_free_primitives == (match self.remove_free_primitives { Some(v) => v, None => false })
                &&& a.make_general == (match self.make_general { Some(v) => v, None => false })
                &&& a.optimize_general == (match self.optimize_general { Some(v) => v, None => false })
                &&& a.augment_diffuse == (match self.augment_diffuse { Some(v) => v, None => 0 })
                &&& a.augment_steep == (match self.augment_steep { Some(v) => v, None => 0 })
                &&& a.get_aux == (match self.get_aux { Some(v) => v, None => 0 })
                &&& a.data_dir == (match self.data_dir { Some(v) => v, None => None })
                &&& a.header == (match self.header { Some(v) => v, None => true })
                &&& a.source == (match self.source { Some(v) => v, None => BseDataSource::Auto })
            },
    {
        Ok(BseGetBasisArgs {
            elements: match self.elements { Some(v) => v, None => None },
            version: match self.version { Some(v) => v, None => None },
            uncontract_general: match self.uncontract_general { Some(v) => v, None => false },
            uncontract_spdf: match self.uncontract_spdf { Some(v) => v, None => false },
            uncontract_segmented: match self.uncontract_segmented { Some(v) => v, None => false },
            remove_free_primitives: match self.remove_free_primitives { Some(v) => v, None => false },
            make_general: match self.make_general { Some(v) => v, None => false },
            optimize_general: match self.optimize_general { Some(v) => v, None => false },
            augment_diffuse: match self.augment_diffuse { Some(v) => v, None => 0 },
            augment_steep: match self.augment_steep { Some(v) => v, None => 0 },
            get_aux: match self.get_aux { Some(v) => v, None => 0 },
            data_dir: match self.data_dir { Some(v) => v, None => None },
            header: match self.header { Some(v) => v, None => true },
            source: match self.source { Some(v) => v, None => BseDataSource::Auto },
        })
    }
}

/// Arguments of basis set filtering; all given criteria must hold.
#[derive(Debug, Clone)]
pub struct BseFilterArgs {
    /// Substring of the basis set name (case insensitive).
    pub substr: Option<String>,
    /// Family of the basis set (case insensitive).
    pub family: Option<String>,
    /// Role of the basis set (case insensitive).
    pub role: Option<String>,
    /// Elements that the basis set must include.
    pub elements: Option<String>,
    /// Override of the data directory path.
    pub data_dir: Option<String>,
}

impl Default for BseFilterArgs {
    fn default() -> (r: Self)
        ensures
            r.substr is None && r.family is None && r.role is None && r.elements is None && r.data_dir is None,
    {
        BseFilterArgs { substr: None, family: None, role: None, elements: None, data_dir: None }
    }
}

/// Builder of [`BseFilterArgs`]: every field left unset is `None`.
#[derive(Debug, Clone)]
pub struct BseFilterArgsBuilder {
    pub substr: Option<String>,
    pub family: Option<String>,
    pub role: Option<String>,
    pub elements: Option<String>,
    pub data_dir: Option<String>,
}

impl Default for BseFilterArgsBuilder {
    fn default() -> (r: Self)
        ensures
            r.substr is None && r.family is None && r.role is None && r.elements is None && r.data_dir is None,
    {
        BseFilterArgsBuilder { substr: None, family: None, role: None, elements: None, data_dir: None }
    }
}

impl BseFilterArgsBuilder {
    /// Set the substring.
    pub fn substr(self, value: String) -> (r: Self)
        ensures
            r == (BseFilterArgsBuilder { substr: Some(value), ..self }),
    {
        BseFilterArgsBuilder { substr: Some(value), ..self }
    }

    /// Set the family.
    pub fn family(self, value: String) -> (r: Self)
        ensures
            r == (BseFilterArgsBuilder { family: Some(value), ..self }),
    {
        BseFilterArgsBuilder { family: Some(value), ..self }
    }

    /// Set the role.
    pub fn role(self, value: String) -> (r: Self)
        ensures
            r == (BseFilterArgsBuilder { role: Some(value), ..self }),
    {
        BseFilterArgsBuilder { role: Some(value), ..self }
    }

    /// Set the elements.
    pub fn elements(self, value: String) -> (r: Self)
        ensures
            r == (BseFilterArgsBuilder { elements: Some(value), ..self }),
    {
        BseFilterArgsBuilder { elements: Some(value), ..self }
    }

    /// Set the data directory.
    pub fn data_dir(self, value: String) -> (r: Self)
        ensures
            r == (BseFilterArgsBuilder { data_dir: Some(value), ..self }),
    {
        BseFilterArgsBuilder { data_dir: Some(value), ..self }
    }

    /// Build the arguments from the fields set.
    pub fn build(self) -> (r: Result<BseFilterArgs, BseError>)
        ensures
            r matches Ok(a) && a.substr == self.substr && a.family == self.family && a.role == self.role
                && a.elements == self.elements && a.data_dir == self.data_dir,
    {
        Ok(BseFilterArgs {
            substr: self.substr,
            family: self.family,
            role: self.role,
            elements: self.elements,
            data_dir: self.data_dir,
        })
    }
}

/* #endregion */

/* #region queries over the metadata */

/// The display names of all basis sets, in the order of the metadata.
pub open spec fn display_names(m: Seq<(Seq<char>, MetaV)>) -> Seq<Seq<char>> {
    m.map_values(|e: (Seq<char>, MetaV)| e.1.display_name)
}

/// The families of all basis sets, in the order of the metadata.
pub open spec fn family_names(m: Seq<(Seq<char>, MetaV)>) -> Seq<Seq<char>> {
    m.map_values(|e: (Seq<char>, MetaV)| e.1.family)
}

/// The display names of all basis sets, sorted.
pub fn get_all_basis_names(metadata: &Vec<(String, BseRootMetadata)>) -> (r: Vec<String>)
    ensures
        r.deep_view() == sort_strs(display_names(metadata_view(metadata@))),
{
    let ghost names = display_names(metadata_view(metadata@));
    let mut r: Vec<String> = Vec::new();
    let mut k: usize = 0;
    while k < metadata.len()
        invariant
            k <= metadata@.len(),
            names == display_names(metadata_view(metadata@)),
            r.deep_view() == sort_strs(names.take(k as int)),
        decreases metadata.len() - k,
    {
        assert(names.take(k + 1).drop_last() =~= names.take(k as int));
        assert(names[k as int] == metadata@[k as int].1.display_name@);
        insert_sorted(&mut r, metadata[k].1.display_name.clone(), false);
        k = k + 1;
    }
    assert(names.take(metadata.len() as int) =~= names);
    r
}

/// The display names of all basis sets, sorted; a `DataNotFound` error when
/// there is no data directory, hence no metadata.
pub fn get_all_basis_names_f(metadata: Option<&Vec<(String, BseRootMetadata)>>) -> (r: Result<Vec<String>, BseError>)
    ensures
        match metadata {
            Some(m) => r matches Ok(v) && v.deep_view() == sort_strs(display_names(metadata_view(m@))),
            None => r matches Err(BseError::DataNotFound(msg)) && msg@ == no_data_dir_msg(),
        },
{
    match metadata {
        Some(m) => Ok(get_all_basis_names(m)),
        None => Err(no_data_dir()),
    }
}

/// The distinct families of all basis sets, sorted.
pub fn get_families(metadata: &Vec<(String, BseRootMetadata)>) -> (r: Vec<String>)
    ensures
        r.deep_view() == sort_distinct_strs(family_names(metadata_view(metadata@))),
{
    let ghost names = family_names(metadata_view(metadata@));
    let mut r: Vec<String> = Vec::new();
    let mut k: usize = 0;
    while k < metadata.len()
        invariant
            k <= metadata@.len(),
            names == family_names(metadata_view(metadata@)),
            r.deep_view() == sort_distinct_strs(names.take(k as int)),
        decreases metadata.len() - k,
    {
        assert(names.take(k + 1).drop_last() =~= names.take(k as int));
        assert(names[k as int] == metadata@[k as int].1.family@);
        insert_sorted(&mut r, metadata[k].1.family.clone(), true);
        k = k + 1;
    }
    assert(names.take(metadata.len() as int) =~= names);
    r
}

/// The distinct families of all basis sets, sorted; a `DataNotFound` error
/// when there is no metadata.
pub fn get_families_f(metadata: Option<&Vec<(String, BseRootMetadata)>>) -> (r: Result<Vec<String>, BseError>)
    ensures
        match metadata {
            Some(m) => r matches Ok(v) && v.deep_view() == sort_distinct_strs(family_names(metadata_view(m@))),
            None => r matches Err(BseError::DataNotFound(msg)) && msg@ == no_data_dir_msg(),
        },
{
    match metadata {
        Some(m) => Ok(get_families(m)),
        None => Err(no_data_dir()),
    }
}

/// The first index below `n` of `key` in `keys`.
pub open spec fn first_index_below(keys: Seq<Seq<char>>, key: Seq<char>, n: int) -> Option<int>
    decreases n,
{
    if n <= 0 {
        None
    } else {
        match first_index_below(keys, key, n - 1) {
            Some(i) => Some(i),
            None => if keys[n - 1] == key {
                Some(n - 1)
            } else {
                None
            },
        }
    }
}

/// The first index of `key` in `keys`.
pub open spec fn first_index(keys: Seq<Seq<char>>, key: Seq<char>) -> Option<int> {
    first_index_below(keys, key, keys.len() as int)
}

/// The internal names of all basis sets.
pub open spec fn meta_keys(m: Seq<(Seq<char>, MetaV)>) -> Seq<Seq<char>> {
    m.map_values(|e: (Seq<char>, MetaV)| e.0)
}

/// The roles of a map of auxiliary basis sets.
pub open spec fn aux_keys(a: Seq<(Seq<char>, AuxV)>) -> Seq<Seq<char>> {
    a.map_values(|e: (Seq<char>, AuxV)| e.0)
}

/// The names of an auxiliary basis reference.
pub open spec fn aux_names(a: AuxV) -> Seq<Seq<char>> {
    match a {
        AuxV::Str(s) => seq![s],
        AuxV::Vec(v) => v,
    }
}

pub(crate) proof fn lemma_first_index_step(keys: Seq<Seq<char>>, key: Seq<char>, n: int)
    requires
        0 <= n < keys.len(),
        first_index_below(keys, key, n) is None,
    ensures
        first_index_below(keys, key, n + 1) == (if keys[n] == key { Some(n) } else { None::<int> }),
{
}

pub(crate) proof fn lemma_first_index_stable(keys: Seq<Seq<char>>, key: Seq<char>, n: int, m: int)
    requires
        n <= m,
        first_index_below(keys, key, n) is Some,
    ensures
        first_index_below(keys, key, m) == first_index_below(keys, key, n),
    decreases m - n,
{
    if n < m {
        lemma_first_index_stable(keys, key, n, m - 1);
    }
}

pub(crate) proof fn lemma_first_index_range(keys: Seq<Seq<char>>, key: Seq<char>, n: int)
    ensures
        first_index_below(keys, key, n) matches Some(i) ==> 0 <= i < n && keys[i] == key,
    decreases n,
{
    if n > 0 {
        lemma_first_index_range(keys, key, n - 1);
    }
}

/// The position of the basis set with internal name `key`.
pub(crate) fn find_basis(metadata: &Vec<(String, BseRootMetadata)>, key: &[char]) -> (r: Option<usize>)
    ensures
        match r {
            Some(i) => first_index(meta_keys(metadata_view(metadata@)), key@) == Some(i as int),
            None => first_index(meta_keys(metadata_view(metadata@)), key@) is None,
        },
{
    let ghost keys = meta_keys(metadata_view(metadata@));
    let mut k: usize = 0;
    while k < metadata.len()
        invariant
            k <= metadata@.len(),
            keys == meta_keys(metadata_view(metadata@)),
            first_index_below(keys, key@, k as int) is None,
        decreases metadata.len() - k,
    {
        proof {
            lemma_first_index_step(keys, key@, k as int);
        }
        assert(keys[k as int] == metadata@[k as int].0@);
        let c = chars_of(metadata[k].0.as_str());
        if chars_eq(c.as_slice(), key) {
            proof {
                lemma_first_index_stable(keys, key@, k + 1, keys.len() as int);
            }
            return Some(k);
        }
        k = k + 1;
    }
    None
}

/// The position of role `key` in a map of auxiliary basis sets.
fn find_aux(aux: &Vec<(String, BseAuxiliary)>, key: &[char]) -> (r: Option<usize>)
    ensures
        match r {
            Some(i) => first_index(aux_keys(aux_map_view(aux@)), key@) == Some(i as int),
            None => first_index(aux_keys(aux_map_view(aux@)), key@) is None,
        },
{
    let ghost keys = aux_keys(aux_map_view(aux@));
    let mut k: usize = 0;
    while k < aux.len()
        invariant
            k <= aux@.len(),
            keys == aux_keys(aux_map_view(aux@)),
            first_index_below(keys, key@, k as int) is None,
        decreases aux.len() - k,
    {
        proof {
            lemma_first_index_step(keys, key@, k as int);
        }
        assert(keys[k as int] == aux@[k as int].0@);
        let c = chars_of(aux[k].0.as_str());
        if chars_eq(c.as_slice(), key) {
            proof {
                lemma_first_index_stable(keys, key@, k + 1, keys.len() as int);
            }
            return Some(k);
        }
        k = k + 1;
    }
    None
}

/// The outcome of an auxiliary lookup over the metadata `m`: the names of
/// the auxiliary basis sets of role `role` of the basis set with internal
/// name `key`, or the error that tells which step failed.
pub open spec fn lookup_spec(m: Seq<(Seq<char>, MetaV)>, key: Seq<char>, role: Seq<char>) -> Result<Seq<Seq<char>>, ()> {
    match first_index(meta_keys(m), key) {
        Some(i) => match first_index(aux_keys(m[i].1.auxiliaries), role) {
            Some(j) => Ok(aux_names(m[i].1.auxiliaries[j].1)),
            None => Err(()),
        },
        None => Err(()),
    }
}

/// Look up the names of the auxiliary basis sets of a role (case
/// insensitive) for a primary basis set (case insensitive). The errors: no
/// metadata (`DataNotFound`), a role that is not a role (`ValueError`), no
/// such basis set (`DataNotFound`), and a basis set without that role
/// (`ValueError`).
pub fn lookup_basis_by_role_f(
    primary_basis: &str,
    role: &str,
    metadata: Option<&Vec<(String, BseRootMetadata)>>,
) -> (r: Result<Vec<String>, BseError>)
    ensures
        match metadata {
            None => r matches Err(BseError::DataNotFound(msg)) && msg@ == no_data_dir_msg(),
            Some(md) => {
                let m = metadata_view(md@);
                let rl = lowercase_of(role@);
                let key = crate::misc::escape_name(lowercase_of(primary_basis@));
                if !role_names().contains(rl) {
                    r matches Err(BseError::ValueError(_))
                } else {
                    match first_index(meta_keys(m), key) {
                        None => r matches Err(BseError::DataNotFound(_)),
                        Some(i) => match first_index(aux_keys(m[i].1.auxiliaries), rl) {
                            None => r matches Err(BseError::ValueError(_)),
                            Some(j) => r matches Ok(v) && v.deep_view() == aux_names(m[i].1.auxiliaries[j].1),
                        },
                    }
                }
            },
        },
{
    let md = match metadata {
        Some(m) => m,
        None => {
            return Err(no_data_dir());
        },
    };
    let rl = to_lowercase(role);
    let rc = chars_of(rl.as_str());
    if !is_role(rc.as_slice()) {
        let mut msg = "Role '".to_owned();
        push_str(&mut msg, rl.as_str());
        push_str(&mut msg, "' is not a valid role");
        return Err(BseError::ValueError(msg));
    }
    let tr = crate::misc::transform_basis_name(primary_basis);
    let tc = chars_of(tr.as_str());
    let i = match find_basis(md, tc.as_slice()) {
        Some(i) => i,
        None => {
            let mut msg = "Basis set `".to_owned();
            push_str(&mut msg, primary_basis);
            push_str(&mut msg, "` not found in metadata");
            return Err(BseError::DataNotFound(msg));
        },
    };
    proof {
        lemma_first_index_range(meta_keys(metadata_view(md@)), tc@, md@.len() as int);
    }
    let aux = &md[i].1.auxiliaries;
    assert(metadata_view(md@)[i as int].1.auxiliaries == aux_map_view(aux@));
    match find_aux(aux, rc.as_slice()) {
        Some(_) => Ok(lookup_basis_by_role(primary_basis, role, md)),
        None => {
            let mut msg = "Role '".to_owned();
            push_str(&mut msg, rl.as_str());
            push_str(&mut msg, "' doesn't exist for basis set '");
            push_str(&mut msg, primary_basis);
            push_str(&mut msg, "'");
            Err(BseError::ValueError(msg))
        },
    }
}

/// The names of entry `j` of the auxiliaries of basis set `i`.
fn aux_names_at(md: &Vec<(String, BseRootMetadata)>, i: usize, j: usize) -> (r: Vec<String>)
    requires
        i < md@.len(),
        j < md@[i as int].1.auxiliaries@.len(),
    ensures
        r.deep_view() == aux_names(metadata_view(md@)[i as int].1.auxiliaries[j as int].1),
{
    let aux = &md[i].1.auxiliaries;
    assert(metadata_view(md@)[i as int].1.auxiliaries == aux_map_view(aux@));
    assert(aux_map_view(aux@)[j as int].1 == aux@[j as int].1@);
    match &aux[j].1 {
        BseAuxiliary::Str(s) => {
            let v = vec![s.clone()];
            assert(v.deep_view() =~= seq![s@]);
            v
        },
        BseAuxiliary::Vec(v) => crate::fields::copy_strings(v),
    }
}

/// Look up the names of the auxiliary basis sets of a role for a primary
/// basis set, in metadata that has them.
pub fn lookup_basis_by_role(primary_basis: &str, role: &str, metadata: &Vec<(String, BseRootMetadata)>) -> (r: Vec<String>)
    requires
        role_names().contains(lowercase_of(role@)),
        lookup_spec(
            metadata_view(metadata@),
            crate::misc::escape_name(lowercase_of(primary_basis@)),
            lowercase_of(role@),
        ) is Ok,
    ensures
        lookup_spec(
            metadata_view(metadata@),
            crate::misc::escape_name(lowercase_of(primary_basis@)),
            lowercase_of(role@),
        ) == Ok::<Seq<Seq<char>>, ()>(r.deep_view()),
        crate::text::ascii_text(primary_basis@) && crate::text::ascii_text(role@) ==> lookup_spec(
            metadata_view(metadata@),
            crate::misc::escape_name(crate::text::ascii_lower(primary_basis@)),
            crate::text::ascii_lower(role@),
        ) == Ok::<Seq<Seq<char>>, ()>(r.deep_view()),
{
    let rl = to_lowercase(role);
    let rc = chars_of(rl.as_str());
    let tr = crate::misc::transform_basis_name(primary_basis);
    let tc = chars_of(tr.as_str());
    match find_basis(metadata, tc.as_slice()) {
        Some(i) => {
            proof {
                lemma_first_index_range(meta_keys(metadata_view(metadata@)), tc@, metadata@.len() as int);
            }
            let aux = &metadata[i].1.auxiliaries;
            assert(metadata_view(metadata@)[i as int].1.auxiliaries == aux_map_view(aux@));
            match find_aux(aux, rc.as_slice()) {
                Some(j) => {
                    proof {
                        lemma_first_index_range(aux_keys(aux_map_view(aux@)), rc@, aux@.len() as int);
                    }
                    aux_names_at(metadata, i, j)
                },
                None => Vec::new(),
            }
        },
        None => Vec::new(),
    }
}

/* #endregion */

/// The lookup of auxiliary basis sets is case insensitive: for ASCII names,
/// looking up the uppercased basis set name and role gives what looking
/// up the names themselves gives.
pub proof fn law_lookup_case_insensitive(m: Seq<(Seq<char>, MetaV)>, primary: Seq<char>, role: Seq<char>)
    requires
        crate::text::ascii_text(primary),
        crate::text::ascii_text(role),
    ensures
        crate::text::ascii_text(crate::text::ascii_upper(primary)),
        crate::text::ascii_text(crate::text::ascii_upper(role)),
        lookup_spec(
            m,
            crate::misc::escape_name(crate::text::ascii_lower(crate::text::ascii_upper(primary))),
            crate::text::ascii_lower(crate::text::ascii_upper(role)),
        ) == lookup_spec(m, crate::misc::escape_name(crate::text::ascii_lower(primary)), crate::text::ascii_lower(role)),
{
    crate::text::law_ascii_case_fold(primary);
    crate::text::law_ascii_case_fold(role);
}

/* #region filtering */

/// The ranges of atomic numbers that an element list names.
pub open spec fn list_ranges(s: Seq<char>) -> Seq<(i32, i32)> {
    let toks = crate::misc::comma_tokens(crate::misc::normalized_list(s));
    Seq::new(toks.len(), |k: int| crate::misc::token_range(toks[k])->0)
}

/// Every item of an element list names a range of atomic numbers.
pub open spec fn list_ok(s: Seq<char>) -> bool {
    let toks = crate::misc::comma_tokens(crate::misc::normalized_list(s));
    forall|k: int| 0 <= k < toks.len() ==> #[trigger] crate::misc::token_range(toks[k]) is Some
}

/// A version covers every atomic number of the ranges: each is the value
/// of one of its element strings.
pub open spec fn ver_covers(v: VerV, ranges: Seq<(i32, i32)>) -> bool {
    forall|x: i32|
        #[trigger] crate::misc::covered(ranges, x) ==> exists|j: int|
            0 <= j < v.elements.len() && crate::text::parse_i32_spec(#[trigger] v.elements[j]) == Some(x)
}

/// The versions that cover the ranges, in order.
pub open spec fn keep_versions(vs: Seq<(Seq<char>, VerV)>, ranges: Seq<(i32, i32)>) -> Seq<(Seq<char>, VerV)>
    decreases vs.len(),
{
    if vs.len() == 0 {
        Seq::empty()
    } else if ver_covers(vs.last().1, ranges) {
        keep_versions(vs.drop_last(), ranges).push(vs.last())
    } else {
        keep_versions(vs.drop_last(), ranges)
    }
}

/// The basis sets of a family.
pub open spec fn keep_family(m: Seq<(Seq<char>, MetaV)>, f: Seq<char>) -> Seq<(Seq<char>, MetaV)>
    decreases m.len(),
{
    if m.len() == 0 {
        Seq::empty()
    } else if m.last().1.family == f {
        keep_family(m.drop_last(), f).push(m.last())
    } else {
        keep_family(m.drop_last(), f)
    }
}

/// The basis sets of a role.
pub open spec fn keep_role(m: Seq<(Seq<char>, MetaV)>, r: Seq<char>) -> Seq<(Seq<char>, MetaV)>
    decreases m.len(),
{
    if m.len() == 0 {
        Seq::empty()
    } else if m.last().1.role == r {
        keep_role(m.drop_last(), r).push(m.last())
    } else {
        keep_role(m.drop_last(), r)
    }
}

/// The basis sets with their versions that cover the ranges, and only
/// those with such a version.
pub open spec fn keep_elements(m: Seq<(Seq<char>, MetaV)>, ranges: Seq<(i32, i32)>) -> Seq<(Seq<char>, MetaV)>
    decreases m.len(),
{
    if m.len() == 0 {
        Seq::empty()
    } else {
        let e = m.last();
        let vs = keep_versions(e.1.versions, ranges);
        if vs.len() > 0 {
            keep_elements(m.drop_last(), ranges).push((e.0, MetaV { versions: vs, ..e.1 }))
        } else {
            keep_elements(m.drop_last(), ranges)
        }
    }
}

/// The basis sets whose internal name, or lowercased display name, holds
/// `sub`.
pub open spec fn keep_substr(m: Seq<(Seq<char>, MetaV)>, sub: Seq<char>) -> Seq<(Seq<char>, MetaV)>
    decreases m.len(),
{
    if m.len() == 0 {
        Seq::empty()
    } else if contains_spec(m.last().0, sub) || contains_spec(lowercase_of(m.last().1.display_name), sub) {
        keep_substr(m.drop_last(), sub).push(m.last())
    } else {
        keep_substr(m.drop_last(), sub)
    }
}

/// The outcome of filtering the metadata `m` by the criteria of `args`, in
/// their order: family, role, elements, substring. `Err` marks a family
/// that is not a family or a role that is not a role (`ValueError`), or an
/// element list with an item that names no range.
pub open spec fn filter_spec(m: Seq<(Seq<char>, MetaV)>, args: BseFilterArgs) -> Result<Seq<(Seq<char>, MetaV)>, ()> {
    let fam_bad = match args.family {
        Some(f) => !sort_distinct_strs(family_names(m)).contains(lowercase_of(f@)),
        None => false,
    };
    let role_bad = match args.role {
        Some(r) => !role_names().contains(lowercase_of(r@)),
        None => false,
    };
    let el_bad = match args.elements {
        Some(e) => !list_ok(e@),
        None => false,
    };
    if fam_bad || role_bad || el_bad {
        Err(())
    } else {
        let m1 = match args.family {
            Some(f) => keep_family(m, lowercase_of(f@)),
            None => m,
        };
        let m2 = match args.role {
            Some(r) => keep_role(m1, lowercase_of(r@)),
            None => m1,
        };
        let m3 = match args.elements {
            Some(e) => keep_elements(m2, list_ranges(e@)),
            None => m2,
        };
        let m4 = match args.substr {
            Some(sub) => keep_substr(m3, lowercase_of(sub@)),
            None => m3,
        };
        Ok(m4)
    }
}

/// Keep the basis sets of a family.
fn retain_family(m: Vec<(String, BseRootMetadata)>, f: &[char]) -> (r: Vec<(String, BseRootMetadata)>)
    ensures
        metadata_view(r@) == keep_family(metadata_view(m@), f@),
{
    let ghost mv = metadata_view(m@);
    let mut m = m;
    let mut r: Vec<(String, BseRootMetadata)> = Vec::new();
    let ghost mut k: int = 0;
    while m.len() > 0
        invariant
            0 <= k <= mv.len(),
            metadata_view(m@) == mv.skip(k),
            metadata_view(r@) == keep_family(mv.take(k), f@),
        decreases m.len(),
    {
        let ghost before = metadata_view(r@);
        assert(metadata_view(m@).len() == m@.len());
        assert(k < mv.len());
        assert(metadata_view(m@)[0] == mv[k]);
        let ghost old_m = m@;
        let ghost old_view = metadata_view(m@);
        let e = m.remove(0);
        assert(m@ =~= old_m.subrange(1, old_m.len() as int));
        assert(mv[k] == (e.0@, e.1@)) by {
            assert(mv.skip(k)[0] == mv[k]);
        }
        assert(mv.take(k + 1).drop_last() =~= mv.take(k));
        let fc = chars_of(e.1.family.as_str());
        if chars_eq(fc.as_slice(), f) {
            r.push(e);
            assert(metadata_view(r@) =~= before.push(mv[k]));
        }
        proof {
            k = k + 1;
        }
        assert(metadata_view(m@) =~= old_view.subrange(1, old_view.len() as int));
        assert(metadata_view(m@) =~= mv.skip(k));
    }
    assert(mv.take(k) =~= mv);
    r
}

/// Keep the basis sets of a role.
fn retain_role(m: Vec<(String, BseRootMetadata)>, role: &[char]) -> (r: Vec<(String, BseRootMetadata)>)
    ensures
        metadata_view(r@) == keep_role(metadata_view(m@), role@),
{
    let ghost mv = metadata_view(m@);
    let mut m = m;
    let mut r: Vec<(String, BseRootMetadata)> = Vec::new();
    let ghost mut k: int = 0;
    while m.len() > 0
        invariant
            0 <= k <= mv.len(),
            metadata_view(m@) == mv.skip(k),
            metadata_view(r@) == keep_role(mv.take(k), role@),
        decreases m.len(),
    {
        let ghost before = metadata_view(r@);
        assert(metadata_view(m@).len() == m@.len());
        assert(k < mv.len());
        assert(metadata_view(m@)[0] == mv[k]);
        let ghost old_m = m@;
        let ghost old_view = metadata_view(m@);
        let e = m.remove(0);
        assert(m@ =~= old_m.subrange(1, old_m.len() as int));
        assert(mv[k] == (e.0@, e.1@)) by {
            assert(mv.skip(k)[0] == mv[k]);
        }
        assert(mv.take(k + 1).drop_last() =~= mv.take(k));
        let rc = chars_of(e.1.role.as_str());
        if chars_eq(rc.as_slice(), role) {
            r.push(e);
            assert(metadata_view(r@) =~= before.push(mv[k]));
        }
        proof {
            k = k + 1;
        }
        assert(metadata_view(m@) =~= old_view.subrange(1, old_view.len() as int));
        assert(metadata_view(m@) =~= mv.skip(k));
    }
    assert(mv.take(k) =~= mv);
    r
}

/// Keep the basis sets whose internal name or lowercased display name holds
/// the substring.
fn retain_substr(m: Vec<(String, BseRootMetadata)>, sub: &[char]) -> (r: Vec<(String, BseRootMetadata)>)
    ensures
        metadata_view(r@) == keep_substr(metadata_view(m@), sub@),
{
    let ghost mv = metadata_view(m@);
    let mut m = m;
    let mut r: Vec<(String, BseRootMetadata)> = Vec::new();
    let ghost mut k: int = 0;
    while m.len() > 0
        invariant
            0 <= k <= mv.len(),
            metadata_view(m@) == mv.skip(k),
            metadata_view(r@) == keep_substr(mv.take(k), sub@),
        decreases m.len(),
    {
        let ghost before = metadata_view(r@);
        assert(metadata_view(m@).len() == m@.len());
        assert(k < mv.len());
        assert(metadata_view(m@)[0] == mv[k]);
        let ghost old_m = m@;
        let ghost old_view = metadata_view(m@);
        let e = m.remove(0);
        assert(m@ =~= old_m.subrange(1, old_m.len() as int));
        assert(mv[k] == (e.0@, e.1@)) by {
            assert(mv.skip(k)[0] == mv[k]);
        }
        assert(mv.take(k + 1).drop_last() =~= mv.take(k));
        let kc = chars_of(e.0.as_str());
        let dl = to_lowercase(e.1.display_name.as_str());
        let dc = chars_of(dl.as_str());
        if crate::text::contains(kc.as_slice(), sub) || crate::text::contains(dc.as_slice(), sub) {
            r.push(e);
            assert(metadata_view(r@) =~= before.push(mv[k]));
        }
        proof {
            k = k + 1;
        }
        assert(metadata_view(m@) =~= old_view.subrange(1, old_view.len() as int));
        assert(metadata_view(m@) =~= mv.skip(k));
    }
    assert(mv.take(k) =~= mv);
    r
}

/// Whether a version covers every atomic number of `es`.
fn version_covers(ver: &BseRootMetadataVer, es: &Vec<i32>, ranges: Ghost<Seq<(i32, i32)>>) -> (r: bool)
    requires
        crate::misc::covers_exactly(es@, ranges@),
    ensures
        r == ver_covers(ver@, ranges@),
{
    let ghost els = ver.elements.deep_view();
    let mut i: usize = 0;
    while i < es.len()
        invariant
            i <= es@.len(),
            els == ver.elements.deep_view(),
            crate::misc::covers_exactly(es@, ranges@),
            forall|t: int| 0 <= t < i ==> exists|j: int|
                0 <= j < els.len() && crate::text::parse_i32_spec(#[trigger] els[j]) == Some(#[trigger] es@[t]),
        decreases es.len() - i,
    {
        let x = es[i];
        assert(els == ver@.elements);
        let mut found = false;
        let mut j: usize = 0;
        while j < ver.elements.len()
            invariant
                j <= els.len(),
                els == ver.elements.deep_view(),
                found ==> exists|t: int| 0 <= t < els.len() && crate::text::parse_i32_spec(#[trigger] els[t]) == Some(x),
                !found ==> forall|t: int| 0 <= t < j ==> crate::text::parse_i32_spec(#[trigger] els[t]) != Some(x),
            decreases ver.elements.len() - j,
        {
            let c = chars_of(ver.elements[j].as_str());
            assert(els[j as int] == ver.elements@[j as int]@);
            if crate::text::parse_i32(c.as_slice()) == Some(x) {
                found = true;
            }
            j = j + 1;
        }
        if !found {
            assert(crate::misc::covered(ranges@, x));
            assert(!ver_covers(ver@, ranges@));
            return false;
        }
        i = i + 1;
    }
    assert forall|x: i32| #[trigger] crate::misc::covered(ranges@, x) implies exists|j: int|
        0 <= j < ver@.elements.len() && crate::text::parse_i32_spec(#[trigger] ver@.elements[j]) == Some(x) by {
        assert(es@.contains(x));
        let t = choose|t: int| 0 <= t < es@.len() && es@[t] == x;
        assert(exists|j: int| 0 <= j < els.len() && crate::text::parse_i32_spec(#[trigger] els[j]) == Some(es@[t]));
        let j = choose|j: int| 0 <= j < els.len() && crate::text::parse_i32_spec(#[trigger] els[j]) == Some(es@[t]);
        assert(crate::text::parse_i32_spec(ver@.elements[j]) == Some(x));
    }
    assert(ver_covers(ver@, ranges@));
    true
}

/// Keep the versions that cover the atomic numbers.
fn retain_versions(vs: Vec<(String, BseRootMetadataVer)>, es: &Vec<i32>, ranges: Ghost<Seq<(i32, i32)>>) -> (r: Vec<(String, BseRootMetadataVer)>)
    requires
        crate::misc::covers_exactly(es@, ranges@),
    ensures
        versions_view(r@) == keep_versions(versions_view(vs@), ranges@),
{
    let ghost vv = versions_view(vs@);
    let mut vs = vs;
    let mut r: Vec<(String, BseRootMetadataVer)> = Vec::new();
    let ghost mut k: int = 0;
    while vs.len() > 0
        invariant
            0 <= k <= vv.len(),
            crate::misc::covers_exactly(es@, ranges@),
            versions_view(vs@) == vv.skip(k),
            versions_view(r@) == keep_versions(vv.take(k), ranges@),
        decreases vs.len(),
    {
        let ghost before = versions_view(r@);
        assert(versions_view(vs@).len() == vs@.len());
        assert(k < vv.len());
        assert(versions_view(vs@)[0] == vv[k]);
        let ghost old_m = vs@;
        let ghost old_view = versions_view(vs@);
        let e = vs.remove(0);
        assert(vs@ =~= old_m.subrange(1, old_m.len() as int));
        assert(vv[k] == (e.0@, e.1@)) by {
            assert(vv.skip(k)[0] == vv[k]);
        }
        assert(vv.take(k + 1).drop_last() =~= vv.take(k));
        if version_covers(&e.1, es, ranges) {
            r.push(e);
            assert(versions_view(r@) =~= before.push(vv[k]));
        }
        proof {
            k = k + 1;
        }
        assert(versions_view(vs@) =~= old_view.subrange(1, old_view.len() as int));
        assert(versions_view(vs@) =~= vv.skip(k));
    }
    assert(vv.take(k) =~= vv);
    r
}

/// Keep the basis sets with versions that cover the atomic numbers, with
/// those versions only.
fn retain_elements(m: Vec<(String, BseRootMetadata)>, es: &Vec<i32>, ranges: Ghost<Seq<(i32, i32)>>) -> (r: Vec<(String, BseRootMetadata)>)
    requires
        crate::misc::covers_exactly(es@, ranges@),
    ensures
        metadata_view(r@) == keep_elements(metadata_view(m@), ranges@),
{
    let ghost mv = metadata_view(m@);
    let mut m = m;
    let mut r: Vec<(String, BseRootMetadata)> = Vec::new();
    let ghost mut k: int = 0;
    while m.len() > 0
        invariant
            0 <= k <= mv.len(),
            crate::misc::covers_exactly(es@, ranges@),
            metadata_view(m@) == mv.skip(k),
            metadata_view(r@) == keep_elements(mv.take(k), ranges@),
        decreases m.len(),
    {
        let ghost before = metadata_view(r@);
        assert(metadata_view(m@).len() == m@.len());
        assert(k < mv.len());
        assert(metadata_view(m@)[0] == mv[k]);
        let ghost old_m = m@;
        let ghost old_view = metadata_view(m@);
        let (key, meta) = m.remove(0);
        assert(m@ =~= old_m.subrange(1, old_m.len() as int));
        assert(mv[k] == (key@, meta@)) by {
            assert(mv.skip(k)[0] == mv[k]);
        }
        assert(mv.take(k + 1).drop_last() =~= mv.take(k));
        let BseRootMetadata {
            display_name,
            other_names,
            description,
            latest_version,
            tags,
            basename,
            relpath,
            family,
            role,
            function_types,
            auxiliaries,
            versions,
        } = meta;
        let kept = retain_versions(versions, es, ranges);
        if kept.len() > 0 {
            let nm = BseRootMetadata {
                display_name,
                other_names,
                description,
                latest_version,
                tags,
                basename,
                relpath,
                family,
                role,
                function_types,
                auxiliaries,
                versions: kept,
            };
            let ghost e = mv[k];
            assert(nm@ == (MetaV { versions: keep_versions(e.1.versions, ranges@), ..e.1 }));
            r.push((key, nm));
            assert(metadata_view(r@) =~= before.push((e.0, MetaV { versions: keep_versions(e.1.versions, ranges@), ..e.1 })));
        }
        proof {
            k = k + 1;
        }
        assert(metadata_view(m@) =~= old_view.subrange(1, old_view.len() as int));
        assert(metadata_view(m@) =~= mv.skip(k));
    }
    assert(mv.take(k) =~= mv);
    r
}

/// Filter the basis sets of the metadata by the criteria of `args` (all
/// must hold): family, role, elements covered by a version (keeping only
/// such versions), and a substring of the internal or display name, all
/// compared in lowercase. The errors: no metadata (`DataNotFound`), a family
/// or role that does not exist (`ValueError`), and an element list with an
/// item that names no range (the error of the element list).
pub fn filter_basis_sets_f(args: BseFilterArgs, metadata: Option<Vec<(String, BseRootMetadata)>>) -> (r: Result<Vec<(String, BseRootMetadata)>, BseError>)
    ensures
        match metadata {
            None => r matches Err(BseError::DataNotFound(msg)) && msg@ == no_data_dir_msg(),
            Some(md) => match filter_spec(metadata_view(md@), args) {
                Ok(v) => r matches Ok(out) && metadata_view(out@) == v,
                Err(_) => r is Err,
            },
        },
{
    let md = match metadata {
        Some(m) => m,
        None => {
            return Err(no_data_dir());
        },
    };
    let ghost m0 = metadata_view(md@);
    let mut cur = md;
    if let Some(f) = &args.family {
        let fl = to_lowercase(f.as_str());
        let fc = chars_of(fl.as_str());
        let families = get_families(&cur);
        if !crate::formats::strings_contain(&families, fc.as_slice()) {
            let mut msg = "Family '".to_owned();
            push_str(&mut msg, fl.as_str());
            push_str(&mut msg, "' is not a valid family");
            return Err(BseError::ValueError(msg));
        }
        cur = retain_family(cur, fc.as_slice());
    }
    let ghost m1 = metadata_view(cur@);
    if let Some(role) = &args.role {
        let rl = to_lowercase(role.as_str());
        let rc = chars_of(rl.as_str());
        if !is_role(rc.as_slice()) {
            let mut msg = "Role '".to_owned();
            push_str(&mut msg, rl.as_str());
            push_str(&mut msg, "' is not a valid role");
            return Err(BseError::ValueError(msg));
        }
        cur = retain_role(cur, rc.as_slice());
    }
    let ghost m2 = metadata_view(cur@);
    if let Some(el) = &args.elements {
        match crate::misc::expand_elements_f(el.as_str()) {
            Ok(es) => {
                let ghost ranges = list_ranges(el@);
                cur = retain_elements(cur, &es, Ghost(ranges));
            },
            Err(e) => {
                return Err(e);
            },
        }
    }
    let ghost m3 = metadata_view(cur@);
    if let Some(sub) = &args.substr {
        let sl = to_lowercase(sub.as_str());
        let sc = chars_of(sl.as_str());
        cur = retain_substr(cur, sc.as_slice());
    }
    Ok(cur)
}

/// Filter the basis sets of the metadata by criteria that are all valid.
pub fn filter_basis_sets(args: BseFilterArgs, metadata: Vec<(String, BseRootMetadata)>) -> (r: Vec<(String, BseRootMetadata)>)
    requires
        filter_spec(metadata_view(metadata@), args) is Ok,
    ensures
        filter_spec(metadata_view(metadata@), args) == Ok::<Seq<(Seq<char>, MetaV)>, ()>(metadata_view(r@)),
{
    match filter_basis_sets_f(args, Some(metadata)) {
        Ok(v) => v,
        Err(_) => Vec::new(),
    }
}

/* #endregion */

} // verus!
