//! The table of output formats, and the driver that converts basis set data
//! to one of them.
use crate::error::BseError;
use crate::formats::{
    strs_view, types_all, types_no_ecp, types_spherical, types_all_vec, types_no_ecp_vec,
    types_spherical_vec, list1, list2, list4, names_contain, ascii_ci_eq, any_ascii_ci, trim_dots,
    trim_leading_dots, opt_strings, types_supported, lowercase_all, all_supported,
};
use crate::text::{chars_of, lowercase_of, to_lowercase};
use vstd::prelude::*;

verus! {

/// Number of output formats.
pub const NUM_WRITERS: usize = 29;

/// Mathematical value of an output format's entry.
pub struct WriterRow {
    pub name: Seq<char>,
    pub display: Seq<char>,
    pub extension: Seq<char>,
    pub comment: Seq<char>,
    pub valid: Seq<Seq<char>>,
    pub names: Seq<Seq<char>>,
}

/// The output formats: canonical name, display name, file extension,
/// comment marker, supported function types and all accepted names.
pub open spec fn writer_row(k: int) -> WriterRow {
    if k == 0 {
        WriterRow {
            name: "nwchem"@,
            display: "NWChem"@,
            extension: ".nw"@,
            comment: "#"@,
            valid: types_all(),
            names: seq!["nwchem"@, "nw"@],
        }
    } else if k == 1 {
        WriterRow {
            name: "gaussian94"@,
            display: "Gaussian"@,
            extension: ".gbs"@,
            comment: "!"@,
            valid: types_all(),
            names: seq!["gaussian94"@, "g94"@, "gaussian"@, "gau"@],
        }
    } else if k == 2 {
        WriterRow {
            name: "gaussian94lib"@,
            display: "Gaussian, system library"@,
            extension: ".gbs"@,
            comment: "!"@,
            valid: types_all(),
            names: seq!["gaussian94lib"@, "g94lib"@],
        }
    } else if k == 3 {
        WriterRow {
            name: "psi4"@,
            display: "Psi4"@,
            extension: ".gbs"@,
            comment: "!"@,
            valid: types_all(),
            names: seq!["psi4"@],
        }
    } else if k == 4 {
        WriterRow {
            name: "molcas"@,
            display: "Molcas"@,
            extension: ".molcas"@,
            comment: "*"@,
            valid: types_all(),
            names: seq!["molcas"@],
        }
    } else if k == 5 {
        WriterRow {
            name: "qchem"@,
            display: "Q-Chem"@,
            extension: ".qchem"@,
            comment: "!"@,
            valid: types_all(),
            names: seq!["qchem"@],
        }
    } else if k == 6 {
        WriterRow {
            name: "orca"@,
            display: "ORCA"@,
            extension: ".orca"@,
            comment: "!"@,
            valid: types_all(),
            names: seq!["orca"@],
        }
    } else if k == 7 {
        WriterRow {
            name: "dalton"@,
            display: "Dalton"@,
            extension: ".dalton"@,
            comment: "!"@,
            valid: types_all(),
            names: seq!["dalton"@],
        }
    } else if k == 8 {
        WriterRow {
            name: "qcschema"@,
            display: "QCSchema"@,
            extension: ".json"@,
            comment: ""@,
            valid: types_all(),
            names: seq!["qcschema"@],
        }
    } else if k == 9 {
        WriterRow {
            name: "cp2k"@,
            display: "CP2K"@,
            extension: ".cp2k"@,
            comment: "#"@,
            valid: types_all(),
            names: seq!["cp2k"@],
        }
    } else if k == 10 {
        WriterRow {
            name: "pqs"@,
            display: "PQS"@,
            extension: ".pqs"@,
            comment: "!"@,
            valid: types_all(),
            names: seq!["pqs"@],
        }
    } else if k == 11 {
        WriterRow {
            name: "demon2k"@,
            display: "deMon2K"@,
            extension: ".d2k"@,
            comment: "#"@,
            valid: types_all(),
            names: seq!["demon2k"@, "d2k"@],
        }
    } else if k == 12 {
        WriterRow {
            name: "gamess_us"@,
            display: "GAMESS US"@,
            extension: ".bas"@,
            comment: "!"@,
            valid: types_all(),
            names: seq!["gamess_us"@],
        }
    } else if k == 13 {
        WriterRow {
            name: "turbomole"@,
            display: "Turbomole"@,
            extension: ".tm"@,
            comment: "#"@,
            valid: types_all(),
            names: seq!["turbomole"@, "tm"@],
        }
    } else if k == 14 {
        WriterRow {
            name: "gamess_uk"@,
            display: "GAMESS UK"@,
            extension: ".bas"@,
            comment: "#"@,
            valid: types_all(),
            names: seq!["gamess_uk"@],
        }
    } else if k == 15 {
        WriterRow {
            name: "molpro"@,
            display: "Molpro"@,
            extension: ".mpro"@,
            comment: "!"@,
            valid: types_all(),
            names: seq!["molpro"@, "mpro"@],
        }
    } else if k == 16 {
        WriterRow {
            name: "cfour"@,
            display: "CFOUR"@,
            extension: ".c4bas"@,
            comment: "!"@,
            valid: types_all(),
            names: seq!["cfour"@, "c4bas"@],
        }
    } else if k == 17 {
        WriterRow {
            name: "acesii"@,
            display: "ACES II"@,
            extension: ".acesii"@,
            comment: "!"@,
            valid: types_all(),
            names: seq!["acesii"@],
        }
    } else if k == 18 {
        WriterRow {
            name: "xtron"@,
            display: "xTron"@,
            extension: ".gbs"@,
            comment: "!"@,
            valid: types_all(),
            names: seq!["xtron"@],
        }
    } else if k == 19 {
        WriterRow {
            name: "bdf"@,
            display: "BDF"@,
            extension: ".bdf"@,
            comment: "*"@,
            valid: types_all(),
            names: seq!["bdf"@],
        }
    } else if k == 20 {
        WriterRow {
            name: "fhiaims"@,
            display: "FHI-aims"@,
            extension: ".fhiaims"@,
            comment: "#"@,
            valid: types_no_ecp(),
            names: seq!["fhiaims"@],
        }
    } else if k == 21 {
        WriterRow {
            name: "jaguar"@,
            display: "Jaguar"@,
            extension: ".jaguar"@,
            comment: "#"@,
            valid: types_all(),
            names: seq!["jaguar"@],
        }
    } else if k == 22 {
        WriterRow {
            name: "crystal"@,
            display: "CRYSTAL"@,
            extension: ".crystal"@,
            comment: "!"@,
            valid: types_all(),
            names: seq!["crystal"@],
        }
    } else if k == 23 {
        WriterRow {
            name: "veloxchem"@,
            display: "VeloxChem"@,
            extension: ".vlx"@,
            comment: "!"@,
            valid: types_spherical(),
            names: seq!["veloxchem"@, "vlx"@],
        }
    } else if k == 24 {
        WriterRow {
            name: "molcas_library"@,
            display: "Molcas basis library"@,
            extension: ".molcas"@,
            comment: ""@,
            valid: types_all(),
            names: seq!["molcas_library"@],
        }
    } else if k == 25 {
        WriterRow {
            name: "libmol"@,
            display: "Molpro system library"@,
            extension: ".libmol"@,
            comment: "!"@,
            valid: types_all(),
            names: seq!["libmol"@],
        }
    } else if k == 26 {
        WriterRow {
            name: "bsedebug"@,
            display: "BSE Debug"@,
            extension: ".bse"@,
            comment: "#"@,
            valid: types_all(),
            names: seq!["bsedebug"@, "debug"@],
        }
    } else if k == 27 {
        WriterRow {
            name: "bsejson"@,
            display: "BSE JSON"@,
            extension: ".json"@,
            comment: ""@,
            valid: types_all(),
            names: seq!["bsejson"@, "json"@],
        }
    } else {
        WriterRow {
            name: "ricdwrap"@,
            display: "acCD auxiliary basis wrapper"@,
            extension: ".molcas"@,
            comment: "*"@,
            valid: types_no_ecp(),
            names: seq!["ricdwrap"@],
        }
    }
}

/// Writer format information.
#[derive(Debug)]
pub struct WriterInfo {
    /// Canonical format name.
    pub name: &'static str,
    /// Display name for the format.
    pub display: &'static str,
    /// File extension for the format.
    pub extension: &'static str,
    /// Comment marker for the format.
    pub comment: &'static str,
    /// Valid function types for this format.
    pub valid: Vec<&'static str>,
    /// All names of this format (canonical and aliases).
    pub aliases: Vec<&'static str>,
}

impl View for WriterInfo {
    type V = WriterRow;

    open spec fn view(&self) -> WriterRow {
        WriterRow {
            name: self.name@,
            display: self.display@,
            extension: self.extension@,
            comment: self.comment@,
            valid: strs_view(self.valid@),
            names: strs_view(self.aliases@),
        }
    }
}

/// The entry of output format `k`.
fn writer_entry(k: usize) -> (r: WriterInfo)
    requires
        k < NUM_WRITERS,
    ensures
        r@ == writer_row(k as int),
{
    if k == 0 {
        WriterInfo {
            name: "nwchem",
            display: "NWChem",
            extension: ".nw",
            comment: "#",
            valid: types_all_vec(),
            aliases: list2("nwchem", "nw"),
        }
    } else if k == 1 {
        WriterInfo {
            name: "gaussian94",
            display: "Gaussian",
            extension: ".gbs",
            comment: "!",
            valid: types_all_vec(),
            aliases: list4("gaussian94", "g94", "gaussian", "gau"),
        }
    } else if k == 2 {
        WriterInfo {
            name: "gaussian94lib",
            display: "Gaussian, system library",
            extension: ".gbs",
            comment: "!",
            valid: types_all_vec(),
            aliases: list2("gaussian94lib", "g94lib"),
        }
    } else if k == 3 {
        WriterInfo {
            name: "psi4",
            display: "Psi4",
            extension: ".gbs",
            comment: "!",
            valid: types_all_vec(),
            aliases: list1("psi4"),
        }
    } else if k == 4 {
        WriterInfo {
            name: "molcas",
            display: "Molcas",
            extension: ".molcas",
            comment: "*",
            valid: types_all_vec(),
            aliases: list1("molcas"),
        }
    } else if k == 5 {
        WriterInfo {
            name: "qchem",
            display: "Q-Chem",
            extension: ".qchem",
            comment: "!",
            valid: types_all_vec(),
            aliases: list1("qchem"),
        }
    } else if k == 6 {
        WriterInfo {
            name: "orca",
            display: "ORCA",
            extension: ".orca",
            comment: "!",
            valid: types_all_vec(),
            aliases: list1("orca"),
        }
    } else if k == 7 {
        WriterInfo {
            name: "dalton",
            display: "Dalton",
            extension: ".dalton",
            comment: "!",
            valid: types_all_vec(),
            aliases: list1("dalton"),
        }
    } else if k == 8 {
        WriterInfo {
            name: "qcschema",
            display: "QCSchema",
            extension: ".json",
            comment: "",
            valid: types_all_vec(),
            aliases: list1("qcschema"),
        }
    } else if k == 9 {
        WriterInfo {
            name: "cp2k",
            display: "CP2K",
            extension: ".cp2k",
            comment: "#",
            valid: types_all_vec(),
            aliases: list1("cp2k"),
        }
    } else if k == 10 {
        WriterInfo {
            name: "pqs",
            display: "PQS",
            extension: ".pqs",
            comment: "!",
            valid: types_all_vec(),
            aliases: list1("pqs"),
        }
    } else if k == 11 {
        WriterInfo {
            name: "demon2k",
            display: "deMon2K",
            extension: ".d2k",
            comment: "#",
            valid: types_all_vec(),
            aliases: list2("demon2k", "d2k"),
        }
    } else if k == 12 {
        WriterInfo {
            name: "gamess_us",
            display: "GAMESS US",
            extension: ".bas",
            comment: "!",
            valid: types_all_vec(),
            aliases: list1("gamess_us"),
        }
    } else if k == 13 {
        WriterInfo {
            name: "turbomole",
            display: "Turbomole",
            extension: ".tm",
            comment: "#",
            valid: types_all_vec(),
            aliases: list2("turbomole", "tm"),
        }
    } else if k == 14 {
        WriterInfo {
            name: "gamess_uk",
            display: "GAMESS UK",
            extension: ".bas",
            comment: "#",
            valid: types_all_vec(),
            aliases: list1("gamess_uk"),
        }
    } else if k == 15 {
        WriterInfo {
            name: "molpro",
            display: "Molpro",
            extension: ".mpro",
            comment: "!",
            valid: types_all_vec(),
            aliases: list2("molpro", "mpro"),
        }
    } else if k == 16 {
        WriterInfo {
            name: "cfour",
            display: "CFOUR",
            extension: ".c4bas",
            comment: "!",
            valid: types_all_vec(),
            aliases: list2("cfour", "c4bas"),
        }
    } else if k == 17 {
        WriterInfo {
            name: "acesii",
            display: "ACES II",
            extension: ".acesii",
            comment: "!",
            valid: types_all_vec(),
            aliases: list1("acesii"),
        }
    } else if k == 18 {
        WriterInfo {
            name: "xtron",
            display: "xTron",
            extension: ".gbs",
            comment: "!",
            valid: types_all_vec(),
            aliases: list1("xtron"),
        }
    } else if k == 19 {
        WriterInfo {
            name: "bdf",
            display: "BDF",
            extension: ".bdf",
            comment: "*",
            valid: types_all_vec(),
            aliases: list1("bdf"),
        }
    } else if k == 20 {
        WriterInfo {
            name: "fhiaims",
            display: "FHI-aims",
            extension: ".fhiaims",
            comment: "#",
            valid: types_no_ecp_vec(),
            aliases: list1("fhiaims"),
        }
    } else if k == 21 {
        WriterInfo {
            name: "jaguar",
            display: "Jaguar",
            extension: ".jaguar",
            comment: "#",
            valid: types_all_vec(),
            aliases: list1("jaguar"),
        }
    } else if k == 22 {
        WriterInfo {
            name: "crystal",
            display: "CRYSTAL",
            extension: ".crystal",
            comment: "!",
            valid: types_all_vec(),
            aliases: list1("crystal"),
        }
    } else if k == 23 {
        WriterInfo {
            name: "veloxchem",
            display: "VeloxChem",
            extension: ".vlx",
            comment: "!",
            valid: types_spherical_vec(),
            aliases: list2("veloxchem", "vlx"),
        }
    } else if k == 24 {
        WriterInfo {
            name: "molcas_library",
            display: "Molcas basis library",
            extension: ".molcas",
            comment: "",
            valid: types_all_vec(),
            aliases: list1("molcas_library"),
        }
    } else if k == 25 {
        WriterInfo {
            name: "libmol",
            display: "Molpro system library",
            extension: ".libmol",
            comment: "!",
            valid: types_all_vec(),
            aliases: list1("libmol"),
        }
    } else if k == 26 {
        WriterInfo {
            name: "bsedebug",
            display: "BSE Debug",
            extension: ".bse",
            comment: "#",
            valid: types_all_vec(),
            aliases: list2("bsedebug", "debug"),
        }
    } else if k == 27 {
        WriterInfo {
            name: "bsejson",
            display: "BSE JSON",
            extension: ".json",
            comment: "",
            valid: types_all_vec(),
            aliases: list2("bsejson", "json"),
        }
    } else {
        WriterInfo {
            name: "ricdwrap",
            display: "acCD auxiliary basis wrapper",
            extension: ".molcas",
            comment: "*",
            valid: types_no_ecp_vec(),
            aliases: list1("ricdwrap"),
        }
    }
}

/// The last output format below `n` that accepts the name `key`.
pub open spec fn writer_lookup_below(key: Seq<char>, n: int) -> Option<int>
    decreases n,
{
    if n <= 0 {
        None
    } else if writer_row(n - 1).names.contains(key) {
        Some(n - 1)
    } else {
        writer_lookup_below(key, n - 1)
    }
}

/// The output format that accepts the name `key`.
pub open spec fn writer_lookup(key: Seq<char>) -> Option<int> {
    writer_lookup_below(key, NUM_WRITERS as int)
}

proof fn lemma_writer_lookup_range(key: Seq<char>, n: int)
    ensures
        writer_lookup_below(key, n) matches Some(k) ==> 0 <= k < n,
    decreases n,
{
    if n > 0 {
        lemma_writer_lookup_range(key, n - 1);
    }
}

/// Find the output format that accepts the (already lowercased) name.
fn find_writer(key: &[char]) -> (r: Option<usize>)
    ensures
        match r {
            Some(k) => writer_lookup(key@) == Some(k as int) && k < NUM_WRITERS,
            None => writer_lookup(key@) is None,
        },
{
    let mut n: usize = NUM_WRITERS;
    while n > 0
        invariant
            n <= NUM_WRITERS,
            writer_lookup(key@) == writer_lookup_below(key@, n as int),
        decreases n,
    {
        let e = writer_entry(n - 1);
        if names_contain(&e.aliases, key) {
            return Some(n - 1);
        }
        n = n - 1;
    }
    None
}

/// The last output format below `n` whose extension, without its leading
/// dots, is `key`.
pub open spec fn writer_by_ext_below(key: Seq<char>, n: int) -> Option<int>
    decreases n,
{
    if n <= 0 {
        None
    } else if trim_dots(writer_row(n - 1).extension) == key {
        Some(n - 1)
    } else {
        writer_by_ext_below(key, n - 1)
    }
}

/// The canonical output format for a file extension (given without its
/// leading dot, case insensitive). Where formats share an extension, the
/// last of them in the table is the one.
pub fn get_writer_format_by_extension(ext: &str) -> (r: Option<&'static str>)
    ensures
        match writer_by_ext_below(lowercase_of(ext@), NUM_WRITERS as int) {
            Some(k) => r matches Some(n) && n@ == writer_row(k).name,
            None => r is None,
        },
{
    let low = to_lowercase(ext);
    let key = chars_of(low.as_str());
    let mut n: usize = NUM_WRITERS;
    while n > 0
        invariant
            n <= NUM_WRITERS,
            key@ == lowercase_of(ext@),
            writer_by_ext_below(key@, NUM_WRITERS as int) == writer_by_ext_below(key@, n as int),
        decreases n,
    {
        let e = writer_entry(n - 1);
        let t = trim_leading_dots(e.extension);
        let tc = chars_of(t.as_str());
        if crate::text::chars_eq(tc.as_slice(), key.as_slice()) {
            return Some(e.name);
        }
        n = n - 1;
    }
    None
}

/// Check if a format is a directory format: its lowercase form starts with
/// `dir-`.
pub fn is_dir_format(fmt: &str) -> (r: bool)
    ensures
        r == ("dir-"@.is_prefix_of(lowercase_of(fmt@))),
        crate::text::ascii_text(fmt@) ==> r == "dir-"@.is_prefix_of(crate::text::ascii_lower(fmt@)),
{
    let low = to_lowercase(fmt);
    let v = chars_of(low.as_str());
    let p = chars_of("dir-");
    crate::text::starts_with(v.as_slice(), p.as_slice())
}

/// Strip the `dir-` prefix from a format name to get the underlying format;
/// a format that is not a directory format is returned unchanged.
pub fn strip_dir_prefix(fmt: &str) -> (r: String)
    ensures
        r@ == (if "dir-"@.is_prefix_of(lowercase_of(fmt@)) && fmt@.len() >= 4 {
            fmt@.skip(4)
        } else {
            fmt@
        }),
        crate::text::ascii_text(fmt@) ==> r@ == (if "dir-"@.is_prefix_of(crate::text::ascii_lower(fmt@)) {
            fmt@.skip(4)
        } else {
            fmt@
        }),
{
    proof {
        reveal_strlit("dir-");
        assert(crate::text::ascii_lower(fmt@).len() == fmt@.len());
    }
    let v = chars_of(fmt);
    if is_dir_format(fmt) && v.len() >= 4 {
        let mut rest: Vec<char> = Vec::new();
        let mut j: usize = 4;
        while j < v.len()
            invariant
                4 <= j <= v@.len(),
                v@ == fmt@,
                rest@ =~= fmt@.subrange(4, j as int),
            decreases v.len() - j,
        {
            rest.push(v[j]);
            j = j + 1;
        }
        crate::text::string_of(rest.as_slice())
    } else {
        fmt.to_owned()
    }
}

impl WriterInfo {
    /// The file extension without its leading dots.
    pub fn extension_without_dot(&self) -> (r: String)
        ensures
            r@ == trim_dots(self.extension@),
    {
        trim_leading_dots(self.extension)
    }

    /// Whether the given function types are all valid for this format; a
    /// format with no list of valid types takes any.
    pub fn supports_function_types(&self, ftypes: &Vec<String>) -> (r: bool)
        ensures
            r == (self@.valid.len() == 0 || forall|i: int|
                0 <= i < ftypes@.len() ==> self@.valid.contains(#[trigger] ftypes@[i]@)),
    {
        if self.valid.len() == 0 {
            return true;
        }
        let mut k: usize = 0;
        while k < ftypes.len()
            invariant
                k <= ftypes@.len(),
                self.valid@.len() != 0,
                forall|i: int| 0 <= i < k ==> self@.valid.contains(#[trigger] ftypes@[i]@),
            decreases ftypes.len() - k,
        {
            let c = chars_of(ftypes[k].as_str());
            if !names_contain(&self.valid, c.as_slice()) {
                assert(!self@.valid.contains(ftypes@[k as int]@));
                assert(self@.valid.len() != 0);
                return false;
            }
            k = k + 1;
        }
        true
    }

    /// Whether a name is one of the names of this format, up to ASCII case.
    pub fn is_alias(&self, name: &str) -> (r: bool)
        ensures
            r == exists|t: int| 0 <= t < self.aliases@.len() && ascii_ci_eq(#[trigger] self.aliases@[t]@, name@),
    {
        any_ascii_ci(&self.aliases, name)
    }
}

/// Get writer format information for a format name (canonical or alias,
/// case insensitive).
pub fn get_writer_info(fmt: &str) -> (r: Option<WriterInfo>)
    ensures
        match writer_lookup(lowercase_of(fmt@)) {
            Some(k) => r matches Some(i) && i@ == writer_row(k),
            None => r is None,
        },
{
    let low = to_lowercase(fmt);
    let key = chars_of(low.as_str());
    match find_writer(key.as_slice()) {
        Some(k) => Some(writer_entry(k)),
        None => None,
    }
}

/// Output format `k` supports the function types `fts`, if any are given.
pub open spec fn writer_selected(k: int, fts: Option<Seq<Seq<char>>>) -> bool {
    match fts {
        Some(t) => types_supported(writer_row(k).valid, t),
        None => true,
    }
}

/// The names and display names of the output formats below `n` that
/// support the function types `fts`, in table order.
pub open spec fn writer_formats_below(fts: Option<Seq<Seq<char>>>, n: int) -> Seq<(Seq<char>, Seq<char>)>
    decreases n,
{
    if n <= 0 {
        Seq::empty()
    } else if writer_selected(n - 1, fts) {
        writer_formats_below(fts, n - 1).push((writer_row(n - 1).name, writer_row(n - 1).display))
    } else {
        writer_formats_below(fts, n - 1)
    }
}

/// The characters of each pair of strings of a list.
pub open spec fn pairs_view(v: Seq<(String, String)>) -> Seq<(Seq<char>, Seq<char>)> {
    v.map_values(|p: (String, String)| (p.0@, p.1@))
}

/// Lowercase the requested function types, if any.
fn lowered(function_types: &Option<Vec<String>>) -> (r: Option<Vec<Vec<char>>>)
    ensures
        match (function_types, r) {
            (Some(v), Some(l)) => l@.len() == v@.len() && forall|i: int|
                0 <= i < v@.len() ==> (#[trigger] l@[i])@ == lowercase_of(v@[i]@),
            (None, None) => true,
            _ => false,
        },
{
    match function_types {
        Some(v) => Some(lowercase_all(v)),
        None => None,
    }
}

/// Whether output format `k` is selected by the lowercased types.
fn selected(e: &WriterInfo, lows: &Option<Vec<Vec<char>>>, fts: Ghost<Option<Seq<Seq<char>>>>) -> (r: bool)
    requires
        match (fts@, lows) {
            (Some(t), Some(l)) => l@.len() == t.len() && forall|i: int|
                0 <= i < t.len() ==> (#[trigger] l@[i])@ == lowercase_of(t[i]),
            (None, None) => true,
            _ => false,
        },
    ensures
        r == match fts@ {
            Some(t) => types_supported(e@.valid, t),
            None => true,
        },
{
    match lows {
        Some(l) => {
            let ghost t = fts@->0;
            all_supported(&e.valid, l, Ghost(t))
        },
        None => true,
    }
}

/// The output formats and their display names, in table order, restricted
/// to those that support all of the given function types (compared in
/// lowercase) when some are given.
pub fn get_writer_formats(function_types: Option<Vec<String>>) -> (r: Vec<(String, String)>)
    ensures
        pairs_view(r@) == writer_formats_below(opt_strings(function_types), NUM_WRITERS as int),
{
    let ghost fts = opt_strings(function_types);
    let lows = lowered(&function_types);
    let mut r: Vec<(String, String)> = Vec::new();
    let mut k: usize = 0;
    while k < NUM_WRITERS
        invariant
            k <= NUM_WRITERS,
            fts == opt_strings(function_types),
            match (fts, &lows) {
                (Some(t), Some(l)) => l@.len() == t.len() && forall|i: int|
                    0 <= i < t.len() ==> (#[trigger] l@[i])@ == lowercase_of(t[i]),
                (None, None) => true,
                _ => false,
            },
            pairs_view(r@) == writer_formats_below(fts, k as int),
        decreases NUM_WRITERS - k,
    {
        let e = writer_entry(k);
        if selected(&e, &lows, Ghost(fts)) {
            let ghost before = pairs_view(r@);
            r.push((e.name.to_owned(), e.display.to_owned()));
            assert(pairs_view(r@) =~= before.push((writer_row(k as int).name, writer_row(k as int).display)));
        }
        k = k + 1;
    }
    r
}

/// The names of a list other than `name`, in order.
pub open spec fn other_names(names: Seq<Seq<char>>, name: Seq<char>) -> Seq<Seq<char>>
    decreases names.len(),
{
    if names.len() == 0 {
        Seq::empty()
    } else if names.last() == name {
        other_names(names.drop_last(), name)
    } else {
        other_names(names.drop_last(), name).push(names.last())
    }
}

/// The aliases of a format: its names other than the canonical one.
pub(crate) fn aliases_of(names: &Vec<&'static str>, name: &'static str) -> (r: Vec<String>)
    ensures
        r.deep_view() == other_names(strs_view(names@), name@),
{
    let ghost nv = strs_view(names@);
    let nc = chars_of(name);
    let mut r: Vec<String> = Vec::new();
    let mut k: usize = 0;
    while k < names.len()
        invariant
            k <= names@.len(),
            nv == strs_view(names@),
            nc@ == name@,
            r.deep_view() == other_names(nv.take(k as int), name@),
        decreases names.len() - k,
    {
        assert(nv.take(k + 1).drop_last() =~= nv.take(k as int));
        let c = chars_of(names[k]);
        if !crate::text::chars_eq(c.as_slice(), nc.as_slice()) {
            let ghost before = r.deep_view();
            r.push(names[k].to_owned());
            assert(r.deep_view() =~= before.push(nv[k as int]));
        }
        k = k + 1;
    }
    assert(nv.take(names.len() as int) =~= nv);
    r
}

/// The characters of a list of formats with their display names and
/// aliases.
pub open spec fn alias_rows_view(v: Seq<(String, (String, Vec<String>))>) -> Seq<(Seq<char>, Seq<char>, Seq<Seq<char>>)> {
    v.map_values(|p: (String, (String, Vec<String>))| (p.0@, p.1.0@, p.1.1.deep_view()))
}

/// The output formats below `n` that support the function types `fts`,
/// with display names and aliases, in table order.
pub open spec fn writer_aliases_below(fts: Option<Seq<Seq<char>>>, n: int) -> Seq<(Seq<char>, Seq<char>, Seq<Seq<char>>)>
    decreases n,
{
    if n <= 0 {
        Seq::empty()
    } else if writer_selected(n - 1, fts) {
        let w = writer_row(n - 1);
        writer_aliases_below(fts, n - 1).push((w.name, w.display, other_names(w.names, w.name)))
    } else {
        writer_aliases_below(fts, n - 1)
    }
}

/// The output formats with their display names and aliases, in table
/// order, restricted as in [`get_writer_formats`].
pub fn get_writer_formats_with_aliases(function_types: Option<Vec<String>>) -> (r: Vec<(String, (String, Vec<String>))>)
    ensures
        alias_rows_view(r@) == writer_aliases_below(opt_strings(function_types), NUM_WRITERS as int),
{
    let ghost fts = opt_strings(function_types);
    let lows = lowered(&function_types);
    let mut r: Vec<(String, (String, Vec<String>))> = Vec::new();
    let mut k: usize = 0;
    while k < NUM_WRITERS
        invariant
            k <= NUM_WRITERS,
            fts == opt_strings(function_types),
            match (fts, &lows) {
                (Some(t), Some(l)) => l@.len() == t.len() && forall|i: int|
                    0 <= i < t.len() ==> (#[trigger] l@[i])@ == lowercase_of(t[i]),
                (None, None) => true,
                _ => false,
            },
            alias_rows_view(r@) == writer_aliases_below(fts, k as int),
        decreases NUM_WRITERS - k,
    {
        let e = writer_entry(k);
        if selected(&e, &lows, Ghost(fts)) {
            let ghost before = alias_rows_view(r@);
            let al = aliases_of(&e.aliases, e.name);
            r.push((e.name.to_owned(), (e.display.to_owned(), al)));
            let ghost w = writer_row(k as int);
            assert(alias_rows_view(r@) =~= before.push((w.name, w.display, other_names(w.names, w.name))));
        }
        k = k + 1;
    }
    r
}

/// The recommended file extension of a format (case insensitive), or a
/// `ValueError` naming the format when there is no such format.
pub fn get_format_extension(fmt: &str) -> (r: Result<&'static str, BseError>)
    ensures
        match writer_lookup(lowercase_of(fmt@)) {
            Some(k) => r matches Ok(e) && e@ == writer_row(k).extension,
            None => r matches Err(BseError::ValueError(m)) && m@ == "Unknown basis set format '"@ + fmt@ + "'"@,
        },
{
    let low = to_lowercase(fmt);
    let key = chars_of(low.as_str());
    match find_writer(key.as_slice()) {
        Some(k) => Ok(writer_entry(k).extension),
        None => {
            let mut m = "Unknown basis set format '".to_owned();
            crate::text::push_str(&mut m, fmt);
            crate::text::push_str(&mut m, "'");
            Err(BseError::ValueError(m))
        },
    }
}

/* #region formatted output */

/// A text with `c` after each newline.
pub open spec fn prefix_after_newlines(h: Seq<char>, c: Seq<char>) -> Seq<char>
    decreases h.len(),
{
    if h.len() == 0 {
        Seq::empty()
    } else {
        prefix_after_newlines(h.drop_last(), c) + if h.last() == '\n' {
            seq!['\n'] + c
        } else {
            seq![h.last()]
        }
    }
}

/// The lines of a header, each preceded by a comment marker.
pub open spec fn commented(h: Seq<char>, c: Seq<char>) -> Seq<char> {
    c + prefix_after_newlines(h, c)
}

/// A formatted basis set with its header and the line that some formats
/// need first: the commented header (followed by a blank line, except for
/// the Gaussian system library, which does not tolerate one) when there is
/// a header and the format has comments, and the harmonic type first for
/// Psi4.
pub open spec fn decorated(
    fmt_lower: Seq<char>,
    comment: Seq<char>,
    function_types: Seq<Seq<char>>,
    header: Option<Seq<char>>,
    body: Seq<char>,
) -> Seq<char> {
    let with_header = match header {
        Some(h) => if comment.len() > 0 {
            if fmt_lower == "gaussian94lib"@ {
                commented(h, comment) + body
            } else {
                commented(h, comment) + "\n\n"@ + body
            }
        } else {
            body
        },
        None => body,
    };
    if fmt_lower == "psi4"@ {
        (if function_types.contains("gto_cartesian"@) {
            "cartesian"@
        } else {
            "spherical"@
        }) + "\n\n"@ + with_header
    } else {
        with_header
    }
}

/// Whether writing in format `fmt` accepts the function types: a known
/// format (case insensitive) whose supported types, if it lists any,
/// include all of them.
pub open spec fn writer_accepts(fmt: Seq<char>, function_types: Seq<Seq<char>>) -> bool {
    match writer_lookup(lowercase_of(fmt)) {
        Some(k) => writer_row(k).valid.len() == 0 || forall|i: int|
            0 <= i < function_types.len() ==> writer_row(k).valid.contains(#[trigger] function_types[i]),
        None => false,
    }
}

/// The output format for a name, checked against the function types of a
/// basis set: the format's entry, or a `ValueError` for an unknown format
/// or a format that does not support all the function types (the message
/// names the format and says so).
pub fn check_writer(fmt: &str, function_types: &Vec<String>) -> (r: Result<WriterInfo, BseError>)
    ensures
        match r {
            Ok(e) => writer_accepts(fmt@, function_types.deep_view()) && e@ == writer_row(
                writer_lookup(lowercase_of(fmt@))->0,
            ),
            Err(e) => !writer_accepts(fmt@, function_types.deep_view()) && match writer_lookup(lowercase_of(fmt@)) {
                None => e matches BseError::ValueError(m) && m@ == "Unknown writer format: "@ + fmt@,
                Some(k) => e matches BseError::ValueError(m) && m@ == "Writer "@ + writer_row(k).display
                    + " does not support all function types"@,
            },
        },
{
    let low = to_lowercase(fmt);
    let key = chars_of(low.as_str());
    match find_writer(key.as_slice()) {
        Some(k) => {
            let e = writer_entry(k);
            if e.supports_function_types(function_types) {
                let ghost fv = function_types.deep_view();
                assert(e@ == writer_row(k as int));
                assert(writer_row(k as int).valid.len() == 0 || forall|i: int|
                    0 <= i < fv.len() ==> writer_row(k as int).valid.contains(#[trigger] fv[i])) by {
                    if writer_row(k as int).valid.len() != 0 {
                        assert forall|i: int| 0 <= i < fv.len() implies writer_row(k as int).valid.contains(#[trigger] fv[i]) by {
                            assert(fv[i] == function_types@[i]@);
                            assert(e@.valid.contains(function_types@[i]@));
                        }
                    }
                }
                assert(key@ == lowercase_of(fmt@));
                assert(writer_lookup(lowercase_of(fmt@)) == Some(k as int));
                assert(writer_accepts(fmt@, fv));
                Ok(e)
            } else {
                let ghost fv = function_types.deep_view();
                assert(key@ == lowercase_of(fmt@));
                assert(e@ == writer_row(k as int));
                let ghost bad = choose|i: int| 0 <= i < function_types@.len() && !e@.valid.contains(#[trigger] function_types@[i]@);
                assert(fv[bad] == function_types@[bad]@);
                assert(!writer_accepts(fmt@, fv));
                let mut m = "Writer ".to_owned();
                crate::text::push_str(&mut m, e.display);
                crate::text::push_str(&mut m, " does not support all function types");
                assert(writer_lookup(lowercase_of(fmt@)) == Some(k as int));
                Err(BseError::ValueError(m))
            }
        },
        None => {
            assert(key@ == lowercase_of(fmt@));
            let mut m = "Unknown writer format: ".to_owned();
            crate::text::push_str(&mut m, fmt);
            Err(BseError::ValueError(m))
        },
    }
}

/// Add the header and the leading line that format `fmt` needs to the text
/// of a basis set written in it.
pub fn decorate_formatted(fmt: &str, comment: &str, function_types: &Vec<String>, header: Option<&str>, body: String) -> (r: String)
    ensures
        r@ == decorated(
            lowercase_of(fmt@),
            comment@,
            function_types.deep_view(),
            match header {
                Some(h) => Some(h@),
                None => None,
            },
            body@,
        ),
{
    let low = to_lowercase(fmt);
    let lc = chars_of(low.as_str());
    let cc = chars_of(comment);
    let g94lib = chars_of("gaussian94lib");
    let psi4 = chars_of("psi4");
    let mut out = match header {
        Some(h) => if cc.len() > 0 {
            let hv = chars_of(h);
            let mut t: Vec<char> = Vec::new();
            let mut j: usize = 0;
            while j < cc.len()
                invariant
                    j <= cc@.len(),
                    t@ =~= cc@.take(j as int),
                decreases cc.len() - j,
            {
                t.push(cc[j]);
                j = j + 1;
            }
            assert(cc@.take(cc@.len() as int) =~= cc@);
            let mut i: usize = 0;
            while i < hv.len()
                invariant
                    i <= hv@.len(),
                    hv@ == h@,
                    cc@ == comment@,
                    t@ == comment@ + prefix_after_newlines(hv@.take(i as int), comment@),
                decreases hv.len() - i,
            {
                assert(hv@.take(i + 1).drop_last() =~= hv@.take(i as int));
                let ghost before = t@;
                t.push(hv[i]);
                if hv[i] == '\n' {
                    let mut q: usize = 0;
                    while q < cc.len()
                        invariant
                            q <= cc@.len(),
                            t@ == before.push('\n') + cc@.take(q as int),
                        decreases cc.len() - q,
                    {
                        t.push(cc[q]);
                        assert(t@ =~= before.push('\n') + cc@.take(q + 1));
                        q = q + 1;
                    }
                    assert(cc@.take(cc@.len() as int) =~= cc@);
                }
                assert(t@ =~= comment@ + prefix_after_newlines(hv@.take(i + 1), comment@));
                i = i + 1;
            }
            assert(hv@.take(hv@.len() as int) =~= hv@);
            let mut o = crate::text::string_of(t.as_slice());
            if !crate::text::chars_eq(lc.as_slice(), g94lib.as_slice()) {
                crate::text::push_str(&mut o, "\n\n");
            }
            crate::text::push_str(&mut o, body.as_str());
            o
        } else {
            body
        },
        None => body,
    };
    if crate::text::chars_eq(lc.as_slice(), psi4.as_slice()) {
        let cart = chars_of("gto_cartesian");
        let mut pre = if crate::formats::strings_contain(function_types, cart.as_slice()) {
            "cartesian".to_owned()
        } else {
            "spherical".to_owned()
        };
        crate::text::push_str(&mut pre, "\n\n");
        crate::text::push_str(&mut pre, out.as_str());
        out = pre;
    }
    out
}

/* #endregion */

} // verus!
