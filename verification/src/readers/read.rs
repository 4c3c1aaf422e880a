//! The table of input formats, and the driver that reads basis set data in
//! one of them.
use crate::error::BseError;
use crate::formats::{
    strs_view, list1, list2, list5, names_contain, ascii_ci_eq, any_ascii_ci, trim_dots,
    trim_leading_dots,
};
use crate::text::{chars_of, lowercase_of, to_lowercase};
use crate::writers::write::{pairs_view, other_names, aliases_of, alias_rows_view};
use vstd::prelude::*;

verus! {

/// Number of input formats.
pub const NUM_READERS: usize = 18;

/// Mathematical value of an input format's entry.
pub struct ReaderRow {
    pub name: Seq<char>,
    pub display: Seq<char>,
    pub extension: Seq<char>,
    pub names: Seq<Seq<char>>,
}

/// The input formats: canonical name, display name, file extension and all
/// accepted names.
pub open spec fn reader_row(k: int) -> ReaderRow {
    if k == 0 {
        ReaderRow {
            name: "nwchem"@,
            display: "NWChem"@,
            extension: ".nw"@,
            names: seq!["nwchem"@, "nw"@],
        }
    } else if k == 1 {
        ReaderRow {
            name: "gaussian94"@,
            display: "Gaussian94"@,
            extension: ".gbs"@,
            names: seq!["gaussian94"@, "gaussian"@, "g94"@, "gbs"@, "gau"@],
        }
    } else if k == 2 {
        ReaderRow {
            name: "turbomole"@,
            display: "Turbomole"@,
            extension: ".tm"@,
            names: seq!["turbomole"@, "tm"@],
        }
    } else if k == 3 {
        ReaderRow {
            name: "dalton"@,
            display: "Dalton"@,
            extension: ".mol"@,
            names: seq!["dalton"@, "mol"@],
        }
    } else if k == 4 {
        ReaderRow {
            name: "molcas"@,
            display: "Molcas"@,
            extension: ".molcas"@,
            names: seq!["molcas"@],
        }
    } else if k == 5 {
        ReaderRow {
            name: "molcas_library"@,
            display: "Molcas basis library"@,
            extension: ".molcas"@,
            names: seq!["molcas_library"@],
        }
    } else if k == 6 {
        ReaderRow {
            name: "molpro"@,
            display: "Molpro"@,
            extension: ".mpro"@,
            names: seq!["molpro"@, "mpro"@],
        }
    } else if k == 7 {
        ReaderRow {
            name: "libmol"@,
            display: "Molpro system library"@,
            extension: ".libmol"@,
            names: seq!["libmol"@],
        }
    } else if k == 8 {
        ReaderRow {
            name: "cfour"@,
            display: "CFOUR"@,
            extension: ".c4bas"@,
            names: seq!["cfour"@],
        }
    } else if k == 9 {
        ReaderRow {
            name: "genbas"@,
            display: "Genbas"@,
            extension: ".genbas"@,
            names: seq!["genbas"@],
        }
    } else if k == 10 {
        ReaderRow {
            name: "gbasis"@,
            display: "GBasis"@,
            extension: ".gbasis"@,
            names: seq!["gbasis"@],
        }
    } else if k == 11 {
        ReaderRow {
            name: "demon2k"@,
            display: "deMon2k"@,
            extension: ".d2k"@,
            names: seq!["demon2k"@, "d2k"@],
        }
    } else if k == 12 {
        ReaderRow {
            name: "ricdlib"@,
            display: "MolCAS RICDlib"@,
            extension: ".ricdlib"@,
            names: seq!["ricdlib"@, "ricd"@],
        }
    } else if k == 13 {
        ReaderRow {
            name: "gamess_us"@,
            display: "GAMESS US"@,
            extension: ".bas"@,
            names: seq!["gamess_us"@],
        }
    } else if k == 14 {
        ReaderRow {
            name: "cp2k"@,
            display: "CP2K"@,
            extension: ".cp2k"@,
            names: seq!["cp2k"@],
        }
    } else if k == 15 {
        ReaderRow {
            name: "crystal"@,
            display: "Crystal"@,
            extension: ".crystal"@,
            names: seq!["crystal"@],
        }
    } else if k == 16 {
        ReaderRow {
            name: "veloxchem"@,
            display: "VeloxChem"@,
            extension: ".vlx"@,
            names: seq!["veloxchem"@, "vlx"@],
        }
    } else {
        ReaderRow {
            name: "json"@,
            display: "JSON"@,
            extension: ".json"@,
            names: seq!["json"@, "bsejson"@],
        }
    }
}

/// Reader format information.
#[derive(Debug)]
pub struct ReaderInfo {
    /// Canonical format name.
    pub name: &'static str,
    /// Display name for the format.
    pub display: &'static str,
    /// File extension for the format.
    pub extension: &'static str,
    /// All names of this format (canonical and aliases).
    pub aliases: Vec<&'static str>,
}

impl View for ReaderInfo {
    type V = ReaderRow;

    open spec fn view(&self) -> ReaderRow {
        ReaderRow {
            name: self.name@,
            display: self.display@,
            extension: self.extension@,
            names: strs_view(self.aliases@),
        }
    }
}

/// The entry of input format `k`.
fn reader_entry(k: usize) -> (r: ReaderInfo)
    requires
        k < NUM_READERS,
    ensures
        r@ == reader_row(k as int),
{
    if k == 0 {
        ReaderInfo {
            name: "nwchem",
            display: "NWChem",
            extension: ".nw",
            aliases: list2("nwchem", "nw"),
        }
    } else if k == 1 {
        ReaderInfo {
            name: "gaussian94",
            display: "Gaussian94",
            extension: ".gbs",
            aliases: list5("gaussian94", "gaussian", "g94", "gbs", "gau"),
        }
    } else if k == 2 {
        ReaderInfo {
            name: "turbomole",
            display: "Turbomole",
            extension: ".tm",
            aliases: list2("turbomole", "tm"),
        }
    } else if k == 3 {
        ReaderInfo {
            name: "dalton",
            display: "Dalton",
            extension: ".mol",
            aliases: list2("dalton", "mol"),
        }
    } else if k == 4 {
        ReaderInfo {
            name: "molcas",
            display: "Molcas",
            extension: ".molcas",
            aliases: list1("molcas"),
        }
    } else if k == 5 {
        ReaderInfo {
            name: "molcas_library",
            display: "Molcas basis library",
            extension: ".molcas",
            aliases: list1("molcas_library"),
        }
    } else if k == 6 {
        ReaderInfo {
            name: "molpro",
            display: "Molpro",
            extension: ".mpro",
            aliases: list2("molpro", "mpro"),
        }
    } else if k == 7 {
        ReaderInfo {
            name: "libmol",
            display: "Molpro system library",
            extension: ".libmol",
            aliases: list1("libmol"),
        }
    } else if k == 8 {
        ReaderInfo {
            name: "cfour",
            display: "CFOUR",
            extension: ".c4bas",
            aliases: list1("cfour"),
        }
    } else if k == 9 {
        ReaderInfo {
            name: "genbas",
            display: "Genbas",
            extension: ".genbas",
            aliases: list1("genbas"),
        }
    } else if k == 10 {
        ReaderInfo {
            name: "gbasis",
            display: "GBasis",
            extension: ".gbasis",
            aliases: list1("gbasis"),
        }
    } else if k == 11 {
        ReaderInfo {
            name: "demon2k",
            display: "deMon2k",
            extension: ".d2k",
            aliases: list2("demon2k", "d2k"),
        }
    } else if k == 12 {
        ReaderInfo {
            name: "ricdlib",
            display: "MolCAS RICDlib",
            extension: ".ricdlib",
            aliases: list2("ricdlib", "ricd"),
        }
    } else if k == 13 {
        ReaderInfo {
            name: "gamess_us",
            display: "GAMESS US",
            extension: ".bas",
            aliases: list1("gamess_us"),
        }
    } else if k == 14 {
        ReaderInfo {
            name: "cp2k",
            display: "CP2K",
            extension: ".cp2k",
            aliases: list1("cp2k"),
        }
    } else if k == 15 {
        ReaderInfo {
            name: "crystal",
            display: "Crystal",
            extension: ".crystal",
            aliases: list1("crystal"),
        }
    } else if k == 16 {
        ReaderInfo {
            name: "veloxchem",
            display: "VeloxChem",
            extension: ".vlx",
            aliases: list2("veloxchem", "vlx"),
        }
    } else {
        ReaderInfo {
            name: "json",
            display: "JSON",
            extension: ".json",
            aliases: list2("json", "bsejson"),
        }
    }
}

/// The last input format below `n` that accepts the name `key`.
pub open spec fn reader_lookup_below(key: Seq<char>, n: int) -> Option<int>
    decreases n,
{
    if n <= 0 {
        None
    } else if reader_row(n - 1).names.contains(key) {
        Some(n - 1)
    } else {
        reader_lookup_below(key, n - 1)
    }
}

/// The input format that accepts the name `key`.
pub open spec fn reader_lookup(key: Seq<char>) -> Option<int> {
    reader_lookup_below(key, NUM_READERS as int)
}

/// Find the input format that accepts the (already lowercased) name.
fn find_reader(key: &[char]) -> (r: Option<usize>)
    ensures
        match r {
            Some(k) => reader_lookup(key@) == Some(k as int) && k < NUM_READERS,
            None => reader_lookup(key@) is None,
        },
{
    let mut n: usize = NUM_READERS;
    while n > 0
        invariant
            n <= NUM_READERS,
            reader_lookup(key@) == reader_lookup_below(key@, n as int),
        decreases n,
    {
        let e = reader_entry(n - 1);
        if names_contain(&e.aliases, key) {
            return Some(n - 1);
        }
        n = n - 1;
    }
    None
}

/// The last input format below `n` whose extension, without its leading
/// dots, is `key`.
pub open spec fn reader_by_ext_below(key: Seq<char>, n: int) -> Option<int>
    decreases n,
{
    if n <= 0 {
        None
    } else if trim_dots(reader_row(n - 1).extension) == key {
        Some(n - 1)
    } else {
        reader_by_ext_below(key, n - 1)
    }
}

impl ReaderInfo {
    /// The file extension without its leading dots.
    pub fn extension_without_dot(&self) -> (r: String)
        ensures
            r@ == trim_dots(self.extension@),
    {
        trim_leading_dots(self.extension)
    }

    /// Whether a name is one of the names of this format, up to ASCII case.
    pub fn is_alias(&self, name: &str) -> (r: bool)
        ensures
            r == exists|t: int| 0 <= t < self.aliases@.len() && ascii_ci_eq(#[trigger] self.aliases@[t]@, name@),
    {
        any_ascii_ci(&self.aliases, name)
    }
}

/// The canonical input format for a file extension (given without its
/// leading dot, case insensitive). Where formats share an extension, the
/// last of them in the table is the one.
pub fn get_reader_format_by_extension(ext: &str) -> (r: Option<&'static str>)
    ensures
        match reader_by_ext_below(lowercase_of(ext@), NUM_READERS as int) {
            Some(k) => r matches Some(n) && n@ == reader_row(k).name,
            None => r is None,
        },
{
    let low = to_lowercase(ext);
    let key = chars_of(low.as_str());
    let mut n: usize = NUM_READERS;
    while n > 0
        invariant
            n <= NUM_READERS,
            key@ == lowercase_of(ext@),
            reader_by_ext_below(key@, NUM_READERS as int) == reader_by_ext_below(key@, n as int),
        decreases n,
    {
        let e = reader_entry(n - 1);
        let t = trim_leading_dots(e.extension);
        let tc = chars_of(t.as_str());
        if crate::text::chars_eq(tc.as_slice(), key.as_slice()) {
            return Some(e.name);
        }
        n = n - 1;
    }
    None
}

/// Get reader format information for a format name (canonical or alias,
/// case insensitive).
pub fn get_reader_info(fmt: &str) -> (r: Option<ReaderInfo>)
    ensures
        match reader_lookup(lowercase_of(fmt@)) {
            Some(k) => r matches Some(i) && i@ == reader_row(k),
            None => r is None,
        },
{
    let low = to_lowercase(fmt);
    let key = chars_of(low.as_str());
    match find_reader(key.as_slice()) {
        Some(k) => Some(reader_entry(k)),
        None => None,
    }
}

/// The names and display names of the input formats below `n`.
pub open spec fn reader_formats_below(n: int) -> Seq<(Seq<char>, Seq<char>)>
    decreases n,
{
    if n <= 0 {
        Seq::empty()
    } else {
        reader_formats_below(n - 1).push((reader_row(n - 1).name, reader_row(n - 1).display))
    }
}

/// The input formats and their display names, in table order.
pub fn get_reader_formats() -> (r: Vec<(String, String)>)
    ensures
        pairs_view(r@) == reader_formats_below(NUM_READERS as int),
{
    let mut r: Vec<(String, String)> = Vec::new();
    let mut k: usize = 0;
    while k < NUM_READERS
        invariant
            k <= NUM_READERS,
            pairs_view(r@) == reader_formats_below(k as int),
        decreases NUM_READERS - k,
    {
        let e = reader_entry(k);
        let ghost before = pairs_view(r@);
        r.push((e.name.to_owned(), e.display.to_owned()));
        assert(pairs_view(r@) =~= before.push((reader_row(k as int).name, reader_row(k as int).display)));
        k = k + 1;
    }
    r
}

/// The input formats below `n` with display names and aliases.
pub open spec fn reader_aliases_below(n: int) -> Seq<(Seq<char>, Seq<char>, Seq<Seq<char>>)>
    decreases n,
{
    if n <= 0 {
        Seq::empty()
    } else {
        let w = reader_row(n - 1);
        reader_aliases_below(n - 1).push((w.name, w.display, other_names(w.names, w.name)))
    }
}

/// The input formats with their display names and aliases, in table
/// order.
pub fn get_reader_formats_with_aliases() -> (r: Vec<(String, (String, Vec<String>))>)
    ensures
        alias_rows_view(r@) == reader_aliases_below(NUM_READERS as int),
{
    let mut r: Vec<(String, (String, Vec<String>))> = Vec::new();
    let mut k: usize = 0;
    while k < NUM_READERS
        invariant
            k <= NUM_READERS,
            alias_rows_view(r@) == reader_aliases_below(k as int),
        decreases NUM_READERS - k,
    {
        let e = reader_entry(k);
        let ghost before = alias_rows_view(r@);
        let al = aliases_of(&e.aliases, e.name);
        r.push((e.name.to_owned(), (e.display.to_owned(), al)));
        let ghost w = reader_row(k as int);
        assert(alias_rows_view(r@) =~= before.push((w.name, w.display, other_names(w.names, w.name))));
        k = k + 1;
    }
    r
}

} // verus!
