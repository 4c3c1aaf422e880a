//! Looking up element names, numbers and symbols, and converting angular
//! momentum between integers (0, 1, 2) and letters (s, p, d).
use crate::text::{chars_of, lowercase_of, parse_i32, parse_i32_spec, push_str, string_of, to_lowercase};
use vstd::prelude::*;

verus! {

/// Angular momentum letters in the order that includes `j` (spdfghijkl...).
pub open spec fn amchars_hij() -> Seq<char> {
    "spdfghijklmnoqrtuvwxyzabce"@
}

/// Angular momentum letters in the order that skips `j` (spdfghikl...).
pub open spec fn amchars_hik() -> Seq<char> {
    "spdfghiklmnoqrtuvwxyzabcej"@
}

/// The angular momentum letter order selected by `hij`.
pub open spec fn amchars(hij: bool) -> Seq<char> {
    if hij {
        amchars_hij()
    } else {
        amchars_hik()
    }
}

/// Lowercase symbol of the element with atomic number `z` (empty outside 1..=118).
pub open spec fn sym_spec(z: int) -> Seq<char> {
    if z == 1 {
        "h"@
    } else if z == 2 {
        "he"@
    } else if z == 3 {
        "li"@
    } else if z == 4 {
        "be"@
    } else if z == 5 {
        "b"@
    } else if z == 6 {
        "c"@
    } else if z == 7 {
        "n"@
    } else if z == 8 {
        "o"@
    } else if z == 9 {
        "f"@
    } else if z == 10 {
        "ne"@
    } else if z == 11 {
        "na"@
    } else if z == 12 {
        "mg"@
    } else if z == 13 {
        "al"@
    } else if z == 14 {
        "si"@
    } else if z == 15 {
        "p"@
    } else if z == 16 {
        "s"@
    } else if z == 17 {
        "cl"@
    } else if z == 18 {
        "ar"@
    } else if z == 19 {
        "k"@
    } else if z == 20 {
        "ca"@
    } else if z == 21 {
        "sc"@
    } else if z == 22 {
        "ti"@
    } else if z == 23 {
        "v"@
    } else if z == 24 {
        "cr"@
    } else if z == 25 {
        "mn"@
    } else if z == 26 {
        "fe"@
    } else if z == 27 {
        "co"@
    } else if z == 28 {
        "ni"@
    } else if z == 29 {
        "cu"@
    } else if z == 30 {
        "zn"@
    } else if z == 31 {
        "ga"@
    } else if z == 32 {
        "ge"@
    } else if z == 33 {
        "as"@
    } else if z == 34 {
        "se"@
    } else if z == 35 {
        "br"@
    } else if z == 36 {
        "kr"@
    } else if z == 37 {
        "rb"@
    } else if z == 38 {
        "sr"@
    } else if z == 39 {
        "y"@
    } else if z == 40 {
        "zr"@
    } else if z == 41 {
        "nb"@
    } else if z == 42 {
        "mo"@
    } else if z == 43 {
        "tc"@
    } else if z == 44 {
        "ru"@
    } else if z == 45 {
        "rh"@
    } else if z == 46 {
        "pd"@
    } else if z == 47 {
        "ag"@
    } else if z == 48 {
        "cd"@
    } else if z == 49 {
        "in"@
    } else if z == 50 {
        "sn"@
    } else if z == 51 {
        "sb"@
    } else if z == 52 {
        "te"@
    } else if z == 53 {
        "i"@
    } else if z == 54 {
        "xe"@
    } else if z == 55 {
        "cs"@
    } else if z == 56 {
        "ba"@
    } else if z == 57 {
        "la"@
    } else if z == 58 {
        "ce"@
    } else if z == 59 {
        "pr"@
    } else if z == 60 {
        "nd"@
    } else if z == 61 {
        "pm"@
    } else if z == 62 {
        "sm"@
    } else if z == 63 {
        "eu"@
    } else if z == 64 {
        "gd"@
    } else if z == 65 {
        "tb"@
    } else if z == 66 {
        "dy"@
    } else if z == 67 {
        "ho"@
    } else if z == 68 {
        "er"@
    } else if z == 69 {
        "tm"@
    } else if z == 70 {
        "yb"@
    } else if z == 71 {
        "lu"@
    } else if z == 72 {
        "hf"@
    } else if z == 73 {
        "ta"@
    } else if z == 74 {
        "w"@
    } else if z == 75 {
        "re"@
    } else if z == 76 {
        "os"@
    } else if z == 77 {
        "ir"@
    } else if z == 78 {
        "pt"@
    } else if z == 79 {
        "au"@
    } else if z == 80 {
        "hg"@
    } else if z == 81 {
        "tl"@
    } else if z == 82 {
        "pb"@
    } else if z == 83 {
        "bi"@
    } else if z == 84 {
        "po"@
    } else if z == 85 {
        "at"@
    } else if z == 86 {
        "rn"@
    } else if z == 87 {
        "fr"@
    } else if z == 88 {
        "ra"@
    } else if z == 89 {
        "ac"@
    } else if z == 90 {
        "th"@
    } else if z == 91 {
        "pa"@
    } else if z == 92 {
        "u"@
    } else if z == 93 {
        "np"@
    } else if z == 94 {
        "pu"@
    } else if z == 95 {
        "am"@
    } else if z == 96 {
        "cm"@
    } else if z == 97 {
        "bk"@
    } else if z == 98 {
        "cf"@
    } else if z == 99 {
        "es"@
    } else if z == 100 {
        "fm"@
    } else if z == 101 {
        "md"@
    } else if z == 102 {
        "no"@
    } else if z == 103 {
        "lr"@
    } else if z == 104 {
        "rf"@
    } else if z == 105 {
        "db"@
    } else if z == 106 {
        "sg"@
    } else if z == 107 {
        "bh"@
    } else if z == 108 {
        "hs"@
    } else if z == 109 {
        "mt"@
    } else if z == 110 {
        "ds"@
    } else if z == 111 {
        "rg"@
    } else if z == 112 {
        "cn"@
    } else if z == 113 {
        "nh"@
    } else if z == 114 {
        "fl"@
    } else if z == 115 {
        "mc"@
    } else if z == 116 {
        "lv"@
    } else if z == 117 {
        "ts"@
    } else if z == 118 {
        "og"@
    } else {
        Seq::empty()
    }
}

/// Lowercase name of the element with atomic number `z` (empty outside 1..=118).
pub open spec fn name_spec(z: int) -> Seq<char> {
    if z == 1 {
        "hydrogen"@
    } else if z == 2 {
        "helium"@
    } else if z == 3 {
        "lithium"@
    } else if z == 4 {
        "beryllium"@
    } else if z == 5 {
        "boron"@
    } else if z == 6 {
        "carbon"@
    } else if z == 7 {
        "nitrogen"@
    } else if z == 8 {
        "oxygen"@
    } else if z == 9 {
        "fluorine"@
    } else if z == 10 {
        "neon"@
    } else if z == 11 {
        "sodium"@
    } else if z == 12 {
        "magnesium"@
    } else if z == 13 {
        "aluminum"@
    } else if z == 14 {
        "silicon"@
    } else if z == 15 {
        "phosphorus"@
    } else if z == 16 {
        "sulfur"@
    } else if z == 17 {
        "chlorine"@
    } else if z == 18 {
        "argon"@
    } else if z == 19 {
        "potassium"@
    } else if z == 20 {
        "calcium"@
    } else if z == 21 {
        "scandium"@
    } else if z == 22 {
        "titanium"@
    } else if z == 23 {
        "vanadium"@
    } else if z == 24 {
        "chromium"@
    } else if z == 25 {
        "manganese"@
    } else if z == 26 {
        "iron"@
    } else if z == 27 {
        "cobalt"@
    } else if z == 28 {
        "nickel"@
    } else if z == 29 {
        "copper"@
    } else if z == 30 {
        "zinc"@
    } else if z == 31 {
        "gallium"@
    } else if z == 32 {
        "germanium"@
    } else if z == 33 {
        "arsenic"@
    } else if z == 34 {
        "selenium"@
    } else if z == 35 {
        "bromine"@
    } else if z == 36 {
        "krypton"@
    } else if z == 37 {
        "rubidium"@
    } else if z == 38 {
        "strontium"@
    } else if z == 39 {
        "yttrium"@
    } else if z == 40 {
        "zirconium"@
    } else if z == 41 {
        "niobium"@
    } else if z == 42 {
        "molybdenum"@
    } else if z == 43 {
        "technetium"@
    } else if z == 44 {
        "ruthenium"@
    } else if z == 45 {
        "rhodium"@
    } else if z == 46 {
        "palladium"@
    } else if z == 47 {
        "silver"@
    } else if z == 48 {
        "cadmium"@
    } else if z == 49 {
        "indium"@
    } else if z == 50 {
        "tin"@
    } else if z == 51 {
        "antimony"@
    } else if z == 52 {
        "tellurium"@
    } else if z == 53 {
        "iodine"@
    } else if z == 54 {
        "xenon"@
    } else if z == 55 {
        "cesium"@
    } else if z == 56 {
        "barium"@
    } else if z == 57 {
        "lanthanum"@
    } else if z == 58 {
        "cerium"@
    } else if z == 59 {
        "praseodymium"@
    } else if z == 60 {
        "neodymium"@
    } else if z == 61 {
        "promethium"@
    } else if z == 62 {
        "samarium"@
    } else if z == 63 {
        "europium"@
    } else if z == 64 {
        "gadolinium"@
    } else if z == 65 {
        "terbium"@
    } else if z == 66 {
        "dysprosium"@
    } else if z == 67 {
        "holmium"@
    } else if z == 68 {
        "erbium"@
    } else if z == 69 {
        "thulium"@
    } else if z == 70 {
        "ytterbium"@
    } else if z == 71 {
        "lutetium"@
    } else if z == 72 {
        "hafnium"@
    } else if z == 73 {
        "tantalum"@
    } else if z == 74 {
        "tungsten"@
    } else if z == 75 {
        "rhenium"@
    } else if z == 76 {
        "osmium"@
    } else if z == 77 {
        "iridium"@
    } else if z == 78 {
        "platinum"@
    } else if z == 79 {
        "gold"@
    } else if z == 80 {
        "mercury"@
    } else if z == 81 {
        "thallium"@
    } else if z == 82 {
        "lead"@
    } else if z == 83 {
        "bismuth"@
    } else if z == 84 {
        "polonium"@
    } else if z == 85 {
        "astatine"@
    } else if z == 86 {
        "radon"@
    } else if z == 87 {
        "francium"@
    } else if z == 88 {
        "radium"@
    } else if z == 89 {
        "actinium"@
    } else if z == 90 {
        "thorium"@
    } else if z == 91 {
        "protactinium"@
    } else if z == 92 {
        "uranium"@
    } else if z == 93 {
        "neptunium"@
    } else if z == 94 {
        "plutonium"@
    } else if z == 95 {
        "americium"@
    } else if z == 96 {
        "curium"@
    } else if z == 97 {
        "berkelium"@
    } else if z == 98 {
        "californium"@
    } else if z == 99 {
        "einsteinium"@
    } else if z == 100 {
        "fermium"@
    } else if z == 101 {
        "mendelevium"@
    } else if z == 102 {
        "nobelium"@
    } else if z == 103 {
        "lawrencium"@
    } else if z == 104 {
        "rutherfordium"@
    } else if z == 105 {
        "dubnium"@
    } else if z == 106 {
        "seaborgium"@
    } else if z == 107 {
        "bohrium"@
    } else if z == 108 {
        "hassium"@
    } else if z == 109 {
        "meitnerium"@
    } else if z == 110 {
        "darmstadtium"@
    } else if z == 111 {
        "roentgenium"@
    } else if z == 112 {
        "copernicium"@
    } else if z == 113 {
        "nihonium"@
    } else if z == 114 {
        "flerovium"@
    } else if z == 115 {
        "moscovium"@
    } else if z == 116 {
        "livermorium"@
    } else if z == 117 {
        "tennessine"@
    } else if z == 118 {
        "oganesson"@
    } else {
        Seq::empty()
    }
}

/// Lowercase symbol of an element.
fn sym_of(z: i32) -> (r: &'static str)
    requires
        1 <= z <= 118,
    ensures
        r@ == sym_spec(z as int),
{
    match z {
        1 => "h",
        2 => "he",
        3 => "li",
        4 => "be",
        5 => "b",
        6 => "c",
        7 => "n",
        8 => "o",
        9 => "f",
        10 => "ne",
        11 => "na",
        12 => "mg",
        13 => "al",
        14 => "si",
        15 => "p",
        16 => "s",
        17 => "cl",
        18 => "ar",
        19 => "k",
        20 => "ca",
        21 => "sc",
        22 => "ti",
        23 => "v",
        24 => "cr",
        25 => "mn",
        26 => "fe",
        27 => "co",
        28 => "ni",
        29 => "cu",
        30 => "zn",
        31 => "ga",
        32 => "ge",
        33 => "as",
        34 => "se",
        35 => "br",
        36 => "kr",
        37 => "rb",
        38 => "sr",
        39 => "y",
        40 => "zr",
        41 => "nb",
        42 => "mo",
        43 => "tc",
        44 => "ru",
        45 => "rh",
        46 => "pd",
        47 => "ag",
        48 => "cd",
        49 => "in",
        50 => "sn",
        51 => "sb",
        52 => "te",
        53 => "i",
        54 => "xe",
        55 => "cs",
        56 => "ba",
        57 => "la",
        58 => "ce",
        59 => "pr",
        60 => "nd",
        61 => "pm",
        62 => "sm",
        63 => "eu",
        64 => "gd",
        65 => "tb",
        66 => "dy",
        67 => "ho",
        68 => "er",
        69 => "tm",
        70 => "yb",
        71 => "lu",
        72 => "hf",
        73 => "ta",
        74 => "w",
        75 => "re",
        76 => "os",
        77 => "ir",
        78 => "pt",
        79 => "au",
        80 => "hg",
        81 => "tl",
        82 => "pb",
        83 => "bi",
        84 => "po",
        85 => "at",
        86 => "rn",
        87 => "fr",
        88 => "ra",
        89 => "ac",
        90 => "th",
        91 => "pa",
        92 => "u",
        93 => "np",
        94 => "pu",
        95 => "am",
        96 => "cm",
        97 => "bk",
        98 => "cf",
        99 => "es",
        100 => "fm",
        101 => "md",
        102 => "no",
        103 => "lr",
        104 => "rf",
        105 => "db",
        106 => "sg",
        107 => "bh",
        108 => "hs",
        109 => "mt",
        110 => "ds",
        111 => "rg",
        112 => "cn",
        113 => "nh",
        114 => "fl",
        115 => "mc",
        116 => "lv",
        117 => "ts",
        118 => "og",
        _ => "",
    }
}

/// Lowercase name of an element.
fn name_of(z: i32) -> (r: &'static str)
    requires
        1 <= z <= 118,
    ensures
        r@ == name_spec(z as int),
{
    match z {
        1 => "hydrogen",
        2 => "helium",
        3 => "lithium",
        4 => "beryllium",
        5 => "boron",
        6 => "carbon",
        7 => "nitrogen",
        8 => "oxygen",
        9 => "fluorine",
        10 => "neon",
        11 => "sodium",
        12 => "magnesium",
        13 => "aluminum",
        14 => "silicon",
        15 => "phosphorus",
        16 => "sulfur",
        17 => "chlorine",
        18 => "argon",
        19 => "potassium",
        20 => "calcium",
        21 => "scandium",
        22 => "titanium",
        23 => "vanadium",
        24 => "chromium",
        25 => "manganese",
        26 => "iron",
        27 => "cobalt",
        28 => "nickel",
        29 => "copper",
        30 => "zinc",
        31 => "gallium",
        32 => "germanium",
        33 => "arsenic",
        34 => "selenium",
        35 => "bromine",
        36 => "krypton",
        37 => "rubidium",
        38 => "strontium",
        39 => "yttrium",
        40 => "zirconium",
        41 => "niobium",
        42 => "molybdenum",
        43 => "technetium",
        44 => "ruthenium",
        45 => "rhodium",
        46 => "palladium",
        47 => "silver",
        48 => "cadmium",
        49 => "indium",
        50 => "tin",
        51 => "antimony",
        52 => "tellurium",
        53 => "iodine",
        54 => "xenon",
        55 => "cesium",
        56 => "barium",
        57 => "lanthanum",
        58 => "cerium",
        59 => "praseodymium",
        60 => "neodymium",
        61 => "promethium",
        62 => "samarium",
        63 => "europium",
        64 => "gadolinium",
        65 => "terbium",
        66 => "dysprosium",
        67 => "holmium",
        68 => "erbium",
        69 => "thulium",
        70 => "ytterbium",
        71 => "lutetium",
        72 => "hafnium",
        73 => "tantalum",
        74 => "tungsten",
        75 => "rhenium",
        76 => "osmium",
        77 => "iridium",
        78 => "platinum",
        79 => "gold",
        80 => "mercury",
        81 => "thallium",
        82 => "lead",
        83 => "bismuth",
        84 => "polonium",
        85 => "astatine",
        86 => "radon",
        87 => "francium",
        88 => "radium",
        89 => "actinium",
        90 => "thorium",
        91 => "protactinium",
        92 => "uranium",
        93 => "neptunium",
        94 => "plutonium",
        95 => "americium",
        96 => "curium",
        97 => "berkelium",
        98 => "californium",
        99 => "einsteinium",
        100 => "fermium",
        101 => "mendelevium",
        102 => "nobelium",
        103 => "lawrencium",
        104 => "rutherfordium",
        105 => "dubnium",
        106 => "seaborgium",
        107 => "bohrium",
        108 => "hassium",
        109 => "meitnerium",
        110 => "darmstadtium",
        111 => "roentgenium",
        112 => "copernicium",
        113 => "nihonium",
        114 => "flerovium",
        115 => "moscovium",
        116 => "livermorium",
        117 => "tennessine",
        118 => "oganesson",
        _ => "",
    }
}

/// Element data `(symbol, Z, name)` for an atomic number.
pub open spec fn element_data_spec(z: int) -> Option<(Seq<char>, int, Seq<char>)> {
    if 1 <= z <= 118 {
        Some((sym_spec(z), z, name_spec(z)))
    } else {
        None
    }
}

/// Obtain a list of the names of all the elements, in order of atomic number.
pub fn all_element_names() -> (r: Vec<String>)
    ensures
        r.len() == 118,
        forall|i: int| 0 <= i < 118 ==> #[trigger] r@[i]@ == name_spec(i + 1),
{
    let mut r: Vec<String> = Vec::new();
    let mut z: i32 = 1;
    while z <= 118
        invariant
            1 <= z <= 119,
            r.len() == z - 1,
            forall|i: int| 0 <= i < z - 1 ==> #[trigger] r@[i]@ == name_spec(i + 1),
        decreases 119 - z,
    {
        r.push(name_of(z).to_owned());
        z = z + 1;
    }
    r
}

/// Obtain elemental data `(symbol, Z, name)` given a Z (charge) number.
pub fn element_data_from_Z(z: i32) -> (r: Option<(&'static str, i32, &'static str)>)
    ensures
        r is Some <==> 1 <= z <= 118,
        r matches Some(d) ==> d.0@ == sym_spec(z as int) && d.1 == z && d.2@ == name_spec(z as int),
{
    if 1 <= z && z <= 118 {
        Some((sym_of(z), z, name_of(z)))
    } else {
        None
    }
}

/// The first atomic number from `z` on whose lowercase symbol is `s`.
pub open spec fn sym_search(s: Seq<char>, z: int) -> Option<i32>
    decreases 119 - z,
{
    if z > 118 || z < 1 {
        None
    } else if sym_spec(z) == s {
        Some(z as i32)
    } else {
        sym_search(s, z + 1)
    }
}

/// The first atomic number from `z` on whose lowercase name is `s`.
pub open spec fn name_search(s: Seq<char>, z: int) -> Option<i32>
    decreases 119 - z,
{
    if z > 118 || z < 1 {
        None
    } else if name_spec(z) == s {
        Some(z as i32)
    } else {
        name_search(s, z + 1)
    }
}

proof fn lemma_sym_search(s: Seq<char>, z: int)
    requires
        1 <= z <= 119,
        forall|k: int| 1 <= k < z ==> sym_spec(k) != s,
    ensures
        sym_search(s, 1) == sym_search(s, z),
    decreases z,
{
    if z > 1 {
        lemma_sym_search(s, z - 1);
    }
}

proof fn lemma_name_search(s: Seq<char>, z: int)
    requires
        1 <= z <= 119,
        forall|k: int| 1 <= k < z ==> name_spec(k) != s,
    ensures
        name_search(s, 1) == name_search(s, z),
    decreases z,
{
    if z > 1 {
        lemma_name_search(s, z - 1);
    }
}

/// The atomic number whose lowercase symbol is `s`, if any.
fn z_of_sym_lower(s: &String) -> (r: Option<i32>)
    ensures
        r matches Some(z) ==> 1 <= z <= 118 && sym_spec(z as int) == s@,
        r is None ==> forall|z: int| 1 <= z <= 118 ==> sym_spec(z) != s@,
        r == sym_search(s@, 1),
{
    let mut z: i32 = 1;
    while z <= 118
        invariant
            1 <= z <= 119,
            forall|k: int| 1 <= k < z ==> sym_spec(k) != s@,
        decreases 119 - z,
    {
        if sym_of(z).to_owned() == *s {
            proof {
                lemma_sym_search(s@, z as int);
            }
            return Some(z);
        }
        z = z + 1;
    }
    proof {
        lemma_sym_search(s@, 119);
    }
    None
}

/// The atomic number whose lowercase name is `s`, if any.
fn z_of_name_lower(s: &String) -> (r: Option<i32>)
    ensures
        r matches Some(z) ==> 1 <= z <= 118 && name_spec(z as int) == s@,
        r is None ==> forall|z: int| 1 <= z <= 118 ==> name_spec(z) != s@,
        r == name_search(s@, 1),
{
    let mut z: i32 = 1;
    while z <= 118
        invariant
            1 <= z <= 119,
            forall|k: int| 1 <= k < z ==> name_spec(k) != s@,
        decreases 119 - z,
    {
        if name_of(z).to_owned() == *s {
            proof {
                lemma_name_search(s@, z as int);
            }
            return Some(z);
        }
        z = z + 1;
    }
    proof {
        lemma_name_search(s@, 119);
    }
    None
}

/// Obtain elemental data given a symbol (case insensitive).
pub fn element_data_from_sym(sym: &str) -> (r: Option<(&'static str, i32, &'static str)>)
    ensures
        r is None ==> forall|z: int| 1 <= z <= 118 ==> sym_spec(z) != lowercase_of(sym@),
        r matches Some(d) ==> 1 <= d.1 <= 118 && sym_spec(d.1 as int) == lowercase_of(sym@)
            && d.0@ == sym_spec(d.1 as int) && d.2@ == name_spec(d.1 as int),
{
    let low = to_lowercase(sym);
    match z_of_sym_lower(&low) {
        Some(z) => Some((sym_of(z), z, name_of(z))),
        None => None,
    }
}

/// Obtain elemental data given an elemental name (case insensitive).
pub fn element_data_from_name(name: &str) -> (r: Option<(&'static str, i32, &'static str)>)
    ensures
        r is None ==> forall|z: int| 1 <= z <= 118 ==> name_spec(z) != lowercase_of(name@),
        r matches Some(d) ==> 1 <= d.1 <= 118 && name_spec(d.1 as int) == lowercase_of(name@)
            && d.0@ == sym_spec(d.1 as int) && d.2@ == name_spec(d.1 as int),
{
    let low = to_lowercase(name);
    match z_of_name_lower(&low) {
        Some(z) => Some((sym_of(z), z, name_of(z))),
        None => None,
    }
}

/// Obtain the name of an element given its Z (charge) number.
pub fn element_name_from_Z(z: i32) -> (r: Option<&'static str>)
    ensures
        r is Some <==> 1 <= z <= 118,
        r matches Some(n) ==> n@ == name_spec(z as int),
{
    if 1 <= z && z <= 118 {
        Some(name_of(z))
    } else {
        None
    }
}

/// `s` with its first character turned to ASCII uppercase.
pub open spec fn capitalize_spec(s: Seq<char>) -> Seq<char> {
    if s.len() == 0 {
        s
    } else {
        s.update(0, upper_ascii(s[0]))
    }
}

/// ASCII uppercase of a character; other characters are kept.
pub open spec fn upper_ascii(c: char) -> char {
    if 'a' <= c && c <= 'z' {
        ((c as u32) - 32) as char
    } else {
        c
    }
}

/// ASCII lowercase of a character; other characters are kept.
pub open spec fn lower_ascii(c: char) -> char {
    if 'A' <= c && c <= 'Z' {
        ((c as u32) + 32) as char
    } else {
        c
    }
}

/// Computes `upper_ascii`.
pub fn to_upper_ascii(c: char) -> (r: char)
    ensures
        r == upper_ascii(c),
{
    if 'a' <= c && c <= 'z' {
        ((c as u32) - 32) as u8 as char
    } else {
        c
    }
}

/// Computes `lower_ascii`.
pub fn to_lower_ascii(c: char) -> (r: char)
    ensures
        r == lower_ascii(c),
{
    if 'A' <= c && c <= 'Z' {
        ((c as u32) + 32) as u8 as char
    } else {
        c
    }
}

/// Turns the first character of a string to uppercase. Element names and
/// symbols are ASCII, where this is what `char::to_uppercase` does.
fn capitalize(s: &str) -> (r: String)
    ensures
        r@ == capitalize_spec(s@),
{
    let mut v = chars_of(s);
    if v.len() > 0 {
        let c = to_upper_ascii(v[0]);
        v.set(0, c);
    }
    string_of(v.as_slice())
}

/// Obtain the capitalized name of an element given its Z (charge) number.
pub fn element_name_from_Z_with_normalize(z: i32) -> (r: Option<String>)
    ensures
        r is Some <==> 1 <= z <= 118,
        r matches Some(n) ==> n@ == capitalize_spec(name_spec(z as int)),
{
    if 1 <= z && z <= 118 {
        Some(capitalize(name_of(z)))
    } else {
        None
    }
}

/// Obtain the Z (charge) number of an element given its name.
pub fn element_Z_from_name(name: &str) -> (r: Option<i32>)
    ensures
        r is None ==> forall|z: int| 1 <= z <= 118 ==> name_spec(z) != lowercase_of(name@),
        r matches Some(z) ==> 1 <= z <= 118 && name_spec(z as int) == lowercase_of(name@),
        r == name_search(lowercase_of(name@), 1),
{
    let low = to_lowercase(name);
    z_of_name_lower(&low)
}

/// Obtain the symbol of an element given its Z (charge) number.
pub fn element_sym_from_Z(z: i32) -> (r: Option<&'static str>)
    ensures
        r is Some <==> 1 <= z <= 118,
        r matches Some(s) ==> s@ == sym_spec(z as int),
{
    if 1 <= z && z <= 118 {
        Some(sym_of(z))
    } else {
        None
    }
}

/// Obtain the symbol of an element given its Z (charge) number, with the
/// first character capitalized.
pub fn element_sym_from_Z_with_normalize(z: i32) -> (r: Option<String>)
    ensures
        r is Some <==> 1 <= z <= 118,
        r matches Some(s) ==> s@ == capitalize_spec(sym_spec(z as int)),
{
    if 1 <= z && z <= 118 {
        Some(capitalize(sym_of(z)))
    } else {
        None
    }
}

/// Obtain the Z (charge) number of an element given its symbol.
pub fn element_Z_from_sym(sym: &str) -> (r: Option<i32>)
    ensures
        r is None ==> forall|z: int| 1 <= z <= 118 ==> sym_spec(z) != lowercase_of(sym@),
        r matches Some(z) ==> 1 <= z <= 118 && sym_spec(z as int) == lowercase_of(sym@),
        r == sym_search(lowercase_of(sym@), 1),
{
    let low = to_lowercase(sym);
    z_of_sym_lower(&low)
}

/// What `element_Z_from_str` finds: a decimal integer as such, else the
/// element with that symbol, else the element with that name (symbol and
/// name compared after lowercasing).
pub open spec fn z_from_str_spec(s: Seq<char>) -> Option<i32> {
    match parse_i32_spec(s) {
        Some(v) => Some(v),
        None => match sym_search(lowercase_of(s), 1) {
            Some(z) => Some(z),
            None => name_search(lowercase_of(s), 1),
        },
    }
}

/// Obtain the Z number from an atomic number, a symbol or a name.
pub fn element_Z_from_str(s: &str) -> (r: Option<i32>)
    ensures
        r == z_from_str_spec(s@),
{
    let v = chars_of(s);
    if let Some(z) = parse_i32(v.as_slice()) {
        return Some(z);
    }
    let low = to_lowercase(s);
    if let Some(z) = z_of_sym_lower(&low) {
        return Some(z);
    }
    z_of_name_lower(&low)
}

/// The letters for a list of angular momenta.
pub open spec fn amint_to_char_spec(am: Seq<i32>, hij: bool) -> Seq<char> {
    Seq::new(am.len(), |i: int| amchars(hij)[am[i] as int])
}

/// Angular momenta that have a letter (0 through 25).
pub open spec fn am_in_range(am: Seq<i32>) -> bool {
    forall|i: int| 0 <= i < am.len() ==> 0 <= #[trigger] am[i] < 26
}

fn amchar_at(a: i32, hij: bool) -> (c: char)
    requires
        0 <= a < 26,
    ensures
        c == amchars(hij)[a as int],
{
    let m = if hij {
        "spdfghijklmnoqrtuvwxyzabce"
    } else {
        "spdfghiklmnoqrtuvwxyzabcej"
    };
    proof {
        reveal_strlit("spdfghijklmnoqrtuvwxyzabce");
        reveal_strlit("spdfghiklmnoqrtuvwxyzabcej");
    }
    let v = chars_of(m);
    v[a as usize]
}

/// Convert angular momentum integers to letters; `[0, 1, 2]` gives "spd".
///
/// If `hij` is true the ordering spdfghijkl is used, otherwise spdfghikl.
pub fn amint_to_char(am: &[i32], hij: bool) -> (r: String)
    requires
        am_in_range(am@),
    ensures
        r@ == amint_to_char_spec(am@, hij),
{
    let mut v: Vec<char> = Vec::new();
    let mut i: usize = 0;
    while i < am.len()
        invariant
            i <= am.len(),
            am_in_range(am@),
            v@ =~= amint_to_char_spec(am@, hij).take(i as int),
        decreases am.len() - i,
    {
        v.push(amchar_at(am[i], hij));
        i = i + 1;
    }
    assert(amint_to_char_spec(am@, hij).take(am.len() as int) =~= amint_to_char_spec(am@, hij));
    string_of(v.as_slice())
}

/// Like `amint_to_char`, but an sp shell (`[0, 1]`) gives "l" (the GAMESS
/// and PQS convention).
pub fn amint_to_char_use_L(am: &[i32], hij: bool) -> (r: String)
    requires
        am_in_range(am@),
    ensures
        r@ == (if am@ == seq![0i32, 1i32] { "l"@ } else { amint_to_char_spec(am@, hij) }),
{
    if am.len() == 2 && am[0] == 0 && am[1] == 1 {
        assert(am@ =~= seq![0i32, 1i32]);
        "l".to_owned()
    } else {
        amint_to_char(am, hij)
    }
}

/// Index of the first occurrence of `c` in `m`, if any.
pub open spec fn first_index(m: Seq<char>, c: char) -> Option<int> {
    if exists|i: int| 0 <= i < m.len() && m[i] == c {
        Some(choose|i: int| 0 <= i < m.len() && m[i] == c && forall|j: int| 0 <= j < i ==> m[j] != c)
    } else {
        None
    }
}

/// Angular momenta for the letters of `s` (already lowercased), if all known.
pub open spec fn amchar_to_int_spec(s: Seq<char>, hij: bool) -> Option<Seq<i32>> {
    if forall|i: int| 0 <= i < s.len() ==> #[trigger] first_index(amchars(hij), s[i]) is Some {
        Some(Seq::new(s.len(), |i: int| first_index(amchars(hij), s[i])->0 as i32))
    } else {
        None
    }
}

proof fn lemma_first_index(m: Seq<char>, c: char, i: int)
    requires
        0 <= i < m.len(),
        m[i] == c,
        forall|j: int| 0 <= j < i ==> m[j] != c,
    ensures
        first_index(m, c) == Some(i),
{
    let k = choose|k: int| 0 <= k < m.len() && m[k] == c && forall|j: int| 0 <= j < k ==> m[j] != c;
    assert(0 <= k < m.len() && m[k] == c && forall|j: int| 0 <= j < k ==> m[j] != c);
    if k < i {
        assert(m[k] != c);
    } else if k > i {
        assert(m[i] != c);
    }
}

fn find_amchar(c: char, hij: bool) -> (r: Option<i32>)
    ensures
        r matches Some(k) ==> first_index(amchars(hij), c) == Some(k as int),
        r is None ==> first_index(amchars(hij), c) is None,
{
    let m = if hij {
        "spdfghijklmnoqrtuvwxyzabce"
    } else {
        "spdfghiklmnoqrtuvwxyzabcej"
    };
    proof {
        reveal_strlit("spdfghijklmnoqrtuvwxyzabce");
        reveal_strlit("spdfghiklmnoqrtuvwxyzabcej");
    }
    let v = chars_of(m);
    let ghost mm = amchars(hij);
    assert(v@ == mm);
    assert(v@.len() == 26);
    let mut i: usize = 0;
    while i < v.len()
        invariant
            i <= v.len(),
            v@ == mm,
            mm == amchars(hij),
            v@.len() == 26,
            forall|j: int| 0 <= j < i ==> mm[j] != c,
        decreases v.len() - i,
    {
        if v[i] == c {
            proof {
                lemma_first_index(mm, c, i as int);
            }
            return Some(i as i32);
        }
        i = i + 1;
    }
    None
}

/// Convert angular momentum letters to integers: "p" gives `[1]` and "sp"
/// gives `[0, 1]` (case insensitive); `None` if a letter is unknown.
pub fn amchar_to_int(amchar: &str, hij: bool) -> (r: Option<Vec<i32>>)
    ensures
        r matches Some(v) ==> amchar_to_int_spec(lowercase_of(amchar@), hij) == Some(v@),
        r is None ==> amchar_to_int_spec(lowercase_of(amchar@), hij) is None,
{
    let low = to_lowercase(amchar);
    let s = chars_of(low.as_str());
    let ghost ls = lowercase_of(amchar@);
    let mut r: Vec<i32> = Vec::new();
    let mut i: usize = 0;
    while i < s.len()
        invariant
            i <= s.len(),
            s@ == ls,
            ls == lowercase_of(amchar@),
            r.len() == i,
            forall|k: int| 0 <= k < i ==> first_index(amchars(hij), #[trigger] s@[k]) == Some(r@[k] as int),
        decreases s.len() - i,
    {
        let c = s[i];
        match find_amchar(c, hij) {
            Some(k) => r.push(k),
            None => {
                proof {
                    assert(c == ls[i as int]);
                    assert(first_index(amchars(hij), ls[i as int]) is None);
                }
                return None;
            },
        }
        i = i + 1;
    }
    proof {
        assert forall|k: int| 0 <= k < ls.len() implies #[trigger] first_index(amchars(hij), ls[k]) is Some by {
            assert(first_index(amchars(hij), s@[k]) == Some(r@[k] as int));
        }
        assert(Seq::new(ls.len(), |k: int| first_index(amchars(hij), ls[k])->0 as i32) =~= r@);
    }
    Some(r)
}

/// Largest value of a nonempty sequence.
pub open spec fn seq_max(s: Seq<i32>) -> i32
    decreases s.len(),
{
    if s.len() <= 1 {
        s[0]
    } else {
        let m = seq_max(s.drop_last());
        if s.last() > m {
            s.last()
        } else {
            m
        }
    }
}

/// Largest value of a nonempty list.
pub fn max_of(s: &[i32]) -> (r: i32)
    requires
        s@.len() > 0,
    ensures
        r == seq_max(s@),
{
    let mut m = s[0];
    let mut i: usize = 1;
    while i < s.len()
        invariant
            1 <= i <= s.len(),
            m == seq_max(s@.take(i as int)),
        decreases s.len() - i,
    {
        proof {
            assert(s@.take(i + 1).drop_last() =~= s@.take(i as int));
        }
        if s[i] > m {
            m = s[i];
        }
        i = i + 1;
    }
    assert(s@.take(s.len() as int) =~= s@);
    m
}

/// The function type name for a shell: `base_type` up to p functions,
/// `{base_type}_{spherical_type}` above.
pub open spec fn function_type_spec(am: Seq<i32>, base: Seq<char>, sph: Seq<char>) -> Seq<char> {
    if seq_max(am) <= 1 {
        base
    } else {
        base + "_"@ + sph
    }
}

/// The function type name for a shell with the given angular momenta.
pub fn function_type_from_am(shell_am: &[i32], base_type: &str, spherical_type: &str) -> (r: String)
    requires
        shell_am@.len() > 0,
    ensures
        r@ == function_type_spec(shell_am@, base_type@, spherical_type@),
{
    if max_of(shell_am) <= 1 {
        base_type.to_owned()
    } else {
        let mut r = base_type.to_owned();
        push_str(&mut r, "_");
        push_str(&mut r, spherical_type);
        r
    }
}

/// The usual filling order of shells: (angular momentum, electrons).
pub open spec fn aminfo() -> Seq<(int, int)> {
    seq![(0, 2), (0, 2), (1, 6), (0, 2), (1, 6), (0, 2), (2, 10), (1, 6), (0, 2), (2, 10), (1, 6), (0, 2),
        (3, 14), (2, 10), (1, 6), (0, 2), (3, 14), (2, 10), (1, 6)]
}

/// Shells fully covered by `rem` electrons, filling from `aminfo()[k]` on;
/// `None` if a shell would be covered partly.
pub open spec fn fill_regular(rem: int, k: nat) -> Option<Seq<int>>
    decreases 19 - k,
{
    if k >= 19 || rem < aminfo()[k as int].1 {
        if rem == 0 {
            Some(Seq::empty())
        } else {
            None
        }
    } else {
        match fill_regular(rem - aminfo()[k as int].1, k + 1) {
            Some(rest) => Some(seq![aminfo()[k as int].0] + rest),
            None => None,
        }
    }
}

/// ECP cores that do not follow the usual order.
pub open spec fn special_core(n: int) -> Option<Seq<int>> {
    if n == 28 {
        Some(seq![0, 0, 0, 1, 1, 2])
    } else if n == 46 {
        Some(seq![0, 0, 0, 0, 1, 1, 1, 2, 2])
    } else if n == 60 {
        Some(seq![0, 0, 0, 0, 1, 1, 1, 2, 2, 3])
    } else if n == 68 {
        Some(seq![0, 0, 0, 0, 0, 1, 1, 1, 1, 2, 2, 3])
    } else if n == 78 {
        Some(seq![0, 0, 0, 0, 0, 1, 1, 1, 1, 2, 2, 2, 3])
    } else if n == 92 {
        Some(seq![0, 0, 0, 0, 0, 1, 1, 1, 1, 2, 2, 2, 3, 3])
    } else {
        None
    }
}

/// Angular momenta of the shells an ECP with `n` electrons covers.
pub open spec fn core_shells(n: int) -> Option<Seq<int>> {
    match special_core(n) {
        Some(s) => Some(s),
        None => fill_regular(n, 0),
    }
}

/// Number of entries of `s` equal to `a`.
pub open spec fn count_am(s: Seq<int>, a: int) -> nat
    decreases s.len(),
{
    if s.len() == 0 {
        0
    } else {
        count_am(s.drop_last(), a) + if s.last() == a { 1nat } else { 0nat }
    }
}

/// Starting principal quantum numbers of the shells outside an ECP core.
pub open spec fn shells_start_spec(core: Seq<int>, max_am: int) -> Seq<int> {
    let head: Seq<int> = seq![count_am(core, 0) + 1int, count_am(core, 1) + 2int, count_am(core, 2) + 3int, count_am(core, 3) + 4int];
    head + Seq::new(if max_am >= 4 { (max_am - 3) as nat } else { 0 }, |i: int| i + 5)
}

fn aminfo_at(k: usize) -> (r: (i32, i32))
    requires
        k < 19,
    ensures
        r.0 == aminfo()[k as int].0,
        r.1 == aminfo()[k as int].1,
{
    let t: [(i32, i32); 19] = [(0, 2), (0, 2), (1, 6), (0, 2), (1, 6), (0, 2), (2, 10), (1, 6), (0, 2),
        (2, 10), (1, 6), (0, 2), (3, 14), (2, 10), (1, 6), (0, 2), (3, 14), (2, 10), (1, 6)];
    t[k]
}

fn special_core_exec(n: i32) -> (r: Option<Vec<i32>>)
    ensures
        r matches Some(v) ==> special_core(n as int) matches Some(s) && s =~= Seq::new(v@.len(), |i: int| v@[i] as int),
        r is None ==> special_core(n as int) is None,
{
    let v: Vec<i32> = if n == 28 {
        vec![0, 0, 0, 1, 1, 2]
    } else if n == 46 {
        vec![0, 0, 0, 0, 1, 1, 1, 2, 2]
    } else if n == 60 {
        vec![0, 0, 0, 0, 1, 1, 1, 2, 2, 3]
    } else if n == 68 {
        vec![0, 0, 0, 0, 0, 1, 1, 1, 1, 2, 2, 3]
    } else if n == 78 {
        vec![0, 0, 0, 0, 0, 1, 1, 1, 1, 2, 2, 2, 3]
    } else if n == 92 {
        vec![0, 0, 0, 0, 0, 1, 1, 1, 1, 2, 2, 2, 3, 3]
    } else {
        return None;
    };
    Some(v)
}

/// Shells covered by `n` electrons, filling in the usual order.
fn fill_regular_exec(n: i32) -> (r: Option<Vec<i32>>)
    requires
        0 <= n,
    ensures
        r matches Some(v) ==> fill_regular(n as int, 0) matches Some(s) && s =~= Seq::new(v@.len(), |i: int| v@[i] as int),
        r is None ==> fill_regular(n as int, 0) is None,
{
    let mut remaining = n;
    let mut contained: Vec<i32> = Vec::new();
    let mut k: usize = 0;
    let mut done = false;
    while k < 19 && !done
        invariant
            0 <= remaining <= n,
            k <= 19,
            done ==> k < 19 && remaining < aminfo()[k as int].1,
            contained.len() <= k,
            forall|i: int| 0 <= i < contained.len() ==> 0 <= #[trigger] contained@[i] <= 3,
            (fill_regular(n as int, 0) is Some) == (fill_regular(remaining as int, k as nat) is Some),
            fill_regular(remaining as int, k as nat) matches Some(rest) ==> fill_regular(n as int, 0)
                == Some(Seq::new(contained@.len(), |i: int| contained@[i] as int) + rest),
        decreases 19 - k + (if done { 0int } else { 1int }),
    {
        let (am, ne) = aminfo_at(k);
        if remaining >= ne {
            proof {
                let ghost old_c = Seq::new(contained@.len(), |i: int| contained@[i] as int);
                if let Some(rest) = fill_regular(remaining - ne, (k + 1) as nat) {
                    assert(fill_regular(remaining as int, k as nat) == Some(seq![am as int] + rest));
                    assert(Seq::new(contained@.len() + 1, |i: int| contained@.push(am)[i] as int)
                        =~= old_c + seq![am as int]);
                    assert(old_c + (seq![am as int] + rest) =~= (old_c + seq![am as int]) + rest);
                }
            }
            remaining = remaining - ne;
            contained.push(am);
            k = k + 1;
        } else {
            done = true;
        }
    }
    proof {
        assert(fill_regular(remaining as int, k as nat) == if remaining == 0 { Some(Seq::<int>::empty()) } else { None::<Seq<int>> });
        if remaining == 0 {
            assert(Seq::new(contained@.len(), |i: int| contained@[i] as int) + Seq::<int>::empty()
                =~= Seq::new(contained@.len(), |i: int| contained@[i] as int));
        }
    }
    if remaining != 0 {
        return None;
    }
    Some(contained)
}

/// Number of entries equal to `a`.
fn count_exec(v: &Vec<i32>, a: i32) -> (r: i32)
    requires
        v.len() <= 1000,
    ensures
        r as int == count_am(Seq::new(v@.len(), |i: int| v@[i] as int), a as int),
        0 <= r <= v.len(),
{
    let ghost s = Seq::new(v@.len(), |i: int| v@[i] as int);
    let mut c: i32 = 0;
    let mut i: usize = 0;
    while i < v.len()
        invariant
            i <= v.len() <= 1000,
            s == Seq::new(v@.len(), |i: int| v@[i] as int),
            c as int == count_am(s.take(i as int), a as int),
            0 <= c <= i,
        decreases v.len() - i,
    {
        proof {
            assert(s.take(i + 1).drop_last() =~= s.take(i as int));
        }
        if v[i] == a {
            c = c + 1;
        }
        i = i + 1;
    }
    assert(s.take(v.len() as int) =~= s);
    c
}

/// Return the starting principal quantum numbers of electron shells outside
/// an ECP core of `nelectrons` electrons.
///
/// An ECP covering 10 electrons covers 1s, 2s and 2p, so the shells start at
/// 3s, 3p, 3d and 4f (`[3, 3, 3, 4]`); the list is extended up to `max_am`.
/// Only fully covered shells are counted: a core that covers a shell partly
/// is outside what the function accepts.
pub fn electron_shells_start(nelectrons: i32, max_am: usize) -> (r: Vec<i32>)
    requires
        0 <= nelectrons <= 118,
        core_shells(nelectrons as int) is Some,
        max_am < 2147483646,
    ensures
        Seq::new(r@.len(), |i: int| r@[i] as int) == shells_start_spec(
            core_shells(nelectrons as int)->0,
            max_am as int,
        ),
{
    let contained = match special_core_exec(nelectrons) {
        Some(v) => v,
        None => match fill_regular_exec(nelectrons) {
            Some(v) => v,
            None => {
                return Vec::new();
            },
        },
    };
    let ghost core = core_shells(nelectrons as int)->0;
    assert(core =~= Seq::new(contained@.len(), |i: int| contained@[i] as int));
    proof {
        if special_core(nelectrons as int) is None {
            // the regular filling holds at most one entry per filling step
            assert(contained.len() <= 19) by {
                lemma_fill_regular_len(nelectrons as int, 0);
            }
        }
    }
    let mut r: Vec<i32> = Vec::new();
    r.push(count_exec(&contained, 0) + 1);
    r.push(count_exec(&contained, 1) + 2);
    r.push(count_exec(&contained, 2) + 3);
    r.push(count_exec(&contained, 3) + 4);
    let top: i32 = max_am as i32 + 1;
    let mut a: i32 = 5;
    while a <= top
        invariant
            5 <= a,
            top >= 5 ==> a <= top + 1,
            top < 5 ==> a == 5,
            top == max_am + 1,
            top < 2147483647,
            r.len() == (if a - 5 >= 0 { a - 5 } else { 0 }) + 4,
            forall|i: int| 4 <= i < r.len() ==> #[trigger] r@[i] == i + 1,
            Seq::new(4, |i: int| r@[i] as int) == shells_start_spec(core, max_am as int).take(4),
        decreases top + 1 - a,
    {
        r.push(a);
        a = a + 1;
    }
    proof {
        let ghost sp = shells_start_spec(core, max_am as int);
        let ghost rv = Seq::new(r@.len(), |i: int| r@[i] as int);
        assert(rv.len() == sp.len());
        assert forall|i: int| 0 <= i < rv.len() implies rv[i] == sp[i] by {
            if i < 4 {
                assert(Seq::new(4, |j: int| r@[j] as int)[i] == sp.take(4)[i]);
            }
        }
        assert(rv =~= sp);
    }
    r
}

proof fn lemma_fill_regular_len(rem: int, k: nat)
    requires
        fill_regular(rem, k) is Some,
    ensures
        fill_regular(rem, k)->0.len() <= 19 - k || k >= 19,
    decreases 19 - k,
{
    if k < 19 && rem >= aminfo()[k as int].1 {
        lemma_fill_regular_len(rem - aminfo()[k as int].1, k + 1);
    }
}

} // verus!
