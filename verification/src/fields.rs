//! Data structures for basis set information.
//!
//! The structures follow the JSON layout of the MolSSI Basis Set Exchange.
//! Maps of the JSON files are held as vectors of key/value pairs: element
//! maps are keyed by atomic number and kept in increasing order of it
//! (see [`elements_wf`]), other maps by their string keys in the order given.
use vstd::prelude::*;

verus! {

/// Auxiliary basis set reference: one name or a list of names.
#[derive(Debug)]
pub enum BseAuxiliary {
    /// Single auxiliary basis set name.
    Str(String),
    /// Multiple auxiliary basis set names.
    Vec(Vec<String>),
}

/// Electron shell data for a Gaussian-type orbital.
#[derive(Debug)]
pub struct BseElectronShell {
    /// Function type (e.g., "gto", "gto_spherical", "gto_cartesian").
    pub function_type: String,
    /// Region identifier for the shell.
    pub region: String,
    /// Angular momentum values; several for fused shells (sp, spd).
    pub angular_momentum: Vec<i32>,
    /// Gaussian exponents as strings.
    pub exponents: Vec<String>,
    /// Contraction coefficients as strings; each inner vector is one
    /// contraction over all primitives.
    pub coefficients: Vec<Vec<String>>,
}

/// GTO basis data for a single element from a component file.
#[derive(Debug)]
pub struct BseGtoElement {
    /// Reference keys for this element's data.
    pub references: Vec<String>,
    /// Electron shells for this element.
    pub electron_shells: Vec<BseElectronShell>,
}

/// ECP potential component for a single angular momentum.
#[derive(Debug)]
pub struct BseEcpPotential {
    /// Angular momentum for this potential.
    pub angular_momentum: Vec<i32>,
    /// Contraction coefficients.
    pub coefficients: Vec<Vec<String>>,
    /// ECP type (e.g., "scalar_ecp").
    pub ecp_type: String,
    /// R exponents for the ECP.
    pub r_exponents: Vec<i32>,
    /// Gaussian exponents for the ECP.
    pub gaussian_exponents: Vec<String>,
}

/// ECP basis data for a single element from a component file.
#[derive(Debug)]
pub struct BseEcpElement {
    /// Reference keys for this element's data.
    pub references: Vec<String>,
    /// Number of electrons replaced by the ECP.
    pub ecp_electrons: i32,
    /// ECP potentials for this element.
    pub ecp_potentials: Vec<BseEcpPotential>,
}

/// Schema information for MolSSI BSE JSON files.
#[derive(Debug)]
pub struct BseMolssiBseSchema {
    /// Schema type (e.g., "component", "element", "table", "complete").
    pub schema_type: String,
    /// Schema version string.
    pub schema_version: String,
}

/// GTO component file data for multiple elements.
#[derive(Debug)]
pub struct BseSkelComponentGto {
    /// Schema information.
    pub molssi_bse_schema: BseMolssiBseSchema,
    /// Description of this component.
    pub description: String,
    /// Data source identifier.
    pub data_source: String,
    /// Element data by atomic number.
    pub elements: Vec<(i32, BseGtoElement)>,
}

/// ECP component file data for multiple elements.
#[derive(Debug)]
pub struct BseSkelComponentEcp {
    /// Schema information.
    pub molssi_bse_schema: BseMolssiBseSchema,
    /// Description of this component.
    pub description: String,
    /// Data source identifier.
    pub data_source: String,
    /// Element data by atomic number.
    pub elements: Vec<(i32, BseEcpElement)>,
}

/// Component references for a single element.
#[derive(Debug)]
pub struct BseElementComponents {
    /// List of component file paths.
    pub components: Vec<String>,
}

/// Element file data mapping elements to their components.
#[derive(Debug)]
pub struct BseSkelElement {
    /// Schema information.
    pub molssi_bse_schema: BseMolssiBseSchema,
    /// Name of this element basis.
    pub name: String,
    /// Description.
    pub description: String,
    /// Element to component mapping, by atomic number.
    pub elements: Vec<(i32, BseElementComponents)>,
}

/// Table file data mapping elements to their element files.
#[derive(Debug)]
pub struct BseSkelTable {
    /// Schema information.
    pub molssi_bse_schema: BseMolssiBseSchema,
    /// Revision description.
    pub revision_description: String,
    /// Revision date.
    pub revision_date: String,
    /// Element to element file mapping, by atomic number.
    pub elements: Vec<(i32, String)>,
}

/// Metadata file data for a basis set.
#[derive(Debug)]
pub struct BseSkelMetadata {
    /// Schema information.
    pub molssi_bse_schema: BseMolssiBseSchema,
    /// Alternative names for this basis set.
    pub names: Vec<String>,
    /// Searchable tags.
    pub tags: Vec<String>,
    /// Family name (e.g., "dunning", "pople").
    pub family: String,
    /// Human-readable description.
    pub description: String,
    /// Role (e.g., "orbital", "jkfit", "rifit").
    pub role: String,
    /// Associated auxiliary basis sets, by role.
    pub auxiliaries: Vec<(String, BseAuxiliary)>,
}

/// Version-specific metadata for a basis set.
#[derive(Debug)]
pub struct BseRootMetadataVer {
    /// Relative path to the table file.
    pub file_relpath: String,
    /// Revision description.
    pub revdesc: String,
    /// Revision date.
    pub revdate: String,
    /// List of element atomic numbers (as strings) this version supports.
    pub elements: Vec<String>,
}

/// Root metadata for a basis set from METADATA.json.
#[derive(Debug)]
pub struct BseRootMetadata {
    /// Human-readable display name.
    pub display_name: String,
    /// Alternative names for searching.
    pub other_names: Vec<String>,
    /// Human-readable description.
    pub description: String,
    /// Latest version identifier.
    pub latest_version: String,
    /// Searchable tags.
    pub tags: Vec<String>,
    /// Base filename.
    pub basename: String,
    /// Relative path to the basis set files.
    pub relpath: String,
    /// Family name (e.g., "dunning", "pople").
    pub family: String,
    /// Role (e.g., "orbital", "jkfit", "rifit").
    pub role: String,
    /// Function types supported (e.g., "gto", "gto_spherical").
    pub function_types: Vec<String>,
    /// Associated auxiliary basis sets, by role.
    pub auxiliaries: Vec<(String, BseAuxiliary)>,
    /// Available versions, by version string.
    pub versions: Vec<(String, BseRootMetadataVer)>,
}

/// Reference information for basis set data sources.
#[derive(Debug)]
pub struct BseBasisReference {
    /// Description of the data source.
    pub reference_description: String,
    /// Reference keys for citation lookup.
    pub reference_keys: Vec<String>,
}

/// Basis set data for a single element.
#[derive(Debug)]
pub struct BseBasisElement {
    /// Reference information for this element's data.
    pub references: Vec<BseBasisReference>,
    /// Electron shells for this element.
    pub electron_shells: Option<Vec<BseElectronShell>>,
    /// ECP potentials for this element.
    pub ecp_potentials: Option<Vec<BseEcpPotential>>,
    /// Number of electrons replaced by ECP.
    pub ecp_electrons: Option<i32>,
}

/// Complete basis set information.
#[derive(Debug)]
pub struct BseBasis {
    /// Schema information.
    pub molssi_bse_schema: BseMolssiBseSchema,
    /// Revision description.
    pub revision_description: String,
    /// Revision date.
    pub revision_date: String,
    /// Element data by atomic number, in increasing order of it.
    pub elements: Vec<(i32, BseBasisElement)>,
    /// Version string.
    pub version: String,
    /// Function types in this basis set.
    pub function_types: Vec<String>,
    /// Alternative names.
    pub names: Vec<String>,
    /// Searchable tags.
    pub tags: Vec<String>,
    /// Family name.
    pub family: String,
    /// Human-readable description.
    pub description: String,
    /// Role (orbital, jkfit, etc.).
    pub role: String,
    /// Associated auxiliary basis sets, by role.
    pub auxiliaries: Vec<(String, BseAuxiliary)>,
    /// Display name.
    pub name: String,
}

/// Minimal basis set information, as the readers produce it.
#[derive(Debug)]
pub struct BseBasisMinimal {
    /// Schema information.
    pub molssi_bse_schema: BseMolssiBseSchema,
    /// Element data by atomic number, in increasing order of it.
    pub elements: Vec<(i32, BseBasisElement)>,
    /// Function types in this basis set.
    pub function_types: Vec<String>,
    /// Basis set name.
    pub name: String,
    /// Description.
    pub description: String,
}

/* #region views */

/// Mathematical value of an electron shell.
pub struct ShellV {
    pub function_type: Seq<char>,
    pub region: Seq<char>,
    pub am: Seq<i32>,
    pub exponents: Seq<Seq<char>>,
    pub coefficients: Seq<Seq<Seq<char>>>,
}

impl View for BseElectronShell {
    type V = ShellV;

    open spec fn view(&self) -> ShellV {
        ShellV {
            function_type: self.function_type@,
            region: self.region@,
            am: self.angular_momentum@,
            exponents: self.exponents.deep_view(),
            coefficients: self.coefficients.deep_view(),
        }
    }
}

/// Mathematical value of an ECP potential.
pub struct PotentialV {
    pub am: Seq<i32>,
    pub coefficients: Seq<Seq<Seq<char>>>,
    pub ecp_type: Seq<char>,
    pub r_exponents: Seq<i32>,
    pub gaussian_exponents: Seq<Seq<char>>,
}

impl View for BseEcpPotential {
    type V = PotentialV;

    open spec fn view(&self) -> PotentialV {
        PotentialV {
            am: self.angular_momentum@,
            coefficients: self.coefficients.deep_view(),
            ecp_type: self.ecp_type@,
            r_exponents: self.r_exponents@,
            gaussian_exponents: self.gaussian_exponents.deep_view(),
        }
    }
}

/// Mathematical value of a reference entry.
pub struct ReferenceV {
    pub description: Seq<char>,
    pub keys: Seq<Seq<char>>,
}

impl View for BseBasisReference {
    type V = ReferenceV;

    open spec fn view(&self) -> ReferenceV {
        ReferenceV { description: self.reference_description@, keys: self.reference_keys.deep_view() }
    }
}

/// Mathematical value of the data of one element.
pub struct ElementV {
    pub references: Seq<ReferenceV>,
    pub shells: Option<Seq<ShellV>>,
    pub potentials: Option<Seq<PotentialV>>,
    pub ecp_electrons: Option<i32>,
}

/// Values of a list of shells.
pub open spec fn shells_view(v: Seq<BseElectronShell>) -> Seq<ShellV> {
    Seq::new(v.len(), |i: int| v[i]@)
}

/// Values of a list of potentials.
pub open spec fn pots_view(v: Seq<BseEcpPotential>) -> Seq<PotentialV> {
    Seq::new(v.len(), |i: int| v[i]@)
}

/// Values of a list of references.
pub open spec fn refs_view(v: Seq<BseBasisReference>) -> Seq<ReferenceV> {
    Seq::new(v.len(), |i: int| v[i]@)
}

impl View for BseBasisElement {
    type V = ElementV;

    open spec fn view(&self) -> ElementV {
        ElementV {
            references: refs_view(self.references@),
            shells: match &self.electron_shells {
                Some(s) => Some(shells_view(s@)),
                None => None,
            },
            potentials: match &self.ecp_potentials {
                Some(p) => Some(pots_view(p@)),
                None => None,
            },
            ecp_electrons: self.ecp_electrons,
        }
    }
}

/// Values of an element map.
pub open spec fn elements_view(v: Seq<(i32, BseBasisElement)>) -> Seq<(i32, ElementV)> {
    Seq::new(v.len(), |i: int| (v[i].0, v[i].1@))
}

/// An element map is keyed by atomic numbers in strictly increasing order.
pub open spec fn keys_increasing<T>(v: Seq<(i32, T)>) -> bool {
    forall|i: int, j: int| 0 <= i < j < v.len() ==> v[i].0 < v[j].0
}

/// The element map of a basis set is keyed by strictly increasing atomic
/// numbers, which makes each element appear once.
pub open spec fn elements_wf(b: &BseBasis) -> bool {
    keys_increasing(b.elements@)
}


/// Mathematical value of an auxiliary basis reference.
pub enum AuxV {
    Str(Seq<char>),
    Vec(Seq<Seq<char>>),
}

impl View for BseAuxiliary {
    type V = AuxV;

    open spec fn view(&self) -> AuxV {
        match self {
            BseAuxiliary::Str(s) => AuxV::Str(s@),
            BseAuxiliary::Vec(v) => AuxV::Vec(v.deep_view()),
        }
    }
}

/// Values of a map of auxiliary basis sets by role.
pub open spec fn aux_map_view(v: Seq<(String, BseAuxiliary)>) -> Seq<(Seq<char>, AuxV)> {
    Seq::new(v.len(), |i: int| (v[i].0@, v[i].1@))
}

/// Mathematical value of one version of a basis set.
pub struct VerV {
    pub file_relpath: Seq<char>,
    pub revdesc: Seq<char>,
    pub revdate: Seq<char>,
    pub elements: Seq<Seq<char>>,
}

impl View for BseRootMetadataVer {
    type V = VerV;

    open spec fn view(&self) -> VerV {
        VerV {
            file_relpath: self.file_relpath@,
            revdesc: self.revdesc@,
            revdate: self.revdate@,
            elements: self.elements.deep_view(),
        }
    }
}

/// Values of a map of versions.
pub open spec fn versions_view(v: Seq<(String, BseRootMetadataVer)>) -> Seq<(Seq<char>, VerV)> {
    Seq::new(v.len(), |i: int| (v[i].0@, v[i].1@))
}

/// Mathematical value of the metadata of a basis set.
pub struct MetaV {
    pub display_name: Seq<char>,
    pub other_names: Seq<Seq<char>>,
    pub description: Seq<char>,
    pub latest_version: Seq<char>,
    pub tags: Seq<Seq<char>>,
    pub basename: Seq<char>,
    pub relpath: Seq<char>,
    pub family: Seq<char>,
    pub role: Seq<char>,
    pub function_types: Seq<Seq<char>>,
    pub auxiliaries: Seq<(Seq<char>, AuxV)>,
    pub versions: Seq<(Seq<char>, VerV)>,
}

impl View for BseRootMetadata {
    type V = MetaV;

    open spec fn view(&self) -> MetaV {
        MetaV {
            display_name: self.display_name@,
            other_names: self.other_names.deep_view(),
            description: self.description@,
            latest_version: self.latest_version@,
            tags: self.tags.deep_view(),
            basename: self.basename@,
            relpath: self.relpath@,
            family: self.family@,
            role: self.role@,
            function_types: self.function_types.deep_view(),
            auxiliaries: aux_map_view(self.auxiliaries@),
            versions: versions_view(self.versions@),
        }
    }
}

/// Values of the metadata of all basis sets, by internal name.
pub open spec fn metadata_view(v: Seq<(String, BseRootMetadata)>) -> Seq<(Seq<char>, MetaV)> {
    Seq::new(v.len(), |i: int| (v[i].0@, v[i].1@))
}

/* #endregion */

/* #region copies */

/// A copy of a list of strings.
pub fn copy_strings(v: &Vec<String>) -> (r: Vec<String>)
    ensures
        r.deep_view() == v.deep_view(),
{
    let mut r: Vec<String> = Vec::new();
    let mut i: usize = 0;
    while i < v.len()
        invariant
            i <= v.len(),
            r.len() == i,
            forall|k: int| 0 <= k < i ==> #[trigger] r@[k]@ == v@[k]@,
        decreases v.len() - i,
    {
        r.push(v[i].clone());
        i = i + 1;
    }
    assert(r.deep_view() =~= v.deep_view());
    r
}

/// A copy of a matrix of strings.
pub fn copy_matrix(v: &Vec<Vec<String>>) -> (r: Vec<Vec<String>>)
    ensures
        r.deep_view() == v.deep_view(),
{
    let mut r: Vec<Vec<String>> = Vec::new();
    let mut i: usize = 0;
    while i < v.len()
        invariant
            i <= v.len(),
            r.len() == i,
            forall|k: int| 0 <= k < i ==> #[trigger] r@[k].deep_view() == v@[k].deep_view(),
        decreases v.len() - i,
    {
        r.push(copy_strings(&v[i]));
        i = i + 1;
    }
    assert(r.deep_view() =~= v.deep_view());
    r
}

/// A copy of a list of integers.
pub fn copy_ints(v: &Vec<i32>) -> (r: Vec<i32>)
    ensures
        r@ == v@,
{
    let mut r: Vec<i32> = Vec::new();
    let mut i: usize = 0;
    while i < v.len()
        invariant
            i <= v.len(),
            r@ =~= v@.take(i as int),
        decreases v.len() - i,
    {
        r.push(v[i]);
        i = i + 1;
    }
    assert(v@.take(v.len() as int) =~= v@);
    r
}

impl BseElectronShell {
    /// A copy of this shell.
    pub fn copy(&self) -> (r: Self)
        ensures
            r@ == self@,
    {
        BseElectronShell {
            function_type: self.function_type.clone(),
            region: self.region.clone(),
            angular_momentum: copy_ints(&self.angular_momentum),
            exponents: copy_strings(&self.exponents),
            coefficients: copy_matrix(&self.coefficients),
        }
    }
}

impl BseEcpPotential {
    /// A copy of this potential.
    pub fn copy(&self) -> (r: Self)
        ensures
            r@ == self@,
    {
        BseEcpPotential {
            angular_momentum: copy_ints(&self.angular_momentum),
            coefficients: copy_matrix(&self.coefficients),
            ecp_type: self.ecp_type.clone(),
            r_exponents: copy_ints(&self.r_exponents),
            gaussian_exponents: copy_strings(&self.gaussian_exponents),
        }
    }
}

impl BseBasisReference {
    /// A copy of this reference.
    pub fn copy(&self) -> (r: Self)
        ensures
            r@ == self@,
    {
        BseBasisReference {
            reference_description: self.reference_description.clone(),
            reference_keys: copy_strings(&self.reference_keys),
        }
    }
}

/// A copy of a list of shells.
pub fn copy_shells(v: &Vec<BseElectronShell>) -> (r: Vec<BseElectronShell>)
    ensures
        shells_view(r@) == shells_view(v@),
{
    let mut r: Vec<BseElectronShell> = Vec::new();
    let mut i: usize = 0;
    while i < v.len()
        invariant
            i <= v.len(),
            r.len() == i,
            forall|k: int| 0 <= k < i ==> #[trigger] r@[k]@ == v@[k]@,
        decreases v.len() - i,
    {
        r.push(v[i].copy());
        i = i + 1;
    }
    assert(shells_view(r@) =~= shells_view(v@));
    r
}

/// A copy of a list of potentials.
pub fn copy_potentials(v: &Vec<BseEcpPotential>) -> (r: Vec<BseEcpPotential>)
    ensures
        pots_view(r@) == pots_view(v@),
{
    let mut r: Vec<BseEcpPotential> = Vec::new();
    let mut i: usize = 0;
    while i < v.len()
        invariant
            i <= v.len(),
            r.len() == i,
            forall|k: int| 0 <= k < i ==> #[trigger] r@[k]@ == v@[k]@,
        decreases v.len() - i,
    {
        r.push(v[i].copy());
        i = i + 1;
    }
    assert(pots_view(r@) =~= pots_view(v@));
    r
}

/// A copy of a list of references.
pub fn copy_references(v: &Vec<BseBasisReference>) -> (r: Vec<BseBasisReference>)
    ensures
        refs_view(r@) == refs_view(v@),
{
    let mut r: Vec<BseBasisReference> = Vec::new();
    let mut i: usize = 0;
    while i < v.len()
        invariant
            i <= v.len(),
            r.len() == i,
            forall|k: int| 0 <= k < i ==> #[trigger] r@[k]@ == v@[k]@,
        decreases v.len() - i,
    {
        r.push(v[i].copy());
        i = i + 1;
    }
    assert(refs_view(r@) =~= refs_view(v@));
    r
}

impl BseBasisElement {
    /// A copy of this element's data.
    pub fn copy(&self) -> (r: Self)
        ensures
            r@ == self@,
    {
        let shells = match &self.electron_shells {
            Some(s) => Some(copy_shells(s)),
            None => None,
        };
        let pots = match &self.ecp_potentials {
            Some(p) => Some(copy_potentials(p)),
            None => None,
        };
        BseBasisElement {
            references: copy_references(&self.references),
            electron_shells: shells,
            ecp_potentials: pots,
            ecp_electrons: self.ecp_electrons,
        }
    }

    /// Element data with nothing in it.
    pub fn empty() -> (r: Self)
        ensures
            r@.references.len() == 0,
            r@.shells is None,
            r@.potentials is None,
            r@.ecp_electrons is None,
    {
        BseBasisElement {
            references: Vec::new(),
            electron_shells: None,
            ecp_potentials: None,
            ecp_electrons: None,
        }
    }
}

/* #endregion */

impl BseBasis {
    /// A complete basis set from what a reader gives: its schema, elements,
    /// function types, name and description; every other field empty.
    pub fn from_minimal(m: BseBasisMinimal) -> (r: Self)
        ensures
            r.molssi_bse_schema == m.molssi_bse_schema,
            r.elements == m.elements,
            r.function_types == m.function_types,
            r.name == m.name,
            r.description == m.description,
            r.revision_description@.len() == 0,
            r.revision_date@.len() == 0,
            r.version@.len() == 0,
            r.names@.len() == 0,
            r.tags@.len() == 0,
            r.family@.len() == 0,
            r.role@.len() == 0,
            r.auxiliaries@.len() == 0,
    {
        BseBasis {
            molssi_bse_schema: m.molssi_bse_schema,
            revision_description: String::new(),
            revision_date: String::new(),
            elements: m.elements,
            version: String::new(),
            function_types: m.function_types,
            names: Vec::new(),
            tags: Vec::new(),
            family: String::new(),
            description: m.description,
            role: String::new(),
            auxiliaries: Vec::new(),
            name: m.name,
        }
    }
}

/* #region equality */

/// Whether two lists of strings are equal.
pub fn strings_eq(a: &Vec<String>, b: &Vec<String>) -> (r: bool)
    ensures
        r == (a.deep_view() == b.deep_view()),
{
    if a.len() != b.len() {
        assert(a.deep_view().len() != b.deep_view().len());
        return false;
    }
    let mut i: usize = 0;
    while i < a.len()
        invariant
            i <= a.len(),
            a.len() == b.len(),
            forall|k: int| 0 <= k < i ==> a.deep_view()[k] == b.deep_view()[k],
        decreases a.len() - i,
    {
        if a[i] != b[i] {
            assert(a.deep_view()[i as int] != b.deep_view()[i as int]);
            return false;
        }
        i = i + 1;
    }
    assert(a.deep_view() =~= b.deep_view());
    true
}

/// Whether two matrices of strings are equal.
pub fn matrix_eq(a: &Vec<Vec<String>>, b: &Vec<Vec<String>>) -> (r: bool)
    ensures
        r == (a.deep_view() == b.deep_view()),
{
    if a.len() != b.len() {
        assert(a.deep_view().len() != b.deep_view().len());
        return false;
    }
    let mut i: usize = 0;
    while i < a.len()
        invariant
            i <= a.len(),
            a.len() == b.len(),
            forall|k: int| 0 <= k < i ==> a.deep_view()[k] == b.deep_view()[k],
        decreases a.len() - i,
    {
        if !strings_eq(&a[i], &b[i]) {
            assert(a.deep_view()[i as int] != b.deep_view()[i as int]);
            return false;
        }
        i = i + 1;
    }
    assert(a.deep_view() =~= b.deep_view());
    true
}

/// Whether two lists of integers are equal.
pub fn ints_eq(a: &Vec<i32>, b: &Vec<i32>) -> (r: bool)
    ensures
        r == (a@ == b@),
{
    if a.len() != b.len() {
        return false;
    }
    let mut i: usize = 0;
    while i < a.len()
        invariant
            i <= a.len(),
            a.len() == b.len(),
            forall|k: int| 0 <= k < i ==> a@[k] == b@[k],
        decreases a.len() - i,
    {
        if a[i] != b[i] {
            return false;
        }
        i = i + 1;
    }
    assert(a@ =~= b@);
    true
}

impl BseElectronShell {
    /// Whether two shells hold the same data.
    pub fn same(&self, other: &Self) -> (r: bool)
        ensures
            r == (self@ == other@),
    {
        self.function_type == other.function_type && self.region == other.region && ints_eq(
            &self.angular_momentum,
            &other.angular_momentum,
        ) && strings_eq(&self.exponents, &other.exponents) && matrix_eq(
            &self.coefficients,
            &other.coefficients,
        )
    }
}

/* #endregion */

} // verus!
