//! Converting a basis set to the QCSchema basis document: a center entry
//! per element, named by its symbol and the basis name, whose shells give
//! their harmonic type in place of the function type and whose potentials
//! drop the `_ecp` of their type. Serializing the document is left to the
//! caller.
use crate::dir_writer::all_known;
use crate::fields::{
    BseBasis, BseBasisElement, BseEcpPotential, BseElectronShell, ElementV, PotentialV, ShellV, copy_ints, copy_matrix,
    copy_strings, elements_view,
};
use crate::lut::{element_sym_from_Z, sym_spec};
use crate::text::{chars_eq, chars_of, push_str, replace_all, replace_text};
use vstd::prelude::*;

verus! {

/// A shell of the document.
#[derive(Debug)]
pub struct QcShell {
    pub harmonic_type: String,
    pub angular_momentum: Vec<i32>,
    pub exponents: Vec<String>,
    pub coefficients: Vec<Vec<String>>,
}

/// A potential of the document.
#[derive(Debug)]
pub struct QcPotential {
    pub angular_momentum: Vec<i32>,
    pub coefficients: Vec<Vec<String>>,
    pub ecp_type: String,
    pub r_exponents: Vec<i32>,
    pub gaussian_exponents: Vec<String>,
}

/// The data of one center (element) of the document.
#[derive(Debug)]
pub struct QcCenter {
    pub electron_shells: Option<Vec<QcShell>>,
    pub ecp_potentials: Option<Vec<QcPotential>>,
    pub ecp_electrons: Option<i32>,
}

/// A QCSchema basis document.
#[derive(Debug)]
pub struct QcSchemaBasis {
    pub schema_name: String,
    pub schema_version: i32,
    pub name: String,
    pub description: String,
    pub center_data: Vec<(String, QcCenter)>,
}

/// The harmonic type of a shell of a function type: spherical for
/// `gto_spherical`, cartesian for any other.
pub open spec fn harmonic_of(ft: Seq<char>) -> Seq<char> {
    if ft == "gto_spherical"@ {
        "spherical"@
    } else {
        "cartesian"@
    }
}

/// `q` is shell `s` in the document.
pub open spec fn qc_shell_of(q: QcShell, s: ShellV) -> bool {
    &&& q.harmonic_type@ == harmonic_of(s.function_type)
    &&& q.angular_momentum@ == s.am
    &&& q.exponents.deep_view() == s.exponents
    &&& q.coefficients.deep_view() == s.coefficients
}

/// `q` is potential `p` in the document; with `strip`, its type loses
/// `_ecp`.
pub open spec fn qc_potential_of(q: QcPotential, p: PotentialV, strip: bool) -> bool {
    &&& q.angular_momentum@ == p.am
    &&& q.coefficients.deep_view() == p.coefficients
    &&& q.ecp_type@ == (if strip {
        replace_all(p.ecp_type, "_ecp"@, Seq::empty())
    } else {
        p.ecp_type
    })
    &&& q.r_exponents@ == p.r_exponents
    &&& q.gaussian_exponents.deep_view() == p.gaussian_exponents
}

/// `c` is element `e` in the document: its shells and potentials (the
/// potential types stripped when it has core electrons) and its core
/// electrons, without its references.
pub open spec fn qc_center_of(c: QcCenter, e: ElementV) -> bool {
    &&& match (c.electron_shells, e.shells) {
        (None, None) => true,
        (Some(q), Some(s)) => q@.len() == s.len() && forall|k: int| 0 <= k < s.len() ==> qc_shell_of(#[trigger] q@[k], s[k]),
        _ => false,
    }
    &&& match (c.ecp_potentials, e.potentials) {
        (None, None) => true,
        (Some(q), Some(p)) => q@.len() == p.len() && forall|k: int|
            0 <= k < p.len() ==> qc_potential_of(#[trigger] q@[k], p[k], e.ecp_electrons is Some),
        _ => false,
    }
    &&& c.ecp_electrons == e.ecp_electrons
}

fn qc_shell(s: &BseElectronShell) -> (r: QcShell)
    ensures
        qc_shell_of(r, s@),
{
    let sph = chars_eq(chars_of(s.function_type.as_str()).as_slice(), chars_of("gto_spherical").as_slice());
    let h = if sph {
        "spherical"
    } else {
        "cartesian"
    };
    QcShell {
        harmonic_type: h.to_owned(),
        angular_momentum: copy_ints(&s.angular_momentum),
        exponents: copy_strings(&s.exponents),
        coefficients: copy_matrix(&s.coefficients),
    }
}

fn qc_potential(p: &BseEcpPotential, strip: bool) -> (r: QcPotential)
    ensures
        qc_potential_of(r, p@, strip),
{
    let t = if strip {
        proof {
            reveal_strlit("_ecp");
            reveal_strlit("");
        }
        assert(""@ =~= Seq::<char>::empty());
        replace_text(p.ecp_type.as_str(), "_ecp", "")
    } else {
        p.ecp_type.clone()
    };
    QcPotential {
        angular_momentum: copy_ints(&p.angular_momentum),
        coefficients: copy_matrix(&p.coefficients),
        ecp_type: t,
        r_exponents: copy_ints(&p.r_exponents),
        gaussian_exponents: copy_strings(&p.gaussian_exponents),
    }
}

fn qc_center(e: &BseBasisElement) -> (r: QcCenter)
    ensures
        qc_center_of(r, e@),
{
    let shells = match &e.electron_shells {
        None => None,
        Some(v) => {
            let mut out: Vec<QcShell> = Vec::new();
            let mut k: usize = 0;
            while k < v.len()
                invariant
                    k <= v@.len(),
                    out@.len() == k,
                    forall|q: int| 0 <= q < k ==> qc_shell_of(#[trigger] out@[q], v@[q]@),
                decreases v.len() - k,
            {
                out.push(qc_shell(&v[k]));
                k = k + 1;
            }
            Some(out)
        },
    };
    let strip = e.ecp_electrons.is_some();
    let pots = match &e.ecp_potentials {
        None => None,
        Some(v) => {
            let mut out: Vec<QcPotential> = Vec::new();
            let mut k: usize = 0;
            while k < v.len()
                invariant
                    k <= v@.len(),
                    out@.len() == k,
                    forall|q: int| 0 <= q < k ==> qc_potential_of(#[trigger] out@[q], v@[q]@, strip),
                decreases v.len() - k,
            {
                out.push(qc_potential(&v[k], strip));
                k = k + 1;
            }
            Some(out)
        },
    };
    QcCenter { electron_shells: shells, ecp_potentials: pots, ecp_electrons: e.ecp_electrons }
}

/// The QCSchema document of a basis set (already prepared: fused shells
/// beyond `sp` split, pruned and sorted): its name and description, and a
/// center per element, in order, named by the element's symbol, `_` and
/// the basis name (see [`qc_center_of`]).
pub fn qcschema_of(basis: &BseBasis) -> (r: QcSchemaBasis)
    requires
        all_known(elements_view(basis.elements@)),
    ensures
        r.schema_name@ == "qcschema_basis"@,
        r.schema_version == 1,
        r.name@ == basis.name@,
        r.description@ == basis.description@,
        r.center_data@.len() == basis.elements@.len(),
        forall|k: int| 0 <= k < basis.elements@.len() ==> {
            let (z, e) = #[trigger] elements_view(basis.elements@)[k];
            &&& r.center_data@[k].0@ == sym_spec(z as int) + "_"@ + basis.name@
            &&& qc_center_of(r.center_data@[k].1, e)
        },
{
    let ghost ev = elements_view(basis.elements@);
    let mut centers: Vec<(String, QcCenter)> = Vec::new();
    let mut k: usize = 0;
    while k < basis.elements.len()
        invariant
            k <= basis.elements@.len(),
            ev == elements_view(basis.elements@),
            all_known(ev),
            centers@.len() == k,
            forall|q: int| 0 <= q < k ==> {
                let (z, e) = #[trigger] ev[q];
                &&& centers@[q].0@ == sym_spec(z as int) + "_"@ + basis.name@
                &&& qc_center_of(centers@[q].1, e)
            },
        decreases basis.elements.len() - k,
    {
        let z = basis.elements[k].0;
        assert(ev[k as int] == (z, basis.elements@[k as int].1@));
        assert(1 <= ev[k as int].0 <= 118);
        let sym = match element_sym_from_Z(z) {
            Some(s) => s,
            None => "",
        };
        let mut key = sym.to_owned();
        push_str(&mut key, "_");
        push_str(&mut key, basis.name.as_str());
        centers.push((key, qc_center(&basis.elements[k].1)));
        k = k + 1;
    }
    QcSchemaBasis {
        schema_name: "qcschema_basis".to_owned(),
        schema_version: 1,
        name: basis.name.clone(),
        description: basis.description.clone(),
        center_data: centers,
    }
}

} // verus!
