//! Tests of the output formats on small basis sets.

use bse::fields::{BseBasis, BseBasisElement, BseEcpPotential, BseElectronShell, BseMolssiBseSchema};
use bse::writers::bsedebug::write_bsedebug;
use bse::writers::dalton::write_dalton_sorted;
use bse::writers::demon2k::write_demon2k_sorted;
use bse::writers::g94::{prepare_segmented, write_g94_common};
use bse::writers::gamess_uk::write_gamess_uk_sorted;
use bse::writers::libmol::{prepare_general, write_libmol_sorted};
use bse::writers::molpro::write_molpro_sorted;
use bse::writers::ricdwrap::write_ricdwrap_sorted;
use bse::writers::turbomole::write_turbomole_sorted;
use bse::writers::write::{check_writer, decorate_formatted};

fn strs(v: &[&str]) -> Vec<String> {
    v.iter().map(|s| s.to_string()).collect()
}

fn sto3g_h_shell() -> BseElectronShell {
    BseElectronShell {
        function_type: "gto".to_string(),
        region: "".to_string(),
        angular_momentum: vec![0],
        exponents: strs(&["3.42525091", "0.62391373", "0.16885540"]),
        coefficients: vec![strs(&["0.15432897", "0.53532814", "0.44463454"])],
    }
}

fn element(shells: Option<Vec<BseElectronShell>>, pots: Option<Vec<BseEcpPotential>>, ncore: Option<i32>) -> BseBasisElement {
    BseBasisElement { references: vec![], electron_shells: shells, ecp_potentials: pots, ecp_electrons: ncore }
}

fn basis(elements: Vec<(i32, BseBasisElement)>, name: &str, types: &[&str]) -> BseBasis {
    BseBasis {
        molssi_bse_schema: BseMolssiBseSchema {
            schema_type: "complete".to_string(),
            schema_version: "0.1".to_string(),
        },
        revision_description: String::new(),
        revision_date: String::new(),
        elements,
        version: "1".to_string(),
        function_types: strs(types),
        names: vec![name.to_string()],
        tags: vec![],
        family: "sto".to_string(),
        description: String::new(),
        role: "orbital".to_string(),
        auxiliaries: vec![],
        name: name.to_string(),
    }
}

fn h_basis() -> BseBasis {
    basis(vec![(1, element(Some(vec![sto3g_h_shell()]), None, None))], "sto-3g", &["gto"])
}

fn pot(am: i32, g: &str, c: &str) -> BseEcpPotential {
    BseEcpPotential {
        angular_momentum: vec![am],
        coefficients: vec![strs(&[c])],
        ecp_type: "scalar_ecp".to_string(),
        r_exponents: vec![2],
        gaussian_exponents: strs(&[g]),
    }
}

const H_MATRIX: &str = "      3.42525091             0.15432897\n      0.62391373             0.53532814\n      0.16885540             0.44463454";

#[test]
fn test_g94_with_ecp() {
    let pots = vec![pot(2, "1.0", "-1.0"), pot(0, "2.0", "3.0")];
    let b = basis(
        vec![(1, element(Some(vec![sto3g_h_shell()]), None, None)), (49, element(None, Some(pots), Some(28)))],
        "test",
        &["gto", "scalar_ecp"],
    );
    let out = write_g94_common(&b, false, false, false);
    let expected = format!(
        "H     0\nS    3   1.00\n{H_MATRIX}\n****\n\nIN     0\nIN-ECP     2     28\nd potential\n  1\n2      1.0{}-1.0\ns-d potential\n  1\n2      2.0{}3.0\n",
        " ".repeat(19),
        " ".repeat(20)
    );
    assert_eq!(out, expected);
}

#[test]
fn test_g94_system_library_and_cartesian_mark() {
    let mut sh = sto3g_h_shell();
    sh.function_type = "gto_cartesian".to_string();
    let b = basis(vec![(1, element(Some(vec![sh]), None, None))], "x", &["gto_cartesian"]);
    let lib = write_g94_common(&b, false, false, true);
    assert_eq!(lib, format!("-H     0\nS    3   1.00\n{H_MATRIX}\n****\n"));
    let xtron = write_g94_common(&b, true, false, false);
    assert_eq!(xtron, format!("H     0\nS    3   1.00 c\n{H_MATRIX}\n****\n"));
}

#[test]
fn test_g94_psi4_high_am() {
    let mut sh = sto3g_h_shell();
    sh.angular_momentum = vec![7];
    let b = basis(vec![(1, element(Some(vec![sh]), None, None))], "x", &["gto"]);
    let out = write_g94_common(&b, false, true, false);
    assert_eq!(out, format!("H     0\nL=7  3   1.00\n{H_MATRIX}\n****\n"));
    let plain = write_g94_common(&b, false, false, false);
    assert_eq!(plain, format!("H     0\nJ    3   1.00\n{H_MATRIX}\n****\n"));
}

#[test]
fn test_write_bsedebug_small() {
    let out = write_bsedebug(&h_basis());
    assert_eq!(
        out,
        format!("\nElement: H : (3s) -> [1s]\nShell: Index 0  Region: (none) AM: S\nFunction: gto\n{H_MATRIX}\n\n")
    );
}

#[test]
fn test_write_libmol_small() {
    let out = write_libmol_sorted(&h_basis());
    assert_eq!(
        out,
        "spherical\nbasis={\nH s sto-3g : 3 1 1.3\nhydrogen (3s) -> [1s] converted by Basis Set Exchange\n3.42525091 0.62391373 0.16885540 0.15432897 0.53532814\n0.44463454\n"
    );
}

#[test]
fn test_write_libmol_ecp_block() {
    let pots = vec![pot(2, "1.0", "-1.0"), pot(0, "2.0", "3.0")];
    let b = basis(vec![(49, element(None, Some(pots), Some(28)))], "test", &["scalar_ecp"]);
    let out = write_libmol_sorted(&b);
    assert_eq!(
        out,
        "spherical\n\n\n! Effective core Potentials\nin ECP : 28 2 0 8\nECP for test converted by Basis Set Exchange\n1 2 1.0 -1.0\n1 2 2.0 3.0\n"
    );
}

#[test]
fn test_write_turbomole_small() {
    let out = write_turbomole_sorted(&h_basis());
    assert_eq!(out, format!("$basis\n*\nh sto-3g\n*\n    3   s\n{H_MATRIX}\n*\n$end\n"));
    let mut fit = h_basis();
    fit.role = "jkfit".to_string();
    assert!(write_turbomole_sorted(&fit).starts_with("$jkbas\n*\n"));
}

#[test]
fn test_write_dalton_small() {
    let out = write_dalton_sorted(&h_basis());
    assert_eq!(
        out,
        format!("! Basis = sto-3g\n\na 1\n! HYDROGEN       (3s) -> [1s]\n! s functions\nH    3    1\n{H_MATRIX}\n")
    );
}

#[test]
fn test_write_molpro_small() {
    let out = write_molpro_sorted(&h_basis());
    assert_eq!(
        out,
        format!(
            "spherical\nbasis={{\n!\n! hydrogen{} (3s) -> [1s]\ns, H , 3.42525091, 0.62391373, 0.16885540\nc, 1.3, 0.15432897, 0.53532814, 0.44463454\n}}\n",
            " ".repeat(12)
        )
    );
}

#[test]
fn test_write_molpro_nonzero_range() {
    let mut sh = sto3g_h_shell();
    sh.coefficients = vec![strs(&["0.0", "0.5", "0.0"])];
    let b = basis(vec![(1, element(Some(vec![sh]), None, None))], "x", &["gto_cartesian"]);
    let out = write_molpro_sorted(&b);
    assert!(out.starts_with("cartesian\n"));
    assert!(out.contains("\nc, 2.2, 0.5\n"));
}

#[test]
fn test_write_gamess_uk_small() {
    let out = write_gamess_uk_sorted(&h_basis());
    let m = "      0.15432897             3.42525091\n      0.53532814             0.62391373\n      0.44463454             0.16885540";
    assert_eq!(out, format!("\n# HYDROGEN\nS   H\n{m}\n"));
}

#[test]
fn test_write_demon2k_small() {
    let out = write_demon2k_sorted(&h_basis());
    assert_eq!(
        out,
        format!(
            "# This basis set uses cartesian components\n\nO-HYDROGEN H (sto-3g)\n# (3s) -> [1s]\n    1\n    1    0    3\n{H_MATRIX}\n"
        )
    );
}

#[test]
fn test_write_ricdwrap_small() {
    let out = write_ricdwrap_sorted(&h_basis());
    let exps = format!(
        "{0}3.42525091\n{0}0.62391373\n{0}0.16885540",
        " ".repeat(15)
    );
    let coefs = "      0.15432897\n      0.53532814\n      0.44463454";
    assert_eq!(
        out,
        format!(
            "\n&GATEWAY\n  ricd\n  accd\n  cdthreshold=1.0d-4\nBasis set\n* HYDROGEN  (3s) -> [1s]\n H    / inline\n      1.00   0\n* S-type functions\n     3    1\n{exps}\n{coefs}\nH 0.0 0.0 0.0\nEnd of basis set\n\n"
        )
    );
}

#[test]
fn test_prepare_segmented_splits_general() {
    let mut sh = sto3g_h_shell();
    sh.coefficients.push(strs(&["0.0", "0.0", "1.0"]));
    let mut b = basis(vec![(1, element(Some(vec![sh]), None, None))], "x", &["gto"]);
    prepare_segmented(&mut b, 1);
    let shells = b.elements[0].1.electron_shells.as_ref().unwrap();
    assert_eq!(shells.len(), 2);
    assert_eq!(shells[0].coefficients, vec![strs(&["0.15432897", "0.53532814", "0.44463454"])]);
    assert_eq!(shells[1].exponents, strs(&["0.16885540"]));
    assert_eq!(shells[1].coefficients, vec![strs(&["1.0"])]);
}

#[test]
fn test_prepare_general_merges() {
    let a = sto3g_h_shell();
    let mut c = sto3g_h_shell();
    c.exponents = strs(&["0.1"]);
    c.coefficients = vec![strs(&["1.0"])];
    let mut b = basis(vec![(1, element(Some(vec![a, c]), None, None))], "x", &["gto"]);
    prepare_general(&mut b);
    let shells = b.elements[0].1.electron_shells.as_ref().unwrap();
    assert_eq!(shells.len(), 1);
    assert_eq!(shells[0].exponents.len(), 4);
    assert_eq!(shells[0].coefficients.len(), 2);
}

#[test]
fn test_check_writer_and_decorate() {
    let types = strs(&["gto", "scalar_ecp"]);
    assert!(check_writer("NWChem", &types).is_ok());
    assert!(check_writer("no-such-format", &types).is_err());
    let e = check_writer("gaussian94", &types).unwrap();
    assert_eq!(e.name, "gaussian94");
    let out = decorate_formatted("gaussian94", e.comment, &types, Some("line one\nline two"), "BODY".to_string());
    assert_eq!(out, "!line one\n!line two\n\nBODY");
    let lib = decorate_formatted("gaussian94lib", "!", &types, Some("h"), "BODY".to_string());
    assert_eq!(lib, "!hBODY");
    let psi4 = decorate_formatted("psi4", "!", &strs(&["gto_cartesian"]), None, "BODY".to_string());
    assert_eq!(psi4, "cartesian\n\nBODY");
}
