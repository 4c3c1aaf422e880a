//! Tests of basis set manipulation, sorting and the small helpers, with the
//! properties that the library proves checked on concrete values.

use bse::fields::{BseBasis, BseBasisElement, BseEcpPotential, BseElectronShell, BseMolssiBseSchema};
use bse::manip::{prune_basis, uncontract_general, uncontract_segmented, uncontract_spdf};
use bse::misc::{compact_elements, contraction_string, find_range, max_am, transform_basis_name, transpose_matrix};
use bse::printing::write_matrix;
use bse::sort::sort_potentials;

fn strs(v: &[&str]) -> Vec<String> {
    v.iter().map(|s| s.to_string()).collect()
}

fn shell(am: Vec<i32>, exps: &[&str], coefs: Vec<Vec<String>>) -> BseElectronShell {
    BseElectronShell {
        function_type: "gto".to_string(),
        region: "".to_string(),
        angular_momentum: am,
        exponents: strs(exps),
        coefficients: coefs,
    }
}

fn basis_of(shells: Vec<BseElectronShell>) -> BseBasis {
    BseBasis {
        molssi_bse_schema: BseMolssiBseSchema { schema_type: "complete".to_string(), schema_version: "0.1".to_string() },
        revision_description: String::new(),
        revision_date: String::new(),
        elements: vec![(
            6,
            BseBasisElement { references: vec![], electron_shells: Some(shells), ecp_potentials: None, ecp_electrons: None },
        )],
        version: "1".to_string(),
        function_types: strs(&["gto"]),
        names: vec!["x".to_string()],
        tags: vec![],
        family: String::new(),
        description: String::new(),
        role: "orbital".to_string(),
        auxiliaries: vec![],
        name: "x".to_string(),
    }
}

fn shells_of(b: &BseBasis) -> &Vec<BseElectronShell> {
    b.elements[0].1.electron_shells.as_ref().unwrap()
}

fn pot(am: i32) -> BseEcpPotential {
    BseEcpPotential {
        angular_momentum: vec![am],
        coefficients: vec![strs(&["1.0"])],
        ecp_type: "scalar_ecp".to_string(),
        r_exponents: vec![am],
        gaussian_exponents: strs(&["1.0"]),
    }
}

#[test]
fn test_sort_potentials_order() {
    let mut pots = vec![pot(1), pot(3), pot(0), pot(2)];
    sort_potentials(&mut pots);
    let ams: Vec<i32> = pots.iter().map(|p| p.angular_momentum[0]).collect();
    assert_eq!(ams, vec![3, 0, 1, 2]);
}

#[test]
fn test_uncontract_general_twice() {
    let general = shell(
        vec![1],
        &["5.0", "1.0"],
        vec![strs(&["0.6", "0.4"]), strs(&["0.0", "1.0"])],
    );
    let sp = shell(vec![0, 1], &["2.0"], vec![strs(&["1.0"]), strs(&["1.0"])]);
    let mut b = basis_of(vec![general, sp]);
    uncontract_general(&mut b);
    let once: Vec<(Vec<i32>, usize)> = shells_of(&b).iter().map(|s| (s.angular_momentum.clone(), s.coefficients.len())).collect();
    assert_eq!(once, vec![(vec![1], 1), (vec![1], 1), (vec![0, 1], 2)]);
    assert_eq!(shells_of(&b)[1].coefficients, vec![strs(&["0.0", "1.0"])]);
    uncontract_general(&mut b);
    let twice: Vec<(Vec<i32>, usize)> = shells_of(&b).iter().map(|s| (s.angular_momentum.clone(), s.coefficients.len())).collect();
    assert_eq!(once, twice);
}

#[test]
fn test_uncontract_segmented_single_primitives() {
    let sp = shell(vec![0, 1], &["3.0", "1.0"], vec![strs(&["0.5", "0.5"]), strs(&["0.3", "0.7"])]);
    let mut b = basis_of(vec![sp]);
    uncontract_segmented(&mut b);
    let shells = shells_of(&b);
    assert_eq!(shells.len(), 2);
    for (s, e) in shells.iter().zip(["3.0", "1.0"]) {
        assert_eq!(s.exponents, strs(&[e]));
        assert_eq!(s.coefficients, vec![strs(&["1.00000000E+00"]), strs(&["1.00000000E+00"])]);
        assert_eq!(s.angular_momentum, vec![0, 1]);
    }
}

#[test]
fn test_uncontract_spdf_splits_above_max() {
    let spd = shell(vec![0, 1, 2], &["2.0"], vec![strs(&["1.0"]), strs(&["0.5"]), strs(&["0.25"])]);
    let mut b = basis_of(vec![spd]);
    uncontract_spdf(&mut b, 1);
    let ams: Vec<Vec<i32>> = shells_of(&b).iter().map(|s| s.angular_momentum.clone()).collect();
    assert_eq!(ams, vec![vec![0, 1], vec![2]]);
    assert_eq!(shells_of(&b)[1].coefficients, vec![strs(&["0.25"])]);
}

#[test]
fn test_prune_basis_removes_duplicates() {
    let a = shell(vec![0], &["1.0", "2.0", "3.0"], vec![strs(&["0.5", "0.5", "0.0"])]);
    let b2 = shell(vec![0], &["1.0", "2.0", "3.0"], vec![strs(&["0.5", "0.5", "0.0"])]);
    let mut b = basis_of(vec![a, b2]);
    prune_basis(&mut b);
    let shells = shells_of(&b);
    assert_eq!(shells.len(), 1);
    assert_eq!(shells[0].exponents, strs(&["1.0", "2.0"]));
    assert_eq!(shells[0].coefficients, vec![strs(&["0.5", "0.5"])]);
}

#[test]
fn test_prune_basis_twice() {
    let a = shell(vec![0], &["1.0", "1.00", "3.0", "2.0"], vec![strs(&["0.0", "0.5", "0.0", "0.25"])]);
    let mut b = basis_of(vec![a]);
    prune_basis(&mut b);
    let once_exps = shells_of(&b)[0].exponents.clone();
    let once_coefs = shells_of(&b)[0].coefficients.clone();
    assert_eq!(once_exps, strs(&["1.0", "2.0"]));
    assert_eq!(once_coefs, vec![strs(&["0.5", "0.25"])]);
    prune_basis(&mut b);
    assert_eq!(shells_of(&b).len(), 1);
    assert_eq!(shells_of(&b)[0].exponents, once_exps);
    assert_eq!(shells_of(&b)[0].coefficients, once_coefs);
}

#[test]
fn test_transpose_twice() {
    let m = vec![strs(&["a", "b", "c"]), strs(&["d", "e", "f"])];
    let t = transpose_matrix(&m);
    assert_eq!(t, vec![strs(&["a", "d"]), strs(&["b", "e"]), strs(&["c", "f"])]);
    assert_eq!(transpose_matrix(&t), m);
}

#[test]
fn test_max_am_and_contraction_string() {
    let shells = vec![
        shell(vec![0], &["3.0", "2.0", "1.0"], vec![strs(&["0.2", "0.3", "0.5"])]),
        shell(vec![0, 1], &["0.5"], vec![strs(&["1.0"]), strs(&["1.0"])]),
        shell(vec![2], &["0.8", "0.2"], vec![strs(&["0.5", "0.5"]), strs(&["0.0", "1.0"])]),
    ];
    assert_eq!(max_am(&shells), 2);
    assert_eq!(max_am(&[]), 0);
    assert_eq!(contraction_string(&shells, false, false), "(4s,1p,2d) -> [2s,1p,2d]");
    assert_eq!(contraction_string(&shells, false, true), "4s1p2d.2s1p2d");
    let p_only = vec![shell(vec![1], &["1.0"], vec![strs(&["1.0"])])];
    assert_eq!(contraction_string(&p_only, true, false), "(,1p) -> [,1p]");
}

#[test]
fn test_find_range_bounds() {
    assert_eq!(find_range(&strs(&["0.0", "1.5", "0.0", "2.0", "0.00"])), (1, 3));
    assert_eq!(find_range(&strs(&["7.0"])), (0, 0));
}

#[test]
fn test_write_matrix_alignment() {
    let mat = vec![strs(&["1.5e-3", "12.25"]), strs(&["-0.5", "3"])];
    let out = write_matrix(&mat, &[4, 12], true);
    assert_eq!(out, "  1.5D-3 -0.5\n 12.25     3");
    let plain = write_matrix(&mat, &[4, 12], false);
    assert_eq!(plain, "  1.5e-3 -0.5\n 12.25     3");
}

#[test]
fn test_compact_elements_ranges() {
    assert_eq!(compact_elements(&[1, 2, 3, 6, 7, 8, 10]), "h-li,c-o,ne");
    assert_eq!(compact_elements(&[]), "");
}

#[test]
fn test_transform_basis_name_escapes() {
    assert_eq!(transform_basis_name("6-31G*"), "6-31g_st_");
    assert_eq!(transform_basis_name("def2/J"), "def2_sl_j");
}
