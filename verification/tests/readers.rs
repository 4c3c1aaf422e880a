//! Tests of the input formats on small texts.

use bse::error::BseError;
use bse::readers::crystal::{crystal_shell, read_crystal};
use bse::readers::demon2k::{d2k_shell_exec, read_demon2k};
use bse::readers::dalton::{dalton_shell_exec, line_begins_element, read_dalton};
use bse::readers::gbasis::{gbasis_shell, read_gbasis};
use bse::readers::ricdlib::{chunk_rows, read_ricdlib};
use bse::readers::helpers::{is_floating, parses_as_f64, trimmed_lines};
use bse::readers::libmol::{libmol_shell_entry, read_libmol};
use bse::readers::turbomole::{read_turbomole, tm_potential_exec, tm_shell};
use bse::readers::nwchem::{nw_shell, read_nwchem};
use bse::readers::g94::{g94_potential_exec, g94_shell, read_g94};
use bse::readers::veloxchem::{read_veloxchem, vx_shell};

fn strs(v: &[&str]) -> Vec<String> {
    v.iter().map(|s| s.to_string()).collect()
}

#[test]
fn test_read_gbasis_sample() {
    let sample = r"H:sto-3g:(3s) -> [1s]
0
S    3    1
  0.4231582280E+01  0.1000000000E+01
  0.2303687730E+01  0.5000000000E+00
  0.1612775880E+01  0.1666666667E+00";
    let basis = read_gbasis(sample).unwrap();
    assert_eq!(basis.elements.len(), 1);
    let (z, el) = &basis.elements[0];
    assert_eq!(*z, 1);
    let shells = el.electron_shells.as_ref().unwrap();
    assert_eq!(shells.len(), 1);
    assert_eq!(shells[0].angular_momentum, vec![0]);
    assert_eq!(shells[0].function_type, "gto");
    assert_eq!(shells[0].exponents, strs(&["0.4231582280E+01", "0.2303687730E+01", "0.1612775880E+01"]));
    assert_eq!(shells[0].coefficients, vec![strs(&["0.1000000000E+01", "0.5000000000E+00", "0.1666666667E+00"])]);
    assert_eq!(basis.name, "sto-3g");
    assert_eq!(basis.function_types, strs(&["gto"]));
    assert!(el.ecp_potentials.is_none());
}

#[test]
fn gbasis_two_elements_in_order() {
    let text = "! a comment
O:CC-pVDZ:(1s1d) -> [1s1d]
2
D 1 1
 1.5 1.0
S 1 1
 20.0 1.0
H:cc-pvdz:(1s) -> [1s]
0
s 1 2
 3.0 0.5 0.25
";
    let basis = read_gbasis(text).unwrap();
    let keys: Vec<i32> = basis.elements.iter().map(|e| e.0).collect();
    assert_eq!(keys, vec![1, 8]);
    let o = basis.elements[1].1.electron_shells.as_ref().unwrap();
    assert_eq!(o.len(), 2);
    assert_eq!(o[0].angular_momentum, vec![2]);
    assert_eq!(o[0].function_type, "gto_spherical");
    assert_eq!(o[1].angular_momentum, vec![0]);
    let h = basis.elements[0].1.electron_shells.as_ref().unwrap();
    assert_eq!(h[0].coefficients, vec![strs(&["0.5"]), strs(&["0.25"])]);
    assert_eq!(basis.name, "cc-pvdz");
    assert_eq!(basis.function_types, strs(&["gto", "gto_spherical"]));
}

#[test]
fn gbasis_empty_text() {
    let basis = read_gbasis("! only a comment\n\n").unwrap();
    assert!(basis.elements.is_empty());
    assert_eq!(basis.name, "unknown_basis");
    assert_eq!(basis.description, "no_description");
    assert_eq!(basis.molssi_bse_schema.schema_type, "minimal");
}

#[test]
fn gbasis_errors() {
    let unknown = "Xx:b:p\n0\nS 1 1\n 1.0 1.0\n";
    assert!(matches!(read_gbasis(unknown), Err(BseError::ValueError(_))));
    let bad_count = "H:b:p\n0\nS 2 1\n 1.0 1.0\n";
    assert!(matches!(read_gbasis(bad_count), Err(BseError::ValueError(_))));
    let bad_max = "H:b:p\nx\nS 1 1\n 1.0 1.0\n";
    assert!(matches!(read_gbasis(bad_max), Err(BseError::ValueError(_))));
}

#[test]
fn gbasis_shell_from_groups() {
    let sh = gbasis_shell(&strs(&["P", "2", "1"]), &strs(&["2.0 0.5", "1.0 0.5"])).unwrap();
    assert_eq!(sh.angular_momentum, vec![1]);
    assert_eq!(sh.function_type, "gto");
    assert_eq!(sh.exponents, strs(&["2.0", "1.0"]));
    assert_eq!(sh.coefficients, vec![strs(&["0.5", "0.5"])]);
    assert!(matches!(gbasis_shell(&strs(&["P", "x", "1"]), &strs(&["2.0 0.5"])), Err(BseError::ValueError(_))));
}

#[test]
fn lines_are_trimmed_without_final_empty() {
    assert_eq!(trimmed_lines("  a \r\n b\n\n"), strs(&["a", "b", ""]));
    assert_eq!(trimmed_lines(""), Vec::<String>::new());
    assert_eq!(trimmed_lines("x"), strs(&["x"]));
}

const VX_SAMPLE: &str = "@BASIS_SET cc-pvdz
! comment
@ATOMBASIS He
S 1 1
 38.36 1.0
@END
@ATOMBASIS H
S 2 1
 13.0 0.5
 1.96 0.5
J 1 1
 0.727 1.0
@END
0123456789abcdef
";

#[test]
fn veloxchem_sample() {
    let basis = read_veloxchem(VX_SAMPLE).unwrap();
    let keys: Vec<i32> = basis.elements.iter().map(|e| e.0).collect();
    assert_eq!(keys, vec![1, 2]);
    let h = basis.elements[0].1.electron_shells.as_ref().unwrap();
    assert_eq!(h.len(), 2);
    assert_eq!(h[0].exponents, strs(&["13.0", "1.96"]));
    assert_eq!(h[0].coefficients, vec![strs(&["0.5", "0.5"])]);
    assert_eq!(h[1].angular_momentum, vec![7]);
    assert_eq!(h[1].function_type, "gto_spherical");
    assert_eq!(basis.function_types, strs(&["gto", "gto_spherical"]));
    assert_eq!(basis.name, "unknown_basis");
}

#[test]
fn veloxchem_errors() {
    assert!(matches!(read_veloxchem("@ATOMBASIS H\nS 1 1\n 1.0 1.0\n@END\nsum\n"), Err(BseError::ValueError(_))));
    assert!(matches!(read_veloxchem("@BASIS_SET x\n@ATOMBASIS H\nS 1 1\n 1.0 1.0\nsum\n"), Err(BseError::ValueError(_))));
    assert!(matches!(read_veloxchem("@BASIS_SET x\n@ATOMBASIS Qq\nS 1 1\n 1.0 1.0\n@END\nsum\n"), Err(BseError::ValueError(_))));
    let empty = read_veloxchem("").unwrap();
    assert!(empty.elements.is_empty());
}

#[test]
fn veloxchem_shell_from_groups() {
    let sh = vx_shell(&strs(&["D", "1", "1"]), &strs(&["0.5 1.0"])).unwrap();
    assert_eq!(sh.angular_momentum, vec![2]);
    assert_eq!(sh.function_type, "gto_spherical");
    assert!(matches!(vx_shell(&strs(&["D", "2", "1"]), &strs(&["0.5 1.0"])), Err(BseError::ValueError(_))));
}

#[test]
fn libmol_shell_round_trip() {
    let text = "spherical\nbasis={\nH s sto-3g : 3 1 1.3\nhydrogen (3s) -> [1s] converted by Basis Set Exchange\n3.42525091 0.62391373 0.16885540 0.15432897 0.53532814\n0.44463454\n";
    let basis = read_libmol(text).unwrap();
    assert_eq!(basis.elements.len(), 1);
    assert_eq!(basis.elements[0].0, 1);
    let sh = &basis.elements[0].1.electron_shells.as_ref().unwrap()[0];
    assert_eq!(sh.angular_momentum, vec![0]);
    assert_eq!(sh.function_type, "gto");
    assert_eq!(sh.exponents, strs(&["3.42525091", "0.62391373", "0.16885540"]));
    assert_eq!(sh.coefficients, vec![strs(&["0.15432897", "0.53532814", "0.44463454"])]);
    assert_eq!(basis.function_types, strs(&["gto"]));
}

#[test]
fn libmol_ranges_are_padded() {
    let text = "C d x : 3 2 1.1 2.3\ncomment\n1.0 2.0 3.0\n0.5 0.25 0.75\n";
    let basis = read_libmol(text).unwrap();
    let sh = &basis.elements[0].1.electron_shells.as_ref().unwrap()[0];
    assert_eq!(basis.elements[0].0, 6);
    assert_eq!(sh.angular_momentum, vec![2]);
    assert_eq!(sh.function_type, "gto_spherical");
    assert_eq!(sh.coefficients, vec![strs(&["0.5", "0.0", "0.0"]), strs(&["0.0", "0.25", "0.75"])]);
}

#[test]
fn libmol_ecp_blocks() {
    let text = "spherical\n\n\n! Effective core Potentials\nin ECP : 28 2 0 8\nECP for test converted by Basis Set Exchange\n1 2 1.0 -1.0\n2 2 2.0 3.0\n1 4.0 5.0D0 7\n";
    let basis = read_libmol(text).unwrap();
    assert_eq!(basis.elements[0].0, 49);
    let el = &basis.elements[0].1;
    assert_eq!(el.ecp_electrons, Some(28));
    let pots = el.ecp_potentials.as_ref().unwrap();
    assert_eq!(pots.len(), 2);
    assert_eq!(pots[0].angular_momentum, vec![2]);
    assert_eq!(pots[0].r_exponents, vec![2]);
    assert_eq!(pots[0].gaussian_exponents, strs(&["1.0"]));
    assert_eq!(pots[0].coefficients, vec![strs(&["-1.0"])]);
    assert_eq!(pots[1].angular_momentum, vec![0]);
    assert_eq!(pots[1].r_exponents, vec![2, 1]);
    assert_eq!(pots[1].gaussian_exponents, strs(&["2.0", "4.0"]));
    assert_eq!(pots[1].coefficients, vec![strs(&["3.0", "5.0e0"])]);
    assert_eq!(pots[1].ecp_type, "scalar_ecp");
    assert!(basis.function_types.is_empty());
}

#[test]
fn libmol_errors() {
    assert!(matches!(read_libmol("Qq s x : 1 1 1.1\nc\n1.0 1.0\n"), Err(BseError::ValueError(_))));
    assert!(matches!(read_libmol("H s x : 2 1 1.2\nc\n1.0 1.0\n"), Err(BseError::ValueError(_))));
    assert!(matches!(read_libmol("H s x : 1 1 2.1\nc\n1.0 1.0\n"), Err(BseError::ValueError(_))));
    assert!(matches!(read_libmol("Qq ECP : 2 0 0 1\nc\n1 2 1.0 1.0\n"), Err(BseError::ValueError(_))));
    assert!(read_libmol("! nothing\n").unwrap().elements.is_empty());
}

#[test]
fn libmol_shell_from_fields() {
    let d = vec![
        ("sym".to_string(), "He".to_string()),
        ("am".to_string(), "p".to_string()),
        ("nprim".to_string(), "1".to_string()),
        ("ncontr".to_string(), "1".to_string()),
        ("ranges".to_string(), "1.1".to_string()),
    ];
    let lines = strs(&["He p x : 1 1 1.1", "comment", "2.5", "1.0"]);
    let (j, z, sh) = libmol_shell_entry(&d, &lines, 0).unwrap();
    assert_eq!((j, z), (3, 2));
    assert_eq!(sh.exponents, strs(&["2.5"]));
    assert_eq!(sh.coefficients, vec![strs(&["1.0"])]);
}

#[test]
fn float_syntax_follows_parse() {
    for t in ["1", "1.", ".5", "-2.5e-3", "+1E400", "inf", "-Infinity", "NaN", "1e5"] {
        assert!(parses_as_f64(t), "{t}");
        assert_eq!(parses_as_f64(t), t.parse::<f64>().is_ok());
    }
    for t in [".", "", "1e", "e5", "1.2.3", " 1", "1d0", "--1", "infx"] {
        assert!(!parses_as_f64(t), "{t}");
        assert_eq!(parses_as_f64(t), t.parse::<f64>().is_ok());
    }
    assert!(is_floating("1.0D-3"));
    assert!(!is_floating("1.0x"));
}

const TM_SAMPLE: &str = "$basis
*
h sto-3g
*
    3   s
 3.42525091 0.15432897
 0.62391373 0.53532814
 1 0.16885540 0.44463454
*
$end
";

#[test]
fn turbomole_shells() {
    let basis = read_turbomole(TM_SAMPLE).unwrap();
    assert_eq!(basis.elements.len(), 1);
    assert_eq!(basis.elements[0].0, 1);
    let sh = &basis.elements[0].1.electron_shells.as_ref().unwrap()[0];
    assert_eq!(sh.angular_momentum, vec![0]);
    assert_eq!(sh.exponents, strs(&["3.42525091", "0.62391373", "0.16885540"]));
    assert_eq!(sh.coefficients, vec![strs(&["0.15432897", "0.53532814", "0.44463454"])]);
    assert_eq!(basis.function_types, strs(&["gto"]));
}

const TM_ECP: &str = "$ecp
*
in def2-ecp
*
  ncore = 28  lmax = 2
#  coefficient r-exponent gaussian-exponent
d
  1.0  2  2.0
s-d
  3.0  2  4.0
  5.0  2  6.0
*
$end
";

#[test]
fn turbomole_potentials() {
    let basis = read_turbomole(TM_ECP).unwrap();
    assert_eq!(basis.elements[0].0, 49);
    let el = &basis.elements[0].1;
    assert_eq!(el.ecp_electrons, Some(28));
    let pots = el.ecp_potentials.as_ref().unwrap();
    assert_eq!(pots.len(), 2);
    assert_eq!(pots[0].angular_momentum, vec![2]);
    assert_eq!(pots[0].r_exponents, vec![2]);
    assert_eq!(pots[0].gaussian_exponents, strs(&["2.0"]));
    assert_eq!(pots[0].coefficients, vec![strs(&["1.0"])]);
    assert_eq!(pots[1].angular_momentum, vec![0]);
    assert_eq!(pots[1].r_exponents, vec![2, 2]);
    assert_eq!(pots[1].gaussian_exponents, strs(&["4.0", "6.0"]));
    assert_eq!(pots[1].coefficients, vec![strs(&["3.0", "5.0"])]);
}

#[test]
fn turbomole_errors() {
    assert!(matches!(read_turbomole("*\n$end\n"), Err(BseError::ValueError(_))));
    assert!(matches!(read_turbomole("$basis\n*\nh x\n*\n1 s\n1.0 1.0\n*\n"), Err(BseError::ValueError(_))));
    assert!(matches!(read_turbomole("$foo\nx\n$end\n"), Err(BseError::ValueError(_))));
    assert!(matches!(read_turbomole(""), Err(BseError::ValueError(_))));
    let twice = TM_ECP.replace("s-d", "s");
    assert!(matches!(read_turbomole(&twice), Err(BseError::ValueError(_))));
}

#[test]
fn turbomole_pieces() {
    let sh = tm_shell(&strs(&["2", "p"]), &strs(&["1.0 0.5", "2 2.0 0.5"])).unwrap();
    assert_eq!(sh.angular_momentum, vec![1]);
    assert_eq!(sh.exponents, strs(&["1.0", "2.0"]));
    let (pot, found) = tm_potential_exec(&strs(&["f", "1.0 2 3.0"]), 3, false).unwrap();
    assert!(found);
    assert_eq!(pot.angular_momentum, vec![3]);
    assert!(matches!(tm_potential_exec(&strs(&["f", "1.0 2 3.0"]), 3, true), Err(BseError::ValueError(_))));
}

const NW_SAMPLE: &str = "#  comment
BASIS \"ao basis\" SPHERICAL PRINT
#BASIS SET: (3s) -> [1s]
H    S
      3.42525091             0.15432897
      0.62391373             0.53532814
      0.16885540             0.44463454
O    SP
      5.0  0.1  0.2
      1.0  0.3  0.4
END
ECP
In nelec 28
In ul
2      1.0     -1.0
In S
2      2.0      3.0
2      4.0      5.0
In P
1      3.0      2.0
END
";

#[test]
fn nwchem_sample() {
    let basis = read_nwchem(NW_SAMPLE).unwrap();
    let keys: Vec<i32> = basis.elements.iter().map(|e| e.0).collect();
    assert_eq!(keys, vec![1, 8, 49]);
    let h = &basis.elements[0].1.electron_shells.as_ref().unwrap()[0];
    assert_eq!(h.exponents, strs(&["3.42525091", "0.62391373", "0.16885540"]));
    let o = &basis.elements[1].1.electron_shells.as_ref().unwrap()[0];
    assert_eq!(o.angular_momentum, vec![0, 1]);
    assert_eq!(o.function_type, "gto");
    assert_eq!(o.coefficients, vec![strs(&["0.1", "0.3"]), strs(&["0.2", "0.4"])]);
    let inn = &basis.elements[2].1;
    assert_eq!(inn.ecp_electrons, Some(28));
    let pots = inn.ecp_potentials.as_ref().unwrap();
    let ams: Vec<Vec<i32>> = pots.iter().map(|p| p.angular_momentum.clone()).collect();
    assert_eq!(ams, vec![vec![2], vec![0], vec![1]]);
    assert_eq!(pots[1].r_exponents, vec![2, 2]);
    assert_eq!(pots[1].gaussian_exponents, strs(&["2.0", "4.0"]));
    assert_eq!(pots[1].coefficients, vec![strs(&["3.0", "5.0"])]);
    assert_eq!(basis.function_types, strs(&["gto"]));
}

#[test]
fn nwchem_errors() {
    let no_core = "ECP\nIn ul\n2 1.0 -1.0\nEND\n";
    assert!(matches!(read_nwchem(no_core), Err(BseError::ValueError(_))));
    assert!(matches!(read_nwchem("FOO\nEND\n"), Err(BseError::ValueError(_))));
    assert!(matches!(read_nwchem("BASIS\nXx S\n1.0 1.0\nEND\n"), Err(BseError::ValueError(_))));
    assert!(matches!(read_nwchem(""), Err(BseError::ValueError(_))));
}

#[test]
fn nwchem_shell_types() {
    let sh = nw_shell("D", &strs(&["1.0 1.0"]), "cartesian").unwrap();
    assert_eq!(sh.function_type, "gto_cartesian");
    let sh = nw_shell("D", &strs(&["1.0 1.0"]), "spherical").unwrap();
    assert_eq!(sh.function_type, "gto_spherical");
    assert!(matches!(nw_shell("SP", &strs(&["1.0 1.0 1.0"]), "spherical"), Err(BseError::ValueError(_))));
}

const G94_SAMPLE: &str = "! comment

H     0
S    3   1.00
      3.42525091             0.15432897
      0.62391373             0.53532814
      0.16885540             0.44463454
****
-O     0
SP   1   1.00
      5.0D0  0.1  0.2
L=2  1   1.20
      0.8  1.0
****
IN     0
IN-ECP     2     28
d potential
  1
2      1.0     -1.0
s-d potential
  2
2      2.0      3.0
2      4.0      5.0
p-d potential
  1
1      3.0      2.0
";

#[test]
fn g94_sample() {
    let (basis, scales) = read_g94(G94_SAMPLE).unwrap();
    let keys: Vec<i32> = basis.elements.iter().map(|e| e.0).collect();
    assert_eq!(keys, vec![1, 8, 49]);
    let o = basis.elements[1].1.electron_shells.as_ref().unwrap();
    assert_eq!(o[0].angular_momentum, vec![0, 1]);
    assert_eq!(o[0].exponents, strs(&["5.0e0"]));
    assert_eq!(o[0].coefficients, vec![strs(&["0.1"]), strs(&["0.2"])]);
    assert_eq!(o[1].angular_momentum, vec![2]);
    assert_eq!(o[1].function_type, "gto_spherical");
    let recs: Vec<(i32, usize, String)> = scales.iter().map(|s| (s.z, s.shell, s.factors.trim().to_string())).collect();
    assert_eq!(recs, vec![(1, 0, "1.00".to_string()), (8, 0, "1.00".to_string()), (8, 1, "1.20".to_string())]);
    let inn = &basis.elements[2].1;
    assert_eq!(inn.ecp_electrons, Some(28));
    let pots = inn.ecp_potentials.as_ref().unwrap();
    let ams: Vec<Vec<i32>> = pots.iter().map(|p| p.angular_momentum.clone()).collect();
    assert_eq!(ams, vec![vec![2], vec![0], vec![1]]);
    assert_eq!(pots[1].gaussian_exponents, strs(&["2.0", "4.0"]));
    assert_eq!(basis.function_types, strs(&["gto", "gto_spherical"]));
}

#[test]
fn g94_empty_and_errors() {
    let (b, s) = read_g94("! nothing\n").unwrap();
    assert!(b.elements.is_empty() && s.is_empty());
    assert_eq!(b.name, "");
    assert_eq!(b.molssi_bse_schema.schema_type, "");
    let unterminated = "H     0\nS    1   1.00\n 1.0 1.0\n";
    assert!(matches!(read_g94(unterminated), Err(BseError::ValueError(_))));
    let too_few = G94_SAMPLE.replace("IN-ECP     2     28", "IN-ECP     3     28");
    assert!(matches!(read_g94(&too_few), Err(BseError::ValueError(_))));
    let bad_count = G94_SAMPLE.replace("  2\n2      2.0", "  3\n2      2.0");
    assert!(matches!(read_g94(&bad_count), Err(BseError::ValueError(_))));
}

#[test]
fn g94_pieces() {
    let (sh, sc) = g94_shell(&strs(&["D    1   1.00", "0.5 1.0"])).unwrap();
    assert_eq!(sh.angular_momentum, vec![2]);
    assert_eq!(sc.trim(), "1.00");
    let pot = g94_potential_exec(&strs(&["f potential", "1", "2 1.5 -2.5"])).unwrap();
    assert!(pot.angular_momentum.is_empty());
    assert_eq!(pot.r_exponents, vec![2]);
    assert!(matches!(g94_potential_exec(&strs(&["f potential", "0"])), Err(BseError::ValueError(_))));
}

const DALTON_SAMPLE: &str = "! cc-pVDZ  EMSL  Basis Set Exchange Library
! Elements                             References
! --------                             ----------

a 1
! HYDROGEN       (4s,1p) -> [2s,1p]
! HYDROGEN       (4s,1p) -> [2s,1p]
H   3    1
      13.0100000              0.0196850
       1.9620000              0.1379770
       0.4446000              0.4781480
H   1    1
       0.7270000              1.0000000
a 8
! OXYGEN       (1s) -> [1s]
H   2   2
      1.0    0.5
             0.0
      2.0    0.5
             1.0
";

#[test]
fn dalton_sample() {
    let basis = read_dalton(DALTON_SAMPLE).unwrap();
    let keys: Vec<i32> = basis.elements.iter().map(|e| e.0).collect();
    assert_eq!(keys, vec![1, 8]);
    let h = basis.elements[0].1.electron_shells.as_ref().unwrap();
    assert_eq!(h.len(), 2);
    assert_eq!(h[0].angular_momentum, vec![0]);
    assert_eq!(h[0].exponents, strs(&["13.0100000", "1.9620000", "0.4446000"]));
    assert_eq!(h[0].coefficients, vec![strs(&["0.0196850", "0.1379770", "0.4781480"])]);
    assert_eq!(h[1].angular_momentum, vec![1]);
    assert_eq!(h[1].function_type, "gto");
    let o = basis.elements[1].1.electron_shells.as_ref().unwrap();
    assert_eq!(o[0].exponents, strs(&["1.0", "2.0"]));
    assert_eq!(o[0].coefficients, vec![strs(&["0.5", "0.5"]), strs(&["0.0", "1.0"])]);
    assert_eq!(basis.function_types, strs(&["gto"]));
    assert_eq!(basis.name, "unknown_basis");
}

#[test]
fn dalton_edges() {
    let empty = read_dalton("! only a comment\n").unwrap();
    assert!(empty.elements.is_empty());
    assert!(matches!(read_dalton("ECP\nH nelec 0\n"), Err(BseError::NotImplementedError(_))));
    assert!(matches!(read_dalton("! foo (1s) -> [1s]\n"), Err(BseError::ValueError(_))));
    assert_eq!(line_begins_element("! carbon (1s) -> [1s]").unwrap(), true);
    assert_eq!(line_begins_element("! wolffram (1s) -> [1s]").unwrap(), true);
    assert_eq!(line_begins_element("A 6").unwrap(), true);
    assert_eq!(line_begins_element("1.0 2.0").unwrap(), false);
    let named = read_dalton("! carbon (1s) -> [1s]\n! more\nH 1 1\n1.0 1.0\nH 1 1\n2.0 1.0\n").unwrap();
    assert_eq!(named.elements[0].0, 6);
    let c = named.elements[0].1.electron_shells.as_ref().unwrap();
    assert_eq!(c[1].angular_momentum, vec![1]);
}

#[test]
fn dalton_shell_pieces() {
    let sh = dalton_shell_exec(&strs(&["2 1", "1.0 0.5", "2.0 0.5"]), 2).unwrap();
    assert_eq!(sh.angular_momentum, vec![2]);
    assert_eq!(sh.function_type, "gto_spherical");
    let split = dalton_shell_exec(&strs(&["1 2", "1.0", "0.5 0.25"]), 0).unwrap();
    assert_eq!(split.exponents, strs(&["1.0"]));
    assert_eq!(split.coefficients, vec![strs(&["0.5"]), strs(&["0.25"])]);
    assert!(matches!(dalton_shell_exec(&strs(&["x y", "1.0 0.5"]), 0), Err(BseError::ValueError(_))));
}

#[test]
fn test_read_ricdlib_sample() {
    let sample = r"/H.cc-pVDZ....aCD-aux-basis.
     1.00   1   1
 Dummy reference line.
 Dummy reference line.
    3    1    1
 0.100000E+01 0.200000E+01 0.300000E+01
 0.123000E+00 0.234000E+00 0.345000E+00";
    let basis = read_ricdlib(sample).unwrap();
    println!("{basis:#?}");
    assert_eq!(basis.name, "cc-pvdz");
    assert_eq!(basis.elements.len(), 1);
    assert_eq!(basis.elements[0].0, 1);
    let sh = basis.elements[0].1.electron_shells.as_ref().unwrap();
    assert_eq!(sh.len(), 1);
    assert_eq!(sh[0].angular_momentum, vec![0]);
    assert_eq!(sh[0].exponents, strs(&["0.100000E+01", "0.200000E+01", "0.300000E+01"]));
    assert_eq!(sh[0].coefficients, vec![strs(&["0.123000E+00", "0.234000E+00", "0.345000E+00"])]);
}

const RICD_TWO: &str = "/O.def2....acCD-aux-basis.
  8.0  2  4
 Dummy reference line.
 Dummy reference line.
 0 0 3
 2 2 3
 4.0 2.0
 1.0 0.5
 0.2 0.8
 1 1 1
 1.5
 1.0
/C.....aCD-aux-basis.
  6.0  0  1
 Dummy reference line.
 Dummy reference line.
 1 1 3
 3.0
 1.0
";

#[test]
fn ricdlib_shells_and_names() {
    let basis = read_ricdlib(RICD_TWO).unwrap();
    let keys: Vec<i32> = basis.elements.iter().map(|e| e.0).collect();
    assert_eq!(keys, vec![6, 8]);
    assert_eq!(basis.name, "def2");
    let o = basis.elements[1].1.electron_shells.as_ref().unwrap();
    assert_eq!(o.len(), 2);
    assert_eq!(o[0].angular_momentum, vec![1]);
    assert_eq!(o[0].function_type, "gto");
    assert_eq!(o[0].exponents, strs(&["4.0", "2.0"]));
    assert_eq!(o[0].coefficients, vec![strs(&["1.0", "0.2"]), strs(&["0.5", "0.8"])]);
    assert_eq!(o[1].angular_momentum, vec![2]);
    assert_eq!(o[1].function_type, "gto_cartesian");
    let c = basis.elements[0].1.electron_shells.as_ref().unwrap();
    assert_eq!(c.len(), 1);
    assert_eq!(c[0].angular_momentum, vec![0]);
}

#[test]
fn ricdlib_edges() {
    let empty = read_ricdlib("").unwrap();
    assert!(empty.elements.is_empty());
    assert_eq!(empty.name, "unknown_basis");
    let bad_sym = RICD_TWO.replace("/C.....", "/Qq.....");
    assert!(matches!(read_ricdlib(&bad_sym), Err(BseError::ValueError(_))));
    let short = RICD_TWO.replace(" 1.5\n 1.0\n", " 1.5\n");
    assert!(matches!(read_ricdlib(&short), Err(BseError::ValueError(_))));
    let m = chunk_rows(&strs(&["a", "b", "c", "d", "e", "f"]), 2, 3).unwrap();
    assert_eq!(m, vec![strs(&["a", "b", "c"]), strs(&["d", "e", "f"])]);
    assert!(matches!(chunk_rows(&strs(&["a"]), 2, 1), Err(BseError::ValueError(_))));
}

const CRYSTAL_SAMPLE: &str = "* a comment
1 2
0 0 3 1 1.0
 13.01 0.0196850
 1.962 0.1379770
 0.4446 0.4781480
0 2 1 0 1.0
 0.727 1.0
249 2
INPUT
21 0 2 1 0 0 0
1.5D0 -2.5 2
0.5 1.0 1
2.0 3.0 2
0 0 1 2 1.0
0.3 1.0
0 1 1 0 1.0
0.2 0.5 0.6
99 0
END
";

#[test]
fn crystal_sample() {
    let basis = read_crystal(CRYSTAL_SAMPLE).unwrap();
    let keys: Vec<i32> = basis.elements.iter().map(|e| e.0).collect();
    assert_eq!(keys, vec![1, 49]);
    let h = basis.elements[0].1.electron_shells.as_ref().unwrap();
    assert_eq!(h.len(), 2);
    assert_eq!(h[0].angular_momentum, vec![0]);
    assert_eq!(h[0].exponents, strs(&["13.01", "1.962", "0.4446"]));
    assert_eq!(h[0].coefficients, vec![strs(&["0.0196850", "0.1379770", "0.4781480"])]);
    assert_eq!(h[1].angular_momentum, vec![1]);
    let inn = &basis.elements[1].1;
    assert_eq!(inn.ecp_electrons, Some(28));
    let pots = inn.ecp_potentials.as_ref().unwrap();
    assert_eq!(pots.len(), 2);
    assert_eq!(pots[0].angular_momentum, vec![0]);
    assert_eq!(pots[0].gaussian_exponents, strs(&["1.5e0", "0.5"]));
    assert_eq!(pots[0].coefficients, vec![strs(&["-2.5", "1.0"])]);
    assert_eq!(pots[0].r_exponents, vec![2, 1]);
    assert_eq!(pots[1].angular_momentum, vec![1]);
    assert_eq!(pots[1].ecp_type, "scalar_ecp");
    let sh = inn.electron_shells.as_ref().unwrap();
    assert_eq!(sh[1].angular_momentum, vec![0, 1]);
    assert_eq!(sh[1].coefficients, vec![strs(&["0.5"]), strs(&["0.6"])]);
    assert_eq!(basis.function_types, strs(&["gto"]));
}

#[test]
fn crystal_edges() {
    assert!(read_crystal("* only comments\n").unwrap().elements.is_empty());
    let bad_scale = "1 1\n0 0 1 1 1.2.3\n1.0 1.0\n99 0\n";
    assert!(matches!(read_crystal(bad_scale), Err(BseError::ValueError(_))));
    let short = "1 1\n0 0 2 1 1.0\n1.0 1.0\n99 0\n";
    assert!(matches!(read_crystal(short), Err(BseError::ValueError(_))));
    let bad_term = CRYSTAL_SAMPLE.replace("0.5 1.0 1\n", "0.5 1.0\n");
    assert!(matches!(read_crystal(&bad_term), Err(BseError::ValueError(_))));
    let no_input = "201 1\n0 0 1 1 1.0\n1.0 1.0\n99 0\n";
    let b = read_crystal(no_input).unwrap();
    assert!(b.elements.is_empty());
}

#[test]
fn crystal_shell_piece() {
    let m = vec![strs(&["1.0D1", "2.0", "3.0d0"])];
    let sh = crystal_shell(1, &m);
    assert_eq!(sh.angular_momentum, vec![0, 1]);
    assert_eq!(sh.exponents, strs(&["1.0e1"]));
    assert_eq!(sh.coefficients, vec![strs(&["2.0"]), strs(&["3.0e0"])]);
    let d = crystal_shell(3, &vec![strs(&["1.0", "1.0"])]);
    assert_eq!(d.angular_momentum, vec![2]);
    assert_eq!(d.function_type, "gto_spherical");
}

const D2K_SAMPLE: &str = "# a comment
O-HYDROGEN (cc-pVDZ)
2
1 0 3
13.01 0.0196850
1.962 0.1379770
0.4446 0.4781480
2 1 1
0.727 1.0
O-INDIUM (def2)
1
1 0 1
0.5 1.0
ECP
In nelec 28
In ul
2 1.0 -1.0
In S
2 2.0 3.0
2 4.0 5.0
In P
1 3.0 2.0
END
";

#[test]
fn demon2k_sample() {
    let basis = read_demon2k(D2K_SAMPLE).unwrap();
    let keys: Vec<i32> = basis.elements.iter().map(|e| e.0).collect();
    assert_eq!(keys, vec![1, 49]);
    let h = basis.elements[0].1.electron_shells.as_ref().unwrap();
    assert_eq!(h.len(), 2);
    assert_eq!(h[0].exponents, strs(&["13.01", "1.962", "0.4446"]));
    assert_eq!(h[0].coefficients, vec![strs(&["0.0196850", "0.1379770", "0.4781480"])]);
    assert_eq!(h[1].angular_momentum, vec![1]);
    let inn = &basis.elements[1].1;
    assert_eq!(inn.ecp_electrons, Some(28));
    assert_eq!(inn.electron_shells.as_ref().unwrap().len(), 1);
    let pots = inn.ecp_potentials.as_ref().unwrap();
    let ams: Vec<Vec<i32>> = pots.iter().map(|p| p.angular_momentum.clone()).collect();
    assert_eq!(ams, vec![vec![2], vec![0], vec![1]]);
    assert_eq!(pots[1].r_exponents, vec![2, 2]);
    assert_eq!(pots[1].gaussian_exponents, strs(&["2.0", "4.0"]));
    assert_eq!(pots[1].coefficients, vec![strs(&["3.0", "5.0"])]);
    assert_eq!(basis.function_types, strs(&["gto"]));
}

#[test]
fn demon2k_edges() {
    assert!(read_demon2k("# nothing\n").unwrap().elements.is_empty());
    let bad_name = D2K_SAMPLE.replace("O-INDIUM", "O-FOO");
    assert!(matches!(read_demon2k(&bad_name), Err(BseError::ValueError(_))));
    let bad_sym = D2K_SAMPLE.replace("In nelec 28", "Qq nelec 28");
    assert!(matches!(read_demon2k(&bad_sym), Err(BseError::ValueError(_))));
    let sh = d2k_shell_exec(&strs(&["2 2 1", "0.8 1.0", "extra"])).unwrap();
    assert_eq!(sh.angular_momentum, vec![2]);
    assert_eq!(sh.function_type, "gto_spherical");
    assert_eq!(sh.exponents, strs(&["0.8"]));
    assert!(matches!(d2k_shell_exec(&strs(&["1 0 3", "0.8 1.0"])), Err(BseError::ValueError(_))));
}
