//! Tests of composing basis sets from their components, and of headers.

use bse::api::header_string;
use bse::compose::{SkelComponent, assemble_basis, basis_version, compose_element, metadata_relpath, select_elements};
use bse::error::BseError;
use bse::fields::{
    BseEcpElement, BseEcpPotential, BseElectronShell, BseGtoElement, BseMolssiBseSchema, BseSkelComponentEcp,
    BseSkelComponentGto, BseSkelMetadata, BseSkelTable,
};

fn schema() -> BseMolssiBseSchema {
    BseMolssiBseSchema { schema_type: "component".to_string(), schema_version: "0.1".to_string() }
}

fn shell(ft: &str, exp: &str) -> BseElectronShell {
    BseElectronShell {
        function_type: ft.to_string(),
        region: String::new(),
        angular_momentum: vec![0],
        exponents: vec![exp.to_string()],
        coefficients: vec![vec!["1.0".to_string()]],
    }
}

fn gto(z: i32, desc: &str, ft: &str, exp: &str) -> SkelComponent {
    SkelComponent::Gto(BseSkelComponentGto {
        molssi_bse_schema: schema(),
        description: desc.to_string(),
        data_source: String::new(),
        elements: vec![(z, BseGtoElement { references: vec![format!("ref-{desc}")], electron_shells: vec![shell(ft, exp)] })],
    })
}

fn ecp(z: i32, ncore: i32) -> SkelComponent {
    SkelComponent::Ecp(BseSkelComponentEcp {
        molssi_bse_schema: schema(),
        description: "core".to_string(),
        data_source: String::new(),
        elements: vec![(
            z,
            BseEcpElement {
                references: vec![],
                ecp_electrons: ncore,
                ecp_potentials: vec![BseEcpPotential {
                    angular_momentum: vec![0],
                    coefficients: vec![vec!["1.0".to_string()]],
                    ecp_type: "scalar_ecp".to_string(),
                    r_exponents: vec![2],
                    gaussian_exponents: vec!["1.0".to_string()],
                }],
            },
        )],
    })
}

fn metadata() -> BseSkelMetadata {
    BseSkelMetadata {
        molssi_bse_schema: schema(),
        names: vec!["Test-B".to_string(), "tb".to_string()],
        tags: vec![],
        family: "test".to_string(),
        description: "A test basis".to_string(),
        role: "orbital".to_string(),
        auxiliaries: vec![],
    }
}

fn table() -> BseSkelTable {
    BseSkelTable {
        molssi_bse_schema: schema(),
        revision_description: "first".to_string(),
        revision_date: "2020-01-01".to_string(),
        elements: vec![],
    }
}

#[test]
fn test_compose_element_merges_components() {
    let comps = vec![gto(1, "a", "gto", "1.0"), gto(1, "b", "gto_spherical", "0.5")];
    let el = compose_element(1, &comps).unwrap();
    let shells = el.electron_shells.unwrap();
    assert_eq!(shells.len(), 2);
    assert_eq!(shells[1].exponents, vec!["0.5".to_string()]);
    assert_eq!(el.references.len(), 2);
    assert_eq!(el.references[0].reference_description, "a");
    assert_eq!(el.references[1].reference_keys, vec!["ref-b".to_string()]);
    assert!(el.ecp_potentials.is_none());
}

#[test]
fn test_compose_element_errors() {
    let unreadable = vec![gto(1, "a", "gto", "1.0"), SkelComponent::Unreadable("x.json".to_string())];
    assert!(matches!(compose_element(1, &unreadable), Err(BseError::DataError(_))));
    let mismatch = vec![ecp(49, 28), ecp(49, 46)];
    assert!(matches!(compose_element(49, &mismatch), Err(BseError::DataError(_))));
    let agree = compose_element(49, &vec![ecp(49, 28), ecp(49, 28)]).unwrap();
    assert_eq!(agree.ecp_electrons, Some(28));
    assert_eq!(agree.ecp_potentials.unwrap().len(), 2);
}

#[test]
fn test_version_and_metadata_path() {
    assert_eq!(basis_version("def2-TZVP.1.table.json").unwrap(), 1);
    assert_eq!(basis_version("a/b.12.table.json").unwrap(), 12);
    assert!(matches!(basis_version("table.json"), Err(BseError::DataError(_))));
    assert!(matches!(basis_version("x.v1.table.json"), Err(BseError::DataError(_))));
    assert_eq!(metadata_relpath("def2-TZVP.1.table.json"), "def2-TZVP.metadata.json");
}

#[test]
fn test_assemble_orders_elements_and_types() {
    let e6 = compose_element(6, &vec![gto(6, "c", "gto_spherical", "2.0")]).unwrap();
    let e1 = compose_element(1, &vec![gto(1, "h", "gto", "1.0")]).unwrap();
    let b = assemble_basis(table(), vec![(6, e6), (1, e1)], 3, metadata());
    let keys: Vec<i32> = b.elements.iter().map(|(z, _)| *z).collect();
    assert_eq!(keys, vec![1, 6]);
    assert_eq!(b.function_types, vec!["gto".to_string(), "gto_spherical".to_string()]);
    assert_eq!(b.version, "3");
    assert_eq!(b.name, "Test-B");
    assert_eq!(b.revision_description, "first");
}

#[test]
fn test_select_elements() {
    let e6 = compose_element(6, &vec![gto(6, "c", "gto_spherical", "2.0")]).unwrap();
    let e1 = compose_element(1, &vec![gto(1, "h", "gto", "1.0")]).unwrap();
    let mut b = assemble_basis(table(), vec![(1, e1), (6, e6)], 1, metadata());
    assert!(matches!(select_elements(&mut b, "Test-B", &vec![8]), Err(BseError::DataNotFound(_))));
    assert_eq!(b.elements.len(), 2);
    select_elements(&mut b, "Test-B", &vec![6]).unwrap();
    assert_eq!(b.elements.len(), 1);
    assert_eq!(b.elements[0].0, 6);
    assert_eq!(b.function_types, vec!["gto_spherical".to_string()]);
    select_elements(&mut b, "Test-B", &vec![]).unwrap();
    assert_eq!(b.elements.len(), 1);
}

#[test]
fn test_header_string_lines() {
    let e1 = compose_element(1, &vec![gto(1, "h", "gto", "1.0")]).unwrap();
    let b = assemble_basis(table(), vec![(1, e1)], 1, metadata());
    let h = header_string(&b);
    let lines: Vec<&str> = h.split('\n').collect();
    assert_eq!(lines.len(), 10);
    assert_eq!(lines[0], "-".repeat(70));
    assert_eq!(lines[1], " BSE-rs (Basis Set Exchange in Rust)");
    assert_eq!(lines[3], " Acknowledges: https://www.basissetexchange.org");
    assert_eq!(lines[5], "   Basis set: Test-B");
    assert_eq!(lines[8], "     Version: 1  (first)");
}
