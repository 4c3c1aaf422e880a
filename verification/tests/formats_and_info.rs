//! Tests of the format tables, column layout, basis set summaries, the
//! directory layout and the QCSchema document.

use bse::cli::common::{format_columns, format_map_columns};
use bse::cli::info::{basis_family, basis_info_lines, basis_versions_lines, families_text};
use bse::dir_writer::dir_entries;
use bse::error::BseError;
use bse::fields::{BseAuxiliary, BseBasis, BseBasisElement, BseEcpPotential, BseElectronShell, BseMolssiBseSchema, BseRootMetadata, BseRootMetadataVer};
use bse::readers::read::get_reader_info;
use bse::writers::molcas_library::{format_author, write_molcas_library_sorted, MolcasReference};
use bse::writers::qcschema::qcschema_of;
use bse::writers::write::{check_writer, get_format_extension, get_writer_info, is_dir_format, strip_dir_prefix};

fn strs(v: &[&str]) -> Vec<String> {
    v.iter().map(|s| s.to_string()).collect()
}

#[test]
fn format_columns_doc_example() {
    let lines = vec![strs(&["nwchem", "NWChem format"]), strs(&["gaussian94", "Gaussian format"])];
    let out = format_columns(&lines, "");
    assert_eq!(out, vec!["nwchem       NWChem format".to_string(), "gaussian94   Gaussian format".to_string()]);
}

#[test]
fn format_map_columns_sorted_by_key() {
    let items = vec![("b".to_string(), "x".to_string()), ("a".to_string(), "y".to_string())];
    assert_eq!(format_map_columns(&items, "> "), vec!["> a   y".to_string(), "> b   x".to_string()]);
}

#[test]
fn writer_aliases_and_extensions() {
    for f in ["g94", "gaussian", "gau", "GAU"] {
        assert_eq!(get_writer_info(f).unwrap().name, "gaussian94");
    }
    assert_eq!(get_writer_info("nwchem").unwrap().extension, ".nw");
    assert_eq!(get_format_extension("bsedebug").unwrap(), ".bse");
    assert_eq!(get_reader_info("gau").unwrap().name, "gaussian94");
}

#[test]
fn check_writer_messages() {
    match check_writer("ricdwrap", &strs(&["gto", "scalar_ecp"])) {
        Err(BseError::ValueError(m)) => assert_eq!(m, "Writer acCD auxiliary basis wrapper does not support all function types"),
        _ => panic!("expected an error"),
    }
    match check_writer("nosuch", &strs(&["gto"])) {
        Err(BseError::ValueError(m)) => assert_eq!(m, "Unknown writer format: nosuch"),
        _ => panic!("expected an error"),
    }
    assert!(check_writer("nwchem", &strs(&["gto", "scalar_ecp"])).is_ok());
}

fn metadata() -> Vec<(String, BseRootMetadata)> {
    let ver = |k: &str, d: &str, els: &[&str]| {
        (
            k.to_string(),
            BseRootMetadataVer {
                file_relpath: String::new(),
                revdesc: d.to_string(),
                revdate: "2018-06-15".to_string(),
                elements: strs(els),
            },
        )
    };
    vec![(
        "cc-pvdz".to_string(),
        BseRootMetadata {
            display_name: "cc-pVDZ".to_string(),
            other_names: vec![],
            description: "Dunning double zeta".to_string(),
            latest_version: "1".to_string(),
            tags: vec![],
            basename: "cc-pVDZ".to_string(),
            relpath: String::new(),
            family: "dunning".to_string(),
            role: "orbital".to_string(),
            function_types: strs(&["gto", "gto_spherical"]),
            auxiliaries: vec![
                ("rifit".to_string(), BseAuxiliary::Str("cc-pvdz-rifit".to_string())),
                ("jfit".to_string(), BseAuxiliary::Vec(strs(&["a", "b"]))),
            ],
            versions: vec![ver("1", "Updated", &["1", "2", "3", "6"]), ver("0", "Original", &["1", "2"])],
        },
    )]
}

#[test]
fn basis_summary_lines() {
    let md = metadata();
    let lines = basis_info_lines("CC-PVDZ", &md).unwrap();
    let rule = "-".repeat(80);
    assert_eq!(lines[0], rule);
    assert_eq!(lines[1], "CC-PVDZ");
    assert_eq!(lines[3], "    Display Name: cc-pVDZ");
    assert_eq!(lines[7], "  Function Types: gto,gto_spherical");
    assert_eq!(lines[10], "Auxiliary Basis Sets:");
    assert_eq!(lines[11], "    jfit    a, b");
    assert_eq!(lines[12], "    rifit   cc-pvdz-rifit");
    assert_eq!(lines[14], "Versions:");
    assert_eq!(lines[15], "    1   2018-06-15   h-li,c   Updated");
    assert_eq!(lines[16], "    0   2018-06-15   h,he     Original");
    match basis_info_lines("nope", &md) {
        Err(BseError::ValueError(m)) => assert_eq!(m, "Basis set 'nope' does not exist."),
        _ => panic!("expected an error"),
    }
}

#[test]
fn basis_family_versions_and_families() {
    let md = metadata();
    assert_eq!(basis_family("cc-pVDZ", &md).unwrap(), "dunning");
    assert_eq!(basis_versions_lines("cc-pVDZ", &md, true).unwrap(), strs(&["1", "0"]));
    assert_eq!(basis_versions_lines("cc-pVDZ", &md, false).unwrap(), strs(&["0   Original", "1   Updated"]));
    assert_eq!(families_text(&md), "dunning");
    assert!(matches!(basis_family("x", &md), Err(BseError::ValueError(_))));
}

fn shell(ft: &str, am: &[i32]) -> BseElectronShell {
    BseElectronShell {
        function_type: ft.to_string(),
        region: "valence".to_string(),
        angular_momentum: am.to_vec(),
        exponents: strs(&["1.0"]),
        coefficients: vec![strs(&["1.0"])],
    }
}

fn sample_basis() -> BseBasis {
    let pot = BseEcpPotential {
        angular_momentum: vec![0],
        coefficients: vec![strs(&["2.0"])],
        ecp_type: "scalar_ecp".to_string(),
        r_exponents: vec![2],
        gaussian_exponents: strs(&["1.5"]),
    };
    BseBasis {
        molssi_bse_schema: BseMolssiBseSchema { schema_type: "complete".to_string(), schema_version: "0.1".to_string() },
        revision_description: String::new(),
        revision_date: String::new(),
        elements: vec![
            (1, BseBasisElement { references: vec![], electron_shells: Some(vec![shell("gto", &[0])]), ecp_potentials: None, ecp_electrons: None }),
            (
                49,
                BseBasisElement {
                    references: vec![],
                    electron_shells: Some(vec![shell("gto_spherical", &[2])]),
                    ecp_potentials: Some(vec![pot]),
                    ecp_electrons: Some(28),
                },
            ),
        ],
        version: "1".to_string(),
        function_types: strs(&["gto", "gto_spherical", "scalar_ecp"]),
        names: vec![],
        tags: vec![],
        family: String::new(),
        description: "small".to_string(),
        role: "orbital".to_string(),
        auxiliaries: vec![],
        name: "test".to_string(),
    }
}

#[test]
fn directory_entries() {
    let b = sample_basis();
    let e = dir_entries(&b, "NWChem").unwrap();
    let names: Vec<&str> = e.iter().map(|(n, _)| n.as_str()).collect();
    assert_eq!(names, vec!["H.nw", "In.nw"]);
    assert_eq!(e[1].1.elements.len(), 1);
    assert_eq!(e[1].1.elements[0].0, 49);
    assert_eq!(e[1].1.name, "element");
    assert_eq!(e[1].1.function_types, b.function_types);
    assert!(matches!(dir_entries(&b, "nosuch"), Err(BseError::ValueError(_))));
}

#[test]
fn qcschema_document() {
    let doc = qcschema_of(&sample_basis());
    assert_eq!(doc.schema_name, "qcschema_basis");
    assert_eq!(doc.schema_version, 1);
    assert_eq!(doc.center_data[0].0, "h_test");
    assert_eq!(doc.center_data[1].0, "in_test");
    let inn = &doc.center_data[1].1;
    assert_eq!(inn.electron_shells.as_ref().unwrap()[0].harmonic_type, "spherical");
    assert_eq!(inn.ecp_potentials.as_ref().unwrap()[0].ecp_type, "scalar");
    assert_eq!(inn.ecp_electrons, Some(28));
    assert_eq!(doc.center_data[0].1.electron_shells.as_ref().unwrap()[0].harmonic_type, "cartesian");
}

#[test]
fn dir_prefix_ascii() {
    assert_eq!(strip_dir_prefix("dir-nwchem"), "nwchem");
    assert_eq!(strip_dir_prefix("DIR-json"), "json");
    assert_eq!(strip_dir_prefix("nwchem"), "nwchem");
    assert!(is_dir_format("Dir-x"));
    assert!(!is_dir_format("dir"));
}

#[test]
fn molcas_author_format() {
    assert_eq!(format_author("Dunning, Thom H."), "T.H. Dunning");
    assert_eq!(format_author("Weigend, Florian"), "F. Weigend");
    assert_eq!(format_author("Peterson, Kirk-A."), "K.A. Peterson");
    assert_eq!(format_author("Smith"), "Smith");
    assert_eq!(format_author("Doe, J."), "J. Doe");
}

fn molcas_refs() -> Vec<(String, MolcasReference)> {
    vec![(
        "weigend2005a".to_string(),
        MolcasReference {
            authors: strs(&["Weigend, Florian", "Ahlrichs, Reinhart"]),
            journal: Some("Phys. Chem. Chem. Phys.".to_string()),
            volume: Some("7".to_string()),
            year: Some("2005".to_string()),
            pages: Some("3297".to_string()),
            booktitle: None,
            title: None,
            doi: Some("10.1039/B508541A".to_string()),
        },
    )]
}

#[test]
fn molcas_library_text() {
    let mut b = sample_basis();
    b.names = strs(&["def2 test"]);
    b.elements[0].1.references = vec![bse::fields::BseBasisReference {
        reference_description: String::new(),
        reference_keys: strs(&["weigend2005a"]),
    }];
    let out = write_molcas_library_sorted(&b, &molcas_refs());
    let lines: Vec<&str> = out.lines().collect();
    assert_eq!(lines[0], "/H.def2_test.Weigend.1s.1s.");
    assert_eq!(lines[1], "F. Weigend, R. Ahlrichs. Phys. Chem. Chem. Phys. 7 (2005) 3297. doi:10.1039/b508541a");
    assert_eq!(lines[2], "HYDROGEN (1s) -> [1s]");
    assert_eq!(lines[3], "      1.0   0");
    assert_eq!(lines[4], "* s-type functions");
    assert_eq!(lines[5], "     1    1");
    let inh = lines.iter().find(|l| l.starts_with("/In.")).unwrap();
    assert!(inh.starts_with("/In.def2_test.."));
    assert!(inh.ends_with(".ECP.21el."));
    assert!(out.contains("Unknown reference"));
    assert!(out.contains("Cartesian") == false);
    assert!(out.contains("PP, In, 28, 0 ;"));
    assert!(out.contains("1; !  ul potential"));
    assert!(out.contains("2,1.5,2.0;"));
    assert!(out.contains("Spectral Representation Operator\nEnd of Spectral Representation Operator\n"));
    assert!(out.ends_with("\n"));
}
