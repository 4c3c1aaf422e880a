//! Tests of the metadata queries, roles and format tables.

use bse::api::{
    filter_basis_sets, get_all_basis_names, get_families, get_formats, get_roles, lookup_basis_by_role,
    lookup_basis_by_role_f, BseFilterArgsBuilder,
};
use bse::fields::{BseAuxiliary, BseRootMetadata, BseRootMetadataVer};
use bse::readers::read::get_reader_formats;
use bse::writers::write::{get_format_extension, get_writer_formats};

fn version(elements: &[&str]) -> (String, BseRootMetadataVer) {
    (
        "1".to_string(),
        BseRootMetadataVer {
            file_relpath: "x.1.table.json".to_string(),
            revdesc: "Data from the original BSE".to_string(),
            revdate: "2018-06-15".to_string(),
            elements: elements.iter().map(|s| s.to_string()).collect(),
        },
    )
}

fn entry(
    key: &str,
    display: &str,
    family: &str,
    role: &str,
    aux: Vec<(String, BseAuxiliary)>,
    elements: &[&str],
) -> (String, BseRootMetadata) {
    (
        key.to_string(),
        BseRootMetadata {
            display_name: display.to_string(),
            other_names: vec![],
            description: format!("{display} basis"),
            latest_version: "1".to_string(),
            tags: vec![],
            basename: display.to_string(),
            relpath: family.to_string(),
            family: family.to_string(),
            role: role.to_string(),
            function_types: vec!["gto".to_string()],
            auxiliaries: aux,
            versions: vec![version(elements)],
        },
    )
}

/// A small catalogue of basis sets, standing in for the metadata file.
fn sample_metadata() -> Vec<(String, BseRootMetadata)> {
    let light = ["1", "2", "3", "4", "5", "6", "7", "8", "9", "10"];
    let heavy = ["1", "2", "3", "4", "5", "6", "7", "8", "9", "10", "11", "12", "13", "14", "15", "16", "17", "18"];
    vec![
        entry("sto-3g", "STO-3G", "pople", "orbital", vec![], &light),
        entry(
            "cc-pvtz",
            "cc-pVTZ",
            "dunning",
            "orbital",
            vec![
                ("jkfit".to_string(), BseAuxiliary::Str("cc-pvtz-jkfit".to_string())),
                ("rifit".to_string(), BseAuxiliary::Str("cc-pvtz-rifit".to_string())),
            ],
            &heavy,
        ),
        entry("aug-cc-pvtz", "aug-cc-pVTZ", "dunning", "orbital", vec![], &heavy),
        entry(
            "def2-svp",
            "def2-SVP",
            "ahlrichs",
            "orbital",
            vec![
                ("jkfit".to_string(), BseAuxiliary::Str("def2-universal-jkfit".to_string())),
                ("jfit".to_string(), BseAuxiliary::Vec(vec!["def2-universal-jfit".to_string()])),
            ],
            &heavy,
        ),
        entry("cc-pvtz-jkfit", "cc-pVTZ-JKFIT", "dunning_fit", "jkfit", vec![], &heavy),
        entry("def2-universal-jkfit", "def2-universal-JKFIT", "ahlrichs", "jkfit", vec![], &["1", "2"]),
    ]
}

#[test]
fn test_api_test_get_all_basis_names() {
    let names = get_all_basis_names(&sample_metadata());
    assert!(!names.is_empty());

    assert!(names.iter().any(|n| n == "STO-3G"));
    assert!(names.iter().any(|n| n == "cc-pVTZ"));
    assert!(names.iter().any(|n| n == "def2-SVP"));

    let mut sorted_names = names.clone();
    sorted_names.sort();
    assert_eq!(names, sorted_names);

    println!("Total number of basis sets: {}", names.len());
}

#[test]
fn test_api_test_get_families() {
    let families = get_families(&sample_metadata());
    assert!(!families.is_empty());

    assert!(families.contains(&"dunning".to_string()));
    assert!(families.contains(&"pople".to_string()));
    assert!(families.contains(&"ahlrichs".to_string()));

    let mut sorted_families = families.clone();
    sorted_families.sort();
    assert_eq!(families, sorted_families);

    println!("Families: {:?}", families);
}

#[test]
fn test_api_test_get_roles() {
    let roles = get_roles();
    assert!(!roles.is_empty());

    for role in ["orbital", "jfit", "jkfit", "rifit", "optri", "admmfit", "dftxfit", "dftjfit", "guess"] {
        assert!(roles.iter().any(|(k, _)| *k == role));
    }

    println!("Roles: {:?}", roles);
}

#[test]
fn test_lookup_basis_by_role_case_insensitive() {
    let md = sample_metadata();
    let aux1 = lookup_basis_by_role("cc-pVTZ", "jkfit", &md);
    let aux2 = lookup_basis_by_role("CC-PVTZ", "JKFIT", &md);
    assert_eq!(aux1, aux2);
}

#[test]
fn test_lookup_basis_by_role_invalid_role() {
    let md = sample_metadata();
    let result = lookup_basis_by_role_f("cc-pVTZ", "invalid_role", Some(&md));
    assert!(result.is_err());
}

#[test]
fn test_lookup_basis_by_role_missing_role() {
    let md = sample_metadata();
    let result = lookup_basis_by_role_f("STO-3G", "jkfit", Some(&md));
    println!("STO-3G jkfit result: {:?}", result);
}

#[test]
fn test_filter_by_family() {
    let args = BseFilterArgsBuilder::default().family("dunning".to_string()).build().unwrap();
    let filtered = filter_basis_sets(args, sample_metadata());

    assert!(!filtered.is_empty());
    assert!(filtered.iter().all(|(_, v)| v.family == "dunning"));

    println!("Dunning family basis sets: {}", filtered.len());
}

#[test]
fn test_filter_by_role() {
    let args = BseFilterArgsBuilder::default().role("jkfit".to_string()).build().unwrap();
    let filtered = filter_basis_sets(args, sample_metadata());

    assert!(!filtered.is_empty());
    assert!(filtered.iter().all(|(_, v)| v.role == "jkfit"));

    println!("JK-fitting basis sets: {}", filtered.len());
}

#[test]
fn test_filter_by_substr() {
    let args = BseFilterArgsBuilder::default().substr("aug-cc-pV".to_string()).build().unwrap();
    let filtered = filter_basis_sets(args, sample_metadata());

    assert!(!filtered.is_empty());

    for (key, meta) in &filtered {
        let contains =
            key.to_lowercase().contains("aug-cc-pv") || meta.display_name.to_lowercase().contains("aug-cc-pv");
        assert!(contains, "Expected {} to contain 'aug-cc-pV'", key);
    }

    println!("Basis sets matching 'aug-cc-pV': {}", filtered.len());
}

#[test]
fn test_filter_by_elements() {
    let args = BseFilterArgsBuilder::default().elements("H-C".to_string()).build().unwrap();
    let filtered = filter_basis_sets(args, sample_metadata());

    assert!(!filtered.is_empty());

    println!("Basis sets covering H-C: {}", filtered.len());
}

#[test]
fn test_filter_combined() {
    let args =
        BseFilterArgsBuilder::default().family("dunning_fit".to_string()).role("jkfit".to_string()).build().unwrap();
    let filtered = filter_basis_sets(args, sample_metadata());

    assert!(!filtered.is_empty());
    assert!(filtered.iter().all(|(_, v)| v.family == "dunning_fit" && v.role == "jkfit"));

    println!("Dunning_fit JK-fitting basis sets: {}", filtered.len());
}

#[test]
fn test_filter_case_insensitive() {
    let args1 = BseFilterArgsBuilder::default().family("DUNNING".to_string()).build().unwrap();
    let args2 = BseFilterArgsBuilder::default().family("dunning".to_string()).build().unwrap();

    let filtered1 = filter_basis_sets(args1, sample_metadata());
    let filtered2 = filter_basis_sets(args2, sample_metadata());

    assert_eq!(filtered1.len(), filtered2.len());
}

#[test]
fn test_get_writer_formats() {
    let formats = get_writer_formats(None);
    assert!(!formats.is_empty());

    for f in ["nwchem", "gaussian94", "psi4", "turbomole", "molpro"] {
        assert!(formats.iter().any(|(k, _)| k == f));
    }

    println!("Writer formats: {:?}", formats.iter().map(|(k, _)| k).collect::<Vec<_>>());
}

#[test]
fn test_get_writer_formats_filter() {
    let formats_all = get_writer_formats(None);
    let formats_gto = get_writer_formats(Some(vec!["gto".to_string(), "gto_spherical".to_string()]));

    assert!(formats_gto.iter().any(|(k, _)| k == "veloxchem"));

    for (key, _) in &formats_gto {
        assert!(formats_all.iter().any(|(k, _)| k == key));
    }

    println!("All formats: {}", formats_all.len());
    println!("GTO spherical formats: {}", formats_gto.len());
}

#[test]
fn test_get_reader_formats() {
    let formats = get_reader_formats();
    assert!(!formats.is_empty());

    for f in ["nwchem", "gaussian94", "turbomole", "dalton"] {
        assert!(formats.iter().any(|(k, _)| k == f));
    }

    println!("Reader formats: {:?}", formats);
}

#[test]
fn test_get_format_extension() {
    assert_eq!(get_format_extension("nwchem").unwrap(), ".nw");
    assert_eq!(get_format_extension("gaussian94").unwrap(), ".gbs");
    assert_eq!(get_format_extension("turbomole").unwrap(), ".tm");
    assert_eq!(get_format_extension("qcschema").unwrap(), ".json");

    assert_eq!(get_format_extension("NWCHEM").unwrap(), ".nw");
    assert_eq!(get_format_extension("Gaussian94").unwrap(), ".gbs");
}

#[test]
fn test_get_format_extension_invalid() {
    let result = get_format_extension("invalid_format");
    assert!(result.is_err());
}

#[test]
fn test_get_formats() {
    let formats1 = get_formats(None);
    let formats2 = get_writer_formats(None);

    assert_eq!(formats1, formats2);
}
