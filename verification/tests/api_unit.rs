//! Tests of the main interface: names, families, roles, auxiliary lookup,
//! filtering, reference formats and calendar names.

use bse::api::{
    determine_maug_month, filter_basis_sets, get_all_basis_names, get_families, get_reference_formats, get_roles,
    lookup_basis_by_role, parse_truhlar_calendar_name, BseFilterArgsBuilder,
};
use bse::fields::{BseAuxiliary, BseRootMetadata, BseRootMetadataVer};

fn version(elements: &[&str]) -> (String, BseRootMetadataVer) {
    (
        "1".to_string(),
        BseRootMetadataVer {
            file_relpath: "x.1.table.json".to_string(),
            revdesc: "Data from the original BSE".to_string(),
            revdate: "2018-06-15".to_string(),
            elements: elements.iter().map(|s| s.to_string()).collect(),
        },
    )
}

fn entry(
    key: &str,
    display: &str,
    family: &str,
    role: &str,
    aux: Vec<(String, BseAuxiliary)>,
    elements: &[&str],
) -> (String, BseRootMetadata) {
    (
        key.to_string(),
        BseRootMetadata {
            display_name: display.to_string(),
            other_names: vec![],
            description: format!("{display} basis"),
            latest_version: "1".to_string(),
            tags: vec![],
            basename: display.to_string(),
            relpath: family.to_string(),
            family: family.to_string(),
            role: role.to_string(),
            function_types: vec!["gto".to_string()],
            auxiliaries: aux,
            versions: vec![version(elements)],
        },
    )
}

/// A small catalogue of basis sets, standing in for the metadata file.
fn sample_metadata() -> Vec<(String, BseRootMetadata)> {
    let light = ["1", "2", "3", "4", "5", "6", "7", "8", "9", "10"];
    let heavy = ["1", "2", "3", "4", "5", "6", "7", "8", "9", "10", "11", "12", "13", "14", "15", "16", "17", "18"];
    vec![
        entry("sto-3g", "STO-3G", "pople", "orbital", vec![], &light),
        entry(
            "cc-pvtz",
            "cc-pVTZ",
            "dunning",
            "orbital",
            vec![
                ("jkfit".to_string(), BseAuxiliary::Str("cc-pvtz-jkfit".to_string())),
                ("rifit".to_string(), BseAuxiliary::Str("cc-pvtz-rifit".to_string())),
            ],
            &heavy,
        ),
        entry("aug-cc-pvtz", "aug-cc-pVTZ", "dunning", "orbital", vec![], &heavy),
        entry(
            "def2-svp",
            "def2-SVP",
            "ahlrichs",
            "orbital",
            vec![
                ("jkfit".to_string(), BseAuxiliary::Str("def2-universal-jkfit".to_string())),
                ("jfit".to_string(), BseAuxiliary::Vec(vec!["def2-universal-jfit".to_string()])),
            ],
            &heavy,
        ),
        entry("cc-pvtz-jkfit", "cc-pVTZ-JKFIT", "dunning_fit", "jkfit", vec![], &heavy),
        entry("def2-universal-jkfit", "def2-universal-JKFIT", "ahlrichs", "jkfit", vec![], &["1", "2"]),
    ]
}

#[test]
fn api_test_get_all_basis_names() {
    let names = get_all_basis_names(&sample_metadata());
    assert!(!names.is_empty());
    assert!(names.iter().any(|n| n.contains("STO-3G")));
    assert!(names.iter().any(|n| n.contains("cc-pVTZ")));
    println!("Number of basis sets: {}", names.len());
}

#[test]
fn api_test_get_families() {
    let families = get_families(&sample_metadata());
    assert!(!families.is_empty());
    assert!(families.contains(&"dunning".to_string()));
    assert!(families.contains(&"pople".to_string()));
    println!("Families: {:?}", families);
}

#[test]
fn api_test_get_roles() {
    let roles = get_roles();
    assert!(!roles.is_empty());
    assert!(roles.iter().any(|(k, _)| *k == "orbital"));
    assert!(roles.iter().any(|(k, _)| *k == "jkfit"));
    println!("Roles: {:?}", roles);
}

#[test]
fn test_lookup_basis_by_role() {
    let aux_names = lookup_basis_by_role("cc-pVTZ", "jkfit", &sample_metadata());
    assert!(!aux_names.is_empty());
    println!("cc-pVTZ jkfit auxiliaries: {:?}", aux_names);
}

#[test]
fn test_filter_basis_sets() {
    let args = BseFilterArgsBuilder::default().family("dunning".to_string()).build().unwrap();
    let filtered = filter_basis_sets(args, sample_metadata());
    assert!(!filtered.is_empty());
    assert!(filtered.iter().all(|(_, v)| v.family == "dunning"));
    println!("Dunning family basis sets: {}", filtered.len());

    let args = BseFilterArgsBuilder::default().substr("aug-cc-pV".to_string()).build().unwrap();
    let filtered = filter_basis_sets(args, sample_metadata());
    assert!(!filtered.is_empty());
    println!("Basis sets matching 'aug-cc-pV': {}", filtered.len());

    let args = BseFilterArgsBuilder::default().role("jkfit".to_string()).build().unwrap();
    let filtered = filter_basis_sets(args, sample_metadata());
    assert!(!filtered.is_empty());
    assert!(filtered.iter().all(|(_, v)| v.role == "jkfit"));
    println!("JK-fitting basis sets: {}", filtered.len());

    let args = BseFilterArgsBuilder::default().elements("H-C".to_string()).build().unwrap();
    let filtered = filter_basis_sets(args, sample_metadata());
    assert!(!filtered.is_empty());
    println!("Basis sets covering H-C: {}", filtered.len());
}

#[test]
fn test_get_reference_formats() {
    let formats = get_reference_formats();
    assert!(!formats.is_empty());
    assert!(formats.iter().any(|(k, _)| k == "bib"));
    assert!(formats.iter().any(|(k, _)| k == "txt"));
    assert!(formats.iter().any(|(k, _)| k == "json"));
    println!("Reference formats: {:?}", formats);
}

fn pair(a: &str, b: &str) -> Option<(String, String)> {
    Some((a.to_string(), b.to_string()))
}

#[test]
fn test_parse_truhlar_calendar_name() {
    assert_eq!(parse_truhlar_calendar_name("jul-cc-pVTZ"), pair("jul", "cc-pvtz"));
    assert_eq!(parse_truhlar_calendar_name("jun-cc-pVTZ"), pair("jun", "cc-pvtz"));
    assert_eq!(parse_truhlar_calendar_name("may-cc-pVTZ"), pair("may", "cc-pvtz"));
    assert_eq!(parse_truhlar_calendar_name("apr-cc-pVTZ"), pair("apr", "cc-pvtz"));
    assert_eq!(parse_truhlar_calendar_name("mar-cc-pVTZ"), pair("mar", "cc-pvtz"));
    assert_eq!(parse_truhlar_calendar_name("feb-cc-pVTZ"), pair("feb", "cc-pvtz"));
    assert_eq!(parse_truhlar_calendar_name("jan-cc-pVTZ"), pair("jan", "cc-pvtz"));

    assert_eq!(parse_truhlar_calendar_name("maug-cc-pVTZ"), pair("maug", "cc-pvtz"));
    assert_eq!(parse_truhlar_calendar_name("maug-cc-pVDZ"), pair("maug", "cc-pvdz"));
    assert_eq!(parse_truhlar_calendar_name("maug-cc-pVQZ"), pair("maug", "cc-pvqz"));

    assert_eq!(parse_truhlar_calendar_name("JUL-cc-pVTZ"), pair("jul", "cc-pvtz"));
    assert_eq!(parse_truhlar_calendar_name("Jul-CC-PVTZ"), pair("jul", "cc-pvtz"));
    assert_eq!(parse_truhlar_calendar_name("MAUG-cc-pVTZ"), pair("maug", "cc-pvtz"));

    assert_eq!(parse_truhlar_calendar_name("cc-pVTZ"), None);
    assert_eq!(parse_truhlar_calendar_name("aug-cc-pVTZ"), None);
    assert_eq!(parse_truhlar_calendar_name("def2-SVP"), None);
    assert_eq!(parse_truhlar_calendar_name("sto-3g"), None);

    assert_eq!(parse_truhlar_calendar_name("jul"), None);
    assert_eq!(parse_truhlar_calendar_name("julcc-pVTZ"), None);
}

#[test]
fn test_determine_maug_month() {
    assert_eq!(determine_maug_month("cc-pvdz").unwrap(), "jun");
    assert_eq!(determine_maug_month("cc-pVDZ").unwrap(), "jun");
    assert_eq!(determine_maug_month("aug-cc-pvdz").unwrap(), "jun");

    assert_eq!(determine_maug_month("cc-pvtz").unwrap(), "may");
    assert_eq!(determine_maug_month("cc-pVTZ").unwrap(), "may");
    assert_eq!(determine_maug_month("aug-cc-pvtz").unwrap(), "may");

    assert_eq!(determine_maug_month("cc-pvqz").unwrap(), "apr");
    assert_eq!(determine_maug_month("cc-pVQZ").unwrap(), "apr");
    assert_eq!(determine_maug_month("aug-cc-pvqz").unwrap(), "apr");

    assert_eq!(determine_maug_month("CC-PVDZ").unwrap(), "jun");
    assert_eq!(determine_maug_month("CC-PVTZ").unwrap(), "may");
    assert_eq!(determine_maug_month("CC-PVQZ").unwrap(), "apr");

    assert!(determine_maug_month("cc-pv5z").is_err());
    assert!(determine_maug_month("def2-svp").is_err());
    assert!(determine_maug_month("sto-3g").is_err());
}
