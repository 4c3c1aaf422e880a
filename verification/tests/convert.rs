//! Tests of the conversion plan and of complete basis sets from minimal
//! ones.

use bse::cli::handlers::plan_convert;
use bse::error::BseError;
use bse::fields::{BseBasis, BseBasisMinimal, BseMolssiBseSchema};

#[test]
fn plan_file_to_file() {
    let p = plan_convert(None, None, false, false, false, Some("nwchem".to_string()), Some("gaussian94".to_string())).unwrap();
    assert_eq!((p.read_fmt.as_str(), p.write_fmt.as_str(), p.input_dir, p.output_dir), ("nwchem", "gaussian94", false, false));
    let p = plan_convert(Some("g94"), Some("turbomole"), false, true, false, None, None).unwrap();
    assert_eq!((p.read_fmt.as_str(), p.write_fmt.as_str()), ("g94", "turbomole"));
}

#[test]
fn plan_directories() {
    let p = plan_convert(Some("dir-nwchem"), Some("REST"), false, false, false, None, None).unwrap();
    assert_eq!((p.read_fmt.as_str(), p.write_fmt.as_str(), p.input_dir, p.output_dir), ("nwchem", "json", true, true));
    let p = plan_convert(Some("nwchem"), None, true, true, true, None, Some("dir-json".to_string())).unwrap();
    assert_eq!((p.read_fmt.as_str(), p.write_fmt.as_str(), p.input_dir, p.output_dir), ("nwchem", "json", true, true));
}

#[test]
fn plan_errors() {
    assert!(matches!(plan_convert(None, Some("nwchem"), false, false, false, None, None), Err(BseError::ValueError(_))));
    assert!(matches!(plan_convert(Some("nwchem"), None, false, false, false, None, None), Err(BseError::ValueError(_))));
    assert!(matches!(plan_convert(Some("nwchem"), Some("dir-json"), false, true, false, None, None), Err(BseError::ValueError(_))));
    assert!(matches!(plan_convert(Some("nwchem"), Some("json"), false, true, true, None, None), Err(BseError::ValueError(_))));
}

#[test]
fn complete_from_minimal() {
    let m = BseBasisMinimal {
        molssi_bse_schema: BseMolssiBseSchema { schema_type: "minimal".to_string(), schema_version: "0.1".to_string() },
        elements: vec![],
        function_types: vec!["gto".to_string()],
        name: "x".to_string(),
        description: "d".to_string(),
    };
    let b = BseBasis::from_minimal(m);
    assert_eq!(b.name, "x");
    assert_eq!(b.description, "d");
    assert_eq!(b.function_types, vec!["gto".to_string()]);
    assert_eq!(b.molssi_bse_schema.schema_type, "minimal");
    assert!(b.names.is_empty() && b.version.is_empty() && b.role.is_empty());
}
