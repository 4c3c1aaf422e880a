//! Writing a basis set as a directory with one file per element: the name
//! of each file (the element's symbol and the format's extension) and the
//! basis set of that element alone, which the caller writes in the format.
use crate::error::BseError;
use crate::fields::{BseBasis, BseBasisElement, BseMolssiBseSchema, ElementV, copy_strings, elements_view};
use crate::lut::{capitalize_spec, element_sym_from_Z_with_normalize, sym_spec};
use crate::text::{lowercase_of, push_str, to_lowercase};
use crate::writers::write::{get_format_extension, writer_lookup, writer_row};
use vstd::prelude::*;

verus! {

/// `b` is the basis set of one element `(z, e)` written to a directory:
/// a complete schema, named `element`, of role `orbital`, with the given
/// function types and nothing else.
pub open spec fn single_element_basis(b: BseBasis, z: i32, e: ElementV, function_types: Seq<Seq<char>>) -> bool {
    &&& b.molssi_bse_schema.schema_type@ == "complete"@
    &&& b.molssi_bse_schema.schema_version@ == "1.0"@
    &&& b.revision_description@ == Seq::<char>::empty()
    &&& b.revision_date@ == Seq::<char>::empty()
    &&& elements_view(b.elements@) == seq![(z, e)]
    &&& b.version@ == Seq::<char>::empty()
    &&& b.function_types.deep_view() == function_types
    &&& b.names@.len() == 0
    &&& b.tags@.len() == 0
    &&& b.family@ == Seq::<char>::empty()
    &&& b.description@ == Seq::<char>::empty()
    &&& b.role@ == "orbital"@
    &&& b.auxiliaries@.len() == 0
    &&& b.name@ == "element"@
}

/// Every element of the map has a known atomic number.
pub open spec fn all_known(elems: Seq<(i32, ElementV)>) -> bool {
    forall|k: int| 0 <= k < elems.len() ==> 1 <= #[trigger] elems[k].0 <= 118
}

fn single(z: i32, e: &BseBasisElement, function_types: &Vec<String>) -> (r: BseBasis)
    ensures
        single_element_basis(r, z, e@, function_types.deep_view()),
{
    let r = BseBasis {
        molssi_bse_schema: BseMolssiBseSchema { schema_type: "complete".to_owned(), schema_version: "1.0".to_owned() },
        revision_description: String::new(),
        revision_date: String::new(),
        elements: vec![(z, e.copy())],
        version: String::new(),
        function_types: copy_strings(function_types),
        names: Vec::new(),
        tags: Vec::new(),
        family: String::new(),
        description: String::new(),
        role: "orbital".to_owned(),
        auxiliaries: Vec::new(),
        name: "element".to_owned(),
    };
    assert(elements_view(r.elements@) =~= seq![(z, e@)]);
    r
}

/// The files of a basis set written to a directory in format `fmt` (in any
/// case), in the order of its elements: for each element, the file name
/// (its capitalized symbol and the format's extension) and the basis set
/// of that element alone (see [`single_element_basis`]). A `ValueError`
/// for an unknown format, or for an element of unknown atomic number.
pub fn dir_entries(basis: &BseBasis, fmt: &str) -> (r: Result<Vec<(String, BseBasis)>, BseError>)
    ensures
        match writer_lookup(lowercase_of(lowercase_of(fmt@))) {
            None => r matches Err(BseError::ValueError(m)) && m@ == "Unknown basis set format '"@ + lowercase_of(fmt@) + "'"@,
            Some(w) => if all_known(elements_view(basis.elements@)) {
                r matches Ok(v) && v@.len() == basis.elements@.len() && forall|k: int| 0 <= k < v@.len() ==> {
                    let (z, e) = #[trigger] elements_view(basis.elements@)[k];
                    &&& v@[k].0@ == capitalize_spec(sym_spec(z as int)) + writer_row(w).extension
                    &&& single_element_basis(v@[k].1, z, e, basis.function_types.deep_view())
                }
            } else {
                r matches Err(BseError::ValueError(m)) && m@ == "Unknown atomic number"@
            },
        },
{
    let low = to_lowercase(fmt);
    let ext = get_format_extension(low.as_str())?;
    let ghost ev = elements_view(basis.elements@);
    let ghost w = writer_lookup(lowercase_of(lowercase_of(fmt@)))->0;
    let mut out: Vec<(String, BseBasis)> = Vec::new();
    let mut k: usize = 0;
    while k < basis.elements.len()
        invariant
            k <= basis.elements@.len(),
            ev == elements_view(basis.elements@),
            writer_lookup(lowercase_of(lowercase_of(fmt@))) == Some(w),
            ext@ == writer_row(w).extension,
            forall|q: int| 0 <= q < k ==> 1 <= #[trigger] ev[q].0 <= 118,
            out@.len() == k,
            forall|q: int| 0 <= q < k ==> {
                let (z, e) = #[trigger] ev[q];
                &&& out@[q].0@ == capitalize_spec(sym_spec(z as int)) + writer_row(w).extension
                &&& single_element_basis(out@[q].1, z, e, basis.function_types.deep_view())
            },
        decreases basis.elements.len() - k,
    {
        let z = basis.elements[k].0;
        assert(ev[k as int] == (z, basis.elements@[k as int].1@));
        let sym = match element_sym_from_Z_with_normalize(z) {
            Some(s) => s,
            None => {
                assert(!(1 <= ev[k as int].0 <= 118));
                assert(!all_known(ev));
                return Err(BseError::ValueError("Unknown atomic number".to_owned()));
            },
        };
        let mut name = sym;
        push_str(&mut name, ext);
        let b = single(z, &basis.elements[k].1, &basis.function_types);
        out.push((name, b));
        k = k + 1;
    }
    assert(all_known(ev));
    Ok(out)
}

} // verus!
