//! The information the command-line interface gives about a basis set: its
//! summary, its family, its versions, and the list of families, all taken
//! from the metadata of the basis sets.
use crate::api::{find_basis, first_index, get_families, family_names, lemma_first_index_range, meta_keys};
use crate::cli::common::{format_columns, format_columns_spec, format_map_columns, key_sorted, pair_rows, pairs_view, widths_fit};
use crate::error::BseError;
use crate::fields::{AuxV, BseAuxiliary, BseRootMetadata, BseRootMetadataVer, MetaV, VerV, metadata_view};
use crate::misc::{all_known_z, compact_elements, compact_spec, escape_name, transform_basis_name};
use crate::text::{chars_of, join, join_spec, lowercase_of, parse_i32, parse_i32_spec, push_str, sort_distinct_strs};
use vstd::prelude::*;

verus! {

/* #region specification */

/// The atomic numbers of a version's element texts that read as integers,
/// in order.
pub open spec fn parsed_zs(es: Seq<Seq<char>>) -> Seq<i32>
    decreases es.len(),
{
    if es.len() == 0 {
        Seq::empty()
    } else {
        let p = parsed_zs(es.drop_last());
        match parse_i32_spec(es.last()) {
            Some(z) => p.push(z),
            None => p,
        }
    }
}

/// The text of an auxiliary basis reference: its name, or its names
/// separated by commas.
pub open spec fn aux_text(a: AuxV) -> Seq<char> {
    match a {
        AuxV::Str(s) => s,
        AuxV::Vec(v) => join_spec(v, ", "@),
    }
}

/// The auxiliary basis sets as role and text.
pub open spec fn aux_pairs(a: Seq<(Seq<char>, AuxV)>) -> Seq<(Seq<char>, Seq<char>)> {
    a.map_values(|e: (Seq<char>, AuxV)| (e.0, aux_text(e.1)))
}

/// The versions as rows: version, date, elements in compact form,
/// description.
pub open spec fn version_rows(v: Seq<(Seq<char>, VerV)>) -> Seq<Seq<Seq<char>>> {
    v.map_values(|e: (Seq<char>, VerV)| seq![e.0, e.1.revdate, compact_spec(parsed_zs(e.1.elements)), e.1.revdesc])
}

/// The versions as version and description.
pub open spec fn version_pairs(v: Seq<(Seq<char>, VerV)>) -> Seq<(Seq<char>, Seq<char>)> {
    v.map_values(|e: (Seq<char>, VerV)| (e.0, e.1.revdesc))
}

/// What the summary of a basis set needs: the element numbers of its
/// versions are known elements, and its listings fit the column widths.
pub open spec fn info_fit(m: MetaV) -> bool {
    &&& forall|k: int| 0 <= k < m.versions.len() ==> all_known_z(parsed_zs(#[trigger] m.versions[k].1.elements))
    &&& widths_fit(pair_rows(aux_pairs(m.auxiliaries)))
    &&& widths_fit(version_rows(m.versions))
}

/// A rule of 80 dashes.
pub open spec fn rule80() -> Seq<char> {
    Seq::new(80, |i: int| '-')
}

/// The summary of a basis set called `name`: its names, description,
/// role, family, function types and latest version; its auxiliary basis
/// sets, sorted by role; its versions with date, elements and description.
pub open spec fn info_lines_spec(name: Seq<char>, m: MetaV) -> Seq<Seq<char>> {
    seq![
        rule80(),
        name,
        rule80(),
        "    Display Name: "@ + m.display_name,
        "     Description: "@ + m.description,
        "            Role: "@ + m.role,
        "          Family: "@ + m.family,
        "  Function Types: "@ + join_spec(m.function_types, ","@),
        "  Latest Version: "@ + m.latest_version,
        Seq::<char>::empty(),
    ] + (if m.auxiliaries.len() == 0 {
        seq!["Auxiliary Basis Sets: None"@]
    } else {
        seq!["Auxiliary Basis Sets:"@] + format_columns_spec(pair_rows(key_sorted(aux_pairs(m.auxiliaries))), "    "@)
    }) + seq![Seq::<char>::empty(), "Versions:"@] + format_columns_spec(version_rows(m.versions), "    "@)
}

/// The message for a basis set that is not in the metadata.
pub open spec fn missing_msg(name: Seq<char>) -> Seq<char> {
    "Basis set '"@ + name + "' does not exist."@
}

/// The index of the basis set called `name` (in any case) in the metadata.
pub open spec fn info_index(m: Seq<(Seq<char>, MetaV)>, name: Seq<char>) -> Option<int> {
    first_index(meta_keys(m), escape_name(lowercase_of(name)))
}

/* #endregion */

fn missing(name: &str) -> (e: BseError)
    ensures
        e matches BseError::ValueError(m) && m@ == missing_msg(name@),
{
    let mut m = "Basis set '".to_owned();
    push_str(&mut m, name);
    push_str(&mut m, "' does not exist.");
    BseError::ValueError(m)
}

fn locate(name: &str, metadata: &Vec<(String, BseRootMetadata)>) -> (r: Result<usize, BseError>)
    ensures
        match info_index(metadata_view(metadata@), name@) {
            Some(i) => r matches Ok(j) && j as int == i && 0 <= i < metadata@.len(),
            None => r matches Err(BseError::ValueError(m)) && m@ == missing_msg(name@),
        },
{
    let key = transform_basis_name(name);
    let k = chars_of(key.as_str());
    match find_basis(metadata, k.as_slice()) {
        Some(i) => {
            proof {
                lemma_first_index_range(meta_keys(metadata_view(metadata@)), k@, metadata@.len() as int);
            }
            Ok(i)
        },
        None => Err(missing(name)),
    }
}

/// The family of the basis set called `name` (in any case); a `ValueError`
/// when no basis set has that name.
pub fn basis_family(name: &str, metadata: &Vec<(String, BseRootMetadata)>) -> (r: Result<String, BseError>)
    ensures
        match info_index(metadata_view(metadata@), name@) {
            Some(i) => r matches Ok(f) && f@ == metadata_view(metadata@)[i].1.family,
            None => r matches Err(BseError::ValueError(m)) && m@ == missing_msg(name@),
        },
{
    let i = match locate(name, metadata) {
        Ok(i) => i,
        Err(e) => {
            return Err(e);
        },
    };
    assert(metadata_view(metadata@)[i as int].1 == metadata@[i as int].1@);
    Ok(metadata[i].1.family.clone())
}

/// The families of all basis sets, one per line, sorted and each once.
pub fn families_text(metadata: &Vec<(String, BseRootMetadata)>) -> (r: String)
    ensures
        r@ == join_spec(sort_distinct_strs(family_names(metadata_view(metadata@))), "\n"@),
{
    join(&get_families(metadata), "\n")
}

fn zs_of(es: &Vec<String>) -> (r: Vec<i32>)
    ensures
        r@ == parsed_zs(es.deep_view()),
{
    let ghost ev = es.deep_view();
    let mut r: Vec<i32> = Vec::new();
    let mut k: usize = 0;
    while k < es.len()
        invariant
            k <= es@.len(),
            ev == es.deep_view(),
            r@ == parsed_zs(ev.take(k as int)),
        decreases es.len() - k,
    {
        assert(ev.take(k + 1).drop_last() =~= ev.take(k as int));
        assert(ev[k as int] == es@[k as int]@);
        match parse_i32(chars_of(es[k].as_str()).as_slice()) {
            Some(z) => {
                r.push(z);
            },
            None => {},
        }
        k = k + 1;
    }
    assert(ev.take(es@.len() as int) =~= ev);
    r
}

/// The versions of the basis set called `name` (in any case): one per line,
/// or, with descriptions, version and description in aligned columns
/// sorted by version; a `ValueError` when no basis set has that name.
pub fn basis_versions_lines(name: &str, metadata: &Vec<(String, BseRootMetadata)>, no_description: bool) -> (r: Result<Vec<String>, BseError>)
    requires
        forall|i: int| 0 <= i < metadata@.len() ==> widths_fit(pair_rows(version_pairs(#[trigger] metadata_view(metadata@)[i].1.versions))),
    ensures
        match info_index(metadata_view(metadata@), name@) {
            Some(i) => r matches Ok(v) && v.deep_view() == (if no_description {
                metadata_view(metadata@)[i].1.versions.map_values(|e: (Seq<char>, VerV)| e.0)
            } else {
                format_columns_spec(pair_rows(key_sorted(version_pairs(metadata_view(metadata@)[i].1.versions))), ""@)
            }),
            None => r matches Err(BseError::ValueError(m)) && m@ == missing_msg(name@),
        },
{
    let i = match locate(name, metadata) {
        Ok(i) => i,
        Err(e) => {
            return Err(e);
        },
    };
    let vs = &metadata[i].1.versions;
    let ghost mv = metadata_view(metadata@);
    assert(mv[i as int].1 == metadata@[i as int].1@);
    assert(mv[i as int].1.versions == crate::fields::versions_view(vs@));
    if no_description {
        let mut r: Vec<String> = Vec::new();
        let mut k: usize = 0;
        while k < vs.len()
            invariant
                k <= vs@.len(),
                r.deep_view() == crate::fields::versions_view(vs@).map_values(|e: (Seq<char>, VerV)| e.0).take(k as int),
            decreases vs.len() - k,
        {
            let ghost o = r.deep_view();
            r.push(vs[k].0.clone());
            assert(r.deep_view() =~= o.push(vs@[k as int].0@));
            assert(r.deep_view() =~= crate::fields::versions_view(vs@).map_values(|e: (Seq<char>, VerV)| e.0).take(k + 1));
            k = k + 1;
        }
        assert(crate::fields::versions_view(vs@).map_values(|e: (Seq<char>, VerV)| e.0).take(vs@.len() as int)
            =~= crate::fields::versions_view(vs@).map_values(|e: (Seq<char>, VerV)| e.0));
        Ok(r)
    } else {
        let mut items: Vec<(String, String)> = Vec::new();
        let mut k: usize = 0;
        while k < vs.len()
            invariant
                k <= vs@.len(),
                pairs_view(items@) == version_pairs(crate::fields::versions_view(vs@)).take(k as int),
            decreases vs.len() - k,
        {
            let ghost o = pairs_view(items@);
            items.push((vs[k].0.clone(), vs[k].1.revdesc.clone()));
            assert(pairs_view(items@) =~= o.push((vs@[k as int].0@, vs@[k as int].1.revdesc@)));
            assert(pairs_view(items@) =~= version_pairs(crate::fields::versions_view(vs@)).take(k + 1));
            k = k + 1;
        }
        assert(version_pairs(crate::fields::versions_view(vs@)).take(vs@.len() as int) =~= version_pairs(crate::fields::versions_view(vs@)));
        Ok(format_map_columns(items.as_slice(), ""))
    }
}

fn aux_text_of(a: &BseAuxiliary) -> (r: String)
    ensures
        r@ == aux_text(a@),
{
    match a {
        BseAuxiliary::Str(s) => s.clone(),
        BseAuxiliary::Vec(v) => join(v, ", "),
    }
}

fn append(out: &mut Vec<String>, more: &Vec<String>)
    ensures
        final(out).deep_view() == old(out).deep_view() + more.deep_view(),
{
    let ghost before = out.deep_view();
    let mut k: usize = 0;
    while k < more.len()
        invariant
            k <= more@.len(),
            out.deep_view() == before + more.deep_view().take(k as int),
        decreases more.len() - k,
    {
        let ghost o = out.deep_view();
        out.push(more[k].clone());
        assert(out.deep_view() =~= o.push(more@[k as int]@));
        assert(out.deep_view() =~= before + more.deep_view().take(k + 1));
        k = k + 1;
    }
    assert(more.deep_view().take(more@.len() as int) =~= more.deep_view());
}

/// The first lines of the summary.
pub open spec fn info_head(name: Seq<char>, m: MetaV) -> Seq<Seq<char>> {
    seq![
        rule80(),
        name,
        rule80(),
        "    Display Name: "@ + m.display_name,
        "     Description: "@ + m.description,
        "            Role: "@ + m.role,
        "          Family: "@ + m.family,
        "  Function Types: "@ + join_spec(m.function_types, ","@),
        "  Latest Version: "@ + m.latest_version,
        Seq::<char>::empty(),
    ]
}

/// The lines of the summary on the auxiliary basis sets.
pub open spec fn info_aux(m: MetaV) -> Seq<Seq<char>> {
    if m.auxiliaries.len() == 0 {
        seq!["Auxiliary Basis Sets: None"@]
    } else {
        seq!["Auxiliary Basis Sets:"@] + format_columns_spec(pair_rows(key_sorted(aux_pairs(m.auxiliaries))), "    "@)
    }
}

fn head_lines(name: &str, md: &BseRootMetadata) -> (r: Vec<String>)
    ensures
        r.deep_view() == info_head(name@, md@),
{
    let mut rule = String::new();
    let mut q: usize = 0;
    while q < 80
        invariant
            q <= 80,
            rule@ == Seq::new(q as nat, |j: int| '-'),
        decreases 80 - q,
    {
        crate::text::push_char(&mut rule, '-');
        assert(rule@ =~= Seq::new((q + 1) as nat, |j: int| '-'));
        q = q + 1;
    }
    let mut out: Vec<String> = Vec::new();
    out.push(rule.clone());
    out.push(name.to_owned());
    out.push(rule);
    let mut l = "    Display Name: ".to_owned();
    push_str(&mut l, md.display_name.as_str());
    out.push(l);
    let mut l = "     Description: ".to_owned();
    push_str(&mut l, md.description.as_str());
    out.push(l);
    let mut l = "            Role: ".to_owned();
    push_str(&mut l, md.role.as_str());
    out.push(l);
    let mut l = "          Family: ".to_owned();
    push_str(&mut l, md.family.as_str());
    out.push(l);
    let mut l = "  Function Types: ".to_owned();
    let ft = join(&md.function_types, ",");
    push_str(&mut l, ft.as_str());
    out.push(l);
    let mut l = "  Latest Version: ".to_owned();
    push_str(&mut l, md.latest_version.as_str());
    out.push(l);
    out.push(String::new());
    proof {
        reveal_strlit("");
        assert(out.deep_view() =~= info_head(name@, md@));
    }
    out
}

fn aux_lines(md: &BseRootMetadata) -> (r: Vec<String>)
    requires
        widths_fit(pair_rows(aux_pairs(md@.auxiliaries))),
    ensures
        r.deep_view() == info_aux(md@),
{
    let ghost m = md@;
    let mut out: Vec<String> = Vec::new();
    if md.auxiliaries.len() == 0 {
        out.push("Auxiliary Basis Sets: None".to_owned());
        assert(out.deep_view() =~= info_aux(m));
        return out;
    }
    out.push("Auxiliary Basis Sets:".to_owned());
    let mut items: Vec<(String, String)> = Vec::new();
    let mut k: usize = 0;
    while k < md.auxiliaries.len()
        invariant
            k <= md.auxiliaries@.len(),
            m == md@,
            pairs_view(items@) == aux_pairs(m.auxiliaries).take(k as int),
        decreases md.auxiliaries.len() - k,
    {
        let t = aux_text_of(&md.auxiliaries[k].1);
        let ghost o = pairs_view(items@);
        items.push((md.auxiliaries[k].0.clone(), t));
        assert(pairs_view(items@) =~= o.push((md.auxiliaries@[k as int].0@, aux_text(md.auxiliaries@[k as int].1@))));
        assert(pairs_view(items@) =~= aux_pairs(m.auxiliaries).take(k + 1));
        k = k + 1;
    }
    assert(aux_pairs(m.auxiliaries).take(md.auxiliaries@.len() as int) =~= aux_pairs(m.auxiliaries));
    let cols = format_map_columns(items.as_slice(), "    ");
    append(&mut out, &cols);
    assert(out.deep_view() =~= info_aux(m));
    out
}

fn version_lines(md: &BseRootMetadata) -> (r: Vec<String>)
    requires
        info_fit(md@),
    ensures
        r.deep_view() == format_columns_spec(version_rows(md@.versions), "    "@),
{
    let ghost m = md@;
    let mut rows: Vec<Vec<String>> = Vec::new();
    let vs = &md.versions;
    let mut k: usize = 0;
    while k < vs.len()
        invariant
            k <= vs@.len(),
            m == md@,
            vs == &md.versions,
            info_fit(m),
            rows.deep_view() == version_rows(m.versions).take(k as int),
        decreases vs.len() - k,
    {
        let zs = zs_of(&vs[k].1.elements);
        assert(m.versions[k as int].1.elements == vs@[k as int].1.elements.deep_view());
        assert(all_known_z(parsed_zs(m.versions[k as int].1.elements)));
        let c = compact_elements(zs.as_slice());
        let row = vec![vs[k].0.clone(), vs[k].1.revdate.clone(), c, vs[k].1.revdesc.clone()];
        let ghost o = rows.deep_view();
        assert(row.deep_view() =~= version_rows(m.versions)[k as int]);
        rows.push(row);
        assert(rows.deep_view() =~= o.push(version_rows(m.versions)[k as int]));
        assert(rows.deep_view() =~= version_rows(m.versions).take(k + 1));
        k = k + 1;
    }
    assert(version_rows(m.versions).take(vs@.len() as int) =~= version_rows(m.versions));
    format_columns(rows.as_slice(), "    ")
}

/// The summary of the basis set called `name` (in any case), line by line
/// (see [`info_lines_spec`]); a `ValueError` when no basis set has that
/// name.
pub fn basis_info_lines(name: &str, metadata: &Vec<(String, BseRootMetadata)>) -> (r: Result<Vec<String>, BseError>)
    requires
        forall|i: int| 0 <= i < metadata@.len() ==> info_fit(#[trigger] metadata_view(metadata@)[i].1),
    ensures
        match info_index(metadata_view(metadata@), name@) {
            Some(i) => r matches Ok(v) && v.deep_view() == info_lines_spec(name@, metadata_view(metadata@)[i].1),
            None => r matches Err(BseError::ValueError(m)) && m@ == missing_msg(name@),
        },
{
    let i = match locate(name, metadata) {
        Ok(i) => i,
        Err(e) => {
            return Err(e);
        },
    };
    let md = &metadata[i].1;
    assert(metadata_view(metadata@)[i as int].1 == md@);
    assert(info_fit(md@));
    let mut out = head_lines(name, md);
    let a = aux_lines(md);
    append(&mut out, &a);
    let mut mid: Vec<String> = Vec::new();
    mid.push(String::new());
    mid.push("Versions:".to_owned());
    proof {
        reveal_strlit("");
        assert(mid.deep_view() =~= seq![Seq::<char>::empty(), "Versions:"@]);
    }
    append(&mut out, &mid);
    let v = version_lines(md);
    append(&mut out, &v);
    assert(out.deep_view() =~= info_lines_spec(name@, md@));
    Ok(out)
}

} // verus!
