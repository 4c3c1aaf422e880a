//! Composing a basis set from its components.
//!
//! A basis set is stored as a table that names, for each element, an
//! element file; the element file names the component files whose data
//! make up the element. Reading those files is done outside this library,
//! in the order in which the composition needs them: this module merges
//! the components of an element ([`compose_element`]), derives the version
//! and the metadata file from the table's file name ([`basis_version`],
//! [`metadata_relpath`]), and assembles the basis set ([`assemble_basis`]).
use crate::error::BseError;
use crate::fields::{
    BseBasis, BseBasisElement, BseBasisReference, BseEcpElement, BseGtoElement, BseMolssiBseSchema, BseSkelComponentEcp,
    BseSkelComponentGto, BseSkelMetadata, BseSkelTable, ElementV, ReferenceV, elements_view, keys_increasing, pots_view,
    refs_view, shells_view,
};
use crate::text::{chars_of, insert_sorted, parse_i32, parse_i32_spec, sort_distinct_strs, string_of};
use vstd::prelude::*;

verus! {

/* #region file names */

/// The pieces of a text between the occurrences of `c` (empty pieces
/// included), as `str::split` gives them.
pub open spec fn split_char(s: Seq<char>, c: char) -> Seq<Seq<char>>
    decreases s.len(),
{
    if s.len() == 0 {
        seq![Seq::empty()]
    } else {
        let p = split_char(s.drop_last(), c);
        if s.last() == c {
            p.push(Seq::empty())
        } else {
            p.update(p.len() - 1, p.last().push(s.last()))
        }
    }
}

proof fn lemma_split_char_nonempty(s: Seq<char>, c: char)
    ensures
        split_char(s, c).len() >= 1,
    decreases s.len(),
{
    if s.len() > 0 {
        lemma_split_char_nonempty(s.drop_last(), c);
    }
}

/// Split a text at each occurrence of `c`.
pub(crate) fn split_at_char(s: &str, c: char) -> (r: Vec<Vec<char>>)
    ensures
        r@.len() >= 1,
        forall|i: int| 0 <= i < r@.len() ==> #[trigger] r@[i]@ == split_char(s@, c)[i],
        r@.len() == split_char(s@, c).len(),
{
    let v = chars_of(s);
    let mut r: Vec<Vec<char>> = vec![Vec::new()];
    let mut i: usize = 0;
    while i < v.len()
        invariant
            i <= v@.len(),
            v@ == s@,
            r@.len() >= 1,
            r@.len() == split_char(s@.take(i as int), c).len(),
            forall|k: int| 0 <= k < r@.len() ==> #[trigger] r@[k]@ == split_char(s@.take(i as int), c)[k],
        decreases v.len() - i,
    {
        assert(s@.take(i + 1).drop_last() =~= s@.take(i as int));
        let ghost p = split_char(s@.take(i as int), c);
        if v[i] == c {
            r.push(Vec::new());
        } else {
            let n = r.len();
            let mut last = r.pop().unwrap();
            last.push(v[i]);
            r.push(last);
            assert(r@.len() == n);
        }
        proof {
            let q = split_char(s@.take(i + 1), c);
            assert forall|k: int| 0 <= k < r@.len() implies #[trigger] r@[k]@ == q[k] by {}
        }
        i = i + 1;
    }
    assert(s@.take(v@.len() as int) =~= s@);
    r
}

/// The version of a basis set from the name of its table file: the third
/// piece from the end when the name is split at dots (`def2-TZVP.1.table.json`
/// gives 1), if there is one and it is a number.
pub open spec fn version_of(file_relpath: Seq<char>) -> Option<i32> {
    let p = split_char(file_relpath, '.');
    if p.len() >= 3 {
        parse_i32_spec(p[p.len() - 3])
    } else {
        None
    }
}

/// The version of a basis set from the name of its table file, or a
/// `DataError` when the name does not carry one.
pub fn basis_version(file_relpath: &str) -> (r: Result<i32, BseError>)
    ensures
        match version_of(file_relpath@) {
            Some(v) => r == Ok::<i32, BseError>(v),
            None => r matches Err(BseError::DataError(_)),
        },
{
    let p = split_at_char(file_relpath, '.');
    if p.len() >= 3 {
        let piece = &p[p.len() - 3];
        match parse_i32(piece.as_slice()) {
            Some(v) => {
                return Ok(v);
            },
            None => {},
        }
    }
    let mut m = "Version annotation not found in ".to_owned();
    crate::text::push_str(&mut m, file_relpath);
    Err(BseError::DataError(m))
}

/// The metadata file of a basis set: the part of its table file's name
/// before the first dot, with `.metadata.json`.
pub open spec fn metadata_path(file_relpath: Seq<char>) -> Seq<char> {
    split_char(file_relpath, '.')[0] + ".metadata.json"@
}

/// The name of the metadata file that goes with a table file.
pub fn metadata_relpath(file_relpath: &str) -> (r: String)
    ensures
        r@ == metadata_path(file_relpath@),
{
    let p = split_at_char(file_relpath, '.');
    let mut r = string_of(p[0].as_slice());
    crate::text::push_str(&mut r, ".metadata.json");
    r
}

/* #endregion */

/* #region elements */

/// A component file, as read: electron shells, potentials, or a file that
/// could be read as neither.
pub enum SkelComponent {
    Gto(BseSkelComponentGto),
    Ecp(BseSkelComponentEcp),
    Unreadable(String),
}

/// The position of atomic number `z` in a list keyed by atomic numbers.
pub open spec fn key_index<T>(v: Seq<(i32, T)>, z: i32) -> int {
    choose|i: int| 0 <= i < v.len() && v[i].0 == z
}

/// A list keyed by atomic numbers has `z`.
pub open spec fn has_key<T>(v: Seq<(i32, T)>, z: i32) -> bool {
    exists|i: int| 0 <= i < v.len() && (#[trigger] v[i]).0 == z
}

/// A component has data for element `z` (or is unreadable).
pub open spec fn component_has(c: SkelComponent, z: i32) -> bool {
    match c {
        SkelComponent::Gto(g) => has_key(g.elements@, z),
        SkelComponent::Ecp(e) => has_key(e.elements@, z),
        SkelComponent::Unreadable(_) => true,
    }
}

/// The data of element `z` in a GTO component.
pub open spec fn gto_of(g: BseSkelComponentGto, z: i32) -> BseGtoElement {
    g.elements@[key_index(g.elements@, z)].1
}

/// The data of element `z` in an ECP component.
pub open spec fn ecp_of(e: BseSkelComponentEcp, z: i32) -> BseEcpElement {
    e.elements@[key_index(e.elements@, z)].1
}

/// The element before any component.
pub open spec fn empty_element() -> ElementV {
    ElementV { references: Seq::empty(), shells: None, potentials: None, ecp_electrons: None }
}

/// One more component added to an element: its reference, and its shells
/// or potentials appended (the core electrons of potentials must agree).
/// `None` for an unreadable component or disagreeing core electrons.
pub open spec fn compose_step(e: ElementV, c: SkelComponent, z: i32) -> Option<ElementV> {
    match c {
        SkelComponent::Gto(g) => {
            let d = gto_of(g, z);
            let shells = shells_view(d.electron_shells@);
            Some(
                ElementV {
                    references: e.references.push(ReferenceV { description: g.description@, keys: d.references.deep_view() }),
                    shells: match e.shells {
                        None => Some(shells),
                        Some(s) => Some(s + shells),
                    },
                    ..e
                },
            )
        },
        SkelComponent::Ecp(x) => {
            let d = ecp_of(x, z);
            let pots = pots_view(d.ecp_potentials@);
            if e.ecp_electrons is Some && e.ecp_electrons->0 != d.ecp_electrons {
                None
            } else {
                Some(
                    ElementV {
                        references: e.references.push(ReferenceV { description: x.description@, keys: d.references.deep_view() }),
                        potentials: match e.potentials {
                            None => Some(pots),
                            Some(p) => Some(p + pots),
                        },
                        ecp_electrons: Some(d.ecp_electrons),
                        ..e
                    },
                )
            }
        },
        SkelComponent::Unreadable(_) => None,
    }
}

/// Element `z` composed from the first `n` components, or `None` when a
/// component is unreadable or the core electrons disagree.
pub open spec fn compose_spec(comps: Seq<SkelComponent>, z: i32, n: int) -> Option<ElementV>
    decreases n,
{
    if n <= 0 {
        Some(empty_element())
    } else {
        match compose_spec(comps, z, n - 1) {
            Some(e) => compose_step(e, comps[n - 1], z),
            None => None,
        }
    }
}

proof fn lemma_compose_none(comps: Seq<SkelComponent>, z: i32, k: int, n: int)
    requires
        0 <= k <= n,
        compose_spec(comps, z, k) is None,
    ensures
        compose_spec(comps, z, n) is None,
    decreases n - k,
{
    if k < n {
        lemma_compose_none(comps, z, k + 1, n);
    }
}

fn find_key_gto(v: &Vec<(i32, BseGtoElement)>, z: i32) -> (r: usize)
    requires
        has_key(v@, z),
    ensures
        r < v@.len(),
        v@[r as int].0 == z,
        forall|j: int| 0 <= j < r ==> v@[j].0 != z,
{
    let mut k: usize = 0;
    while k < v.len()
        invariant
            k <= v@.len(),
            has_key(v@, z),
            forall|j: int| 0 <= j < k ==> v@[j].0 != z,
        decreases v.len() - k,
    {
        if v[k].0 == z {
            return k;
        }
        k = k + 1;
    }
    k
}

fn find_key_ecp(v: &Vec<(i32, BseEcpElement)>, z: i32) -> (r: usize)
    requires
        has_key(v@, z),
    ensures
        r < v@.len(),
        v@[r as int].0 == z,
        forall|j: int| 0 <= j < r ==> v@[j].0 != z,
{
    let mut k: usize = 0;
    while k < v.len()
        invariant
            k <= v@.len(),
            has_key(v@, z),
            forall|j: int| 0 <= j < k ==> v@[j].0 != z,
        decreases v.len() - k,
    {
        if v[k].0 == z {
            return k;
        }
        k = k + 1;
    }
    k
}

/// Keys that occur once in a list keyed by atomic numbers, as in a map.
pub open spec fn unique_keys<T>(v: Seq<(i32, T)>) -> bool {
    forall|i: int, j: int| 0 <= i < j < v.len() ==> v[i].0 != v[j].0
}

/// A component file keyed by unique atomic numbers.
pub open spec fn component_wf(c: SkelComponent) -> bool {
    match c {
        SkelComponent::Gto(g) => unique_keys(g.elements@),
        SkelComponent::Ecp(e) => unique_keys(e.elements@),
        SkelComponent::Unreadable(_) => true,
    }
}

/// Compose element `z` from its components, in order: the reference of
/// each, its shells or potentials appended; a `DataError` for a component
/// that could not be read, or for potentials whose core electrons disagree
/// with the ones before.
pub fn compose_element(z: i32, components: &Vec<SkelComponent>) -> (r: Result<BseBasisElement, BseError>)
    requires
        forall|k: int| 0 <= k < components@.len() ==> component_has(#[trigger] components@[k], z),
        forall|k: int| 0 <= k < components@.len() ==> component_wf(#[trigger] components@[k]),
    ensures
        match compose_spec(components@, z, components@.len() as int) {
            Some(e) => r matches Ok(el) && el@ == e,
            None => r matches Err(BseError::DataError(_)),
        },
{
    let mut el = BseBasisElement::empty();
    assert(el@ == empty_element()) by {
        assert(el@.references =~= Seq::<ReferenceV>::empty());
    }
    let mut k: usize = 0;
    while k < components.len()
        invariant
            k <= components@.len(),
            forall|j: int| 0 <= j < components@.len() ==> component_has(#[trigger] components@[j], z),
            forall|j: int| 0 <= j < components@.len() ==> component_wf(#[trigger] components@[j]),
            compose_spec(components@, z, k as int) == Some(el@),
        decreases components.len() - k,
    {
        let ghost before = el@;
        assert(component_has(components@[k as int], z));
        assert(component_wf(components@[k as int]));
        match &components[k] {
            SkelComponent::Gto(g) => {
                let i = find_key_gto(&g.elements, z);
                proof {
                    let w = key_index(g.elements@, z);
                    if w != i as int {
                        if w < i {
                            assert(g.elements@[w].0 != z);
                        } else {
                            assert(g.elements@[w].0 != g.elements@[i as int].0);
                        }
                    }
                }
                let d = &g.elements[i].1;
                let mut refs = crate::fields::copy_strings(&d.references);
                let r = BseBasisReference { reference_description: g.description.clone(), reference_keys: refs };
                let ghost rv = r@;
                let ghost old_refs = refs_view(el.references@);
                el.references.push(r);
                assert(refs_view(el.references@) =~= old_refs.push(rv));
                let extra = crate::fields::copy_shells(&d.electron_shells);
                match el.electron_shells.take() {
                    None => {
                        el.electron_shells = Some(extra);
                    },
                    Some(mut s) => {
                        let ghost sv = shells_view(s@);
                        let ghost ev = shells_view(extra@);
                        let mut extra = extra;
                        let mut t: usize = 0;
                        let n = extra.len();
                        while t < n
                            invariant
                                t <= n,
                                n == ev.len(),
                                ev == shells_view(extra@),
                                shells_view(s@) =~= sv + ev.take(t as int),
                            decreases n - t,
                        {
                            let ghost b = shells_view(s@);
                            s.push(extra[t].copy());
                            assert(shells_view(s@) =~= b.push(ev[t as int]));
                            t = t + 1;
                        }
                        assert(ev.take(n as int) =~= ev);
                        el.electron_shells = Some(s);
                    },
                }
                assert(el@ == compose_step(before, components@[k as int], z)->0);
            },
            SkelComponent::Ecp(x) => {
                let i = find_key_ecp(&x.elements, z);
                proof {
                    let w = key_index(x.elements@, z);
                    if w != i as int {
                        if w < i {
                            assert(x.elements@[w].0 != z);
                        } else {
                            assert(x.elements@[w].0 != x.elements@[i as int].0);
                        }
                    }
                }
                let d = &x.elements[i].1;
                match el.ecp_electrons {
                    Some(n) => {
                        if n != d.ecp_electrons {
                            let mut m = "Internal bug: ECP electron not match (".to_owned();
                            let t = crate::text::i32_text(n);
                            crate::text::push_str(&mut m, t.as_str());
                            crate::text::push_str(&mut m, " != ");
                            let t2 = crate::text::i32_text(d.ecp_electrons);
                            crate::text::push_str(&mut m, t2.as_str());
                            crate::text::push_str(&mut m, ")");
                            proof {
                                assert(compose_spec(components@, z, k + 1) is None);
                                lemma_compose_none(components@, z, k + 1, components@.len() as int);
                            }
                            return Err(BseError::DataError(m));
                        }
                    },
                    None => {},
                }
                let refs = crate::fields::copy_strings(&d.references);
                let r = BseBasisReference { reference_description: x.description.clone(), reference_keys: refs };
                let ghost rv = r@;
                let ghost old_refs = refs_view(el.references@);
                el.references.push(r);
                assert(refs_view(el.references@) =~= old_refs.push(rv));
                let extra = crate::fields::copy_potentials(&d.ecp_potentials);
                match el.ecp_potentials.take() {
                    None => {
                        el.ecp_potentials = Some(extra);
                    },
                    Some(mut p) => {
                        let ghost pv = pots_view(p@);
                        let ghost ev = pots_view(extra@);
                        let n = extra.len();
                        let mut t: usize = 0;
                        while t < n
                            invariant
                                t <= n,
                                n == ev.len(),
                                ev == pots_view(extra@),
                                pots_view(p@) =~= pv + ev.take(t as int),
                            decreases n - t,
                        {
                            let ghost b = pots_view(p@);
                            p.push(extra[t].copy());
                            assert(pots_view(p@) =~= b.push(ev[t as int]));
                            t = t + 1;
                        }
                        assert(ev.take(n as int) =~= ev);
                        el.ecp_potentials = Some(p);
                    },
                }
                el.ecp_electrons = Some(d.ecp_electrons);
                assert(el@ == compose_step(before, components@[k as int], z)->0);
            },
            SkelComponent::Unreadable(path) => {
                let mut m = "Internal bug: read skeleton element json failed ".to_owned();
                crate::text::push_str(&mut m, path.as_str());
                proof {
                    lemma_compose_none(components@, z, k + 1, components@.len() as int);
                }
                return Err(BseError::DataError(m));
            },
        }
        k = k + 1;
    }
    Ok(el)
}

/* #endregion */

/* #region assembling */

/// How many entries of a keyed list have a key below `z`.
pub open spec fn count_key_lt(p: Seq<(i32, ElementV)>, z: i32) -> nat
    decreases p.len(),
{
    if p.len() == 0 {
        0
    } else {
        count_key_lt(p.drop_last(), z) + if p.last().0 < z {
            1nat
        } else {
            0nat
        }
    }
}

/// The entries of a keyed list in increasing order of key (an insertion
/// sort).
pub open spec fn sort_by_key(s: Seq<(i32, ElementV)>) -> Seq<(i32, ElementV)>
    decreases s.len(),
{
    if s.len() == 0 {
        Seq::empty()
    } else {
        let p = sort_by_key(s.drop_last());
        let c = count_key_lt(p, s.last().0) as int;
        p.take(c).push(s.last()) + p.skip(c)
    }
}

/// The function types of the shells of the elements, in order.
pub open spec fn shell_types(elems: Seq<(i32, ElementV)>) -> Seq<Seq<char>>
    decreases elems.len(),
{
    if elems.len() == 0 {
        Seq::empty()
    } else {
        shell_types(elems.drop_last()) + match elems.last().1.shells {
            Some(s) => s.map_values(|sh: crate::fields::ShellV| sh.function_type),
            None => Seq::empty(),
        }
    }
}

proof fn lemma_count_key_lt(p: Seq<(i32, ElementV)>, z: i32)
    ensures
        count_key_lt(p, z) <= p.len(),
    decreases p.len(),
{
    if p.len() > 0 {
        lemma_count_key_lt(p.drop_last(), z);
    }
}

pub(crate) proof fn lemma_count_key_split(p: Seq<(i32, ElementV)>, z: i32)
    requires
        keys_increasing(p),
    ensures
        count_key_lt(p, z) <= p.len(),
        forall|i: int| 0 <= i < count_key_lt(p, z) ==> (#[trigger] p[i]).0 < z,
        forall|i: int| count_key_lt(p, z) <= i < p.len() ==> (#[trigger] p[i]).0 >= z,
    decreases p.len(),
{
    if p.len() > 0 {
        let q = p.drop_last();
        assert(keys_increasing(q)) by {
            assert forall|i: int, j: int| 0 <= i < j < q.len() implies q[i].0 < q[j].0 by {
                assert(q[i] == p[i] && q[j] == p[j]);
            }
        }
        lemma_count_key_split(q, z);
        let c = count_key_lt(q, z);
        if p.last().0 < z {
            if c < q.len() {
                assert(p[c as int].0 < p[p.len() - 1].0);
                assert(q[c as int] == p[c as int]);
            }
            assert forall|i: int| 0 <= i < count_key_lt(p, z) implies (#[trigger] p[i]).0 < z by {
                if i < q.len() {
                    assert(q[i] == p[i]);
                }
            }
        } else {
            assert forall|i: int| 0 <= i < count_key_lt(p, z) implies (#[trigger] p[i]).0 < z by {
                assert(q[i] == p[i]);
            }
            assert forall|i: int| count_key_lt(p, z) <= i < p.len() implies (#[trigger] p[i]).0 >= z by {
                if i < q.len() {
                    assert(q[i] == p[i]);
                }
            }
        }
    }
}

/// The keys of the first `n` entries.
pub open spec fn keys_of(s: Seq<(i32, ElementV)>) -> Seq<i32> {
    s.map_values(|e: (i32, ElementV)| e.0)
}

proof fn lemma_sort_by_key(s: Seq<(i32, ElementV)>)
    requires
        forall|i: int, j: int| 0 <= i < j < s.len() ==> s[i].0 != s[j].0,
    ensures
        keys_increasing(sort_by_key(s)),
        sort_by_key(s).len() == s.len(),
        forall|i: int| 0 <= i < sort_by_key(s).len() ==> s.contains(#[trigger] sort_by_key(s)[i]),
    decreases s.len(),
{
    if s.len() > 0 {
        let q = s.drop_last();
        assert forall|i: int, j: int| 0 <= i < j < q.len() implies q[i].0 != q[j].0 by {
            assert(q[i] == s[i] && q[j] == s[j]);
        }
        lemma_sort_by_key(q);
        let p = sort_by_key(q);
        let x = s.last();
        lemma_count_key_split(p, x.0);
        let c = count_key_lt(p, x.0) as int;
        let r = p.take(c).push(x) + p.skip(c);
        assert(r == sort_by_key(s));
        assert forall|i: int| 0 <= i < r.len() implies #[trigger] r[i] == (if i < c {
            p[i]
        } else if i == c {
            x
        } else {
            p[i - 1]
        }) by {}
        assert forall|i: int| c <= i < p.len() implies (#[trigger] p[i]).0 > x.0 by {
            assert(q.contains(p[i]));
            let j = choose|j: int| 0 <= j < q.len() && q[j] == p[i];
            assert(s[j] == q[j]);
            assert(s[s.len() - 1] == x);
        }
        assert forall|i: int, j: int| 0 <= i < j < r.len() implies r[i].0 < r[j].0 by {
            if i < c && j < c {
                assert(p[i].0 < p[j].0);
            } else if i > c && j > c {
                assert(p[i - 1].0 < p[j - 1].0);
            } else if i < c && j > c {
                assert(p[i].0 < p[j - 1].0);
            }
        }
        assert forall|i: int| 0 <= i < r.len() implies s.contains(#[trigger] r[i]) by {
            if i == c {
                assert(s[s.len() - 1] == x);
            } else {
                let t = if i < c { i } else { i - 1 };
                assert(q.contains(p[t]));
                let j = choose|j: int| 0 <= j < q.len() && q[j] == p[t];
                assert(s[j] == q[j]);
            }
        }
    }
}

/// Assemble a basis set from its table, its composed elements (in the
/// table's order, each atomic number once), its version and its metadata:
/// the elements in increasing order of atomic number, the function types
/// of their shells (each once, in increasing order), and the name, names,
/// tags, family, description, role and auxiliaries of the metadata, whose
/// first name is the name of the basis set.
pub fn assemble_basis(
    table: BseSkelTable,
    elements: Vec<(i32, BseBasisElement)>,
    version: i32,
    metadata: BseSkelMetadata,
) -> (r: BseBasis)
    requires
        metadata.names@.len() > 0,
        forall|i: int, j: int| 0 <= i < j < elements@.len() ==> elements@[i].0 != elements@[j].0,
    ensures
        elements_view(r.elements@) == sort_by_key(elements_view(elements@)),
        keys_increasing(r.elements@),
        r.function_types.deep_view() == sort_distinct_strs(shell_types(elements_view(r.elements@))),
        r.version@ == crate::text::int_text(version as int),
        r.name@ == metadata.names@[0]@,
        r.names.deep_view() == metadata.names.deep_view(),
        r.revision_description@ == table.revision_description@,
        r.revision_date@ == table.revision_date@,
        r.family@ == metadata.family@,
        r.role@ == metadata.role@,
        r.description@ == metadata.description@,
        r.molssi_bse_schema.schema_type@ == "complete"@,
        r.molssi_bse_schema.schema_version@ == "0.1"@,
{
    let ghost ev = elements_view(elements@);
    proof {
        assert forall|i: int, j: int| 0 <= i < j < ev.len() implies ev[i].0 != ev[j].0 by {}
        lemma_sort_by_key(ev);
    }
    let mut sorted: Vec<(i32, BseBasisElement)> = Vec::new();
    let mut rest = elements;
    let ghost all = ev;
    let n = rest.len();
    let mut t: usize = 0;
    while t < n
        invariant
            t <= n,
            all.len() == n,
            rest@.len() == n - t,
            forall|u: int| 0 <= u < rest@.len() ==> (#[trigger] rest@[u].0, rest@[u].1@) == all[t + u],
            elements_view(sorted@) == sort_by_key(all.take(t as int)),
        decreases n - t,
    {
        let ghost before = rest@;
        let (z, el) = rest.remove(0);
        assert((z, el@) == all[t as int]);
        assert forall|u: int| 0 <= u < rest@.len() implies (#[trigger] rest@[u].0, rest@[u].1@) == all[t + 1 + u] by {
            assert(rest@[u] == before[u + 1]);
        }
        let ghost p = elements_view(sorted@);
        proof {
            lemma_count_key_lt(p, z);
            assert(all.take(t + 1).drop_last() =~= all.take(t as int));
        }
        let mut c: usize = 0;
        let mut j: usize = 0;
        while j < sorted.len()
            invariant
                j <= sorted@.len(),
                p == elements_view(sorted@),
                c == count_key_lt(p.take(j as int), z),
                c <= j,
            decreases sorted.len() - j,
        {
            assert(p.take(j + 1).drop_last() =~= p.take(j as int));
            assert(p[j as int].0 == sorted@[j as int].0);
            if sorted[j].0 < z {
                c = c + 1;
            }
            j = j + 1;
        }
        assert(p.take(sorted.len() as int) =~= p);
        let ghost old_s = sorted@;
        sorted.insert(c, (z, el));
        assert(elements_view(sorted@) =~= p.take(c as int).push(all[t as int]) + p.skip(c as int)) by {
            assert forall|u: int| 0 <= u < sorted@.len() implies elements_view(sorted@)[u] == (p.take(c as int).push(
                all[t as int],
            ) + p.skip(c as int))[u] by {
                if u < c {
                    assert(sorted@[u] == old_s[u]);
                } else if u > c {
                    assert(sorted@[u] == old_s[u - 1]);
                }
            }
        }
        t = t + 1;
    }
    assert(all.take(n as int) =~= all);
    let ghost sv = elements_view(sorted@);
    let mut types: Vec<String> = Vec::new();
    let mut i: usize = 0;
    while i < sorted.len()
        invariant
            i <= sorted@.len(),
            sv == elements_view(sorted@),
            types.deep_view() == sort_distinct_strs(shell_types(sv.take(i as int))),
        decreases sorted.len() - i,
    {
        assert(sv.take(i + 1).drop_last() =~= sv.take(i as int));
        assert(sv[i as int] == (sorted@[i as int].0, sorted@[i as int].1@));
        let ghost base = shell_types(sv.take(i as int));
        match &sorted[i].1.electron_shells {
            Some(shells) => {
                let ghost fts = shells_view(shells@).map_values(|sh: crate::fields::ShellV| sh.function_type);
                let mut k: usize = 0;
                while k < shells.len()
                    invariant
                        k <= shells@.len(),
                        fts == shells_view(shells@).map_values(|sh: crate::fields::ShellV| sh.function_type),
                        types.deep_view() == sort_distinct_strs(base + fts.take(k as int)),
                    decreases shells.len() - k,
                {
                    assert((base + fts.take(k + 1)).drop_last() =~= base + fts.take(k as int));
                    assert(fts[k as int] == shells@[k as int].function_type@);
                    insert_sorted(&mut types, shells[k].function_type.clone(), true);
                    k = k + 1;
                }
                assert(fts.take(shells@.len() as int) =~= fts);
                assert(shell_types(sv.take(i + 1)) =~= base + fts);
            },
            None => {
                assert(shell_types(sv.take(i + 1)) =~= base);
            },
        }
        i = i + 1;
    }
    assert(sv.take(sorted@.len() as int) =~= sv);
    assert(keys_increasing(sorted@)) by {
        assert(keys_increasing(sv));
        assert forall|i: int, j: int| 0 <= i < j < sorted@.len() implies sorted@[i].0 < sorted@[j].0 by {
            assert(sv[i].0 == sorted@[i].0 && sv[j].0 == sorted@[j].0);
        }
    }
    let name = metadata.names[0].clone();
    BseBasis {
        molssi_bse_schema: BseMolssiBseSchema { schema_type: "complete".to_owned(), schema_version: "0.1".to_owned() },
        revision_description: table.revision_description,
        revision_date: table.revision_date,
        elements: sorted,
        version: crate::text::i32_text(version),
        function_types: types,
        names: metadata.names,
        tags: metadata.tags,
        family: metadata.family,
        description: metadata.description,
        role: metadata.role,
        auxiliaries: metadata.auxiliaries,
        name,
    }
}

/* #endregion */

/* #region element selection */

/// The function types of the shells of a basis set's elements, each once,
/// in increasing order.
pub fn whole_basis_types(elements: &Vec<(i32, BseBasisElement)>) -> (r: Vec<String>)
    ensures
        r.deep_view() == sort_distinct_strs(shell_types(elements_view(elements@))),
{
    let ghost sv = elements_view(elements@);
    let mut types: Vec<String> = Vec::new();
    let mut i: usize = 0;
    while i < elements.len()
        invariant
            i <= elements@.len(),
            sv == elements_view(elements@),
            types.deep_view() == sort_distinct_strs(shell_types(sv.take(i as int))),
        decreases elements.len() - i,
    {
        assert(sv.take(i + 1).drop_last() =~= sv.take(i as int));
        assert(sv[i as int] == (elements@[i as int].0, elements@[i as int].1@));
        let ghost base = shell_types(sv.take(i as int));
        match &elements[i].1.electron_shells {
            Some(shells) => {
                let ghost fts = shells_view(shells@).map_values(|sh: crate::fields::ShellV| sh.function_type);
                let mut k: usize = 0;
                while k < shells.len()
                    invariant
                        k <= shells@.len(),
                        fts == shells_view(shells@).map_values(|sh: crate::fields::ShellV| sh.function_type),
                        types.deep_view() == sort_distinct_strs(base + fts.take(k as int)),
                    decreases shells.len() - k,
                {
                    assert((base + fts.take(k + 1)).drop_last() =~= base + fts.take(k as int));
                    assert(fts[k as int] == shells@[k as int].function_type@);
                    insert_sorted(&mut types, shells[k].function_type.clone(), true);
                    k = k + 1;
                }
                assert(fts.take(shells@.len() as int) =~= fts);
                assert(shell_types(sv.take(i + 1)) =~= base + fts);
            },
            None => {
                assert(shell_types(sv.take(i + 1)) =~= base);
            },
        }
        i = i + 1;
    }
    assert(sv.take(elements@.len() as int) =~= sv);
    types
}

/// The elements of `v` whose atomic number is in `keep`, in order.
pub open spec fn kept_elements(v: Seq<(i32, ElementV)>, keep: Seq<i32>) -> Seq<(i32, ElementV)>
    decreases v.len(),
{
    if v.len() == 0 {
        Seq::empty()
    } else {
        kept_elements(v.drop_last(), keep) + if keep.contains(v.last().0) {
            seq![v.last()]
        } else {
            Seq::empty()
        }
    }
}

/// Every atomic number of `keep` is one of the basis set's elements.
pub open spec fn all_present(v: Seq<(i32, ElementV)>, keep: Seq<i32>) -> bool {
    forall|i: int| 0 <= i < keep.len() ==> present(v, #[trigger] keep[i])
}

/// An element of atomic number `z` is in the list.
pub open spec fn present(v: Seq<(i32, ElementV)>, z: i32) -> bool {
    exists|j: int| 0 <= j < v.len() && v[j].0 == z
}

/// Keep only the requested elements of a basis set (all of them when the
/// request is empty) and update its function types; a `DataNotFound`
/// error, with the basis set unchanged, when a requested element is not in
/// the basis set.
pub fn select_elements(basis: &mut BseBasis, name: &str, elements: &Vec<i32>) -> (r: Result<(), BseError>)
    ensures
        elements@.len() == 0 ==> r is Ok && *final(basis) == *old(basis),
        elements@.len() > 0 && !all_present(elements_view(old(basis).elements@), elements@) ==> (r matches Err(
            BseError::DataNotFound(_),
        )),
        elements@.len() > 0 && !all_present(elements_view(old(basis).elements@), elements@) ==> *final(basis)
            == *old(basis),
        elements@.len() > 0 && all_present(elements_view(old(basis).elements@), elements@) ==> {
            &&& r is Ok
            &&& elements_view(final(basis).elements@) == kept_elements(elements_view(old(basis).elements@), elements@)
            &&& final(basis).function_types.deep_view() == sort_distinct_strs(
                shell_types(elements_view(final(basis).elements@)),
            )
        },
{
    if elements.len() == 0 {
        return Ok(());
    }
    let ghost ev = elements_view(basis.elements@);
    let ghost mut wit: Seq<int> = Seq::empty();
    let mut i: usize = 0;
    while i < elements.len()
        invariant
            i <= elements@.len(),
            ev == elements_view(basis.elements@),
            wit.len() == i,
            forall|t: int| 0 <= t < i ==> 0 <= #[trigger] wit[t] < ev.len() && ev[wit[t]].0 == elements@[t],
        decreases elements.len() - i,
    {
        let z = elements[i];
        let mut found: Option<usize> = None;
        let mut j: usize = 0;
        while j < basis.elements.len()
            invariant
                j <= basis.elements@.len(),
                ev == elements_view(basis.elements@),
                found matches Some(q) ==> q < ev.len() && ev[q as int].0 == z,
                found is None ==> forall|q: int| 0 <= q < j ==> ev[q].0 != z,
            decreases basis.elements.len() - j,
        {
            assert(ev[j as int].0 == basis.elements@[j as int].0);
            if basis.elements[j].0 == z {
                found = Some(j);
            }
            j = j + 1;
        }
        match found {
            Some(q) => {
                proof {
                    wit = wit.push(q as int);
                }
            },
            None => {
                assert(!all_present(ev, elements@)) by {
                    if all_present(ev, elements@) {
                        assert(present(ev, elements@[i as int]));
                    }
                }
                let mut m = "Elements not found in basis set `".to_owned();
                crate::text::push_str(&mut m, name);
                crate::text::push_str(&mut m, "`");
                return Err(BseError::DataNotFound(m));
            },
        }
        i = i + 1;
    }
    assert(all_present(ev, elements@)) by {
        assert forall|t: int| 0 <= t < elements@.len() implies present(ev, #[trigger] elements@[t]) by {
            assert(0 <= wit[t] < ev.len() && ev[wit[t]].0 == elements@[t]);
        }
    }
    let mut old_elements: Vec<(i32, BseBasisElement)> = Vec::new();
    std::mem::swap(&mut old_elements, &mut basis.elements);
    let mut kept: Vec<(i32, BseBasisElement)> = Vec::new();
    let mut rest = old_elements;
    let n = rest.len();
    let mut t: usize = 0;
    while t < n
        invariant
            t <= n,
            ev.len() == n,
            rest@.len() == n - t,
            forall|u: int| 0 <= u < rest@.len() ==> (#[trigger] rest@[u].0, rest@[u].1@) == ev[t + u],
            elements_view(kept@) == kept_elements(ev.take(t as int), elements@),
        decreases n - t,
    {
        let ghost before = rest@;
        let (z, el) = rest.remove(0);
        assert((z, el@) == ev[t as int]);
        assert forall|u: int| 0 <= u < rest@.len() implies (#[trigger] rest@[u].0, rest@[u].1@) == ev[t + 1 + u] by {
            assert(rest@[u] == before[u + 1]);
        }
        assert(ev.take(t + 1).drop_last() =~= ev.take(t as int));
        let mut want = false;
        let mut q: usize = 0;
        while q < elements.len()
            invariant
                q <= elements@.len(),
                want == elements@.take(q as int).contains(z),
            decreases elements.len() - q,
        {
            assert(elements@.take(q + 1).drop_last() =~= elements@.take(q as int));
            if elements[q] == z {
                want = true;
                assert(elements@.take(q + 1)[q as int] == z);
            } else {
                assert forall|w: int| 0 <= w < q + 1 && #[trigger] elements@.take(q + 1)[w] == z implies elements@.take(
                    q as int,
                ).contains(z) by {
                    assert(elements@.take(q as int)[w] == elements@.take(q + 1)[w]);
                }
            }
            q = q + 1;
        }
        assert(elements@.take(elements@.len() as int) =~= elements@);
        let ghost kb = elements_view(kept@);
        if want {
            kept.push((z, el));
            assert(elements_view(kept@) =~= kb.push((z, el@)));
        }
        assert(elements_view(kept@) =~= kept_elements(ev.take(t + 1), elements@));
        t = t + 1;
    }
    assert(ev.take(n as int) =~= ev);
    basis.elements = kept;
    basis.function_types = whole_basis_types(&basis.elements);
    Ok(())
}

/* #endregion */

} // verus!
