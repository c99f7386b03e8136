//! Over-representation analysis of one interest list against a reference list.
//! The reference is the population: the interest list and each set of the catalog
//! are restricted to it before they are counted, and a set with no member in it
//! is left out.
use vstd::prelude::*;

use crate::analytes::{
    collect_set, keep_members, members, set_into_vec, set_len, unique_analytes, views,
};
use webgestalt_lib::methods::ora::{ORAConfig, ORAResult};
use webgestalt_lib::readers::utils::Item;

verus! {

#[verifier::external_type_specification]
pub struct ExItem(webgestalt_lib::readers::utils::Item);

#[verifier::external_type_specification]
pub struct ExOraResult(webgestalt_lib::methods::ora::ORAResult);

#[verifier::external_type_specification]
#[verifier::external_body]
pub struct ExOraConfig(webgestalt_lib::methods::ora::ORAConfig);

/// Why a catalog cannot be tested against an interest list and a reference list.
#[derive(Debug, Clone, Copy, PartialEq, Eq, Structural)]
pub enum OraError {
    /// The reference population is empty.
    EmptyReference,
}

/// A set of the catalog, as its identifier and the identifiers of its entries.
pub open spec fn set_model(item: Item) -> (Seq<char>, Seq<Seq<char>>) {
    (item.id@, views(item.parts@))
}

/// A catalog, as the model of each of its sets, in order.
pub open spec fn catalog(gmt: Seq<Item>) -> Seq<(Seq<char>, Seq<Seq<char>>)> {
    gmt.map_values(|item: Item| set_model(item))
}

/// The number of positions of `parts` whose identifier lies in `s`.
pub open spec fn count_in(parts: Seq<Seq<char>>, s: Set<Seq<char>>) -> nat
    decreases parts.len(),
{
    if parts.len() == 0 {
        0
    } else {
        count_in(parts.drop_last(), s) + if s.contains(parts.last()) {
            1nat
        } else {
            0nat
        }
    }
}

/// The hypergeometric distribution of a set exists: where the set meets the
/// interest list, neither its entries in the reference nor the interest list
/// outnumber the reference.
pub open spec fn test_defined(
    set: (Seq<char>, Seq<Seq<char>>),
    interest: Set<Seq<char>>,
    reference: Set<Seq<char>>,
) -> bool {
    count_in(set.1, interest) > 0 ==> (count_in(set.1, reference) <= reference.len()
        && interest.len() <= reference.len())
}

/// `v` holds one result per set of the catalog, in catalog order, each with the
/// set's identifier and the number of its entries found in `interest`.
pub open spec fn engine_results(
    cat: Seq<(Seq<char>, Seq<Seq<char>>)>,
    interest: Set<Seq<char>>,
    v: Seq<ORAResult>,
) -> bool {
    &&& v.len() == cat.len()
    &&& forall|i: int|
        0 <= i < v.len() ==> (#[trigger] v[i]).set@ == cat[i].0 && v[i].overlap == count_in(
            cat[i].1,
            interest,
        )
}

/// Relies on `webgestalt_lib`'s `get_ora`: it maps each set of the catalog, in
/// order, to a result whose overlap counts the set's entries found in the interest
/// list. It unwraps `statrs`'s `Hypergeometric::new`, which refuses more
/// successes or draws than the population: `requires` leaves those sets out.
pub assume_specification[ webgestalt_lib::methods::ora::get_ora ](
    interest_list: &ahash::AHashSet<String>,
    reference: &ahash::AHashSet<String>,
    gmt: Vec<Item>,
    config: ORAConfig,
) -> (r: Vec<ORAResult>)
    requires
        forall|i: int|
            0 <= i < gmt.len() ==> test_defined(
                #[trigger] catalog(gmt@)[i],
                members(*interest_list),
                members(*reference),
            ),
    ensures
        engine_results(catalog(gmt@), members(*interest_list), r@),
;

/// Relies on the `Clone` that `Item` derives: each field is cloned.
pub assume_specification[ <webgestalt_lib::readers::utils::Item as Clone>::clone ](
    item: &Item,
) -> (r: Item)
    ensures
        r.id@ == item.id@,
        r.url@ == item.url@,
        r.parts@ == item.parts@,
;

/// Relies on `ORAConfig`'s `Default`: the configuration that `get_ora` is run with.
pub assume_specification[ <webgestalt_lib::methods::ora::ORAConfig as Default>::default ]() -> (r:
    ORAConfig);

/// The distinct members of a set that lie in the reference.
pub open spec fn in_reference(
    set: (Seq<char>, Seq<Seq<char>>),
    reference: Set<Seq<char>>,
) -> Set<Seq<char>> {
    set.1.to_set().intersect(reference)
}

/// The sets of a catalog that have a member in the reference, in catalog order.
pub open spec fn kept(
    cat: Seq<(Seq<char>, Seq<Seq<char>>)>,
    reference: Set<Seq<char>>,
) -> Seq<(Seq<char>, Seq<Seq<char>>)>
    decreases cat.len(),
{
    if cat.len() == 0 {
        Seq::empty()
    } else {
        let k = kept(cat.drop_last(), reference);
        if in_reference(cat.last(), reference).len() > 0 {
            k.push(cat.last())
        } else {
            k
        }
    }
}

/// `v` holds one result for each set of the catalog that has a member in the
/// reference, in catalog order, each with the set's identifier and its overlap:
/// the number of its distinct members in both the reference and the interest list.
pub open spec fn ora_results(
    cat: Seq<(Seq<char>, Seq<Seq<char>>)>,
    interest: Set<Seq<char>>,
    reference: Set<Seq<char>>,
    v: Seq<ORAResult>,
) -> bool {
    let k = kept(cat, reference);
    &&& v.len() == k.len()
    &&& forall|i: int|
        0 <= i < v.len() ==> (#[trigger] v[i]).set@ == k[i].0 && v[i].overlap == in_reference(
            k[i],
            reference,
        ).intersect(interest).len()
}

/// `r` is the outcome of an analysis of the catalog `cat` against the interest set
/// and the reference set: an error exactly when the reference is empty, and the
/// results of the sets otherwise.
pub open spec fn ora_outcome(
    cat: Seq<(Seq<char>, Seq<Seq<char>>)>,
    interest: Set<Seq<char>>,
    reference: Set<Seq<char>>,
    r: Result<Vec<ORAResult>, OraError>,
) -> bool {
    &&& reference.finite()
    &&& match r {
        Ok(v) => reference.len() > 0 && ora_results(cat, interest, reference, v@),
        Err(OraError::EmptyReference) => reference.len() == 0,
    }
}

/// Where a set lists each member once, its count of entries in `s` is the size of
/// its intersection with `s`.
pub proof fn lemma_count_in_distinct(parts: Seq<Seq<char>>, s: Set<Seq<char>>)
    requires
        parts.no_duplicates(),
    ensures
        count_in(parts, s) == parts.to_set().intersect(s).len(),
    decreases parts.len(),
{
    broadcast use vstd::seq_lib::seq_to_set_is_finite;

    if parts.len() == 0 {
        assert(parts.to_set().intersect(s) =~= Set::empty());
    } else {
        let rest = parts.drop_last();
        let x = parts.last();
        assert(rest.no_duplicates());
        lemma_count_in_distinct(rest, s);
        assert(parts =~= rest.push(x));
        assert(parts.to_set() =~= rest.to_set().insert(x));
        assert(!rest.to_set().contains(x)) by {
            if rest.to_set().contains(x) {
                let i = choose|i: int| 0 <= i < rest.len() && rest[i] == x;
                assert(parts[i] == parts[parts.len() - 1]);
            }
        }
        if s.contains(x) {
            assert(parts.to_set().intersect(s) =~= rest.to_set().intersect(s).insert(x));
        } else {
            assert(parts.to_set().intersect(s) =~= rest.to_set().intersect(s));
        }
    }
}

/// The set `item` reduced to its distinct members in the reference.
fn restrict_set(item: &Item, reference: &ahash::AHashSet<String>) -> (r: Item)
    ensures
        r.id@ == item.id@,
        views(r.parts@).no_duplicates(),
        views(r.parts@).to_set() == in_reference(set_model(*item), members(*reference)),
{
    let inside = keep_members(&item.parts, reference);
    let parts = unique_analytes(inside);
    Item { id: item.id.clone(), url: item.url.clone(), parts }
}

/// Over-representation analysis of each set of the catalog, with the interest
/// and reference populations given as sets. The interest set is restricted to the
/// reference, and each set to its distinct members in the reference; a set with no
/// such member is left out. The p-values are right-tailed hypergeometric, adjusted
/// by Benjamini-Hochberg. Where the interest set misses the reference, every
/// expected overlap is zero, every overlap is zero too, and the enrichment ratio is
/// NaN, the value that stands for "not computable".
pub fn ora_with_sets(
    gmt: Vec<Item>,
    interest: ahash::AHashSet<String>,
    reference: ahash::AHashSet<String>,
) -> (r: Result<Vec<ORAResult>, OraError>)
    ensures
        ora_outcome(catalog(gmt@), members(interest), members(reference), r),
{
    broadcast use vstd::seq_lib::seq_to_set_is_finite;

    let ghost big_r = members(reference);
    let ghost big_i = members(interest);
    let reference_list = set_into_vec(reference);
    let reference = collect_set(reference_list);
    if set_len(&reference) == 0 {
        return Err(OraError::EmptyReference);
    }
    let interest_list = set_into_vec(interest);
    let shared_list = keep_members(&interest_list, &reference);
    let shared = collect_set(shared_list);
    let ghost cat = catalog(gmt@);
    let mut restricted: Vec<Item> = Vec::new();
    let mut i: usize = 0;
    while i < gmt.len()
        invariant
            i <= gmt.len(),
            cat == catalog(gmt@),
            members(reference) == big_r,
            big_r.finite(),
            restricted.len() == kept(cat.take(i as int), big_r).len(),
            forall|t: int|
                0 <= t < restricted.len() ==> {
                    &&& (#[trigger] restricted[t]).id@ == kept(cat.take(i as int), big_r)[t].0
                    &&& views(restricted[t].parts@).no_duplicates()
                    &&& views(restricted[t].parts@).to_set() == in_reference(
                        kept(cat.take(i as int), big_r)[t],
                        big_r,
                    )
                },
        decreases gmt.len() - i,
    {
        let item = restrict_set(&gmt[i], &reference);
        proof {
            assert(cat.take(i as int + 1).drop_last() =~= cat.take(i as int));
            assert(cat.take(i as int + 1).last() == cat[i as int]);
            views(item.parts@).lemma_cardinality_of_empty_set_is_0();
        }
        if item.parts.len() > 0 {
            restricted.push(item);
        }
        i = i + 1;
    }
    proof {
        assert(cat.take(gmt.len() as int) =~= cat);
        assert(members(shared) =~= big_i.intersect(big_r));
        vstd::set_lib::lemma_len_subset(members(shared), big_r);
        assert forall|t: int| 0 <= t < restricted.len() implies test_defined(
            #[trigger] catalog(restricted@)[t],
            members(shared),
            big_r,
        ) by {
            let p = views(restricted[t].parts@);
            lemma_count_in_distinct(p, big_r);
            vstd::set_lib::lemma_len_subset(p.to_set().intersect(big_r), big_r);
        }
    }
    let config = ORAConfig::default();
    let v = webgestalt_lib::methods::ora::get_ora(&shared, &reference, restricted, config);
    proof {
        let k = kept(cat, big_r);
        assert forall|t: int| 0 <= t < v.len() implies (#[trigger] v[t]).set@ == k[t].0
            && v[t].overlap == in_reference(k[t], big_r).intersect(big_i).len() by {
            let p = views(restricted[t].parts@);
            lemma_count_in_distinct(p, members(shared));
            assert(p.to_set().intersect(members(shared)) =~= in_reference(k[t], big_r).intersect(
                big_i,
            ));
        }
    }
    Ok(v)
}

/// The set of identifiers of a list.
pub open spec fn list_set(list: Seq<String>) -> Set<Seq<char>> {
    views(list).to_set()
}

/// Over-representation analysis of the interest list `analyte_list` against the
/// reference list `reference_list`, as `ora_with_sets` does it; repeated
/// identifiers in either list count once.
pub fn ora(gmt: Vec<Item>, analyte_list: Vec<String>, reference_list: Vec<String>) -> (r: Result<
    Vec<ORAResult>,
    OraError,
>)
    ensures
        ora_outcome(catalog(gmt@), list_set(analyte_list@), list_set(reference_list@), r),
{
    let reference = collect_set(reference_list);
    let interest = collect_set(analyte_list);
    ora_with_sets(gmt, interest, reference)
}

/// Two outcomes of one analysis agree: both fail, or both succeed with the same
/// sets, in the same order, and the same overlaps.
pub proof fn lemma_outcome_unique(
    cat: Seq<(Seq<char>, Seq<Seq<char>>)>,
    interest: Set<Seq<char>>,
    reference: Set<Seq<char>>,
    r1: Result<Vec<ORAResult>, OraError>,
    r2: Result<Vec<ORAResult>, OraError>,
)
    requires
        ora_outcome(cat, interest, reference, r1),
        ora_outcome(cat, interest, reference, r2),
    ensures
        match (r1, r2) {
            (Err(e1), Err(e2)) => e1 == e2,
            (Ok(v1), Ok(v2)) => v1@.len() == v2@.len() && forall|i: int|
                0 <= i < v1@.len() ==> (#[trigger] v1@[i]).set@ == v2@[i].set@ && v1@[i].overlap
                    == v2@[i].overlap,
            _ => false,
        },
{
}

/// An analysis succeeds exactly when the reference is not empty, whatever the
/// interest list; and where the expected overlap of every set is zero (the interest
/// list misses the reference), every overlap is zero, so that no ratio divides a
/// positive count by zero.
pub proof fn lemma_zero_expected_zero_overlap(
    cat: Seq<(Seq<char>, Seq<Seq<char>>)>,
    interest: Set<Seq<char>>,
    reference: Set<Seq<char>>,
    r: Result<Vec<ORAResult>, OraError>,
)
    requires
        ora_outcome(cat, interest, reference, r),
    ensures
        r is Ok <==> reference.len() > 0,
        r matches Ok(v) ==> (interest.intersect(reference).len() == 0 ==> forall|i: int|
            0 <= i < v.len() ==> (#[trigger] v[i]).overlap == 0),
{
    if let Ok(v) = r {
        if interest.intersect(reference).len() == 0 {
            assert(interest.intersect(reference).finite());
            assert(interest.intersect(reference) =~= Set::empty());
            assert forall|i: int| 0 <= i < v.len() implies (#[trigger] v[i]).overlap == 0 by {
                let k = kept(cat, reference);
                assert(in_reference(k[i], reference).intersect(interest) =~= Set::empty());
            }
        }
    }
}

/// When the interest list is the reference list, the analysis succeeds on a
/// non-empty list, and the overlap of each set reported is the number of its
/// distinct members in the reference.
pub proof fn lemma_identical_lists_overlap(
    gmt: Seq<Item>,
    list: Seq<String>,
    r: Result<Vec<ORAResult>, OraError>,
)
    requires
        ora_outcome(catalog(gmt), list_set(list), list_set(list), r),
    ensures
        list.len() > 0 ==> r is Ok,
        r matches Ok(v) ==> forall|i: int|
            0 <= i < v.len() ==> (#[trigger] v[i]).overlap == in_reference(
                kept(catalog(gmt), list_set(list))[i],
                list_set(list),
            ).len(),
{
    broadcast use vstd::seq_lib::seq_to_set_is_finite;

    let s = list_set(list);
    if list.len() > 0 {
        views(list).lemma_cardinality_of_empty_set_is_0();
    }
    if let Ok(v) = r {
        assert forall|i: int| 0 <= i < v.len() implies (#[trigger] v[i]).overlap == in_reference(
            kept(catalog(gmt), s)[i],
            s,
        ).len() by {
            let k = kept(catalog(gmt), s);
            assert(in_reference(k[i], s).intersect(s) =~= in_reference(k[i], s));
        }
    }
}

} // verus!
