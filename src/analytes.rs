//! Analyte lists and the hash sets that hold them.
use vstd::prelude::*;

verus! {

#[verifier::external_type_specification]
#[verifier::external_body]
pub struct ExRandomState(ahash::RandomState);

#[verifier::external_type_specification]
#[verifier::external_body]
#[verifier::reject_recursive_types(T)]
#[verifier::reject_recursive_types(S)]
pub struct ExAHashSet<T, S>(ahash::AHashSet<T, S>);

/// The identifiers held by a set of analytes.
pub uninterp spec fn members(s: ahash::AHashSet<String>) -> Set<Seq<char>>;

/// The identifiers of a list of analytes, in list order.
pub open spec fn views(list: Seq<String>) -> Seq<Seq<char>> {
    list.map_values(|a: String| a@)
}

/// Relies on `AHashSet`'s `FromIterator`: the set holds each string of the list,
/// and nothing else.
#[verifier::external_body]
pub(crate) fn collect_set(list: Vec<String>) -> (r: ahash::AHashSet<String>)
    ensures
        members(r) == views(list@).to_set(),
{
    list.into_iter().collect()
}

/// Relies on `HashSet::contains`, reached through `AHashSet`'s `Deref`.
#[verifier::external_body]
pub(crate) fn set_contains(s: &ahash::AHashSet<String>, a: &String) -> (r: bool)
    ensures
        r == members(*s).contains(a@),
{
    s.contains(a)
}

/// Relies on `HashSet::len`, reached through `AHashSet`'s `Deref`.
#[verifier::external_body]
pub(crate) fn set_len(s: &ahash::AHashSet<String>) -> (r: usize)
    ensures
        r == members(*s).len(),
{
    s.len()
}

/// Relies on `AHashSet`'s `IntoIterator`: each member comes out once, in an
/// order that the set's hasher decides.
#[verifier::external_body]
pub(crate) fn set_into_vec(s: ahash::AHashSet<String>) -> (r: Vec<String>)
    ensures
        views(r@).to_set() == members(s),
        views(r@).no_duplicates(),
{
    s.into_iter().collect()
}

/// The distinct analytes of a list, each once. The order is not specified.
pub fn unique_analytes(list: Vec<String>) -> (r: Vec<String>)
    ensures
        views(r@).to_set() == views(list@).to_set(),
        views(r@).no_duplicates(),
{
    let s = collect_set(list);
    set_into_vec(s)
}

/// The entries of `list` that lie in the set `s`, in list order.
pub fn keep_members(list: &Vec<String>, s: &ahash::AHashSet<String>) -> (r: Vec<String>)
    ensures
        views(r@).to_set() == views(list@).to_set().intersect(members(*s)),
{
    let mut r: Vec<String> = Vec::new();
    let mut k: usize = 0;
    while k < list.len()
        invariant
            k <= list.len(),
            views(r@).to_set() == views(list@).take(k as int).to_set().intersect(members(*s)),
        decreases list.len() - k,
    {
        assert(views(list@).take(k as int + 1) =~= views(list@).take(k as int).push(list@[k as int]@));
        if set_contains(s, &list[k]) {
            let a = list[k].clone();
            let ghost old_r = views(r@);
            r.push(a);
            proof {
                assert(views(r@) =~= old_r.push(a@));
                old_r.lemma_push_to_set_commute(a@);
                views(list@).take(k as int).lemma_push_to_set_commute(a@);
            }
            assert(views(r@).to_set() =~= views(list@).take(k as int + 1).to_set().intersect(
                members(*s),
            ));
        } else {
            proof {
                views(list@).take(k as int).lemma_push_to_set_commute(list@[k as int]@);
            }
            assert(views(r@).to_set() =~= views(list@).take(k as int + 1).to_set().intersect(
                members(*s),
            ));
        }
        k = k + 1;
    }
    assert(views(list@).take(list.len() as int) =~= views(list@));
    r
}

} // verus!
