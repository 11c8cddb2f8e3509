//! Sets of domain names, kept in a `hashbrown::HashSet`.

use vstd::prelude::*;

verus! {

/// A set of domain names, kept in a `hashbrown::HashSet`. What is inside is
/// hidden; `names_in` stands for the names it holds.
#[verifier::external_body]
#[derive(Debug)]
pub struct DomainSet {
    names: hashbrown::HashSet<String>,
}

/// The names that a set holds.
pub uninterp spec fn names_in(set: DomainSet) -> Set<Seq<char>>;

/// `HashSet::new`: the new set holds nothing.
#[verifier::external_body]
pub(crate) fn empty_set() -> (set: DomainSet)
    ensures
        names_in(set) == Set::<Seq<char>>::empty(),
{
    DomainSet { names: hashbrown::HashSet::new() }
}

/// `HashSet::clone`: the copy holds the same names.
#[verifier::external_body]
pub(crate) fn copy_of(set: &DomainSet) -> (copy: DomainSet)
    ensures
        names_in(copy) == names_in(*set),
{
    DomainSet { names: set.names.clone() }
}

/// `HashSet::insert`: afterwards the set holds the name beside what it held,
/// and the result says whether the name is new to it.
#[verifier::external_body]
pub(crate) fn insert_name(set: &mut DomainSet, name: String) -> (added: bool)
    ensures
        names_in(*final(set)) == names_in(*old(set)).insert(name@),
        added == !names_in(*old(set)).contains(name@),
{
    set.names.insert(name)
}

/// `HashSet::remove`: afterwards the set holds what it held but the name,
/// and the result says whether it held the name.
#[verifier::external_body]
pub(crate) fn remove_name(set: &mut DomainSet, name: &str) -> (removed: bool)
    ensures
        names_in(*final(set)) == names_in(*old(set)).remove(name@),
        removed == names_in(*old(set)).contains(name@),
{
    set.names.remove(name)
}

/// `HashSet::contains`: whether the set holds the name.
#[verifier::external_body]
pub(crate) fn holds_name(set: &DomainSet, name: &str) -> (held: bool)
    ensures
        held == names_in(*set).contains(name@),
{
    set.names.contains(name)
}

} // verus!
