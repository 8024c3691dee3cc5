use crate::model::{CasesModel, CatalogModel, EntryModel, LocModel, SubModel, VariationsModel};
use crate::update::keys_of;
use vstd::prelude::*;

verus! {

/// No key stands twice in an ordered mapping.
pub open spec fn keys_unique<A>(s: Seq<(Seq<char>, A)>) -> bool {
    keys_of(s).no_duplicates()
}

/// No name stands twice among the substitutions and the variations of a
/// localization, at any depth.
pub open spec fn loc_keys_unique(l: LocModel) -> bool
    decreases l, 0nat,
{
    subs_keys_unique(l.substitutions) && variations_keys_unique(l.variations)
}

/// No name stands twice among the variations of a substitution, at any depth.
pub open spec fn sub_keys_unique(s: SubModel) -> bool
    decreases s, 0nat,
{
    variations_keys_unique(s.variations)
}

/// No case stands twice, and every case has unique names below it.
pub open spec fn cases_keys_unique(cases: CasesModel) -> bool
    decreases cases, 0nat,
{
    keys_unique(cases) && forall|i: int|
        0 <= i < cases.len() ==> loc_keys_unique((#[trigger] cases[i]).1)
}

/// No selector stands twice, and every selector has unique names below it.
pub open spec fn variations_keys_unique(vars: VariationsModel) -> bool
    decreases vars, 0nat,
{
    keys_unique(vars) && forall|i: int|
        0 <= i < vars.len() ==> cases_keys_unique((#[trigger] vars[i]).1)
}

/// No substitution stands twice, and every substitution has unique names below it.
pub open spec fn subs_keys_unique(subs: Seq<(Seq<char>, SubModel)>) -> bool
    decreases subs, 0nat,
{
    keys_unique(subs) && forall|i: int|
        0 <= i < subs.len() ==> sub_keys_unique((#[trigger] subs[i]).1)
}

/// No key stands twice, and every entry has unique names below it.
pub open spec fn entries_keys_unique(strings: Seq<(Seq<char>, EntryModel)>) -> bool {
    keys_unique(strings) && forall|i: int|
        0 <= i < strings.len() ==> cases_keys_unique((#[trigger] strings[i]).1.localizations)
}

/// A catalog as the library holds it: no name stands twice in any of its
/// ordered mappings.
pub open spec fn catalog_keys_unique(c: CatalogModel) -> bool {
    keys_unique(c.raw) && entries_keys_unique(c.strings)
}

} // verus!
