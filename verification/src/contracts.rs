//! Choosing the contracts that a command works on.

use crate::config::config::{Contract, ContractView, TemplateType};
use vstd::prelude::*;

verus! {

/// What a list of contracts holds.
pub open spec fn contract_views(contracts: Seq<Contract>) -> Seq<ContractView> {
    contracts.map_values(|contract: Contract| contract@)
}

/// The texts that a list of string slices holds.
pub open spec fn texts(names: Seq<&str>) -> Seq<Seq<char>> {
    names.map_values(|name: &str| name@)
}

/// Whether a contract is chosen by `names`: every contract where no name is
/// given, else those that are named.
pub open spec fn chosen_by(names: Seq<Seq<char>>) -> spec_fn(ContractView) -> bool {
    |contract: ContractView| names.len() == 0 || names.contains(contract.name)
}

/// Whether a contract is made from the template `template_type`.
pub open spec fn made_from(template_type: TemplateType) -> spec_fn(ContractView) -> bool {
    |contract: ContractView| contract.template_type == template_type
}

/// The contracts made from `template_type` as one group, or no group where
/// there is none.
pub open spec fn group_of(template_type: TemplateType, contracts: Seq<ContractView>) -> Seq<
    (TemplateType, Seq<ContractView>),
> {
    let members = contracts.filter(made_from(template_type));
    if members.len() == 0 {
        Seq::empty()
    } else {
        seq![(template_type, members)]
    }
}

/// The contracts by template type: a group for each type that occurs, the
/// types in the order `Rust`, `C`, `CSharedLib`, and in each group the
/// contracts in the order in which they were given.
pub open spec fn groups_by_type(contracts: Seq<ContractView>) -> Seq<
    (TemplateType, Seq<ContractView>),
> {
    group_of(TemplateType::Rust, contracts) + group_of(TemplateType::C, contracts) + group_of(
        TemplateType::CSharedLib,
        contracts,
    )
}

/// What a list of groups holds.
pub open spec fn group_views(groups: Seq<(TemplateType, Vec<Contract>)>) -> Seq<
    (TemplateType, Seq<ContractView>),
> {
    groups.map_values(|group: (TemplateType, Vec<Contract>)| (group.0, contract_views(group.1@)))
}

/// Whether `name` is among `names`.
fn is_named(names: &[&str], name: &String) -> (found: bool)
    ensures
        found == texts(names@).contains(name@),
{
    let mut i: usize = 0;
    while i < names.len()
        invariant
            i <= names@.len(),
            forall|j: int| 0 <= j < i ==> texts(names@)[j] != name@,
        decreases names@.len() - i,
    {
        let candidate = names[i].to_owned();
        if candidate == *name {
            assert(texts(names@)[i as int] == name@);
            return true;
        }
        i = i + 1;
    }
    false
}

/// A contract that holds what `contract` holds.
fn copy_of(contract: &Contract) -> (copy: Contract)
    ensures
        copy@ == contract@,
{
    Contract { name: contract.name.clone(), template_type: contract.template_type }
}

/// The contracts among `contracts` that pass `keep`, in their order.
fn filtered(contracts: &[Contract], names: &[&str], by_type: Option<TemplateType>) -> (out: Vec<
    Contract,
>)
    ensures
        contract_views(out@) == contract_views(contracts@).filter(
            match by_type {
                Some(template_type) => made_from(template_type),
                None => chosen_by(texts(names@)),
            },
        ),
{
    let ghost all = contract_views(contracts@);
    let ghost keep = match by_type {
        Some(template_type) => made_from(template_type),
        None => chosen_by(texts(names@)),
    };
    let mut out: Vec<Contract> = Vec::new();
    let mut i: usize = 0;
    proof {
        assert(all.subrange(0, 0) =~= Seq::<ContractView>::empty());
        assert(all.subrange(0, 0).filter(keep) =~= Seq::<ContractView>::empty());
        assert(contract_views(out@) =~= Seq::<ContractView>::empty());
    }
    while i < contracts.len()
        invariant
            i <= contracts@.len(),
            all == contract_views(contracts@),
            keep == match by_type {
                Some(template_type) => made_from(template_type),
                None => chosen_by(texts(names@)),
            },
            contract_views(out@) == all.subrange(0, i as int).filter(keep),
        decreases contracts@.len() - i,
    {
        let contract = &contracts[i];
        let wanted: bool = match by_type {
            Some(template_type) => contract.template_type == template_type,
            None => names.len() == 0 || is_named(names, &contract.name),
        };
        proof {
            assert(all[i as int] == contract@);
            assert(wanted == keep(contract@));
            all.subrange(0, i as int).lemma_filter_push(contract@, keep);
            assert(all.subrange(0, i as int).push(contract@) =~= all.subrange(0, i + 1));
        }
        if wanted {
            let ghost before = contract_views(out@);
            out.push(copy_of(contract));
            assert(contract_views(out@) =~= before.push(contract@));
        }
        i = i + 1;
    }
    assert(all.subrange(0, contracts@.len() as int) =~= all);
    out
}

/// The contracts that `names` choose: all of them where no name is given,
/// else those whose name is among `names`, in the order of `contracts`.
pub fn select_contracts(contracts: &[Contract], names: &[&str]) -> (selected: Vec<Contract>)
    ensures
        contract_views(selected@) == contract_views(contracts@).filter(chosen_by(texts(names@))),
{
    filtered(contracts, names, None)
}

/// Appends to `groups` the contracts made from `template_type`, where there are any.
fn push_group(
    groups: &mut Vec<(TemplateType, Vec<Contract>)>,
    template_type: TemplateType,
    contracts: &[Contract],
)
    ensures
        group_views(final(groups)@) == group_views(old(groups)@) + group_of(
            template_type,
            contract_views(contracts@),
        ),
{
    let names: Vec<&str> = Vec::new();
    let members = filtered(contracts, names.as_slice(), Some(template_type));
    if members.len() > 0 {
        let ghost before = group_views(groups@);
        let ghost views = contract_views(members@);
        groups.push((template_type, members));
        assert(group_views(groups@) =~= before.push((template_type, views)));
        assert(before.push((template_type, views)) =~= before + seq![(template_type, views)]);
    } else {
        assert(contract_views(members@).len() == 0);
        assert(group_views(groups@) =~= group_views(groups@) + Seq::empty());
    }
}

/// Groups the contracts by the template they are made from.
pub fn group_contracts_by_type(contracts: Vec<Contract>) -> (groups: Vec<
    (TemplateType, Vec<Contract>),
>)
    ensures
        group_views(groups@) == groups_by_type(contract_views(contracts@)),
{
    let mut groups: Vec<(TemplateType, Vec<Contract>)> = Vec::new();
    assert(group_views(groups@) =~= Seq::empty());
    push_group(&mut groups, TemplateType::Rust, contracts.as_slice());
    push_group(&mut groups, TemplateType::C, contracts.as_slice());
    push_group(&mut groups, TemplateType::CSharedLib, contracts.as_slice());
    assert(group_views(groups@) =~= groups_by_type(contract_views(contracts@)));
    groups
}

} // verus!
