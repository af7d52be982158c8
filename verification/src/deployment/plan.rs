//! Planning a deployment: which transactions create which cells, in what order.

use crate::config::config::{
    cell_views,
    dep_group_views,
    Cell,
    CellLocation,
    CellLocationView,
    CellView,
    DepGroup,
    DepGroupView,
    Deployment,
    DeploymentView,
};
use crate::deployment::migration::{
    lemma_recorded_over_contains,
    recorded_over,
    MigrationRecordView,
    MigrationState,
    MigrationStateView,
    OutPoint,
};
use vstd::prelude::*;

verus! {

/// How a deployment is to be made.
#[derive(Clone, Copy, Debug, PartialEq, Eq)]
pub struct DeployOption {
    /// Whether cells that were deployed before are spent and replaced,
    /// rather than created anew beside the old ones.
    pub migrate: bool,
    /// The fee that each transaction pays.
    pub tx_fee: u64,
}

/// What the deployment may spend and what its cells cost.
#[derive(Clone, Debug, PartialEq, Eq)]
pub struct Funding {
    /// The capacity that the spending source holds.
    pub available: u64,
    /// The storage cost of each cell of the deployment, in their order.
    pub cell_costs: Vec<u64>,
    /// The storage cost of each dep group of the deployment, in their order.
    pub dep_group_costs: Vec<u64>,
}

/// What a [`Funding`] holds.
pub struct FundingView {
    pub available: u64,
    pub cell_costs: Seq<u64>,
    pub dep_group_costs: Seq<u64>,
}

impl View for Funding {
    type V = FundingView;

    open spec fn view(&self) -> FundingView {
        FundingView {
            available: self.available,
            cell_costs: self.cell_costs@,
            dep_group_costs: self.dep_group_costs@,
        }
    }
}

/// Where a member of a dep group is found.
#[derive(Clone, Copy, Debug, PartialEq, Eq)]
pub enum CellSource {
    /// A cell that is on the ledger already.
    OnChain(OutPoint),
    /// An output of a transaction of the same plan.
    Planned { transaction: usize, output: usize },
}

/// What a planned output is to hold.
#[derive(Clone, Debug, PartialEq, Eq)]
pub enum PlannedContent {
    /// The compiled artifact in `file`.
    Artifact { file: String, enable_type_id: bool },
    /// The places of the members of a dep group, in their order.
    DepGroup { members: Vec<CellSource> },
}

/// What a [`PlannedContent`] holds.
pub enum PlannedContentView {
    Artifact { file: Seq<char>, enable_type_id: bool },
    DepGroup { members: Seq<CellSource> },
}

impl View for PlannedContent {
    type V = PlannedContentView;

    open spec fn view(&self) -> PlannedContentView {
        match *self {
            PlannedContent::Artifact { file, enable_type_id } => PlannedContentView::Artifact {
                file: file@,
                enable_type_id,
            },
            PlannedContent::DepGroup { members } => PlannedContentView::DepGroup {
                members: members@,
            },
        }
    }
}

/// An output that a planned transaction creates.
#[derive(Clone, Debug, PartialEq, Eq)]
pub struct PlannedOutput {
    /// The name of the cell or dep group.
    pub name: String,
    pub content: PlannedContent,
    /// The place of the version that this output replaces: the transaction
    /// spends it. `None` where the output is created anew.
    pub previous: Option<OutPoint>,
    /// The storage cost of the output.
    pub capacity: u64,
}

/// What a [`PlannedOutput`] holds.
pub struct PlannedOutputView {
    pub name: Seq<char>,
    pub content: PlannedContentView,
    pub previous: Option<OutPoint>,
    pub capacity: u64,
}

impl View for PlannedOutput {
    type V = PlannedOutputView;

    open spec fn view(&self) -> PlannedOutputView {
        PlannedOutputView {
            name: self.name@,
            content: self.content@,
            previous: self.previous,
            capacity: self.capacity,
        }
    }
}

/// What a list of planned outputs holds.
pub open spec fn output_views(outputs: Seq<PlannedOutput>) -> Seq<PlannedOutputView> {
    outputs.map_values(|output: PlannedOutput| output@)
}

/// An unsigned transaction of the plan.
#[derive(Clone, Debug, PartialEq, Eq)]
pub struct PlannedTransaction {
    pub outputs: Vec<PlannedOutput>,
    /// The fee that the transaction reserves.
    pub fee: u64,
}

/// What a [`PlannedTransaction`] holds.
pub struct PlannedTransactionView {
    pub outputs: Seq<PlannedOutputView>,
    pub fee: u64,
}

impl View for PlannedTransaction {
    type V = PlannedTransactionView;

    open spec fn view(&self) -> PlannedTransactionView {
        PlannedTransactionView { outputs: output_views(self.outputs@), fee: self.fee }
    }
}

/// What a list of planned transactions holds.
pub open spec fn transaction_views(transactions: Seq<PlannedTransaction>) -> Seq<
    PlannedTransactionView,
> {
    transactions.map_values(|transaction: PlannedTransaction| transaction@)
}

/// Why no plan could be made.
#[derive(Clone, Debug, PartialEq, Eq)]
pub enum PlanError {
    /// A dep group names a cell that the deployment does not have.
    UnresolvedReference { name: String },
    /// The funding does not state one cost for each cell and each dep group.
    CostsMismatch,
    /// The spending source holds `shortfall` less than the plan needs.
    InsufficientCapacity { shortfall: u128 },
}

/// The index of the first cell called `name`, if there is one.
pub open spec fn first_named(cells: Seq<CellView>, name: Seq<char>) -> Option<int>
    decreases cells.len(),
{
    if cells.len() == 0 {
        None
    } else {
        match first_named(cells.drop_last(), name) {
            Some(index) => Some(index),
            None => if cells.last().name == name {
                Some(cells.len() - 1)
            } else {
                None
            },
        }
    }
}

/// The number of cells that are deployed from a file.
pub open spec fn file_count(cells: Seq<CellView>) -> nat
    decreases cells.len(),
{
    if cells.len() == 0 {
        0
    } else {
        file_count(cells.drop_last()) + if cells.last().location is File {
            1nat
        } else {
            0nat
        }
    }
}

/// The place that an output called `name` replaces: the place where the
/// name lives now, where cells are migrated, and none otherwise.
pub open spec fn previous_place(
    state: MigrationStateView,
    options: DeployOption,
    name: Seq<char>,
) -> Option<OutPoint> {
    if options.migrate {
        state.location(name)
    } else {
        None
    }
}

/// The outputs that create the cells deployed from a file, in the order of
/// the cells; `costs` holds a cost for every cell.
pub open spec fn cell_outputs(
    cells: Seq<CellView>,
    costs: Seq<u64>,
    state: MigrationStateView,
    options: DeployOption,
) -> Seq<PlannedOutputView>
    decreases cells.len(),
{
    if cells.len() == 0 {
        Seq::empty()
    } else {
        let before = cell_outputs(cells.drop_last(), costs, state, options);
        let cell = cells.last();
        match cell.location {
            CellLocationView::File { file } => before.push(
                PlannedOutputView {
                    name: cell.name,
                    content: PlannedContentView::Artifact {
                        file,
                        enable_type_id: cell.enable_type_id,
                    },
                    previous: previous_place(state, options, cell.name),
                    capacity: costs[cells.len() - 1],
                },
            ),
            CellLocationView::OutPoint { .. } => before,
        }
    }
}

/// Where the cell called `name` is found: on the ledger where the
/// deployment says so, else among the outputs of the first transaction of the
/// plan, which creates the cells. `None` where no cell has that name.
pub open spec fn member_source(cells: Seq<CellView>, name: Seq<char>) -> Option<CellSource> {
    match first_named(cells, name) {
        Some(index) => Some(
            match cells[index].location {
                CellLocationView::OutPoint { tx_hash, index } => CellSource::OnChain(
                    OutPoint { tx_hash, index },
                ),
                CellLocationView::File { .. } => CellSource::Planned {
                    transaction: 0,
                    output: file_count(cells.subrange(0, index)) as usize,
                },
            },
        ),
        None => None,
    }
}

/// Every member of the group names a cell of the deployment.
pub open spec fn group_resolved(cells: Seq<CellView>, group: DepGroupView) -> bool {
    forall|m: int| 0 <= m < group.cells.len() ==> member_source(cells, #[trigger] group.cells[m]) is Some
}

/// The output that creates a dep group.
pub open spec fn group_output(
    cells: Seq<CellView>,
    group: DepGroupView,
    cost: u64,
    state: MigrationStateView,
    options: DeployOption,
) -> PlannedOutputView {
    PlannedOutputView {
        name: group.name,
        content: PlannedContentView::DepGroup {
            members: Seq::new(
                group.cells.len(),
                |m: int| member_source(cells, group.cells[m]).unwrap(),
            ),
        },
        previous: previous_place(state, options, group.name),
        capacity: cost,
    }
}

/// The outputs that create the dep groups, in their order.
pub open spec fn group_outputs(
    cells: Seq<CellView>,
    groups: Seq<DepGroupView>,
    costs: Seq<u64>,
    state: MigrationStateView,
    options: DeployOption,
) -> Seq<PlannedOutputView> {
    Seq::new(groups.len(), |g: int| group_output(cells, groups[g], costs[g], state, options))
}

/// A transaction that creates `outputs`, or none where there is nothing to create.
pub open spec fn transaction_of(outputs: Seq<PlannedOutputView>, fee: u64) -> Seq<
    PlannedTransactionView,
> {
    if outputs.len() == 0 {
        Seq::empty()
    } else {
        seq![PlannedTransactionView { outputs, fee }]
    }
}

/// The plan: one transaction that creates the cells deployed from a file,
/// then one that creates the dep groups.
pub open spec fn planned(
    deployment: DeploymentView,
    state: MigrationStateView,
    options: DeployOption,
    funding: FundingView,
) -> Seq<PlannedTransactionView> {
    transaction_of(
        cell_outputs(deployment.cells, funding.cell_costs, state, options),
        options.tx_fee,
    ) + transaction_of(
        group_outputs(deployment.cells, deployment.dep_groups, funding.dep_group_costs, state, options),
        options.tx_fee,
    )
}

/// The storage cost of all `outputs` together.
pub open spec fn storage_cost(outputs: Seq<PlannedOutputView>) -> nat
    decreases outputs.len(),
{
    if outputs.len() == 0 {
        0
    } else {
        storage_cost(outputs.drop_last()) + outputs.last().capacity as nat
    }
}

/// What the transactions need from the spending source: the storage cost of
/// their outputs and their fees.
pub open spec fn required_capacity(transactions: Seq<PlannedTransactionView>) -> nat
    decreases transactions.len(),
{
    if transactions.len() == 0 {
        0
    } else {
        required_capacity(transactions.drop_last()) + storage_cost(transactions.last().outputs)
            + transactions.last().fee as nat
    }
}

/// No more cells are deployed from a file than there are cells, and each of
/// them gets one output.
pub proof fn lemma_file_count(
    cells: Seq<CellView>,
    costs: Seq<u64>,
    state: MigrationStateView,
    options: DeployOption,
)
    ensures
        file_count(cells) <= cells.len(),
        cell_outputs(cells, costs, state, options).len() == file_count(cells),
    decreases cells.len(),
{
    if cells.len() > 0 {
        lemma_file_count(cells.drop_last(), costs, state, options);
    }
}

/// The cell that `first_named` finds has the name and is the first that has it.
pub proof fn lemma_first_named(cells: Seq<CellView>, name: Seq<char>)
    ensures
        match first_named(cells, name) {
            Some(index) => {
                &&& 0 <= index < cells.len()
                &&& cells[index].name == name
                &&& forall|j: int| 0 <= j < index ==> (#[trigger] cells[j]).name != name
            },
            None => forall|j: int| 0 <= j < cells.len() ==> (#[trigger] cells[j]).name != name,
        },
    decreases cells.len(),
{
    if cells.len() > 0 {
        lemma_first_named(cells.drop_last(), name);
        assert forall|j: int| 0 <= j < cells.len() - 1 implies cells.drop_last()[j] == cells[j] by {}
        match first_named(cells.drop_last(), name) {
            Some(index) => {
                assert(cells.drop_last()[index] == cells[index]);
                assert forall|j: int| 0 <= j < index implies (#[trigger] cells[j]).name != name by {
                    assert(cells.drop_last()[j] == cells[j]);
                }
            },
            None => {
                assert forall|j: int| 0 <= j < cells.len() - 1 implies (#[trigger] cells[j]).name
                    != name by {
                    assert(cells.drop_last()[j] == cells[j]);
                }
            },
        }
    }
}

/// The index of the first cell called `name`.
fn find_cell(cells: &[Cell], name: &String) -> (result: Option<usize>)
    ensures
        match result {
            Some(index) => first_named(cell_views(cells@), name@) == Some(index as int),
            None => first_named(cell_views(cells@), name@) is None,
        },
{
    let ghost all = cell_views(cells@);
    let mut found: Option<usize> = None;
    let mut i: usize = 0;
    assert(all.subrange(0, 0) =~= Seq::empty());
    while i < cells.len()
        invariant
            i <= cells@.len(),
            all == cell_views(cells@),
            match found {
                Some(index) => first_named(all.subrange(0, i as int), name@) == Some(index as int),
                None => first_named(all.subrange(0, i as int), name@) is None,
            },
        decreases cells@.len() - i,
    {
        proof {
            assert(all.subrange(0, i + 1).drop_last() =~= all.subrange(0, i as int));
            assert(all.subrange(0, i + 1).last() == cells@[i as int]@);
        }
        if found.is_none() && cells[i].name == *name {
            found = Some(i);
        }
        i = i + 1;
    }
    assert(all.subrange(0, cells@.len() as int) =~= all);
    found
}

/// For each cell, the number of cells before it that are deployed from a file.
fn file_ranks(cells: &[Cell]) -> (ranks: Vec<usize>)
    ensures
        ranks@.len() == cells@.len(),
        forall|k: int|
            0 <= k < cells@.len() ==> (#[trigger] ranks@[k]) == file_count(
                cell_views(cells@).subrange(0, k),
            ),
{
    let ghost all = cell_views(cells@);
    let mut ranks: Vec<usize> = Vec::new();
    let mut count: usize = 0;
    let mut i: usize = 0;
    assert(all.subrange(0, 0) =~= Seq::empty());
    while i < cells.len()
        invariant
            i <= cells@.len(),
            all == cell_views(cells@),
            ranks@.len() == i,
            count == file_count(all.subrange(0, i as int)),
            count <= i,
            forall|k: int| 0 <= k < i ==> (#[trigger] ranks@[k]) == file_count(all.subrange(0, k)),
        decreases cells@.len() - i,
    {
        ranks.push(count);
        proof {
            assert(all.subrange(0, i + 1).drop_last() =~= all.subrange(0, i as int));
            assert(all.subrange(0, i + 1).last() == cells@[i as int]@);
        }
        match cells[i].location {
            CellLocation::File { .. } => {
                count = count + 1;
            },
            CellLocation::OutPoint { .. } => {},
        }
        i = i + 1;
    }
    ranks
}

/// Where the cell called `name` is found.
fn source_of(cells: &[Cell], ranks: &Vec<usize>, name: &String) -> (result: Option<CellSource>)
    requires
        ranks@.len() == cells@.len(),
        forall|k: int|
            0 <= k < cells@.len() ==> (#[trigger] ranks@[k]) == file_count(
                cell_views(cells@).subrange(0, k),
            ),
    ensures
        result == member_source(cell_views(cells@), name@),
{
    match find_cell(cells, name) {
        Some(position) => {
            proof {
                lemma_first_named(cell_views(cells@), name@);
                assert(cell_views(cells@)[position as int] == cells@[position as int]@);
            }
            match cells[position].location {
                CellLocation::OutPoint { tx_hash, index } => Some(
                    CellSource::OnChain(OutPoint { tx_hash, index }),
                ),
                CellLocation::File { .. } => Some(
                    CellSource::Planned { transaction: 0, output: ranks[position] },
                ),
            }
        },
        None => None,
    }
}

/// `name` is the first member of `group` that names no cell.
pub open spec fn first_unresolved_member(
    cells: Seq<CellView>,
    group: DepGroupView,
    name: Seq<char>,
) -> bool {
    exists|m: int|
        {
            &&& 0 <= m < group.cells.len()
            &&& #[trigger] group.cells[m] == name
            &&& member_source(cells, name) is None
            &&& forall|earlier: int|
                0 <= earlier < m ==> member_source(cells, #[trigger] group.cells[earlier]) is Some
        }
}

/// `name` is the first reference of the deployment that names no cell: the
/// groups are looked at in their order, and in each its members in theirs.
pub open spec fn first_unresolved(deployment: DeploymentView, name: Seq<char>) -> bool {
    exists|g: int|
        {
            &&& 0 <= g < deployment.dep_groups.len()
            &&& first_unresolved_member(deployment.cells, #[trigger] deployment.dep_groups[g], name)
            &&& forall|earlier: int|
                0 <= earlier < g ==> group_resolved(
                    deployment.cells,
                    #[trigger] deployment.dep_groups[earlier],
                )
        }
}

/// Every reference of the deployment names one of its cells.
pub open spec fn all_resolved(deployment: DeploymentView) -> bool {
    forall|g: int|
        0 <= g < deployment.dep_groups.len() ==> group_resolved(
            deployment.cells,
            #[trigger] deployment.dep_groups[g],
        )
}

/// The funding states one cost for each cell and each dep group.
pub open spec fn costs_match(deployment: DeploymentView, funding: FundingView) -> bool {
    &&& funding.cell_costs.len() == deployment.cells.len()
    &&& funding.dep_group_costs.len() == deployment.dep_groups.len()
}

/// The places of the members of `group`, or the first member that names no cell.
fn resolve_members(cells: &[Cell], ranks: &Vec<usize>, group: &DepGroup) -> (result: Result<
    Vec<CellSource>,
    String,
>)
    requires
        ranks@.len() == cells@.len(),
        forall|k: int|
            0 <= k < cells@.len() ==> (#[trigger] ranks@[k]) == file_count(
                cell_views(cells@).subrange(0, k),
            ),
    ensures
        match result {
            Ok(members) => {
                &&& group_resolved(cell_views(cells@), group@)
                &&& members@ == Seq::new(
                    group@.cells.len(),
                    |m: int| member_source(cell_views(cells@), group@.cells[m]).unwrap(),
                )
            },
            Err(name) => first_unresolved_member(cell_views(cells@), group@, name@),
        },
{
    let ghost all = cell_views(cells@);
    let ghost names = group@.cells;
    let mut members: Vec<CellSource> = Vec::new();
    let mut m: usize = 0;
    while m < group.cells.len()
        invariant
            m <= group.cells@.len(),
            all == cell_views(cells@),
            names == group@.cells,
            names.len() == group.cells@.len(),
            ranks@.len() == cells@.len(),
            forall|k: int|
                0 <= k < cells@.len() ==> (#[trigger] ranks@[k]) == file_count(
                    cell_views(cells@).subrange(0, k),
                ),
            members@.len() == m,
            forall|j: int| 0 <= j < m ==> member_source(all, #[trigger] names[j]) == Some(members@[j]),
        decreases group.cells@.len() - m,
    {
        let name = &group.cells[m];
        assert(names[m as int] == name@);
        match source_of(cells, ranks, name) {
            Some(source) => {
                members.push(source);
            },
            None => {
                return Err(name.clone());
            },
        }
        m = m + 1;
    }
    assert(members@ =~= Seq::new(names.len(), |j: int| member_source(all, names[j]).unwrap()));
    Ok(members)
}

/// The place that an output called `name` replaces.
fn previous_of(state: &MigrationState, options: &DeployOption, name: &String) -> (previous: Option<
    OutPoint,
>)
    ensures
        previous == previous_place(state@, *options, name@),
{
    if options.migrate {
        state.get(name.as_str())
    } else {
        None
    }
}

/// The outputs that create the cells deployed from a file.
fn plan_cells(
    cells: &[Cell],
    costs: &[u64],
    state: &MigrationState,
    options: &DeployOption,
) -> (outputs: Vec<PlannedOutput>)
    requires
        costs@.len() == cells@.len(),
    ensures
        output_views(outputs@) == cell_outputs(cell_views(cells@), costs@, state@, *options),
{
    let ghost all = cell_views(cells@);
    let mut outputs: Vec<PlannedOutput> = Vec::new();
    let mut i: usize = 0;
    assert(all.subrange(0, 0) =~= Seq::empty());
    assert(output_views(outputs@) =~= Seq::empty());
    while i < cells.len()
        invariant
            i <= cells@.len(),
            costs@.len() == cells@.len(),
            all == cell_views(cells@),
            output_views(outputs@) == cell_outputs(
                all.subrange(0, i as int),
                costs@,
                state@,
                *options,
            ),
        decreases cells@.len() - i,
    {
        let cell = &cells[i];
        proof {
            assert(all.subrange(0, i + 1).drop_last() =~= all.subrange(0, i as int));
            assert(all.subrange(0, i + 1).last() == cell@);
        }
        match &cell.location {
            CellLocation::File { file } => {
                let ghost before = output_views(outputs@);
                let output = PlannedOutput {
                    name: cell.name.clone(),
                    content: PlannedContent::Artifact {
                        file: file.clone(),
                        enable_type_id: cell.enable_type_id,
                    },
                    previous: previous_of(state, options, &cell.name),
                    capacity: costs[i],
                };
                outputs.push(output);
                assert(output_views(outputs@) =~= before.push(output@));
            },
            CellLocation::OutPoint { .. } => {},
        }
        i = i + 1;
    }
    assert(all.subrange(0, cells@.len() as int) =~= all);
    outputs
}

/// The outputs that create the dep groups, or the first reference that
/// names no cell.
fn plan_groups(
    cells: &[Cell],
    groups: &[DepGroup],
    costs: &[u64],
    state: &MigrationState,
    options: &DeployOption,
) -> (result: Result<Vec<PlannedOutput>, String>)
    requires
        costs@.len() == groups@.len(),
    ensures
        match result {
            Ok(outputs) => {
                &&& forall|g: int|
                    0 <= g < groups@.len() ==> group_resolved(
                        cell_views(cells@),
                        #[trigger] dep_group_views(groups@)[g],
                    )
                &&& output_views(outputs@) == group_outputs(
                    cell_views(cells@),
                    dep_group_views(groups@),
                    costs@,
                    state@,
                    *options,
                )
            },
            Err(name) => exists|g: int|
                {
                    &&& 0 <= g < groups@.len()
                    &&& first_unresolved_member(
                        cell_views(cells@),
                        #[trigger] dep_group_views(groups@)[g],
                        name@,
                    )
                    &&& forall|earlier: int|
                        0 <= earlier < g ==> group_resolved(
                            cell_views(cells@),
                            #[trigger] dep_group_views(groups@)[earlier],
                        )
                },
        },
{
    let ghost all = cell_views(cells@);
    let ghost views = dep_group_views(groups@);
    let ranks = file_ranks(cells);
    let mut outputs: Vec<PlannedOutput> = Vec::new();
    let mut g: usize = 0;
    while g < groups.len()
        invariant
            g <= groups@.len(),
            costs@.len() == groups@.len(),
            all == cell_views(cells@),
            views == dep_group_views(groups@),
            ranks@.len() == cells@.len(),
            forall|k: int|
                0 <= k < cells@.len() ==> (#[trigger] ranks@[k]) == file_count(
                    cell_views(cells@).subrange(0, k),
                ),
            outputs@.len() == g,
            forall|j: int| 0 <= j < g ==> group_resolved(all, #[trigger] views[j]),
            forall|j: int|
                0 <= j < g ==> (#[trigger] outputs@[j])@ == group_output(
                    all,
                    views[j],
                    costs@[j],
                    state@,
                    *options,
                ),
        decreases groups@.len() - g,
    {
        let group = &groups[g];
        assert(views[g as int] == group@);
        let members = match resolve_members(cells, &ranks, group) {
            Ok(members) => members,
            Err(name) => {
                return Err(name);
            },
        };
        let output = PlannedOutput {
            name: group.name.clone(),
            content: PlannedContent::DepGroup { members },
            previous: previous_of(state, options, &group.name),
            capacity: costs[g],
        };
        assert(output@ == group_output(all, views[g as int], costs@[g as int], state@, *options));
        outputs.push(output);
        g = g + 1;
    }
    assert(output_views(outputs@) =~= group_outputs(all, views, costs@, state@, *options));
    Ok(outputs)
}

/// The storage cost of all `outputs` together.
fn total_cost(outputs: &Vec<PlannedOutput>) -> (total: u128)
    ensures
        total == storage_cost(output_views(outputs@)),
        total <= outputs@.len() * u64::MAX,
{
    let ghost all = output_views(outputs@);
    let mut total: u128 = 0;
    let mut i: usize = 0;
    assert(all.subrange(0, 0) =~= Seq::empty());
    while i < outputs.len()
        invariant
            i <= outputs@.len(),
            all == output_views(outputs@),
            total == storage_cost(all.subrange(0, i as int)),
            total <= i * u64::MAX,
        decreases outputs@.len() - i,
    {
        proof {
            assert(all.subrange(0, i + 1).drop_last() =~= all.subrange(0, i as int));
            assert(all.subrange(0, i + 1).last() == outputs@[i as int]@);
            assert((i + 1) * u64::MAX == i * u64::MAX + u64::MAX) by (nonlinear_arith);
            assert(i * u64::MAX <= usize::MAX * u64::MAX) by (nonlinear_arith)
                requires
                    i <= usize::MAX,
            ;
            assert(usize::MAX * u64::MAX + u64::MAX <= u128::MAX) by (nonlinear_arith)
                requires
                    usize::MAX <= u64::MAX,
            ;
        }
        total = total + outputs[i].capacity as u128;
        i = i + 1;
    }
    assert(all.subrange(0, outputs@.len() as int) =~= all);
    total
}

/// `amount`, or the largest amount that can be reported where it is larger.
pub open spec fn capped(amount: nat) -> u128 {
    if amount > u128::MAX {
        u128::MAX
    } else {
        amount as u128
    }
}

/// What a transaction that creates `outputs` needs, capped: nothing where
/// there is nothing to create.
fn transaction_need(outputs: &Vec<PlannedOutput>, fee: u64) -> (need: u128)
    ensures
        need == required_capacity(transaction_of(output_views(outputs@), fee)),
        need <= (outputs@.len() + 1) * u64::MAX,
{
    let ghost views = output_views(outputs@);
    if outputs.len() == 0 {
        0
    } else {
        let cost: u128 = total_cost(outputs);
        proof {
            let transactions = transaction_of(views, fee);
            assert(transactions.drop_last() =~= Seq::empty());
            assert(required_capacity(transactions.drop_last()) == 0);
            assert(transactions.last().outputs == views);
            assert((outputs@.len() + 1) * u64::MAX == outputs@.len() * u64::MAX + u64::MAX)
                by (nonlinear_arith);
            assert(outputs@.len() * u64::MAX <= usize::MAX * u64::MAX) by (nonlinear_arith)
                requires
                    outputs@.len() <= usize::MAX,
            ;
            assert(usize::MAX * u64::MAX + u64::MAX <= u128::MAX) by (nonlinear_arith)
                requires
                    usize::MAX <= u64::MAX,
            ;
        }
        cost + fee as u128
    }
}

/// What two lists of transactions need together is the sum of what each needs.
pub proof fn lemma_required_capacity_concat(
    first: Seq<PlannedTransactionView>,
    second: Seq<PlannedTransactionView>,
)
    ensures
        required_capacity(first + second) == required_capacity(first) + required_capacity(second),
    decreases second.len(),
{
    if second.len() == 0 {
        assert(first + second =~= first);
    } else {
        lemma_required_capacity_concat(first, second.drop_last());
        assert((first + second).drop_last() =~= first + second.drop_last());
        assert((first + second).last() == second.last());
    }
}

/// Plans the deployment: the transaction that creates its cells,
/// then the one that creates its dep groups.
///
/// With `options.migrate`, an output whose name `migration_state` knows
/// replaces the cell recorded there; every other output is created anew. The
/// costs are looked at first, then the references of the dep groups, then
/// the capacity.
pub fn plan(
    deployment: &Deployment,
    migration_state: &MigrationState,
    options: &DeployOption,
    funding: &Funding,
) -> (result: Result<Vec<PlannedTransaction>, PlanError>)
    ensures
        match result {
            Ok(transactions) => {
                &&& costs_match(deployment@, funding@)
                &&& all_resolved(deployment@)
                &&& required_capacity(planned(deployment@, migration_state@, *options, funding@))
                    <= funding.available
                &&& transaction_views(transactions@) == planned(
                    deployment@,
                    migration_state@,
                    *options,
                    funding@,
                )
            },
            Err(PlanError::CostsMismatch) => !costs_match(deployment@, funding@),
            Err(PlanError::UnresolvedReference { name }) => {
                &&& costs_match(deployment@, funding@)
                &&& first_unresolved(deployment@, name@)
            },
            Err(PlanError::InsufficientCapacity { shortfall }) => {
                &&& costs_match(deployment@, funding@)
                &&& all_resolved(deployment@)
                &&& required_capacity(planned(deployment@, migration_state@, *options, funding@))
                    > funding.available
                &&& shortfall == capped(
                    required_capacity(planned(deployment@, migration_state@, *options, funding@)),
                ) - funding.available
            },
        },
{
    if funding.cell_costs.len() != deployment.cells.len() || funding.dep_group_costs.len()
        != deployment.dep_groups.len() {
        return Err(PlanError::CostsMismatch);
    }
    let groups = match plan_groups(
        deployment.cells.as_slice(),
        deployment.dep_groups.as_slice(),
        funding.dep_group_costs.as_slice(),
        migration_state,
        options,
    ) {
        Ok(groups) => groups,
        Err(name) => {
            return Err(PlanError::UnresolvedReference { name });
        },
    };
    let cells = plan_cells(
        deployment.cells.as_slice(),
        funding.cell_costs.as_slice(),
        migration_state,
        options,
    );
    let ghost cell_part = transaction_of(output_views(cells@), options.tx_fee);
    let ghost group_part = transaction_of(output_views(groups@), options.tx_fee);
    assert(cell_part + group_part == planned(deployment@, migration_state@, *options, funding@));
    let cell_need: u128 = transaction_need(&cells, options.tx_fee);
    let group_need: u128 = transaction_need(&groups, options.tx_fee);
    let required: u128 = cell_need.saturating_add(group_need);
    proof {
        lemma_required_capacity_concat(cell_part, group_part);
        assert(required == capped(required_capacity(cell_part + group_part)));
    }
    if required > funding.available as u128 {
        return Err(PlanError::InsufficientCapacity { shortfall: required - funding.available as u128 });
    }
    let mut transactions: Vec<PlannedTransaction> = Vec::new();
    assert(transaction_views(transactions@) =~= Seq::empty());
    if cells.len() > 0 {
        let transaction = PlannedTransaction { outputs: cells, fee: options.tx_fee };
        transactions.push(transaction);
        assert(transaction_views(transactions@) =~= cell_part);
    }
    assert(transaction_views(transactions@) =~= cell_part);
    if groups.len() > 0 {
        let ghost before = transaction_views(transactions@);
        let transaction = PlannedTransaction { outputs: groups, fee: options.tx_fee };
        transactions.push(transaction);
        assert(transaction_views(transactions@) =~= before.push(transaction@));
        assert(before.push(transaction@) =~= cell_part + group_part);
    }
    assert(transaction_views(transactions@) =~= cell_part + group_part);
    Ok(transactions)
}

/// All the capacities together.
pub open spec fn capacity_sum(capacities: Seq<u64>) -> nat
    decreases capacities.len(),
{
    if capacities.len() == 0 {
        0
    } else {
        capacity_sum(capacities.drop_last()) + capacities.last() as nat
    }
}

/// The first `count` cells are what pays `needed`: together they hold as
/// much, and without the last of them they would not.
pub open spec fn pays(capacities: Seq<u64>, needed: nat, count: int) -> bool {
    &&& 0 <= count <= capacities.len()
    &&& capacity_sum(capacities.subrange(0, count)) >= needed
    &&& count > 0 ==> capacity_sum(capacities.subrange(0, count - 1)) < needed
}

/// Chooses the cells of the spending source that pay for a transaction:
/// they are taken in their order until they hold what is needed. The result
/// is the number of cells taken and the change that is left of them; `None`
/// where all the cells together hold too little.
pub fn select_funding(capacities: &[u64], needed: u128) -> (result: Option<(usize, u64)>)
    ensures
        match result {
            Some((count, change)) => {
                &&& pays(capacities@, needed as nat, count as int)
                &&& change == capacity_sum(capacities@.subrange(0, count as int)) - needed
            },
            None => capacity_sum(capacities@) < needed,
        },
{
    let mut paid: u128 = 0;
    let mut count: usize = 0;
    assert(capacities@.subrange(0, 0) =~= Seq::<u64>::empty());
    while paid < needed && count < capacities.len()
        invariant
            count <= capacities@.len(),
            paid == capacity_sum(capacities@.subrange(0, count as int)),
            paid <= count * u64::MAX,
            count > 0 ==> capacity_sum(capacities@.subrange(0, count - 1)) < needed,
        decreases capacities@.len() - count,
    {
        proof {
            let next = capacities@.subrange(0, count + 1);
            assert(next.drop_last() =~= capacities@.subrange(0, count as int));
            assert(next.last() == capacities@[count as int]);
            assert((count + 1) * u64::MAX == count * u64::MAX + u64::MAX) by (nonlinear_arith);
            assert(count * u64::MAX <= usize::MAX * u64::MAX) by (nonlinear_arith)
                requires
                    count <= usize::MAX,
            ;
            assert(usize::MAX * u64::MAX + u64::MAX <= u128::MAX) by (nonlinear_arith)
                requires
                    usize::MAX <= u64::MAX,
            ;
        }
        paid = paid + capacities[count] as u128;
        count = count + 1;
    }
    if paid < needed {
        assert(capacities@.subrange(0, count as int) =~= capacities@);
        None
    } else {
        proof {
            if count > 0 {
                let taken = capacities@.subrange(0, count as int);
                assert(taken.drop_last() =~= capacities@.subrange(0, count - 1));
            }
        }
        Some((count, (paid - needed) as u64))
    }
}

impl PlannedTransactionView {
    /// What the transaction needs from the spending source: the storage
    /// cost of its outputs and its fee.
    pub open spec fn needed(self) -> nat {
        storage_cost(self.outputs) + self.fee as nat
    }

    /// The transaction replaces a cell that was deployed before.
    pub open spec fn replaces_deployed(self) -> bool {
        exists|j: int| 0 <= j < self.outputs.len() && (#[trigger] self.outputs[j]).previous is Some
    }
}

impl PlannedTransaction {
    /// What the transaction needs from the spending source.
    pub fn needed(&self) -> (need: u128)
        ensures
            need == self@.needed(),
    {
        let cost: u128 = total_cost(&self.outputs);
        let count: usize = self.outputs.len();
        proof {
            assert(count * u64::MAX <= usize::MAX * u64::MAX) by (nonlinear_arith)
                requires
                    count <= usize::MAX,
            ;
            assert(usize::MAX * u64::MAX + u64::MAX <= u128::MAX) by (nonlinear_arith)
                requires
                    usize::MAX <= u64::MAX,
            ;
        }
        cost + self.fee as u128
    }

    /// Whether the transaction replaces a cell that was deployed before, and
    /// so needs the authority that locks the deployed cells.
    pub fn replaces_deployed(&self) -> (result: bool)
        ensures
            result == self@.replaces_deployed(),
    {
        let mut j: usize = 0;
        while j < self.outputs.len()
            invariant
                j <= self.outputs@.len(),
                forall|k: int| 0 <= k < j ==> (#[trigger] self@.outputs[k]).previous is None,
            decreases self.outputs@.len() - j,
        {
            assert(self@.outputs[j as int] == self.outputs@[j as int]@);
            if self.outputs[j].previous.is_some() {
                return true;
            }
            j = j + 1;
        }
        false
    }
}

/// The output that creates the cell at `index`, which is deployed from a file.
pub open spec fn cell_output(
    cells: Seq<CellView>,
    costs: Seq<u64>,
    state: MigrationStateView,
    options: DeployOption,
    index: int,
) -> PlannedOutputView
    recommends
        0 <= index < cells.len(),
        cells[index].location is File,
{
    PlannedOutputView {
        name: cells[index].name,
        content: PlannedContentView::Artifact {
            file: cells[index].location->file,
            enable_type_id: cells[index].enable_type_id,
        },
        previous: previous_place(state, options, cells[index].name),
        capacity: costs[index],
    }
}

/// A cell that is deployed from a file is created by the output whose
/// index is the number of such cells before it.
pub proof fn lemma_cell_output_at(
    cells: Seq<CellView>,
    costs: Seq<u64>,
    state: MigrationStateView,
    options: DeployOption,
    index: int,
)
    requires
        0 <= index < cells.len(),
        cells[index].location is File,
    ensures
        file_count(cells.subrange(0, index)) < cell_outputs(cells, costs, state, options).len(),
        cell_outputs(cells, costs, state, options)[file_count(cells.subrange(0, index)) as int]
            == cell_output(cells, costs, state, options, index),
    decreases cells.len(),
{
    let front = cells.drop_last();
    lemma_file_count(front, costs, state, options);
    if index == cells.len() - 1 {
        assert(cells.subrange(0, index) =~= front);
    } else {
        lemma_cell_output_at(front, costs, state, options, index);
        assert(front.subrange(0, index) =~= cells.subrange(0, index));
        assert(front[index] == cells[index]);
    }
}

/// Every output that creates a cell replaces the place that its name has,
/// where it has one and cells are migrated, and is created anew otherwise.
pub proof fn lemma_cell_outputs_previous(
    cells: Seq<CellView>,
    costs: Seq<u64>,
    state: MigrationStateView,
    options: DeployOption,
    output: int,
)
    requires
        0 <= output < cell_outputs(cells, costs, state, options).len(),
    ensures
        cell_outputs(cells, costs, state, options)[output].previous == previous_place(
            state,
            options,
            cell_outputs(cells, costs, state, options)[output].name,
        ),
        cell_outputs(cells, costs, state, options)[output].content is Artifact,
    decreases cells.len(),
{
    if cells.len() > 0 {
        let before = cell_outputs(cells.drop_last(), costs, state, options);
        if output < before.len() {
            lemma_cell_outputs_previous(cells.drop_last(), costs, state, options, output);
        }
    }
}

/// In a plan, a cell is created before any dep group that names it: the dep
/// groups are created by the last transaction, and a member that is deployed
/// from a file is an output of an earlier transaction, which carries the
/// member's name; a member that is on the ledger already is referred to by
/// the place that the deployment gives for it.
pub proof fn lemma_members_precede_groups(
    deployment: DeploymentView,
    state: MigrationStateView,
    options: DeployOption,
    funding: FundingView,
    group: int,
    member: int,
)
    requires
        deployment.cells.len() <= usize::MAX,
        costs_match(deployment, funding),
        all_resolved(deployment),
        0 <= group < deployment.dep_groups.len(),
        0 <= member < deployment.dep_groups[group].cells.len(),
    ensures
        ({
            let transactions = planned(deployment, state, options, funding);
            let last = transactions.len() - 1;
            let name = deployment.dep_groups[group].cells[member];
            &&& transactions.len() >= 1
            &&& group < transactions[last].outputs.len()
            &&& transactions[last].outputs[group].name == deployment.dep_groups[group].name
            &&& transactions[last].outputs[group].content is DepGroup
            &&& member < transactions[last].outputs[group].content->members.len()
            &&& match transactions[last].outputs[group].content->members[member] {
                CellSource::Planned { transaction, output } => {
                    &&& transaction < last
                    &&& output < transactions[transaction as int].outputs.len()
                    &&& transactions[transaction as int].outputs[output as int].name == name
                    &&& transactions[transaction as int].outputs[output as int].content is Artifact
                },
                CellSource::OnChain(place) => exists|cell: int|
                    {
                        &&& 0 <= cell < deployment.cells.len()
                        &&& (#[trigger] deployment.cells[cell]).name == name
                        &&& deployment.cells[cell].location == (CellLocationView::OutPoint {
                            tx_hash: place.tx_hash,
                            index: place.index,
                        })
                    },
            }
        }),
{
    let cells = deployment.cells;
    let groups = deployment.dep_groups;
    let name = groups[group].cells[member];
    let created = cell_outputs(cells, funding.cell_costs, state, options);
    let grouped = group_outputs(cells, groups, funding.dep_group_costs, state, options);
    let transactions = planned(deployment, state, options, funding);
    let last = transactions.len() - 1;
    assert(grouped.len() == groups.len());
    assert(transactions[last].outputs == grouped);
    assert(grouped[group] == group_output(
        cells,
        groups[group],
        funding.dep_group_costs[group],
        state,
        options,
    ));
    assert(group_resolved(cells, groups[group]));
    assert(member_source(cells, groups[group].cells[member]) is Some);
    lemma_first_named(cells, name);
    let found = first_named(cells, name).unwrap();
    match cells[found].location {
        CellLocationView::File { .. } => {
            lemma_cell_output_at(cells, funding.cell_costs, state, options, found);
            lemma_file_count(cells.subrange(0, found), funding.cell_costs, state, options);
            assert(created.len() > 0);
            assert(transactions[0].outputs == created);
            assert(last == 1);
        },
        CellLocationView::OutPoint { .. } => {},
    }
}

/// Where cells are migrated, every output of a plan replaces the place
/// that the record of deployments has for its name, and is created anew only
/// where the record has none.
pub proof fn lemma_plan_replaces_recorded(
    deployment: DeploymentView,
    state: MigrationStateView,
    options: DeployOption,
    funding: FundingView,
    transaction: int,
    output: int,
)
    requires
        options.migrate,
        0 <= transaction < planned(deployment, state, options, funding).len(),
        0 <= output < planned(deployment, state, options, funding)[transaction].outputs.len(),
    ensures
        planned(deployment, state, options, funding)[transaction].outputs[output].previous
            == state.location(
            planned(deployment, state, options, funding)[transaction].outputs[output].name,
        ),
{
    let created = cell_outputs(deployment.cells, funding.cell_costs, state, options);
    let grouped = group_outputs(
        deployment.cells,
        deployment.dep_groups,
        funding.dep_group_costs,
        state,
        options,
    );
    let transactions = planned(deployment, state, options, funding);
    if created.len() > 0 && transaction == 0 {
        assert(transactions[transaction].outputs == created);
        lemma_cell_outputs_previous(deployment.cells, funding.cell_costs, state, options, output);
    } else {
        assert(transactions[transaction].outputs == grouped);
    }
}

/// A deployment that is run again after part of it was recorded does not
/// create the recorded cells anew: in the plan of the second run, with
/// migration, every output whose name is among the records replaces the place
/// that is recorded for it.
pub proof fn lemma_resumed_plan_keeps_recorded(
    deployment: DeploymentView,
    before: MigrationStateView,
    after: MigrationStateView,
    records: Seq<MigrationRecordView>,
    options: DeployOption,
    funding: FundingView,
    record: int,
    transaction: int,
    output: int,
)
    requires
        options.migrate,
        after.locations == recorded_over(before.locations, records),
        0 <= record < records.len(),
        0 <= transaction < planned(deployment, after, options, funding).len(),
        0 <= output < planned(deployment, after, options, funding)[transaction].outputs.len(),
        planned(deployment, after, options, funding)[transaction].outputs[output].name
            == records[record].name,
    ensures
        planned(deployment, after, options, funding)[transaction].outputs[output].previous
            is Some,
        planned(deployment, after, options, funding)[transaction].outputs[output].previous
            == after.location(records[record].name),
{
    lemma_recorded_over_contains(before.locations, records, record);
    lemma_plan_replaces_recorded(deployment, after, options, funding, transaction, output);
}

} // verus!
