//! The project file and the deployment file.

use crate::config::lock::{Lock, LockView};
use vstd::prelude::*;
use vstd::string::StringExecFns;

verus! {

/// The language template from which a contract is created.
#[derive(Clone, Copy, Debug, PartialEq, Eq, Hash, Structural)]
pub enum TemplateType {
    Rust,
    C,
    CSharedLib,
}

/// Why a configuration value was refused.
#[derive(Clone, Debug, PartialEq, Eq)]
pub enum ConfigError {
    /// The text names no template type.
    UnexpectedTemplateType { name: String },
    /// The project has a contract of that name already.
    ContractExists { name: String },
}

/// The lower-case form of `text`, as `str::to_lowercase` gives it.
pub uninterp spec fn lowercase(text: Seq<char>) -> Seq<char>;

/// Calls `str::to_lowercase`, which maps every character to its lower-case
/// form by the rules of Unicode. The contract only names the result.
#[verifier::external_body]
fn to_lowercase(text: &str) -> (lower: String)
    ensures
        lower@ == lowercase(text@),
{
    text.to_lowercase()
}

/// The template type that a lower-case name stands for.
pub open spec fn template_type_named(name: Seq<char>) -> Option<TemplateType> {
    if name == "rust"@ {
        Some(TemplateType::Rust)
    } else if name == "c"@ {
        Some(TemplateType::C)
    } else if name == "c-sharedlib"@ {
        Some(TemplateType::CSharedLib)
    } else {
        None
    }
}

impl TemplateType {
    /// The template type that `name` stands for, letter for letter: `rust`,
    /// `c` or `c-sharedlib`.
    pub fn from_name(name: &str) -> (result: Option<TemplateType>)
        ensures
            result == template_type_named(name@),
    {
        let name = name.to_owned();
        if name == String::from_str("rust") {
            Some(TemplateType::Rust)
        } else if name == String::from_str("c") {
            Some(TemplateType::C)
        } else if name == String::from_str("c-sharedlib") {
            Some(TemplateType::CSharedLib)
        } else {
            None
        }
    }

    /// The template type that `s` names, in whatever case it is written.
    pub fn from_str(s: &str) -> (result: Result<TemplateType, ConfigError>)
        ensures
            match result {
                Ok(template_type) => template_type_named(lowercase(s@)) == Some(template_type),
                Err(ConfigError::UnexpectedTemplateType { name }) => {
                    &&& template_type_named(lowercase(s@)) is None
                    &&& name@ == s@
                },
                Err(_) => false,
            },
    {
        let lower = to_lowercase(s);
        match TemplateType::from_name(lower.as_str()) {
            Some(template_type) => Ok(template_type),
            None => Err(ConfigError::UnexpectedTemplateType { name: s.to_owned() }),
        }
    }
}

/// A contract of the project.
#[derive(Clone, Debug, PartialEq, Eq)]
pub struct Contract {
    pub name: String,
    pub template_type: TemplateType,
}

/// What a [`Contract`] holds.
pub struct ContractView {
    pub name: Seq<char>,
    pub template_type: TemplateType,
}

impl View for Contract {
    type V = ContractView;

    open spec fn view(&self) -> ContractView {
        ContractView { name: self.name@, template_type: self.template_type }
    }
}

/// Settings for contracts written in Rust.
#[derive(Clone, Debug)]
pub struct RustConfig {
    /// The workspace directory, relative to the project; the project
    /// directory where none is given.
    pub workspace_dir: Option<String>,
}

impl Default for RustConfig {
    fn default() -> (config: RustConfig)
        ensures
            config.workspace_dir is None,
    {
        RustConfig { workspace_dir: None }
    }
}

/// The project file.
#[derive(Clone, Debug)]
pub struct Config {
    pub version: String,
    pub contracts: Vec<Contract>,
    /// Path of the deployment file.
    pub deployment: String,
    pub rust: RustConfig,
}

/// What a [`Config`] holds of its contracts.
pub open spec fn contract_list(contracts: Seq<Contract>) -> Seq<ContractView> {
    contracts.map_values(|contract: Contract| contract@)
}

/// Whether a contract called `name` is among `contracts`.
pub open spec fn has_contract(contracts: Seq<ContractView>, name: Seq<char>) -> bool {
    exists|i: int| 0 <= i < contracts.len() && (#[trigger] contracts[i]).name == name
}

impl Config {
    /// Adds a contract to the project. A contract whose name the project
    /// has already is refused, and the project stays as it is.
    pub fn append_contract(&mut self, contract: Contract) -> (result: Result<(), ConfigError>)
        ensures
            final(self).version == old(self).version,
            final(self).deployment == old(self).deployment,
            final(self).rust == old(self).rust,
            match result {
                Ok(()) => {
                    &&& !has_contract(contract_list(old(self).contracts@), contract@.name)
                    &&& contract_list(final(self).contracts@) == contract_list(
                        old(self).contracts@,
                    ).push(contract@)
                },
                Err(ConfigError::ContractExists { name }) => {
                    &&& has_contract(contract_list(old(self).contracts@), contract@.name)
                    &&& name@ == contract@.name
                    &&& final(self).contracts == old(self).contracts
                },
                Err(_) => false,
            },
    {
        let ghost known = contract_list(self.contracts@);
        let mut i: usize = 0;
        while i < self.contracts.len()
            invariant
                i <= self.contracts@.len(),
                known == contract_list(self.contracts@),
                *self == *old(self),
                forall|j: int| 0 <= j < i ==> (#[trigger] known[j]).name != contract@.name,
            decreases self.contracts@.len() - i,
        {
            if self.contracts[i].name == contract.name {
                assert(known[i as int].name == contract@.name);
                return Err(ConfigError::ContractExists { name: contract.name });
            }
            i = i + 1;
        }
        self.contracts.push(contract);
        assert(contract_list(self.contracts@) =~= known.push(contract@));
        Ok(())
    }
}

/// Where the content of a cell comes from.
#[derive(Clone, Debug, PartialEq, Eq)]
pub enum CellLocation {
    /// A cell that is on the ledger already.
    OutPoint { tx_hash: [u8; 32], index: u32 },
    /// A compiled artifact on disk, to be deployed as a new cell.
    File { file: String },
}

/// What a [`CellLocation`] holds.
pub enum CellLocationView {
    OutPoint { tx_hash: [u8; 32], index: u32 },
    File { file: Seq<char> },
}

impl View for CellLocation {
    type V = CellLocationView;

    open spec fn view(&self) -> CellLocationView {
        match *self {
            CellLocation::OutPoint { tx_hash, index } => CellLocationView::OutPoint {
                tx_hash,
                index,
            },
            CellLocation::File { file } => CellLocationView::File { file: file@ },
        }
    }
}

/// A cell of the deployment.
#[derive(Clone, Debug, PartialEq, Eq)]
pub struct Cell {
    pub name: String,
    pub location: CellLocation,
    /// Whether the cell gets a type script that keeps its identity when it
    /// is updated.
    pub enable_type_id: bool,
}

/// What a [`Cell`] holds.
pub struct CellView {
    pub name: Seq<char>,
    pub location: CellLocationView,
    pub enable_type_id: bool,
}

impl View for Cell {
    type V = CellView;

    open spec fn view(&self) -> CellView {
        CellView {
            name: self.name@,
            location: self.location@,
            enable_type_id: self.enable_type_id,
        }
    }
}

/// A group of cells that can be referred to as one.
#[derive(Clone, Debug, PartialEq, Eq)]
pub struct DepGroup {
    pub name: String,
    /// The names of the member cells, in order.
    pub cells: Vec<String>,
}

/// The texts that a list of strings holds.
pub open spec fn string_views(names: Seq<String>) -> Seq<Seq<char>> {
    names.map_values(|name: String| name@)
}

/// What a list of cells holds.
pub open spec fn cell_views(cells: Seq<Cell>) -> Seq<CellView> {
    cells.map_values(|cell: Cell| cell@)
}

/// What a list of groups holds.
pub open spec fn dep_group_views(groups: Seq<DepGroup>) -> Seq<DepGroupView> {
    groups.map_values(|group: DepGroup| group@)
}

/// What a [`DepGroup`] holds.
pub struct DepGroupView {
    pub name: Seq<char>,
    pub cells: Seq<Seq<char>>,
}

impl View for DepGroup {
    type V = DepGroupView;

    open spec fn view(&self) -> DepGroupView {
        DepGroupView { name: self.name@, cells: string_views(self.cells@) }
    }
}

/// The deployment file: the lock of the deployed cells, the cells, and the
/// groups of them.
#[derive(Clone, Debug, PartialEq, Eq)]
pub struct Deployment {
    pub lock: Lock,
    pub cells: Vec<Cell>,
    pub dep_groups: Vec<DepGroup>,
}

/// What a [`Deployment`] holds.
pub struct DeploymentView {
    pub lock: LockView,
    pub cells: Seq<CellView>,
    pub dep_groups: Seq<DepGroupView>,
}

impl View for Deployment {
    type V = DeploymentView;

    open spec fn view(&self) -> DeploymentView {
        DeploymentView {
            lock: self.lock@,
            cells: cell_views(self.cells@),
            dep_groups: dep_group_views(self.dep_groups@),
        }
    }
}

impl Default for Deployment {
    /// The deployment of a blank file: no lock, no cell, no group.
    fn default() -> (deployment: Deployment)
        ensures
            deployment@.lock.raw is None,
            deployment@.lock.multisig is None,
            deployment@.cells == Seq::<CellView>::empty(),
            deployment@.dep_groups == Seq::<DepGroupView>::empty(),
    {
        let deployment = Deployment {
            lock: Lock { raw: None, multisig: None },
            cells: Vec::new(),
            dep_groups: Vec::new(),
        };
        assert(deployment@.cells =~= Seq::<CellView>::empty());
        assert(deployment@.dep_groups =~= Seq::<DepGroupView>::empty());
        deployment
    }
}

} // verus!
