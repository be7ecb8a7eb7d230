use vstd::prelude::*;
use crate::models::StrMarker;

verus! {

/// An operand of a calculated column: a constant number (as the bit pattern
/// of a binary64 value), the value of another column, or a nested operation.
#[derive(Debug, PartialEq)]
pub enum ValueType {
    Const(u64),
    Variable(String),
    Operation(Box<Operation>),
}

/// A binary arithmetic operation on two operands.
#[derive(Debug, PartialEq)]
pub struct Operation {
    pub op: OperationKind,
    pub lhs: ValueType,
    pub rhs: ValueType,
}

#[derive(Clone, Copy, Debug, PartialEq, Eq, Structural)]
pub enum OperationKind {
    Multiply,
    Add,
    Minus,
    Divide,
}

/// A calculated column: its header and the operation that computes it.
#[derive(Debug, PartialEq)]
pub struct OperationConfig {
    pub header: String,
    pub value: Operation,
}

/// A column of a sheet type: entered by the user, or calculated.
#[derive(Debug, PartialEq)]
pub enum ConfigValue {
    Basic(ColumnConfig),
    Calculated(OperationConfig),
}

/// Where the values of a sheet type are found in an imported JSON document:
/// the path to the main entry, the path (inside it) to the list of repeated
/// entries, and, for each header, the path to its value in the main entry
/// (`unique`), in each repeated entry (`repeated`), or in the main entry for
/// the primary row (`primary`).
#[derive(Clone, Debug, PartialEq)]
pub struct ImportConfig {
    pub main_entry: Vec<String>,
    pub repeated_entry: Vec<String>,
    pub unique: Vec<(String, Vec<String>)>,
    pub repeated: Vec<(String, Vec<String>)>,
    pub primary: Vec<(String, Vec<String>)>,
}

/// How the values of one header are combined when rows that share an
/// identity are collapsed into one.
#[derive(Clone, Copy, Debug, PartialEq, Eq, Structural)]
pub enum IdentityDiffsOps {
    Sum,
    Prod,
    Max,
    Min,
    Nth(usize),
}

/// The header whose value identifies rows that belong together, and how the
/// other headers are combined when such rows are collapsed.
#[derive(Clone, Debug, PartialEq)]
pub struct RowIdentity<RC> where RC: StrMarker {
    pub id: RC,
    pub diff_ops: Vec<(RC, IdentityDiffsOps)>,
}

/// The configuration of one sheet type.
#[derive(Debug, PartialEq)]
pub struct SheetConfig<RC> where RC: StrMarker {
    pub sheet_type_name: RC,
    pub importing: ImportConfig,
    pub row: Vec<ConfigValue>,
    pub row_identity: RowIdentity<RC>,
}

/// The configuration of the application: for each sheet type the headers by
/// which its rows are ordered, and the configuration of each sheet type.
#[derive(Debug, PartialEq)]
pub struct Config {
    pub priorities: Vec<(String, Vec<String>)>,
    pub sheets: Vec<SheetConfig<String>>,
}

/// The kind and properties of a column entered by the user.
#[derive(Clone, Debug, PartialEq)]
pub enum ColumnConfig {
    String(ColumnProps),
    Float(ColumnProps),
    Date(ColumnProps),
}

#[derive(Clone, Debug, PartialEq)]
pub struct ColumnProps {
    pub header: String,
    pub is_completable: bool,
}

impl ColumnConfig {
    /// The header of the column.
    pub open spec fn header_view(self) -> Seq<char> {
        match self {
            ColumnConfig::String(p) => p.header@,
            ColumnConfig::Float(p) => p.header@,
            ColumnConfig::Date(p) => p.header@,
        }
    }
}

impl ConfigValue {
    /// The header of the column.
    pub open spec fn header_view(self) -> Seq<char> {
        match self {
            ConfigValue::Basic(c) => c.header_view(),
            ConfigValue::Calculated(c) => c.header@,
        }
    }
}

/// Gives the header of a column configuration.
pub trait HeaderGetter {
    fn get_header(self) -> String;
}

impl HeaderGetter for ColumnConfig {
    fn get_header(self) -> (res: String)
        ensures
            res@ == self.header_view(),
    {
        match self {
            ColumnConfig::String(prop) => prop.header,
            ColumnConfig::Float(prop) => prop.header,
            ColumnConfig::Date(prop) => prop.header,
        }
    }
}

impl HeaderGetter for ConfigValue {
    fn get_header(self) -> (res: String)
        ensures
            res@ == self.header_view(),
    {
        match self {
            ConfigValue::Basic(cv) => cv.get_header(),
            ConfigValue::Calculated(cv) => cv.header,
        }
    }
}

} // verus!
