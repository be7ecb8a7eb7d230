use vstd::prelude::*;
use crate::client_models::{ColumnConfig, ColumnProps, Config, ConfigValue, ImportConfig, Operation, OperationConfig, RowIdentity, SheetConfig, ValueType};
use crate::models::{Date, Name, Row, Sheet, header_index, lemma_header_index, find_column, set_column, with_cell};
use crate::ids::new_id;

verus! {

broadcast use vstd::seq_lib::group_seq_properties;

/// A copy of an operand.
pub fn copy_value_type(v: &ValueType) -> (res: ValueType)
    ensures
        res == *v,
    decreases v,
{
    match v {
        ValueType::Const(b) => ValueType::Const(*b),
        ValueType::Variable(s) => ValueType::Variable(s.clone()),
        ValueType::Operation(op) => ValueType::Operation(Box::new(copy_operation(op))),
    }
}

/// A copy of an operation.
pub fn copy_operation(op: &Operation) -> (res: Operation)
    ensures
        res == *op,
    decreases op,
{
    Operation { op: op.op, lhs: copy_value_type(&op.lhs), rhs: copy_value_type(&op.rhs) }
}

/// A copy of the configuration of an entered column.
pub fn copy_column_config(c: &ColumnConfig) -> (res: ColumnConfig)
    ensures
        res == *c,
{
    match c {
        ColumnConfig::String(p) => ColumnConfig::String(ColumnProps { header: p.header.clone(), is_completable: p.is_completable }),
        ColumnConfig::Float(p) => ColumnConfig::Float(ColumnProps { header: p.header.clone(), is_completable: p.is_completable }),
        ColumnConfig::Date(p) => ColumnConfig::Date(ColumnProps { header: p.header.clone(), is_completable: p.is_completable }),
    }
}

/// A copy of a column configuration.
pub fn copy_config_value(v: &ConfigValue) -> (res: ConfigValue)
    ensures
        res == *v,
{
    match v {
        ConfigValue::Basic(c) => ConfigValue::Basic(copy_column_config(c)),
        ConfigValue::Calculated(c) => ConfigValue::Calculated(OperationConfig { header: c.header.clone(), value: copy_operation(&c.value) }),
    }
}

/// A copy of a row identity.
pub fn copy_row_identity(v: &RowIdentity<String>) -> (res: RowIdentity<String>)
    ensures
        res.id == v.id,
        res.diff_ops@ == v.diff_ops@,
{
    let mut ops: Vec<(String, crate::client_models::IdentityDiffsOps)> = Vec::new();
    let mut i: usize = 0;
    while i < v.diff_ops.len()
        invariant
            i <= v.diff_ops@.len(),
            ops@ == v.diff_ops@.take(i as int),
        decreases v.diff_ops@.len() - i,
    {
        ops.push((v.diff_ops[i].0.clone(), v.diff_ops[i].1));
        assert(v.diff_ops@.take(i + 1) =~= v.diff_ops@.take(i as int).push(v.diff_ops@[i as int]));
        i = i + 1;
    }
    assert(v.diff_ops@.take(v.diff_ops@.len() as int) =~= v.diff_ops@);
    RowIdentity { id: v.id.clone(), diff_ops: ops }
}

/// A copy of a list of texts.
pub fn copy_texts(v: &Vec<String>) -> (res: Vec<String>)
    ensures
        res@ == v@,
{
    let mut res: Vec<String> = Vec::new();
    let mut i: usize = 0;
    while i < v.len()
        invariant
            i <= v@.len(),
            res@ == v@.take(i as int),
        decreases v@.len() - i,
    {
        res.push(v[i].clone());
        assert(v@.take(i + 1) =~= v@.take(i as int).push(v@[i as int]));
        i = i + 1;
    }
    assert(v@.take(v@.len() as int) =~= v@);
    res
}

/// The settings of the application, split from its configuration by sheet
/// type: the names of the sheet types (each with a fresh identifier), and by
/// type name the columns of its rows, its import configuration, its row
/// identity and the headers its rows are ordered by.
pub struct SheetsSettings {
    pub names: Vec<Name<u128>>,
    pub rows: Vec<(String, Vec<ConfigValue>)>,
    pub imports: Vec<(String, ImportConfig)>,
    pub identities: Vec<(String, RowIdentity<String>)>,
    pub priorities: Vec<(String, Vec<String>)>,
}

/// `entries` set in turn, by key, into an empty list (a later entry with
/// the same key replaces an earlier one).
pub open spec fn keyed<C>(entries: Seq<(String, C)>) -> Seq<(String, C)>
    decreases entries.len(),
{
    if entries.len() == 0 {
        Seq::empty()
    } else {
        with_cell(keyed(entries.drop_last()), entries.last().0, entries.last().1)
    }
}

/// Splits the configuration by sheet type.
pub fn settings_from_config(config: Config) -> (res: SheetsSettings)
    ensures
        res.names@.len() == config.sheets@.len(),
        forall|i: int|
            0 <= i < config.sheets@.len() ==> (#[trigger] res.names@[i]).the_name == config.sheets@[i].sheet_type_name
                && (res.names@[i].id >> 76u128) & 0xfu128 == 4u128,
        res.rows@ == keyed(config.sheets@.map_values(|s: SheetConfig<String>| (s.sheet_type_name, s.row))),
        res.imports@ == keyed(config.sheets@.map_values(|s: SheetConfig<String>| (s.sheet_type_name, s.importing))),
        res.identities@ == keyed(config.sheets@.map_values(|s: SheetConfig<String>| (s.sheet_type_name, s.row_identity))),
        res.priorities == config.priorities,
{
    let Config { priorities, sheets } = config;
    let ghost all = sheets@;
    let mut sheets = sheets;
    let mut names: Vec<Name<u128>> = Vec::new();
    let mut rows: Vec<(String, Vec<ConfigValue>)> = Vec::new();
    let mut imports: Vec<(String, ImportConfig)> = Vec::new();
    let mut identities: Vec<(String, RowIdentity<String>)> = Vec::new();
    let n = sheets.len();
    let mut k: usize = 0;
    assert(all.skip(0) =~= all);
    assert(all.take(0).map_values(|s: SheetConfig<String>| (s.sheet_type_name, s.row)) =~= Seq::<(String, Vec<ConfigValue>)>::empty());
    assert(all.take(0).map_values(|s: SheetConfig<String>| (s.sheet_type_name, s.importing)) =~= Seq::<(String, ImportConfig)>::empty());
    assert(all.take(0).map_values(|s: SheetConfig<String>| (s.sheet_type_name, s.row_identity)) =~= Seq::<(String, RowIdentity<String>)>::empty());
    while k < n
        invariant
            n == all.len(),
            k <= n,
            sheets@ == all.skip(k as int),
            names@.len() == k,
            forall|i: int|
                0 <= i < k ==> (#[trigger] names@[i]).the_name == all[i].sheet_type_name
                    && (names@[i].id >> 76u128) & 0xfu128 == 4u128,
            rows@ == keyed(all.take(k as int).map_values(|s: SheetConfig<String>| (s.sheet_type_name, s.row))),
            imports@ == keyed(all.take(k as int).map_values(|s: SheetConfig<String>| (s.sheet_type_name, s.importing))),
            identities@ == keyed(all.take(k as int).map_values(|s: SheetConfig<String>| (s.sheet_type_name, s.row_identity))),
        decreases n - k,
    {
        let sheet = sheets.remove(0);
        assert(all.skip(k as int).remove(0) =~= all.skip(k + 1));
        assert(all.take(k + 1) =~= all.take(k as int).push(sheet));
        assert(all.take(k + 1).map_values(|s: SheetConfig<String>| (s.sheet_type_name, s.row)).drop_last()
            =~= all.take(k as int).map_values(|s: SheetConfig<String>| (s.sheet_type_name, s.row)));
        assert(all.take(k + 1).map_values(|s: SheetConfig<String>| (s.sheet_type_name, s.importing)).drop_last()
            =~= all.take(k as int).map_values(|s: SheetConfig<String>| (s.sheet_type_name, s.importing)));
        assert(all.take(k + 1).map_values(|s: SheetConfig<String>| (s.sheet_type_name, s.row_identity)).drop_last()
            =~= all.take(k as int).map_values(|s: SheetConfig<String>| (s.sheet_type_name, s.row_identity)));
        let SheetConfig { sheet_type_name, importing, row, row_identity } = sheet;
        names.push(Name { id: new_id(), the_name: sheet_type_name.clone() });
        set_column(&mut rows, sheet_type_name.clone(), row);
        set_column(&mut imports, sheet_type_name.clone(), importing);
        set_column(&mut identities, sheet_type_name, row_identity);
        k = k + 1;
    }
    assert(all.take(n as int) =~= all);
    SheetsSettings { names, rows, imports, identities, priorities }
}

/// The position of the first sheet-type name with the identifier `id`.
pub open spec fn name_index(names: Seq<Name<u128>>, id: u128) -> Option<int>
    decreases names.len(),
{
    if names.len() == 0 {
        None
    } else if names[0].id == id {
        Some(0)
    } else {
        match name_index(names.drop_first(), id) {
            Some(i) => Some(i + 1),
            None => None,
        }
    }
}

/// The name of the sheet type with the identifier `id` (the first one with
/// it); empty when no identifier is given. The type must exist.
pub fn sheet_type_name(names: &Vec<Name<u128>>, id: Option<u128>) -> (res: String)
    requires
        id matches Some(i) ==> name_index(names@, i) is Some,
    ensures
        id matches Some(t) ==> res@ == names@[name_index(names@, t)->0].the_name@,
        id is None ==> res@.len() == 0,
{
    match id {
        Some(i) => {
            proof {
                lemma_name_index(names@, i);
            }
            let mut k: usize = 0;
            while k < names.len()
                invariant
                    k <= names@.len(),
                    id == Some(i),
                    name_index(names@, i) is Some,
                    forall|j: int| 0 <= j < k ==> names@[j].id != i,
                decreases names@.len() - k,
            {
                if names[k].id == i {
                    proof {
                        lemma_name_index(names@, i);
                        assert(names@[k as int].id == i);
                        match name_index(names@, i) {
                            Some(t) => {
                                if t < k {
                                    assert(names@[t].id != i);
                                }
                                if t > k {
                                    assert(names@[k as int].id != i);
                                }
                            },
                            None => {},
                        }
                        assert(name_index(names@, i) == Some(k as int));
                    }
                    return names[k].the_name.clone();
                }
                k = k + 1;
            }
            String::new()
        },
        None => String::new(),
    }
}

/// `name_index` is the first position holding `id`.
pub proof fn lemma_name_index(names: Seq<Name<u128>>, id: u128)
    ensures
        match name_index(names, id) {
            Some(i) => 0 <= i < names.len() && names[i].id == id && forall|j: int|
                0 <= j < i ==> names[j].id != id,
            None => forall|j: int| 0 <= j < names.len() ==> names[j].id != id,
        },
    decreases names.len(),
{
    if names.len() > 0 {
        lemma_name_index(names.drop_first(), id);
        if names[0].id != id {
            match name_index(names.drop_first(), id) {
                Some(i) => {
                    assert forall|j: int| 0 <= j < i + 1 implies names[j].id != id by {
                        if j > 0 {
                            assert(names[j] == names.drop_first()[j - 1]);
                        }
                    }
                },
                None => {
                    assert forall|j: int| 0 <= j < names.len() implies names[j].id != id by {
                        if j > 0 {
                            assert(names[j] == names.drop_first()[j - 1]);
                        }
                    }
                },
            }
        }
    }
}

/// The entry of the sheet type `name` in a list keyed by type name.
fn entry_of<'a, C>(entries: &'a Vec<(String, C)>, name: &String) -> (res: &'a C)
    requires
        header_index(entries@, name@) is Some,
    ensures
        *res == entries@[header_index(entries@, name@)->0].1,
{
    let found = find_column(entries, name);
    proof {
        lemma_header_index(entries@, name@);
    }
    match found {
        Some(i) => &entries[i].1,
        None => &entries[0].1,
    }
}

/// The headers of the primary row of the sheet type `name`, in the order of
/// its import configuration; none when no type is given. The type must
/// exist.
pub fn sheet_primary_headers(imports: &Vec<(String, ImportConfig)>, name: Option<&String>) -> (res: Vec<String>)
    requires
        name matches Some(n) ==> header_index(imports@, n@) is Some,
    ensures
        match name {
            Some(n) => res@ == imports@[header_index(imports@, n@)->0].1.primary@.map_values(|e: (String, Vec<String>)| e.0),
            None => res@.len() == 0,
        },
{
    match name {
        Some(n) => {
            let config = entry_of(imports, n);
            let primary = &config.primary;
            let mut res: Vec<String> = Vec::new();
            let mut i: usize = 0;
            while i < primary.len()
                invariant
                    i <= primary@.len(),
                    res@ == primary@.take(i as int).map_values(|e: (String, Vec<String>)| e.0),
                decreases primary@.len() - i,
            {
                res.push(primary[i].0.clone());
                assert(primary@.take(i + 1) =~= primary@.take(i as int).push(primary@[i as int]));
                assert(res@ =~= primary@.take(i + 1).map_values(|e: (String, Vec<String>)| e.0));
                i = i + 1;
            }
            assert(primary@.take(primary@.len() as int) =~= primary@);
            res
        },
        None => Vec::new(),
    }
}

/// The columns of the rows of the sheet type `name`; none when no type is
/// given. The type must exist.
pub fn sheet_headers(rows: &Vec<(String, Vec<ConfigValue>)>, name: Option<&String>) -> (res: Vec<ConfigValue>)
    requires
        name matches Some(n) ==> header_index(rows@, n@) is Some,
    ensures
        match name {
            Some(n) => res@ == rows@[header_index(rows@, n@)->0].1@,
            None => res@.len() == 0,
        },
{
    match name {
        Some(n) => {
            let columns = entry_of(rows, n);
            let mut res: Vec<ConfigValue> = Vec::new();
            let mut i: usize = 0;
            while i < columns.len()
                invariant
                    i <= columns@.len(),
                    res@ == columns@.take(i as int),
                decreases columns@.len() - i,
            {
                res.push(copy_config_value(&columns[i]));
                assert(columns@.take(i + 1) =~= columns@.take(i as int).push(columns@[i as int]));
                i = i + 1;
            }
            assert(columns@.take(columns@.len() as int) =~= columns@);
            res
        },
        None => Vec::new(),
    }
}

/// The row identity of the sheet type `name`; an error when no type is
/// given or the type has none.
pub fn get_rows_ids(identities: &Vec<(String, RowIdentity<String>)>, name: Option<&String>) -> (res: Result<RowIdentity<String>, String>)
    ensures
        match name {
            Some(n) => match header_index(identities@, n@) {
                Some(i) => res matches Ok(r) && r.id == identities@[i].1.id && r.diff_ops@ == identities@[i].1.diff_ops@,
                None => res matches Err(e) && e@ == "id does not exist"@,
            },
            None => res matches Err(e) && e@ == "id does not exist"@,
        },
{
    let n = match name {
        Some(n) => n,
        None => {
            return Err(String::from_str("id does not exist"));
        },
    };
    let found = find_column(identities, n);
    proof {
        lemma_header_index(identities@, n@);
    }
    match found {
        Some(i) => Ok(copy_row_identity(&identities[i].1)),
        None => Err(String::from_str("id does not exist")),
    }
}

/// The headers by which the rows of the sheet type `name` are ordered; none
/// when no type is given; an error when the type has no priorities.
pub fn get_priorities(priorities: &Vec<(String, Vec<String>)>, name: Option<&String>) -> (res: Result<Vec<String>, String>)
    ensures
        match name {
            Some(n) => match header_index(priorities@, n@) {
                Some(i) => res matches Ok(r) && r@ == priorities@[i].1@,
                None => res matches Err(e) && e@ == "priority does not exist"@,
            },
            None => res matches Ok(r) && r@.len() == 0,
        },
{
    let n = match name {
        Some(n) => n,
        None => {
            return Ok(Vec::new());
        },
    };
    let found = find_column(priorities, n);
    proof {
        lemma_header_index(priorities@, n@);
    }
    match found {
        Some(i) => Ok(copy_texts(&priorities[i].1)),
        None => Err(String::from_str("priority does not exist")),
    }
}

/// A new sheet to save: refused when its name is empty.
pub fn new_sheet(
    sheet_id: u128,
    sheet_name: String,
    sheet_type_name: String,
    insert_date: Date,
    rows: Vec<Row<u128, String>>,
) -> (res: Result<Sheet<u128, String>, String>)
    ensures
        sheet_name@.len() == 0 <==> res is Err,
        res matches Err(e) ==> e@ == "اسم الشيت مطلوب"@,
        res matches Ok(s) ==> s.id == sheet_id && s.sheet_name == sheet_name && s.sheet_type_name == sheet_type_name
            && s.insert_date == insert_date && s.rows == rows,
{
    if sheet_name.as_str().is_empty() {
        return Err(String::from_str("اسم الشيت مطلوب"));
    }
    Ok(Sheet { id: sheet_id, sheet_name, sheet_type_name, insert_date, rows })
}

/// The entered columns among `columns`, in order.
pub open spec fn basic_configs(columns: Seq<ConfigValue>) -> Seq<ColumnConfig>
    decreases columns.len(),
{
    if columns.len() == 0 {
        Seq::empty()
    } else {
        let rest = basic_configs(columns.drop_last());
        match columns.last() {
            ConfigValue::Basic(c) => rest.push(c),
            ConfigValue::Calculated(_) => rest,
        }
    }
}

/// The calculated columns among `columns`, in order.
pub open spec fn calculated_configs(columns: Seq<ConfigValue>) -> Seq<OperationConfig>
    decreases columns.len(),
{
    if columns.len() == 0 {
        Seq::empty()
    } else {
        let rest = calculated_configs(columns.drop_last());
        match columns.last() {
            ConfigValue::Basic(_) => rest,
            ConfigValue::Calculated(c) => rest.push(c),
        }
    }
}

/// Splits the columns of a sheet type into the entered and the calculated
/// ones, each in order.
pub fn basic_and_calculated(columns: &Vec<ConfigValue>) -> (res: (Vec<ColumnConfig>, Vec<OperationConfig>))
    ensures
        res.0@ == basic_configs(columns@),
        res.1@ == calculated_configs(columns@),
{
    let mut basic: Vec<ColumnConfig> = Vec::new();
    let mut calculated: Vec<OperationConfig> = Vec::new();
    let mut i: usize = 0;
    assert(columns@.take(0) =~= Seq::<ConfigValue>::empty());
    while i < columns.len()
        invariant
            i <= columns@.len(),
            basic@ == basic_configs(columns@.take(i as int)),
            calculated@ == calculated_configs(columns@.take(i as int)),
        decreases columns@.len() - i,
    {
        assert(columns@.take(i + 1).drop_last() =~= columns@.take(i as int));
        match &columns[i] {
            ConfigValue::Basic(c) => basic.push(copy_column_config(c)),
            ConfigValue::Calculated(c) => calculated.push(
                OperationConfig { header: c.header.clone(), value: copy_operation(&c.value) },
            ),
        }
        i = i + 1;
    }
    assert(columns@.take(columns@.len() as int) =~= columns@);
    (basic, calculated)
}

/// The first entered column with the header `h`.
pub open spec fn first_with_header(columns: Seq<ColumnConfig>, h: Seq<char>) -> Option<ColumnConfig>
    decreases columns.len(),
{
    if columns.len() == 0 {
        None
    } else if columns[0].header_view() == h {
        Some(columns[0])
    } else {
        first_with_header(columns.drop_first(), h)
    }
}

/// The configuration of the entered column `header` (the first one with
/// that header), if there is one.
pub fn column_type(columns: &Vec<ColumnConfig>, header: &String) -> (res: Option<ColumnConfig>)
    ensures
        res == first_with_header(columns@, header@),
{
    let mut i: usize = 0;
    assert(columns@.skip(0) =~= columns@);
    while i < columns.len()
        invariant
            i <= columns@.len(),
            first_with_header(columns@, header@) == first_with_header(columns@.skip(i as int), header@),
        decreases columns@.len() - i,
    {
        assert(columns@.skip(i as int).drop_first() =~= columns@.skip(i + 1));
        let found = match &columns[i] {
            ColumnConfig::String(p) => p.header == *header,
            ColumnConfig::Float(p) => p.header == *header,
            ColumnConfig::Date(p) => p.header == *header,
        };
        if found {
            return Some(copy_column_config(&columns[i]));
        }
        i = i + 1;
    }
    None
}

} // verus!
