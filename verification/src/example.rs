use vstd::prelude::*;
use crate::client_models::{
    ColumnConfig, ColumnProps, Config, ConfigValue, IdentityDiffsOps, ImportConfig, Operation, OperationConfig,
    OperationKind, RowIdentity, SheetConfig, ValueType,
};

verus! {

/// The binary64 bit pattern of 0.14, the sales tax rate of the example.
pub const TAX_RATE_BITS: u64 = 0x3fc1eb851eb851ecu64;

/// The texts are `t`, in order.
pub open spec fn texts_are(v: Seq<String>, t: Seq<Seq<char>>) -> bool {
    &&& v.len() == t.len()
    &&& forall|i: int| 0 <= i < v.len() ==> #[trigger] v[i]@ == t[i]
}

/// The entries are the headers and paths of `t`, in order.
pub open spec fn entries_are(e: Seq<(String, Vec<String>)>, t: Seq<(Seq<char>, Seq<Seq<char>>)>) -> bool {
    &&& e.len() == t.len()
    &&& forall|i: int| 0 <= i < e.len() ==> #[trigger] e[i].0@ == t[i].0 && texts_are(e[i].1@, t[i].1)
}

/// The rules are the headers and rules of `t`, in order.
pub open spec fn rules_are(d: Seq<(String, IdentityDiffsOps)>, t: Seq<(Seq<char>, IdentityDiffsOps)>) -> bool {
    &&& d.len() == t.len()
    &&& forall|i: int| 0 <= i < d.len() ==> #[trigger] d[i].0@ == t[i].0 && d[i].1 == t[i].1
}

/// An entered text column with that header.
pub open spec fn text_column(c: ConfigValue, h: Seq<char>, completable: bool) -> bool {
    match c {
        ConfigValue::Basic(ColumnConfig::String(p)) => p.header@ == h && p.is_completable == completable,
        _ => false,
    }
}

/// An entered number column with that header.
pub open spec fn number_column(c: ConfigValue, h: Seq<char>, completable: bool) -> bool {
    match c {
        ConfigValue::Basic(ColumnConfig::Float(p)) => p.header@ == h && p.is_completable == completable,
        _ => false,
    }
}

/// An entered date column with that header.
pub open spec fn date_column(c: ConfigValue, h: Seq<char>, completable: bool) -> bool {
    match c {
        ConfigValue::Basic(ColumnConfig::Date(p)) => p.header@ == h && p.is_completable == completable,
        _ => false,
    }
}

/// The operand is the value of the column `name`.
pub open spec fn variable(v: ValueType, name: Seq<char>) -> bool {
    match v {
        ValueType::Variable(s) => s@ == name,
        _ => false,
    }
}

/// `a op b` on two columns, or on a column and a constant.
pub open spec fn binary(op: Operation, kind: OperationKind, lhs: spec_fn(ValueType) -> bool, rhs: spec_fn(ValueType) -> bool) -> bool {
    op.op == kind && lhs(op.lhs) && rhs(op.rhs)
}

/// A calculated column with that header whose operation meets `p`.
pub open spec fn calculated_column(c: ConfigValue, h: Seq<char>, p: spec_fn(Operation) -> bool) -> bool {
    match c {
        ConfigValue::Calculated(o) => o.header@ == h && p(o.value),
        _ => false,
    }
}

/// The operand is a nested operation that meets `p`.
pub open spec fn nested(v: ValueType, p: spec_fn(Operation) -> bool) -> bool {
    match v {
        ValueType::Operation(o) => p(*o),
        _ => false,
    }
}

/// `price * rate` with the tax rate.
pub open spec fn taxed(name: Seq<char>) -> spec_fn(Operation) -> bool {
    |o: Operation| binary(
        o,
        OperationKind::Multiply,
        |v: ValueType| variable(v, name),
        |v: ValueType| v == ValueType::Const(TAX_RATE_BITS),
    )
}

/// `a * b` of two columns.
pub open spec fn product(a: Seq<char>, b: Seq<char>) -> spec_fn(Operation) -> bool {
    |o: Operation| binary(o, OperationKind::Multiply, |v: ValueType| variable(v, a), |v: ValueType| variable(v, b))
}

/// The import settings shared by the example's sheet types: the document,
/// its invoice lines, the invoice number and date from the document, and
/// the issuer's name on the primary row.
pub open spec fn invoice_import(c: ImportConfig, repeated: Seq<(Seq<char>, Seq<Seq<char>>)>) -> bool {
    &&& texts_are(c.main_entry@, seq!["document"@])
    &&& texts_are(c.repeated_entry@, seq!["invoiceLines"@])
    &&& entries_are(c.repeated@, repeated)
    &&& entries_are(c.primary@, seq![("اسم الشركة"@, seq!["issuer"@, "name"@])])
}

/// The example's sales sheet type.
pub open spec fn sales_sheet(s: SheetConfig<String>) -> bool {
    &&& s.sheet_type_name@ == "مبيعات"@
    &&& s.row_identity.id@ == "رقم الفاتورة"@
    &&& rules_are(
        s.row_identity.diff_ops@,
        seq![
            ("القيمة"@, IdentityDiffsOps::Sum),
            ("رقم الفاتورة"@, IdentityDiffsOps::Nth(1)),
            ("التاريخ"@, IdentityDiffsOps::Nth(1)),
            ("اسم العميل"@, IdentityDiffsOps::Nth(1)),
            ("رقم التسجيل الضريبي"@, IdentityDiffsOps::Nth(1)),
            ("تبع"@, IdentityDiffsOps::Nth(1)),
            ("الخصم"@, IdentityDiffsOps::Sum),
        ],
    )
    &&& invoice_import(s.importing, seq![("القيمة"@, seq!["unitValue"@, "amountEGP"@])])
    &&& entries_are(
        s.importing.unique@,
        seq![
            ("رقم الفاتورة"@, seq!["internalID"@]),
            ("التاريخ"@, seq!["dateTimeIssued"@]),
            ("رقم التسجيل الضريبي"@, seq!["receiver"@, "id"@]),
            ("اسم العميل"@, seq!["receiver"@, "name"@]),
        ],
    )
    &&& s.row@.len() == 9
    &&& number_column(s.row@[0], "رقم الفاتورة"@, false)
    &&& date_column(s.row@[1], "التاريخ"@, false)
    &&& number_column(s.row@[2], "رقم التسجيل الضريبي"@, false)
    &&& text_column(s.row@[3], "اسم العميل"@, true)
    &&& text_column(s.row@[4], "تبع"@, true)
    &&& number_column(s.row@[5], "القيمة"@, false)
    &&& number_column(s.row@[6], "الخصم"@, false)
    &&& calculated_column(s.row@[7], "ض.ق.م"@, taxed("القيمة"@))
    &&& calculated_column(
        s.row@[8],
        "الاجمالي"@,
        |o: Operation| binary(
            o,
            OperationKind::Add,
            |v: ValueType| variable(v, "القيمة"@),
            |v: ValueType| nested(
                v,
                |m: Operation| binary(
                    m,
                    OperationKind::Minus,
                    |w: ValueType| nested(w, taxed("القيمة"@)),
                    |w: ValueType| variable(w, "الخصم"@),
                ),
            ),
        ),
    )
}

/// The invoice number and date, read from the document.
pub open spec fn invoice_heading(c: ImportConfig) -> bool {
    entries_are(c.unique@, seq![("رقم الفاتورة"@, seq!["internalID"@]), ("التاريخ"@, seq!["dateTimeIssued"@])])
}

/// The example's purchases sheet type.
pub open spec fn purchases_sheet(s: SheetConfig<String>) -> bool {
    &&& s.sheet_type_name@ == "مشتريات"@
    &&& s.row_identity.id@.len() == 0
    &&& s.row_identity.diff_ops@.len() == 0
    &&& invoice_import(
        s.importing,
        seq![
            ("بيان"@, seq!["description"@]),
            ("العدد"@, seq!["quantity"@]),
            ("السعر"@, seq!["unitValue"@, "amountEGP"@]),
        ],
    )
    &&& invoice_heading(s.importing)
    &&& s.row@.len() == 7
    &&& number_column(s.row@[0], "رقم الفاتورة"@, false)
    &&& date_column(s.row@[1], "التاريخ"@, false)
    &&& text_column(s.row@[2], "بيان"@, true)
    &&& number_column(s.row@[3], "رقم الاصناف"@, false)
    &&& number_column(s.row@[4], "السعر"@, false)
    &&& number_column(s.row@[5], "العدد"@, false)
    &&& calculated_column(s.row@[6], "الاجمالي"@, product("السعر"@, "العدد"@))
}

/// The example's item card sheet type.
pub open spec fn item_card_sheet(s: SheetConfig<String>) -> bool {
    &&& s.sheet_type_name@ == "كارت صنف"@
    &&& s.row_identity.id@.len() == 0
    &&& s.row_identity.diff_ops@.len() == 0
    &&& invoice_import(
        s.importing,
        seq![
            ("كود الصنف"@, seq!["itemCode"@]),
            ("اسم الصنف"@, seq!["description"@]),
            ("السعر"@, seq!["unitValue"@, "amountEGP"@]),
            ("الكمية"@, seq!["quantity"@]),
        ],
    )
    &&& invoice_heading(s.importing)
    &&& s.row@.len() == 7
    &&& number_column(s.row@[0], "رقم الفاتورة"@, false)
    &&& date_column(s.row@[1], "التاريخ"@, false)
    &&& number_column(s.row@[2], "كود الصنف"@, false)
    &&& text_column(s.row@[3], "اسم الصنف"@, true)
    &&& number_column(s.row@[4], "الكمية"@, false)
    &&& number_column(s.row@[5], "السعر"@, false)
    &&& calculated_column(s.row@[6], "القيمة"@, product("السعر"@, "الكمية"@))
}

fn text(s: &str) -> (res: String)
    ensures
        res@ == s@,
{
    String::from_str(s)
}

fn path1(a: &str) -> (res: Vec<String>)
    ensures
        texts_are(res@, seq![a@]),
{
    let mut v: Vec<String> = Vec::new();
    v.push(text(a));
    v
}

fn path2(a: &str, b: &str) -> (res: Vec<String>)
    ensures
        texts_are(res@, seq![a@, b@]),
{
    let mut v: Vec<String> = Vec::new();
    v.push(text(a));
    v.push(text(b));
    v
}

fn props(h: &str, completable: bool) -> (res: ColumnProps)
    ensures
        res.header@ == h@,
        res.is_completable == completable,
{
    ColumnProps { header: text(h), is_completable: completable }
}

fn var(name: &str) -> (res: ValueType)
    ensures
        variable(res, name@),
{
    ValueType::Variable(text(name))
}

fn times(a: ValueType, b: ValueType) -> (res: Operation)
    ensures
        res == (Operation { op: OperationKind::Multiply, lhs: a, rhs: b }),
{
    Operation { op: OperationKind::Multiply, lhs: a, rhs: b }
}

fn calculated(h: &str, value: Operation) -> (res: ConfigValue)
    ensures
        res == ConfigValue::Calculated(OperationConfig { header: res->Calculated_0.header, value }),
        res->Calculated_0.header@ == h@,
{
    ConfigValue::Calculated(OperationConfig { header: text(h), value })
}

fn invoice_heading_entries() -> (res: Vec<(String, Vec<String>)>)
    ensures
        entries_are(res@, seq![("رقم الفاتورة"@, seq!["internalID"@]), ("التاريخ"@, seq!["dateTimeIssued"@])]),
{
    let mut v: Vec<(String, Vec<String>)> = Vec::new();
    v.push((text("رقم الفاتورة"), path1("internalID")));
    v.push((text("التاريخ"), path1("dateTimeIssued")));
    v
}

fn company_entries() -> (res: Vec<(String, Vec<String>)>)
    ensures
        entries_are(res@, seq![("اسم الشركة"@, seq!["issuer"@, "name"@])]),
{
    let mut v: Vec<(String, Vec<String>)> = Vec::new();
    v.push((text("اسم الشركة"), path2("issuer", "name")));
    v
}

fn no_identity() -> (res: RowIdentity<String>)
    ensures
        res.id@.len() == 0,
        res.diff_ops@.len() == 0,
{
    RowIdentity { id: String::new(), diff_ops: Vec::new() }
}

fn sales() -> (res: SheetConfig<String>)
    ensures
        sales_sheet(res),
{
    let mut rules: Vec<(String, IdentityDiffsOps)> = Vec::new();
    rules.push((text("القيمة"), IdentityDiffsOps::Sum));
    rules.push((text("رقم الفاتورة"), IdentityDiffsOps::Nth(1)));
    rules.push((text("التاريخ"), IdentityDiffsOps::Nth(1)));
    rules.push((text("اسم العميل"), IdentityDiffsOps::Nth(1)));
    rules.push((text("رقم التسجيل الضريبي"), IdentityDiffsOps::Nth(1)));
    rules.push((text("تبع"), IdentityDiffsOps::Nth(1)));
    rules.push((text("الخصم"), IdentityDiffsOps::Sum));
    let mut unique: Vec<(String, Vec<String>)> = Vec::new();
    unique.push((text("رقم الفاتورة"), path1("internalID")));
    unique.push((text("التاريخ"), path1("dateTimeIssued")));
    unique.push((text("رقم التسجيل الضريبي"), path2("receiver", "id")));
    unique.push((text("اسم العميل"), path2("receiver", "name")));
    let mut repeated: Vec<(String, Vec<String>)> = Vec::new();
    repeated.push((text("القيمة"), path2("unitValue", "amountEGP")));
    let importing = ImportConfig {
        main_entry: path1("document"),
        repeated_entry: path1("invoiceLines"),
        unique,
        repeated,
        primary: company_entries(),
    };
    let tax = times(var("القيمة"), ValueType::Const(TAX_RATE_BITS));
    let tax_again = times(var("القيمة"), ValueType::Const(TAX_RATE_BITS));
    let total = Operation {
        op: OperationKind::Add,
        lhs: var("القيمة"),
        rhs: ValueType::Operation(
            Box::new(
                Operation {
                    op: OperationKind::Minus,
                    lhs: ValueType::Operation(Box::new(tax_again)),
                    rhs: var("الخصم"),
                },
            ),
        ),
    };
    let mut row: Vec<ConfigValue> = Vec::new();
    row.push(ConfigValue::Basic(ColumnConfig::Float(props("رقم الفاتورة", false))));
    row.push(ConfigValue::Basic(ColumnConfig::Date(props("التاريخ", false))));
    row.push(ConfigValue::Basic(ColumnConfig::Float(props("رقم التسجيل الضريبي", false))));
    row.push(ConfigValue::Basic(ColumnConfig::String(props("اسم العميل", true))));
    row.push(ConfigValue::Basic(ColumnConfig::String(props("تبع", true))));
    row.push(ConfigValue::Basic(ColumnConfig::Float(props("القيمة", false))));
    row.push(ConfigValue::Basic(ColumnConfig::Float(props("الخصم", false))));
    row.push(calculated("ض.ق.م", tax));
    row.push(calculated("الاجمالي", total));
    SheetConfig {
        sheet_type_name: text("مبيعات"),
        importing,
        row,
        row_identity: RowIdentity { id: text("رقم الفاتورة"), diff_ops: rules },
    }
}

fn purchases() -> (res: SheetConfig<String>)
    ensures
        purchases_sheet(res),
{
    let mut repeated: Vec<(String, Vec<String>)> = Vec::new();
    repeated.push((text("بيان"), path1("description")));
    repeated.push((text("العدد"), path1("quantity")));
    repeated.push((text("السعر"), path2("unitValue", "amountEGP")));
    let importing = ImportConfig {
        main_entry: path1("document"),
        repeated_entry: path1("invoiceLines"),
        unique: invoice_heading_entries(),
        repeated,
        primary: company_entries(),
    };
    let mut row: Vec<ConfigValue> = Vec::new();
    row.push(ConfigValue::Basic(ColumnConfig::Float(props("رقم الفاتورة", false))));
    row.push(ConfigValue::Basic(ColumnConfig::Date(props("التاريخ", false))));
    row.push(ConfigValue::Basic(ColumnConfig::String(props("بيان", true))));
    row.push(ConfigValue::Basic(ColumnConfig::Float(props("رقم الاصناف", false))));
    row.push(ConfigValue::Basic(ColumnConfig::Float(props("السعر", false))));
    row.push(ConfigValue::Basic(ColumnConfig::Float(props("العدد", false))));
    row.push(calculated("الاجمالي", times(var("السعر"), var("العدد"))));
    SheetConfig { sheet_type_name: text("مشتريات"), importing, row, row_identity: no_identity() }
}

fn item_card() -> (res: SheetConfig<String>)
    ensures
        item_card_sheet(res),
{
    let mut repeated: Vec<(String, Vec<String>)> = Vec::new();
    repeated.push((text("كود الصنف"), path1("itemCode")));
    repeated.push((text("اسم الصنف"), path1("description")));
    repeated.push((text("السعر"), path2("unitValue", "amountEGP")));
    repeated.push((text("الكمية"), path1("quantity")));
    let importing = ImportConfig {
        main_entry: path1("document"),
        repeated_entry: path1("invoiceLines"),
        unique: invoice_heading_entries(),
        repeated,
        primary: company_entries(),
    };
    let mut row: Vec<ConfigValue> = Vec::new();
    row.push(ConfigValue::Basic(ColumnConfig::Float(props("رقم الفاتورة", false))));
    row.push(ConfigValue::Basic(ColumnConfig::Date(props("التاريخ", false))));
    row.push(ConfigValue::Basic(ColumnConfig::Float(props("كود الصنف", false))));
    row.push(ConfigValue::Basic(ColumnConfig::String(props("اسم الصنف", true))));
    row.push(ConfigValue::Basic(ColumnConfig::Float(props("الكمية", false))));
    row.push(ConfigValue::Basic(ColumnConfig::Float(props("السعر", false))));
    row.push(calculated("القيمة", times(var("السعر"), var("الكمية"))));
    SheetConfig { sheet_type_name: text("كارت صنف"), importing, row, row_identity: no_identity() }
}

/// The example configuration: sales, purchases and item cards read from
/// invoice documents, with their columns, their import settings, the rows
/// of a sale collapsed by invoice number, and the headers each type's rows
/// are ordered by.
pub fn config_example() -> (res: Config)
    ensures
        res.sheets@.len() == 3,
        sales_sheet(res.sheets@[0]),
        purchases_sheet(res.sheets@[1]),
        item_card_sheet(res.sheets@[2]),
        res.priorities@.len() == 3,
        res.priorities@[0].0@ == "مبيعات"@,
        texts_are(res.priorities@[0].1@, seq!["التاريخ"@, "رقم الفاتورة"@]),
        res.priorities@[1].0@ == "مشتريات"@,
        texts_are(res.priorities@[1].1@, seq!["التاريخ"@]),
        res.priorities@[2].0@ == "كارت صنف"@,
        texts_are(res.priorities@[2].1@, seq!["التاريخ"@]),
{
    let mut priorities: Vec<(String, Vec<String>)> = Vec::new();
    priorities.push((text("مبيعات"), path2("التاريخ", "رقم الفاتورة")));
    priorities.push((text("مشتريات"), path1("التاريخ")));
    priorities.push((text("كارت صنف"), path1("التاريخ")));
    let mut sheets: Vec<SheetConfig<String>> = Vec::new();
    sheets.push(sales());
    sheets.push(purchases());
    sheets.push(item_card());
    Config { priorities, sheets }
}

} // verus!
