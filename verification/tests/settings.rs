use excel_network::client_models::{
    ColumnConfig, ColumnProps, Config, ConfigValue, IdentityDiffsOps, ImportConfig, Operation, OperationConfig,
    OperationKind, RowIdentity, SheetConfig, ValueType,
};
use excel_network::config::{
    basic_and_calculated, column_type, copy_operation, get_priorities, get_rows_ids, new_sheet, settings_from_config,
    sheet_headers, sheet_primary_headers, sheet_type_name,
};
use excel_network::example::config_example;
use excel_network::models::{Date, Name};

fn import(primary: &[&str]) -> ImportConfig {
    ImportConfig {
        main_entry: vec![],
        repeated_entry: vec!["items".to_string()],
        unique: vec![],
        repeated: vec![],
        primary: primary.iter().map(|h| (h.to_string(), vec![h.to_string()])).collect(),
    }
}

fn column(h: &str) -> ConfigValue {
    ConfigValue::Basic(ColumnConfig::String(ColumnProps { header: h.to_string(), is_completable: false }))
}

fn sheet_config(name: &str, primary: &[&str], col: &str) -> SheetConfig<String> {
    SheetConfig {
        sheet_type_name: name.to_string(),
        importing: import(primary),
        row: vec![column(col)],
        row_identity: RowIdentity { id: col.to_string(), diff_ops: vec![(col.to_string(), IdentityDiffsOps::Nth(0))] },
    }
}

fn config() -> Config {
    Config {
        priorities: vec![("sales".to_string(), vec!["date".to_string()])],
        sheets: vec![sheet_config("sales", &["total"], "item"), sheet_config("stock", &["count", "place"], "code")],
    }
}

#[test]
fn settings_are_split_by_sheet_type() {
    let s = settings_from_config(config());
    assert_eq!(s.names.len(), 2);
    assert_eq!(s.names[0].the_name, "sales");
    assert_eq!(s.names[1].the_name, "stock");
    assert_eq!(uuid::Uuid::from_u128(s.names[0].id).get_version_num(), 4);
    assert_ne!(s.names[0].id, s.names[1].id);
    let stock = "stock".to_string();
    let sales = "sales".to_string();
    assert_eq!(sheet_primary_headers(&s.imports, Some(&stock)), vec!["count".to_string(), "place".to_string()]);
    assert!(sheet_primary_headers(&s.imports, None).is_empty());
    assert_eq!(sheet_headers(&s.rows, Some(&sales)), vec![column("item")]);
    assert!(sheet_headers(&s.rows, None).is_empty());
    assert_eq!(
        get_rows_ids(&s.identities, Some(&stock)),
        Ok(RowIdentity { id: "code".to_string(), diff_ops: vec![("code".to_string(), IdentityDiffsOps::Nth(0))] })
    );
    assert_eq!(get_rows_ids(&s.identities, Some(&"x".to_string())), Err("id does not exist".to_string()));
    assert_eq!(get_rows_ids(&s.identities, None), Err("id does not exist".to_string()));
    assert_eq!(get_priorities(&s.priorities, Some(&sales)), Ok(vec!["date".to_string()]));
    assert_eq!(get_priorities(&s.priorities, Some(&stock)), Err("priority does not exist".to_string()));
    assert_eq!(get_priorities(&s.priorities, None), Ok(vec![]));
}

#[test]
fn later_sheet_type_of_the_same_name_wins() {
    let c = Config { priorities: vec![], sheets: vec![sheet_config("a", &["x"], "c1"), sheet_config("a", &["y"], "c2")] };
    let s = settings_from_config(c);
    assert_eq!(s.names.len(), 2);
    assert_eq!(s.imports.len(), 1);
    assert_eq!(sheet_primary_headers(&s.imports, Some(&"a".to_string())), vec!["y".to_string()]);
}

#[test]
fn type_name_by_identifier() {
    let names = vec![Name { id: 1u128, the_name: "a".to_string() }, Name { id: 2u128, the_name: "b".to_string() }];
    assert_eq!(sheet_type_name(&names, Some(2)), "b");
    assert_eq!(sheet_type_name(&names, None), "");
}

#[test]
fn new_sheet_needs_a_name() {
    let d = Date { year: 2024, month: 6, day: 1 };
    assert_eq!(
        new_sheet(1, String::new(), "t".to_string(), d, vec![]).unwrap_err(),
        "اسم الشيت مطلوب"
    );
    let s = new_sheet(1, "n".to_string(), "t".to_string(), d, vec![]).unwrap();
    assert_eq!(s.sheet_name, "n");
    assert_eq!(s.id, 1);
    assert_eq!(s.insert_date, d);
}

#[test]
fn columns_split_into_entered_and_calculated() {
    let calc = OperationConfig {
        header: "total".to_string(),
        value: Operation { op: OperationKind::Add, lhs: ValueType::Variable("a".to_string()), rhs: ValueType::Const(0) },
    };
    let date = ColumnConfig::Date(ColumnProps { header: "d".to_string(), is_completable: true });
    let cols = vec![
        column("a"),
        ConfigValue::Calculated(OperationConfig { header: calc.header.clone(), value: copy_operation(&calc.value) }),
        ConfigValue::Basic(date.clone()),
    ];
    let (basic, calculated) = basic_and_calculated(&cols);
    assert_eq!(
        basic,
        vec![ColumnConfig::String(ColumnProps { header: "a".to_string(), is_completable: false }), date.clone()]
    );
    assert_eq!(calculated.len(), 1);
    assert_eq!(calculated[0].header, "total");
    assert_eq!(column_type(&basic, &"d".to_string()), Some(date));
    assert_eq!(column_type(&basic, &"total".to_string()), None);
}


#[test]
fn example_configuration() {
    let c = config_example();
    let names: Vec<&str> = c.sheets.iter().map(|s| s.sheet_type_name.as_str()).collect();
    assert_eq!(names, vec!["مبيعات", "مشتريات", "كارت صنف"]);
    assert_eq!(c.priorities[0], ("مبيعات".to_string(), vec!["التاريخ".to_string(), "رقم الفاتورة".to_string()]));
    let sales = &c.sheets[0];
    assert_eq!(sales.row.len(), 9);
    assert_eq!(sales.row_identity.id, "رقم الفاتورة");
    assert_eq!(sales.importing.main_entry, vec!["document".to_string()]);
    assert_eq!(
        sales.row[7],
        ConfigValue::Calculated(OperationConfig {
            header: "ض.ق.م".to_string(),
            value: Operation {
                op: OperationKind::Multiply,
                lhs: ValueType::Variable("القيمة".to_string()),
                rhs: ValueType::Const(0.14f64.to_bits()),
            },
        })
    );
    let s = settings_from_config(config_example());
    assert_eq!(sheet_primary_headers(&s.imports, Some(&"كارت صنف".to_string())), vec!["اسم الشركة".to_string()]);
}
