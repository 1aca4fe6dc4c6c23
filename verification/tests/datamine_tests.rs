use palagent_ai::datamine::{row_values, table_layout, table_rows, Cell, DataTable, SqlValue};

fn t(s: &str) -> Cell {
    Cell::Text(s.to_string())
}

fn show(v: &[SqlValue]) -> Vec<String> {
    v.iter()
        .map(|x| match x {
            SqlValue::Text(s) => format!("T:{}", s),
            SqlValue::Int(i) => format!("I:{}", i),
        })
        .collect()
}

#[test]
fn datamine_layouts() {
    assert_eq!(table_layout(DataTable::Pals).len(), 16);
    assert_eq!(table_layout(DataTable::Passives).len(), 5);
    assert_eq!(table_layout(DataTable::Items).len(), 3);
    assert_eq!(table_layout(DataTable::BreedingExceptions).len(), 3);
    assert_eq!(table_layout(DataTable::ActiveSkills).len(), 6);
    assert_eq!(table_layout(DataTable::Recipes).len(), 3);
    assert_eq!(table_layout(DataTable::PalDrops).len(), 5);
}

#[test]
fn datamine_pal_row_defaults() {
    let layout = table_layout(DataTable::Pals);
    let mut cells = vec![t("SheepBall"), t("Lamball"), Cell::Int(7), Cell::Other];
    for k in 0..12 {
        cells.push(if k == 0 { Cell::Int(3) } else { Cell::Other });
    }
    cells.push(t("extra"));
    let row = row_values(&cells, &layout).unwrap();
    let mut expected = vec!["T:SheepBall".to_string(), "T:Lamball".to_string(), "T:".to_string(), "I:1500".to_string(), "I:3".to_string()];
    for _ in 0..11 {
        expected.push("I:0".to_string());
    }
    assert_eq!(show(&row), expected);
    assert!(row_values(&cells[..15].to_vec(), &layout).is_none());
}

#[test]
fn datamine_table_rows_skip_short_and_non_arrays() {
    let layout = table_layout(DataTable::Recipes);
    let rows = vec![
        Some(vec![t("Bread"), t("Wheat"), Cell::Int(3)]),
        None,
        Some(vec![t("Cake"), t("Egg")]),
        Some(vec![t("Cake"), Cell::Int(1), t("x"), t("y")]),
    ];
    let out = table_rows(&rows, &layout);
    assert_eq!(out.len(), 2);
    assert_eq!(show(&out[0]), vec!["T:Bread", "T:Wheat", "I:3"]);
    assert_eq!(show(&out[1]), vec!["T:Cake", "T:", "I:0"]);
}
