use ks2_etl::act::{desired_cells, Act, TotalsRow};
use ks2_etl::load::{
    main_configs, ExcelDataSet, ExtractionConfig, Matches, Moving, Source, WritingConfigs,
};

fn bits(x: f64) -> Option<u64> {
    Some(x.to_bits())
}

fn row(name: &str, base: &[f64], curr: &[f64], rows: &[usize]) -> TotalsRow {
    TotalsRow {
        name: name.to_string(),
        base_price: base.iter().map(|x| bits(*x)).collect(),
        curr_price: curr.iter().map(|x| bits(*x)).collect(),
        row_number: rows.to_vec(),
    }
}

fn act(path: &str, start: usize, totals: Vec<TotalsRow>) -> Act {
    Act {
        path: path.to_string(),
        sheetname: "Лист1".to_string(),
        names_of_header: desired_cells(),
        data_of_header: Vec::new(),
        data_of_totals: totals,
        start_row_of_totals: start,
    }
}

fn generated_names(set: &ExcelDataSet) -> Vec<String> {
    set.columns()
        .iter()
        .map(|c| match &c.source {
            Source::AtBasePrices(t, _) | Source::AtCurrPrices(t, _) => t.clone(),
            Source::InTableHeader(t) | Source::Calculate(t) => t.to_string(),
        })
        .collect()
}

#[test]
#[allow(non_snake_case)]
fn ExcelDataSet_test() {
    let vec_to_test = vec![
        ExtractionConfig { rename: None, moving: Moving::No, sequence_number: 0, expected_columns: 1, source: Source::InTableHeader("Объект") },
        ExtractionConfig { rename: None, moving: Moving::Yes, sequence_number: 0, expected_columns: 2, source: Source::AtBasePrices("Накладные расходы".to_string(), Matches::Exact) },
        ExtractionConfig { rename: None, moving: Moving::Yes, sequence_number: 0, expected_columns: 3, source: Source::AtBasePrices("Эксплуатация машин".to_string(), Matches::Exact) },
        ExtractionConfig { rename: None, moving: Moving::Yes, sequence_number: 0, expected_columns: 4, source: Source::AtCurrPrices("Накладные расходы".to_string(), Matches::Exact) },
        ExtractionConfig { rename: None, moving: Moving::Yes, sequence_number: 0, expected_columns: 5, source: Source::AtCurrPrices("Накладные".to_string(), Matches::Contains) },
        ExtractionConfig { rename: Some("РЕНЕЙМ................"), moving: Moving::No, sequence_number: 0, expected_columns: 6, source: Source::AtCurrPrices("Производство работ в зимнее время 4%".to_string(), Matches::Exact) },
        ExtractionConfig { rename: Some("УДАЛИТЬ..............."), moving: Moving::Del, sequence_number: 0, expected_columns: 99, source: Source::AtBasePrices("Производство работ в зимнее время 4%".to_string(), Matches::Exact) },
        ExtractionConfig { rename: None, moving: Moving::Yes, sequence_number: 0, expected_columns: 8, source: Source::AtCurrPrices("Стоимость материальных ресурсов (всего)".to_string(), Matches::Exact) },
    ];
    let data_set = ExcelDataSet::new(vec_to_test);

    assert_eq!(&29, &data_set.get_number_of_columns());
    assert_eq!(
        Some((6, 21)),
        data_set.get_index_and_address_by_columns("curr", "Стоимость материальных ресурсов (всего)", Matches::Exact)
    );
    assert_eq!(
        Some((4, 10)),
        data_set.get_index_and_address_by_columns("curr", "Накладные расходы", Matches::Contains)
    );
}

#[test]
fn lookup_skips_other_kinds_and_misses() {
    let data_set = ExcelDataSet::new(main_configs());
    assert_eq!(data_set.get_number_of_columns(), 17);
    assert_eq!(data_set.get_index_and_address_by_columns("calc", "Акт №", Matches::Exact), Some((2, 2)));
    assert_eq!(data_set.get_index_and_address_by_columns("header", "Акт №", Matches::Exact), None);
    assert_eq!(data_set.get_index_and_address_by_columns("header", "Затраты труда, чел.-час", Matches::Exact), Some((16, 16)));
    assert_eq!(data_set.get_index_and_address_by_columns("base", "Итого с К = 1", Matches::Exact), None);
}

#[test]
fn end_to_end_two_acts() {
    let a = act("a.xlsm", 10, vec![row("Materials", &[100.0], &[110.0], &[10])]);
    let b = act("b.xlsm", 20, vec![row("Materials", &[50.0], &[55.0], &[20]), row("Labor", &[20.0], &[22.0], &[21])]);
    let acts = vec![a, b];
    let w = WritingConfigs::new(&acts).unwrap();
    assert_eq!(generated_names(&w.base_set), vec!["Materials", "Labor"]);
    assert_eq!(generated_names(&w.curr_set), vec!["Materials", "Labor"]);
    assert_eq!(w.base_set.get_number_of_columns(), 2);

    let main = w.main_set.get_number_of_columns() as usize;
    assert_eq!(main, 17);
    let row_a: Vec<(usize, u64)> = acts[0].data_of_totals.iter().flat_map(|t| w.totals_cells(t)).collect();
    let row_b: Vec<(usize, u64)> = acts[1].data_of_totals.iter().flat_map(|t| w.totals_cells(t)).collect();
    assert_eq!(row_a, vec![(main, 100.0f64.to_bits()), (main + 2, 110.0f64.to_bits())]);
    assert_eq!(
        row_b,
        vec![
            (main, 50.0f64.to_bits()),
            (main + 2, 55.0f64.to_bits()),
            (main + 1, 20.0f64.to_bits()),
            (main + 3, 22.0f64.to_bits()),
        ]
    );

    let headings = w.report_headings();
    assert_eq!(headings.len(), 17 + 4);
    assert_eq!(headings[0], ("Папка (ссылка)".to_string(), 1));
    assert_eq!(headings[11], ("По смете в ц.2000г., руб.".to_string(), 1));
    assert_eq!(headings[17], ("БЦ Materials".to_string(), 1));
    assert_eq!(headings[18], ("БЦ Labor".to_string(), 1));
    assert_eq!(headings[19], ("TЦ Materials".to_string(), 1));
    assert_eq!(headings[20], ("TЦ Labor".to_string(), 1));
}

#[test]
fn columns_follow_furthest_position_then_label() {
    let a = act("a.xlsm", 10, vec![row("B", &[1.0], &[1.0], &[10]), row("C", &[1.0], &[1.0], &[13])]);
    let b = act("b.xlsm", 0, vec![row("A", &[1.0], &[1.0], &[3]), row("B", &[1.0], &[1.0], &[1])]);
    let w = WritingConfigs::new(&[a, b]).unwrap();
    assert_eq!(generated_names(&w.base_set), vec!["B", "A", "C"]);
    assert_eq!(w.base_set.columns()[0].sequence_number, 1);
    assert_eq!(w.base_set.columns()[1].sequence_number, 3);
}

#[test]
fn width_is_the_most_repeats_in_one_act() {
    let a = act("a.xlsm", 10, vec![row("X", &[1.0, 2.0, 3.0], &[1.0, 2.0, 3.0], &[10, 11, 12])]);
    let b = act("b.xlsm", 10, vec![row("X", &[1.0], &[1.0], &[10])]);
    let acts = vec![a, b];
    let w = WritingConfigs::new(&acts).unwrap();
    assert_eq!(w.base_set.columns()[0].expected_columns, 3);
    assert_eq!(w.base_set.get_number_of_columns(), 3);
    assert_eq!(w.curr_set.get_number_of_columns(), 3);
    let cells = w.totals_cells(&acts[0].data_of_totals[0]);
    assert_eq!(cells.len(), 6);
    assert_eq!(cells[5], (17 + 3 + 2, 3.0f64.to_bits()));
}

#[test]
fn reconciling_twice_gives_the_same_layout() {
    let make = || {
        vec![
            act("a.xlsm", 5, vec![row("Z", &[1.0], &[1.0], &[5]), row("Y", &[1.0], &[1.0], &[6])]),
            act("b.xlsm", 5, vec![row("Y", &[1.0], &[1.0], &[5]), row("X", &[1.0], &[1.0], &[6]), row("W", &[1.0], &[1.0], &[9])]),
        ]
    };
    let acts1 = make();
    let acts2 = make();
    let w1 = WritingConfigs::new(&acts1).unwrap();
    let w2 = WritingConfigs::new(&acts2).unwrap();
    assert_eq!(w1.report_headings(), w2.report_headings());
    assert_eq!(generated_names(&w1.base_set), vec!["Z", "X", "Y", "W"]);
}

#[test]
fn overridden_labels_are_not_generated() {
    let a = act("a.xlsm", 1, vec![
        row("Итого с К = 1", &[1.0], &[1.0], &[1]),
        row("Всего с НР и СП (текущие)", &[1.0], &[1.0], &[2]),
        row("Всего с НР и СП (базисные)", &[1.0], &[1.0], &[3]),
    ]);
    let b = act("b.xlsm", 1, vec![row("Итого с К = 1", &[1.0, 2.0], &[1.0, 2.0], &[1, 2])]);
    let w = WritingConfigs::new(&[a, b]).unwrap();
    assert_eq!(generated_names(&w.base_set), vec!["Всего с НР и СП (базисные)"]);
    assert_eq!(generated_names(&w.curr_set), vec!["Всего с НР и СП (текущие)"]);
}

#[test]
fn empty_batch_has_empty_generated_regions() {
    let w = WritingConfigs::new(&[]).unwrap();
    assert_eq!(w.base_set.get_number_of_columns(), 0);
    assert_eq!(w.curr_set.get_number_of_columns(), 0);
    assert_eq!(w.report_headings().len(), 17);
}

#[test]
fn too_many_columns_is_an_error() {
    let many: Vec<usize> = (0..70000).collect();
    let prices: Vec<Option<u64>> = many.iter().map(|_| None).collect();
    let t = TotalsRow { name: "X".to_string(), base_price: prices.clone(), curr_price: prices, row_number: many };
    let a = act("a.xlsm", 0, vec![t]);
    assert!(matches!(WritingConfigs::new(&[a]), Err(ks2_etl::error::Error::NumericConversion { .. })));
}
