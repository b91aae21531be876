use preduce::actors::logger::{shown_name_of, totals, LogTally, ReducerTally};

fn row(reducer: &str, smallest: u64, not_smallest: u64, not_interesting: u64) -> (String, u64, u64, u64) {
    (reducer.to_string(), smallest, not_smallest, not_interesting)
}

fn rows_of(rows: &[ReducerTally]) -> Vec<(String, u64, u64, u64)> {
    rows.iter().map(|r| (r.reducer.clone(), r.smallest, r.not_smallest, r.not_interesting)).collect()
}

#[test]
fn tally_counts_each_judgment_per_reducer() {
    let mut tally = LogTally::new();
    assert_eq!(tally.smallest_size(), 0);
    tally.new_smallest("a", 90);
    tally.judged_not_interesting("a");
    tally.judged_not_interesting("b");
    tally.is_not_smaller("b");
    tally.new_smallest("b", 80);
    assert_eq!(tally.smallest_size(), 80);
    // A merge no smaller than the upstream counts as not interesting.
    assert!(tally.finished_merging(50, 50));
    assert!(!tally.finished_merging(40, 50));
    let rows = tally.report();
    assert_eq!(rows_of(&rows), vec![row("b", 1, 1, 1), row("a", 1, 0, 1), row("merge", 0, 0, 1)]);
    assert_eq!(totals(&rows), (2, 1, 3));
}

#[test]
fn report_orders_by_usefulness_then_name_backwards() {
    let mut tally = LogTally::new();
    // Equal counts: names sort from the last to the first.
    tally.judged_not_interesting("alpha");
    tally.judged_not_interesting("beta");
    // Fewer uninteresting reductions come first among equals.
    tally.is_not_smaller("gamma");
    tally.is_not_smaller("delta");
    tally.judged_not_interesting("delta");
    // The most new smallest test cases come first.
    tally.new_smallest("zeta", 10);
    let rows = tally.report();
    assert_eq!(
        rows_of(&rows),
        vec![
            row("zeta", 1, 0, 0),
            row("gamma", 0, 1, 0),
            row("delta", 0, 1, 1),
            row("beta", 0, 0, 1),
            row("alpha", 0, 0, 1),
        ]
    );
}

#[test]
fn shown_names_are_the_last_component_up_to_fifty_characters() {
    let shown = |name: &str| -> String {
        let chars: Vec<char> = name.chars().collect();
        shown_name_of(&chars).into_iter().collect()
    };
    assert_eq!(shown("/usr/lib/preduce/chunks"), "chunks");
    assert_eq!(shown("chunks"), "chunks");
    assert_eq!(shown("dir/"), "");
    let long: String = std::iter::repeat('x').take(60).collect();
    assert_eq!(shown(&format!("/a/{}", long)), long[10..].to_string());
}
