use dynamo::scale::{Scale, SCALES};

#[test]
fn ceilings_are_whole_numbers_of_points() {
    // A ceiling that is not a multiple of the step would make the last window
    // of a range ask for a fraction of a point.
    for s in SCALES {
        assert_eq!(
            s.ceiling().num_seconds() % s.step().num_seconds(),
            0,
            "{:?} ceiling is not a whole number of steps",
            s
        );
    }
}

#[test]
fn every_scale_can_hold_its_own_retention_in_a_few_chunks() {
    for s in SCALES {
        if let Some(r) = s.retained() {
            let chunks = r.num_seconds() / s.ceiling().num_seconds();
            assert!(chunks < 100, "{:?} needs {} chunks", s, chunks);
        }
    }
}

#[test]
fn api_names_are_distinct() {
    let mut names: Vec<_> = SCALES.iter().map(|s| s.api_name()).collect();
    names.sort_unstable();
    let before = names.len();
    names.dedup();
    assert_eq!(before, names.len());
}

#[test]
fn the_figures_of_each_scale() {
    let figures: Vec<(&str, i64, i64, Option<i64>)> = SCALES
        .iter()
        .map(|s| {
            (
                s.api_name(),
                s.step().num_seconds(),
                s.ceiling().num_seconds(),
                s.retained().map(|d| d.num_days()),
            )
        })
        .collect();
    assert_eq!(
        figures,
        vec![
            ("1MIN", 60, 800 * 60, Some(6)),
            ("15MIN", 900, 168 * 3600, Some(360)),
            ("1H", 3600, 800 * 3600, None),
            ("1D", 86_400, 12_000 * 3600, None),
        ]
    );
}

#[test]
fn a_scale_is_found_by_its_exact_name_only() {
    for s in SCALES {
        assert_eq!(Scale::called(s.api_name()), Some(s));
    }
    assert_eq!(Scale::called("1min"), None);
    assert_eq!(Scale::called("1S"), None);
    assert_eq!(Scale::called(""), None);
}

#[test]
fn a_finer_scale_sorts_first() {
    let mut all = vec![Scale::Day, Scale::Minute, Scale::Hour, Scale::QuarterHour];
    all.sort();
    assert_eq!(all, SCALES.to_vec());
}
