use heston_calibration::calibration::{
    best_run, calibration_plan, grid_points, select_starts, GridPoint, GridShape,
};
use heston_calibration::cli::{parse_args, surface_source, CliArgs, CliCommand, SurfaceSource};
use heston_calibration::simpson::{simpson_coefficients, simpson_intervals};
use heston_calibration::surface_file::{
    quote_fields, read_quote_fields, surface_text, QuoteFields, ReadEnd,
};
use heston_calibration::text::{spot_text, trim_text};

fn strings(items: &[&str]) -> Vec<String> {
    items.iter().map(|s| s.to_string()).collect()
}

// ---------------------------------------------------------------- calibration

#[test]
fn fast_plan_is_a_two_point_grid_with_one_start() {
    let plan = calibration_plan(true);
    assert_eq!(plan.grid, GridShape { kappa: 2, theta: 2, xi: 2, rho: 2, v0: 2 });
    assert_eq!(plan.starts, 1);
    assert_eq!(plan.max_iters, 100);
    assert_eq!(grid_points(&plan.grid).len(), 32);
}

#[test]
fn precise_plan_has_324_points_and_five_starts() {
    let plan = calibration_plan(false);
    assert_eq!(plan.grid, GridShape { kappa: 4, theta: 3, xi: 3, rho: 3, v0: 3 });
    assert_eq!(plan.starts, 5);
    assert_eq!(plan.max_iters, 400);
    assert_eq!(grid_points(&plan.grid).len(), 324);
}

#[test]
fn grid_walk_varies_the_last_parameter_fastest() {
    let shape = GridShape { kappa: 2, theta: 1, xi: 1, rho: 2, v0: 3 };
    let points = grid_points(&shape);
    assert_eq!(points.len(), 12);
    assert_eq!(points[0], GridPoint { kappa: 0, theta: 0, xi: 0, rho: 0, v0: 0 });
    assert_eq!(points[1], GridPoint { kappa: 0, theta: 0, xi: 0, rho: 0, v0: 1 });
    assert_eq!(points[3], GridPoint { kappa: 0, theta: 0, xi: 0, rho: 1, v0: 0 });
    assert_eq!(points[6], GridPoint { kappa: 1, theta: 0, xi: 0, rho: 0, v0: 0 });
    assert_eq!(points[11], GridPoint { kappa: 1, theta: 0, xi: 0, rho: 1, v0: 2 });
}

#[test]
fn empty_axis_gives_empty_grid() {
    let shape = GridShape { kappa: 4, theta: 0, xi: 3, rho: 3, v0: 3 };
    assert!(grid_points(&shape).is_empty());
}

#[test]
fn select_starts_keeps_lowest_keys_in_stable_order() {
    let keys = vec![7u64, 3, 9, 3, 1, 7];
    assert_eq!(select_starts(&keys, 4), vec![4, 1, 3, 0]);
    assert_eq!(select_starts(&keys, 1), vec![4]);
}

#[test]
fn select_starts_takes_all_when_fewer_candidates() {
    let keys = vec![5u64, 5, 2];
    assert_eq!(select_starts(&keys, 5), vec![2, 0, 1]);
    assert_eq!(select_starts(&Vec::new(), 3), Vec::<usize>::new());
    assert_eq!(select_starts(&keys, 0), Vec::<usize>::new());
}

#[test]
fn best_run_keeps_first_of_equal_lowest() {
    assert_eq!(best_run(&vec![Some(4u64), Some(2), Some(8), Some(2)]), Some(1));
    assert_eq!(best_run(&vec![Some(9u64)]), Some(0));
    assert_eq!(best_run(&Vec::new()), None);
}

#[test]
fn best_run_moves_past_costs_that_are_not_numbers() {
    assert_eq!(best_run(&vec![Some(1u64), None, Some(5), Some(3)]), Some(3));
    assert_eq!(best_run(&vec![Some(1u64), Some(0), None]), Some(2));
    assert_eq!(best_run(&vec![None, Some(7u64)]), Some(1));
}

#[test]
fn best_start_is_the_winning_run() {
    let keys = vec![6u64, 2, 2, 0, 11, 0];
    let starts = select_starts(&keys, 3);
    let costs: Vec<Option<u64>> = keys.iter().map(|&k| Some(k)).collect();
    assert_eq!(Some(starts[0]), best_run(&costs));
}

// -------------------------------------------------------------------- simpson

#[test]
fn odd_request_rounds_up_to_even() {
    assert_eq!(simpson_intervals(7), 8);
    assert_eq!(simpson_intervals(8), 8);
    assert_eq!(simpson_intervals(0), 0);
    assert_eq!(simpson_intervals(1000), 1000);
}

#[test]
fn coefficients_follow_one_four_two_pattern() {
    assert_eq!(simpson_coefficients(6), vec![1, 4, 2, 4, 2, 4, 1]);
    assert_eq!(simpson_coefficients(3), vec![1, 4, 2, 4, 1]);
    assert_eq!(simpson_coefficients(2), vec![1, 4, 1]);
    assert_eq!(simpson_coefficients(0), vec![1]);
}

#[test]
fn coefficients_integrate_cubics_exactly() {
    let m: u64 = 10;
    let w = simpson_coefficients(m as usize);
    let moment = |p: u32| -> u64 {
        w.iter().enumerate().map(|(i, &c)| c as u64 * (i as u64).pow(p)).sum()
    };
    assert_eq!(moment(0), 3 * m);
    assert_eq!(2 * moment(1), 3 * m * m);
    assert_eq!(moment(2), m * m * m);
    assert_eq!(4 * moment(3), 3 * m * m * m * m);
}

// ------------------------------------------------------------------------ cli

#[test]
fn help_flags_ask_for_usage() {
    assert!(matches!(parse_args(&strings(&["prog", "--help"])), CliCommand::Help));
    assert!(matches!(parse_args(&strings(&["prog", "--ticker", "SPY", "-h"])), CliCommand::Help));
}

#[test]
fn ticker_and_realistic_are_read() {
    match parse_args(&strings(&["prog", "--realistic", "--ticker", "SPY", "--ticker", "QQQ"])) {
        CliCommand::Run(a) => {
            assert_eq!(a.ticker, Some("SPY".to_string()));
            assert!(a.realistic);
        }
        CliCommand::Help => panic!("no help flag was given"),
    }
}

#[test]
fn trailing_ticker_flag_has_no_symbol() {
    match parse_args(&strings(&["prog", "--ticker"])) {
        CliCommand::Run(a) => {
            assert_eq!(a.ticker, None);
            assert!(!a.realistic);
        }
        CliCommand::Help => panic!("no help flag was given"),
    }
}

#[test]
fn source_prefers_ticker_then_realistic() {
    let live = CliArgs { ticker: Some("AAPL".to_string()), realistic: true };
    assert!(matches!(surface_source(&live), SurfaceSource::Live(t) if t == "AAPL"));
    let realistic = CliArgs { ticker: None, realistic: true };
    assert!(matches!(surface_source(&realistic), SurfaceSource::Realistic));
    let stored = CliArgs { ticker: None, realistic: false };
    assert!(matches!(surface_source(&stored), SurfaceSource::Stored));
}

// ----------------------------------------------------------------------- text

#[test]
fn trim_removes_unicode_white_space() {
    assert_eq!(trim_text("  80.0\t"), "80.0");
    assert_eq!(trim_text("\u{3000}0.25\u{A0}\r\n"), "0.25");
    assert_eq!(trim_text(" a b "), "a b");
    assert_eq!(trim_text("   "), "");
    assert_eq!(trim_text(""), "");
}

#[test]
fn spot_is_read_from_first_spot_line() {
    let report = "progress...\nSPOT= 431.25 \r\nSPOT=1\n";
    assert_eq!(spot_text(report), Some("431.25".to_string()));
}

#[test]
fn spot_marker_must_open_the_line() {
    assert_eq!(spot_text("x SPOT=3\nnothing"), None);
    assert_eq!(spot_text(""), None);
    assert_eq!(spot_text("SPOT="), Some(String::new()));
    assert_eq!(spot_text("a\nSPOT=12"), Some("12".to_string()));
}

// --------------------------------------------------------------- quote files

#[test]
fn quote_file_fields_are_trimmed_and_header_skipped() {
    let text = b"strike,tau,implied_vol\n 80.0 ,0.25, 0.285\n100,1.0,0.2\n";
    let read = read_quote_fields(text);
    assert!(matches!(read.end, ReadEnd::Complete));
    let quotes = read.quotes;
    assert_eq!(quotes.len(), 2);
    assert_eq!(quotes[0].strike, "80.0");
    assert_eq!(quotes[0].tau, "0.25");
    assert_eq!(quotes[0].implied_vol, "0.285");
    assert_eq!(quotes[1].strike, "100");
}

#[test]
fn short_record_stops_the_reading() {
    let read = read_quote_fields(b"strike,tau\n80,0.25\n");
    assert!(matches!(read.end, ReadEnd::ShortRecord));
    assert!(read.quotes.is_empty());
}

#[test]
fn ragged_file_is_malformed_after_good_records() {
    let read = read_quote_fields(b"strike,tau,implied_vol\n80,0.25,0.3\n90,0.5\n100,1,0.2\n");
    assert!(matches!(read.end, ReadEnd::Malformed));
    assert_eq!(read.quotes.len(), 1);
    assert_eq!(read.quotes[0].implied_vol, "0.3");
}

#[test]
fn empty_file_has_no_quotes() {
    let read = read_quote_fields(b"");
    assert!(matches!(read.end, ReadEnd::Complete));
    assert!(read.quotes.is_empty());
}

#[test]
fn quote_fields_ignore_extra_columns() {
    let rows = vec![strings(&[" 1 ", "2", "3", "4"])];
    let quotes = quote_fields(&rows);
    assert_eq!(quotes[0].strike, "1");
    assert_eq!(quotes[0].implied_vol, "3");
}

#[test]
fn surface_text_writes_header_then_quotes() {
    let quotes = vec![
        QuoteFields { strike: "80".to_string(), tau: "0.25".to_string(), implied_vol: "0.3".to_string() },
        QuoteFields { strike: "a,b".to_string(), tau: "1".to_string(), implied_vol: "0.2".to_string() },
    ];
    let bytes = surface_text(&quotes);
    assert_eq!(
        String::from_utf8(bytes.clone()).unwrap(),
        "strike,tau,implied_vol\n80,0.25,0.3\n\"a,b\",1,0.2\n"
    );
    let read = read_quote_fields(&bytes);
    assert!(matches!(read.end, ReadEnd::Complete));
    let back = read.quotes;
    assert_eq!(back[0].strike, "80");
    assert_eq!(back[0].implied_vol, "0.3");
    assert_eq!(back.len(), 2);
    assert_eq!(back[1].strike, "a,b");
}

#[test]
fn trimming_twice_changes_nothing() {
    for s in ["  x y \n", "\t", "z", " \u{2003}q\u{2029}"] {
        let once = trim_text(s);
        assert_eq!(trim_text(&once), once);
    }
}

#[test]
fn grid_walk_visits_each_point_once() {
    let shape = calibration_plan(false).grid;
    let points = grid_points(&shape);
    for (k, p) in points.iter().enumerate() {
        assert!(p.kappa < 4 && p.theta < 3 && p.xi < 3 && p.rho < 3 && p.v0 < 3);
        let step = (((p.kappa * 3 + p.theta) * 3 + p.xi) * 3 + p.rho) * 3 + p.v0;
        assert_eq!(step, k);
    }
}

#[test]
fn saved_quotes_read_back_trimmed() {
    let saved = vec![
        QuoteFields { strike: " 95.5".to_string(), tau: "0.5\r".to_string(), implied_vol: "\"q\"".to_string() },
        QuoteFields { strike: "".to_string(), tau: "x\ny".to_string(), implied_vol: "0.21".to_string() },
    ];
    let read = read_quote_fields(&surface_text(&saved));
    assert!(matches!(read.end, ReadEnd::Complete));
    assert_eq!(read.quotes.len(), 2);
    assert_eq!(read.quotes[0].strike, "95.5");
    assert_eq!(read.quotes[0].tau, "0.5");
    assert_eq!(read.quotes[0].implied_vol, "\"q\"");
    assert_eq!(read.quotes[1].strike, "");
    assert_eq!(read.quotes[1].tau, "x\ny");
}

#[test]
fn surface_text_quotes_only_where_needed() {
    let quotes = vec![QuoteFields {
        strike: "say \"hi\"".to_string(),
        tau: "a\rb".to_string(),
        implied_vol: "".to_string(),
    }];
    let text = String::from_utf8(surface_text(&quotes)).unwrap();
    assert_eq!(text, "strike,tau,implied_vol\n\"say \"\"hi\"\"\",\"a\rb\",\n");
}
