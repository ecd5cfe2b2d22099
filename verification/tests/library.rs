use dcf_stream::calculator::build_dcf_table;
use dcf_stream::calculator::result_table;
use dcf_stream::parse_u64;
use dcf_stream::rounding::round;
use dcf_stream::signals::decode_dcf_form;
use dcf_stream::signals::decode_signals;
use dcf_stream::signals::DecodeError;
use dcf_stream::stream::demo_fragments;
use dcf_stream::stream::demo_message;
use dcf_stream::stream::valuation_stream;
use dcf_stream::stream::StreamScheduler;
use dcf_stream::stream::StreamStep;
use dcf_stream::render_literal;
use dcf_stream::u64_to_string;

fn pairs(items: &[(&str, &str)]) -> Vec<(String, String)> {
    items
        .iter()
        .map(|(k, v)| (k.to_string(), v.to_string()))
        .collect()
}

#[test]
fn numerals_render_in_decimal() {
    assert_eq!(u64_to_string(0), "0");
    assert_eq!(u64_to_string(7), "7");
    assert_eq!(u64_to_string(42), "42");
    assert_eq!(u64_to_string(1000), "1000");
    assert_eq!(u64_to_string(u64::MAX), "18446744073709551615");
}

#[test]
fn numerals_parse_back() {
    assert_eq!(parse_u64("0"), Some(0));
    assert_eq!(parse_u64("400"), Some(400));
    assert_eq!(parse_u64("007"), Some(7));
    assert_eq!(parse_u64("18446744073709551615"), Some(u64::MAX));
}

#[test]
fn numerals_refuse_junk() {
    assert_eq!(parse_u64(""), None);
    assert_eq!(parse_u64("-1"), None);
    assert_eq!(parse_u64("1.5"), None);
    assert_eq!(parse_u64("12a"), None);
    assert_eq!(parse_u64("18446744073709551616"), None);
}

#[test]
fn rounding_two_places() {
    assert_eq!(round("1234.5678", 2), "1234.57");
}

#[test]
fn rounding_zero_places() {
    assert_eq!(round("1234.5678", 0), "1235");
}

#[test]
fn rounding_short_text_is_kept() {
    assert_eq!(round("1234.5", 2), "1234.5");
    assert_eq!(round("1234", 2), "1234");
}

#[test]
fn rounding_carries_through() {
    assert_eq!(round("0.999", 2), "1");
    assert_eq!(round("99.95", 1), "100");
    assert_eq!(round("9.999", 2), "10");
}

#[test]
fn rounding_half_goes_away_from_zero() {
    assert_eq!(round("1.25", 1), "1.3");
    assert_eq!(round("-0.5", 0), "-1");
    assert_eq!(round("-1.25", 1), "-1.3");
}

#[test]
fn rounding_trims_trailing_zeros() {
    assert_eq!(round("1.199", 2), "1.2");
    assert_eq!(round("1.101", 2), "1.1");
    assert_eq!(round("2.004", 2), "2");
}

#[test]
fn rounding_passes_non_decimal_through() {
    assert_eq!(round("inf", 2), "inf");
    assert_eq!(round("NaN", 2), "NaN");
    assert_eq!(round("", 2), "");
    assert_eq!(round("1.", 2), "1.");
    assert_eq!(round("1.2.3", 2), "1.2.3");
}

#[test]
fn signals_decode() {
    let s = decode_signals(&pairs(&[("delay", "400")])).unwrap();
    assert_eq!(s.delay, 400);
}

#[test]
fn signals_missing_field_is_malformed() {
    let r = decode_signals(&pairs(&[("wait", "400")]));
    assert!(matches!(r, Err(DecodeError::MalformedInput)));
}

#[test]
fn signals_non_numeric_is_malformed() {
    let r = decode_signals(&pairs(&[("delay", "soon")]));
    assert!(matches!(r, Err(DecodeError::MalformedInput)));
    let r = decode_signals(&pairs(&[("delay", "-4")]));
    assert!(matches!(r, Err(DecodeError::MalformedInput)));
}

#[test]
fn form_decodes_and_passes_text_through() {
    let form = decode_dcf_form(&pairs(&[
        ("fcf", "100"),
        ("growth", "0.05"),
        ("discount", "0.10"),
        ("terminal", "0.02"),
        ("years", "3"),
    ]))
    .unwrap();
    assert_eq!(form.fcf, "100");
    assert_eq!(form.growth, "0.05");
    assert_eq!(form.discount, "0.10");
    assert_eq!(form.terminal, "0.02");
    assert_eq!(form.years, 3);
}

#[test]
fn form_missing_terminal_is_malformed() {
    let r = decode_dcf_form(&pairs(&[
        ("fcf", "100"),
        ("growth", "0.05"),
        ("discount", "0.10"),
        ("years", "3"),
    ]));
    assert!(matches!(r, Err(DecodeError::MalformedInput)));
}

#[test]
fn form_bad_years_is_malformed() {
    let r = decode_dcf_form(&pairs(&[
        ("fcf", "100"),
        ("growth", "0.05"),
        ("discount", "0.10"),
        ("terminal", "0.02"),
        ("years", "three"),
    ]));
    assert!(matches!(r, Err(DecodeError::MalformedInput)));
    let r = decode_dcf_form(&pairs(&[
        ("fcf", "100"),
        ("growth", "0.05"),
        ("discount", "0.10"),
        ("terminal", "0.02"),
        ("years", "4294967296"),
    ]));
    assert!(matches!(r, Err(DecodeError::MalformedInput)));
}

#[test]
fn table_rows_are_labeled_in_order() {
    let projected = vec!["105".to_string(), "110.25".to_string(), "115.7625".to_string()];
    let discounted = vec!["95.45".to_string(), "91.12".to_string(), "86.97".to_string()];
    let ctx = build_dcf_table(
        &projected,
        &discounted,
        "1968.0".to_string(),
        "1478.6".to_string(),
        "1752.2".to_string(),
    );
    assert_eq!(ctx.rows.len(), 4);
    assert_eq!(ctx.rows[0].year, "1");
    assert_eq!(ctx.rows[1].year, "2");
    assert_eq!(ctx.rows[2].year, "3");
    assert_eq!(ctx.rows[3].year, "Terminal");
    assert_eq!(ctx.rows[2].fcf, "115.7625");
    assert_eq!(ctx.rows[2].discounted, "86.97");
    assert_eq!(ctx.rows[3].fcf, "1968.0");
    assert_eq!(ctx.rows[3].discounted, "1478.6");
    assert_eq!(ctx.total_intrinsic_value, "1752.2");
}

#[test]
fn concrete_valuation_scenario() {
    // fcf 100, growth 0.05, discount 0.10, terminal 0.02, three years:
    // the arithmetic itself is the caller's, done here as the caller
    // would do it, and the table carries its results through.
    let fcf = 100.0_f64;
    let growth = 0.05_f64;
    let discount = 0.10_f64;
    let terminal = 0.02_f64;
    let years = 3u32;
    let mut projected = Vec::new();
    let mut discounted = Vec::new();
    let mut total = 0.0_f64;
    for year in 1..=years {
        let p = fcf * (1.0 + growth).powi(year as i32);
        let d = p / (1.0 + discount).powi(year as i32);
        projected.push(format!("{}", p));
        discounted.push(format!("{}", d));
        total += d;
    }
    let last = fcf * (1.0 + growth).powi(years as i32);
    let tv = last * (1.0 + terminal) / (discount - terminal);
    let dtv = tv / (1.0 + discount).powi(years as i32);
    total += dtv;
    let pv3: f64 = discounted[2].parse().unwrap();
    assert!((pv3 - 86.9741).abs() < 0.001);
    let ctx = build_dcf_table(
        &projected,
        &discounted,
        format!("{}", tv),
        format!("{}", dtv),
        format!("{}", total),
    );
    assert_eq!(ctx.rows.len(), 4);
    assert_eq!(ctx.rows[2].year, "3");
    assert_eq!(ctx.rows[3].year, "Terminal");
    let markup = result_table(&ctx);
    assert!(markup.contains("<td>Terminal</td>"));
    assert!(markup.contains(&format!("<td>{}</td>", discounted[2])));
}

#[test]
fn table_markup_has_one_row_per_period() {
    let projected = vec!["105".to_string(), "110.25".to_string()];
    let discounted = vec!["95.45".to_string(), "91.12".to_string()];
    let ctx = build_dcf_table(
        &projected,
        &discounted,
        "300".to_string(),
        "250".to_string(),
        "436.57".to_string(),
    );
    let markup = result_table(&ctx);
    assert_eq!(markup.matches("<tr><td>").count(), 3);
    assert!(markup.starts_with("<div id='dcf_table'><table>"));
    assert!(markup.contains("<tr><td>1</td><td>105</td><td>95.45</td></tr>"));
    assert!(markup.contains("<tr><td>2</td><td>110.25</td><td>91.12</td></tr>"));
    assert!(markup.contains("<tr><td>Terminal</td><td>300</td><td>250</td></tr>"));
    assert!(markup.ends_with("Total Intrinsic Value: $436.57</div></div>"));
}

#[test]
fn literal_fragments_wrap_verbatim() {
    let f = render_literal("message", "He");
    assert_eq!(f.mount_id, "message");
    assert_eq!(f.markup, "<div id='message'>He</div>");
}

#[test]
fn demo_fragments_extend_one_character_at_a_time() {
    let message = demo_message();
    let v = demo_fragments(message, "message");
    assert_eq!(v.len(), message.len());
    for (i, f) in v.iter().enumerate() {
        assert_eq!(f.mount_id, "message");
        assert_eq!(
            f.markup,
            format!("<div id='message'>{}</div>", &message[0..i + 1])
        );
    }
}

#[test]
fn demo_stream_emits_all_fragments_in_order_when_connected() {
    let signals = decode_signals(&pairs(&[("delay", "5")])).unwrap();
    let mut sched = dcf_stream::stream::demo_stream(&signals);
    let message = demo_message();
    let mut seen = Vec::new();
    loop {
        match sched.poll(true) {
            StreamStep::Emit { fragment, wait_ms } => {
                assert_eq!(wait_ms, 5);
                seen.push(fragment.markup);
            }
            StreamStep::Close => break,
        }
    }
    assert_eq!(seen.len(), message.len());
    for (i, markup) in seen.iter().enumerate() {
        assert_eq!(
            markup,
            &format!("<div id='message'>{}</div>", &message[0..i + 1])
        );
    }
}

#[test]
fn disconnect_stops_the_stream_at_once() {
    let signals = decode_signals(&pairs(&[("delay", "0")])).unwrap();
    let mut sched = dcf_stream::stream::demo_stream(&signals);
    match sched.poll(true) {
        StreamStep::Emit { fragment, .. } => {
            assert_eq!(fragment.markup, "<div id='message'>H</div>");
        }
        StreamStep::Close => panic!("stream closed before the first fragment"),
    }
    assert!(matches!(sched.poll(false), StreamStep::Close));
    assert!(matches!(sched.poll(true), StreamStep::Close));
    assert!(matches!(sched.poll(true), StreamStep::Close));
}

#[test]
fn valuation_stream_emits_headline_then_table_without_pacing() {
    let projected = vec!["105".to_string()];
    let discounted = vec!["95.45".to_string()];
    let ctx = build_dcf_table(
        &projected,
        &discounted,
        "300".to_string(),
        "250".to_string(),
        "345.45".to_string(),
    );
    let table = result_table(&ctx);
    let mut sched = valuation_stream(&ctx);
    match sched.poll(true) {
        StreamStep::Emit { fragment, wait_ms } => {
            assert_eq!(wait_ms, 0);
            assert_eq!(fragment.mount_id, "intrinsic_value");
            assert_eq!(
                fragment.markup,
                "<div id='intrinsic_value' class='value-display'>Intrinsic Value: $345.45</div>"
            );
        }
        StreamStep::Close => panic!("no headline fragment"),
    }
    match sched.poll(true) {
        StreamStep::Emit { fragment, wait_ms } => {
            assert_eq!(wait_ms, 0);
            assert_eq!(fragment.mount_id, "dcf_table");
            assert_eq!(fragment.markup, table);
        }
        StreamStep::Close => panic!("no table fragment"),
    }
    assert!(matches!(sched.poll(true), StreamStep::Close));
}

#[test]
fn fresh_scheduler_with_empty_plan_closes_at_once() {
    let mut sched = StreamScheduler::new(Vec::new(), 9);
    assert!(matches!(sched.poll(true), StreamStep::Close));
}

#[test]
fn pages_hold_their_mount_points() {
    let home = dcf_stream::home::index();
    assert!(home.contains("id='message'"));
    let page = dcf_stream::calculator::index();
    assert!(page.contains("id='intrinsic_value'"));
    assert!(page.contains("id='dcf_table'"));
    assert!(page.contains("name='terminal'"));
    let css = dcf_stream::calculator::style();
    assert!(css.contains(".value-display"));
}

#[test]
fn layout_and_rendering_are_deterministic() {
    let projected = vec!["105".to_string(), "110.25".to_string()];
    let discounted = vec!["95.45".to_string(), "91.12".to_string()];
    let once = build_dcf_table(
        &projected,
        &discounted,
        "300".to_string(),
        "250".to_string(),
        "436.57".to_string(),
    );
    let again = build_dcf_table(
        &projected,
        &discounted,
        "300".to_string(),
        "250".to_string(),
        "436.57".to_string(),
    );
    assert_eq!(once.rows.len(), again.rows.len());
    for (a, b) in once.rows.iter().zip(again.rows.iter()) {
        assert_eq!(a.year, b.year);
        assert_eq!(a.fcf, b.fcf);
        assert_eq!(a.discounted, b.discounted);
    }
    assert_eq!(once.total_intrinsic_value, again.total_intrinsic_value);
    assert_eq!(result_table(&once), result_table(&again));
    assert_eq!(round("1234.5678", 2), round("1234.5678", 2));
}
