use telemetry_charts::errors::ChartError;
use telemetry_charts::labels::{tick_label, weekday};
use telemetry_charts::normalize::{axis_range, normalize_timestamp, parse_timestamp};
use telemetry_charts::plan::{
    build_chart_plan, check_layout, color_of, default_palette, extract_series, grid_shape,
    panel_cell, panel_order, panel_plan, Quantity,
};
use telemetry_charts::table::{parse_cell, parse_table, sensor_roster, sort_rows, Cell};
use telemetry_charts::time::Stamp;

fn stamp(year: u16, month: u8, day: u8, hour: u8, minute: u8, second: u8) -> Stamp {
    Stamp { year, month, day, hour, minute, second }
}

#[test]
fn timestamp_grammar_accepts_offsets() {
    let (t, off) = parse_timestamp(b"2023-06-01T12:00:00+0900").unwrap();
    assert_eq!(t, stamp(2023, 6, 1, 12, 0, 0));
    assert_eq!(off, 9 * 3600);
    let (t2, off2) = parse_timestamp(b"2023-06-01T12:00:00+09:00").unwrap();
    assert_eq!(t2, stamp(2023, 6, 1, 12, 0, 0));
    assert_eq!(off2, 9 * 3600);
    let (t3, off3) = parse_timestamp(b"2023-06-01T12:00:00Z").unwrap();
    assert_eq!(t3, stamp(2023, 6, 1, 12, 0, 0));
    assert_eq!(off3, 0);
    let (_, off4) = parse_timestamp(b"2023-06-01T12:00:00-0130").unwrap();
    assert_eq!(off4, -(3600 + 1800));
}

#[test]
fn timestamp_grammar_rejects_bad_bytes() {
    assert!(parse_timestamp(b"not-a-date").is_none());
    assert!(parse_timestamp(b"2023-13-01T00:00:00Z").is_none());
    assert!(parse_timestamp(b"2023-06-01T24:00:00Z").is_none());
    assert!(parse_timestamp(b"2023-02-30T00:00:00Z").is_none());
    assert!(parse_timestamp(b"2023-06-01T12:00:00").is_none());
    assert!(parse_timestamp(b"2023-06-01 12:00:00Z").is_none());
}

#[test]
fn normalization_moves_into_tokyo_time() {
    // Tokyo is nine hours east of UTC: a UTC instant gains nine hours.
    let t = normalize_timestamp(b"2023-06-01T00:00:00+0000").unwrap();
    assert_eq!(t, stamp(2023, 6, 1, 9, 0, 0));
    // An instant already written with the Tokyo offset keeps its wall time.
    let t2 = normalize_timestamp(b"2023-06-01T12:00:00+0900").unwrap();
    assert_eq!(t2, stamp(2023, 6, 1, 12, 0, 0));
    // A late UTC hour crosses into the next local calendar day.
    let t3 = normalize_timestamp(b"2023-06-01T23:00:00+0000").unwrap();
    assert_eq!(t3, stamp(2023, 6, 2, 8, 0, 0));
    assert!(normalize_timestamp(b"not-a-date").is_none());
}

#[test]
fn cell_grammar_reads_numbers_in_microunits() {
    assert_eq!(parse_cell(b"10.5"), Cell::Num(10_500_000));
    assert_eq!(parse_cell(b"10"), Cell::Num(10_000_000));
    assert_eq!(parse_cell(b"-3"), Cell::Num(-3_000_000));
    assert_eq!(parse_cell(b"+2.25"), Cell::Num(2_250_000));
    assert_eq!(parse_cell(b"1.2345678"), Cell::Num(1_234_567));
    assert_eq!(parse_cell(b""), Cell::Missing);
    assert_eq!(parse_cell(b"abc"), Cell::Text);
    assert_eq!(parse_cell(b"10."), Cell::Text);
    assert_eq!(parse_cell(b"1e3"), Cell::Text);
    assert_eq!(parse_cell(b"1013.25"), Cell::Num(1_013_250_000));
}

#[test]
fn tick_labels_follow_midnight_rule() {
    // 2023-06-01 was a Thursday.
    assert_eq!(tick_label(&stamp(2023, 6, 1, 0, 0, 0)), b"2023-06-01 Thu".to_vec());
    assert_eq!(tick_label(&stamp(2023, 6, 1, 12, 34, 56)), b"12:34:56".to_vec());
    // Half past midnight is not midnight, so it keeps the time form.
    assert_eq!(tick_label(&stamp(2023, 6, 1, 0, 30, 0)), b"00:30:00".to_vec());
}

#[test]
fn weekday_formula_matches_known_dates() {
    // 0 is Saturday, 5 Thursday; 2024-02-29 was a Thursday.
    assert_eq!(weekday(2023, 6, 1), 5);
    assert_eq!(weekday(2024, 2, 29), 5);
    assert_eq!(weekday(2000, 1, 1), 0);
}

#[test]
fn axis_range_spans_whole_days() {
    let stamps = vec![stamp(2023, 6, 1, 9, 0, 0), stamp(2023, 6, 1, 15, 0, 0)];
    let r = axis_range(&stamps).unwrap();
    assert_eq!(r.start, stamp(2023, 6, 1, 0, 0, 0));
    assert_eq!(r.end, stamp(2023, 6, 2, 0, 0, 0));
    // Spanning two days widens the range to the day after the last stamp.
    let stamps2 = vec![stamp(2023, 6, 1, 9, 0, 0), stamp(2023, 6, 2, 1, 0, 0)];
    let r2 = axis_range(&stamps2).unwrap();
    assert_eq!(r2.start, stamp(2023, 6, 1, 0, 0, 0));
    assert_eq!(r2.end, stamp(2023, 6, 3, 0, 0, 0));
}

#[test]
fn axis_range_of_nothing_is_empty_input() {
    let r = axis_range(&Vec::new());
    assert_eq!(r.unwrap_err(), ChartError::EmptyInput);
}

#[test]
fn csv_rows_and_sort_and_roster() {
    let csv = b"measuredAt,sensorId,temperature\r\n\
2023-06-01T15:00:00+0900,B,20\n\
2023-06-01T09:00:00+0900,A,10\n\
,C,1\n\
2023-06-01T12:00:00+0900,A,12\n";
    let rows = parse_table(csv);
    assert_eq!(rows.len(), 4);
    let rows = sort_rows(rows);
    // The row without a timestamp sorts first; the rest ascend by time.
    assert!(rows[0].measured_at.is_none());
    assert_eq!(rows[1].measured_at.unwrap(), stamp(2023, 6, 1, 9, 0, 0));
    assert_eq!(rows[2].measured_at.unwrap(), stamp(2023, 6, 1, 12, 0, 0));
    assert_eq!(rows[3].measured_at.unwrap(), stamp(2023, 6, 1, 15, 0, 0));
    let roster = sensor_roster(&rows);
    assert_eq!(roster, vec![b"C".to_vec(), b"A".to_vec(), b"B".to_vec()]);
}

#[test]
fn roster_skips_rows_without_sensor_id() {
    let csv = b"measuredAt,sensorId,temperature\n\
2023-06-01T09:00:00+0900,,10\n\
2023-06-01T10:00:00+0900,A,11\n\
2023-06-01T11:00:00+0900,A,12\n";
    let rows = parse_table(csv);
    let roster = sensor_roster(&rows);
    assert_eq!(roster, vec![b"A".to_vec()]);
}

#[test]
fn colors_wrap_to_first_entry() {
    let palette = default_palette();
    assert_eq!(color_of(&palette, 6), color_of(&palette, 0));
    assert_eq!(color_of(&palette, 0).red, 33);
    assert_eq!(color_of(&palette, 2).green, 175);
    assert_eq!(color_of(&palette, 9), color_of(&palette, 0));
}

#[test]
fn layout_wants_exactly_eight_regions() {
    assert!(check_layout(8).is_ok());
    assert_eq!(check_layout(7).unwrap_err(), ChartError::Layout);
    assert_eq!(check_layout(9).unwrap_err(), ChartError::Layout);
    assert_eq!(grid_shape(), (4, 2));
    assert_eq!(panel_cell(0), (0, 0));
    assert_eq!(panel_cell(1), (0, 1));
    assert_eq!(panel_cell(6), (3, 0));
    assert_eq!(panel_cell(7), (3, 1));
}

#[test]
fn two_sensors_one_empty_makes_one_series() {
    // Sensor A has three temperatures over 09:00 to 15:00; sensor B has
    // none: the temperature panel shows exactly one series, y-range 10 to
    // 12, x-range the whole first of June.
    let csv = b"measuredAt,sensorId,temperature\n\
2023-06-01T09:00:00+0900,A,10\n\
2023-06-01T12:00:00+0900,A,12\n\
2023-06-01T15:00:00+0900,A,11\n\
2023-06-01T09:00:00+0900,B,\n";
    let rows = sort_rows(parse_table(csv));
    let roster = sensor_roster(&rows);
    let palette = default_palette();
    let p = panel_plan(&rows, Quantity::Temperature, &roster, &palette).unwrap();
    assert_eq!(p.series.len(), 1);
    assert_eq!(p.series[0].sensor, b"A".to_vec());
    assert_eq!(p.series[0].points.len(), 3);
    assert_eq!(p.ymin, 10_000_000);
    assert_eq!(p.ymax, 12_000_000);
    assert_eq!(p.axis.start, stamp(2023, 6, 1, 0, 0, 0));
    assert_eq!(p.axis.end, stamp(2023, 6, 2, 0, 0, 0));
}

#[test]
fn all_null_quantity_reports_no_data() {
    let csv = b"measuredAt,sensorId,temperature,pressure\n\
2023-06-01T09:00:00+0900,A,10,\n\
2023-06-01T12:00:00+0900,A,12,\n";
    let rows = sort_rows(parse_table(csv));
    let roster = sensor_roster(&rows);
    let palette = default_palette();
    let r = panel_plan(&rows, Quantity::Pressure, &roster, &palette);
    assert_eq!(r.unwrap_err(), ChartError::NoData);
    // The whole chart fails on that panel too, by design.
    let c = build_chart_plan(&rows, &palette);
    assert_eq!(c.unwrap_err(), ChartError::NoData);
}

#[test]
fn unparseable_timestamp_excludes_only_its_row() {
    let csv = b"measuredAt,sensorId,temperature\n\
2023-06-01T09:00:00+0900,A,10\n\
not-a-date,A,99\n\
2023-06-01T15:00:00+0900,A,11\n";
    let rows = sort_rows(parse_table(csv));
    let roster = sensor_roster(&rows);
    let palette = default_palette();
    let p = panel_plan(&rows, Quantity::Temperature, &roster, &palette).unwrap();
    assert_eq!(p.series.len(), 1);
    let pts = &p.series[0].points;
    assert_eq!(pts.len(), 2);
    assert!(pts.iter().all(|pt| pt.value != 99_000_000));
    assert_eq!(p.ymin, 10_000_000);
    assert_eq!(p.ymax, 11_000_000);
}

#[test]
fn non_numeric_value_fails_the_chart() {
    let csv = b"measuredAt,sensorId,temperature\n\
2023-06-01T09:00:00+0900,A,10\n\
2023-06-01T12:00:00+0900,A,warm\n";
    let rows = sort_rows(parse_table(csv));
    let roster = sensor_roster(&rows);
    let palette = default_palette();
    let r = extract_series(&rows, b"A", Quantity::Temperature);
    assert_eq!(r.unwrap_err(), ChartError::TypeConversion);
    let p = panel_plan(&rows, Quantity::Temperature, &roster, &palette);
    assert_eq!(p.unwrap_err(), ChartError::TypeConversion);
}

#[test]
fn empty_series_is_no_error() {
    let csv = b"measuredAt,sensorId,temperature\n\
2023-06-01T09:00:00+0900,A,10\n";
    let rows = sort_rows(parse_table(csv));
    let pts = extract_series(&rows, b"B", Quantity::Temperature).unwrap();
    assert!(pts.is_empty());
}

#[test]
fn whole_chart_plan_has_seven_panels_in_order() {
    let csv = b"measuredAt,sensorId,temperature,pressure,humidity,absolute_humidity,tvoc,eCo2,co2\n\
2023-06-01T09:00:00+0900,A,21.5,1013.2,45,7.5,120,450,600\n\
2023-06-01T12:00:00+0900,B,22.5,1012.8,44,7.4,130,460,610\n";
    let rows = sort_rows(parse_table(csv));
    let palette = default_palette();
    let plan = build_chart_plan(&rows, &palette).unwrap();
    assert_eq!(plan.roster, vec![b"A".to_vec(), b"B".to_vec()]);
    assert_eq!(plan.panels.len(), 7);
    let order = panel_order();
    for (i, panel) in plan.panels.iter().enumerate() {
        assert_eq!(panel.quantity, order[i]);
    }
    assert_eq!(plan.panels[0].caption, b"temperature".to_vec());
    assert_eq!(plan.panels[0].unit, b"C".to_vec());
    assert_eq!(plan.panels[1].caption, b"pressure".to_vec());
    assert_eq!(plan.panels[1].unit, b"hPa".to_vec());
    assert_eq!(plan.panels[2].caption, b"relative humidity".to_vec());
    assert_eq!(plan.panels[4].caption, b"carbon dioxide (CO2)".to_vec());
    assert_eq!(plan.panels[6].caption, b"equivalent CO2".to_vec());
    // Two sensors, two colors, in roster order.
    assert_eq!(plan.panels[0].series.len(), 2);
    assert_eq!(plan.panels[0].series[0].color, color_of(&palette, 0));
    assert_eq!(plan.panels[0].series[1].color, color_of(&palette, 1));
}

#[test]
fn reruns_derive_identical_ranges() {
    let csv = b"measuredAt,sensorId,temperature\n\
2023-06-01T09:00:00+0900,A,10\n\
2023-06-02T12:00:00+0900,A,12.5\n";
    let rows1 = sort_rows(parse_table(csv));
    let rows2 = sort_rows(parse_table(csv));
    let palette = default_palette();
    let roster1 = sensor_roster(&rows1);
    let roster2 = sensor_roster(&rows2);
    let p1 = panel_plan(&rows1, Quantity::Temperature, &roster1, &palette).unwrap();
    let p2 = panel_plan(&rows2, Quantity::Temperature, &roster2, &palette).unwrap();
    assert_eq!(p1.axis, p2.axis);
    assert_eq!(p1.ymin, p2.ymin);
    assert_eq!(p1.ymax, p2.ymax);
}

#[test]
fn missing_timestamp_column_leaves_no_data() {
    let csv = b"sensorId,temperature\nA,10\nA,12\n";
    let rows = sort_rows(parse_table(csv));
    assert!(rows.iter().all(|r| r.measured_at.is_none()));
    let roster = sensor_roster(&rows);
    let palette = default_palette();
    let r = panel_plan(&rows, Quantity::Temperature, &roster, &palette);
    assert_eq!(r.unwrap_err(), ChartError::NoData);
}

#[test]
fn missing_sensor_column_leaves_no_data() {
    let csv = b"measuredAt,temperature\n2023-06-01T09:00:00+0900,10\n";
    let rows = sort_rows(parse_table(csv));
    assert!(sensor_roster(&rows).is_empty());
    let palette = default_palette();
    let r = panel_plan(&rows, Quantity::Temperature, &sensor_roster(&rows), &palette);
    assert_eq!(r.unwrap_err(), ChartError::NoData);
}

#[test]
fn short_records_read_as_missing_cells() {
    let csv = b"measuredAt,sensorId,temperature\n\
2023-06-01T09:00:00+0900,A\n\
2023-06-01T12:00:00+0900,A,12\n";
    let rows = parse_table(csv);
    assert_eq!(rows.len(), 2);
    assert_eq!(rows[0].temperature, Cell::Missing);
    assert_eq!(rows[1].temperature, Cell::Num(12_000_000));
}

#[test]
fn large_western_offset_crosses_day_backward() {
    // Half past midnight written at +10:30 is the previous day 14:00 UTC,
    // which is the previous day 23:00 in Tokyo.
    let t = normalize_timestamp(b"2023-06-01T00:30:00+10:30").unwrap();
    assert_eq!(t, stamp(2023, 5, 31, 23, 0, 0));
}
