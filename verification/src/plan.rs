//! The chart plan: which quantity each panel shows, the shared sensor
//! roster with its color assignment, each panel's series, y-range and
//! day-aligned axis range, and the fixed grid the panels occupy. A drawing
//! backend can render the plan without taking any further decision.

use crate::csv::byte_views;
use crate::errors::ChartError;
use crate::normalize::{axis_range, plottable, spec_axis_range, AxisRange};
use crate::table::{row_views, spec_roster, Cell, Row, RowView};
use crate::table::{copy_bytes, sensor_roster};
use crate::time::Stamp;
use vstd::prelude::*;

verus! {

/// One measured quantity; each has its own panel.
#[derive(Clone, Copy, Debug, PartialEq, Eq, Structural)]
pub enum Quantity {
    Temperature,
    Pressure,
    RelativeHumidity,
    AbsoluteHumidity,
    CarbonDioxide,
    TotalVoc,
    EquivalentCo2,
}

impl Quantity {
    /// The cell this quantity reads from a row.
    pub open spec fn spec_cell(self, r: RowView) -> Cell {
        match self {
            Quantity::Temperature => r.temperature,
            Quantity::Pressure => r.pressure,
            Quantity::RelativeHumidity => r.humidity,
            Quantity::AbsoluteHumidity => r.absolute_humidity,
            Quantity::CarbonDioxide => r.co2,
            Quantity::TotalVoc => r.tvoc,
            Quantity::EquivalentCo2 => r.eco2,
        }
    }

    pub fn cell(&self, r: &Row) -> (c: Cell)
        ensures
            c == self.spec_cell(r@),
    {
        match self {
            Quantity::Temperature => r.temperature,
            Quantity::Pressure => r.pressure,
            Quantity::RelativeHumidity => r.humidity,
            Quantity::AbsoluteHumidity => r.absolute_humidity,
            Quantity::CarbonDioxide => r.co2,
            Quantity::TotalVoc => r.tvoc,
            Quantity::EquivalentCo2 => r.eco2,
        }
    }
}

/// The seven panels in their fixed reading order.
pub open spec fn spec_panel_order() -> Seq<Quantity> {
    seq![
        Quantity::Temperature,
        Quantity::Pressure,
        Quantity::RelativeHumidity,
        Quantity::AbsoluteHumidity,
        Quantity::CarbonDioxide,
        Quantity::TotalVoc,
        Quantity::EquivalentCo2,
    ]
}

pub fn panel_order() -> (q: Vec<Quantity>)
    ensures
        q@ == spec_panel_order(),
{
    let mut q: Vec<Quantity> = Vec::new();
    q.push(Quantity::Temperature);
    q.push(Quantity::Pressure);
    q.push(Quantity::RelativeHumidity);
    q.push(Quantity::AbsoluteHumidity);
    q.push(Quantity::CarbonDioxide);
    q.push(Quantity::TotalVoc);
    q.push(Quantity::EquivalentCo2);
    proof {
        assert(q@ =~= spec_panel_order());
    }
    q
}

/// The fixed grid of panel regions: four rows of two, read row-major. The
/// seven panels fill the first seven cells; the eighth stays blank.
pub fn grid_shape() -> (g: (usize, usize))
    ensures
        (g.0 == 4 && g.1 == 2),
{
    (4, 2)
}

/// The grid cell (row, column) of the panel at `i` in reading order.
pub fn panel_cell(i: usize) -> (rc: (usize, usize))
    requires
        i < 8,
    ensures
        (rc.0 == i / 2 && rc.1 == i % 2),
{
    (i / 2, i % 2)
}

/// Accepts a partition of the drawing surface only when it has exactly the
/// eight grid regions; anything else is a fatal layout fault.
pub fn check_layout(regions: usize) -> (r: Result<(), ChartError>)
    ensures
        r matches Ok(u) <==> regions == 8,
        r matches Err(e) ==> e == ChartError::Layout && regions != 8,
{
    if regions == 8 {
        Ok(())
    } else {
        Err(ChartError::Layout)
    }
}

/// One color, as the three channel bytes of its sRGB value.
#[derive(Clone, Copy, Debug, PartialEq, Eq, Structural)]
pub struct Rgb {
    pub red: u8,
    pub green: u8,
    pub blue: u8,
}

/// The six default panel colors, in assignment order: the material-design
/// blue, orange, green, pink, cyan and deep orange.
pub open spec fn spec_default_palette() -> Seq<Rgb> {
    seq![
        Rgb { red: 33, green: 150, blue: 243 },
        Rgb { red: 255, green: 152, blue: 0 },
        Rgb { red: 76, green: 175, blue: 80 },
        Rgb { red: 233, green: 30, blue: 99 },
        Rgb { red: 0, green: 188, blue: 212 },
        Rgb { red: 255, green: 87, blue: 34 },
    ]
}

pub fn default_palette() -> (p: Vec<Rgb>)
    ensures
        p@ == spec_default_palette(),
        p@.len() == 6,
{
    let mut p: Vec<Rgb> = Vec::new();
    p.push(Rgb { red: 33, green: 150, blue: 243 });
    p.push(Rgb { red: 255, green: 152, blue: 0 });
    p.push(Rgb { red: 76, green: 175, blue: 80 });
    p.push(Rgb { red: 233, green: 30, blue: 99 });
    p.push(Rgb { red: 0, green: 188, blue: 212 });
    p.push(Rgb { red: 255, green: 87, blue: 34 });
    proof {
        assert(p@ =~= spec_default_palette());
    }
    p
}

/// The color assigned to the sensor at `idx` in the roster: the palette
/// entry at that index; from the palette's end on, the first entry again.
pub open spec fn spec_color_of(p: Seq<Rgb>, idx: int) -> Rgb {
    if 0 <= idx < p.len() {
        p[idx]
    } else {
        p[0]
    }
}

pub fn color_of(p: &Vec<Rgb>, idx: usize) -> (c: Rgb)
    requires
        p@.len() > 0,
    ensures
        c == spec_color_of(p@, idx as int),
{
    if idx < p.len() {
        p[idx]
    } else {
        p[0]
    }
}

/// Law: one full cycle beyond the palette, the assignment wraps: the index
/// equal to the palette length gets the same color as index zero.
pub proof fn lemma_color_cycle(p: Seq<Rgb>)
    requires
        p.len() > 0,
    ensures
        spec_color_of(p, p.len() as int) == spec_color_of(p, 0),
{
}

/// Law: for an index inside the palette, or one that lands on a whole
/// number of cycles, the color is a function of the sensor index modulo
/// the palette size. Strictly past the palette the assignment stays at the
/// first color, so the congruence holds nowhere else: index seven against
/// six colors gets the first color, not the second.
pub proof fn lemma_color_modulo(p: Seq<Rgb>, i: int)
    requires
        p.len() > 0,
        0 <= i,
        i < p.len() || i % (p.len() as int) == 0,
    ensures
        spec_color_of(p, i) == p[i % (p.len() as int)],
{
    let n = p.len() as int;
    if i < n {
        assert(i % n == i) by {
            vstd::arithmetic::div_mod::lemma_small_mod(i as nat, n as nat);
        }
    }
}

/// One charted point: a normalized timestamp and a value in microunits.
#[derive(Clone, Copy, Debug, PartialEq, Eq, Structural)]
pub struct SeriesPoint {
    pub at: Stamp,
    pub value: i64,
}

/// The ordered (time, value) pairs of one sensor's series for one
/// quantity: the rows whose sensor id is exactly `sensor`, whose timestamp
/// is present, and whose cell for the quantity holds a number.
pub open spec fn spec_series(rows: Seq<RowView>, sensor: Seq<u8>, q: Quantity) -> Seq<SeriesPoint>
    decreases rows.len(),
{
    if rows.len() == 0 {
        Seq::empty()
    } else {
        let prev = spec_series(rows.drop_last(), sensor, q);
        let r = rows.last();
        match (r.sensor, r.at, q.spec_cell(r)) {
            (Some(s), Some(t), Cell::Num(v)) => if s == sensor {
                prev.push(SeriesPoint { at: t, value: v })
            } else {
                prev
            },
            _ => prev,
        }
    }
}

/// Whether a row of the given sensor holds a present but non-numeric cell
/// for the quantity.
pub open spec fn spec_series_text(rows: Seq<RowView>, sensor: Seq<u8>, q: Quantity) -> bool
    decreases rows.len(),
{
    if rows.len() == 0 {
        false
    } else {
        let r = rows.last();
        spec_series_text(rows.drop_last(), sensor, q) || (r.sensor == Some(sensor) && r.at is Some
            && q.spec_cell(r) is Text)
    }
}

/// Extracts one sensor's ordered series for one quantity. An empty result
/// is a plain empty series, not an error: the caller skips such a sensor
/// silently. A present value that cannot be read as a number fails with
/// `TypeConversion`, exactly when such a value stands in one of this
/// sensor's timestamped rows.
pub fn extract_series(rows: &Vec<Row>, sensor: &[u8], q: Quantity) -> (r: Result<
    Vec<SeriesPoint>,
    ChartError,
>)
    ensures
        match r {
            Ok(pts) => pts@ == spec_series(row_views(rows@), sensor@, q) && !spec_series_text(
                row_views(rows@),
                sensor@,
                q,
            ),
            Err(e) => e == ChartError::TypeConversion && spec_series_text(
                row_views(rows@),
                sensor@,
                q,
            ),
        },
{
    let mut pts: Vec<SeriesPoint> = Vec::new();
    let mut i: usize = 0;
    proof {
        assert(row_views(rows@).take(0) =~= Seq::<RowView>::empty());
    }
    while i < rows.len()
        invariant
            i <= rows@.len(),
            pts@ == spec_series(row_views(rows@).take(i as int), sensor@, q),
            !spec_series_text(row_views(rows@).take(i as int), sensor@, q),
        decreases rows@.len() - i,
    {
        proof {
            assert(row_views(rows@).take(i as int + 1).drop_last() =~= row_views(rows@).take(
                i as int,
            ));
            assert(row_views(rows@).take(i as int + 1).last() == row_views(rows@)[i as int]);
            assert(row_views(rows@)[i as int] == rows@[i as int]@);
        }
        let row = &rows[i];
        let same = match &row.sensor_id {
            Some(v) => crate::table::bytes_eq(v.as_slice(), sensor),
            None => false,
        };
        if same {
            match &row.measured_at {
                Some(t) => {
                    match q.cell(row) {
                        Cell::Num(v) => {
                            pts.push(SeriesPoint { at: *t, value: v });
                        },
                        Cell::Text => {
                            proof {
                                assert(spec_series_text(
                                    row_views(rows@).take(i as int + 1),
                                    sensor@,
                                    q,
                                ));
                                lemma_series_text_prefix(row_views(rows@), sensor@, q, i as int + 1);
                            }
                            return Err(ChartError::TypeConversion);
                        },
                        Cell::Missing => {},
                    }
                },
                None => {},
            }
        }
        i = i + 1;
    }
    proof {
        assert(row_views(rows@).take(rows@.len() as int) =~= row_views(rows@));
    }
    Ok(pts)
}

/// A text cell seen in a prefix of the rows is seen in the whole table.
proof fn lemma_series_text_prefix(rows: Seq<RowView>, sensor: Seq<u8>, q: Quantity, n: int)
    requires
        0 <= n <= rows.len(),
        spec_series_text(rows.take(n), sensor, q),
    ensures
        spec_series_text(rows, sensor, q),
    decreases rows.len() - n,
{
    if n < rows.len() {
        assert(rows.take(n + 1).drop_last() =~= rows.take(n));
        lemma_series_text_prefix(rows, sensor, q, n + 1);
    } else {
        assert(rows.take(n) =~= rows);
    }
}

/// Law: every extracted pair comes from a row of the requested sensor with
/// its timestamp and a numeric value present; a row without a sensor id
/// contributes to no series.
pub proof fn lemma_series_points_from_rows(rows: Seq<RowView>, sensor: Seq<u8>, q: Quantity)
    ensures
        forall|k: int|
            0 <= k < spec_series(rows, sensor, q).len() ==> exists|i: int|
                0 <= i < rows.len() && (#[trigger] rows[i]).sensor == Some(sensor) && rows[i].at
                    == Some((#[trigger] spec_series(rows, sensor, q)[k]).at) && q.spec_cell(
                    rows[i],
                ) == Cell::Num(spec_series(rows, sensor, q)[k].value),
    decreases rows.len(),
{
    if rows.len() > 0 {
        lemma_series_points_from_rows(rows.drop_last(), sensor, q);
        let prev = spec_series(rows.drop_last(), sensor, q);
        let cur = spec_series(rows, sensor, q);
        assert forall|k: int| 0 <= k < cur.len() implies exists|i: int|
            0 <= i < rows.len() && (#[trigger] rows[i]).sensor == Some(sensor) && rows[i].at
                == Some((#[trigger] cur[k]).at) && q.spec_cell(rows[i]) == Cell::Num(
                cur[k].value,
            ) by {
            if k < prev.len() {
                let i = choose|i: int|
                    0 <= i < rows.drop_last().len() && (#[trigger] rows.drop_last()[i]).sensor
                        == Some(sensor) && rows.drop_last()[i].at == Some(prev[k].at)
                        && q.spec_cell(rows.drop_last()[i]) == Cell::Num(prev[k].value);
                assert(rows[i] == rows.drop_last()[i]);
                assert(cur[k] == prev[k]);
            } else {
                let i = rows.len() - 1;
                assert(rows[i] == rows.last());
            }
        }
    }
}


impl Quantity {
    /// The caption of this quantity's panel.
    pub open spec fn spec_caption(self) -> Seq<u8> {
        match self {
            Quantity::Temperature => seq![116u8, 101u8, 109u8, 112u8, 101u8, 114u8, 97u8, 116u8, 117u8, 114u8, 101u8],
            Quantity::Pressure => seq![112u8, 114u8, 101u8, 115u8, 115u8, 117u8, 114u8, 101u8],
            Quantity::RelativeHumidity => seq![114u8, 101u8, 108u8, 97u8, 116u8, 105u8, 118u8, 101u8, 32u8, 104u8, 117u8, 109u8, 105u8, 100u8, 105u8, 116u8, 121u8],
            Quantity::AbsoluteHumidity => seq![97u8, 98u8, 115u8, 111u8, 108u8, 117u8, 116u8, 101u8, 32u8, 104u8, 117u8, 109u8, 105u8, 100u8, 105u8, 116u8, 121u8],
            Quantity::CarbonDioxide => seq![99u8, 97u8, 114u8, 98u8, 111u8, 110u8, 32u8, 100u8, 105u8, 111u8, 120u8, 105u8, 100u8, 101u8, 32u8, 40u8, 67u8, 79u8, 50u8, 41u8],
            Quantity::TotalVoc => seq![84u8, 111u8, 116u8, 97u8, 108u8, 32u8, 86u8, 79u8, 67u8],
            Quantity::EquivalentCo2 => seq![101u8, 113u8, 117u8, 105u8, 118u8, 97u8, 108u8, 101u8, 110u8, 116u8, 32u8, 67u8, 79u8, 50u8],
        }
    }

    pub fn caption(&self) -> (v: Vec<u8>)
        ensures
            v@ == self.spec_caption(),
    {
        let mut v: Vec<u8> = Vec::new();
        match self {
            Quantity::Temperature => {
            v.push(116);
            v.push(101);
            v.push(109);
            v.push(112);
            v.push(101);
            v.push(114);
            v.push(97);
            v.push(116);
            v.push(117);
            v.push(114);
            v.push(101);
            },
            Quantity::Pressure => {
            v.push(112);
            v.push(114);
            v.push(101);
            v.push(115);
            v.push(115);
            v.push(117);
            v.push(114);
            v.push(101);
            },
            Quantity::RelativeHumidity => {
            v.push(114);
            v.push(101);
            v.push(108);
            v.push(97);
            v.push(116);
            v.push(105);
            v.push(118);
            v.push(101);
            v.push(32);
            v.push(104);
            v.push(117);
            v.push(109);
            v.push(105);
            v.push(100);
            v.push(105);
            v.push(116);
            v.push(121);
            },
            Quantity::AbsoluteHumidity => {
            v.push(97);
            v.push(98);
            v.push(115);
            v.push(111);
            v.push(108);
            v.push(117);
            v.push(116);
            v.push(101);
            v.push(32);
            v.push(104);
            v.push(117);
            v.push(109);
            v.push(105);
            v.push(100);
            v.push(105);
            v.push(116);
            v.push(121);
            },
            Quantity::CarbonDioxide => {
            v.push(99);
            v.push(97);
            v.push(114);
            v.push(98);
            v.push(111);
            v.push(110);
            v.push(32);
            v.push(100);
            v.push(105);
            v.push(111);
            v.push(120);
            v.push(105);
            v.push(100);
            v.push(101);
            v.push(32);
            v.push(40);
            v.push(67);
            v.push(79);
            v.push(50);
            v.push(41);
            },
            Quantity::TotalVoc => {
            v.push(84);
            v.push(111);
            v.push(116);
            v.push(97);
            v.push(108);
            v.push(32);
            v.push(86);
            v.push(79);
            v.push(67);
            },
            Quantity::EquivalentCo2 => {
            v.push(101);
            v.push(113);
            v.push(117);
            v.push(105);
            v.push(118);
            v.push(97);
            v.push(108);
            v.push(101);
            v.push(110);
            v.push(116);
            v.push(32);
            v.push(67);
            v.push(79);
            v.push(50);
            },
        }
        proof {
            assert(v@ =~= self.spec_caption());
        }
        v
    }

    /// The unit of this quantity's panel.
    pub open spec fn spec_unit(self) -> Seq<u8> {
        match self {
            Quantity::Temperature => seq![67u8],
            Quantity::Pressure => seq![104u8, 80u8, 97u8],
            Quantity::RelativeHumidity => seq![37u8, 82u8, 72u8],
            Quantity::AbsoluteHumidity => seq![109u8, 103u8, 47u8, 109u8, 94u8, 51u8],
            Quantity::CarbonDioxide => seq![112u8, 112u8, 109u8],
            Quantity::TotalVoc => seq![112u8, 112u8, 98u8],
            Quantity::EquivalentCo2 => seq![112u8, 112u8, 109u8],
        }
    }

    pub fn unit(&self) -> (v: Vec<u8>)
        ensures
            v@ == self.spec_unit(),
    {
        let mut v: Vec<u8> = Vec::new();
        match self {
            Quantity::Temperature => {
            v.push(67);
            },
            Quantity::Pressure => {
            v.push(104);
            v.push(80);
            v.push(97);
            },
            Quantity::RelativeHumidity => {
            v.push(37);
            v.push(82);
            v.push(72);
            },
            Quantity::AbsoluteHumidity => {
            v.push(109);
            v.push(103);
            v.push(47);
            v.push(109);
            v.push(94);
            v.push(51);
            },
            Quantity::CarbonDioxide => {
            v.push(112);
            v.push(112);
            v.push(109);
            },
            Quantity::TotalVoc => {
            v.push(112);
            v.push(112);
            v.push(98);
            },
            Quantity::EquivalentCo2 => {
            v.push(112);
            v.push(112);
            v.push(109);
            },
        }
        proof {
            assert(v@ =~= self.spec_unit());
        }
        v
    }

}

/// The least value of a non-empty value sequence.
pub open spec fn spec_min_val(s: Seq<i64>) -> int
    decreases s.len(),
{
    if s.len() <= 1 {
        s[0] as int
    } else {
        let m = spec_min_val(s.drop_last());
        if (s.last() as int) < m {
            s.last() as int
        } else {
            m
        }
    }
}

/// The greatest value of a non-empty value sequence.
pub open spec fn spec_max_val(s: Seq<i64>) -> int
    decreases s.len(),
{
    if s.len() <= 1 {
        s[0] as int
    } else {
        let m = spec_max_val(s.drop_last());
        if (s.last() as int) > m {
            s.last() as int
        } else {
            m
        }
    }
}

pub proof fn lemma_min_max_val(s: Seq<i64>)
    requires
        s.len() > 0,
    ensures
        forall|i: int| 0 <= i < s.len() ==> spec_min_val(s) <= (#[trigger] s[i]) as int <= spec_max_val(s),
        exists|i: int| 0 <= i < s.len() && (#[trigger] s[i]) as int == spec_min_val(s),
        exists|i: int| 0 <= i < s.len() && (#[trigger] s[i]) as int == spec_max_val(s),
    decreases s.len(),
{
    if s.len() > 1 {
        lemma_min_max_val(s.drop_last());
        let d = s.drop_last();
        assert forall|i: int| 0 <= i < s.len() implies spec_min_val(s) <= (#[trigger] s[i]) as int
            <= spec_max_val(s) by {
            if i < s.len() - 1 {
                assert(s[i] == d[i]);
            } else {
                assert(s[i] == s.last());
            }
        }
        let jm = choose|i: int| 0 <= i < d.len() && (#[trigger] d[i]) as int == spec_min_val(d);
        let jx = choose|i: int| 0 <= i < d.len() && (#[trigger] d[i]) as int == spec_max_val(d);
        assert(s[jm] == d[jm]);
        assert(s[jx] == d[jx]);
        assert(s[s.len() - 1] == s.last());
    } else {
        assert(s[0] == s.last());
    }
}

fn min_val(v: &Vec<i64>) -> (r: i64)
    requires
        v@.len() > 0,
    ensures
        r as int == spec_min_val(v@),
{
    let mut r: i64 = v[0];
    let mut i: usize = 1;
    proof {
        assert(v@.take(1).len() == 1);
        assert(v@.take(1)[0] == v@[0]);
    }
    while i < v.len()
        invariant
            1 <= i <= v@.len(),
            r as int == spec_min_val(v@.take(i as int)),
        decreases v@.len() - i,
    {
        proof {
            assert(v@.take(i as int + 1).drop_last() =~= v@.take(i as int));
            assert(v@.take(i as int + 1).last() == v@[i as int]);
        }
        if v[i] < r {
            r = v[i];
        }
        i = i + 1;
    }
    proof {
        assert(v@.take(v@.len() as int) =~= v@);
    }
    r
}

fn max_val(v: &Vec<i64>) -> (r: i64)
    requires
        v@.len() > 0,
    ensures
        r as int == spec_max_val(v@),
{
    let mut r: i64 = v[0];
    let mut i: usize = 1;
    proof {
        assert(v@.take(1).len() == 1);
        assert(v@.take(1)[0] == v@[0]);
    }
    while i < v.len()
        invariant
            1 <= i <= v@.len(),
            r as int == spec_max_val(v@.take(i as int)),
        decreases v@.len() - i,
    {
        proof {
            assert(v@.take(i as int + 1).drop_last() =~= v@.take(i as int));
            assert(v@.take(i as int + 1).last() == v@[i as int]);
        }
        if v[i] > r {
            r = v[i];
        }
        i = i + 1;
    }
    proof {
        assert(v@.take(v@.len() as int) =~= v@);
    }
    r
}

/// The timestamps of all rows this quantity's panel charts, any sensor, in
/// row order: sensor and timestamp present, cell not missing.
pub open spec fn spec_panel_stamps(rows: Seq<RowView>, q: Quantity) -> Seq<Stamp>
    decreases rows.len(),
{
    if rows.len() == 0 {
        Seq::empty()
    } else {
        let prev = spec_panel_stamps(rows.drop_last(), q);
        let r = rows.last();
        match (r.sensor, r.at) {
            (Some(s), Some(t)) => if q.spec_cell(r) is Missing {
                prev
            } else {
                prev.push(t)
            },
            _ => prev,
        }
    }
}

/// The numeric values of all rows this quantity's panel charts, any
/// sensor, in row order.
pub open spec fn spec_panel_values(rows: Seq<RowView>, q: Quantity) -> Seq<i64>
    decreases rows.len(),
{
    if rows.len() == 0 {
        Seq::empty()
    } else {
        let prev = spec_panel_values(rows.drop_last(), q);
        let r = rows.last();
        match (r.sensor, r.at, q.spec_cell(r)) {
            (Some(s), Some(t), Cell::Num(v)) => prev.push(v),
            _ => prev,
        }
    }
}

/// Whether any charted row holds a present but non-numeric cell for the
/// quantity.
pub open spec fn spec_any_text(rows: Seq<RowView>, q: Quantity) -> bool
    decreases rows.len(),
{
    if rows.len() == 0 {
        false
    } else {
        let r = rows.last();
        spec_any_text(rows.drop_last(), q) || (r.sensor is Some && r.at is Some && q.spec_cell(r)
            is Text)
    }
}

/// Why this quantity's panel cannot be derived: `NoData` when no row is
/// charted at all, `TypeConversion` when a charted value is not numeric;
/// `None` when the panel is owed.
pub open spec fn spec_panel_err(rows: Seq<RowView>, q: Quantity) -> Option<ChartError> {
    if spec_panel_stamps(rows, q).len() == 0 {
        Some(ChartError::NoData)
    } else if spec_any_text(rows, q) {
        Some(ChartError::TypeConversion)
    } else {
        None
    }
}

/// Without a non-numeric cell, every charted row contributes one value.
proof fn lemma_values_match_stamps(rows: Seq<RowView>, q: Quantity)
    requires
        !spec_any_text(rows, q),
    ensures
        spec_panel_values(rows, q).len() == spec_panel_stamps(rows, q).len(),
    decreases rows.len(),
{
    if rows.len() > 0 {
        lemma_values_match_stamps(rows.drop_last(), q);
    }
}

/// A non-numeric cell in one sensor's series is one in the whole panel.
proof fn lemma_series_text_implies_any(rows: Seq<RowView>, sensor: Seq<u8>, q: Quantity)
    requires
        spec_series_text(rows, sensor, q),
    ensures
        spec_any_text(rows, q),
    decreases rows.len(),
{
    if rows.len() > 0 {
        if spec_series_text(rows.drop_last(), sensor, q) {
            lemma_series_text_implies_any(rows.drop_last(), sensor, q);
        }
    }
}

/// The mathematical content of one rendered series.
pub struct SensorSeriesView {
    pub sensor: Seq<u8>,
    pub color: Rgb,
    pub points: Seq<SeriesPoint>,
}

/// One sensor's series as a panel draws it: the legend key, the assigned
/// color, and the ordered points.
#[derive(Debug)]
pub struct SensorSeries {
    pub sensor: Vec<u8>,
    pub color: Rgb,
    pub points: Vec<SeriesPoint>,
}

impl View for SensorSeries {
    type V = SensorSeriesView;

    open spec fn view(&self) -> SensorSeriesView {
        SensorSeriesView { sensor: self.sensor@, color: self.color, points: self.points@ }
    }
}

pub open spec fn series_views(s: Seq<SensorSeries>) -> Seq<SensorSeriesView> {
    s.map_values(|x: SensorSeries| x@)
}

/// The series list of one panel: one entry per roster sensor with at least
/// one point, in roster order, colored by roster index.
pub open spec fn spec_panel_series(
    rows: Seq<RowView>,
    q: Quantity,
    roster: Seq<Seq<u8>>,
    palette: Seq<Rgb>,
) -> Seq<SensorSeriesView>
    decreases roster.len(),
{
    if roster.len() == 0 {
        Seq::empty()
    } else {
        let prev = spec_panel_series(rows, q, roster.drop_last(), palette);
        let pts = spec_series(rows, roster.last(), q);
        if pts.len() == 0 {
            prev
        } else {
            prev.push(
                SensorSeriesView {
                    sensor: roster.last(),
                    color: spec_color_of(palette, roster.len() - 1),
                    points: pts,
                },
            )
        }
    }
}

/// One panel, fully decided: the quantity with its caption and unit, the
/// shared day-aligned axis range, the exact y-range, and every series.
#[derive(Debug)]
pub struct PanelPlan {
    pub quantity: Quantity,
    pub caption: Vec<u8>,
    pub unit: Vec<u8>,
    pub axis: AxisRange,
    pub ymin: i64,
    pub ymax: i64,
    pub series: Vec<SensorSeries>,
}

/// What a derived panel states: caption and unit of the quantity, y-range
/// exactly the least and greatest charted value, axis range exactly the
/// day-aligned range of the charted timestamps, and the series list of the
/// roster.
pub open spec fn panel_matches(
    p: PanelPlan,
    rows: Seq<RowView>,
    q: Quantity,
    roster: Seq<Seq<u8>>,
    palette: Seq<Rgb>,
) -> bool {
    &&& p.quantity == q
    &&& p.caption@ == q.spec_caption()
    &&& p.unit@ == q.spec_unit()
    &&& p.ymin as int == spec_min_val(spec_panel_values(rows, q))
    &&& p.ymax as int == spec_max_val(spec_panel_values(rows, q))
    &&& p.axis == spec_axis_range(spec_panel_stamps(rows, q))
    &&& series_views(p.series@) == spec_panel_series(rows, q, roster, palette)
}

/// Derives one quantity's panel. Fails with `NoData` exactly when no row
/// is charted for the quantity, with `TypeConversion` exactly when a
/// charted cell is not numeric; otherwise the panel is owed, with both
/// axis bounds at midnight and every charted timestamp inside the range.
pub fn panel_plan(
    rows: &Vec<Row>,
    q: Quantity,
    roster: &Vec<Vec<u8>>,
    palette: &Vec<Rgb>,
) -> (r: Result<PanelPlan, ChartError>)
    requires
        forall|i: int| 0 <= i < rows@.len() ==> (#[trigger] rows@[i])@.wf(),
        palette@.len() > 0,
    ensures
        (r is Ok) <==> spec_panel_err(row_views(rows@), q) is None,
        r matches Err(e) ==> spec_panel_err(row_views(rows@), q) == Some(e),
        r matches Ok(p) ==> panel_matches(p, row_views(rows@), q, byte_views(roster@), palette@)
            && p.axis.start.is_midnight() && p.axis.end.is_midnight() && (forall|i: int|
            0 <= i < spec_panel_stamps(row_views(rows@), q).len() ==> p.axis.start.key() <= (
            #[trigger] spec_panel_stamps(row_views(rows@), q)[i]).key() < p.axis.end.key())
            && (forall|i: int|
            0 <= i < spec_panel_values(row_views(rows@), q).len() ==> p.ymin as int <= (
            #[trigger] spec_panel_values(row_views(rows@), q)[i]) as int <= p.ymax as int),
{
    let ghost rv = row_views(rows@);
    let mut stamps: Vec<Stamp> = Vec::new();
    let mut values: Vec<i64> = Vec::new();
    let mut saw_text: bool = false;
    let mut i: usize = 0;
    proof {
        assert(rv.take(0) =~= Seq::<RowView>::empty());
    }
    while i < rows.len()
        invariant
            i <= rows@.len(),
            rv == row_views(rows@),
            forall|k: int| 0 <= k < rows@.len() ==> (#[trigger] rows@[k])@.wf(),
            stamps@ == spec_panel_stamps(rv.take(i as int), q),
            values@ == spec_panel_values(rv.take(i as int), q),
            saw_text == spec_any_text(rv.take(i as int), q),
            forall|k: int| 0 <= k < stamps@.len() ==> plottable(#[trigger] stamps@[k]),
        decreases rows@.len() - i,
    {
        proof {
            assert(rv.take(i as int + 1).drop_last() =~= rv.take(i as int));
            assert(rv.take(i as int + 1).last() == rv[i as int]);
            assert(rv[i as int] == rows@[i as int]@);
        }
        let row = &rows[i];
        match (&row.sensor_id, &row.measured_at) {
            (Option::Some(_), Option::Some(t)) => {
                match q.cell(row) {
                    Cell::Missing => {},
                    Cell::Num(v) => {
                        stamps.push(*t);
                        values.push(v);
                    },
                    Cell::Text => {
                        stamps.push(*t);
                        saw_text = true;
                    },
                }
            },
            _ => {},
        }
        i = i + 1;
    }
    proof {
        assert(rv.take(rows@.len() as int) =~= rv);
    }
    if stamps.len() == 0 {
        return Err(ChartError::NoData);
    }
    if saw_text {
        return Err(ChartError::TypeConversion);
    }
    proof {
        lemma_values_match_stamps(rv, q);
    }
    let axis = match axis_range(&stamps) {
        Ok(a) => a,
        Err(_) => {
            return Err(ChartError::NoData);
        },
    };
    let ymin = min_val(&values);
    let ymax = max_val(&values);
    let mut series: Vec<SensorSeries> = Vec::new();
    let mut si: usize = 0;
    proof {
        assert(byte_views(roster@).take(0) =~= Seq::<Seq<u8>>::empty());
        assert(series_views(series@) =~~= spec_panel_series(rv, q, byte_views(roster@).take(0), palette@));
    }
    while si < roster.len()
        invariant
            si <= roster@.len(),
            rv == row_views(rows@),
            !spec_any_text(rv, q),
            palette@.len() > 0,
            series_views(series@) == spec_panel_series(rv, q, byte_views(roster@).take(si as int), palette@),
        decreases roster@.len() - si,
    {
        proof {
            assert(byte_views(roster@).take(si as int + 1).drop_last() =~= byte_views(
                roster@,
            ).take(si as int));
            assert(byte_views(roster@).take(si as int + 1).last() == byte_views(roster@)[si as int]);
            assert(byte_views(roster@)[si as int] == roster@[si as int]@);
        }
        let ghost prev = series_views(series@);
        let pts = match extract_series(rows, roster[si].as_slice(), q) {
            Ok(p) => p,
            Err(_) => {
                proof {
                    lemma_series_text_implies_any(rv, roster@[si as int]@, q);
                }
                return Err(ChartError::TypeConversion);
            },
        };
        if pts.len() > 0 {
            let color = color_of(palette, si);
            let entry = SensorSeries {
                sensor: copy_bytes(roster[si].as_slice()),
                color,
                points: pts,
            };
            series.push(entry);
            proof {
                assert(series_views(series@) =~~= prev.push(
                    SensorSeriesView {
                        sensor: roster@[si as int]@,
                        color: spec_color_of(palette@, si as int),
                        points: spec_series(rv, roster@[si as int]@, q),
                    },
                ));
            }
        }
        si = si + 1;
    }
    proof {
        assert(byte_views(roster@).take(roster@.len() as int) =~= byte_views(roster@));
        lemma_min_max_val(spec_panel_values(rv, q));
    }
    Ok(PanelPlan { quantity: q, caption: q.caption(), unit: q.unit(), axis, ymin, ymax, series })
}

/// The whole chart, fully decided: the shared roster and the seven panels
/// in reading order.
#[derive(Debug)]
pub struct ChartPlan {
    pub roster: Vec<Vec<u8>>,
    pub panels: Vec<PanelPlan>,
}

/// Derives the whole chart plan: the shared sensor roster, then the seven
/// panels in their fixed order, each against that one roster and palette.
/// The first panel that cannot be derived fails the whole chart with its
/// error.
pub fn build_chart_plan(rows: &Vec<Row>, palette: &Vec<Rgb>) -> (r: Result<ChartPlan, ChartError>)
    requires
        forall|i: int| 0 <= i < rows@.len() ==> (#[trigger] rows@[i])@.wf(),
        palette@.len() > 0,
    ensures
        match r {
            Ok(p) => {
                &&& byte_views(p.roster@) == spec_roster(row_views(rows@))
                &&& p.panels@.len() == 7
                &&& (forall|i: int|
                    0 <= i < 7 ==> spec_panel_err(row_views(rows@), spec_panel_order()[i]) is None)
                &&& (forall|i: int|
                    0 <= i < 7 ==> panel_matches(
                        #[trigger] p.panels@[i],
                        row_views(rows@),
                        spec_panel_order()[i],
                        spec_roster(row_views(rows@)),
                        palette@,
                    ))
            },
            Err(e) => exists|i: int|
                0 <= i < 7 && spec_panel_err(row_views(rows@), #[trigger] spec_panel_order()[i])
                    == Some(e) && (forall|j: int|
                    0 <= j < i ==> spec_panel_err(row_views(rows@), #[trigger] spec_panel_order()[j])
                        is None),
        },
{
    let roster = sensor_roster(rows);
    let order = panel_order();
    let mut panels: Vec<PanelPlan> = Vec::new();
    let mut i: usize = 0;
    while i < order.len()
        invariant
            i <= 7,
            order@ == spec_panel_order(),
            byte_views(roster@) == spec_roster(row_views(rows@)),
            palette@.len() > 0,
            forall|k: int| 0 <= k < rows@.len() ==> (#[trigger] rows@[k])@.wf(),
            panels@.len() == i,
            forall|k: int|
                0 <= k < i ==> spec_panel_err(row_views(rows@), spec_panel_order()[k]) is None,
            forall|k: int|
                0 <= k < i ==> panel_matches(
                    #[trigger] panels@[k],
                    row_views(rows@),
                    spec_panel_order()[k],
                    spec_roster(row_views(rows@)),
                    palette@,
                ),
        decreases 7 - i,
    {
        let q = order[i];
        match panel_plan(rows, q, &roster, palette) {
            Ok(p) => {
                panels.push(p);
            },
            Err(e) => {
                return Err(e);
            },
        }
        i = i + 1;
    }
    Ok(ChartPlan { roster, panels })
}

/// Law: the derived ranges are a function of the table alone: over equal
/// row sequences the derived axis range and y-range are the same.
pub proof fn lemma_derived_ranges_deterministic(a: Seq<RowView>, b: Seq<RowView>, q: Quantity)
    requires
        a == b,
    ensures
        spec_axis_range(spec_panel_stamps(a, q)) == spec_axis_range(spec_panel_stamps(b, q)),
        spec_min_val(spec_panel_values(a, q)) == spec_min_val(spec_panel_values(b, q)),
        spec_max_val(spec_panel_values(a, q)) == spec_max_val(spec_panel_values(b, q)),
{
}

} // verus!
