//! The telemetry table: rows of a sensor id, a normalized timestamp, and one
//! optional numeric cell per measured quantity, read from CSV records by
//! column name. Also the upstream ordering step: sorting rows by time once,
//! before any panel is derived, and the roster of distinct sensor ids.

use crate::csv::{byte_views, record_views, spec_parse_csv, spec_split};
use crate::csv::{parse_csv, split_bytes};
use crate::normalize::{digit, is_digit, plottable, spec_normalize};
use crate::normalize::normalize_timestamp;
use crate::time::Stamp;
use vstd::prelude::*;
use vstd::slice::slice_subrange;

verus! {

/// One cell of a measured-quantity column: absent, a number in microunits
/// (one millionth of the written unit), or present but not numeric.
#[derive(Clone, Copy, Debug, PartialEq, Eq, Structural)]
pub enum Cell {
    Missing,
    Num(i64),
    Text,
}

/// Powers of ten up to the widths the cell grammar admits.
pub open spec fn pow10(n: int) -> int {
    if n <= 0 {
        1
    } else if n == 1 {
        10
    } else if n == 2 {
        100
    } else if n == 3 {
        1000
    } else if n == 4 {
        10000
    } else if n == 5 {
        100000
    } else if n == 6 {
        1000000
    } else if n == 7 {
        10000000
    } else if n == 8 {
        100000000
    } else if n == 9 {
        1000000000
    } else if n == 10 {
        10000000000
    } else if n == 11 {
        100000000000
    } else {
        1000000000000
    }
}

pub open spec fn all_digits(s: Seq<u8>) -> bool {
    forall|i: int| 0 <= i < s.len() ==> is_digit(#[trigger] s[i])
}

/// The value of a run of decimal digit bytes.
pub open spec fn digits_val(s: Seq<u8>) -> int
    decreases s.len(),
{
    if s.len() == 0 {
        0
    } else {
        digits_val(s.drop_last()) * 10 + digit(s.last())
    }
}

pub proof fn lemma_digits_val_bound(s: Seq<u8>)
    requires
        all_digits(s),
        s.len() <= 12,
    ensures
        0 <= digits_val(s) < pow10(s.len() as int),
    decreases s.len(),
{
    if s.len() > 0 {
        assert(all_digits(s.drop_last()));
        lemma_digits_val_bound(s.drop_last());
    }
}

/// The value, in microunits, that a run of fraction digits denotes: the
/// first six digits, padded with zeros to six places (further digits are
/// beyond the resolution this pipeline keeps).
pub open spec fn frac_micros(s: Seq<u8>) -> int {
    let f = if s.len() >= 6 {
        s.take(6)
    } else {
        s
    };
    digits_val(f) * pow10(6 - f.len())
}

/// The numeric cell grammar: an empty field is missing; otherwise an
/// optional sign, one to twelve integer digits, and optionally a point with
/// at least one fraction digit, make a number; any other byte run is a
/// non-numeric present value.
pub open spec fn spec_parse_cell(s: Seq<u8>) -> Cell {
    if s.len() == 0 {
        Cell::Missing
    } else {
        let neg = s[0] == 45;
        let body = if s[0] == 45 || s[0] == 43 {
            s.skip(1)
        } else {
            s
        };
        let parts = spec_split(body, 46);
        let ok = if parts.len() == 1 {
            1 <= parts[0].len() <= 12 && all_digits(parts[0])
        } else if parts.len() == 2 {
            1 <= parts[0].len() <= 12 && all_digits(parts[0]) && 1 <= parts[1].len() && all_digits(
                parts[1],
            )
        } else {
            false
        };
        if ok {
            let whole = digits_val(parts[0]);
            let frac = if parts.len() == 2 {
                frac_micros(parts[1])
            } else {
                0
            };
            let v = whole * 1000000 + frac;
            Cell::Num((if neg {
                -v
            } else {
                v
            }) as i64)
        } else {
            Cell::Text
        }
    }
}

fn all_digits_x(p: &Vec<u8>) -> (r: bool)
    ensures
        r == all_digits(p@),
{
    let mut i: usize = 0;
    while i < p.len()
        invariant
            i <= p@.len(),
            forall|k: int| 0 <= k < i ==> is_digit(#[trigger] p@[k]),
        decreases p@.len() - i,
    {
        if !(48 <= p[i] && p[i] <= 57) {
            return false;
        }
        i = i + 1;
    }
    true
}

fn digits_value(p: &Vec<u8>) -> (r: u64)
    requires
        all_digits(p@),
        p@.len() <= 12,
    ensures
        r as int == digits_val(p@),
{
    let mut r: u64 = 0;
    let mut i: usize = 0;
    while i < p.len()
        invariant
            i <= p@.len(),
            p@.len() <= 12,
            all_digits(p@),
            r as int == digits_val(p@.take(i as int)),
        decreases p@.len() - i,
    {
        proof {
            assert(p@.take(i as int + 1).drop_last() =~= p@.take(i as int));
            assert(p@.take(i as int + 1).last() == p@[i as int]);
            assert(all_digits(p@.take(i as int + 1)));
            lemma_digits_val_bound(p@.take(i as int + 1));
            lemma_digits_val_bound(p@.take(i as int));
        }
        r = r * 10 + (p[i] - 48) as u64;
        i = i + 1;
    }
    proof {
        assert(p@.take(p@.len() as int) =~= p@);
    }
    r
}

fn pow10_u64(n: usize) -> (r: u64)
    requires
        n <= 6,
    ensures
        r as int == pow10(n as int),
{
    if n == 0 {
        1
    } else if n == 1 {
        10
    } else if n == 2 {
        100
    } else if n == 3 {
        1000
    } else if n == 4 {
        10000
    } else if n == 5 {
        100000
    } else {
        1000000
    }
}

fn frac_value(p: &Vec<u8>) -> (r: u64)
    requires
        all_digits(p@),
        p@.len() >= 1,
    ensures
        r as int == frac_micros(p@),
        r < 1000000,
{
    let k: usize = if p.len() >= 6 {
        6
    } else {
        p.len()
    };
    let mut r: u64 = 0;
    let mut i: usize = 0;
    let ghost f = if p@.len() >= 6 {
        p@.take(6)
    } else {
        p@
    };
    proof {
        assert(all_digits(f));
        lemma_digits_val_bound(f);
    }
    while i < k
        invariant
            i <= k,
            k == f.len(),
            k <= 6,
            k <= p@.len(),
            all_digits(p@),
            all_digits(f),
            f == (if p@.len() >= 6 { p@.take(6) } else { p@ }),
            r as int == digits_val(f.take(i as int)),
        decreases k - i,
    {
        proof {
            assert(f.take(i as int + 1).drop_last() =~= f.take(i as int));
            assert(f.take(i as int + 1).last() == f[i as int]);
            assert(f[i as int] == p@[i as int]);
            assert(all_digits(f.take(i as int + 1)));
            lemma_digits_val_bound(f.take(i as int + 1));
            lemma_digits_val_bound(f.take(i as int));
        }
        r = r * 10 + (p[i] - 48) as u64;
        i = i + 1;
    }
    proof {
        assert(f.take(k as int) =~= f);
        lemma_digits_val_bound(f);
    }
    r * pow10_u64(6 - k)
}

/// Reads one cell of a quantity column as [`spec_parse_cell`] describes.
pub fn parse_cell(s: &[u8]) -> (c: Cell)
    ensures
        c == spec_parse_cell(s@),
{
    if s.len() == 0 {
        return Cell::Missing;
    }
    let neg = s[0] == 45;
    let body: &[u8] = if s[0] == 45 || s[0] == 43 {
        slice_subrange(s, 1, s.len())
    } else {
        s
    };
    proof {
        if s@[0] == 45 || s@[0] == 43 {
            assert(s@.subrange(1, s@.len() as int) =~= s@.skip(1));
        }
    }
    let parts = split_bytes(body, 46);
    let ghost sparts = spec_split(body@, 46);
    if parts.len() > 2 {
        return Cell::Text;
    }
    let ok: bool = if parts.len() == 1 {
        1 <= parts[0].len() && parts[0].len() <= 12 && all_digits_x(&parts[0])
    } else {
        1 <= parts[0].len() && parts[0].len() <= 12 && all_digits_x(&parts[0]) && 1 <= parts[1].len()
            && all_digits_x(&parts[1])
    };
    proof {
        assert(byte_views(parts@)[0] == parts@[0]@);
        if parts@.len() == 2 {
            assert(byte_views(parts@)[1] == parts@[1]@);
        }
    }
    if !ok {
        return Cell::Text;
    }
    let whole = digits_value(&parts[0]);
    let frac: u64 = if parts.len() == 2 {
        frac_value(&parts[1])
    } else {
        0
    };
    proof {
        lemma_digits_val_bound(parts@[0]@);
    }
    let v: i64 = (whole * 1000000 + frac) as i64;
    Cell::Num(
        if neg {
            -v
        } else {
            v
        },
    )
}

/// Byte-for-byte equality of two byte runs.
pub fn bytes_eq(a: &[u8], b: &[u8]) -> (r: bool)
    ensures
        r == (a@ == b@),
{
    if a.len() != b.len() {
        return false;
    }
    let mut i: usize = 0;
    while i < a.len()
        invariant
            a@.len() == b@.len(),
            i <= a@.len(),
            forall|k: int| 0 <= k < i ==> a@[k] == b@[k],
        decreases a@.len() - i,
    {
        if a[i] != b[i] {
            return false;
        }
        i = i + 1;
    }
    proof {
        assert(a@ =~= b@);
    }
    true
}

/// A fresh vector holding the same bytes.
pub fn copy_bytes(v: &[u8]) -> (r: Vec<u8>)
    ensures
        r@ == v@,
{
    let mut r: Vec<u8> = Vec::new();
    let mut i: usize = 0;
    while i < v.len()
        invariant
            i <= v@.len(),
            r@ == v@.take(i as int),
        decreases v@.len() - i,
    {
        r.push(v[i]);
        proof {
            assert(v@.take(i as int + 1) =~= v@.take(i as int).push(v@[i as int]));
        }
        i = i + 1;
    }
    proof {
        assert(v@.take(v@.len() as int) =~= v@);
    }
    r
}

/// The bytes of the column name `measuredAt`.
pub open spec fn spec_col_measured_at() -> Seq<u8> {
    seq![109u8, 101u8, 97u8, 115u8, 117u8, 114u8, 101u8, 100u8, 65u8, 116u8]
}

pub fn col_measured_at() -> (v: Vec<u8>)
    ensures
        v@ == spec_col_measured_at(),
{
    let mut v: Vec<u8> = Vec::new();
    v.push(109);
    v.push(101);
    v.push(97);
    v.push(115);
    v.push(117);
    v.push(114);
    v.push(101);
    v.push(100);
    v.push(65);
    v.push(116);
    proof {
        assert(v@ =~= spec_col_measured_at());
    }
    v
}

/// The bytes of the column name `sensorId`.
pub open spec fn spec_col_sensor_id() -> Seq<u8> {
    seq![115u8, 101u8, 110u8, 115u8, 111u8, 114u8, 73u8, 100u8]
}

pub fn col_sensor_id() -> (v: Vec<u8>)
    ensures
        v@ == spec_col_sensor_id(),
{
    let mut v: Vec<u8> = Vec::new();
    v.push(115);
    v.push(101);
    v.push(110);
    v.push(115);
    v.push(111);
    v.push(114);
    v.push(73);
    v.push(100);
    proof {
        assert(v@ =~= spec_col_sensor_id());
    }
    v
}

/// The bytes of the column name `temperature`.
pub open spec fn spec_col_temperature() -> Seq<u8> {
    seq![116u8, 101u8, 109u8, 112u8, 101u8, 114u8, 97u8, 116u8, 117u8, 114u8, 101u8]
}

pub fn col_temperature() -> (v: Vec<u8>)
    ensures
        v@ == spec_col_temperature(),
{
    let mut v: Vec<u8> = Vec::new();
    v.push(116);
    v.push(101);
    v.push(109);
    v.push(112);
    v.push(101);
    v.push(114);
    v.push(97);
    v.push(116);
    v.push(117);
    v.push(114);
    v.push(101);
    proof {
        assert(v@ =~= spec_col_temperature());
    }
    v
}

/// The bytes of the column name `humidity`.
pub open spec fn spec_col_humidity() -> Seq<u8> {
    seq![104u8, 117u8, 109u8, 105u8, 100u8, 105u8, 116u8, 121u8]
}

pub fn col_humidity() -> (v: Vec<u8>)
    ensures
        v@ == spec_col_humidity(),
{
    let mut v: Vec<u8> = Vec::new();
    v.push(104);
    v.push(117);
    v.push(109);
    v.push(105);
    v.push(100);
    v.push(105);
    v.push(116);
    v.push(121);
    proof {
        assert(v@ =~= spec_col_humidity());
    }
    v
}

/// The bytes of the column name `absolute_humidity`.
pub open spec fn spec_col_absolute_humidity() -> Seq<u8> {
    seq![97u8, 98u8, 115u8, 111u8, 108u8, 117u8, 116u8, 101u8, 95u8, 104u8, 117u8, 109u8, 105u8, 100u8, 105u8, 116u8, 121u8]
}

pub fn col_absolute_humidity() -> (v: Vec<u8>)
    ensures
        v@ == spec_col_absolute_humidity(),
{
    let mut v: Vec<u8> = Vec::new();
    v.push(97);
    v.push(98);
    v.push(115);
    v.push(111);
    v.push(108);
    v.push(117);
    v.push(116);
    v.push(101);
    v.push(95);
    v.push(104);
    v.push(117);
    v.push(109);
    v.push(105);
    v.push(100);
    v.push(105);
    v.push(116);
    v.push(121);
    proof {
        assert(v@ =~= spec_col_absolute_humidity());
    }
    v
}

/// The bytes of the column name `pressure`.
pub open spec fn spec_col_pressure() -> Seq<u8> {
    seq![112u8, 114u8, 101u8, 115u8, 115u8, 117u8, 114u8, 101u8]
}

pub fn col_pressure() -> (v: Vec<u8>)
    ensures
        v@ == spec_col_pressure(),
{
    let mut v: Vec<u8> = Vec::new();
    v.push(112);
    v.push(114);
    v.push(101);
    v.push(115);
    v.push(115);
    v.push(117);
    v.push(114);
    v.push(101);
    proof {
        assert(v@ =~= spec_col_pressure());
    }
    v
}

/// The bytes of the column name `tvoc`.
pub open spec fn spec_col_tvoc() -> Seq<u8> {
    seq![116u8, 118u8, 111u8, 99u8]
}

pub fn col_tvoc() -> (v: Vec<u8>)
    ensures
        v@ == spec_col_tvoc(),
{
    let mut v: Vec<u8> = Vec::new();
    v.push(116);
    v.push(118);
    v.push(111);
    v.push(99);
    proof {
        assert(v@ =~= spec_col_tvoc());
    }
    v
}

/// The bytes of the column name `eCo2`.
pub open spec fn spec_col_eco2() -> Seq<u8> {
    seq![101u8, 67u8, 111u8, 50u8]
}

pub fn col_eco2() -> (v: Vec<u8>)
    ensures
        v@ == spec_col_eco2(),
{
    let mut v: Vec<u8> = Vec::new();
    v.push(101);
    v.push(67);
    v.push(111);
    v.push(50);
    proof {
        assert(v@ =~= spec_col_eco2());
    }
    v
}

/// The bytes of the column name `co2`.
pub open spec fn spec_col_co2() -> Seq<u8> {
    seq![99u8, 111u8, 50u8]
}

pub fn col_co2() -> (v: Vec<u8>)
    ensures
        v@ == spec_col_co2(),
{
    let mut v: Vec<u8> = Vec::new();
    v.push(99);
    v.push(111);
    v.push(50);
    proof {
        assert(v@ =~= spec_col_co2());
    }
    v
}


/// The mathematical content of one row: the sensor id bytes, the normalized
/// (Tokyo-local) timestamp, and one cell per measured quantity.
pub struct RowView {
    pub sensor: Option<Seq<u8>>,
    pub at: Option<Stamp>,
    pub temperature: Cell,
    pub humidity: Cell,
    pub absolute_humidity: Cell,
    pub pressure: Cell,
    pub tvoc: Cell,
    pub eco2: Cell,
    pub co2: Cell,
}

impl RowView {
    /// A well-formed row carries a plottable timestamp or none.
    pub open spec fn wf(self) -> bool {
        match self.at {
            Some(t) => plottable(t),
            None => true,
        }
    }

    /// Orders rows by time; rows without a timestamp come first.
    pub open spec fn time_key(self) -> int {
        match self.at {
            None => -1,
            Some(t) => t.key(),
        }
    }
}

/// One telemetry row.
pub struct Row {
    pub sensor_id: Option<Vec<u8>>,
    pub measured_at: Option<Stamp>,
    pub temperature: Cell,
    pub humidity: Cell,
    pub absolute_humidity: Cell,
    pub pressure: Cell,
    pub tvoc: Cell,
    pub eco2: Cell,
    pub co2: Cell,
}

impl View for Row {
    type V = RowView;

    open spec fn view(&self) -> RowView {
        RowView {
            sensor: match self.sensor_id {
                Some(v) => Some(v@),
                None => None,
            },
            at: self.measured_at,
            temperature: self.temperature,
            humidity: self.humidity,
            absolute_humidity: self.absolute_humidity,
            pressure: self.pressure,
            tvoc: self.tvoc,
            eco2: self.eco2,
            co2: self.co2,
        }
    }
}

/// The views of a sequence of rows.
pub open spec fn row_views(s: Seq<Row>) -> Seq<RowView> {
    s.map_values(|r: Row| r@)
}

/// The first index at which the header holds `name`.
pub open spec fn spec_find_col(h: Seq<Seq<u8>>, name: Seq<u8>) -> Option<int>
    decreases h.len(),
{
    if h.len() == 0 {
        None
    } else if h[0] == name {
        Some(0)
    } else {
        match spec_find_col(h.skip(1), name) {
            Some(i) => Some(i + 1),
            None => None,
        }
    }
}

/// Finds the first column of the header named `name`.
pub fn find_column(h: &Vec<Vec<u8>>, name: &[u8]) -> (r: Option<usize>)
    ensures
        match r {
            Some(i) => spec_find_col(byte_views(h@), name@) == Some(i as int) && i < h@.len(),
            None => spec_find_col(byte_views(h@), name@) is None,
        },
{
    let mut r: Option<usize> = None;
    let mut i: usize = h.len();
    proof {
        assert(byte_views(h@).skip(i as int) =~= Seq::<Seq<u8>>::empty());
    }
    while i > 0
        invariant
            i <= h@.len(),
            match spec_find_col(byte_views(h@).skip(i as int), name@) {
                None => r is None,
                Some(k) => r matches Some(u) && u as int == k + i && u < h@.len(),
            },
        decreases i,
    {
        i = i - 1;
        proof {
            assert(byte_views(h@).skip(i as int)[0] == byte_views(h@)[i as int]);
            assert(byte_views(h@).skip(i as int).skip(1) =~= byte_views(h@).skip(i as int + 1));
            assert(byte_views(h@)[i as int] == h@[i as int]@);
        }
        if bytes_eq(h[i].as_slice(), name) {
            r = Some(i);
        }
    }
    proof {
        assert(byte_views(h@).skip(0) =~= byte_views(h@));
    }
    r
}

pub open spec fn oi(o: Option<usize>) -> Option<int> {
    match o {
        Some(i) => Some(i as int),
        None => None,
    }
}

/// The cell a record holds in the given column; missing when the column is
/// absent or the record is too short.
pub open spec fn spec_cell_at(rec: Seq<Seq<u8>>, idx: Option<int>) -> Cell {
    match idx {
        Some(i) => if 0 <= i < rec.len() {
            spec_parse_cell(rec[i])
        } else {
            Cell::Missing
        },
        None => Cell::Missing,
    }
}

/// The sensor id a record holds: a non-empty field of the sensor column.
pub open spec fn spec_sensor_at(rec: Seq<Seq<u8>>, idx: Option<int>) -> Option<Seq<u8>> {
    match idx {
        Some(i) => if 0 <= i < rec.len() && rec[i].len() > 0 {
            Some(rec[i])
        } else {
            None
        },
        None => None,
    }
}

/// The normalized timestamp a record holds in the given column.
pub open spec fn spec_time_at(rec: Seq<Seq<u8>>, idx: Option<int>) -> Option<Stamp> {
    match idx {
        Some(i) => if 0 <= i < rec.len() {
            spec_normalize(rec[i])
        } else {
            None
        },
        None => None,
    }
}

/// The row the `r`-th CSV record denotes, with every column located by name
/// in the header record.
pub open spec fn spec_row_of(csv: Seq<Seq<Seq<u8>>>, r: int) -> RowView {
    let h = csv[0];
    let rec = csv[r];
    RowView {
        sensor: spec_sensor_at(rec, spec_find_col(h, spec_col_sensor_id())),
        at: spec_time_at(rec, spec_find_col(h, spec_col_measured_at())),
        temperature: spec_cell_at(rec, spec_find_col(h, spec_col_temperature())),
        humidity: spec_cell_at(rec, spec_find_col(h, spec_col_humidity())),
        absolute_humidity: spec_cell_at(rec, spec_find_col(h, spec_col_absolute_humidity())),
        pressure: spec_cell_at(rec, spec_find_col(h, spec_col_pressure())),
        tvoc: spec_cell_at(rec, spec_find_col(h, spec_col_tvoc())),
        eco2: spec_cell_at(rec, spec_find_col(h, spec_col_eco2())),
        co2: spec_cell_at(rec, spec_find_col(h, spec_col_co2())),
    }
}

fn cell_at(rec: &Vec<Vec<u8>>, idx: Option<usize>) -> (c: Cell)
    ensures
        c == spec_cell_at(byte_views(rec@), oi(idx)),
{
    match idx {
        Some(i) => if i < rec.len() {
            proof {
                assert(byte_views(rec@)[i as int] == rec@[i as int]@);
            }
            parse_cell(rec[i].as_slice())
        } else {
            Cell::Missing
        },
        None => Cell::Missing,
    }
}

fn sensor_at(rec: &Vec<Vec<u8>>, idx: Option<usize>) -> (s: Option<Vec<u8>>)
    ensures
        match s {
            Some(v) => spec_sensor_at(byte_views(rec@), oi(idx)) == Some(v@),
            None => spec_sensor_at(byte_views(rec@), oi(idx)) is None,
        },
{
    match idx {
        Some(i) => if i < rec.len() && rec[i].len() > 0 {
            proof {
                assert(byte_views(rec@)[i as int] == rec@[i as int]@);
            }
            Some(copy_bytes(rec[i].as_slice()))
        } else {
            None
        },
        None => None,
    }
}

fn time_at(rec: &Vec<Vec<u8>>, idx: Option<usize>) -> (t: Option<Stamp>)
    ensures
        t == spec_time_at(byte_views(rec@), oi(idx)),
        t matches Some(s) ==> plottable(s),
{
    match idx {
        Some(i) => if i < rec.len() {
            proof {
                assert(byte_views(rec@)[i as int] == rec@[i as int]@);
            }
            normalize_timestamp(rec[i].as_slice())
        } else {
            None
        },
        None => None,
    }
}

/// Reads the whole table out of raw CSV bytes: the first record is the
/// header, every further record one row, with each column found by name.
/// Unparseable timestamps and absent columns yield missing values.
pub fn parse_table(input: &[u8]) -> (rows: Vec<Row>)
    ensures
        rows@.len() == (if spec_parse_csv(input@).len() == 0 {
            0int
        } else {
            spec_parse_csv(input@).len() - 1
        }),
        forall|i: int|
            0 <= i < rows@.len() ==> (#[trigger] rows@[i])@ == spec_row_of(
                spec_parse_csv(input@),
                i + 1,
            ),
        forall|i: int| 0 <= i < rows@.len() ==> (#[trigger] rows@[i])@.wf(),
{
    let csv = parse_csv(input);
    let mut rows: Vec<Row> = Vec::new();
    if csv.len() == 0 {
        return rows;
    }
    let ghost scsv = spec_parse_csv(input@);
    proof {
        assert(scsv[0] == record_views(csv@)[0]);
        assert(record_views(csv@)[0] == byte_views(csv@[0]@));
    }
    let name_sensor = col_sensor_id();
    let name_time = col_measured_at();
    let name_temp = col_temperature();
    let name_hum = col_humidity();
    let name_abs = col_absolute_humidity();
    let name_press = col_pressure();
    let name_tvoc = col_tvoc();
    let name_eco2 = col_eco2();
    let name_co2 = col_co2();
    let header = &csv[0];
    let i_sensor = find_column(header, name_sensor.as_slice());
    let i_time = find_column(header, name_time.as_slice());
    let i_temp = find_column(header, name_temp.as_slice());
    let i_hum = find_column(header, name_hum.as_slice());
    let i_abs = find_column(header, name_abs.as_slice());
    let i_press = find_column(header, name_press.as_slice());
    let i_tvoc = find_column(header, name_tvoc.as_slice());
    let i_eco2 = find_column(header, name_eco2.as_slice());
    let i_co2 = find_column(header, name_co2.as_slice());
    let mut r: usize = 1;
    while r < csv.len()
        invariant
            1 <= r <= csv@.len(),
            scsv == spec_parse_csv(input@),
            scsv.len() == csv@.len(),
            scsv[0] == byte_views(csv@[0]@),
            forall|k: int| 0 <= k < scsv.len() ==> #[trigger] scsv[k] == byte_views(csv@[k]@),
            oi(i_sensor) == spec_find_col(scsv[0], spec_col_sensor_id()),
            oi(i_time) == spec_find_col(scsv[0], spec_col_measured_at()),
            oi(i_temp) == spec_find_col(scsv[0], spec_col_temperature()),
            oi(i_hum) == spec_find_col(scsv[0], spec_col_humidity()),
            oi(i_abs) == spec_find_col(scsv[0], spec_col_absolute_humidity()),
            oi(i_press) == spec_find_col(scsv[0], spec_col_pressure()),
            oi(i_tvoc) == spec_find_col(scsv[0], spec_col_tvoc()),
            oi(i_eco2) == spec_find_col(scsv[0], spec_col_eco2()),
            oi(i_co2) == spec_find_col(scsv[0], spec_col_co2()),
            rows@.len() == r - 1,
            forall|i: int|
                0 <= i < rows@.len() ==> (#[trigger] rows@[i])@ == spec_row_of(scsv, i + 1),
            forall|i: int| 0 <= i < rows@.len() ==> (#[trigger] rows@[i])@.wf(),
        decreases csv@.len() - r,
    {
        let rec = &csv[r];
        proof {
            assert(scsv[r as int] == byte_views(csv@[r as int]@));
        }
        let row = Row {
            sensor_id: sensor_at(rec, i_sensor),
            measured_at: time_at(rec, i_time),
            temperature: cell_at(rec, i_temp),
            humidity: cell_at(rec, i_hum),
            absolute_humidity: cell_at(rec, i_abs),
            pressure: cell_at(rec, i_press),
            tvoc: cell_at(rec, i_tvoc),
            eco2: cell_at(rec, i_eco2),
            co2: cell_at(rec, i_co2),
        };
        rows.push(row);
        r = r + 1;
    }
    rows
}

/// All rows in chronological order of their time keys.
pub open spec fn rows_sorted(s: Seq<RowView>) -> bool {
    forall|i: int, j: int|
        0 <= i < j < s.len() ==> (#[trigger] s[i]).time_key() <= (#[trigger] s[j]).time_key()
}

fn row_time_lt(a: &Row, b: &Row) -> (r: bool)
    requires
        a@.wf(),
        b@.wf(),
    ensures
        r == (a@.time_key() < b@.time_key()),
{
    match (&a.measured_at, &b.measured_at) {
        (Option::None, Option::None) => false,
        (Option::None, Option::Some(_)) => true,
        (Option::Some(_), Option::None) => false,
        (Option::Some(x), Option::Some(y)) => x.key_u64() < y.key_u64(),
    }
}

/// Sorts the table rows ascending by timestamp (rows without one first):
/// the one ordering step, done upstream of every panel, so that all panels
/// share it. The result holds exactly the given rows.
pub fn sort_rows(rows: Vec<Row>) -> (r: Vec<Row>)
    requires
        forall|i: int| 0 <= i < rows@.len() ==> (#[trigger] rows@[i])@.wf(),
    ensures
        row_views(r@).to_multiset() == row_views(rows@).to_multiset(),
        rows_sorted(row_views(r@)),
        r@.len() == rows@.len(),
        forall|i: int| 0 <= i < r@.len() ==> (#[trigger] r@[i])@.wf(),
{
    broadcast use vstd::seq_lib::group_to_multiset_ensures;
    broadcast use vstd::multiset::group_multiset_axioms;

    let mut src = rows;
    let mut out: Vec<Row> = Vec::new();
    proof {
        assert(row_views(out@).to_multiset().add(row_views(src@).to_multiset()) =~= row_views(
            src@,
        ).to_multiset());
    }
    while src.len() > 0
        invariant
            out@.len() + src@.len() == rows@.len(),
            row_views(out@).to_multiset().add(row_views(src@).to_multiset()) == row_views(
                rows@,
            ).to_multiset(),
            rows_sorted(row_views(out@)),
            forall|i: int, j: int|
                0 <= i < out@.len() && 0 <= j < src@.len() ==> (#[trigger] row_views(
                    out@,
                )[i]).time_key() <= (#[trigger] row_views(src@)[j]).time_key(),
            forall|i: int| 0 <= i < out@.len() ==> (#[trigger] out@[i])@.wf(),
            forall|i: int| 0 <= i < src@.len() ==> (#[trigger] src@[i])@.wf(),
        decreases src@.len(),
    {
        let mut m: usize = 0;
        let mut k: usize = 1;
        while k < src.len()
            invariant
                0 <= m < k <= src@.len(),
                forall|j: int| 0 <= j < k ==> src@[m as int]@.time_key() <= (#[trigger] src@[j])@.time_key(),
                forall|i: int| 0 <= i < src@.len() ==> (#[trigger] src@[i])@.wf(),
            decreases src@.len() - k,
        {
            if row_time_lt(&src[k], &src[m]) {
                m = k;
            }
            k = k + 1;
        }
        let ghost old_src = src@;
        let ghost old_out = out@;
        let ghost picked = src@[m as int]@;
        let row = src.remove(m);
        out.push(row);
        proof {
            assert(row@ == picked);
            assert(row_views(src@) =~= row_views(old_src).remove(m as int));
            assert(row_views(out@) =~= row_views(old_out).push(picked));
            vstd::seq_lib::to_multiset_remove(row_views(old_src), m as int);
            vstd::seq_lib::to_multiset_build(row_views(old_out), picked);
            vstd::seq_lib::to_multiset_contains(row_views(old_src), picked);
            assert(row_views(old_src)[m as int] == picked);
            assert(row_views(old_src).contains(picked));
            assert(row_views(old_src).to_multiset().count(picked) > 0);
            assert(row_views(src@).to_multiset() == row_views(old_src).to_multiset().remove(
                picked,
            ));
            assert(row_views(out@).to_multiset() == row_views(old_out).to_multiset().insert(
                picked,
            ));
            assert(row_views(out@).to_multiset().add(row_views(src@).to_multiset()) =~= row_views(
                rows@,
            ).to_multiset());
            assert forall|i: int, j: int|
                0 <= i < out@.len() && 0 <= j < src@.len() implies (#[trigger] row_views(
                out@,
            )[i]).time_key() <= (#[trigger] row_views(src@)[j]).time_key() by {
                if j < m {
                    assert(row_views(src@)[j] == row_views(old_src)[j]);
                } else {
                    assert(row_views(src@)[j] == row_views(old_src)[j + 1]);
                }
                if i < out@.len() - 1 {
                    assert(row_views(out@)[i] == row_views(old_out)[i]);
                }
            }
        }
    }
    out
}

fn contains_bytes(v: &Vec<Vec<u8>>, x: &[u8]) -> (r: bool)
    ensures
        r == byte_views(v@).contains(x@),
{
    let mut i: usize = 0;
    while i < v.len()
        invariant
            i <= v@.len(),
            forall|k: int| 0 <= k < i ==> #[trigger] byte_views(v@)[k] != x@,
        decreases v@.len() - i,
    {
        proof {
            assert(byte_views(v@)[i as int] == v@[i as int]@);
        }
        if bytes_eq(v[i].as_slice(), x) {
            proof {
                assert(byte_views(v@).contains(x@));
            }
            return true;
        }
        i = i + 1;
    }
    proof {
        assert(!byte_views(v@).contains(x@));
    }
    false
}

/// The distinct sensor ids of the table, in first-seen order.
pub open spec fn spec_roster(rows: Seq<RowView>) -> Seq<Seq<u8>>
    decreases rows.len(),
{
    if rows.len() == 0 {
        Seq::empty()
    } else {
        let prev = spec_roster(rows.drop_last());
        match rows.last().sensor {
            None => prev,
            Some(id) => if prev.contains(id) {
                prev
            } else {
                prev.push(id)
            },
        }
    }
}

/// Collects the shared sensor roster: every sensor id of the table once, in
/// first-seen order; rows without a sensor id contribute nothing.
pub fn sensor_roster(rows: &Vec<Row>) -> (r: Vec<Vec<u8>>)
    ensures
        byte_views(r@) == spec_roster(row_views(rows@)),
{
    let mut out: Vec<Vec<u8>> = Vec::new();
    let mut i: usize = 0;
    proof {
        assert(row_views(rows@).take(0) =~= Seq::<RowView>::empty());
        assert(byte_views(out@) =~= spec_roster(row_views(rows@).take(0)));
    }
    while i < rows.len()
        invariant
            i <= rows@.len(),
            byte_views(out@) == spec_roster(row_views(rows@).take(i as int)),
        decreases rows@.len() - i,
    {
        proof {
            assert(row_views(rows@).take(i as int + 1).drop_last() =~= row_views(rows@).take(
                i as int,
            ));
            assert(row_views(rows@).take(i as int + 1).last() == row_views(rows@)[i as int]);
            assert(row_views(rows@)[i as int] == rows@[i as int]@);
        }
        let row = &rows[i];
        match &row.sensor_id {
            Some(v) => {
                if !contains_bytes(&out, v.as_slice()) {
                    let ghost prev = byte_views(out@);
                    out.push(copy_bytes(v.as_slice()));
                    proof {
                        assert(byte_views(out@) =~= prev.push(v@));
                    }
                }
            },
            None => {},
        }
        i = i + 1;
    }
    proof {
        assert(row_views(rows@).take(rows@.len() as int) =~= row_views(rows@));
    }
    out
}

} // verus!
