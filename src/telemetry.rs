use vstd::prelude::*;
use crate::fields::{
    chars_of, parse_i32, parse_int, split_commas, split_on_commas, string_of, trim, trim_chars,
    views,
};

verus! {

/// One reading of the device's clocks, temperature and fan.
#[derive(Debug, PartialEq, Eq, Structural, Clone, Copy)]
pub struct SnapshotData {
    pub graphics_current: i32,
    pub graphics_max: i32,
    pub memory_current: i32,
    pub memory_max: i32,
    pub temperature: i32,
    pub fan_speed: i32,
}

impl Default for SnapshotData {
    fn default() -> (r: SnapshotData)
        ensures
            r == (SnapshotData {
                graphics_current: 0,
                graphics_max: 0,
                memory_current: 0,
                memory_max: 0,
                temperature: 0,
                fan_speed: 0,
            }),
    {
        SnapshotData {
            graphics_current: 0,
            graphics_max: 0,
            memory_current: 0,
            memory_max: 0,
            temperature: 0,
            fan_speed: 0,
        }
    }
}

/// The device's identity: its name, driver version and firmware version.
#[derive(Debug, PartialEq, Eq)]
pub struct GpuInfo {
    pub name: String,
    pub driver: String,
    pub bios: String,
}

/// Why a metrics line could not be read.
#[derive(Debug, PartialEq, Eq, Structural, Clone, Copy)]
pub enum ClockError {
    /// The line did not hold exactly six comma-separated fields; the number
    /// it held.
    FieldCount(usize),
    /// The field at this position (from 0) is not an integer.
    NotANumber(usize),
}

/// Number of fields in a metrics line.
pub const CLOCK_FIELDS: usize = 6;

/// The integer written in field `i` of `f`, surrounding whitespace aside.
pub open spec fn field_value(f: Seq<Seq<char>>, i: int) -> Option<i32> {
    parse_int(trim(f[i]))
}

/// The first position from `i` on whose field is not an integer.
pub open spec fn first_bad_field(f: Seq<Seq<char>>, i: int) -> Option<int>
    decreases f.len() - i,
{
    if i >= f.len() || i < 0 {
        None
    } else if field_value(f, i) is None {
        Some(i)
    } else {
        first_bad_field(f, i + 1)
    }
}

/// What reading the metrics line `s` gives.
pub open spec fn clock_data_of(s: Seq<char>) -> Result<SnapshotData, ClockError> {
    let f = split_commas(s);
    if f.len() != CLOCK_FIELDS {
        Err(ClockError::FieldCount(f.len() as usize))
    } else if first_bad_field(f, 0) is Some {
        Err(ClockError::NotANumber(first_bad_field(f, 0)->0 as usize))
    } else {
        Ok(
            SnapshotData {
                graphics_current: field_value(f, 0)->0,
                graphics_max: field_value(f, 1)->0,
                memory_current: field_value(f, 2)->0,
                memory_max: field_value(f, 3)->0,
                temperature: field_value(f, 4)->0,
                fan_speed: field_value(f, 5)->0,
            },
        )
    }
}

/// Reads the identity line `name, driver version, firmware version`: each of
/// the first three comma-separated fields, without surrounding whitespace.
/// `None` when the line holds fewer than three fields.
pub fn get_gpu_info(output: &str) -> (r: Option<GpuInfo>)
    ensures
        split_commas(output@).len() < 3 <==> r is None,
        r matches Some(info) ==> {
            let f = split_commas(output@);
            &&& info.name@ == trim(f[0])
            &&& info.driver@ == trim(f[1])
            &&& info.bios@ == trim(f[2])
        },
{
    let chars = chars_of(output);
    let f = split_on_commas(&chars);
    assert(views(f@).len() == f@.len());
    if f.len() < 3 {
        return None;
    }
    assert(views(f@)[0] == f@[0]@);
    assert(views(f@)[1] == f@[1]@);
    assert(views(f@)[2] == f@[2]@);
    let name = string_of(&trim_chars(&f[0]));
    let driver = string_of(&trim_chars(&f[1]));
    let bios = string_of(&trim_chars(&f[2]));
    Some(GpuInfo { name, driver, bios })
}

/// Reads the metrics line `graphics clock, maximum graphics clock, memory
/// clock, maximum memory clock, temperature, fan speed`, each an integer
/// with optional surrounding whitespace.
pub fn get_clock_data(output: &str) -> (r: Result<SnapshotData, ClockError>)
    ensures
        r == clock_data_of(output@),
{
    let chars = chars_of(output);
    let f = split_on_commas(&chars);
    let ghost fs = views(f@);
    assert(fs.len() == f@.len());
    if f.len() != CLOCK_FIELDS {
        return Err(ClockError::FieldCount(f.len()));
    }
    let mut values: Vec<i32> = Vec::new();
    let mut i: usize = 0;
    while i < CLOCK_FIELDS
        invariant
            i <= CLOCK_FIELDS,
            f@.len() == CLOCK_FIELDS,
            fs == views(f@),
            fs == split_commas(output@),
            fs.len() == CLOCK_FIELDS,
            values@.len() == i,
            first_bad_field(fs, 0) == first_bad_field(fs, i as int),
            forall|j: int| 0 <= j < i ==> field_value(fs, j) == Some(#[trigger] values@[j]),
        decreases CLOCK_FIELDS - i,
    {
        assert(fs[i as int] == f@[i as int]@);
        match parse_i32(&trim_chars(&f[i])) {
            Some(v) => {
                values.push(v);
            },
            None => {
                assert(first_bad_field(fs, i as int) == Some(i as int));
                return Err(ClockError::NotANumber(i));
            },
        }
        i = i + 1;
    }
    Ok(
        SnapshotData {
            graphics_current: values[0],
            graphics_max: values[1],
            memory_current: values[2],
            memory_max: values[3],
            temperature: values[4],
            fan_speed: values[5],
        },
    )
}

/// `current` as a whole percentage of `max`, rounded down and held to
/// `0..=100`; 0 when `max` is not positive.
pub open spec fn percent_of(current: int, max: int) -> int {
    if max <= 0 || current <= 0 {
        0
    } else if current >= max {
        100
    } else {
        current * 100 / max
    }
}

/// How full a gauge showing `current` out of `max` is, in percent.
pub fn gauge_percent(current: i32, max: i32) -> (r: u16)
    ensures
        r as int == percent_of(current as int, max as int),
        r <= 100,
{
    if max <= 0 || current <= 0 {
        0
    } else if current >= max {
        100
    } else {
        let scaled: i64 = (current as i64) * 100;
        let p: i64 = scaled / (max as i64);
        assert(0 <= p <= 100) by (nonlinear_arith)
            requires
                p as int == (current as int * 100) / (max as int),
                0 < current < max,
        ;
        p as u16
    }
}

} // verus!
