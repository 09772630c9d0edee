use vstd::prelude::*;
use crate::decimal::{parse_u32_chars, parse_u32_spec};
use crate::text::{chars_eq, chars_of, split_chars, split_on, string_of, trim, trim_chars, views};

verus! {

/// One reading of the discrete GPU, taken from the single CSV line that
/// `nvidia-smi --query-gpu=utilization.gpu,memory.used,memory.total,temperature.gpu,power.draw
/// --format=csv,noheader,nounits` prints.
pub struct GpuSample {
    /// GPU utilisation in percent.
    pub usage: u32,
    /// Video memory in use, in MiB.
    pub vram_used: u32,
    /// Total video memory, in MiB.
    pub vram_total: u32,
    /// Core temperature in degrees Celsius.
    pub temp: u32,
    /// The power draw field as printed, in watts; read as a float by the
    /// caller.
    pub power_text: String,
}

/// The field separator of nvidia-smi's CSV output.
pub open spec fn csv_separator() -> Seq<char> {
    seq![',', ' ']
}

/// The fields of the query output: the trimmed text split at `", "`.
pub open spec fn gpu_fields(stdout: Seq<char>) -> Seq<Seq<char>> {
    split_on(trim(stdout), csv_separator())
}

/// The number that a field holds, 0 where it does not parse as a `u32`.
pub open spec fn u32_or_zero(s: Seq<char>) -> u32 {
    match parse_u32_spec(s) {
        Some(v) => v,
        None => 0,
    }
}

fn parse_u32_or_zero(s: &Vec<char>) -> (v: u32)
    ensures
        v == u32_or_zero(s@),
{
    match parse_u32_chars(s) {
        Some(v) => v,
        None => 0,
    }
}

/// The GPU reading in the output of the nvidia-smi query, if the query
/// succeeded and printed exactly five fields. Fields that are not numbers
/// read as 0.
pub fn gpu_sample_from_query(succeeded: bool, stdout: &str) -> (r: Option<GpuSample>)
    ensures
        r.is_some() <==> succeeded && gpu_fields(stdout@).len() == 5,
        r matches Some(g) ==> {
            let f = gpu_fields(stdout@);
            &&& g.usage == u32_or_zero(f[0])
            &&& g.vram_used == u32_or_zero(f[1])
            &&& g.vram_total == u32_or_zero(f[2])
            &&& g.temp == u32_or_zero(f[3])
            &&& g.power_text@ == f[4]
        },
{
    if !succeeded {
        return None;
    }
    let text = chars_of(stdout);
    let trimmed = trim_chars(&text);
    let sep = vec![',', ' '];
    assert(sep@ =~= csv_separator());
    let fields = split_chars(&trimmed, &sep);
    if fields.len() != 5 {
        return None;
    }
    assert(views(fields@)[0] == fields@[0]@);
    assert(views(fields@)[1] == fields@[1]@);
    assert(views(fields@)[2] == fields@[2]@);
    assert(views(fields@)[3] == fields@[3]@);
    assert(views(fields@)[4] == fields@[4]@);
    let usage = parse_u32_or_zero(&fields[0]);
    let vram_used = parse_u32_or_zero(&fields[1]);
    let vram_total = parse_u32_or_zero(&fields[2]);
    let temp = parse_u32_or_zero(&fields[3]);
    let power_text = string_of(&fields[4]);
    Some(GpuSample { usage, vram_used, vram_total, temp, power_text })
}

/// The busy percentage that one sysfs `gpu_busy_percent` file holds.
pub open spec fn busy_percent(content: Seq<char>) -> Option<u32> {
    parse_u32_spec(trim(content))
}

/// The first readable file whose trimmed content is a `u32`, in the order
/// the files were tried; `None` where there is none.
pub open spec fn first_busy_percent(readings: Seq<Option<String>>) -> Option<u32>
    decreases readings.len(),
{
    if readings.len() == 0 {
        None
    } else {
        match readings[0] {
            Some(c) => match busy_percent(c@) {
                Some(v) => Some(v),
                None => first_busy_percent(readings.drop_first()),
            },
            None => first_busy_percent(readings.drop_first()),
        }
    }
}

/// The busy percentage of the integrated GPU from the contents of the
/// `gpu_busy_percent` files tried so far (`None` for one that could not be
/// read): the first that parses wins.
pub fn integrated_gpu_busy(readings: &Vec<Option<String>>) -> (r: Option<u32>)
    ensures
        r == first_busy_percent(readings@),
{
    let mut i: usize = 0;
    assert(readings@.skip(0) =~= readings@);
    while i < readings.len()
        invariant
            i <= readings.len(),
            first_busy_percent(readings@) == first_busy_percent(readings@.skip(i as int)),
        decreases readings.len() - i,
    {
        assert(readings@.skip(i as int).drop_first() =~= readings@.skip(i + 1));
        assert(readings@.skip(i as int)[0] == readings@[i as int]);
        match &readings[i] {
            Some(c) => {
                let v = chars_of(c.as_str());
                let t = trim_chars(&v);
                let p = parse_u32_chars(&t);
                if p.is_some() {
                    return p;
                }
            },
            None => {},
        }
        i = i + 1;
    }
    None
}

/// What was read from one entry of `/sys/class/power_supply`: its `type`
/// file, and its `online` file where that was read.
pub struct SupplyReading {
    /// The content of the `type` file, if it could be read.
    pub kind: Option<String>,
    /// The content of the `online` file, if it was read.
    pub online: Option<String>,
}

/// The text of a mains (AC adapter) supply's `type` file, trimmed.
pub open spec fn mains_word() -> Seq<char> {
    seq!['M', 'a', 'i', 'n', 's']
}

/// A `type` file that names a mains supply.
pub open spec fn names_mains(kind: Seq<char>) -> bool {
    trim(kind) == mains_word()
}

/// Whether a power supply's `type` file names a mains supply; only then is
/// its `online` file read.
pub fn is_mains_supply(kind: &str) -> (b: bool)
    ensures
        b == names_mains(kind@),
{
    let v = chars_of(kind);
    let t = trim_chars(&v);
    let m = vec!['M', 'a', 'i', 'n', 's'];
    assert(m@ =~= mains_word());
    chars_eq(&t, &m)
}

/// A supply reading that decides the AC state: a mains supply whose
/// `online` file was read.
pub open spec fn decides(r: SupplyReading) -> bool {
    &&& r.kind is Some
    &&& names_mains(r.kind->0@)
    &&& r.online is Some
}

/// Whether AC power is connected: the first mains supply with a readable
/// `online` file decides (`"1"` after trimming means connected); with none,
/// AC power is assumed.
pub open spec fn ac_online(readings: Seq<SupplyReading>) -> bool
    decreases readings.len(),
{
    if readings.len() == 0 {
        true
    } else if decides(readings[0]) {
        trim(readings[0].online->0@) == seq!['1']
    } else {
        ac_online(readings.drop_first())
    }
}

/// Whether AC power is connected, from the power supply readings.
pub fn ac_power_online(readings: &Vec<SupplyReading>) -> (b: bool)
    ensures
        b == ac_online(readings@),
{
    let mut i: usize = 0;
    assert(readings@.skip(0) =~= readings@);
    while i < readings.len()
        invariant
            i <= readings.len(),
            ac_online(readings@) == ac_online(readings@.skip(i as int)),
        decreases readings.len() - i,
    {
        assert(readings@.skip(i as int).drop_first() =~= readings@.skip(i + 1));
        assert(readings@.skip(i as int)[0] == readings@[i as int]);
        let r = &readings[i];
        match &r.kind {
            Some(k) => {
                if is_mains_supply(k.as_str()) {
                    match &r.online {
                        Some(o) => {
                            let v = chars_of(o.as_str());
                            let t = trim_chars(&v);
                            let one = vec!['1'];
                            assert(one@ =~= seq!['1']);
                            return chars_eq(&t, &one);
                        },
                        None => {},
                    }
                }
            },
            None => {},
        }
        i = i + 1;
    }
    true
}

/// With no mains supply whose `online` file was read, AC power is assumed.
pub proof fn law_ac_assumed_without_mains(readings: Seq<SupplyReading>)
    requires
        forall|i: int| 0 <= i < readings.len() ==> !decides(#[trigger] readings[i]),
    ensures
        ac_online(readings),
    decreases readings.len(),
{
    if readings.len() > 0 {
        assert(!decides(readings[0]));
        let rest = readings.drop_first();
        assert forall|i: int| 0 <= i < rest.len() implies !decides(#[trigger] rest[i]) by {
            assert(rest[i] == readings[i + 1]);
        }
        law_ac_assumed_without_mains(rest);
    }
}


/// The first readable file whose trimmed text is a `u32` gives the busy
/// percentage, whatever its value (0 included), as long as no earlier file
/// gave one.
pub proof fn law_first_parsable_busy_file_wins(readings: Seq<Option<String>>, i: int)
    requires
        0 <= i < readings.len(),
        readings[i] matches Some(c) && parse_u32_spec(trim(c@)) is Some,
        forall|j: int|
            0 <= j < i ==> (#[trigger] readings[j] matches Some(c) ==> parse_u32_spec(trim(c@))
                is None),
    ensures
        first_busy_percent(readings) == parse_u32_spec(trim(readings[i]->0@)),
    decreases i,
{
    if i > 0 {
        let rest = readings.drop_first();
        assert(readings[0] matches Some(c) ==> parse_u32_spec(trim(c@)) is None);
        assert forall|j: int|
            0 <= j < i - 1 implies (#[trigger] rest[j] matches Some(c) ==> parse_u32_spec(
                trim(c@),
            ) is None) by {
            assert(rest[j] == readings[j + 1]);
        }
        assert(rest[i - 1] == readings[i]);
        law_first_parsable_busy_file_wins(rest, i - 1);
    }
}

/// Where no file was readable with a `u32` in it, there is no busy
/// percentage.
pub proof fn law_no_parsable_busy_file(readings: Seq<Option<String>>)
    requires
        forall|j: int|
            0 <= j < readings.len() ==> (#[trigger] readings[j] matches Some(c)
                ==> parse_u32_spec(trim(c@)) is None),
    ensures
        first_busy_percent(readings) is None,
    decreases readings.len(),
{
    if readings.len() > 0 {
        let rest = readings.drop_first();
        assert(readings[0] matches Some(c) ==> parse_u32_spec(trim(c@)) is None);
        assert forall|j: int|
            0 <= j < rest.len() implies (#[trigger] rest[j] matches Some(c) ==> parse_u32_spec(
                trim(c@),
            ) is None) by {
            assert(rest[j] == readings[j + 1]);
        }
        law_no_parsable_busy_file(rest);
    }
}

/// A GPU field reads as the number it holds, or 0 where it is not one.
pub proof fn law_field_number(s: Seq<char>)
    ensures
        parse_u32_spec(s) matches Some(v) ==> u32_or_zero(s) == v,
        parse_u32_spec(s) is None ==> u32_or_zero(s) == 0,
{
}

/// The first mains supply whose `online` file was read decides the AC
/// state: connected exactly when that file holds `1` (after trimming).
pub proof fn law_first_mains_supply_decides(readings: Seq<SupplyReading>, i: int)
    requires
        0 <= i < readings.len(),
        readings[i].kind matches Some(k) && trim(k@) == seq!['M', 'a', 'i', 'n', 's'],
        readings[i].online is Some,
        forall|j: int|
            0 <= j < i ==> !(#[trigger] readings[j].kind matches Some(k) && trim(k@) == seq![
                'M',
                'a',
                'i',
                'n',
                's',
            ] && readings[j].online is Some),
    ensures
        ac_online(readings) == (trim(readings[i].online->0@) == seq!['1']),
    decreases i,
{
    if i > 0 {
        let rest = readings.drop_first();
        assert(!decides(readings[0]));
        assert forall|j: int|
            0 <= j < i - 1 implies !(#[trigger] rest[j].kind matches Some(k) && trim(k@) == seq![
                'M',
                'a',
                'i',
                'n',
                's',
            ] && rest[j].online is Some) by {
            assert(rest[j] == readings[j + 1]);
        }
        assert(rest[i - 1] == readings[i]);
        law_first_mains_supply_decides(rest, i - 1);
    } else {
        assert(decides(readings[0]));
    }
}

} // verus!
