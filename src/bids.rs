//! Marker files of a BIDS recording: marker lines and their timestamps.

use vstd::prelude::*;
use crate::ini_file::{
    after_first_line, first_section, first_value, get, load_ini, parsed_ini, section,
    skip_first_line, values, values_of,
};
use crate::text::{
    all_digits, append_decimal, comma_fields, decimal, digits_value, parse_digits_in, parse_i32,
    parse_signed32, parse_u32, parse_unsigned, split_commas, views,
};

verus! {

/// Encoding of the samples in a binary data file.
#[derive(Clone, Copy, Debug, PartialEq, Eq, Structural)]
pub enum BinaryFormat {
    /// IEEE 754 single precision, 4 bytes per sample.
    IeeeFloat32,
    /// Signed 16-bit integer, 2 bytes per sample.
    Int16,
}

impl BinaryFormat {
    pub open spec fn spec_bytes(&self) -> nat {
        match self {
            BinaryFormat::IeeeFloat32 => 4,
            BinaryFormat::Int16 => 2,
        }
    }

    /// Bytes per sample.
    pub fn bytes(&self) -> (r: usize)
        ensures
            r == self.spec_bytes(),
    {
        match self {
            BinaryFormat::IeeeFloat32 => 4,
            BinaryFormat::Int16 => 2,
        }
    }
}

/// A timestamp `YYYYMMDDhhmmssuuuuuu` (microseconds last).
#[derive(Clone, Copy, Debug, PartialEq, Eq, Structural)]
pub struct Date {
    pub year: u16,
    pub month: u8,
    pub day: u8,
    pub hour: u8,
    pub minute: u8,
    pub second: u8,
    pub microsecond: u32,
}

/// The number written by the digits `s[a..b]`.
pub open spec fn field(s: Seq<char>, a: int, b: int) -> nat {
    digits_value(s.subrange(a, b))
}

/// `s` starts with the twenty digits of a timestamp.
pub open spec fn is_timestamp(s: Seq<char>) -> bool {
    s.len() >= 20 && all_digits(s.subrange(0, 20))
}

/// The date that the first twenty digits of `s` write.
pub open spec fn timestamp_of(s: Seq<char>) -> Date {
    Date {
        year: field(s, 0, 4) as u16,
        month: field(s, 4, 6) as u8,
        day: field(s, 6, 8) as u8,
        hour: field(s, 8, 10) as u8,
        minute: field(s, 10, 12) as u8,
        second: field(s, 12, 14) as u8,
        microsecond: field(s, 14, 20) as u32,
    }
}

/// English name of month `m` (1 is January).
pub open spec fn month_name(m: int) -> Seq<char> {
    if m == 1 {
        "January"@
    } else if m == 2 {
        "February"@
    } else if m == 3 {
        "March"@
    } else if m == 4 {
        "April"@
    } else if m == 5 {
        "May"@
    } else if m == 6 {
        "June"@
    } else if m == 7 {
        "July"@
    } else if m == 8 {
        "August"@
    } else if m == 9 {
        "September"@
    } else if m == 10 {
        "October"@
    } else if m == 11 {
        "November"@
    } else {
        "December"@
    }
}

/// The digits `s[a..b]` of a timestamp are all digits.
proof fn lemma_timestamp_part(s: Seq<char>, a: int, b: int)
    requires
        is_timestamp(s),
        0 <= a < b <= 20,
    ensures
        s.subrange(a, b).len() > 0,
        all_digits(s.subrange(a, b)),
{
    assert forall|i: int| 0 <= i < b - a implies crate::text::is_digit(
        #[trigger] s.subrange(a, b)[i],
    ) by {
        assert(s.subrange(a, b)[i] == s.subrange(0, 20)[a + i]);
    }
}

/// A run of `k` digits writes a number below `10^k`.
proof fn lemma_digits_bound(t: Seq<char>)
    requires
        all_digits(t),
    ensures
        digits_value(t) < pow10(t.len()),
    decreases t.len(),
{
    if t.len() > 0 {
        assert(all_digits(t.drop_last())) by {
            assert forall|i: int| 0 <= i < t.drop_last().len() implies crate::text::is_digit(
                #[trigger] t.drop_last()[i],
            ) by {
                assert(t.drop_last()[i] == t[i]);
            }
        }
        assert(crate::text::is_digit(t[t.len() - 1]));
        lemma_digits_bound(t.drop_last());
    }
}

pub open spec fn pow10(k: nat) -> nat
    decreases k,
{
    if k == 0 {
        1
    } else {
        10 * pow10((k - 1) as nat)
    }
}

impl Date {
    /// Reads the timestamp in the first twenty characters of `s`; characters
    /// after them are ignored. `None` when `s` is shorter or one of them is not a
    /// decimal digit.
    pub fn parse(s: &str) -> (r: Option<Date>)
        ensures
            r is Some <==> is_timestamp(s@),
            r matches Some(d) ==> d == timestamp_of(s@),
    {
        let n = s.unicode_len();
        if n < 20 {
            return None;
        }
        let ghost t = s@;
        let year = parse_digits_in(s, 0, 4, 9999);
        let month = parse_digits_in(s, 4, 6, 99);
        let day = parse_digits_in(s, 6, 8, 99);
        let hour = parse_digits_in(s, 8, 10, 99);
        let minute = parse_digits_in(s, 10, 12, 99);
        let second = parse_digits_in(s, 12, 14, 99);
        let micro = parse_digits_in(s, 14, 20, 999999);
        proof {
            if is_timestamp(t) {
                lemma_timestamp_part(t, 0, 4);
                lemma_timestamp_part(t, 4, 6);
                lemma_timestamp_part(t, 6, 8);
                lemma_timestamp_part(t, 8, 10);
                lemma_timestamp_part(t, 10, 12);
                lemma_timestamp_part(t, 12, 14);
                lemma_timestamp_part(t, 14, 20);
                lemma_digits_bound(t.subrange(0, 4));
                lemma_digits_bound(t.subrange(4, 6));
                lemma_digits_bound(t.subrange(6, 8));
                lemma_digits_bound(t.subrange(8, 10));
                lemma_digits_bound(t.subrange(10, 12));
                lemma_digits_bound(t.subrange(12, 14));
                lemma_digits_bound(t.subrange(14, 20));
                reveal_with_fuel(pow10, 7);
            } else {
                lemma_all_parts(t);
            }
        }
        match (year, month, day, hour, minute, second, micro) {
            (Some(y), Some(mo), Some(d), Some(h), Some(mi), Some(se), Some(us)) => Some(
                Date {
                    year: y as u16,
                    month: mo as u8,
                    day: d as u8,
                    hour: h as u8,
                    minute: mi as u8,
                    second: se as u8,
                    microsecond: us,
                },
            ),
            _ => None,
        }
    }

    /// The date as `"<day> <Month> <year>, <hour>:<minute>:<second>.<microsecond>"`,
    /// numbers in plain decimal. `None` when the month is not in `1..=12`.
    pub fn to_string(&self) -> (r: Option<String>)
        ensures
            r is None <==> !(1 <= self.month <= 12),
            r matches Some(s) ==> s@ == decimal(self.day as nat) + " "@ + month_name(
                self.month as int,
            ) + " "@ + decimal(self.year as nat) + ", "@ + decimal(self.hour as nat) + ":"@
                + decimal(self.minute as nat) + ":"@ + decimal(self.second as nat) + "."@
                + decimal(self.microsecond as nat),
    {
        let month = match self.month {
            1 => "January",
            2 => "February",
            3 => "March",
            4 => "April",
            5 => "May",
            6 => "June",
            7 => "July",
            8 => "August",
            9 => "September",
            10 => "October",
            11 => "November",
            12 => "December",
            _ => {
                return None;
            },
        };
        let mut s = String::new();
        append_decimal(&mut s, self.day as u32);
        s.append(" ");
        s.append(month);
        s.append(" ");
        append_decimal(&mut s, self.year as u32);
        s.append(", ");
        append_decimal(&mut s, self.hour as u32);
        s.append(":");
        append_decimal(&mut s, self.minute as u32);
        s.append(":");
        append_decimal(&mut s, self.second as u32);
        s.append(".");
        append_decimal(&mut s, self.microsecond);
        Some(s)
    }
}

/// When a string of twenty or more characters is no timestamp, one of its
/// seven fields is not a run of digits.
proof fn lemma_all_parts(t: Seq<char>)
    requires
        t.len() >= 20,
        !is_timestamp(t),
    ensures
        !all_digits(t.subrange(0, 4)) || !all_digits(t.subrange(4, 6)) || !all_digits(
            t.subrange(6, 8),
        ) || !all_digits(t.subrange(8, 10)) || !all_digits(t.subrange(10, 12)) || !all_digits(
            t.subrange(12, 14),
        ) || !all_digits(t.subrange(14, 20)),
{
    let i = choose|i: int| 0 <= i < 20 && !crate::text::is_digit(#[trigger] t.subrange(0, 20)[i]);
    assert(t.subrange(0, 20)[i] == t[i]);
    if i < 4 {
        assert(t.subrange(0, 4)[i] == t[i]);
    } else if i < 6 {
        assert(t.subrange(4, 6)[i - 4] == t[i]);
    } else if i < 8 {
        assert(t.subrange(6, 8)[i - 6] == t[i]);
    } else if i < 10 {
        assert(t.subrange(8, 10)[i - 8] == t[i]);
    } else if i < 12 {
        assert(t.subrange(10, 12)[i - 10] == t[i]);
    } else if i < 14 {
        assert(t.subrange(12, 14)[i - 12] == t[i]);
    } else {
        assert(t.subrange(14, 20)[i - 14] == t[i]);
    }
}

/// One line of the `[Marker Infos]` section:
/// `<type>,<description>,<position>,<points>,<channel nr>[,<date>]`.
#[derive(Debug)]
pub struct MarkerInfo {
    /// Marker type (`Stimulus`, `Response`, `New Segment`, ...).
    pub kind: String,
    pub description: String,
    /// Position of the marker, in data points.
    pub position: u32,
    /// Length of the marker, in data points.
    pub points: u32,
    /// Channel the marker belongs to (0: all channels).
    pub nr: i32,
    /// Timestamp, present on `New Segment` markers.
    pub date: Option<Date>,
}

/// The fields of a marker line are well formed: at least five, the third and
/// fourth unsigned numbers, the fifth a signed number, and a sixth, if there is
/// one, a timestamp. Fields after the sixth are ignored.
pub open spec fn marker_fields_ok(f: Seq<Seq<char>>) -> bool {
    &&& f.len() >= 5
    &&& parse_unsigned(f[2], u32::MAX as nat) is Some
    &&& parse_unsigned(f[3], u32::MAX as nat) is Some
    &&& parse_signed32(f[4]) is Some
    &&& f.len() >= 6 ==> is_timestamp(f[5])
}

/// `m` is the marker that the well-formed fields `f` describe.
pub open spec fn describes(m: MarkerInfo, f: Seq<Seq<char>>) -> bool {
    &&& m.kind@ == f[0]
    &&& m.description@ == f[1]
    &&& parse_unsigned(f[2], u32::MAX as nat) == Some(m.position as nat)
    &&& parse_unsigned(f[3], u32::MAX as nat) == Some(m.points as nat)
    &&& parse_signed32(f[4]) == Some(m.nr as int)
    &&& m.date == if f.len() >= 6 {
        Some(timestamp_of(f[5]))
    } else {
        None
    }
}

impl MarkerInfo {
    /// The marker that a line's comma-separated fields describe; `None` when
    /// they are not well formed.
    pub fn from_fields(f: &Vec<String>) -> (r: Option<MarkerInfo>)
        ensures
            r is Some <==> marker_fields_ok(views(f@)),
            r matches Some(m) ==> describes(m, views(f@)),
    {
        let ghost v = views(f@);
        if f.len() < 5 {
            return None;
        }
        assert(v[2] == f@[2]@ && v[3] == f@[3]@ && v[4] == f@[4]@);
        let position = parse_u32(f[2].as_str());
        let points = parse_u32(f[3].as_str());
        let nr = parse_i32(f[4].as_str());
        let date = if f.len() >= 6 {
            assert(v[5] == f@[5]@);
            match Date::parse(f[5].as_str()) {
                Some(d) => Some(Some(d)),
                None => None,
            }
        } else {
            Some(None)
        };
        match (position, points, nr, date) {
            (Some(position), Some(points), Some(nr), Some(date)) => {
                assert(v[0] == f@[0]@ && v[1] == f@[1]@);
                Some(
                    MarkerInfo {
                        kind: f[0].clone(),
                        description: f[1].clone(),
                        position,
                        points,
                        nr,
                        date,
                    },
                )
            },
            _ => None,
        }
    }

    /// Reads a marker line.
    pub fn parse(line: &str) -> (r: Option<MarkerInfo>)
        ensures
            r is Some <==> marker_fields_ok(comma_fields(line@)),
            r matches Some(m) ==> describes(m, comma_fields(line@)),
    {
        let f = split_commas(line);
        MarkerInfo::from_fields(&f)
    }
}

/// The markers of a recording, read from its marker file.
#[derive(Debug)]
pub struct Marker {
    /// Name of the data file the markers refer to.
    pub data_file: String,
    pub markers: Vec<MarkerInfo>,
}

impl Marker {
    /// The markers given by the values of the `[Marker Infos]` section, in
    /// order. `None` when one of them is not a well-formed marker line.
    pub fn from_lines(data_file: String, lines: &Vec<String>) -> (r: Option<Marker>)
        ensures
            r is Some <==> forall|i: int|
                0 <= i < lines@.len() ==> marker_fields_ok(comma_fields(#[trigger] lines@[i]@)),
            r matches Some(m) ==> {
                &&& m.data_file == data_file
                &&& m.markers@.len() == lines@.len()
                &&& forall|i: int|
                    0 <= i < lines@.len() ==> describes(
                        #[trigger] m.markers@[i],
                        comma_fields(lines@[i]@),
                    )
            },
    {
        let mut markers: Vec<MarkerInfo> = Vec::new();
        let mut i: usize = 0;
        while i < lines.len()
            invariant
                i <= lines@.len(),
                markers@.len() == i,
                forall|k: int|
                    0 <= k < i ==> marker_fields_ok(comma_fields(#[trigger] lines@[k]@)),
                forall|k: int|
                    0 <= k < i ==> describes(#[trigger] markers@[k], comma_fields(lines@[k]@)),
            decreases lines@.len() - i,
        {
            match MarkerInfo::parse(lines[i].as_str()) {
                Some(m) => {
                    markers.push(m);
                },
                None => {
                    return None;
                },
            }
            i = i + 1;
        }
        Some(Marker { data_file, markers })
    }
}

/// Why a marker file cannot be read.
#[derive(Clone, Copy, Debug, PartialEq, Eq, Structural)]
pub enum MarkerFileError {
    /// The text after the identification line is not INI.
    Syntax,
    MissingCommonInfos,
    MissingMarkerInfos,
    MissingDataFile,
    /// A value of `[Marker Infos]` is not a well-formed marker line.
    BadMarker,
}

/// The lines of the `[Marker Infos]` section are all well-formed markers.
pub open spec fn all_markers_ok(lines: Seq<Seq<char>>) -> bool {
    forall|k: int| 0 <= k < lines.len() ==> marker_fields_ok(comma_fields(#[trigger] lines[k]))
}

/// Why the marker file `text` cannot be read, if it can't.
pub open spec fn marker_file_error(text: Seq<char>) -> Option<MarkerFileError> {
    match parsed_ini(after_first_line(text)) {
        None => Some(MarkerFileError::Syntax),
        Some(i) => match (first_section(i, "Common Infos"@), first_section(i, "Marker Infos"@)) {
            (None, _) => Some(MarkerFileError::MissingCommonInfos),
            (Some(_), None) => Some(MarkerFileError::MissingMarkerInfos),
            (Some(c), Some(m)) => if first_value(c, "DataFile"@) is None {
                Some(MarkerFileError::MissingDataFile)
            } else if !all_markers_ok(values_of(m)) {
                Some(MarkerFileError::BadMarker)
            } else {
                None
            },
        },
    }
}

impl Marker {
    /// Reads a marker file: an identification line, then INI sections, of
    /// which `[Common Infos]` names the data file and `[Marker Infos]` holds
    /// one marker line per value.
    pub fn parse(text: &str) -> (r: Result<Marker, MarkerFileError>)
        ensures
            r is Ok <==> marker_file_error(text@) is None,
            r matches Err(e) ==> marker_file_error(text@) == Some(e),
            r matches Ok(m) ==> {
                let i = parsed_ini(after_first_line(text@)).unwrap();
                let lines = values_of(first_section(i, "Marker Infos"@).unwrap());
                &&& first_value(first_section(i, "Common Infos"@).unwrap(), "DataFile"@) == Some(
                    m.data_file@,
                )
                &&& m.markers@.len() == lines.len()
                &&& forall|k: int|
                    0 <= k < lines.len() ==> describes(
                        #[trigger] m.markers@[k],
                        comma_fields(lines[k]),
                    )
            },
    {
        let body = skip_first_line(text);
        let file = match load_ini(body.as_str()) {
            Ok(f) => f,
            Err(_) => {
                return Err(MarkerFileError::Syntax);
            },
        };
        let common = match section(&file, "Common Infos") {
            Some(p) => p,
            None => {
                return Err(MarkerFileError::MissingCommonInfos);
            },
        };
        let marker_infos = match section(&file, "Marker Infos") {
            Some(p) => p,
            None => {
                return Err(MarkerFileError::MissingMarkerInfos);
            },
        };
        let data_file = match get(common, "DataFile") {
            Some(d) => d,
            None => {
                return Err(MarkerFileError::MissingDataFile);
            },
        };
        let lines = values(marker_infos);
        let ghost v = views(lines@);
        proof {
            assert(v.len() == lines@.len());
            assert forall|k: int| 0 <= k < lines@.len() implies #[trigger] v[k] == lines@[k]@ by {}
        }
        match Marker::from_lines(data_file, &lines) {
            Some(m) => Ok(m),
            None => {
                proof {
                    let k = choose|k: int|
                        0 <= k < lines@.len() && !marker_fields_ok(
                            comma_fields(#[trigger] lines@[k]@),
                        );
                    assert(v[k] == lines@[k]@);
                    assert(!all_markers_ok(v));
                }
                Err(MarkerFileError::BadMarker)
            },
        }
    }
}

} // verus!
