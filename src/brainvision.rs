//! BrainVision Core Data Format: the binary encodings of a data file and the
//! layout of its samples.
//!
//! A data file is a flat run of little-endian samples. In the multiplexed
//! layout the samples of all channels at one time point come together; in the
//! vectorized layout all samples of one channel come together.

use vstd::prelude::*;
use crate::ini_file::{
    after_first, after_first_line, first_section, first_value, get, load_ini, parsed_ini,
    properties_view, section, skip_first_line, text_after, values, values_of, IniView,
    PropertiesView,
};
use crate::text::{comma_fields, parse_u32, parse_unsigned, split_commas, views};

verus! {

/// Encoding of the samples in a data file, as named by the header's
/// `BinaryFormat` key.
#[derive(Clone, Copy, Debug, PartialEq, Eq, Structural)]
pub enum BinaryFormatType {
    /// `IEEE_FLOAT_32`: IEEE 754 single precision, 4 bytes per sample.
    IeeeFloat32,
    /// `INT_16`: signed 16-bit integer, 2 bytes per sample.
    Int16,
}

impl BinaryFormatType {
    pub open spec fn spec_bytes(&self) -> nat {
        match self {
            BinaryFormatType::IeeeFloat32 => 4,
            BinaryFormatType::Int16 => 2,
        }
    }

    /// Bytes per sample.
    pub fn bytes(&self) -> (r: usize)
        ensures
            r == self.spec_bytes(),
    {
        match self {
            BinaryFormatType::IeeeFloat32 => 4,
            BinaryFormatType::Int16 => 2,
        }
    }

    pub open spec fn spec_from_name(name: Seq<char>) -> Option<BinaryFormatType> {
        if name == "IEEE_FLOAT_32"@ {
            Some(BinaryFormatType::IeeeFloat32)
        } else if name == "INT_16"@ {
            Some(BinaryFormatType::Int16)
        } else {
            None
        }
    }

    /// The encoding a header names; `None` for a name the format does not
    /// define.
    pub fn from_name(name: &str) -> (r: Option<BinaryFormatType>)
        ensures
            r == BinaryFormatType::spec_from_name(name@),
    {
        if str_eq(name, "IEEE_FLOAT_32") {
            Some(BinaryFormatType::IeeeFloat32)
        } else if str_eq(name, "INT_16") {
            Some(BinaryFormatType::Int16)
        } else {
            None
        }
    }
}

/// Whether two strings hold the same characters.
pub fn str_eq(a: &str, b: &str) -> (r: bool)
    ensures
        r == (a@ == b@),
{
    let n = a.unicode_len();
    if n != b.unicode_len() {
        return false;
    }
    let mut i: usize = 0;
    while i < n
        invariant
            i <= n,
            n == a@.len(),
            n == b@.len(),
            a@.subrange(0, i as int) == b@.subrange(0, i as int),
        decreases n - i,
    {
        if a.get_char(i) != b.get_char(i) {
            return false;
        }
        assert(a@.subrange(0, i + 1) =~= a@.subrange(0, i as int).push(a@[i as int]));
        assert(b@.subrange(0, i + 1) =~= b@.subrange(0, i as int).push(b@[i as int]));
        i = i + 1;
    }
    assert(a@ =~= a@.subrange(0, n as int));
    assert(b@ =~= b@.subrange(0, n as int));
    true
}

/// The signed 16-bit integer whose little-endian bytes are `lo, hi`.
pub open spec fn le_i16(lo: u8, hi: u8) -> int {
    lo + 256 * hi - if hi >= 128 {
        65536int
    } else {
        0
    }
}

/// The unsigned 32-bit integer whose little-endian bytes are `b0..b3`.
pub open spec fn le_u32(b0: u8, b1: u8, b2: u8, b3: u8) -> int {
    b0 + 256 * b1 + 65536 * b2 + 16777216 * b3
}

/// Decodes consecutive little-endian signed 16-bit samples; a trailing odd
/// byte is ignored.
pub fn decode_i16_le(bytes: &Vec<u8>) -> (r: Vec<i16>)
    ensures
        r@.len() == bytes@.len() / 2,
        forall|k: int|
            0 <= k < r@.len() ==> #[trigger] r@[k] as int == le_i16(
                bytes@[2 * k],
                bytes@[2 * k + 1],
            ),
{
    let len = bytes.len();
    let count = len / 2;
    let mut r: Vec<i16> = Vec::new();
    let mut k: usize = 0;
    while k < count
        invariant
            k <= count,
            len == bytes@.len(),
            count == len / 2,
            r@.len() == k,
            forall|j: int|
                0 <= j < k ==> #[trigger] r@[j] as int == le_i16(bytes@[2 * j], bytes@[2 * j + 1]),
        decreases count - k,
    {
        assert(2 * k + 1 < len) by (nonlinear_arith)
            requires k < count, count == len / 2, len == bytes@.len();
        let lo = bytes[2 * k];
        let hi = bytes[2 * k + 1];
        let v: i16 = if hi < 128 {
            (hi as i16) * 256 + lo as i16
        } else {
            (hi as i16 - 256) * 256 + lo as i16
        };
        r.push(v);
        k = k + 1;
    }
    r
}

/// Decodes consecutive little-endian 32-bit words (the bit patterns of
/// `IEEE_FLOAT_32` samples); trailing bytes short of a word are ignored.
pub fn decode_u32_le(bytes: &Vec<u8>) -> (r: Vec<u32>)
    ensures
        r@.len() == bytes@.len() / 4,
        forall|k: int|
            0 <= k < r@.len() ==> #[trigger] r@[k] as int == le_u32(
                bytes@[4 * k],
                bytes@[4 * k + 1],
                bytes@[4 * k + 2],
                bytes@[4 * k + 3],
            ),
{
    let len = bytes.len();
    let count = len / 4;
    let mut r: Vec<u32> = Vec::new();
    let mut k: usize = 0;
    while k < count
        invariant
            k <= count,
            len == bytes@.len(),
            count == len / 4,
            r@.len() == k,
            forall|j: int|
                0 <= j < k ==> #[trigger] r@[j] as int == le_u32(
                    bytes@[4 * j],
                    bytes@[4 * j + 1],
                    bytes@[4 * j + 2],
                    bytes@[4 * j + 3],
                ),
        decreases count - k,
    {
        assert(4 * k + 3 < len) by (nonlinear_arith)
            requires k < count, count == len / 4, len == bytes@.len();
        let b0 = bytes[4 * k] as u32;
        let b1 = bytes[4 * k + 1] as u32;
        let b2 = bytes[4 * k + 2] as u32;
        let b3 = bytes[4 * k + 3] as u32;
        r.push(b0 + 256 * b1 + 65536 * b2 + 16777216 * b3);
        k = k + 1;
    }
    r
}

/// Splits multiplexed samples into channels: sample `t` of channel `c` is
/// `samples[t * num_channels + c]`. `None` when there are no channels or the
/// samples do not fill a whole number of time points.
pub fn demultiplex<T: Copy>(samples: &Vec<T>, num_channels: usize) -> (r: Option<Vec<Vec<T>>>)
    ensures
        r is None <==> (num_channels == 0 || samples@.len() % (num_channels as nat) != 0),
        r matches Some(m) ==> {
            &&& m@.len() == num_channels
            &&& forall|c: int|
                0 <= c < num_channels ==> (#[trigger] m@[c])@.len() == samples@.len()
                    / (num_channels as nat)
            &&& forall|c: int, t: int|
                0 <= c < num_channels && 0 <= t < samples@.len() / (num_channels as nat)
                    ==> #[trigger] m@[c]@[t] == samples@[t * num_channels + c]
        },
{
    if num_channels == 0 || samples.len() % num_channels != 0 {
        return None;
    }
    let len = samples.len();
    let points = len / num_channels;
    let mut m: Vec<Vec<T>> = Vec::new();
    let mut c: usize = 0;
    while c < num_channels
        invariant
            c <= num_channels,
            num_channels > 0,
            len == samples@.len(),
            points == len / num_channels,
            len % num_channels == 0,
            m@.len() == c,
            forall|k: int| 0 <= k < c ==> (#[trigger] m@[k])@.len() == points,
            forall|k: int, t: int|
                0 <= k < c && 0 <= t < points ==> #[trigger] m@[k]@[t] == samples@[t
                    * num_channels + k],
        decreases num_channels - c,
    {
        let mut row: Vec<T> = Vec::new();
        let mut t: usize = 0;
        while t < points
            invariant
                t <= points,
                c < num_channels,
                len == samples@.len(),
                points == len / num_channels,
                len % num_channels == 0,
                row@.len() == t,
                forall|j: int| 0 <= j < t ==> #[trigger] row@[j] == samples@[j * num_channels + c],
            decreases points - t,
        {
            assert(t * num_channels + c < len) by (nonlinear_arith)
                requires t < points, c < num_channels, points == len / num_channels,
                    len % num_channels == 0, num_channels > 0;
            row.push(samples[t * num_channels + c]);
            t = t + 1;
        }
        m.push(row);
        c = c + 1;
    }
    Some(m)
}

/// Splits vectorized samples into channels: sample `t` of channel `c` is
/// `samples[c * points + t]`, where `points` is the number of samples per
/// channel. `None` when there are no channels or the samples do not split
/// evenly among them.
pub fn split_channels<T: Copy>(samples: &Vec<T>, num_channels: usize) -> (r: Option<Vec<Vec<T>>>)
    ensures
        r is None <==> (num_channels == 0 || samples@.len() % (num_channels as nat) != 0),
        r matches Some(m) ==> {
            &&& m@.len() == num_channels
            &&& forall|c: int|
                0 <= c < num_channels ==> (#[trigger] m@[c])@.len() == samples@.len()
                    / (num_channels as nat)
            &&& forall|c: int, t: int|
                0 <= c < num_channels && 0 <= t < samples@.len() / (num_channels as nat)
                    ==> #[trigger] m@[c]@[t] == samples@[c * (samples@.len() / (
                    num_channels as nat)) + t]
        },
{
    if num_channels == 0 || samples.len() % num_channels != 0 {
        return None;
    }
    let len = samples.len();
    let points = len / num_channels;
    let mut m: Vec<Vec<T>> = Vec::new();
    let mut c: usize = 0;
    while c < num_channels
        invariant
            c <= num_channels,
            num_channels > 0,
            len == samples@.len(),
            points == len / num_channels,
            len % num_channels == 0,
            m@.len() == c,
            forall|k: int| 0 <= k < c ==> (#[trigger] m@[k])@.len() == points,
            forall|k: int, t: int|
                0 <= k < c && 0 <= t < points ==> #[trigger] m@[k]@[t] == samples@[k * points
                    + t],
        decreases num_channels - c,
    {
        let mut row: Vec<T> = Vec::new();
        let mut t: usize = 0;
        while t < points
            invariant
                t <= points,
                c < num_channels,
                len == samples@.len(),
                points == len / num_channels,
                len % num_channels == 0,
                row@.len() == t,
                forall|j: int| 0 <= j < t ==> #[trigger] row@[j] == samples@[c * points + j],
            decreases points - t,
        {
            assert(c * points + t < len) by (nonlinear_arith)
                requires t < points, c < num_channels, points == len / num_channels,
                    len % num_channels == 0, num_channels > 0;
            row.push(samples[c * points + t]);
            t = t + 1;
        }
        m.push(row);
        c = c + 1;
    }
    Some(m)
}

/// The values of the header keys that the recording's layout depends on, as
/// read from the `[Common Infos]` and `[Binary Infos]` sections (`None` for
/// an absent key).
pub struct HeaderEntries {
    pub data_file: Option<String>,
    pub marker_file: Option<String>,
    pub number_of_channels: Option<String>,
    pub sampling_interval: Option<String>,
    pub averaged: Option<String>,
    pub averaged_segments: Option<String>,
    pub segmentation_type: Option<String>,
    pub segment_data_points: Option<String>,
    pub binary_format: Option<String>,
}

/// The recording's layout, as the header describes it.
#[derive(Debug)]
pub struct HeaderInfo {
    /// Name of the EEG data file.
    pub data_file: String,
    /// Name of the marker file.
    pub marker_file: String,
    pub num_channels: u32,
    /// Microseconds between samples, as written in the header (a decimal
    /// number, possibly fractional).
    pub sampling_interval: String,
    /// Whether the data set is averaged across segments.
    pub averaged: bool,
    /// Number of segments in the average (0 when not averaged).
    pub averaged_segms: u32,
    /// Samples per segment (0 unless averaged and segmented by markers).
    pub segment_data_points: u32,
    /// `NOTSEGMENTED` or `MARKERBASED`.
    pub segmentation_type: String,
    pub binary_format: BinaryFormatType,
}

/// Why a header does not describe a readable recording.
#[derive(Clone, Copy, Debug, PartialEq, Eq, Structural)]
pub enum HeaderError {
    MissingDataFile,
    MissingMarkerFile,
    /// `NumberOfChannels` is absent or not an unsigned 32-bit number.
    BadNumberOfChannels,
    MissingSamplingInterval,
    /// The data are averaged and `AveragedSegments` is absent or no number.
    BadAveragedSegments,
    /// The data are averaged and `SegmentationType` is absent.
    MissingSegmentationType,
    /// The data are averaged by markers and `SegmentDataPoints` is absent or
    /// no number.
    BadSegmentDataPoints,
    /// `BinaryFormat` is absent or names no known encoding.
    BadBinaryFormat,
}

pub open spec fn string_opt_view(o: Option<String>) -> Option<Seq<char>> {
    match o {
        Some(s) => Some(s@),
        None => None,
    }
}

/// The characters of the header values that the layout depends on.
pub struct EntryViews {
    pub data_file: Option<Seq<char>>,
    pub marker_file: Option<Seq<char>>,
    pub number_of_channels: Option<Seq<char>>,
    pub sampling_interval: Option<Seq<char>>,
    pub averaged: Option<Seq<char>>,
    pub averaged_segments: Option<Seq<char>>,
    pub segmentation_type: Option<Seq<char>>,
    pub segment_data_points: Option<Seq<char>>,
    pub binary_format: Option<Seq<char>>,
}

impl HeaderEntries {
    pub open spec fn view(&self) -> EntryViews {
        EntryViews {
            data_file: string_opt_view(self.data_file),
            marker_file: string_opt_view(self.marker_file),
            number_of_channels: string_opt_view(self.number_of_channels),
            sampling_interval: string_opt_view(self.sampling_interval),
            averaged: string_opt_view(self.averaged),
            averaged_segments: string_opt_view(self.averaged_segments),
            segmentation_type: string_opt_view(self.segmentation_type),
            segment_data_points: string_opt_view(self.segment_data_points),
            binary_format: string_opt_view(self.binary_format),
        }
    }
}

/// An optional value that is present and reads as an unsigned 32-bit number.
pub open spec fn reads_u32(o: Option<Seq<char>>) -> bool {
    o matches Some(s) && parse_unsigned(s, u32::MAX as nat) is Some
}

/// The value of a present unsigned 32-bit number.
pub open spec fn u32_value(o: Option<Seq<char>>) -> nat {
    match o {
        Some(s) => match parse_unsigned(s, u32::MAX as nat) {
            Some(v) => v,
            None => 0,
        },
        None => 0,
    }
}

/// The header says the data are averaged: `Averaged=YES`.
pub open spec fn is_averaged(e: EntryViews) -> bool {
    e.averaged == Some("YES"@)
}

/// The header says the averaged data are segmented by markers.
pub open spec fn is_marker_based(e: EntryViews) -> bool {
    is_averaged(e) && e.segmentation_type == Some("MARKERBASED"@)
}

pub open spec fn names_format(o: Option<Seq<char>>) -> bool {
    o matches Some(s) && BinaryFormatType::spec_from_name(s) is Some
}

/// The first thing wrong with the entries, checked in the order the keys
/// are read, if any.
pub open spec fn header_error(e: EntryViews) -> Option<HeaderError> {
    if e.data_file is None {
        Some(HeaderError::MissingDataFile)
    } else if e.marker_file is None {
        Some(HeaderError::MissingMarkerFile)
    } else if !reads_u32(e.number_of_channels) {
        Some(HeaderError::BadNumberOfChannels)
    } else if e.sampling_interval is None {
        Some(HeaderError::MissingSamplingInterval)
    } else if is_averaged(e) && !reads_u32(e.averaged_segments) {
        Some(HeaderError::BadAveragedSegments)
    } else if is_averaged(e) && e.segmentation_type is None {
        Some(HeaderError::MissingSegmentationType)
    } else if is_marker_based(e) && !reads_u32(e.segment_data_points) {
        Some(HeaderError::BadSegmentDataPoints)
    } else if !names_format(e.binary_format) {
        Some(HeaderError::BadBinaryFormat)
    } else {
        None
    }
}

/// `h` is the layout that the (error-free) entries `e` describe.
pub open spec fn describes_layout(h: HeaderInfo, e: EntryViews) -> bool {
    &&& e.data_file == Some(h.data_file@)
    &&& e.marker_file == Some(h.marker_file@)
    &&& h.num_channels == u32_value(e.number_of_channels)
    &&& e.sampling_interval == Some(h.sampling_interval@)
    &&& h.averaged == is_averaged(e)
    &&& h.averaged_segms == if is_averaged(e) {
        u32_value(e.averaged_segments)
    } else {
        0
    }
    &&& h.segmentation_type@ == if is_averaged(e) {
        e.segmentation_type.unwrap()
    } else {
        "NOTSEGMENTED"@
    }
    &&& h.segment_data_points == if is_marker_based(e) {
        u32_value(e.segment_data_points)
    } else {
        0
    }
    &&& Some(h.binary_format) == BinaryFormatType::spec_from_name(e.binary_format.unwrap())
}

/// Whether an optional string holds exactly `lit`.
fn opt_is(o: &Option<String>, lit: &str) -> (r: bool)
    ensures
        r == (string_opt_view(*o) == Some(lit@)),
{
    match o {
        Some(s) => str_eq(s.as_str(), lit),
        None => false,
    }
}

/// Reads an optional unsigned 32-bit number.
fn opt_u32(o: &Option<String>) -> (r: Option<u32>)
    ensures
        r is Some <==> reads_u32(string_opt_view(*o)),
        r matches Some(v) ==> v == u32_value(string_opt_view(*o)),
{
    match o {
        Some(s) => parse_u32(s.as_str()),
        None => None,
    }
}

impl HeaderInfo {
    /// The layout that the header entries describe. Absent `Averaged` means not
    /// averaged; unaveraged data are `NOTSEGMENTED` with no segment counts.
    pub fn from_entries(e: &HeaderEntries) -> (r: Result<HeaderInfo, HeaderError>)
        ensures
            r is Ok <==> header_error(e@) is None,
            r matches Err(err) ==> header_error(e@) == Some(err),
            r matches Ok(h) ==> describes_layout(h, e@),
    {
        let data_file = match &e.data_file {
            Some(s) => s.clone(),
            None => {
                return Err(HeaderError::MissingDataFile);
            },
        };
        let marker_file = match &e.marker_file {
            Some(s) => s.clone(),
            None => {
                return Err(HeaderError::MissingMarkerFile);
            },
        };
        let num_channels = match opt_u32(&e.number_of_channels) {
            Some(v) => v,
            None => {
                return Err(HeaderError::BadNumberOfChannels);
            },
        };
        let sampling_interval = match &e.sampling_interval {
            Some(s) => s.clone(),
            None => {
                return Err(HeaderError::MissingSamplingInterval);
            },
        };
        let averaged = opt_is(&e.averaged, "YES");
        let averaged_segms = if averaged {
            match opt_u32(&e.averaged_segments) {
                Some(v) => v,
                None => {
                    return Err(HeaderError::BadAveragedSegments);
                },
            }
        } else {
            0
        };
        let segmentation_type = if averaged {
            match &e.segmentation_type {
                Some(s) => s.clone(),
                None => {
                    return Err(HeaderError::MissingSegmentationType);
                },
            }
        } else {
            String::from_str("NOTSEGMENTED")
        };
        let marker_based = averaged && str_eq(segmentation_type.as_str(), "MARKERBASED");
        let segment_data_points = if marker_based {
            match opt_u32(&e.segment_data_points) {
                Some(v) => v,
                None => {
                    return Err(HeaderError::BadSegmentDataPoints);
                },
            }
        } else {
            0
        };
        let binary_format = match &e.binary_format {
            Some(s) => match BinaryFormatType::from_name(s.as_str()) {
                Some(f) => f,
                None => {
                    return Err(HeaderError::BadBinaryFormat);
                },
            },
            None => {
                return Err(HeaderError::BadBinaryFormat);
            },
        };
        Ok(
            HeaderInfo {
                data_file,
                marker_file,
                num_channels,
                sampling_interval,
                averaged,
                averaged_segms,
                segment_data_points,
                segmentation_type,
                binary_format,
            },
        )
    }
}

/// The entry views that the `[Common Infos]` and `[Binary Infos]` sections
/// give.
pub open spec fn section_entries(common: PropertiesView, binary: PropertiesView) -> EntryViews {
    EntryViews {
        data_file: first_value(common, "DataFile"@),
        marker_file: first_value(common, "MarkerFile"@),
        number_of_channels: first_value(common, "NumberOfChannels"@),
        sampling_interval: first_value(common, "SamplingInterval"@),
        averaged: first_value(common, "Averaged"@),
        averaged_segments: first_value(common, "AveragedSegments"@),
        segmentation_type: first_value(common, "SegmentationType"@),
        segment_data_points: first_value(common, "SegmentDataPoints"@),
        binary_format: first_value(binary, "BinaryFormat"@),
    }
}

impl HeaderEntries {
    /// Looks the keys up in the `[Common Infos]` and `[Binary Infos]` sections.
    pub fn from_sections(common: &ini::Properties, binary: &ini::Properties) -> (r: HeaderEntries)
        ensures
            r@ == section_entries(properties_view(*common), properties_view(*binary)),
    {
        HeaderEntries {
            data_file: get(common, "DataFile"),
            marker_file: get(common, "MarkerFile"),
            number_of_channels: get(common, "NumberOfChannels"),
            sampling_interval: get(common, "SamplingInterval"),
            averaged: get(common, "Averaged"),
            averaged_segments: get(common, "AveragedSegments"),
            segmentation_type: get(common, "SegmentationType"),
            segment_data_points: get(common, "SegmentDataPoints"),
            binary_format: get(binary, "BinaryFormat"),
        }
    }
}

/// The text of one `[Channel Infos]` value,
/// `<name>,<reference>,<resolution>,<unit>`, with the defaults of empty fields
/// filled in.
#[derive(Debug)]
pub struct ChannelText {
    pub name: String,
    /// Reference channel; `Cz` when the field is empty.
    pub ref_name: String,
    /// Resolution in units per bit, as written; `None` when the field is empty
    /// (a resolution of 1).
    pub resolution: Option<String>,
    /// Unit; `μV` when the field is empty.
    pub unit: String,
}

/// `c` is the channel that the fields `f` (at least four) describe.
pub open spec fn describes_channel(c: ChannelText, f: Seq<Seq<char>>) -> bool {
    &&& c.name@ == f[0]
    &&& c.ref_name@ == if f[1].len() == 0 {
        "Cz"@
    } else {
        f[1]
    }
    &&& string_opt_view(c.resolution) == if f[2].len() == 0 {
        None
    } else {
        Some(f[2])
    }
    &&& c.unit@ == if f[3].len() == 0 {
        "μV"@
    } else {
        f[3]
    }
}

impl ChannelText {
    /// Reads a channel line; `None` when it has fewer than four fields.
    pub fn parse(line: &str) -> (r: Option<ChannelText>)
        ensures
            r is Some <==> comma_fields(line@).len() >= 4,
            r matches Some(c) ==> describes_channel(c, comma_fields(line@)),
    {
        let f = split_commas(line);
        if f.len() < 4 {
            return None;
        }
        let ghost v = views(f@);
        assert(v[0] == f@[0]@ && v[1] == f@[1]@ && v[2] == f@[2]@ && v[3] == f@[3]@);
        let ref_name = if f[1].as_str().unicode_len() == 0 {
            String::from_str("Cz")
        } else {
            f[1].clone()
        };
        let resolution = if f[2].as_str().unicode_len() == 0 {
            None
        } else {
            Some(f[2].clone())
        };
        let unit = if f[3].as_str().unicode_len() == 0 {
            String::from_str("μV")
        } else {
            f[3].clone()
        };
        Some(ChannelText { name: f[0].clone(), ref_name, resolution, unit })
    }
}

/// A header file, read.
#[derive(Debug)]
pub struct HeaderFile {
    pub info: HeaderInfo,
    /// Values of the `[Channel Infos]` section, one per channel:
    /// `<name>,<reference>,<resolution>,<unit>`.
    pub channel_lines: Vec<String>,
    /// Values of the `[Coordinates]` section, if there is one:
    /// `<radius>,<theta>,<phi>`.
    pub coordinate_lines: Option<Vec<String>>,
    /// The text after `[Comment]`, if there is such a section.
    pub comment: Option<String>,
}

/// Why a header file cannot be read.
#[derive(Clone, Copy, Debug, PartialEq, Eq, Structural)]
pub enum HeaderFileError {
    /// The text after the identification line is not INI.
    Syntax,
    MissingCommonInfos,
    MissingBinaryInfos,
    MissingChannelInfos,
    Header(HeaderError),
}

/// The first section of a header file that is missing, if any.
pub open spec fn missing_section(i: IniView) -> Option<HeaderFileError> {
    if first_section(i, "Common Infos"@) is None {
        Some(HeaderFileError::MissingCommonInfos)
    } else if first_section(i, "Binary Infos"@) is None {
        Some(HeaderFileError::MissingBinaryInfos)
    } else if first_section(i, "Channel Infos"@) is None {
        Some(HeaderFileError::MissingChannelInfos)
    } else {
        None
    }
}

/// The entry views of a header whose sections are present.
pub open spec fn ini_entries(i: IniView) -> EntryViews {
    section_entries(
        first_section(i, "Common Infos"@).unwrap(),
        first_section(i, "Binary Infos"@).unwrap(),
    )
}

/// Why the header file `text` cannot be read, if it can't.
pub open spec fn header_file_error(text: Seq<char>) -> Option<HeaderFileError> {
    match parsed_ini(after_first_line(text)) {
        None => Some(HeaderFileError::Syntax),
        Some(i) => if missing_section(i) is Some {
            missing_section(i)
        } else {
            match header_error(ini_entries(i)) {
                Some(e) => Some(HeaderFileError::Header(e)),
                None => None,
            }
        },
    }
}

/// The views of an optional list of strings.
pub open spec fn opt_views(o: Option<Vec<String>>) -> Option<Seq<Seq<char>>> {
    match o {
        Some(v) => Some(views(v@)),
        None => None,
    }
}

impl HeaderFile {
    /// Reads a header file: an identification line, then INI sections. The
    /// comment is the text after the first `[Comment]` anywhere in the file.
    pub fn parse(text: &str) -> (r: Result<HeaderFile, HeaderFileError>)
        ensures
            r is Ok <==> header_file_error(text@) is None,
            r matches Err(e) ==> header_file_error(text@) == Some(e),
            r matches Ok(h) ==> {
                let i = parsed_ini(after_first_line(text@)).unwrap();
                &&& describes_layout(h.info, ini_entries(i))
                &&& views(h.channel_lines@) == values_of(
                    first_section(i, "Channel Infos"@).unwrap(),
                )
                &&& opt_views(h.coordinate_lines) == match first_section(i, "Coordinates"@) {
                    Some(p) => Some(values_of(p)),
                    None => None,
                }
                &&& string_opt_view(h.comment) == after_first(text@, "[Comment]"@)
            },
    {
        let comment = text_after(text, "[Comment]");
        let body = skip_first_line(text);
        let file = match load_ini(body.as_str()) {
            Ok(f) => f,
            Err(_) => {
                return Err(HeaderFileError::Syntax);
            },
        };
        let common = match section(&file, "Common Infos") {
            Some(p) => p,
            None => {
                return Err(HeaderFileError::MissingCommonInfos);
            },
        };
        let binary = match section(&file, "Binary Infos") {
            Some(p) => p,
            None => {
                return Err(HeaderFileError::MissingBinaryInfos);
            },
        };
        let channels = match section(&file, "Channel Infos") {
            Some(p) => p,
            None => {
                return Err(HeaderFileError::MissingChannelInfos);
            },
        };
        let coordinate_lines = match section(&file, "Coordinates") {
            Some(p) => Some(values(p)),
            None => None,
        };
        let entries = HeaderEntries::from_sections(common, binary);
        let info = match HeaderInfo::from_entries(&entries) {
            Ok(h) => h,
            Err(e) => {
                return Err(HeaderFileError::Header(e));
            },
        };
        Ok(HeaderFile { info, channel_lines: values(channels), coordinate_lines, comment })
    }
}

} // verus!
