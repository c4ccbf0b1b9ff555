use sigproc::bids::{BinaryFormat, Date, Marker, MarkerFileError, MarkerInfo};
use sigproc::brainvision::{
    decode_i16_le, decode_u32_le, demultiplex, split_channels, str_eq, BinaryFormatType,
    ChannelText, HeaderEntries, HeaderError, HeaderFile, HeaderFileError, HeaderInfo,
};
use sigproc::ini_file::{skip_first_line, text_after};
use sigproc::read::BIDSPath;
use sigproc::text::{append_decimal, parse_i32, parse_u32, split_commas};

#[test]
fn unsigned_numbers() {
    assert_eq!(parse_u32("42"), Some(42));
    assert_eq!(parse_u32("+7"), Some(7));
    assert_eq!(parse_u32("4294967295"), Some(u32::MAX));
    assert_eq!(parse_u32("4294967296"), None);
    assert_eq!(parse_u32(""), None);
    assert_eq!(parse_u32("+"), None);
    assert_eq!(parse_u32("-1"), None);
    assert_eq!(parse_u32("1 "), None);
}

#[test]
fn signed_numbers() {
    assert_eq!(parse_i32("-2147483648"), Some(i32::MIN));
    assert_eq!(parse_i32("2147483647"), Some(i32::MAX));
    assert_eq!(parse_i32("2147483648"), None);
    assert_eq!(parse_i32("-0"), Some(0));
    assert_eq!(parse_i32("+12"), Some(12));
    assert_eq!(parse_i32("-"), None);
}

#[test]
fn comma_fields() {
    assert_eq!(split_commas("a,,b"), vec!["a", "", "b"]);
    assert_eq!(split_commas(""), vec![""]);
    assert_eq!(split_commas("x,"), vec!["x", ""]);
    assert_eq!(split_commas("Fp1,,0.1,µV"), vec!["Fp1", "", "0.1", "µV"]);
}

#[test]
fn decimal_text() {
    let mut s = String::from("n=");
    append_decimal(&mut s, 0);
    append_decimal(&mut s, 1907);
    assert_eq!(s, "n=01907");
}

#[test]
fn timestamps() {
    let d = Date::parse("20230115123045123456").unwrap();
    assert_eq!(
        d,
        Date { year: 2023, month: 1, day: 15, hour: 12, minute: 30, second: 45, microsecond: 123456 }
    );
    assert_eq!(d.to_string().unwrap(), "15 January 2023, 12:30:45.123456");
    assert!(Date::parse("2023011512304512345").is_none());
    assert!(Date::parse("2023011512304512345x").is_none());
    assert_eq!(Date::parse("20231231000000000001 trailing").unwrap().month, 12);
    let bad = Date { month: 13, ..d };
    assert!(bad.to_string().is_none());
    let dec = Date { month: 12, day: 1, hour: 0, minute: 5, second: 9, microsecond: 7, ..d };
    assert_eq!(dec.to_string().unwrap(), "1 December 2023, 0:5:9.7");
}

#[test]
fn marker_lines() {
    let m = MarkerInfo::parse("Stimulus,S  1,1200,1,0").unwrap();
    assert_eq!(m.kind, "Stimulus");
    assert_eq!(m.description, "S  1");
    assert_eq!((m.position, m.points, m.nr), (1200, 1, 0));
    assert!(m.date.is_none());
    let s = MarkerInfo::parse("New Segment,,1,1,-1,20230115123045123456").unwrap();
    assert_eq!(s.description, "");
    assert_eq!(s.nr, -1);
    assert_eq!(s.date.unwrap().year, 2023);
    assert!(MarkerInfo::parse("Stimulus,S  1,12x,1,0").is_none());
    assert!(MarkerInfo::parse("Stimulus,S  1,1,1").is_none());
    assert!(MarkerInfo::parse("New Segment,,1,1,0,").is_none());
}

#[test]
fn marker_file() {
    let text = "Brain Vision Data Exchange Marker File, Version 1.0\n\
        [Common Infos]\nCodepage=UTF-8\nDataFile=rec.eeg\n\n\
        [Marker Infos]\nMk1=New Segment,,1,1,0,20230115123045123456\nMk2=Stimulus,S  2,500,1,0\n";
    let m = Marker::parse(text).unwrap();
    assert_eq!(m.data_file, "rec.eeg");
    assert_eq!(m.markers.len(), 2);
    assert_eq!(m.markers[1].position, 500);
    assert_eq!(m.markers[0].date.unwrap().second, 45);
    let no_infos = "id\n[Common Infos]\nDataFile=rec.eeg\n";
    assert_eq!(Marker::parse(no_infos).unwrap_err(), MarkerFileError::MissingMarkerInfos);
    let no_file = "id\n[Common Infos]\nCodepage=UTF-8\n[Marker Infos]\n";
    assert_eq!(Marker::parse(no_file).unwrap_err(), MarkerFileError::MissingDataFile);
    let bad = "id\n[Common Infos]\nDataFile=a\n[Marker Infos]\nMk1=Stimulus\n";
    assert_eq!(Marker::parse(bad).unwrap_err(), MarkerFileError::BadMarker);
    assert_eq!(Marker::parse("id\n[Other]\nx=1\n").unwrap_err(), MarkerFileError::MissingCommonInfos);
    assert_eq!(Marker::parse("id\nfoo").unwrap_err(), MarkerFileError::Syntax);
}

#[test]
fn binary_formats() {
    assert_eq!(BinaryFormatType::from_name("IEEE_FLOAT_32"), Some(BinaryFormatType::IeeeFloat32));
    assert_eq!(BinaryFormatType::from_name("INT_16"), Some(BinaryFormatType::Int16));
    assert_eq!(BinaryFormatType::from_name("INT_32"), None);
    assert_eq!(BinaryFormatType::Int16.bytes(), 2);
    assert_eq!(BinaryFormat::IeeeFloat32.bytes(), 4);
    assert!(str_eq("abc", "abc"));
    assert!(!str_eq("abc", "abd"));
}

#[test]
fn little_endian_samples() {
    assert_eq!(decode_i16_le(&vec![0x01, 0x00, 0xff, 0xff, 0x00, 0x80, 0x7f]), vec![1, -1, i16::MIN]);
    assert_eq!(decode_u32_le(&vec![0x00, 0x00, 0x80, 0x3f, 0x01]), vec![0x3f80_0000]);
    assert_eq!(f32::from_bits(decode_u32_le(&vec![0x00, 0x00, 0x80, 0x3f])[0]), 1.0f32);
}

#[test]
fn channel_layouts() {
    let samples = vec![1, 2, 3, 4, 5, 6];
    assert_eq!(demultiplex(&samples, 2).unwrap(), vec![vec![1, 3, 5], vec![2, 4, 6]]);
    assert_eq!(split_channels(&samples, 2).unwrap(), vec![vec![1, 2, 3], vec![4, 5, 6]]);
    assert_eq!(demultiplex(&samples, 3).unwrap(), vec![vec![1, 4], vec![2, 5], vec![3, 6]]);
    assert!(demultiplex(&samples, 4).is_none());
    assert!(split_channels(&samples, 0).is_none());
}

fn entries(averaged: Option<&str>, seg: Option<&str>, points: Option<&str>) -> HeaderEntries {
    HeaderEntries {
        data_file: Some("rec.eeg".to_string()),
        marker_file: Some("rec.vmrk".to_string()),
        number_of_channels: Some("32".to_string()),
        sampling_interval: Some("1000".to_string()),
        averaged: averaged.map(|s| s.to_string()),
        averaged_segments: Some("10".to_string()),
        segmentation_type: seg.map(|s| s.to_string()),
        segment_data_points: points.map(|s| s.to_string()),
        binary_format: Some("INT_16".to_string()),
    }
}

#[test]
fn header_layout() {
    let h = HeaderInfo::from_entries(&entries(None, None, None)).unwrap();
    assert_eq!(h.num_channels, 32);
    assert_eq!(h.sampling_interval, "1000");
    assert!(!h.averaged);
    assert_eq!((h.averaged_segms, h.segment_data_points), (0, 0));
    assert_eq!(h.segmentation_type, "NOTSEGMENTED");
    assert_eq!(h.binary_format, BinaryFormatType::Int16);
    let a = HeaderInfo::from_entries(&entries(Some("YES"), Some("MARKERBASED"), Some("256"))).unwrap();
    assert!(a.averaged);
    assert_eq!((a.averaged_segms, a.segment_data_points), (10, 256));
    assert_eq!(a.segmentation_type, "MARKERBASED");
    let n = HeaderInfo::from_entries(&entries(Some("NO"), Some("MARKERBASED"), None)).unwrap();
    assert!(!n.averaged);
    assert_eq!(n.segmentation_type, "NOTSEGMENTED");
}

#[test]
fn header_errors() {
    let missing = HeaderInfo::from_entries(&entries(Some("YES"), None, None));
    assert_eq!(missing.unwrap_err(), HeaderError::MissingSegmentationType);
    let points = HeaderInfo::from_entries(&entries(Some("YES"), Some("MARKERBASED"), None));
    assert_eq!(points.unwrap_err(), HeaderError::BadSegmentDataPoints);
    let mut e = entries(None, None, None);
    e.binary_format = Some("INT_32".to_string());
    assert_eq!(HeaderInfo::from_entries(&e).unwrap_err(), HeaderError::BadBinaryFormat);
    let mut e = entries(None, None, None);
    e.number_of_channels = Some("many".to_string());
    assert_eq!(HeaderInfo::from_entries(&e).unwrap_err(), HeaderError::BadNumberOfChannels);
    let mut e = entries(None, None, None);
    e.sampling_interval = None;
    assert_eq!(HeaderInfo::from_entries(&e).unwrap_err(), HeaderError::MissingSamplingInterval);
    let mut e = entries(None, None, None);
    e.data_file = None;
    assert_eq!(HeaderInfo::from_entries(&e).unwrap_err(), HeaderError::MissingDataFile);
    let mut e = entries(None, None, None);
    e.marker_file = None;
    assert_eq!(HeaderInfo::from_entries(&e).unwrap_err(), HeaderError::MissingMarkerFile);
    let mut e = entries(Some("YES"), Some("NOTSEGMENTED"), None);
    e.averaged_segments = None;
    assert_eq!(HeaderInfo::from_entries(&e).unwrap_err(), HeaderError::BadAveragedSegments);
}

const HEADER: &str = "Brain Vision Data Exchange Header File Version 1.0\r\n\
; comment line\r\n\
[Common Infos]\r\nCodepage=UTF-8\r\nDataFile=sub-01_task-rest_eeg.eeg\r\n\
MarkerFile=sub-01_task-rest_eeg.vmrk\r\nDataFormat=BINARY\r\nDataOrientation=MULTIPLEXED\r\n\
NumberOfChannels=2\r\nSamplingInterval=2000\r\n\r\n\
[Binary Infos]\r\nBinaryFormat=IEEE_FLOAT_32\r\n\r\n\
[Channel Infos]\r\nCh1=Fp1,,0.1,µV\r\nCh2=Fp2,,,\r\n\r\n\
[Coordinates]\r\nCh1=1,-90,-72\r\nCh2=1,90,72\r\n\r\n\
[Comment]\r\n";

#[test]
fn header_file() {
    let h = HeaderFile::parse(HEADER).unwrap();
    assert_eq!(h.info.data_file, "sub-01_task-rest_eeg.eeg");
    assert_eq!(h.info.marker_file, "sub-01_task-rest_eeg.vmrk");
    assert_eq!(h.info.num_channels, 2);
    assert_eq!(h.info.sampling_interval, "2000");
    assert_eq!(h.info.binary_format, BinaryFormatType::IeeeFloat32);
    assert_eq!(h.channel_lines, vec!["Fp1,,0.1,µV", "Fp2,,,"]);
    assert_eq!(h.coordinate_lines.unwrap(), vec!["1,-90,-72", "1,90,72"]);
    assert_eq!(h.comment.unwrap(), "\r\n");
}

#[test]
fn header_file_errors() {
    let no_binary = "id\n[Common Infos]\nDataFile=a\n[Channel Infos]\n";
    assert_eq!(HeaderFile::parse(no_binary).unwrap_err(), HeaderFileError::MissingBinaryInfos);
    let no_channels = "id\n[Common Infos]\nDataFile=a\n[Binary Infos]\nBinaryFormat=INT_16\n";
    assert_eq!(HeaderFile::parse(no_channels).unwrap_err(), HeaderFileError::MissingChannelInfos);
    let no_marker = "id\n[Common Infos]\nDataFile=a\n[Binary Infos]\nBinaryFormat=INT_16\n[Channel Infos]\n";
    assert_eq!(
        HeaderFile::parse(no_marker).unwrap_err(),
        HeaderFileError::Header(HeaderError::MissingMarkerFile)
    );
    assert_eq!(HeaderFile::parse("only one line").unwrap_err(), HeaderFileError::MissingCommonInfos);
    assert_eq!(HeaderFile::parse("id\n[Common Infos\n").unwrap_err(), HeaderFileError::Syntax);
}

#[test]
fn text_around_sections() {
    assert_eq!(skip_first_line("id\nrest\nmore"), "rest\nmore");
    assert_eq!(skip_first_line("no line feed"), "");
    assert_eq!(text_after("a[Comment]b[Comment]c", "[Comment]").unwrap(), "b[Comment]c");
    assert!(text_after("abc", "[Comment]").is_none());
}

#[test]
fn bids_locations() {
    let p = BIDSPath::new("/data", "01", Some("2"), "eeg");
    assert_eq!(p.path, vec!["/data", "sub-01", "ses-2", "eeg"]);
    assert_eq!(
        p.file_name("rest", Some("hi"), Some("3"), "vhdr"),
        "sub-01_ses-2_task-rest_acq-hi_run-3_eeg.vhdr"
    );
    let q = BIDSPath::new("root", "ab", None, "eeg");
    assert_eq!(q.path, vec!["root", "sub-ab", "eeg"]);
    assert_eq!(q.file_name("rest", None, None, "vmrk"), "sub-ab_task-rest_eeg.vmrk");
}

#[test]
fn channel_lines() {
    let c = ChannelText::parse("Fp1,,0.1,").unwrap();
    assert_eq!(c.name, "Fp1");
    assert_eq!(c.ref_name, "Cz");
    assert_eq!(c.resolution.as_deref(), Some("0.1"));
    assert_eq!(c.unit, "μV");
    let d = ChannelText::parse("O2,Ref,,mV").unwrap();
    assert_eq!(d.ref_name, "Ref");
    assert!(d.resolution.is_none());
    assert_eq!(d.unit, "mV");
    assert!(ChannelText::parse("Fp1,,0.1").is_none());
}
