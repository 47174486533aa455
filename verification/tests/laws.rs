use buffa::encoding::{encode_varint, Tag, WireType};
use mediatime::varint::WireTag;
use mediatime::wire::WireError;
use mediatime::{
  ParseRateError, ParseSignedDurationError, Rate, SignedDuration, TimeRange, Timebase, Timestamp,
};

fn fields<T: std::fmt::Debug>(v: &T) -> String {
  format!("{v:?}")
}

#[test]
fn every_rendering_parses_back_field_for_field() {
  let tbs = [
    Timebase::new(2, 4),
    Timebase::new(0, 7),
    Timebase::new(i32::MAX, 1),
    Timebase::new(1001, 30_000),
  ];
  for tb in tbs {
    assert_eq!(fields(&Timebase::parse(&tb.to_string()).unwrap()), fields(&tb));
    for count in [0i64, -1, 42, i64::MIN, i64::MAX] {
      let ts = Timestamp::new(count, tb);
      assert_eq!(fields(&Timestamp::parse(&ts.to_exact_string()).unwrap()), fields(&ts));
      let span = SignedDuration::new(count, tb);
      assert_eq!(fields(&span.to_string().parse::<SignedDuration>().unwrap()), fields(&span));
    }
    let range = TimeRange::new(-3, 9, tb);
    assert_eq!(fields(&TimeRange::parse(&range.to_exact_string()).unwrap()), fields(&range));
  }
  let rate = Rate::fps(60_000, 2002);
  assert_eq!(fields(&Rate::parse(&rate.to_string()).unwrap()), fields(&rate));
}

#[test]
fn rate_and_span_parse_errors() {
  // The rosters are disjoint: a timebase name is no rate.
  assert_eq!(Rate::parse("MILLIS"), Err(ParseRateError(())));
  assert_eq!("FPS_24".parse::<Timebase>().is_err(), true);
  assert_eq!(Rate::parse(" fps_24 "), Ok(Rate::FPS_24()));
  assert_eq!("1500 1/1000".parse::<SignedDuration>(), Err(ParseSignedDurationError(())));
  assert_eq!("1/0".parse::<Rate>(), Err(ParseRateError(())));
  assert_eq!(
    ParseRateError(()).to_string(),
    "expected a rate `num/den` with num >= 0 and den > 0, or a well-known rate name"
  );
  assert_eq!(
    ParseSignedDurationError(()).to_string(),
    "expected a signed duration `ticks @ num/den`"
  );
}

#[test]
fn parse_reads_signs_and_unicode_whitespace() {
  assert_eq!(fields(&"+7 @ 1/2".parse::<Timestamp>().unwrap()), fields(&Timestamp::new(7, Timebase::new(1, 2))));
  assert!("- 7 @ 1/2".parse::<Timestamp>().is_err());
  assert!("-+7 @ 1/2".parse::<Timestamp>().is_err());
  // U+3000 IDEOGRAPHIC SPACE and U+00A0 NO-BREAK SPACE are whitespace to `trim`.
  assert_eq!(fields(&"\u{3000}1/1000\u{a0}".parse::<Timebase>().unwrap()), fields(&Timebase::new(1, 1000)));
  assert_eq!(fields(&"-9223372036854775808 @ 1/1".parse::<Timestamp>().unwrap()), fields(&Timestamp::new(i64::MIN, Timebase::SECONDS())));
  assert!("-9223372036854775809 @ 1/1".parse::<Timestamp>().is_err());
  assert!("99999999999999999999999999 @ 1/1".parse::<Timestamp>().is_err());
}

#[test]
fn a_named_timebase_reads_back_from_its_name() {
  let declared = Timebase::new(3, 270_000);
  let name = declared.well_known_name().expect("answers to a name");
  assert_eq!(name, "MPEG_90K");
  assert_eq!(Timebase::from_name(name), Some(declared));
  let rate = Rate::fps(120_000, 4004);
  let name = rate.well_known_name().expect("answers to a name");
  assert_eq!(Rate::from_name(name), Some(rate));
}

#[test]
fn the_rosters_share_no_name() {
  for name in ["FPS_23_976", "FPS_24", "fps_60"] {
    assert_eq!(Timebase::from_name(name), None);
  }
  for name in ["MILLIS", "FILM_24", "ntsc_video"] {
    assert_eq!(Rate::from_name(name), None);
  }
}

#[test]
fn the_rate_roster_reciprocates_onto_the_frame_intervals() {
  let pairs = [
    (Rate::FPS_23_976(), Timebase::NTSC_FILM()),
    (Rate::FPS_24(), Timebase::FILM_24()),
    (Rate::FPS_25(), Timebase::PAL_25()),
    (Rate::FPS_29_97(), Timebase::NTSC_VIDEO()),
    (Rate::FPS_30(), Timebase::VIDEO_30()),
    (Rate::FPS_50(), Timebase::PAL_50()),
    (Rate::FPS_59_94(), Timebase::NTSC_60()),
    (Rate::FPS_60(), Timebase::VIDEO_60()),
  ];
  for (rate, tb) in pairs {
    assert_eq!(fields(&rate.to_timebase()), fields(&tb));
    assert_eq!(fields(&Rate::from_timebase(tb)), fields(&rate));
  }
}

#[test]
fn a_rescaled_range_still_runs_forwards() {
  let ms = Timebase::MILLIS();
  let thirds = Timebase::new(1, 3);
  for (start, end) in [(1, 2), (-2, -1), (-500, 499), (166, 167), (i64::MIN, i64::MAX)] {
    let r = TimeRange::new(start, end, ms).rescale_to(thirds);
    assert!(r.start_pts() <= r.end_pts(), "{start}..{end}");
  }
  let wide = TimeRange::new(-3, 3, Timebase::new(i32::MAX, 1)).rescale_to(Timebase::new(1, i32::MAX));
  assert_eq!((wide.start_pts(), wide.end_pts()), (i64::MIN, i64::MAX));
}

#[test]
fn spans_in_one_timebase_add_and_subtract_exactly() {
  let degenerate = Timebase::new(0, 9);
  let a = SignedDuration::new(i64::MAX - 5, degenerate);
  let b = SignedDuration::new(5, degenerate);
  let sum = a.checked_add(b).expect("fits");
  assert_eq!(sum.checked_sub(b), Some(a));
  let t = Timestamp::new(-40, degenerate);
  let shifted = t.checked_add_signed(b).expect("fits");
  assert_eq!(shifted.signed_duration_since(&t).ticks(), 5);
}

#[test]
fn clock_rendering_of_exact_values() {
  assert_eq!(Timestamp::new(3_599_999, Timebase::MILLIS()).to_string(), "0:59:59.999");
  assert_eq!(Timestamp::new(-3_600_000, Timebase::MILLIS()).to_string(), "-1:00:00.000");
  assert_eq!(Timestamp::new(1, Timebase::new(1001, 1)).to_string(), "0:16:41.000");
  assert_eq!(Timestamp::new(7, Timebase::new(1, 3)).to_string(), "0:00:02.333");
  assert_eq!(Timestamp::new(-7, Timebase::new(1, 3)).to_string(), "-0:00:02.333");
  assert_eq!(SignedDuration::new(-1500, Timebase::MILLIS()).to_string(), "-1500 @ 1/1000");
}

#[test]
fn wire_sizes_match_what_is_written() {
  let tb = Timebase::new(30_000, 1001);
  assert_eq!(tb.compute_size(), 7);
  assert_eq!(tb.compute_size() as usize, tb.encode_to_vec().len());
  for range in [
    TimeRange::new(0, 0, Timebase::default()),
    TimeRange::new(-5, 5, tb),
    TimeRange::new(i64::MIN, i64::MAX, Timebase::new(i32::MAX, i32::MAX)),
  ] {
    assert_eq!(range.compute_size() as usize, range.encode_to_vec().len());
  }
  for ts in [Timestamp::new(0, tb), Timestamp::new(-1, tb), Timestamp::new(i64::MAX, tb)] {
    assert_eq!(ts.compute_size() as usize, ts.encode_to_vec().len());
  }
  // A negative count is ten bytes of varint.
  assert_eq!(Timestamp::new(-1, Timebase::new(1, 1)).encode_to_vec(), b"\x08\xff\xff\xff\xff\xff\xff\xff\xff\xff\x01\x12\x04\x08\x01\x10\x01");
}

#[test]
fn wire_round_trips_at_the_edges() {
  let tb = Timebase::new(i32::MAX, i32::MAX);
  for range in [TimeRange::new(i64::MIN, i64::MAX, tb), TimeRange::new(0, 7, Timebase::new(0, 1))] {
    let back = TimeRange::decode_from_slice(&range.encode_to_vec()).expect("decodes");
    assert_eq!(fields(&back), fields(&range));
  }
  for pts in [i64::MIN, -1, 0, 1, i64::MAX] {
    let ts = Timestamp::new(pts, tb);
    let back = Timestamp::decode_from_slice(&ts.encode_to_vec()).expect("decodes");
    assert_eq!(fields(&back), fields(&ts));
  }
}

#[test]
fn wire_decoding_reads_ranges_backwards_and_fields_in_any_order() {
  // A range decoded field by field is not checked for order.
  let mut buf: Vec<u8> = Vec::new();
  Tag::new(2, WireType::Varint).encode(&mut buf);
  encode_varint(3, &mut buf);
  Tag::new(1, WireType::Varint).encode(&mut buf);
  encode_varint(9, &mut buf);
  let r = TimeRange::decode_from_slice(&buf).expect("decodes");
  assert_eq!((r.start_pts(), r.end_pts()), (9, 3));
  // Later fields win.
  let mut buf: Vec<u8> = Vec::new();
  Tag::new(1, WireType::Varint).encode(&mut buf);
  encode_varint(4, &mut buf);
  Tag::new(1, WireType::Varint).encode(&mut buf);
  encode_varint(5, &mut buf);
  assert_eq!(Timebase::decode_from_slice(&buf).expect("decodes").num(), 5);
  assert_eq!(fields(&Timebase::decode_from_slice(&[]).unwrap()), fields(&Timebase::default()));
}

#[test]
fn wire_errors_name_what_went_wrong() {
  // A nested timebase that declares more bytes than there are.
  let mut buf: Vec<u8> = Vec::new();
  Tag::new(2, WireType::LengthDelimited).encode(&mut buf);
  encode_varint(5, &mut buf);
  buf.extend_from_slice(&[0x08, 0x01]);
  assert!(matches!(Timestamp::decode_from_slice(&buf), Err(WireError::UnexpectedEof)));

  // A nested timebase past protobuf's 2 GiB bound.
  let mut buf: Vec<u8> = Vec::new();
  Tag::new(3, WireType::LengthDelimited).encode(&mut buf);
  encode_varint(0x8000_0000, &mut buf);
  assert!(matches!(TimeRange::decode_from_slice(&buf), Err(WireError::MessageTooLarge)));

  // A varint cut short runs out of bytes.
  assert!(matches!(Timebase::decode_from_slice(&[0x08, 0x80]), Err(WireError::UnexpectedEof)));

  // No nesting budget left.
  let mut tb = Timebase::default();
  let mut rest: &[u8] = &[0x00];
  assert!(matches!(tb.merge_length_delimited(&mut rest, 0), Err(WireError::RecursionLimitExceeded)));
}

#[test]
fn ticks_of_a_nanosecond_or_more_survive_the_trip_through_duration() {
  // 48 kHz and NTSC ticks are not whole nanoseconds, and a 1/700_000_000 tick
  // lasts under two; each count still comes back.
  for tb in [
    Timebase::new(1, 48_000),
    Timebase::new(1001, 30_000),
    Timebase::new(1, 700_000_000),
    Timebase::new(1, 1_000_000_000),
  ] {
    for pts in [0i64, 1, 2, 3, 7, 1_000, 4_294_967_295] {
      let d = tb.checked_pts_to_duration(pts).expect("fits a Duration");
      assert_eq!(tb.checked_duration_to_pts(d), Some(pts));
    }
  }
}

#[test]
fn the_shift_rungs_agree_where_the_checked_one_answers() {
  let ms = Timebase::new(1, 1000);
  let ts = Timestamp::new(41, ms);
  let span = SignedDuration::new(3, Timebase::new(1, 90_000));
  let checked = ts.checked_add_signed(span).expect("fits");
  assert_eq!(ts.saturating_add_signed(span).pts(), checked.pts());
  let checked = ts.checked_sub_signed(span).expect("fits");
  assert_eq!(ts.saturating_sub_signed(span).pts(), checked.pts());
  let top = Timestamp::new(i64::MAX, ms);
  let one = SignedDuration::new(1, ms);
  assert!(top.checked_add_signed(one).is_none());
  assert_eq!(top.saturating_add_signed(one).pts(), i64::MAX);
  let sum = SignedDuration::new(5, ms).checked_add(one).expect("fits");
  assert_eq!(fields(&SignedDuration::new(5, ms).saturating_add(one)), fields(&sum));
}

#[test]
fn fields_after_an_encoding_merge_into_what_it_decodes_to() {
  let ts = Timestamp::new(-99, Timebase::new(24_000, 1001));
  let mut buf = ts.encode_to_vec();
  Tag::new(6, WireType::Varint).encode(&mut buf);
  encode_varint(7, &mut buf);
  assert_eq!(fields(&Timestamp::decode_from_slice(&buf).unwrap()), fields(&ts));
  Tag::new(1, WireType::Varint).encode(&mut buf);
  encode_varint(12, &mut buf);
  let d = Timestamp::decode_from_slice(&buf).unwrap();
  assert_eq!(d.pts(), 12);
  assert_eq!(fields(&d.timebase()), fields(&ts.timebase()));
}

#[test]
fn malformed_input_names_the_decoders_own_error() {
  // A varint whose tenth byte carries more than bit 63.
  let mut too_long = vec![0x08u8];
  too_long.extend_from_slice(&[0xFF; 9]);
  too_long.push(0x02);
  assert!(matches!(Timebase::decode_from_slice(&too_long), Err(WireError::VarintTooLong)));

  // Wire type 7 does not exist; field number 0 neither.
  assert!(matches!(Timestamp::decode_from_slice(&[0x0F]), Err(WireError::InvalidWireType(7))));
  assert!(matches!(TimeRange::decode_from_slice(&[0x00]), Err(WireError::InvalidFieldNumber)));

  // A closing group tag on its own, in an unknown field.
  assert!(matches!(Timebase::decode_from_slice(&[0x3C]), Err(WireError::InvalidWireType(4))));

  // A group of field 7 closed as field 8.
  assert!(matches!(Timebase::decode_from_slice(&[0x3B, 0x44]), Err(WireError::InvalidEndGroup(8))));

  // An unknown length-delimited field longer than what is left.
  assert!(matches!(Timestamp::decode_from_slice(&[0x32, 0x05, 0x00]), Err(WireError::UnexpectedEof)));
}

#[test]
fn a_refused_field_leaves_the_value_as_it_was() {
  // Field 1 of a timebase is a varint; here it claims to be length-delimited.
  let bytes = [0x0Au8, 0x01, 0x05];
  let mut buf: &[u8] = &bytes;
  let tag = WireTag::read(&mut buf).expect("a tag");
  assert_eq!((tag.field_number(), tag.wire_type()), (1, 2));
  let mut tb = Timebase::new(3, 7);
  let before = buf;
  assert!(matches!(
    tb.merge_field(&tag, &mut buf, 100),
    Err(WireError::WireTypeMismatch { field_number: 1, expected: 0, actual: 2 })
  ));
  assert_eq!((tb.num(), tb.den()), (3, 7));
  assert_eq!(buf, before);

  // And a well-typed one is merged.
  let bytes = [0x08u8, 0x05];
  let mut buf: &[u8] = &bytes;
  let tag = WireTag::read(&mut buf).expect("a tag");
  tb.merge_field(&tag, &mut buf, 100).expect("merged");
  assert_eq!((tb.num(), tb.den()), (5, 7));
  assert!(buf.is_empty());
}

#[test]
fn an_unknown_group_is_stepped_over_whole() {
  // Field 7 opens a group holding a field 1, closes it, then field 1 = 5:
  // the group's own field 1 is not the timebase's.
  let bytes = [0x3Bu8, 0x08, 0x09, 0x3C, 0x08, 0x05];
  let tb = Timebase::decode_from_slice(&bytes).expect("decodes");
  assert_eq!((tb.num(), tb.den()), (5, 1));
  // Nested groups past the budget are refused.
  let mut deep = Vec::new();
  for _ in 0..101 {
    deep.push(0x3Bu8);
  }
  assert!(matches!(Timebase::decode_from_slice(&deep), Err(WireError::RecursionLimitExceeded)));
}
