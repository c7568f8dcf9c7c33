use rosu_v2::model::archive::adapter::ArchiveWith;
use rosu_v2::model::archive::date::{ArchivedDateUtc, DateWrapper};
use rosu_v2::model::archive::error::{DecodeError, EncodeError};
use rosu_v2::model::archive::instant::DateTimeWrapper;
use rosu_v2::model::archive::layout::{padding_for, put_zeros, MAX_ARCHIVE_LEN};
use rosu_v2::model::archive::map::{DateTimeMap, MapWith, UsernameMap, UsernameMapMap};
use rosu_v2::model::archive::root::{from_bytes, to_bytes};
use rosu_v2::model::archive::sequence::{archived_seq, SeqSpan, VecResolver};
use rosu_v2::model::archive::text::{
    archived_str, CountryCodeWrapper, StringResolver, UsernameWrapper,
};
use rosu_v2::model::date::CalendarDate;
use rosu_v2::model::instant::{Instant, MAX_UNIX_NANOS, MIN_UNIX_NANOS};
use rosu_v2::model::text::{CountryCode, Username};

fn date(year: i32, ordinal: u16) -> CalendarDate {
    CalendarDate::from_ordinal_date(year, ordinal).expect("a day of that year")
}

fn instant(nanos: i128) -> Instant {
    Instant::from_unix_timestamp_nanos(nanos).expect("an instant in range")
}

fn names(texts: &[&str]) -> Vec<Username> {
    texts.iter().map(|text| Username::from_str(text)).collect()
}

#[test]
fn country_code_round_trip() {
    let code = CountryCode::from_str("JP");
    let bytes = to_bytes::<CountryCodeWrapper, CountryCode>(&code).unwrap();
    assert_eq!(from_bytes::<CountryCodeWrapper, CountryCode>(&bytes), Ok(code));
}

#[test]
fn country_code_bytes() {
    let code = CountryCode::from_str("JP");
    let bytes = to_bytes::<CountryCodeWrapper, CountryCode>(&code).unwrap();
    assert_eq!(
        bytes,
        vec![0x4A, 0x50, 0, 0, 0xFC, 0xFF, 0xFF, 0xFF, 2, 0, 0, 0]
    );
}

#[test]
fn username_round_trip_keeps_text_as_it_is() {
    for text in ["", "peppy", "  Mixed Case_42 ", "ユーザー名", "🎵 beat"] {
        let name = Username::from_str(text);
        let bytes = to_bytes::<UsernameWrapper, Username>(&name).unwrap();
        let back = from_bytes::<UsernameWrapper, Username>(&bytes).unwrap();
        assert_eq!(back.as_str(), text);
    }
}

#[test]
fn empty_text_bytes() {
    let bytes = to_bytes::<UsernameWrapper, Username>(&Username::from_str("")).unwrap();
    assert_eq!(bytes, vec![0u8; 8]);
}

#[test]
fn text_serialize_returns_position_of_bytes() {
    let mut buf = vec![9u8, 9, 9];
    let code = CountryCode::from_str("DE");
    let resolver = CountryCodeWrapper::serialize_with(&code, &mut buf).unwrap();
    assert_eq!(resolver, StringResolver { pos: 3 });
    assert_eq!(buf, vec![9, 9, 9, b'D', b'E']);
}

#[test]
fn text_header_holds_relative_offset() {
    let code = CountryCode::from_str("DE");
    let mut out = Vec::new();
    CountryCodeWrapper::resolve_with(&code, 20, StringResolver { pos: 3 }, &mut out);
    assert_eq!(out, vec![0xEF, 0xFF, 0xFF, 0xFF, 2, 0, 0, 0]);
    let mut forward = Vec::new();
    CountryCodeWrapper::resolve_with(&code, 4, StringResolver { pos: 260 }, &mut forward);
    assert_eq!(forward, vec![0, 1, 0, 0, 2, 0, 0, 0]);
}

#[test]
fn archive_is_relocatable() {
    let name = Username::from_str("cookiezi");
    let mut buf = vec![0xAAu8; 13];
    let resolver = UsernameWrapper::serialize_with(&name, &mut buf).unwrap();
    let pad = padding_for(buf.len(), 4);
    put_zeros(&mut buf, pad);
    let pos = buf.len();
    UsernameWrapper::resolve_with(&name, pos, resolver, &mut buf);
    assert_eq!(UsernameWrapper::deserialize_with(&buf, pos), Ok(name));
}

#[test]
fn text_is_read_in_place() {
    let name = Username::from_str("WubWoofWolf");
    let bytes = to_bytes::<UsernameWrapper, Username>(&name).unwrap();
    let text = archived_str(&bytes, bytes.len() - 8).unwrap();
    assert_eq!(text, "WubWoofWolf");
    assert_eq!(text.as_ptr(), bytes.as_ptr());
}

#[test]
fn text_that_is_not_utf8_is_rejected() {
    let bytes = vec![0xFF, 0xFE, 0, 0, 0xFC, 0xFF, 0xFF, 0xFF, 2, 0, 0, 0];
    assert_eq!(
        from_bytes::<UsernameWrapper, Username>(&bytes),
        Err(DecodeError::CorruptLength)
    );
}

#[test]
fn text_cut_inside_a_character_is_rejected() {
    let name = Username::from_str("é");
    let mut bytes = to_bytes::<UsernameWrapper, Username>(&name).unwrap();
    let len_at = bytes.len() - 4;
    bytes[len_at] = 1;
    assert_eq!(
        from_bytes::<UsernameWrapper, Username>(&bytes),
        Err(DecodeError::CorruptLength)
    );
}

#[test]
fn text_span_beyond_buffer_is_rejected() {
    let name = Username::from_str("abc");
    let mut bytes = to_bytes::<UsernameWrapper, Username>(&name).unwrap();
    let len_at = bytes.len() - 4;
    bytes[len_at] = 200;
    assert_eq!(
        from_bytes::<UsernameWrapper, Username>(&bytes),
        Err(DecodeError::CorruptLength)
    );
    let mut before = to_bytes::<UsernameWrapper, Username>(&name).unwrap();
    let offset_at = before.len() - 8;
    before[offset_at] = 0x00;
    before[offset_at + 1] = 0xFF;
    assert_eq!(
        from_bytes::<UsernameWrapper, Username>(&before),
        Err(DecodeError::CorruptLength)
    );
}

#[test]
fn short_buffer_is_rejected() {
    assert_eq!(
        from_bytes::<UsernameWrapper, Username>(&[0u8; 7]),
        Err(DecodeError::CorruptLength)
    );
    assert_eq!(
        from_bytes::<DateWrapper, CalendarDate>(&[0u8; 3]),
        Err(DecodeError::CorruptLength)
    );
    assert_eq!(
        from_bytes::<DateTimeWrapper, Instant>(&[0u8; 15]),
        Err(DecodeError::CorruptLength)
    );
    assert_eq!(
        from_bytes::<UsernameMap, Vec<Username>>(&[]),
        Err(DecodeError::CorruptLength)
    );
    assert_eq!(
        from_bytes::<UsernameMap, Option<Username>>(&[0u8; 11]),
        Err(DecodeError::CorruptLength)
    );
    assert_eq!(
        UsernameWrapper::deserialize_with(&[0u8; 16], 9),
        Err(DecodeError::CorruptLength)
    );
    assert_eq!(
        DateWrapper::deserialize_with(&[0u8; 16], usize::MAX),
        Err(DecodeError::CorruptLength)
    );
}

#[test]
fn sequence_round_trip_in_every_order() {
    let orders = [
        ["a", "b", "c"],
        ["a", "c", "b"],
        ["b", "a", "c"],
        ["b", "c", "a"],
        ["c", "a", "b"],
        ["c", "b", "a"],
    ];
    for order in orders {
        let source = names(&order);
        let bytes = to_bytes::<UsernameMap, Vec<Username>>(&source).unwrap();
        let back = from_bytes::<UsernameMap, Vec<Username>>(&bytes).unwrap();
        let texts: Vec<&str> = back.iter().map(|name| name.as_str()).collect();
        assert_eq!(texts, order);
    }
}

#[test]
fn empty_sequence_round_trip() {
    let source: Vec<Username> = Vec::new();
    let bytes = to_bytes::<UsernameMap, Vec<Username>>(&source).unwrap();
    assert_eq!(bytes, vec![0u8; 8]);
    assert_eq!(from_bytes::<UsernameMap, Vec<Username>>(&bytes), Ok(source));
}

#[test]
fn sequence_bytes() {
    let source = names(&["ab", "c"]);
    let bytes = to_bytes::<UsernameMap, Vec<Username>>(&source).unwrap();
    let expected: Vec<u8> = vec![
        b'a', b'b', b'c', 0, // the texts, then padding
        0xFC, 0xFF, 0xFF, 0xFF, 2, 0, 0, 0, // "ab": 4 bytes back, 2 long
        0xF6, 0xFF, 0xFF, 0xFF, 1, 0, 0, 0, // "c": 10 bytes back, 1 long
        0xF0, 0xFF, 0xFF, 0xFF, 2, 0, 0, 0, // the sequence: 16 bytes back, 2 elements
    ];
    assert_eq!(bytes, expected);
}

#[test]
fn sequence_serialize_returns_position_of_headers() {
    let source = names(&["ab", "c"]);
    let mut buf = vec![7u8; 2];
    let resolver = <UsernameMap as ArchiveWith<Vec<Username>>>::serialize_with(&source, &mut buf)
        .unwrap();
    assert_eq!(resolver, VecResolver { pos: 8 });
    assert_eq!(buf.len(), 24);
    assert_eq!(&buf[..8], &[7, 7, b'a', b'b', b'c', 0, 0, 0]);
}

#[test]
fn sequence_is_read_in_place() {
    let source = names(&["ab", "c", "def"]);
    let bytes = to_bytes::<UsernameMap, Vec<Username>>(&source).unwrap();
    let span = archived_seq::<UsernameWrapper, Username>(&bytes, bytes.len() - 8).unwrap();
    assert_eq!(
        span,
        SeqSpan {
            array: 8,
            count: 3,
            stride: 8
        }
    );
    assert_eq!(archived_str(&bytes, span.array + 2 * span.stride), Ok("def"));
    assert_eq!(archived_str(&bytes, span.array), Ok("ab"));

    let empty = to_bytes::<DateTimeMap, Vec<Instant>>(&Vec::new()).unwrap();
    assert_eq!(
        archived_seq::<DateTimeWrapper, Instant>(&empty, 0),
        Ok(SeqSpan {
            array: 0,
            count: 0,
            stride: 0
        })
    );
    assert_eq!(
        archived_seq::<DateTimeWrapper, Instant>(&empty, 1),
        Err(DecodeError::CorruptLength)
    );
}

#[test]
fn sequence_of_instants_round_trip() {
    let source = vec![instant(0), instant(-1), instant(1_546_300_800_000_000_000)];
    let bytes = to_bytes::<DateTimeMap, Vec<Instant>>(&source).unwrap();
    assert_eq!(bytes.len(), 3 * 16 + 8);
    assert_eq!(from_bytes::<DateTimeMap, Vec<Instant>>(&bytes), Ok(source));
}

#[test]
fn nested_sequences_round_trip() {
    let source = vec![names(&["x", "yy"]), Vec::new(), names(&["zzz"])];
    let bytes = to_bytes::<UsernameMapMap, Vec<Vec<Username>>>(&source).unwrap();
    assert_eq!(
        from_bytes::<UsernameMapMap, Vec<Vec<Username>>>(&bytes),
        Ok(source)
    );
}

#[test]
fn optional_sequence_round_trip() {
    let present = Some(names(&["one", "two"]));
    let bytes = to_bytes::<UsernameMapMap, Option<Vec<Username>>>(&present).unwrap();
    assert_eq!(
        from_bytes::<UsernameMapMap, Option<Vec<Username>>>(&bytes),
        Ok(present)
    );
    let absent: Option<Vec<Username>> = None;
    let bytes = to_bytes::<UsernameMapMap, Option<Vec<Username>>>(&absent).unwrap();
    assert_eq!(
        from_bytes::<UsernameMapMap, Option<Vec<Username>>>(&bytes),
        Ok(absent)
    );
}

#[test]
fn sequence_of_optionals_round_trip() {
    let source = vec![
        Some(Username::from_str("a")),
        None,
        Some(Username::from_str("bcd")),
    ];
    let bytes = to_bytes::<UsernameMapMap, Vec<Option<Username>>>(&source).unwrap();
    assert_eq!(
        from_bytes::<UsernameMapMap, Vec<Option<Username>>>(&bytes),
        Ok(source)
    );
}

#[test]
fn sequence_length_beyond_buffer_is_rejected() {
    let source = names(&["ab", "c"]);
    let mut bytes = to_bytes::<UsernameMap, Vec<Username>>(&source).unwrap();
    let len_at = bytes.len() - 4;
    bytes[len_at] = 3;
    assert_eq!(
        from_bytes::<UsernameMap, Vec<Username>>(&bytes),
        Err(DecodeError::CorruptLength)
    );
    bytes[len_at] = 0xFF;
    bytes[len_at + 1] = 0xFF;
    bytes[len_at + 2] = 0xFF;
    bytes[len_at + 3] = 0xFF;
    assert_eq!(
        from_bytes::<UsernameMap, Vec<Username>>(&bytes),
        Err(DecodeError::CorruptLength)
    );
}

#[test]
fn sequence_gives_error_of_first_bad_element() {
    let source = vec![Some(instant(5)), Some(instant(6))];
    let mut bytes = to_bytes::<MapWith<DateTimeMap>, Vec<Option<Instant>>>(&source).unwrap();
    // the two element headers are 32 bytes each and start the buffer
    bytes[32] = 7;
    assert_eq!(
        from_bytes::<MapWith<DateTimeMap>, Vec<Option<Instant>>>(&bytes),
        Err(DecodeError::InvalidTag)
    );
    let out_of_range = (MAX_UNIX_NANOS + 1).to_le_bytes();
    bytes[16..32].copy_from_slice(&out_of_range);
    assert_eq!(
        from_bytes::<MapWith<DateTimeMap>, Vec<Option<Instant>>>(&bytes),
        Err(DecodeError::OutOfRange)
    );
}

#[test]
fn optional_round_trip() {
    let present = Some(CountryCode::from_str("JP"));
    let bytes = to_bytes::<MapWith<CountryCodeWrapper>, Option<CountryCode>>(&present).unwrap();
    assert_eq!(
        from_bytes::<MapWith<CountryCodeWrapper>, Option<CountryCode>>(&bytes),
        Ok(present)
    );
    let absent: Option<CountryCode> = None;
    let bytes = to_bytes::<MapWith<CountryCodeWrapper>, Option<CountryCode>>(&absent).unwrap();
    assert_eq!(
        from_bytes::<MapWith<CountryCodeWrapper>, Option<CountryCode>>(&bytes),
        Ok(absent)
    );
}

#[test]
fn optional_bytes() {
    let present = Some(CountryCode::from_str("JP"));
    let bytes = to_bytes::<MapWith<CountryCodeWrapper>, Option<CountryCode>>(&present).unwrap();
    let expected: Vec<u8> = vec![
        b'J', b'P', 0, 0, // the text, then padding
        1, 0, 0, 0, // the tag, then padding up to the header of the text
        0xF8, 0xFF, 0xFF, 0xFF, 2, 0, 0, 0, // the text: 8 bytes back, 2 long
    ];
    assert_eq!(bytes, expected);
    let absent: Option<CountryCode> = None;
    let bytes = to_bytes::<MapWith<CountryCodeWrapper>, Option<CountryCode>>(&absent).unwrap();
    assert_eq!(bytes, vec![0u8; 12]);
}

#[test]
fn optional_instant_layout() {
    let present = Some(instant(1));
    let bytes = to_bytes::<DateTimeMap, Option<Instant>>(&present).unwrap();
    let mut expected = vec![0u8; 32];
    expected[0] = 1;
    expected[16] = 1;
    assert_eq!(bytes, expected);
    assert_eq!(
        <DateTimeMap as ArchiveWith<Option<Instant>>>::header_size(),
        Some(32)
    );
    assert_eq!(<DateTimeMap as ArchiveWith<Option<Instant>>>::header_align(), 16);
}

#[test]
fn optional_serialize_defers_resolver_of_value() {
    let mut buf = vec![1u8];
    let present = Some(Username::from_str("hi"));
    let resolver =
        <UsernameMap as ArchiveWith<Option<Username>>>::serialize_with(&present, &mut buf).unwrap();
    assert_eq!(resolver, Some(StringResolver { pos: 1 }));
    let absent: Option<Username> = None;
    let resolver =
        <UsernameMap as ArchiveWith<Option<Username>>>::serialize_with(&absent, &mut buf).unwrap();
    assert_eq!(resolver, None);
    assert_eq!(buf, vec![1, b'h', b'i']);
}

#[test]
fn optional_without_resolver_writes_only_the_tag() {
    let absent: Option<Username> = None;
    let mut out = vec![0xEEu8];
    <UsernameMap as ArchiveWith<Option<Username>>>::resolve_with(&absent, 40, None, &mut out);
    assert_eq!(out, vec![0xEE, 0, 0, 0, 0, 0, 0, 0, 0, 0, 0, 0, 0]);
}

#[test]
fn tag_two_is_invalid() {
    let absent: Option<CountryCode> = None;
    let mut bytes = to_bytes::<MapWith<CountryCodeWrapper>, Option<CountryCode>>(&absent).unwrap();
    bytes[0] = 2;
    assert_eq!(
        from_bytes::<MapWith<CountryCodeWrapper>, Option<CountryCode>>(&bytes),
        Err(DecodeError::InvalidTag)
    );
    bytes[0] = 0xFF;
    assert_eq!(
        from_bytes::<MapWith<CountryCodeWrapper>, Option<CountryCode>>(&bytes),
        Err(DecodeError::InvalidTag)
    );
}

#[test]
fn instant_round_trip_at_the_boundaries() {
    for nanos in [MIN_UNIX_NANOS, -1, 0, 1, 1_546_300_800_000_000_000, MAX_UNIX_NANOS] {
        let source = instant(nanos);
        let bytes = to_bytes::<DateTimeWrapper, Instant>(&source).unwrap();
        assert_eq!(bytes, nanos.to_le_bytes().to_vec());
        let back = from_bytes::<DateTimeWrapper, Instant>(&bytes).unwrap();
        assert_eq!(back.unix_timestamp_nanos(), nanos);
    }
}

#[test]
fn instant_beyond_the_boundaries_is_out_of_range() {
    for nanos in [MIN_UNIX_NANOS - 1, MAX_UNIX_NANOS + 1, i128::MIN, i128::MAX, 1i128 << 100] {
        assert_eq!(Instant::from_unix_timestamp_nanos(nanos), None);
        let bytes = nanos.to_le_bytes();
        assert_eq!(
            from_bytes::<DateTimeWrapper, Instant>(&bytes),
            Err(DecodeError::OutOfRange)
        );
    }
}

#[test]
fn instant_bytes() {
    let bytes = to_bytes::<DateTimeWrapper, Instant>(&instant(-2)).unwrap();
    let mut expected = vec![0xFFu8; 16];
    expected[0] = 0xFE;
    assert_eq!(bytes, expected);
    let bytes = to_bytes::<DateTimeWrapper, Instant>(&instant(0x0102)).unwrap();
    let mut expected = vec![0u8; 16];
    expected[0] = 2;
    expected[1] = 1;
    assert_eq!(bytes, expected);
}

#[test]
fn date_packs_year_above_nine_bits() {
    assert_eq!(ArchivedDateUtc::pack(&date(2021, 100)).value(), (2021 << 9) | 100);
    assert_eq!(ArchivedDateUtc::pack(&date(2021, 100)).value(), 1_034_852);
    assert_eq!(ArchivedDateUtc::pack(&date(0, 1)).value(), 1);
    assert_eq!(ArchivedDateUtc::pack(&date(-1, 365)).value(), -512 + 365);
    assert_eq!(ArchivedDateUtc::pack(&date(-9999, 1)).value(), -9999 * 512 + 1);
    assert_eq!(ArchivedDateUtc::pack(&date(9999, 365)).value(), 9999 * 512 + 365);
}

#[test]
fn date_bytes() {
    let bytes = to_bytes::<DateWrapper, CalendarDate>(&date(2021, 100)).unwrap();
    assert_eq!(bytes, vec![0x64, 0xCA, 0x0F, 0x00]);
    let bytes = to_bytes::<DateWrapper, CalendarDate>(&date(-1, 365)).unwrap();
    assert_eq!(bytes, (-147i32).to_le_bytes().to_vec());
}

#[test]
fn date_round_trip_for_every_day() {
    for year in -5000..5000 {
        for ordinal in [1u16, 2, 59, 60, 200, 365, 366] {
            let packed = (year << 9) | ordinal as i32;
            let unpacked = ArchivedDateUtc::new(packed).unpack();
            match CalendarDate::from_ordinal_date(year, ordinal) {
                Some(source) => {
                    assert_eq!(ArchivedDateUtc::pack(&source).value(), packed);
                    let back = unpacked.unwrap();
                    assert_eq!((back.year(), back.ordinal()), (year, ordinal));
                }
                None => {
                    assert_eq!(ordinal, 366);
                    assert_eq!(unpacked, Err(DecodeError::OutOfRange));
                }
            }
        }
    }
}

#[test]
fn date_with_ordinal_out_of_range_is_rejected() {
    for ordinal in [0, 367, 400, 511] {
        let packed = (2020 << 9) | ordinal;
        assert_eq!(
            ArchivedDateUtc::new(packed).unpack(),
            Err(DecodeError::OutOfRange)
        );
        assert_eq!(
            from_bytes::<DateWrapper, CalendarDate>(&packed.to_le_bytes()),
            Err(DecodeError::OutOfRange)
        );
    }
    assert_eq!(
        ArchivedDateUtc::new((2019 << 9) | 366).unpack(),
        Err(DecodeError::OutOfRange)
    );
    assert_eq!(
        ArchivedDateUtc::new((2020 << 9) | 366).unpack(),
        Ok(date(2020, 366))
    );
}

#[test]
fn date_with_year_out_of_range_is_rejected() {
    for packed in [(10_000 << 9) | 1, (-10_000 << 9) | 1, i32::MAX, i32::MIN] {
        assert_eq!(
            ArchivedDateUtc::new(packed).unpack(),
            Err(DecodeError::OutOfRange)
        );
    }
}

#[test]
fn negative_year_unpacks_with_its_sign() {
    let back = ArchivedDateUtc::new((-44 << 9) | 74).unpack().unwrap();
    assert_eq!((back.year(), back.ordinal()), (-44, 74));
}

#[test]
fn date_and_instant_have_no_payload() {
    let mut buf = vec![3u8, 4];
    assert_eq!(
        DateWrapper::serialize_with(&date(2000, 1), &mut buf),
        Ok(())
    );
    assert_eq!(
        DateTimeWrapper::serialize_with(&instant(0), &mut buf),
        Ok(())
    );
    assert_eq!(buf, vec![3, 4]);
}

#[test]
fn header_sizes_and_alignments() {
    assert_eq!(CountryCodeWrapper::header_size(), Some(8));
    assert_eq!(UsernameWrapper::header_align(), 4);
    assert_eq!(DateTimeWrapper::header_size(), Some(16));
    assert_eq!(DateTimeWrapper::header_align(), 16);
    assert_eq!(DateWrapper::header_size(), Some(4));
    assert_eq!(DateWrapper::header_align(), 4);
    assert_eq!(
        <UsernameMap as ArchiveWith<Vec<Username>>>::header_size(),
        Some(8)
    );
    assert_eq!(
        <UsernameMap as ArchiveWith<Option<Username>>>::header_size(),
        Some(12)
    );
    assert_eq!(
        <DateMap as ArchiveWith<Option<CalendarDate>>>::header_size(),
        Some(8)
    );
}

#[test]
fn archiving_twice_gives_the_same_bytes() {
    let source = vec![Some(names(&["a", "bb"])), None, Some(names(&[]))];
    let first = to_bytes::<MapWith<UsernameMapMap>, Vec<Option<Vec<Username>>>>(&source).unwrap();
    let second = to_bytes::<MapWith<UsernameMapMap>, Vec<Option<Vec<Username>>>>(&source).unwrap();
    assert_eq!(first, second);
    assert_eq!(
        from_bytes::<MapWith<UsernameMapMap>, Vec<Option<Vec<Username>>>>(&first),
        Ok(source)
    );
}

#[test]
fn full_buffer_is_out_of_space() {
    let mut buf = vec![0u8; MAX_ARCHIVE_LEN - 1];
    let name = Username::from_str("abc");
    assert_eq!(
        UsernameWrapper::serialize_with(&name, &mut buf),
        Err(EncodeError::OutOfSpace)
    );
    assert_eq!(buf.len(), MAX_ARCHIVE_LEN - 1);
    let source = names(&["", ""]);
    assert_eq!(
        <UsernameMap as ArchiveWith<Vec<Username>>>::serialize_with(&source, &mut buf),
        Err(EncodeError::OutOfSpace)
    );
    assert_eq!(buf.len(), MAX_ARCHIVE_LEN - 1);
    let empty = Username::from_str("");
    assert_eq!(
        UsernameWrapper::serialize_with(&empty, &mut buf),
        Ok(StringResolver { pos: MAX_ARCHIVE_LEN - 1 })
    );
    assert_eq!(buf.len(), MAX_ARCHIVE_LEN - 1);
}

type CountryMap = MapWith<CountryCodeWrapper>;
type DateMap = MapWith<DateWrapper>;

struct UserRecord {
    country: Option<CountryCode>,
    joined: Instant,
    birthday: Option<CalendarDate>,
}

fn archive_user(user: &UserRecord) -> (Vec<u8>, [usize; 3]) {
    let mut buf = Vec::new();
    let country = <CountryMap as ArchiveWith<Option<CountryCode>>>::serialize_with(
        &user.country,
        &mut buf,
    )
    .unwrap();
    let joined = DateTimeWrapper::serialize_with(&user.joined, &mut buf).unwrap();
    let birthday = <DateMap as ArchiveWith<Option<CalendarDate>>>::serialize_with(
        &user.birthday,
        &mut buf,
    )
    .unwrap();

    let pad = padding_for(buf.len(), 16);
    put_zeros(&mut buf, pad);
    let country_at = buf.len();
    <CountryMap as ArchiveWith<Option<CountryCode>>>::resolve_with(
        &user.country,
        country_at,
        country,
        &mut buf,
    );
    let pad = padding_for(buf.len(), 16);
    put_zeros(&mut buf, pad);
    let joined_at = buf.len();
    DateTimeWrapper::resolve_with(&user.joined, joined_at, joined, &mut buf);
    let birthday_at = buf.len();
    <DateMap as ArchiveWith<Option<CalendarDate>>>::resolve_with(
        &user.birthday,
        birthday_at,
        birthday,
        &mut buf,
    );
    (buf, [country_at, joined_at, birthday_at])
}

fn read_user(buf: &[u8], at: [usize; 3]) -> Result<UserRecord, DecodeError> {
    Ok(UserRecord {
        country: <CountryMap as ArchiveWith<Option<CountryCode>>>::deserialize_with(
            buf, at[0],
        )?,
        joined: DateTimeWrapper::deserialize_with(buf, at[1])?,
        birthday: <DateMap as ArchiveWith<Option<CalendarDate>>>::deserialize_with(
            buf, at[2],
        )?,
    })
}

#[test]
fn user_record_round_trip() {
    let alone = Some(CountryCode::from_str("JP"));
    let bytes = to_bytes::<MapWith<CountryCodeWrapper>, Option<CountryCode>>(&alone).unwrap();
    assert_eq!(
        from_bytes::<MapWith<CountryCodeWrapper>, Option<CountryCode>>(&bytes),
        Ok(alone)
    );

    let user = UserRecord {
        country: Some(CountryCode::from_str("JP")),
        joined: instant(1_354_320_000_123_456_789),
        birthday: None,
    };
    let (buf, at) = archive_user(&user);
    let back = read_user(&buf, at).unwrap();
    assert_eq!(back.country, Some(CountryCode::from_str("JP")));
    assert_eq!(back.joined, user.joined);
    assert_eq!(back.joined.unix_timestamp_nanos(), 1_354_320_000_123_456_789);
    assert_eq!(back.birthday, None);

    let mut moved = vec![0u8; 0];
    moved.extend_from_slice(&buf);
    let again = read_user(&moved, at).unwrap();
    assert_eq!(again.country, back.country);
}

#[test]
fn user_record_with_birthday_round_trip() {
    let user = UserRecord {
        country: None,
        joined: instant(-86_400_000_000_000),
        birthday: Some(date(1996, 366)),
    };
    let (buf, at) = archive_user(&user);
    let back = read_user(&buf, at).unwrap();
    assert_eq!(back.country, None);
    assert_eq!(back.joined, user.joined);
    assert_eq!(back.birthday, Some(date(1996, 366)));
}
