use rosu_v2::model::archive::date::{ArchivedDateUtc, DateWrapper};
use rosu_v2::model::archive::instant::DateTimeWrapper;
use rosu_v2::model::archive::map::{DateTimeMap, MapWith};
use rosu_v2::model::archive::root::{from_bytes, to_bytes};
use rosu_v2::model::date::CalendarDate;
use rosu_v2::model::instant::Instant;

fn instant(nanos: i128) -> Instant {
    Instant::from_unix_timestamp_nanos(nanos).expect("an instant in range")
}

fn date(year: i32, ordinal: u16) -> CalendarDate {
    CalendarDate::from_ordinal_date(year, ordinal).expect("a day of that year")
}

#[test]
fn instant_lies_as_rkyv_lays_out_i128() {
    for nanos in [0i128, 1, -1, 1_546_300_800_000_000_000, -377_705_116_800_000_000_000] {
        let ours = to_bytes::<DateTimeWrapper, Instant>(&instant(nanos)).unwrap();
        let theirs = rkyv::to_bytes::<i128, 64>(&nanos).unwrap();
        assert_eq!(ours.as_slice(), theirs.as_slice());
    }
}

#[test]
fn date_lies_as_rkyv_lays_out_i32() {
    for (year, ordinal) in [(2021, 100u16), (-44, 74), (0, 1), (9999, 365)] {
        let source = date(year, ordinal);
        let ours = to_bytes::<DateWrapper, CalendarDate>(&source).unwrap();
        let packed = ArchivedDateUtc::pack(&source).value();
        let theirs = rkyv::to_bytes::<i32, 64>(&packed).unwrap();
        assert_eq!(ours.as_slice(), theirs.as_slice());
    }
}

#[test]
fn sequence_lies_as_rkyv_lays_out_vec() {
    for counts in [vec![], vec![7i128], vec![3, -4, 5_000_000_000_000]] {
        let source: Vec<Instant> = counts.iter().map(|nanos| instant(*nanos)).collect();
        let ours = to_bytes::<DateTimeMap, Vec<Instant>>(&source).unwrap();
        let theirs = rkyv::to_bytes::<Vec<i128>, 256>(&counts).unwrap();
        assert_eq!(ours.as_slice(), theirs.as_slice());
    }
}

#[test]
fn sequence_of_dates_lies_as_rkyv_lays_out_vec() {
    let source = vec![date(2000, 366), date(2001, 1), date(-1, 200)];
    let packed: Vec<i32> = source
        .iter()
        .map(|date| ArchivedDateUtc::pack(date).value())
        .collect();
    let ours = to_bytes::<MapWith<DateWrapper>, Vec<CalendarDate>>(&source).unwrap();
    let theirs = rkyv::to_bytes::<Vec<i32>, 256>(&packed).unwrap();
    assert_eq!(ours.as_slice(), theirs.as_slice());
}

#[test]
fn optional_lies_as_rkyv_lays_out_option() {
    for count in [None, Some(0i128), Some(-99), Some(1 << 60)] {
        let source: Option<Instant> = count.map(instant);
        let ours = to_bytes::<DateTimeMap, Option<Instant>>(&source).unwrap();
        let theirs = rkyv::to_bytes::<Option<i128>, 256>(&count).unwrap();
        assert_eq!(ours.as_slice(), theirs.as_slice());
    }
    for day in [None, Some(date(1999, 31))] {
        let packed: Option<i32> = day.map(|date| ArchivedDateUtc::pack(&date).value());
        let ours = to_bytes::<MapWith<DateWrapper>, Option<CalendarDate>>(&day).unwrap();
        let theirs = rkyv::to_bytes::<Option<i32>, 256>(&packed).unwrap();
        assert_eq!(ours.as_slice(), theirs.as_slice());
    }
}

#[test]
fn nested_values_lie_as_rkyv_lays_them_out() {
    let counts = vec![Some(vec![1i128, 2]), None, Some(vec![]), Some(vec![-3])];
    let source: Vec<Option<Vec<Instant>>> = counts
        .iter()
        .map(|inner| {
            inner
                .as_ref()
                .map(|inner| inner.iter().map(|nanos| instant(*nanos)).collect())
        })
        .collect();
    let ours =
        to_bytes::<MapWith<MapWith<DateTimeMap>>, Vec<Option<Vec<Instant>>>>(&source).unwrap();
    let theirs = rkyv::to_bytes::<Vec<Option<Vec<i128>>>, 256>(&counts).unwrap();
    assert_eq!(ours.as_slice(), theirs.as_slice());
    assert_eq!(
        from_bytes::<MapWith<MapWith<DateTimeMap>>, Vec<Option<Vec<Instant>>>>(theirs.as_slice()),
        Ok(source)
    );
}

#[test]
fn sequence_behind_other_data_lies_as_rkyv_lays_it_out() {
    let pairs = vec![vec![1i32, 2, 3], vec![], vec![4]];
    let source: Vec<Vec<CalendarDate>> = vec![
        vec![date(0, 1), date(0, 2), date(0, 3)],
        vec![],
        vec![date(0, 4)],
    ];
    let ours =
        to_bytes::<MapWith<MapWith<DateWrapper>>, Vec<Vec<CalendarDate>>>(&source).unwrap();
    let theirs = rkyv::to_bytes::<Vec<Vec<i32>>, 256>(&pairs).unwrap();
    assert_eq!(ours.as_slice(), theirs.as_slice());
}
