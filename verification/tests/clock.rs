use moq_pure::clock::civil::civil_from_unix;
use moq_pure::clock::decimal::push_padded;
use moq_pure::clock::publisher::{
    MinuteSender, Publication, PublishError, PublishMode, Publisher, PublisherRun,
};
use moq_pure::clock::subscriber::{object_line, SubgroupError, SubgroupPrinter, Subscriber};
use moq_pure::clock::utc::UtcClock;
use std::time::{Duration, UNIX_EPOCH};

const SECOND: u128 = 1_000_000_000;

fn at(secs: u128, nanos: u128) -> UtcClock {
    UtcClock { nanos: secs * SECOND + nanos }
}

fn datagrams(start: UtcClock) -> PublisherRun {
    let publisher: Publisher<(), u8> = Publisher::new_datagram(7);
    publisher.run(start)
}

fn subgroups(start: UtcClock) -> PublisherRun {
    let publisher: Publisher<u8, ()> = Publisher::new(7);
    publisher.run(start)
}

#[test]
fn unix_epoch_and_known_instants() {
    assert_eq!(civil_from_unix(0), (1970, 1, 1, 0, 0, 0));
    assert_eq!(civil_from_unix(1_000_000_000), (2001, 9, 9, 1, 46, 40));
    assert_eq!(civil_from_unix(1_700_000_000), (2023, 11, 14, 22, 13, 20));
}

#[test]
fn days_around_leap_years() {
    assert_eq!(civil_from_unix(951_782_400), (2000, 2, 29, 0, 0, 0));
    assert_eq!(civil_from_unix(951_868_799), (2000, 2, 29, 23, 59, 59));
    assert_eq!(civil_from_unix(951_868_800), (2000, 3, 1, 0, 0, 0));
    assert_eq!(civil_from_unix(4_107_542_399), (2100, 2, 28, 23, 59, 59));
    assert_eq!(civil_from_unix(4_107_542_400), (2100, 3, 1, 0, 0, 0));
}

#[test]
fn seconds_before_the_epoch() {
    assert_eq!(civil_from_unix(-1), (1969, 12, 31, 23, 59, 59));
    assert_eq!(civil_from_unix(-62_167_219_200), (0, 1, 1, 0, 0, 0));
    assert_eq!(civil_from_unix(-62_167_219_201), (-1, 12, 31, 23, 59, 59));
}

#[test]
fn the_ends_of_the_range() {
    let (_, month, day, hour, min, sec) = civil_from_unix(i64::MAX);
    assert_eq!((month, day, hour, min, sec), (12, 4, 15, 30, 7));
    let (_, month, day, hour, min, sec) = civil_from_unix(i64::MIN);
    assert_eq!((month, day, hour, min, sec), (1, 27, 8, 29, 52));
}

#[test]
fn every_day_follows_the_day_before() {
    let mut before = civil_from_unix(-800 * 86_400);
    for day in -799i64..1600 {
        let after = civil_from_unix(day * 86_400);
        let next_day = after.0 == before.0 && after.1 == before.1 && after.2 == before.2 + 1;
        let next_month = after.0 == before.0 && after.1 == before.1 + 1 && after.2 == 1;
        let next_year = after.0 == before.0 + 1 && after.1 == 1 && after.2 == 1;
        assert!(next_day || next_month || next_year, "{day}");
        before = after;
    }
}

#[test]
fn padded_numbers() {
    let mut text = String::new();
    push_padded(&mut text, 7, 2);
    push_padded(&mut text, 45, 4);
    push_padded(&mut text, 12345, 4);
    push_padded(&mut text, -5, 4);
    push_padded(&mut text, i32::MIN, 2);
    push_padded(&mut text, 0, 0);
    assert_eq!(text, "07004512345-005-21474836480");
}

#[test]
fn instants_as_text() {
    let clock = at(1_700_000_000, 999_999_999);
    assert_eq!(clock.format_full(), "2023-11-14 22:13:20");
    assert_eq!(clock.format_minute_prefix(), "2023-11-14 22:13:");
    assert_eq!(clock.format_second(), "20");
    assert_eq!(at(0, 0).format_full(), "1970-01-01 00:00:00");
    assert_eq!(at(253_402_300_800, 0).format_full(), "10000-01-01 00:00:00");
}

#[test]
fn full_text_is_prefix_and_second() {
    for secs in [0u128, 59, 60, 86_399, 1_000_000_000, 1_700_000_039] {
        let clock = at(secs, 1);
        let joined = format!("{}{}", clock.format_minute_prefix(), clock.format_second());
        assert_eq!(clock.format_full(), joined);
        assert_eq!(joined.len(), 19);
    }
}

#[test]
fn minutes_of_the_hour() {
    assert_eq!(at(0, 0).minute(), 0);
    assert_eq!(at(59, SECOND - 1).minute(), 0);
    assert_eq!(at(60, 0).minute(), 1);
    assert_eq!(at(3599, 0).minute(), 59);
    assert_eq!(at(3600, 0).minute(), 0);
    assert_eq!(at(1_700_000_000, 0).minute(), 13);
    assert_eq!(at(1_700_000_000, 0).minute_number(), 28_333_333);
    assert_eq!(at(0xffff_ffff_ffff_ffff, 0).minute_number(), -1);
}

#[test]
fn seconds_keep_their_low_bits() {
    assert_eq!(at(1_700_000_000, 5).unix_secs(), 1_700_000_000);
    assert_eq!(at(0x8000_0000_0000_0000, 0).unix_secs(), i64::MIN);
    assert_eq!(at(0x1_0000_0000_0000_0003, 0).unix_secs(), 3);
}

#[test]
fn boundaries_come_next() {
    assert_eq!(at(5, 1).next_second_boundary().nanos, 6 * SECOND);
    assert_eq!(at(5, 0).next_second_boundary().nanos, 6 * SECOND);
    assert_eq!(at(5, 0).next_minute_boundary().nanos, 60 * SECOND);
    assert_eq!(at(59, SECOND - 1).next_minute_boundary().nanos, 60 * SECOND);
    assert_eq!(at(60, 0).next_minute_boundary().nanos, 120 * SECOND);
}

#[test]
fn spans_saturate() {
    assert_eq!(at(6, 0).saturating_duration_since(at(5, 1)), Duration::from_nanos(999_999_999));
    assert_eq!(at(5, 0).saturating_duration_since(at(6, 0)), Duration::ZERO);
    assert_eq!(at(9, 0).saturating_nanos_since(at(2, 0)), 7_000_000_000);
    let far = UtcClock { nanos: u128::MAX };
    assert_eq!(far.saturating_nanos_since(at(0, 0)), u64::MAX);
    assert_eq!(far.saturating_duration_since(at(0, 0)), Duration::from_nanos(u64::MAX));
}

#[test]
fn instants_since_the_epoch() {
    let clock = UtcClock::since_epoch(Ok(Duration::from_nanos(1_500_000_001)));
    assert_eq!(clock.nanos, 1_500_000_001);
    let far = Duration::new(u64::MAX, 7);
    assert_eq!(UtcClock::since_epoch(Ok(far)).nanos, u64::MAX as u128 * SECOND + 7);
    let before = UNIX_EPOCH.duration_since(UNIX_EPOCH + Duration::from_secs(1));
    assert!(before.is_err());
    assert_eq!(UtcClock::since_epoch(before).nanos, 0);
}

#[test]
fn the_clock_runs() {
    let first = UtcClock::now();
    assert!(first.nanos > 1_600_000_000 * SECOND);
    assert!(first.nanos < 32_503_680_000 * SECOND);
}

#[test]
fn publishers_write_where_they_can() {
    let subgroups: Publisher<u8, u8> = Publisher::new(1);
    assert_eq!(subgroups.track_subgroups_writer, Some(1));
    assert_eq!(subgroups.track_datagrams_writer, None);
    assert!(matches!(subgroups.mode(), PublishMode::Subgroups));
    let datagrams: Publisher<u8, u8> = Publisher::new_datagram(2);
    assert_eq!(datagrams.track_subgroups_writer, None);
    assert_eq!(datagrams.track_datagrams_writer, Some(2));
    assert!(matches!(datagrams.mode(), PublishMode::Datagrams));
    let nowhere: Publisher<u8, u8> =
        Publisher { track_subgroups_writer: None, track_datagrams_writer: None };
    assert!(matches!(nowhere.mode(), PublishMode::Nowhere));
    let both: Publisher<u8, u8> =
        Publisher { track_subgroups_writer: Some(1), track_datagrams_writer: Some(2) };
    assert!(matches!(both.mode(), PublishMode::Subgroups));
}

#[test]
fn a_group_for_each_minute() {
    let mut run = subgroups(at(1_700_000_000, 5));
    for (n, secs) in [1_700_000_000u128, 1_700_000_040, 1_700_000_100].into_iter().enumerate() {
        match run.publish() {
            Ok(Publication::Minute { subgroup, now }) => {
                assert_eq!(subgroup.group_id, 13 + n as u64);
                assert_eq!(subgroup.subgroup_id, 0);
                assert_eq!(subgroup.priority, 0);
                assert_eq!(now.nanos / SECOND, secs);
            }
            _ => panic!("a minute is published"),
        }
        assert!(run.can_advance());
        let delay = run.advance();
        if n == 0 {
            assert_eq!(delay, Duration::from_nanos(39_999_999_995));
        } else {
            assert_eq!(delay, Duration::from_secs(60));
        }
    }
    assert!(matches!(run.refused(), PublishError::CreateSegment));
}

#[test]
fn a_datagram_for_each_second() {
    let mut run = datagrams(at(1_700_000_000, 250_000_000));
    let lines = ["2023-11-14 22:13:20", "2023-11-14 22:13:21", "2023-11-14 22:13:22"];
    for (n, expected) in lines.into_iter().enumerate() {
        match run.publish() {
            Ok(Publication::Second { datagram, line }) => {
                assert_eq!(datagram.group_id, 13);
                assert_eq!(datagram.object_id, 0);
                assert_eq!(datagram.priority, 127);
                assert_eq!(datagram.payload, expected.as_bytes());
                assert_eq!(line, expected);
            }
            _ => panic!("a second is published"),
        }
        let delay = run.advance();
        if n == 0 {
            assert_eq!(delay, Duration::from_millis(750));
        } else {
            assert_eq!(delay, Duration::from_secs(1));
        }
    }
    assert!(matches!(run.refused(), PublishError::WriteDatagram));
}

#[test]
fn datagrams_of_a_minute_share_a_group() {
    let mut run = datagrams(at(1_700_000_038, 1));
    let mut written: Vec<(u64, String)> = Vec::new();
    for _ in 0..64 {
        match run.publish() {
            Ok(Publication::Second { datagram, line }) => written.push((datagram.group_id, line)),
            _ => panic!("a second is published"),
        }
        run.advance();
    }
    assert_eq!(written[1], (13, "2023-11-14 22:13:59".to_string()));
    assert_eq!(written[2], (14, "2023-11-14 22:14:00".to_string()));
    assert_eq!(written[61], (14, "2023-11-14 22:14:59".to_string()));
    assert_eq!(written[62], (15, "2023-11-14 22:15:00".to_string()));
    for (group, line) in &written {
        for (other_group, other_line) in &written {
            assert_eq!(group == other_group, line[..16] == other_line[..16]);
        }
    }
}

#[test]
fn nothing_to_write_to() {
    let publisher: Publisher<u8, u8> =
        Publisher { track_subgroups_writer: None, track_datagrams_writer: None };
    let run = publisher.run(at(0, 0));
    assert!(matches!(run.publish(), Err(PublishError::NoTrackWriter)));
    assert!(matches!(run.refused(), PublishError::NoTrackWriter));
    assert!(!run.can_advance());
}

#[test]
fn groups_and_time_run_out() {
    let mut run = datagrams(at(58, 0));
    run.next_group_id = u32::MAX;
    assert!(run.can_advance());
    run.advance();
    assert_eq!(run.next_group_id, u32::MAX);
    assert!(!run.can_advance());
    let mut run = subgroups(at(0, 0));
    run.next_group_id = u32::MAX;
    assert!(!run.can_advance());
    assert!(!datagrams(UtcClock { nanos: u128::MAX }).can_advance());
    assert!(datagrams(UtcClock { nanos: u128::MAX - SECOND }).can_advance());
    assert!(!subgroups(at(0x8000_0000_0000_0000, 0)).can_advance());
    assert!(subgroups(at(0x7fff_ffff_ffff_ffff, 0)).can_advance());
}

#[test]
fn publish_errors_have_messages() {
    assert_eq!(PublishError::CreateSegment.message(), "failed to create minute segment");
    assert_eq!(PublishError::WriteDatagram.message(), "failed to write datagram");
    assert_eq!(PublishError::NoTrackWriter.message(), "no track writer available");
    assert_eq!(PublishError::WriteBase.message(), "failed to write base");
    assert_eq!(PublishError::WriteDelta.message(), "failed to write delta");
}

#[test]
fn a_minute_is_sent_second_by_second() {
    let mut sender = MinuteSender::new(at(1_700_000_038, 400_000_000));
    assert_eq!(sender.base_object(), b"2023-11-14 22:13:");
    assert_eq!(sender.delta_object(), b"58");
    assert_eq!(sender.line(), "2023-11-14 22:13:58");
    assert!(sender.can_wait());
    assert_eq!(sender.delay(), Duration::from_millis(600));
    assert!(sender.wake(at(1_700_000_039, 1_000)));
    assert_eq!(sender.delta_object(), b"59");
    assert_eq!(sender.line(), "2023-11-14 22:13:59");
    assert_eq!(sender.delay(), Duration::from_nanos(999_999_000));
    assert!(!sender.wake(at(1_700_000_040, 0)));
    assert_eq!(sender.now.nanos, at(1_700_000_039, 1_000).nanos);
    assert!(!MinuteSender::new(UtcClock { nanos: u128::MAX }).can_wait());
}

#[test]
fn an_hour_of_sleep_goes_unnoticed() {
    let mut sender = MinuteSender::new(at(1_700_000_000, 0));
    assert!(sender.wake(at(1_700_003_600, 0)));
    assert_eq!(sender.line(), "2023-11-14 22:13:20");
}

#[test]
fn what_is_sent_is_printed() {
    let sender = MinuteSender::new(at(1_700_000_000, 0));
    let first: Result<Option<Vec<u8>>, ()> = Ok(Some(sender.base_object()));
    match SubgroupPrinter::start(first) {
        Ok(printer) => assert_eq!(printer.line(&sender.delta_object()), sender.line()),
        Err(_) => panic!("the first object is there"),
    }
    match datagrams(at(1_700_000_000, 0)).publish() {
        Ok(Publication::Second { datagram, line }) => {
            assert_eq!(object_line(&datagram.payload), line)
        }
        _ => panic!("a second is published"),
    }
}

#[test]
fn what_is_not_text_is_replaced() {
    assert_eq!(object_line(b"ab"), "ab");
    assert_eq!(object_line("\u{e9}\u{1f550}".as_bytes()), "\u{e9}\u{1f550}");
    assert_eq!(object_line(&[0x61, 0xff, 0x62]), "a\u{fffd}b");
    let first: Result<Option<Vec<u8>>, ()> = Ok(Some(vec![0x78, 0xc3]));
    match SubgroupPrinter::start(first) {
        Ok(printer) => assert_eq!(printer.line(&[0x80]), "x\u{fffd}\u{fffd}"),
        Err(_) => panic!("the first object is there"),
    }
}

#[test]
fn subgroups_without_a_first_object() {
    let empty: Result<Option<Vec<u8>>, ()> = Ok(None);
    match SubgroupPrinter::start(empty) {
        Err(error) => {
            assert!(matches!(error, SubgroupError::Empty));
            assert_eq!(error.message(), "empty subgroup");
        }
        Ok(_) => panic!("there is no first object"),
    }
    let failed: Result<Option<Vec<u8>>, u8> = Err(1);
    match SubgroupPrinter::start(failed) {
        Err(error) => {
            assert!(matches!(error, SubgroupError::FirstObject));
            assert_eq!(error.message(), "failed to get first object");
        }
        Ok(_) => panic!("the first object was not read"),
    }
}

#[test]
fn subscribers_keep_their_reader() {
    assert_eq!(Subscriber::new(5u8).track_reader, 5);
}
