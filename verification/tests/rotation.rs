use brz_metrics::rotation::{
    is_archivable, profile_log_archive_suffix, profile_log_hour, profile_log_rotation,
    stale_archive_suffix, suffix_or_error, uses_default_path, ArchiveNames, ArchiveStep,
    ProfileLogFile, ProfileLogHour, ProfileLogRotation, RotationAction, RotationError,
    RotationSetting,
};
use chrono::{FixedOffset, TimeZone, Utc};
use std::path::PathBuf;

fn timestamp(hour: u32, minute: u32) -> i64 {
    FixedOffset::east_opt(8 * 60 * 60)
        .unwrap()
        .with_ymd_and_hms(2026, 9, 21, hour, minute, 0)
        .single()
        .unwrap()
        .timestamp()
}

#[test]
fn parses_profile_log_rotation_case_insensitively() {
    assert_eq!("never".parse(), Ok(ProfileLogRotation::Never));
    assert_eq!(" HOURLY ".parse(), Ok(ProfileLogRotation::Hourly));
    assert!("daily".parse::<ProfileLogRotation>().is_err());
}

#[test]
fn settings_are_trimmed_of_all_white_space() {
    assert_eq!("\u{3000}\t\u{85}Never\u{2009}\n".parse(), Ok(ProfileLogRotation::Never));
    assert!("\u{200b}never".parse::<ProfileLogRotation>().is_err());
    assert!("".parse::<ProfileLogRotation>().is_err());
    assert!("ne ver".parse::<ProfileLogRotation>().is_err());
    assert!("hourlyx".parse::<ProfileLogRotation>().is_err());
    // Only ASCII letters are compared without regard to case.
    assert!("hou\u{211b}ly".parse::<ProfileLogRotation>().is_err());
}

#[test]
fn an_unknown_policy_is_named_in_the_message() {
    assert_eq!(
        "da\"ily\n".parse::<ProfileLogRotation>().unwrap_err(),
        "unsupported profile log rotation policy \"da\\\"ily\\n\"; expected never or hourly"
    );
}

#[test]
fn rotation_stays_off_unless_it_is_turned_on() {
    assert_eq!(ProfileLogRotation::default(), ProfileLogRotation::Never);
    assert_eq!(
        profile_log_rotation(&RotationSetting::NotPresent),
        (ProfileLogRotation::Never, None)
    );
    assert_eq!(
        profile_log_rotation(&RotationSetting::Value("hourly".to_string())),
        (ProfileLogRotation::Hourly, None)
    );
    assert_eq!(
        profile_log_rotation(&RotationSetting::NotUnicode),
        (
            ProfileLogRotation::Never,
            Some(
                "metrics: BREEZE_PROFILE_LOG_ROTATION is not valid Unicode; profile log rotation remains disabled"
                    .to_string()
            )
        )
    );
    assert_eq!(
        profile_log_rotation(&RotationSetting::Value("daily".to_string())),
        (
            ProfileLogRotation::Never,
            Some(
                "metrics: unsupported profile log rotation policy \"daily\"; expected never or hourly; profile log rotation remains disabled"
                    .to_string()
            )
        )
    );
}

#[test]
fn archive_suffix_uses_the_fixed_utc_plus_eight_hour() {
    let utc = Utc
        .with_ymd_and_hms(2026, 9, 20, 16, 30, 0)
        .single()
        .unwrap();
    let local = utc.with_timezone(&FixedOffset::east_opt(8 * 60 * 60).unwrap());

    assert_eq!(
        profile_log_archive_suffix(profile_log_hour(local.timestamp())).unwrap(),
        "20260921-00"
    );
}

#[test]
fn hours_follow_the_clock() {
    assert_eq!(profile_log_hour(0), ProfileLogHour(8));
    assert_eq!(profile_log_hour(3_599), ProfileLogHour(8));
    assert_eq!(profile_log_hour(3_600), ProfileLogHour(9));
    assert_eq!(profile_log_hour(-28_800), ProfileLogHour(0));
    assert_eq!(profile_log_hour(-28_801), ProfileLogHour(-1));
    assert!(profile_log_hour(timestamp(16, 59)) < profile_log_hour(timestamp(17, 0)));
    assert_eq!(
        profile_log_hour(timestamp(16, 0)),
        profile_log_hour(timestamp(16, 59))
    );
}

#[test]
fn hours_beyond_the_range_of_dates_are_refused() {
    for hour in [i64::MAX, i64::MIN, i64::MAX / 3_600, i64::MIN / 3_600, 3_000_000_000] {
        assert_eq!(
            profile_log_archive_suffix(ProfileLogHour(hour)),
            Err(RotationError::HourOutOfRange)
        );
    }
    assert_eq!(suffix_or_error(None), Err(RotationError::HourOutOfRange));
    assert_eq!(suffix_or_error(Some("x".to_string())), Ok("x".to_string()));
    assert_eq!(
        RotationError::HourOutOfRange.message(),
        "profile log rotation hour is out of range"
    );
}

#[test]
fn asks_for_an_archive_only_at_an_hour_boundary() {
    let path = PathBuf::from("/var/log/profile.log");
    let mut log_file = ProfileLogFile::new(path.clone(), ProfileLogRotation::Hourly);
    assert_eq!(log_file.path(), &path);

    let first = profile_log_hour(timestamp(16, 10));
    match log_file.rotate_if_needed(timestamp(16, 10)) {
        Ok(RotationAction::ArchiveStale { observed }) => {
            assert_eq!(observed, first);
            log_file.rotated(observed);
        }
        other => panic!("{other:?}"),
    }
    assert!(matches!(
        log_file.rotate_if_needed(timestamp(16, 59)),
        Ok(RotationAction::Keep)
    ));
    for _ in 0..2 {
        // The same is asked for until it is done.
        match log_file.rotate_if_needed(timestamp(17, 0)) {
            Ok(RotationAction::Archive { suffix, observed }) => {
                assert_eq!(suffix, "20260921-16");
                assert_eq!(observed.0, first.0 + 1);
            }
            other => panic!("{other:?}"),
        }
    }
    log_file.rotated(profile_log_hour(timestamp(17, 0)));
    // A clock that went back asks for nothing.
    assert!(matches!(
        log_file.rotate_if_needed(timestamp(16, 30)),
        Ok(RotationAction::Keep)
    ));
    assert_eq!(log_file.path(), &path);
}

#[test]
fn without_rotation_nothing_is_archived() {
    let log_file = ProfileLogFile::new(PathBuf::from("x"), ProfileLogRotation::default());
    for seconds in [timestamp(16, 10), timestamp(17, 0), i64::MAX, i64::MIN] {
        assert!(matches!(
            log_file.rotate_if_needed(seconds),
            Ok(RotationAction::Keep)
        ));
    }
}

#[test]
fn an_hour_without_a_date_cannot_be_archived() {
    let mut log_file = ProfileLogFile::new(PathBuf::from("x"), ProfileLogRotation::Hourly);
    log_file.rotated(ProfileLogHour(i64::MIN));
    assert!(matches!(
        log_file.rotate_if_needed(0),
        Err(RotationError::HourOutOfRange)
    ));
}

#[test]
fn a_stale_log_is_archived_under_its_own_hour() {
    let modified = timestamp(16, 10);
    let hour = profile_log_hour(modified);
    assert_eq!(
        stale_archive_suffix(modified, ProfileLogHour(hour.0 + 1)),
        Ok(Some("20260921-16".to_string()))
    );
    assert_eq!(stale_archive_suffix(modified, hour), Ok(None));
    assert_eq!(stale_archive_suffix(modified, ProfileLogHour(hour.0 - 1)), Ok(None));
    assert_eq!(
        stale_archive_suffix(i64::MIN, hour),
        Err(RotationError::HourOutOfRange)
    );
}

#[test]
fn missing_and_empty_logs_are_left_alone() {
    assert!(!is_archivable(None));
    assert!(!is_archivable(Some(0)));
    assert!(is_archivable(Some(1)));
}

#[test]
fn an_empty_path_counts_as_none() {
    assert!(uses_default_path(None));
    assert!(uses_default_path(Some(0)));
    assert!(!uses_default_path(Some(1)));
}

#[test]
fn archive_names_never_repeat() {
    let mut names = ArchiveNames::new("profile.log", "20260921-16");
    assert_eq!(names.candidate(), "profile.log.20260921-16");
    let mut seen = vec![names.candidate()];
    for _ in 0..120 {
        assert_eq!(names.taken(), Ok(()));
        assert!(!seen.contains(&names.candidate()));
        seen.push(names.candidate());
    }
    assert_eq!(seen[1], "profile.log.20260921-16.1");
    assert_eq!(seen[120], "profile.log.20260921-16.120");
    names.collision = u32::MAX;
    assert_eq!(names.candidate(), "profile.log.20260921-16.4294967295");
    assert_eq!(names.taken(), Err(RotationError::TooManyArchives));
    assert_eq!(
        RotationError::TooManyArchives.message(),
        "too many colliding profile log archives"
    );
}

#[test]
fn an_archive_gets_the_first_free_name() {
    let search = |files: &[&str]| {
        let mut names = ArchiveNames::new("profile.log", "20260921-16");
        let mut name = names.candidate();
        loop {
            match names.observe(files.contains(&name.as_str())) {
                Ok(ArchiveStep::Rename(free)) => {
                    assert_eq!(free, name);
                    return free;
                }
                Ok(ArchiveStep::Try(next)) => name = next,
                Err(error) => panic!("{error:?}"),
            }
        }
    };
    assert_eq!(search(&[]), "profile.log.20260921-16");
    assert_eq!(search(&["profile.log.20260921-16"]), "profile.log.20260921-16.1");
    assert_eq!(
        search(&["profile.log.20260921-16", "profile.log.20260921-16.1"]),
        "profile.log.20260921-16.2"
    );
    // A gap is filled.
    assert_eq!(
        search(&["profile.log.20260921-16", "profile.log.20260921-16.2"]),
        "profile.log.20260921-16.1"
    );
    assert_eq!(search(&["profile.log.20260921-16.1"]), "profile.log.20260921-16");
}

#[test]
fn a_search_fails_at_the_last_number_only() {
    let mut names = ArchiveNames::new("profile.log", "20260921-16");
    names.collision = u32::MAX - 1;
    let last = "profile.log.20260921-16.4294967295".to_string();
    assert_eq!(names.observe(true), Ok(ArchiveStep::Try(last.clone())));
    assert_eq!(names.observe(false), Ok(ArchiveStep::Rename(last)));
    assert_eq!(names.observe(true), Err(RotationError::TooManyArchives));
    assert_eq!(names.collision, u32::MAX);
}
