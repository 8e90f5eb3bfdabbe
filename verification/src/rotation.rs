//! Hourly rotation of the profile log: when to archive it and under which name.
use crate::clock::{
    archive_hour_text, clock_text, optional_text, ARCHIVE_PATTERN, FIRST_SECOND, LAST_SECOND,
    SHANGHAI_OFFSET_SECONDS,
};
use std::str::FromStr;
use vstd::prelude::*;
use vstd::string::StringExecFns;

verus! {

/// Where the log is written if nothing else is configured.
pub const DEFAULT_PROFILE_LOG_PATH: &'static str = "../logs/profile.log";

/// The environment variable that overrides the path of the log.
pub const PROFILE_LOG_PATH_ENV: &'static str = "BREEZE_PROFILE_LOG_PATH";

/// The environment variable that turns rotation on.
pub const PROFILE_LOG_ROTATION_ENV: &'static str = "BREEZE_PROFILE_LOG_ROTATION";

/// When the log is archived.
#[derive(Clone, Copy, Debug, Eq, PartialEq, Structural)]
pub enum ProfileLogRotation {
    Never,
    Hourly,
}

impl Default for ProfileLogRotation {
    fn default() -> (rotation: ProfileLogRotation)
        ensures
            rotation == ProfileLogRotation::Never,
    {
        ProfileLogRotation::Never
    }
}

/// The characters with the Unicode property `White_Space`.
pub open spec fn white_space(c: char) -> bool {
    let n = c as u32;
    ||| 0x09 <= n <= 0x0d
    ||| n == 0x20
    ||| n == 0x85
    ||| n == 0xa0
    ||| n == 0x1680
    ||| 0x2000 <= n <= 0x200a
    ||| n == 0x2028
    ||| n == 0x2029
    ||| n == 0x202f
    ||| n == 0x205f
    ||| n == 0x3000
}

/// A text without the white space at its start.
pub open spec fn trimmed_start(text: Seq<char>) -> Seq<char>
    decreases text.len(),
{
    if text.len() > 0 && white_space(text[0]) {
        trimmed_start(text.drop_first())
    } else {
        text
    }
}

/// A text without the white space at its end.
pub open spec fn trimmed_end(text: Seq<char>) -> Seq<char>
    decreases text.len(),
{
    if text.len() > 0 && white_space(text.last()) {
        trimmed_end(text.drop_last())
    } else {
        text
    }
}

/// A character with `A` to `Z` turned into `a` to `z`.
pub open spec fn lower_char(c: char) -> char {
    if 'A' <= c <= 'Z' {
        (c as u32 + 0x20) as char
    } else {
        c
    }
}

/// What a setting is compared as: without white space around it, and in lower case.
pub open spec fn setting_word(value: Seq<char>) -> Seq<char> {
    let word = trimmed_end(trimmed_start(value));
    Seq::new(word.len(), |i: int| lower_char(word[i]))
}

/// The policy that a setting names, if it names one.
pub open spec fn parsed_rotation(value: Seq<char>) -> Option<ProfileLogRotation> {
    if setting_word(value) == "never"@ {
        Some(ProfileLogRotation::Never)
    } else if setting_word(value) == "hourly"@ {
        Some(ProfileLogRotation::Hourly)
    } else {
        None
    }
}

/// A text as Rust's `Debug` writes it, in quotes and escaped.
pub uninterp spec fn debug_form(value: Seq<char>) -> Seq<char>;

/// The message about a setting that names no policy.
pub open spec fn unsupported_message(value: Seq<char>) -> Seq<char> {
    "unsupported profile log rotation policy "@ + debug_form(value)
        + "; expected never or hourly"@
}

/// A text as `Debug` writes it.
///
/// Trusted: the `Debug` impl of `str` in std, by `format!`. It is claimed only that the result
/// depends on the text alone.
#[verifier::external_body]
fn debug_text(value: &str) -> (text: String)
    ensures
        text@ == debug_form(value@),
{
    format!("{:?}", value)
}

fn is_white_space(c: char) -> (r: bool)
    ensures
        r == white_space(c),
{
    let n: u32 = c as u32;
    (0x09 <= n && n <= 0x0d) || n == 0x20 || n == 0x85 || n == 0xa0 || n == 0x1680 || (0x2000 <= n
        && n <= 0x200a) || n == 0x2028 || n == 0x2029 || n == 0x202f || n == 0x205f || n == 0x3000
}

proof fn lemma_trimmed_start(text: Seq<char>, n: int)
    requires
        0 <= n <= text.len(),
        forall|i: int| 0 <= i < n ==> white_space(#[trigger] text[i]),
        n < text.len() ==> !white_space(text[n]),
    ensures
        trimmed_start(text) == text.skip(n),
    decreases text.len(),
{
    if n == 0 {
        assert(text.skip(0) =~= text);
    } else {
        assert(white_space(text[0]));
        assert forall|i: int| 0 <= i < n - 1 implies white_space(
            #[trigger] text.drop_first()[i],
        ) by {
            assert(white_space(text[i + 1]));
        }
        lemma_trimmed_start(text.drop_first(), n - 1);
        assert(text.drop_first().skip(n - 1) =~= text.skip(n));
    }
}

proof fn lemma_trimmed_end(text: Seq<char>, n: int)
    requires
        0 <= n <= text.len(),
        forall|i: int| n <= i < text.len() ==> white_space(#[trigger] text[i]),
        n > 0 ==> !white_space(text[n - 1]),
    ensures
        trimmed_end(text) == text.take(n),
    decreases text.len(),
{
    if n == text.len() {
        assert(text.take(n) =~= text);
    } else {
        assert(white_space(text.last()));
        assert forall|i: int| n <= i < text.len() - 1 implies white_space(
            #[trigger] text.drop_last()[i],
        ) by {
            assert(white_space(text[i]));
        }
        lemma_trimmed_end(text.drop_last(), n);
        assert(text.drop_last().take(n) =~= text.take(n));
    }
}

/// The characters of a text.
fn chars_of(text: &str) -> (chars: Vec<char>)
    ensures
        chars@ == text@,
{
    let mut chars: Vec<char> = Vec::new();
    let len: usize = text.unicode_len();
    let mut i: usize = 0;
    while i < len
        invariant
            i <= len,
            len == text@.len(),
            chars@ == text@.take(i as int),
        decreases len - i,
    {
        chars.push(text.get_char(i));
        assert(text@.take(i + 1) =~= text@.take(i as int).push(text@[i as int]));
        i += 1;
    }
    assert(text@.take(i as int) =~= text@);
    chars
}

/// Whether the characters from `start` to `end`, in lower case, are those of `word`.
fn spells(chars: &Vec<char>, start: usize, end: usize, word: &str) -> (r: bool)
    requires
        start <= end <= chars@.len(),
    ensures
        r == (Seq::new((end - start) as nat, |i: int| lower_char(chars@[start + i])) == word@),
{
    let ghost spelled = Seq::new((end - start) as nat, |i: int| lower_char(chars@[start + i]));
    let expected = chars_of(word);
    if expected.len() != end - start {
        return false;
    }
    let mut i: usize = 0;
    while i < expected.len()
        invariant
            i <= expected@.len(),
            expected@.len() == end - start,
            start <= end <= chars@.len(),
            expected@ == word@,
            spelled == Seq::new((end - start) as nat, |i: int| lower_char(chars@[start + i])),
            forall|j: int| 0 <= j < i ==> #[trigger] spelled[j] == expected@[j],
        decreases expected@.len() - i,
    {
        if to_lower(chars[start + i]) != expected[i] {
            assert(spelled[i as int] != word@[i as int]);
            return false;
        }
        i += 1;
    }
    assert(spelled =~= word@);
    true
}

fn to_lower(c: char) -> (lower: char)
    ensures
        lower == lower_char(c),
{
    if 'A' <= c && c <= 'Z' {
        (c as u8 + 0x20) as char
    } else {
        c
    }
}

impl ProfileLogRotation {
    /// Reads a policy from a setting, without regard to case and to white space around it.
    pub fn from_str(value: &str) -> (rotation: Result<ProfileLogRotation, String>)
        ensures
            match rotation {
                Ok(r) => parsed_rotation(value@) == Some(r),
                Err(message) => parsed_rotation(value@) is None && message@
                    == unsupported_message(value@),
            },
    {
        let chars = chars_of(value);
        let mut start: usize = 0;
        while start < chars.len() && is_white_space(chars[start])
            invariant
                start <= chars@.len(),
                forall|i: int| 0 <= i < start ==> white_space(#[trigger] chars@[i]),
            decreases chars@.len() - start,
        {
            start += 1;
        }
        let ghost rest = chars@.skip(start as int);
        proof {
            lemma_trimmed_start(chars@, start as int);
        }
        let mut end: usize = chars.len();
        while end > start && is_white_space(chars[end - 1])
            invariant
                start <= end <= chars@.len(),
                forall|i: int| end <= i < chars@.len() ==> white_space(#[trigger] chars@[i]),
            decreases end,
        {
            end -= 1;
        }
        proof {
            assert forall|i: int| end - start <= i < rest.len() implies white_space(
                #[trigger] rest[i],
            ) by {
                assert(white_space(chars@[start + i]));
            }
            lemma_trimmed_end(rest, end - start);
            assert(setting_word(value@) =~= Seq::new(
                (end - start) as nat,
                |i: int| lower_char(chars@[start + i]),
            ));
        }
        if spells(&chars, start, end, "never") {
            return Ok(ProfileLogRotation::Never);
        }
        if spells(&chars, start, end, "hourly") {
            return Ok(ProfileLogRotation::Hourly);
        }
        let mut message: String = String::new();
        message.append("unsupported profile log rotation policy ");
        message.append(debug_text(value).as_str());
        message.append("; expected never or hourly");
        assert(message@ =~= unsupported_message(value@));
        Err(message)
    }
}

impl FromStr for ProfileLogRotation {
    type Err = String;

    fn from_str(value: &str) -> (rotation: Result<ProfileLogRotation, String>)
        ensures
            match rotation {
                Ok(r) => parsed_rotation(value@) == Some(r),
                Err(message) => parsed_rotation(value@) is None && message@
                    == unsupported_message(value@),
            },
    {
        ProfileLogRotation::from_str(value)
    }
}

/// What the environment says about rotation.
pub enum RotationSetting {
    /// The variable is not set.
    NotPresent,
    /// The variable is set to something that is not Unicode.
    NotUnicode,
    /// The variable is set.
    Value(String),
}

/// The warning about a setting that does not count, if there is something to warn about.
pub open spec fn setting_warning(setting: RotationSetting) -> Option<Seq<char>> {
    match setting {
        RotationSetting::NotPresent => None,
        RotationSetting::NotUnicode => Some(
            "metrics: BREEZE_PROFILE_LOG_ROTATION is not valid Unicode; profile log rotation remains disabled"@,
        ),
        RotationSetting::Value(value) => if parsed_rotation(value@) is Some {
            None
        } else {
            Some(
                "metrics: "@ + unsupported_message(value@)
                    + "; profile log rotation remains disabled"@,
            )
        },
    }
}

/// The policy that a setting stands for: rotation stays off unless a setting turns it on.
pub open spec fn setting_rotation(setting: RotationSetting) -> ProfileLogRotation {
    match setting {
        RotationSetting::Value(value) => match parsed_rotation(value@) {
            Some(rotation) => rotation,
            None => ProfileLogRotation::Never,
        },
        _ => ProfileLogRotation::Never,
    }
}

/// The policy that a setting stands for, and the warning to print about it.
pub fn profile_log_rotation(setting: &RotationSetting) -> (decision: (
    ProfileLogRotation,
    Option<String>,
))
    ensures
        decision.0 == setting_rotation(*setting),
        optional_text(decision.1) == setting_warning(*setting),
{
    match setting {
        RotationSetting::NotPresent => (ProfileLogRotation::Never, None),
        RotationSetting::NotUnicode => {
            let warning: String = "metrics: BREEZE_PROFILE_LOG_ROTATION is not valid Unicode; profile log rotation remains disabled".to_string();
            (ProfileLogRotation::Never, Some(warning))
        },
        RotationSetting::Value(value) => match ProfileLogRotation::from_str(value.as_str()) {
            Ok(rotation) => (rotation, None),
            Err(error) => {
                let mut warning: String = String::new();
                warning.append("metrics: ");
                warning.append(error.as_str());
                warning.append("; profile log rotation remains disabled");
                assert(warning@ =~= "metrics: "@ + unsupported_message(value@)
                    + "; profile log rotation remains disabled"@);
                (ProfileLogRotation::Never, Some(warning))
            },
        },
    }
}

/// One hour on the `+08:00` clock, counted from the Unix epoch on that clock.
#[derive(Clone, Copy, Debug, Eq, PartialEq, PartialOrd, Ord, Structural)]
pub struct ProfileLogHour(pub i64);

/// The second, from the Unix epoch, that an hour starts at.
pub open spec fn hour_start(hour: ProfileLogHour) -> int {
    hour.0 * 3600 - SHANGHAI_OFFSET_SECONDS
}

/// The hour that a time, in seconds from the Unix epoch, lies in.
pub open spec fn hour_of(unix_seconds: i64) -> ProfileLogHour {
    ProfileLogHour(((unix_seconds + SHANGHAI_OFFSET_SECONDS) / 3600) as i64)
}

/// The hour that a time, in seconds from the Unix epoch, lies in.
pub fn profile_log_hour(unix_seconds: i64) -> (hour: ProfileLogHour)
    requires
        unix_seconds + SHANGHAI_OFFSET_SECONDS <= i64::MAX,
    ensures
        hour == hour_of(unix_seconds),
{
    let local: i64 = unix_seconds + SHANGHAI_OFFSET_SECONDS as i64;
    match local.checked_div_euclid(3600) {
        Some(hour) => ProfileLogHour(hour),
        None => ProfileLogHour(0),
    }
}

/// Why the log could not be rotated.
#[derive(Clone, Copy, Debug, Eq, PartialEq, Structural)]
pub enum RotationError {
    /// The hour is beyond the range of dates.
    HourOutOfRange,
    /// Every number that could be appended to the archive's name is taken.
    TooManyArchives,
}

/// What the error says.
pub open spec fn rotation_message(error: RotationError) -> Seq<char> {
    match error {
        RotationError::HourOutOfRange => "profile log rotation hour is out of range"@,
        RotationError::TooManyArchives => "too many colliding profile log archives"@,
    }
}

impl RotationError {
    /// What the error says.
    pub fn message(self) -> (message: &'static str)
        ensures
            message@ == rotation_message(self),
    {
        match self {
            RotationError::HourOutOfRange => "profile log rotation hour is out of range",
            RotationError::TooManyArchives => "too many colliding profile log archives",
        }
    }
}

/// Whether an hour starts within the range of dates.
pub open spec fn hour_has_date(hour: ProfileLogHour) -> bool {
    FIRST_SECOND <= hour_start(hour) <= LAST_SECOND
}

/// The text of an hour in the name of an archive, as the clock writes it.
pub open spec fn archive_suffix(hour: ProfileLogHour) -> Option<Seq<char>> {
    clock_text(hour_start(hour) as i64, SHANGHAI_OFFSET_SECONDS, ARCHIVE_PATTERN@)
}

/// A text that the clock wrote, or the error that there is none.
pub fn suffix_or_error(text: Option<String>) -> (suffix: Result<String, RotationError>)
    ensures
        match suffix {
            Ok(t) => optional_text(text) == Some(t@),
            Err(error) => text is None && error == RotationError::HourOutOfRange,
        },
{
    match text {
        Some(t) => Ok(t),
        None => Err(RotationError::HourOutOfRange),
    }
}

/// The text of an hour in the name of an archive, such as `20260921-00`.
pub fn profile_log_archive_suffix(hour: ProfileLogHour) -> (suffix: Result<String, RotationError>)
    ensures
        match suffix {
            Ok(text) => hour_has_date(hour) && archive_suffix(hour) == Some(text@),
            Err(error) => !hour_has_date(hour) && error == RotationError::HourOutOfRange,
        },
{
    let local_start: i64 = match hour.0.checked_mul(3600) {
        Some(start) => start,
        None => {
            return Err(RotationError::HourOutOfRange);
        },
    };
    let utc_start: i64 = match local_start.checked_sub(SHANGHAI_OFFSET_SECONDS as i64) {
        Some(start) => start,
        None => {
            return Err(RotationError::HourOutOfRange);
        },
    };
    suffix_or_error(archive_hour_text(utc_start))
}

/// Trusted: `std::path::PathBuf`. A path is carried along; nothing is claimed of what is inside.
#[verifier::external_type_specification]
#[verifier::external_body]
pub struct ExPathBuf(std::path::PathBuf);

/// What has to be done before the next interval is written.
#[derive(Debug)]
pub enum RotationAction {
    /// Nothing: the log goes on as it is.
    Keep,
    /// A log that an earlier process left behind is archived, if it is from an earlier hour.
    ArchiveStale { observed: ProfileLogHour },
    /// The log is archived under the hour that it was written in.
    Archive { suffix: String, observed: ProfileLogHour },
}

/// What the passing of time asks for, before the name of an archive is made.
pub enum RotationDecision {
    Keep,
    Stale,
    Completed(ProfileLogHour),
}

/// What the passing of time asks for: nothing without rotation and within one hour, or if the
/// clock went back; a look at a log that was there before, on the first observation; and an
/// archive of the hour that was left.
pub open spec fn rotation_decision(
    rotation: ProfileLogRotation,
    current_hour: Option<ProfileLogHour>,
    observed: ProfileLogHour,
) -> RotationDecision {
    match rotation {
        ProfileLogRotation::Never => RotationDecision::Keep,
        ProfileLogRotation::Hourly => match current_hour {
            None => RotationDecision::Stale,
            Some(current) => if observed.0 > current.0 {
                RotationDecision::Completed(current)
            } else {
                RotationDecision::Keep
            },
        },
    }
}

/// The active log file and the hour that it is written in.
pub struct ProfileLogFile {
    pub path: std::path::PathBuf,
    pub rotation: ProfileLogRotation,
    pub current_hour: Option<ProfileLogHour>,
}

impl ProfileLogFile {
    /// A log file that nothing was written to yet.
    pub fn new(path: std::path::PathBuf, rotation: ProfileLogRotation) -> (file: ProfileLogFile)
        ensures
            file == (ProfileLogFile { path, rotation, current_hour: None }),
    {
        ProfileLogFile { path, rotation, current_hour: None }
    }

    /// Where the active log is. It keeps this name; only archives have others.
    pub fn path(&self) -> (path: &std::path::PathBuf)
        ensures
            *path == self.path,
    {
        &self.path
    }

    /// What has to be done before something is written at `unix_seconds`. Once it is done,
    /// [`ProfileLogFile::rotated`] takes note of the hour; if it fails, the same is asked for
    /// again.
    pub fn rotate_if_needed(&self, unix_seconds: i64) -> (action: Result<
        RotationAction,
        RotationError,
    >)
        requires
            self.rotation == ProfileLogRotation::Hourly ==> unix_seconds + SHANGHAI_OFFSET_SECONDS
                <= i64::MAX,
        ensures
            match rotation_decision(self.rotation, self.current_hour, hour_of(unix_seconds)) {
                RotationDecision::Keep => action == Ok::<RotationAction, RotationError>(
                    RotationAction::Keep,
                ),
                RotationDecision::Stale => action == Ok::<RotationAction, RotationError>(
                    RotationAction::ArchiveStale { observed: hour_of(unix_seconds) },
                ),
                RotationDecision::Completed(hour) => if hour_has_date(hour) {
                    &&& action matches Ok(RotationAction::Archive { suffix, observed })
                    &&& Some(suffix@) == archive_suffix(hour)
                    &&& observed == hour_of(unix_seconds)
                } else {
                    action == Err::<RotationAction, RotationError>(RotationError::HourOutOfRange)
                },
            },
    {
        match self.rotation {
            ProfileLogRotation::Never => {
                return Ok(RotationAction::Keep);
            },
            ProfileLogRotation::Hourly => {},
        }
        let observed = profile_log_hour(unix_seconds);
        match self.current_hour {
            None => Ok(RotationAction::ArchiveStale { observed }),
            Some(current) => if observed.0 > current.0 {
                match profile_log_archive_suffix(current) {
                    Ok(suffix) => Ok(RotationAction::Archive { suffix, observed }),
                    Err(error) => Err(error),
                }
            } else {
                Ok(RotationAction::Keep)
            },
        }
    }

    /// Takes note that the log is now written in the observed hour.
    pub fn rotated(&mut self, observed: ProfileLogHour)
        ensures
            *final(self) == (ProfileLogFile { current_hour: Some(observed), ..*old(self) }),
    {
        self.current_hour = Some(observed);
    }
}

/// Whether there is a log to archive, by the length of the file, if there is one. A missing or
/// an empty file is left alone.
pub fn is_archivable(len: Option<u64>) -> (archivable: bool)
    ensures
        archivable == (len is Some && len->0 > 0),
{
    match len {
        Some(len) => len > 0,
        None => false,
    }
}

/// The archive suffix of a log that was there before the first observation, if it was last
/// written in an earlier hour than the current one.
pub fn stale_archive_suffix(modified_seconds: i64, current_hour: ProfileLogHour) -> (suffix: Result<
    Option<String>,
    RotationError,
>)
    requires
        modified_seconds + SHANGHAI_OFFSET_SECONDS <= i64::MAX,
    ensures
        hour_of(modified_seconds).0 >= current_hour.0 ==> suffix matches Ok(None),
        hour_of(modified_seconds).0 < current_hour.0 && hour_has_date(hour_of(modified_seconds))
            ==> {
            &&& suffix matches Ok(Some(text))
            &&& Some(text@) == archive_suffix(hour_of(modified_seconds))
        },
        hour_of(modified_seconds).0 < current_hour.0 && !hour_has_date(hour_of(modified_seconds))
            ==> suffix matches Err(RotationError::HourOutOfRange),
        suffix matches Ok(None) <==> current_hour.0 * 3600 <= modified_seconds + 28800,
{
    let modified_hour = profile_log_hour(modified_seconds);
    if modified_hour.0 < current_hour.0 {
        match profile_log_archive_suffix(modified_hour) {
            Ok(text) => Ok(Some(text)),
            Err(error) => Err(error),
        }
    } else {
        Ok(None)
    }
}

/// One decimal digit.
pub open spec fn digit_char(n: int) -> char {
    ('0' as u32 + n) as char
}

/// The decimal digits of a number, as characters.
pub open spec fn decimal_chars(n: nat) -> Seq<char>
    decreases n,
{
    if n < 10 {
        seq![digit_char(n as int)]
    } else {
        decimal_chars(n / 10).push(digit_char((n % 10) as int))
    }
}

/// The name of an archive: the name of the log and the hour, and, where that is taken, a number.
pub open spec fn archive_name(base_name: Seq<char>, collision: u32) -> Seq<char> {
    if collision == 0 {
        base_name
    } else {
        base_name + "."@ + decimal_chars(collision as nat)
    }
}

fn digit_text(n: u32) -> (text: &'static str)
    requires
        n < 10,
    ensures
        text@ == seq![digit_char(n as int)],
{
    let text: &'static str = match n {
        0 => "0",
        1 => "1",
        2 => "2",
        3 => "3",
        4 => "4",
        5 => "5",
        6 => "6",
        7 => "7",
        8 => "8",
        _ => "9",
    };
    proof {
        reveal_strlit("0");
        reveal_strlit("1");
        reveal_strlit("2");
        reveal_strlit("3");
        reveal_strlit("4");
        reveal_strlit("5");
        reveal_strlit("6");
        reveal_strlit("7");
        reveal_strlit("8");
        reveal_strlit("9");
        assert(text@ =~= seq![digit_char(n as int)]);
    }
    text
}

fn append_number(text: &mut String, n: u32)
    ensures
        final(text)@ == old(text)@ + decimal_chars(n as nat),
    decreases n,
{
    if n >= 10 {
        append_number(text, n / 10);
    }
    text.append(digit_text(n % 10));
    assert(text@ =~= old(text)@ + decimal_chars(n as nat));
}

/// What has to be done once it is known whether there is a file with the name that was tried.
#[derive(Debug, Eq, PartialEq)]
pub enum ArchiveStep {
    /// The log gets this name: it is free.
    Rename(String),
    /// This name is tried next.
    Try(String),
}

/// What an [`ArchiveStep`] says, with its name as characters.
#[verifier::ext_equal]
pub enum ArchiveStepView {
    Rename(Seq<char>),
    Try(Seq<char>),
}

impl View for ArchiveStep {
    type V = ArchiveStepView;

    open spec fn view(&self) -> ArchiveStepView {
        match self {
            ArchiveStep::Rename(name) => ArchiveStepView::Rename(name@),
            ArchiveStep::Try(name) => ArchiveStepView::Try(name@),
        }
    }
}

/// What is done about the name with the number `collision`: a free name is taken, a taken one is
/// passed over, and without a next number the search fails.
pub open spec fn archive_step(base_name: Seq<char>, collision: u32, exists: bool) -> Result<
    ArchiveStepView,
    RotationError,
> {
    if !exists {
        Ok(ArchiveStepView::Rename(archive_name(base_name, collision)))
    } else if collision < u32::MAX {
        Ok(ArchiveStepView::Try(archive_name(base_name, (collision + 1) as u32)))
    } else {
        Err(RotationError::TooManyArchives)
    }
}

/// The number that is tried after the one with the number `collision`.
pub open spec fn collision_after(collision: u32, exists: bool) -> u32 {
    if exists && collision < u32::MAX {
        (collision + 1) as u32
    } else {
        collision
    }
}

/// The names that an archive can get, in the order in which they are tried.
pub struct ArchiveNames {
    pub base_name: String,
    pub collision: u32,
}

impl ArchiveNames {
    /// The names for an archive of the log `file_name` with the given hour.
    pub fn new(file_name: &str, suffix: &str) -> (names: ArchiveNames)
        ensures
            names.base_name@ == file_name@ + "."@ + suffix@,
            names.collision == 0,
    {
        let mut base_name: String = String::new();
        base_name.append(file_name);
        base_name.append(".");
        base_name.append(suffix);
        assert(base_name@ =~= file_name@ + "."@ + suffix@);
        ArchiveNames { base_name, collision: 0 }
    }

    /// The name to try now.
    pub fn candidate(&self) -> (name: String)
        ensures
            name@ == archive_name(self.base_name@, self.collision),
    {
        let mut name: String = self.base_name.clone();
        if self.collision > 0 {
            name.append(".");
            append_number(&mut name, self.collision);
        }
        assert(name@ =~= archive_name(self.base_name@, self.collision));
        name
    }

    /// Goes on to the next name, because the current one is taken.
    pub fn taken(&mut self) -> (next: Result<(), RotationError>)
        ensures
            match next {
                Ok(_) => *final(self) == (ArchiveNames {
                    collision: (old(self).collision + 1) as u32,
                    ..*old(self)
                }) && old(self).collision < u32::MAX,
                Err(error) => error == RotationError::TooManyArchives && *final(self) == *old(self)
                    && old(self).collision == u32::MAX,
            },
    {
        match self.collision.checked_add(1) {
            Some(collision) => {
                self.collision = collision;
                Ok(())
            },
            None => Err(RotationError::TooManyArchives),
        }
    }

    /// Decides about the current name, given whether there is a file with it.
    pub fn observe(&mut self, exists: bool) -> (step: Result<ArchiveStep, RotationError>)
        ensures
            match step {
                Ok(s) => Ok::<ArchiveStepView, RotationError>(s@) == archive_step(
                    old(self).base_name@,
                    old(self).collision,
                    exists,
                ),
                Err(error) => Err::<ArchiveStepView, RotationError>(error) == archive_step(
                    old(self).base_name@,
                    old(self).collision,
                    exists,
                ),
            },
            *final(self) == (ArchiveNames {
                collision: collision_after(old(self).collision, exists),
                ..*old(self)
            }),
    {
        if !exists {
            return Ok(ArchiveStep::Rename(self.candidate()));
        }
        match self.taken() {
            Ok(_) => Ok(ArchiveStep::Try(self.candidate())),
            Err(error) => Err(error),
        }
    }
}

/// Whether the default path is used, by the length of the configured path, if there is one: an
/// empty path counts as none.
pub fn uses_default_path(configured_len: Option<usize>) -> (default: bool)
    ensures
        default == (configured_len is None || configured_len->0 == 0),
{
    match configured_len {
        Some(len) => len == 0,
        None => true,
    }
}

/// An hour starts at or before the times in it and ends after them.
pub proof fn law_hour_contains_its_times(unix_seconds: i64)
    requires
        unix_seconds + SHANGHAI_OFFSET_SECONDS <= i64::MAX,
    ensures
        hour_start(hour_of(unix_seconds)) <= unix_seconds < hour_start(hour_of(unix_seconds))
            + 3600,
{
}

/// Later times lie in later hours or in the same one.
pub proof fn law_hours_follow_time(a: i64, b: i64)
    requires
        a <= b,
        b + SHANGHAI_OFFSET_SECONDS <= i64::MAX,
    ensures
        hour_of(a).0 <= hour_of(b).0,
{
}

/// Without rotation the log is never archived, whatever the time is.
pub proof fn law_rotation_is_off_without_a_setting(
    current_hour: Option<ProfileLogHour>,
    observed: ProfileLogHour,
)
    ensures
        setting_rotation(RotationSetting::NotPresent) == ProfileLogRotation::Never,
        rotation_decision(
            setting_rotation(RotationSetting::NotPresent),
            current_hour,
            observed,
        ) is Keep,
{
}

/// Once the log is written in an hour, it is archived under that hour as soon as a later hour is
/// observed, and never before that.
pub proof fn law_log_is_archived_when_its_hour_is_over(
    current: ProfileLogHour,
    observed: ProfileLogHour,
)
    ensures
        rotation_decision(ProfileLogRotation::Hourly, Some(current), observed) == (if observed.0
            > current.0 {
            RotationDecision::Completed(current)
        } else {
            RotationDecision::Keep
        }),
        rotation_decision(ProfileLogRotation::Hourly, Some(current), current) is Keep,
{
}

proof fn lemma_decimal_chars(n: nat)
    ensures
        decimal_chars(n).len() > 0,
        forall|i: int|
            0 <= i < decimal_chars(n).len() ==> '0' <= #[trigger] decimal_chars(n)[i] <= '9',
    decreases n,
{
    if n >= 10 {
        lemma_decimal_chars(n / 10);
    }
}

proof fn lemma_digit_char(n: int)
    requires
        0 <= n < 10,
    ensures
        digit_char(n) as int == 0x30 + n,
{
}

proof fn lemma_decimal_chars_injective(a: nat, b: nat)
    requires
        decimal_chars(a) == decimal_chars(b),
    ensures
        a == b,
    decreases a,
{
    lemma_decimal_chars(a);
    lemma_decimal_chars(b);
    lemma_digit_char((a % 10) as int);
    lemma_digit_char((b % 10) as int);
    if a < 10 && b < 10 {
        assert(decimal_chars(a)[0] == digit_char(a as int));
        assert(decimal_chars(b)[0] == digit_char(b as int));
        assert(a % 10 == a && b % 10 == b);
    } else if a < 10 {
        lemma_decimal_chars(b / 10);
        assert(decimal_chars(b).len() == decimal_chars(b / 10).len() + 1);
    } else if b < 10 {
        lemma_decimal_chars(a / 10);
        assert(decimal_chars(a).len() == decimal_chars(a / 10).len() + 1);
    } else {
        assert(decimal_chars(a).last() == digit_char((a % 10) as int));
        assert(decimal_chars(b).last() == digit_char((b % 10) as int));
        assert(decimal_chars(a).drop_last() =~= decimal_chars(a / 10));
        assert(decimal_chars(b).drop_last() =~= decimal_chars(b / 10));
        lemma_decimal_chars_injective(a / 10, b / 10);
    }
}

/// No two tries give an archive the same name, so a search that goes on while a name is taken
/// never comes back to one.
pub proof fn law_archive_names_do_not_repeat(base_name: Seq<char>, a: u32, b: u32)
    requires
        a != b,
    ensures
        archive_name(base_name, a) != archive_name(base_name, b),
{
    reveal_strlit(".");
    let x = archive_name(base_name, a);
    let y = archive_name(base_name, b);
    if x == y {
        if a == 0 {
            assert(y.len() > base_name.len());
        } else if b == 0 {
            assert(x.len() > base_name.len());
        } else {
            let start = base_name.len() + 1;
            assert(x.skip(start as int) =~= decimal_chars(a as nat));
            assert(y.skip(start as int) =~= decimal_chars(b as nat));
            lemma_decimal_chars_injective(a as nat, b as nat);
        }
    }
}

/// One look at a name: its number, and whether there was a file with that name.
pub struct ArchiveLook {
    pub collision: u32,
    pub exists: bool,
}

/// A search for the name of an archive: it starts with the first name, and goes on with the next
/// one as long as it is told to.
pub open spec fn archive_search(base_name: Seq<char>, looks: Seq<ArchiveLook>) -> bool {
    &&& looks.len() > 0
    &&& looks[0].collision == 0
    &&& forall|i: int, j: int|
        0 <= i && j == i + 1 && j < looks.len() ==> {
            let look = #[trigger] looks[i];
            &&& archive_step(base_name, look.collision, look.exists) matches Ok(
                ArchiveStepView::Try(_),
            )
            &&& (#[trigger] looks[j]).collision == collision_after(look.collision, look.exists)
        }
}

proof fn lemma_archive_search(base_name: Seq<char>, looks: Seq<ArchiveLook>, i: int)
    requires
        archive_search(base_name, looks),
        0 <= i < looks.len(),
    ensures
        looks[i].collision == i,
        i < looks.len() - 1 ==> looks[i].exists,
    decreases i,
{
    if i > 0 {
        lemma_archive_search(base_name, looks, i - 1);
        assert(looks[i].collision == collision_after(looks[i - 1].collision, looks[i - 1].exists));
    }
    if i < looks.len() - 1 {
        assert(looks[i + 1].collision == collision_after(looks[i].collision, looks[i].exists));
    }
}

/// The name that the log gets was looked at and was free, and every name before it was looked at
/// and was taken.
pub proof fn law_archive_gets_the_first_free_name(
    base_name: Seq<char>,
    looks: Seq<ArchiveLook>,
    name: Seq<char>,
)
    requires
        archive_search(base_name, looks),
        archive_step(base_name, looks.last().collision, looks.last().exists) == Ok::<
            ArchiveStepView,
            RotationError,
        >(ArchiveStepView::Rename(name)),
    ensures
        name == archive_name(base_name, looks.last().collision),
        !looks.last().exists,
        looks.last().collision == looks.len() - 1,
        forall|i: int|
            0 <= i < looks.len() - 1 ==> (#[trigger] looks[i]).exists && looks[i].collision == i
                && archive_name(base_name, looks[i].collision) != name,
{
    lemma_archive_search(base_name, looks, looks.len() - 1);
    assert forall|i: int| 0 <= i < looks.len() - 1 implies (#[trigger] looks[i]).exists
        && looks[i].collision == i && archive_name(base_name, looks[i].collision) != name by {
        lemma_archive_search(base_name, looks, i);
        law_archive_names_do_not_repeat(base_name, looks[i].collision, looks.last().collision);
    }
}

/// No archive is overwritten: while the files stay the same, the log gets a name that none of them
/// has, and the search fails only if there is a file for every name.
pub proof fn law_no_archive_is_overwritten(
    base_name: Seq<char>,
    looks: Seq<ArchiveLook>,
    files: Set<Seq<char>>,
)
    requires
        archive_search(base_name, looks),
        forall|i: int|
            0 <= i < looks.len() ==> (#[trigger] looks[i]).exists == files.contains(
                archive_name(base_name, looks[i].collision),
            ),
    ensures
        match archive_step(base_name, looks.last().collision, looks.last().exists) {
            Ok(ArchiveStepView::Rename(name)) => {
                &&& !files.contains(name)
                &&& forall|n: u32|
                    n < looks.last().collision ==> files.contains(
                        #[trigger] archive_name(base_name, n),
                    )
            },
            Ok(ArchiveStepView::Try(_)) => true,
            Err(_) => forall|n: u32| files.contains(#[trigger] archive_name(base_name, n)),
        },
{
    let last = looks.len() - 1;
    lemma_archive_search(base_name, looks, last);
    assert(looks[last] == looks.last());
    assert forall|n: u32| n < looks.last().collision implies files.contains(
        #[trigger] archive_name(base_name, n),
    ) by {
        lemma_archive_search(base_name, looks, n as int);
        assert(looks[n as int].exists);
    }
}

/// The hours of the `+08:00` clock: an hour with the number `n` starts `n` times 3600 seconds after
/// the epoch on that clock, which is 28800 seconds before the epoch on the clock of UTC.
pub proof fn law_hours_are_those_of_the_plus_eight_clock(unix_seconds: i64)
    requires
        unix_seconds + 28800 <= i64::MAX,
    ensures
        hour_of(unix_seconds).0 * 3600 <= unix_seconds + 28800 < hour_of(unix_seconds).0 * 3600
            + 3600,
        hour_start(hour_of(unix_seconds)) == unix_seconds - (unix_seconds + 28800) % 3600,
{
}

/// The archive of a log is named after the hour that the log was written in: after the start of
/// that hour, on the `+08:00` clock, by year, month, day and hour.
pub proof fn law_archive_is_named_after_its_hour(unix_seconds: i64)
    requires
        unix_seconds + 28800 <= i64::MAX,
        unix_seconds - 3600 >= i64::MIN,
    ensures
        archive_suffix(hour_of(unix_seconds)) == clock_text(
            (unix_seconds - (unix_seconds + 28800) % 3600) as i64,
            28800,
            "%Y%m%d-%H"@,
        ),
        hour_has_date(hour_of(unix_seconds)) <==> -8_334_601_228_800 <= unix_seconds - (unix_seconds
            + 28800) % 3600 <= 8_210_266_876_799,
{
}

/// With hourly rotation, the first observation looks for a log that was left behind, a later hour
/// asks for an archive of the hour before the change, and nothing else asks for anything. Without
/// rotation nothing ever does.
pub proof fn law_rotation_follows_the_hours(
    current_hour: Option<ProfileLogHour>,
    observed: ProfileLogHour,
)
    ensures
        rotation_decision(ProfileLogRotation::Never, current_hour, observed) is Keep,
        rotation_decision(ProfileLogRotation::Hourly, None, observed) is Stale,
        current_hour matches Some(current) ==> {
            let decision = rotation_decision(ProfileLogRotation::Hourly, current_hour, observed);
            &&& decision !is Stale
            &&& decision is Keep <==> observed.0 <= current.0
            &&& decision matches RotationDecision::Completed(hour) ==> hour == current
        },
{
}

/// Whether a text spells a word that is given in small letters, without regard to case.
pub open spec fn spells_word(text: Seq<char>, word: Seq<char>) -> bool {
    &&& text.len() == word.len()
    &&& forall|i: int|
        0 <= i < text.len() ==> (#[trigger] text[i] == word[i] || (text[i] as u32 + 0x20
            == word[i] as u32 && 'A' <= text[i] <= 'Z'))
}

/// Whether the characters from `start` to `end` of a text spell a word, with nothing but white space
/// around them.
pub open spec fn word_between(
    value: Seq<char>,
    word: Seq<char>,
    start: int,
    end: int,
) -> bool {
    &&& 0 <= start <= end <= value.len()
    &&& forall|i: int| 0 <= i < start ==> white_space(#[trigger] value[i])
    &&& forall|i: int| end <= i < value.len() ==> white_space(#[trigger] value[i])
    &&& spells_word(value.subrange(start, end), word)
}

proof fn lemma_trims(value: Seq<char>) -> (cut: (int, int))
    ensures
        0 <= cut.0 <= cut.1 <= value.len(),
        forall|i: int| 0 <= i < cut.0 ==> white_space(#[trigger] value[i]),
        forall|i: int| cut.1 <= i < value.len() ==> white_space(#[trigger] value[i]),
        cut.0 < cut.1 ==> !white_space(value[cut.0]) && !white_space(value[cut.1 - 1]),
        trimmed_end(trimmed_start(value)) == value.subrange(cut.0, cut.1),
    decreases value.len(),
{
    if value.len() == 0 {
        assert(value.subrange(0, 0) =~= value);
        (0, 0)
    } else if white_space(value[0]) {
        let (a, b) = lemma_trims(value.drop_first());
        let rest = value.drop_first();
        assert forall|i: int| 0 <= i < a + 1 implies white_space(#[trigger] value[i]) by {
            if i > 0 {
                assert(white_space(rest[i - 1]));
            }
        }
        assert forall|i: int| b + 1 <= i < value.len() implies white_space(#[trigger] value[i]) by {
            assert(white_space(rest[i - 1]));
        }
        assert(value.subrange(a + 1, b + 1) =~= rest.subrange(a, b));
        (a + 1, b + 1)
    } else {
        let b = lemma_trims_end(value);
        (0, b)
    }
}

proof fn lemma_trims_end(value: Seq<char>) -> (end: int)
    requires
        value.len() > 0,
        !white_space(value[0]),
    ensures
        0 < end <= value.len(),
        forall|i: int| end <= i < value.len() ==> white_space(#[trigger] value[i]),
        !white_space(value[end - 1]),
        trimmed_end(value) == value.subrange(0, end),
    decreases value.len(),
{
    if white_space(value.last()) {
        let rest = value.drop_last();
        assert(rest[0] == value[0]);
        let end = lemma_trims_end(rest);
        assert forall|i: int| end <= i < value.len() implies white_space(#[trigger] value[i]) by {
            if i < rest.len() {
                assert(white_space(rest[i]));
            }
        }
        assert(value.subrange(0, end) =~= rest.subrange(0, end));
        end
    } else {
        assert(value.subrange(0, value.len() as int) =~= value);
        value.len() as int
    }
}

proof fn lemma_spells(text: Seq<char>, word: Seq<char>)
    requires
        forall|i: int| 0 <= i < word.len() ==> 'a' <= #[trigger] word[i] <= 'z',
    ensures
        spells_word(text, word) <==> Seq::new(text.len(), |i: int| lower_char(text[i])) == word,
{
    let lower = Seq::new(text.len(), |i: int| lower_char(text[i]));
    if spells_word(text, word) {
        assert forall|i: int| 0 <= i < text.len() implies lower[i] == word[i] by {
            assert(text[i] == word[i] || (text[i] as u32 + 0x20 == word[i] as u32 && 'A' <= text[i]
                <= 'Z'));
            assert('a' <= word[i] <= 'z');
        }
        assert(lower =~= word);
    }
    if lower == word {
        assert forall|i: int| 0 <= i < text.len() implies (#[trigger] text[i] == word[i] || (
        text[i] as u32 + 0x20 == word[i] as u32 && 'A' <= text[i] <= 'Z')) by {
            assert(lower[i] == word[i]);
        }
    }
}

proof fn lemma_word_between(value: Seq<char>, word: Seq<char>)
    requires
        word.len() > 0,
        forall|i: int| 0 <= i < word.len() ==> 'a' <= #[trigger] word[i] <= 'z',
    ensures
        setting_word(value) == word <==> exists|start: int, end: int|
            word_between(value, word, start, end),
{
    let (a, b) = lemma_trims(value);
    let inner = value.subrange(a, b);
    lemma_spells(inner, word);
    assert(setting_word(value) =~= Seq::new(inner.len(), |i: int| lower_char(inner[i])));
    if setting_word(value) == word {
        assert(word_between(value, word, a, b));
    }
    if exists|start: int, end: int| word_between(value, word, start, end) {
        let (start, end) = choose|start: int, end: int| word_between(value, word, start, end);
        let other = value.subrange(start, end);
        assert forall|i: int| start <= i < end implies !white_space(#[trigger] value[i]) by {
            assert(other[i - start] == value[i]);
            assert('a' <= word[i - start] <= 'z');
        }
        assert(start < end);
        assert(!white_space(value[start]));
        assert(!white_space(value[end - 1]));
        assert(a <= start);
        assert(end <= b);
        assert(a < b);
        assert(start == a && end == b);
    }
}

/// A setting names a policy exactly if it spells the policy's word, in small or capital letters,
/// with nothing but white space around it.
pub proof fn law_setting_names_a_policy_by_its_word(value: Seq<char>)
    ensures
        parsed_rotation(value) == Some(ProfileLogRotation::Never) <==> exists|start: int, end: int|
            word_between(value, seq!['n', 'e', 'v', 'e', 'r'], start, end),
        parsed_rotation(value) == Some(ProfileLogRotation::Hourly) <==> exists|start: int, end: int|
            word_between(value, seq!['h', 'o', 'u', 'r', 'l', 'y'], start, end),
{
    reveal_strlit("never");
    reveal_strlit("hourly");
    let never = seq!['n', 'e', 'v', 'e', 'r'];
    let hourly = seq!['h', 'o', 'u', 'r', 'l', 'y'];
    assert("never"@ =~= never);
    assert("hourly"@ =~= hourly);
    assert(never.len() != hourly.len());
    lemma_word_between(value, never);
    lemma_word_between(value, hourly);
}

/// White space is what Unicode calls so: twenty-five characters.
pub proof fn law_white_space_is_that_of_unicode(c: char)
    ensures
        white_space(c) <==> seq![
            0x09u32,
            0x0a,
            0x0b,
            0x0c,
            0x0d,
            0x20,
            0x85,
            0xa0,
            0x1680,
            0x2000,
            0x2001,
            0x2002,
            0x2003,
            0x2004,
            0x2005,
            0x2006,
            0x2007,
            0x2008,
            0x2009,
            0x200a,
            0x2028,
            0x2029,
            0x202f,
            0x205f,
            0x3000,
        ].contains(c as u32),
{
    let all = seq![
        0x09u32,
        0x0a,
        0x0b,
        0x0c,
        0x0d,
        0x20,
        0x85,
        0xa0,
        0x1680,
        0x2000,
        0x2001,
        0x2002,
        0x2003,
        0x2004,
        0x2005,
        0x2006,
        0x2007,
        0x2008,
        0x2009,
        0x200a,
        0x2028,
        0x2029,
        0x202f,
        0x205f,
        0x3000,
    ];
    let n = c as u32;
    if white_space(c) {
        let i: int = if n <= 0x0d {
            n - 0x09
        } else if n == 0x20 {
            5
        } else if n == 0x85 {
            6
        } else if n == 0xa0 {
            7
        } else if n == 0x1680 {
            8
        } else if n <= 0x200a {
            n - 0x2000 + 9
        } else if n == 0x2028 {
            20
        } else if n == 0x2029 {
            21
        } else if n == 0x202f {
            22
        } else if n == 0x205f {
            23
        } else {
            24
        };
        assert(all[i] == n);
    }
}

/// Rotation is on exactly if the setting is there and names the hourly policy, and there is a
/// warning exactly if the setting is there and names no policy.
pub proof fn law_only_a_named_policy_turns_rotation_on(setting: RotationSetting)
    ensures
        setting_rotation(setting) == ProfileLogRotation::Hourly <==> (
        setting matches RotationSetting::Value(value) && parsed_rotation(value@) == Some(
            ProfileLogRotation::Hourly,
        )),
        setting_warning(setting) is None <==> (setting is NotPresent || (
        setting matches RotationSetting::Value(value) && parsed_rotation(value@) is Some)),
{
}

/// The number that a run of decimal digits stands for.
pub open spec fn digits_value(digits: Seq<char>) -> int
    decreases digits.len(),
{
    if digits.len() == 0 {
        0
    } else {
        digits_value(digits.drop_last()) * 10 + (digits.last() as u32 - 0x30)
    }
}

proof fn lemma_digits_value(n: nat)
    ensures
        digits_value(decimal_chars(n)) == n,
    decreases n,
{
    reveal_with_fuel(digits_value, 2);
    lemma_digit_char((n % 10) as int);
    if n < 10 {
        lemma_digit_char(n as int);
        assert(decimal_chars(n).drop_last() =~= Seq::<char>::empty());
    } else {
        lemma_digits_value(n / 10);
        assert(decimal_chars(n).drop_last() =~= decimal_chars(n / 10));
    }
}

/// The name of an archive starts with that of the log and its hour. The first name is nothing but
/// that; the others go on with a dot and their number in decimal digits.
pub proof fn law_archive_name_ends_with_its_number(base_name: Seq<char>, collision: u32)
    ensures
        ({
            let name = archive_name(base_name, collision);
            let n = base_name.len() as int;
            &&& name.len() >= n
            &&& name.take(n) == base_name
            &&& collision == 0 ==> name == base_name
            &&& collision > 0 ==> {
                &&& name.len() > n + 1
                &&& name[n] == '.'
                &&& digits_value(name.skip(n + 1)) == collision
                &&& forall|i: int| n < i < name.len() ==> '0' <= #[trigger] name[i] <= '9'
            }
        }),
{
    reveal_strlit(".");
    let name = archive_name(base_name, collision);
    let n = base_name.len() as int;
    assert(name.take(n) =~= base_name);
    if collision > 0 {
        let digits = decimal_chars(collision as nat);
        lemma_decimal_chars(collision as nat);
        lemma_digits_value(collision as nat);
        assert(name.skip(n + 1) =~= digits);
        assert forall|i: int| n < i < name.len() implies '0' <= #[trigger] name[i] <= '9' by {
            assert(name[i] == digits[i - n - 1]);
        }
    }
}

/// A message about a setting that names no policy quotes that setting, between two fixed texts.
pub proof fn law_message_quotes_the_setting(value: Seq<char>)
    ensures
        ({
            let message = unsupported_message(value);
            let n = message.len() as int;
            &&& n == 66 + debug_form(value).len()
            &&& message.take(40) == "unsupported profile log rotation policy "@
            &&& message.subrange(40, n - 26) == debug_form(value)
            &&& message.skip(n - 26) == "; expected never or hourly"@
        }),
{
    reveal_strlit("unsupported profile log rotation policy ");
    reveal_strlit("; expected never or hourly");
    let message = unsupported_message(value);
    let n = message.len() as int;
    assert(message.take(40) =~= "unsupported profile log rotation policy "@);
    assert(message.subrange(40, n - 26) =~= debug_form(value));
    assert(message.skip(n - 26) =~= "; expected never or hourly"@);
}

/// Each error says what went wrong.
pub proof fn law_errors_say_what_went_wrong(error: RotationError)
    ensures
        error == RotationError::HourOutOfRange ==> rotation_message(error)
            == "profile log rotation hour is out of range"@,
        error == RotationError::TooManyArchives ==> rotation_message(error)
            == "too many colliding profile log archives"@,
{
}

} // verus!
