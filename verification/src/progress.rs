//! The progress lines of yt-dlp.
use vstd::prelude::*;

use crate::text;

verus! {

/// What a progress line says. The speed is kept as it is written.
#[derive(Debug, PartialEq, Eq)]
pub struct YtDlpProgress {
    pub status: Option<String>,
    pub downloaded_bytes: Option<u64>,
    pub total_bytes: Option<u64>,
    pub total_bytes_estimate: Option<u64>,
    pub speed: Option<String>,
    pub eta_seconds: Option<u64>,
}

/// What a progress line says.
#[verifier::ext_equal]
pub struct ProgressView {
    pub status: Option<Seq<char>>,
    pub downloaded_bytes: Option<u64>,
    pub total_bytes: Option<u64>,
    pub total_bytes_estimate: Option<u64>,
    pub speed: Option<Seq<char>>,
    pub eta_seconds: Option<u64>,
}

impl View for YtDlpProgress {
    type V = ProgressView;

    open spec fn view(&self) -> ProgressView {
        ProgressView {
            status: text::optional(self.status),
            downloaded_bytes: self.downloaded_bytes,
            total_bytes: self.total_bytes,
            total_bytes_estimate: self.total_bytes_estimate,
            speed: text::optional(self.speed),
            eta_seconds: self.eta_seconds,
        }
    }
}

/// What is known of the seconds that a download still takes.
#[derive(Debug, PartialEq, Eq)]
pub enum Eta {
    /// The line says it.
    Known { seconds: u64 },
    /// It follows from the bytes that remain and the speed.
    Computed { remaining_bytes: u64, speed: String },
    /// Nothing.
    Unknown,
}

/// A field of a progress line, if there is one.
pub open spec fn field(fields: Seq<Seq<char>>, i: int) -> Option<Seq<char>> {
    if 0 <= i < fields.len() {
        Some(fields[i])
    } else {
        None
    }
}

/// The value of a field: what is left without white space around it, unless
/// that is nothing or `NA`.
pub open spec fn field_value(value: Option<Seq<char>>) -> Option<Seq<char>> {
    match value {
        Some(written) => {
            let kept = text::trimmed(written);
            if kept.len() == 0 || kept == "NA"@ {
                None
            } else {
                Some(kept)
            }
        },
        None => None,
    }
}

/// The number that a field writes.
pub open spec fn field_number(value: Option<Seq<char>>) -> Option<u64> {
    match field_value(value) {
        Some(written) => text::unsigned_value(written),
        None => None,
    }
}

/// What a line says of the progress, if it is a progress line.
pub open spec fn progress_of(line: Seq<char>) -> Option<ProgressView> {
    match text::after_head(line, "yt-dlp-rss-progress|"@) {
        Some(payload) => {
            let fields = text::split_on(payload, '|');
            Some(
                ProgressView {
                    status: field_value(field(fields, 0)),
                    downloaded_bytes: field_number(field(fields, 1)),
                    total_bytes: field_number(field(fields, 2)),
                    total_bytes_estimate: field_number(field(fields, 3)),
                    speed: field_value(field(fields, 4)),
                    eta_seconds: field_number(field(fields, 5)),
                },
            )
        },
        None => None,
    }
}

/// What an optional slice of characters holds.
pub open spec fn optional_chars(value: Option<&[char]>) -> Option<Seq<char>> {
    match value {
        Some(chars) => Some(chars@),
        None => None,
    }
}

/// The value of a field, without white space around it; none where that is
/// nothing or `NA`.
pub fn empty_to_none<'a>(value: Option<&'a [char]>) -> (kept: Option<&'a [char]>)
    ensures
        optional_chars(kept) == field_value(optional_chars(value)),
{
    match value {
        Some(written) => {
            let kept: &[char] = text::trim(written);
            let not_available: Vec<char> = text::chars_of("NA");
            if kept.len() == 0 || text::same_chars(kept, not_available.as_slice()) {
                None
            } else {
                Some(kept)
            }
        },
        None => None,
    }
}

/// The number that a field writes.
pub fn parse_u64_field(value: Option<&[char]>) -> (number: Option<u64>)
    ensures
        number == field_number(optional_chars(value)),
{
    match empty_to_none(value) {
        Some(written) => text::parse_unsigned(written),
        None => None,
    }
}

fn text_field(value: Option<&[char]>) -> (kept: Option<String>)
    ensures
        text::optional(kept) == field_value(optional_chars(value)),
{
    match empty_to_none(value) {
        Some(written) => Some(text::text_of(written)),
        None => None,
    }
}

fn nth_field(fields: &Vec<Vec<char>>, i: usize) -> (value: Option<&[char]>)
    ensures
        optional_chars(value) == if i < fields@.len() {
            Some(fields@[i as int]@)
        } else {
            None
        },
{
    if i < fields.len() {
        Some(fields[i].as_slice())
    } else {
        None
    }
}

/// Reads a progress line. Any other line is none.
pub fn parse_ytdlp_progress(line: &str) -> (progress: Option<YtDlpProgress>)
    ensures
        match progress {
            Some(read) => progress_of(line@) == Some(read@),
            None => progress_of(line@) is None,
        },
{
    let chars: Vec<char> = text::chars_of(line);
    let head: Vec<char> = text::chars_of("yt-dlp-rss-progress|");
    match text::strip_head(chars.as_slice(), head.as_slice()) {
        Some(payload) => {
            let fields: Vec<Vec<char>> = text::split(payload, '|');
            Some(
                YtDlpProgress {
                    status: text_field(nth_field(&fields, 0)),
                    downloaded_bytes: parse_u64_field(nth_field(&fields, 1)),
                    total_bytes: parse_u64_field(nth_field(&fields, 2)),
                    total_bytes_estimate: parse_u64_field(nth_field(&fields, 3)),
                    speed: text_field(nth_field(&fields, 4)),
                    eta_seconds: parse_u64_field(nth_field(&fields, 5)),
                },
            )
        },
        None => None,
    }
}

impl ProgressView {
    /// The size of the whole, or what it is estimated to be.
    pub open spec fn total(self) -> Option<u64> {
        match self.total_bytes {
            Some(bytes) => Some(bytes),
            None => self.total_bytes_estimate,
        }
    }

    /// The bytes that are still to come, where both sizes are known.
    pub open spec fn remaining(self) -> Option<u64> {
        match (self.total(), self.downloaded_bytes) {
            (Some(total), Some(downloaded)) => if downloaded <= total {
                Some((total - downloaded) as u64)
            } else {
                None
            },
            _ => None,
        }
    }
}

impl YtDlpProgress {
    /// The size of the whole, or what it is estimated to be.
    pub fn total_or_estimate(&self) -> (total: Option<u64>)
        ensures
            total == self@.total(),
    {
        match self.total_bytes {
            Some(bytes) => Some(bytes),
            None => self.total_bytes_estimate,
        }
    }

    /// What is known of the seconds that the download still takes: what the
    /// line says, else what the remaining bytes and the speed come to.
    pub fn eta(&self) -> (eta: Eta)
        ensures
            match self@.eta_seconds {
                Some(said) => eta matches Eta::Known { seconds } && seconds == said,
                None => match (self@.remaining(), self@.speed) {
                    (Some(bytes), Some(written)) => eta matches Eta::Computed {
                        remaining_bytes,
                        speed,
                    } && remaining_bytes == bytes && speed@ == written,
                    _ => eta is Unknown,
                },
            },
            eta is Known <==> self.eta_seconds is Some,
            eta matches Eta::Computed { remaining_bytes, .. } ==> self.downloaded_bytes is Some
                && self@.total() is Some && remaining_bytes + self.downloaded_bytes->0
                == self@.total()->0,
    {
        match self.eta_seconds {
            Some(seconds) => {
                return Eta::Known { seconds };
            },
            None => {},
        }
        match (self.total_or_estimate(), self.downloaded_bytes) {
            (Some(total), Some(downloaded)) => match total.checked_sub(downloaded) {
                Some(remaining_bytes) => match &self.speed {
                    Some(speed) => Eta::Computed { remaining_bytes, speed: speed.clone() },
                    None => Eta::Unknown,
                },
                None => Eta::Unknown,
            },
            _ => Eta::Unknown,
        }
    }
}

/// A number of seconds in hours, minutes and seconds. Hours and minutes are
/// left out where they and all before them are zero.
pub open spec fn duration_text(seconds: u64) -> Seq<char> {
    let h = seconds as nat / 3600;
    let m = (seconds as nat % 3600) / 60;
    let s = seconds as nat % 60;
    if h > 0 {
        text::decimal_text(h) + "h "@ + text::decimal_text(m) + "m "@ + text::decimal_text(s)
            + "s"@
    } else if m > 0 {
        text::decimal_text(m) + "m "@ + text::decimal_text(s) + "s"@
    } else {
        text::decimal_text(s) + "s"@
    }
}

/// Writes a number of seconds for readers.
pub fn format_duration(seconds: u64) -> (written: String)
    ensures
        written@ == duration_text(seconds),
{
    let hours: u64 = seconds / 3600;
    let minutes: u64 = (seconds % 3600) / 60;
    let rest: u64 = seconds % 60;
    let mut written: String = String::new();
    if hours > 0 {
        let digits: String = text::decimal(hours);
        written.append(digits.as_str());
        written.append("h ");
    }
    if hours > 0 || minutes > 0 {
        let digits: String = text::decimal(minutes);
        written.append(digits.as_str());
        written.append("m ");
    }
    let digits: String = text::decimal(rest);
    written.append(digits.as_str());
    written.append("s");
    assert(written@ =~= duration_text(seconds));
    written
}

/// Whether a value stands in a field of a progress line as it is: it holds
/// something other than `NA`, no white space around it, and no `|`.
pub open spec fn is_field(value: Seq<char>) -> bool {
    &&& value.len() > 0
    &&& value != "NA"@
    &&& !text::is_white_space(value[0])
    &&& !text::is_white_space(value.last())
    &&& !value.contains('|')
}

/// The progress line with these fields.
pub open spec fn written_line(fields: Seq<Seq<char>>) -> Seq<char> {
    "yt-dlp-rss-progress|"@ + text::joined_by(fields, '|')
}

proof fn lemma_fields_are_found(fields: Seq<Seq<char>>)
    requires
        fields.len() > 0,
        forall|i: int| 0 <= i < fields.len() ==> !(#[trigger] fields[i]).contains('|'),
    ensures
        text::after_head(written_line(fields), "yt-dlp-rss-progress|"@) == Some(
            text::joined_by(fields, '|'),
        ),
        text::split_on(text::joined_by(fields, '|'), '|') == fields,
{
    text::lemma_behind_head(
        written_line(fields),
        "yt-dlp-rss-progress|"@,
        text::joined_by(fields, '|'),
    );
    text::lemma_joined_parts_split_back(fields, '|');
}

proof fn lemma_number_is_a_field(n: u64)
    ensures
        is_field(text::decimal_text(n as nat)),
        field_number(Some(text::decimal_text(n as nat))) == Some(n),
{
    let digits = text::decimal_text(n as nat);
    reveal_strlit("NA");
    text::lemma_decimal_digits(n as nat);
    text::lemma_decimal_reads_back(n);
    assert(text::is_digit(digits[0]));
    assert(text::is_digit(digits[digits.len() - 1]));
    assert("NA"@[0] == 'N');
    if digits.contains('|') {
        let k = choose|k: int| 0 <= k < digits.len() && digits[k] == '|';
        assert(text::is_digit(digits[k]));
    }
    text::lemma_tight_text_is_not_trimmed(digits);
}

/// A progress line says what was written into its fields, in this order: the
/// status, the bytes that are there, the size, what the size is estimated to be,
/// the speed, and the seconds that are left.
pub proof fn lemma_progress_is_read_as_written(
    status: Seq<char>,
    downloaded: u64,
    total: u64,
    estimate: u64,
    speed: Seq<char>,
    eta: u64,
)
    requires
        is_field(status),
        is_field(speed),
    ensures
        progress_of(
            written_line(
                seq![
                    status,
                    text::decimal_text(downloaded as nat),
                    text::decimal_text(total as nat),
                    text::decimal_text(estimate as nat),
                    speed,
                    text::decimal_text(eta as nat),
                ],
            ),
        ) == Some(
            ProgressView {
                status: Some(status),
                downloaded_bytes: Some(downloaded),
                total_bytes: Some(total),
                total_bytes_estimate: Some(estimate),
                speed: Some(speed),
                eta_seconds: Some(eta),
            },
        ),
{
    let fields = seq![
        status,
        text::decimal_text(downloaded as nat),
        text::decimal_text(total as nat),
        text::decimal_text(estimate as nat),
        speed,
        text::decimal_text(eta as nat),
    ];
    lemma_number_is_a_field(downloaded);
    lemma_number_is_a_field(total);
    lemma_number_is_a_field(estimate);
    lemma_number_is_a_field(eta);
    assert forall|i: int| 0 <= i < fields.len() implies !(#[trigger] fields[i]).contains('|') by {
    }
    lemma_fields_are_found(fields);
    text::lemma_tight_text_is_not_trimmed(status);
    text::lemma_tight_text_is_not_trimmed(speed);
}

/// A field with nothing but white space, or with `NA`, says nothing, and neither
/// does one that is not there; and a field that is no number says no number.
pub proof fn lemma_unknown_fields_say_nothing(value: Seq<char>, fields: Seq<Seq<char>>)
    ensures
        (forall|i: int| 0 <= i < value.len() ==> text::is_white_space(#[trigger] value[i]))
            ==> field_value(Some(value)) is None,
        field_value(Some("NA"@)) is None,
        field_value(None) is None,
        field_number(None) is None,
        field(fields, fields.len() as int) is None,
        field_number(Some(value)) is Some ==> field_value(Some(value)) is Some
            && text::unsigned_value(field_value(Some(value))->0) is Some,
        field_value(Some(value)) is Some ==> field_value(Some(value)) == Some(
            text::trimmed(value),
        ),
{
    reveal_strlit("NA");
    assert("NA"@[0] == 'N' && "NA"@[1] == 'A');
    text::lemma_tight_text_is_not_trimmed("NA"@);
    if forall|i: int| 0 <= i < value.len() ==> text::is_white_space(#[trigger] value[i]) {
        let around = text::lemma_only_white_space_is_trimmed(value);
        if text::trimmed(value).len() > 0 {
            assert(value[around.0.len() as int] == text::trimmed(value)[0]);
        }
    }
}

/// A line says something of the progress exactly where it begins as progress
/// lines do.
pub proof fn lemma_other_lines_are_no_progress(line: Seq<char>)
    ensures
        progress_of(line) is Some <==> text::begins_with(line, "yt-dlp-rss-progress|"@),
{
}

/// The size that counts is the size where it is known, and else what it is
/// estimated to be. The bytes that remain make, with those that are there, the
/// size.
pub proof fn lemma_remaining_bytes_add_up(progress: ProgressView)
    ensures
        progress.total_bytes is Some ==> progress.total() == progress.total_bytes,
        progress.total_bytes is None ==> progress.total() == progress.total_bytes_estimate,
        progress.remaining() matches Some(remaining) ==> progress.total() is Some
            && progress.downloaded_bytes is Some && remaining + progress.downloaded_bytes->0
            == progress.total()->0,
        progress.total() is Some && progress.downloaded_bytes is Some
            && progress.downloaded_bytes->0 <= progress.total()->0 ==> progress.remaining() is Some,
{
}

/// A duration is written as hours, minutes and seconds that make it, of which the
/// minutes and the seconds are less than sixty; hours that are zero are left out,
/// and so are minutes that are zero where the hours are left out.
pub proof fn lemma_duration_adds_up(seconds: u64) -> (parts: (nat, nat, nat))
    ensures
        parts.0 * 3600 + parts.1 * 60 + parts.2 == seconds,
        parts.1 < 60 && parts.2 < 60,
        parts.0 > 0 ==> duration_text(seconds) == text::decimal_text(parts.0) + "h "@
            + text::decimal_text(parts.1) + "m "@ + text::decimal_text(parts.2) + "s"@,
        parts.0 == 0 && parts.1 > 0 ==> duration_text(seconds) == text::decimal_text(parts.1)
            + "m "@ + text::decimal_text(parts.2) + "s"@,
        parts.0 == 0 && parts.1 == 0 ==> duration_text(seconds) == text::decimal_text(parts.2)
            + "s"@,
{
    let total = seconds as nat;
    (total / 3600, (total % 3600) / 60, total % 60)
}

} // verus!
