//! Rendering of file times as RFC 3339 texts with millisecond precision, in
//! UTC, in a named zone or in the zone of the machine.
use vstd::prelude::*;
use vstd::string::*;
use crate::meta::Timestamp;
use crate::text::chars_of;

verus! {

/// One day before the last second that the calendar of `chrono` reaches,
/// since the epoch. Times up to here can
/// be rendered in any zone.
pub const MAX_ZONED_SECS: u64 = 8210266790399;

/// The RFC 3339 text, in UTC with milliseconds and the suffix `Z`, of a time
/// since the epoch; none where the calendar of `chrono` does not reach it.
pub uninterp spec fn utc_rfc3339(secs: int, nanos: int) -> Option<Seq<char>>;

/// Whether a text names a zone of the time zone database.
pub uninterp spec fn is_zone_name(name: Seq<char>) -> bool;

/// The RFC 3339 text with milliseconds, in a named zone, of a time since
/// the epoch; none where the name is no zone or the calendar does not reach
/// the time.
pub uninterp spec fn zone_rfc3339(zone: Seq<char>, secs: int, nanos: int) -> Option<Seq<char>>;

/// Trusted: wraps `DateTime::from_timestamp` and `to_rfc3339_opts` of
/// `chrono`, with millisecond precision and `Z` for UTC. The result depends
/// on the two numbers alone; the contract names it.
#[verifier::external_body]
fn format_utc(secs: i64, nanos: u32) -> (r: Option<String>)
    ensures
        r is Some == utc_rfc3339(secs as int, nanos as int) is Some,
        r matches Some(t) ==> t@ == utc_rfc3339(secs as int, nanos as int).unwrap(),
{
    chrono::DateTime::from_timestamp(secs, nanos).map(
        |dt| dt.to_rfc3339_opts(chrono::SecondsFormat::Millis, true),
    )
}

/// Trusted: wraps the parsing of a zone name by `chrono_tz`, which looks
/// the name up in the zone table compiled into the crate.
#[verifier::external_body]
fn zone_known(name: &str) -> (b: bool)
    ensures
        b == is_zone_name(name@),
{
    name.parse::<chrono_tz::Tz>().is_ok()
}

/// Trusted: wraps the conversion of a UTC time into a zone of `chrono_tz`
/// and `to_rfc3339_opts` of `chrono`. The result depends on the name and the
/// two numbers alone; the contract names it. The bound keeps the local time
/// inside the calendar of `chrono`, which panics outside it: no zone is a
/// day or more away from UTC.
#[verifier::external_body]
fn format_in_zone(zone: &str, secs: i64, nanos: u32) -> (r: Option<String>)
    requires
        0 <= secs <= MAX_ZONED_SECS,
    ensures
        r is Some == zone_rfc3339(zone@, secs as int, nanos as int) is Some,
        r matches Some(t) ==> t@ == zone_rfc3339(zone@, secs as int, nanos as int).unwrap(),
{
    let tz = zone.parse::<chrono_tz::Tz>().ok()?;
    let utc = chrono::DateTime::from_timestamp(secs, nanos)?;
    Some(
        chrono::TimeZone::from_utc_datetime(&tz, &utc.naive_utc()).to_rfc3339_opts(
            chrono::SecondsFormat::Millis,
            true,
        ),
    )
}

/// The RFC 3339 text with milliseconds of a time since the epoch at a fixed
/// offset from UTC, in seconds east; none where the calendar of `chrono`
/// does not reach the time.
pub uninterp spec fn offset_rfc3339(offset: int, secs: int, nanos: int) -> Option<Seq<char>>;

/// Whether a text is the rendering of a time at some offset from UTC of
/// less than a day.
pub open spec fn is_offset_rendering(secs: int, nanos: int, text: Seq<char>) -> bool {
    exists|offset: int|
        -86400 < offset < 86400 && #[trigger] offset_rfc3339(offset, secs, nanos) == Some(text)
}

/// Trusted: wraps the conversion of a UTC time into the zone of the machine
/// and `to_rfc3339_opts` of `chrono`. Which offset the machine's zone has at
/// the time depends on the machine; the text is the rendering of the time
/// at that offset, and there is one exactly where the calendar reaches the
/// time. The bound is that of the named zones.
#[verifier::external_body]
fn format_local(secs: i64, nanos: u32) -> (r: Option<String>)
    requires
        0 <= secs <= MAX_ZONED_SECS,
    ensures
        r is Some == utc_rfc3339(secs as int, nanos as int) is Some,
        r matches Some(t) ==> (exists|offset: int|
            -86400 < offset < 86400 && #[trigger] offset_rfc3339(offset, secs as int, nanos as int)
                == Some(t@)),
{
    chrono::DateTime::from_timestamp(secs, nanos).map(
        |dt| chrono::DateTime::<chrono::Local>::from(dt).to_rfc3339_opts(
            chrono::SecondsFormat::Millis,
            true,
        ),
    )
}

/// Trusted: wraps `Local::now().format("%Z")` of `chrono`, the abbreviation
/// of the machine's zone. Nothing is promised of the text.
#[verifier::external_body]
fn local_zone_abbreviation() -> (r: String) {
    chrono::Local::now().format("%Z").to_string()
}

/// Trusted: wraps `Local::now().offset()` of `chrono`, rendered as a text.
/// The offset depends on the machine; `chrono` renders every offset with
/// its sign first, and the contract says no more.
#[verifier::external_body]
fn local_zone_offset() -> (r: String)
    ensures
        r@.len() > 0,
        r@[0] == '+' || r@[0] == '-',
{
    chrono::Local::now().offset().to_string()
}

/// Whether a character is white space.
pub open spec fn is_space(c: char) -> bool {
    let u = c as u32;
    (0x09 <= u && u <= 0x0D) || u == 0x20 || u == 0x85 || u == 0xA0 || u == 0x1680 || (0x2000 <= u
        && u <= 0x200A) || u == 0x2028 || u == 0x2029 || u == 0x202F || u == 0x205F || u == 0x3000
}

/// Tests whether a character is white space.
pub fn char_is_space(c: char) -> (b: bool)
    ensures
        b == is_space(c),
{
    let u = c as u32;
    (0x09 <= u && u <= 0x0D) || u == 0x20 || u == 0x85 || u == 0xA0 || u == 0x1680 || (0x2000 <= u
        && u <= 0x200A) || u == 0x2028 || u == 0x2029 || u == 0x202F || u == 0x205F || u == 0x3000
}

/// Whether a text holds nothing but white space.
pub open spec fn is_blank(s: Seq<char>) -> bool {
    forall|i: int| 0 <= i < s.len() ==> is_space(#[trigger] s[i])
}

/// Tests whether a text holds nothing but white space.
pub fn blank(s: &str) -> (b: bool)
    ensures
        b == is_blank(s@),
{
    let chars = chars_of(s);
    let mut i: usize = 0;
    while i < chars.len()
        invariant
            i <= chars.len(),
            chars@ == s@,
            forall|k: int| 0 <= k < i ==> is_space(#[trigger] chars@[k]),
        decreases chars.len() - i,
    {
        if !char_is_space(chars[i]) {
            assert(!is_space(s@[i as int]));
            return false;
        }
        i = i + 1;
    }
    true
}

/// The label of a zone: its abbreviation, or its offset where the
/// abbreviation is blank.
pub open spec fn label_choice(abbreviation: Seq<char>, offset: Seq<char>) -> Seq<char> {
    if is_blank(abbreviation) {
        offset
    } else {
        abbreviation
    }
}

/// How the times of a run are rendered.
#[derive(Debug, Clone)]
pub struct TimezoneInfo {
    use_utc: bool,
    timezone: Option<String>,
    label: String,
}

/// The mathematical value of a [`TimezoneInfo`].
pub ghost struct ZoneModel {
    /// Whether times are rendered in UTC.
    pub use_utc: bool,
    /// The named zone in which they are rendered otherwise, where one was
    /// asked for and is known.
    pub timezone: Option<Seq<char>>,
    /// The label that records carry.
    pub label: Seq<char>,
}

impl View for TimezoneInfo {
    type V = ZoneModel;

    closed spec fn view(&self) -> ZoneModel {
        ZoneModel {
            use_utc: self.use_utc,
            timezone: match self.timezone {
                Some(z) => Some(z@),
                None => None,
            },
            label: self.label@,
        }
    }
}

/// The zone setting of a run: UTC where asked for; the named zone where it
/// is known; the machine's zone otherwise. The label is `UTC`, else the name
/// asked for, known or not, else the label of the machine's zone.
pub open spec fn zone_setting(
    use_utc: bool,
    timezone_name: Option<Seq<char>>,
    local_label: Seq<char>,
) -> ZoneModel {
    ZoneModel {
        use_utc,
        timezone: match timezone_name {
            Some(n) => if is_zone_name(n) {
                Some(n)
            } else {
                None
            },
            None => None,
        },
        label: if use_utc {
            "UTC"@
        } else {
            match timezone_name {
                Some(n) => n,
                None => local_label,
            }
        },
    }
}

/// The text of a time under a zone setting, where the setting fixes it: in
/// UTC, or in a named zone as far as its calendar reaches.
pub open spec fn rendered(zone: ZoneModel, t: Timestamp) -> Option<Seq<char>> {
    if t.secs > i64::MAX {
        None
    } else if zone.use_utc {
        utc_rfc3339(t.secs as int, t.nanos as int)
    } else if t.secs > MAX_ZONED_SECS {
        None
    } else {
        match zone.timezone {
            Some(z) => zone_rfc3339(z, t.secs as int, t.nanos as int),
            None => None,
        }
    }
}

/// Whether a zone setting renders in the zone of the machine.
pub open spec fn is_local(zone: ZoneModel) -> bool {
    !zone.use_utc && zone.timezone is None
}

/// Whether a time has a text in the zone of the machine.
pub open spec fn local_has_text(t: Timestamp) -> bool {
    t.secs <= MAX_ZONED_SECS && utc_rfc3339(t.secs as int, t.nanos as int) is Some
}

/// Whether a text is what the zone of the machine owes for a time: there is
/// a text exactly where the calendar reaches the time, and it is the
/// rendering of the time at some offset.
pub open spec fn local_text_ok(t: Timestamp, text: Option<Seq<char>>) -> bool {
    &&& text is Some == local_has_text(t)
    &&& text matches Some(x) ==> is_offset_rendering(t.secs as int, t.nanos as int, x)
}

/// An optional text as a plain value.
pub open spec fn name_view(name: Option<String>) -> Option<Seq<char>> {
    match name {
        Some(n) => Some(n@),
        None => None,
    }
}

impl TimezoneInfo {
    /// The zone setting for a given label of the machine's zone.
    pub fn with_local_label(use_utc: bool, timezone_name: Option<String>, local_label: &str) -> (z:
        Self)
        ensures
            z@ == zone_setting(use_utc, name_view(timezone_name), local_label@),
    {
        let timezone = match &timezone_name {
            Some(n) => if zone_known(n.as_str()) {
                Some(n.clone())
            } else {
                None
            },
            None => None,
        };
        let label = if use_utc {
            String::from_str("UTC")
        } else {
            match timezone_name {
                Some(n) => n,
                None => String::from_str(local_label),
            }
        };
        TimezoneInfo { use_utc, timezone, label }
    }

    /// The label of the machine's zone: its abbreviation, or its offset
    /// where the abbreviation is blank. Both depend on the machine; whatever
    /// they are, the label is not blank.
    pub fn local_label() -> (r: String)
        ensures
            !is_blank(r@),
    {
        let display = local_zone_abbreviation();
        let offset = local_zone_offset();
        assert(!is_space(offset@[0]));
        Self::label_from(display, offset)
    }

    /// The label of a zone from its abbreviation and its offset: the
    /// abbreviation, or the offset where the abbreviation is blank.
    pub fn label_from(abbreviation: String, offset: String) -> (r: String)
        ensures
            r@ == label_choice(abbreviation@, offset@),
    {
        if blank(abbreviation.as_str()) {
            offset
        } else {
            abbreviation
        }
    }

    /// The zone setting of a run. The label of the machine's zone is asked
    /// for only where it is shown; there the label is not blank.
    pub fn new(use_utc: bool, timezone_name: Option<String>) -> (z: Self)
        ensures
            exists|local_label: Seq<char>|
                z@ == #[trigger] zone_setting(use_utc, name_view(timezone_name), local_label),
            !use_utc && timezone_name is None ==> !is_blank(z@.label),
    {
        if use_utc || timezone_name.is_some() {
            let z = Self::with_local_label(use_utc, timezone_name, "");
            assert(z@ == zone_setting(use_utc, name_view(timezone_name), ""@));
            z
        } else {
            let local = Self::local_label();
            Self::with_local_label(use_utc, timezone_name, local.as_str())
        }
    }

    /// The label that records carry.
    pub fn label(&self) -> (s: &str)
        ensures
            s@ == self@.label,
    {
        self.label.as_str()
    }

    /// Renders a time. In UTC and in a named zone the text is fixed by the
    /// setting; in the zone of the machine it is the rendering at the offset
    /// that the machine's zone has at the time.
    pub fn format_system_time(&self, time: Timestamp) -> (r: Option<String>)
        ensures
            !is_local(self@) ==> (r is Some == rendered(self@, time) is Some) && (r matches Some(t)
                ==> t@ == rendered(self@, time).unwrap()),
            is_local(self@) ==> local_text_ok(time, name_view(r)),
    {
        if time.secs > i64::MAX as u64 {
            return None;
        }
        let secs = time.secs as i64;
        if self.use_utc {
            format_utc(secs, time.nanos)
        } else if time.secs > MAX_ZONED_SECS {
            None
        } else {
            match &self.timezone {
                Some(z) => format_in_zone(z.as_str(), secs, time.nanos),
                None => format_local(secs, time.nanos),
            }
        }
    }
}

} // verus!
