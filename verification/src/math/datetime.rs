//! Date and time helpers: resolving civil (wall-clock) times to epoch
//! seconds and instants to civil dates, and resolving time zone identifiers
//! (IANA names, common abbreviations and fixed UTC offsets) to the zone they
//! stand for.

use crate::text::{equals_str, str_to_chars, trim_char_slice, trim_spec};
use crate::version::{all_digits, decimal_value};
use jiff::civil::DateTime;
use jiff::Timestamp;
use jiff::tz::{Offset, TimeZone};
use vstd::prelude::*;

verus! {

/// `jiff::tz::TimeZone`, carried through as an opaque value.
#[verifier::external_type_specification]
#[verifier::external_body]
pub struct ExTimeZone(jiff::tz::TimeZone);

/// The ASCII upper-case of one character.
pub open spec fn ascii_upper(c: char) -> char {
    if 'a' <= c && c <= 'z' {
        ((c as u32) - 32) as char
    } else {
        c
    }
}

/// The ASCII lower-case of one character.
pub open spec fn ascii_lower(c: char) -> char {
    if 'A' <= c && c <= 'Z' {
        ((c as u32) + 32) as char
    } else {
        c
    }
}

fn to_ascii_upper(c: char) -> (r: char)
    ensures
        r == ascii_upper(c),
{
    if 'a' <= c && c <= 'z' {
        ((c as u32 - 32) as u8) as char
    } else {
        c
    }
}

fn to_ascii_lower(c: char) -> (r: char)
    ensures
        r == ascii_lower(c),
{
    if 'A' <= c && c <= 'Z' {
        ((c as u32 + 32) as u8) as char
    } else {
        c
    }
}

/// The IANA zone that a common abbreviation stands for, compared after
/// ASCII upper-casing; `None` for an unknown abbreviation.
pub open spec fn abbrev_iana_spec(key: Seq<char>) -> Option<Seq<char>> {
    if key == "EST"@ || key == "EDT"@ || key == "ET"@ {
        Some("America/New_York"@)
    } else if key == "CST"@ || key == "CDT"@ || key == "CT"@ {
        Some("America/Chicago"@)
    } else if key == "MST"@ || key == "MDT"@ || key == "MT"@ {
        Some("America/Denver"@)
    } else if key == "PST"@ || key == "PDT"@ || key == "PT"@ {
        Some("America/Los_Angeles"@)
    } else if key == "AKST"@ || key == "AKDT"@ {
        Some("America/Anchorage"@)
    } else if key == "HST"@ {
        Some("Pacific/Honolulu"@)
    } else if key == "BST"@ || key == "GB"@ {
        Some("Europe/London"@)
    } else if key == "CET"@ || key == "CEST"@ {
        Some("Europe/Paris"@)
    } else if key == "EET"@ || key == "EEST"@ {
        Some("Europe/Athens"@)
    } else if key == "IST"@ {
        Some("Asia/Kolkata"@)
    } else if key == "JST"@ {
        Some("Asia/Tokyo"@)
    } else if key == "KST"@ {
        Some("Asia/Seoul"@)
    } else if key == "SGT"@ {
        Some("Asia/Singapore"@)
    } else if key == "HKT"@ {
        Some("Asia/Hong_Kong"@)
    } else if key == "AEST"@ || key == "AEDT"@ {
        Some("Australia/Sydney"@)
    } else if key == "NZST"@ || key == "NZDT"@ {
        Some("Pacific/Auckland"@)
    } else {
        None
    }
}

/// The representative IANA zone of abbreviation `abbr`.
pub open spec fn abbrev_to_iana_spec(abbr: Seq<char>) -> Option<Seq<char>> {
    abbrev_iana_spec(abbr.map_values(|c: char| ascii_upper(c)))
}

/// The standard-time UTC offset, in seconds, of the region that an
/// (upper-case) time zone abbreviation names; its daylight-saving and
/// generic forms name the same region (CST, CDT and CT: US Central,
/// UTC-6). `None` for an unknown abbreviation.
pub open spec fn abbrev_standard_offset(key: Seq<char>) -> Option<int> {
    if key == "EST"@ || key == "EDT"@ || key == "ET"@ {
        Some(-18000)
    } else if key == "CST"@ || key == "CDT"@ || key == "CT"@ {
        Some(-21600)
    } else if key == "MST"@ || key == "MDT"@ || key == "MT"@ {
        Some(-25200)
    } else if key == "PST"@ || key == "PDT"@ || key == "PT"@ {
        Some(-28800)
    } else if key == "AKST"@ || key == "AKDT"@ {
        Some(-32400)
    } else if key == "HST"@ {
        Some(-36000)
    } else if key == "BST"@ || key == "GB"@ {
        Some(0)
    } else if key == "CET"@ || key == "CEST"@ {
        Some(3600)
    } else if key == "EET"@ || key == "EEST"@ {
        Some(7200)
    } else if key == "IST"@ {
        Some(19800)
    } else if key == "JST"@ {
        Some(32400)
    } else if key == "KST"@ {
        Some(32400)
    } else if key == "SGT"@ {
        Some(28800)
    } else if key == "HKT"@ {
        Some(28800)
    } else if key == "AEST"@ || key == "AEDT"@ {
        Some(36000)
    } else if key == "NZST"@ || key == "NZDT"@ {
        Some(43200)
    } else {
        None
    }
}

/// The standard-time UTC offset, in seconds, of an IANA time zone of the
/// time zone database (America/Chicago: UTC-6). `None` for a zone not
/// listed here.
pub open spec fn zone_standard_offset(zone: Seq<char>) -> Option<int> {
    if zone == "America/Anchorage"@ {
        Some(-32400)
    } else if zone == "America/Chicago"@ {
        Some(-21600)
    } else if zone == "America/Denver"@ {
        Some(-25200)
    } else if zone == "America/Los_Angeles"@ {
        Some(-28800)
    } else if zone == "America/New_York"@ {
        Some(-18000)
    } else if zone == "Asia/Hong_Kong"@ {
        Some(28800)
    } else if zone == "Asia/Kolkata"@ {
        Some(19800)
    } else if zone == "Asia/Seoul"@ {
        Some(32400)
    } else if zone == "Asia/Singapore"@ {
        Some(28800)
    } else if zone == "Asia/Tokyo"@ {
        Some(32400)
    } else if zone == "Australia/Sydney"@ {
        Some(36000)
    } else if zone == "Europe/Athens"@ {
        Some(7200)
    } else if zone == "Europe/London"@ {
        Some(0)
    } else if zone == "Europe/Paris"@ {
        Some(3600)
    } else if zone == "Pacific/Auckland"@ {
        Some(43200)
    } else if zone == "Pacific/Honolulu"@ {
        Some(-36000)
    } else {
        None
    }
}

/// Each abbreviation resolves to a zone whose standard UTC offset is the
/// abbreviation's (CST, CDT and CT to a zone at UTC-6, PST to one at UTC-8,
/// JST to one at UTC+9, and so on), and, where the abbreviation is one
/// country's, to a zone of that country (JST to Japan, KST to Korea).
/// The country (ISO 3166 numeric code) whose time an (upper-case)
/// abbreviation names, where it is one country's: US 840, United Kingdom
/// 826, India 356, Japan 392, South Korea 410, Singapore 702, Hong Kong
/// 344, Australia 36, New Zealand 554. `None` otherwise (CET and EET are
/// shared by many countries).
pub open spec fn abbrev_country(key: Seq<char>) -> Option<int> {
    if key == "EST"@ || key == "EDT"@ || key == "ET"@ || key == "CST"@ || key == "CDT"@ || key == "CT"@ || key == "MST"@ || key == "MDT"@ || key == "MT"@ || key == "PST"@ || key == "PDT"@ || key == "PT"@ || key == "AKST"@ || key == "AKDT"@ || key == "HST"@ {
        Some(840)
    } else if key == "BST"@ || key == "GB"@ {
        Some(826)
    } else if key == "IST"@ {
        Some(356)
    } else if key == "JST"@ {
        Some(392)
    } else if key == "KST"@ {
        Some(410)
    } else if key == "SGT"@ {
        Some(702)
    } else if key == "HKT"@ {
        Some(344)
    } else if key == "AEST"@ || key == "AEDT"@ {
        Some(36)
    } else if key == "NZST"@ || key == "NZDT"@ {
        Some(554)
    } else {
        None
    }
}

/// The country (ISO 3166 numeric code) of an IANA time zone listed here.
pub open spec fn zone_country(zone: Seq<char>) -> Option<int> {
    if zone == "America/Anchorage"@ {
        Some(840)
    } else if zone == "America/Chicago"@ {
        Some(840)
    } else if zone == "America/Denver"@ {
        Some(840)
    } else if zone == "America/Los_Angeles"@ {
        Some(840)
    } else if zone == "America/New_York"@ {
        Some(840)
    } else if zone == "Asia/Hong_Kong"@ {
        Some(344)
    } else if zone == "Asia/Kolkata"@ {
        Some(356)
    } else if zone == "Asia/Seoul"@ {
        Some(410)
    } else if zone == "Asia/Singapore"@ {
        Some(702)
    } else if zone == "Asia/Tokyo"@ {
        Some(392)
    } else if zone == "Australia/Sydney"@ {
        Some(36)
    } else if zone == "Europe/Athens"@ {
        Some(300)
    } else if zone == "Europe/London"@ {
        Some(826)
    } else if zone == "Europe/Paris"@ {
        Some(250)
    } else if zone == "Pacific/Auckland"@ {
        Some(554)
    } else if zone == "Pacific/Honolulu"@ {
        Some(840)
    } else {
        None
    }
}

#[verifier::rlimit(60)]
pub proof fn lemma_abbrev_zone_offset(abbr: Seq<char>)
    ensures
        abbrev_to_iana_spec(abbr) matches Some(z) ==> zone_standard_offset(z) is Some
            && zone_standard_offset(z) == abbrev_standard_offset(abbr.map_values(|c: char| ascii_upper(c)))
            && (abbrev_country(abbr.map_values(|c: char| ascii_upper(c))) is Some ==> zone_country(z)
            == abbrev_country(abbr.map_values(|c: char| ascii_upper(c)))),
{
    reveal_strlit("AEDT");
    reveal_strlit("AEST");
    reveal_strlit("AKDT");
    reveal_strlit("AKST");
    reveal_strlit("America/Anchorage");
    reveal_strlit("America/Chicago");
    reveal_strlit("America/Denver");
    reveal_strlit("America/Los_Angeles");
    reveal_strlit("America/New_York");
    reveal_strlit("Asia/Hong_Kong");
    reveal_strlit("Asia/Kolkata");
    reveal_strlit("Asia/Seoul");
    reveal_strlit("Asia/Singapore");
    reveal_strlit("Asia/Tokyo");
    reveal_strlit("Australia/Sydney");
    reveal_strlit("BST");
    reveal_strlit("CDT");
    reveal_strlit("CEST");
    reveal_strlit("CET");
    reveal_strlit("CST");
    reveal_strlit("CT");
    reveal_strlit("EDT");
    reveal_strlit("EEST");
    reveal_strlit("EET");
    reveal_strlit("EST");
    reveal_strlit("ET");
    reveal_strlit("Europe/Athens");
    reveal_strlit("Europe/London");
    reveal_strlit("Europe/Paris");
    reveal_strlit("GB");
    reveal_strlit("HKT");
    reveal_strlit("HST");
    reveal_strlit("IST");
    reveal_strlit("JST");
    reveal_strlit("KST");
    reveal_strlit("MDT");
    reveal_strlit("MST");
    reveal_strlit("MT");
    reveal_strlit("NZDT");
    reveal_strlit("NZST");
    reveal_strlit("PDT");
    reveal_strlit("PST");
    reveal_strlit("PT");
    reveal_strlit("Pacific/Auckland");
    reveal_strlit("Pacific/Honolulu");
    reveal_strlit("SGT");
    let key = abbr.map_values(|c: char| ascii_upper(c));
    assert("America/Anchorage"@.len() == 17);
    assert("America/Chicago"@.len() == 15);
    assert("America/Denver"@.len() == 14);
    assert("America/Los_Angeles"@.len() == 19);
    assert("America/New_York"@.len() == 16);
    assert("Asia/Hong_Kong"@.len() == 14);
    assert("Asia/Kolkata"@.len() == 12);
    assert("Asia/Seoul"@.len() == 10);
    assert("Asia/Singapore"@.len() == 14);
    assert("Asia/Tokyo"@.len() == 10);
    assert("Australia/Sydney"@.len() == 16);
    assert("Europe/Athens"@.len() == 13);
    assert("Europe/London"@.len() == 13);
    assert("Europe/Paris"@.len() == 12);
    assert("Pacific/Auckland"@.len() == 16);
    assert("Pacific/Honolulu"@.len() == 16);
    assert("America/Denver"@[1] != "Asia/Hong_Kong"@[1]);
    assert("America/Denver"@[1] != "Asia/Singapore"@[1]);
    assert("America/New_York"@[1] != "Australia/Sydney"@[1]);
    assert("America/New_York"@[0] != "Pacific/Auckland"@[0]);
    assert("America/New_York"@[0] != "Pacific/Honolulu"@[0]);
    assert("Asia/Hong_Kong"@[5] != "Asia/Singapore"@[5]);
    assert("Asia/Kolkata"@[0] != "Europe/Paris"@[0]);
    assert("Asia/Seoul"@[5] != "Asia/Tokyo"@[5]);
    assert("Australia/Sydney"@[0] != "Pacific/Auckland"@[0]);
    assert("Australia/Sydney"@[0] != "Pacific/Honolulu"@[0]);
    assert("Europe/Athens"@[7] != "Europe/London"@[7]);
    assert("Pacific/Auckland"@[8] != "Pacific/Honolulu"@[8]);
    assert(zone_standard_offset("America/Anchorage"@) == Some(-32400int));
    assert(zone_standard_offset("America/Chicago"@) == Some(-21600int));
    assert(zone_standard_offset("America/Denver"@) == Some(-25200int));
    assert(zone_standard_offset("America/Los_Angeles"@) == Some(-28800int));
    assert(zone_standard_offset("America/New_York"@) == Some(-18000int));
    assert(zone_standard_offset("Asia/Hong_Kong"@) == Some(28800int));
    assert(zone_standard_offset("Asia/Kolkata"@) == Some(19800int));
    assert(zone_standard_offset("Asia/Seoul"@) == Some(32400int));
    assert(zone_standard_offset("Asia/Singapore"@) == Some(28800int));
    assert(zone_standard_offset("Asia/Tokyo"@) == Some(32400int));
    assert(zone_standard_offset("Australia/Sydney"@) == Some(36000int));
    assert(zone_standard_offset("Europe/Athens"@) == Some(7200int));
    assert(zone_standard_offset("Europe/London"@) == Some(0int));
    assert(zone_standard_offset("Europe/Paris"@) == Some(3600int));
    assert(zone_standard_offset("Pacific/Auckland"@) == Some(43200int));
    assert(zone_standard_offset("Pacific/Honolulu"@) == Some(-36000int));
    assert("EST"@[1] != "EDT"@[1]);
    assert("EST"@[0] != "CST"@[0]);
    assert("EST"@[0] != "CDT"@[0]);
    assert("EST"@[0] != "MST"@[0]);
    assert("EST"@[0] != "MDT"@[0]);
    assert("EST"@[0] != "PST"@[0]);
    assert("EST"@[0] != "PDT"@[0]);
    assert("EST"@[0] != "HST"@[0]);
    assert("EST"@[0] != "BST"@[0]);
    assert("EST"@[0] != "CET"@[0]);
    assert("EST"@[1] != "EET"@[1]);
    assert("EST"@[0] != "IST"@[0]);
    assert("EST"@[0] != "JST"@[0]);
    assert("EST"@[0] != "KST"@[0]);
    assert("EST"@[0] != "SGT"@[0]);
    assert("EST"@[0] != "HKT"@[0]);
    assert("EDT"@[0] != "CST"@[0]);
    assert("EDT"@[0] != "CDT"@[0]);
    assert("EDT"@[0] != "MST"@[0]);
    assert("EDT"@[0] != "MDT"@[0]);
    assert("EDT"@[0] != "PST"@[0]);
    assert("EDT"@[0] != "PDT"@[0]);
    assert("EDT"@[0] != "HST"@[0]);
    assert("EDT"@[0] != "BST"@[0]);
    assert("EDT"@[0] != "CET"@[0]);
    assert("EDT"@[1] != "EET"@[1]);
    assert("EDT"@[0] != "IST"@[0]);
    assert("EDT"@[0] != "JST"@[0]);
    assert("EDT"@[0] != "KST"@[0]);
    assert("EDT"@[0] != "SGT"@[0]);
    assert("EDT"@[0] != "HKT"@[0]);
    assert("ET"@[0] != "CT"@[0]);
    assert("ET"@[0] != "MT"@[0]);
    assert("ET"@[0] != "PT"@[0]);
    assert("ET"@[0] != "GB"@[0]);
    assert("CST"@[1] != "CDT"@[1]);
    assert("CST"@[0] != "MST"@[0]);
    assert("CST"@[0] != "MDT"@[0]);
    assert("CST"@[0] != "PST"@[0]);
    assert("CST"@[0] != "PDT"@[0]);
    assert("CST"@[0] != "HST"@[0]);
    assert("CST"@[0] != "BST"@[0]);
    assert("CST"@[1] != "CET"@[1]);
    assert("CST"@[0] != "EET"@[0]);
    assert("CST"@[0] != "IST"@[0]);
    assert("CST"@[0] != "JST"@[0]);
    assert("CST"@[0] != "KST"@[0]);
    assert("CST"@[0] != "SGT"@[0]);
    assert("CST"@[0] != "HKT"@[0]);
    assert("CDT"@[0] != "MST"@[0]);
    assert("CDT"@[0] != "MDT"@[0]);
    assert("CDT"@[0] != "PST"@[0]);
    assert("CDT"@[0] != "PDT"@[0]);
    assert("CDT"@[0] != "HST"@[0]);
    assert("CDT"@[0] != "BST"@[0]);
    assert("CDT"@[1] != "CET"@[1]);
    assert("CDT"@[0] != "EET"@[0]);
    assert("CDT"@[0] != "IST"@[0]);
    assert("CDT"@[0] != "JST"@[0]);
    assert("CDT"@[0] != "KST"@[0]);
    assert("CDT"@[0] != "SGT"@[0]);
    assert("CDT"@[0] != "HKT"@[0]);
    assert("CT"@[0] != "MT"@[0]);
    assert("CT"@[0] != "PT"@[0]);
    assert("CT"@[0] != "GB"@[0]);
    assert("MST"@[1] != "MDT"@[1]);
    assert("MST"@[0] != "PST"@[0]);
    assert("MST"@[0] != "PDT"@[0]);
    assert("MST"@[0] != "HST"@[0]);
    assert("MST"@[0] != "BST"@[0]);
    assert("MST"@[0] != "CET"@[0]);
    assert("MST"@[0] != "EET"@[0]);
    assert("MST"@[0] != "IST"@[0]);
    assert("MST"@[0] != "JST"@[0]);
    assert("MST"@[0] != "KST"@[0]);
    assert("MST"@[0] != "SGT"@[0]);
    assert("MST"@[0] != "HKT"@[0]);
    assert("MDT"@[0] != "PST"@[0]);
    assert("MDT"@[0] != "PDT"@[0]);
    assert("MDT"@[0] != "HST"@[0]);
    assert("MDT"@[0] != "BST"@[0]);
    assert("MDT"@[0] != "CET"@[0]);
    assert("MDT"@[0] != "EET"@[0]);
    assert("MDT"@[0] != "IST"@[0]);
    assert("MDT"@[0] != "JST"@[0]);
    assert("MDT"@[0] != "KST"@[0]);
    assert("MDT"@[0] != "SGT"@[0]);
    assert("MDT"@[0] != "HKT"@[0]);
    assert("MT"@[0] != "PT"@[0]);
    assert("MT"@[0] != "GB"@[0]);
    assert("PST"@[1] != "PDT"@[1]);
    assert("PST"@[0] != "HST"@[0]);
    assert("PST"@[0] != "BST"@[0]);
    assert("PST"@[0] != "CET"@[0]);
    assert("PST"@[0] != "EET"@[0]);
    assert("PST"@[0] != "IST"@[0]);
    assert("PST"@[0] != "JST"@[0]);
    assert("PST"@[0] != "KST"@[0]);
    assert("PST"@[0] != "SGT"@[0]);
    assert("PST"@[0] != "HKT"@[0]);
    assert("PDT"@[0] != "HST"@[0]);
    assert("PDT"@[0] != "BST"@[0]);
    assert("PDT"@[0] != "CET"@[0]);
    assert("PDT"@[0] != "EET"@[0]);
    assert("PDT"@[0] != "IST"@[0]);
    assert("PDT"@[0] != "JST"@[0]);
    assert("PDT"@[0] != "KST"@[0]);
    assert("PDT"@[0] != "SGT"@[0]);
    assert("PDT"@[0] != "HKT"@[0]);
    assert("PT"@[0] != "GB"@[0]);
    assert("AKST"@[2] != "AKDT"@[2]);
    assert("AKST"@[0] != "CEST"@[0]);
    assert("AKST"@[0] != "EEST"@[0]);
    assert("AKST"@[1] != "AEST"@[1]);
    assert("AKST"@[1] != "AEDT"@[1]);
    assert("AKST"@[0] != "NZST"@[0]);
    assert("AKST"@[0] != "NZDT"@[0]);
    assert("AKDT"@[0] != "CEST"@[0]);
    assert("AKDT"@[0] != "EEST"@[0]);
    assert("AKDT"@[1] != "AEST"@[1]);
    assert("AKDT"@[1] != "AEDT"@[1]);
    assert("AKDT"@[0] != "NZST"@[0]);
    assert("AKDT"@[0] != "NZDT"@[0]);
    assert("HST"@[0] != "BST"@[0]);
    assert("HST"@[0] != "CET"@[0]);
    assert("HST"@[0] != "EET"@[0]);
    assert("HST"@[0] != "IST"@[0]);
    assert("HST"@[0] != "JST"@[0]);
    assert("HST"@[0] != "KST"@[0]);
    assert("HST"@[0] != "SGT"@[0]);
    assert("HST"@[1] != "HKT"@[1]);
    assert("BST"@[0] != "CET"@[0]);
    assert("BST"@[0] != "EET"@[0]);
    assert("BST"@[0] != "IST"@[0]);
    assert("BST"@[0] != "JST"@[0]);
    assert("BST"@[0] != "KST"@[0]);
    assert("BST"@[0] != "SGT"@[0]);
    assert("BST"@[0] != "HKT"@[0]);
    assert("CET"@[0] != "EET"@[0]);
    assert("CET"@[0] != "IST"@[0]);
    assert("CET"@[0] != "JST"@[0]);
    assert("CET"@[0] != "KST"@[0]);
    assert("CET"@[0] != "SGT"@[0]);
    assert("CET"@[0] != "HKT"@[0]);
    assert("CEST"@[0] != "EEST"@[0]);
    assert("CEST"@[0] != "AEST"@[0]);
    assert("CEST"@[0] != "AEDT"@[0]);
    assert("CEST"@[0] != "NZST"@[0]);
    assert("CEST"@[0] != "NZDT"@[0]);
    assert("EET"@[0] != "IST"@[0]);
    assert("EET"@[0] != "JST"@[0]);
    assert("EET"@[0] != "KST"@[0]);
    assert("EET"@[0] != "SGT"@[0]);
    assert("EET"@[0] != "HKT"@[0]);
    assert("EEST"@[0] != "AEST"@[0]);
    assert("EEST"@[0] != "AEDT"@[0]);
    assert("EEST"@[0] != "NZST"@[0]);
    assert("EEST"@[0] != "NZDT"@[0]);
    assert("IST"@[0] != "JST"@[0]);
    assert("IST"@[0] != "KST"@[0]);
    assert("IST"@[0] != "SGT"@[0]);
    assert("IST"@[0] != "HKT"@[0]);
    assert("JST"@[0] != "KST"@[0]);
    assert("JST"@[0] != "SGT"@[0]);
    assert("JST"@[0] != "HKT"@[0]);
    assert("KST"@[0] != "SGT"@[0]);
    assert("KST"@[0] != "HKT"@[0]);
    assert("SGT"@[0] != "HKT"@[0]);
    assert("AEST"@[2] != "AEDT"@[2]);
    assert("AEST"@[0] != "NZST"@[0]);
    assert("AEST"@[0] != "NZDT"@[0]);
    assert("AEDT"@[0] != "NZST"@[0]);
    assert("AEDT"@[0] != "NZDT"@[0]);
    assert("NZST"@[2] != "NZDT"@[2]);
    assert(zone_country("America/Anchorage"@) == Some(840int));
    assert(zone_country("America/Chicago"@) == Some(840int));
    assert(zone_country("America/Denver"@) == Some(840int));
    assert(zone_country("America/Los_Angeles"@) == Some(840int));
    assert(zone_country("America/New_York"@) == Some(840int));
    assert(zone_country("Asia/Hong_Kong"@) == Some(344int));
    assert(zone_country("Asia/Kolkata"@) == Some(356int));
    assert(zone_country("Asia/Seoul"@) == Some(410int));
    assert(zone_country("Asia/Singapore"@) == Some(702int));
    assert(zone_country("Asia/Tokyo"@) == Some(392int));
    assert(zone_country("Australia/Sydney"@) == Some(36int));
    assert(zone_country("Europe/Athens"@) == Some(300int));
    assert(zone_country("Europe/London"@) == Some(826int));
    assert(zone_country("Europe/Paris"@) == Some(250int));
    assert(zone_country("Pacific/Auckland"@) == Some(554int));
    assert(zone_country("Pacific/Honolulu"@) == Some(840int));
}

fn upper_chars(s: &[char]) -> (r: Vec<char>)
    ensures
        r@ == s@.map_values(|c: char| ascii_upper(c)),
{
    let mut r: Vec<char> = Vec::new();
    let mut i: usize = 0;
    while i < s.len()
        invariant
            i <= s@.len(),
            r@ == s@.take(i as int).map_values(|c: char| ascii_upper(c)),
        decreases s.len() - i,
    {
        r.push(to_ascii_upper(s[i]));
        i += 1;
        assert(r@ =~= s@.take(i as int).map_values(|c: char| ascii_upper(c)));
    }
    assert(s@.take(i as int) =~= s@);
    r
}

/// Maps a common time zone abbreviation (`PST`, `CET`, ...) to a
/// representative IANA zone; `None` for an unknown one.
pub fn abbrev_to_iana(abbr: &str) -> (r: Option<&'static str>)
    ensures
        match r {
            Some(z) => abbrev_to_iana_spec(abbr@) == Some(z@),
            None => abbrev_to_iana_spec(abbr@) is None,
        },
{
    let a = str_to_chars(abbr);
    let k = upper_chars(a.as_slice());
    let key = k.as_slice();
    if equals_str(key, "EST") || equals_str(key, "EDT") || equals_str(key, "ET") {
        Some("America/New_York")
    } else if equals_str(key, "CST") || equals_str(key, "CDT") || equals_str(key, "CT") {
        Some("America/Chicago")
    } else if equals_str(key, "MST") || equals_str(key, "MDT") || equals_str(key, "MT") {
        Some("America/Denver")
    } else if equals_str(key, "PST") || equals_str(key, "PDT") || equals_str(key, "PT") {
        Some("America/Los_Angeles")
    } else if equals_str(key, "AKST") || equals_str(key, "AKDT") {
        Some("America/Anchorage")
    } else if equals_str(key, "HST") {
        Some("Pacific/Honolulu")
    } else if equals_str(key, "BST") || equals_str(key, "GB") {
        Some("Europe/London")
    } else if equals_str(key, "CET") || equals_str(key, "CEST") {
        Some("Europe/Paris")
    } else if equals_str(key, "EET") || equals_str(key, "EEST") {
        Some("Europe/Athens")
    } else if equals_str(key, "IST") {
        Some("Asia/Kolkata")
    } else if equals_str(key, "JST") {
        Some("Asia/Tokyo")
    } else if equals_str(key, "KST") {
        Some("Asia/Seoul")
    } else if equals_str(key, "SGT") {
        Some("Asia/Singapore")
    } else if equals_str(key, "HKT") {
        Some("Asia/Hong_Kong")
    } else if equals_str(key, "AEST") || equals_str(key, "AEDT") {
        Some("Australia/Sydney")
    } else if equals_str(key, "NZST") || equals_str(key, "NZDT") {
        Some("Pacific/Auckland")
    } else {
        None
    }
}

/// What `str::parse::<i32>` gives for `s`: an optional sign, then one or
/// more ASCII digits whose signed value fits in an `i32`.
pub open spec fn parse_i32_spec(s: Seq<char>) -> Option<i32> {
    let neg = s.len() > 0 && s[0] == '-';
    let d = if s.len() > 0 && (s[0] == '+' || s[0] == '-') { s.drop_first() } else { s };
    let v = if neg { -decimal_value(d) } else { decimal_value(d) };
    if d.len() > 0 && all_digits(d) && i32::MIN <= v && v <= i32::MAX {
        Some(v as i32)
    } else {
        None
    }
}

/// Parses `s` as `str::parse::<i32>` does.
pub fn parse_i32(s: &[char]) -> (r: Option<i32>)
    ensures
        r == parse_i32_spec(s@),
{
    let signed = s.len() > 0 && (s[0] == '+' || s[0] == '-');
    let neg = s.len() > 0 && s[0] == '-';
    let start: usize = if signed { 1 } else { 0 };
    let ghost d = if s@.len() > 0 && (s@[0] == '+' || s@[0] == '-') { s@.drop_first() } else { s@ };
    assert(d =~= s@.skip(start as int));
    if start >= s.len() {
        return None;
    }
    let mut value: u64 = 0;
    let mut i: usize = start;
    while i < s.len()
        invariant
            start <= i <= s@.len(),
            d == (if s@.len() > 0 && (s@[0] == '+' || s@[0] == '-') { s@.drop_first() } else { s@ }),
            d =~= s@.skip(start as int),
            all_digits(s@.subrange(start as int, i as int)),
            value as int == if decimal_value(s@.subrange(start as int, i as int)) <= 2147483648 {
                decimal_value(s@.subrange(start as int, i as int))
            } else {
                2147483649
            },
            decimal_value(s@.subrange(start as int, i as int)) >= 0,
        decreases s.len() - i,
    {
        let c = s[i];
        if !('0' <= c && c <= '9') {
            assert(!all_digits(d)) by {
                assert(d[i - start] == c);
            }
            return None;
        }
        let ghost prev = s@.subrange(start as int, i as int);
        let ghost next = s@.subrange(start as int, i + 1);
        assert(next.drop_last() =~= prev);
        assert(next.last() == c);
        let dg: u64 = (c as u32 - '0' as u32) as u64;
        let nv: u64 = value * 10 + dg;
        value = if nv > 2147483649 { 2147483649 } else { nv };
        i += 1;
        assert(all_digits(next)) by {
            assert forall|j: int| 0 <= j < next.len() implies crate::text::is_ascii_digit_spec(
                #[trigger] next[j],
            ) by {
                if j < prev.len() {
                    assert(next[j] == prev[j]);
                }
            }
        }
    }
    assert(s@.subrange(start as int, s@.len() as int) =~= d);
    if neg {
        if value > 2147483648 {
            None
        } else {
            Some((0 - value as i64) as i32)
        }
    } else {
        if value > 2147483647 {
            None
        } else {
            Some(value as i32)
        }
    }
}

/// `s` is `UTC` or `GMT`, ignoring ASCII case, in its first three
/// characters.
pub open spec fn utc_or_gmt_prefix(s: Seq<char>) -> bool {
    s.len() >= 3 && (
        (ascii_lower(s[0]) == 'u' && ascii_lower(s[1]) == 't' && ascii_lower(s[2]) == 'c')
        || (ascii_lower(s[0]) == 'g' && ascii_lower(s[1]) == 'm' && ascii_lower(s[2]) == 't')
    )
}

/// The signed whole-hour offset that `s` gives after its optional `UTC` or
/// `GMT` prefix: a `+` or `-`, then an `i32` (trimmed) of at most 23.
/// Returns the sign and the number.
pub open spec fn offset_hours_spec(s: Seq<char>) -> Option<(int, int)> {
    let rest = if utc_or_gmt_prefix(s) { s.skip(3) } else { s };
    if rest.len() >= 1 && (rest[0] == '+' || rest[0] == '-') {
        let sign: int = if rest[0] == '+' { 1 } else { -1 };
        match parse_i32_spec(trim_spec(rest.drop_first())) {
            Some(h) => if h > 23 { None } else { Some((sign, h as int)) },
            None => None,
        }
    } else {
        None
    }
}

/// `s` names UTC itself: `UTC` or `GMT` in any ASCII case, or `Z`.
pub open spec fn names_utc(s: Seq<char>) -> bool {
    (s.len() == 3 && utc_or_gmt_prefix(s)) || s == seq!['Z']
}

/// The offset in seconds of the fixed zone that `s` names: zero for UTC
/// itself, else `sign * hours * 3600` when that lies within jiff's offset
/// range of `-93599..=93599` seconds.
pub open spec fn fixed_offset_spec(s: Seq<char>) -> Option<int> {
    if names_utc(s) {
        Some(0)
    } else {
        match offset_hours_spec(s) {
            Some((sign, h)) => {
                let x = sign * h * 3600;
                if -93599 <= x && x <= 93599 { Some(x) } else { None }
            },
            None => None,
        }
    }
}

/// The arithmetic `sign * hours * 3600` stays within `i32` for `s` (it
/// overflows only for hour counts below about minus six hundred thousand).
pub open spec fn fixed_offset_fits(s: Seq<char>) -> bool {
    !names_utc(s) ==> match offset_hours_spec(s) {
        Some((sign, h)) => i32::MIN <= sign * h <= i32::MAX && i32::MIN <= sign * h * 3600 <= i32::MAX,
        None => true,
    }
}

fn names_utc_exec(s: &[char]) -> (r: bool)
    ensures
        r == names_utc(s@),
{
    let n = s.len();
    let r = (n == 3 && is_utc_or_gmt(s)) || (n == 1 && s[0] == 'Z');
    proof {
        if n == 1 && s@[0] == 'Z' {
            assert(s@ =~= seq!['Z']);
        }
        if s@ == seq!['Z'] {
            assert(s@[0] == 'Z');
        }
    }
    r
}

fn is_utc_or_gmt(s: &[char]) -> (r: bool)
    ensures
        r == utc_or_gmt_prefix(s@),
{
    s.len() >= 3 && ((to_ascii_lower(s[0]) == 'u' && to_ascii_lower(s[1]) == 't' && to_ascii_lower(
        s[2],
    ) == 'c') || (to_ascii_lower(s[0]) == 'g' && to_ascii_lower(s[1]) == 'm' && to_ascii_lower(
        s[2],
    ) == 't'))
}

/// The sign and the hours of a whole-hour offset (see `offset_hours_spec`).
fn offset_hours(s: &[char]) -> (r: Option<(i32, i32)>)
    ensures
        match r {
            Some((sign, h)) => offset_hours_spec(s@) == Some((sign as int, h as int)) && (sign == 1
                || sign == -1),
            None => offset_hours_spec(s@) is None,
        },
{
    let n = s.len();
    let rest: &[char] = if is_utc_or_gmt(s) { &s[3..n] } else { s };
    assert(rest@ =~= (if utc_or_gmt_prefix(s@) { s@.skip(3) } else { s@ }));
    if rest.len() == 0 || !(rest[0] == '+' || rest[0] == '-') {
        return None;
    }
    let sign: i32 = if rest[0] == '+' { 1 } else { -1 };
    let digits = trim_char_slice(&rest[1..rest.len()]);
    assert(rest@.drop_first() =~= rest@.subrange(1, rest@.len() as int));
    match parse_i32(digits) {
        Some(h) => if h > 23 { None } else { Some((sign, h)) },
        None => None,
    }
}

/// The seconds of the fixed offset that `s` names (see `fixed_offset_spec`).
pub fn fixed_offset_seconds(s: &[char]) -> (r: Option<i32>)
    requires
        fixed_offset_fits(s@),
    ensures
        match r {
            Some(x) => fixed_offset_spec(s@) == Some(x as int),
            None => fixed_offset_spec(s@) is None,
        },
{
    if names_utc_exec(s) {
        return Some(0);
    }
    match offset_hours(s) {
        Some((sign, hours)) => {
            let x = sign * hours * 3600;
            if -93599 <= x && x <= 93599 {
                Some(x)
            } else {
                None
            }
        },
        None => None,
    }
}

/// Whether `resolve_timezone` can take `name`: the whole-hour offset it
/// might name keeps its arithmetic within `i32` (see `fixed_offset_fits`).
pub fn timezone_name_fits(name: &str) -> (r: bool)
    ensures
        r == fixed_offset_fits(trim_spec(name@)),
{
    let all = str_to_chars(name);
    let t = trim_char_slice(all.as_slice());
    if names_utc_exec(t) {
        return true;
    }
    match offset_hours(t) {
        Some((sign, h)) => {
            let p: i64 = if sign == 1 { h as i64 } else { -(h as i64) };
            assert(p as int == sign as int * h as int);
            assert(p as int * 3600 == sign as int * h as int * 3600);
            -2147483648 <= p && p <= 2147483647 && -2147483648 <= p * 3600 && p * 3600 <= 2147483647
        },
        None => true,
    }
}

/// A resolved time zone, as plain values: a fixed offset from UTC in
/// seconds, or the name of a zone of the IANA database.
#[derive(Clone, Debug, PartialEq, Eq)]
pub enum ZoneSpec {
    Fixed(i32),
    Named(String),
}

/// The mathematical model of a `ZoneSpec`.
pub enum ZoneModel {
    Fixed(int),
    Named(Seq<char>),
}

impl View for ZoneSpec {
    type V = ZoneModel;

    open spec fn view(&self) -> ZoneModel {
        match self {
            ZoneSpec::Fixed(x) => ZoneModel::Fixed(*x as int),
            ZoneSpec::Named(n) => ZoneModel::Named(n@),
        }
    }
}

/// The zone that identifier `name` stands for, tried in order on the
/// trimmed name: a fixed UTC offset, the IANA zone of a common
/// abbreviation, else the trimmed name itself as an IANA name.
pub open spec fn zone_model(name: Seq<char>) -> ZoneModel {
    let t = trim_spec(name);
    match fixed_offset_spec(t) {
        Some(x) => ZoneModel::Fixed(x),
        None => match abbrev_to_iana_spec(t) {
            Some(i) => ZoneModel::Named(i),
            None => ZoneModel::Named(t),
        },
    }
}

/// Calls `jiff::tz::TimeZone::get`, which looks `name` up in the time zone
/// database of the system; the error is jiff's message. Whether the lookup
/// succeeds depends on that database, so nothing is stated of the result.
#[verifier::external_body]
fn time_zone_get(name: &str) -> (r: Result<TimeZone, String>) {
    match TimeZone::get(name) {
        Ok(tz) => Ok(tz),
        Err(e) => Err(format!("{}", e)),
    }
}

/// The fixed zone that `s` names: `UTC`/`GMT`/`Z`, or an optional
/// `UTC`/`GMT` prefix and a signed whole-hour offset (`UTC+2`, `GMT-5`,
/// `+3`, `-8`). Minute offsets such as `+05:30` are not accepted here.
pub fn parse_fixed_offset(s: &str) -> (r: Option<ZoneSpec>)
    requires
        fixed_offset_fits(s@),
    ensures
        match fixed_offset_spec(s@) {
            Some(x) => r matches Some(z) && z@ == ZoneModel::Fixed(x),
            None => r is None,
        },
{
    let cs = str_to_chars(s);
    match fixed_offset_seconds(cs.as_slice()) {
        Some(x) => Some(ZoneSpec::Fixed(x)),
        None => None,
    }
}

/// The zone that identifier `name` stands for (see `zone_model`), before
/// any lookup in the time zone database.
pub fn zone_spec(name: &str) -> (r: ZoneSpec)
    requires
        fixed_offset_fits(trim_spec(name@)),
    ensures
        r@ == zone_model(name@),
{
    let all = str_to_chars(name);
    let t = trim_char_slice(all.as_slice());
    if let Some(x) = fixed_offset_seconds(t) {
        return ZoneSpec::Fixed(x);
    }
    let trimmed = crate::text::chars_to_string(t);
    match abbrev_to_iana(trimmed.as_str()) {
        Some(iana) => ZoneSpec::Named(String::from_str(iana)),
        None => ZoneSpec::Named(trimmed),
    }
}

/// The start of the message of a time zone lookup that failed.
pub open spec fn unknown_zone_prefix(name: Seq<char>) -> Seq<char> {
    "Unknown timezone '"@ + name
}

/// Resolves a time zone identifier to the zone it stands for (see
/// `zone_model`). A fixed UTC offset is always found. A named zone is
/// looked up in the system's time zone database; where that fails, the
/// error names the identifier, and for an abbreviation adds jiff's message.
pub fn resolve_timezone(name: &str) -> (r: Result<ZoneSpec, String>)
    requires
        fixed_offset_fits(trim_spec(name@)),
    ensures
        r matches Ok(z) ==> z@ == zone_model(name@),
        fixed_offset_spec(trim_spec(name@)) is Some ==> r is Ok,
        fixed_offset_spec(trim_spec(name@)) is None && abbrev_to_iana_spec(trim_spec(name@)) is Some
            ==> (r matches Err(e) ==> exists|m: Seq<char>| e@ == unknown_zone_prefix(name@) + "': "@ + m),
        fixed_offset_spec(trim_spec(name@)) is None && abbrev_to_iana_spec(trim_spec(name@)) is None
            ==> (r matches Err(e) ==> e@ == unknown_zone_prefix(name@) + "'"@),
{
    let all = str_to_chars(name);
    let t = trim_char_slice(all.as_slice());
    if let Some(x) = fixed_offset_seconds(t) {
        return Ok(ZoneSpec::Fixed(x));
    }
    let trimmed = crate::text::chars_to_string(t);
    if let Some(iana) = abbrev_to_iana(trimmed.as_str()) {
        return match time_zone_get(iana) {
            Ok(_) => Ok(ZoneSpec::Named(String::from_str(iana))),
            Err(msg) => {
                let mut e = String::from_str("Unknown timezone '");
                e.append(name);
                e.append("': ");
                e.append(msg.as_str());
                assert(e@ =~= unknown_zone_prefix(name@) + "': "@ + msg@);
                Err(e)
            },
        };
    }
    match time_zone_get(trimmed.as_str()) {
        Ok(_) => Ok(ZoneSpec::Named(trimmed)),
        Err(_) => {
            let mut e = String::from_str("Unknown timezone '");
            e.append(name);
            e.append("'");
            Err(e)
        },
    }
}

/// `y` is a leap year of the proleptic Gregorian calendar.
pub open spec fn leap_year(y: int) -> bool {
    y % 4 == 0 && (y % 100 != 0 || y % 400 == 0)
}

/// The number of days of month `m` (1 to 12) of year `y`.
pub open spec fn days_in_month(y: int, m: int) -> int {
    if m == 2 {
        if leap_year(y) { 29 } else { 28 }
    } else if m == 4 || m == 6 || m == 9 || m == 11 {
        30
    } else {
        31
    }
}

/// The components form a valid civil date and time, as jiff's
/// `DateTime::new` documents it.
pub open spec fn valid_civil(year: int, month: int, day: int, hour: int, minute: int, second: int) -> bool {
    &&& -9999 <= year <= 9999
    &&& 1 <= month <= 12
    &&& 1 <= day <= days_in_month(year, month)
    &&& 0 <= hour <= 23
    &&& 0 <= minute <= 59
    &&& 0 <= second <= 59
}

/// The number of days from 1970-01-01 to the date `y`-`m`-`d` of the
/// proleptic Gregorian calendar (negative before it). Counting years from
/// March, the leap day falls at the end of a year.
pub open spec fn days_from_civil(y: int, m: int, d: int) -> int {
    let yp = if m <= 2 { y - 1 } else { y };
    let mp = if m <= 2 { m + 9 } else { m - 3 };
    yp * 365 + yp / 4 - yp / 100 + yp / 400 + (153 * mp + 2) / 5 + d - 1 - 719468
}

/// The local time `y`-`m`-`d` `h`:`mi`:`s` as seconds counted from
/// 1970-01-01 00:00:00 on the same wall clock.
pub open spec fn civil_seconds(y: int, m: int, d: int, h: int, mi: int, s: int) -> int {
    days_from_civil(y, m, d) * 86400 + h * 3600 + mi * 60 + s
}

/// Calls `jiff::civil::DateTime::new` with no sub-second part, then
/// `DateTime::to_zoned`, and reads the instant's Unix seconds
/// (`Timestamp::as_second`) and the zone's offset there (`Offset::seconds`).
/// jiff documents that `DateTime::new` fails on an invalid civil date and
/// time (see `valid_civil`), that offsets lie in `-93599..=93599`, and that
/// `to_zoned` resolves an ambiguous time compatibly: the instant is the
/// wall-clock time less an offset of the zone there, and the offset read
/// back is the zone's offset at that instant. So the instant's wall-clock
/// time (seconds plus offset) is the given time, or later by the size of a
/// forward transition (a gap); it never comes earlier. The error is jiff's
/// message. Which offset applies depends on the zone's rules, which are not
/// stated.
#[verifier::external_body]
fn zoned_epoch(year: i16, month: i8, day: i8, hour: i8, minute: i8, second: i8, tz: &TimeZone) -> (r:
    Result<(i64, i32), String>)
    ensures
        !valid_civil(year as int, month as int, day as int, hour as int, minute as int, second as int)
            ==> r is Err,
        r matches Ok((secs, off)) ==> -93599 <= off <= 93599 && civil_seconds(
            year as int,
            month as int,
            day as int,
            hour as int,
            minute as int,
            second as int,
        ) <= secs + off <= civil_seconds(
            year as int,
            month as int,
            day as int,
            hour as int,
            minute as int,
            second as int,
        ) + 2 * 93599,
{
    match DateTime::new(year, month, day, hour, minute, second, 0) {
        Ok(dt) => match dt.to_zoned(tz.clone()) {
            Ok(z) => Ok((z.timestamp().as_second(), z.offset().seconds())),
            Err(e) => Err(format!("{}", e)),
        },
        Err(e) => Err(format!("{}", e)),
    }
}

/// Calls `jiff::Timestamp::from_second`, then `Timestamp::to_zoned`, and
/// reads the civil date of that instant in the zone (`Zoned::year`,
/// `month`, `day`) and the zone's offset there (`Offset::seconds`). jiff
/// documents that `from_second` accepts exactly the seconds
/// `-377705023201..=253402207200`, that `to_zoned` does not fail, that
/// offsets lie in `-93599..=93599`, and that the civil date and time of a
/// zoned instant is the instant shifted by its offset (a date within
/// `-9999..=9999`). Which offset applies depends on the zone's rules, which
/// are not stated.
#[verifier::external_body]
fn zoned_date(secs: i64, tz: &TimeZone) -> (r: Option<(i16, i8, i8, i32)>)
    ensures
        r is Some <==> -377705023201 <= secs <= 253402207200,
        r matches Some((y, m, d, off)) ==> -93599 <= off <= 93599 && -9999 <= y <= 9999 && 1 <= m
            <= 12 && 1 <= d <= days_in_month(y as int, m as int) && civil_seconds(
            y as int,
            m as int,
            d as int,
            0,
            0,
            0,
        ) <= secs + off < civil_seconds(y as int, m as int, d as int, 0, 0, 0) + 86400,
{
    match Timestamp::from_second(secs) {
        Ok(ts) => {
            let z = ts.to_zoned(tz.clone());
            Some((z.year(), z.month(), z.day(), z.offset().seconds()))
        },
        Err(_) => None,
    }
}

/// The prefix of the message of a date or time that cannot be resolved.
pub open spec fn invalid_datetime_prefix() -> Seq<char> {
    "Invalid date/time: "@
}

/// Calls `jiff::tz::Offset::from_seconds`, `TimeZone::fixed`,
/// `civil::DateTime::new` (no sub-second part) and `DateTime::to_zoned`,
/// then reads the instant's Unix seconds (`Timestamp::as_second`) and the
/// zone's offset (`Offset::seconds`). jiff documents that `from_seconds`
/// fails exactly outside `-93599..=93599` and `DateTime::new` exactly on an
/// invalid civil date and time (see `valid_civil`). In a fixed zone every
/// civil time is unambiguous with the zone's offset, so `to_zoned` takes
/// the instant `Offset::to_timestamp` gives, the civil time less the
/// offset, which fails exactly outside jiff's instants
/// `-377705023201..=253402207200`. The error is jiff's message.
#[verifier::external_body]
fn fixed_zoned_epoch(year: i16, month: i8, day: i8, hour: i8, minute: i8, second: i8, offset: i32) -> (r:
    Result<(i64, i32), String>)
    ensures
        (r is Ok) == (-93599 <= offset <= 93599 && valid_civil(
            year as int,
            month as int,
            day as int,
            hour as int,
            minute as int,
            second as int,
        ) && -377705023201 <= civil_seconds(
            year as int,
            month as int,
            day as int,
            hour as int,
            minute as int,
            second as int,
        ) - offset <= 253402207200),
        r matches Ok((secs, off)) ==> off == offset && secs == civil_seconds(
            year as int,
            month as int,
            day as int,
            hour as int,
            minute as int,
            second as int,
        ) - offset,
{
    match Offset::from_seconds(offset) {
        Ok(o) => match DateTime::new(year, month, day, hour, minute, second, 0) {
            Ok(dt) => match dt.to_zoned(TimeZone::fixed(o)) {
                Ok(z) => Ok((z.timestamp().as_second(), z.offset().seconds())),
                Err(e) => Err(format!("{}", e)),
            },
            Err(e) => Err(format!("{}", e)),
        },
        Err(e) => Err(format!("{}", e)),
    }
}

/// Calls `jiff::tz::Offset::from_seconds`, `jiff::Timestamp::from_second`,
/// `TimeZone::fixed` and `Timestamp::to_zoned`, and reads the civil date of
/// that instant (`Zoned::year`, `month`, `day`). jiff documents that
/// `from_seconds` fails exactly outside `-93599..=93599`, `from_second`
/// exactly outside `-377705023201..=253402207200`, that `to_zoned` does not
/// fail, and that the civil date and time of a zoned instant is the instant
/// shifted by the zone's offset, which for a fixed zone is its offset.
#[verifier::external_body]
fn fixed_zoned_date(secs: i64, offset: i32) -> (r: Option<(i16, i8, i8)>)
    ensures
        (r is Some) == (-93599 <= offset <= 93599 && -377705023201 <= secs <= 253402207200),
        r matches Some((y, m, d)) ==> -9999 <= y <= 9999 && 1 <= m <= 12 && 1 <= d <= days_in_month(
            y as int,
            m as int,
        ) && civil_seconds(y as int, m as int, d as int, 0, 0, 0) <= secs + offset < civil_seconds(
            y as int,
            m as int,
            d as int,
            0,
            0,
            0,
        ) + 86400,
{
    match Offset::from_seconds(offset) {
        Ok(o) => match Timestamp::from_second(secs) {
            Ok(ts) => {
                let z = ts.to_zoned(TimeZone::fixed(o));
                Some((z.year(), z.month(), z.day()))
            },
            Err(_) => None,
        },
        Err(_) => None,
    }
}

/// The civil date, in `zone`, of the instant `secs` Unix seconds, with the
/// zone's offset there: the day whose wall-clock seconds hold the instant's
/// seconds plus that offset. A fixed zone applies its own offset and gives
/// a date for every instant within jiff's range when the offset is within
/// jiff's; a named zone is looked up in the system's time zone database
/// (`None` where it has none) and applies the offset its rules give.
pub fn date_in_zone(secs: i64, zone: &ZoneSpec) -> (r: Option<(i16, i8, i8, i32)>)
    ensures
        r is Some ==> -377705023201 <= secs <= 253402207200,
        r matches Some((y, m, d, off)) ==> -93599 <= off <= 93599 && 1 <= m <= 12 && 1 <= d
            <= days_in_month(y as int, m as int) && civil_seconds(y as int, m as int, d as int, 0, 0, 0)
            <= secs + off < civil_seconds(y as int, m as int, d as int, 0, 0, 0) + 86400,
        *zone matches ZoneSpec::Fixed(x) ==> (r is Some <==> -93599 <= x <= 93599 && -377705023201
            <= secs <= 253402207200) && (r matches Some((_, _, _, off)) ==> off == x),
{
    match zone {
        ZoneSpec::Fixed(x) => match fixed_zoned_date(secs, *x) {
            Some((y, m, d)) => Some((y, m, d, *x)),
            None => None,
        },
        ZoneSpec::Named(n) => match time_zone_get(n.as_str()) {
            Ok(tz) => zoned_date(secs, &tz),
            Err(_) => None,
        },
    }
}

/// Resolves a civil date and time in `zone` to the Unix seconds of that
/// instant and the zone's UTC offset in seconds there (so daylight saving is
/// applied). In a fixed zone the instant is the civil time less the zone's
/// offset; it is refused only for an invalid date or time, an offset beyond
/// jiff's range, or an instant beyond jiff's range. In a named zone the
/// instant's wall-clock time, seconds plus offset, is the given time, or
/// later by at most the size of a forward transition when the time falls in
/// one. Refusals say `Invalid date/time: ` and jiff's message, or, for a
/// named zone the system's database does not have, `Unknown timezone '`
/// and the name.
pub fn civil_to_epoch_in_zone(
    year: i16,
    month: i8,
    day: i8,
    hour: i8,
    minute: i8,
    second: i8,
    zone: &ZoneSpec,
) -> (r: Result<(i64, i32), String>)
    ensures
        !valid_civil(year as int, month as int, day as int, hour as int, minute as int, second as int)
            ==> r is Err,
        r matches Err(e) ==> (exists|m: Seq<char>| e@ == invalid_datetime_prefix() + m) || (
        *zone matches ZoneSpec::Named(n) && e@ == unknown_zone_prefix(n@) + "'"@),
        r matches Ok((secs, off)) ==> -93599 <= off <= 93599 && civil_seconds(
            year as int,
            month as int,
            day as int,
            hour as int,
            minute as int,
            second as int,
        ) <= secs + off <= civil_seconds(
            year as int,
            month as int,
            day as int,
            hour as int,
            minute as int,
            second as int,
        ) + 2 * 93599,
        *zone matches ZoneSpec::Fixed(x) ==> (r is Ok <==> -93599 <= x <= 93599 && valid_civil(
            year as int,
            month as int,
            day as int,
            hour as int,
            minute as int,
            second as int,
        ) && -377705023201 <= civil_seconds(
            year as int,
            month as int,
            day as int,
            hour as int,
            minute as int,
            second as int,
        ) - x <= 253402207200) && (r matches Ok((secs, off)) ==> off == x && secs + off
            == civil_seconds(
            year as int,
            month as int,
            day as int,
            hour as int,
            minute as int,
            second as int,
        )),
{
    match zone {
        ZoneSpec::Fixed(x) => match fixed_zoned_epoch(year, month, day, hour, minute, second, *x) {
            Ok(v) => Ok(v),
            Err(msg) => Err(invalid_datetime(msg)),
        },
        ZoneSpec::Named(n) => {
            let tz = match time_zone_get(n.as_str()) {
                Ok(tz) => tz,
                Err(_) => {
                    let mut e = String::from_str("Unknown timezone '");
                    e.append(n.as_str());
                    e.append("'");
                    return Err(e);
                },
            };
            match zoned_epoch(year, month, day, hour, minute, second, &tz) {
                Ok(v) => Ok(v),
                Err(msg) => Err(invalid_datetime(msg)),
            }
        },
    }
}

fn invalid_datetime(msg: String) -> (e: String)
    ensures
        e@ == invalid_datetime_prefix() + msg@,
{
    let mut e = String::from_str("Invalid date/time: ");
    e.append(msg.as_str());
    proof {
        reveal_strlit("Invalid date/time: ");
    }
    e
}

} // verus!
