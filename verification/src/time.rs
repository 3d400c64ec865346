//! The current time, as the caller hands it over, and the HTTP date that a
//! request head carries.

use vstd::prelude::*;

use crate::text::all_ascii;

verus! {

/// The last second that a four-digit year holds: 9999-12-31T23:59:59Z.
pub const LAST_HTTP_SECOND: u64 = 253402300799;

/// The Gregorian date of a day counted from 1970-01-01, as year, month
/// (1 to 12) and day of the month (1 to 31), by the civil calendar
/// algorithm of Howard Hinnant.
#[verifier::opaque]
pub open spec fn civil_from_days(days: nat) -> (int, int, int) {
    let z = days + 719468;
    let era = z / 146097;
    let doe = z - era * 146097;
    let yoe = (doe - doe / 1460 + doe / 36524 - doe / 146096) / 365;
    let doy = doe - (365 * yoe + yoe / 4 - yoe / 100);
    let mp = (5 * doy + 2) / 153;
    let day = doy - (153 * mp + 2) / 5 + 1;
    let month = if mp < 10 { mp + 3 } else { mp - 9 };
    let year = yoe + era * 400 + if month <= 2 { 1int } else { 0int };
    (year, month, day)
}

/// The ASCII digit of `n`, which is below ten.
pub open spec fn ascii_digit(n: int) -> u8 {
    (0x30 + n) as u8
}

/// The last two decimal digits of `n`.
pub open spec fn two_digits(n: int) -> Seq<u8> {
    seq![ascii_digit((n / 10) % 10), ascii_digit(n % 10)]
}

/// The last four decimal digits of `n`.
pub open spec fn four_digits(n: int) -> Seq<u8> {
    seq![ascii_digit((n / 1000) % 10), ascii_digit((n / 100) % 10), ascii_digit((n / 10) % 10), ascii_digit(n % 10)]
}

/// The three letters that name a day of the week, Sunday first.
pub open spec fn weekday_name(day: int) -> Seq<u8> {
    if day == 0 {
        seq![0x53u8, 0x75, 0x6e]
    } else if day == 1 {
        seq![0x4du8, 0x6f, 0x6e]
    } else if day == 2 {
        seq![0x54u8, 0x75, 0x65]
    } else if day == 3 {
        seq![0x57u8, 0x65, 0x64]
    } else if day == 4 {
        seq![0x54u8, 0x68, 0x75]
    } else if day == 5 {
        seq![0x46u8, 0x72, 0x69]
    } else {
        seq![0x53u8, 0x61, 0x74]
    }
}

/// The three letters that name a month, January as 1.
pub open spec fn month_name(month: int) -> Seq<u8> {
    if month == 1 {
        seq![0x4au8, 0x61, 0x6e]
    } else if month == 2 {
        seq![0x46u8, 0x65, 0x62]
    } else if month == 3 {
        seq![0x4du8, 0x61, 0x72]
    } else if month == 4 {
        seq![0x41u8, 0x70, 0x72]
    } else if month == 5 {
        seq![0x4du8, 0x61, 0x79]
    } else if month == 6 {
        seq![0x4au8, 0x75, 0x6e]
    } else if month == 7 {
        seq![0x4au8, 0x75, 0x6c]
    } else if month == 8 {
        seq![0x41u8, 0x75, 0x67]
    } else if month == 9 {
        seq![0x53u8, 0x65, 0x70]
    } else if month == 10 {
        seq![0x4fu8, 0x63, 0x74]
    } else if month == 11 {
        seq![0x4eu8, 0x6f, 0x76]
    } else {
        seq![0x44u8, 0x65, 0x63]
    }
}

/// The RFC 1123 date of a second since the Unix epoch,
/// `Www, DD Mon YYYY HH:MM:SS GMT`.
pub open spec fn spec_rfc1123(seconds: nat) -> Seq<u8> {
    let days = seconds / 86400;
    let rest = seconds % 86400;
    let (year, month, day) = civil_from_days(days);
    weekday_name(((days + 4) % 7) as int)
        + seq![0x2cu8, 0x20]
        + two_digits(day)
        + seq![0x20u8]
        + month_name(month)
        + seq![0x20u8]
        + four_digits(year)
        + seq![0x20u8]
        + two_digits((rest / 3600) as int)
        + seq![0x3au8]
        + two_digits(((rest % 3600) / 60) as int)
        + seq![0x3au8]
        + two_digits((rest % 60) as int)
        + seq![0x20u8, 0x47, 0x4d, 0x54]
}

/// The current time, which this crate never reads for itself.
///
/// A request head carries it as an HTTP date, which holds a four-digit year,
/// so a time after the last second of 9999 is taken as that second.
#[derive(Debug, Clone, Copy, PartialEq, Eq)]
pub struct Timestamps {
    seconds: u64,
}

/// An HTTP date, as the bytes that a header carries.
#[derive(Debug, Clone, Copy, PartialEq, Eq)]
pub struct HttpDate {
    bytes: [u8; 29],
}

impl HttpDate {
    /// The bytes of the date.
    pub closed spec fn spec_bytes(&self) -> Seq<u8> {
        self.bytes@
    }

    /// Returns the bytes of the date.
    pub fn as_bytes(&self) -> (r: &[u8])
        ensures
            r@ == self.spec_bytes(),
    {
        self.bytes.as_slice()
    }
}

fn weekday_bytes(day: u64) -> (r: [u8; 3])
    requires
        day < 7,
    ensures
        r@ == weekday_name(day as int),
{
    let r: [u8; 3] = if day == 0 {
        [0x53, 0x75, 0x6e]
    } else if day == 1 {
        [0x4d, 0x6f, 0x6e]
    } else if day == 2 {
        [0x54, 0x75, 0x65]
    } else if day == 3 {
        [0x57, 0x65, 0x64]
    } else if day == 4 {
        [0x54, 0x68, 0x75]
    } else if day == 5 {
        [0x46, 0x72, 0x69]
    } else {
        [0x53, 0x61, 0x74]
    };
    assert(r@ =~= weekday_name(day as int));
    r
}

fn month_bytes(month: u64) -> (r: [u8; 3])
    requires
        1 <= month <= 12,
    ensures
        r@ == month_name(month as int),
{
    let r: [u8; 3] = if month == 1 {
        [0x4a, 0x61, 0x6e]
    } else if month == 2 {
        [0x46, 0x65, 0x62]
    } else if month == 3 {
        [0x4d, 0x61, 0x72]
    } else if month == 4 {
        [0x41, 0x70, 0x72]
    } else if month == 5 {
        [0x4d, 0x61, 0x79]
    } else if month == 6 {
        [0x4a, 0x75, 0x6e]
    } else if month == 7 {
        [0x4a, 0x75, 0x6c]
    } else if month == 8 {
        [0x41, 0x75, 0x67]
    } else if month == 9 {
        [0x53, 0x65, 0x70]
    } else if month == 10 {
        [0x4f, 0x63, 0x74]
    } else if month == 11 {
        [0x4e, 0x6f, 0x76]
    } else {
        [0x44, 0x65, 0x63]
    };
    assert(r@ =~= month_name(month as int));
    r
}

fn two(n: u64) -> (r: [u8; 2])
    ensures
        r@ == two_digits(n as int),
        r@[0] < 0x80 && r@[1] < 0x80,
{
    let r: [u8; 2] = [(0x30 + (n / 10) % 10) as u8, (0x30 + n % 10) as u8];
    assert(r@ =~= two_digits(n as int));
    r
}

fn four(n: u64) -> (r: [u8; 4])
    ensures
        r@ == four_digits(n as int),
        forall|i: int| 0 <= i < 4 ==> #[trigger] r@[i] < 0x80,
{
    let r: [u8; 4] = [
        (0x30 + (n / 1000) % 10) as u8,
        (0x30 + (n / 100) % 10) as u8,
        (0x30 + (n / 10) % 10) as u8,
        (0x30 + n % 10) as u8,
    ];
    assert(r@ =~= four_digits(n as int));
    r
}

/// Returns the year, month and day of a day counted from 1970-01-01.
pub fn civil(days: u64) -> (r: (u64, u64, u64))
    requires
        days <= LAST_HTTP_SECOND / 86400,
    ensures
        civil_from_days(days as nat) == (r.0 as int, r.1 as int, r.2 as int),
        1 <= r.1 <= 12,
        1 <= r.2 <= 31,
{
    let z = days + 719468;
    let era = z / 146097;
    let doe = z - era * 146097;
    assert(doe < 146097) by (nonlinear_arith)
        requires doe == z - era * 146097, era == z / 146097;
    let yoe = (doe - doe / 1460 + doe / 36524 - doe / 146096) / 365;
    assert(yoe <= 399) by (nonlinear_arith)
        requires yoe == (doe - doe / 1460 + doe / 36524 - doe / 146096) / 365, doe < 146097;
    assert(365 * yoe + yoe / 4 - yoe / 100 <= doe) by (nonlinear_arith)
        requires yoe == (doe - doe / 1460 + doe / 36524 - doe / 146096) / 365, doe < 146097, yoe <= 399;
    let doy = doe - (365 * yoe + yoe / 4 - yoe / 100);
    assert(doy <= 365) by (nonlinear_arith)
        requires doy == doe - (365 * yoe + yoe / 4 - yoe / 100),
            yoe == (doe - doe / 1460 + doe / 36524 - doe / 146096) / 365, doe < 146097, yoe <= 399;
    let mp = (5 * doy + 2) / 153;
    assert((153 * mp + 2) / 5 <= doy) by (nonlinear_arith)
        requires mp == (5 * doy + 2) / 153;
    let day = doy - (153 * mp + 2) / 5 + 1;
    assert(day <= 31) by (nonlinear_arith)
        requires day == doy - (153 * mp + 2) / 5 + 1, mp == (5 * doy + 2) / 153;
    let month = if mp < 10 { mp + 3 } else { mp - 9 };
    let year = yoe + era * 400 + if month <= 2 { 1 } else { 0 };
    proof { reveal(civil_from_days); }
    (year, month, day)
}

impl Timestamps {
    #[verifier::type_invariant]
    closed spec fn within_http_dates(self) -> bool {
        self.seconds <= LAST_HTTP_SECOND
    }

    /// The seconds since the Unix epoch.
    pub closed spec fn spec_seconds(self) -> u64 {
        self.seconds
    }

    /// The time this many seconds after the Unix epoch, taken as the last
    /// second of 9999 if it is later.
    pub fn from_unix(seconds: u64) -> (r: Self)
        ensures
            r.spec_seconds() == if seconds <= LAST_HTTP_SECOND { seconds } else { LAST_HTTP_SECOND },
    {
        Timestamps { seconds: if seconds <= LAST_HTTP_SECOND { seconds } else { LAST_HTTP_SECOND } }
    }

    /// Returns the seconds since the Unix epoch.
    pub fn unix(&self) -> (r: u64)
        ensures
            r == self.spec_seconds(),
            r <= LAST_HTTP_SECOND,
    {
        proof { use_type_invariant(self); }
        self.seconds
    }

    /// Returns the time as an RFC 1123 date.
    #[verifier::rlimit(50)]
    pub fn rfc1123(&self) -> (r: HttpDate)
        ensures
            r.spec_bytes() == spec_rfc1123(self.spec_seconds() as nat),
            all_ascii(r.spec_bytes()),
    {
        proof { use_type_invariant(self); }
        let seconds = self.seconds;
        let days = seconds / 86400;
        let rest = seconds % 86400;
        let (year, month, day) = civil(days);
        let weekday = weekday_bytes((days + 4) % 7);
        let month_letters = month_bytes(month);
        let hour = two(rest / 3600);
        let minute = two((rest % 3600) / 60);
        let second = two(rest % 60);
        let day_digits = two(day);
        let year_digits = four(year);
        let b: [u8; 29] = [
            weekday[0], weekday[1], weekday[2], 0x2c, 0x20,
            day_digits[0], day_digits[1], 0x20,
            month_letters[0], month_letters[1], month_letters[2], 0x20,
            year_digits[0], year_digits[1], year_digits[2], year_digits[3], 0x20,
            hour[0], hour[1], 0x3a, minute[0], minute[1], 0x3a, second[0], second[1],
            0x20, 0x47, 0x4d, 0x54,
        ];
        let date = HttpDate { bytes: b };
        proof {
            let s = spec_rfc1123(seconds as nat);
            assert(date.spec_bytes() =~= s);
            assert(weekday@[0] < 0x80 && weekday@[1] < 0x80 && weekday@[2] < 0x80);
            assert(month_letters@[0] < 0x80 && month_letters@[1] < 0x80 && month_letters@[2] < 0x80);
            assert(year_digits@[0] < 0x80 && year_digits@[1] < 0x80 && year_digits@[2] < 0x80 && year_digits@[3] < 0x80);
            assert forall|i: int| 0 <= i < s.len() implies #[trigger] s[i] < 0x80 by {
                assert(s[i] == b@[i]);
            }
        }
        date
    }
}

} // verus!
