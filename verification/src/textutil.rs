//! Decimal formatting over ASCII bytes, the pieces of the timestamped
//! file name, and the small trusted wrappers around `String` growth.

use vstd::prelude::*;
use vstd::string::StringSliceAdditionalSpecFns;
use chrono::Datelike;
use chrono::Timelike;

verus! {

/// The decimal digits of a non-negative number, as ASCII bytes.
pub open spec fn dec_bytes(n: int) -> Seq<u8>
    decreases n,
{
    if n < 10 {
        seq![(48 + n) as u8]
    } else {
        dec_bytes(n / 10) + seq![(48 + n % 10) as u8]
    }
}

/// The decimal digits, left-padded with zeros to at least `w` bytes.
pub open spec fn padded_dec_bytes(n: int, w: int) -> Seq<u8> {
    if dec_bytes(n).len() >= w {
        dec_bytes(n)
    } else {
        Seq::new((w - dec_bytes(n).len()) as nat, |i: int| 48u8) + dec_bytes(n)
    }
}

/// ASCII bytes read as characters.
pub open spec fn chars_of_bytes(b: Seq<u8>) -> Seq<char> {
    Seq::new(b.len(), |i: int| b[i] as char)
}

/// Appends the decimal digits of `n`.
pub fn push_dec_bytes(v: &mut Vec<u8>, n: u64)
    ensures
        final(v)@ == old(v)@ + dec_bytes(n as int),
    decreases n,
{
    if n >= 10 {
        push_dec_bytes(v, n / 10);
    }
    let d: u8 = (n % 10) as u8;
    v.push(48 + d);
    proof {
        if n < 10 {
            assert(final(v)@ =~= old(v)@ + dec_bytes(n as int));
        } else {
            assert(final(v)@ =~= old(v)@ + dec_bytes(n as int));
        }
    }
}

/// Appends the decimal digits of `n`, left-padded with zeros to at
/// least `width` bytes.
pub fn push_padded_dec_bytes(v: &mut Vec<u8>, n: u64, width: usize)
    requires
        width <= 64,
    ensures
        final(v)@ == old(v)@ + padded_dec_bytes(n as int, width as int),
{
    let mut digits: Vec<u8> = Vec::new();
    push_dec_bytes(&mut digits, n);
    let dl = digits.len();
    let ghost pre = v@;
    if dl < width {
        let mut z: usize = 0;
        while z < width - dl
            invariant
                0 <= z <= width - dl,
                dl == dec_bytes(n as int).len(),
                dl < width <= 64,
                v@ == pre + Seq::new(z as nat, |i: int| 48u8),
            decreases width - dl - z,
        {
            v.push(48);
            proof {
                assert(v@ =~= pre + Seq::new((z + 1) as nat, |i: int| 48u8));
            }
            z += 1;
        }
    }
    let mut k: usize = 0;
    let ghost mid = v@;
    while k < dl
        invariant
            0 <= k <= dl,
            dl == digits.len(),
            digits@ == dec_bytes(n as int),
            v@ == mid + digits@.take(k as int),
        decreases dl - k,
    {
        let b = digits[k];
        v.push(b);
        proof {
            assert(v@ =~= mid + digits@.take(k + 1));
        }
        k += 1;
    }
    proof {
        assert(digits@.take(dl as int) =~= digits@);
        assert(final(v)@ =~= old(v)@ + padded_dec_bytes(n as int, width as int));
    }
}

/// Relies on `String::new`: the empty string.
#[verifier::external_body]
pub(crate) fn string_new() -> (r: String)
    ensures
        r@ == Seq::<char>::empty(),
{
    String::new()
}

/// Relies on `String::push_str`: appends exactly the given slice.
#[verifier::external_body]
pub(crate) fn string_push_str(s: &mut String, piece: &str)
    ensures
        final(s)@ == old(s)@ + piece@,
{
    s.push_str(piece);
}

/// Relies on `String::from_utf8`: ASCII bytes decode to themselves,
/// one character per byte.
#[verifier::external_body]
pub(crate) fn ascii_to_string(bytes: Vec<u8>) -> (r: String)
    requires
        forall|i: int| 0 <= i < bytes.len() ==> bytes[i] < 128,
    ensures
        r@ == chars_of_bytes(bytes@),
{
    String::from_utf8(bytes).expect("ASCII bytes are valid UTF-8")
}

/// Every byte a decimal formatter emits is ASCII.
pub proof fn lemma_dec_bytes_ascii(n: int)
    requires
        0 <= n,
    ensures
        forall|i: int| 0 <= i < dec_bytes(n).len() ==> #[trigger] dec_bytes(n)[i] < 128,
        forall|i: int| 0 <= i < dec_bytes(n).len() ==> 48 <= #[trigger] dec_bytes(n)[i] <= 57,
    decreases n,
{
    if n >= 10 {
        lemma_dec_bytes_ascii(n / 10);
        assert forall|i: int| 0 <= i < dec_bytes(n).len() implies 48 <= #[trigger] dec_bytes(
            n,
        )[i] <= 57 by {
            if i < dec_bytes(n / 10).len() {
                assert(dec_bytes(n)[i] == dec_bytes(n / 10)[i]);
            } else {
                assert(dec_bytes(n)[i] == (48 + n % 10) as u8);
            }
        }
    }
}

/// The zero-padded form is ASCII too.
pub proof fn lemma_padded_dec_bytes_ascii(n: int, w: int)
    requires
        0 <= n,
    ensures
        forall|i: int|
            0 <= i < padded_dec_bytes(n, w).len() ==> 48 <= #[trigger] padded_dec_bytes(n, w)[i]
                <= 57,
{
    lemma_dec_bytes_ascii(n);
    let p = padded_dec_bytes(n, w);
    if dec_bytes(n).len() < w {
        assert forall|i: int| 0 <= i < p.len() implies 48 <= #[trigger] p[i] <= 57 by {
            if i >= w - dec_bytes(n).len() {
                assert(p[i] == dec_bytes(n)[i - (w - dec_bytes(n).len())]);
            }
        }
    }
}

/// The bytes of the timestamp `%Y<d>%m<d>%d<d>%H<d>%M<d>%S<d>%f` with
/// delimiter `<d>`: the wall-clock fields zero-padded to their widths
/// (year 4, nanoseconds 9, the rest 2), a `-` sign leading a negative
/// year.
pub open spec fn time_string_bytes(
    year: int,
    month: int,
    day: int,
    hour: int,
    minute: int,
    second: int,
    nanos: int,
    delim: Seq<u8>,
) -> Seq<u8> {
    let ybytes = if year < 0 {
        seq![45u8] + padded_dec_bytes(-year, 4)
    } else {
        padded_dec_bytes(year, 4)
    };
    ybytes + delim + padded_dec_bytes(month, 2) + delim + padded_dec_bytes(day, 2) + delim
        + padded_dec_bytes(hour, 2) + delim + padded_dec_bytes(minute, 2) + delim
        + padded_dec_bytes(second, 2) + delim + padded_dec_bytes(nanos, 9)
}

/// Appends a `&str`'s bytes.
fn push_str_bytes(v: &mut Vec<u8>, piece: &str)
    ensures
        final(v)@ == old(v)@ + piece.spec_bytes(),
{
    let bytes = piece.as_bytes();
    let n = bytes.len();
    let mut i: usize = 0;
    let ghost pre = v@;
    while i < n
        invariant
            bytes@ == piece.spec_bytes(),
            n == bytes@.len(),
            0 <= i <= n,
            v@ == pre + bytes@.take(i as int),
        decreases n - i,
    {
        let b = bytes[i];
        v.push(b);
        proof {
            assert(v@ =~= pre + bytes@.take(i + 1));
        }
        i += 1;
    }
    proof {
        assert(bytes@.take(n as int) =~= bytes@);
    }
}

/// Formats wall-clock fields into the delimiter-joined timestamp.
pub fn format_time_parts(
    year: i32,
    month: u32,
    day: u32,
    hour: u32,
    minute: u32,
    second: u32,
    nanos: u32,
    delimiter: &str,
) -> (r: String)
    requires
        forall|i: int|
            0 <= i < delimiter.spec_bytes().len() ==> #[trigger] delimiter.spec_bytes()[i] < 128,
    ensures
        r@ == chars_of_bytes(
            time_string_bytes(
                year as int,
                month as int,
                day as int,
                hour as int,
                minute as int,
                second as int,
                nanos as int,
                delimiter.spec_bytes(),
            ),
        ),
{
    let mut v: Vec<u8> = Vec::new();
    if year < 0 {
        v.push(45);
        let mag: u64 = if year == i32::MIN {
            2147483648u64
        } else {
            (-year) as u64
        };
        push_padded_dec_bytes(&mut v, mag, 4);
    } else {
        push_padded_dec_bytes(&mut v, year as u64, 4);
    }
    push_str_bytes(&mut v, delimiter);
    push_padded_dec_bytes(&mut v, month as u64, 2);
    push_str_bytes(&mut v, delimiter);
    push_padded_dec_bytes(&mut v, day as u64, 2);
    push_str_bytes(&mut v, delimiter);
    push_padded_dec_bytes(&mut v, hour as u64, 2);
    push_str_bytes(&mut v, delimiter);
    push_padded_dec_bytes(&mut v, minute as u64, 2);
    push_str_bytes(&mut v, delimiter);
    push_padded_dec_bytes(&mut v, second as u64, 2);
    push_str_bytes(&mut v, delimiter);
    push_padded_dec_bytes(&mut v, nanos as u64, 9);
    proof {
        assert(v@ =~= time_string_bytes(
            year as int,
            month as int,
            day as int,
            hour as int,
            minute as int,
            second as int,
            nanos as int,
            delimiter.spec_bytes(),
        ));
        lemma_time_string_ascii(
            year as int,
            month as int,
            day as int,
            hour as int,
            minute as int,
            second as int,
            nanos as int,
            delimiter.spec_bytes(),
        );
    }
    ascii_to_string(v)
}

/// A timestamp built from ASCII pieces is ASCII.
proof fn lemma_time_string_ascii(
    year: int,
    month: int,
    day: int,
    hour: int,
    minute: int,
    second: int,
    nanos: int,
    delim: Seq<u8>,
)
    requires
        0 <= month,
        0 <= day,
        0 <= hour,
        0 <= minute,
        0 <= second,
        0 <= nanos,
        forall|i: int| 0 <= i < delim.len() ==> #[trigger] delim[i] < 128,
    ensures
        forall|i: int|
            0 <= i < time_string_bytes(year, month, day, hour, minute, second, nanos, delim).len()
                ==> #[trigger] time_string_bytes(
                year,
                month,
                day,
                hour,
                minute,
                second,
                nanos,
                delim,
            )[i] < 128,
{
    if year < 0 {
        lemma_padded_dec_bytes_ascii(-year, 4);
    } else {
        lemma_padded_dec_bytes_ascii(year, 4);
    }
    lemma_padded_dec_bytes_ascii(month, 2);
    lemma_padded_dec_bytes_ascii(day, 2);
    lemma_padded_dec_bytes_ascii(hour, 2);
    lemma_padded_dec_bytes_ascii(minute, 2);
    lemma_padded_dec_bytes_ascii(second, 2);
    lemma_padded_dec_bytes_ascii(nanos, 9);
}

/// Relies on `chrono::Utc::now`, `FixedOffset::east_opt(8 * 3600)` and
/// the `Datelike`/`Timelike` accessors: the Beijing wall-clock fields,
/// inside the ranges chrono documents (month 1-12, day 1-31, hour to
/// 23, minute and second to 59, nanoseconds below two billion during a
/// leap second).  The values depend on the clock, so nothing more is
/// promised.
#[verifier::external_body]
fn now_beijing_parts() -> (r: (i32, u32, u32, u32, u32, u32, u32))
    ensures
        1 <= r.1 <= 12,
        1 <= r.2 <= 31,
        r.3 <= 23,
        r.4 <= 59,
        r.5 <= 59,
        r.6 < 2000000000,
{
    let offset = chrono::FixedOffset::east_opt(8 * 60 * 60).expect("offset is in range");
    let t = chrono::Utc::now().with_timezone(&offset);
    (t.year(), t.month(), t.day(), t.hour(), t.minute(), t.second(), t.nanosecond())
}

/// The current Beijing wall-clock time, each field zero-padded and
/// joined by the delimiter (year, month, day, hour, minute, second,
/// nanoseconds).  What the clock reads is not promised; the shape is.
pub fn gen_time_string(delimiter: &str) -> (r: String)
    requires
        forall|i: int|
            0 <= i < delimiter.spec_bytes().len() ==> #[trigger] delimiter.spec_bytes()[i] < 128,
    ensures
        exists|year: int, month: int, day: int, hour: int, minute: int, second: int, nanos: int|
            {
                &&& 1 <= month <= 12
                &&& 1 <= day <= 31
                &&& 0 <= hour <= 23
                &&& 0 <= minute <= 59
                &&& 0 <= second <= 59
                &&& 0 <= nanos < 2000000000
                &&& r@ == chars_of_bytes(
                    #[trigger] time_string_bytes(
                        year,
                        month,
                        day,
                        hour,
                        minute,
                        second,
                        nanos,
                        delimiter.spec_bytes(),
                    ),
                )
            },
{
    let (year, month, day, hour, minute, second, nanos) = now_beijing_parts();
    format_time_parts(year, month, day, hour, minute, second, nanos, delimiter)
}

/// The bytes of the legend suffix printed after a class name: a space,
/// the confidence as a two-decimal fraction of one (rounded half up to
/// a hundredth), and a percent sign.
pub open spec fn legend_suffix_bytes(conf: int) -> Seq<u8> {
    let cents = (conf + 50) / 100;
    seq![32u8] + dec_bytes(cents / 100) + seq![46u8] + padded_dec_bytes(cents % 100, 2) + seq![37u8]
}

/// Formats the legend suffix for a confidence given as a fraction of
/// [`crate::CONF_SCALE`].
pub fn format_legend_suffix(conf: u32) -> (r: String)
    ensures
        r@ == chars_of_bytes(legend_suffix_bytes(conf as int)),
{
    let cents: u64 = ((conf as u64) + 50) / 100;
    let mut v: Vec<u8> = Vec::new();
    v.push(32);
    push_dec_bytes(&mut v, cents / 100);
    v.push(46);
    push_padded_dec_bytes(&mut v, cents % 100, 2);
    v.push(37);
    proof {
        assert(v@ =~= legend_suffix_bytes(conf as int));
        lemma_dec_bytes_ascii((cents / 100) as int);
        lemma_padded_dec_bytes_ascii((cents % 100) as int, 2);
    }
    ascii_to_string(v)
}

} // verus!
