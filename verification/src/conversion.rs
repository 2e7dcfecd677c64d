//! Text conversions for the row display, and the two comparators the sort
//! uses: a numeric one and a byte-wise (code-point) string one.

use vstd::prelude::*;
use core::cmp::Ordering;

use crate::app::Torrent;

verus! {

// ---------------------------------------------------------------------------
// String comparison
// ---------------------------------------------------------------------------

/// Lexicographic three-way comparison of two character sequences by code
/// point.  As the UTF-8 encoding preserves code-point order, this is the
/// byte-wise order of the encoded strings.
pub open spec fn str_cmp(a: Seq<char>, b: Seq<char>) -> Ordering
    decreases a.len(),
{
    if a.len() == 0 && b.len() == 0 {
        Ordering::Equal
    } else if a.len() == 0 {
        Ordering::Less
    } else if b.len() == 0 {
        Ordering::Greater
    } else if (a[0] as u32) < (b[0] as u32) {
        Ordering::Less
    } else if (a[0] as u32) > (b[0] as u32) {
        Ordering::Greater
    } else {
        str_cmp(a.skip(1), b.skip(1))
    }
}

/// `a` sorts no later than `b`.
pub open spec fn str_le(a: Seq<char>, b: Seq<char>) -> bool {
    str_cmp(a, b) != Ordering::Greater
}

/// Swapping the arguments of `str_cmp` swaps `Less` and `Greater`.
pub proof fn lemma_str_cmp_flip(a: Seq<char>, b: Seq<char>)
    ensures
        str_cmp(b, a) == (match str_cmp(a, b) {
            Ordering::Less => Ordering::Greater,
            Ordering::Equal => Ordering::Equal,
            Ordering::Greater => Ordering::Less,
        }),
    decreases a.len() + b.len(),
{
    if a.len() > 0 && b.len() > 0 && (a[0] as u32) == (b[0] as u32) {
        lemma_str_cmp_flip(a.skip(1), b.skip(1));
    }
}

/// `str_le` is total: of any two sequences, one sorts no later than the other.
pub proof fn lemma_str_le_total(a: Seq<char>, b: Seq<char>)
    ensures
        str_le(a, b) || str_le(b, a),
{
    lemma_str_cmp_flip(a, b);
}

/// `str_le` is transitive.
pub proof fn lemma_str_le_trans(a: Seq<char>, b: Seq<char>, c: Seq<char>)
    requires
        str_le(a, b),
        str_le(b, c),
    ensures
        str_le(a, c),
    decreases a.len() + b.len() + c.len(),
{
    if a.len() == 0 {
        // str_cmp(a, c) is Less or Equal.
    } else if b.len() == 0 {
        assert(str_cmp(a, b) == Ordering::Greater);
    } else if c.len() == 0 {
        assert(str_cmp(b, c) == Ordering::Greater);
    } else {
        let x = a[0] as u32;
        let y = b[0] as u32;
        let z = c[0] as u32;
        assert(x <= y) by {
            if x > y {
                assert(str_cmp(a, b) == Ordering::Greater);
            }
        }
        assert(y <= z) by {
            if y > z {
                assert(str_cmp(b, c) == Ordering::Greater);
            }
        }
        if x < z {
            assert(str_cmp(a, c) == Ordering::Less);
        } else {
            assert(x == y && y == z);
            assert(str_cmp(a, b) == str_cmp(a.skip(1), b.skip(1)));
            assert(str_cmp(b, c) == str_cmp(b.skip(1), c.skip(1)));
            lemma_str_le_trans(a.skip(1), b.skip(1), c.skip(1));
            assert(str_cmp(a, c) == str_cmp(a.skip(1), c.skip(1)));
        }
    }
}

/// If the first `i` characters agree, comparison is decided by the rest.
proof fn lemma_str_cmp_skip(a: Seq<char>, b: Seq<char>, i: int)
    requires
        0 <= i <= a.len(),
        i <= b.len(),
        forall|k: int| 0 <= k < i ==> a[k] == b[k],
    ensures
        str_cmp(a, b) == str_cmp(a.skip(i), b.skip(i)),
    decreases i,
{
    if i > 0 {
        assert(a[0] == b[0]);
        assert(str_cmp(a, b) == str_cmp(a.skip(1), b.skip(1)));
        assert(a.skip(1).skip(i - 1) =~= a.skip(i));
        assert(b.skip(1).skip(i - 1) =~= b.skip(i));
        assert(forall|k: int| 0 <= k < i - 1 ==> a.skip(1)[k] == b.skip(1)[k]);
        lemma_str_cmp_skip(a.skip(1), b.skip(1), i - 1);
    } else {
        assert(a.skip(0) =~= a);
        assert(b.skip(0) =~= b);
    }
}

/// Three-way comparison of two strings, case-sensitively, by code point.
pub fn compare_string(a: &String, b: &String) -> (r: Ordering)
    ensures
        r == str_cmp(a@, b@),
{
    let alen = a.as_str().unicode_len();
    let blen = b.as_str().unicode_len();
    let mut i: usize = 0;
    loop
        invariant
            i <= alen,
            i <= blen,
            alen == a@.len(),
            blen == b@.len(),
            forall|k: int| 0 <= k < i ==> a@[k] == b@[k],
        decreases alen - i,
    {
        proof {
            lemma_str_cmp_skip(a@, b@, i as int);
        }
        if i >= alen && i >= blen {
            assert(a@.skip(i as int).len() == 0 && b@.skip(i as int).len() == 0);
            return Ordering::Equal;
        }
        if i >= alen {
            assert(a@.skip(i as int).len() == 0 && b@.skip(i as int).len() > 0);
            return Ordering::Less;
        }
        if i >= blen {
            return Ordering::Greater;
        }
        let ca = a.as_str().get_char(i);
        let cb = b.as_str().get_char(i);
        assert(a@.skip(i as int)[0] == ca && b@.skip(i as int)[0] == cb);
        if (ca as u32) < (cb as u32) {
            return Ordering::Less;
        }
        if (ca as u32) > (cb as u32) {
            return Ordering::Greater;
        }
        assert(ca == cb);
        i = i + 1;
    }
}

/// Three-way comparison of two numbers.
pub fn compare_int(a: i64, b: i64) -> (r: Ordering)
    ensures
        r == Ordering::Less <==> a < b,
        r == Ordering::Equal <==> a == b,
        r == Ordering::Greater <==> a > b,
{
    if a < b {
        Ordering::Less
    } else if a > b {
        Ordering::Greater
    } else {
        Ordering::Equal
    }
}

// ---------------------------------------------------------------------------
// Decimal formatting
// ---------------------------------------------------------------------------

/// The decimal digit character for `d` in `0..10`.
pub open spec fn dec_digit(d: int) -> char {
    if d == 0 { '0' }
    else if d == 1 { '1' }
    else if d == 2 { '2' }
    else if d == 3 { '3' }
    else if d == 4 { '4' }
    else if d == 5 { '5' }
    else if d == 6 { '6' }
    else if d == 7 { '7' }
    else if d == 8 { '8' }
    else { '9' }
}

/// The decimal digits of a non-negative number, most significant first.
pub open spec fn dec_str(n: int) -> Seq<char>
    decreases n,
{
    if n < 10 {
        seq![dec_digit(n)]
    } else {
        dec_str(n / 10).push(dec_digit(n % 10))
    }
}

/// A possibly negative number in decimal, with a leading `-` when negative.
pub open spec fn int_str(n: int) -> Seq<char> {
    if n < 0 {
        seq!['-'] + dec_str(-n)
    } else {
        dec_str(n)
    }
}

fn digit_str(d: u64) -> (r: &'static str)
    requires
        d < 10,
    ensures
        r@ =~= seq![dec_digit(d as int)],
{
    proof {
        reveal_strlit("0");
        reveal_strlit("1");
        reveal_strlit("2");
        reveal_strlit("3");
        reveal_strlit("4");
        reveal_strlit("5");
        reveal_strlit("6");
        reveal_strlit("7");
        reveal_strlit("8");
        reveal_strlit("9");
    }
    match d {
        0 => "0",
        1 => "1",
        2 => "2",
        3 => "3",
        4 => "4",
        5 => "5",
        6 => "6",
        7 => "7",
        8 => "8",
        _ => "9",
    }
}

/// A non-negative number rendered in decimal.
pub fn u64_to_string(n: u64) -> (r: String)
    ensures
        r@ == dec_str(n as int),
    decreases n,
{
    if n < 10 {
        String::from_str(digit_str(n))
    } else {
        let prefix = u64_to_string(n / 10);
        let r = prefix.concat(digit_str(n % 10));
        proof {
            assert(r@ =~= dec_str((n / 10) as int).push(dec_digit((n % 10) as int)));
        }
        r
    }
}

/// The absolute value of `n`, exactly, also for the smallest value.
pub fn abs_u64(n: i64) -> (r: u64)
    ensures
        r == if n >= 0 { n as int } else { -(n as int) },
{
    if n >= 0 {
        n as u64
    } else if n == -9223372036854775808i64 {
        9223372036854775808u64
    } else {
        (-n) as u64
    }
}

/// A number rendered in decimal, with a leading `-` when negative.
pub fn i64_to_string(n: i64) -> (r: String)
    ensures
        r@ == int_str(n as int),
{
    if n >= 0 {
        u64_to_string(n as u64)
    } else {
        let digits = u64_to_string(abs_u64(n));
        let r = String::from_str("-").concat(digits.as_str());
        proof {
            reveal_strlit("-");
            assert(r@ =~= seq!['-'] + dec_str(-(n as int)));
        }
        r
    }
}

// ---------------------------------------------------------------------------
// Status and progress text
// ---------------------------------------------------------------------------

/// The display text of a daemon transfer status code.
pub open spec fn status_text(status: int) -> Seq<char> {
    if status == 0 { "Stopped"@ }
    else if status == 1 { "Queued to verify local data"@ }
    else if status == 2 { "Verifying local data"@ }
    else if status == 3 { "Queued to download"@ }
    else if status == 4 { "Downloading"@ }
    else if status == 5 { "Queued to seed"@ }
    else if status == 6 { "Seeding"@ }
    else { Seq::empty() }
}

pub fn status_string(status: &i64) -> (r: &'static str)
    ensures
        r@ == status_text(*status as int),
{
    proof {
        reveal_strlit("");
    }
    match status {
        0 => "Stopped",
        1 => "Queued to verify local data",
        2 => "Verifying local data",
        3 => "Queued to download",
        4 => "Downloading",
        5 => "Queued to seed",
        6 => "Seeding",
        _ => "",
    }
}

/// A progress value in thousandths rendered as a percentage with one
/// decimal place, `453` becoming `45.3 %`.
pub open spec fn percent_text(p: int) -> Seq<char> {
    let a = if p < 0 { -p } else { p };
    let base = dec_str(a / 10) + "."@ + seq![dec_digit(a % 10)] + " %"@;
    if p < 0 {
        seq!['-'] + base
    } else {
        base
    }
}

pub fn get_percentage(permille: i64) -> (r: String)
    ensures
        r@ == percent_text(permille as int),
{
    let a = abs_u64(permille);
    let mut t = String::new();
    if permille < 0 {
        t.append("-");
    }
    t.append(u64_to_string(a / 10).as_str());
    t.append(".");
    t.append(digit_str(a % 10));
    t.append(" %");
    proof {
        reveal_strlit("-");
        assert(t@ =~= percent_text(permille as int));
    }
    t
}

/// A ratio in hundredths rendered with two decimal places, `123` becoming
/// `1.23`.
pub open spec fn ratio_text(c: int) -> Seq<char> {
    let a = if c < 0 { -c } else { c };
    let base = dec_str(a / 100) + "."@ + seq![dec_digit((a / 10) % 10), dec_digit(a % 10)];
    if c < 0 {
        seq!['-'] + base
    } else {
        base
    }
}

pub fn ratio_string(centi: i64) -> (r: String)
    ensures
        r@ == ratio_text(centi as int),
{
    let a = abs_u64(centi);
    let mut t = String::new();
    if centi < 0 {
        t.append("-");
    }
    t.append(u64_to_string(a / 100).as_str());
    t.append(".");
    t.append(digit_str((a / 10) % 10));
    t.append(digit_str(a % 10));
    proof {
        reveal_strlit("-");
        assert(t@ =~= ratio_text(centi as int));
    }
    t
}

/// The progress text shown for a job: recheck progress while verifying,
/// completion while downloading or seeding, empty otherwise.
pub open spec fn status_percent_text(t: Torrent) -> Seq<char> {
    if t.status == 2 {
        percent_text(t.recheck_progress as int)
    } else if t.status == 4 || t.status == 6 {
        percent_text(t.percent_done as int)
    } else {
        Seq::empty()
    }
}

pub fn get_status_percentage(torrent: &Torrent) -> (r: String)
    ensures
        r@ == status_percent_text(*torrent),
{
    if torrent.status == 2 {
        get_percentage(torrent.recheck_progress)
    } else if torrent.status == 4 || torrent.status == 6 {
        get_percentage(torrent.percent_done)
    } else {
        String::new()
    }
}

// ---------------------------------------------------------------------------
// Durations
// ---------------------------------------------------------------------------

/// A number of seconds as display text: `Done` and `Inf` for the daemon's
/// two sentinel values, whole days alone once a day is reached, otherwise
/// hours, minutes and seconds, each omitted when zero.
pub open spec fn secs_text(secs: int) -> Seq<char> {
    if secs == -1 { "Done"@ }
    else if secs == -2 { "Inf"@ }
    else if secs < 0 { Seq::empty() }
    else if secs / 86400 >= 1 {
        dec_str(secs / 86400) + "d "@
    } else {
        let hours = secs / 3600;
        let minutes = (secs % 3600) / 60;
        let seconds = secs % 60;
        (if hours >= 1 { dec_str(hours) + "h "@ } else { Seq::empty() })
            + (if minutes >= 1 { dec_str(minutes) + "min "@ } else { Seq::empty() })
            + (if seconds >= 1 { dec_str(seconds) + "sec"@ } else { Seq::empty() })
    }
}

pub fn convert_secs(secs: i64) -> (r: String)
    ensures
        r@ == secs_text(secs as int),
{
    if secs == -1 {
        return String::from_str("Done");
    }
    if secs == -2 {
        return String::from_str("Inf");
    }
    if secs < 0 {
        return String::new();
    }
    let s = secs as u64;
    if s / 86400 >= 1 {
        let mut t = u64_to_string(s / 86400);
        t.append("d ");
        proof {
            assert(t@ =~= secs_text(secs as int));
        }
        return t;
    }
    let hours = s / 3600;
    let minutes = (s % 3600) / 60;
    let seconds = s % 60;
    let mut t = String::new();
    if hours >= 1 {
        t.append(u64_to_string(hours).as_str());
        t.append("h ");
    }
    if minutes >= 1 {
        t.append(u64_to_string(minutes).as_str());
        t.append("min ");
    }
    if seconds >= 1 {
        t.append(u64_to_string(seconds).as_str());
        t.append("sec");
    }
    proof {
        assert(t@ =~= secs_text(secs as int));
    }
    t
}

// ---------------------------------------------------------------------------
// Byte sizes
// ---------------------------------------------------------------------------

/// The unit a byte count is displayed in: 0 for bytes up to 4 for terabytes.
/// A negative count stays at bytes, as only its magnitude is displayed.
pub open spec fn byte_level(size: int) -> int {
    if size >= 1000000000000 { 4 }
    else if size >= 1000000000 { 3 }
    else if size >= 1000000 { 2 }
    else if size >= 1000 { 1 }
    else { 0 }
}

/// The text `byte-unit` renders for `bytes` bytes adjusted to the decimal
/// unit of the given level, such as `1.50 KB` for 1500 at level 1.  It is a
/// function of the two arguments alone.
pub uninterp spec fn byte_display(bytes: int, level: int) -> Seq<char>;

/// Relies on `byte_unit::Byte::get_adjusted_unit` and the `Display` of
/// `byte_unit::AdjustedByte`: the rendered text depends only on the byte
/// count and the chosen unit.
#[verifier::external_body]
fn adjusted_byte_text(bytes: u64, level: u8) -> (r: String)
    requires
        level <= 4,
    ensures
        r@ == byte_display(bytes as int, level as int),
{
    let unit = match level {
        0 => byte_unit::ByteUnit::B,
        1 => byte_unit::ByteUnit::KB,
        2 => byte_unit::ByteUnit::MB,
        3 => byte_unit::ByteUnit::GB,
        _ => byte_unit::ByteUnit::TB,
    };
    byte_unit::Byte::from_bytes(bytes as u128).get_adjusted_unit(unit).to_string()
}

pub fn convert_bytes(size: i64) -> (r: String)
    ensures
        r@ == byte_display(
            if size >= 0 { size as int } else { -(size as int) },
            byte_level(size as int),
        ),
{
    let level: u8 = if size >= 1000000000000 { 4 }
        else if size >= 1000000000 { 3 }
        else if size >= 1000000 { 2 }
        else if size >= 1000 { 1 }
        else { 0 };
    adjusted_byte_text(abs_u64(size), level)
}

/// A transfer rate: the byte text with `/s` appended.
pub open spec fn rate_text(rate: int) -> Seq<char> {
    byte_display(if rate >= 0 { rate } else { -rate }, byte_level(rate)) + "/s"@
}

pub fn convert_rate(rate: i64) -> (r: String)
    ensures
        r@ == rate_text(rate as int),
{
    let mut t = convert_bytes(rate);
    t.append("/s");
    t
}

// ---------------------------------------------------------------------------
// Dates
// ---------------------------------------------------------------------------

/// The text `chrono` renders for a Unix timestamp with the day/month/year
/// hour:minute format.  It is a function of the timestamp alone.
pub uninterp spec fn date_display(secs: int) -> Seq<char>;

/// Relies on `chrono::DateTime::from_timestamp` and `format`: the rendered
/// text depends only on the timestamp; a timestamp outside chrono's range
/// renders as empty text.
#[verifier::external_body]
fn timestamp_text(secs: i64) -> (r: String)
    ensures
        r@ == date_display(secs as int),
{
    match chrono::DateTime::<chrono::Utc>::from_timestamp(secs, 0) {
        Some(dt) => dt.format("%d/%m/%Y %H:%M").to_string(),
        None => String::new(),
    }
}

/// The display text of a done/added date: empty for the daemon's zero
/// sentinel, otherwise the formatted timestamp.
pub open spec fn date_text(stamp: int) -> Seq<char> {
    if stamp == 0 {
        Seq::empty()
    } else {
        date_display(stamp)
    }
}

pub fn date(stamp: i64) -> (r: String)
    ensures
        r@ == date_text(stamp as int),
{
    if stamp == 0 {
        return String::new();
    }
    timestamp_text(stamp)
}

} // verus!
