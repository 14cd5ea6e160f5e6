//! The text of a `LICENSE` file: the license template with its year and
//! copyright holder filled in.
use vstd::prelude::*;

use crate::generate::{FileWrite, GenerateError, ManagedFile};
use crate::model::{Config, WriteMode};
use crate::text::{chars_of, contains_text, occurs_at, replace_all, replace_chars, string_of};

verus! {

/// A point in time, as `jiff` represents it.
#[verifier::external_type_specification]
#[verifier::external_body]
pub struct ExTimestamp(jiff::Timestamp);

/// A point in time in a time zone, as `jiff` represents it.
#[verifier::external_type_specification]
#[verifier::external_body]
pub struct ExZoned(jiff::Zoned);

/// The error `jiff` reports.
#[verifier::external_type_specification]
#[verifier::external_body]
pub struct ExJiffError(jiff::Error);

/// The time of the system clock, as std represents it.
#[verifier::external_type_specification]
#[verifier::external_body]
pub struct ExSystemTime(std::time::SystemTime);

/// Reads the system clock with `std::time::SystemTime::now`. Nothing is
/// claimed of the result, which depends on the time.
#[verifier::external_body]
fn system_time_now() -> std::time::SystemTime {
    std::time::SystemTime::now()
}

/// Converts a system time with `jiff::Timestamp::try_from`, which fails,
/// rather than panics, when the time lies outside the years -9999..=9999.
/// Nothing is claimed of the result, which depends on the clock's value.
#[verifier::external_body]
fn timestamp_of(time: std::time::SystemTime) -> Result<jiff::Timestamp, jiff::Error> {
    jiff::Timestamp::try_from(time)
}

/// Places a timestamp in a named time zone with `jiff::Timestamp::in_tz`.
/// Nothing is claimed: whether the zone is found depends on the time zone
/// database of the machine.
#[verifier::external_body]
fn in_time_zone(timestamp: jiff::Timestamp, zone: &str) -> Result<jiff::Zoned, jiff::Error> {
    timestamp.in_tz(zone)
}

/// The year of a zoned datetime, with `jiff::Zoned::year`, which `jiff`
/// documents to lie in -9999..=9999.
#[verifier::external_body]
fn year_of(zoned: &jiff::Zoned) -> (year: i16)
    ensures
        -9999 <= year <= 9999,
{
    zoned.year()
}

/// The decimal digit `d`.
pub open spec fn digit(d: nat) -> char {
    (48 + d) as char
}

/// The decimal digits of `n`, most significant first, without leading zeros.
pub open spec fn digits(n: nat) -> Seq<char>
    decreases n,
{
    if n < 10 {
        seq![digit(n)]
    } else {
        digits(n / 10) + seq![digit(n % 10)]
    }
}

/// `n` written in decimal, with a leading `-` when negative, as
/// `to_string` writes an integer.
pub open spec fn decimal(n: int) -> Seq<char> {
    if n < 0 {
        seq!['-'] + digits((-n) as nat)
    } else {
        digits(n as nat)
    }
}

/// The license text once its placeholders are filled: `[year]` and `[yyyy]`
/// become `year`, `[fullname]` and `[name of copyright owner]` become
/// `author`, replaced in that order.
pub open spec fn license_text(body: Seq<char>, year: Seq<char>, author: Seq<char>) -> Seq<char> {
    replace_all(
        replace_all(
            replace_all(replace_all(body, "[year]"@, year), "[yyyy]"@, year),
            "[fullname]"@,
            author,
        ),
        "[name of copyright owner]"@,
        author,
    )
}

/// The copyright holder written into the license: the author, or nothing.
pub open spec fn author_text(author: Option<String>) -> Seq<char> {
    match author {
        Some(a) => a@,
        None => seq![],
    }
}

fn digits_of(n: u32) -> (r: Vec<char>)
    ensures
        r@ == digits(n as nat),
    decreases n,
{
    let d = (n % 10) as u8;
    let c = (48u8 + d) as char;
    if n < 10 {
        let mut r = Vec::new();
        r.push(c);
        assert(r@ =~= digits(n as nat));
        r
    } else {
        let mut r = digits_of(n / 10);
        r.push(c);
        assert(r@ =~= digits(n as nat));
        r
    }
}

/// Replacing a text that does not occur changes nothing.
pub proof fn lemma_replace_absent(s: Seq<char>, p: Seq<char>, r: Seq<char>)
    requires
        p.len() > 0,
        !contains_text(s, p),
    ensures
        replace_all(s, p, r) == s,
    decreases s.len(),
{
    if s.len() >= p.len() {
        assert(s.take(p.len() as int) != p) by {
            assert(s.subrange(0, p.len() as int) =~= s.take(p.len() as int));
            if s.take(p.len() as int) == p {
                assert(occurs_at(s, p, 0));
            }
        }
        assert(!contains_text(s.drop_first(), p)) by {
            if contains_text(s.drop_first(), p) {
                let i = choose|i: int| occurs_at(s.drop_first(), p, i);
                assert(s.subrange(i + 1, i + 1 + p.len()) =~= s.drop_first().subrange(i, i + p.len()));
                assert(occurs_at(s, p, i + 1));
            }
        }
        lemma_replace_absent(s.drop_first(), p, r);
        assert(seq![s[0]] + s.drop_first() =~= s);
    }
}

/// Law: a license text without placeholders is written as it is, whatever
/// the year and the copyright holder.
pub proof fn law_license_without_placeholders(body: Seq<char>, year: Seq<char>, author: Seq<char>)
    requires
        !contains_text(body, "[year]"@),
        !contains_text(body, "[yyyy]"@),
        !contains_text(body, "[fullname]"@),
        !contains_text(body, "[name of copyright owner]"@),
    ensures
        license_text(body, year, author) == body,
{
    reveal_strlit("[year]");
    reveal_strlit("[yyyy]");
    reveal_strlit("[fullname]");
    reveal_strlit("[name of copyright owner]");
    lemma_replace_absent(body, "[year]"@, year);
    lemma_replace_absent(body, "[yyyy]"@, year);
    lemma_replace_absent(body, "[fullname]"@, author);
    lemma_replace_absent(body, "[name of copyright owner]"@, author);
}

/// `n` written in decimal.
pub fn decimal_chars(n: i16) -> (r: Vec<char>)
    ensures
        r@ == decimal(n as int),
{
    let v = n as i32;
    if v < 0 {
        let mut r: Vec<char> = Vec::new();
        r.push('-');
        let ds = digits_of((-v) as u32);
        let mut r2 = r;
        crate::text::append_chars(&mut r2, &ds);
        assert(r2@ =~= decimal(n as int));
        r2
    } else {
        digits_of(v as u32)
    }
}

/// The license text with its year and copyright holder filled in.
pub fn fill_placeholders(body: &str, year: i16, author: &str) -> (text: String)
    ensures
        text@ == license_text(body@, decimal(year as int), author@),
{
    let year_chars = decimal_chars(year);
    let author_chars = chars_of(author);
    let b = chars_of(body);
    proof {
        reveal_strlit("[year]");
        reveal_strlit("[yyyy]");
        reveal_strlit("[fullname]");
        reveal_strlit("[name of copyright owner]");
    }
    let b = replace_chars(&b, &chars_of("[year]"), &year_chars);
    let b = replace_chars(&b, &chars_of("[yyyy]"), &year_chars);
    let b = replace_chars(&b, &chars_of("[fullname]"), &author_chars);
    let b = replace_chars(&b, &chars_of("[name of copyright owner]"), &author_chars);
    string_of(&b)
}

/// The `LICENSE` write that `config` calls for, given the current year:
/// whether the file must be new, and its contents.
pub open spec fn license_write(config: Config, year: int) -> Option<(bool, Seq<char>)> {
    match config.license {
        None => None,
        Some(license) => {
            let text = license_text(license.body@, decimal(year), author_text(config.author));
            match config.license_mode {
                WriteMode::Create => Some((true, text)),
                WriteMode::Replace => Some((false, text)),
                _ => None,
            }
        },
    }
}

/// The `LICENSE` write that `config` calls for in the year `year`.
pub fn write_for_year(config: &Config, year: i16) -> (w: Option<FileWrite>)
    ensures
        FileWrite::view_of(w) == license_write(*config, year as int),
        w matches Some(f) ==> f.file == ManagedFile::License,
{
    let license = match &config.license {
        Some(license) => license,
        None => return None,
    };
    let author: &str = match &config.author {
        Some(a) => a.as_str(),
        None => "",
    };
    proof {
        reveal_strlit("");
    }
    assert(author@ == author_text(config.author));
    match config.license_mode {
        WriteMode::Create => Some(
            FileWrite {
                file: ManagedFile::License,
                contents: fill_placeholders(license.body.as_str(), year, author),
                create_new: true,
            },
        ),
        WriteMode::Replace => Some(
            FileWrite {
                file: ManagedFile::License,
                contents: fill_placeholders(license.body.as_str(), year, author),
                create_new: false,
            },
        ),
        _ => None,
    }
}

/// Whether planning the `LICENSE` reads the clock.
pub open spec fn needs_year(config: Config) -> bool {
    config.license is Some && config.license_mode != WriteMode::Skip
}

/// The `LICENSE` write that `config` calls for, with the current year in
/// UTC. Nothing is written without a license or in `Skip` mode; `Merge`
/// leaves the file alone too. The errors are a clock outside the years
/// -9999..=9999 and a failure to place the current time in UTC.
pub fn plan(config: &Config) -> (r: Result<Option<FileWrite>, GenerateError>)
    ensures
        !needs_year(*config) ==> r == Ok::<Option<FileWrite>, GenerateError>(None),
        r is Err ==> needs_year(*config),
        r matches Ok(w) ==> exists|year: int|
            -9999 <= year <= 9999 && FileWrite::view_of(w) == license_write(*config, year)
                && (w matches Some(f) ==> f.file == ManagedFile::License),
{
    match &config.license {
        Some(_) => {},
        None => {
            assert(FileWrite::view_of(None) == license_write(*config, 0));
            return Ok(None);
        },
    };
    if config.license_mode == WriteMode::Skip {
        assert(FileWrite::view_of(None) == license_write(*config, 0));
        return Ok(None);
    }
    let now = match timestamp_of(system_time_now()) {
        Ok(now) => now,
        Err(e) => return Err(GenerateError::Clock(e)),
    };
    let zoned = match in_time_zone(now, "UTC") {
        Ok(zoned) => zoned,
        Err(e) => return Err(GenerateError::TimeZone(e)),
    };
    let year = year_of(&zoned);
    let w = write_for_year(config, year);
    Ok(w)
}

} // verus!
