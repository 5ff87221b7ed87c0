//! Servers: where they live, how they are named, when they were last used,
//! and how they are started.
use vstd::prelude::*;
use vstd::bytes::{spec_u64_from_le_bytes, spec_u64_to_le_bytes, u64_from_le_bytes, u64_to_le_bytes};
use crate::cli::{platform_name, Platform};
use crate::config::Config;
use crate::error::Error;
use crate::paths::{dot, dot_dot, join_path, parse_path, render_path, PathView, ServerPath, SEPARATOR};
use crate::paths::views_of;
use crate::server_id::{Location, ServerId};
use crate::session::{BASE_COMMAND, TIMER};
use crate::collections::{distinct_strings, key_map, map_get, set_contains, string_set};
use crate::config::RconConfig;
use crate::paths::strip_path_prefix;
use crate::server_id::{relative_dir_result, SearchFailure};
use crate::text::{
    chars_of, decimal, decimal_chars, find, first_occurrence, lemma_decimal_injective, owned, push_all,
    push_str, slice_chars, string_of, trim_end, trimmed_end,
};
use crate::tree::{AbsoluteServerObject, LastUsed};

verus! {

/// What a template server's directory name ends with.
pub const TEMPLATE_SUFFIX: &'static str = ".template";

/// The directory, inside a server's directory, that marks it as a server.
pub const METADATA_DIRECTORY_NAME: &'static str = ".mcserver";

/// The file, in the metadata directory, naming the server's jar file.
pub const JAR_FILE_TXT_NAME: &'static str = "jar_file.txt";

/// The file, in the metadata directory, holding when the server was last used.
pub const LAST_USED_FILE: &'static str = "last_used.timestamp";

/// The environment variable naming the multiplexer session.
pub const MULTIPLEXER_SESSION_NAME_VAR: &'static str = "ZELLIJ_SESSION_NAME";

/// The environment variable naming the server that a session runs.
pub const SERVER_NAME_VAR: &'static str = "SERVER_NAME";

/// The timestamp that marks a server as never used.
pub const NEVER_USED_TIMESTAMP: u64 = 0xffff_ffff_ffff_ffffu64;

/// Seconds in a minute.
pub const SECS_MINUTE: u64 = 60;
/// Seconds in an hour.
pub const SECS_HOUR: u64 = 3600;
/// Seconds in a day.
pub const SECS_DAY: u64 = 86400;
/// Seconds in a mean Gregorian year of 365.2425 days.
pub const SECS_YEAR: u64 = 31556952;

/// The bytes of the last-used file for `timestamp`: its eight
/// little-endian bytes.
pub fn encode_timestamp(timestamp: u64) -> (res: Vec<u8>)
    ensures
        res@ == spec_u64_to_le_bytes(timestamp),
        res@.len() == 8,
{
    u64_to_le_bytes(timestamp)
}

/// The timestamp in the bytes of a last-used file, when there are exactly
/// eight of them.
pub fn decode_timestamp(data: &[u8]) -> (res: Option<u64>)
    ensures
        res is Some <==> data@.len() == 8,
        res matches Some(t) ==> t == spec_u64_from_le_bytes(data@),
{
    if data.len() != 8 {
        return None;
    }
    Some(u64_from_le_bytes(data))
}

/// Reading back what was written for a timestamp gives the timestamp.
pub proof fn timestamp_round_trip(timestamp: u64)
    ensures
        spec_u64_to_le_bytes(timestamp).len() == 8,
        spec_u64_from_le_bytes(spec_u64_to_le_bytes(timestamp)) == timestamp,
{
    vstd::bytes::lemma_auto_spec_u64_to_from_le_bytes();
}

/// The parts of a duration of `d` seconds: years, days, hours, minutes and
/// seconds.
pub open spec fn duration_parts(d: nat) -> (nat, nat, nat, nat, nat) {
    let years = d / (SECS_YEAR as nat);
    let yr = d % (SECS_YEAR as nat);
    let days = yr / (SECS_DAY as nat);
    let dr = yr % (SECS_DAY as nat);
    let hours = dr / (SECS_HOUR as nat);
    let hr = dr % (SECS_HOUR as nat);
    (years, days, hours, hr / (SECS_MINUTE as nat), hr % (SECS_MINUTE as nat))
}

/// `n` followed by a unit letter.
pub open spec fn amount(n: nat, unit: char) -> Seq<char> {
    decimal(n).push(unit)
}

/// How long ago, for a duration of `d` seconds: from the largest non-zero
/// unit among years, days, hours and minutes down to seconds, separated by
/// spaces, as in `1d 0h 3m 5s`.
pub open spec fn elapsed_text(d: nat) -> Seq<char> {
    let (y, dd, h, m, s) = duration_parts(d);
    let tail_m = amount(m, 'm') + seq![' '] + amount(s, 's');
    let tail_h = amount(h, 'h') + seq![' '] + tail_m;
    let tail_d = amount(dd, 'd') + seq![' '] + tail_h;
    if y > 0 {
        amount(y, 'y') + seq![' '] + tail_d
    } else if dd > 0 {
        tail_d
    } else if h > 0 {
        tail_h
    } else if m > 0 {
        tail_m
    } else {
        amount(s, 's')
    }
}

/// The parts of a duration, read off it directly: the hours, minutes and
/// seconds left within the year are those left within the day, hour and
/// minute.
proof fn duration_parts_direct(d: nat)
    ensures
        ({
            let r = d % 31556952;
            duration_parts(d) == (d / 31556952, r / 86400, r % 86400 / 3600, r % 3600 / 60, r % 60)
        }),
{
    let r = d % 31556952;
    let dr = r % 86400;
    vstd::arithmetic::div_mod::lemma_mod_mod(r as int, 3600, 24);
    vstd::arithmetic::div_mod::lemma_mod_mod(dr as int, 60, 60);
    vstd::arithmetic::div_mod::lemma_mod_mod(r as int, 60, 1440);
    vstd::arithmetic::div_mod::lemma_mod_mod(r as int, 3600, 24);
    assert(dr % 3600 == r % 3600);
    assert((dr % 3600) % 60 == r % 60) by {
        vstd::arithmetic::div_mod::lemma_mod_mod(r as int, 60, 60);
    }
}

/// Below `unit`, a duration has no whole `unit` and is its own remainder.
proof fn below_unit(d: nat, unit: nat)
    requires
        0 < unit,
        d < unit,
    ensures
        d / unit == 0,
        d % unit == d,
{
    vstd::arithmetic::div_mod::lemma_small_mod(d, unit);
    vstd::arithmetic::div_mod::lemma_basic_div(d as int, unit as int);
}

/// From `unit` on, a duration has a whole `unit`.
proof fn reaches_unit(d: nat, unit: nat)
    requires
        0 < unit <= d,
    ensures
        d / unit > 0,
{
    vstd::arithmetic::div_mod::lemma_div_non_zero(d as int, unit as int);
}

/// How long ago a duration of `d` seconds was, read off `d` directly: whole
/// years, then the days, hours and minutes left within the year, day, hour
/// and minute, then the seconds; starting from the largest unit that is
/// reached.
pub proof fn elapsed_text_reads_the_duration(d: nat)
    ensures
        ({
            let r = d % 31556952;
            let t = elapsed_text(d);
            &&& d >= 31556952 ==> t == decimal(d / 31556952) + seq!['y', ' '] + decimal(r / 86400) + seq!['d', ' ']
                + decimal(r % 86400 / 3600) + seq!['h', ' '] + decimal(r % 3600 / 60) + seq!['m', ' '] + decimal(r % 60) + seq!['s']
            &&& 86400 <= d < 31556952 ==> t == decimal(d / 86400) + seq!['d', ' ']
                + decimal(d % 86400 / 3600) + seq!['h', ' '] + decimal(d % 3600 / 60) + seq!['m', ' '] + decimal(d % 60) + seq!['s']
            &&& 3600 <= d < 86400 ==> t == decimal(d / 3600) + seq!['h', ' '] + decimal(d % 3600 / 60) + seq!['m', ' ']
                + decimal(d % 60) + seq!['s']
            &&& 60 <= d < 3600 ==> t == decimal(d / 60) + seq!['m', ' '] + decimal(d % 60) + seq!['s']
            &&& d < 60 ==> t == decimal(d) + seq!['s']
        }),
{
    duration_parts_direct(d);
    let r = d % 31556952;
    if d >= 31556952 {
        reaches_unit(d, 31556952);
    } else {
        below_unit(d, 31556952);
        if d >= 86400 {
            reaches_unit(d, 86400);
        } else {
            below_unit(d, 86400);
            if d >= 3600 {
                reaches_unit(d, 3600);
            } else {
                below_unit(d, 3600);
                if d >= 60 {
                    reaches_unit(d, 60);
                } else {
                    below_unit(d, 60);
                }
            }
        }
    }
}

/// How long ago `then` was, at `now`, both in seconds since the epoch; a
/// `then` in the future counts as now.
pub open spec fn elapsed_since(now: u64, then: u64) -> Seq<char> {
    elapsed_text(if now >= then { (now - then) as nat } else { 0nat })
}

/// The parts of a duration add back up to it, each below its next unit.
pub proof fn duration_parts_sum(d: nat)
    ensures
        ({
            let (y, dd, h, m, s) = duration_parts(d);
            &&& y * (SECS_YEAR as nat) + dd * (SECS_DAY as nat) + h * (SECS_HOUR as nat) + m * (SECS_MINUTE as nat) + s == d
            &&& dd * (SECS_DAY as nat) < SECS_YEAR as nat
            &&& h < 24
            &&& m < 60
            &&& s < 60
        }),
{
    let (y, dd, h, m, s) = duration_parts(d);
    let yr = d % (SECS_YEAR as nat);
    let dr = yr % (SECS_DAY as nat);
    let hr = dr % (SECS_HOUR as nat);
    assert(d == y * 31556952 + yr) by (nonlinear_arith)
        requires y == d / 31556952, yr == d % 31556952;
    assert(yr == dd * 86400 + dr) by (nonlinear_arith)
        requires dd == yr / 86400, dr == yr % 86400;
    assert(dr == h * 3600 + hr) by (nonlinear_arith)
        requires h == dr / 3600, hr == dr % 3600;
    assert(hr == m * 60 + s) by (nonlinear_arith)
        requires m == hr / 60, s == hr % 60;
    assert(dd * 86400 <= yr) by (nonlinear_arith)
        requires yr == dd * 86400 + dr, dr >= 0;
    assert(h < 24) by (nonlinear_arith)
        requires dr == h * 3600 + hr, dr < 86400, hr >= 0;
    assert(m < 60) by (nonlinear_arith)
        requires hr == m * 60 + s, hr < 3600, s >= 0;
}

/// `n` followed by the unit letter.
fn push_amount(out: &mut Vec<char>, n: u64, unit: char)
    ensures
        final(out)@ == old(out)@ + amount(n as nat, unit),
{
    let digits = decimal_chars(n);
    push_all(out, &digits);
    out.push(unit);
    assert(final(out)@ =~= old(out)@ + amount(n as nat, unit));
}

/// How long ago, for a duration of `difference` seconds.
pub fn format_elapsed(difference: u64) -> (res: String)
    ensures
        res@ == elapsed_text(difference as nat),
{
    let years = difference / SECS_YEAR;
    let years_remainder = difference % SECS_YEAR;
    let days = years_remainder / SECS_DAY;
    let days_remainder = years_remainder % SECS_DAY;
    let hours = days_remainder / SECS_HOUR;
    let hours_remainder = days_remainder % SECS_HOUR;
    let minutes = hours_remainder / SECS_MINUTE;
    let seconds = hours_remainder % SECS_MINUTE;
    let mut out: Vec<char> = Vec::new();
    if years > 0 {
        push_amount(&mut out, years, 'y');
        out.push(' ');
    }
    if years > 0 || days > 0 {
        push_amount(&mut out, days, 'd');
        out.push(' ');
    }
    if years > 0 || days > 0 || hours > 0 {
        push_amount(&mut out, hours, 'h');
        out.push(' ');
    }
    if years > 0 || days > 0 || hours > 0 || minutes > 0 {
        push_amount(&mut out, minutes, 'm');
        out.push(' ');
    }
    push_amount(&mut out, seconds, 's');
    proof {
        let (y, dd, h, m, s) = duration_parts(difference as nat);
        assert(y == years && dd == days && h == hours && m == minutes && s == seconds);
        assert(out@ =~= elapsed_text(difference as nat));
    }
    string_of(&out)
}

/// What a server's last-used record says, given its bytes (`None` when the
/// file is missing), where it lies (for the error), and the current time.
pub fn last_used_at(data: Option<&[u8]>, timestamp_path: &str, now: u64) -> (res: Result<LastUsed, Error>)
    ensures
        data is None ==> res == Ok::<LastUsed, Error>(LastUsed::Unknown),
        data matches Some(d) ==> {
            &&& d@.len() != 8 ==> (res matches Err(Error::InvalidTimestampFile(p)) && p@ == timestamp_path@)
            &&& d@.len() == 8 && spec_u64_from_le_bytes(d@) == NEVER_USED_TIMESTAMP ==> res == Ok::<LastUsed, Error>(LastUsed::Never)
            &&& d@.len() == 8 && spec_u64_from_le_bytes(d@) != NEVER_USED_TIMESTAMP ==>
                (res matches Ok(LastUsed::Time(t)) && t@ == elapsed_since(now, spec_u64_from_le_bytes(d@)))
        },
{
    match data {
        None => Ok(LastUsed::Unknown),
        Some(bytes) => match decode_timestamp(bytes) {
            None => Err(Error::InvalidTimestampFile(crate::text::owned(timestamp_path))),
            Some(timestamp) => {
                if timestamp == NEVER_USED_TIMESTAMP {
                    Ok(LastUsed::Never)
                } else {
                    let difference = now.saturating_sub(timestamp);
                    Ok(LastUsed::Time(format_elapsed(difference)))
                }
            },
        },
    }
}

/// A point in time of the system clock.
#[verifier::external_type_specification]
#[verifier::external_body]
pub struct ExSystemTime(std::time::SystemTime);

/// `SystemTime::now`: the system clock's current time; nothing is stated of
/// it.
#[verifier::external_body]
fn system_now() -> (res: std::time::SystemTime) {
    std::time::SystemTime::now()
}

/// `SystemTime::duration_since` the Unix epoch: how long after the epoch
/// `t` is, or `None` when it is before; the clock's value is opaque, so
/// nothing is stated of it.
#[verifier::external_body]
fn since_epoch(t: &std::time::SystemTime) -> (res: Option<core::time::Duration>) {
    t.duration_since(std::time::UNIX_EPOCH).ok()
}

/// `Duration::as_secs`: the whole seconds of a duration, which is opaque
/// here, so nothing is stated of them.
#[verifier::external_body]
fn whole_seconds(d: &core::time::Duration) -> (res: u64) {
    d.as_secs()
}

/// Seconds since the Unix epoch; fails when the clock stands before it.
pub fn get_unix_epoch_secs() -> (res: Result<u64, Error>)
    ensures
        res is Err ==> res == Err::<u64, Error>(Error::DurationMathFailure),
{
    let now = system_now();
    match since_epoch(&now) {
        Some(d) => Ok(whole_seconds(&d)),
        None => Err(Error::DurationMathFailure),
    }
}

/// What a server's last-used record says, given its bytes (`None` when the
/// file is missing) and where it lies; the current time is read from the
/// clock only for a real timestamp.
pub fn get_last_used(data: Option<&[u8]>, timestamp_path: &str) -> (res: Result<LastUsed, Error>)
    ensures
        data is None ==> res == Ok::<LastUsed, Error>(LastUsed::Unknown),
        data matches Some(d) ==> {
            &&& d@.len() != 8 ==> (res matches Err(Error::InvalidTimestampFile(p)) && p@ == timestamp_path@)
            &&& d@.len() == 8 && spec_u64_from_le_bytes(d@) == NEVER_USED_TIMESTAMP ==> res == Ok::<LastUsed, Error>(LastUsed::Never)
            &&& d@.len() == 8 && spec_u64_from_le_bytes(d@) != NEVER_USED_TIMESTAMP ==>
                (res == Err::<LastUsed, Error>(Error::DurationMathFailure) || (res matches Ok(LastUsed::Time(t))
                    && exists|now: u64| #[trigger] elapsed_since(now, spec_u64_from_le_bytes(d@)) == t@))
        },
{
    match data {
        Some(bytes) => {
            if bytes.len() == 8 && u64_from_le_bytes(bytes) != NEVER_USED_TIMESTAMP {
                match get_unix_epoch_secs() {
                    Ok(now) => last_used_at(data, timestamp_path, now),
                    Err(e) => Err(e),
                }
            } else {
                last_used_at(data, timestamp_path, 0)
            }
        },
        None => last_used_at(data, timestamp_path, 0),
    }
}

/// The characters `.mcserver`.
pub open spec fn metadata_name() -> Seq<char> {
    seq!['.', 'm', 'c', 's', 'e', 'r', 'v', 'e', 'r']
}

/// The characters `jar_file.txt`.
pub open spec fn jar_file_txt_name() -> Seq<char> {
    seq!['j', 'a', 'r', '_', 'f', 'i', 'l', 'e', '.', 't', 'x', 't']
}

/// The characters `last_used.timestamp`.
pub open spec fn last_used_name() -> Seq<char> {
    seq!['l', 'a', 's', 't', '_', 'u', 's', 'e', 'd', '.', 't', 'i', 'm', 'e', 's', 't', 'a', 'm', 'p']
}

/// The characters `.template`.
pub open spec fn template_suffix() -> Seq<char> {
    seq!['.', 't', 'e', 'm', 'p', 'l', 'a', 't', 'e']
}

/// The metadata directory of the server at `server_dir`.
pub fn metadata_dir(server_dir: &ServerPath) -> (res: ServerPath)
    ensures
        res@ == join_path(server_dir@, parse_path(metadata_name())),
{
    proof {
        reveal_strlit(".mcserver");
        assert(METADATA_DIRECTORY_NAME@ =~= metadata_name());
    }
    server_dir.join_str(METADATA_DIRECTORY_NAME)
}

/// The file recording when the server at `server_dir` was last used.
pub fn last_used_file_path(server_dir: &ServerPath) -> (res: ServerPath)
    ensures
        res@ == join_path(join_path(server_dir@, parse_path(metadata_name())), parse_path(last_used_name())),
{
    proof {
        reveal_strlit("last_used.timestamp");
        assert(LAST_USED_FILE@ =~= last_used_name());
    }
    metadata_dir(server_dir).join_str(LAST_USED_FILE)
}

/// The file naming the jar of the server at `server_dir`.
pub fn jar_file_txt_path(server_dir: &ServerPath) -> (res: ServerPath)
    ensures
        res@ == join_path(join_path(server_dir@, parse_path(metadata_name())), parse_path(jar_file_txt_name())),
{
    proof {
        reveal_strlit("jar_file.txt");
        assert(JAR_FILE_TXT_NAME@ =~= jar_file_txt_name());
    }
    metadata_dir(server_dir).join_str(JAR_FILE_TXT_NAME)
}

/// The jar of the server at `server_dir`, given what its jar record holds:
/// the record's text without trailing whitespace, below the server.
pub fn jar_path_from_record(server_dir: &ServerPath, contents: &str) -> (res: ServerPath)
    ensures
        res@ == join_path(server_dir@, parse_path(trimmed_end(contents@))),
{
    let name = trim_end(contents);
    server_dir.join_str(name.as_str())
}

/// The name of the last component, unless it is `.` or `..`
/// (`Path::file_name`).
pub open spec fn file_name(p: PathView) -> Option<Seq<char>> {
    if p.parts.len() > 0 && p.parts.last() != dot() && p.parts.last() != dot_dot() {
        Some(p.parts.last())
    } else {
        None
    }
}

/// `p` with `.` and `ext` appended to its file name
/// (`Path::with_added_extension`); unchanged without a file name or with an
/// empty `ext`.
pub open spec fn added_extension(p: PathView, ext: Seq<char>) -> PathView {
    match file_name(p) {
        Some(n) => if ext.len() > 0 {
            PathView { absolute: p.absolute, parts: p.parts.drop_last().push(n + seq!['.'] + ext) }
        } else {
            p
        },
        None => p,
    }
}

impl ServerPath {
    /// The path with `.` and `ext` appended to its file name.
    pub fn with_added_extension(&self, ext: &str) -> (res: ServerPath)
        requires
            !ext@.contains(SEPARATOR),
        ensures
            res@ == added_extension(self@, ext@),
    {
        let n = self.parts.len();
        let ext_chars = chars_of(ext);
        if n == 0 || ext_chars.len() == 0 {
            return self.clone_path();
        }
        let last = chars_of(self.parts[n - 1].as_str());
        proof {
            assert(crate::paths::views_of(self.parts@)[n - 1] == self.parts@[n - 1]@);
        }
        let is_dot = last.len() == 1 && last[0] == '.';
        let is_dot_dot = last.len() == 2 && last[0] == '.' && last[1] == '.';
        proof {
            if last@ == dot() {
                assert(last@.len() == 1 && last@[0] == '.');
            }
            if last@ == dot_dot() {
                assert(last@.len() == 2 && last@[0] == '.' && last@[1] == '.');
            }
            if is_dot {
                assert(last@ =~= dot());
            }
            if is_dot_dot {
                assert(last@ =~= dot_dot());
            }
        }
        if is_dot || is_dot_dot {
            return self.clone_path();
        }
        let mut name = last;
        name.push('.');
        push_all(&mut name, &ext_chars);
        let named = string_of(&name);
        let mut parts = crate::paths::clone_strings(&self.parts);
        parts.pop();
        let ghost before = parts@;
        parts.push(named);
        proof {
            assert(before =~= self.parts@.drop_last());
            crate::paths::lemma_views_push(before, named);
            assert(crate::paths::views_of(before) =~= crate::paths::views_of(self.parts@).drop_last());
            assert(named@ =~= self@.parts.last() + seq!['.'] + ext@);
        }
        ServerPath { absolute: self.absolute, parts }
    }
}

/// Whether the server at `server` is a template: its last component is
/// exactly [`TEMPLATE_SUFFIX`] (`Path::ends_with`, which compares whole
/// components).
pub fn path_is_template(server: &ServerPath) -> (res: bool)
    ensures
        res == (server@.parts.len() > 0 && server@.parts.last() == template_suffix()),
{
    proof {
        reveal_strlit(".template");
        assert(TEMPLATE_SUFFIX@ =~= template_suffix());
    }
    server.ends_with_name(TEMPLATE_SUFFIX)
}

/// Where the template of the server at `server_dir` lies.
pub fn template_dir_of(server_dir: &ServerPath) -> (res: ServerPath)
    ensures
        res@ == added_extension(server_dir@, template_suffix()),
{
    proof {
        reveal_strlit(".template");
        assert(TEMPLATE_SUFFIX@ =~= template_suffix());
    }
    server_dir.with_added_extension(TEMPLATE_SUFFIX)
}

/// The name of the `number`-th attempt at a fresh server name: `name` at
/// first, then `name-2`, `name-3` and so on.
pub open spec fn numbered_name(name: Seq<char>, number: nat) -> Seq<char> {
    if number <= 1 {
        name
    } else {
        name + seq!['-'] + decimal(number)
    }
}

/// The name of the `number`-th attempt at a fresh server name.
pub fn numbered_server_name(name: &str, number: u64) -> (res: String)
    ensures
        res@ == numbered_name(name@, number as nat),
{
    if number <= 1 {
        return owned(name);
    }
    let mut out = chars_of(name);
    out.push('-');
    let digits = decimal_chars(number);
    push_all(&mut out, &digits);
    assert(out@ =~= numbered_name(name@, number as nat));
    string_of(&out)
}

/// Every attempt names a different server, so the search for a free name
/// never tries a name twice.
pub proof fn numbered_names_differ(name: Seq<char>, m: nat, n: nat)
    requires
        1 <= m,
        1 <= n,
        m != n,
    ensures
        numbered_name(name, m) != numbered_name(name, n),
{
    if m >= 2 && n >= 2 {
        if numbered_name(name, m) == numbered_name(name, n) {
            let a = numbered_name(name, m);
            let k = name.len() + 1;
            assert(a.skip(k as int) =~= decimal(m));
            assert(numbered_name(name, n).skip(k as int) =~= decimal(n));
            lemma_decimal_injective(m, n);
        }
    } else if m >= 2 {
        assert(numbered_name(name, m).len() > name.len());
    } else {
        assert(numbered_name(name, n).len() > name.len());
    }
}

/// The `number`-th attempt at a fresh server path in the servers directory
/// `servers` (`get_first_server_path` tries them in turn until one does not
/// exist).
pub fn server_path_candidate(servers: &ServerPath, name: &str, number: u64) -> (res: ServerPath)
    ensures
        res@ == join_path(servers@, parse_path(numbered_name(name@, number as nat))),
{
    let n = numbered_server_name(name, number);
    servers.join_str(n.as_str())
}

/// What looking for a fresh server path does after seeing whether the
/// `number`-th candidate is taken.
#[derive(Debug, PartialEq, Eq)]
pub enum CandidateStep {
    /// The candidate is free: it is the new server's path.
    Use,
    /// The candidate is taken: look at the one with this number.
    Try(u64),
    /// The candidate is taken and no number is left.
    Exhausted,
}

/// The next step of the search for a fresh server path, counting the
/// candidates from 1 (the name itself) upwards.
pub fn candidate_step(number: u64, taken: bool) -> (res: CandidateStep)
    ensures
        !taken ==> res == CandidateStep::Use,
        taken && number < u64::MAX ==> res == CandidateStep::Try((number + 1) as u64),
        taken && number == u64::MAX ==> res == CandidateStep::Exhausted,
{
    if !taken {
        CandidateStep::Use
    } else if number < u64::MAX {
        CandidateStep::Try(number + 1)
    } else {
        CandidateStep::Exhausted
    }
}

/// The name a new server gets when none is given: the platform's name, then
/// `-server`.
pub fn default_new_server_name(platform: Platform) -> (res: String)
    ensures
        res@ == platform_name(platform) + seq!['-', 's', 'e', 'r', 'v', 'e', 'r'],
{
    let mut out = chars_of(platform.name().as_str());
    push_str(&mut out, "-server");
    proof {
        reveal_strlit("-server");
    }
    assert(out@ =~= platform_name(platform) + seq!['-', 's', 'e', 'r', 'v', 'e', 'r']);
    string_of(&out)
}

/// The texts joined with single spaces between them (`join(" ")`).
pub open spec fn joined_with_spaces(args: Seq<Seq<char>>) -> Seq<char>
    decreases args.len(),
{
    if args.len() == 0 {
        Seq::empty()
    } else if args.len() == 1 {
        args[0]
    } else {
        joined_with_spaces(args.drop_last()) + seq![' '] + args.last()
    }
}

/// The texts joined with single spaces between them.
pub fn join_with_spaces(args: &Vec<String>) -> (res: String)
    ensures
        res@ == joined_with_spaces(views_of(args@)),
{
    let mut out: Vec<char> = Vec::new();
    let mut i: usize = 0;
    while i < args.len()
        invariant
            i <= args.len(),
            out@ == joined_with_spaces(views_of(args@).take(i as int)),
        decreases args.len() - i,
    {
        let ghost prev = views_of(args@).take(i as int);
        if i > 0 {
            out.push(' ');
        }
        push_str(&mut out, args[i].as_str());
        proof {
            let next = views_of(args@).take(i + 1);
            assert(next.drop_last() =~= prev);
            assert(next.last() == args@[i as int]@);
            if i == 0 {
                assert(out@ =~= next[0]);
            } else {
                assert(out@ =~= joined_with_spaces(prev) + seq![' '] + next.last());
            }
        }
        i = i + 1;
    }
    assert(views_of(args@).take(i as int) =~= views_of(args@));
    string_of(&out)
}

/// The shell command that runs a server in its session: it exports the
/// server's name, names the tab, enters the server's directory and runs the
/// jar with the Java arguments, restarting it after a countdown each time it
/// stops.
pub open spec fn command_text(name: Seq<char>, dir: Seq<char>, java_args: Seq<char>, jar: Seq<char>, nogui: bool) -> Seq<char> {
    "export "@ + SERVER_NAME_VAR@ + "="@ + name + " && "@ + BASE_COMMAND@ + " action rename-tab Server && cd "@ + dir
        + " && while :; do java -jar "@ + java_args + " "@ + jar + " "@ + (if nogui { "nogui"@ } else { ""@ })
        + " && "@ + TIMER@ + "; done"@
}

/// What closes a server command: the countdown, then the end of the loop.
pub open spec fn command_end() -> Seq<char> {
    " && "@ + TIMER@ + "; done"@
}

/// The `nogui` flag follows the configuration: the command ends with the
/// jar, a space, `nogui` and the loop's end when it is set, and with the jar,
/// a space and the loop's end when it is not; the two commands differ in
/// exactly those five characters.
pub proof fn nogui_flag_follows_the_setting(name: Seq<char>, dir: Seq<char>, java_args: Seq<char>, jar: Seq<char>)
    ensures
        ({
            let with = command_text(name, dir, java_args, jar, true);
            let without = command_text(name, dir, java_args, jar, false);
            let tail = command_end();
            &&& with.len() == without.len() + 5
            &&& with.skip(with.len() - (jar.len() + 6 + tail.len())) == jar + seq![' ', 'n', 'o', 'g', 'u', 'i'] + tail
            &&& without.skip(without.len() - (jar.len() + 1 + tail.len())) == jar + seq![' '] + tail
            &&& with.take(without.len() - tail.len()) == without.take(without.len() - tail.len())
        }),
{
    reveal_strlit("nogui");
    reveal_strlit("");
    reveal_strlit(" ");
    let with = command_text(name, dir, java_args, jar, true);
    let without = command_text(name, dir, java_args, jar, false);
    let tail = command_end();
    let head = "export "@ + SERVER_NAME_VAR@ + "="@ + name + " && "@ + BASE_COMMAND@ + " action rename-tab Server && cd "@ + dir
        + " && while :; do java -jar "@ + java_args + " "@;
    assert(with =~= head + jar + seq![' ', 'n', 'o', 'g', 'u', 'i'] + tail);
    assert(without =~= head + jar + seq![' '] + tail);
    assert(with.skip(with.len() - (jar.len() + 6 + tail.len())) =~= jar + seq![' ', 'n', 'o', 'g', 'u', 'i'] + tail);
    assert(without.skip(without.len() - (jar.len() + 1 + tail.len())) =~= jar + seq![' '] + tail);
    assert(with.take(without.len() - tail.len()) =~= head + jar + seq![' ']);
    assert(without.take(without.len() - tail.len()) =~= head + jar + seq![' ']);
}

/// The command for the given parts.
fn build_command(name: &str, dir: &str, java_args: &str, jar: &str, nogui: bool) -> (res: String)
    ensures
        res@ == command_text(name@, dir@, java_args@, jar@, nogui),
{
    let mut out: Vec<char> = Vec::new();
    push_str(&mut out, "export ");
    push_str(&mut out, SERVER_NAME_VAR);
    push_str(&mut out, "=");
    push_str(&mut out, name);
    push_str(&mut out, " && ");
    push_str(&mut out, BASE_COMMAND);
    push_str(&mut out, " action rename-tab Server && cd ");
    push_str(&mut out, dir);
    push_str(&mut out, " && while :; do java -jar ");
    push_str(&mut out, java_args);
    push_str(&mut out, " ");
    push_str(&mut out, jar);
    push_str(&mut out, " ");
    if nogui {
        push_str(&mut out, "nogui");
    } else {
        push_str(&mut out, "");
    }
    push_str(&mut out, " && ");
    push_str(&mut out, TIMER);
    push_str(&mut out, "; done");
    assert(out@ =~= command_text(name@, dir@, java_args@, jar@, nogui));
    string_of(&out)
}

/// `res` is the command of `get_command` when the servers directory is `d`
/// and the server's jar is `jar` (or could not be found).
pub open spec fn command_result(
    server: ServerId,
    loc: Location,
    d: PathView,
    jar: Result<ServerPath, Error>,
    config: Config,
    res: Result<String, Error>,
) -> bool {
    exists|r: Result<ServerPath, Error>| #[trigger] server.absolute_path_result(loc, d, r) && match r {
        Err(e) => res == Err::<String, Error>(e),
        Ok(p) => if p@.parts.len() > 0 && p@.parts.last() == template_suffix() {
            res == Err::<String, Error>(Error::TemplateDeployed)
        } else {
            exists|n: Result<String, Error>| #[trigger] server.relative_str_result(loc, d, n) && match n {
                Err(e) => res == Err::<String, Error>(e),
                Ok(name) => match jar {
                    Err(e) => res == Err::<String, Error>(e),
                    Ok(j) => res matches Ok(t) && t@ == command_text(
                        name@,
                        render_path(p@),
                        joined_with_spaces(views_of(config.default_java_args@)),
                        render_path(j@),
                        config.nogui,
                    ),
                },
            }
        },
    }
}

/// The command that runs `server`, given the servers directory and the
/// server's jar (or why it could not be found); templates are not run.
pub fn get_command_in(
    server: &ServerId,
    servers: &ServerPath,
    config: &Config,
    location: &Location,
    jar: Result<ServerPath, Error>,
) -> (res: Result<String, Error>)
    ensures
        command_result(*server, *location, servers@, jar, *config, res),
{
    let r = server.absolute_path_in(servers, location);
    let ghost gr = r;
    let dir = match r {
        Ok(p) => p,
        Err(e) => {
            assert(server.absolute_path_result(*location, servers@, gr));
            return Err(e);
        },
    };
    if path_is_template(&dir) {
        assert(server.absolute_path_result(*location, servers@, gr));
        return Err(Error::TemplateDeployed);
    }
    let n = server.relative_str_in(servers, location);
    let ghost gn = n;
    assert(server.absolute_path_result(*location, servers@, gr));
    assert(server.relative_str_result(*location, servers@, gn));
    let name = match n {
        Ok(t) => t,
        Err(e) => return Err(e),
    };
    let jar_path = match jar {
        Ok(j) => j,
        Err(e) => return Err(e),
    };
    let args = join_with_spaces(&config.default_java_args);
    let dir_text = dir.render();
    let jar_text = jar_path.render();
    Ok(build_command(name.as_str(), dir_text.as_str(), args.as_str(), jar_text.as_str(), config.nogui))
}

/// The command that runs `server` in its session, given the server's jar
/// (or why it could not be found); templates are not run.
pub fn get_command(
    server: &ServerId,
    config: &Config,
    location: &Location,
    jar: Result<ServerPath, Error>,
) -> (res: Result<String, Error>)
    ensures
        config.servers_directory.expansion() is Some ==>
            command_result(*server, *location, parse_path(config.servers_directory.expansion()->0), jar, *config, res),
        config.servers_directory.expansion() is None ==> res is Err,
        jar is Err ==> res is Err,
        res matches Ok(t) ==> exists|name: Seq<char>, dir: Seq<char>, jar_text: Seq<char>|
            t@ == #[trigger] command_text(name, dir, joined_with_spaces(views_of(config.default_java_args@)), jar_text, config.nogui),
{
    let ghost d = parse_path(config.servers_directory.expansion()->0);
    let r = server.try_as_absolute_path(config, location);
    let ghost gr = r;
    let dir = match r {
        Ok(p) => p,
        Err(e) => {
            assert(config.servers_directory.expansion() is Some ==> server.absolute_path_result(*location, d, gr));
            return Err(e);
        },
    };
    if path_is_template(&dir) {
        assert(config.servers_directory.expansion() is Some ==> server.absolute_path_result(*location, d, gr));
        return Err(Error::TemplateDeployed);
    }
    let n = server.try_as_str_relative(config, location);
    let ghost gn = n;
    let name = match n {
        Ok(t) => t,
        Err(e) => {
            assert(config.servers_directory.expansion() is Some ==> server.absolute_path_result(*location, d, gr));
            assert(config.servers_directory.expansion() is Some ==> server.relative_str_result(*location, d, gn));
            return Err(e);
        },
    };
    let dir_text = match server.try_as_str_absolute(config, location) {
        Ok(t) => t,
        Err(e) => {
            proof {
                if config.servers_directory.expansion() is Some {
                    let r2 = choose|r2: Result<ServerPath, Error>| #[trigger] server.absolute_path_result(*location, d, r2) && crate::server_id::rendered(r2, Err(e));
                    assert(false);
                }
            }
            return Err(e);
        },
    };
    let jar_path = match jar {
        Ok(j) => j,
        Err(e) => {
            assert(config.servers_directory.expansion() is Some ==> server.absolute_path_result(*location, d, gr));
            assert(config.servers_directory.expansion() is Some ==> server.relative_str_result(*location, d, gn));
            return Err(e);
        },
    };
    let args = join_with_spaces(&config.default_java_args);
    let jar_text = jar_path.render();
    let res = build_command(name.as_str(), dir_text.as_str(), args.as_str(), jar_text.as_str(), config.nogui);
    proof {
        if config.servers_directory.expansion() is Some {
            assert(server.absolute_path_result(*location, d, gr));
            assert(server.relative_str_result(*location, d, gn));
            let r2 = choose|r2: Result<ServerPath, Error>| #[trigger] server.absolute_path_result(*location, d, r2) && crate::server_id::rendered(r2, Ok::<String, Error>(dir_text));
            assert(dir_text@ == render_path(dir@));
        }
    }
    Ok(res)
}

/// The session variable names a server session: it ends with the suffix.
pub open spec fn names_server_session(session_var: Option<String>) -> bool {
    match session_var {
        Some(s) => crate::text::has_suffix(s@, crate::session::suffix_view()),
        None => false,
    }
}

/// The server that a server session's name stands for: the name without the
/// suffix, dots turned into separators.
pub open spec fn session_server_name(session: Seq<char>) -> Seq<char> {
    crate::text::replace_char(
        session.subrange(0, session.len() - crate::session::suffix_view().len()),
        '.',
        SEPARATOR,
    )
}

/// `res` is the server that `restart` restarts, given the values of the
/// server-name and session-name variables and that the servers directory is
/// `d`: the server named by the first, else the server of the session named
/// by the second, else the working directory relative to `d` taken as a path.
pub open spec fn restart_id_result(
    server_name_var: Option<String>,
    session_var: Option<String>,
    loc: Location,
    d: PathView,
    res: Result<ServerId, Error>,
) -> bool {
    match server_name_var {
        Some(v) => res == Ok::<ServerId, Error>(ServerId::Str(v)),
        None => {
            let from_session = match session_var {
                Some(s) => crate::text::has_suffix(s@, crate::session::suffix_view()),
                None => false,
            };
            if from_session {
                res matches Ok(ServerId::Str(t)) && t@ == crate::text::replace_char(
                    session_var->0@.subrange(0, session_var->0@.len() - crate::session::suffix_view().len()),
                    '.',
                    SEPARATOR,
                )
            } else {
                exists|r: Result<ServerPath, Error>| #[trigger] relative_dir_result(loc, d, r) && match r {
                    Ok(p) => res matches Ok(ServerId::AbsolutePath(q)) && q@ == p@,
                    Err(e) => res == Err::<ServerId, Error>(e),
                }
            }
        },
    }
}

/// The server that `restart` restarts, given the values of the server-name
/// and session-name variables (`None` when unset): the named server, else
/// the session's server, else the working directory below the servers
/// directory.
pub fn restart_server_id(
    server_name_var: Option<String>,
    session_var: Option<String>,
    config: &Config,
    location: &Location,
) -> (res: Result<ServerId, Error>)
    ensures
        config.servers_directory.expansion() is Some ==> restart_id_result(
            server_name_var, session_var, *location, parse_path(config.servers_directory.expansion()->0), res),
        server_name_var matches Some(v) ==> res == Ok::<ServerId, Error>(ServerId::Str(v)),
        server_name_var is None && names_server_session(session_var) ==>
            (res matches Ok(ServerId::Str(t)) && t@ == session_server_name(session_var->0@)),
        server_name_var is None && !names_server_session(session_var) && config.servers_directory.expansion() is None ==>
            (location.current_dir matches Err(m) ==> (res matches Err(Error::Io(n)) && n@ == m@))
            && (location.current_dir is Ok ==> (res matches Err(e) && e == config.servers_directory.lookup_error())),
{
    let ghost gv = server_name_var;
    let ghost gs = session_var;
    if let Some(v) = server_name_var {
        return Ok(ServerId::from_var(v));
    }
    let from_session = match session_var {
        Some(s) => ServerId::from_session(s),
        None => None,
    };
    if let Some(id) = from_session {
        return Ok(id);
    }
    let r = crate::server_id::current_relative_server_dir(config, location);
    let ghost gr = r;
    let res = match r {
        Ok(p) => Ok(ServerId::AbsolutePath(p)),
        Err(e) => Err(e),
    };
    proof {
        if config.servers_directory.expansion() is Some {
            let d = parse_path(config.servers_directory.expansion()->0);
            assert(relative_dir_result(*location, d, gr));
            assert(restart_id_result(gv, gs, *location, d, res));
        }
    }
    res
}

/// The characters `filename="`.
pub open spec fn filename_marker() -> Seq<char> {
    seq!['f', 'i', 'l', 'e', 'n', 'a', 'm', 'e', '=', '"']
}

/// The second piece of `s` split at `pat` (`s.split(pat).nth(1)`): what
/// lies between the first occurrence and the next one, or the end.
pub open spec fn second_piece(s: Seq<char>, pat: Seq<char>) -> Option<Seq<char>> {
    match first_occurrence(s, pat) {
        None => None,
        Some(i) => {
            let rest = s.skip(i + pat.len());
            match first_occurrence(rest, pat) {
                Some(j) => Some(rest.take(j)),
                None => Some(rest),
            }
        },
    }
}

/// The first piece of `s` split at `"` (`s.split('"').next()`).
pub open spec fn before_quote(s: Seq<char>) -> Seq<char> {
    match first_occurrence(s, seq!['"']) {
        Some(k) => s.take(k),
        None => s,
    }
}

/// The name a downloaded jar is saved under: the quoted `filename` of the
/// `Content-Disposition` header, else the platform's name with `.jar`.
pub open spec fn jar_name(content_disposition: Option<Seq<char>>, platform: Platform) -> Seq<char> {
    match content_disposition {
        Some(cd) => match second_piece(cd, filename_marker()) {
            Some(piece) => before_quote(piece),
            None => platform_name(platform) + seq!['.', 'j', 'a', 'r'],
        },
        None => platform_name(platform) + seq!['.', 'j', 'a', 'r'],
    }
}

/// The name a downloaded jar is saved under, given the response's
/// `Content-Disposition` header (when it has one).
pub fn jar_file_name(content_disposition: Option<&str>, platform: Platform) -> (res: String)
    ensures
        res@ == jar_name(match content_disposition { Some(c) => Some(c@), None => None }, platform),
{
    let fallback = {
        let mut out = chars_of(platform.name().as_str());
        push_str(&mut out, ".jar");
        proof {
            reveal_strlit(".jar");
        }
        assert(out@ =~= platform_name(platform) + seq!['.', 'j', 'a', 'r']);
        string_of(&out)
    };
    let cd = match content_disposition {
        Some(c) => chars_of(c),
        None => return fallback,
    };
    let marker = chars_of("filename=\"");
    proof {
        reveal_strlit("filename=\"");
        assert(marker@ =~= filename_marker());
    }
    let i = match find(&cd, &marker) {
        Some(i) => i,
        None => return fallback,
    };
    proof {
        assert(crate::text::occurs_at(cd@, marker@, i as int));
    }
    assert(i + marker.len() <= cd.len());
    let rest = slice_chars(&cd, i + marker.len(), cd.len());
    assert(rest@ =~= cd@.skip(i + marker@.len()));
    let piece = match find(&rest, &marker) {
        Some(j) => slice_chars(&rest, 0, j),
        None => rest,
    };
    let quote: Vec<char> = vec!['"'];
    assert(quote@ =~= seq!['"']);
    let name = match find(&piece, &quote) {
        Some(k) => slice_chars(&piece, 0, k),
        None => piece,
    };
    proof {
        assert(piece@.len() <= rest@.len());
    }
    string_of(&name)
}

/// `res` holds the `mcrcon` arguments for `entry` and `commands`: `-H` and
/// the address, `-P` and the port, `-p` and the password, for those set,
/// then the commands.
pub open spec fn rcon_arguments_for(entry: RconConfig, commands: Seq<Seq<char>>) -> Seq<Seq<char>> {
    (match entry.server_address { Some(a) => seq![seq!['-', 'H'], a@], None => Seq::empty() })
        + (match entry.port { Some(p) => seq![seq!['-', 'P'], decimal(p as nat)], None => Seq::empty() })
        + (match entry.password { Some(p) => seq![seq!['-', 'p'], p.0@], None => Seq::empty() })
        + commands
}

/// The server's name in double quotes.
pub open spec fn quoted_name(s: Seq<char>) -> Seq<char> {
    seq!['"'] + s + seq!['"']
}

/// The `mcrcon` arguments that run `commands` on the server named
/// `server_string`: its remote-console settings are found under its name, or
/// else under its name in double quotes.
pub fn rcon_arguments(server_string: &str, commands: &Vec<String>, config: &Config) -> (res: Result<Vec<String>, Error>)
    requires
        config.wf(),
    ensures
        key_map(config.rcon@).contains_key(server_string@) ==>
            (res matches Ok(a) && views_of(a@) == rcon_arguments_for(key_map(config.rcon@)[server_string@], views_of(commands@))),
        !key_map(config.rcon@).contains_key(server_string@) && key_map(config.rcon@).contains_key(quoted_name(server_string@)) ==>
            (res matches Ok(a) && views_of(a@) == rcon_arguments_for(key_map(config.rcon@)[quoted_name(server_string@)], views_of(commands@))),
        !key_map(config.rcon@).contains_key(server_string@) && !key_map(config.rcon@).contains_key(quoted_name(server_string@)) ==>
            (res matches Err(Error::MissingRconConfig(s)) && s@ == server_string@),
{
    let entry = match map_get(&config.rcon, server_string) {
        Some(e) => e,
        None => {
            let mut q: Vec<char> = vec!['"'];
            push_str(&mut q, server_string);
            q.push('"');
            assert(q@ =~= quoted_name(server_string@));
            let quoted = string_of(&q);
            match map_get(&config.rcon, quoted.as_str()) {
                Some(e) => e,
                None => return Err(Error::MissingRconConfig(owned(server_string))),
            }
        },
    };
    let mut args: Vec<String> = Vec::new();
    let ghost a0 = views_of(args@);
    assert(a0 =~= Seq::<Seq<char>>::empty());
    if let Some(address) = &entry.server_address {
        let flag = owned("-H");
        let value = address.clone();
        proof {
            reveal_strlit("-H");
            assert(flag@ =~= seq!['-', 'H']);
        }
        let ghost prev = args@;
        args.push(flag);
        args.push(value);
        proof {
            crate::paths::lemma_views_push(prev, flag);
            crate::paths::lemma_views_push(prev.push(flag), value);
        }
    }
    let ghost a1 = views_of(args@);
    assert(a1 =~= (match entry.server_address { Some(a) => seq![seq!['-', 'H'], a@], None => Seq::<Seq<char>>::empty() }));
    if let Some(port) = &entry.port {
        let flag = owned("-P");
        let value = crate::text::decimal_string(*port as u64);
        proof {
            reveal_strlit("-P");
            assert(flag@ =~= seq!['-', 'P']);
        }
        let ghost prev = args@;
        args.push(flag);
        args.push(value);
        proof {
            crate::paths::lemma_views_push(prev, flag);
            crate::paths::lemma_views_push(prev.push(flag), value);
        }
    }
    let ghost a2 = views_of(args@);
    assert(a2 =~= a1 + (match entry.port { Some(p) => seq![seq!['-', 'P'], decimal(p as nat)], None => Seq::<Seq<char>>::empty() }));
    if let Some(password) = &entry.password {
        let flag = owned("-p");
        let value = password.0.clone();
        proof {
            reveal_strlit("-p");
            assert(flag@ =~= seq!['-', 'p']);
        }
        let ghost prev = args@;
        args.push(flag);
        args.push(value);
        proof {
            crate::paths::lemma_views_push(prev, flag);
            crate::paths::lemma_views_push(prev.push(flag), value);
        }
    }
    let ghost a3 = views_of(args@);
    assert(a3 =~= a2 + (match entry.password { Some(p) => seq![seq!['-', 'p'], p.0@], None => Seq::<Seq<char>>::empty() }));
    let mut i: usize = 0;
    while i < commands.len()
        invariant
            i <= commands.len(),
            views_of(args@) == a3 + views_of(commands@).take(i as int),
        decreases commands.len() - i,
    {
        let ghost prev = args@;
        let c = commands[i].clone();
        args.push(c);
        proof {
            crate::paths::lemma_views_push(prev, c);
        }
        i = i + 1;
        assert(views_of(args@) =~= a3 + views_of(commands@).take(i as int));
    }
    assert(views_of(commands@).take(i as int) =~= views_of(commands@));
    Ok(args)
}

/// `res` is what removing `server` aims at, given that the servers
/// directory is `d` and `all` holds the names (below `d`) of the servers
/// found: its directory, when that lies in `d` and its name below `d` is
/// among `all`; otherwise the directory's text is reported as not found.
pub open spec fn removal_result(
    server: ServerId,
    loc: Location,
    d: PathView,
    all: Seq<String>,
    res: Result<ServerPath, Error>,
) -> bool {
    exists|r: Result<ServerPath, Error>| #[trigger] server.absolute_path_result(loc, d, r) && match r {
        Err(e) => res == Err::<ServerPath, Error>(e),
        Ok(p) => {
            let found = match strip_path_prefix(p@, d) {
                Some(rel) => string_set(all).contains(render_path(rel)),
                None => false,
            };
            if found {
                res matches Ok(q) && q@ == p@
            } else {
                res matches Err(Error::ServerNotFound(t)) && t@ == render_path(p@)
            }
        },
    }
}

/// The directory that removing `server` deletes, given the servers
/// directory `servers_dir` and the names below it of the servers found
/// (`all`).
pub fn removal_target_in(server: &ServerId, servers_dir: &ServerPath, location: &Location, all: &Vec<String>) -> (res: Result<ServerPath, Error>)
    ensures
        removal_result(*server, *location, servers_dir@, all@, res),
{
    let r = server.absolute_path_in(servers_dir, location);
    let ghost gr = r;
    let res = match r {
        Err(e) => Err(e),
        Ok(p) => {
            let found = match p.strip_prefix(servers_dir) {
                Some(rel) => {
                    let name = rel.render();
                    set_contains(all, &name)
                },
                None => false,
            };
            if found {
                Ok(p)
            } else {
                Err(Error::ServerNotFound(p.render()))
            }
        },
    };
    assert(server.absolute_path_result(*location, servers_dir@, gr));
    res
}

/// The directory that removing `server` deletes, when its name below the
/// servers directory is among the servers found (`all`).
pub fn removal_target(server: &ServerId, config: &Config, location: &Location, all: &Vec<String>) -> (res: Result<ServerPath, Error>)
    ensures
        config.servers_directory.expansion() matches Some(t) ==>
            removal_result(*server, *location, parse_path(t), all@, res),
        config.servers_directory.expansion() is None ==> (res matches Err(e) && e == config.servers_directory.lookup_error()),
{
    let servers = config.servers_directory.expanded_path()?;
    removal_target_in(server, &servers, location, all)
}

/// A server found below the servers directory `d` and named for removal by
/// its name below `d` (as the servers found list it) is removed from its own
/// directory.
pub proof fn found_server_is_removable(
    p: PathView,
    d: PathView,
    name: String,
    loc: Location,
    all: Seq<String>,
    res: Result<ServerPath, Error>,
)
    requires
        crate::paths::path_wf(p),
        strip_path_prefix(p, d) is Some,
        name@ == render_path(strip_path_prefix(p, d)->0),
        name@ != crate::server_id::here(),
        string_set(all).contains(name@),
        removal_result(ServerId::Str(name), loc, d, all, res),
    ensures
        res matches Ok(q) && q@ == p,
{
    let r = choose|r: Result<ServerPath, Error>| #[trigger] ServerId::Str(name).absolute_path_result(loc, d, r) && match r {
        Err(e) => res == Err::<ServerPath, Error>(e),
        Ok(q) => {
            let found = match strip_path_prefix(q@, d) {
                Some(rel) => string_set(all).contains(render_path(rel)),
                None => false,
            };
            if found {
                res matches Ok(t) && t@ == q@
            } else {
                res matches Err(Error::ServerNotFound(t)) && t@ == render_path(q@)
            }
        },
    };
    crate::server_id::relative_name_resolves_back(p, d, name, loc, r);
}

/// What removing servers does: the directories to delete, in order, then
/// the error that stops the removal, if any.
#[derive(Debug)]
pub struct RemovalPlan {
    pub targets: Vec<ServerPath>,
    pub stop: Option<Error>,
}

/// `plan` is what removing `servers`, in order, does when the servers
/// directory is `d` and `all` holds the names of the servers found: each
/// target is the directory of the server at its place, and the removal
/// stops at the first server that cannot be removed, with its error.
pub open spec fn removal_plan(servers: Seq<ServerId>, loc: Location, d: PathView, all: Seq<String>, plan: RemovalPlan) -> bool {
    &&& plan.targets@.len() <= servers.len()
    &&& (plan.stop is None <==> plan.targets@.len() == servers.len())
    &&& forall|i: int| 0 <= i < plan.targets@.len() ==>
        removal_result(servers[i], loc, d, all, Ok::<ServerPath, Error>(#[trigger] plan.targets@[i]))
    &&& plan.stop matches Some(e) ==>
        removal_result(servers[plan.targets@.len() as int], loc, d, all, Err::<ServerPath, Error>(e))
}

/// Plans the removal of `servers`, in order, given the servers directory
/// `servers_dir` and the names below it of the servers found (`all`).
pub fn remove_servers_in(servers: &Vec<ServerId>, servers_dir: &ServerPath, location: &Location, all: &Vec<String>) -> (res: RemovalPlan)
    ensures
        removal_plan(servers@, *location, servers_dir@, all@, res),
{
    let mut targets: Vec<ServerPath> = Vec::new();
    let mut i: usize = 0;
    while i < servers.len()
        invariant
            i <= servers@.len(),
            targets@.len() == i,
            forall|k: int| 0 <= k < i ==>
                removal_result(servers@[k], *location, servers_dir@, all@, Ok::<ServerPath, Error>(#[trigger] targets@[k])),
        decreases servers.len() - i,
    {
        let r = removal_target_in(&servers[i], servers_dir, location, all);
        let ghost gr = r;
        match r {
            Ok(p) => {
                let ghost before = targets@;
                targets.push(p);
                proof {
                    assert(gr == Ok::<ServerPath, Error>(p));
                    assert(targets@ =~= before.push(p));
                }
            },
            Err(e) => {
                assert(gr == Err::<ServerPath, Error>(e));
                return RemovalPlan { targets, stop: Some(e) };
            },
        }
        i = i + 1;
    }
    RemovalPlan { targets, stop: None }
}

/// Plans the removal of `servers`, in order, each of which must be among the
/// servers found (`all`, their names below the servers directory): the
/// directories to delete up to the first server that cannot be removed, and
/// why it cannot.  Without a servers directory nothing is removed.
pub fn remove_servers(servers: &Vec<ServerId>, config: &Config, location: &Location, all: &Vec<String>) -> (res: RemovalPlan)
    ensures
        res.targets@.len() <= servers@.len(),
        res.stop is None <==> res.targets@.len() == servers@.len(),
        config.servers_directory.expansion() matches Some(t) ==>
            removal_plan(servers@, *location, parse_path(t), all@, res),
        config.servers_directory.expansion() is None && servers@.len() > 0 ==>
            res.targets@.len() == 0 && (res.stop matches Some(e) && e == config.servers_directory.lookup_error()),
{
    if servers.len() == 0 {
        return RemovalPlan { targets: Vec::new(), stop: None };
    }
    match config.servers_directory.expanded_path() {
        Ok(d) => remove_servers_in(servers, &d, location, all),
        Err(e) => RemovalPlan { targets: Vec::new(), stop: Some(e) },
    }
}

/// How many times deleting a server's directory is tried.
pub const REMOVE_ATTEMPTS: u8 = 10;

/// Whether to try deleting a directory again after the `attempt`-th try
/// (counted from 1) failed.
pub fn retry_removal(attempt: u8) -> (res: bool)
    ensures
        res == (attempt < REMOVE_ATTEMPTS),
{
    attempt < REMOVE_ATTEMPTS
}

/// Where updating a server puts the new jar, and the metadata directory
/// whose jar record it rewrites.
#[derive(Debug)]
pub struct UpdateTarget {
    pub jar_path: ServerPath,
    pub metadata_dir: ServerPath,
}

/// Where updating `server` with a jar named `jar_file_name` writes: the jar
/// in the server's directory, and the jar record in its metadata directory.
pub fn update_existing(server: &ServerId, config: &Config, location: &Location, jar_file_name: &str) -> (res: Result<UpdateTarget, Error>)
    ensures
        config.servers_directory.expansion() is Some ==> exists|r: Result<ServerPath, Error>|
            #[trigger] server.absolute_path_result(*location, parse_path(config.servers_directory.expansion()->0), r) && match r {
                Err(e) => res == Err::<UpdateTarget, Error>(e),
                Ok(p) => res matches Ok(t) && t.jar_path@ == join_path(p@, parse_path(jar_file_name@))
                    && t.metadata_dir@ == join_path(p@, parse_path(metadata_name())),
            },
        server matches ServerId::AbsolutePath(p) ==> (res matches Ok(t) && t.jar_path@ == join_path(p@, parse_path(jar_file_name@))
            && t.metadata_dir@ == join_path(p@, parse_path(metadata_name()))),
        server.fails_without_expansion(*location) && config.servers_directory.expansion() is None ==>
            (res matches Err(e) && e == config.servers_directory.lookup_error()),
        server matches ServerId::Str(s) && s@ == crate::server_id::here() ==>
            (location.enclosing_server matches Err(f) ==> (res matches Err(e) && f.reports(e))),
{
    let r = server.try_as_absolute_path(config, location);
    let ghost gr = r;
    let res = match r {
        Ok(dir) => Ok(UpdateTarget { jar_path: dir.join_str(jar_file_name), metadata_dir: metadata_dir(&dir) }),
        Err(e) => Err(e),
    };
    proof {
        if config.servers_directory.expansion() is Some {
            assert(server.absolute_path_result(*location, parse_path(config.servers_directory.expansion()->0), gr));
        }
    }
    res
}

/// What walking the servers directory does with an entry.
#[derive(Debug)]
pub enum EntryKind {
    /// The entry is a server, at this path below the servers directory.
    Server(ServerPath),
    /// The entry is not a server: look inside it.
    Descend,
}

/// What walking the servers directory `servers_dir` does with the entry at
/// `entry`, whose metadata directory exists or not: a server is reported by
/// its path below the servers directory, anything else is walked into.
pub fn classify_entry(entry: &ServerPath, has_metadata: bool, servers_dir: &ServerPath) -> (res: Result<EntryKind, Error>)
    ensures
        !has_metadata ==> res matches Ok(EntryKind::Descend),
        has_metadata && strip_path_prefix(entry@, servers_dir@) is None ==> res == Err::<EntryKind, Error>(Error::StripPrefix),
        has_metadata && strip_path_prefix(entry@, servers_dir@) is Some ==>
            (res matches Ok(EntryKind::Server(p)) && p@ == strip_path_prefix(entry@, servers_dir@)->0),
{
    if !has_metadata {
        return Ok(EntryKind::Descend);
    }
    match entry.strip_prefix(servers_dir) {
        Some(p) => Ok(EntryKind::Server(p)),
        None => Err(Error::StripPrefix),
    }
}

/// The directory that holds the servers, for a walk: it must exist and be a
/// directory.
pub fn servers_directory_for_walk(servers_dir: ServerPath, is_directory: bool) -> (res: Result<ServerPath, Error>)
    ensures
        is_directory ==> res == Ok::<ServerPath, Error>(servers_dir),
        !is_directory ==> (res matches Err(Error::MissingDirectory(t)) && t@ == render_path(servers_dir@)),
{
    if is_directory {
        Ok(servers_dir)
    } else {
        Err(Error::MissingDirectory(servers_dir.render()))
    }
}

/// What the answer to "enter the server's name to delete it" decides: the
/// name (trailing whitespace aside) confirms, an answer that is blank once
/// its trailing whitespace is gone cancels, and anything else asks again
/// (`None`).
pub fn removal_confirmation(server_string: &str, response: &str) -> (res: Option<bool>)
    ensures
        trimmed_end(response@) == server_string@ ==> res == Some(true),
        trimmed_end(response@) != server_string@ && trimmed_end(response@).len() == 0 ==> res == Some(false),
        trimmed_end(response@) != server_string@ && trimmed_end(response@).len() > 0 ==> res is None,
{
    let t = trim_end(response);
    let s = owned(server_string);
    if t == s {
        return Some(true);
    }
    let cs = chars_of(t.as_str());
    if cs.len() == 0 {
        Some(false)
    } else {
        None
    }
}

/// Records on `server` the last use read for it, or `Unknown` when reading
/// it failed.
pub fn add_last_used_tag(server: &mut AbsoluteServerObject, last_used: Result<LastUsed, Error>)
    ensures
        final(server).path == old(server).path,
        final(server).tags.state == old(server).tags.state,
        last_used matches Ok(l) ==> final(server).tags.last_used == Some(l),
        last_used is Err ==> final(server).tags.last_used == Some(LastUsed::Unknown),
{
    let l = match last_used {
        Ok(l) => l,
        Err(_) => LastUsed::Unknown,
    };
    server.set_last_used(l);
}

/// The directory that removing `server` deletes.
pub fn remove_server(server: &ServerId, config: &Config, location: &Location) -> (res: Result<ServerPath, Error>)
    ensures
        server matches ServerId::AbsolutePath(p) ==> (res matches Ok(q) && q@ == p@),
        config.servers_directory.expansion() is Some ==>
            server.absolute_path_result(*location, parse_path(config.servers_directory.expansion()->0), res),
        server.fails_without_expansion(*location) && config.servers_directory.expansion() is None ==>
            (res matches Err(e) && e == config.servers_directory.lookup_error()),
        server matches ServerId::Str(s) && s@ == crate::server_id::here() ==>
            (location.enclosing_server matches Err(f) ==> (res matches Err(e) && f.reports(e))),
{
    server.try_as_absolute_path(config, location)
}

/// Where the template named by `template` lies: its directory, with
/// [`TEMPLATE_SUFFIX`] added as an extension unless the last component is
/// exactly the suffix.
pub fn template_source_path(template: &ServerId, config: &Config, location: &Location) -> (res: Result<ServerPath, Error>)
    ensures
        config.servers_directory.expansion() is Some ==> exists|r: Result<ServerPath, Error>|
            #[trigger] template.absolute_path_result(*location, parse_path(config.servers_directory.expansion()->0), r) && match r {
                Err(e) => res == Err::<ServerPath, Error>(e),
                Ok(p) => res matches Ok(q) && q@ == (if p@.parts.len() > 0 && p@.parts.last() == template_suffix() {
                    p@
                } else {
                    added_extension(p@, template_suffix())
                }),
            },
        template matches ServerId::AbsolutePath(p) ==> (res matches Ok(q) && q@ == (if p@.parts.len() > 0 && p@.parts.last() == template_suffix() {
            p@
        } else {
            added_extension(p@, template_suffix())
        })),
        template.fails_without_expansion(*location) && config.servers_directory.expansion() is None ==>
            (res matches Err(e) && e == config.servers_directory.lookup_error()),
        template matches ServerId::Str(s) && s@ == crate::server_id::here() ==>
            (location.enclosing_server matches Err(f) ==> (res matches Err(e) && f.reports(e))),
{
    let r = template.try_as_absolute_path(config, location);
    let ghost gr = r;
    let res = match r {
        Ok(p) => {
            if path_is_template(&p) {
                Ok(p)
            } else {
                Ok(template_dir_of(&p))
            }
        },
        Err(e) => Err(e),
    };
    proof {
        if config.servers_directory.expansion() is Some {
            assert(template.absolute_path_result(*location, parse_path(config.servers_directory.expansion()->0), gr));
        }
    }
    res
}

/// What creating a template from a server involves: the server's directory,
/// its name below the servers directory, and where the template goes.
#[derive(Debug)]
pub struct TemplatePlan {
    pub server_dir: ServerPath,
    pub server_string: String,
    pub template_dir: ServerPath,
}

/// Plans a template of `server`: a template cannot be made from a template.
pub fn new_template(server: &ServerId, config: &Config, location: &Location) -> (res: Result<TemplatePlan, Error>)
    ensures
        res matches Ok(plan) ==> !(plan.server_dir@.parts.len() > 0 && plan.server_dir@.parts.last() == template_suffix())
            && plan.template_dir@ == added_extension(plan.server_dir@, template_suffix()),
        config.servers_directory.expansion() is Some ==> exists|r: Result<ServerPath, Error>|
            #[trigger] server.absolute_path_result(*location, parse_path(config.servers_directory.expansion()->0), r) && match r {
                Err(e) => res == Err::<TemplatePlan, Error>(e),
                Ok(p) => if p@.parts.len() > 0 && p@.parts.last() == template_suffix() {
                    res == Err::<TemplatePlan, Error>(Error::TemplateUsedForTemplate)
                } else {
                    exists|n: Result<String, Error>| #[trigger] server.relative_str_result(
                        *location, parse_path(config.servers_directory.expansion()->0), n) && match n {
                        Err(e) => res == Err::<TemplatePlan, Error>(e),
                        Ok(name) => res matches Ok(plan) && plan.server_dir@ == p@ && plan.server_string == name,
                    }
                },
            },
        config.servers_directory.expansion() is None ==> res is Err,
{
    let r = server.try_as_absolute_path(config, location);
    let ghost gr = r;
    proof {
        if config.servers_directory.expansion() is Some {
            assert(server.absolute_path_result(*location, parse_path(config.servers_directory.expansion()->0), gr));
        }
    }
    let server_dir = match r {
        Ok(p) => p,
        Err(e) => return Err(e),
    };
    if path_is_template(&server_dir) {
        return Err(Error::TemplateUsedForTemplate);
    }
    let n = server.try_as_str_relative(config, location);
    let ghost gn = n;
    proof {
        if config.servers_directory.expansion() is Some {
            assert(server.relative_str_result(*location, parse_path(config.servers_directory.expansion()->0), gn));
        }
    }
    let server_string = match n {
        Ok(t) => t,
        Err(e) => return Err(e),
    };
    let template_dir = template_dir_of(&server_dir);
    Ok(TemplatePlan { server_dir, server_string, template_dir })
}

} // verus!
