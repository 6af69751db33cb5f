//! Threshold and service-down alerting, and the record of recent alerts.
//!
//! The host samples CPU, memory and disk usage, compares them with the
//! thresholds (floating point, so outside this library), and hands the
//! breaches here; this module words the alerts, keeps the list of recent
//! alerts newest first and capped, and prepares the log lines and the
//! notification text.
use vstd::prelude::*;
use crate::text::{concat, decimal, decimal_text, join, joined, split, split_on, trim, trimmed};

verus! {

/// How many recent alerts the option store keeps.
pub open spec fn recent_alerts_kept() -> nat {
    20
}

/// What `serde_json::from_str::<Vec<String>>` gives for a text: the list of
/// strings it holds, or nothing when it is not a JSON array of strings.
pub uninterp spec fn json_string_list(text: Seq<char>) -> Option<Seq<Seq<char>>>;

/// A lowercase hexadecimal digit.
pub open spec fn hex_digit(d: int) -> char {
    if d < 10 {
        (d + 48) as char
    } else {
        (d - 10 + 97) as char
    }
}

/// How serde_json writes one character inside a JSON string: quote and
/// backslash escaped by a backslash; backspace, tab, line feed, form feed
/// and carriage return by their short escapes; other characters below
/// U+0020 as `\u00` and two hex digits; everything else as it is.
pub open spec fn escaped_char(c: char) -> Seq<char> {
    let n = c as int;
    if c == '"' {
        seq!['\\', '"']
    } else if c == '\\' {
        seq!['\\', '\\']
    } else if n == 8 {
        seq!['\\', 'b']
    } else if n == 9 {
        seq!['\\', 't']
    } else if n == 10 {
        seq!['\\', 'n']
    } else if n == 12 {
        seq!['\\', 'f']
    } else if n == 13 {
        seq!['\\', 'r']
    } else if n < 32 {
        seq!['\\', 'u', '0', '0', hex_digit(n / 16), hex_digit(n % 16)]
    } else {
        seq![c]
    }
}

/// The escaped characters of a string, in order.
pub open spec fn escaped(s: Seq<char>) -> Seq<char>
    decreases s.len(),
{
    if s.len() == 0 {
        Seq::empty()
    } else {
        escaped(s.drop_last()) + escaped_char(s.last())
    }
}

/// A string as a JSON string literal.
pub open spec fn json_string_literal(s: Seq<char>) -> Seq<char> {
    seq!['"'] + escaped(s) + seq!['"']
}

/// A list of strings as serde_json writes it: the literals between `[` and
/// `]`, separated by commas, without spaces.
pub open spec fn string_list_text(items: Seq<Seq<char>>) -> Seq<char> {
    seq!['['] + joined(items.map_values(|s: Seq<char>| json_string_literal(s)), seq![',']) + seq![']']
}

/// Reads a JSON array of strings.
///
/// Calls `serde_json::from_str::<Vec<String>>`, a function of its argument
/// alone; the contract names its result and says nothing more of it.
#[verifier::external_body]
fn parse_string_list(text: &str) -> (r: Option<Vec<String>>)
    ensures
        match r {
            Some(v) => json_string_list(text@) == Some(v@.map_values(|s: String| s@)),
            None => json_string_list(text@) is None,
        },
{
    serde_json::from_str::<Vec<String>>(text).ok()
}

/// Writes a list of strings as a JSON array.
///
/// Calls `serde_json::to_string` on a `Vec<String>`. Its source writes `[`,
/// each string escaped by the table in `format_escaped_str_contents` and
/// quoted, commas between, and `]`, into a `Vec<u8>`, and neither the
/// strings, the sequence nor that writer can fail, so the error arm is never
/// taken. The contract states that text, and one more fact of serde_json:
/// it reads back, by `serde_json::from_str::<Vec<String>>`, as the same list.
#[verifier::external_body]
fn string_list_json(items: &Vec<String>) -> (r: String)
    ensures
        r@ == string_list_text(items@.map_values(|s: String| s@)),
        json_string_list(r@) == Some(items@.map_values(|s: String| s@)),
{
    serde_json::to_string(items).unwrap_or_default()
}

/// The models of a list of strings.
pub open spec fn texts(v: Seq<String>) -> Seq<Seq<char>> {
    v.map_values(|s: String| s@)
}

/// The recent alerts that a stored option value holds: none when it is not
/// a JSON array of strings.
pub open spec fn stored_alerts(stored: Seq<char>) -> Seq<Seq<char>> {
    match json_string_list(stored) {
        Some(list) => list,
        None => Seq::empty(),
    }
}

/// An alert with the time it was raised in front.
pub open spec fn stamped(now: int, alert: Seq<char>) -> Seq<char> {
    decimal(now) + " "@ + alert
}

/// The alerts of one poll, stamped, newest (last raised) first.
pub open spec fn stamped_newest_first(now: int, alerts: Seq<Seq<char>>) -> Seq<Seq<char>> {
    Seq::new(alerts.len(), |k: int| stamped(now, alerts[alerts.len() - 1 - k]))
}

/// The recent alerts after a poll: its alerts, stamped and newest first,
/// in front of the earlier ones, keeping the newest `recent_alerts_kept()`.
pub open spec fn merged_alerts(earlier: Seq<Seq<char>>, now: int, alerts: Seq<Seq<char>>) -> Seq<
    Seq<char>,
> {
    let all = stamped_newest_first(now, alerts) + earlier;
    if all.len() <= recent_alerts_kept() {
        all
    } else {
        all.take(recent_alerts_kept() as int)
    }
}

/// An alert with the time it was raised in front.
pub fn stamp(now: i64, alert: &str) -> (r: String)
    ensures
        r@ == stamped(now as int, alert@),
{
    let time = decimal_text(now);
    let head = concat(time.as_str(), " ");
    concat(head.as_str(), alert)
}

/// The recent alerts that the stored option value holds, newest first; none
/// when the option is unset or does not hold a JSON array of strings.
pub fn recent_alerts(stored: Option<&str>) -> (r: Vec<String>)
    ensures
        texts(r@) == match stored {
            Some(t) => stored_alerts(t@),
            None => Seq::empty(),
        },
{
    match stored {
        Some(t) => match parse_string_list(t) {
            Some(v) => v,
            None => Vec::new(),
        },
        None => Vec::new(),
    }
}

/// The recent alerts after a poll that raised `alerts` at time `now`:
/// newest first, capped at `recent_alerts_kept()`. `existing` is the stored
/// list (a JSON array of strings; anything else counts as empty).
pub fn merge_recent(existing: &str, now: i64, alerts: &Vec<String>) -> (r: Vec<String>)
    ensures
        texts(r@) == merged_alerts(stored_alerts(existing@), now as int, texts(alerts@)),
        r@.len() <= recent_alerts_kept(),
        alerts@.len() > 0 ==> texts(r@)[0] == stamped(now as int, alerts@.last()@),
{
    let earlier = recent_alerts(Some(existing));
    merge_alerts(&earlier, now, alerts)
}

/// The recent alerts after a poll that raised `alerts` at time `now`, given
/// the earlier ones: newest first, capped at `recent_alerts_kept()`.
pub fn merge_alerts(earlier: &Vec<String>, now: i64, alerts: &Vec<String>) -> (r: Vec<String>)
    ensures
        texts(r@) == merged_alerts(texts(earlier@), now as int, texts(alerts@)),
        r@.len() <= recent_alerts_kept(),
        alerts@.len() > 0 ==> texts(r@)[0] == stamped(now as int, alerts@.last()@),
{
    let ghost new_alerts = stamped_newest_first(now as int, texts(alerts@));
    let mut out: Vec<String> = Vec::new();
    let n = alerts.len();
    let mut k: usize = 0;
    while k < n
        invariant
            n == alerts@.len(),
            k <= n,
            new_alerts == stamped_newest_first(now as int, texts(alerts@)),
            texts(out@) == new_alerts.take(k as int),
        decreases n - k,
    {
        let s = stamp(now, alerts[n - 1 - k].as_str());
        assert(texts(out@.push(s)) =~= texts(out@).push(s@));
        assert(new_alerts.take(k + 1) =~= new_alerts.take(k as int).push(new_alerts[k as int]));
        out.push(s);
        k = k + 1;
    }
    assert(new_alerts.take(n as int) =~= new_alerts);
    let ghost all = new_alerts + texts(earlier@);
    let mut j: usize = 0;
    while j < earlier.len() && out.len() < 20
        invariant
            j <= earlier@.len(),
            new_alerts.len() == n,
            all == new_alerts + texts(earlier@),
            all.len() == n + earlier@.len(),
            out@.len() == n + j,
            texts(out@) == all.take(n + j),
            j > 0 ==> out@.len() <= 20,
        decreases earlier@.len() - j,
    {
        let s = earlier[j].clone();
        assert(texts(out@.push(s)) =~= texts(out@).push(s@));
        assert(all[n + j] == earlier@[j as int]@);
        assert(all.take(n + j + 1) =~= all.take(n + j).push(all[n + j]));
        out.push(s);
        j = j + 1;
    }
    if out.len() > 20 {
        let ghost before = out@;
        out.truncate(20);
        assert(texts(out@) =~= texts(before).take(20));
        assert(all.take(n as int).take(20) =~= all.take(20));
    } else if j == earlier.len() {
        assert(all.take(all.len() as int) =~= all);
    }
    assert(texts(out@) =~= merged_alerts(texts(earlier@), now as int, texts(alerts@)));
    out
}

/// The option value that records the recent alerts after a poll: the
/// merged list as a JSON array of strings, which reads back as that list.
pub fn remember_alerts(existing: &str, now: i64, alerts: &Vec<String>) -> (r: String)
    ensures
        r@ == string_list_text(merged_alerts(stored_alerts(existing@), now as int, texts(alerts@))),
        stored_alerts(r@) == merged_alerts(stored_alerts(existing@), now as int, texts(alerts@)),
{
    let recent = merge_recent(existing, now, alerts);
    string_list_json(&recent)
}

/// The lines that a poll appends to the alert log: each alert stamped
/// with the time, ended by a newline, in the order raised.
pub fn alert_log_lines(now: i64, alerts: &Vec<String>) -> (r: Vec<String>)
    ensures
        texts(r@) == texts(alerts@).map_values(|a: Seq<char>| stamped(now as int, a) + "\n"@),
{
    let mut out: Vec<String> = Vec::new();
    let mut i: usize = 0;
    while i < alerts.len()
        invariant
            i <= alerts@.len(),
            texts(out@) == texts(alerts@).take(i as int).map_values(
                |a: Seq<char>| stamped(now as int, a) + "\n"@,
            ),
        decreases alerts@.len() - i,
    {
        let s = stamp(now, alerts[i].as_str());
        let line = concat(s.as_str(), "\n");
        assert(texts(out@.push(line)) =~= texts(out@).push(line@));
        assert(texts(alerts@).take(i + 1).map_values(|a: Seq<char>| stamped(now as int, a) + "\n"@)
            =~= texts(alerts@).take(i as int).map_values(
            |a: Seq<char>| stamped(now as int, a) + "\n"@,
        ).push(stamped(now as int, alerts@[i as int]@) + "\n"@));
        out.push(line);
        i = i + 1;
    }
    assert(texts(alerts@).take(alerts@.len() as int) =~= texts(alerts@));
    out
}

/// A usage that exceeded its threshold, with both numbers written as the
/// alert shows them (rounded to whole percent).
pub struct Breach {
    pub usage: String,
    pub threshold: String,
}

/// A disk whose usage exceeded the threshold.
pub struct DiskBreach {
    pub mount: String,
    pub usage: String,
    pub threshold: String,
}

pub open spec fn cpu_alert(b: Breach) -> Seq<char> {
    "CPU usage "@ + b.usage@ + "% exceeds threshold "@ + b.threshold@ + "%"@
}

pub open spec fn memory_alert(b: Breach) -> Seq<char> {
    "Memory usage "@ + b.usage@ + "% exceeds threshold "@ + b.threshold@ + "%"@
}

pub open spec fn disk_alert(b: DiskBreach) -> Seq<char> {
    "Disk usage on "@ + b.mount@ + " "@ + b.usage@ + "% exceeds threshold "@ + b.threshold@ + "%"@
}

pub open spec fn service_alert(name: Seq<char>) -> Seq<char> {
    "Service '"@ + name + "' is not running"@
}

/// The alerts of one poll: the CPU, memory and disk breaches, each if there
/// is one, then one alert for every service that is down, in that order.
pub open spec fn alerts_of(
    cpu: Option<Breach>,
    memory: Option<Breach>,
    disk: Option<DiskBreach>,
    down: Seq<Seq<char>>,
) -> Seq<Seq<char>> {
    let c = match cpu {
        Some(b) => seq![cpu_alert(b)],
        None => Seq::empty(),
    };
    let m = match memory {
        Some(b) => seq![memory_alert(b)],
        None => Seq::empty(),
    };
    let d = match disk {
        Some(b) => seq![disk_alert(b)],
        None => Seq::empty(),
    };
    c + m + d + down.map_values(|n: Seq<char>| service_alert(n))
}

fn join5(a: &str, b: &str, c: &str, d: &str, e: &str) -> (r: String)
    ensures
        r@ == a@ + b@ + c@ + d@ + e@,
{
    let ab = concat(a, b);
    let abc = concat(ab.as_str(), c);
    let abcd = concat(abc.as_str(), d);
    concat(abcd.as_str(), e)
}

/// The alerts of one poll, worded: the CPU, memory and disk breaches the
/// host found, then the services that are down.
pub fn threshold_alerts(
    cpu: Option<Breach>,
    memory: Option<Breach>,
    disk: Option<DiskBreach>,
    down_services: &Vec<String>,
) -> (r: Vec<String>)
    ensures
        texts(r@) == alerts_of(cpu, memory, disk, texts(down_services@)),
{
    let mut out: Vec<String> = Vec::new();
    match &cpu {
        Some(b) => {
            let s = join5("CPU usage ", b.usage.as_str(), "% exceeds threshold ", b.threshold.as_str(), "%");
            assert(texts(out@.push(s)) =~= texts(out@).push(s@));
            out.push(s);
        },
        None => {},
    }
    match &memory {
        Some(b) => {
            let s = join5("Memory usage ", b.usage.as_str(), "% exceeds threshold ", b.threshold.as_str(), "%");
            assert(texts(out@.push(s)) =~= texts(out@).push(s@));
            out.push(s);
        },
        None => {},
    }
    match &disk {
        Some(b) => {
            let head = join5("Disk usage on ", b.mount.as_str(), " ", b.usage.as_str(), "% exceeds threshold ");
            let s = concat(concat(head.as_str(), b.threshold.as_str()).as_str(), "%");
            assert(texts(out@.push(s)) =~= texts(out@).push(s@));
            out.push(s);
        },
        None => {},
    }
    let ghost fixed = texts(out@);
    proof {
        let c = match cpu {
            Some(b) => seq![cpu_alert(b)],
            None => Seq::<Seq<char>>::empty(),
        };
        let m = match memory {
            Some(b) => seq![memory_alert(b)],
            None => Seq::<Seq<char>>::empty(),
        };
        let d = match disk {
            Some(b) => seq![disk_alert(b)],
            None => Seq::<Seq<char>>::empty(),
        };
        assert(fixed =~= c + m + d);
    }
    let mut i: usize = 0;
    while i < down_services.len()
        invariant
            i <= down_services@.len(),
            texts(out@) == fixed + texts(down_services@).take(i as int).map_values(
                |n: Seq<char>| service_alert(n),
            ),
        decreases down_services@.len() - i,
    {
        let s = concat(concat("Service '", down_services[i].as_str()).as_str(), "' is not running");
        assert(texts(out@.push(s)) =~= texts(out@).push(s@));
        assert(texts(down_services@).take(i + 1).map_values(|n: Seq<char>| service_alert(n))
            =~= texts(down_services@).take(i as int).map_values(|n: Seq<char>| service_alert(n)).push(
            service_alert(down_services@[i as int]@),
        ));
        out.push(s);
        i = i + 1;
    }
    assert(texts(down_services@).take(down_services@.len() as int) =~= texts(down_services@));
    out
}

/// The non-empty names, trimmed, of a list of pieces.
pub open spec fn nonempty_trimmed(pieces: Seq<Seq<char>>) -> Seq<Seq<char>>
    decreases pieces.len(),
{
    if pieces.len() == 0 {
        Seq::empty()
    } else {
        let rest = nonempty_trimmed(pieces.drop_last());
        let t = trimmed(pieces.last());
        if t.len() == 0 {
            rest
        } else {
            rest.push(t)
        }
    }
}

/// The services named by the watch option: its comma-separated names,
/// trimmed, without the empty ones.
pub open spec fn watched(option: Seq<char>) -> Seq<Seq<char>> {
    nonempty_trimmed(split_on(option, ','))
}

/// The services named by the watch option, in order.
pub fn watched_services(option: &str) -> (r: Vec<String>)
    ensures
        texts(r@) == watched(option@),
{
    let pieces = split(option, ',');
    let ghost views = texts(pieces@);
    let mut out: Vec<String> = Vec::new();
    let mut i: usize = 0;
    while i < pieces.len()
        invariant
            i <= pieces@.len(),
            views == texts(pieces@),
            texts(out@) == nonempty_trimmed(views.take(i as int)),
        decreases pieces@.len() - i,
    {
        let t = trim(pieces[i].as_str());
        assert(views.take(i + 1).drop_last() =~= views.take(i as int));
        assert(views.take(i + 1).last() == pieces@[i as int]@);
        if t.as_str().is_empty() {
        } else {
            assert(texts(out@.push(t)) =~= texts(out@).push(t@));
            out.push(t);
        }
        i = i + 1;
    }
    assert(views.take(pieces@.len() as int) =~= views);
    out
}

/// The names of the services that are not running, in order.
pub open spec fn not_running(names: Seq<Seq<char>>, running: Seq<bool>) -> Seq<Seq<char>>
    decreases names.len(),
{
    if names.len() == 0 {
        Seq::empty()
    } else {
        let rest = not_running(names.drop_last(), running);
        if running[names.len() - 1] {
            rest
        } else {
            rest.push(names.last())
        }
    }
}

/// The watched services that are down: those for which the host's probe
/// (`running`, one answer per name) found no running service.
pub fn down_services(names: &Vec<String>, running: &Vec<bool>) -> (r: Vec<String>)
    requires
        running@.len() == names@.len(),
    ensures
        texts(r@) == not_running(texts(names@), running@),
{
    let ghost views = texts(names@);
    let mut out: Vec<String> = Vec::new();
    let mut i: usize = 0;
    while i < names.len()
        invariant
            i <= names@.len(),
            running@.len() == names@.len(),
            views == texts(names@),
            texts(out@) == not_running(views.take(i as int), running@),
        decreases names@.len() - i,
    {
        assert(views.take(i + 1).drop_last() =~= views.take(i as int));
        if !running[i] {
            let s = names[i].clone();
            assert(texts(out@.push(s)) =~= texts(out@).push(s@));
            out.push(s);
        }
        i = i + 1;
    }
    assert(views.take(names@.len() as int) =~= views);
    out
}

/// The text of the desktop notification for a poll's alerts: one alert
/// per line.
pub fn notify(alerts: &Vec<String>) -> (r: String)
    ensures
        r@ == joined(texts(alerts@), "\n"@),
{
    join(alerts, "\n")
}

/// What the host reads of one disk.
pub struct DiskInfo {
    pub mount: String,
    pub removable: bool,
    pub total_space: u64,
    pub available_space: u64,
}

/// The usage of a fixed disk, in bytes.
pub struct DiskUsage {
    pub mount: String,
    pub used: u64,
    pub total: u64,
}

/// The fixed disks (not removable, of some size), each with the bytes in use
/// (total less available, never below zero), in order.
pub open spec fn fixed_usage(disks: Seq<DiskInfo>) -> Seq<(Seq<char>, nat, nat)>
    decreases disks.len(),
{
    if disks.len() == 0 {
        Seq::empty()
    } else {
        let rest = fixed_usage(disks.drop_last());
        let d = disks.last();
        if !d.removable && d.total_space > 0 {
            let used: nat = if d.available_space <= d.total_space {
                (d.total_space - d.available_space) as nat
            } else {
                0
            };
            rest.push((d.mount@, used, d.total_space as nat))
        } else {
            rest
        }
    }
}

pub open spec fn usage_view(u: Seq<DiskUsage>) -> Seq<(Seq<char>, nat, nat)> {
    u.map_values(|d: DiskUsage| (d.mount@, d.used as nat, d.total as nat))
}

/// The fixed disks with their usage; the host picks the fullest of them.
pub fn fixed_disks(disks: &Vec<DiskInfo>) -> (r: Vec<DiskUsage>)
    ensures
        usage_view(r@) == fixed_usage(disks@),
{
    let mut out: Vec<DiskUsage> = Vec::new();
    let mut i: usize = 0;
    while i < disks.len()
        invariant
            i <= disks@.len(),
            usage_view(out@) == fixed_usage(disks@.take(i as int)),
        decreases disks@.len() - i,
    {
        assert(disks@.take(i + 1).drop_last() =~= disks@.take(i as int));
        let d = &disks[i];
        if !d.removable && d.total_space > 0 {
            let used = d.total_space.saturating_sub(d.available_space);
            let u = DiskUsage { mount: d.mount.clone(), used, total: d.total_space };
            assert(usage_view(out@.push(u)) =~= usage_view(out@).push((u.mount@, u.used as nat, u.total as nat)));
            out.push(u);
        }
        i = i + 1;
    }
    assert(disks@.take(disks@.len() as int) =~= disks@);
    out
}

/// Each breach is reported on its own, whatever the others, and every
/// service that is down is always reported, after the breaches and in the
/// order given.
pub proof fn law_breaches_and_down_services_reported(
    cpu: Option<Breach>,
    memory: Option<Breach>,
    disk: Option<DiskBreach>,
    down: Seq<Seq<char>>,
)
    ensures
        ({
            let alerts = alerts_of(cpu, memory, disk, down);
            let breaches = (if cpu is Some { 1int } else { 0int }) + (if memory is Some { 1int } else { 0int }) + (
            if disk is Some { 1int } else { 0int });
            &&& alerts.len() == breaches + down.len()
            &&& forall|k: int| 0 <= k < down.len() ==> alerts[breaches + k] == service_alert(down[k])
            &&& cpu matches Some(b) ==> alerts[0] == cpu_alert(b)
            &&& memory matches Some(b) ==> alerts[if cpu is Some { 1int } else { 0int }] == memory_alert(b)
            &&& disk matches Some(b) ==> alerts[breaches - 1] == disk_alert(b)
        }),
{
}

/// The recent-alert list never grows past `recent_alerts_kept()`, puts the
/// newest alert first, and keeps the earlier ones behind the new, in order,
/// as far as room allows.
pub proof fn law_recent_alerts_newest_first_and_capped(
    earlier: Seq<Seq<char>>,
    now: int,
    alerts: Seq<Seq<char>>,
)
    ensures
        merged_alerts(earlier, now, alerts).len() == if alerts.len() + earlier.len()
            <= recent_alerts_kept() {
            alerts.len() + earlier.len()
        } else {
            recent_alerts_kept()
        },
        alerts.len() > 0 ==> merged_alerts(earlier, now, alerts)[0] == stamped(now, alerts.last()),
        forall|k: int|
            0 <= k < earlier.len() && alerts.len() + k < recent_alerts_kept() ==> merged_alerts(
                earlier,
                now,
                alerts,
            )[alerts.len() + k] == earlier[k],
{
}

/// Every alert of a poll is recorded once, stamped with the poll's time, the
/// last raised first: as far as room allows, place `k` holds the alert
/// raised `k`-th from the end.
pub proof fn law_every_alert_of_a_poll_is_recorded(
    earlier: Seq<Seq<char>>,
    now: int,
    alerts: Seq<Seq<char>>,
)
    ensures
        forall|k: int|
            0 <= k < alerts.len() && k < 20 ==> #[trigger] merged_alerts(earlier, now, alerts)[k]
                == decimal(now) + " "@ + alerts[alerts.len() - 1 - k],
{
}

} // verus!
