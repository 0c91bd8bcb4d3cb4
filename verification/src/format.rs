//! Texts the dashboard shows: durations, units, titles and CSS classes.
use vstd::prelude::*;
use crate::clock::epoch_now;
use crate::text::{
    chars_of, contains, decimal, find_chars, push_chars, push_decimal, push_str, trim, trim_bounds,
};

verus! {

/// `days`d `hours`h `minutes`m, leading zero parts left out.
pub open spec fn uptime_text(seconds: u64) -> Seq<char> {
    let days = seconds / 86400;
    let hours = (seconds % 86400) / 3600;
    let minutes = (seconds % 3600) / 60;
    if days > 0 {
        decimal(days as nat) + "d "@ + decimal(hours as nat) + "h "@ + decimal(minutes as nat) + "m"@
    } else if hours > 0 {
        decimal(hours as nat) + "h "@ + decimal(minutes as nat) + "m"@
    } else {
        decimal(minutes as nat) + "m"@
    }
}

/// How long ago `epoch_seconds` lies before `now`, in the largest whole unit.
pub open spec fn last_build_text(epoch_seconds: u64, now: u64) -> Seq<char> {
    let diff: int = if now >= epoch_seconds {
        now - epoch_seconds
    } else {
        0
    };
    if diff < 5 {
        "just now"@
    } else if diff < 60 {
        decimal(diff as nat) + "s ago"@
    } else if diff < 3600 {
        decimal((diff / 60) as nat) + "m ago"@
    } else {
        decimal((diff / 3600) as nat) + "h ago"@
    }
}

/// The text shows the time elapsed since `epoch_seconds`: "just now" for
/// under 5 seconds, otherwise a count `n` of the largest of seconds, minutes
/// and hours that fits, with `n` whole units elapsed and fewer than `n + 1`;
/// and it depends on the elapsed time alone.
pub proof fn law_last_build_reads_elapsed(epoch_seconds: u64, now: u64, shift: u64)
    requires
        epoch_seconds <= now,
        now + shift <= u64::MAX,
    ensures
        now - epoch_seconds < 5 ==> last_build_text(epoch_seconds, now) == "just now"@,
        5 <= now - epoch_seconds < 60 ==> exists|n: nat|
            #[trigger] last_build_text(epoch_seconds, now) == decimal(n) + "s ago"@ && n
                == now - epoch_seconds,
        60 <= now - epoch_seconds < 3600 ==> exists|n: nat|
            #[trigger] last_build_text(epoch_seconds, now) == decimal(n) + "m ago"@ && 1 <= n
                && n * 60 <= now - epoch_seconds < (n + 1) * 60,
        3600 <= now - epoch_seconds ==> exists|n: nat|
            #[trigger] last_build_text(epoch_seconds, now) == decimal(n) + "h ago"@ && 1 <= n
                && n * 3600 <= now - epoch_seconds < (n + 1) * 3600,
        last_build_text((epoch_seconds + shift) as u64, (now + shift) as u64) == last_build_text(
            epoch_seconds,
            now,
        ),
{
    let d: int = now - epoch_seconds;
    if 60 <= d < 3600 {
        assert((d / 60) * 60 <= d < (d / 60 + 1) * 60);
        assert(last_build_text(epoch_seconds, now) == decimal((d / 60) as nat) + "m ago"@);
    }
    if 3600 <= d {
        assert((d / 3600) * 3600 <= d < (d / 3600 + 1) * 3600);
        assert(last_build_text(epoch_seconds, now) == decimal((d / 3600) as nat) + "h ago"@);
    }
    if 5 <= d < 60 {
        assert(last_build_text(epoch_seconds, now) == decimal(d as nat) + "s ago"@);
    }
}

/// Host uptime, e.g. `2d 3h 4m`.
pub fn format_uptime(seconds: u64) -> (r: String)
    ensures
        r@ == uptime_text(seconds),
{
    let days: u64 = seconds / 86400;
    let hours: u64 = (seconds % 86400) / 3600;
    let minutes: u64 = (seconds % 3600) / 60;
    let mut r = String::new();
    if days > 0 {
        push_decimal(&mut r, days);
        push_str(&mut r, "d ");
        push_decimal(&mut r, hours);
        push_str(&mut r, "h ");
    } else if hours > 0 {
        push_decimal(&mut r, hours);
        push_str(&mut r, "h ");
    }
    push_decimal(&mut r, minutes);
    push_str(&mut r, "m");
    r
}

/// How long ago the last build output arrived, judged at `now`.
pub fn format_last_build_at(epoch_seconds: u64, now: u64) -> (r: String)
    ensures
        r@ == last_build_text(epoch_seconds, now),
{
    let diff: u64 = now.saturating_sub(epoch_seconds);
    let mut r = String::new();
    if diff < 5 {
        push_str(&mut r, "just now");
    } else if diff < 60 {
        push_decimal(&mut r, diff);
        push_str(&mut r, "s ago");
    } else if diff < 3600 {
        push_decimal(&mut r, diff / 60);
        push_str(&mut r, "m ago");
    } else {
        push_decimal(&mut r, diff / 3600);
        push_str(&mut r, "h ago");
    }
    r
}

/// How long ago the last build output arrived, judged by the current time.
pub fn format_last_build(epoch_seconds: u64) -> (r: String)
    ensures
        exists|now: u64| r@ == #[trigger] last_build_text(epoch_seconds, now),
{
    format_last_build_at(epoch_seconds, epoch_now())
}

/// The uptime shown in the header: `--` before the first metrics arrived.
pub fn uptime_label(uptime_seconds: Option<u64>) -> (r: String)
    ensures
        r@ == (match uptime_seconds {
            Some(s) => uptime_text(s),
            None => "--"@,
        }),
{
    match uptime_seconds {
        Some(s) => format_uptime(s),
        None => {
            let mut r = String::new();
            push_str(&mut r, "--");
            r
        },
    }
}

/// The last build activity shown in the header, judged at `now`: `Never`
/// before any build output arrived.
pub fn last_build_label_at(last_build_epoch: Option<u64>, now: u64) -> (r: String)
    ensures
        r@ == (match last_build_epoch {
            Some(e) => last_build_text(e, now),
            None => "Never"@,
        }),
{
    match last_build_epoch {
        Some(e) => format_last_build_at(e, now),
        None => {
            let mut r = String::new();
            push_str(&mut r, "Never");
            r
        },
    }
}

/// A unit of byte counts.
#[derive(PartialEq, Eq, Structural, Debug, Clone, Copy)]
pub enum ByteUnit {
    B,
    KB,
    MB,
    GB,
}

/// The largest unit not exceeding `bytes` (bytes below one KB stay in B).
pub open spec fn unit_for(bytes: u64) -> ByteUnit {
    if bytes < 1024 {
        ByteUnit::B
    } else if bytes < 1048576 {
        ByteUnit::KB
    } else if bytes < 1073741824 {
        ByteUnit::MB
    } else {
        ByteUnit::GB
    }
}

/// Bytes in one `unit`.
pub open spec fn unit_size(unit: ByteUnit) -> u64 {
    match unit {
        ByteUnit::B => 1,
        ByteUnit::KB => 1024,
        ByteUnit::MB => 1048576,
        ByteUnit::GB => 1073741824,
    }
}

/// The unit a byte count is shown in.
pub fn byte_unit(bytes: u64) -> (u: ByteUnit)
    ensures
        u == unit_for(bytes),
        unit_size(u) <= bytes || bytes < 1024,
{
    if bytes < 1024 {
        ByteUnit::B
    } else if bytes < 1048576 {
        ByteUnit::KB
    } else if bytes < 1073741824 {
        ByteUnit::MB
    } else {
        ByteUnit::GB
    }
}

/// Bytes in one `unit`.
pub fn unit_divisor(unit: ByteUnit) -> (d: u64)
    ensures
        d == unit_size(unit),
{
    match unit {
        ByteUnit::B => 1,
        ByteUnit::KB => 1024,
        ByteUnit::MB => 1048576,
        ByteUnit::GB => 1073741824,
    }
}

/// The symbol of `unit`.
pub fn unit_label(unit: ByteUnit) -> (s: &'static str)
    ensures
        s@ == (match unit {
            ByteUnit::B => "B"@,
            ByteUnit::KB => "KB"@,
            ByteUnit::MB => "MB"@,
            ByteUnit::GB => "GB"@,
        }),
{
    match unit {
        ByteUnit::B => "B",
        ByteUnit::KB => "KB",
        ByteUnit::MB => "MB",
        ByteUnit::GB => "GB",
    }
}

/// The unit a download and an upload rate are both shown in: the one the
/// larger of them takes.
pub fn scale_pair_unit(download_bps: u64, upload_bps: u64) -> (u: ByteUnit)
    ensures
        u == unit_for(if download_bps >= upload_bps {
            download_bps
        } else {
            upload_bps
        }),
{
    let max_value: u64 = if download_bps >= upload_bps {
        download_bps
    } else {
        upload_bps
    };
    let steps: [u64; 4] = [1, 1024, 1048576, 1073741824];
    let mut step: usize = 0;
    while step + 1 < 4 && max_value >= steps[step + 1]
        invariant
            step < 4,
            steps@ == seq![1u64, 1024u64, 1048576u64, 1073741824u64],
            forall|k: int| 0 < k <= step ==> max_value >= #[trigger] steps@[k],
        decreases 4 - step,
    {
        step = step + 1;
    }
    if step == 0 {
        ByteUnit::B
    } else if step == 1 {
        ByteUnit::KB
    } else if step == 2 {
        ByteUnit::MB
    } else {
        ByteUnit::GB
    }
}

/// `s` trimmed, where anything is left.
pub open spec fn present(s: Option<Seq<char>>) -> Option<Seq<char>> {
    match s {
        Some(t) => if trim(t).len() > 0 {
            Some(trim(t))
        } else {
            None
        },
        None => None,
    }
}

/// The name the page title gives the host: a dotted host name alone, a
/// plain one with its address, or whichever of them is known.
pub open spec fn title_name(hostname: Option<Seq<char>>, ip: Option<Seq<char>>) -> Seq<char> {
    match present(hostname) {
        Some(host) => if contains(host, "."@) {
            host
        } else {
            match present(ip) {
                Some(addr) => host + " ("@ + addr + ")"@,
                None => host,
            }
        },
        None => match present(ip) {
            Some(addr) => addr,
            None => "Loading"@,
        },
    }
}

/// The text of an optional `&str`.
pub open spec fn opt_view(s: Option<&str>) -> Option<Seq<char>> {
    match s {
        Some(t) => Some(t@),
        None => None,
    }
}

fn present_text(s: Option<&str>) -> (r: Option<String>)
    ensures
        r is None ==> present(opt_view(s)) is None,
        r matches Some(t) ==> present(opt_view(s)) == Some(t@),
{
    match s {
        Some(t) => {
            let v = chars_of(t);
            let (a, b) = trim_bounds(&v, 0, v.len());
            assert(v@.subrange(0, v@.len() as int) =~= v@);
            if a == b {
                None
            } else {
                let mut r = String::new();
                push_chars(&mut r, &v, a, b);
                Some(r)
            }
        },
        None => None,
    }
}

/// The browser tab's title; `hostname` and `ip` are `None` until metrics arrived.
pub fn build_page_title(hostname: Option<&str>, ip: Option<&str>) -> (r: String)
    ensures
        r@ == title_name(opt_view(hostname), opt_view(ip)) + " | NixOS Buildermon"@,
{
    let host = present_text(hostname);
    let addr = present_text(ip);
    let mut r = String::new();
    match host {
        Some(h) => {
            let hv = chars_of(h.as_str());
            let dot = chars_of(".");
            push_str(&mut r, h.as_str());
            if find_chars(&hv, &dot, 0).is_none() {
                match addr {
                    Some(a) => {
                        push_str(&mut r, " (");
                        push_str(&mut r, a.as_str());
                        push_str(&mut r, ")");
                    },
                    None => {},
                }
            }
        },
        None => match addr {
            Some(a) => {
                push_str(&mut r, a.as_str());
            },
            None => {
                push_str(&mut r, "Loading");
            },
        },
    }
    push_str(&mut r, " | NixOS Buildermon");
    r
}

/// The host shown in the header: its name (`Loading...` before metrics
/// arrived), followed by its address in parentheses where known.
pub fn host_label(hostname: Option<&str>, ip: Option<&str>) -> (r: String)
    ensures
        r@ == (match hostname {
            Some(h) => h@,
            None => "Loading..."@,
        }) + (match ip {
            Some(a) => " ("@ + a@ + ")"@,
            None => Seq::<char>::empty(),
        }),
{
    let mut r = String::new();
    match hostname {
        Some(h) => push_str(&mut r, h),
        None => push_str(&mut r, "Loading..."),
    }
    let ghost head = r@;
    match ip {
        Some(a) => {
            push_str(&mut r, " (");
            push_str(&mut r, a);
            push_str(&mut r, ")");
        },
        None => {
            assert(r@ =~= head + Seq::<char>::empty());
        },
    }
    r
}

/// CSS class of the page for the chosen theme.
pub fn theme_mode_class(light_mode: bool) -> (c: &'static str)
    ensures
        c@ == (if light_mode {
            "app-shell light-mode"@
        } else {
            "app-shell dark-mode"@
        }),
{
    if light_mode {
        "app-shell light-mode"
    } else {
        "app-shell dark-mode"
    }
}

/// CSS class of the header's status dot: connected exactly while metrics
/// have arrived.
pub fn status_indicator_class(connected: bool) -> (c: &'static str)
    ensures
        c@ == (if connected {
            "status-indicator connected"@
        } else {
            "status-indicator disconnected"@
        }),
{
    if connected {
        "status-indicator connected"
    } else {
        "status-indicator disconnected"
    }
}

/// CSS class of the theme toggle's icon.
pub fn theme_icon_class(light_mode: bool) -> (c: &'static str)
    ensures
        c@ == (if light_mode {
            "theme-icon light"@
        } else {
            "theme-icon dark"@
        }),
{
    if light_mode {
        "theme-icon light"
    } else {
        "theme-icon dark"
    }
}

/// CSS class of the header's detail rows.
pub fn header_details_class(expanded: bool) -> (c: &'static str)
    ensures
        c@ == (if expanded {
            "header-details expanded"@
        } else {
            "header-details"@
        }),
{
    if expanded {
        "header-details expanded"
    } else {
        "header-details"
    }
}

/// Id of the server-side renderer's session, made from the time in ms.
pub fn server_tab_id(millis: u64) -> (r: String)
    ensures
        r@ == "server-"@ + decimal(millis as nat),
{
    let mut r = String::new();
    push_str(&mut r, "server-");
    push_decimal(&mut r, millis);
    r
}

/// Id of a browser tab, made from the time in ms and a random number.
pub fn browser_tab_id(millis: u64, random: u64) -> (r: String)
    ensures
        r@ == "tab-"@ + decimal(millis as nat) + "-"@ + decimal(random as nat),
{
    let mut r = String::new();
    push_str(&mut r, "tab-");
    push_decimal(&mut r, millis);
    push_str(&mut r, "-");
    push_decimal(&mut r, random);
    r
}

} // verus!
