//! The command-line surface of `srtla_send`, as plain values, and the IP
//! list screening that `--dry-run` reports on.
//!
//! The positional order is the parity contract consumed by supervisors:
//! `srtla_send <SRT_LISTEN_PORT> <SRTLA_HOST> <SRTLA_PORT> <BIND_IPS_FILE> [OPTIONS]`.
use vstd::prelude::*;

use crate::bind_map::ip::{ip_parse, parse_ip_chars, IpAddress};
use crate::mode::SchedulingMode;
use crate::text::{
    chars_of, decimal, push_all, push_decimal, push_str, split_chars, split_on, string_of,
    trim, trim_chars,
};

verus! {

/// Default telemetry write cadence in milliseconds (`--stats-file-interval`).
pub const DEFAULT_STATS_FILE_INTERVAL_MS: u64 = 1000;

/// Parsed command line.
#[derive(Debug, Clone)]
pub struct Cli {
    /// `-v` / `--version`: print the version and exit.
    pub print_version: bool,
    /// Local UDP port to listen for SRT packets.
    pub local_srt_port: Option<u16>,
    /// Receiver host (srtla_rec or an SRT listener).
    pub receiver_host: Option<String>,
    /// Receiver UDP port to send SRTLA packets to.
    pub receiver_port: Option<u16>,
    /// File of newline-separated local source IPs, one uplink each.
    pub ips_file: Option<String>,
    pub verbose: bool,
    /// Validate the IP list and resolve the receiver, then exit.
    pub dry_run: bool,
    /// Write per-uplink telemetry JSON to this path.
    pub stats_file: Option<String>,
    /// Telemetry write cadence in milliseconds.
    pub stats_file_interval: u64,
    /// Unix domain socket path for remote control.
    pub control_socket: Option<String>,
    pub mode: SchedulingMode,
    pub no_quality: bool,
    pub exploration: bool,
    pub rtt_delta_ms: u32,
    /// Experimental earned-ACK window valve.
    pub earned_ack_window: bool,
    /// Experimental stalled-link deselection.
    pub stall_deselect: bool,
    pub stall_min_in_flight: i32,
    pub stall_ack_stale_ms: u64,
    pub stall_reprobe_ms: u64,
}

/// An IP list line that is not an address: its 1-based line number and its
/// trimmed content.
pub struct InvalidLine {
    pub line_no: int,
    pub content: Seq<char>,
}

/// The addresses and the invalid entries of the lines `lines`, numbered from
/// one; blank lines are neither.
pub open spec fn screened(lines: Seq<Seq<char>>) -> (Seq<IpAddress>, Seq<InvalidLine>)
    decreases lines.len(),
{
    if lines.len() == 0 {
        (seq![], seq![])
    } else {
        let (ips, bad) = screened(lines.drop_last());
        let t = trim(lines.last());
        if t.len() == 0 {
            (ips, bad)
        } else {
            match ip_parse(t) {
                Some(ip) => (ips.push(ip), bad),
                None => (ips, bad.push(InvalidLine { line_no: lines.len() as int, content: t })),
            }
        }
    }
}

/// The screening of an IP list's text.
pub open spec fn screen_text(text: Seq<char>) -> (Seq<IpAddress>, Seq<InvalidLine>) {
    screened(split_on(text, '\n'))
}

/// The error a dry run reports for an IP list without one usable address.
pub open spec fn no_ips_message(ips_file: Seq<char>, bad: Seq<InvalidLine>) -> Seq<char> {
    if bad.len() > 0 {
        "no valid source IPs in "@ + ips_file + ": first invalid entry on line "@ + decimal(
            bad[0].line_no as nat,
        ) + " ('"@ + bad[0].content + "')"@
    } else {
        "no valid source IPs in "@ + ips_file + ": file is empty"@
    }
}

/// The usable source addresses of an IP list and its skipped entries.
#[derive(Debug, Clone)]
pub struct IpScreen {
    pub source_ips: Vec<IpAddress>,
    /// `(line number, trimmed content)` of every unparseable line.
    pub invalid_lines: Vec<(usize, String)>,
}

pub open spec fn invalid_view(v: Seq<(usize, String)>) -> Seq<InvalidLine> {
    Seq::new(v.len(), |i: int| InvalidLine { line_no: v[i].0 as int, content: v[i].1@ })
}

/// Screen the text of an IP list: each line trimmed, blank lines skipped,
/// addresses kept in order, every other line reported with its number. An
/// IP list with no usable address is an error naming the first invalid
/// entry, or saying the file is empty.
pub fn screen_source_ips(ips_file: &str, text: &str) -> (r: Result<IpScreen, String>)
    ensures
        match r {
            Ok(s) => s.source_ips@ == screen_text(text@).0 && invalid_view(s.invalid_lines@)
                == screen_text(text@).1 && s.source_ips@.len() > 0,
            Err(m) => screen_text(text@).0.len() == 0 && m@ == no_ips_message(
                ips_file@,
                screen_text(text@).1,
            ),
        },
{
    let chars = chars_of(text);
    let lines = split_chars(&chars, '\n');
    let ghost ls = split_on(text@, '\n');
    let mut ips: Vec<IpAddress> = Vec::new();
    let mut bad: Vec<(usize, String)> = Vec::new();
    let mut i: usize = 0;
    proof {
        assert(ls.take(0) == Seq::<Seq<char>>::empty());
    }
    while i < lines.len()
        invariant
            i <= lines@.len(),
            lines@.len() == ls.len(),
            ls == split_on(text@, '\n'),
            forall|k: int| 0 <= k < lines@.len() ==> #[trigger] lines@[k]@ == ls[k],
            ips@ == screened(ls.take(i as int)).0,
            invalid_view(bad@) == screened(ls.take(i as int)).1,
        decreases lines@.len() - i,
    {
        let t = trim_chars(&lines[i]);
        proof {
            assert(ls.take(i + 1).drop_last() == ls.take(i as int));
            assert(ls.take(i + 1).last() == ls[i as int]);
        }
        if t.len() > 0 {
            match parse_ip_chars(&t) {
                Some(ip) => {
                    ips.push(ip);
                },
                None => {
                    let content = string_of(&t);
                    let ghost before = bad@;
                    bad.push((i + 1, content));
                    proof {
                        assert(invalid_view(bad@) =~= invalid_view(before).push(
                            InvalidLine { line_no: i + 1, content: t@ },
                        ));
                    }
                },
            }
        }
        i += 1;
    }
    proof {
        assert(ls.take(ls.len() as int) == ls);
    }
    if ips.len() > 0 {
        return Ok(IpScreen { source_ips: ips, invalid_lines: bad });
    }
    let mut msg: Vec<char> = Vec::new();
    push_str(&mut msg, "no valid source IPs in ");
    push_str(&mut msg, ips_file);
    if bad.len() > 0 {
        push_str(&mut msg, ": first invalid entry on line ");
        push_decimal(&mut msg, bad[0].0 as u64);
        push_str(&mut msg, " ('");
        push_str(&mut msg, bad[0].1.as_str());
        push_str(&mut msg, "')");
        proof {
            assert(invalid_view(bad@)[0].line_no == bad@[0].0 as int);
        }
    } else {
        push_str(&mut msg, ": file is empty");
    }
    Err(string_of(&msg))
}

} // verus!
