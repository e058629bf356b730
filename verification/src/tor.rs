//! The tor control-port protocol as this node speaks it, and the decisions
//! around starting a tor process.
//!
//! Commands sent: `AUTHENTICATE <cookie-hex>`,
//! `ADD_ONION NEW:ED25519-V3 Port=80,127.0.0.1:<port>` and
//! `DEL_ONION <service_id>`. A reply is a run of lines that ends at the first
//! line whose fourth byte is a space (`"250 OK"`); a status starting with 4 or
//! 5 is an error.

use vstd::prelude::*;
use vstd::utf8::encode_utf8;
use crate::crypto::{hex_lower, to_hex};
use crate::ids::{file_id_to_string, uuid_text};
use crate::crypto::FileId;
use crate::text::{
    contains_chars, contains_seq, decimal, push_chars, push_decimal, starts_with, str_chars,
    string_from_chars, sub_chars, trim, trim_chars, trim_end_by, trim_end_of,
};

verus! {

/// What a reply line says about the reply it belongs to.
#[derive(Debug, Clone, Copy, PartialEq, Eq, Structural)]
pub enum ReplyLine {
    /// More lines follow.
    More,
    /// The reply ended successfully.
    Done,
    /// The reply ended with an error status (4xx or 5xx).
    Failed,
}

/// The kind of a reply line, from its bytes.
pub open spec fn reply_line_kind(b: Seq<u8>) -> ReplyLine {
    if b.len() >= 4 && b[3] == 32 {
        if b[0] == 52 || b[0] == 53 { ReplyLine::Failed } else { ReplyLine::Done }
    } else {
        ReplyLine::More
    }
}

/// A line read from the control port without its line terminator(s).
pub open spec fn clean_line(raw: Seq<char>) -> Seq<char> {
    trim_end_by(raw, |c: char| c == '\r' || c == '\n')
}

/// The text after the prefix `250-ServiceID=` of the first reply line that
/// has it, trimmed of white space.
pub open spec fn first_service_id(lines: Seq<Seq<char>>) -> Option<Seq<char>>
    decreases lines.len(),
{
    if lines.len() == 0 {
        None
    } else if "250-ServiceID="@.len() <= lines[0].len() && lines[0].take("250-ServiceID="@.len() as int) == "250-ServiceID="@ {
        Some(trim(lines[0].skip("250-ServiceID="@.len() as int)))
    } else {
        first_service_id(lines.drop_first())
    }
}

/// Classifies a reply line.
pub fn classify_reply_line(line: &str) -> (k: ReplyLine)
    ensures
        k == reply_line_kind(encode_utf8(line@)),
{
    let b = line.as_bytes();
    if b.len() >= 4 && b[3] == 32 {
        if b[0] == 52 || b[0] == 53 {
            ReplyLine::Failed
        } else {
            ReplyLine::Done
        }
    } else {
        ReplyLine::More
    }
}

/// Takes one raw line of a reply: stores it without its terminator and
/// tells whether the reply goes on, ended, or failed.
pub fn reply_step(lines: &mut Vec<String>, raw: &str) -> (k: ReplyLine)
    ensures
        final(lines)@.len() == old(lines)@.len() + 1,
        forall|i: int| 0 <= i < old(lines)@.len() ==> final(lines)@[i] == old(lines)@[i],
        final(lines)@.last()@ == clean_line(raw@),
        k == reply_line_kind(encode_utf8(final(lines)@.last()@)),
{
    let cleaned = string_from_chars(&trim_end_of(&str_chars(raw), '\r', '\n'));
    let k = classify_reply_line(cleaned.as_str());
    lines.push(cleaned);
    k
}

/// The service id that `ADD_ONION` returned, if a reply line carries one.
pub fn service_id_from_reply(lines: &Vec<String>) -> (r: Option<String>)
    ensures
        match first_service_id(lines.deep_view()) {
            Some(id) => r matches Some(s) && s@ == id,
            None => r is None,
        },
{
    let prefix = str_chars("250-ServiceID=");
    let ghost all = lines.deep_view();
    let mut i: usize = 0;
    assert(all.skip(0) =~= all);
    while i < lines.len()
        invariant
            i <= lines@.len(),
            all == lines.deep_view(),
            prefix@ == "250-ServiceID="@,
            first_service_id(all) == first_service_id(all.skip(i as int)),
        decreases lines.len() - i,
    {
        let l = str_chars(lines[i].as_str());
        assert(all.skip(i as int)[0] == l@);
        if starts_with(&l, &prefix) {
            let rest = sub_chars(&l, prefix.len(), l.len());
            assert(rest@ =~= l@.skip(prefix@.len() as int));
            return Some(string_from_chars(&trim_chars(&rest)));
        }
        assert(all.skip(i as int).drop_first() =~= all.skip(i + 1));
        i += 1;
    }
    None
}

/// `AUTHENTICATE <cookie as lower-case hex>`.
pub fn authenticate_command(cookie: &[u8]) -> (s: String)
    ensures
        s@ == "AUTHENTICATE "@ + hex_lower(cookie@),
{
    let mut out = str_chars("AUTHENTICATE ");
    push_chars(&mut out, &str_chars(to_hex(cookie).as_str()));
    string_from_chars(&out)
}

/// Maps onion port 80 to `127.0.0.1:<local_port>` on a new v3 service.
pub fn add_onion_command(local_port: u16) -> (s: String)
    ensures
        s@ == "ADD_ONION NEW:ED25519-V3 Port=80,127.0.0.1:"@ + decimal(local_port as nat),
{
    let mut out = str_chars("ADD_ONION NEW:ED25519-V3 Port=80,127.0.0.1:");
    push_decimal(&mut out, local_port as u64);
    string_from_chars(&out)
}

/// `DEL_ONION <service_id>`.
pub fn del_onion_command(service_id: &str) -> (s: String)
    ensures
        s@ == "DEL_ONION "@ + service_id@,
{
    let mut out = str_chars("DEL_ONION ");
    push_chars(&mut out, &str_chars(service_id));
    string_from_chars(&out)
}

/// A command as written to the control port: followed by CR LF.
pub fn command_line(cmd: &str) -> (s: String)
    ensures
        s@ == cmd@ + seq!['\r', '\n'],
{
    let mut out = str_chars(cmd);
    out.push('\r');
    out.push('\n');
    string_from_chars(&out)
}

/// `127.0.0.1:<port>`.
pub fn local_addr(port: u16) -> (s: String)
    ensures
        s@ == "127.0.0.1:"@ + decimal(port as nat),
{
    let mut out = str_chars("127.0.0.1:");
    push_decimal(&mut out, port as u64);
    string_from_chars(&out)
}

/// The arguments tor is started with: SOCKS and control ports on localhost,
/// cookie authentication, the data directory, and notices on stdout.
pub fn tor_args(socks_port: u16, control_port: u16, data_dir: &str) -> (v: Vec<String>)
    ensures
        v@.len() == 10,
        v@[0]@ == "--SocksPort"@,
        v@[1]@ == "127.0.0.1:"@ + decimal(socks_port as nat),
        v@[2]@ == "--ControlPort"@,
        v@[3]@ == "127.0.0.1:"@ + decimal(control_port as nat),
        v@[4]@ == "--CookieAuthentication"@,
        v@[5]@ == "1"@,
        v@[6]@ == "--DataDirectory"@,
        v@[7]@ == data_dir@,
        v@[8]@ == "--Log"@,
        v@[9]@ == "notice stdout"@,
{
    let mut v: Vec<String> = Vec::new();
    v.push("--SocksPort".to_owned());
    v.push(local_addr(socks_port));
    v.push("--ControlPort".to_owned());
    v.push(local_addr(control_port));
    v.push("--CookieAuthentication".to_owned());
    v.push("1".to_owned());
    v.push("--DataDirectory".to_owned());
    v.push(data_dir.to_owned());
    v.push("--Log".to_owned());
    v.push("notice stdout".to_owned());
    v
}

/// Whether a line tor printed says that it finished bootstrapping.
pub fn is_bootstrap_line(line: &str) -> (r: bool)
    ensures
        r == contains_seq(line@, "Bootstrapped 100%"@),
{
    contains_chars(&str_chars(line), &str_chars("Bootstrapped 100%"))
}

/// The name of a fresh data directory for one tor run: `tor-<uuid>`.
pub fn tor_dir_name(id: &FileId) -> (s: String)
    ensures
        s@ == "tor-"@ + uuid_text(id@),
{
    let mut out = str_chars("tor-");
    push_chars(&mut out, &str_chars(file_id_to_string(id).as_str()));
    string_from_chars(&out)
}

/// What to do while waiting for tor to bootstrap.
#[derive(Debug, Clone, Copy, PartialEq, Eq, Structural)]
pub enum BootstrapStep {
    /// Tor is ready: the cookie exists and bootstrap reached 100%.
    Ready,
    /// The wait has lasted longer than allowed.
    TimedOut,
    /// Wait a little and look again.
    Wait,
}

/// Ready as soon as the cookie file exists and tor reported 100%; otherwise
/// timed out once more than `timeout_ms` elapsed; otherwise wait.
pub fn bootstrap_step(cookie_exists: bool, bootstrapped: bool, elapsed_ms: u64, timeout_ms: u64) -> (s: BootstrapStep)
    ensures
        cookie_exists && bootstrapped ==> s == BootstrapStep::Ready,
        !(cookie_exists && bootstrapped) && elapsed_ms > timeout_ms ==> s == BootstrapStep::TimedOut,
        !(cookie_exists && bootstrapped) && elapsed_ms <= timeout_ms ==> s == BootstrapStep::Wait,
{
    if cookie_exists && bootstrapped {
        BootstrapStep::Ready
    } else if elapsed_ms > timeout_ms {
        BootstrapStep::TimedOut
    } else {
        BootstrapStep::Wait
    }
}

} // verus!
