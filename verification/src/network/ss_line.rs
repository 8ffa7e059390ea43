//! The line that lists a socket as `ss -tupn` writes it, and the proof that such a line
//! reads back as the socket.

use vstd::prelude::*;
use crate::addr::lemma_address_word;
use crate::network::linux::{
    name_in, name_marker, pid_in, ss_entry, ss_protocol, ss_state,
};
use crate::network::{Connection, ConnectionState, ConnectionView, Protocol};
use crate::text::{
    contains, decimal_text, fields, find, find_from, from_chars, is_digit, is_space, joined,
    lemma_decimal_text_digits, lemma_fields_of_joined, lemma_find_first, lemma_find_none,
    lemma_parse_decimal_text, no_spaces, occurs_at, parse_unsigned, push_decimal, push_str,
};

verus! {

/// The name by which `ss` lists a protocol.
pub open spec fn ss_protocol_text(protocol: Protocol) -> Seq<char> {
    match protocol {
        Protocol::TCP => "tcp"@,
        Protocol::UDP => "udp"@,
    }
}

/// The name by which a state is written in a line of `ss`.
pub open spec fn ss_state_text(state: ConnectionState) -> Seq<char> {
    match state {
        ConnectionState::Established => "ESTAB"@,
        ConnectionState::Listen => "LISTEN"@,
        ConnectionState::TimeWait => "TIME-WAIT"@,
        ConnectionState::CloseWait => "CLOSE-WAIT"@,
        ConnectionState::SynSent => "SYN-SENT"@,
        ConnectionState::SynReceived => "SYN-RECV"@,
        ConnectionState::FinWait1 => "FIN-WAIT-1"@,
        ConnectionState::FinWait2 => "FIN-WAIT-2"@,
        ConnectionState::LastAck => "LAST-ACK"@,
        ConnectionState::Closing => "CLOSING"@,
        ConnectionState::Reset => "RESET"@,
        ConnectionState::Unknown => "UNKNOWN"@,
    }
}

/// What stands between the name and the number of a process in the process field.
pub open spec fn pid_marker() -> Seq<char> {
    seq!['"', ','] + "pid="@
}

/// What ends the process field behind a name and a number.
pub open spec fn users_end() -> Seq<char> {
    ",fd=0"@ + seq![')', ')']
}

/// The process field of a line of `ss`: the name, where one is known, and the number.
pub open spec fn ss_process_text(pid: u32, name: Option<Seq<char>>) -> Seq<char> {
    match name {
        Some(n) => name_marker() + n + pid_marker() + decimal_text(pid as nat) + users_end(),
        None => "pid="@ + decimal_text(pid as nat) + ",fd=0"@,
    }
}

/// The fields of the line that lists the socket `e`: the protocol, the state, two empty
/// queues, the two addresses and, where the number of the owning process is known, the
/// process.
pub open spec fn ss_words(e: ConnectionView) -> Seq<Seq<char>> {
    let base = seq![
        ss_protocol_text(e.protocol),
        ss_state_text(e.state),
        seq!['0'],
        seq!['0'],
        e.local_addr.text(),
        e.remote_addr.text(),
    ];
    match e.pid {
        Some(pid) => base.push(ss_process_text(pid, e.process_name)),
        None => base,
    }
}

/// The line that lists the socket `e`: its fields with one blank between them.
pub open spec fn ss_line_text(e: ConnectionView) -> Seq<char> {
    joined(ss_words(e))
}

fn state_word(state: ConnectionState) -> (s: &'static str)
    ensures
        s@ == ss_state_text(state),
{
    match state {
        ConnectionState::Established => "ESTAB",
        ConnectionState::Listen => "LISTEN",
        ConnectionState::TimeWait => "TIME-WAIT",
        ConnectionState::CloseWait => "CLOSE-WAIT",
        ConnectionState::SynSent => "SYN-SENT",
        ConnectionState::SynReceived => "SYN-RECV",
        ConnectionState::FinWait1 => "FIN-WAIT-1",
        ConnectionState::FinWait2 => "FIN-WAIT-2",
        ConnectionState::LastAck => "LAST-ACK",
        ConnectionState::Closing => "CLOSING",
        ConnectionState::Reset => "RESET",
        ConnectionState::Unknown => "UNKNOWN",
    }
}

/// Writes the line that lists the socket, as `ss -tupn` writes it.
pub fn format_ss_line(e: &Connection) -> (r: String)
    ensures
        r@ == ss_line_text(e@),
{
    let mut out: Vec<char> = Vec::new();
    let ghost w = ss_words(e@);
    match e.protocol {
        Protocol::TCP => {
            push_str(&mut out, "tcp");
        },
        Protocol::UDP => {
            push_str(&mut out, "udp");
        },
    }
    assert(out@ =~= joined(w.subrange(0, 1))) by {
        assert(w.subrange(0, 1)[0] == w[0]);
    }
    out.push(' ');
    push_str(&mut out, state_word(e.state));
    assert(out@ =~= joined(w.subrange(0, 2))) by {
        assert(w.subrange(0, 2).drop_last() =~= w.subrange(0, 1));
        assert(w.subrange(0, 2).last() == w[1]);
    }
    out.push(' ');
    out.push('0');
    assert(out@ =~= joined(w.subrange(0, 3))) by {
        assert(w.subrange(0, 3).drop_last() =~= w.subrange(0, 2));
        assert(w.subrange(0, 3).last() == w[2]);
    }
    out.push(' ');
    out.push('0');
    assert(out@ =~= joined(w.subrange(0, 4))) by {
        assert(w.subrange(0, 4).drop_last() =~= w.subrange(0, 3));
        assert(w.subrange(0, 4).last() == w[3]);
    }
    out.push(' ');
    e.local_addr.push_text(&mut out);
    assert(out@ =~= joined(w.subrange(0, 5))) by {
        assert(w.subrange(0, 5).drop_last() =~= w.subrange(0, 4));
        assert(w.subrange(0, 5).last() == w[4]);
    }
    out.push(' ');
    e.remote_addr.push_text(&mut out);
    assert(out@ =~= joined(w.subrange(0, 6))) by {
        assert(w.subrange(0, 6).drop_last() =~= w.subrange(0, 5));
        assert(w.subrange(0, 6).last() == w[5]);
    }
    match e.pid {
        Some(pid) => {
            out.push(' ');
            let ghost before = out@;
            match &e.process_name {
                Some(name) => {
                    push_str(&mut out, "users:");
                    out.push('(');
                    out.push('(');
                    out.push('"');
                    push_str(&mut out, name.as_str());
                    out.push('"');
                    out.push(',');
                    push_str(&mut out, "pid=");
                    push_decimal(&mut out, pid as u64);
                    push_str(&mut out, ",fd=0");
                    out.push(')');
                    out.push(')');
                    assert(out@ =~= before + ss_process_text(pid, Some(name@)));
                },
                None => {
                    push_str(&mut out, "pid=");
                    push_decimal(&mut out, pid as u64);
                    push_str(&mut out, ",fd=0");
                    assert(out@ =~= before + ss_process_text(pid, None));
                },
            }
            assert(out@ =~= joined(w)) by {
                assert(w.drop_last() =~= w.subrange(0, 6));
                assert(w.last() == ss_process_text(pid, e@.process_name));
            }
        },
        None => {
            assert(w.subrange(0, 6) =~= w);
        },
    }
    from_chars(&out)
}


/// The name of a protocol holds no white space and reads back as the protocol.
pub proof fn lemma_protocol_word(protocol: Protocol)
    ensures
        ss_protocol_text(protocol).len() > 0,
        no_spaces(ss_protocol_text(protocol)),
        ss_protocol(ss_protocol_text(protocol)) == Some(protocol),
{
    reveal_strlit("tcp");
    reveal_strlit("tcp6");
    reveal_strlit("udp");
    assert("udp"@[0] != "tcp"@[0]);
}

/// The name of a state holds no white space and reads back as the state, but for the
/// name of `Reset`, which `ss` does not know.
#[verifier::rlimit(50)]
pub proof fn lemma_state_word(state: ConnectionState, protocol: Protocol)
    ensures
        ss_state_text(state).len() > 0,
        no_spaces(ss_state_text(state)),
        state != ConnectionState::Reset ==> ss_state(ss_state_text(state), protocol) == state,
{
    reveal_strlit("ESTAB");
    reveal_strlit("LISTEN");
    reveal_strlit("TIME-WAIT");
    reveal_strlit("CLOSE-WAIT");
    reveal_strlit("SYN-SENT");
    reveal_strlit("SYN-RECV");
    reveal_strlit("FIN-WAIT-1");
    reveal_strlit("FIN-WAIT-2");
    reveal_strlit("LAST-ACK");
    reveal_strlit("CLOSING");
    reveal_strlit("UNCONN");
    reveal_strlit("UNKNOWN");
    reveal_strlit("RESET");
    let t = ss_state_text(state);
    assert("ESTAB"@.len() == 5 && "ESTAB"@[0] == 'E');
    assert("LISTEN"@.len() == 6 && "LISTEN"@[0] == 'L');
    assert("TIME-WAIT"@.len() == 9 && "TIME-WAIT"@[0] == 'T');
    assert("CLOSE-WAIT"@.len() == 10 && "CLOSE-WAIT"@[0] == 'C');
    assert("SYN-SENT"@.len() == 8 && "SYN-SENT"@[0] == 'S' && "SYN-SENT"@[4] == 'S');
    assert("SYN-RECV"@.len() == 8 && "SYN-RECV"@[0] == 'S' && "SYN-RECV"@[4] == 'R');
    assert("FIN-WAIT-1"@.len() == 10 && "FIN-WAIT-1"@[0] == 'F' && "FIN-WAIT-1"@[9] == '1');
    assert("FIN-WAIT-2"@.len() == 10 && "FIN-WAIT-2"@[0] == 'F' && "FIN-WAIT-2"@[9] == '2');
    assert("LAST-ACK"@.len() == 8 && "LAST-ACK"@[0] == 'L');
    assert("CLOSING"@.len() == 7 && "CLOSING"@[0] == 'C');
    assert("UNCONN"@.len() == 6 && "UNCONN"@[0] == 'U');
    assert("UNKNOWN"@.len() == 7 && "UNKNOWN"@[0] == 'U');
    match state {
        ConnectionState::Established => {},
        ConnectionState::Listen => {
            assert(t != "ESTAB"@);
        },
        ConnectionState::TimeWait => {
            assert(t != "ESTAB"@ && t != "LISTEN"@);
        },
        ConnectionState::CloseWait => {
            assert(t != "ESTAB"@ && t != "LISTEN"@ && t != "TIME-WAIT"@);
        },
        ConnectionState::SynSent => {
            assert(t != "ESTAB"@ && t != "LISTEN"@ && t != "TIME-WAIT"@ && t != "CLOSE-WAIT"@);
        },
        ConnectionState::SynReceived => {
            assert(t[4] != "SYN-SENT"@[4]);
            assert(t != "ESTAB"@ && t != "LISTEN"@ && t != "TIME-WAIT"@ && t != "CLOSE-WAIT"@
                && t != "SYN-SENT"@);
        },
        ConnectionState::FinWait1 => {
            assert(t[0] != "CLOSE-WAIT"@[0]);
            assert(t != "ESTAB"@ && t != "LISTEN"@ && t != "TIME-WAIT"@ && t != "CLOSE-WAIT"@
                && t != "SYN-SENT"@ && t != "SYN-RECV"@);
        },
        ConnectionState::FinWait2 => {
            assert(t[0] != "CLOSE-WAIT"@[0]);
            assert(t[9] != "FIN-WAIT-1"@[9]);
            assert(t != "ESTAB"@ && t != "LISTEN"@ && t != "TIME-WAIT"@ && t != "CLOSE-WAIT"@
                && t != "SYN-SENT"@ && t != "SYN-RECV"@ && t != "FIN-WAIT-1"@);
        },
        ConnectionState::LastAck => {
            assert(t[0] != "SYN-SENT"@[0]);
            assert(t[0] != "SYN-RECV"@[0]);
            assert(t != "ESTAB"@ && t != "LISTEN"@ && t != "TIME-WAIT"@ && t != "CLOSE-WAIT"@
                && t != "SYN-SENT"@ && t != "SYN-RECV"@ && t != "FIN-WAIT-1"@ && t
                != "FIN-WAIT-2"@);
        },
        ConnectionState::Closing => {
            assert(t != "ESTAB"@ && t != "LISTEN"@ && t != "TIME-WAIT"@ && t != "CLOSE-WAIT"@
                && t != "SYN-SENT"@ && t != "SYN-RECV"@ && t != "FIN-WAIT-1"@ && t
                != "FIN-WAIT-2"@ && t != "LAST-ACK"@);
        },
        ConnectionState::Reset => {},
        ConnectionState::Unknown => {
            assert(t[0] != "CLOSING"@[0]);
            assert(t != "ESTAB"@ && t != "LISTEN"@ && t != "TIME-WAIT"@ && t != "CLOSE-WAIT"@
                && t != "SYN-SENT"@ && t != "SYN-RECV"@ && t != "FIN-WAIT-1"@ && t
                != "FIN-WAIT-2"@ && t != "LAST-ACK"@ && t != "CLOSING"@ && t != "UNCONN"@);
        },
    }
}

/// Where `pat` stands in a text, it is found.
pub proof fn lemma_occurs_is_found(s: Seq<char>, pat: Seq<char>, j: int, i: int)
    requires
        0 <= i <= j,
        occurs_at(s, pat, j),
    ensures
        find_from(s, pat, i) is Some,
    decreases j - i,
{
    if !occurs_at(s, pat, i) {
        lemma_occurs_is_found(s, pat, j, i + 1);
    }
}

/// The process field with a number alone reads back as the number and no name.
#[verifier::rlimit(50)]
pub proof fn lemma_process_word_without_name(pid: u32)
    ensures
        ss_process_text(pid, None).len() > 0,
        no_spaces(ss_process_text(pid, None)),
        pid_in(ss_process_text(pid, None)) == Some(pid),
        name_in(ss_process_text(pid, None)) is None,
{
    reveal_strlit("pid=");
    reveal_strlit(",fd=0");
    reveal_strlit("users:");
    let head = "pid="@;
    let digits = decimal_text(pid as nat);
    let tail = ",fd=0"@;
    let text = ss_process_text(pid, None);
    lemma_decimal_text_digits(pid as nat);
    lemma_parse_decimal_text(pid as nat, u32::MAX as nat);
    assert(text.len() == 4 + digits.len() + 5);
    assert forall|i: int| 0 <= i < text.len() implies !is_space(#[trigger] text[i]) && text[i]
        != 'u' by {
        if i < 4 {
            assert(text[i] == head[i]);
        } else if i < 4 + digits.len() {
            assert(text[i] == digits[i - 4]);
            assert(is_digit(digits[i - 4]));
        } else {
            assert(text[i] == tail[i - 4 - digits.len()]);
        }
    }
    assert(text.subrange(0, 4) =~= head);
    lemma_find_first(text, head, 0, 0);
    let rest = text.subrange(4, text.len() as int);
    assert(rest =~= digits + tail);
    let comma = seq![','];
    let k = digits.len() as int;
    assert(rest.subrange(k, k + 1) =~= comma);
    assert forall|j: int| 0 <= j < k implies !occurs_at(rest, comma, j) by {
        if occurs_at(rest, comma, j) {
            assert(rest.subrange(j, j + 1)[0] == comma[0]);
            assert(rest[j] == digits[j]);
            assert(is_digit(digits[j]));
        }
    }
    lemma_find_first(rest, comma, k, 0);
    assert(rest.subrange(0, k) =~= digits);
    let marker = name_marker();
    assert(marker[0] == 'u');
    assert forall|j: int| 0 <= j implies !occurs_at(text, marker, j) by {
        if occurs_at(text, marker, j) {
            assert(text.subrange(j, j + marker.len())[0] == marker[0]);
            assert(text[j] == 'u');
        }
    }
    lemma_find_none(text, marker, 0);
}

/// What stands behind the name in the process field.
pub open spec fn behind_name(pid: u32) -> Seq<char> {
    pid_marker() + decimal_text(pid as nat) + users_end()
}

#[verifier::rlimit(50)]
proof fn lemma_process_text_parts(pid: u32, name: Seq<char>)
    ensures
        ss_process_text(pid, Some(name)) == name_marker() + (name + behind_name(pid)),
        name_marker().len() == 9,
        name_marker()[0] == 'u',
        behind_name(pid).len() > 6,
        behind_name(pid)[0] == '"',
        behind_name(pid)[1] == ',',
        behind_name(pid).subrange(2, 6) == "pid="@,
        behind_name(pid).subrange(6, behind_name(pid).len() as int) == decimal_text(pid as nat)
            + users_end(),
        users_end()[0] == ',',
        no_spaces(name_marker()),
        no_spaces(behind_name(pid)),
        forall|i: int| 0 <= i < 9 ==> name_marker()[i] != 'p',
{
    reveal_strlit("pid=");
    reveal_strlit(",fd=0");
    reveal_strlit("users:");
    let marker = name_marker();
    let mid = pid_marker();
    let digits = decimal_text(pid as nat);
    let end = users_end();
    let b = behind_name(pid);
    lemma_decimal_text_digits(pid as nat);
    assert(ss_process_text(pid, Some(name)) =~= marker + (name + b));
    assert(marker.len() == 9);
    assert(mid.len() == 6);
    assert(end.len() == 7);
    assert(b.subrange(2, 6) =~= "pid="@);
    assert(b.subrange(6, b.len() as int) =~= digits + end);
    assert forall|i: int| 0 <= i < marker.len() implies !is_space(#[trigger] marker[i])
        && marker[i] != 'p' by {
        if i < 6 {
            assert(marker[i] == "users:"@[i]);
        }
    }
    assert forall|i: int| 0 <= i < b.len() implies !is_space(#[trigger] b[i]) by {
        if i < 6 {
            assert(b[i] == mid[i]);
        } else if i < 6 + digits.len() {
            assert(b[i] == digits[i - 6]);
            assert(is_digit(digits[i - 6]));
        } else {
            assert(b[i] == end[i - 6 - digits.len()]);
        }
    }
}

proof fn lemma_number_before_comma(pid: u32, tail: Seq<char>)
    requires
        tail.len() > 0,
        tail[0] == ',',
    ensures
        find(decimal_text(pid as nat) + tail, seq![',']) == Some(
            decimal_text(pid as nat).len() as int,
        ),
        (decimal_text(pid as nat) + tail).subrange(0, decimal_text(pid as nat).len() as int)
            == decimal_text(pid as nat),
        parse_unsigned(decimal_text(pid as nat), u32::MAX as nat) == Some(pid as nat),
{
    let digits = decimal_text(pid as nat);
    let rest = digits + tail;
    let comma = seq![','];
    let d = digits.len() as int;
    lemma_decimal_text_digits(pid as nat);
    lemma_parse_decimal_text(pid as nat, u32::MAX as nat);
    assert(rest.subrange(d, d + 1) =~= comma);
    assert forall|j: int| 0 <= j < d implies !occurs_at(rest, comma, j) by {
        if occurs_at(rest, comma, j) {
            assert(rest.subrange(j, j + 1)[0] == comma[0]);
            assert(rest[j] == digits[j]);
            assert(is_digit(digits[j]));
        }
    }
    lemma_find_first(rest, comma, d, 0);
    assert(rest.subrange(0, d) =~= digits);
}

#[verifier::rlimit(50)]
proof fn lemma_name_is_read(pid: u32, name: Seq<char>)
    requires
        !contains(name, seq!['"']),
    ensures
        name_in(ss_process_text(pid, Some(name))) == Some(name),
{
    lemma_process_text_parts(pid, name);
    let marker = name_marker();
    let b = behind_name(pid);
    let text = ss_process_text(pid, Some(name));
    assert(text.subrange(0, 9) =~= marker);
    lemma_find_first(text, marker, 0, 0);
    let behind = text.subrange(9, text.len() as int);
    assert(behind =~= name + b);
    let quote = seq!['"'];
    let n = name.len() as int;
    assert(behind.subrange(n, n + 1) =~= quote);
    assert forall|j: int| 0 <= j < n implies !occurs_at(behind, quote, j) by {
        if occurs_at(behind, quote, j) {
            assert(behind.subrange(j, j + 1)[0] == quote[0]);
            assert(name.subrange(j, j + 1) =~= quote);
            lemma_occurs_is_found(name, quote, j, 0);
        }
    }
    lemma_find_first(behind, quote, n, 0);
    assert(behind.subrange(0, n) =~= name);
}

#[verifier::rlimit(50)]
proof fn lemma_no_early_match(
    marker: Seq<char>,
    name: Seq<char>,
    b: Seq<char>,
    pat: Seq<char>,
    j: int,
)
    requires
        pat.len() == 4,
        b.len() >= 2,
        forall|i: int| 0 <= i < marker.len() ==> marker[i] != pat[0],
        b[0] != pat[0] && b[0] != pat[1] && b[0] != pat[2] && b[0] != pat[3],
        b[1] != pat[0],
        !contains(name, pat),
        0 <= j < marker.len() + name.len() + 2,
    ensures
        !occurs_at(marker + (name + b), pat, j),
{
    let text = marker + (name + b);
    let m = marker.len() as int;
    let q = m + name.len();
    if occurs_at(text, pat, j) {
        let part = text.subrange(j, j + 4);
        assert(part[0] == pat[0] && part[1] == pat[1] && part[2] == pat[2] && part[3] == pat[3]);
        assert(text[q] == b[0]);
        assert(text[q + 1] == b[1]);
        if j < m {
            assert(text[j] == marker[j]);
        } else if j + 4 <= q {
            assert(name.subrange(j - m, j - m + 4) =~= pat);
            lemma_occurs_is_found(name, pat, j - m, 0);
        } else if j < q {
            assert(part[q - j] == text[q]);
        } else if j == q {
            assert(part[0] == text[q]);
        } else {
            assert(part[0] == text[q + 1]);
        }
    }
}

proof fn lemma_pid_pattern()
    ensures
        "pid="@.len() == 4,
        "pid="@[0] == 'p',
        "pid="@[1] == 'i',
        "pid="@[2] == 'd',
        "pid="@[3] == '=',
{
    reveal_strlit("pid=");
}

#[verifier::rlimit(50)]
proof fn lemma_number_is_read(pid: u32, name: Seq<char>)
    requires
        !contains(name, "pid="@),
    ensures
        pid_in(ss_process_text(pid, Some(name))) == Some(pid),
{
    lemma_process_text_parts(pid, name);
    lemma_pid_pattern();
    let marker = name_marker();
    let b = behind_name(pid);
    let pat = "pid="@;
    let text = ss_process_text(pid, Some(name));
    let q = 9 + name.len() as int;
    let k = q + 2;
    assert(text.subrange(k, k + 4) =~= b.subrange(2, 6));
    assert forall|j: int| 0 <= j < k implies !occurs_at(text, pat, j) by {
        lemma_no_early_match(marker, name, b, pat, j);
    }
    lemma_find_first(text, pat, k, 0);
    let rest = text.subrange(k + 4, text.len() as int);
    assert(rest =~= b.subrange(6, b.len() as int));
    lemma_number_before_comma(pid, users_end());
}

/// The process field with a name and a number reads back as both, where the name holds
/// no white space, no quotation mark and no `pid=`.
#[verifier::rlimit(50)]
pub proof fn lemma_process_word_with_name(pid: u32, name: Seq<char>)
    requires
        no_spaces(name),
        !contains(name, seq!['"']),
        !contains(name, "pid="@),
    ensures
        ss_process_text(pid, Some(name)).len() > 0,
        no_spaces(ss_process_text(pid, Some(name))),
        pid_in(ss_process_text(pid, Some(name))) == Some(pid),
        name_in(ss_process_text(pid, Some(name))) == Some(name),
{
    lemma_process_text_parts(pid, name);
    lemma_name_is_read(pid, name);
    lemma_number_is_read(pid, name);
    let text = ss_process_text(pid, Some(name));
    let marker = name_marker();
    let b = behind_name(pid);
    assert forall|i: int| 0 <= i < text.len() implies !is_space(#[trigger] text[i]) by {
        if i < 9 {
            assert(text[i] == marker[i]);
        } else if i < 9 + name.len() {
            assert(text[i] == name[i - 9]);
        } else {
            assert(text[i] == b[i - 9 - name.len()]);
        }
    }
}

/// The line that is written for a socket reads back as the socket.
///
/// This holds of a socket in a state that `ss` has a name for, with a process name only
/// where the process number is known, and with a name that holds no white space, no
/// quotation mark and no `pid=`. What is read back was read at the time `now`, and no
/// packet is counted on it.
#[verifier::rlimit(50)]
pub proof fn lemma_ss_line_round_trip(e: ConnectionView, now: u64)
    requires
        e.state != ConnectionState::Reset,
        e.pid is None ==> e.process_name is None,
        match e.process_name {
            Some(name) => no_spaces(name) && !contains(name, seq!['"']) && !contains(
                name,
                "pid="@,
            ),
            None => true,
        },
    ensures
        ss_entry(ss_line_text(e), now) == Some(
            ConnectionView {
                bytes_sent: 0,
                bytes_received: 0,
                packets_sent: 0,
                packets_received: 0,
                created_at: now,
                last_activity: now,
                ..e
            },
        ),
{
    let w = ss_words(e);
    lemma_protocol_word(e.protocol);
    lemma_state_word(e.state, e.protocol);
    lemma_address_word(e.local_addr);
    lemma_address_word(e.remote_addr);
    assert(!is_space('0'));
    match e.pid {
        Some(pid) => {
            match e.process_name {
                Some(name) => {
                    lemma_process_word_with_name(pid, name);
                },
                None => {
                    lemma_process_word_without_name(pid);
                },
            }
        },
        None => {},
    }
    assert forall|i: int| 0 <= i < w.len() implies (#[trigger] w[i]).len() > 0 && no_spaces(
        w[i],
    ) by {}
    lemma_fields_of_joined(w);
}

} // verus!
