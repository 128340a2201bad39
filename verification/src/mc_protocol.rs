//! Connection configuration and construction of full 3E binary request
//! frames: fixed subheader, routing fields, data length, monitor timer, and
//! the command body behind them.
use vstd::prelude::*;

verus! {

/// Everything that can go wrong in one protocol exchange.
#[derive(Debug, Clone, PartialEq, Eq)]
pub enum McError {
    /// The device string names no catalog entry, or its address does not
    /// parse in that entry's base.
    InvalidDevice,
    /// The point count lies outside the operation's bound.
    InvalidSize,
    /// An operation was attempted before a successful connect.
    NotConnected,
    /// The transport failed while sending; carries the underlying cause.
    SendFailed(String),
    /// The transport failed while receiving; carries the underlying cause.
    ReceiveFailed(String),
    /// The response byte count differs from the one the request implies;
    /// carries both counts and the end code read from the response header,
    /// best effort.
    UnexpectedResponseLength { expected: usize, actual: usize, end_code: u16 },
    /// The controller answered a write with a non-zero status; carries the
    /// raw code.
    DeviceError(u16),
}

/// Connection-identifying parameters shared by every frame the client builds.
#[derive(Debug, Clone, Copy, PartialEq, Eq, Structural)]
pub struct Config {
    pub network_no: u8,
    pub pc_no: u8,
    pub request_unit_io_no: u16,
    pub request_unit_station_no: u8,
    pub monitor_timer: u16,
}

/// A 16-bit value as the wire carries it: two bytes, low first.
pub open spec fn u16_le(w: u16) -> Seq<u8> {
    seq![(w & 0xff) as u8, ((w >> 8) & 0xff) as u8]
}

/// The full request frame around a command body: fixed subheader 0x50 0x00,
/// network number, PC number, request-unit I/O number, request-unit station
/// number, the data length (body length plus the two monitor-timer bytes),
/// the monitor timer, then the body.
pub open spec fn frame_spec(c: Config, body: Seq<u8>) -> Seq<u8> {
    seq![0x50u8, 0x00u8, c.network_no, c.pc_no] + u16_le(c.request_unit_io_no)
        + seq![c.request_unit_station_no] + u16_le((body.len() + 2) as u16)
        + u16_le(c.monitor_timer) + body
}

impl Config {
    pub fn new(
        networkno: u8,
        pcno: u8,
        req_unit_io_no: u16,
        req_unit_station_no: u8,
        mon_tim: u16,
    ) -> (r: Config)
        ensures
            r == (Config {
                network_no: networkno,
                pc_no: pcno,
                request_unit_io_no: req_unit_io_no,
                request_unit_station_no: req_unit_station_no,
                monitor_timer: mon_tim,
            }),
    {
        Config {
            network_no: networkno,
            pc_no: pcno,
            request_unit_io_no: req_unit_io_no,
            request_unit_station_no: req_unit_station_no,
            monitor_timer: mon_tim,
        }
    }

    /// Wraps a command body into the full request frame.
    pub fn create_send_message(&self, command_msg: &[u8]) -> (r: Vec<u8>)
        requires
            command_msg@.len() + 2 <= u16::MAX,
        ensures
            r@ == frame_spec(*self, command_msg@),
    {
        let request_data_length: u16 = command_msg.len() as u16 + 2;
        let mut message: Vec<u8> = Vec::new();
        message.push(0x50);
        message.push(0x00);
        message.push(self.network_no);
        message.push(self.pc_no);
        message.push((self.request_unit_io_no & 0xff) as u8);
        message.push(((self.request_unit_io_no >> 8) & 0xff) as u8);
        message.push(self.request_unit_station_no);
        message.push((request_data_length & 0xff) as u8);
        message.push(((request_data_length >> 8) & 0xff) as u8);
        message.push((self.monitor_timer & 0xff) as u8);
        message.push(((self.monitor_timer >> 8) & 0xff) as u8);
        message.extend_from_slice(command_msg);
        proof {
            assert(message@ =~= frame_spec(*self, command_msg@));
        }
        message
    }
}

/// One decimal digit as a character.
pub open spec fn digit_char(d: int) -> char {
    if d == 0 { '0' }
    else if d == 1 { '1' }
    else if d == 2 { '2' }
    else if d == 3 { '3' }
    else if d == 4 { '4' }
    else if d == 5 { '5' }
    else if d == 6 { '6' }
    else if d == 7 { '7' }
    else if d == 8 { '8' }
    else { '9' }
}

/// A number written out in decimal, most significant digit first, with no
/// leading zeros but for the number zero itself.
pub open spec fn dec_chars(n: int) -> Seq<char>
    decreases n,
{
    if n < 10 {
        seq![digit_char(n)]
    } else {
        dec_chars(n / 10) + seq![digit_char(n % 10)]
    }
}

/// The one-character string of one decimal digit.
fn digit_str(d: u16) -> (r: &'static str)
    requires
        d < 10,
    ensures
        r@ == seq![digit_char(d as int)],
{
    proof {
        reveal_strlit("0");
        reveal_strlit("1");
        reveal_strlit("2");
        reveal_strlit("3");
        reveal_strlit("4");
        reveal_strlit("5");
        reveal_strlit("6");
        reveal_strlit("7");
        reveal_strlit("8");
        reveal_strlit("9");
    }
    let r = match d {
        0 => "0",
        1 => "1",
        2 => "2",
        3 => "3",
        4 => "4",
        5 => "5",
        6 => "6",
        7 => "7",
        8 => "8",
        _ => "9",
    };
    proof {
        assert(r@ =~= seq![digit_char(d as int)]);
    }
    r
}

/// A number written out in decimal.
fn dec_string(n: u16) -> (s: String)
    ensures
        s@ == dec_chars(n as int),
    decreases n,
{
    if n < 10 {
        String::from_str(digit_str(n))
    } else {
        let mut s = dec_string(n / 10);
        s.append(digit_str(n % 10));
        s
    }
}

/// The address of the peer in the shape `a.b.c.d:port`.
pub open spec fn connection_string_spec(ip: (u8, u8, u8, u8), port: u16) -> Seq<char> {
    dec_chars(ip.0 as int) + "."@ + dec_chars(ip.1 as int) + "."@ + dec_chars(ip.2 as int)
        + "."@ + dec_chars(ip.3 as int) + ":"@ + dec_chars(port as int)
}

/// Formats the peer's IP address and port for the transport to connect to.
pub fn connection_string(ip: (u8, u8, u8, u8), port: u16) -> (s: String)
    ensures
        s@ == connection_string_spec(ip, port),
{
    let mut s = dec_string(ip.0 as u16);
    s.append(".");
    let o1 = dec_string(ip.1 as u16);
    s.append(o1.as_str());
    s.append(".");
    let o2 = dec_string(ip.2 as u16);
    s.append(o2.as_str());
    s.append(".");
    let o3 = dec_string(ip.3 as u16);
    s.append(o3.as_str());
    s.append(":");
    let p = dec_string(port);
    s.append(p.as_str());
    s
}

} // verus!
