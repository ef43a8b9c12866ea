//! Joy-Con channels: device kinds, the rumble packet encoder, and the
//! connection state. Writing a packet to the device is the caller's part; the
//! library builds the packet and checks the write's outcome.
use vstd::prelude::*;
use crate::rumble::pow2;
use crate::track_types::ONE;

verus! {

pub const VENDOR_ID: u16 = 0x057e;
pub const JOYCON_L_BT: u16 = 0x2006;
pub const JOYCON_R_BT: u16 = 0x2007;
pub const PRO_CONTROLLER: u16 = 0x2009;
pub const JOYCON_CHARGING_GRIP: u16 = 0x200e;

/// Length of an output report.
pub const PACKET_LEN: usize = 49;
/// Output report carrying rumble data.
pub const RUMBLE_COMMAND: u8 = 0x10;
/// Subcommand that enables vibration.
pub const ENABLE_VIBRATION: u8 = 0x48;
/// Highest frequency the protocol encodes, in millihertz.
pub const MAX_FREQUENCY: u32 = 1_252_000;
/// Lowest non-zero frequency kept, in millihertz.
pub const MIN_FREQUENCY: u32 = 1_000;

/// Which side of the controller a channel drives.
#[derive(Debug, Clone, Copy, PartialEq, Eq, Structural)]
pub enum JoyConType {
    Left,
    Right,
    ProController,
    Other(u16),
}

/// What device discovery reports of a controller.
#[derive(Debug)]
pub struct DeviceInfo {
    pub product_id: u16,
    pub interface_number: i32,
    pub serial: String,
}

#[derive(Debug)]
pub enum JoyConError {
    NotConnected,
    InvalidDevice(&'static str),
    /// A transport failure, or a write shorter than the packet.
    HidError(String),
    InvalidRumble(&'static str),
}

/// Connection state of a channel.
#[derive(Debug, Clone, Copy, PartialEq, Eq, Structural)]
pub enum LinkState {
    Discovered,
    Opened,
    Closed,
}

// ---------------------------------------------------------------------------
// Encoder

/// `2^(k/64)` times `2^20`, rounded, for `k` in `0..64`.
pub open spec fn root_table(k: int) -> int {
    if k == 0 { 1048576 }
    else if k == 1 { 1059994 }
    else if k == 2 { 1071537 }
    else if k == 3 { 1083205 }
    else if k == 4 { 1095000 }
    else if k == 5 { 1106924 }
    else if k == 6 { 1118978 }
    else if k == 7 { 1131163 }
    else if k == 8 { 1143480 }
    else if k == 9 { 1155932 }
    else if k == 10 { 1168519 }
    else if k == 11 { 1181244 }
    else if k == 12 { 1194106 }
    else if k == 13 { 1207109 }
    else if k == 14 { 1220254 }
    else if k == 15 { 1233542 }
    else if k == 16 { 1246974 }
    else if k == 17 { 1260553 }
    else if k == 18 { 1274279 }
    else if k == 19 { 1288155 }
    else if k == 20 { 1302182 }
    else if k == 21 { 1316362 }
    else if k == 22 { 1330696 }
    else if k == 23 { 1345187 }
    else if k == 24 { 1359835 }
    else if k == 25 { 1374642 }
    else if k == 26 { 1389611 }
    else if k == 27 { 1404743 }
    else if k == 28 { 1420040 }
    else if k == 29 { 1435503 }
    else if k == 30 { 1451135 }
    else if k == 31 { 1466937 }
    else if k == 32 { 1482910 }
    else if k == 33 { 1499058 }
    else if k == 34 { 1515382 }
    else if k == 35 { 1531883 }
    else if k == 36 { 1548564 }
    else if k == 37 { 1565427 }
    else if k == 38 { 1582474 }
    else if k == 39 { 1599706 }
    else if k == 40 { 1617125 }
    else if k == 41 { 1634735 }
    else if k == 42 { 1652536 }
    else if k == 43 { 1670531 }
    else if k == 44 { 1688722 }
    else if k == 45 { 1707110 }
    else if k == 46 { 1725700 }
    else if k == 47 { 1744491 }
    else if k == 48 { 1763488 }
    else if k == 49 { 1782691 }
    else if k == 50 { 1802103 }
    else if k == 51 { 1821727 }
    else if k == 52 { 1841564 }
    else if k == 53 { 1861617 }
    else if k == 54 { 1881889 }
    else if k == 55 { 1902381 }
    else if k == 56 { 1923097 }
    else if k == 57 { 1944038 }
    else if k == 58 { 1965207 }
    else if k == 59 { 1986607 }
    else if k == 60 { 2008240 }
    else if k == 61 { 2030108 }
    else if k == 62 { 2052214 }
    else { 2074562 }
}

/// About `2^(e/64)` times `2^20`.
pub open spec fn pow64(e: int) -> int {
    root_table(e % 64) * pow2((e / 64) as nat)
}

/// Code `c` is reached by `x`: `x * 2^20 >= base * pow64(step * c - off)`.
pub open spec fn passes(x: int, base: int, step: int, off: int, c: int) -> bool {
    x * 1_048_576 >= base * pow64(step * c - off)
}

/// How many codes `1..=k` `x` reaches: the logarithmic code of `x`.
pub open spec fn count_passing(x: int, base: int, step: int, off: int, k: int) -> int
    decreases k,
{
    if k <= 0 {
        0
    } else {
        count_passing(x, base, step, off, k - 1) + (if passes(x, base, step, off, k) { 1int } else { 0 })
    }
}

/// Halves a frequency (millihertz) until it is at most `MAX_FREQUENCY`.
pub open spec fn wrap_down(f: int) -> int
    decreases f,
{
    if f > MAX_FREQUENCY { wrap_down(f / 2) } else { f }
}

/// Doubles a non-zero frequency until it is at least `MIN_FREQUENCY`.
pub open spec fn wrap_up(f: int) -> int
    decreases if f < MIN_FREQUENCY { MIN_FREQUENCY - f } else { 0 },
{
    if 0 < f < MIN_FREQUENCY { wrap_up(2 * f) } else { f }
}

/// A frequency moved by octaves into `[MIN_FREQUENCY, MAX_FREQUENCY]`; 0 stays 0.
pub open spec fn wrapped_frequency(f: int) -> int {
    if f == 0 { 0 } else { wrap_up(wrap_down(f)) }
}

/// `round(32 * log2(f / 10 Hz))`, at least 0, of the wrapped frequency.
pub open spec fn frequency_code(f: int) -> int {
    count_passing(wrapped_frequency(f), 10_000, 2, 1, 255)
}

/// Amplitude code of `a` (millionths, clamped to `ONE`): above 0.23,
/// `round(32 * log2(8.7 a))`; else `round(16 * log2(17 a))`; at least 0.
pub open spec fn amplitude_code(a: int) -> int {
    let a = if a > ONE { ONE as int } else { a };
    if a > 230_000 {
        count_passing(87 * a, 10_000_000, 2, 1, 255)
    } else {
        count_passing(17 * a, 1_000_000, 4, 2, 255)
    }
}

pub open spec fn sat_u8(x: int) -> int {
    if x > 255 { 255 } else if x < 0 { 0 } else { x }
}

/// High-frequency byte, its amplitude, low-frequency byte, its amplitude.
pub open spec fn rumble_bytes(f: int, a: int) -> (int, int, int, int) {
    let fc = frequency_code(f);
    let ac = amplitude_code(a);
    (sat_u8(sat_u8(fc - 0x60) * 4), sat_u8(ac * 2), sat_u8(fc - 0x40), sat_u8(ac / 2 + 0x40))
}

/// Byte offset of a side's rumble data.
pub open spec fn side_offset(side: JoyConType) -> int {
    if side == JoyConType::Right { 6 } else { 2 }
}

/// The rumble report: command, sequence byte, this side's four bytes, the
/// other side's neutral bytes `00 01 40 40`, zeros elsewhere.
pub open spec fn rumble_packet(side: JoyConType, timing: u8, f: int, a: int) -> Seq<u8> {
    let b = rumble_bytes(f, a);
    let mine = side_offset(side);
    let other = 8 - mine;
    Seq::new(49, |i: int|
        if i == 0 { RUMBLE_COMMAND }
        else if i == 1 { timing }
        else if i == mine { b.0 as u8 }
        else if i == mine + 1 { b.1 as u8 }
        else if i == mine + 2 { b.2 as u8 }
        else if i == mine + 3 { b.3 as u8 }
        else if i == other + 1 { 0x01u8 }
        else if i == other + 2 || i == other + 3 { 0x40u8 }
        else { 0u8 })
}

fn root_entry(k: u32) -> (r: u128)
    requires
        k < 64,
    ensures
        r == root_table(k as int),
        1_048_576 <= r <= 2_097_152,
{
    match k {
        0 => 1048576,
        1 => 1059994,
        2 => 1071537,
        3 => 1083205,
        4 => 1095000,
        5 => 1106924,
        6 => 1118978,
        7 => 1131163,
        8 => 1143480,
        9 => 1155932,
        10 => 1168519,
        11 => 1181244,
        12 => 1194106,
        13 => 1207109,
        14 => 1220254,
        15 => 1233542,
        16 => 1246974,
        17 => 1260553,
        18 => 1274279,
        19 => 1288155,
        20 => 1302182,
        21 => 1316362,
        22 => 1330696,
        23 => 1345187,
        24 => 1359835,
        25 => 1374642,
        26 => 1389611,
        27 => 1404743,
        28 => 1420040,
        29 => 1435503,
        30 => 1451135,
        31 => 1466937,
        32 => 1482910,
        33 => 1499058,
        34 => 1515382,
        35 => 1531883,
        36 => 1548564,
        37 => 1565427,
        38 => 1582474,
        39 => 1599706,
        40 => 1617125,
        41 => 1634735,
        42 => 1652536,
        43 => 1670531,
        44 => 1688722,
        45 => 1707110,
        46 => 1725700,
        47 => 1744491,
        48 => 1763488,
        49 => 1782691,
        50 => 1802103,
        51 => 1821727,
        52 => 1841564,
        53 => 1861617,
        54 => 1881889,
        55 => 1902381,
        56 => 1923097,
        57 => 1944038,
        58 => 1965207,
        59 => 1986607,
        60 => 2008240,
        61 => 2030108,
        62 => 2052214,
        _ => 2074562,
    }
}

fn pow2_exec(n: u32) -> (r: u128)
    requires
        n <= 15,
    ensures
        r == pow2(n as nat),
        r <= 32768,
{
    let r: u128 = match n {
        0 => 1,
        1 => 2,
        2 => 4,
        3 => 8,
        4 => 16,
        5 => 32,
        6 => 64,
        7 => 128,
        8 => 256,
        9 => 512,
        10 => 1024,
        11 => 2048,
        12 => 4096,
        13 => 8192,
        14 => 16384,
        _ => 32768,
    };
    proof {
        reveal_with_fuel(pow2, 16);
    }
    r
}

/// The logarithmic code of `x` (see `count_passing`).
fn log_code(x: u128, base: u128, step: u32, off: u32) -> (r: u8)
    requires
        x <= 0x1_0000_0000_0000,
        base <= 10_000_000,
        1 <= off < step <= 4,
    ensures
        r == count_passing(x as int, base as int, step as int, off as int, 255),
{
    let mut count: u8 = 0;
    let mut c: u32 = 1;
    while c <= 255
        invariant
            1 <= c <= 256,
            x <= 0x1_0000_0000_0000,
            base <= 10_000_000,
            1 <= off < step <= 4,
            count == count_passing(x as int, base as int, step as int, off as int, c - 1),
            count <= c - 1,
        decreases 256 - c,
    {
        assert(step <= step * c <= 4 * 255) by (nonlinear_arith)
            requires 1 <= c <= 255, 1 <= step <= 4;
        let e = step * c - off;
        let lo = root_entry(e % 64);
        let hi = pow2_exec(e / 64);
        assert(lo * hi <= 2_097_152 * 0x1_0000_0000) by (nonlinear_arith)
            requires lo <= 2_097_152, hi <= 32768;
        let p = lo * hi;
        assert(p == pow64(e as int));
        assert(base * p <= 10_000_000 * (2_097_152 * 0x1_0000_0000)) by (nonlinear_arith)
            requires base <= 10_000_000, p <= 2_097_152 * 0x1_0000_0000;
        if x * 1_048_576 >= base * p {
            count = count + 1;
        }
        c = c + 1;
    }
    count
}

fn wrap_frequency(f: u32) -> (r: u32)
    ensures
        r == wrapped_frequency(f as int),
        r <= MAX_FREQUENCY,
{
    if f == 0 {
        return 0;
    }
    let mut g = f;
    while g > MAX_FREQUENCY
        invariant
            wrap_down(g as int) == wrap_down(f as int),
        decreases g,
    {
        g = g / 2;
    }
    assert(wrap_down(f as int) == g as int);
    assert(g > 0) by {
        if f <= MAX_FREQUENCY {
            assert(g == f);
        } else {
            lemma_wrap_down_positive(f as int);
        }
    }
    while g < MIN_FREQUENCY
        invariant
            0 < g <= MAX_FREQUENCY,
            wrap_up(g as int) == wrapped_frequency(f as int),
        decreases if g < MIN_FREQUENCY { MIN_FREQUENCY - g } else { 0 },
    {
        g = g * 2;
    }
    g
}

proof fn lemma_wrap_down_positive(f: int)
    requires
        f > 0,
    ensures
        wrap_down(f) > 0,
    decreases f,
{
    if f > MAX_FREQUENCY {
        lemma_wrap_down_positive(f / 2);
    }
}

fn sat_u8_exec(x: u32) -> (r: u8)
    ensures
        r == sat_u8(x as int),
{
    if x > 255 { 255 } else { x as u8 }
}

/// The four rumble bytes of a frequency (millihertz) and an amplitude
/// (millionths, clamped to `ONE`); see `rumble_bytes`.
pub fn encode_rumble(frequency: u32, amplitude: u32) -> (r: (u8, u8, u8, u8))
    ensures
        r.0 as int == rumble_bytes(frequency as int, amplitude as int).0,
        r.1 as int == rumble_bytes(frequency as int, amplitude as int).1,
        r.2 as int == rumble_bytes(frequency as int, amplitude as int).2,
        r.3 as int == rumble_bytes(frequency as int, amplitude as int).3,
{
    let f = wrap_frequency(frequency);
    let fc = log_code(f as u128, 10_000, 2, 1) as u32;
    let a = if amplitude > ONE as u32 { ONE as u32 } else { amplitude };
    let ac = if a > 230_000 {
        log_code(87 * a as u128, 10_000_000, 2, 1)
    } else {
        log_code(17 * a as u128, 1_000_000, 4, 2)
    } as u32;
    let hf_base = if fc > 0x60 { fc - 0x60 } else { 0 };
    let hf = sat_u8_exec(sat_u8_exec(hf_base) as u32 * 4);
    let lf = sat_u8_exec(if fc > 0x40 { fc - 0x40 } else { 0 });
    (hf, sat_u8_exec(ac * 2), lf, sat_u8_exec(ac / 2 + 0x40))
}

/// The rumble report for a side (see `rumble_packet`).
pub fn build_rumble_packet(side: JoyConType, timing: u8, frequency: u32, amplitude: u32) -> (r: Vec<u8>)
    ensures
        r@ == rumble_packet(side, timing, frequency as int, amplitude as int),
{
    let b = encode_rumble(frequency, amplitude);
    let mine: usize = match side {
        JoyConType::Right => 6,
        _ => 2,
    };
    let other: usize = 8 - mine;
    let mut buf: Vec<u8> = Vec::new();
    let mut i: usize = 0;
    while i < PACKET_LEN
        invariant
            i <= PACKET_LEN,
            buf@.len() == i,
            forall|k: int| 0 <= k < i ==> buf@[k] == 0,
        decreases PACKET_LEN - i,
    {
        buf.push(0);
        i = i + 1;
    }
    buf.set(0, RUMBLE_COMMAND);
    buf.set(1, timing);
    buf.set(mine, b.0);
    buf.set(mine + 1, b.1);
    buf.set(mine + 2, b.2);
    buf.set(mine + 3, b.3);
    buf.set(other + 1, 0x01);
    buf.set(other + 2, 0x40);
    buf.set(other + 3, 0x40);
    assert(buf@ =~= rumble_packet(side, timing, frequency as int, amplitude as int));
    buf
}

/// A subcommand report: command, sequence byte, neutral rumble data
/// `00 01 40 40` for both sides, the subcommand, then as much of `data` as
/// fits.
pub open spec fn subcommand_packet(command: u8, timing: u8, subcommand: u8, data: Seq<u8>) -> Seq<u8> {
    Seq::new(49, |i: int|
        if i == 0 { command }
        else if i == 1 { timing }
        else if i == 3 || i == 7 { 0x01u8 }
        else if i == 4 || i == 5 || i == 8 || i == 9 { 0x40u8 }
        else if i == 10 { subcommand }
        else if 11 <= i < 11 + data.len() { data[i - 11] }
        else { 0u8 })
}

fn build_subcommand_packet(command: u8, timing: u8, subcommand: u8, data: &[u8]) -> (r: Vec<u8>)
    ensures
        r@ == subcommand_packet(command, timing, subcommand, data@),
{
    let mut buf: Vec<u8> = Vec::new();
    let mut i: usize = 0;
    while i < PACKET_LEN
        invariant
            i <= PACKET_LEN,
            buf@.len() == i,
            forall|k: int| 0 <= k < i ==> buf@[k] == (if 11 <= k < 11 + data@.len() { data@[k - 11] } else { 0u8 }),
        decreases PACKET_LEN - i,
    {
        if i >= 11 && i - 11 < data.len() {
            buf.push(data[i - 11]);
        } else {
            buf.push(0);
        }
        i = i + 1;
    }
    buf.set(0, command);
    buf.set(1, timing);
    buf.set(3, 0x01);
    buf.set(7, 0x01);
    buf.set(4, 0x40);
    buf.set(5, 0x40);
    buf.set(8, 0x40);
    buf.set(9, 0x40);
    buf.set(10, subcommand);
    assert(buf@ =~= subcommand_packet(command, timing, subcommand, data@));
    buf
}

// ---------------------------------------------------------------------------
// Channels

/// One controller side: its kind, the wrapping sequence byte of its reports,
/// and its connection state.
#[derive(Debug)]
pub struct JoyCon {
    pub device_type: JoyConType,
    pub timing_byte: u8,
    pub state: LinkState,
}

/// Kind of a device, or why it is not one.
pub open spec fn device_kind(product_id: u16, interface_number: i32) -> Result<JoyConType, ()> {
    if product_id == JOYCON_L_BT {
        Ok(JoyConType::Left)
    } else if product_id == JOYCON_R_BT {
        Ok(JoyConType::Right)
    } else if product_id == PRO_CONTROLLER {
        Ok(JoyConType::ProController)
    } else if product_id == JOYCON_CHARGING_GRIP {
        if interface_number == 0 || interface_number == -1 {
            Ok(JoyConType::Right)
        } else if interface_number == 1 {
            Ok(JoyConType::Left)
        } else {
            Err(())
        }
    } else {
        Err(())
    }
}

impl JoyCon {
    /// A discovered (not yet opened) channel for a recognised device.
    pub fn new(device_info: &DeviceInfo) -> (r: Result<JoyCon, JoyConError>)
        ensures
            match device_kind(device_info.product_id, device_info.interface_number) {
                Ok(t) => r matches Ok(j) && j.device_type == t && j.timing_byte == 0 && j.state == LinkState::Discovered,
                Err(_) => r matches Err(JoyConError::InvalidDevice(_)),
            },
    {
        let device_type = if device_info.product_id == JOYCON_L_BT {
            JoyConType::Left
        } else if device_info.product_id == JOYCON_R_BT {
            JoyConType::Right
        } else if device_info.product_id == PRO_CONTROLLER {
            JoyConType::ProController
        } else if device_info.product_id == JOYCON_CHARGING_GRIP {
            if device_info.interface_number == 0 || device_info.interface_number == -1 {
                JoyConType::Right
            } else if device_info.interface_number == 1 {
                JoyConType::Left
            } else {
                return Err(JoyConError::InvalidDevice("Unknown interface"));
            }
        } else {
            return Err(JoyConError::InvalidDevice("Unknown product ID"));
        };
        Ok(JoyCon { device_type, timing_byte: 0, state: LinkState::Discovered })
    }

    pub fn get_type(&self) -> (r: JoyConType)
        ensures
            r == self.device_type,
    {
        self.device_type
    }

    pub fn get_timing_byte(&self) -> (r: u8)
        ensures
            r == self.timing_byte,
    {
        self.timing_byte
    }

    /// Advances the sequence byte, wrapping after 255.
    pub fn increment_timing_byte(&mut self)
        ensures
            final(self).timing_byte == (if old(self).timing_byte == 255 { 0 } else { old(self).timing_byte + 1 }),
            final(self).device_type == old(self).device_type,
            final(self).state == old(self).state,
    {
        self.timing_byte = self.timing_byte.wrapping_add(1);
    }

    /// The device handle was opened.
    pub fn mark_opened(&mut self)
        ensures
            *final(self) == (JoyCon { state: LinkState::Opened, ..*old(self) }),
    {
        self.state = LinkState::Opened;
    }

    /// The device handle was closed.
    pub fn mark_closed(&mut self)
        ensures
            *final(self) == (JoyCon { state: LinkState::Closed, ..*old(self) }),
    {
        self.state = LinkState::Closed;
    }

    /// The report to send for `frequency` (millihertz) at `amplitude`
    /// (millionths): an amplitude above `ONE` is refused, a channel that is
    /// not open is not connected.
    pub fn rumble(&self, frequency: u32, amplitude: u32) -> (r: Result<Vec<u8>, JoyConError>)
        ensures
            amplitude > ONE ==> r matches Err(JoyConError::InvalidRumble(_)),
            amplitude <= ONE && self.state != LinkState::Opened ==> r matches Err(JoyConError::NotConnected),
            amplitude <= ONE && self.state == LinkState::Opened ==> (r matches Ok(p)
                && p@ == rumble_packet(self.device_type, self.timing_byte, frequency as int, amplitude as int)),
    {
        if amplitude > ONE as u32 {
            return Err(JoyConError::InvalidRumble("amplitude above 1.0"));
        }
        match self.state {
            LinkState::Opened => Ok(build_rumble_packet(self.device_type, self.timing_byte, frequency, amplitude)),
            _ => Err(JoyConError::NotConnected),
        }
    }

    /// The report that enables vibration (subcommand 0x48 with argument 1).
    pub fn enable_rumble(&self) -> (r: Result<Vec<u8>, JoyConError>)
        ensures
            self.state != LinkState::Opened ==> r matches Err(JoyConError::NotConnected),
            self.state == LinkState::Opened ==> (r matches Ok(p)
                && p@ == subcommand_packet(RUMBLE_COMMAND, self.timing_byte, ENABLE_VIBRATION, seq![0x01u8])),
    {
        match self.state {
            LinkState::Opened => {
                let data: [u8; 1] = [0x01];
                assert(data@ =~= seq![0x01u8]);
                Ok(build_subcommand_packet(RUMBLE_COMMAND, self.timing_byte, ENABLE_VIBRATION, data.as_slice()))
            },
            _ => Err(JoyConError::NotConnected),
        }
    }

    /// Takes the transport's answer to writing a report: the full report
    /// written advances the sequence byte; a short write or a transport
    /// failure is a `HidError` and leaves it.
    pub fn finish_write(&mut self, written: Result<usize, String>) -> (r: Result<(), JoyConError>)
        ensures
            final(self).device_type == old(self).device_type,
            final(self).state == old(self).state,
            match written {
                Ok(n) => if n == PACKET_LEN {
                    r is Ok && final(self).timing_byte == (if old(self).timing_byte == 255 { 0 } else { old(self).timing_byte + 1 })
                } else {
                    r matches Err(JoyConError::HidError(_)) && final(self).timing_byte == old(self).timing_byte
                },
                Err(e) => r matches Err(JoyConError::HidError(m)) && m == e && final(self).timing_byte == old(self).timing_byte,
            },
    {
        match written {
            Ok(n) => {
                if n == PACKET_LEN {
                    self.increment_timing_byte();
                    Ok(())
                } else {
                    Err(JoyConError::HidError("Incomplete write: fewer bytes than the 49-byte packet".to_owned()))
                }
            },
            Err(e) => Err(JoyConError::HidError(e)),
        }
    }
}

} // verus!
