//! SPI2, and the ST7789 display behind it.
//!
//! # The controller
//!
//! A transfer sends the first bytes of `W0_REG..=W15_REG`, low byte of each
//! word first; `MS_DLEN_REG` gives its length in bits, less one. It starts
//! with a write that sets bit 24 of `CMD_REG` (`USR`) and is over at once, so
//! that the bit never reads as set. Nothing else about a transfer is modelled:
//! `USER_REG` and the other bits of `CMD_REG` hold what is written to them,
//! chip select and the phases of a transfer have no effect. Every other
//! register reads as 0 and ignores writes.
//!
//! # The display
//!
//! While the D/C line (pin 0) is low the bytes of a transfer are commands,
//! else they are data for the last command.
//!
//! - `CASET` and `RASET` take four bytes, the first and last column or row of
//!   a window, high byte first; a value past the edge stands for the edge.
//! - `RAMWR` takes pixels, two bytes each, high byte first. They fill the
//!   window row by row from its first corner on and start over at its end.
//!   Pixel data runs on over any number of transfers.
//! - Any other command takes data and does nothing with it.
//!
//! A command drops whatever the one before left incomplete.
use super::set_byte;
use crate::bits::{bit, byte_at, clear_bit, le32, with_byte, without_bit, word_byte};
use vstd::prelude::*;

verus! {

pub const CMD_REG: u32 = 0x00;

pub const USER_REG: u32 = 0x10;

pub const MS_DLEN_REG: u32 = 0x1C;

pub const W0_REG: u32 = 0x98;

pub const W15_REG: u32 = 0xD4;

/// `CMD_REG`: starts a transfer.
const CMD_USR: u32 = 24;

/// The number of values of the length field of `MS_DLEN_REG`.
const BITLEN_RANGE: u32 = 0x4_0000;

/// The most bytes that a transfer sends.
const MAX_TRANSACTION_BYTES: u32 = 64;

pub const SCREEN_WIDTH: usize = 320;

pub const SCREEN_HEIGHT: usize = 240;

pub const CMD_CASET: u8 = 0x2A;

pub const CMD_RASET: u8 = 0x2B;

pub const CMD_RAMWR: u8 = 0x2C;

/// The display's state.
#[verifier::ext_equal]
pub struct LcdState {
    /// The pixels, row by row.
    pub fb: Seq<u16>,
    pub command: Option<u8>,
    /// The window: first and last column, first and last row.
    pub xs: u16,
    pub xe: u16,
    pub ys: u16,
    pub ye: u16,
    /// Where the next pixel goes.
    pub cx: u16,
    pub cy: u16,
    /// The parameters of a `CASET` so far.
    pub caset: Seq<u8>,
    /// The parameters of a `RASET` so far.
    pub raset: Seq<u8>,
    /// The high byte of a pixel whose low byte is to come.
    pub pending: Option<u8>,
}

/// The 16-bit number with the given bytes.
pub open spec fn be16(hi: u8, lo: u8) -> u16 {
    (0x100 * hi + lo) as u16
}

/// `v`, or `last` if it is past it.
pub open spec fn at_most(v: u16, last: int) -> u16 {
    if v <= last { v } else { last as u16 }
}

/// The display out of reset: black, with the whole panel as the window.
pub open spec fn lcd_reset() -> LcdState {
    LcdState {
        fb: Seq::new(76800, |i: int| 0u16),
        command: None,
        xs: 0,
        xe: 319,
        ys: 0,
        ye: 239,
        cx: 0,
        cy: 0,
        caset: Seq::empty(),
        raset: Seq::empty(),
        pending: None,
    }
}

impl LcdState {
    /// The panel is 320 by 240, and window and cursor lie on it.
    pub open spec fn wf(self) -> bool {
        &&& self.fb.len() == 76800
        &&& self.xs < 320 && self.xe < 320 && self.cx < 320
        &&& self.ys < 240 && self.ye < 240 && self.cy < 240
        &&& self.caset.len() < 4
        &&& self.raset.len() < 4
    }

    /// The display after a command byte.
    pub open spec fn commanded(self, b: u8) -> LcdState {
        LcdState {
            command: Some(b),
            caset: Seq::empty(),
            raset: Seq::empty(),
            pending: None,
            cx: if b == CMD_RAMWR { self.xs } else { self.cx },
            cy: if b == CMD_RAMWR { self.ys } else { self.cy },
            ..self
        }
    }

    /// The display after a pixel.
    pub open spec fn drawn(self, px: u16) -> LcdState {
        let end_of_row = self.cx >= self.xe;
        LcdState {
            fb: self.fb.update(self.cy * 320 + self.cx, px),
            cx: if end_of_row { self.xs } else { (self.cx + 1) as u16 },
            cy: if !end_of_row {
                self.cy
            } else if self.cy >= self.ye {
                self.ys
            } else {
                (self.cy + 1) as u16
            },
            ..self
        }
    }

    /// The display after a parameter byte of `CASET`.
    pub open spec fn column_byte(self, b: u8) -> LcdState {
        let p = self.caset.push(b);
        if p.len() == 4 {
            LcdState {
                xs: at_most(be16(p[0], p[1]), 319),
                xe: at_most(be16(p[2], p[3]), 319),
                caset: Seq::empty(),
                ..self
            }
        } else {
            LcdState { caset: p, ..self }
        }
    }

    /// The display after a parameter byte of `RASET`.
    pub open spec fn row_byte(self, b: u8) -> LcdState {
        let p = self.raset.push(b);
        if p.len() == 4 {
            LcdState {
                ys: at_most(be16(p[0], p[1]), 239),
                ye: at_most(be16(p[2], p[3]), 239),
                raset: Seq::empty(),
                ..self
            }
        } else {
            LcdState { raset: p, ..self }
        }
    }

    /// The display after a byte of pixel data.
    pub open spec fn pixel_byte(self, b: u8) -> LcdState {
        match self.pending {
            Some(hi) => LcdState { pending: None, ..self }.drawn(be16(hi, b)),
            None => LcdState { pending: Some(b), ..self },
        }
    }

    /// The display after a data byte.
    pub open spec fn fed(self, b: u8) -> LcdState {
        if self.command == Some(CMD_CASET) { self.column_byte(b) }
        else if self.command == Some(CMD_RASET) { self.row_byte(b) }
        else if self.command == Some(CMD_RAMWR) { self.pixel_byte(b) }
        else { self }
    }

    /// The display after the first `n` bytes of a transfer, commands while
    /// `dc_low`, data otherwise.
    pub open spec fn received(self, dc_low: bool, bytes: Seq<u8>, n: int) -> LcdState
        decreases n,
    {
        if n <= 0 {
            self
        } else {
            let before = self.received(dc_low, bytes, n - 1);
            if dc_low { before.commanded(bytes[n - 1]) } else { before.fed(bytes[n - 1]) }
        }
    }
}

/// The display.
pub struct St7789 {
    pub framebuffer: Vec<u16>,
    pub current_command: Option<u8>,
    pub xs: u16,
    pub xe: u16,
    pub ys: u16,
    pub ye: u16,
    pub cursor_x: u16,
    pub cursor_y: u16,
    pub caset_buf: Vec<u8>,
    pub raset_buf: Vec<u8>,
    pub ramwr_pending_high: Option<u8>,
}

impl View for St7789 {
    type V = LcdState;

    open spec fn view(&self) -> LcdState {
        LcdState {
            fb: self.framebuffer@,
            command: self.current_command,
            xs: self.xs,
            xe: self.xe,
            ys: self.ys,
            ye: self.ye,
            cx: self.cursor_x,
            cy: self.cursor_y,
            caset: self.caset_buf@,
            raset: self.raset_buf@,
            pending: self.ramwr_pending_high,
        }
    }
}

impl Default for St7789 {
    fn default() -> (lcd: Self)
        ensures
            lcd@ == lcd_reset(),
    {
        let lcd = Self {
            framebuffer: vec![0u16; SCREEN_WIDTH * SCREEN_HEIGHT],
            current_command: None,
            xs: 0,
            xe: (SCREEN_WIDTH - 1) as u16,
            ys: 0,
            ye: (SCREEN_HEIGHT - 1) as u16,
            cursor_x: 0,
            cursor_y: 0,
            caset_buf: Vec::with_capacity(4),
            raset_buf: Vec::with_capacity(4),
            ramwr_pending_high: None,
        };
        assert(lcd@ =~= lcd_reset());
        lcd
    }
}

/// The number with the given bytes, but no more than `last`.
fn be_at_most(hi: u8, lo: u8, last: u16) -> (v: u16)
    ensures
        v == at_most(be16(hi, lo), last as int),
{
    let v: u16 = 0x100 * (hi as u16) + lo as u16;
    if v <= last { v } else { last }
}

impl St7789 {
    pub fn new() -> (lcd: Self)
        ensures
            lcd@ == lcd_reset(),
            lcd@.wf(),
    {
        Self::default()
    }

    /// The pixels as RGB565, row by row: pixel `(x, y)` is at
    /// `y * SCREEN_WIDTH + x`.
    pub fn framebuffer(&self) -> (pixels: &[u16])
        ensures
            pixels@ == self@.fb,
    {
        self.framebuffer.as_slice()
    }

    /// The window: first and last column, first and last row.
    pub fn window(&self) -> (window: (u16, u16, u16, u16))
        ensures
            window == (self@.xs, self@.xe, self@.ys, self@.ye),
    {
        (self.xs, self.xe, self.ys, self.ye)
    }

    /// Takes the bytes of a transfer, commands while the D/C line is low.
    pub fn handle_transaction(&mut self, dc_low: bool, bytes: &[u8])
        requires
            old(self)@.wf(),
        ensures
            final(self)@ == old(self)@.received(dc_low, bytes@, bytes@.len() as int),
            final(self)@.wf(),
    {
        for i in 0..bytes.len()
            invariant
                self@.wf(),
                self@ == old(self)@.received(dc_low, bytes@, i as int),
        {
            if dc_low {
                self.start_command(bytes[i]);
            } else {
                self.feed_byte(bytes[i]);
            }
        }
    }

    fn start_command(&mut self, b: u8)
        requires
            old(self)@.wf(),
        ensures
            final(self)@ == old(self)@.commanded(b),
            final(self)@.wf(),
    {
        self.current_command = Some(b);
        self.caset_buf.clear();
        self.raset_buf.clear();
        self.ramwr_pending_high = None;
        if b == CMD_RAMWR {
            self.cursor_x = self.xs;
            self.cursor_y = self.ys;
        }
    }

    fn feed_byte(&mut self, b: u8)
        requires
            old(self)@.wf(),
        ensures
            final(self)@ == old(self)@.fed(b),
            final(self)@.wf(),
    {
        match self.current_command {
            Some(CMD_CASET) => self.feed_caset_byte(b),
            Some(CMD_RASET) => self.feed_raset_byte(b),
            Some(CMD_RAMWR) => self.feed_ramwr_byte(b),
            _ => {},
        }
    }

    fn feed_caset_byte(&mut self, b: u8)
        requires
            old(self)@.wf(),
        ensures
            final(self)@ == old(self)@.column_byte(b),
            final(self)@.wf(),
    {
        self.caset_buf.push(b);
        if self.caset_buf.len() == 4 {
            let p = &self.caset_buf;
            let xs: u16 = be_at_most(p[0], p[1], 319);
            let xe: u16 = be_at_most(p[2], p[3], 319);
            self.xs = xs;
            self.xe = xe;
            self.caset_buf.clear();
        }
    }

    fn feed_raset_byte(&mut self, b: u8)
        requires
            old(self)@.wf(),
        ensures
            final(self)@ == old(self)@.row_byte(b),
            final(self)@.wf(),
    {
        self.raset_buf.push(b);
        if self.raset_buf.len() == 4 {
            let p = &self.raset_buf;
            let ys: u16 = be_at_most(p[0], p[1], 239);
            let ye: u16 = be_at_most(p[2], p[3], 239);
            self.ys = ys;
            self.ye = ye;
            self.raset_buf.clear();
        }
    }

    fn feed_ramwr_byte(&mut self, b: u8)
        requires
            old(self)@.wf(),
        ensures
            final(self)@ == old(self)@.pixel_byte(b),
            final(self)@.wf(),
    {
        match self.ramwr_pending_high {
            Some(hi) => {
                self.ramwr_pending_high = None;
                self.write_pixel(0x100 * (hi as u16) + b as u16);
            },
            None => {
                self.ramwr_pending_high = Some(b);
            },
        }
    }

    fn write_pixel(&mut self, px: u16)
        requires
            old(self)@.wf(),
        ensures
            final(self)@ == old(self)@.drawn(px),
            final(self)@.wf(),
    {
        let idx: usize = self.cursor_y as usize * SCREEN_WIDTH + self.cursor_x as usize;
        self.framebuffer.set(idx, px);
        if self.cursor_x >= self.xe {
            self.cursor_x = self.xs;
            self.cursor_y = if self.cursor_y >= self.ye { self.ys } else { self.cursor_y + 1 };
        } else {
            self.cursor_x += 1;
        }
    }
}

/// The controller's state.
#[verifier::ext_equal]
pub struct SpiState {
    pub cmd: u32,
    pub user: u32,
    pub ms_dlen: u32,
    /// The data words.
    pub w: Seq<u32>,
    pub lcd: LcdState,
}

/// The controller out of reset.
pub open spec fn spi_reset() -> SpiState {
    SpiState { cmd: 0, user: 0, ms_dlen: 0, w: Seq::new(16, |i: int| 0u32), lcd: lcd_reset() }
}

impl SpiState {
    /// There are sixteen data words, no transfer is under way, and the display
    /// is well-formed.
    pub open spec fn wf(self) -> bool {
        &&& self.w.len() == 16
        &&& !bit(self.cmd as int, 24)
        &&& self.lcd.wf()
    }

    /// `reg` is a data word.
    pub open spec fn is_data(reg: u32) -> bool {
        W0_REG <= reg <= W15_REG
    }

    /// The number of the data word at `reg`.
    pub open spec fn data_index(reg: u32) -> int {
        (reg - W0_REG) / 4
    }

    /// The word at register offset `reg`.
    pub open spec fn word(self, reg: u32) -> u32 {
        if reg == CMD_REG { self.cmd }
        else if reg == USER_REG { self.user }
        else if reg == MS_DLEN_REG { self.ms_dlen }
        else if Self::is_data(reg) { self.w[Self::data_index(reg)] }
        else { 0 }
    }

    /// The byte at `offset`.
    pub open spec fn byte(self, offset: u32) -> u8 {
        byte_at(self.word((offset - offset % 4) as u32), offset as int % 4)
    }

    /// A write of `val` to the byte at `offset` starts a transfer.
    pub open spec fn triggers(offset: u32, val: u8) -> bool {
        offset == CMD_REG + 3 && val % 2 == 1
    }

    /// The controller after a write of `val` to the byte at `offset`, before
    /// the transfer that it may start.
    pub open spec fn written(self, offset: u32, val: u8) -> SpiState {
        let reg = (offset - offset % 4) as u32;
        let new = with_byte(self.word(reg), offset as int % 4, val);
        if reg == CMD_REG {
            SpiState { cmd: if Self::triggers(offset, val) { without_bit(new, 24) } else { new }, ..self }
        }
        else if reg == USER_REG { SpiState { user: new, ..self } }
        else if reg == MS_DLEN_REG { SpiState { ms_dlen: new, ..self } }
        else if Self::is_data(reg) {
            SpiState { w: self.w.update(Self::data_index(reg), new), ..self }
        }
        else { self }
    }

    /// The number of bytes that a transfer sends: its bits, rounded up to
    /// whole bytes, but no more than the data words hold.
    pub open spec fn payload_len(self) -> int {
        let bytes = (self.ms_dlen as int % 0x4_0000 + 1 + 7) / 8;
        if bytes <= 64 { bytes } else { 64 }
    }

    /// The bytes that a transfer sends.
    pub open spec fn payload(self) -> Seq<u8> {
        Seq::new(self.payload_len() as nat, |i: int| byte_at(self.w[i / 4], i % 4))
    }

    /// The controller and the display after a transfer.
    pub open spec fn transferred(self, dc_low: bool) -> SpiState {
        SpiState {
            lcd: self.lcd.received(dc_low, self.payload(), self.payload_len()),
            ..self
        }
    }
}

/// The controller, with the display behind it.
pub struct Spi {
    pub cmd: u32,
    pub user: u32,
    pub ms_dlen: u32,
    pub w: [u32; 16],
    pub st7789: St7789,
}

impl View for Spi {
    type V = SpiState;

    open spec fn view(&self) -> SpiState {
        SpiState {
            cmd: self.cmd,
            user: self.user,
            ms_dlen: self.ms_dlen,
            w: self.w@,
            lcd: self.st7789@,
        }
    }
}

impl Default for Spi {
    fn default() -> (spi: Self)
        ensures
            spi@ == spi_reset(),
    {
        let spi = Self { cmd: 0, user: 0, ms_dlen: 0, w: [0; 16], st7789: St7789::new() };
        assert(spi@ =~= spi_reset());
        spi
    }
}

impl Spi {
    pub fn new() -> (spi: Self)
        ensures
            spi@ == spi_reset(),
            spi@.wf(),
    {
        Self::default()
    }

    /// The display's pixels, see [`St7789::framebuffer`].
    pub fn framebuffer(&self) -> (pixels: &[u16])
        ensures
            pixels@ == self@.lcd.fb,
    {
        self.st7789.framebuffer()
    }

    /// The word at register offset `reg`.
    fn word(&self, reg: u32) -> (word: u32)
        ensures
            word == self@.word(reg),
    {
        match reg {
            CMD_REG => self.cmd,
            USER_REG => self.user,
            MS_DLEN_REG => self.ms_dlen,
            _ => {
                if W0_REG <= reg && reg <= W15_REG {
                    self.w[((reg - W0_REG) / 4) as usize]
                } else {
                    0
                }
            },
        }
    }

    /// Reads the byte at `offset` of the register block.
    pub fn read_byte(&self, offset: u32) -> (val: u8)
        ensures
            val == self@.byte(offset),
    {
        word_byte(self.word(offset - offset % 4), offset % 4)
    }

    /// Writes the byte at `offset` of the register block, and returns whether
    /// that starts a transfer. If it does, the caller reads the D/C line and
    /// calls [`Spi::process_transaction`].
    pub fn write_byte(&mut self, offset: u32, val: u8) -> (triggered: bool)
        ensures
            final(self)@ == old(self)@.written(offset, val),
            triggered == SpiState::triggers(offset, val),
            old(self)@.wf() ==> final(self)@.wf(),
    {
        let reg: u32 = offset - offset % 4;
        let idx: u32 = offset % 4;
        let mut word: u32 = self.word(reg);
        set_byte(&mut word, idx, val);
        proof {
            lemma_usr(self.cmd, idx as int, val);
        }
        match reg {
            CMD_REG => {
                if idx == 3 && val % 2 == 1 {
                    self.cmd = clear_bit(word, CMD_USR);
                    return true;
                }
                self.cmd = word;
            },
            USER_REG => self.user = word,
            MS_DLEN_REG => self.ms_dlen = word,
            _ => {
                if W0_REG <= reg && reg <= W15_REG {
                    self.w[((reg - W0_REG) / 4) as usize] = word;
                }
            },
        }
        false
    }

    /// Sends the bytes of a transfer to the display; `dc_low` is the state of
    /// the D/C line.
    pub fn process_transaction(&mut self, dc_low: bool)
        requires
            old(self)@.wf(),
        ensures
            final(self)@ == old(self)@.transferred(dc_low),
            final(self)@.wf(),
    {
        let bits: u32 = self.ms_dlen % BITLEN_RANGE + 1;
        let whole: u32 = (bits + 7) / 8;
        let count: u32 = if whole <= MAX_TRANSACTION_BYTES { whole } else {
            MAX_TRANSACTION_BYTES
        };
        let mut bytes: Vec<u8> = Vec::with_capacity(count as usize);
        for i in 0..count
            invariant
                count <= 64,
                bytes@.len() == i,
                forall|k: int| 0 <= k < i ==> bytes@[k] == byte_at(self@.w[k / 4], k % 4),
        {
            bytes.push(word_byte(self.w[(i / 4) as usize], i % 4));
        }
        assert(bytes@ =~= self@.payload());
        self.st7789.handle_transaction(dc_low, bytes.as_slice());
    }
}

/// Whatever is sent to it, the display stays well-formed: the panel keeps its
/// size, and window and cursor stay on it.
pub proof fn law_display_stays_on_the_panel(s: LcdState, dc_low: bool, bytes: Seq<u8>, n: int)
    requires
        s.wf(),
    ensures
        s.received(dc_low, bytes, n).wf(),
    decreases n,
{
    if n > 0 {
        law_display_stays_on_the_panel(s, dc_low, bytes, n - 1);
    }
}

/// Only the bytes of a transfer count.
proof fn lemma_received_prefix(s: LcdState, dc_low: bool, a: Seq<u8>, b: Seq<u8>, n: int)
    requires
        0 <= n <= a.len(),
        n <= b.len(),
        forall|i: int| 0 <= i < n ==> a[i] == b[i],
    ensures
        s.received(dc_low, a, n) == s.received(dc_low, b, n),
    decreases n,
{
    if n > 0 {
        lemma_received_prefix(s, dc_low, a, b, n - 1);
    }
}

/// How data is split into transfers does not matter: two transfers do what
/// one does that sends the bytes of both.
pub proof fn law_transfers_run_on(s: LcdState, dc_low: bool, a: Seq<u8>, b: Seq<u8>, n: int)
    requires
        0 <= n <= b.len(),
    ensures
        s.received(dc_low, a, a.len() as int).received(dc_low, b, n) == s.received(
            dc_low,
            a + b,
            a.len() + n,
        ),
    decreases n,
{
    if n > 0 {
        law_transfers_run_on(s, dc_low, a, b, n - 1);
        assert((a + b)[a.len() + n - 1] == b[n - 1]);
    } else {
        lemma_received_prefix(s, dc_low, a, a + b, a.len() as int);
    }
}

/// A command drops the parameters and the half pixel that the one before
/// left incomplete, and changes neither window nor pixels. `RAMWR` starts
/// over at the window's first corner.
pub proof fn law_command_starts_afresh(s: LcdState, b: u8)
    ensures
        ({
            let t = s.commanded(b);
            &&& t.caset.len() == 0 && t.raset.len() == 0 && t.pending is None
            &&& t.fb == s.fb
            &&& (t.xs, t.xe, t.ys, t.ye) == (s.xs, s.xe, s.ys, s.ye)
            &&& b == CMD_RAMWR ==> t.cx == s.xs && t.cy == s.ys
        }),
{
}

/// Data for a command that is none of the three does nothing.
pub proof fn law_other_commands_ignore_data(s: LcdState, bytes: Seq<u8>, n: int)
    requires
        s.command != Some(CMD_CASET),
        s.command != Some(CMD_RASET),
        s.command != Some(CMD_RAMWR),
    ensures
        s.received(false, bytes, n) == s,
    decreases n,
{
    if n > 0 {
        law_other_commands_ignore_data(s, bytes, n - 1);
    }
}

/// `CASET` with four bytes sets the columns of the window, and `RASET` its
/// rows, each to what was sent or to the edge of the panel.
pub proof fn law_window_commands(s: LcdState, p: Seq<u8>)
    requires
        p.len() == 4,
    ensures
        ({
            let t = s.commanded(CMD_CASET).received(false, p, 4);
            &&& t.xs == at_most(be16(p[0], p[1]), 319)
            &&& t.xe == at_most(be16(p[2], p[3]), 319)
            &&& (t.ys, t.ye) == (s.ys, s.ye)
            &&& t.fb == s.fb
        }),
        ({
            let t = s.commanded(CMD_RASET).received(false, p, 4);
            &&& t.ys == at_most(be16(p[0], p[1]), 239)
            &&& t.ye == at_most(be16(p[2], p[3]), 239)
            &&& (t.xs, t.xe) == (s.xs, s.xe)
            &&& t.fb == s.fb
        }),
{
    reveal_with_fuel(LcdState::received, 5);
}

/// The display after `n` pixels.
pub open spec fn drawn_all(s: LcdState, px: Seq<u16>, n: int) -> LcdState
    decreases n,
{
    if n <= 0 { s } else { drawn_all(s, px, n - 1).drawn(px[n - 1]) }
}

/// The bytes of a run of pixels.
pub open spec fn pixel_bytes(px: Seq<u16>) -> Seq<u8> {
    Seq::new(
        2 * px.len(),
        |i: int|
            if i % 2 == 0 { (px[i / 2] as int / 0x100) as u8 } else { (px[i / 2] as int % 0x100) as u8 },
    )
}

/// After `RAMWR` every two bytes are a pixel, high byte first.
pub proof fn law_pixel_data(s: LcdState, px: Seq<u16>, n: int)
    requires
        s.command == Some(CMD_RAMWR),
        s.pending is None,
        0 <= n <= px.len(),
    ensures
        s.received(false, pixel_bytes(px), 2 * n) == drawn_all(s, px, n),
        drawn_all(s, px, n).command == s.command,
        drawn_all(s, px, n).pending is None,
    decreases n,
{
    if n > 0 {
        law_pixel_data(s, px, n - 1);
        let bytes = pixel_bytes(px);
        let v = px[n - 1];
        assert(bytes[2 * n - 2] == (v as int / 0x100) as u8);
        assert(bytes[2 * n - 1] == (v as int % 0x100) as u8);
        assert(be16(bytes[2 * n - 2], bytes[2 * n - 1]) == v);
        let mid = s.received(false, bytes, 2 * n - 1);
        assert(mid == s.received(false, bytes, 2 * n - 2).fed(bytes[2 * n - 2]));
        assert(LcdState { pending: None, ..mid } == s.received(false, bytes, 2 * n - 2));
    }
}

/// The number of columns of the window.
pub open spec fn window_width(s: LcdState) -> int {
    s.xe - s.xs + 1
}

/// The number of rows of the window.
pub open spec fn window_height(s: LcdState) -> int {
    s.ye - s.ys + 1
}

/// Where pixel `k` of a run goes: row by row through the window, over and
/// over.
pub open spec fn pixel_index(s: LcdState, k: int) -> int {
    (s.ys + (k / window_width(s)) % window_height(s)) * 320 + s.xs + k % window_width(s)
}

proof fn lemma_count_on(n: int, w: int)
    requires
        n >= 0,
        w > 0,
    ensures
        0 <= n % w < w,
        n / w >= 0,
        n % w == w - 1 ==> (n + 1) % w == 0 && (n + 1) / w == n / w + 1,
        n % w < w - 1 ==> (n + 1) % w == n % w + 1 && (n + 1) / w == n / w,
{
    vstd::arithmetic::div_mod::lemma_fundamental_div_mod(n, w);
    vstd::arithmetic::div_mod::lemma_mod_bound(n, w);
    vstd::arithmetic::div_mod::lemma_div_pos_is_pos(n, w);
    let q = n / w;
    if n % w == w - 1 {
        assert(n + 1 == (q + 1) * w + 0) by (nonlinear_arith)
            requires
                n == w * q + (w - 1),
        ;
        vstd::arithmetic::div_mod::lemma_fundamental_div_mod_converse(n + 1, w, q + 1, 0);
    } else {
        let r = n % w;
        assert(n + 1 == q * w + (r + 1)) by (nonlinear_arith)
            requires
                n == w * q + r,
        ;
        vstd::arithmetic::div_mod::lemma_fundamental_div_mod_converse(n + 1, w, q, r + 1);
    }
}

/// A run of pixels from the window's first corner on: the cursor goes through
/// the window row by row and starts over at its end, and pixel `n` of the run
/// is written where the cursor is.
pub proof fn law_cursor_walks_the_window(s: LcdState, px: Seq<u16>, n: int)
    requires
        s.wf(),
        s.xs <= s.xe,
        s.ys <= s.ye,
        s.cx == s.xs,
        s.cy == s.ys,
        0 <= n <= px.len(),
    ensures
        ({
            let t = drawn_all(s, px, n);
            &&& t.wf()
            &&& (t.xs, t.xe, t.ys, t.ye) == (s.xs, s.xe, s.ys, s.ye)
            &&& t.cx == s.xs + n % window_width(s)
            &&& t.cy == s.ys + (n / window_width(s)) % window_height(s)
            &&& t.cy * 320 + t.cx == pixel_index(s, n)
        }),
    decreases n,
{
    let w = window_width(s);
    let h = window_height(s);
    lemma_count_on(n, w);
    lemma_count_on(n / w, h);
    if n == 0 {
        vstd::arithmetic::div_mod::lemma_small_mod(0, w as nat);
        vstd::arithmetic::div_mod::lemma_small_mod(0, h as nat);
        vstd::arithmetic::div_mod::lemma_basic_div(0, w);
    } else {
        law_cursor_walks_the_window(s, px, n - 1);
        lemma_count_on(n - 1, w);
        lemma_count_on((n - 1) / w, h);
    }
}

/// Two pixels of a run that are less than a windowful apart go to two places.
proof fn lemma_pixel_index_distinct(s: LcdState, j: int, k: int)
    requires
        s.wf(),
        s.xs <= s.xe,
        s.ys <= s.ye,
        0 <= j < k < j + window_width(s) * window_height(s),
    ensures
        pixel_index(s, j) != pixel_index(s, k),
        0 <= pixel_index(s, k) < 76800,
{
    let w = window_width(s);
    let h = window_height(s);
    let (p, q) = (j / w, k / w);
    lemma_count_on(j, w);
    lemma_count_on(k, w);
    lemma_count_on(p, h);
    lemma_count_on(q, h);
    vstd::arithmetic::div_mod::lemma_fundamental_div_mod(j, w);
    vstd::arithmetic::div_mod::lemma_fundamental_div_mod(k, w);
    vstd::arithmetic::div_mod::lemma_fundamental_div_mod(p, h);
    vstd::arithmetic::div_mod::lemma_fundamental_div_mod(q, h);
    if pixel_index(s, j) == pixel_index(s, k) {
        assert(j % w == k % w && p % h == q % h);
        let rows = q - p;
        let windows = q / h - p / h;
        assert(0 < rows < h) by (nonlinear_arith)
            requires
                0 < k - j < w * h,
                k - j == w * q - w * p,
                rows == q - p,
                w > 0,
        ;
        assert(rows <= 0 || rows >= h) by (nonlinear_arith)
            requires
                rows == h * (q / h) - h * (p / h),
                windows == q / h - p / h,
                h > 0,
        ;
    }
}

/// A run of pixels of any length from the window's first corner on leaves
/// each of its last windowful in its place: pixel `k` at the `k`-th place of
/// the window, counted row by row, over and over.
pub proof fn law_pixels_fill_the_window(s: LcdState, px: Seq<u16>, n: int, k: int)
    requires
        s.wf(),
        s.xs <= s.xe,
        s.ys <= s.ye,
        s.cx == s.xs,
        s.cy == s.ys,
        0 <= k < n <= px.len(),
        n <= k + window_width(s) * window_height(s),
    ensures
        drawn_all(s, px, n).fb[pixel_index(s, k)] == px[k],
    decreases n,
{
    law_cursor_walks_the_window(s, px, n - 1);
    if k < n - 1 {
        law_pixels_fill_the_window(s, px, n - 1, k);
        lemma_pixel_index_distinct(s, k, n - 1);
    }
}

/// The display's pixels with pixel `k` of a run of `n` put at `pixel_index(s, k)`,
/// one after the other.
pub open spec fn painted(s: LcdState, px: Seq<u16>, n: int) -> Seq<u16>
    decreases n,
{
    if n <= 0 {
        s.fb
    } else {
        painted(s, px, n - 1).update(pixel_index(s, n - 1), px[n - 1])
    }
}

/// A run of pixels of any length from the window's first corner on: each goes
/// to its place in the window, in order, and past the window's end they
/// overwrite what the run put there before. The cursor and the pixels are all
/// that changes.
pub proof fn law_pixels_overwrite_in_order(s: LcdState, px: Seq<u16>, n: int)
    requires
        s.wf(),
        s.xs <= s.xe,
        s.ys <= s.ye,
        s.cx == s.xs,
        s.cy == s.ys,
        0 <= n <= px.len(),
    ensures
        drawn_all(s, px, n) == (LcdState {
            fb: painted(s, px, n),
            cx: (s.xs + n % window_width(s)) as u16,
            cy: (s.ys + (n / window_width(s)) % window_height(s)) as u16,
            ..s
        }),
    decreases n,
{
    law_cursor_walks_the_window(s, px, n);
    if n > 0 {
        law_cursor_walks_the_window(s, px, n - 1);
        law_pixels_overwrite_in_order(s, px, n - 1);
    }
}

/// A run of pixels changes nothing outside the window.
pub proof fn law_pixels_stay_in_the_window(s: LcdState, px: Seq<u16>, n: int, x: int, y: int)
    requires
        s.wf(),
        s.xs <= s.xe,
        s.ys <= s.ye,
        s.cx == s.xs,
        s.cy == s.ys,
        0 <= n <= px.len(),
        0 <= x < 320,
        0 <= y < 240,
        x < s.xs || x > s.xe || y < s.ys || y > s.ye,
    ensures
        drawn_all(s, px, n).fb[y * 320 + x] == s.fb[y * 320 + x],
    decreases n,
{
    if n > 0 {
        law_cursor_walks_the_window(s, px, n - 1);
        law_pixels_stay_in_the_window(s, px, n - 1, x, y);
        lemma_count_on(n - 1, window_width(s));
        lemma_count_on((n - 1) / window_width(s), window_height(s));
    }
}

/// Replacing byte `i` of a command word replaces `USR` where `i` is 3.
proof fn lemma_usr(cmd: u32, i: int, val: u8)
    requires
        0 <= i < 4,
    ensures
        bit(with_byte(cmd, i, val) as int, 24) == if i == 3 { val % 2 == 1 } else {
            bit(cmd as int, 24)
        },
        !bit(without_bit(with_byte(cmd, i, val), 24) as int, 24),
{
    let new = with_byte(cmd, i, val);
    crate::bits::lemma_bit_of_byte(cmd, 3, 0);
    crate::bits::lemma_bit_of_byte(new, 3, 0);
    crate::bits::law_with_byte(cmd, i, val, 3);
    crate::bits::lemma_other_bits(new, 24, 24);
}

/// Clearing `USR` takes one from an odd top byte and leaves the other three.
proof fn lemma_usr_cleared(word: u32, j: int)
    requires
        bit(word as int, 24),
        0 <= j < 4,
    ensures
        byte_at(without_bit(word, 24), j) == if j == 3 { (byte_at(word, 3) - 1) as u8 } else {
            byte_at(word, j)
        },
{
    let (b0, b1, b2, b3) = (byte_at(word, 0), byte_at(word, 1), byte_at(word, 2), byte_at(word, 3));
    crate::bits::law_word_of_its_bytes(word);
    crate::bits::lemma_bit_of_byte(word, 3, 0);
    assert(without_bit(word, 24) == le32(b0, b1, b2, (b3 - 1) as u8));
    crate::bits::law_bytes_of_word(b0, b1, b2, (b3 - 1) as u8);
}

/// `USR` never reads as set: the write that sets it starts a transfer and
/// leaves it clear, and so does the transfer.
pub proof fn law_usr_reads_clear(s: SpiState, offset: u32, val: u8, dc_low: bool)
    requires
        s.wf(),
    ensures
        s.byte((CMD_REG + 3) as u32) % 2 == 0,
        s.written(offset, val).wf(),
        s.written(offset, val).transferred(dc_low).wf(),
        s.written(offset, val).byte((CMD_REG + 3) as u32) % 2 == 0,
        s.written(offset, val).transferred(dc_low).byte((CMD_REG + 3) as u32) % 2 == 0,
{
    let t = s.written(offset, val);
    lemma_usr(s.cmd, offset as int % 4, val);
    crate::bits::lemma_bit_of_byte(s.cmd, 3, 0);
    crate::bits::lemma_bit_of_byte(t.cmd, 3, 0);
    law_display_stays_on_the_panel(t.lcd, dc_low, t.payload(), t.payload_len());
}

/// Every named register reads back what was written to it, but for `USR`,
/// which reads as clear; a write changes no other byte of the block.
pub proof fn law_spi_registers_hold(s: SpiState, offset: u32, val: u8, other: u32)
    requires
        s.wf(),
    ensures
        ({
            let reg = (offset - offset % 4) as u32;
            (reg == CMD_REG || reg == USER_REG || reg == MS_DLEN_REG || SpiState::is_data(reg))
                ==> s.written(offset, val).byte(offset) == if offset == CMD_REG + 3 {
                (val - val % 2) as u8
            } else {
                val
            }
        }),
        other != offset ==> s.written(offset, val).byte(other) == s.byte(other),
{
    let word = s.word((offset - offset % 4) as u32);
    let i = offset as int % 4;
    crate::bits::law_with_byte(word, i, val, i);
    crate::bits::law_with_byte(word, i, val, other as int % 4);
    if SpiState::triggers(offset, val) {
        lemma_usr(s.cmd, 3, val);
        lemma_usr_cleared(with_byte(s.cmd, 3, val), 3);
        lemma_usr_cleared(with_byte(s.cmd, 3, val), other as int % 4);
    }
}

// ---------------------------------------------------------------------
// Transfers
// ---------------------------------------------------------------------

/// The controller after the first `n` of `bytes` were written to the register
/// block from `at` on, one by one.
pub open spec fn filled_from(s: SpiState, at: u32, bytes: Seq<u8>, n: int) -> SpiState
    decreases n,
{
    if n <= 0 {
        s
    } else {
        filled_from(s, at, bytes, n - 1).written((at + n - 1) as u32, bytes[n - 1])
    }
}

/// The data that a transfer of `n` bytes sends is what the block reads from
/// its data words on.
proof fn lemma_payload_reads(s: SpiState, i: int)
    requires
        s.wf(),
        0 <= i < s.payload_len(),
    ensures
        s.payload()[i] == s.byte((0x98 + i) as u32),
{
    let offset = (0x98 + i) as u32;
    assert(offset % 4 == i % 4);
    assert(SpiState::data_index((offset - offset % 4) as u32) == i / 4);
}

proof fn lemma_filled_from(s: SpiState, at: u32, bytes: Seq<u8>, n: int, j: int)
    requires
        s.wf(),
        0 <= n <= bytes.len(),
        0x98 <= at,
        at + n <= 0xd8,
    ensures
        ({
            let t = filled_from(s, at, bytes, n);
            &&& t.wf()
            &&& t.lcd == s.lcd
            &&& t.ms_dlen == s.ms_dlen
            &&& 0 <= j < n ==> t.byte((at + j) as u32) == bytes[j]
        }),
    decreases n,
{
    if n > 0 {
        lemma_filled_from(s, at, bytes, n - 1, j);
        let before = filled_from(s, at, bytes, n - 1);
        let last = (at + n - 1) as u32;
        law_usr_reads_clear(before, last, bytes[n - 1], false);
        lemma_is_data(last);
        law_spi_registers_hold(before, last, bytes[n - 1], (at + j) as u32);
    }
}

proof fn lemma_is_data(offset: u32)
    requires
        0x98 <= offset < 0xd8,
    ensures
        SpiState::is_data((offset - offset % 4) as u32),
        offset - offset % 4 != CMD_REG,
{
}

/// The controller after the word `v` was written to the length register, a
/// byte at a time. Opaque: reveal it to work out a particular write.
#[verifier::opaque]
pub open spec fn with_length(s: SpiState, v: u32) -> SpiState {
    s.written(0x1c, byte_at(v, 0)).written(0x1d, byte_at(v, 1)).written(
        0x1e,
        byte_at(v, 2),
    ).written(0x1f, byte_at(v, 3))
}

proof fn lemma_length_byte(s: SpiState, i: u32, val: u8)
    requires
        i < 4,
    ensures
        s.written((0x1c + i) as u32, val) == (SpiState {
            ms_dlen: with_byte(s.ms_dlen, i as int, val),
            ..s
        }),
{
    assert((0x1c + i) % 4 == i);
}

proof fn lemma_with_length(s: SpiState, v: u32)
    ensures
        with_length(s, v) == (SpiState { ms_dlen: v, ..s }),
{
    reveal(with_length);
    let (b0, b1, b2, b3) = (byte_at(v, 0), byte_at(v, 1), byte_at(v, 2), byte_at(v, 3));
    lemma_length_byte(s, 0, b0);
    let s0 = s.written(0x1c, b0);
    lemma_length_byte(s0, 1, b1);
    let s1 = s0.written(0x1d, b1);
    lemma_length_byte(s1, 2, b2);
    let s2 = s1.written(0x1e, b2);
    lemma_length_byte(s2, 3, b3);
    crate::bits::lemma_all_bytes_replaced(s.ms_dlen, v);
}

/// Bytes written one by one to the register block from `0x98` on, up to the 64
/// that fit, are what a transfer of that many bits hands to the display, in
/// order, and they can be read back there. Nothing else of the controller
/// changes.
pub proof fn law_transfer_sends_what_was_written(s: SpiState, bytes: Seq<u8>, dc_low: bool)
    requires
        s.wf(),
        1 <= bytes.len() <= 64,
    ensures
        ({
            let n = bytes.len() as int;
            let t = with_length(filled_from(s, 0x98, bytes, n), (8 * n - 1) as u32);
            &&& t.lcd == s.lcd
            &&& forall|i: int| 0 <= i < n ==> t.byte(#[trigger] ((0x98 + i) as u32)) == bytes[i]
            &&& t.transferred(dc_low) == (SpiState {
                lcd: s.lcd.received(dc_low, bytes, n),
                ..t
            })
        }),
{
    let n = bytes.len() as int;
    let f = filled_from(s, 0x98, bytes, n);
    let t = with_length(f, (8 * n - 1) as u32);
    lemma_with_length(f, (8 * n - 1) as u32);
    lemma_filled_from(s, 0x98, bytes, n, 0);
    assert(t.payload_len() == n);
    assert forall|i: int| 0 <= i < n implies t.byte(#[trigger] ((0x98 + i) as u32)) == bytes[i] by {
        lemma_filled_from(s, 0x98, bytes, n, i);
        lemma_is_data((0x98 + i) as u32);
    }
    assert(t.payload() =~= bytes) by {
        assert forall|i: int| 0 <= i < n implies t.payload()[i] == bytes[i] by {
            lemma_payload_reads(t, i);
            assert(t.byte((0x98 + i) as u32) == bytes[i]);
        }
    }
}

/// A transfer sends as many bytes as hold the bits that the lower 18 bits of
/// the length register give, less one, but never more than 64; which bytes,
/// the block shows from `0x98` on.
pub proof fn law_transfer_length(s: SpiState, v: u32, dc_low: bool, bytes: Seq<u8>)
    requires
        s.wf(),
        ({
            let wanted = v as int % 0x4_0000 + 1;
            let n = bytes.len() as int;
            n == 64 && wanted > 504 || n <= 64 && 8 * (n - 1) < wanted <= 8 * n
        }),
        forall|i: int|
            0 <= i < bytes.len() ==> #[trigger] bytes[i] == s.byte((0x98 + i) as u32),
    ensures
        with_length(s, v).transferred(dc_low).lcd == s.lcd.received(
            dc_low,
            bytes,
            bytes.len() as int,
        ),
{
    let t = with_length(s, v);
    lemma_with_length(s, v);
    assert(t.payload_len() == bytes.len());
    assert(t.payload() =~= bytes) by {
        assert forall|i: int| 0 <= i < bytes.len() implies t.payload()[i] == bytes[i] by {
            lemma_payload_reads(t, i);
            lemma_is_data((0x98 + i) as u32);
            assert(bytes[i] == s.byte((0x98 + i) as u32));
        }
    }
}

/// A transfer starts with a write to the fourth byte of the block that has bit
/// 0 set, and with nothing else; the write itself draws nothing.
pub proof fn law_what_starts_a_transfer(s: SpiState, offset: u32, val: u8)
    ensures
        SpiState::triggers(offset, val) <==> offset == 3 && bit(val as int, 0),
        s.written(offset, val).lcd == s.lcd,
{
}

// ---------------------------------------------------------------------
// The display
// ---------------------------------------------------------------------

/// A transfer of commands leaves the last of them in force. It draws nothing,
/// keeps the window, and drops whatever was incomplete; after `0x2c` the next
/// pixel goes to the window's first corner, after any other command to where
/// it would have gone.
pub proof fn law_commands(s: LcdState, bytes: Seq<u8>, n: int)
    requires
        1 <= n <= bytes.len(),
    ensures
        ({
            let t = s.received(true, bytes, n);
            &&& t.command == Some(bytes[n - 1])
            &&& t.fb == s.fb
            &&& (t.xs, t.xe, t.ys, t.ye) == (s.xs, s.xe, s.ys, s.ye)
            &&& t.caset.len() == 0 && t.raset.len() == 0 && t.pending is None
            &&& bytes[n - 1] == 0x2c ==> t.cx == s.xs && t.cy == s.ys
            &&& n == 1 && bytes[0] != 0x2c ==> t.cx == s.cx && t.cy == s.cy
        }),
    decreases n,
{
    if n > 1 {
        law_commands(s, bytes, n - 1);
    } else {
        assert(s.received(true, bytes, 0) == s);
    }
}

/// The two bytes of a number, high byte first.
pub open spec fn sent_number(v: u16) -> Seq<u8> {
    seq![(v as int / 0x100) as u8, (v as int % 0x100) as u8]
}

/// After the command `0x2a` four bytes give the first and the last column of
/// the window, after `0x2b` the first and the last row: two numbers, each high
/// byte first, cut off at the edge of the panel of 320 by 240. Fewer bytes
/// change nothing yet. The pixels and the place of the next one stay, and more
/// bytes can follow.
pub proof fn law_window_is_what_was_sent(s: LcdState, first: u16, last: u16)
    requires
        s.caset.len() == 0,
        s.raset.len() == 0,
    ensures
        ({
            let p = sent_number(first) + sent_number(last);
            let t = s.received(false, p, 4);
            s.command == Some(0x2au8) ==> t == (LcdState {
                xs: if first < 320 { first } else { 319 },
                xe: if last < 320 { last } else { 319 },
                caset: Seq::empty(),
                ..s
            })
        }),
        ({
            let p = sent_number(first) + sent_number(last);
            let t = s.received(false, p, 4);
            s.command == Some(0x2bu8) ==> t == (LcdState {
                ys: if first < 240 { first } else { 239 },
                ye: if last < 240 { last } else { 239 },
                raset: Seq::empty(),
                ..s
            })
        }),
        forall|k: int|
            0 <= k < 4 && (s.command == Some(0x2au8) || s.command == Some(0x2bu8)) ==> {
                let t = #[trigger] s.received(
                    false,
                    sent_number(first) + sent_number(last),
                    k,
                );
                &&& (t.xs, t.xe, t.ys, t.ye) == (s.xs, s.xe, s.ys, s.ye)
                &&& t.fb == s.fb && t.cx == s.cx && t.cy == s.cy
            },
{
    let p = sent_number(first) + sent_number(last);
    assert(p[0] == (first as int / 0x100) as u8 && p[1] == (first as int % 0x100) as u8);
    assert(p[2] == (last as int / 0x100) as u8 && p[3] == (last as int % 0x100) as u8);
    assert(be16(p[0], p[1]) == first && be16(p[2], p[3]) == last);
    assert(s.caset =~= Seq::empty() && s.raset =~= Seq::empty());
    let s0 = s.received(false, p, 0);
    let s1 = s.received(false, p, 1);
    let s2 = s.received(false, p, 2);
    let s3 = s.received(false, p, 3);
    let s4 = s.received(false, p, 4);
    assert(s0 == s);
    assert(s1 == s.fed(p[0]));
    assert(s2 == s1.fed(p[1]));
    assert(s3 == s2.fed(p[2]));
    assert(s4 == s3.fed(p[3]));
    if s.command == Some(0x2au8) {
        assert(s4 =~= (LcdState {
            xs: if first < 320 { first } else { 319 },
            xe: if last < 320 { last } else { 319 },
            caset: Seq::empty(),
            ..s
        }));
    }
    if s.command == Some(0x2bu8) {
        assert(s4 =~= (LcdState {
            ys: if first < 240 { first } else { 239 },
            ye: if last < 240 { last } else { 239 },
            raset: Seq::empty(),
            ..s
        }));
    }
    assert forall|k: int|
        0 <= k < 4 && (s.command == Some(0x2au8) || s.command == Some(0x2bu8)) implies ({
        let t = #[trigger] s.received(false, p, k);
        &&& (t.xs, t.xe, t.ys, t.ye) == (s.xs, s.xe, s.ys, s.ye)
        &&& t.fb == s.fb && t.cx == s.cx && t.cy == s.cy
    }) by {
        assert(k == 0 || k == 1 || k == 2 || k == 3);
    }
}

/// Where the place after column `x`, row `y` is: the next column, but from the
/// window's last column or past it the first column of the next row, and from
/// there in the last row or past it the first row.
pub open spec fn is_next_place(s: LcdState, x: int, y: int, nx: int, ny: int) -> bool {
    if x < s.xe {
        nx == x + 1 && ny == y
    } else {
        nx == s.xs && ny == if y < s.ye { y + 1 } else { s.ys as int }
    }
}

/// After `0x2c` every two bytes are a pixel, high byte first: it is drawn at
/// the cursor, no other pixel changes, and the cursor moves on to the next
/// place, wherever it was and whatever the window is.
pub proof fn law_a_pixel_is_drawn_at_the_cursor(s: LcdState, px: u16, i: int)
    requires
        s.wf(),
        s.command == Some(0x2cu8),
        s.pending is None,
        0 <= i < 76800,
    ensures
        ({
            let t = s.received(false, sent_number(px), 2);
            &&& t.fb[i] == if i == 320 * s.cy + s.cx { px } else { s.fb[i] }
            &&& t.fb.len() == 76800
            &&& is_next_place(s, s.cx as int, s.cy as int, t.cx as int, t.cy as int)
            &&& t == (LcdState { fb: t.fb, cx: t.cx, cy: t.cy, ..s })
        }),
{
    let p = sent_number(px);
    assert(be16(p[0], p[1]) == px);
    let s1 = s.received(false, p, 1);
    assert(s.received(false, p, 0) == s);
    assert(s1 == s.fed(p[0]));
    assert(s.received(false, p, 2) == s1.fed(p[1]));
    assert(LcdState { pending: None, ..s1 } =~= s);
}

/// Half a pixel draws nothing: the byte waits for the next one.
pub proof fn law_half_a_pixel_waits(s: LcdState, b: u8)
    requires
        s.command == Some(0x2cu8),
        s.pending is None,
    ensures
        s.received(false, seq![b], 1) == (LcdState { pending: Some(b), ..s }),
{
    assert(s.received(false, seq![b], 0) == s);
}

/// Data without a command, or for one that is none of the three, does nothing.
pub proof fn law_data_without_a_use(s: LcdState, bytes: Seq<u8>, n: int)
    requires
        s.command matches Some(c) ==> c < 0x2a || c > 0x2c,
    ensures
        s.received(false, bytes, n) == s,
{
    law_other_commands_ignore_data(s, bytes, n);
}

/// The display out of reset: black, the whole panel as the window, no command.
pub proof fn law_display_reset(i: int)
    requires
        0 <= i < 76800,
    ensures
        ({
            let s = lcd_reset();
            &&& s.wf()
            &&& s.fb[i] == 0
            &&& s.command is None && s.pending is None
            &&& (s.xs, s.xe, s.ys, s.ye) == (0u16, 319u16, 0u16, 239u16)
            &&& (s.cx, s.cy) == (0u16, 0u16)
        }),
        spi_reset().wf(),
        spi_reset().lcd == lcd_reset(),
{
    assert(!bit(0, 24));
}

/// Which registers there are, and that they read 0 out of reset.
pub proof fn law_spi_register_map(s: SpiState, offset: u32, val: u8)
    ensures
        ({
            let reg = offset - offset % 4;
            let named = reg == 0 || reg == 0x10 || reg == 0x1c || 0x98 <= reg <= 0xd4;
            !named ==> s.byte(offset) == 0 && s.written(offset, val) == s
        }),
        spi_reset().byte(offset) == 0,
{
    assert(byte_at(0, offset as int % 4) == 0);
}

} // verus!
