//! The keyboard and the mouse behind the PS/2 controller.

use vstd::prelude::*;

verus! {

pub const STATUS_OUTPUT_FULL: u8 = 0x01;

pub const STATUS_INPUT_FULL: u8 = 0x02;

pub const STATUS_AUXILIARY_DATA: u8 = 0x20;

pub const CONTROLLER_READ_CONFIG: u8 = 0x20;

pub const CONTROLLER_WRITE_CONFIG: u8 = 0x60;

pub const CONTROLLER_ENABLE_AUXILIARY: u8 = 0xa8;

pub const CONTROLLER_WRITE_AUXILIARY: u8 = 0xd4;

/// All bits but the one that disables the mouse.
pub const CONFIG_AUXILIARY_ENABLED: u8 = 0xdf;

pub const MOUSE_ACKNOWLEDGED: u8 = 0xfa;

pub const MOUSE_SET_DEFAULTS: u8 = 0xf6;

pub const MOUSE_ENABLE_STREAMING: u8 = 0xf4;

pub const MOUSE_IDENTIFY: u8 = 0xf2;

pub const PS2_WAIT_LIMIT: usize = 100_000;

pub const PS2_DRAIN_LIMIT: usize = 64;

/// What a key does.
#[derive(Debug, Clone, Copy, PartialEq, Eq, Structural)]
pub enum DesktopInput {
    MoveUp,
    MoveDown,
    MoveLeft,
    MoveRight,
    Exit,
    Backspace,
    CycleFocus,
    Submit,
    Character(char),
}

/// What the mouse did.
#[derive(Debug, Clone, Copy, PartialEq, Eq, Structural)]
pub struct PointerSample {
    pub delta_x: i32,
    pub delta_y: i32,
    pub left_button: bool,
    pub right_button: bool,
}

/// What is known of the mouse.
#[derive(Debug, Clone, Copy, PartialEq, Eq, Structural)]
pub struct Ps2PointerStatus {
    pub enabled: bool,
    pub device_id: Option<u8>,
    pub acknowledgements: u8,
}

/// What came from the keyboard or the mouse.
#[derive(Debug, Clone, Copy, PartialEq, Eq, Structural)]
pub enum Ps2Event {
    Keyboard(DesktopInput),
    Pointer(PointerSample),
}

/// The letter that a key bears, small and capital.
pub open spec fn letter(code: u8) -> Option<(char, char)> {
    match code {
        0x10 => Some(('q', 'Q')),
        0x11 => Some(('w', 'W')),
        0x12 => Some(('e', 'E')),
        0x13 => Some(('r', 'R')),
        0x14 => Some(('t', 'T')),
        0x15 => Some(('y', 'Y')),
        0x16 => Some(('u', 'U')),
        0x17 => Some(('i', 'I')),
        0x18 => Some(('o', 'O')),
        0x19 => Some(('p', 'P')),
        0x1e => Some(('a', 'A')),
        0x1f => Some(('s', 'S')),
        0x20 => Some(('d', 'D')),
        0x21 => Some(('f', 'F')),
        0x22 => Some(('g', 'G')),
        0x23 => Some(('h', 'H')),
        0x24 => Some(('j', 'J')),
        0x25 => Some(('k', 'K')),
        0x26 => Some(('l', 'L')),
        0x2c => Some(('z', 'Z')),
        0x2d => Some(('x', 'X')),
        0x2e => Some(('c', 'C')),
        0x2f => Some(('v', 'V')),
        0x30 => Some(('b', 'B')),
        0x31 => Some(('n', 'N')),
        0x32 => Some(('m', 'M')),
        _ => None,
    }
}

/// The digit or sign that a key bears, without and with shift.
pub open spec fn sign(code: u8) -> Option<(char, char)> {
    match code {
        0x02 => Some(('1', '!')),
        0x03 => Some(('2', '@')),
        0x04 => Some(('3', '#')),
        0x05 => Some(('4', '$')),
        0x06 => Some(('5', '%')),
        0x07 => Some(('6', '^')),
        0x08 => Some(('7', '&')),
        0x09 => Some(('8', '*')),
        0x0a => Some(('9', '(')),
        0x0b => Some(('0', ')')),
        0x0c => Some(('-', '_')),
        0x0d => Some(('=', '+')),
        0x1a => Some(('[', '{')),
        0x1b => Some((']', '}')),
        0x27 => Some((';', ':')),
        0x28 => Some(('\'', '"')),
        0x29 => Some(('`', '~')),
        0x2b => Some(('\\', '|')),
        0x33 => Some((',', '<')),
        0x34 => Some(('.', '>')),
        0x35 => Some(('/', '?')),
        0x39 => Some((' ', ' ')),
        _ => None,
    }
}

/// What a key types. Letters heed shift and caps lock, which cancel each other; all other keys heed
/// shift alone.
pub open spec fn printable(code: u8, shift: bool, caps_lock: bool) -> Option<char> {
    match letter(code) {
        Some(pair) => Some(if shift != caps_lock { pair.1 } else { pair.0 }),
        None => match sign(code) {
            Some(pair) => Some(if shift { pair.1 } else { pair.0 }),
            None => None,
        },
    }
}

fn letter_on(code: u8) -> (pair: Option<(char, char)>)
    ensures
        pair == letter(code),
{
    match code {
        0x10 => Some(('q', 'Q')),
        0x11 => Some(('w', 'W')),
        0x12 => Some(('e', 'E')),
        0x13 => Some(('r', 'R')),
        0x14 => Some(('t', 'T')),
        0x15 => Some(('y', 'Y')),
        0x16 => Some(('u', 'U')),
        0x17 => Some(('i', 'I')),
        0x18 => Some(('o', 'O')),
        0x19 => Some(('p', 'P')),
        0x1e => Some(('a', 'A')),
        0x1f => Some(('s', 'S')),
        0x20 => Some(('d', 'D')),
        0x21 => Some(('f', 'F')),
        0x22 => Some(('g', 'G')),
        0x23 => Some(('h', 'H')),
        0x24 => Some(('j', 'J')),
        0x25 => Some(('k', 'K')),
        0x26 => Some(('l', 'L')),
        0x2c => Some(('z', 'Z')),
        0x2d => Some(('x', 'X')),
        0x2e => Some(('c', 'C')),
        0x2f => Some(('v', 'V')),
        0x30 => Some(('b', 'B')),
        0x31 => Some(('n', 'N')),
        0x32 => Some(('m', 'M')),
        _ => None,
    }
}

fn sign_on(code: u8) -> (pair: Option<(char, char)>)
    ensures
        pair == sign(code),
{
    match code {
        0x02 => Some(('1', '!')),
        0x03 => Some(('2', '@')),
        0x04 => Some(('3', '#')),
        0x05 => Some(('4', '$')),
        0x06 => Some(('5', '%')),
        0x07 => Some(('6', '^')),
        0x08 => Some(('7', '&')),
        0x09 => Some(('8', '*')),
        0x0a => Some(('9', '(')),
        0x0b => Some(('0', ')')),
        0x0c => Some(('-', '_')),
        0x0d => Some(('=', '+')),
        0x1a => Some(('[', '{')),
        0x1b => Some((']', '}')),
        0x27 => Some((';', ':')),
        0x28 => Some(('\'', '"')),
        0x29 => Some(('`', '~')),
        0x2b => Some(('\\', '|')),
        0x33 => Some((',', '<')),
        0x34 => Some(('.', '>')),
        0x35 => Some(('/', '?')),
        0x39 => Some((' ', ' ')),
        _ => None,
    }
}

/// What a key types.
pub fn map_printable(code: u8, shift: bool, caps_lock: bool) -> (character: Option<char>)
    ensures
        character == printable(code, shift, caps_lock),
{
    match letter_on(code) {
        Some((small, capital)) => {
            return Some(
                if shift != caps_lock {
                    capital
                } else {
                    small
                },
            );
        },
        None => {},
    }
    match sign_on(code) {
        Some((plain, shifted)) => Some(
            if shift {
                shifted
            } else {
                plain
            },
        ),
        None => None,
    }
}

/// The keyboard's decoder: which shift keys are down, whether caps lock is on, and whether the code of
/// an arrow key comes next.
#[derive(Debug, Clone, Copy, PartialEq, Eq, Structural)]
pub struct Ps2Set1Decoder {
    pub extended: bool,
    pub left_shift: bool,
    pub right_shift: bool,
    pub caps_lock: bool,
}

/// What an arrow key does.
pub open spec fn arrow(code: u8) -> Option<DesktopInput> {
    match code {
        0x48 => Some(DesktopInput::MoveUp),
        0x50 => Some(DesktopInput::MoveDown),
        0x4b => Some(DesktopInput::MoveLeft),
        0x4d => Some(DesktopInput::MoveRight),
        _ => None,
    }
}

/// What a key does that is pressed.
pub open spec fn pressed(decoder: Ps2Set1Decoder, code: u8) -> Option<DesktopInput> {
    match code {
        0x01 => Some(DesktopInput::Exit),
        0x0e => Some(DesktopInput::Backspace),
        0x0f => Some(DesktopInput::CycleFocus),
        0x1c => Some(DesktopInput::Submit),
        _ => match printable(code, decoder.left_shift || decoder.right_shift, decoder.caps_lock) {
            Some(character) => Some(DesktopInput::Character(character)),
            None => None,
        },
    }
}

/// What a code from the keyboard comes to.
pub open spec fn decoded(decoder: Ps2Set1Decoder, scancode: u8) -> (
    Ps2Set1Decoder,
    Option<DesktopInput>,
) {
    let released = scancode >= 0x80;
    let code = (scancode % 0x80) as u8;
    let next = Ps2Set1Decoder { extended: false, ..decoder };
    if scancode == 0xe0 {
        (Ps2Set1Decoder { extended: true, ..decoder }, None)
    } else if decoder.extended {
        (
            next,
            if released {
                None
            } else {
                arrow(code)
            },
        )
    } else if code == 0x2a {
        (Ps2Set1Decoder { left_shift: !released, ..next }, None)
    } else if code == 0x36 {
        (Ps2Set1Decoder { right_shift: !released, ..next }, None)
    } else if released {
        (next, None)
    } else if code == 0x3a {
        (Ps2Set1Decoder { caps_lock: !decoder.caps_lock, ..next }, None)
    } else {
        (next, pressed(decoder, code))
    }
}

impl Ps2Set1Decoder {
    /// No key is down.
    pub fn new() -> (decoder: Ps2Set1Decoder)
        ensures
            decoder == (Ps2Set1Decoder {
                extended: false,
                left_shift: false,
                right_shift: false,
                caps_lock: false,
            }),
    {
        Ps2Set1Decoder { extended: false, left_shift: false, right_shift: false, caps_lock: false }
    }

    /// Takes a code from the keyboard.
    pub fn feed(&mut self, scancode: u8) -> (input: Option<DesktopInput>)
        ensures
            (*final(self), input) == decoded(*old(self), scancode),
    {
        if scancode == 0xe0 {
            self.extended = true;
            return None;
        }
        let extended: bool = self.extended;
        self.extended = false;
        let released: bool = scancode >= 0x80;
        let code: u8 = scancode % 0x80;
        if extended {
            if released {
                return None;
            }
            return match code {
                0x48 => Some(DesktopInput::MoveUp),
                0x50 => Some(DesktopInput::MoveDown),
                0x4b => Some(DesktopInput::MoveLeft),
                0x4d => Some(DesktopInput::MoveRight),
                _ => None,
            };
        }
        if code == 0x2a {
            self.left_shift = !released;
            return None;
        }
        if code == 0x36 {
            self.right_shift = !released;
            return None;
        }
        if released {
            return None;
        }
        if code == 0x3a {
            self.caps_lock = !self.caps_lock;
            return None;
        }
        match code {
            0x01 => Some(DesktopInput::Exit),
            0x0e => Some(DesktopInput::Backspace),
            0x0f => Some(DesktopInput::CycleFocus),
            0x1c => Some(DesktopInput::Submit),
            _ => match map_printable(code, self.left_shift || self.right_shift, self.caps_lock) {
                Some(character) => Some(DesktopInput::Character(character)),
                None => None,
            },
        }
    }
}

impl Default for Ps2Set1Decoder {
    fn default() -> (decoder: Ps2Set1Decoder)
        ensures
            decoder == (Ps2Set1Decoder {
                extended: false,
                left_shift: false,
                right_shift: false,
                caps_lock: false,
            }),
    {
        Ps2Set1Decoder::new()
    }
}

/// Letting a key go does nothing but, for a shift key, end the shift.
pub proof fn a_released_key_does_nothing(decoder: Ps2Set1Decoder, scancode: u8)
    requires
        scancode >= 0x80,
    ensures
        decoded(decoder, scancode).1 is None,
        decoded(decoder, scancode).0.caps_lock == decoder.caps_lock,
{
}

/// Shift and caps lock together type small letters.
pub proof fn shift_and_caps_lock_cancel(code: u8)
    ensures
        letter(code) is Some ==> printable(code, true, true) == printable(code, false, false),
{
}

/// The mouse's decoder: the bytes of the packet that is coming in.
#[derive(Debug, Clone, Copy, PartialEq, Eq)]
pub struct Ps2MouseDecoder {
    pub packet: [u8; 3],
    pub packet_index: usize,
}

/// How far the mouse moved along an axis, by a byte and its sign bit.
pub open spec fn mouse_delta(byte: u8, negative: bool) -> int {
    if negative && byte >= 0x80 {
        byte - 0x100
    } else {
        byte as int
    }
}

/// What a whole packet says; one that says the mouse moved too far says nothing. The mouse counts
/// upwards, the screen downwards.
pub open spec fn packet_sample(packet: Seq<u8>) -> Option<PointerSample> {
    let header = packet[0];
    if header & 0xc0 != 0 {
        None
    } else {
        Some(
            PointerSample {
                delta_x: mouse_delta(packet[1], header & 0x10 != 0) as i32,
                delta_y: (-mouse_delta(packet[2], header & 0x20 != 0)) as i32,
                left_button: header & 0x01 != 0,
                right_button: header & 0x02 != 0,
            },
        )
    }
}

/// How far the mouse moved along an axis, by a byte and its sign bit.
pub fn sign_extend_mouse_delta(byte: u8, negative: bool) -> (delta: i32)
    ensures
        delta == mouse_delta(byte, negative),
{
    if negative && byte >= 0x80 {
        byte as i32 - 0x100
    } else {
        byte as i32
    }
}

impl Ps2MouseDecoder {
    /// A packet is never complete between two bytes.
    pub open spec fn well_formed(&self) -> bool {
        self.packet_index < 3
    }

    /// No packet is coming in.
    pub fn new() -> (decoder: Ps2MouseDecoder)
        ensures
            decoder.well_formed(),
            decoder.packet_index == 0,
            decoder.packet@ == seq![0u8, 0u8, 0u8],
    {
        let packet: [u8; 3] = [0, 0, 0];
        assert(packet@ =~= seq![0u8, 0u8, 0u8]);
        Ps2MouseDecoder { packet, packet_index: 0 }
    }

    /// Takes a byte from the mouse. A packet begins with a byte whose fourth bit is set.
    pub fn feed(&mut self, byte: u8) -> (sample: Option<PointerSample>)
        requires
            old(self).well_formed(),
        ensures
            final(self).well_formed(),
            if old(self).packet_index == 0 && byte & 0x08 == 0 {
                sample is None && final(self).packet@ == old(self).packet@
                    && final(self).packet_index == 0
            } else {
                let packet = old(self).packet@.update(old(self).packet_index as int, byte);
                &&& final(self).packet@ == packet
                &&& final(self).packet_index == if old(self).packet_index == 2 {
                    0
                } else {
                    old(self).packet_index + 1
                }
                &&& sample == if old(self).packet_index == 2 {
                    packet_sample(packet)
                } else {
                    None
                }
            },
    {
        if self.packet_index == 0 && byte & 0x08 == 0 {
            return None;
        }
        self.packet[self.packet_index] = byte;
        self.packet_index += 1;
        if self.packet_index < 3 {
            return None;
        }
        self.packet_index = 0;
        let header: u8 = self.packet[0];
        if header & 0xc0 != 0 {
            return None;
        }
        let delta_x: i32 = sign_extend_mouse_delta(self.packet[1], header & 0x10 != 0);
        let up: i32 = sign_extend_mouse_delta(self.packet[2], header & 0x20 != 0);
        Some(
            PointerSample {
                delta_x,
                delta_y: -up,
                left_button: header & 0x01 != 0,
                right_button: header & 0x02 != 0,
            },
        )
    }
}

impl Default for Ps2MouseDecoder {
    fn default() -> (decoder: Ps2MouseDecoder)
        ensures
            decoder.well_formed(),
            decoder.packet_index == 0,
            decoder.packet@ == seq![0u8, 0u8, 0u8],
    {
        Ps2MouseDecoder::new()
    }
}

/// Whether the controller holds a byte.
pub fn output_full(status: u8) -> (full: bool)
    ensures
        full == (status & STATUS_OUTPUT_FULL != 0),
{
    status & STATUS_OUTPUT_FULL != 0
}

/// Whether the controller still has a byte to take.
pub fn input_full(status: u8) -> (full: bool)
    ensures
        full == (status & STATUS_INPUT_FULL != 0),
{
    status & STATUS_INPUT_FULL != 0
}

/// Whether the byte that the controller holds comes from the mouse.
pub fn from_mouse(status: u8) -> (result: bool)
    ensures
        result == (status & STATUS_AUXILIARY_DATA != 0),
{
    status & STATUS_AUXILIARY_DATA != 0
}

/// What is done after one look at the controller's status.
#[derive(Debug, Clone, Copy, PartialEq, Eq, Structural)]
pub enum ControllerStep {
    /// Write or read the byte now.
    Proceed,
    /// Read the byte and drop it, then look again.
    Discard,
    /// Look again.
    Again,
    /// Look no more.
    Stop,
}

/// Whether a byte can be written to the controller, after so many looks before.
pub fn wait_until_controller_input_clear(looks: usize, status: u8) -> (step: ControllerStep)
    ensures
        step == if looks >= PS2_WAIT_LIMIT {
            ControllerStep::Stop
        } else if status & STATUS_INPUT_FULL == 0 {
            ControllerStep::Proceed
        } else {
            ControllerStep::Again
        },
{
    if looks >= PS2_WAIT_LIMIT {
        ControllerStep::Stop
    } else if !input_full(status) {
        ControllerStep::Proceed
    } else {
        ControllerStep::Again
    }
}

/// Whether a byte can be read from the controller, after so many looks before.
pub fn read_any_data_byte(looks: usize, status: u8) -> (step: ControllerStep)
    ensures
        step == if looks >= PS2_WAIT_LIMIT {
            ControllerStep::Stop
        } else if status & STATUS_OUTPUT_FULL != 0 {
            ControllerStep::Proceed
        } else {
            ControllerStep::Again
        },
{
    if looks >= PS2_WAIT_LIMIT {
        ControllerStep::Stop
    } else if output_full(status) {
        ControllerStep::Proceed
    } else {
        ControllerStep::Again
    }
}

/// Whether a byte of the mouse can be read from the controller, after so many looks before. Those of the
/// keyboard are dropped.
pub fn read_auxiliary_data_byte(looks: usize, status: u8) -> (step: ControllerStep)
    ensures
        step == if looks >= PS2_WAIT_LIMIT {
            ControllerStep::Stop
        } else if status & STATUS_OUTPUT_FULL == 0 {
            ControllerStep::Again
        } else if status & STATUS_AUXILIARY_DATA != 0 {
            ControllerStep::Proceed
        } else {
            ControllerStep::Discard
        },
{
    if looks >= PS2_WAIT_LIMIT {
        ControllerStep::Stop
    } else if !output_full(status) {
        ControllerStep::Again
    } else if from_mouse(status) {
        ControllerStep::Proceed
    } else {
        ControllerStep::Discard
    }
}

/// Whether the controller still holds bytes that are to be dropped, after so many looks before.
pub fn drain_ps2_output(looks: usize, status: u8) -> (step: ControllerStep)
    ensures
        step == if looks >= PS2_DRAIN_LIMIT || status & STATUS_OUTPUT_FULL == 0 {
            ControllerStep::Stop
        } else {
            ControllerStep::Discard
        },
{
    if looks >= PS2_DRAIN_LIMIT || !output_full(status) {
        ControllerStep::Stop
    } else {
        ControllerStep::Discard
    }
}

/// The keyboard and the mouse.
pub struct Ps2InputDevices {
    pub keyboard: Ps2Set1Decoder,
    pub mouse: Ps2MouseDecoder,
    pub pointer: Ps2PointerStatus,
}

impl Ps2InputDevices {
    /// No packet is complete between two bytes.
    pub open spec fn well_formed(&self) -> bool {
        self.mouse.well_formed()
    }

    /// The devices, once the mouse has been set up.
    pub fn initialize(pointer: Ps2PointerStatus) -> (devices: Ps2InputDevices)
        ensures
            devices.well_formed(),
            devices.keyboard == (Ps2Set1Decoder {
                extended: false,
                left_shift: false,
                right_shift: false,
                caps_lock: false,
            }),
            devices.mouse.packet_index == 0,
            devices.mouse.packet@ == seq![0u8, 0u8, 0u8],
            devices.pointer == pointer,
    {
        Ps2InputDevices {
            keyboard: Ps2Set1Decoder::new(),
            mouse: Ps2MouseDecoder::new(),
            pointer,
        }
    }

    /// What is known of the mouse.
    pub fn pointer_status(&self) -> (status: Ps2PointerStatus)
        ensures
            status == self.pointer,
    {
        self.pointer
    }

    /// Takes a byte that the controller held with this status. Those of a mouse that was not set up are
    /// dropped.
    pub fn poll_event(&mut self, status: u8, byte: u8) -> (event: Option<Ps2Event>)
        requires
            old(self).well_formed(),
        ensures
            final(self).well_formed(),
            final(self).pointer == old(self).pointer,
            if status & STATUS_AUXILIARY_DATA == 0 {
                let (keyboard, input) = decoded(old(self).keyboard, byte);
                &&& final(self).keyboard == keyboard
                &&& final(self).mouse == old(self).mouse
                &&& event == match input {
                    Some(input) => Some(Ps2Event::Keyboard(input)),
                    None => None,
                }
            } else {
                &&& final(self).keyboard == old(self).keyboard
                &&& if !old(self).pointer.enabled {
                    event is None && final(self).mouse == old(self).mouse
                } else if old(self).mouse.packet_index == 0 && byte & 0x08 == 0 {
                    event is None && final(self).mouse.packet@ == old(self).mouse.packet@
                        && final(self).mouse.packet_index == 0
                } else {
                    let packet = old(self).mouse.packet@.update(
                        old(self).mouse.packet_index as int,
                        byte,
                    );
                    &&& final(self).mouse.packet@ == packet
                    &&& final(self).mouse.packet_index == if old(self).mouse.packet_index == 2 {
                        0
                    } else {
                        old(self).mouse.packet_index + 1
                    }
                    &&& event == if old(self).mouse.packet_index != 2 {
                        None
                    } else {
                        match packet_sample(packet) {
                            Some(sample) => Some(Ps2Event::Pointer(sample)),
                            None => None,
                        }
                    }
                }
            },
    {
        if status & STATUS_AUXILIARY_DATA != 0 {
            if !self.pointer.enabled {
                return None;
            }
            return match self.mouse.feed(byte) {
                Some(sample) => Some(Ps2Event::Pointer(sample)),
                None => None,
            };
        }
        match self.keyboard.feed(byte) {
            Some(input) => Some(Ps2Event::Keyboard(input)),
            None => None,
        }
    }
}

/// The keyboard alone.
pub struct Ps2Keyboard {
    pub decoder: Ps2Set1Decoder,
}

impl Ps2Keyboard {
    /// No key is down.
    pub fn new() -> (keyboard: Ps2Keyboard)
        ensures
            keyboard.decoder == (Ps2Set1Decoder {
                extended: false,
                left_shift: false,
                right_shift: false,
                caps_lock: false,
            }),
    {
        Ps2Keyboard { decoder: Ps2Set1Decoder::new() }
    }

    /// Takes a byte that the controller held with this status. Those of the mouse are dropped.
    pub fn poll_input(&mut self, status: u8, scancode: u8) -> (input: Option<DesktopInput>)
        ensures
            if status & STATUS_AUXILIARY_DATA != 0 {
                input is None && *final(self) == *old(self)
            } else {
                (final(self).decoder, input) == decoded(old(self).decoder, scancode)
            },
    {
        if status & STATUS_AUXILIARY_DATA != 0 {
            return None;
        }
        self.decoder.feed(scancode)
    }
}

impl Default for Ps2Keyboard {
    fn default() -> (keyboard: Ps2Keyboard)
        ensures
            keyboard.decoder == (Ps2Set1Decoder {
                extended: false,
                left_shift: false,
                right_shift: false,
                caps_lock: false,
            }),
    {
        Ps2Keyboard::new()
    }
}

/// A command for the mouse.
#[derive(Debug, Clone, Copy, PartialEq, Eq, Structural)]
pub enum MouseCommand {
    SetDefaults,
    Identify,
    EnableStreaming,
}

/// The code of a command.
pub open spec fn command_code(command: MouseCommand) -> u8 {
    match command {
        MouseCommand::SetDefaults => MOUSE_SET_DEFAULTS,
        MouseCommand::Identify => MOUSE_IDENTIFY,
        MouseCommand::EnableStreaming => MOUSE_ENABLE_STREAMING,
    }
}

/// How far setting the mouse up has come.
#[derive(Debug, Clone, Copy, PartialEq, Eq, Structural)]
pub enum PointerStage {
    EnableAuxiliary,
    AskConfig,
    ReadConfig,
    AnnounceConfig(u8),
    WriteConfig(u8),
    AddressMouse(MouseCommand),
    SendCommand(MouseCommand),
    AwaitMouse(MouseCommand),
    ReadIdentity,
    Finished,
}

/// What is asked of the controller.
#[derive(Debug, Clone, Copy, PartialEq, Eq, Structural)]
pub enum PointerAction {
    WriteCommand(u8),
    WriteData(u8),
    ReadAny,
    ReadMouse,
    Finish,
}

/// What the controller did: whether a byte was written, or which one was read.
#[derive(Debug, Clone, Copy, PartialEq, Eq, Structural)]
pub enum PointerReply {
    Written(bool),
    Byte(Option<u8>),
}

/// Setting the mouse up.
#[derive(Debug, Clone, Copy, PartialEq, Eq, Structural)]
pub struct PointerSetup {
    pub stage: PointerStage,
    pub status: Ps2PointerStatus,
}

/// What is asked of the controller at a stage.
pub open spec fn stage_action(stage: PointerStage) -> PointerAction {
    match stage {
        PointerStage::EnableAuxiliary => PointerAction::WriteCommand(CONTROLLER_ENABLE_AUXILIARY),
        PointerStage::AskConfig => PointerAction::WriteCommand(CONTROLLER_READ_CONFIG),
        PointerStage::ReadConfig => PointerAction::ReadAny,
        PointerStage::AnnounceConfig(_) => PointerAction::WriteCommand(CONTROLLER_WRITE_CONFIG),
        PointerStage::WriteConfig(config) => PointerAction::WriteData(config),
        PointerStage::AddressMouse(_) => PointerAction::WriteCommand(CONTROLLER_WRITE_AUXILIARY),
        PointerStage::SendCommand(command) => PointerAction::WriteData(command_code(command)),
        PointerStage::AwaitMouse(_) => PointerAction::ReadMouse,
        PointerStage::ReadIdentity => PointerAction::ReadMouse,
        PointerStage::Finished => PointerAction::Finish,
    }
}

/// What comes when a command did not reach the mouse: without its defaults nothing more, else the next
/// command.
pub open spec fn command_failed(command: MouseCommand) -> PointerStage {
    match command {
        MouseCommand::Identify => PointerStage::AddressMouse(MouseCommand::EnableStreaming),
        _ => PointerStage::Finished,
    }
}

/// Where a reply takes setting the mouse up.
pub open spec fn pointer_step(setup: PointerSetup, reply: PointerReply) -> PointerSetup {
    let written = reply == PointerReply::Written(true);
    let byte = match reply {
        PointerReply::Byte(byte) => byte,
        PointerReply::Written(_) => None,
    };
    let defaults = PointerStage::AddressMouse(MouseCommand::SetDefaults);
    match setup.stage {
        PointerStage::EnableAuxiliary => PointerSetup {
            stage: if written {
                PointerStage::AskConfig
            } else {
                PointerStage::Finished
            },
            ..setup
        },
        PointerStage::AskConfig => PointerSetup {
            stage: if written {
                PointerStage::ReadConfig
            } else {
                defaults
            },
            ..setup
        },
        PointerStage::ReadConfig => PointerSetup {
            stage: match byte {
                Some(config) => PointerStage::AnnounceConfig(config & CONFIG_AUXILIARY_ENABLED),
                None => defaults,
            },
            ..setup
        },
        PointerStage::AnnounceConfig(config) => PointerSetup {
            stage: if written {
                PointerStage::WriteConfig(config)
            } else {
                defaults
            },
            ..setup
        },
        PointerStage::WriteConfig(_) => PointerSetup { stage: defaults, ..setup },
        PointerStage::AddressMouse(command) => PointerSetup {
            stage: if written {
                PointerStage::SendCommand(command)
            } else {
                command_failed(command)
            },
            ..setup
        },
        PointerStage::SendCommand(command) => PointerSetup {
            stage: if written {
                PointerStage::AwaitMouse(command)
            } else {
                command_failed(command)
            },
            ..setup
        },
        PointerStage::AwaitMouse(command) => if byte != Some(MOUSE_ACKNOWLEDGED) {
            PointerSetup { stage: command_failed(command), ..setup }
        } else {
            PointerSetup {
                stage: match command {
                    MouseCommand::SetDefaults => PointerStage::AddressMouse(MouseCommand::Identify),
                    MouseCommand::Identify => PointerStage::ReadIdentity,
                    MouseCommand::EnableStreaming => PointerStage::Finished,
                },
                status: Ps2PointerStatus {
                    enabled: setup.status.enabled || command == MouseCommand::EnableStreaming,
                    acknowledgements: if setup.status.acknowledgements == u8::MAX {
                        u8::MAX
                    } else {
                        (setup.status.acknowledgements + 1) as u8
                    },
                    ..setup.status
                },
            }
        },
        PointerStage::ReadIdentity => PointerSetup {
            stage: PointerStage::AddressMouse(MouseCommand::EnableStreaming),
            status: Ps2PointerStatus { device_id: byte, ..setup.status },
        },
        PointerStage::Finished => setup,
    }
}

/// The mouse counts as set up only once it has acknowledged that it sends.
pub proof fn a_mouse_is_enabled_only_by_its_word(setup: PointerSetup, reply: PointerReply)
    requires
        !setup.status.enabled,
        pointer_step(setup, reply).status.enabled,
    ensures
        setup.stage == PointerStage::AwaitMouse(MouseCommand::EnableStreaming),
        reply == PointerReply::Byte(Some(MOUSE_ACKNOWLEDGED)),
{
}

impl PointerSetup {
    /// Nothing has been asked yet.
    pub fn new() -> (setup: PointerSetup)
        ensures
            setup == (PointerSetup {
                stage: PointerStage::EnableAuxiliary,
                status: Ps2PointerStatus { enabled: false, device_id: None, acknowledgements: 0 },
            }),
    {
        PointerSetup {
            stage: PointerStage::EnableAuxiliary,
            status: Ps2PointerStatus { enabled: false, device_id: None, acknowledgements: 0 },
        }
    }

    /// What is asked of the controller.
    pub fn action(&self) -> (action: PointerAction)
        ensures
            action == stage_action(self.stage),
    {
        match self.stage {
            PointerStage::EnableAuxiliary => {
                PointerAction::WriteCommand(CONTROLLER_ENABLE_AUXILIARY)
            },
            PointerStage::AskConfig => PointerAction::WriteCommand(CONTROLLER_READ_CONFIG),
            PointerStage::ReadConfig => PointerAction::ReadAny,
            PointerStage::AnnounceConfig(_) => PointerAction::WriteCommand(CONTROLLER_WRITE_CONFIG),
            PointerStage::WriteConfig(config) => PointerAction::WriteData(config),
            PointerStage::AddressMouse(_) => {
                PointerAction::WriteCommand(CONTROLLER_WRITE_AUXILIARY)
            },
            PointerStage::SendCommand(command) => PointerAction::WriteData(
                match command {
                    MouseCommand::SetDefaults => MOUSE_SET_DEFAULTS,
                    MouseCommand::Identify => MOUSE_IDENTIFY,
                    MouseCommand::EnableStreaming => MOUSE_ENABLE_STREAMING,
                },
            ),
            PointerStage::AwaitMouse(_) => PointerAction::ReadMouse,
            PointerStage::ReadIdentity => PointerAction::ReadMouse,
            PointerStage::Finished => PointerAction::Finish,
        }
    }

    /// Takes what the controller did.
    pub fn step(&mut self, reply: PointerReply)
        ensures
            *final(self) == pointer_step(*old(self), reply),
    {
        let written: bool = match reply {
            PointerReply::Written(written) => written,
            PointerReply::Byte(_) => false,
        };
        let byte: Option<u8> = match reply {
            PointerReply::Byte(byte) => byte,
            PointerReply::Written(_) => None,
        };
        let defaults = PointerStage::AddressMouse(MouseCommand::SetDefaults);
        let streaming = PointerStage::AddressMouse(MouseCommand::EnableStreaming);
        self.stage = match self.stage {
            PointerStage::EnableAuxiliary => if written {
                PointerStage::AskConfig
            } else {
                PointerStage::Finished
            },
            PointerStage::AskConfig => if written {
                PointerStage::ReadConfig
            } else {
                defaults
            },
            PointerStage::ReadConfig => match byte {
                Some(config) => PointerStage::AnnounceConfig(config & CONFIG_AUXILIARY_ENABLED),
                None => defaults,
            },
            PointerStage::AnnounceConfig(config) => if written {
                PointerStage::WriteConfig(config)
            } else {
                defaults
            },
            PointerStage::WriteConfig(_) => defaults,
            PointerStage::AddressMouse(command) => if written {
                PointerStage::SendCommand(command)
            } else if command == MouseCommand::Identify {
                streaming
            } else {
                PointerStage::Finished
            },
            PointerStage::SendCommand(command) => if written {
                PointerStage::AwaitMouse(command)
            } else if command == MouseCommand::Identify {
                streaming
            } else {
                PointerStage::Finished
            },
            PointerStage::AwaitMouse(command) => {
                let acknowledged: bool = match byte {
                    Some(byte) => byte == MOUSE_ACKNOWLEDGED,
                    None => false,
                };
                if acknowledged {
                    self.status.acknowledgements = self.status.acknowledgements.saturating_add(1);
                    if command == MouseCommand::EnableStreaming {
                        self.status.enabled = true;
                    }
                    match command {
                        MouseCommand::SetDefaults => {
                            PointerStage::AddressMouse(MouseCommand::Identify)
                        },
                        MouseCommand::Identify => PointerStage::ReadIdentity,
                        MouseCommand::EnableStreaming => PointerStage::Finished,
                    }
                } else if command == MouseCommand::Identify {
                    streaming
                } else {
                    PointerStage::Finished
                }
            },
            PointerStage::ReadIdentity => {
                self.status.device_id = byte;
                streaming
            },
            PointerStage::Finished => PointerStage::Finished,
        };
    }
}

/// The letters are where they are on a keyboard, row by row, and each large letter is 32 before its small
/// one.
pub proof fn letters_are_where_they_are(code: u8)
    ensures
        0x10 <= code <= 0x19 ==> (letter(code) matches Some(pair) && pair.0 == seq![
            'q', 'w', 'e', 'r', 't', 'y', 'u', 'i', 'o', 'p',
        ][code - 0x10]),
        0x1e <= code <= 0x26 ==> (letter(code) matches Some(pair) && pair.0 == seq![
            'a', 's', 'd', 'f', 'g', 'h', 'j', 'k', 'l',
        ][code - 0x1e]),
        0x2c <= code <= 0x32 ==> (letter(code) matches Some(pair) && pair.0 == seq![
            'z', 'x', 'c', 'v', 'b', 'n', 'm',
        ][code - 0x2c]),
        letter(code) is Some <==> 0x10 <= code <= 0x19 || 0x1e <= code <= 0x26 || 0x2c <= code <= 0x32,
        letter(code) matches Some(pair) ==> pair.1 as int == pair.0 as int - 32,
{
}

/// The signs are where they are on a keyboard, each with the one that shift makes of it.
pub proof fn signs_are_where_they_are(code: u8)
    ensures
        0x02 <= code <= 0x0d ==> sign(code) == Some(
            (
                seq!['1', '2', '3', '4', '5', '6', '7', '8', '9', '0', '-', '='][code - 2],
                seq!['!', '@', '#', '$', '%', '^', '&', '*', '(', ')', '_', '+'][code - 2],
            ),
        ),
        0x33 <= code <= 0x35 ==> sign(code) == Some(
            (seq![',', '.', '/'][code - 0x33], seq!['<', '>', '?'][code - 0x33]),
        ),
        sign(0x1a) == Some(('[', '{')) && sign(0x1b) == Some((']', '}')),
        sign(0x27) == Some((';', ':')) && sign(0x2b) == Some(('\\', '|')),
        sign(0x39) == Some((' ', ' ')),
{
}

/// Shift makes the other of the two characters of a key, and the lock does so for letters alone.
pub proof fn shift_makes_the_other_character(code: u8, shift: bool, caps_lock: bool)
    ensures
        letter(code) matches Some(pair) ==> printable(code, shift, caps_lock) == Some(
            if (shift && !caps_lock) || (caps_lock && !shift) {
                pair.1
            } else {
                pair.0
            },
        ),
        letter(code) is None && sign(code) is Some ==> printable(code, shift, caps_lock) == Some(
            if shift {
                sign(code).unwrap().1
            } else {
                sign(code).unwrap().0
            },
        ),
        letter(code) is None && sign(code) is None ==> printable(code, shift, caps_lock) is None,
{
}

/// A key that is pressed does what it is for; the shift keys and the lock only change what the others do.
pub proof fn a_pressed_key_does_what_it_is_for(decoder: Ps2Set1Decoder, code: u8)
    requires
        code < 0x80,
        !decoder.extended,
    ensures
        ({
            let (next, input) = decoded(decoder, code);
            let shift = decoder.left_shift || decoder.right_shift;
            &&& code == 0x01 ==> input == Some(DesktopInput::Exit)
            &&& code == 0x0e ==> input == Some(DesktopInput::Backspace)
            &&& code == 0x0f ==> input == Some(DesktopInput::CycleFocus)
            &&& code == 0x1c ==> input == Some(DesktopInput::Submit)
            &&& code == 0x2a ==> input is None && next == (Ps2Set1Decoder { left_shift: true, ..decoder })
            &&& code == 0x36 ==> input is None && next == (Ps2Set1Decoder {
                right_shift: true,
                ..decoder
            })
            &&& code == 0x3a ==> input is None && next == (Ps2Set1Decoder {
                caps_lock: !decoder.caps_lock,
                ..decoder
            })
            &&& printable(code, shift, decoder.caps_lock) matches Some(c) ==> input == Some(
                DesktopInput::Character(c),
            ) && next == decoder
        }),
        decoded(decoder, 0xaa).0 == (Ps2Set1Decoder { left_shift: false, ..decoder }),
        decoded(decoder, 0xb6).0 == (Ps2Set1Decoder { right_shift: false, ..decoder }),
{
}

/// An arrow key is told by the byte before it, which counts for one byte only.
pub proof fn an_arrow_key_moves(decoder: Ps2Set1Decoder, code: u8)
    requires
        code < 0x80,
    ensures
        ({
            let (ready, nothing) = decoded(decoder, 0xe0);
            let (next, input) = decoded(ready, code);
            &&& nothing is None
            &&& ready.extended && !next.extended
            &&& code == 0x48 ==> input == Some(DesktopInput::MoveUp)
            &&& code == 0x50 ==> input == Some(DesktopInput::MoveDown)
            &&& code == 0x4b ==> input == Some(DesktopInput::MoveLeft)
            &&& code == 0x4d ==> input == Some(DesktopInput::MoveRight)
            &&& code != 0x48 && code != 0x50 && code != 0x4b && code != 0x4d ==> input is None
            &&& next.left_shift == decoder.left_shift && next.right_shift == decoder.right_shift
                && next.caps_lock == decoder.caps_lock
        }),
{
}

/// A packet of the mouse says how far it went to the right and up, and which buttons are down; on the
/// screen down is positive. A packet that overflowed says nothing.
pub proof fn a_packet_says_where_the_mouse_went(packet: Seq<u8>)
    requires
        packet.len() == 3,
    ensures
        packet_sample(packet) is None <==> packet[0] & 0xc0 != 0,
        packet_sample(packet) matches Some(sample) ==> {
            &&& sample.left_button <==> packet[0] & 1 != 0
            &&& sample.right_button <==> packet[0] & 2 != 0
            &&& packet[0] & 0x10 == 0 ==> sample.delta_x == packet[1]
            &&& packet[0] & 0x10 != 0 && packet[1] >= 128 ==> sample.delta_x == packet[1] - 256
            &&& packet[0] & 0x20 == 0 ==> sample.delta_y == -packet[2]
            &&& packet[0] & 0x20 != 0 && packet[2] >= 128 ==> sample.delta_y == 256 - packet[2]
        },
{
}

/// The mouse is set up step by step: the controller lets it through, it takes its defaults, says what it
/// is and then reports; each step is taken once the one before was answered.
pub proof fn the_mouse_is_set_up_step_by_step(
    status: Ps2PointerStatus,
    config: u8,
    identity: u8,
    command: MouseCommand,
)
    requires
        status.acknowledgements < 255,
    ensures
        stage_action(PointerStage::EnableAuxiliary) == PointerAction::WriteCommand(0xa8),
        stage_action(PointerStage::AskConfig) == PointerAction::WriteCommand(0x20),
        stage_action(PointerStage::AnnounceConfig(config)) == PointerAction::WriteCommand(0x60),
        stage_action(PointerStage::WriteConfig(config)) == PointerAction::WriteData(config),
        stage_action(PointerStage::AddressMouse(command)) == PointerAction::WriteCommand(0xd4),
        stage_action(PointerStage::SendCommand(command)) == PointerAction::WriteData(
            match command {
                MouseCommand::SetDefaults => 0xf6,
                MouseCommand::Identify => 0xf2,
                MouseCommand::EnableStreaming => 0xf4,
            },
        ),
        ({
            let at = |stage: PointerStage| PointerSetup { stage, status };
            let yes = PointerReply::Written(true);
            let taken = PointerReply::Byte(Some(0xfa));
            let acknowledged = (status.acknowledgements + 1) as u8;
            &&& pointer_step(at(PointerStage::EnableAuxiliary), yes) == at(PointerStage::AskConfig)
            &&& pointer_step(at(PointerStage::AskConfig), yes) == at(PointerStage::ReadConfig)
            &&& pointer_step(at(PointerStage::ReadConfig), PointerReply::Byte(Some(config))) == at(
                PointerStage::AnnounceConfig(config & 0xdf),
            )
            &&& pointer_step(at(PointerStage::AnnounceConfig(config)), yes) == at(
                PointerStage::WriteConfig(config),
            )
            &&& pointer_step(at(PointerStage::WriteConfig(config)), yes) == at(
                PointerStage::AddressMouse(MouseCommand::SetDefaults),
            )
            &&& pointer_step(at(PointerStage::AddressMouse(command)), yes) == at(
                PointerStage::SendCommand(command),
            )
            &&& pointer_step(at(PointerStage::SendCommand(command)), yes) == at(
                PointerStage::AwaitMouse(command),
            )
            &&& pointer_step(at(PointerStage::AwaitMouse(MouseCommand::SetDefaults)), taken) == (
            PointerSetup {
                stage: PointerStage::AddressMouse(MouseCommand::Identify),
                status: Ps2PointerStatus { acknowledgements: acknowledged, ..status },
            })
            &&& pointer_step(at(PointerStage::AwaitMouse(MouseCommand::Identify)), taken) == (PointerSetup {
                stage: PointerStage::ReadIdentity,
                status: Ps2PointerStatus { acknowledgements: acknowledged, ..status },
            })
            &&& pointer_step(at(PointerStage::ReadIdentity), PointerReply::Byte(Some(identity))) == (
            PointerSetup {
                stage: PointerStage::AddressMouse(MouseCommand::EnableStreaming),
                status: Ps2PointerStatus { device_id: Some(identity), ..status },
            })
            &&& pointer_step(at(PointerStage::AwaitMouse(MouseCommand::EnableStreaming)), taken) == (
            PointerSetup {
                stage: PointerStage::Finished,
                status: Ps2PointerStatus { enabled: true, acknowledgements: acknowledged, ..status },
            })
        }),
{
}

} // verus!
