//! Boards wired to the CPU: an ELF-style front panel and a joystick whose
//! axes are measured through resistor-capacitor timing.

use vstd::prelude::*;

use crate::isa::ExternalFlag;
use crate::state::{with_ef, CpuState};

verus! {

/// The hooks through which a board sees the CPU. Each method's effect is
/// named by a spec function, so that the executor's contract can speak of
/// any board.
pub trait BoardIo: Sized {
    /// The CPU state after the board drives its inputs (the `EF` lines).
    spec fn inputs_synced(&self, state: CpuState) -> CpuState;

    /// The byte the board presents to `INP port`.
    spec fn input_value(&self, port: u8) -> u8;

    /// The board after `OUT port` hands it `value`.
    spec fn after_output(&self, port: u8, value: u8) -> Self;

    /// The board after it samples the CPU's outputs (such as `Q`).
    spec fn outputs_synced(&self, state: CpuState) -> Self;

    /// The board after one instruction has run.
    spec fn after_tick(&self) -> Self;

    fn sync_inputs_to_cpu(&self, state: &mut CpuState)
        ensures
            *final(state) == self.inputs_synced(*old(state)),
    ;

    fn input_port(&self, port: u8) -> (value: u8)
        ensures
            value == self.input_value(port),
    ;

    fn output_port(&mut self, port: u8, value: u8)
        ensures
            *final(self) == old(self).after_output(port, value),
    ;

    fn sync_outputs_from_cpu(&mut self, state: &CpuState)
        ensures
            *final(self) == old(self).outputs_synced(*state),
    ;

    /// Called once each instruction has run. It has no shared default: its
    /// effect is `after_tick`, which each board defines; a board with
    /// nothing to count gives `after_tick` as `*self` and an empty body here.
    fn after_instruction(&mut self)
        ensures
            *final(self) == old(self).after_tick(),
    ;
}

/// ELF-style front panel: `OUT 1` drives a two-digit hex display, `INP 1`
/// reads the input latch, the input button drives `EF4`, and `Q` lights an
/// LED.
#[derive(Debug, Clone, Copy, Eq, PartialEq)]
pub struct FrontPanel {
    pub input_latch: u8,
    pub hex_display: u8,
    pub keypad: u8,
    pub input_pressed: bool,
    pub q_led: bool,
}

impl FrontPanel {
    pub const PORT_HEX_KEYPAD: u8 = 1;

    pub fn new() -> (panel: Self)
        ensures
            panel == (FrontPanel {
                input_latch: 0,
                hex_display: 0,
                keypad: 0,
                input_pressed: false,
                q_led: false,
            }),
    {
        Self::default()
    }
}

impl Default for FrontPanel {
    fn default() -> (panel: Self)
        ensures
            panel == (FrontPanel {
                input_latch: 0,
                hex_display: 0,
                keypad: 0,
                input_pressed: false,
                q_led: false,
            }),
    {
        FrontPanel { input_latch: 0, hex_display: 0, keypad: 0, input_pressed: false, q_led: false }
    }
}

impl BoardIo for FrontPanel {
    open spec fn inputs_synced(&self, state: CpuState) -> CpuState {
        with_ef(state, ExternalFlag::Ef4, self.input_pressed)
    }

    open spec fn input_value(&self, port: u8) -> u8 {
        if port == 1 {
            self.input_latch
        } else {
            0
        }
    }

    open spec fn after_output(&self, port: u8, value: u8) -> Self {
        if port == 1 {
            FrontPanel { hex_display: value, ..*self }
        } else {
            *self
        }
    }

    open spec fn outputs_synced(&self, state: CpuState) -> Self {
        FrontPanel { q_led: state.q, ..*self }
    }

    open spec fn after_tick(&self) -> Self {
        *self
    }

    fn sync_inputs_to_cpu(&self, state: &mut CpuState) {
        state.set_external_flag(ExternalFlag::Ef4, self.input_pressed);
    }

    fn input_port(&self, port: u8) -> (value: u8) {
        if port == Self::PORT_HEX_KEYPAD {
            self.input_latch
        } else {
            0
        }
    }

    fn output_port(&mut self, port: u8, value: u8) {
        if port == Self::PORT_HEX_KEYPAD {
            self.hex_display = value;
        }
    }

    fn sync_outputs_from_cpu(&mut self, state: &CpuState) {
        self.q_led = state.q;
    }

    fn after_instruction(&mut self) {
    }
}

#[derive(Copy, Clone, Debug, Eq, PartialEq)]
pub enum JoystickAxis {
    X,
    Y,
}

/// Two potentiometer axes read through RC timing: `OUT 2` (X) or `OUT 3`
/// (Y) starts a charge cycle, and `EF4` reads ready once as many
/// instructions have run as the axis position's delay bucket plus one.
#[derive(Debug, Clone, Copy, Eq, PartialEq)]
pub struct JoystickRcBoard {
    pub x: u8,
    pub y: u8,
    pub q_led: bool,
    active_axis: Option<JoystickAxis>,
    remaining_ticks: u8,
}

/// The delay bucket of an axis position: `value * 4 / 256`, one of 0..=3.
pub open spec fn delay_bucket(value: u8) -> u8 {
    (value as int * 4 / 256) as u8
}

/// `b` after `k` instructions have run.
pub open spec fn ticked(b: JoystickRcBoard, k: nat) -> JoystickRcBoard
    decreases k,
{
    if k == 0 {
        b
    } else {
        ticked(b, (k - 1) as nat).after_tick()
    }
}

impl JoystickRcBoard {
    pub const PORT_X_PULSE: u8 = 2;
    pub const PORT_Y_PULSE: u8 = 3;

    /// The X position.
    pub closed spec fn x_pos(self) -> u8 {
        self.x
    }

    /// The Y position.
    pub closed spec fn y_pos(self) -> u8 {
        self.y
    }

    /// The LED that mirrors `Q`.
    pub closed spec fn led(self) -> bool {
        self.q_led
    }

    /// The axis whose charge cycle is running, if any.
    pub closed spec fn active(self) -> Option<JoystickAxis> {
        self.active_axis
    }

    /// Instructions left until the running charge cycle reads ready.
    pub closed spec fn remaining(self) -> u8 {
        self.remaining_ticks
    }

    /// The position of `axis`.
    pub open spec fn axis_value(self, axis: JoystickAxis) -> u8 {
        match axis {
            JoystickAxis::X => self.x_pos(),
            JoystickAxis::Y => self.y_pos(),
        }
    }

    /// Whether `EF4` reads ready.
    pub open spec fn is_ready(self) -> bool {
        self.active() is Some && self.remaining() == 0
    }

    /// `self` after a charge cycle on `axis` starts.
    pub closed spec fn pulsed(self, axis: JoystickAxis) -> Self {
        JoystickRcBoard {
            active_axis: Some(axis),
            remaining_ticks: (delay_bucket(self.axis_value(axis)) + 1) as u8,
            ..self
        }
    }

    pub fn new(x: u8, y: u8) -> (board: Self)
        ensures
            board.x_pos() == x,
            board.y_pos() == y,
            !board.led(),
            board.active() is None,
            board.remaining() == 0,
    {
        Self { x, y, q_led: false, active_axis: None, remaining_ticks: 0 }
    }

    pub fn set_position(&mut self, x: u8, y: u8)
        ensures
            final(self).x_pos() == x,
            final(self).y_pos() == y,
            final(self).led() == old(self).led(),
            final(self).active() == old(self).active(),
            final(self).remaining() == old(self).remaining(),
    {
        self.x = x;
        self.y = y;
    }

    /// The delay bucket of `axis`: its position times 4, divided by 256.
    pub fn delay_for_axis(&self, axis: JoystickAxis) -> (delay: u8)
        ensures
            delay == delay_bucket(self.axis_value(axis)),
            delay <= 3,
    {
        let value = match axis {
            JoystickAxis::X => self.x,
            JoystickAxis::Y => self.y,
        };
        ((value as u16 * 4) / 256) as u8
    }

    pub fn ready(&self) -> (ready: bool)
        ensures
            ready == self.is_ready(),
    {
        self.active_axis.is_some() && self.remaining_ticks == 0
    }

    fn pulse(&mut self, axis: JoystickAxis)
        ensures
            *final(self) == old(self).pulsed(axis),
    {
        self.active_axis = Some(axis);
        self.remaining_ticks = self.delay_for_axis(axis).saturating_add(1);
    }
}

/// The delay bucket is the position divided by 64: 0 to 3.
pub proof fn lemma_delay_bucket(value: u8)
    ensures
        delay_bucket(value) == value / 64,
        delay_bucket(value) <= 3,
{
}

/// Starting a charge cycle on `axis` makes it the active axis with its
/// bucket plus one instructions to go; the positions and the LED stay.
pub proof fn lemma_pulse(b: JoystickRcBoard, axis: JoystickAxis)
    ensures
        b.pulsed(axis).active() == Some(axis),
        b.pulsed(axis).remaining() == delay_bucket(b.axis_value(axis)) + 1,
        b.pulsed(axis).x_pos() == b.x_pos(),
        b.pulsed(axis).y_pos() == b.y_pos(),
        b.pulsed(axis).led() == b.led(),
{
}

/// Each instruction counts the running charge cycle down by one, stopping
/// at 0, and changes nothing else on the board.
pub proof fn lemma_tick(b: JoystickRcBoard)
    ensures
        b.after_tick().remaining() == if b.remaining() > 0 {
            b.remaining() - 1
        } else {
            0
        },
        b.after_tick().active() == b.active(),
        b.after_tick().x_pos() == b.x_pos(),
        b.after_tick().y_pos() == b.y_pos(),
        b.after_tick().led() == b.led(),
{
}

/// After `k` instructions the count is down by `k`, stopping at 0, and
/// nothing else on the board has changed.
pub proof fn lemma_ticked(b: JoystickRcBoard, k: nat)
    ensures
        ticked(b, k).remaining() == if k >= b.remaining() {
            0
        } else {
            b.remaining() - k
        },
        ticked(b, k).active() == b.active(),
        ticked(b, k).x_pos() == b.x_pos(),
        ticked(b, k).y_pos() == b.y_pos(),
        ticked(b, k).led() == b.led(),
    decreases k,
{
    if k > 0 {
        lemma_ticked(b, (k - 1) as nat);
    }
}

/// After a charge cycle on `axis` starts, `EF4` reads ready after exactly
/// as many instructions as the axis bucket plus one, and from then on.
pub proof fn lemma_ready_after_bucket_ticks(b: JoystickRcBoard, axis: JoystickAxis, k: nat)
    ensures
        ticked(b.pulsed(axis), k).is_ready() <==> k >= delay_bucket(b.axis_value(axis)) + 1,
        ticked(b.pulsed(axis), k).active() == Some(axis),
        ticked(b.pulsed(axis), k).axis_value(axis) == b.axis_value(axis),
{
    lemma_pulse(b, axis);
    lemma_ticked(b.pulsed(axis), k);
}

/// A board on which no charge cycle was started never reads ready, however
/// many instructions run.
pub proof fn lemma_idle_never_ready(b: JoystickRcBoard, k: nat)
    requires
        b.active() is None,
    ensures
        !ticked(b, k).is_ready(),
        ticked(b, k).active() is None,
{
    lemma_ticked(b, k);
}

/// The joystick board mirrors `Q` on its LED and drives `EF4` with its
/// ready signal; sampling the outputs changes nothing else; only `OUT 2`
/// and `OUT 3` reach it, and it reads 0 on every input port.
pub proof fn lemma_joystick_wiring(b: JoystickRcBoard, s: CpuState, port: u8, value: u8)
    ensures
        b.outputs_synced(s).led() == s.q,
        b.outputs_synced(s).active() == b.active(),
        b.outputs_synced(s).remaining() == b.remaining(),
        b.outputs_synced(s).x_pos() == b.x_pos(),
        b.outputs_synced(s).y_pos() == b.y_pos(),
        b.inputs_synced(s) == with_ef(s, ExternalFlag::Ef4, b.is_ready()),
        b.inputs_synced(s).ef@[3] == b.is_ready(),
        b.after_output(port, value) == if port == 2 {
            b.pulsed(JoystickAxis::X)
        } else if port == 3 {
            b.pulsed(JoystickAxis::Y)
        } else {
            b
        },
        b.input_value(port) == 0,
{
}

impl BoardIo for JoystickRcBoard {
    open spec fn inputs_synced(&self, state: CpuState) -> CpuState {
        with_ef(state, ExternalFlag::Ef4, self.is_ready())
    }

    open spec fn input_value(&self, port: u8) -> u8 {
        0
    }

    open spec fn after_output(&self, port: u8, value: u8) -> Self {
        if port == 2 {
            self.pulsed(JoystickAxis::X)
        } else if port == 3 {
            self.pulsed(JoystickAxis::Y)
        } else {
            *self
        }
    }

    closed spec fn outputs_synced(&self, state: CpuState) -> Self {
        JoystickRcBoard { q_led: state.q, ..*self }
    }

    closed spec fn after_tick(&self) -> Self {
        JoystickRcBoard {
            remaining_ticks: if self.remaining_ticks > 0 {
                (self.remaining_ticks - 1) as u8
            } else {
                0
            },
            ..*self
        }
    }

    fn sync_inputs_to_cpu(&self, state: &mut CpuState) {
        state.set_external_flag(ExternalFlag::Ef4, self.ready());
    }

    fn input_port(&self, _port: u8) -> (value: u8) {
        0
    }

    fn output_port(&mut self, port: u8, _value: u8) {
        if port == Self::PORT_X_PULSE {
            self.pulse(JoystickAxis::X);
        } else if port == Self::PORT_Y_PULSE {
            self.pulse(JoystickAxis::Y);
        }
    }

    fn sync_outputs_from_cpu(&mut self, state: &CpuState) {
        self.q_led = state.q;
    }

    fn after_instruction(&mut self) {
        self.remaining_ticks = self.remaining_ticks.saturating_sub(1);
    }
}

} // verus!
