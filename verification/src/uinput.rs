//! Press and release decisions for the virtual input devices: which event
//! a peripheral sends, and the pressed / key-hold state that guards it.
//! Writing the events and running commands is left to the caller.

use vstd::prelude::*;

use crate::bitmask::{EventType, Peripheral};
use crate::text::{is_split_of, join_parts, split_commands, views};

verus! {

/// What the caller does after `dispatch_press`.
#[derive(Debug)]
pub enum PressAction {
    /// The peripheral was already active: nothing to do.
    Ignored,
    /// Write an EV_KEY press, then hold until the peripheral is released.
    ButtonPress { device_index: usize, evdev_code: u32 },
    /// Write an EV_KEY press and start the repeat task for `hold_generation`.
    KeyPress { device_index: usize, evdev_code: u32, hold_generation: u64 },
    /// Write an EV_ABS event, then hold until the peripheral is released.
    AxisPress { device_index: usize, evdev_type: u32, evdev_code: u32, press_value: i32 },
    /// Run each part with `/bin/bash -c`, in order.
    RunCommands { parts: Vec<String> },
}

/// What the caller does after `dispatch_release`.
#[derive(Debug, Clone, Copy, PartialEq, Eq)]
pub enum ReleaseAction {
    /// The peripheral was not active: nothing to do.
    Ignored,
    /// Write an EV_KEY release.
    ButtonRelease { device_index: usize, evdev_code: u32 },
    /// Write an EV_KEY release; the repeat task stops by itself.
    KeyRelease { device_index: usize, evdev_code: u32 },
    /// Write EV_ABS 0 (centre).
    AxisRelease { device_index: usize, evdev_code: u32 },
    /// A command has no release event.
    NoEvent,
}

/// `a` and `b` describe the same mapping (they may differ in their
/// pressed / key-hold state only).
pub open spec fn same_mapping(a: Peripheral, b: Peripheral) -> bool {
    &&& a.name == b.name
    &&& a.device_index == b.device_index
    &&& a.pin_mask == b.pin_mask
    &&& a.pin_count == b.pin_count
    &&& a.event_type == b.event_type
}

/// The release event of an active peripheral.
pub open spec fn release_event(p: Peripheral) -> ReleaseAction {
    match p.event_type {
        EventType::Button { evdev_code } => ReleaseAction::ButtonRelease {
            device_index: p.device_index,
            evdev_code,
        },
        EventType::Key { evdev_code } => ReleaseAction::KeyRelease {
            device_index: p.device_index,
            evdev_code,
        },
        EventType::Axis { evdev_code, .. } => ReleaseAction::AxisRelease {
            device_index: p.device_index,
            evdev_code,
        },
        EventType::Command { .. } => ReleaseAction::NoEvent,
    }
}

/// What pressing `p` does, given the state it ends in and the action taken.
pub open spec fn press_outcome(old_p: Peripheral, new_p: Peripheral, action: PressAction) -> bool {
    if old_p.is_pressed {
        &&& action is Ignored
        &&& new_p.is_pressed
        &&& new_p.hold_generation == old_p.hold_generation
    } else {
        match old_p.event_type {
            EventType::Button { evdev_code } => {
                &&& action == (PressAction::ButtonPress {
                    device_index: old_p.device_index,
                    evdev_code,
                })
                &&& new_p.is_pressed
                &&& new_p.hold_generation == old_p.hold_generation
            },
            EventType::Key { evdev_code } => {
                &&& new_p.hold_generation == old_p.hold_generation + 1
                &&& action == (PressAction::KeyPress {
                    device_index: old_p.device_index,
                    evdev_code,
                    hold_generation: new_p.hold_generation,
                })
                &&& new_p.is_pressed
            },
            EventType::Axis { evdev_type, evdev_code, press_value } => {
                &&& action == (PressAction::AxisPress {
                    device_index: old_p.device_index,
                    evdev_type,
                    evdev_code,
                    press_value,
                })
                &&& new_p.is_pressed
                &&& new_p.hold_generation == old_p.hold_generation
            },
            EventType::Command { bash } => {
                &&& action matches PressAction::RunCommands { parts } && is_split_of(parts@, bash@)
                &&& !new_p.is_pressed
                &&& new_p.hold_generation == old_p.hold_generation
            },
        }
    }
}

/// What releasing `p` does, given the state it ends in and the action
/// taken: it ends inactive, and only an active one reports its event.
pub open spec fn release_outcome(old_p: Peripheral, new_p: Peripheral, action: ReleaseAction) -> bool {
    &&& !new_p.is_pressed
    &&& new_p.hold_generation == old_p.hold_generation
    &&& action == (if old_p.is_pressed {
        release_event(old_p)
    } else {
        ReleaseAction::Ignored
    })
}

/// A repeat task started for `hold_generation` is still running.
pub open spec fn hold_active(p: Peripheral, hold_generation: u64) -> bool {
    p.hold_generation == hold_generation && p.is_pressed
}

/// A key press bumps the hold generation: it must not be at its maximum.
pub open spec fn press_fits(p: Peripheral) -> bool {
    !p.is_pressed && p.event_type is Key ==> p.hold_generation < u64::MAX
}

/// Presses a peripheral. An active one is left alone; otherwise it becomes
/// active and its press event is returned. A key starts a new hold
/// generation, so that older repeat tasks stop; a command runs and leaves
/// the peripheral inactive.
pub fn dispatch_press(peripheral: &mut Peripheral) -> (action: PressAction)
    requires
        press_fits(*old(peripheral)),
    ensures
        same_mapping(*final(peripheral), *old(peripheral)),
        press_outcome(*old(peripheral), *final(peripheral), action),
{
    if peripheral.is_pressed {
        return PressAction::Ignored;
    }
    peripheral.is_pressed = true;
    match &peripheral.event_type {
        EventType::Button { evdev_code } => PressAction::ButtonPress {
            device_index: peripheral.device_index,
            evdev_code: *evdev_code,
        },
        EventType::Key { evdev_code } => {
            let code = *evdev_code;
            peripheral.hold_generation = peripheral.hold_generation + 1;
            PressAction::KeyPress {
                device_index: peripheral.device_index,
                evdev_code: code,
                hold_generation: peripheral.hold_generation,
            }
        },
        EventType::Axis { evdev_type, evdev_code, press_value } => PressAction::AxisPress {
            device_index: peripheral.device_index,
            evdev_type: *evdev_type,
            evdev_code: *evdev_code,
            press_value: *press_value,
        },
        EventType::Command { bash } => {
            let parts = split_commands(bash.as_str());
            peripheral.is_pressed = false;
            PressAction::RunCommands { parts }
        },
    }
}

/// Releases a peripheral: it becomes inactive, and if it was active its
/// release event is returned.
pub fn dispatch_release(peripheral: &mut Peripheral) -> (action: ReleaseAction)
    ensures
        same_mapping(*final(peripheral), *old(peripheral)),
        release_outcome(*old(peripheral), *final(peripheral), action),
{
    if !peripheral.is_pressed {
        return ReleaseAction::Ignored;
    }
    peripheral.is_pressed = false;
    match &peripheral.event_type {
        EventType::Button { evdev_code } => ReleaseAction::ButtonRelease {
            device_index: peripheral.device_index,
            evdev_code: *evdev_code,
        },
        EventType::Key { evdev_code } => ReleaseAction::KeyRelease {
            device_index: peripheral.device_index,
            evdev_code: *evdev_code,
        },
        EventType::Axis { evdev_code, .. } => ReleaseAction::AxisRelease {
            device_index: peripheral.device_index,
            evdev_code: *evdev_code,
        },
        EventType::Command { .. } => ReleaseAction::NoEvent,
    }
}

/// A key-hold repeat task started for `hold_generation` keeps repeating
/// while the key is held and no newer hold has started.
pub fn key_hold_continues(peripheral: &Peripheral, hold_generation: u64) -> (r: bool)
    ensures
        r == hold_active(*peripheral, hold_generation),
{
    peripheral.hold_generation == hold_generation && peripheral.is_pressed
}

/// Pressing a button, key or axis and then releasing it reports the
/// release event of that mapping and leaves it inactive.
pub proof fn law_press_then_release(
    p0: Peripheral,
    p1: Peripheral,
    press: PressAction,
    p2: Peripheral,
    release: ReleaseAction,
)
    requires
        !p0.is_pressed,
        !(p0.event_type is Command),
        same_mapping(p1, p0),
        press_outcome(p0, p1, press),
        same_mapping(p2, p1),
        release_outcome(p1, p2, release),
    ensures
        release == release_event(p0),
        !p2.is_pressed,
        same_mapping(p2, p0),
{
}

/// A release ends every repeat task of the peripheral.
pub proof fn law_release_ends_hold(p0: Peripheral, p1: Peripheral, release: ReleaseAction, hold_generation: u64)
    requires
        release_outcome(p0, p1, release),
    ensures
        !hold_active(p1, hold_generation),
{
}

/// A new key press starts a repeat task that is active, and ends every
/// task started before it.
pub proof fn law_new_press_ends_older_holds(p0: Peripheral, p1: Peripheral, press: PressAction, older: u64)
    requires
        !p0.is_pressed,
        p0.event_type is Key,
        press_outcome(p0, p1, press),
        older <= p0.hold_generation,
    ensures
        !hold_active(p1, older),
        press matches PressAction::KeyPress { hold_generation, .. } && hold_active(p1, hold_generation),
{
}

/// Pressing a peripheral that is already active sends nothing: the press
/// is ignored whatever the event type, the peripheral stays active and its
/// key-hold generation stays the same, so a running repeat task goes on.
pub proof fn law_press_of_active_is_ignored(p0: Peripheral, p1: Peripheral, press: PressAction)
    requires
        p0.is_pressed,
        press_outcome(p0, p1, press),
    ensures
        press is Ignored,
        p1.is_pressed,
        p1.hold_generation == p0.hold_generation,
{
}

/// Releasing a peripheral leaves it inactive. An active one sends the
/// release of its own mapping: an EV_KEY release of its code on its device
/// for a button or a key, its axis back to centre for an axis, nothing for
/// a command. An inactive one sends nothing, whatever its event type.
pub proof fn law_release_sends_its_event(p0: Peripheral, p1: Peripheral, release: ReleaseAction)
    requires
        release_outcome(p0, p1, release),
    ensures
        !p1.is_pressed,
        p1.hold_generation == p0.hold_generation,
        !p0.is_pressed ==> release is Ignored,
        p0.is_pressed ==> match p0.event_type {
            EventType::Button { evdev_code } => release == (ReleaseAction::ButtonRelease {
                device_index: p0.device_index,
                evdev_code,
            }),
            EventType::Key { evdev_code } => release == (ReleaseAction::KeyRelease {
                device_index: p0.device_index,
                evdev_code,
            }),
            EventType::Axis { evdev_code, .. } => release == (ReleaseAction::AxisRelease {
                device_index: p0.device_index,
                evdev_code,
            }),
            EventType::Command { .. } => release is NoEvent,
        },
{
}

/// A second release in a row has no effect: it sends nothing and the
/// peripheral stays inactive.
pub proof fn law_second_release_is_ignored(
    p0: Peripheral,
    p1: Peripheral,
    first: ReleaseAction,
    p2: Peripheral,
    second: ReleaseAction,
)
    requires
        release_outcome(p0, p1, first),
        release_outcome(p1, p2, second),
    ensures
        second is Ignored,
        !p2.is_pressed,
        p2.hold_generation == p0.hold_generation,
{
}

/// Pressing an inactive peripheral sends the press of its own mapping: a
/// button's EV_KEY press of its code on its device; a key's EV_KEY press
/// with a hold generation one past the old one; an axis's value on its
/// axis; a command's parts, which put back together give the command. A
/// button, key or axis ends active, a command ends inactive.
pub proof fn law_press_of_inactive_sends_its_event(p0: Peripheral, p1: Peripheral, press: PressAction)
    requires
        !p0.is_pressed,
        press_outcome(p0, p1, press),
    ensures
        p1.is_pressed == !(p0.event_type is Command),
        match p0.event_type {
            EventType::Button { evdev_code } => press == (PressAction::ButtonPress {
                device_index: p0.device_index,
                evdev_code,
            }) && p1.hold_generation == p0.hold_generation,
            EventType::Key { evdev_code } => press == (PressAction::KeyPress {
                device_index: p0.device_index,
                evdev_code,
                hold_generation: (p0.hold_generation + 1) as u64,
            }) && p1.hold_generation == p0.hold_generation + 1,
            EventType::Axis { evdev_type, evdev_code, press_value } => press == (PressAction::AxisPress {
                device_index: p0.device_index,
                evdev_type,
                evdev_code,
                press_value,
            }) && p1.hold_generation == p0.hold_generation,
            EventType::Command { bash } => press matches PressAction::RunCommands { parts } && parts@.len() >= 1
                && join_parts(views(parts@)) == bash@ && p1.hold_generation == p0.hold_generation,
        },
{
}

} // verus!
