//! Pointer and keyboard input.

use ironrdp_input::{
    Database, MouseButton as RdpButton, MousePosition, Operation as RdpOperation, WheelRotations,
};
use ironrdp_pdu::input::fast_path::FastPathInputEvent;
use vstd::prelude::*;

verus! {

/// A mouse button.
#[derive(Debug, Clone, Copy, PartialEq, Eq)]
pub enum MouseButton {
    /// The left button.
    Left,
    /// The middle button.
    Middle,
    /// The right button.
    Right,
    /// Typically the browser's back button.
    X1,
    /// Typically the browser's forward button.
    X2,
}

/// One thing that a user does with a pointer or a keyboard.
#[derive(Debug, Clone, Copy, PartialEq, Eq)]
pub enum Operation {
    /// A mouse button goes down.
    MouseButtonPressed(MouseButton),
    /// A mouse button goes up.
    MouseButtonReleased(MouseButton),
    /// The pointer moves to a position.
    MouseMove {
        /// Distance from the left edge.
        x: u16,
        /// Distance from the top edge.
        y: u16,
    },
    /// A wheel rotates.
    WheelRotations {
        /// Whether it is the vertical wheel.
        is_vertical: bool,
        /// By how much.
        rotation_units: i16,
    },
    /// A key goes down, by scancode.
    KeyPressed(u16),
    /// A key goes up, by scancode.
    KeyReleased(u16),
    /// A key goes down, by character.
    UnicodeKeyPressed(char),
    /// A key goes up, by character.
    UnicodeKeyReleased(char),
}

// ---------------------------------------------------------------------------
// What is pressed
// ---------------------------------------------------------------------------

/// What is pressed, and where the pointer is.
#[verifier::ext_equal]
pub struct InputState {
    /// The mouse buttons that are down.
    pub buttons: Set<MouseButton>,
    /// The keys that are down: whether each is an extended one, and its code.
    pub keys: Set<(bool, u8)>,
    /// The characters whose keys are down.
    pub chars: Set<char>,
    /// Where the pointer is.
    pub position: (u16, u16),
}

/// The key of a scancode: its three highest bits are set if it is an extended one, and its lowest
/// byte is its code.
pub open spec fn key_of(scancode: u16) -> (bool, u8) {
    (scancode >= 0xe000, (scancode % 256) as u8)
}

/// Nothing is pressed, and the pointer is in the corner.
pub open spec fn at_rest() -> InputState {
    InputState {
        buttons: Set::empty(),
        keys: Set::empty(),
        chars: Set::empty(),
        position: (0, 0),
    }
}

/// `operation` is to be sent: all are but the release of what is not pressed, the press of a mouse
/// button that is, and a move to where the pointer is.
pub open spec fn is_sent(state: InputState, operation: Operation) -> bool {
    match operation {
        Operation::MouseButtonPressed(button) => !state.buttons.contains(button),
        Operation::MouseButtonReleased(button) => state.buttons.contains(button),
        Operation::MouseMove { x, y } => state.position != (x, y),
        Operation::WheelRotations { .. } => true,
        Operation::KeyPressed(_) => true,
        Operation::KeyReleased(scancode) => state.keys.contains(key_of(scancode)),
        Operation::UnicodeKeyPressed(_) => true,
        Operation::UnicodeKeyReleased(ch) => state.chars.contains(ch),
    }
}

/// What is pressed, and where the pointer is, after `operation`.
pub open spec fn after_operation(state: InputState, operation: Operation) -> InputState {
    match operation {
        Operation::MouseButtonPressed(button) => InputState {
            buttons: state.buttons.insert(button),
            ..state
        },
        Operation::MouseButtonReleased(button) => InputState {
            buttons: state.buttons.remove(button),
            ..state
        },
        Operation::MouseMove { x, y } => InputState { position: (x, y), ..state },
        Operation::WheelRotations { .. } => state,
        Operation::KeyPressed(scancode) => InputState {
            keys: state.keys.insert(key_of(scancode)),
            ..state
        },
        Operation::KeyReleased(scancode) => InputState {
            keys: state.keys.remove(key_of(scancode)),
            ..state
        },
        Operation::UnicodeKeyPressed(ch) => InputState { chars: state.chars.insert(ch), ..state },
        Operation::UnicodeKeyReleased(ch) => InputState { chars: state.chars.remove(ch), ..state },
    }
}

/// An operation that is not sent changes nothing.
pub proof fn what_is_not_sent_changes_nothing(state: InputState, operation: Operation)
    requires
        !is_sent(state, operation),
    ensures
        after_operation(state, operation) == state,
{
    assert(after_operation(state, operation) =~= state);
}

/// The same operation again changes nothing more.
pub proof fn repeating_an_operation_changes_nothing(state: InputState, operation: Operation)
    ensures
        after_operation(after_operation(state, operation), operation) == after_operation(
            state,
            operation,
        ),
{
    assert(after_operation(after_operation(state, operation), operation) =~= after_operation(
        state,
        operation,
    ));
}

/// What was pressed can be released, and what was not pressed before is not pressed afterwards.
pub proof fn a_release_undoes_a_press(
    state: InputState,
    button: MouseButton,
    scancode: u16,
    ch: char,
)
    requires
        !state.buttons.contains(button),
        !state.keys.contains(key_of(scancode)),
        !state.chars.contains(ch),
    ensures
        ({
            let pressed = after_operation(state, Operation::MouseButtonPressed(button));
            &&& is_sent(pressed, Operation::MouseButtonReleased(button))
            &&& after_operation(pressed, Operation::MouseButtonReleased(button)) == state
        }),
        ({
            let pressed = after_operation(state, Operation::KeyPressed(scancode));
            &&& is_sent(pressed, Operation::KeyReleased(scancode))
            &&& after_operation(pressed, Operation::KeyReleased(scancode)) == state
        }),
        ({
            let pressed = after_operation(state, Operation::UnicodeKeyPressed(ch));
            &&& is_sent(pressed, Operation::UnicodeKeyReleased(ch))
            &&& after_operation(pressed, Operation::UnicodeKeyReleased(ch)) == state
        }),
{
    let pressed = after_operation(state, Operation::MouseButtonPressed(button));
    assert(after_operation(pressed, Operation::MouseButtonReleased(button)) =~= state);
    let pressed = after_operation(state, Operation::KeyPressed(scancode));
    assert(after_operation(pressed, Operation::KeyReleased(scancode)) =~= state);
    let pressed = after_operation(state, Operation::UnicodeKeyPressed(ch));
    assert(after_operation(pressed, Operation::UnicodeKeyReleased(ch)) =~= state);
}

// ---------------------------------------------------------------------------
// The outside database
// ---------------------------------------------------------------------------

/// `ironrdp_input::Database`, which keeps track of what is pressed.
#[verifier::external_type_specification]
#[verifier::external_body]
pub struct ExDatabase(Database);

/// `ironrdp_pdu::input::fast_path::FastPathInputEvent`, an input event as it is sent.
#[verifier::external_type_specification]
#[verifier::external_body]
pub struct ExFastPathInputEvent(FastPathInputEvent);

/// What an input database holds.
pub uninterp spec fn input_state(database: Database) -> InputState;

/// The events to send for `operation` when `state` is what the database holds.
pub uninterp spec fn input_events(state: InputState, operation: Operation) -> Seq<
    FastPathInputEvent,
>;

/// `Database::new` holds nothing pressed.
pub assume_specification[ Database::new ]() -> (database: Database)
    ensures
        input_state(database) == at_rest(),
;

/// `Database::apply` with a single operation: the database follows it, and the events to send are
/// determined by what it held and by the operation. There are none exactly for operations that are
/// ignored. What the events are is left to their name.
#[verifier::external_body]
pub(crate) fn apply_operation(database: &mut Database, operation: Operation) -> (events: Vec<
    FastPathInputEvent,
>)
    ensures
        input_state(*final(database)) == after_operation(input_state(*old(database)), operation),
        events@ == input_events(input_state(*old(database)), operation),
        events@.len() > 0 <==> is_sent(input_state(*old(database)), operation),
{
    let rdp = |button: MouseButton| RdpButton::from_idx(button as usize).expect("five buttons");
    let operation = match operation {
        Operation::MouseButtonPressed(button) => RdpOperation::MouseButtonPressed(rdp(button)),
        Operation::MouseButtonReleased(button) => RdpOperation::MouseButtonReleased(rdp(button)),
        Operation::MouseMove { x, y } => RdpOperation::MouseMove(MousePosition { x, y }),
        Operation::WheelRotations { is_vertical, rotation_units } => {
            RdpOperation::WheelRotations(WheelRotations { is_vertical, rotation_units })
        }
        Operation::KeyPressed(scancode) => RdpOperation::KeyPressed(scancode.into()),
        Operation::KeyReleased(scancode) => RdpOperation::KeyReleased(scancode.into()),
        Operation::UnicodeKeyPressed(ch) => RdpOperation::UnicodeKeyPressed(ch),
        Operation::UnicodeKeyReleased(ch) => RdpOperation::UnicodeKeyReleased(ch),
    };
    database.apply([operation]).into_vec()
}

} // verus!
