//! Which keyboard and mouse buttons are held, and whether a binding of
//! buttons is pressed. Buttons are known by a number of their own.
use std::collections::HashMap;
use vstd::prelude::*;

verus! {

/// The buttons bound to one control; any of them works it.
#[derive(Debug)]
pub struct InputButtonBind(pub Vec<u32>);

/// The last reported state of each button seen so far.
#[derive(Debug)]
pub struct WinitInputState {
    buttons: HashMap<u32, bool>,
}

impl View for WinitInputState {
    type V = Map<u32, bool>;

    closed spec fn view(&self) -> Map<u32, bool> {
        self.buttons@
    }
}

impl WinitInputState {
    /// No button seen yet.
    pub fn new() -> (r: WinitInputState)
        ensures
            r@ == Map::<u32, bool>::empty(),
    {
        WinitInputState { buttons: HashMap::new() }
    }

    /// Records that the button `code` is now pressed or released.
    pub fn set_button(&mut self, code: u32, pressed: bool)
        ensures
            final(self)@ == old(self)@.insert(code, pressed),
    {
        broadcast use vstd::std_specs::hash::group_hash_axioms;

        self.buttons.insert(code, pressed);
    }

    /// The last reported state of the button `code`, if it was ever reported.
    pub fn get_button(&self, code: u32) -> (r: Option<bool>)
        ensures
            r == (if self@.contains_key(code) {
                Some(self@[code])
            } else {
                None
            }),
    {
        broadcast use vstd::std_specs::hash::group_hash_axioms;

        match self.buttons.get(&code) {
            Some(pressed) => Some(*pressed),
            None => None,
        }
    }

    /// Whether any button of `bind` is pressed.
    pub fn poll_button_bind(&self, bind: &InputButtonBind) -> (r: bool)
        ensures
            r == exists|i: int|
                0 <= i < bind.0@.len() && self@.contains_key(#[trigger] bind.0@[i]) && self@[bind.0@[i]],
    {
        let n = bind.0.len();
        let mut i: usize = 0;
        while i < n
            invariant
                n == bind.0@.len(),
                i <= n,
                forall|k: int|
                    0 <= k < i ==> !(self@.contains_key(#[trigger] bind.0@[k]) && self@[bind.0@[k]]),
            decreases n - i,
        {
            if let Some(true) = self.get_button(bind.0[i]) {
                return true;
            }
            i = i + 1;
        }
        false
    }
}

/// The sign of an axis reading; `Undefined` for a reading that is not a
/// number.
#[derive(Clone, Copy, Debug, PartialEq, Eq, Structural)]
pub enum AxisSign {
    Negative,
    Zero,
    Positive,
    Undefined,
}

/// The movement and action keys a player holds, as sent to the server.
#[derive(Clone, Copy, Debug, PartialEq, Eq, Structural)]
pub struct KeyState {
    pub up: bool,
    pub down: bool,
    pub left: bool,
    pub right: bool,
    pub primary: bool,
    pub secondary: bool,
}

/// The keys a player holds: the movement axes decide the direction when
/// both give a reading (left or right by the sign of the horizontal one,
/// down or up by the sign of the vertical one), else the four direction
/// buttons do; fire and special are the primary and secondary actions.
pub fn key_state(
    movement: Option<(AxisSign, AxisSign)>,
    up: bool,
    down: bool,
    left: bool,
    right: bool,
    fire: bool,
    special: bool,
) -> (r: KeyState)
    ensures
        r.primary == fire,
        r.secondary == special,
        match movement {
            Some((x, y)) => {
                &&& r.left == (x == AxisSign::Negative)
                &&& r.right == (x == AxisSign::Positive)
                &&& r.down == (y == AxisSign::Negative)
                &&& r.up == (y == AxisSign::Positive)
            },
            None => r.up == up && r.down == down && r.left == left && r.right == right,
        },
{
    match movement {
        Some((x, y)) => KeyState {
            up: matches!(y, AxisSign::Positive),
            down: matches!(y, AxisSign::Negative),
            left: matches!(x, AxisSign::Negative),
            right: matches!(x, AxisSign::Positive),
            primary: fire,
            secondary: special,
        },
        None => KeyState { up, down, left, right, primary: fire, secondary: special },
    }
}

} // verus!
