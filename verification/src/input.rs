//! The keyboard state and the decisions taken on key and pointer events:
//! which keys are held, and what each event asks the viewer to do.
use vstd::prelude::*;
use crate::text::owned;

verus! {

/// What a key press asks the viewer to do, beyond updating the key state.
#[derive(Clone, Copy, Debug, PartialEq, Eq, Structural)]
pub enum KeyAction {
    Nothing,
    /// Escape while zoomed in.
    ZoomOut,
    /// Enter while not zoomed in.
    ZoomInCurrent,
    /// `g`: goes home when it quickly follows another `g`.
    TapG,
    /// `b`: toggles rail mode when it quickly follows another `b`.
    TapB,
    /// `h`, `j`, `k` or `l` in rail mode: aim along an edge that way.
    NavigateRail(char),
}

/// What releasing the pointer asks the viewer to do.
#[derive(Clone, Copy, Debug, PartialEq, Eq, Structural)]
pub enum PointerAction {
    Nothing,
    /// Release the dragged node with the drag's velocity.
    EndNodeDrag,
    /// Zoom in on the current node (a double click).
    ZoomInCurrent,
    /// Select the node under the pointer (a single click).
    Click,
}

/// The keys that the viewer handles itself, whose default the page skips.
pub open spec fn is_navigation_key(key: Seq<char>) -> bool {
    ||| key == "h"@
    ||| key == "j"@
    ||| key == "k"@
    ||| key == "l"@
    ||| key == "g"@
    ||| key == "b"@
    ||| key == "Enter"@
    ||| key == "Escape"@
    ||| key == "ArrowLeft"@
    ||| key == "ArrowRight"@
    ||| key == "ArrowUp"@
    ||| key == "ArrowDown"@
}

/// The direction of a lower-case `h`, `j`, `k` or `l` key.
pub open spec fn vim_dir(key: Seq<char>) -> Option<char> {
    if key == "h"@ {
        Some('h')
    } else if key == "j"@ {
        Some('j')
    } else if key == "k"@ {
        Some('k')
    } else if key == "l"@ {
        Some('l')
    } else {
        None
    }
}

/// The direction of an `h`, `j`, `k` or `l` key in either case.
pub open spec fn any_case_dir(key: Seq<char>) -> Option<char> {
    if key == "H"@ {
        Some('h')
    } else if key == "J"@ {
        Some('j')
    } else if key == "K"@ {
        Some('k')
    } else if key == "L"@ {
        Some('l')
    } else {
        vim_dir(key)
    }
}

/// What a key press asks for.
pub open spec fn keydown_action(key: Seq<char>, shift: bool, rail_mode: bool, zoomed_in: bool) -> KeyAction {
    if key == "Shift"@ {
        KeyAction::Nothing
    } else if key == "Escape"@ {
        if zoomed_in { KeyAction::ZoomOut } else { KeyAction::Nothing }
    } else if key == "Enter"@ {
        if !zoomed_in { KeyAction::ZoomInCurrent } else { KeyAction::Nothing }
    } else if key == "g"@ {
        KeyAction::TapG
    } else if key == "b"@ {
        KeyAction::TapB
    } else if rail_mode && shift && any_case_dir(key) is Some {
        KeyAction::Nothing
    } else if rail_mode && vim_dir(key) is Some {
        KeyAction::NavigateRail(vim_dir(key)->0)
    } else {
        KeyAction::Nothing
    }
}

/// `keys` with `c` added at the end unless already held.
pub open spec fn with_key(keys: Seq<char>, c: char) -> Seq<char> {
    if keys.contains(c) { keys } else { keys.push(c) }
}

/// `keys` without `c`.
pub open spec fn without_key(keys: Seq<char>, c: char) -> Seq<char>
    decreases keys.len(),
{
    if keys.len() == 0 {
        keys
    } else {
        let p = without_key(keys.drop_last(), c);
        if keys.last() != c { p.push(keys.last()) } else { p }
    }
}

/// The held keys and modifiers.
pub struct InputState {
    /// The `h`/`j`/`k`/`l` keys held down (each at most once).
    pub keys_held: Vec<char>,
    pub shift_held: bool,
    /// The direction the current node moves in (Shift+hjkl in rail mode).
    pub move_node_dir: Option<char>,
    pub arrow_left: bool,
    pub arrow_right: bool,
    pub arrow_up: bool,
    pub arrow_down: bool,
}

/// The mathematical form of an `InputState`.
pub struct InputStateView {
    pub keys_held: Seq<char>,
    pub shift_held: bool,
    pub move_node_dir: Option<char>,
    pub arrow_left: bool,
    pub arrow_right: bool,
    pub arrow_up: bool,
    pub arrow_down: bool,
}

impl View for InputState {
    type V = InputStateView;

    open spec fn view(&self) -> InputStateView {
        InputStateView {
            keys_held: self.keys_held@,
            shift_held: self.shift_held,
            move_node_dir: self.move_node_dir,
            arrow_left: self.arrow_left,
            arrow_right: self.arrow_right,
            arrow_up: self.arrow_up,
            arrow_down: self.arrow_down,
        }
    }
}

impl InputStateView {
    /// The key state after a key press.
    pub open spec fn after_keydown(self, key: Seq<char>, shift: bool, rail_mode: bool) -> InputStateView {
        if key == "Shift"@ {
            InputStateView { shift_held: true, ..self }
        } else if key == "Escape"@ || key == "Enter"@ || key == "g"@ || key == "b"@ {
            self
        } else if rail_mode && shift && any_case_dir(key) is Some {
            InputStateView { move_node_dir: any_case_dir(key), ..self }
        } else if rail_mode && vim_dir(key) is Some {
            self
        } else if vim_dir(key) is Some {
            InputStateView { keys_held: with_key(self.keys_held, vim_dir(key)->0), ..self }
        } else if key == "ArrowLeft"@ {
            InputStateView { arrow_left: true, ..self }
        } else if key == "ArrowRight"@ {
            InputStateView { arrow_right: true, ..self }
        } else if key == "ArrowUp"@ {
            InputStateView { arrow_up: true, ..self }
        } else if key == "ArrowDown"@ {
            InputStateView { arrow_down: true, ..self }
        } else {
            self
        }
    }

    /// The key state after a key release.
    pub open spec fn after_keyup(self, key: Seq<char>) -> InputStateView {
        if key == "Shift"@ {
            InputStateView { shift_held: false, move_node_dir: None, ..self }
        } else if vim_dir(key) is Some {
            let c = vim_dir(key)->0;
            InputStateView {
                keys_held: without_key(self.keys_held, c),
                move_node_dir: if self.move_node_dir == Some(c) { None } else { self.move_node_dir },
                ..self
            }
        } else if key == "ArrowLeft"@ {
            InputStateView { arrow_left: false, ..self }
        } else if key == "ArrowRight"@ {
            InputStateView { arrow_right: false, ..self }
        } else if key == "ArrowUp"@ {
            InputStateView { arrow_up: false, ..self }
        } else if key == "ArrowDown"@ {
            InputStateView { arrow_down: false, ..self }
        } else {
            self
        }
    }
}

/// Whether `key` is the key named `name`.
fn is_key(key: &str, name: &str) -> (r: bool)
    ensures
        r == (key@ == name@),
{
    owned(key) == owned(name)
}

/// The direction of a lower-case `h`, `j`, `k` or `l` key.
fn vim_dir_of(key: &str) -> (r: Option<char>)
    ensures
        r == vim_dir(key@),
{
    if is_key(key, "h") {
        Some('h')
    } else if is_key(key, "j") {
        Some('j')
    } else if is_key(key, "k") {
        Some('k')
    } else if is_key(key, "l") {
        Some('l')
    } else {
        None
    }
}

/// The direction of an `h`, `j`, `k` or `l` key in either case.
fn any_case_dir_of(key: &str) -> (r: Option<char>)
    ensures
        r == any_case_dir(key@),
{
    if is_key(key, "H") {
        Some('h')
    } else if is_key(key, "J") {
        Some('j')
    } else if is_key(key, "K") {
        Some('k')
    } else if is_key(key, "L") {
        Some('l')
    } else {
        vim_dir_of(key)
    }
}

/// The unit step of a direction key on screen (x to the right, y down):
/// `h` left, `l` right, `k` up, `j` down.
pub fn direction_offset(dir: char) -> (r: Option<(i8, i8)>)
    ensures
        r == if dir == 'h' {
            Some((-1i8, 0i8))
        } else if dir == 'l' {
            Some((1i8, 0i8))
        } else if dir == 'k' {
            Some((0i8, -1i8))
        } else if dir == 'j' {
            Some((0i8, 1i8))
        } else {
            None::<(i8, i8)>
        },
{
    match dir {
        'h' => Some((-1, 0)),
        'l' => Some((1, 0)),
        'k' => Some((0, -1)),
        'j' => Some((0, 1)),
        _ => None,
    }
}

/// Whether the page's default handling of `key` is skipped.
pub fn is_navigation_key_name(key: &str) -> (r: bool)
    ensures
        r == is_navigation_key(key@),
{
    is_key(key, "h") || is_key(key, "j") || is_key(key, "k") || is_key(key, "l") || is_key(key, "g")
        || is_key(key, "b") || is_key(key, "Enter") || is_key(key, "Escape") || is_key(
        key,
        "ArrowLeft",
    ) || is_key(key, "ArrowRight") || is_key(key, "ArrowUp") || is_key(key, "ArrowDown")
}

/// What releasing the pointer asks for: a dragged node is released; after a
/// short drag, a double click zooms in (unless already zoomed in) and a
/// single click selects.
pub fn pointer_release_action(
    was_dragging_node: bool,
    short_drag: bool,
    double_click: bool,
    zoomed_in: bool,
) -> (r: PointerAction)
    ensures
        r == if was_dragging_node {
            PointerAction::EndNodeDrag
        } else if short_drag && double_click && !zoomed_in {
            PointerAction::ZoomInCurrent
        } else if short_drag && !double_click {
            PointerAction::Click
        } else {
            PointerAction::Nothing
        },
{
    if was_dragging_node {
        PointerAction::EndNodeDrag
    } else if short_drag {
        if double_click && !zoomed_in {
            PointerAction::ZoomInCurrent
        } else if !double_click {
            PointerAction::Click
        } else {
            PointerAction::Nothing
        }
    } else {
        PointerAction::Nothing
    }
}

impl InputState {
    /// No key held.
    pub fn new() -> (r: Self)
        ensures
            r@ == (InputStateView {
                keys_held: Seq::empty(),
                shift_held: false,
                move_node_dir: None,
                arrow_left: false,
                arrow_right: false,
                arrow_up: false,
                arrow_down: false,
            }),
    {
        let r = InputState {
            keys_held: Vec::new(),
            shift_held: false,
            move_node_dir: None,
            arrow_left: false,
            arrow_right: false,
            arrow_up: false,
            arrow_down: false,
        };
        r
    }

    /// Whether `key` is held.
    pub fn key_held(&self, key: char) -> (r: bool)
        ensures
            r == self@.keys_held.contains(key),
    {
        let mut i: usize = 0;
        while i < self.keys_held.len()
            invariant
                0 <= i <= self.keys_held@.len(),
                forall|j: int| 0 <= j < i ==> self.keys_held@[j] != key,
            decreases self.keys_held.len() - i,
        {
            if self.keys_held[i] == key {
                assert(self.keys_held@.contains(key));
                return true;
            }
            i += 1;
        }
        assert(!self.keys_held@.contains(key));
        false
    }

    fn hold(&mut self, key: char)
        ensures
            final(self)@ == (InputStateView { keys_held: with_key(old(self)@.keys_held, key), ..old(self)@ }),
    {
        if !self.key_held(key) {
            self.keys_held.push(key);
        }
    }

    fn release(&mut self, key: char)
        ensures
            final(self)@ == (InputStateView { keys_held: without_key(old(self)@.keys_held, key), ..old(self)@ }),
    {
        let ghost before = self.keys_held@;
        let mut kept: Vec<char> = Vec::new();
        let mut i: usize = 0;
        assert(before.take(0) =~= Seq::<char>::empty());
        while i < self.keys_held.len()
            invariant
                0 <= i <= self.keys_held@.len(),
                before == self.keys_held@,
                kept@ == without_key(before.take(i as int), key),
            decreases self.keys_held.len() - i,
        {
            let c = self.keys_held[i];
            assert(before.take(i + 1).drop_last() =~= before.take(i as int));
            if c != key {
                kept.push(c);
            }
            i += 1;
        }
        assert(before.take(before.len() as int) =~= before);
        self.keys_held = kept;
    }

    /// Handles a key press: updates the held keys and modifiers and returns
    /// what else the press asks for. `shift` is whether Shift is down,
    /// `rail_mode` and `zoomed_in` describe the viewer.
    pub fn keydown(&mut self, key: &str, shift: bool, rail_mode: bool, zoomed_in: bool) -> (r: KeyAction)
        ensures
            r == keydown_action(key@, shift, rail_mode, zoomed_in),
            final(self)@ == old(self)@.after_keydown(key@, shift, rail_mode),
    {
        if is_key(key, "Shift") {
            self.shift_held = true;
            return KeyAction::Nothing;
        }
        if is_key(key, "Escape") {
            return if zoomed_in { KeyAction::ZoomOut } else { KeyAction::Nothing };
        }
        if is_key(key, "Enter") {
            return if !zoomed_in { KeyAction::ZoomInCurrent } else { KeyAction::Nothing };
        }
        if is_key(key, "g") {
            return KeyAction::TapG;
        }
        if is_key(key, "b") {
            return KeyAction::TapB;
        }
        let any_dir = any_case_dir_of(key);
        if rail_mode && shift && any_dir.is_some() {
            self.move_node_dir = any_dir;
            return KeyAction::Nothing;
        }
        let dir = vim_dir_of(key);
        if rail_mode {
            match dir {
                Some(c) => {
                    return KeyAction::NavigateRail(c);
                },
                None => {},
            }
        }
        match dir {
            Some(c) => self.hold(c),
            None => {
                if is_key(key, "ArrowLeft") {
                    self.arrow_left = true;
                } else if is_key(key, "ArrowRight") {
                    self.arrow_right = true;
                } else if is_key(key, "ArrowUp") {
                    self.arrow_up = true;
                } else if is_key(key, "ArrowDown") {
                    self.arrow_down = true;
                }
            },
        }
        KeyAction::Nothing
    }

    /// Handles a key release.
    pub fn keyup(&mut self, key: &str)
        ensures
            final(self)@ == old(self)@.after_keyup(key@),
    {
        if is_key(key, "Shift") {
            self.shift_held = false;
            self.move_node_dir = None;
            return;
        }
        match vim_dir_of(key) {
            Some(c) => {
                self.release(c);
                if self.move_node_dir == Some(c) {
                    self.move_node_dir = None;
                }
            },
            None => {
                if is_key(key, "ArrowLeft") {
                    self.arrow_left = false;
                } else if is_key(key, "ArrowRight") {
                    self.arrow_right = false;
                } else if is_key(key, "ArrowUp") {
                    self.arrow_up = false;
                } else if is_key(key, "ArrowDown") {
                    self.arrow_down = false;
                }
            },
        }
    }
}

} // verus!
