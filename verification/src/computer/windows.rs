//! Desktop input through the Windows input queue: the events of each action,
//! and the releases that follow whatever happens.
use vstd::prelude::*;

use crate::computer;
use crate::computer::batch;
use crate::computer::unix;
use crate::computer::{Action, ActionModel, Button, Direction, Frame, Geometry, Modifier, Point};
use crate::text;
use crate::text::Text;

verus! {

// ---------------------------------------------------------------------------
// Events
// ---------------------------------------------------------------------------
pub const MOUSE_MOVE: u32 = 0xc001;

pub const MOUSE_LEFT_DOWN: u32 = 0x0002;

pub const MOUSE_LEFT_UP: u32 = 0x0004;

pub const MOUSE_RIGHT_DOWN: u32 = 0x0008;

pub const MOUSE_RIGHT_UP: u32 = 0x0010;

pub const MOUSE_MIDDLE_DOWN: u32 = 0x0020;

pub const MOUSE_MIDDLE_UP: u32 = 0x0040;

pub const MOUSE_WHEEL: u32 = 0x0800;

pub const MOUSE_HORIZONTAL_WHEEL: u32 = 0x1000;

pub const KEY_EXTENDED: u32 = 0x0001;

pub const KEY_UP: u32 = 0x0002;

pub const KEY_UNICODE: u32 = 0x0004;

/// The units of one wheel step.
pub const WHEEL_DELTA: u64 = 120;

/// The movements of a drag.
pub const DRAG_STEPS: i64 = 20;

/// The pause before each movement of a drag, in milliseconds.
pub const DRAG_PAUSE_MS: u64 = 10;

/// The pause between two clicks, in milliseconds.
pub const CLICK_PAUSE_MS: u64 = 10;

/// A mouse event.
#[derive(Debug, Clone, Copy, PartialEq, Eq, Structural)]
pub struct MouseInput {
    pub dx: i32,
    pub dy: i32,
    pub mouse_data: u32,
    pub flags: u32,
    pub time: u32,
    pub extra_info: usize,
}

/// A keyboard event.
#[derive(Debug, Clone, Copy, PartialEq, Eq, Structural)]
pub struct KeyboardInput {
    pub virtual_key: u16,
    pub scan_code: u16,
    pub flags: u32,
    pub time: u32,
    pub extra_info: usize,
}

/// An event for the input queue.
#[derive(Debug, Clone, Copy, PartialEq, Eq, Structural)]
pub enum Input {
    Mouse(MouseInput),
    Keyboard(KeyboardInput),
}

/// One thing to do: send an event, press something that is released later,
/// release what was pressed last, or pause.
#[derive(Debug, Clone, Copy, PartialEq, Eq, Structural)]
pub enum Step {
    Send(Input),
    Press { down: Input, up: Input },
    Release,
    Sleep(u64),
}

pub open spec fn mouse(dx: int, dy: int, mouse_data: int, flags: u32) -> Input {
    Input::Mouse(
        MouseInput {
            dx: dx as i32,
            dy: dy as i32,
            mouse_data: mouse_data as u32,
            flags,
            time: 0,
            extra_info: 0,
        },
    )
}

pub open spec fn keyboard(virtual_key: u16, scan_code: u16, flags: u32) -> Input {
    Input::Keyboard(
        KeyboardInput { virtual_key, scan_code, flags, time: 0, extra_info: 0 },
    )
}

/// Whether a key belongs to the extended part of the keyboard.
pub open spec fn is_extended(key: u16) -> bool {
    0x21 <= key <= 0x28 || key == 0x2d || key == 0x2e || key == 0x5b
}

/// Pressing or releasing a key.
pub open spec fn key_event(key: u16, up: bool) -> Input {
    keyboard(
        key,
        0,
        ((if up {
            KEY_UP
        } else {
            0
        }) + (if is_extended(key) {
            KEY_EXTENDED
        } else {
            0
        })) as u32,
    )
}

/// Pressing or releasing a mouse button.
pub open spec fn button_event(button: Button, up: bool) -> Input {
    mouse(
        0,
        0,
        0,
        match (button, up) {
            (Button::Left, false) => MOUSE_LEFT_DOWN,
            (Button::Left, true) => MOUSE_LEFT_UP,
            (Button::Right, false) => MOUSE_RIGHT_DOWN,
            (Button::Right, true) => MOUSE_RIGHT_UP,
            (Button::Middle, false) => MOUSE_MIDDLE_DOWN,
            (Button::Middle, true) => MOUSE_MIDDLE_UP,
        },
    )
}

pub open spec fn key_press(key: u16) -> Step {
    Step::Press { down: key_event(key, false), up: key_event(key, true) }
}

pub open spec fn button_press(button: Button) -> Step {
    Step::Press { down: button_event(button, false), up: button_event(button, true) }
}

/// Typing a UTF-16 unit.
pub open spec fn unit_press(unit: u16) -> Step {
    Step::Press {
        down: keyboard(0, unit, KEY_UNICODE),
        up: keyboard(0, unit, (KEY_UNICODE + KEY_UP) as u32),
    }
}

// ---------------------------------------------------------------------------
// Coordinates
// ---------------------------------------------------------------------------
/// Whether a pixel lies on the desktop.
pub open spec fn on_desktop(g: Geometry, x: int, y: int) -> bool {
    g.x <= x < g.x + g.width && g.y <= y < g.y + g.height
}

/// The centre of a pixel on an axis of 65536 units.
pub open spec fn units(offset: int, size: int) -> int {
    (offset * 65_536 + 32_768) / size
}

/// A pixel of the desktop in units of the whole desktop.
pub open spec fn absolute(g: Geometry, x: int, y: int) -> (int, int) {
    (units(x - g.x, g.width as int), units(y - g.y, g.height as int))
}

proof fn lemma_units(offset: int, size: int)
    requires
        0 <= offset < size,
    ensures
        0 <= units(offset, size) <= 65_535,
{
    assert(0 <= (offset * 65_536 + 32_768) / size <= 65_535) by (nonlinear_arith)
        requires
            0 <= offset < size,
    ;
}

/// The unit of a pixel leads back to the pixel, on axes of up to 32769 pixels.
pub proof fn units_lead_back_to_the_pixel(offset: int, size: int)
    requires
        0 <= offset < size <= 32_769,
    ensures
        units(offset, size) * size / 65_536 == offset,
{
    let n = offset * 65_536 + 32_768;
    let u = units(offset, size);
    assert(u * size <= n && n < u * size + size) by (nonlinear_arith)
        requires
            u == n / size,
            size > 0,
    ;
    assert(offset * 65_536 <= u * size < offset * 65_536 + 65_536);
    assert(u * size / 65_536 == offset) by (nonlinear_arith)
        requires
            offset * 65_536 <= u * size < offset * 65_536 + 65_536,
    ;
}

fn axis_units(offset: i64, size: u32) -> (r: i32)
    requires
        0 <= offset < size,
    ensures
        r == units(offset as int, size as int),
        0 <= r <= 65_535,
{
    proof {
        lemma_units(offset as int, size as int);
    }
    let v: i64 = (offset * 65_536 + 32_768) / size as i64;
    v as i32
}

/// A pixel of the desktop in units of the whole desktop.
pub fn absolute_coordinates(geometry: Geometry, point: (i32, i32)) -> (r: Result<
    (i32, i32),
    String,
>)
    ensures
        match r {
            Ok((x, y)) => on_desktop(geometry, point.0 as int, point.1 as int) && absolute(
                geometry,
                point.0 as int,
                point.1 as int,
            ) == (x as int, y as int) && 0 <= x <= 65_535 && 0 <= y <= 65_535,
            Err(e) => !on_desktop(geometry, point.0 as int, point.1 as int) && e@
                == "desktop coordinate is outside the virtual desktop"@,
        },
{
    let right: i64 = geometry.x as i64 + geometry.width as i64;
    let bottom: i64 = geometry.y as i64 + geometry.height as i64;
    let x = point.0 as i64;
    let y = point.1 as i64;
    if x < geometry.x as i64 || x >= right || y < geometry.y as i64 || y >= bottom {
        return Err("desktop coordinate is outside the virtual desktop".to_string());
    }
    let x = axis_units(x - geometry.x as i64, geometry.width);
    let y = axis_units(y - geometry.y as i64, geometry.height);
    Ok((x, y))
}

// ---------------------------------------------------------------------------
// The events of an action
// ---------------------------------------------------------------------------
/// The steps of an action, up to something that cannot be done.
pub struct PlanModel {
    pub steps: Seq<Step>,
    pub fault: Option<Text>,
}

pub open spec fn nothing() -> PlanModel {
    PlanModel { steps: Seq::empty(), fault: None }
}

pub open spec fn steps(s: Seq<Step>) -> PlanModel {
    PlanModel { steps: s, fault: None }
}

pub open spec fn fault(message: Text) -> PlanModel {
    PlanModel { steps: Seq::empty(), fault: Some(message) }
}

/// One plan after the other; after a fault nothing more is done.
pub open spec fn chained(a: PlanModel, b: PlanModel) -> PlanModel {
    if a.fault is Some {
        a
    } else {
        PlanModel { steps: a.steps + b.steps, fault: b.fault }
    }
}

/// Moving the pointer to a pixel of the desktop.
pub open spec fn move_planned(g: Geometry, x: int, y: int) -> PlanModel {
    if on_desktop(g, x, y) {
        steps(
            seq![
                Step::Send(mouse(absolute(g, x, y).0, absolute(g, x, y).1, 0, MOUSE_MOVE)),
            ],
        )
    } else {
        fault("desktop coordinate is outside the virtual desktop"@)
    }
}

/// Moving the pointer to a point of the screenshot.
pub open spec fn point_planned(frame: Frame, point: Point) -> PlanModel {
    if frame.shows(point) {
        move_planned(frame.geometry, frame.mapped(point).0, frame.mapped(point).1)
    } else {
        fault(frame.outside())
    }
}

/// Pressing a key.
pub open spec fn press_planned(name: Text) -> PlanModel {
    match computer::key_of(name) {
        Some(key) => steps(seq![key_press(key.windows as u16)]),
        None => fault(computer::unknown_key()),
    }
}

/// Pressing keys one after the other.
pub open spec fn presses_planned(names: Seq<Text>) -> PlanModel
    decreases names.len(),
{
    if names.len() == 0 {
        nothing()
    } else {
        chained(presses_planned(names.drop_last()), press_planned(names.last()))
    }
}

/// Clicking a button `n` times, with a pause between two clicks.
pub open spec fn click_steps(button: Button, n: nat) -> Seq<Step>
    decreases n,
{
    if n == 0 {
        Seq::empty()
    } else if n == 1 {
        seq![button_press(button), Step::Release]
    } else {
        click_steps(button, (n - 1) as nat) + seq![
            Step::Sleep(CLICK_PAUSE_MS),
            button_press(button),
            Step::Release,
        ]
    }
}

/// The data of a wheel event: the steps in units, negative ones modulo 2 to the
/// power of 32.
pub open spec fn wheel_data(direction: Direction, amount: u32) -> int {
    let delta = amount * WHEEL_DELTA;
    match direction {
        Direction::Up => delta % 0x1_0000_0000,
        Direction::Right => delta % 0x1_0000_0000,
        Direction::Down => (0x1_0000_0000 - delta % 0x1_0000_0000) % 0x1_0000_0000,
        Direction::Left => (0x1_0000_0000 - delta % 0x1_0000_0000) % 0x1_0000_0000,
    }
}

pub open spec fn wheel_flags(direction: Direction) -> u32 {
    match direction {
        Direction::Up => MOUSE_WHEEL,
        Direction::Down => MOUSE_WHEEL,
        Direction::Left => MOUSE_HORIZONTAL_WHEEL,
        Direction::Right => MOUSE_HORIZONTAL_WHEEL,
    }
}

/// Turning the wheel.
pub open spec fn scroll_planned(direction: Direction, amount: u32) -> PlanModel {
    steps(
        seq![Step::Send(mouse(0, 0, wheel_data(direction, amount), wheel_flags(direction)))],
    )
}

/// The first `n` movements of a drag.
pub open spec fn drag_moves(g: Geometry, from: (int, int), to: (int, int), n: nat) -> PlanModel
    decreases n,
{
    if n == 0 {
        nothing()
    } else {
        chained(
            chained(
                drag_moves(g, from, to, (n - 1) as nat),
                steps(seq![Step::Sleep(DRAG_PAUSE_MS)]),
            ),
            move_planned(
                g,
                unix::part_way(from.0, to.0, n as int, DRAG_STEPS as int),
                unix::part_way(from.1, to.1, n as int, DRAG_STEPS as int),
            ),
        )
    }
}

/// Dragging with a button held.
pub open spec fn drag_planned(
    g: Geometry,
    from: (int, int),
    to: (int, int),
    button: Button,
) -> PlanModel {
    chained(
        chained(
            chained(move_planned(g, from.0, from.1), steps(seq![button_press(button)])),
            drag_moves(g, from, to, DRAG_STEPS as nat),
        ),
        steps(seq![Step::Release]),
    )
}

/// The UTF-16 units of a character.
pub open spec fn utf16(c: char) -> Seq<u16> {
    let v = c as int;
    if v < 0x1_0000 {
        seq![v as u16]
    } else {
        seq![
            (0xd800 + (v - 0x1_0000) / 0x400) as u16,
            (0xdc00 + (v - 0x1_0000) % 0x400) as u16,
        ]
    }
}

/// Typing UTF-16 units.
pub open spec fn unit_steps(units: Seq<u16>) -> Seq<Step>
    decreases units.len(),
{
    if units.len() == 0 {
        Seq::empty()
    } else {
        unit_steps(units.drop_last()) + seq![unit_press(units.last()), Step::Release]
    }
}

/// Typing a text.
pub open spec fn type_steps(s: Text) -> Seq<Step>
    decreases s.len(),
{
    if s.len() == 0 {
        Seq::empty()
    } else {
        type_steps(s.drop_last()) + unit_steps(utf16(s.last()))
    }
}

/// The steps of an action.
pub open spec fn planned(action: ActionModel, frame: Frame) -> PlanModel {
    match action {
        ActionModel::Move { x, y } => point_planned(frame, Point { x, y }),
        ActionModel::Click { x, y, button, count, modifiers } => chained(
            chained(
                presses_planned(unix::modifier_names(modifiers)),
                point_planned(frame, Point { x, y }),
            ),
            steps(click_steps(button, count as nat)),
        ),
        ActionModel::Scroll { x, y, direction, amount, modifiers } => chained(
            chained(
                presses_planned(unix::modifier_names(modifiers)),
                point_planned(frame, Point { x, y }),
            ),
            scroll_planned(direction, amount),
        ),
        ActionModel::Drag { from, to, button, modifiers } => chained(
            presses_planned(unix::modifier_names(modifiers)),
            if !frame.shows(from) || !frame.shows(to) {
                fault(frame.outside())
            } else {
                drag_planned(frame.geometry, frame.mapped(from), frame.mapped(to), button)
            },
        ),
        ActionModel::Key { keys } => presses_planned(keys),
        ActionModel::Type { text } => steps(type_steps(text)),
        ActionModel::Wait { .. } => nothing(),
    }
}

// ---------------------------------------------------------------------------
// Making the plan
// ---------------------------------------------------------------------------
/// The steps of an action, up to something that cannot be done.
#[derive(Debug)]
pub struct Plan {
    pub steps: Vec<Step>,
    pub fault: Option<String>,
}

impl View for Plan {
    type V = PlanModel;

    open spec fn view(&self) -> PlanModel {
        PlanModel { steps: self.steps@, fault: text::opt_text(self.fault) }
    }
}

fn mouse_input(dx: i32, dy: i32, mouse_data: u32, flags: u32) -> (r: Input)
    ensures
        r == mouse(dx as int, dy as int, mouse_data as int, flags),
{
    Input::Mouse(MouseInput { dx, dy, mouse_data, flags, time: 0, extra_info: 0 })
}

fn keyboard_input(virtual_key: u16, scan_code: u16, flags: u32) -> (r: Input)
    ensures
        r == keyboard(virtual_key, scan_code, flags),
{
    Input::Keyboard(KeyboardInput { virtual_key, scan_code, flags, time: 0, extra_info: 0 })
}

/// Pressing or releasing a key.
pub fn key_input(key: u16, key_up: bool) -> (r: Input)
    ensures
        r == key_event(key, key_up),
{
    let extended = (0x21 <= key && key <= 0x28) || key == 0x2d || key == 0x2e || key == 0x5b;
    let up: u32 = if key_up {
        KEY_UP
    } else {
        0
    };
    let flags: u32 = if extended {
        up + KEY_EXTENDED
    } else {
        up
    };
    keyboard_input(key, 0, flags)
}

/// Pressing or releasing a mouse button.
pub fn mouse_button_input(button: Button, button_up: bool) -> (r: Input)
    ensures
        r == button_event(button, button_up),
{
    let flags = match (button, button_up) {
        (Button::Left, false) => MOUSE_LEFT_DOWN,
        (Button::Left, true) => MOUSE_LEFT_UP,
        (Button::Right, false) => MOUSE_RIGHT_DOWN,
        (Button::Right, true) => MOUSE_RIGHT_UP,
        (Button::Middle, false) => MOUSE_MIDDLE_DOWN,
        (Button::Middle, true) => MOUSE_MIDDLE_UP,
    };
    mouse_input(0, 0, 0, flags)
}

proof fn lemma_chained(a: PlanModel, b: PlanModel, c: PlanModel)
    ensures
        chained(chained(a, b), c) == chained(a, chained(b, c)),
{
    assert((a.steps + b.steps) + c.steps =~= a.steps + (b.steps + c.steps));
}

impl Plan {
    fn new() -> (r: Plan)
        ensures
            r@ == nothing(),
    {
        let r = Plan { steps: Vec::new(), fault: None };
        assert(r@.steps =~= Seq::empty());
        r
    }

    fn stop(&mut self, message: String)
        ensures
            final(self)@ == chained(old(self)@, fault(message@)),
    {
        if self.fault.is_none() {
            self.fault = Some(message);
            assert(self@.steps =~= old(self)@.steps + Seq::empty());
        }
    }

    fn add_step(&mut self, step: Step)
        ensures
            final(self)@ == chained(old(self)@, steps(seq![step])),
    {
        if self.fault.is_none() {
            let ghost before = self.steps@;
            self.steps.push(step);
            assert(self.steps@ =~= before + seq![step]);
        }
    }

    fn press_button(&mut self, button: Button)
        ensures
            final(self)@ == chained(old(self)@, steps(seq![button_press(button)])),
    {
        let down = mouse_button_input(button, false);
        let up = mouse_button_input(button, true);
        self.add_step(Step::Press { down, up });
    }

    fn move_to(&mut self, geometry: Geometry, point: (i32, i32))
        ensures
            final(self)@ == chained(
                old(self)@,
                move_planned(geometry, point.0 as int, point.1 as int),
            ),
    {
        match absolute_coordinates(geometry, point) {
            Err(e) => self.stop(e),
            Ok((x, y)) => {
                let input = mouse_input(x, y, 0, MOUSE_MOVE);
                self.add_step(Step::Send(input));
            },
        }
    }

    fn move_to_point(&mut self, frame: Frame, point: Point)
        ensures
            final(self)@ == chained(old(self)@, point_planned(frame, point)),
    {
        match frame.point(point) {
            Err(e) => self.stop(e),
            Ok(pixel) => self.move_to(frame.geometry, pixel),
        }
    }

    fn press(&mut self, name: &str)
        ensures
            final(self)@ == chained(old(self)@, press_planned(name@)),
    {
        match computer::key(name) {
            Err(e) => self.stop(e),
            Ok(key) => {
                let down = key_input(key.windows, false);
                let up = key_input(key.windows, true);
                self.add_step(Step::Press { down, up });
            },
        }
    }

    fn press_all(&mut self, names: &Vec<String>)
        ensures
            final(self)@ == chained(old(self)@, presses_planned(text::strings(names@))),
    {
        let ghost models = text::strings(names@);
        let ghost before = self@;
        assert(chained(before, presses_planned(models.take(0))) =~= before) by {
            assert(before.steps + Seq::empty() =~= before.steps);
        }
        for i in 0..names.len()
            invariant
                models == text::strings(names@),
                self@ == chained(before, presses_planned(models.take(i as int))),
        {
            assert(models.take(i + 1).drop_last() =~= models.take(i as int));
            assert(models.take(i + 1).last() == names@[i as int]@);
            self.press(names[i].as_str());
            proof {
                lemma_chained(
                    before,
                    presses_planned(models.take(i as int)),
                    press_planned(names@[i as int]@),
                );
            }
        }
        assert(models.take(names@.len() as int) =~= models);
    }

    fn press_modifiers(&mut self, modifiers: &Vec<Modifier>)
        ensures
            final(self)@ == chained(
                old(self)@,
                presses_planned(unix::modifier_names(modifiers@)),
            ),
    {
        let ghost models = unix::modifier_names(modifiers@);
        let mut names: Vec<String> = Vec::new();
        for i in 0..modifiers.len()
            invariant
                models == unix::modifier_names(modifiers@),
                text::strings(names@) =~= models.take(i as int),
        {
            let ghost before = names@;
            let name = modifiers[i].name().to_string();
            names.push(name);
            assert(text::strings(names@) =~= text::strings(before).push(name@));
            assert(models.take(i + 1) =~= models.take(i as int).push(
                modifiers@[i as int].called(),
            ));
        }
        assert(models.take(modifiers@.len() as int) =~= models);
        self.press_all(&names);
    }

    fn click(&mut self, button: Button, count: u8)
        ensures
            final(self)@ == chained(old(self)@, steps(click_steps(button, count as nat))),
    {
        let ghost before = self@;
        assert(before.steps + Seq::empty() =~= before.steps);
        for i in 0..count
            invariant
                self@ == chained(before, steps(click_steps(button, i as nat))),
        {
            if i > 0 {
                self.add_step(Step::Sleep(CLICK_PAUSE_MS));
            }
            self.press_button(button);
            self.add_step(Step::Release);
            assert(self@.steps =~= chained(
                before,
                steps(click_steps(button, (i + 1) as nat)),
            ).steps);
        }
    }

    fn scroll(&mut self, direction: Direction, amount: u32)
        ensures
            final(self)@ == chained(old(self)@, scroll_planned(direction, amount)),
    {
        let delta: u64 = amount as u64 * WHEEL_DELTA;
        let forward: u64 = delta % 0x1_0000_0000;
        let backward: u64 = (0x1_0000_0000 - forward) % 0x1_0000_0000;
        let input = match direction {
            Direction::Up => mouse_input(0, 0, forward as u32, MOUSE_WHEEL),
            Direction::Down => mouse_input(0, 0, backward as u32, MOUSE_WHEEL),
            Direction::Left => mouse_input(0, 0, backward as u32, MOUSE_HORIZONTAL_WHEEL),
            Direction::Right => mouse_input(0, 0, forward as u32, MOUSE_HORIZONTAL_WHEEL),
        };
        self.add_step(Step::Send(input));
    }

    fn drag(&mut self, geometry: Geometry, from: (i32, i32), to: (i32, i32), button: Button)
        ensures
            final(self)@ == chained(
                old(self)@,
                drag_planned(
                    geometry,
                    (from.0 as int, from.1 as int),
                    (to.0 as int, to.1 as int),
                    button,
                ),
            ),
    {
        let ghost before = self@;
        let ghost a = (from.0 as int, from.1 as int);
        let ghost b = (to.0 as int, to.1 as int);
        let ghost first = move_planned(geometry, a.0, a.1);
        let ghost second = steps(seq![button_press(button)]);
        self.move_to(geometry, from);
        self.press_button(button);
        let ghost pressed = self@;
        assert(pressed.steps + Seq::empty() =~= pressed.steps);
        let mut n: i64 = 0;
        while n < DRAG_STEPS
            invariant
                0 <= n <= DRAG_STEPS,
                a == (from.0 as int, from.1 as int),
                b == (to.0 as int, to.1 as int),
                self@ == chained(pressed, drag_moves(geometry, a, b, n as nat)),
            decreases DRAG_STEPS - n,
        {
            let ghost moves = drag_moves(geometry, a, b, n as nat);
            let ghost pause = steps(seq![Step::Sleep(DRAG_PAUSE_MS)]);
            n = n + 1;
            self.add_step(Step::Sleep(DRAG_PAUSE_MS));
            let x = unix::part_of_way(from.0, to.0, n, DRAG_STEPS);
            let y = unix::part_of_way(from.1, to.1, n, DRAG_STEPS);
            self.move_to(geometry, (x as i32, y as i32));
            proof {
                let moved = move_planned(geometry, x as int, y as int);
                lemma_chained(pressed, moves, pause);
                lemma_chained(pressed, chained(moves, pause), moved);
            }
        }
        self.add_step(Step::Release);
        proof {
            let moves = drag_moves(geometry, a, b, DRAG_STEPS as nat);
            let last = steps(seq![Step::Release]);
            lemma_chained(before, first, second);
            lemma_chained(before, chained(first, second), moves);
            lemma_chained(before, chained(chained(first, second), moves), last);
        }
    }

    fn type_text(&mut self, s: &str)
        ensures
            final(self)@ == chained(old(self)@, steps(type_steps(s@))),
    {
        let chars = text::chars_of(s);
        let ghost before = self@;
        assert(chars@.take(0) =~= Seq::empty());
        assert(before.steps + Seq::empty() =~= before.steps);
        for i in 0..chars.len()
            invariant
                self@ == chained(before, steps(type_steps(chars@.take(i as int)))),
        {
            assert(chars@.take(i + 1).drop_last() =~= chars@.take(i as int));
            let ghost middle = type_steps(chars@.take(i as int));
            self.type_char(chars[i]);
            assert(self@.steps =~= chained(
                before,
                steps(middle + unit_steps(utf16(chars@[i as int]))),
            ).steps);
        }
        assert(chars@.take(chars@.len() as int) =~= chars@);
    }

    fn type_char(&mut self, c: char)
        ensures
            final(self)@ == chained(old(self)@, steps(unit_steps(utf16(c)))),
    {
        reveal_with_fuel(unit_steps, 3);
        let v: u32 = c as u32;
        if v < 0x1_0000 {
            self.type_unit(v as u16);
            assert(utf16(c).drop_last() =~= Seq::empty());
            assert(self@.steps =~= chained(old(self)@, steps(unit_steps(utf16(c)))).steps);
        } else {
            let high: u16 = (0xd800 + (v - 0x1_0000) / 0x400) as u16;
            let low: u16 = (0xdc00 + (v - 0x1_0000) % 0x400) as u16;
            self.type_unit(high);
            self.type_unit(low);
            assert(utf16(c) =~= seq![high, low]);
            assert(utf16(c).drop_last() =~= seq![high]);
            assert(seq![high].drop_last() =~= Seq::empty());
            assert(self@.steps =~= chained(old(self)@, steps(unit_steps(utf16(c)))).steps);
        }
    }

    fn type_unit(&mut self, unit: u16)
        ensures
            final(self)@ == chained(
                old(self)@,
                steps(seq![unit_press(unit), Step::Release]),
            ),
    {
        let down = keyboard_input(0, unit, KEY_UNICODE);
        let up = keyboard_input(0, unit, KEY_UNICODE + KEY_UP);
        self.add_step(Step::Press { down, up });
        self.add_step(Step::Release);
        assert(self@.steps =~= chained(
            old(self)@,
            steps(seq![unit_press(unit), Step::Release]),
        ).steps);
    }
}

/// The steps of an action. Waiting is no matter of events.
pub fn plan(action: &Action, frame: Frame) -> (r: Plan)
    requires
        !(action@ is Wait),
    ensures
        r@ == planned(action@, frame),
{
    let mut plan = Plan::new();
    let ghost start = plan@;
    match action {
        Action::Move { x, y } => {
            plan.move_to_point(frame, Point { x: *x, y: *y });
        },
        Action::Click { x, y, button, count, modifiers } => {
            let point = Point { x: *x, y: *y };
            plan.press_modifiers(modifiers);
            plan.move_to_point(frame, point);
            plan.click(*button, *count);
            proof {
                let presses = presses_planned(unix::modifier_names(modifiers@));
                let moved = point_planned(frame, point);
                lemma_chained(start, presses, moved);
                lemma_chained(
                    start,
                    chained(presses, moved),
                    steps(click_steps(*button, *count as nat)),
                );
            }
        },
        Action::Scroll { x, y, direction, amount, modifiers } => {
            let point = Point { x: *x, y: *y };
            plan.press_modifiers(modifiers);
            plan.move_to_point(frame, point);
            plan.scroll(*direction, *amount);
            proof {
                let presses = presses_planned(unix::modifier_names(modifiers@));
                let moved = point_planned(frame, point);
                lemma_chained(start, presses, moved);
                lemma_chained(
                    start,
                    chained(presses, moved),
                    scroll_planned(*direction, *amount),
                );
            }
        },
        Action::Drag { from, to, button, modifiers } => {
            plan.press_modifiers(modifiers);
            let ghost presses = presses_planned(unix::modifier_names(modifiers@));
            match (frame.point(*from), frame.point(*to)) {
                (Ok(a), Ok(b)) => {
                    plan.drag(frame.geometry, a, b, *button);
                    proof {
                        lemma_chained(
                            start,
                            presses,
                            drag_planned(
                                frame.geometry,
                                frame.mapped(*from),
                                frame.mapped(*to),
                                *button,
                            ),
                        );
                    }
                },
                (Err(e), _) => {
                    plan.stop(e);
                    proof {
                        lemma_chained(start, presses, fault(frame.outside()));
                    }
                },
                (_, Err(e)) => {
                    plan.stop(e);
                    proof {
                        lemma_chained(start, presses, fault(frame.outside()));
                    }
                },
            }
        },
        Action::Key { keys } => {
            plan.press_all(keys);
        },
        Action::Type { text } => {
            plan.type_text(text.as_str());
        },
        Action::Wait { .. } => {},
    }
    assert(plan@.steps =~= planned(action@, frame).steps);
    plan
}

// ---------------------------------------------------------------------------
// Running the plan
// ---------------------------------------------------------------------------
/// Where the running of a plan stands.
#[derive(Debug, Clone, Copy, PartialEq, Eq, Structural)]
pub enum Phase {
    /// The steps of the action.
    Running,
    /// Releasing what is held.
    Releasing,
    /// Releasing once more what could not be released.
    Retrying,
    Over,
}

/// What to do next. A release with nothing held is a pause of no time.
#[derive(Debug, Clone, Copy, PartialEq, Eq, Structural)]
pub enum Todo {
    Send(Input),
    Sleep(u64),
}

/// A plan being run: the releases of what is held, in the order it was pressed,
/// what could not be released, and what went wrong.
pub struct RunModel {
    pub plan: PlanModel,
    pub at: int,
    pub held: Seq<Input>,
    pub left: Seq<Input>,
    pub phase: Phase,
    pub error: Option<Text>,
    pub cleanup: Option<Text>,
}

/// A plan before its first step.
pub open spec fn run_started(plan: PlanModel) -> RunModel {
    let run = RunModel {
        plan,
        at: 0,
        held: Seq::empty(),
        left: Seq::empty(),
        phase: Phase::Running,
        error: None,
        cleanup: None,
    };
    if plan.steps.len() > 0 {
        run
    } else {
        run.ended(plan.fault)
    }
}

impl RunModel {
    /// The steps of the action are over: what is held is released.
    pub open spec fn ended(self, error: Option<Text>) -> RunModel {
        RunModel {
            error,
            phase: if self.held.len() == 0 {
                Phase::Over
            } else {
                Phase::Releasing
            },
            ..self
        }
    }

    /// After the last release of a round: what could not be released is tried
    /// once more.
    pub open spec fn settled(self) -> RunModel {
        if self.held.len() > 0 {
            self
        } else if self.phase == Phase::Releasing && self.left.len() > 0 {
            RunModel { held: self.left, left: Seq::empty(), phase: Phase::Retrying, ..self }
        } else {
            RunModel { phase: Phase::Over, ..self }
        }
    }

    /// What to do next.
    pub open spec fn todo(self) -> Todo {
        if self.phase == Phase::Running {
            match self.plan.steps[self.at] {
                Step::Send(input) => Todo::Send(input),
                Step::Press { down, .. } => Todo::Send(down),
                Step::Release => if self.held.len() > 0 {
                    Todo::Send(self.held.last())
                } else {
                    Todo::Sleep(0)
                },
                Step::Sleep(ms) => Todo::Sleep(ms),
            }
        } else if self.held.len() > 0 {
            Todo::Send(self.held.last())
        } else {
            Todo::Sleep(0)
        }
    }

    /// The run after a step of the action ended.
    pub open spec fn after_step(self, result: Result<(), Text>) -> RunModel {
        match result {
            Err(e) => self.ended(Some(e)),
            Ok(()) => {
                let held = match self.plan.steps[self.at] {
                    Step::Press { up, .. } => self.held.push(up),
                    Step::Release => if self.held.len() > 0 {
                        self.held.drop_last()
                    } else {
                        self.held
                    },
                    _ => self.held,
                };
                if self.at + 1 < self.plan.steps.len() {
                    RunModel { at: self.at + 1, held, ..self }
                } else {
                    RunModel { held, ..self }.ended(self.plan.fault)
                }
            },
        }
    }

    /// The run after a release ended.
    pub open spec fn after_release(self, result: Result<(), Text>) -> RunModel {
        let held = self.held.drop_last();
        match result {
            Ok(()) => RunModel { held, ..self }.settled(),
            Err(e) => RunModel {
                held,
                left: self.left.push(self.held.last()),
                cleanup: if self.phase == Phase::Releasing && self.cleanup is None {
                    Some(e)
                } else {
                    self.cleanup
                },
                ..self
            }.settled(),
        }
    }

    /// The run after what was to be done ended.
    pub open spec fn after(self, result: Result<(), Text>) -> RunModel {
        match self.phase {
            Phase::Running => self.after_step(result),
            Phase::Releasing => self.after_release(result),
            Phase::Retrying => self.after_release(result),
            Phase::Over => self,
        }
    }

    /// How the action went, once everything is over.
    pub open spec fn outcome(self) -> Result<(), Text> {
        match (self.error, self.cleanup) {
            (Some(e), Some(c)) => Err(e + "; input release also failed: "@ + c),
            (Some(e), None) => Err(e),
            (None, Some(c)) => Err(c),
            (None, None) => Ok(()),
        }
    }

    pub open spec fn wf(self) -> bool {
        &&& self.phase == Phase::Running ==> 0 <= self.at < self.plan.steps.len()
        &&& self.phase == Phase::Releasing || self.phase == Phase::Retrying ==> self.held.len() > 0
        &&& self.phase == Phase::Over ==> self.held.len() == 0
        &&& self.phase == Phase::Running ==> self.left.len() == 0 && self.cleanup is None
        &&& self.phase == Phase::Releasing && self.left.len() > 0 ==> self.cleanup is Some
        &&& self.phase == Phase::Retrying ==> self.cleanup is Some
        &&& self.phase == Phase::Over && self.left.len() > 0 ==> self.cleanup is Some
    }
}

/// A plan being run.
#[derive(Debug)]
pub struct Run {
    pub plan: Plan,
    pub at: usize,
    pub held: Vec<Input>,
    pub left: Vec<Input>,
    pub phase: Phase,
    pub error: Option<String>,
    pub cleanup: Option<String>,
}

impl View for Run {
    type V = RunModel;

    open spec fn view(&self) -> RunModel {
        RunModel {
            plan: self.plan@,
            at: self.at as int,
            held: self.held@,
            left: self.left@,
            phase: self.phase,
            error: text::opt_text(self.error),
            cleanup: text::opt_text(self.cleanup),
        }
    }
}

impl Run {
    fn fault(&self) -> (r: Option<String>)
        ensures
            text::opt_text(r) == self@.plan.fault,
    {
        match &self.plan.fault {
            Some(e) => Some(e.clone()),
            None => None,
        }
    }

    fn end(&mut self, error: Option<String>)
        ensures
            final(self)@ == old(self)@.ended(text::opt_text(error)),
    {
        self.error = error;
        self.phase = if self.held.len() == 0 {
            Phase::Over
        } else {
            Phase::Releasing
        };
    }

    /// A plan before its first step.
    pub fn start(plan: Plan) -> (r: Run)
        ensures
            r@ == run_started(plan@),
            r@.wf(),
    {
        let count: usize = plan.steps.len();
        let mut run = Run {
            plan,
            at: 0,
            held: Vec::new(),
            left: Vec::new(),
            phase: Phase::Running,
            error: None,
            cleanup: None,
        };
        assert(run@.held =~= Seq::empty());
        assert(run@.left =~= Seq::empty());
        if count == 0 {
            let fault = run.fault();
            run.end(fault);
        }
        run
    }

    /// What to do next.
    pub fn next_todo(&self) -> (r: Todo)
        requires
            self@.wf(),
            self@.phase != Phase::Over,
        ensures
            r == self@.todo(),
    {
        let count: usize = self.held.len();
        if self.phase == Phase::Running {
            match self.plan.steps[self.at] {
                Step::Send(input) => Todo::Send(input),
                Step::Press { down, .. } => Todo::Send(down),
                Step::Release => if count > 0 {
                    Todo::Send(self.held[count - 1])
                } else {
                    Todo::Sleep(0)
                },
                Step::Sleep(ms) => Todo::Sleep(ms),
            }
        } else if count > 0 {
            Todo::Send(self.held[count - 1])
        } else {
            Todo::Sleep(0)
        }
    }

    fn advance_step(&mut self, result: Result<(), String>)
        requires
            old(self)@.wf(),
            old(self)@.phase == Phase::Running,
        ensures
            final(self)@ == old(self)@.after_step(batch::unit_result(result)),
            final(self)@.wf(),
    {
        match result {
            Err(e) => self.end(Some(e)),
            Ok(()) => {
                match self.plan.steps[self.at] {
                    Step::Press { up, .. } => {
                        self.held.push(up);
                    },
                    Step::Release => {
                        if self.held.len() > 0 {
                            self.held.pop();
                            assert(self.held@ =~= old(self).held@.drop_last());
                        }
                    },
                    _ => {},
                }
                let count: usize = self.plan.steps.len();
                if self.at + 1 < count {
                    self.at = self.at + 1;
                } else {
                    let fault = self.fault();
                    self.end(fault);
                }
            },
        }
    }

    fn settle(&mut self)
        requires
            old(self)@.phase == Phase::Releasing || old(self)@.phase == Phase::Retrying,
        ensures
            final(self)@ == old(self)@.settled(),
    {
        if self.held.len() == 0 {
            if self.phase == Phase::Releasing && self.left.len() > 0 {
                let mut next: Vec<Input> = Vec::new();
                for i in 0..self.left.len()
                    invariant
                        next@ =~= self.left@.take(i as int),
                {
                    next.push(self.left[i]);
                }
                assert(self.left@.take(self.left@.len() as int) =~= self.left@);
                self.held = next;
                self.left = Vec::new();
                self.phase = Phase::Retrying;
                assert(self.left@ =~= Seq::empty());
            } else {
                self.phase = Phase::Over;
            }
        }
    }

    fn advance_release(&mut self, result: Result<(), String>)
        requires
            old(self)@.wf(),
            old(self)@.phase == Phase::Releasing || old(self)@.phase == Phase::Retrying,
        ensures
            final(self)@ == old(self)@.after_release(batch::unit_result(result)),
            final(self)@.wf(),
    {
        let count: usize = self.held.len();
        let last = self.held[count - 1];
        self.held.pop();
        assert(self.held@ =~= old(self).held@.drop_last());
        if let Err(e) = result {
            self.left.push(last);
            if self.phase == Phase::Releasing && self.cleanup.is_none() {
                self.cleanup = Some(e);
            }
        }
        self.settle();
    }

    /// Goes on after what was to be done ended.
    pub fn advance(&mut self, result: Result<(), String>)
        requires
            old(self)@.wf(),
            old(self)@.phase != Phase::Over,
        ensures
            final(self)@ == old(self)@.after(batch::unit_result(result)),
            final(self)@.wf(),
    {
        if self.phase == Phase::Running {
            self.advance_step(result);
        } else {
            self.advance_release(result);
        }
    }

    /// How the action went, once everything is over.
    pub fn finish(self) -> (r: Result<(), String>)
        ensures
            batch::unit_result(r) == self@.outcome(),
    {
        match (self.error, self.cleanup) {
            (Some(e), Some(c)) => {
                let mut message = e;
                message.append("; input release also failed: ");
                message.append(c.as_str());
                Err(message)
            },
            (Some(e), None) => Err(e),
            (None, Some(c)) => Err(c),
            (None, None) => Ok(()),
        }
    }
}

// ---------------------------------------------------------------------------
// Laws
// ---------------------------------------------------------------------------
/// The run after a number of steps.
pub open spec fn run_after(plan: PlanModel, results: Seq<Result<(), Text>>) -> RunModel
    decreases results.len(),
{
    if results.len() == 0 {
        run_started(plan)
    } else {
        run_after(plan, results.drop_last()).after(results.last())
    }
}

/// However the steps go, the run ends only when a release was sent for all that
/// is held; and where something stays pressed in spite of two tries, the action
/// is reported as failed.
pub proof fn nothing_stays_pressed_unreported(plan: PlanModel, results: Seq<Result<(), Text>>)
    ensures
        ({
            let run = run_after(plan, results);
            &&& run.wf()
            &&& run.phase == Phase::Over ==> run.held.len() == 0
            &&& run.phase == Phase::Over && run.outcome() is Ok ==> run.left.len() == 0
        }),
    decreases results.len(),
{
    if results.len() > 0 {
        nothing_stays_pressed_unreported(plan, results.drop_last());
    }
}

// ---------------------------------------------------------------------------
// The desktop
// ---------------------------------------------------------------------------
/// The desktop that the system metrics tell of, where it is not empty.
pub fn geometry_of(x: i32, y: i32, width: i32, height: i32) -> (r: Option<Geometry>)
    ensures
        match r {
            Some(g) => width > 0 && height > 0 && g.x == x && g.y == y && g.width == width
                && g.height == height,
            None => width <= 0 || height <= 0,
        },
{
    if width <= 0 || height <= 0 {
        None
    } else {
        Some(Geometry { x, y, width: width as u32, height: height as u32 })
    }
}

/// Checks that the desktop still looks as the screenshot showed it.
pub fn check_geometry(actual: Geometry, frame: Frame) -> (r: Result<(), String>)
    ensures
        match r {
            Ok(()) => actual == frame.geometry,
            Err(e) => actual != frame.geometry && e@
                == "desktop geometry changed; refusing to use stale coordinates"@,
        },
{
    if actual == frame.geometry {
        Ok(())
    } else {
        Err("desktop geometry changed; refusing to use stale coordinates".to_string())
    }
}

/// A text without the zero characters at its end.
pub open spec fn without_zeros(s: Text) -> Text
    decreases s.len(),
{
    if s.len() > 0 && s.last() == '\0' {
        without_zeros(s.drop_last())
    } else {
        s
    }
}

/// Why a desktop of this name takes no input.
pub open spec fn desktop_fault(name: Text) -> Option<Text> {
    let name = text::lower_text(without_zeros(name));
    if name.len() == 0 {
        Some("the interactive input desktop has no name"@)
    } else if name == "winlogon"@ || name == "screen-saver"@ || name == "screensaver"@ {
        Some("the interactive desktop is locked"@)
    } else {
        None
    }
}

/// Checks the name of the desktop that has the input.
pub fn check_desktop_name(name: &str) -> (r: Result<(), String>)
    ensures
        match r {
            Ok(()) => desktop_fault(name@) == None::<Text>,
            Err(e) => desktop_fault(name@) == Some(e@),
        },
{
    let chars = text::chars_of(name);
    let mut end: usize = chars.len();
    assert(chars@.take(end as int) =~= chars@);
    while end > 0 && chars[end - 1] == '\0'
        invariant
            end <= chars@.len(),
            without_zeros(chars@) == without_zeros(chars@.take(end as int)),
        decreases end,
    {
        assert(chars@.take(end as int).drop_last() =~= chars@.take(end - 1));
        end = end - 1;
    }
    let ghost kept = without_zeros(name@);
    assert(kept == chars@.take(end as int));
    let mut low: Vec<char> = Vec::new();
    for i in 0..end
        invariant
            end <= chars@.len(),
            low@ =~= text::lower_text(chars@.take(i as int)),
    {
        low.push(text::to_lower(chars[i]));
    }
    assert(low@ == text::lower_text(kept));
    if low.len() == 0 {
        return Err("the interactive input desktop has no name".to_string());
    }
    if text::chars_are(&low, "winlogon") || text::chars_are(&low, "screen-saver")
        || text::chars_are(&low, "screensaver") {
        return Err("the interactive desktop is locked".to_string());
    }
    Ok(())
}

} // verus!
