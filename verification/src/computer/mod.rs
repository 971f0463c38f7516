//! Desktop input: batches of actions, where they point on the desktop, and when
//! a batch is refused.
use vstd::prelude::*;
use vstd::string::StrSliceExecFns;

pub use crate::computer::batch::Output;
use crate::text;
use crate::text::Text;

pub mod batch;
pub mod laws;
pub mod unix;
pub mod windows;

verus! {

// ---------------------------------------------------------------------------
// Capability
// ---------------------------------------------------------------------------
/// Whether a client can drive its desktop, and how or why not.
#[derive(Debug, Clone, PartialEq, Eq)]
pub struct Capability {
    pub available: bool,
    pub backend: Option<String>,
    pub reason: Option<String>,
}

/// The model of [`Capability`].
pub struct CapabilityModel {
    pub available: bool,
    pub backend: Option<Text>,
    pub reason: Option<Text>,
}

impl View for Capability {
    type V = CapabilityModel;

    open spec fn view(&self) -> CapabilityModel {
        CapabilityModel {
            available: self.available,
            backend: text::opt_text(self.backend),
            reason: text::opt_text(self.reason),
        }
    }
}

/// No desktop input, for a reason.
pub open spec fn unavailable(reason: Text) -> CapabilityModel {
    CapabilityModel { available: false, backend: None, reason: Some(reason) }
}

impl Default for Capability {
    fn default() -> (r: Capability)
        ensures
            r@ == unavailable("client did not advertise desktop input"@),
    {
        Capability::unavailable("client did not advertise desktop input")
    }
}

impl Capability {
    /// No desktop input, for a reason.
    pub fn unavailable(reason: &str) -> (r: Capability)
        ensures
            r@ == unavailable(reason@),
    {
        Capability { available: false, backend: None, reason: Some(reason.to_string()) }
    }

    /// What a client reports after it looked at its desktop.
    pub fn detected(geometry: &Result<Geometry, String>, windows: bool) -> (r: Capability)
        ensures
            r@ == match *geometry {
                Ok(_) => CapabilityModel {
                    available: true,
                    backend: Some(
                        if windows {
                            "windows-sendinput"@
                        } else {
                            "x11-xdotool"@
                        },
                    ),
                    reason: None,
                },
                Err(reason) => unavailable(reason@),
            },
    {
        match geometry {
            Ok(_) => {
                let backend = if windows {
                    "windows-sendinput".to_string()
                } else {
                    "x11-xdotool".to_string()
                };
                Capability { available: true, backend: Some(backend), reason: None }
            },
            Err(reason) => Capability::unavailable(reason.as_str()),
        }
    }
}

// ---------------------------------------------------------------------------
// Actions
// ---------------------------------------------------------------------------
/// Up to 32 actions that are done one after the other.
#[derive(Debug, Clone)]
pub struct ComputerArgs {
    pub actions: Vec<Action>,
}

/// One thing to do on the desktop. Coordinates are pixels of the last
/// screenshot.
#[derive(Debug, Clone)]
pub enum Action {
    Move { x: u32, y: u32 },
    Click { x: u32, y: u32, button: Button, count: u8, modifiers: Vec<Modifier> },
    Scroll { x: u32, y: u32, direction: Direction, amount: u32, modifiers: Vec<Modifier> },
    Drag { from: Point, to: Point, button: Button, modifiers: Vec<Modifier> },
    Key { keys: Vec<String> },
    Type { text: String },
    Wait { ms: u64 },
}

/// The model of [`Action`].
pub enum ActionModel {
    Move { x: u32, y: u32 },
    Click { x: u32, y: u32, button: Button, count: u8, modifiers: Seq<Modifier> },
    Scroll { x: u32, y: u32, direction: Direction, amount: u32, modifiers: Seq<Modifier> },
    Drag { from: Point, to: Point, button: Button, modifiers: Seq<Modifier> },
    Key { keys: Seq<Text> },
    Type { text: Text },
    Wait { ms: u64 },
}

impl View for Action {
    type V = ActionModel;

    open spec fn view(&self) -> ActionModel {
        match self {
            Action::Move { x, y } => ActionModel::Move { x: *x, y: *y },
            Action::Click { x, y, button, count, modifiers } => ActionModel::Click {
                x: *x,
                y: *y,
                button: *button,
                count: *count,
                modifiers: modifiers@,
            },
            Action::Scroll { x, y, direction, amount, modifiers } => ActionModel::Scroll {
                x: *x,
                y: *y,
                direction: *direction,
                amount: *amount,
                modifiers: modifiers@,
            },
            Action::Drag { from, to, button, modifiers } => ActionModel::Drag {
                from: *from,
                to: *to,
                button: *button,
                modifiers: modifiers@,
            },
            Action::Key { keys } => ActionModel::Key { keys: text::strings(keys@) },
            Action::Type { text } => ActionModel::Type { text: text@ },
            Action::Wait { ms } => ActionModel::Wait { ms: *ms },
        }
    }
}

pub open spec fn action_models(v: Seq<Action>) -> Seq<ActionModel> {
    v.map_values(|a: Action| a@)
}

/// A pixel of a screenshot.
#[derive(Debug, Clone, Copy, PartialEq, Eq, Structural)]
pub struct Point {
    pub x: u32,
    pub y: u32,
}

/// A mouse button.
#[derive(Debug, Clone, Copy, Default, PartialEq, Eq, Structural)]
pub enum Button {
    #[default]
    Left,
    Right,
    Middle,
}

/// The direction of a wheel step.
#[derive(Debug, Clone, Copy, PartialEq, Eq, Structural)]
pub enum Direction {
    Up,
    Down,
    Left,
    Right,
}

/// A key that is held while something else is done.
#[derive(Debug, Clone, Copy, PartialEq, Eq, Structural)]
pub enum Modifier {
    Ctrl,
    Alt,
    Shift,
    Super,
}

impl Modifier {
    /// The name of the key.
    pub open spec fn called(self) -> Text {
        match self {
            Modifier::Ctrl => "CTRL"@,
            Modifier::Alt => "ALT"@,
            Modifier::Shift => "SHIFT"@,
            Modifier::Super => "SUPER"@,
        }
    }

    /// The name of the key.
    pub fn name(self) -> (r: &'static str)
        ensures
            r@ == self.called(),
    {
        match self {
            Modifier::Ctrl => "CTRL",
            Modifier::Alt => "ALT",
            Modifier::Shift => "SHIFT",
            Modifier::Super => "SUPER",
        }
    }
}

// ---------------------------------------------------------------------------
// Keys
// ---------------------------------------------------------------------------
/// A key as the two kinds of desktop know it.
#[derive(Debug)]
pub struct Key {
    pub x11: String,
    pub windows: u16,
}

/// The model of [`Key`].
pub struct KeyModel {
    pub x11: Text,
    pub windows: int,
}

impl View for Key {
    type V = KeyModel;

    open spec fn view(&self) -> KeyModel {
        KeyModel { x11: self.x11@, windows: self.windows as int }
    }
}

pub open spec fn named_key(x11: Text, windows: int) -> Option<KeyModel> {
    Some(KeyModel { x11, windows })
}

/// The key of a name: a named key, a capital letter or digit, or a function key
/// from F1 to F12.
pub open spec fn key_of(name: Text) -> Option<KeyModel> {
    if name == "CTRL"@ {
        named_key("Control_L"@, 0x11)
    } else if name == "ALT"@ {
        named_key("Alt_L"@, 0x12)
    } else if name == "SHIFT"@ {
        named_key("Shift_L"@, 0x10)
    } else if name == "SUPER"@ {
        named_key("Super_L"@, 0x5b)
    } else if name == "ENTER"@ {
        named_key("Return"@, 0x0d)
    } else if name == "TAB"@ {
        named_key("Tab"@, 0x09)
    } else if name == "ESC"@ {
        named_key("Escape"@, 0x1b)
    } else if name == "SPACE"@ {
        named_key("space"@, 0x20)
    } else if name == "BACKSPACE"@ {
        named_key("BackSpace"@, 0x08)
    } else if name == "DELETE"@ {
        named_key("Delete"@, 0x2e)
    } else if name == "INSERT"@ {
        named_key("Insert"@, 0x2d)
    } else if name == "HOME"@ {
        named_key("Home"@, 0x24)
    } else if name == "END"@ {
        named_key("End"@, 0x23)
    } else if name == "PAGEUP"@ {
        named_key("Prior"@, 0x21)
    } else if name == "PAGEDOWN"@ {
        named_key("Next"@, 0x22)
    } else if name == "UP"@ {
        named_key("Up"@, 0x26)
    } else if name == "DOWN"@ {
        named_key("Down"@, 0x28)
    } else if name == "LEFT"@ {
        named_key("Left"@, 0x25)
    } else if name == "RIGHT"@ {
        named_key("Right"@, 0x27)
    } else {
        plain_key(name)
    }
}

/// The key of a name that is a capital letter, a digit or a function key.
pub open spec fn plain_key(name: Text) -> Option<KeyModel> {
    if name.len() == 1 && (text::is_upper(name[0]) || text::is_digit(name[0])) {
        named_key(text::lower_text(name), name[0] as int)
    } else if name.len() == 2 && name[0] == 'F' && '1' <= name[1] <= '9' {
        named_key(name, 0x6f + (name[1] as int - '0' as int))
    } else if name.len() == 3 && name[0] == 'F' && name[1] == '1' && '0' <= name[2] <= '2' {
        named_key(name, 0x6f + 10 + (name[2] as int - '0' as int))
    } else {
        None
    }
}

/// What is said of a name that is no key.
pub open spec fn unknown_key() -> Text {
    "unsupported key name; use the names in the tool schema"@
}

fn some_key(x11: &str, windows: u16) -> (r: Option<Key>)
    ensures
        r is Some && Some(r->0@) == named_key(x11@, windows as int),
{
    Some(Key { x11: x11.to_string(), windows })
}

fn find_key(name: &str) -> (r: Option<Key>)
    ensures
        match r {
            Some(key) => key_of(name@) == Some(key@),
            None => key_of(name@) == None::<KeyModel>,
        },
{
    if text::same(name, "CTRL") {
        some_key("Control_L", 0x11)
    } else if text::same(name, "ALT") {
        some_key("Alt_L", 0x12)
    } else if text::same(name, "SHIFT") {
        some_key("Shift_L", 0x10)
    } else if text::same(name, "SUPER") {
        some_key("Super_L", 0x5b)
    } else if text::same(name, "ENTER") {
        some_key("Return", 0x0d)
    } else if text::same(name, "TAB") {
        some_key("Tab", 0x09)
    } else if text::same(name, "ESC") {
        some_key("Escape", 0x1b)
    } else if text::same(name, "SPACE") {
        some_key("space", 0x20)
    } else if text::same(name, "BACKSPACE") {
        some_key("BackSpace", 0x08)
    } else if text::same(name, "DELETE") {
        some_key("Delete", 0x2e)
    } else if text::same(name, "INSERT") {
        some_key("Insert", 0x2d)
    } else if text::same(name, "HOME") {
        some_key("Home", 0x24)
    } else if text::same(name, "END") {
        some_key("End", 0x23)
    } else if text::same(name, "PAGEUP") {
        some_key("Prior", 0x21)
    } else if text::same(name, "PAGEDOWN") {
        some_key("Next", 0x22)
    } else if text::same(name, "UP") {
        some_key("Up", 0x26)
    } else if text::same(name, "DOWN") {
        some_key("Down", 0x28)
    } else if text::same(name, "LEFT") {
        some_key("Left", 0x25)
    } else if text::same(name, "RIGHT") {
        some_key("Right", 0x27)
    } else {
        find_plain_key(name)
    }
}

fn find_plain_key(name: &str) -> (r: Option<Key>)
    ensures
        match r {
            Some(key) => plain_key(name@) == Some(key@),
            None => plain_key(name@) == None::<KeyModel>,
        },
{
    let chars = text::chars_of(name);
    if chars.len() == 1 {
        let c = chars[0];
        if ('A' <= c && c <= 'Z') || ('0' <= c && c <= '9') {
            let mut low: Vec<char> = Vec::new();
            low.push(text::to_lower(c));
            let x11 = text::string_of(&low);
            assert(x11@ =~= text::lower_text(name@));
            return Some(Key { x11, windows: c as u32 as u16 });
        }
    } else if chars.len() == 2 {
        if chars[0] == 'F' && '1' <= chars[1] && chars[1] <= '9' {
            let digit: u16 = (chars[1] as u32 - '0' as u32) as u16;
            return Some(Key { x11: name.to_string(), windows: 0x6f + digit });
        }
    } else if chars.len() == 3 {
        if chars[0] == 'F' && chars[1] == '1' && '0' <= chars[2] && chars[2] <= '2' {
            let digit: u16 = (chars[2] as u32 - '0' as u32) as u16;
            return Some(Key { x11: name.to_string(), windows: 0x6f + 10 + digit });
        }
    }
    None
}

/// The key of a name.
pub fn key(name: &str) -> (r: Result<Key, String>)
    ensures
        match r {
            Ok(key) => key_of(name@) == Some(key@),
            Err(e) => key_of(name@) == None::<KeyModel> && e@ == unknown_key(),
        },
{
    match find_key(name) {
        Some(key) => Ok(key),
        None => Err("unsupported key name; use the names in the tool schema".to_string()),
    }
}

// ---------------------------------------------------------------------------
// The desktop and its picture
// ---------------------------------------------------------------------------
/// Where the desktop lies and how large it is, in its own pixels.
#[derive(Debug, Clone, Copy, PartialEq, Eq, Structural)]
pub struct Geometry {
    pub x: i32,
    pub y: i32,
    pub width: u32,
    pub height: u32,
}

/// A screenshot of a desktop, which may be scaled.
#[derive(Debug, Clone, Copy, PartialEq, Eq, Structural)]
pub struct Frame {
    pub geometry: Geometry,
    pub width: u32,
    pub height: u32,
}

/// A number reduced to 32 bits with a sign.
pub open spec fn wrapped(v: int) -> int {
    if v > i32::MAX {
        v - 0x1_0000_0000
    } else {
        v
    }
}

/// The desktop pixel under a screenshot pixel, along one axis.
pub open spec fn scaled(origin: i32, size: u32, pixels: u32, at: u32) -> int {
    wrapped(origin + (at * size) / (pixels as int))
}

fn scale(origin: i32, size: u32, pixels: u32, at: u32) -> (r: i32)
    requires
        at < pixels,
    ensures
        r == scaled(origin, size, pixels, at),
{
    assert(0 <= at * size <= 0xffff_ffff * 0xffff_ffff) by (nonlinear_arith)
        requires
            at <= 0xffff_ffff,
            size <= 0xffff_ffff,
    ;
    let product: u64 = at as u64 * size as u64;
    let offset: u64 = product / pixels as u64;
    assert(offset <= size) by (nonlinear_arith)
        requires
            offset == (at * size) / (pixels as int),
            0 <= at < pixels,
            size >= 0,
    ;
    let v: i64 = origin as i64 + offset as i64;
    if v > 0x7fff_ffff {
        (v - 0x1_0000_0000) as i32
    } else {
        v as i32
    }
}

impl Frame {
    /// Whether a point lies on the screenshot.
    pub open spec fn shows(self, point: Point) -> bool {
        point.x < self.width && point.y < self.height
    }

    /// The desktop pixel under a point of the screenshot.
    pub open spec fn mapped(self, point: Point) -> (int, int) {
        (
            scaled(self.geometry.x, self.geometry.width, self.width, point.x),
            scaled(self.geometry.y, self.geometry.height, self.height, point.y),
        )
    }

    /// What is said of a point beside the screenshot.
    pub open spec fn outside(self) -> Text {
        "coordinate outside "@ + text::decimal(self.width as nat) + "x"@ + text::decimal(
            self.height as nat,
        ) + " screenshot"@
    }

    /// The desktop pixel under a point of the screenshot.
    pub fn point(self, point: Point) -> (r: Result<(i32, i32), String>)
        ensures
            match r {
                Ok((x, y)) => self.shows(point) && self.mapped(point) == (x as int, y as int),
                Err(e) => !self.shows(point) && e@ == self.outside(),
            },
    {
        if point.x >= self.width || point.y >= self.height {
            let width = text::number(self.width as u64);
            let height = text::number(self.height as u64);
            let mut message = "coordinate outside ".to_string();
            message.append(width.as_str());
            message.append("x");
            message.append(height.as_str());
            message.append(" screenshot");
            return Err(message);
        }
        let x = scale(self.geometry.x, self.geometry.width, self.width, point.x);
        let y = scale(self.geometry.y, self.geometry.height, self.height, point.y);
        Ok((x, y))
    }
}

/// A point of the screenshot is mapped into the desktop, as long as the desktop
/// ends within the range of coordinates.
pub proof fn points_stay_on_the_desktop(frame: Frame, point: Point)
    requires
        frame.shows(point),
        frame.geometry.width > 0,
        frame.geometry.height > 0,
        frame.geometry.x + frame.geometry.width - 1 <= i32::MAX,
        frame.geometry.y + frame.geometry.height - 1 <= i32::MAX,
    ensures
        frame.geometry.x <= frame.mapped(point).0 < frame.geometry.x + frame.geometry.width,
        frame.geometry.y <= frame.mapped(point).1 < frame.geometry.y + frame.geometry.height,
{
    let g = frame.geometry;
    assert(0 <= (point.x * g.width) / (frame.width as int) < g.width) by (nonlinear_arith)
        requires
            0 <= point.x < frame.width,
            g.width > 0,
    ;
    assert(0 <= (point.y * g.height) / (frame.height as int) < g.height) by (nonlinear_arith)
        requires
            0 <= point.y < frame.height,
            g.height > 0,
    ;
}

/// Points further right or down on the screenshot are never mapped further left
/// or up on the desktop, as long as the desktop ends within the range of
/// coordinates.
pub proof fn mapped_points_keep_their_order(frame: Frame, a: Point, b: Point)
    requires
        frame.shows(a),
        frame.shows(b),
        frame.geometry.width > 0,
        frame.geometry.height > 0,
        frame.geometry.x + frame.geometry.width - 1 <= i32::MAX,
        frame.geometry.y + frame.geometry.height - 1 <= i32::MAX,
    ensures
        a.x <= b.x ==> frame.mapped(a).0 <= frame.mapped(b).0,
        a.y <= b.y ==> frame.mapped(a).1 <= frame.mapped(b).1,
{
    let g = frame.geometry;
    points_stay_on_the_desktop(frame, a);
    points_stay_on_the_desktop(frame, b);
    assert(0 <= (a.x * g.width) / (frame.width as int) < g.width && 0 <= (b.x * g.width) / (
    frame.width as int) < g.width) by (nonlinear_arith)
        requires
            0 <= a.x < frame.width,
            0 <= b.x < frame.width,
            g.width > 0,
    ;
    assert(0 <= (a.y * g.height) / (frame.height as int) < g.height && 0 <= (b.y * g.height) / (
    frame.height as int) < g.height) by (nonlinear_arith)
        requires
            0 <= a.y < frame.height,
            0 <= b.y < frame.height,
            g.height > 0,
    ;
    if a.x <= b.x {
        assert(a.x * g.width <= b.x * g.width) by (nonlinear_arith)
            requires
                a.x <= b.x,
                g.width >= 0,
        ;
        vstd::arithmetic::div_mod::lemma_div_is_ordered(
            a.x * g.width,
            b.x * g.width,
            frame.width as int,
        );
    }
    if a.y <= b.y {
        assert(a.y * g.height <= b.y * g.height) by (nonlinear_arith)
            requires
                a.y <= b.y,
                g.height >= 0,
        ;
        vstd::arithmetic::div_mod::lemma_div_is_ordered(
            a.y * g.height,
            b.y * g.height,
            frame.height as int,
        );
    }
}

// ---------------------------------------------------------------------------
// Which batches are refused
// ---------------------------------------------------------------------------
/// What is wrong with a key chord from key number `i` on.
pub open spec fn keys_fault(keys: Seq<Text>, i: int) -> Option<Text>
    decreases keys.len() - i,
{
    if i < 0 || i >= keys.len() {
        None
    } else if key_of(keys[i]) is None {
        Some(unknown_key())
    } else if keys.take(i).contains(keys[i]) {
        Some("duplicate key in chord"@)
    } else {
        keys_fault(keys, i + 1)
    }
}

/// Whether a modifier is asked for twice.
pub open spec fn repeated(modifiers: Seq<Modifier>) -> bool {
    exists|i: int, j: int| 0 <= i < j < modifiers.len() && modifiers[i] == modifiers[j]
}

/// What is wrong with a point.
pub open spec fn point_fault(frame: Option<Frame>, point: Point) -> Option<Text> {
    match frame {
        None => Some(
            "capture a screenshot first; no usable screenshot-to-desktop mapping is available"@,
        ),
        Some(f) => if f.shows(point) {
            None
        } else {
            Some(f.outside())
        },
    }
}

/// The first of two faults.
pub open spec fn either(a: Option<Text>, b: Option<Text>) -> Option<Text> {
    if a is Some {
        a
    } else {
        b
    }
}

pub open spec fn modifiers_fault(modifiers: Seq<Modifier>) -> Option<Text> {
    if repeated(modifiers) {
        Some("duplicate modifier"@)
    } else {
        None
    }
}

/// What is wrong with an action.
pub open spec fn action_fault(action: ActionModel, frame: Option<Frame>) -> Option<Text> {
    match action {
        ActionModel::Move { x, y } => point_fault(frame, Point { x, y }),
        ActionModel::Click { x, y, count, modifiers, .. } => if !(1 <= count <= 3) {
            Some("click count must be 1..3"@)
        } else {
            either(modifiers_fault(modifiers), point_fault(frame, Point { x, y }))
        },
        ActionModel::Scroll { x, y, amount, modifiers, .. } => if !(1 <= amount <= 100) {
            Some("scroll amount must be 1..100 wheel steps"@)
        } else {
            either(modifiers_fault(modifiers), point_fault(frame, Point { x, y }))
        },
        ActionModel::Drag { from, to, modifiers, .. } => either(
            modifiers_fault(modifiers),
            either(point_fault(frame, from), point_fault(frame, to)),
        ),
        ActionModel::Key { keys } => if keys.len() == 0 || keys.len() > 8 {
            Some("a key chord must contain 1..8 keys"@)
        } else {
            keys_fault(keys, 0)
        },
        ActionModel::Type { text } => if vstd::utf8::encode_utf8(text).len() > 8192
            || text.contains('\0') {
            Some("text must be at most 8192 bytes and contain no NUL"@)
        } else {
            None
        },
        ActionModel::Wait { ms } => if ms > 5000 {
            Some("wait must be at most 5000 ms"@)
        } else {
            None
        },
    }
}

/// What is wrong with the actions from number `i` on.
pub open spec fn actions_fault(
    actions: Seq<ActionModel>,
    frame: Option<Frame>,
    i: int,
) -> Option<Text>
    decreases actions.len() - i,
{
    if i < 0 || i >= actions.len() {
        None
    } else {
        either(action_fault(actions[i], frame), actions_fault(actions, frame, i + 1))
    }
}

/// Why a batch is refused before anything is done.
pub open spec fn batch_fault(actions: Seq<ActionModel>, frame: Option<Frame>) -> Option<Text> {
    if actions.len() > 32 {
        Some("a batch may contain at most 32 actions"@)
    } else {
        actions_fault(actions, frame, 0)
    }
}

fn check_keys(keys: &Vec<String>) -> (r: Result<(), String>)
    ensures
        match r {
            Ok(()) => keys_fault(text::strings(keys@), 0) == None::<Text>,
            Err(e) => keys_fault(text::strings(keys@), 0) == Some(e@),
        },
{
    let ghost names = text::strings(keys@);
    let ghost whole = keys_fault(names, 0);
    let mut i: usize = 0;
    while i < keys.len()
        invariant
            names == text::strings(keys@),
            i <= keys@.len(),
            whole == keys_fault(names, 0),
            whole == keys_fault(names, i as int),
        decreases keys@.len() - i,
    {
        assert(names[i as int] == keys@[i as int]@);
        match key(keys[i].as_str()) {
            Err(e) => {
                return Err(e);
            },
            Ok(_) => {},
        }
        for j in 0..i
            invariant
                names == text::strings(keys@),
                i < keys@.len(),
                whole == keys_fault(names, i as int),
                whole == keys_fault(names, 0),
                key_of(names[i as int]) is Some,
                forall|k: int| 0 <= k < j ==> #[trigger] names[k] != names[i as int],
        {
            assert(names[j as int] == keys@[j as int]@);
            assert(names[i as int] == keys@[i as int]@);
            if text::same(keys[j].as_str(), keys[i].as_str()) {
                assert(names.take(i as int)[j as int] == names[i as int]);
                return Err("duplicate key in chord".to_string());
            }
        }
        assert(!names.take(i as int).contains(names[i as int])) by {
            if names.take(i as int).contains(names[i as int]) {
                let k = choose|k: int|
                    0 <= k < i && names.take(i as int)[k] == names[i as int];
                assert(names[k] == names[i as int]);
            }
        }
        i = i + 1;
    }
    Ok(())
}

fn check_modifiers(modifiers: &Vec<Modifier>) -> (r: Result<(), String>)
    ensures
        match r {
            Ok(()) => modifiers_fault(modifiers@) == None::<Text>,
            Err(e) => modifiers_fault(modifiers@) == Some(e@),
        },
{
    for i in 0..modifiers.len()
        invariant
            forall|a: int, b: int| 0 <= a < b < i ==> modifiers@[a] != modifiers@[b],
    {
        for j in 0..i
            invariant
                i < modifiers@.len(),
                forall|k: int| 0 <= k < j ==> modifiers@[k] != modifiers@[i as int],
        {
            if modifiers[j] == modifiers[i] {
                assert(repeated(modifiers@));
                return Err("duplicate modifier".to_string());
            }
        }
    }
    Ok(())
}

fn check_point(frame: Option<Frame>, point: Point) -> (r: Result<(), String>)
    ensures
        match r {
            Ok(()) => point_fault(frame, point) == None::<Text>,
            Err(e) => point_fault(frame, point) == Some(e@),
        },
{
    match frame {
        None => Err(
            "capture a screenshot first; no usable screenshot-to-desktop mapping is available".to_string(),
        ),
        Some(f) => match f.point(point) {
            Ok(_) => Ok(()),
            Err(e) => Err(e),
        },
    }
}

fn check_action(action: &Action, frame: Option<Frame>) -> (r: Result<(), String>)
    ensures
        match r {
            Ok(()) => action_fault(action@, frame) == None::<Text>,
            Err(e) => action_fault(action@, frame) == Some(e@),
        },
{
    match action {
        Action::Move { x, y } => check_point(frame, Point { x: *x, y: *y }),
        Action::Click { x, y, count, modifiers, .. } => {
            if *count < 1 || *count > 3 {
                return Err("click count must be 1..3".to_string());
            }
            match check_modifiers(modifiers) {
                Err(e) => Err(e),
                Ok(()) => check_point(frame, Point { x: *x, y: *y }),
            }
        },
        Action::Scroll { x, y, amount, modifiers, .. } => {
            if *amount < 1 || *amount > 100 {
                return Err("scroll amount must be 1..100 wheel steps".to_string());
            }
            match check_modifiers(modifiers) {
                Err(e) => Err(e),
                Ok(()) => check_point(frame, Point { x: *x, y: *y }),
            }
        },
        Action::Drag { from, to, modifiers, .. } => match check_modifiers(modifiers) {
            Err(e) => Err(e),
            Ok(()) => match check_point(frame, *from) {
                Err(e) => Err(e),
                Ok(()) => check_point(frame, *to),
            },
        },
        Action::Key { keys } => {
            assert(text::strings(keys@).len() == keys@.len());
            if keys.len() == 0 || keys.len() > 8 {
                return Err("a key chord must contain 1..8 keys".to_string());
            }
            check_keys(keys)
        },
        Action::Type { text } => {
            let length: usize = text.as_str().as_bytes_vec().len();
            let chars = text::chars_of(text.as_str());
            let mut nul = false;
            for i in 0..chars.len()
                invariant
                    nul == chars@.take(i as int).contains('\0'),
            {
                assert(chars@.take(i + 1) =~= chars@.take(i as int).push(chars@[i as int]));
                if chars[i] == '\0' {
                    assert(chars@.take(i + 1)[i as int] == '\0');
                    nul = true;
                } else {
                    assert(chars@.take(i + 1).contains('\0') == chars@.take(i as int).contains(
                        '\0',
                    )) by {
                        lemma_contains_pushed(chars@.take(i as int), chars@[i as int], '\0');
                    }
                }
            }
            assert(chars@.take(chars@.len() as int) =~= chars@);
            if length > 8192 || nul {
                return Err("text must be at most 8192 bytes and contain no NUL".to_string());
            }
            Ok(())
        },
        Action::Wait { ms } => {
            if *ms > 5000 {
                return Err("wait must be at most 5000 ms".to_string());
            }
            Ok(())
        },
    }
}

proof fn lemma_contains_pushed(s: Seq<char>, c: char, wanted: char)
    requires
        c != wanted,
    ensures
        s.push(c).contains(wanted) == s.contains(wanted),
{
    if s.contains(wanted) {
        let i = choose|i: int| 0 <= i < s.len() && s[i] == wanted;
        assert(s.push(c)[i] == wanted);
    }
    if s.push(c).contains(wanted) {
        let i = choose|i: int| 0 <= i < s.push(c).len() && s.push(c)[i] == wanted;
        assert(s[i] == wanted);
    }
}

/// Checks a whole batch before anything is done.
pub fn validate(actions: &Vec<Action>, frame: Option<Frame>) -> (r: Result<(), String>)
    ensures
        match r {
            Ok(()) => batch_fault(action_models(actions@), frame) == None::<Text>,
            Err(e) => batch_fault(action_models(actions@), frame) == Some(e@),
        },
{
    let ghost models = action_models(actions@);
    if actions.len() > 32 {
        return Err("a batch may contain at most 32 actions".to_string());
    }
    let ghost whole = actions_fault(models, frame, 0);
    let mut i: usize = 0;
    while i < actions.len()
        invariant
            models == action_models(actions@),
            i <= actions@.len(),
            actions@.len() <= 32,
            whole == actions_fault(models, frame, 0),
            whole == actions_fault(models, frame, i as int),
        decreases actions@.len() - i,
    {
        assert(models[i as int] == actions@[i as int]@);
        if let Err(e) = check_action(&actions[i], frame) {
            return Err(e);
        }
        i = i + 1;
    }
    Ok(())
}

/// The points of the screenshot that an action names.
pub open spec fn points(action: ActionModel) -> Seq<Point> {
    match action {
        ActionModel::Move { x, y } => seq![Point { x, y }],
        ActionModel::Click { x, y, .. } => seq![Point { x, y }],
        ActionModel::Scroll { x, y, .. } => seq![Point { x, y }],
        ActionModel::Drag { from, to, .. } => seq![from, to],
        _ => Seq::empty(),
    }
}

/// A batch that is accepted has at most 32 actions; they name only pixels of
/// the screenshot, and chords of distinct known keys.
pub proof fn accepted_actions_are_sound(
    actions: Seq<ActionModel>,
    frame: Option<Frame>,
    i: int,
)
    requires
        batch_fault(actions, frame) is None,
        0 <= i < actions.len(),
    ensures
        actions.len() <= 32,
        forall|k: int|
            0 <= k < points(actions[i]).len() ==> frame is Some && frame->0.shows(
                #[trigger] points(actions[i])[k],
            ),
        actions[i] matches ActionModel::Key { keys } ==> {
            &&& 1 <= keys.len() <= 8
            &&& forall|k: int| 0 <= k < keys.len() ==> key_of(#[trigger] keys[k]) is Some
            &&& forall|j: int, k: int| 0 <= j < k < keys.len() ==> keys[j] != keys[k]
        },
{
    lemma_no_fault(actions, frame, 0, i);
    if let ActionModel::Key { keys } = actions[i] {
        lemma_keys_are_known(keys, 0);
    }
}

proof fn lemma_keys_are_known(keys: Seq<Text>, from: int)
    requires
        keys_fault(keys, from) is None,
        0 <= from <= keys.len(),
    ensures
        forall|k: int| from <= k < keys.len() ==> key_of(#[trigger] keys[k]) is Some,
        forall|j: int, k: int| 0 <= j < k < keys.len() && from <= k ==> keys[j] != keys[k],
    decreases keys.len() - from,
{
    if from < keys.len() {
        lemma_keys_are_known(keys, from + 1);
        assert forall|j: int| 0 <= j < from implies keys[j] != keys[from] by {
            assert(keys.take(from)[j] == keys[j]);
        }
    }
}

proof fn lemma_no_fault(actions: Seq<ActionModel>, frame: Option<Frame>, from: int, i: int)
    requires
        actions_fault(actions, frame, from) is None,
        0 <= from <= i < actions.len(),
    ensures
        action_fault(actions[i], frame) is None,
    decreases i - from,
{
    if from < i {
        lemma_no_fault(actions, frame, from + 1, i);
    }
}

// ---------------------------------------------------------------------------
// The screenshot that coordinates refer to
// ---------------------------------------------------------------------------
/// What is known of the desktop: the screenshot that coordinates refer to.
#[derive(Debug, Default)]
pub struct Desktop {
    pub frame: Option<Frame>,
}

/// The frame that a capture leaves: one only where the screenshot shows the
/// whole desktop and the desktop did not change meanwhile.
pub open spec fn settled(
    before: Option<Geometry>,
    source: (u32, u32),
    size: (u32, u32),
    after: Option<Geometry>,
) -> Option<Frame> {
    match before {
        Some(geometry) => if source == (geometry.width, geometry.height) && after == before {
            Some(Frame { geometry, width: size.0, height: size.1 })
        } else {
            None
        },
        None => None,
    }
}

impl Desktop {
    /// No screenshot was taken.
    pub fn new() -> (r: Desktop)
        ensures
            r.frame is None,
    {
        Desktop { frame: None }
    }

    /// Forgets the screenshot.
    pub fn invalidate(&mut self)
        ensures
            final(self).frame is None,
    {
        self.frame = None;
    }

    /// Tells whether the desktop has to be looked at again after a capture.
    pub fn rechecks(before: Option<Geometry>, source: (u32, u32)) -> (r: bool)
        ensures
            r == (before matches Some(g) && source == (g.width, g.height)),
    {
        match before {
            Some(g) => source.0 == g.width && source.1 == g.height,
            None => false,
        }
    }

    /// Takes note of a screenshot: how large the captured area and the image
    /// are, and what the desktop looked like before and after.
    pub fn settle(
        &mut self,
        before: Option<Geometry>,
        source: (u32, u32),
        size: (u32, u32),
        after: Option<Geometry>,
    )
        ensures
            final(self).frame == settled(before, source, size, after),
    {
        self.frame = None;
        if let Some(geometry) = before {
            if source.0 == geometry.width && source.1 == geometry.height {
                if let Some(now) = after {
                    if now == geometry {
                        self.frame = Some(Frame { geometry, width: size.0, height: size.1 });
                    }
                }
            }
        }
    }
}

} // verus!
