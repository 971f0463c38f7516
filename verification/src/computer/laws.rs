//! What holds of desktop input as a whole: which batches are accepted, where
//! points lie on the desktop, and what each action does on either desktop.
use vstd::prelude::*;

use crate::computer;
use crate::computer::unix;
use crate::computer::windows;
use crate::computer::{
    ActionModel, Button, Direction, Frame, Geometry, KeyModel, Modifier, Point,
};
use crate::text;
use crate::text::Text;

verus! {

// ---------------------------------------------------------------------------
// Points
// ---------------------------------------------------------------------------
/// Whether `at` is the desktop pixel that lies as far from the origin, in parts
/// of the size, as `pixel` does in parts of `pixels`, rounded down. A pixel
/// beyond the range of coordinates is told modulo 2 to the power of 32.
pub open spec fn in_proportion(origin: int, size: int, pixels: int, pixel: int, at: int) -> bool {
    let offset = (if at < origin {
        at + 0x1_0000_0000
    } else {
        at
    }) - origin;
    pixels * offset <= pixel * size < pixels * offset + pixels
}

/// A point of the screenshot is mapped to the desktop pixel at the same part of
/// the width and of the height; where the screenshot has the size of the
/// desktop, to the pixel with the same place.
pub proof fn points_are_mapped_in_proportion(frame: Frame, point: Point)
    requires
        frame.shows(point),
    ensures
        ({
            let g = frame.geometry;
            let at = frame.mapped(point);
            &&& i32::MIN <= at.0 <= i32::MAX
            &&& i32::MIN <= at.1 <= i32::MAX
            &&& in_proportion(g.x as int, g.width as int, frame.width as int, point.x as int, at.0)
            &&& in_proportion(
                g.y as int,
                g.height as int,
                frame.height as int,
                point.y as int,
                at.1,
            )
            &&& frame.width == g.width && g.x + point.x <= i32::MAX ==> at.0 == g.x + point.x
            &&& frame.height == g.height && g.y + point.y <= i32::MAX ==> at.1 == g.y + point.y
        }),
{
    let g = frame.geometry;
    lemma_scaled(g.x, g.width, frame.width, point.x);
    lemma_scaled(g.y, g.height, frame.height, point.y);
}

proof fn lemma_scaled(origin: i32, size: u32, pixels: u32, at: u32)
    requires
        at < pixels,
    ensures
        ({
            let r = computer::scaled(origin, size, pixels, at);
            &&& i32::MIN <= r <= i32::MAX
            &&& in_proportion(origin as int, size as int, pixels as int, at as int, r)
            &&& pixels == size && origin + at <= i32::MAX ==> r == origin + at
        }),
{
    let (s, p, a) = (size as int, pixels as int, at as int);
    let q = (a * s) / p;
    assert(0 <= q <= s && p * q <= a * s < p * q + p && (p == s ==> q == a)) by (nonlinear_arith)
        requires
            q == (a * s) / p,
            0 <= a < p,
            s >= 0,
    ;
}

// ---------------------------------------------------------------------------
// Keys
// ---------------------------------------------------------------------------
/// Whether a name stands for a key with this name on X11 and this code on
/// Windows.
pub open spec fn stands_for(name: Text, x11: Text, code: int) -> bool {
    computer::key_of(name) == Some(KeyModel { x11, windows: code })
}

/// A capital letter or a digit stands for the key of its character; a function
/// key, from F1 to F12, for the one of its number. No other name of one
/// character is a key.
pub proof fn characters_are_keys(c: char, n: nat)
    ensures
        'A' <= c <= 'Z' ==> stands_for(seq![c], seq![(c as u32 + 32) as char], c as int),
        '0' <= c <= '9' ==> stands_for(seq![c], seq![c], c as int),
        !('A' <= c <= 'Z') && !('0' <= c <= '9') ==> computer::key_of(seq![c]) is None,
        1 <= n <= 12 ==> stands_for(
            seq!['F'] + text::decimal(n),
            seq!['F'] + text::decimal(n),
            111 + n as int,
        ),
        n == 0 || 12 < n < 1000 ==> computer::key_of(seq!['F'] + text::decimal(n)) is None,
{
    let name = seq![c];
    lemma_not_named(name);
    assert(name[0] == c);
    if 'A' <= c <= 'Z' {
        assert(text::lower_text(name) =~= seq![(c as u32 + 32) as char]);
    } else if '0' <= c <= '9' {
        assert(text::lower_text(name) =~= seq![c]);
    }
    if n < 1000 {
        let f = seq!['F'] + text::decimal(n);
        if n < 10 {
            assert(text::decimal(n) =~= seq![text::digit(n as int)]);
            assert(f.len() == 2);
            assert(f[1] == text::digit(n as int));
        } else if n < 100 {
            assert(text::decimal(n / 10) =~= seq![text::digit((n / 10) as int)]);
            assert(text::decimal(n) =~= seq![
                text::digit((n / 10) as int),
                text::digit((n % 10) as int),
            ]);
            assert(f.len() == 3);
            assert(f[1] == text::digit((n / 10) as int));
            assert(f[2] == text::digit((n % 10) as int));
        } else {
            assert(text::decimal(n / 100) =~= seq![text::digit((n / 100) as int)]);
            assert(text::decimal(n / 10).len() == 2);
            assert(f.len() == 4);
        }
        assert(f[0] == 'F');
        lemma_not_named(f);
    }
}

/// A text that is one character, or that begins with `F`, is none of the named
/// keys.
proof fn lemma_not_named(name: Text)
    requires
        name.len() == 1 || name.len() > 0 && name[0] == 'F',
    ensures
        computer::key_of(name) == computer::plain_key(name),
{
    reveal_strlit("CTRL");
    reveal_strlit("ALT");
    reveal_strlit("SHIFT");
    reveal_strlit("SUPER");
    reveal_strlit("ENTER");
    reveal_strlit("TAB");
    reveal_strlit("ESC");
    reveal_strlit("SPACE");
    reveal_strlit("BACKSPACE");
    reveal_strlit("DELETE");
    reveal_strlit("INSERT");
    reveal_strlit("HOME");
    reveal_strlit("END");
    reveal_strlit("PAGEUP");
    reveal_strlit("PAGEDOWN");
    reveal_strlit("UP");
    reveal_strlit("DOWN");
    reveal_strlit("LEFT");
    reveal_strlit("RIGHT");
}

/// The named keys, as X11 names them and as Windows numbers them.
pub proof fn named_keys_are_known(name: Text)
    ensures
        name == "CTRL"@ ==> stands_for(name, "Control_L"@, 17),
        name == "ALT"@ ==> stands_for(name, "Alt_L"@, 18),
        name == "SHIFT"@ ==> stands_for(name, "Shift_L"@, 16),
        name == "SUPER"@ ==> stands_for(name, "Super_L"@, 91),
        name == "ENTER"@ ==> stands_for(name, "Return"@, 13),
        name == "TAB"@ ==> stands_for(name, "Tab"@, 9),
        name == "ESC"@ ==> stands_for(name, "Escape"@, 27),
        name == "SPACE"@ ==> stands_for(name, "space"@, 32),
        name == "BACKSPACE"@ ==> stands_for(name, "BackSpace"@, 8),
        name == "DELETE"@ ==> stands_for(name, "Delete"@, 46),
        name == "INSERT"@ ==> stands_for(name, "Insert"@, 45),
        name == "HOME"@ ==> stands_for(name, "Home"@, 36),
        name == "END"@ ==> stands_for(name, "End"@, 35),
        name == "PAGEUP"@ ==> stands_for(name, "Prior"@, 33),
        name == "PAGEDOWN"@ ==> stands_for(name, "Next"@, 34),
        name == "UP"@ ==> stands_for(name, "Up"@, 38),
        name == "DOWN"@ ==> stands_for(name, "Down"@, 40),
        name == "LEFT"@ ==> stands_for(name, "Left"@, 37),
        name == "RIGHT"@ ==> stands_for(name, "Right"@, 39),
{
    reveal_strlit("CTRL");
    reveal_strlit("ALT");
    reveal_strlit("SHIFT");
    reveal_strlit("SUPER");
    reveal_strlit("ENTER");
    reveal_strlit("TAB");
    reveal_strlit("ESC");
    reveal_strlit("SPACE");
    reveal_strlit("BACKSPACE");
    reveal_strlit("DELETE");
    reveal_strlit("INSERT");
    reveal_strlit("HOME");
    reveal_strlit("END");
    reveal_strlit("PAGEUP");
    reveal_strlit("PAGEDOWN");
    reveal_strlit("UP");
    reveal_strlit("DOWN");
    reveal_strlit("LEFT");
    reveal_strlit("RIGHT");
}

/// No two names have the same code on Windows.
pub proof fn names_have_different_codes(a: Text, b: Text)
    requires
        computer::key_of(a) matches Some(k) && computer::key_of(b) matches Some(l) && k.windows
            == l.windows,
    ensures
        a == b,
{
    lemma_plain_code(a);
    lemma_plain_code(b);
    if computer::key_of(a) == computer::plain_key(a) && computer::key_of(b) == computer::plain_key(
        b,
    ) {
        assert(a =~= b);
    }
}

/// The codes of characters and function keys are none of the named keys'.
proof fn lemma_plain_code(name: Text)
    ensures
        computer::plain_key(name) matches Some(k) ==> (48 <= k.windows <= 57 || 65 <= k.windows
            <= 90 || 112 <= k.windows <= 123),
{
}

// ---------------------------------------------------------------------------
// Accepted batches
// ---------------------------------------------------------------------------
/// Whether a point can be pointed at: it lies on a screenshot that was taken.
pub open spec fn can_point(frame: Option<Frame>, x: u32, y: u32) -> bool {
    frame matches Some(f) && x < f.width && y < f.height
}

/// Whether an action can be asked for.
pub open spec fn acceptable(action: ActionModel, frame: Option<Frame>) -> bool {
    match action {
        ActionModel::Move { x, y } => can_point(frame, x, y),
        ActionModel::Click { x, y, count, modifiers, .. } => can_point(frame, x, y) && count >= 1
            && count <= 3 && modifiers.no_duplicates(),
        ActionModel::Scroll { x, y, amount, modifiers, .. } => can_point(frame, x, y) && amount
            >= 1 && amount <= 100 && modifiers.no_duplicates(),
        ActionModel::Drag { from, to, modifiers, .. } => can_point(frame, from.x, from.y)
            && can_point(frame, to.x, to.y) && modifiers.no_duplicates(),
        ActionModel::Key { keys } => keys.len() >= 1 && keys.len() <= 8 && keys.no_duplicates() && (
        forall|k: int| 0 <= k < keys.len() ==> computer::key_of(#[trigger] keys[k]) is Some),
        ActionModel::Type { text } => vstd::utf8::encode_utf8(text).len() <= 8_192 && (forall|k: int|
            0 <= k < text.len() ==> #[trigger] text[k] != '\0'),
        ActionModel::Wait { ms } => ms <= 5_000,
    }
}

/// A batch is accepted exactly when it has at most 32 actions and each of them
/// can be asked for.
pub proof fn batches_are_accepted_when_all_actions_are(
    actions: Seq<ActionModel>,
    frame: Option<Frame>,
)
    ensures
        computer::batch_fault(actions, frame) is None <==> actions.len() <= 32 && forall|i: int|
            0 <= i < actions.len() ==> acceptable(#[trigger] actions[i], frame),
{
    lemma_actions(actions, frame, 0);
}

proof fn lemma_actions(actions: Seq<ActionModel>, frame: Option<Frame>, from: int)
    requires
        0 <= from <= actions.len(),
    ensures
        computer::actions_fault(actions, frame, from) is None <==> forall|i: int|
            from <= i < actions.len() ==> acceptable(#[trigger] actions[i], frame),
    decreases actions.len() - from,
{
    if from < actions.len() {
        lemma_action(actions[from], frame);
        lemma_actions(actions, frame, from + 1);
        assert forall|i: int| from <= i < actions.len() && acceptable(actions[from], frame) && (
        forall|j: int|
            from + 1 <= j < actions.len() ==> acceptable(
                #[trigger] actions[j],
                frame,
            )) implies acceptable(#[trigger] actions[i], frame) by {}
    }
}

proof fn lemma_action(action: ActionModel, frame: Option<Frame>)
    ensures
        computer::action_fault(action, frame) is None <==> acceptable(action, frame),
{
    match action {
        ActionModel::Key { keys } => {
            lemma_keys(keys, 0);
        },
        ActionModel::Type { text } => {
            if text.contains('\0') {
                let k = choose|k: int| 0 <= k < text.len() && text[k] == '\0';
                assert(text[k] == '\0');
            }
        },
        ActionModel::Click { modifiers, .. } => {
            lemma_modifiers(modifiers);
        },
        ActionModel::Scroll { modifiers, .. } => {
            lemma_modifiers(modifiers);
        },
        ActionModel::Drag { modifiers, .. } => {
            lemma_modifiers(modifiers);
        },
        _ => {},
    }
}

proof fn lemma_modifiers(modifiers: Seq<Modifier>)
    ensures
        computer::repeated(modifiers) <==> !modifiers.no_duplicates(),
{
    if !modifiers.no_duplicates() {
        let (i, j) = choose|i: int, j: int|
            0 <= i < modifiers.len() && 0 <= j < modifiers.len() && i != j && modifiers[i]
                == modifiers[j];
        if i < j {
            assert(modifiers[i] == modifiers[j]);
        } else {
            assert(modifiers[j] == modifiers[i]);
        }
    }
}

proof fn lemma_keys(keys: Seq<Text>, from: int)
    requires
        0 <= from <= keys.len(),
        forall|i: int, j: int| 0 <= i < j < from ==> keys[i] != keys[j],
    ensures
        computer::keys_fault(keys, from) is None <==> keys.no_duplicates() && forall|k: int|
            from <= k < keys.len() ==> computer::key_of(#[trigger] keys[k]) is Some,
    decreases keys.len() - from,
{
    if from < keys.len() {
        let first = keys.take(from);
        if first.contains(keys[from]) {
            let i = choose|i: int| 0 <= i < first.len() && first[i] == keys[from];
            assert(keys[i] == keys[from]);
        } else {
            assert forall|i: int| 0 <= i < from implies keys[i] != keys[from] by {
                assert(first[i] == keys[i]);
            }
            lemma_keys(keys, from + 1);
        }
    }
}

/// What is said of a refused batch concerns its first action that cannot be
/// asked for.
pub proof fn refusals_concern_the_first_fault(
    actions: Seq<ActionModel>,
    frame: Option<Frame>,
    i: int,
)
    requires
        actions.len() <= 32,
        0 <= i < actions.len(),
        !acceptable(actions[i], frame),
        forall|j: int| 0 <= j < i ==> acceptable(#[trigger] actions[j], frame),
    ensures
        computer::batch_fault(actions, frame) == computer::batch_fault(seq![actions[i]], frame),
{
    lemma_first_fault(actions, frame, 0, i);
    let one = seq![actions[i]];
    assert(one[0] == actions[i]);
    assert(computer::actions_fault(one, frame, 1) is None);
    assert(computer::actions_fault(one, frame, 0) == computer::either(
        computer::action_fault(actions[i], frame),
        computer::actions_fault(one, frame, 1),
    ));
    lemma_action(actions[i], frame);
}

proof fn lemma_first_fault(actions: Seq<ActionModel>, frame: Option<Frame>, from: int, i: int)
    requires
        0 <= from <= i < actions.len(),
        !acceptable(actions[i], frame),
        forall|j: int| 0 <= j < i ==> acceptable(#[trigger] actions[j], frame),
    ensures
        computer::actions_fault(actions, frame, from) == computer::action_fault(
            actions[i],
            frame,
        ),
    decreases i - from,
{
    lemma_action(actions[from], frame);
    if from < i {
        lemma_first_fault(actions, frame, from + 1, i);
    }
}

// ---------------------------------------------------------------------------
// Screenshots
// ---------------------------------------------------------------------------
/// Coordinates refer to a screenshot exactly when it shows the whole of a
/// desktop that stayed the same while it was taken; then they refer to that
/// desktop and to the pixels of the image.
pub proof fn screenshots_show_the_whole_desktop(
    before: Option<Geometry>,
    source: (u32, u32),
    size: (u32, u32),
    after: Option<Geometry>,
)
    ensures
        match computer::settled(before, source, size, after) {
            Some(frame) => {
                &&& before == Some(frame.geometry)
                &&& after == Some(frame.geometry)
                &&& source.0 == frame.geometry.width
                &&& source.1 == frame.geometry.height
                &&& frame.width == size.0
                &&& frame.height == size.1
            },
            None => before is None || after != before || source.0 != before->0.width || source.1
                != before->0.height,
        },
{
}

// ---------------------------------------------------------------------------
// Actions on X11
// ---------------------------------------------------------------------------
/// Whether a command moves the pointer to a pixel, and nothing else.
pub open spec fn moves_to(step: unix::StepModel, at: (int, int)) -> bool {
    &&& step.args == seq!["mousemove"@, text::decimal_int(at.0), text::decimal_int(at.1)]
    &&& step.input is None
    &&& step.hold is None
}

/// Whether a command presses a key, which is released later.
pub open spec fn presses(step: unix::StepModel, name: Text) -> bool {
    &&& computer::key_of(name) matches Some(key)
    &&& step.args == seq!["keydown"@, key.x11]
    &&& step.input is None
    &&& step.hold == Some(unix::HoldModel::Key(key.x11))
}

/// Whether commands press the keys of these names one after the other.
pub open spec fn presses_all(steps: Seq<unix::StepModel>, names: Seq<Text>) -> bool {
    &&& steps.len() == names.len()
    &&& forall|k: int| 0 <= k < steps.len() ==> presses(#[trigger] steps[k], names[k])
}

/// The names of the modifier keys.
pub open spec fn modifier_key(m: Modifier) -> Text {
    match m {
        Modifier::Ctrl => "CTRL"@,
        Modifier::Alt => "ALT"@,
        Modifier::Shift => "SHIFT"@,
        Modifier::Super => "SUPER"@,
    }
}

/// The names of some modifier keys.
pub open spec fn modifier_keys(modifiers: Seq<Modifier>) -> Seq<Text> {
    Seq::new(modifiers.len(), |i: int| modifier_key(modifiers[i]))
}

/// Keys are pressed one after the other, in the order they are named.
pub proof fn chords_press_each_key(keys: Seq<Text>, frame: Frame)
    requires
        forall|k: int| 0 <= k < keys.len() ==> computer::key_of(#[trigger] keys[k]) is Some,
    ensures
        unix::planned(ActionModel::Key { keys }, frame).fault is None,
        presses_all(unix::planned(ActionModel::Key { keys }, frame).steps, keys),
{
    lemma_presses(keys);
}

proof fn lemma_presses(names: Seq<Text>)
    requires
        forall|k: int| 0 <= k < names.len() ==> computer::key_of(#[trigger] names[k]) is Some,
    ensures
        unix::presses_planned(names).fault is None,
        presses_all(unix::presses_planned(names).steps, names),
    decreases names.len(),
{
    if names.len() > 0 {
        let first = names.drop_last();
        assert forall|k: int| 0 <= k < first.len() implies computer::key_of(
            #[trigger] first[k],
        ) is Some by {
            assert(first[k] == names[k]);
        }
        lemma_presses(first);
        let all = unix::presses_planned(names);
        let before = unix::presses_planned(first);
        let last = unix::press_planned(names.last());
        assert(all.steps == before.steps + last.steps);
        assert forall|k: int| 0 <= k < all.steps.len() implies presses(
            #[trigger] all.steps[k],
            names[k],
        ) by {
            if k < first.len() {
                assert(all.steps[k] == before.steps[k]);
                assert(presses(before.steps[k], first[k]));
            } else {
                assert(all.steps[k] == last.steps[0]);
            }
        }
    }
}

proof fn lemma_modifier_presses(modifiers: Seq<Modifier>)
    ensures
        unix::presses_planned(unix::modifier_names(modifiers)).fault is None,
        presses_all(
            unix::presses_planned(unix::modifier_names(modifiers)).steps,
            modifier_keys(modifiers),
        ),
{
    let names = unix::modifier_names(modifiers);
    assert(names =~= modifier_keys(modifiers));
    lemma_presses(names);
}

/// The pointer is moved to the desktop pixel that the point is mapped to.
pub proof fn moves_go_to_the_point(frame: Frame, x: u32, y: u32)
    requires
        frame.shows(Point { x, y }),
    ensures
        ({
            let plan = unix::planned(ActionModel::Move { x, y }, frame);
            &&& plan.fault is None
            &&& plan.steps.len() == 1
            &&& moves_to(plan.steps[0], frame.mapped(Point { x, y }))
        }),
{
}

/// A click presses the modifiers, goes to the point, and clicks the button as
/// often as it is asked to.
pub proof fn clicks_are_made_at_the_point(
    frame: Frame,
    x: u32,
    y: u32,
    button: Button,
    count: u8,
    modifiers: Seq<Modifier>,
)
    requires
        frame.shows(Point { x, y }),
    ensures
        ({
            let plan = unix::planned(ActionModel::Click { x, y, button, count, modifiers }, frame);
            let m = modifiers.len() as int;
            let number = match button {
                Button::Left => "1"@,
                Button::Middle => "2"@,
                Button::Right => "3"@,
            };
            &&& plan.fault is None
            &&& plan.steps.len() == m + 2
            &&& presses_all(plan.steps.take(m), modifier_keys(modifiers))
            &&& moves_to(plan.steps[m], frame.mapped(Point { x, y }))
            &&& plan.steps[m + 1].args == seq![
                "click"@,
                "--repeat"@,
                text::decimal(count as nat),
                "--delay"@,
                "80"@,
                number,
            ]
            &&& plan.steps[m + 1].input is None
            &&& plan.steps[m + 1].hold == Some(unix::HoldModel::Button(number))
        }),
{
    lemma_modifier_presses(modifiers);
    let plan = unix::planned(ActionModel::Click { x, y, button, count, modifiers }, frame);
    let pressed = unix::presses_planned(unix::modifier_names(modifiers));
    assert(plan.steps.take(modifiers.len() as int) =~= pressed.steps);
}

/// A scroll presses the modifiers, goes to the point, and turns the wheel by as
/// many steps as it is asked to.
pub proof fn wheels_turn_at_the_point(
    frame: Frame,
    x: u32,
    y: u32,
    direction: Direction,
    amount: u32,
    modifiers: Seq<Modifier>,
)
    requires
        frame.shows(Point { x, y }),
    ensures
        ({
            let plan = unix::planned(
                ActionModel::Scroll { x, y, direction, amount, modifiers },
                frame,
            );
            let m = modifiers.len() as int;
            let number = match direction {
                Direction::Up => "4"@,
                Direction::Down => "5"@,
                Direction::Left => "6"@,
                Direction::Right => "7"@,
            };
            &&& plan.fault is None
            &&& plan.steps.len() == m + 2
            &&& presses_all(plan.steps.take(m), modifier_keys(modifiers))
            &&& moves_to(plan.steps[m], frame.mapped(Point { x, y }))
            &&& plan.steps[m + 1].args == seq![
                "click"@,
                "--repeat"@,
                text::decimal(amount as nat),
                "--delay"@,
                "10"@,
                number,
            ]
            &&& plan.steps[m + 1].input is None
            &&& plan.steps[m + 1].hold == Some(unix::HoldModel::Button(number))
        }),
{
    lemma_modifier_presses(modifiers);
    let plan = unix::planned(ActionModel::Scroll { x, y, direction, amount, modifiers }, frame);
    let pressed = unix::presses_planned(unix::modifier_names(modifiers));
    assert(plan.steps.take(modifiers.len() as int) =~= pressed.steps);
}

/// Whether a coordinate lies `n` of `of` equal parts of the way from one to
/// another, rounded towards the start.
pub open spec fn on_the_way(from: int, to: int, at: int, n: int, of: int) -> bool {
    let way = if from <= to {
        to - from
    } else {
        from - to
    };
    let gone = if from <= to {
        at - from
    } else {
        from - at
    };
    0 <= gone <= way && of * gone <= way * n < of * gone + of
}

/// A part of the way lies between its ends, and the whole way ends at the end.
pub proof fn ways_lead_to_their_end(from: int, to: int, n: int, of: int)
    requires
        0 <= n <= of,
        of > 0,
    ensures
        ({
            let at = unix::part_way(from, to, n, of);
            &&& on_the_way(from, to, at, n, of)
            &&& from <= to ==> from <= at <= to
            &&& to <= from ==> to <= at <= from
            &&& n == of ==> at == to
            &&& n == 0 ==> at == from
        }),
{
    let way = if from <= to {
        to - from
    } else {
        from - to
    };
    let gone = way * n / of;
    assert(0 <= gone <= way && of * gone <= way * n < of * gone + of && (n == of ==> gone == way)
        && (n == 0 ==> gone == 0)) by (nonlinear_arith)
        requires
            gone == (way * n) / of,
            way >= 0,
            0 <= n <= of,
            of > 0,
    ;
}

/// Whether words move the pointer to a pixel and wait for a moment.
pub open spec fn moves_on(words: Seq<Text>, at: (int, int)) -> bool {
    words == seq![
        "mousemove"@,
        text::decimal_int(at.0),
        text::decimal_int(at.1),
        "sleep"@,
        "0.02"@,
    ]
}

/// Whether movement number `k` of a drag lies on the way in both coordinates.
pub open spec fn stays_on_the_way(
    words: Seq<Text>,
    start: (int, int),
    end: (int, int),
    k: int,
) -> bool {
    exists|x: int, y: int| #[trigger]
        moves_on(words.subrange(5 * k, 5 * k + 5), (x, y)) && on_the_way(
            start.0,
            end.0,
            x,
            k + 1,
            10,
        ) && on_the_way(start.1, end.1, y, k + 1, 10)
}

/// A drag presses the modifiers, goes to its start, presses the button, and
/// then moves in ten steps: each lies, in both coordinates, on the way from the
/// pixel that the start is mapped to to the one that the destination is mapped
/// to, and the last one is the destination.
pub proof fn drags_lead_to_the_destination(
    frame: Frame,
    from: Point,
    to: Point,
    button: Button,
    modifiers: Seq<Modifier>,
)
    requires
        frame.shows(from),
        frame.shows(to),
    ensures
        ({
            let plan = unix::planned(ActionModel::Drag { from, to, button, modifiers }, frame);
            let m = modifiers.len() as int;
            let (start, end) = (frame.mapped(from), frame.mapped(to));
            let words = plan.steps[m + 2].args;
            let number = match button {
                Button::Left => "1"@,
                Button::Middle => "2"@,
                Button::Right => "3"@,
            };
            &&& plan.fault is None
            &&& plan.steps.len() == m + 3
            &&& presses_all(plan.steps.take(m), modifier_keys(modifiers))
            &&& moves_to(plan.steps[m], start)
            &&& plan.steps[m + 1].args == seq!["mousedown"@, number]
            &&& plan.steps[m + 1].hold == Some(unix::HoldModel::Button(number))
            &&& plan.steps[m + 2].hold is None
            &&& plan.steps[m + 2].input is None
            &&& words.len() == 50
            &&& moves_on(words.subrange(45, 50), end)
            &&& forall|k: int|
                0 <= k < 10 ==> #[trigger] stays_on_the_way(words, start, end, k)
        }),
{
    lemma_modifier_presses(modifiers);
    let plan = unix::planned(ActionModel::Drag { from, to, button, modifiers }, frame);
    let pressed = unix::presses_planned(unix::modifier_names(modifiers));
    let m = modifiers.len() as int;
    assert(plan.steps.take(m) =~= pressed.steps);
    let (start, end) = (frame.mapped(from), frame.mapped(to));
    let words = plan.steps[m + 2].args;
    assert(words == unix::drag_args(start, end, 10));
    lemma_drag(start, end, 10);
    ways_lead_to_their_end(start.0, end.0, 10, 10);
    ways_lead_to_their_end(start.1, end.1, 10, 10);
    assert(moves_on(words.subrange(5 * 9int, 5 * 9int + 5), part_point(start, end, 10)));
    assert forall|k: int| 0 <= k < 10 implies #[trigger] stays_on_the_way(
        words,
        start,
        end,
        k,
    ) by {
        ways_lead_to_their_end(start.0, end.0, k + 1, 10);
        ways_lead_to_their_end(start.1, end.1, k + 1, 10);
        let at = part_point(start, end, k + 1);
        assert(moves_on(words.subrange(5 * k, 5 * k + 5), (at.0, at.1)));
    }
}

/// The pixel after `n` of ten parts of a way.
spec fn part_point(from: (int, int), to: (int, int), n: int) -> (int, int) {
    (unix::part_way(from.0, to.0, n, 10), unix::part_way(from.1, to.1, n, 10))
}

proof fn lemma_drag(from: (int, int), to: (int, int), n: nat)
    ensures
        unix::drag_args(from, to, n).len() == 5 * n,
        forall|k: int|
            0 <= k < n ==> moves_on(
                #[trigger] unix::drag_args(from, to, n).subrange(5 * k, 5 * k + 5),
                part_point(from, to, k + 1),
            ),
    decreases n,
{
    if n > 0 {
        let before = unix::drag_args(from, to, (n - 1) as nat);
        let words = unix::drag_args(from, to, n);
        lemma_drag(from, to, (n - 1) as nat);
        assert forall|k: int| 0 <= k < n implies moves_on(
            #[trigger] words.subrange(5 * k, 5 * k + 5),
            part_point(from, to, k + 1),
        ) by {
            if k < n - 1 {
                assert(words.subrange(5 * k, 5 * k + 5) =~= before.subrange(5 * k, 5 * k + 5));
            } else {
                let at = part_point(from, to, n as int);
                assert(words.subrange(5 * k, 5 * k + 5) =~= seq![
                    "mousemove"@,
                    text::decimal_int(at.0),
                    text::decimal_int(at.1),
                    "sleep"@,
                    "0.02"@,
                ]);
            }
        }
    }
}

/// A text is typed as it is, from the input of one command.
pub proof fn texts_are_typed_as_they_are(frame: Frame, text: Text)
    ensures
        ({
            let plan = unix::planned(ActionModel::Type { text }, frame);
            &&& plan.fault is None
            &&& plan.steps.len() == 1
            &&& plan.steps[0].args == seq!["type"@, "--delay"@, "0"@, "--file"@, "-"@]
            &&& plan.steps[0].input == Some(text)
            &&& plan.steps[0].hold is None
        }),
{
}

/// Nothing is done at a point beside the screenshot: the plan stops before the
/// pointer moves there.
pub proof fn points_beside_the_screenshot_stop_the_plan(
    frame: Frame,
    x: u32,
    y: u32,
    button: Button,
    count: u8,
    modifiers: Seq<Modifier>,
)
    requires
        !frame.shows(Point { x, y }),
    ensures
        ({
            let plan = unix::planned(ActionModel::Click { x, y, button, count, modifiers }, frame);
            &&& plan.fault == Some(frame.outside())
            &&& presses_all(plan.steps, modifier_keys(modifiers))
            &&& unix::planned(ActionModel::Move { x, y }, frame).steps.len() == 0
            &&& unix::planned(ActionModel::Move { x, y }, frame).fault == Some(frame.outside())
        }),
{
    lemma_modifier_presses(modifiers);
    let plan = unix::planned(ActionModel::Click { x, y, button, count, modifiers }, frame);
    let pressed = unix::presses_planned(unix::modifier_names(modifiers));
    assert(plan.steps =~= pressed.steps);
}

/// A session takes input exactly when it is an X11 session: it names an X11
/// display, and neither names a Wayland display nor calls itself a Wayland one.
pub proof fn input_needs_an_x11_session(
    wayland_display: bool,
    wayland_session: bool,
    display: bool,
)
    ensures
        unix::session_fault(wayland_display, wayland_session, display) is None <==> display
            && !wayland_display && !wayland_session,
{
}

/// The commands of a plan are run one after the other as long as they succeed;
/// after the last one the run is over but for the releases, and the action has
/// gone as the plan has.
pub proof fn commands_are_run_in_order(plan: unix::PlanModel, results: Seq<Result<(), Text>>)
    requires
        results.len() <= plan.steps.len(),
        forall|i: int| 0 <= i < results.len() ==> (#[trigger] results[i]) is Ok,
    ensures
        ({
            let run = unix::run_after(plan, results);
            let n = results.len() as int;
            &&& run.plan == plan
            &&& !run.stuck
            &&& n < plan.steps.len() ==> run.phase == unix::Phase::Running && run.at == n
                && run.command() == (plan.steps[n].args, plan.steps[n].input)
            &&& n == plan.steps.len() ==> run.phase != unix::Phase::Running && run.outcome()
                == match plan.fault {
                Some(e) => Err::<(), Text>(e),
                None => Ok(()),
            }
        }),
    decreases results.len(),
{
    if results.len() > 0 {
        assert forall|i: int| 0 <= i < results.drop_last().len() implies (
        #[trigger] results.drop_last()[i]) is Ok by {
            assert(results[i] is Ok);
        }
        commands_are_run_in_order(plan, results.drop_last());
        assert(results.last() is Ok);
    }
}

/// A command that fails ends the commands of the action, which then has failed
/// for that reason.
pub proof fn failures_end_the_action(run: unix::RunModel, e: Text)
    requires
        run.phase == unix::Phase::Running,
        !run.stuck,
    ensures
        run.after(Err(e)).phase != unix::Phase::Running,
        run.after(Err(e)).outcome() == Err::<(), Text>(e),
        run.after(Err(e)).keys == run.keys,
        run.after(Err(e)).button == run.button,
        run.after(Err(e)).phase == unix::Phase::Over <==> run.keys.len() == 0 && run.button is None,
{
}

/// The button is released first, then the keys, those pressed last before the
/// others; one command that releases everything holds these releases one after
/// the other.
pub proof fn releases_undo_the_presses(keys: Seq<Text>, button: Option<Text>, k: int)
    requires
        0 <= k < keys.len(),
    ensures
        ({
            let list = unix::releases(keys, button);
            let first: int = if button is Some {
                1
            } else {
                0
            };
            &&& list.len() == keys.len() + first
            &&& button matches Some(b) ==> list[0] == seq!["mouseup"@, b]
            &&& list[first + k] == seq!["keyup"@, keys[keys.len() - 1 - k]]
            &&& unix::flat(list).len() == 2 * list.len()
            &&& unix::flat(list).subrange(2 * (first + k), 2 * (first + k) + 2) == list[first + k]
            &&& unix::flat(list).subrange(0, 2) == list[0]
        }),
{
    let list = unix::releases(keys, button);
    let first: int = if button is Some {
        1
    } else {
        0
    };
    lemma_flat(list);
    assert(unix::flat(list).subrange(2 * (first + k), 2 * (first + k) + 2) =~= list[first + k]);
    assert(unix::flat(list).subrange(2 * 0int, 2 * 0int + 2) =~= list[0]);
}

proof fn lemma_flat(list: Seq<Seq<Text>>)
    requires
        forall|i: int| 0 <= i < list.len() ==> (#[trigger] list[i]).len() == 2,
    ensures
        unix::flat(list).len() == 2 * list.len(),
        forall|i: int|
            0 <= i < list.len() ==> #[trigger] unix::flat(list).subrange(2 * i, 2 * i + 2) =~= list[i],
    decreases list.len(),
{
    if list.len() > 0 {
        let first = list.drop_last();
        assert forall|i: int| 0 <= i < first.len() implies (#[trigger] first[i]).len() == 2 by {
            assert(first[i] == list[i]);
        }
        lemma_flat(first);
        assert(unix::flat(list) =~= unix::flat(first) + list.last());
        assert forall|i: int| 0 <= i < list.len() implies #[trigger] unix::flat(list).subrange(
            2 * i,
            2 * i + 2,
        ) =~= list[i] by {
            if i < first.len() {
                assert(unix::flat(list).subrange(2 * i, 2 * i + 2) =~= unix::flat(first).subrange(
                    2 * i,
                    2 * i + 2,
                ));
                assert(first[i] == list[i]);
            }
        }
    }
}

// ---------------------------------------------------------------------------
// Actions on Windows
// ---------------------------------------------------------------------------
/// Whether a number of units, of 65536 for the whole axis, is that of the centre
/// of a pixel, rounded down.
pub open spec fn centre_of(offset: int, size: int, units: int) -> bool {
    &&& 0 <= units <= 65_535
    &&& size * units <= offset * 65_536 + 32_768 < size * units + size
}

/// Whether a step moves the pointer to a pixel of the desktop, and nothing else.
pub open spec fn points_at(step: windows::Step, g: Geometry, at: (int, int)) -> bool {
    &&& step matches windows::Step::Send(windows::Input::Mouse(m))
    &&& centre_of(at.0 - g.x, g.width as int, m.dx as int)
    &&& centre_of(at.1 - g.y, g.height as int, m.dy as int)
    &&& m.mouse_data == 0
    &&& m.flags == 0xc001
    &&& m.time == 0
    &&& m.extra_info == 0
}

/// Whether a step presses a mouse button, which is released later.
pub open spec fn holds_button(step: windows::Step, button: Button) -> bool {
    &&& step matches windows::Step::Press {
        down: windows::Input::Mouse(d),
        up: windows::Input::Mouse(u),
    }
    &&& d.dx == 0 && d.dy == 0 && d.mouse_data == 0 && d.time == 0 && d.extra_info == 0
    &&& u.dx == 0 && u.dy == 0 && u.mouse_data == 0 && u.time == 0 && u.extra_info == 0
    &&& d.flags == match button {
        Button::Left => 0x02u32,
        Button::Right => 0x08u32,
        Button::Middle => 0x20u32,
    }
    &&& u.flags == match button {
        Button::Left => 0x04u32,
        Button::Right => 0x10u32,
        Button::Middle => 0x40u32,
    }
}

/// Whether a step presses a key, which is released later: the release is the
/// same event but for the flag that tells it from the press. The keys of the
/// extended part of the keyboard are told apart by a flag too.
pub open spec fn holds_key(step: windows::Step, name: Text) -> bool {
    &&& computer::key_of(name) matches Some(key)
    &&& step matches windows::Step::Press {
        down: windows::Input::Keyboard(d),
        up: windows::Input::Keyboard(u),
    }
    &&& d.virtual_key == key.windows
    &&& d.scan_code == 0
    &&& d.time == 0
    &&& d.extra_info == 0
    &&& u == (windows::KeyboardInput { flags: (d.flags + 2) as u32, ..d })
    &&& d.flags == if 0x21 <= key.windows <= 0x28 || key.windows == 0x2d || key.windows == 0x2e
        || key.windows == 0x5b {
        1u32
    } else {
        0u32
    }
}

/// Whether steps press the keys of these names one after the other.
pub open spec fn holds_all(steps: Seq<windows::Step>, names: Seq<Text>) -> bool {
    &&& steps.len() == names.len()
    &&& forall|k: int| 0 <= k < steps.len() ==> holds_key(#[trigger] steps[k], names[k])
}

/// Whether a desktop ends within the range of coordinates.
pub open spec fn in_range(g: Geometry) -> bool {
    &&& g.width > 0
    &&& g.height > 0
    &&& g.x + g.width - 1 <= i32::MAX
    &&& g.y + g.height - 1 <= i32::MAX
}

/// Keys are pressed one after the other, in the order they are named.
pub proof fn windows_chords_press_each_key(keys: Seq<Text>, frame: Frame)
    requires
        forall|k: int| 0 <= k < keys.len() ==> computer::key_of(#[trigger] keys[k]) is Some,
    ensures
        windows::planned(ActionModel::Key { keys }, frame).fault is None,
        holds_all(windows::planned(ActionModel::Key { keys }, frame).steps, keys),
{
    lemma_windows_presses(keys);
}

proof fn lemma_windows_presses(names: Seq<Text>)
    requires
        forall|k: int| 0 <= k < names.len() ==> computer::key_of(#[trigger] names[k]) is Some,
    ensures
        windows::presses_planned(names).fault is None,
        holds_all(windows::presses_planned(names).steps, names),
    decreases names.len(),
{
    if names.len() > 0 {
        let first = names.drop_last();
        assert forall|k: int| 0 <= k < first.len() implies computer::key_of(
            #[trigger] first[k],
        ) is Some by {
            assert(first[k] == names[k]);
        }
        lemma_windows_presses(first);
        let all = windows::presses_planned(names);
        let before = windows::presses_planned(first);
        let last = windows::press_planned(names.last());
        assert(all.steps == before.steps + last.steps);
        assert forall|k: int| 0 <= k < all.steps.len() implies holds_key(
            #[trigger] all.steps[k],
            names[k],
        ) by {
            if k < first.len() {
                assert(all.steps[k] == before.steps[k]);
                assert(holds_key(before.steps[k], first[k]));
            } else {
                assert(all.steps[k] == last.steps[0]);
            }
        }
    }
}

proof fn lemma_windows_modifiers(modifiers: Seq<Modifier>)
    ensures
        windows::presses_planned(unix::modifier_names(modifiers)).fault is None,
        holds_all(
            windows::presses_planned(unix::modifier_names(modifiers)).steps,
            modifier_keys(modifiers),
        ),
{
    let names = unix::modifier_names(modifiers);
    assert(names =~= modifier_keys(modifiers));
    lemma_windows_presses(names);
}

proof fn lemma_centre(offset: int, size: int)
    requires
        0 <= offset < size,
    ensures
        centre_of(offset, size, windows::units(offset, size)),
{
    let n = offset * 65_536 + 32_768;
    let u = windows::units(offset, size);
    assert(0 <= u <= 65_535 && size * u <= n < size * u + size) by (nonlinear_arith)
        requires
            u == n / size,
            n == offset * 65_536 + 32_768,
            0 <= offset < size,
    ;
}

proof fn lemma_move(g: Geometry, x: int, y: int)
    requires
        g.x <= x < g.x + g.width,
        g.y <= y < g.y + g.height,
    ensures
        windows::move_planned(g, x, y).fault is None,
        windows::move_planned(g, x, y).steps.len() == 1,
        points_at(windows::move_planned(g, x, y).steps[0], g, (x, y)),
{
    lemma_centre(x - g.x, g.width as int);
    lemma_centre(y - g.y, g.height as int);
}

/// The pointer is moved to the desktop pixel that the point is mapped to.
pub proof fn windows_moves_go_to_the_point(frame: Frame, x: u32, y: u32)
    requires
        frame.shows(Point { x, y }),
        in_range(frame.geometry),
    ensures
        ({
            let plan = windows::planned(ActionModel::Move { x, y }, frame);
            &&& plan.fault is None
            &&& plan.steps.len() == 1
            &&& points_at(plan.steps[0], frame.geometry, frame.mapped(Point { x, y }))
        }),
{
    computer::points_stay_on_the_desktop(frame, Point { x, y });
    lemma_move(frame.geometry, frame.mapped(Point { x, y }).0, frame.mapped(Point { x, y }).1);
}

/// A click presses the modifiers, goes to the point, and presses and releases
/// the button as often as it is asked to, with a pause of ten milliseconds
/// between two clicks.
pub proof fn windows_clicks_are_made_at_the_point(
    frame: Frame,
    x: u32,
    y: u32,
    button: Button,
    count: u8,
    modifiers: Seq<Modifier>,
)
    requires
        frame.shows(Point { x, y }),
        in_range(frame.geometry),
        count > 0,
    ensures
        ({
            let plan = windows::planned(
                ActionModel::Click { x, y, button, count, modifiers },
                frame,
            );
            let m = modifiers.len() as int;
            &&& plan.fault is None
            &&& plan.steps.len() == m + 3 * count
            &&& holds_all(plan.steps.take(m), modifier_keys(modifiers))
            &&& points_at(plan.steps[m], frame.geometry, frame.mapped(Point { x, y }))
            &&& clicked(plan.steps.skip(m + 1), button, count as int)
        }),
{
    lemma_windows_modifiers(modifiers);
    windows_moves_go_to_the_point(frame, x, y);
    lemma_clicks(button, count as nat);
    let plan = windows::planned(ActionModel::Click { x, y, button, count, modifiers }, frame);
    let pressed = windows::presses_planned(unix::modifier_names(modifiers));
    let m = modifiers.len() as int;
    assert(plan.steps.take(m) =~= pressed.steps);
    assert(plan.steps.skip(m + 1) =~= windows::click_steps(button, count as nat));
}

/// Whether steps press and release a button a number of times, with pauses
/// between.
pub open spec fn clicked(steps: Seq<windows::Step>, button: Button, count: int) -> bool {
    &&& steps.len() == 3 * count - 1
    &&& forall|k: int| 0 <= k < steps.len() && k % 3 == 0 ==> holds_button(#[trigger] steps[k], button)
    &&& forall|k: int|
        0 <= k < steps.len() && k % 3 == 1 ==> #[trigger] steps[k] == windows::Step::Release
    &&& forall|k: int|
        0 <= k < steps.len() && k % 3 == 2 ==> #[trigger] steps[k] == windows::Step::Sleep(10)
}

proof fn lemma_clicks(button: Button, n: nat)
    requires
        n > 0,
    ensures
        clicked(windows::click_steps(button, n), button, n as int),
    decreases n,
{
    if n > 1 {
        lemma_clicks(button, (n - 1) as nat);
    }
}

/// A scroll presses the modifiers, goes to the point, and sends one wheel event:
/// of 120 units for each step, upwards or to the right, or of as many below
/// zero, downwards or to the left.
pub proof fn windows_wheels_turn_at_the_point(
    frame: Frame,
    x: u32,
    y: u32,
    direction: Direction,
    amount: u32,
    modifiers: Seq<Modifier>,
)
    requires
        frame.shows(Point { x, y }),
        in_range(frame.geometry),
        1 <= amount <= 100,
    ensures
        ({
            let plan = windows::planned(
                ActionModel::Scroll { x, y, direction, amount, modifiers },
                frame,
            );
            let m = modifiers.len() as int;
            &&& plan.fault is None
            &&& plan.steps.len() == m + 2
            &&& holds_all(plan.steps.take(m), modifier_keys(modifiers))
            &&& points_at(plan.steps[m], frame.geometry, frame.mapped(Point { x, y }))
            &&& plan.steps[m + 1] matches windows::Step::Send(windows::Input::Mouse(w))
            &&& w.dx == 0 && w.dy == 0 && w.time == 0 && w.extra_info == 0
            &&& w.mouse_data == if direction is Up || direction is Right {
                120 * amount
            } else {
                0x1_0000_0000 - 120 * amount
            }
            &&& w.flags == if direction is Up || direction is Down {
                0x0800u32
            } else {
                0x1000u32
            }
        }),
{
    lemma_windows_modifiers(modifiers);
    windows_moves_go_to_the_point(frame, x, y);
    let plan = windows::planned(ActionModel::Scroll { x, y, direction, amount, modifiers }, frame);
    let pressed = windows::presses_planned(unix::modifier_names(modifiers));
    assert(plan.steps.take(modifiers.len() as int) =~= pressed.steps);
}

/// A drag presses the modifiers, goes to its start, presses the button, moves in
/// twenty steps with a pause of ten milliseconds before each, and releases the
/// button: each movement lies, in both coordinates, on the way from the pixel
/// that the start is mapped to to the one that the destination is mapped to, and
/// the last one goes to the destination.
pub proof fn windows_drags_lead_to_the_destination(
    frame: Frame,
    from: Point,
    to: Point,
    button: Button,
    modifiers: Seq<Modifier>,
)
    requires
        frame.shows(from),
        frame.shows(to),
        in_range(frame.geometry),
    ensures
        ({
            let plan = windows::planned(ActionModel::Drag { from, to, button, modifiers }, frame);
            let m = modifiers.len() as int;
            let (start, end) = (frame.mapped(from), frame.mapped(to));
            let moves = plan.steps.subrange(m + 2, m + 42);
            &&& plan.fault is None
            &&& plan.steps.len() == m + 43
            &&& holds_all(plan.steps.take(m), modifier_keys(modifiers))
            &&& points_at(plan.steps[m], frame.geometry, start)
            &&& holds_button(plan.steps[m + 1], button)
            &&& forall|k: int|
                0 <= k < 20 ==> #[trigger] dragged(moves, frame.geometry, start, end, k)
            &&& points_at(plan.steps[m + 41], frame.geometry, end)
            &&& plan.steps[m + 42] == windows::Step::Release
        }),
{
    lemma_windows_modifiers(modifiers);
    computer::points_stay_on_the_desktop(frame, from);
    computer::points_stay_on_the_desktop(frame, to);
    let g = frame.geometry;
    let (start, end) = (frame.mapped(from), frame.mapped(to));
    lemma_move(g, start.0, start.1);
    lemma_drag_moves(g, start, end, 20);
    let plan = windows::planned(ActionModel::Drag { from, to, button, modifiers }, frame);
    let pressed = windows::presses_planned(unix::modifier_names(modifiers));
    let m = modifiers.len() as int;
    assert(plan.steps.take(m) =~= pressed.steps);
    let moves = plan.steps.subrange(m + 2, m + 42);
    assert(moves =~= windows::drag_moves(g, start, end, 20).steps);
    assert(dragged(moves, g, start, end, 19));
    let (x, y) = choose|x: int, y: int| #[trigger]
        points_at(moves[39], g, (x, y)) && on_the_way(start.0, end.0, x, 20, 20)
            && on_the_way(start.1, end.1, y, 20, 20);
    assert(x == end.0 && y == end.1);
    assert(plan.steps[m + 41] == moves[39]);
}

/// Whether movement number `k` of a drag comes after a pause and lies on the way
/// in both coordinates.
pub open spec fn dragged(
    moves: Seq<windows::Step>,
    g: Geometry,
    start: (int, int),
    end: (int, int),
    k: int,
) -> bool {
    &&& moves[2 * k] == windows::Step::Sleep(10)
    &&& exists|x: int, y: int| #[trigger]
        points_at(moves[2 * k + 1], g, (x, y)) && on_the_way(start.0, end.0, x, k + 1, 20)
            && on_the_way(start.1, end.1, y, k + 1, 20)
}

proof fn lemma_drag_moves(g: Geometry, start: (int, int), end: (int, int), n: nat)
    requires
        n <= 20,
        g.x <= start.0 < g.x + g.width,
        g.x <= end.0 < g.x + g.width,
        g.y <= start.1 < g.y + g.height,
        g.y <= end.1 < g.y + g.height,
    ensures
        windows::drag_moves(g, start, end, n).fault is None,
        windows::drag_moves(g, start, end, n).steps.len() == 2 * n,
        forall|k: int|
            0 <= k < n ==> #[trigger] dragged(
                windows::drag_moves(g, start, end, n).steps,
                g,
                start,
                end,
                k,
            ),
    decreases n,
{
    if n > 0 {
        let before = windows::drag_moves(g, start, end, (n - 1) as nat).steps;
        let all = windows::drag_moves(g, start, end, n).steps;
        lemma_drag_moves(g, start, end, (n - 1) as nat);
        ways_lead_to_their_end(start.0, end.0, n as int, 20);
        ways_lead_to_their_end(start.1, end.1, n as int, 20);
        let x = unix::part_way(start.0, end.0, n as int, 20);
        let y = unix::part_way(start.1, end.1, n as int, 20);
        lemma_move(g, x, y);
        assert(all =~= before + seq![windows::Step::Sleep(10)] + windows::move_planned(
            g,
            x,
            y,
        ).steps);
        assert forall|k: int| 0 <= k < n implies #[trigger] dragged(all, g, start, end, k) by {
            if k < n - 1 {
                assert(dragged(before, g, start, end, k));
                let (a, b) = choose|a: int, b: int| #[trigger]
                    points_at(before[2 * k + 1], g, (a, b)) && on_the_way(
                        start.0,
                        end.0,
                        a,
                        k + 1,
                        20,
                    ) && on_the_way(start.1, end.1, b, k + 1, 20);
                assert(all[2 * k + 1] == before[2 * k + 1]);
                assert(points_at(all[2 * k + 1], g, (a, b)));
            } else {
                assert(points_at(all[2 * k + 1], g, (x, y)));
            }
        }
    }
}

/// The units of a character lead back to it: one unit for most characters, and
/// two surrogates for those beyond.
pub proof fn units_lead_back_to_the_character(c: char)
    ensures
        ({
            let u = windows::utf16(c);
            ||| u.len() == 1 && u[0] == c as int && !(0xd800 <= u[0] <= 0xdfff)
            ||| u.len() == 2 && 0xd800 <= u[0] <= 0xdbff && 0xdc00 <= u[1] <= 0xdfff && 0x1_0000 + (
            u[0] - 0xd800) * 0x400 + (u[1] - 0xdc00) == c as int
        }),
{
}

/// Whether steps type units one after the other, each pressed and released.
pub open spec fn types(steps: Seq<windows::Step>, units: Seq<u16>) -> bool {
    &&& steps.len() == 2 * units.len()
    &&& forall|k: int| 0 <= k < units.len() ==> #[trigger] typed(steps, units[k], k)
}

/// Whether a unit is pressed and released at number `k` of some steps.
pub open spec fn typed(steps: Seq<windows::Step>, unit: u16, k: int) -> bool {
    &&& steps[2 * k] matches windows::Step::Press {
        down: windows::Input::Keyboard(d),
        up: windows::Input::Keyboard(u),
    }
    &&& d == (windows::KeyboardInput {
        virtual_key: 0,
        scan_code: unit,
        flags: 4,
        time: 0,
        extra_info: 0,
    })
    &&& u == (windows::KeyboardInput { flags: 6, ..d })
    &&& steps[2 * k + 1] == windows::Step::Release
}

/// A text is typed character by character: what is typed for two texts one after
/// the other is typed for the whole, and a character is typed by its units.
pub proof fn texts_are_typed_character_by_character(frame: Frame, a: Text, b: Text, c: char)
    ensures
        windows::planned(ActionModel::Type { text: a + b }, frame).steps == windows::planned(
            ActionModel::Type { text: a },
            frame,
        ).steps + windows::planned(ActionModel::Type { text: b }, frame).steps,
        types(
            windows::planned(ActionModel::Type { text: seq![c] }, frame).steps,
            windows::utf16(c),
        ),
        windows::planned(ActionModel::Type { text: a }, frame).fault is None,
{
    lemma_type_steps(a, b);
    let one = seq![c];
    assert(one.drop_last() =~= Seq::empty());
    assert(windows::type_steps(one.drop_last()) =~= Seq::empty());
    assert(windows::type_steps(one) =~= windows::unit_steps(windows::utf16(c)));
    lemma_unit_steps(windows::utf16(c));
}

proof fn lemma_type_steps(a: Text, b: Text)
    ensures
        windows::type_steps(a + b) == windows::type_steps(a) + windows::type_steps(b),
    decreases b.len(),
{
    if b.len() == 0 {
        assert(a + b =~= a);
        assert(windows::type_steps(b) =~= Seq::empty());
        assert(windows::type_steps(a + b) =~= windows::type_steps(a) + windows::type_steps(b));
    } else {
        assert((a + b).drop_last() =~= a + b.drop_last());
        lemma_type_steps(a, b.drop_last());
        assert(windows::type_steps(a + b) =~= windows::type_steps(a) + windows::type_steps(b));
    }
}

proof fn lemma_unit_steps(units: Seq<u16>)
    ensures
        types(windows::unit_steps(units), units),
    decreases units.len(),
{
    if units.len() > 0 {
        let before = windows::unit_steps(units.drop_last());
        let all = windows::unit_steps(units);
        lemma_unit_steps(units.drop_last());
        assert forall|k: int| 0 <= k < units.len() implies #[trigger] typed(all, units[k], k) by {
            if k < units.len() - 1 {
                assert(typed(before, units.drop_last()[k], k));
            }
        }
    }
}

/// As long as they succeed, the steps of a plan are done one after the other.
/// What a step presses is sent, and noted to be released; a release sends what
/// was noted last, which is then no longer noted.
pub proof fn steps_are_done_in_order(run: windows::RunModel)
    requires
        run.phase == windows::Phase::Running,
        0 <= run.at < run.plan.steps.len(),
    ensures
        ({
            let next = run.after(Ok(()));
            let step = run.plan.steps[run.at];
            &&& next.plan == run.plan
            &&& run.at + 1 < run.plan.steps.len() ==> next.phase == windows::Phase::Running
                && next.at == run.at + 1 && next.error == run.error
            &&& run.at + 1 == run.plan.steps.len() ==> next.phase != windows::Phase::Running
                && next.error == run.plan.fault
            &&& step matches windows::Step::Send(input) ==> run.todo() == windows::Todo::Send(input)
                && next.held == run.held
            &&& step matches windows::Step::Press { down, up } ==> run.todo()
                == windows::Todo::Send(down) && next.held == run.held.push(up)
            &&& step is Release && run.held.len() > 0 ==> run.todo() == windows::Todo::Send(
                run.held.last(),
            ) && next.held == run.held.drop_last()
            &&& step matches windows::Step::Sleep(ms) ==> run.todo() == windows::Todo::Sleep(ms)
                && next.held == run.held
        }),
{
}

/// A step that fails ends the steps of the action, which has then failed for
/// that reason; what is held is released, what was pressed last first, and what
/// cannot be released is tried once more.
pub proof fn windows_failures_end_the_action(run: windows::RunModel, e: Text)
    requires
        run.wf(),
    ensures
        run.phase == windows::Phase::Running ==> {
            let next = run.after(Err(e));
            &&& next.phase != windows::Phase::Running
            &&& next.error == Some(e)
            &&& next.outcome() == Err::<(), Text>(e)
            &&& next.held == run.held
            &&& next.phase == windows::Phase::Over <==> run.held.len() == 0
        },
        run.phase == windows::Phase::Releasing || run.phase == windows::Phase::Retrying ==> {
            &&& run.todo() == windows::Todo::Send(run.held.last())
            &&& run.held.len() > 1 ==> run.after(Ok(())).held == run.held.drop_last()
                && run.after(Err(e)).held == run.held.drop_last()
            &&& run.held.len() == 1 && run.phase == windows::Phase::Releasing ==> run.after(
                Err(e),
            ).held == run.left.push(run.held.last())
            &&& run.after(Ok(())).error == run.error
            &&& run.after(Err(e)).error == run.error
            &&& run.after(Err(e)).outcome() is Err
        },
{
}

/// A desktop takes input unless it has no name or one that tells that it is
/// locked; the case of letters and zeros at the end do not matter.
pub proof fn locked_desktops_take_no_input(name: Text)
    requires
        forall|i: int| 0 <= i < name.len() ==> #[trigger] name[i] != '\0',
    ensures
        windows::desktop_fault(name) is None <==> name.len() > 0 && text::lower_text(name)
            != "winlogon"@ && text::lower_text(name) != "screen-saver"@ && text::lower_text(name)
            != "screensaver"@,
        windows::desktop_fault(name.push('\0')) == windows::desktop_fault(name),
{
    let longer = name.push('\0');
    assert(longer.drop_last() =~= name);
    assert(windows::without_zeros(longer) == windows::without_zeros(name));
    assert(windows::without_zeros(name) == name);
    assert(text::lower_text(name).len() == name.len());
}

/// A report of two numbers with white space between them, and perhaps more
/// behind, tells a desktop at the origin with these numbers as its width and
/// height, as long as neither is zero or beyond the range of coordinates.
pub proof fn reports_tell_the_size(width: nat, height: nat, gap: char, end: Text)
    requires
        text::is_space(gap),
        end.len() == 0 || end.len() == 1 && text::is_space(end[0]),
    ensures
        ({
            let report = text::decimal(width) + seq![gap] + text::decimal(height) + end;
            match unix::reported(report) {
                Ok(g) => {
                    &&& g.x == 0 && g.y == 0
                    &&& g.width == width && g.height == height
                    &&& 0 < width <= 2_147_483_647 && 0 < height <= 2_147_483_647
                },
                Err(_) => !(0 < width <= 2_147_483_647 && 0 < height <= 2_147_483_647),
            }
        }),
{
    let a = text::decimal(width);
    let b = text::decimal(height);
    text::numbers_read_back(width);
    text::numbers_read_back(height);
    assert forall|i: int| 0 <= i < a.len() implies !text::is_space(#[trigger] a[i]) by {
        assert(text::is_digit(a[i]));
    }
    assert forall|i: int| 0 <= i < b.len() implies !text::is_space(#[trigger] b[i]) by {
        assert(text::is_digit(b[i]));
    }
    let rest = b + end;
    let report = a + seq![gap] + b + end;
    assert(report =~= a + seq![gap] + rest);
    text::words_stand_between_white_space(a, gap, rest);
    if end.len() == 0 {
        assert(rest =~= b);
        text::words_stand_between_white_space(b, gap, end);
    } else {
        assert(rest =~= b + seq![end[0]] + Seq::<char>::empty());
        text::words_stand_between_white_space(b, end[0], Seq::empty());
        assert(text::words_from(Seq::empty(), 0) =~= Seq::empty());
        assert(seq![b] + Seq::<Text>::empty() =~= seq![b]);
    }
    let words = seq![a] + seq![b];
    assert(text::words_from(report, 0) == words);
    text::numbers_are_read(width, u32::MAX as nat, a);
    text::numbers_are_read(height, u32::MAX as nat, b);
    assert(words.last() == b);
    assert(words.drop_last() =~= seq![a]);
    assert(seq![a].last() == a);
    assert(seq![a].drop_last() =~= Seq::empty());
    assert(unix::numbers(Seq::empty()) =~= Seq::empty());
    let none = Seq::<nat>::empty();
    assert(unix::numbers(seq![a]) == (if width <= u32::MAX {
        none.push(width)
    } else {
        none
    }));
    assert(unix::numbers(words) == (if height <= u32::MAX {
        unix::numbers(seq![a]).push(height)
    } else {
        unix::numbers(seq![a])
    }));
}

/// A client without desktop input says why.
pub proof fn missing_input_has_a_reason(reason: Text)
    ensures
        !computer::unavailable(reason).available,
        computer::unavailable(reason).reason == Some(reason),
        computer::unavailable(reason).backend is None,
{
}

/// What is held is released by one command; when that fails, each release is run
/// by itself, all of them in turn, and one that fails is reported.
pub proof fn failed_releases_are_reported(run: unix::RunModel, i: usize, e: Text)
    requires
        run.wf(),
        !run.stuck,
    ensures
        run.phase == unix::Phase::Releasing ==> run.after(Ok(())).phase == unix::Phase::Over
            && run.after(Ok(())).outcome() == run.outcome() && run.after(Err(e)).phase
            == unix::Phase::ReleasingEach(0) && !run.after(Err(e)).stuck,
        run.phase == unix::Phase::ReleasingEach(i) ==> {
            let all = unix::releases(run.keys, run.button);
            &&& run.command().0 == all[i as int]
            &&& run.after(Ok(())).phase == run.after(Err(e)).phase
            &&& i + 1 < all.len() ==> run.after(Ok(())).phase == unix::Phase::ReleasingEach(
                (i + 1) as usize,
            )
            &&& i + 1 == all.len() ==> run.after(Ok(())).phase == unix::Phase::Over
            &&& run.after(Ok(())).outcome() == run.outcome()
            &&& run.after(Err(e)).outcome() is Err
        },
        (unix::RunModel { stuck: true, ..run }).outcome() is Err,
        (unix::RunModel { stuck: true, ..run }).after(Ok(())).outcome() is Err,
{
}

} // verus!
