//! Desktop input through `xdotool`: the commands of each action, and the
//! releases that follow whatever happens.
use vstd::prelude::*;

use crate::bytes;
use crate::computer;
use crate::computer::batch;
use crate::computer::{Action, ActionModel, Button, Direction, Frame, Geometry, Modifier, Point};
use crate::text;
use crate::text::Text;

verus! {

// ---------------------------------------------------------------------------
// Commands
// ---------------------------------------------------------------------------
/// A key or button that a command presses.
#[derive(Debug)]
pub enum Hold {
    Key(String),
    Button(String),
}

/// The model of [`Hold`].
pub enum HoldModel {
    Key(Text),
    Button(Text),
}

/// One call of the program: its arguments, its input, and what it presses.
#[derive(Debug)]
pub struct Step {
    pub args: Vec<String>,
    pub input: Option<String>,
    pub hold: Option<Hold>,
}

/// The model of [`Step`].
pub struct StepModel {
    pub args: Seq<Text>,
    pub input: Option<Text>,
    pub hold: Option<HoldModel>,
}

impl View for Step {
    type V = StepModel;

    open spec fn view(&self) -> StepModel {
        StepModel {
            args: text::strings(self.args@),
            input: text::opt_text(self.input),
            hold: match self.hold {
                Some(Hold::Key(k)) => Some(HoldModel::Key(k@)),
                Some(Hold::Button(b)) => Some(HoldModel::Button(b@)),
                None => None,
            },
        }
    }
}

pub open spec fn step_models(v: Seq<Step>) -> Seq<StepModel> {
    v.map_values(|s: Step| s@)
}

/// The commands of an action, up to something that cannot be done.
pub struct PlanModel {
    pub steps: Seq<StepModel>,
    pub fault: Option<Text>,
}

pub open spec fn nothing() -> PlanModel {
    PlanModel { steps: Seq::empty(), fault: None }
}

pub open spec fn step(args: Seq<Text>, hold: Option<HoldModel>) -> PlanModel {
    PlanModel { steps: seq![StepModel { args, input: None, hold }], fault: None }
}

pub open spec fn fault(message: Text) -> PlanModel {
    PlanModel { steps: Seq::empty(), fault: Some(message) }
}

/// One plan after the other; after a fault nothing more is done.
pub open spec fn chained(a: PlanModel, b: PlanModel) -> PlanModel {
    if a.fault is Some {
        a
    } else {
        PlanModel { steps: a.steps + b.steps, fault: b.fault }
    }
}

/// The number of a mouse button.
pub open spec fn button_number(b: Button) -> Text {
    match b {
        Button::Left => "1"@,
        Button::Middle => "2"@,
        Button::Right => "3"@,
    }
}

/// The number of the button that stands for a wheel step.
pub open spec fn wheel_number(d: Direction) -> Text {
    match d {
        Direction::Up => "4"@,
        Direction::Down => "5"@,
        Direction::Left => "6"@,
        Direction::Right => "7"@,
    }
}

/// Pressing a key.
pub open spec fn press_planned(name: Text) -> PlanModel {
    match computer::key_of(name) {
        Some(key) => step(seq!["keydown"@, key.x11], Some(HoldModel::Key(key.x11))),
        None => fault(computer::unknown_key()),
    }
}

/// Pressing keys one after the other.
pub open spec fn presses_planned(names: Seq<Text>) -> PlanModel
    decreases names.len(),
{
    if names.len() == 0 {
        nothing()
    } else {
        chained(presses_planned(names.drop_last()), press_planned(names.last()))
    }
}

pub open spec fn modifier_names(modifiers: Seq<Modifier>) -> Seq<Text> {
    modifiers.map_values(|m: Modifier| m.called())
}

/// Moving the pointer.
pub open spec fn move_planned(frame: Frame, point: Point) -> PlanModel {
    if frame.shows(point) {
        step(
            seq![
                "mousemove"@,
                text::decimal_int(frame.mapped(point).0),
                text::decimal_int(frame.mapped(point).1),
            ],
            None,
        )
    } else {
        fault(frame.outside())
    }
}

/// Clicking a button several times.
pub open spec fn clicks_planned(count: nat, delay: Text, button: Text) -> PlanModel {
    step(
        seq!["click"@, "--repeat"@, text::decimal(count), "--delay"@, delay, button],
        Some(HoldModel::Button(button)),
    )
}

/// The coordinate after `n` of `of` equal parts of the way, rounded towards the
/// start.
pub open spec fn part_way(from: int, to: int, n: int, of: int) -> int {
    if to >= from {
        from + (to - from) * n / of
    } else {
        from - (from - to) * n / of
    }
}

/// The arguments of the first `n` of ten movements of a drag.
pub open spec fn drag_args(from: (int, int), to: (int, int), n: nat) -> Seq<Text>
    decreases n,
{
    if n == 0 {
        Seq::empty()
    } else {
        drag_args(from, to, (n - 1) as nat) + seq![
            "mousemove"@,
            text::decimal_int(part_way(from.0, to.0, n as int, 10)),
            text::decimal_int(part_way(from.1, to.1, n as int, 10)),
            "sleep"@,
            "0.02"@,
        ]
    }
}

/// Dragging with the button held, once the pointer is at the start.
pub open spec fn drag_planned(frame: Frame, from: Point, to: Point, button: Button) -> PlanModel {
    chained(
        step(
            seq!["mousedown"@, button_number(button)],
            Some(HoldModel::Button(button_number(button))),
        ),
        if frame.shows(to) {
            step(drag_args(frame.mapped(from), frame.mapped(to), 10), None)
        } else {
            fault(frame.outside())
        },
    )
}

/// The commands of an action.
pub open spec fn planned(action: ActionModel, frame: Frame) -> PlanModel {
    match action {
        ActionModel::Move { x, y } => move_planned(frame, Point { x, y }),
        ActionModel::Click { x, y, button, count, modifiers } => chained(
            presses_planned(modifier_names(modifiers)),
            chained(
                move_planned(frame, Point { x, y }),
                clicks_planned(count as nat, "80"@, button_number(button)),
            ),
        ),
        ActionModel::Scroll { x, y, direction, amount, modifiers } => chained(
            presses_planned(modifier_names(modifiers)),
            chained(
                move_planned(frame, Point { x, y }),
                clicks_planned(amount as nat, "10"@, wheel_number(direction)),
            ),
        ),
        ActionModel::Drag { from, to, button, modifiers } => chained(
            presses_planned(modifier_names(modifiers)),
            chained(move_planned(frame, from), drag_planned(frame, from, to, button)),
        ),
        ActionModel::Key { keys } => presses_planned(keys),
        ActionModel::Type { text } => PlanModel {
            steps: seq![
                StepModel {
                    args: seq!["type"@, "--delay"@, "0"@, "--file"@, "-"@],
                    input: Some(text),
                    hold: None,
                },
            ],
            fault: None,
        },
        ActionModel::Wait { .. } => nothing(),
    }
}

// ---------------------------------------------------------------------------
// Making the plan
// ---------------------------------------------------------------------------
/// The commands of an action, up to something that cannot be done.
#[derive(Debug)]
pub struct Plan {
    pub steps: Vec<Step>,
    pub fault: Option<String>,
}

impl View for Plan {
    type V = PlanModel;

    open spec fn view(&self) -> PlanModel {
        PlanModel { steps: step_models(self.steps@), fault: text::opt_text(self.fault) }
    }
}

fn word_list1(a: &str) -> (r: Vec<String>)
    ensures
        text::strings(r@) == seq![a@],
{
    let mut v: Vec<String> = Vec::new();
    v.push(a.to_string());
    assert(text::strings(v@) =~= seq![a@]);
    v
}

fn add_word(v: &mut Vec<String>, a: &str)
    ensures
        text::strings(final(v)@) == text::strings(old(v)@).push(a@),
{
    let ghost before = v@;
    v.push(a.to_string());
    assert(text::strings(v@) =~= text::strings(before).push(a@));
}

impl Plan {
    fn new() -> (r: Plan)
        ensures
            r@ == nothing(),
    {
        let r = Plan { steps: Vec::new(), fault: None };
        assert(r@.steps =~= Seq::empty());
        r
    }

    fn stop(&mut self, message: String)
        ensures
            final(self)@ == chained(old(self)@, fault(message@)),
    {
        if self.fault.is_none() {
            self.fault = Some(message);
            assert(self@.steps =~= old(self)@.steps + Seq::empty());
        }
    }

    fn add_step(&mut self, next: Step)
        requires
            next.input is None,
        ensures
            final(self)@ == chained(old(self)@, step(next@.args, next@.hold)),
    {
        if self.fault.is_none() {
            let ghost before = self.steps@;
            self.steps.push(next);
            assert(step_models(self.steps@) =~= step_models(before) + seq![next@]);
        }
    }

    fn press(&mut self, name: &str)
        ensures
            final(self)@ == chained(old(self)@, press_planned(name@)),
    {
        match computer::key(name) {
            Err(e) => self.stop(e),
            Ok(key) => {
                let mut args = word_list1("keydown");
                add_word(&mut args, key.x11.as_str());
                assert(text::strings(args@) =~= seq!["keydown"@, key.x11@]);
                self.add_step(Step { args, input: None, hold: Some(Hold::Key(key.x11)) });
            },
        }
    }

    fn press_all(&mut self, names: &Vec<String>)
        ensures
            final(self)@ == chained(old(self)@, presses_planned(text::strings(names@))),
    {
        let ghost models = text::strings(names@);
        let ghost before = self@;
        assert(chained(before, presses_planned(models.take(0))) =~= before) by {
            assert(before.steps + Seq::empty() =~= before.steps);
        }
        for i in 0..names.len()
            invariant
                models == text::strings(names@),
                self@ == chained(before, presses_planned(models.take(i as int))),
        {
            assert(models.take(i + 1).drop_last() =~= models.take(i as int));
            assert(models.take(i + 1).last() == names@[i as int]@);
            self.press(names[i].as_str());
            proof {
                lemma_chained(
                    before,
                    presses_planned(models.take(i as int)),
                    press_planned(names@[i as int]@),
                );
            }
        }
        assert(models.take(names@.len() as int) =~= models);
    }

    fn press_modifiers(&mut self, modifiers: &Vec<Modifier>)
        ensures
            final(self)@ == chained(old(self)@, presses_planned(modifier_names(modifiers@))),
    {
        let mut names: Vec<String> = Vec::new();
        for i in 0..modifiers.len()
            invariant
                text::strings(names@) =~= modifier_names(modifiers@).take(i as int),
        {
            add_word(&mut names, modifiers[i].name());
            assert(modifier_names(modifiers@).take(i + 1) =~= modifier_names(modifiers@).take(
                i as int,
            ).push(modifiers@[i as int].called()));
        }
        assert(modifier_names(modifiers@).take(modifiers@.len() as int) =~= modifier_names(
            modifiers@,
        ));
        self.press_all(&names);
    }

    fn move_to(&mut self, frame: Frame, point: Point)
        ensures
            final(self)@ == chained(old(self)@, move_planned(frame, point)),
    {
        match frame.point(point) {
            Err(e) => self.stop(e),
            Ok((x, y)) => {
                let x = text::signed_number(x as i64);
                let y = text::signed_number(y as i64);
                let mut args = word_list1("mousemove");
                add_word(&mut args, x.as_str());
                add_word(&mut args, y.as_str());
                assert(text::strings(args@) =~= seq!["mousemove"@, x@, y@]);
                self.add_step(Step { args, input: None, hold: None });
            },
        }
    }

    fn click(&mut self, count: u32, delay: &str, button: &str)
        ensures
            final(self)@ == chained(old(self)@, clicks_planned(count as nat, delay@, button@)),
    {
        let times = text::number(count as u64);
        let mut args = word_list1("click");
        add_word(&mut args, "--repeat");
        add_word(&mut args, times.as_str());
        add_word(&mut args, "--delay");
        add_word(&mut args, delay);
        add_word(&mut args, button);
        assert(text::strings(args@) =~= seq![
            "click"@,
            "--repeat"@,
            times@,
            "--delay"@,
            delay@,
            button@,
        ]);
        self.add_step(
            Step { args, input: None, hold: Some(Hold::Button(button.to_string())) },
        );
    }

    fn drag(&mut self, frame: Frame, from: Point, to: Point, button: Button)
        requires
            old(self)@.fault is None ==> frame.shows(from),
        ensures
            final(self)@ == chained(old(self)@, drag_planned(frame, from, to, button)),
    {
        let ghost before = self@;
        let number = button_name(button);
        let mut args = word_list1("mousedown");
        add_word(&mut args, number);
        assert(text::strings(args@) =~= seq!["mousedown"@, number@]);
        self.add_step(
            Step { args, input: None, hold: Some(Hold::Button(number.to_string())) },
        );
        let ghost middle = step(
            seq!["mousedown"@, button_number(button)],
            Some(HoldModel::Button(button_number(button))),
        );
        match frame.point(to) {
            Err(e) => {
                self.stop(e);
                proof {
                    lemma_chained(before, middle, fault(frame.outside()));
                }
            },
            Ok(end) => {
                if let Ok(start) = frame.point(from) {
                    let args = drag_words(start, end);
                    self.add_step(Step { args, input: None, hold: None });
                }
                proof {
                    lemma_chained(
                        before,
                        middle,
                        step(drag_args(frame.mapped(from), frame.mapped(to), 10), None),
                    );
                }
            },
        }
    }
}

proof fn lemma_chained(a: PlanModel, b: PlanModel, c: PlanModel)
    ensures
        chained(chained(a, b), c) == chained(a, chained(b, c)),
{
    assert((a.steps + b.steps) + c.steps =~= a.steps + (b.steps + c.steps));
}

/// The number of a mouse button.
pub fn button_name(b: Button) -> (r: &'static str)
    ensures
        r@ == button_number(b),
{
    match b {
        Button::Left => "1",
        Button::Middle => "2",
        Button::Right => "3",
    }
}

fn wheel_name(d: Direction) -> (r: &'static str)
    ensures
        r@ == wheel_number(d),
{
    match d {
        Direction::Up => "4",
        Direction::Down => "5",
        Direction::Left => "6",
        Direction::Right => "7",
    }
}

/// The coordinate after `n` of `of` equal parts of the way.
pub fn part_of_way(from: i32, to: i32, n: i64, of: i64) -> (r: i64)
    requires
        0 <= n <= of <= 100,
        of > 0,
    ensures
        r == part_way(from as int, to as int, n as int, of as int),
        from <= to ==> from <= r <= to,
        to <= from ==> to <= r <= from,
{
    let a = from as i64;
    let b = to as i64;
    let distance = if b >= a {
        b - a
    } else {
        a - b
    };
    assert(0 <= distance * n <= 0x1_0000_0000 * 100) by (nonlinear_arith)
        requires
            0 <= distance <= 0x1_0000_0000,
            0 <= n <= 100,
    ;
    let done: i64 = distance * n / of;
    assert(0 <= done <= distance) by (nonlinear_arith)
        requires
            done == (distance * n) / (of as int),
            0 <= distance,
            0 <= n <= of,
            of > 0,
    ;
    if b >= a {
        a + done
    } else {
        a - done
    }
}

fn drag_words(from: (i32, i32), to: (i32, i32)) -> (r: Vec<String>)
    ensures
        text::strings(r@) == drag_args(
            (from.0 as int, from.1 as int),
            (to.0 as int, to.1 as int),
            10,
        ),
{
    let ghost a = (from.0 as int, from.1 as int);
    let ghost b = (to.0 as int, to.1 as int);
    let mut args: Vec<String> = Vec::new();
    assert(text::strings(args@) =~= Seq::empty());
    let mut n: i64 = 0;
    while n < 10
        invariant
            0 <= n <= 10,
            a == (from.0 as int, from.1 as int),
            b == (to.0 as int, to.1 as int),
            text::strings(args@) == drag_args(a, b, n as nat),
        decreases 10 - n,
    {
        n = n + 1;
        let x = text::signed_number(part_of_way(from.0, to.0, n, 10));
        let y = text::signed_number(part_of_way(from.1, to.1, n, 10));
        let ghost before = text::strings(args@);
        add_word(&mut args, "mousemove");
        add_word(&mut args, x.as_str());
        add_word(&mut args, y.as_str());
        add_word(&mut args, "sleep");
        add_word(&mut args, "0.02");
        assert(text::strings(args@) =~= before + seq!["mousemove"@, x@, y@, "sleep"@, "0.02"@]);
    }
    args
}

/// The commands of an action. Waiting is no matter of commands.
pub fn plan(action: &Action, frame: Frame) -> (r: Plan)
    requires
        !(action@ is Wait),
    ensures
        r@ == planned(action@, frame),
{
    let mut plan = Plan::new();
    let ghost start = plan@;
    match action {
        Action::Move { x, y } => {
            plan.move_to(frame, Point { x: *x, y: *y });
            assert(plan@.steps =~= planned(action@, frame).steps);
        },
        Action::Click { x, y, button, count, modifiers } => {
            let point = Point { x: *x, y: *y };
            plan.press_modifiers(modifiers);
            plan.move_to(frame, point);
            plan.click(*count as u32, "80", button_name(*button));
            proof {
                let presses = presses_planned(modifier_names(modifiers@));
                let moved = move_planned(frame, point);
                let clicked = clicks_planned(*count as nat, "80"@, button_number(*button));
                lemma_chained(chained(start, presses), moved, clicked);
                lemma_chained(start, presses, chained(moved, clicked));
            }
            assert(plan@.steps =~= planned(action@, frame).steps);
        },
        Action::Scroll { x, y, direction, amount, modifiers } => {
            let point = Point { x: *x, y: *y };
            plan.press_modifiers(modifiers);
            plan.move_to(frame, point);
            plan.click(*amount, "10", wheel_name(*direction));
            proof {
                let presses = presses_planned(modifier_names(modifiers@));
                let moved = move_planned(frame, point);
                let clicked = clicks_planned(*amount as nat, "10"@, wheel_number(*direction));
                lemma_chained(chained(start, presses), moved, clicked);
                lemma_chained(start, presses, chained(moved, clicked));
            }
            assert(plan@.steps =~= planned(action@, frame).steps);
        },
        Action::Drag { from, to, button, modifiers } => {
            plan.press_modifiers(modifiers);
            plan.move_to(frame, *from);
            plan.drag(frame, *from, *to, *button);
            proof {
                let presses = presses_planned(modifier_names(modifiers@));
                let moved = move_planned(frame, *from);
                let dragged = drag_planned(frame, *from, *to, *button);
                lemma_chained(chained(start, presses), moved, dragged);
                lemma_chained(start, presses, chained(moved, dragged));
            }
            assert(plan@.steps =~= planned(action@, frame).steps);
        },
        Action::Key { keys } => {
            plan.press_all(keys);
            assert(plan@.steps =~= planned(action@, frame).steps);
        },
        Action::Type { text } => {
            let mut args = word_list1("type");
            add_word(&mut args, "--delay");
            add_word(&mut args, "0");
            add_word(&mut args, "--file");
            add_word(&mut args, "-");
            assert(text::strings(args@) =~= seq!["type"@, "--delay"@, "0"@, "--file"@, "-"@]);
            plan.steps.push(Step { args, input: Some(text.clone()), hold: None });
            assert(plan@.steps =~= planned(action@, frame).steps);
        },
        Action::Wait { .. } => {},
    }
    plan
}

// ---------------------------------------------------------------------------
// Running the plan
// ---------------------------------------------------------------------------
/// Where the running of a plan stands.
#[derive(Debug, Clone, Copy, PartialEq, Eq, Structural)]
pub enum Phase {
    /// The commands of the action.
    Running,
    /// One command that releases everything.
    Releasing,
    /// A release of its own for each thing, after that command failed.
    ReleasingEach(usize),
    Over,
}

/// A plan being run: what is held, and what went wrong.
pub struct RunModel {
    pub plan: PlanModel,
    pub at: int,
    pub keys: Seq<Text>,
    pub button: Option<Text>,
    pub phase: Phase,
    pub error: Option<Text>,
    pub stuck: bool,
}

/// The releases of what is held: the button first, then the keys from the last
/// one pressed to the first.
pub open spec fn releases(keys: Seq<Text>, button: Option<Text>) -> Seq<Seq<Text>> {
    (match button {
        Some(b) => seq![seq!["mouseup"@, b]],
        None => Seq::<Seq<Text>>::empty(),
    }) + Seq::new(keys.len(), |i: int| seq!["keyup"@, keys[keys.len() - 1 - i]])
}

/// Lists one after the other.
pub open spec fn flat(lists: Seq<Seq<Text>>) -> Seq<Text>
    decreases lists.len(),
{
    if lists.len() == 0 {
        Seq::empty()
    } else {
        flat(lists.drop_last()) + lists.last()
    }
}

/// A plan before its first command.
pub open spec fn run_started(plan: PlanModel) -> RunModel {
    let run = RunModel {
        plan,
        at: 0,
        keys: Seq::empty(),
        button: None,
        phase: Phase::Running,
        error: None,
        stuck: false,
    };
    if plan.steps.len() > 0 {
        run.holding()
    } else {
        run.ended(plan.fault)
    }
}

impl RunModel {
    /// What the command at hand presses counts as held before it is run.
    pub open spec fn holding(self) -> RunModel {
        match self.plan.steps[self.at].hold {
            Some(HoldModel::Key(k)) => RunModel { keys: self.keys.push(k), ..self },
            Some(HoldModel::Button(b)) => RunModel { button: Some(b), ..self },
            None => self,
        }
    }

    /// The commands of the action are over: what is held is released.
    pub open spec fn ended(self, error: Option<Text>) -> RunModel {
        RunModel {
            error,
            phase: if releases(self.keys, self.button).len() == 0 {
                Phase::Over
            } else {
                Phase::Releasing
            },
            ..self
        }
    }

    /// The command to run next: its arguments and its input.
    pub open spec fn command(self) -> (Seq<Text>, Option<Text>) {
        match self.phase {
            Phase::Running => (self.plan.steps[self.at].args, self.plan.steps[self.at].input),
            Phase::Releasing => (flat(releases(self.keys, self.button)), None),
            Phase::ReleasingEach(i) => (releases(self.keys, self.button)[i as int], None),
            Phase::Over => (Seq::empty(), None),
        }
    }

    /// The run after its command ended.
    pub open spec fn after(self, result: Result<(), Text>) -> RunModel {
        match self.phase {
            Phase::Running => match result {
                Err(e) => self.ended(Some(e)),
                Ok(()) => if self.at + 1 < self.plan.steps.len() {
                    RunModel { at: self.at + 1, ..self }.holding()
                } else {
                    self.ended(self.plan.fault)
                },
            },
            Phase::Releasing => match result {
                Ok(()) => RunModel { phase: Phase::Over, ..self },
                Err(_) => RunModel { phase: Phase::ReleasingEach(0), ..self },
            },
            Phase::ReleasingEach(i) => RunModel {
                stuck: self.stuck || result is Err,
                phase: if i + 1 < releases(self.keys, self.button).len() {
                    Phase::ReleasingEach((i + 1) as usize)
                } else {
                    Phase::Over
                },
                ..self
            },
            Phase::Over => self,
        }
    }

    /// How the action went, once everything is over.
    pub open spec fn outcome(self) -> Result<(), Text> {
        let cleanup = "could not release desktop input; inspect keyboard/button state"@;
        match self.error {
            Some(e) => if self.stuck {
                Err(e + "; "@ + cleanup)
            } else {
                Err(e)
            },
            None => if self.stuck {
                Err(cleanup)
            } else {
                Ok(())
            },
        }
    }

    pub open spec fn wf(self) -> bool {
        &&& self.phase == Phase::Running ==> 0 <= self.at < self.plan.steps.len()
        &&& self.phase == Phase::Releasing ==> releases(self.keys, self.button).len() > 0
        &&& self.phase matches Phase::ReleasingEach(i) ==> i < releases(
            self.keys,
            self.button,
        ).len()
        &&& releases(self.keys, self.button).len() <= usize::MAX
    }
}

/// A plan being run.
#[derive(Debug)]
pub struct Run {
    pub plan: Plan,
    pub at: usize,
    pub keys: Vec<String>,
    pub button: Option<String>,
    pub phase: Phase,
    pub error: Option<String>,
    pub stuck: bool,
}

impl View for Run {
    type V = RunModel;

    open spec fn view(&self) -> RunModel {
        RunModel {
            plan: self.plan@,
            at: self.at as int,
            keys: text::strings(self.keys@),
            button: text::opt_text(self.button),
            phase: self.phase,
            error: text::opt_text(self.error),
            stuck: self.stuck,
        }
    }
}

pub open spec fn lists(v: Seq<Vec<String>>) -> Seq<Seq<Text>> {
    v.map_values(|l: Vec<String>| text::strings(l@))
}

impl Run {
    /// The releases of what is held.
    fn release_list(&self) -> (r: Vec<Vec<String>>)
        ensures
            lists(r@) == releases(self@.keys, self@.button),
    {
        let ghost keys = self@.keys;
        let ghost head = releases(Seq::empty(), self@.button);
        let mut out: Vec<Vec<String>> = Vec::new();
        if let Some(b) = &self.button {
            let mut args = word_list1("mouseup");
            add_word(&mut args, b.as_str());
            assert(text::strings(args@) =~= seq!["mouseup"@, b@]);
            out.push(args);
        }
        assert(lists(out@) =~= head);
        let count: usize = self.keys.len();
        let mut i: usize = 0;
        while i < count
            invariant
                count == self.keys@.len(),
                keys == text::strings(self.keys@),
                i <= count,
                lists(out@) =~= head + Seq::new(
                    i as nat,
                    |k: int| seq!["keyup"@, keys[keys.len() - 1 - k]],
                ),
            decreases count - i,
        {
            let name = &self.keys[count - 1 - i];
            assert(keys[count - 1 - i] == name@);
            let mut args = word_list1("keyup");
            add_word(&mut args, name.as_str());
            assert(text::strings(args@) =~= seq!["keyup"@, name@]);
            let ghost before = out@;
            out.push(args);
            assert(lists(out@) =~= lists(before).push(text::strings(args@)));
            i = i + 1;
        }
        assert(lists(out@) =~= releases(self@.keys, self@.button));
        out
    }

    fn hold(&mut self)
        requires
            old(self).at < old(self).plan.steps@.len(),
        ensures
            final(self)@ == old(self)@.holding(),
            final(self).plan == old(self).plan,
            final(self).at == old(self).at,
            final(self).phase == old(self).phase,
    {
        assert(self@.plan.steps[self.at as int] == self.plan.steps@[self.at as int]@);
        match &self.plan.steps[self.at].hold {
            Some(Hold::Key(k)) => {
                let name = k.clone();
                let ghost before = self.keys@;
                self.keys.push(name);
                assert(text::strings(self.keys@) =~= text::strings(before).push(name@));
            },
            Some(Hold::Button(b)) => {
                self.button = Some(b.clone());
            },
            None => {},
        }
    }

    fn end(&mut self, error: Option<String>)
        ensures
            final(self)@ == old(self)@.ended(text::opt_text(error)),
            final(self)@.wf(),
    {
        let count: usize = self.release_list().len();
        assert(releases(self@.keys, self@.button).len() == count);
        self.error = error;
        self.phase = if count == 0 {
            Phase::Over
        } else {
            Phase::Releasing
        };
    }

    /// A plan before its first command.
    pub fn start(plan: Plan) -> (r: Run)
        ensures
            r@ == run_started(plan@),
            r@.wf(),
    {
        let fault = match &plan.fault {
            Some(e) => Some(e.clone()),
            None => None,
        };
        let count: usize = plan.steps.len();
        let mut run = Run {
            plan,
            at: 0,
            keys: Vec::new(),
            button: None,
            phase: Phase::Running,
            error: None,
            stuck: false,
        };
        assert(run@.keys =~= Seq::empty());
        assert(run@.plan.steps.len() == count);
        if count > 0 {
            run.hold();
            let held: usize = run.release_list().len();
            assert(releases(run@.keys, run@.button).len() == held);
        } else {
            run.end(fault);
        }
        run
    }

    /// The command to run next.
    pub fn next_command(&self) -> (r: (Vec<String>, Option<String>))
        requires
            self@.wf(),
            self@.phase != Phase::Over,
        ensures
            (text::strings(r.0@), text::opt_text(r.1)) == self@.command(),
    {
        match self.phase {
            Phase::Running => {
                assert(self@.plan.steps[self.at as int] == self.plan.steps@[self.at as int]@);
                let step = &self.plan.steps[self.at];
                let input = match &step.input {
                    Some(i) => Some(i.clone()),
                    None => None,
                };
                (text::copy_strings(&step.args), input)
            },
            Phase::Releasing => {
                let all = self.release_list();
                let ghost models = lists(all@);
                let mut out: Vec<String> = Vec::new();
                assert(text::strings(out@) =~= Seq::empty());
                for i in 0..all.len()
                    invariant
                        models == lists(all@),
                        text::strings(out@) == flat(models.take(i as int)),
                {
                    assert(models.take(i + 1).drop_last() =~= models.take(i as int));
                    assert(models.take(i + 1).last() == text::strings(all@[i as int]@));
                    let ghost before = text::strings(out@);
                    let one = &all[i];
                    for j in 0..one.len()
                        invariant
                            text::strings(out@) =~= before + text::strings(one@).take(j as int),
                    {
                        add_word(&mut out, one[j].as_str());
                        assert(text::strings(one@).take(j + 1) =~= text::strings(one@).take(
                            j as int,
                        ).push(one@[j as int]@));
                    }
                    assert(text::strings(one@).take(one@.len() as int) =~= text::strings(one@));
                }
                assert(models.take(all@.len() as int) =~= models);
                (out, None)
            },
            Phase::ReleasingEach(i) => {
                let all = self.release_list();
                assert(lists(all@)[i as int] == text::strings(all@[i as int]@));
                (text::copy_strings(&all[i]), None)
            },
            Phase::Over => (Vec::new(), None),
        }
    }

    /// Goes on after the command ended.
    pub fn advance(&mut self, result: Result<(), String>)
        requires
            old(self)@.wf(),
            old(self)@.phase != Phase::Over,
        ensures
            final(self)@ == old(self)@.after(batch::unit_result(result)),
            final(self)@.wf(),
    {
        match self.phase {
            Phase::Running => match result {
                Err(e) => self.end(Some(e)),
                Ok(()) => {
                    let count: usize = self.plan.steps.len();
                    assert(self@.plan.steps.len() == count);
                    if self.at + 1 < count {
                        self.at = self.at + 1;
                        self.hold();
                        let held: usize = self.release_list().len();
                        assert(releases(self@.keys, self@.button).len() == held);
                    } else {
                        let fault = match &self.plan.fault {
                            Some(e) => Some(e.clone()),
                            None => None,
                        };
                        self.end(fault);
                    }
                },
            },
            Phase::Releasing => {
                let count: usize = self.release_list().len();
                assert(releases(self@.keys, self@.button).len() == count);
                self.phase = match result {
                    Ok(()) => Phase::Over,
                    Err(_) => Phase::ReleasingEach(0),
                };
            },
            Phase::ReleasingEach(i) => {
                let count: usize = self.release_list().len();
                assert(releases(self@.keys, self@.button).len() == count);
                if result.is_err() {
                    self.stuck = true;
                }
                self.phase = if i + 1 < count {
                    Phase::ReleasingEach(i + 1)
                } else {
                    Phase::Over
                };
            },
            Phase::Over => {},
        }
    }

    /// How the action went, once everything is over.
    pub fn finish(self) -> (r: Result<(), String>)
        ensures
            batch::unit_result(r) == self@.outcome(),
    {
        let cleanup = "could not release desktop input; inspect keyboard/button state";
        match self.error {
            Some(e) => {
                if self.stuck {
                    let mut message = e;
                    message.append("; ");
                    message.append(cleanup);
                    Err(message)
                } else {
                    Err(e)
                }
            },
            None => if self.stuck {
                Err(cleanup.to_string())
            } else {
                Ok(())
            },
        }
    }
}

// ---------------------------------------------------------------------------
// Laws
// ---------------------------------------------------------------------------
/// The keys that commands press, in order.
pub open spec fn pressed_keys(steps: Seq<StepModel>) -> Seq<Text>
    decreases steps.len(),
{
    if steps.len() == 0 {
        Seq::empty()
    } else {
        match steps.last().hold {
            Some(HoldModel::Key(k)) => pressed_keys(steps.drop_last()).push(k),
            _ => pressed_keys(steps.drop_last()),
        }
    }
}

/// The last button that commands press.
pub open spec fn pressed_button(steps: Seq<StepModel>) -> Option<Text>
    decreases steps.len(),
{
    if steps.len() == 0 {
        None
    } else {
        match steps.last().hold {
            Some(HoldModel::Button(b)) => Some(b),
            _ => pressed_button(steps.drop_last()),
        }
    }
}

/// The run after a number of commands.
pub open spec fn run_after(plan: PlanModel, results: Seq<Result<(), Text>>) -> RunModel
    decreases results.len(),
{
    if results.len() == 0 {
        run_started(plan)
    } else {
        run_after(plan, results.drop_last()).after(results.last())
    }
}

/// However the commands go, everything that a started command presses is held,
/// and what is held is what the releases that follow let go: all of it in one
/// command, or in a command each when that one fails.
pub proof fn what_is_pressed_is_released(plan: PlanModel, results: Seq<Result<(), Text>>)
    requires
        plan.steps.len() > 0,
    ensures
        ({
            let run = run_after(plan, results);
            let started = plan.steps.take(run.at + 1);
            &&& run.plan == plan
            &&& 0 <= run.at < plan.steps.len()
            &&& run.keys == pressed_keys(started)
            &&& run.button == pressed_button(started)
            &&& run.phase == Phase::Releasing ==> run.command().0 == flat(
                releases(pressed_keys(started), pressed_button(started)),
            )
            &&& run.phase matches Phase::ReleasingEach(i) ==> run.command().0 == releases(
                pressed_keys(started),
                pressed_button(started),
            )[i as int]
        }),
    decreases results.len(),
{
    let run = run_after(plan, results);
    if results.len() == 0 {
        let one = plan.steps.take(1);
        assert(one.last() == plan.steps[0]);
        assert(one.drop_last() =~= Seq::empty());
        assert(pressed_keys(one.drop_last()) =~= Seq::empty());
        assert(pressed_button(one.drop_last()) is None);
        assert(run.keys =~= pressed_keys(one));
    } else {
        what_is_pressed_is_released(plan, results.drop_last());
        let before = run_after(plan, results.drop_last());
        if run.at == before.at + 1 {
            let now = plan.steps.take(run.at + 1);
            assert(now.last() == plan.steps[run.at]);
            assert(now.drop_last() =~= plan.steps.take(before.at + 1));
        }
    }
}

/// An action counts as done only when its plan had no fault, every command of
/// it was run, and everything was released.
pub proof fn done_means_done(plan: PlanModel, results: Seq<Result<(), Text>>)
    ensures
        ({
            let run = run_after(plan, results);
            run.phase != Phase::Running && run.outcome() is Ok ==> plan.fault is None && run.at + 1
                >= plan.steps.len() && !run.stuck
        }),
{
    lemma_no_error(plan, results);
}

proof fn lemma_no_error(plan: PlanModel, results: Seq<Result<(), Text>>)
    ensures
        ({
            let run = run_after(plan, results);
            &&& run.plan == plan
            &&& run.phase != Phase::Running && run.error is None ==> plan.fault is None && run.at
                + 1 >= plan.steps.len()
        }),
    decreases results.len(),
{
    if results.len() > 0 {
        lemma_no_error(plan, results.drop_last());
    }
}

// ---------------------------------------------------------------------------
// The desktop
// ---------------------------------------------------------------------------
/// Why a session offers no input, told from its environment: whether a Wayland
/// display is named, whether the session calls itself a Wayland one, and
/// whether an X11 display is named.
pub open spec fn session_fault(wayland_display: bool, wayland_session: bool, display: bool) -> Option<
    Text,
> {
    if wayland_display || wayland_session {
        Some("Wayland input is not supported"@)
    } else if !display {
        Some("no X11 display is configured"@)
    } else {
        None
    }
}

/// Checks that a session offers input.
pub fn check_session(wayland_display: bool, wayland_session: bool, display: bool) -> (r: Result<
    (),
    String,
>)
    ensures
        match r {
            Ok(()) => session_fault(wayland_display, wayland_session, display) == None::<Text>,
            Err(e) => session_fault(wayland_display, wayland_session, display) == Some(e@),
        },
{
    if wayland_display || wayland_session {
        Err("Wayland input is not supported".to_string())
    } else if !display {
        Err("no X11 display is configured".to_string())
    } else {
        Ok(())
    }
}

/// The words that are numbers, as numbers.
pub open spec fn numbers(words: Seq<Text>) -> Seq<nat>
    decreases words.len(),
{
    if words.len() == 0 {
        Seq::empty()
    } else {
        match text::parsed_number(words.last(), u32::MAX as nat) {
            Some(n) => numbers(words.drop_last()).push(n),
            None => numbers(words.drop_last()),
        }
    }
}

/// Whether numbers are the size of a display: two of them, neither zero nor
/// beyond the range of coordinates.
pub open spec fn is_size(n: Seq<nat>) -> bool {
    n.len() == 2 && 0 < n[0] <= i32::MAX && 0 < n[1] <= i32::MAX
}

/// The desktop that a report of the display size tells.
pub open spec fn reported(report: Text) -> Result<Geometry, Text> {
    let n = numbers(text::words_from(report, 0));
    if is_size(n) {
        Ok(Geometry { x: 0, y: 0, width: n[0] as u32, height: n[1] as u32 })
    } else {
        Err("xdotool did not report a valid X11 display size"@)
    }
}

/// The desktop that the output of the display size command tells.
pub fn geometry_of(output: &Vec<u8>) -> (r: Result<Geometry, String>)
    ensures
        batch::geometry_result(r) == reported(bytes::lossy_text(output@)),
        vstd::utf8::valid_utf8(output@) ==> batch::geometry_result(r) == reported(
            vstd::utf8::decode_utf8(output@),
        ),
{
    let report = bytes::text_of(output);
    display_size(report.as_str())
}

/// The desktop that a report of the display size tells.
pub fn display_size(output: &str) -> (r: Result<Geometry, String>)
    ensures
        batch::geometry_result(r) == reported(output@),
{
    let words = text::words(&text::chars_of(output));
    let ghost models = text::texts(words@);
    let mut found: Vec<u32> = Vec::new();
    assert(found@.map_values(|v: u32| v as nat) =~= Seq::empty());
    for i in 0..words.len()
        invariant
            models == text::texts(words@),
            found@.map_values(|v: u32| v as nat) == numbers(models.take(i as int)),
    {
        assert(models.take(i + 1).drop_last() =~= models.take(i as int));
        assert(models.take(i + 1).last() == words@[i as int]@);
        let ghost before = found@;
        if let Some(n) = text::parse_u32(&words[i]) {
            found.push(n);
            assert(found@.map_values(|v: u32| v as nat) =~= before.map_values(
                |v: u32| v as nat,
            ).push(n as nat));
        }
    }
    assert(models.take(words@.len() as int) =~= models);
    let ghost n = numbers(models);
    assert(n.len() == found@.len());
    assert(forall|k: int| 0 <= k < n.len() ==> n[k] == found@[k] as nat);
    if found.len() == 2 && found[0] > 0 && found[1] > 0 && found[0] <= 0x7fff_ffff && found[1]
        <= 0x7fff_ffff {
        Ok(Geometry { x: 0, y: 0, width: found[0], height: found[1] })
    } else {
        Err("xdotool did not report a valid X11 display size".to_string())
    }
}

} // verus!
