//! Capturing a Unix desktop with the programs that are installed: which ones,
//! in which order, and when an image is taken, reduced or given up.
use vstd::prelude::*;

use crate::apply_patch::paths;
use crate::crypto;
use crate::screenshot;
use crate::screenshot::MAX_IMAGE_BYTES;
use crate::text;
use crate::text::Text;

verus! {

/// The largest image that is reduced, in bytes.
pub const MAX_SOURCE_BYTES: u64 = 67_108_864;

/// How long one program may take, in nanoseconds.
pub const COMMAND_TIMEOUT: u64 = 5_000_000_000;

/// How long a capture may take altogether, in nanoseconds.
pub const TOTAL_TIMEOUT: u64 = 15_000_000_000;

/// A captured image and the program that made it.
#[derive(Debug)]
pub struct Screenshot {
    pub data: Vec<u8>,
    pub mime_type: &'static str,
    pub backend: &'static str,
}

/// The kind of a graphical session.
#[derive(Clone, Copy, Debug, PartialEq, Eq, Structural)]
pub enum SessionKind {
    Wayland,
    X11,
}

/// A program that captures the desktop.
#[derive(Clone, Copy, Debug, PartialEq, Eq, Structural)]
pub enum Backend {
    Grim,
    Spectacle,
    GnomeScreenshot,
    Flameshot,
    Maim,
    Scrot,
    Magick,
    Import,
}

// ---------------------------------------------------------------------------
// Programs
// ---------------------------------------------------------------------------
/// The arguments of a program before the path of its output.
pub open spec fn options(backend: Backend) -> Seq<Text> {
    match backend {
        Backend::Grim => seq!["-t"@, "jpeg"@, "-q"@, "85"@],
        Backend::Spectacle => seq!["-f"@, "-b"@, "-n"@, "-o"@],
        Backend::GnomeScreenshot => seq!["-f"@],
        Backend::Flameshot => seq!["full"@, "-p"@],
        Backend::Maim => seq!["--format=jpg"@, "--quality=8"@],
        Backend::Scrot => seq!["-q"@, "85"@, "-p"@],
        Backend::Magick => seq!["import"@, "-window"@, "root"@, "-quality"@, "85"@],
        Backend::Import => seq!["-window"@, "root"@, "-quality"@, "85"@],
    }
}

fn word(v: &mut Vec<String>, a: &str)
    ensures
        text::strings(final(v)@) == text::strings(old(v)@).push(a@),
{
    let ghost before = v@;
    v.push(a.to_string());
    assert(text::strings(v@) =~= text::strings(before).push(a@));
}

impl Backend {
    /// The name of the program.
    pub open spec fn called(self) -> Text {
        match self {
            Backend::Grim => "grim"@,
            Backend::Spectacle => "spectacle"@,
            Backend::GnomeScreenshot => "gnome-screenshot"@,
            Backend::Flameshot => "flameshot"@,
            Backend::Maim => "maim"@,
            Backend::Scrot => "scrot"@,
            Backend::Magick => "magick"@,
            Backend::Import => "import"@,
        }
    }

    /// The name of the program.
    pub fn name(self) -> (r: &'static str)
        ensures
            r@ == self.called(),
    {
        match self {
            Backend::Grim => "grim",
            Backend::Spectacle => "spectacle",
            Backend::GnomeScreenshot => "gnome-screenshot",
            Backend::Flameshot => "flameshot",
            Backend::Maim => "maim",
            Backend::Scrot => "scrot",
            Backend::Magick => "magick",
            Backend::Import => "import",
        }
    }

    /// The name of the file that the program writes.
    pub open spec fn output(self) -> Text {
        if self == Backend::GnomeScreenshot || self == Backend::Flameshot {
            "capture.png"@
        } else {
            "capture.jpg"@
        }
    }

    /// The name of the file that the program writes.
    pub fn output_name(self) -> (r: &'static str)
        ensures
            r@ == self.output(),
    {
        match self {
            Backend::GnomeScreenshot | Backend::Flameshot => "capture.png",
            _ => "capture.jpg",
        }
    }

    /// The arguments of the program: its options and the path of its output.
    pub fn arguments(self, output: &str) -> (r: Vec<String>)
        ensures
            text::strings(r@) == options(self).push(output@),
    {
        let mut v: Vec<String> = Vec::new();
        assert(text::strings(v@) =~= Seq::empty());
        match self {
            Backend::Grim => {
                word(&mut v, "-t");
                word(&mut v, "jpeg");
                word(&mut v, "-q");
                word(&mut v, "85");
            },
            Backend::Spectacle => {
                word(&mut v, "-f");
                word(&mut v, "-b");
                word(&mut v, "-n");
                word(&mut v, "-o");
            },
            Backend::GnomeScreenshot => {
                word(&mut v, "-f");
            },
            Backend::Flameshot => {
                word(&mut v, "full");
                word(&mut v, "-p");
            },
            Backend::Maim => {
                word(&mut v, "--format=jpg");
                word(&mut v, "--quality=8");
            },
            Backend::Scrot => {
                word(&mut v, "-q");
                word(&mut v, "85");
                word(&mut v, "-p");
            },
            Backend::Magick => {
                word(&mut v, "import");
                word(&mut v, "-window");
                word(&mut v, "root");
                word(&mut v, "-quality");
                word(&mut v, "85");
            },
            Backend::Import => {
                word(&mut v, "-window");
                word(&mut v, "root");
                word(&mut v, "-quality");
                word(&mut v, "85");
            },
        }
        assert(text::strings(v@) =~= options(self));
        word(&mut v, output);
        v
    }
}

/// The kind of the session that the environment tells of. A Wayland session
/// counts as one also where an X11 display is offered beside it.
pub open spec fn kind_of_session(wayland: Option<Text>, x11: Option<Text>) -> Option<SessionKind> {
    if wayland is Some && wayland->0.len() > 0 {
        Some(SessionKind::Wayland)
    } else if x11 is Some && x11->0.len() > 0 {
        Some(SessionKind::X11)
    } else {
        None
    }
}

fn named(value: Option<&str>) -> (r: bool)
    ensures
        r == (value is Some && value->0@.len() > 0),
{
    match value {
        Some(v) => text::chars_of(v).len() > 0,
        None => false,
    }
}

pub open spec fn opt_str(v: Option<&str>) -> Option<Text> {
    match v {
        Some(s) => Some(s@),
        None => None,
    }
}

/// The kind of the session that the environment tells of.
pub fn session_kind(wayland: Option<&str>, x11: Option<&str>) -> (r: Option<SessionKind>)
    ensures
        r == kind_of_session(opt_str(wayland), opt_str(x11)),
{
    if named(wayland) {
        Some(SessionKind::Wayland)
    } else if named(x11) {
        Some(SessionKind::X11)
    } else {
        None
    }
}

/// Each item where it occurs first.
pub open spec fn firsts(s: Seq<Backend>) -> Seq<Backend>
    decreases s.len(),
{
    if s.len() == 0 {
        s
    } else {
        let before = firsts(s.drop_last());
        if before.contains(s.last()) {
            before
        } else {
            before.push(s.last())
        }
    }
}

/// The programs for a kind of session, whatever the desktop.
pub open spec fn general(kind: SessionKind) -> Seq<Backend> {
    match kind {
        SessionKind::Wayland => seq![
            Backend::Grim,
            Backend::Spectacle,
            Backend::GnomeScreenshot,
            Backend::Flameshot,
        ],
        SessionKind::X11 => seq![
            Backend::Maim,
            Backend::Scrot,
            Backend::Magick,
            Backend::Import,
            Backend::Spectacle,
            Backend::GnomeScreenshot,
            Backend::Flameshot,
        ],
    }
}

/// Whether a desktop name has one of two parts, whatever the case.
pub open spec fn is_desktop(desktop: Text, a: Text, b: Text) -> bool {
    text::has_part(text::lower_text(desktop), a) || text::has_part(text::lower_text(desktop), b)
}

/// The programs that belong to a desktop.
pub open spec fn native(desktop: Text) -> Seq<Backend> {
    (if is_desktop(desktop, "kde"@, "plasma"@) {
        seq![Backend::Spectacle]
    } else {
        Seq::<Backend>::empty()
    }) + (if is_desktop(desktop, "gnome"@, "cinnamon"@) {
        seq![Backend::GnomeScreenshot]
    } else {
        Seq::<Backend>::empty()
    })
}

/// The programs to try, in order: those of the desktop first, none twice.
pub open spec fn tried(kind: SessionKind, desktop: Text) -> Seq<Backend> {
    firsts(native(desktop) + general(kind))
}

/// Adds a program unless it is in the list.
pub fn push_unique(backends: &mut Vec<Backend>, backend: Backend)
    ensures
        final(backends)@ == (if old(backends)@.contains(backend) {
            old(backends)@
        } else {
            old(backends)@.push(backend)
        }),
{
    let count: usize = backends.len();
    for i in 0..count
        invariant
            count == backends@.len(),
            backends@ == old(backends)@,
            forall|k: int| 0 <= k < i ==> backends@[k] != backend,
    {
        if backends[i] == backend {
            assert(old(backends)@[i as int] == backend);
            return ;
        }
    }
    backends.push(backend);
}

fn add_program(backends: &mut Vec<Backend>, backend: Backend, Ghost(so_far): Ghost<Seq<Backend>>)
    requires
        old(backends)@ == firsts(so_far),
    ensures
        final(backends)@ == firsts(so_far.push(backend)),
{
    push_unique(backends, backend);
    assert(so_far.push(backend).drop_last() =~= so_far);
}

/// The programs to try, in order.
pub fn backends(kind: SessionKind, desktop: &str) -> (r: Vec<Backend>)
    ensures
        r@ == tried(kind, desktop@),
{
    let chars = text::chars_of(desktop);
    let mut low: Vec<char> = Vec::new();
    for i in 0..chars.len()
        invariant
            low@ =~= text::lower_text(chars@.take(i as int)),
    {
        low.push(text::to_lower(chars[i]));
    }
    assert(chars@.take(chars@.len() as int) =~= chars@);
    assert(low@ == text::lower_text(desktop@));
    let kde = text::contains(&low, &text::chars_of("kde")) || text::contains(
        &low,
        &text::chars_of("plasma"),
    );
    let gnome = text::contains(&low, &text::chars_of("gnome")) || text::contains(
        &low,
        &text::chars_of("cinnamon"),
    );
    let mut result: Vec<Backend> = Vec::new();
    let ghost mut s: Seq<Backend> = Seq::empty();
    if kde {
        add_program(&mut result, Backend::Spectacle, Ghost(s));
        proof {
            s = s.push(Backend::Spectacle);
        }
    }
    if gnome {
        add_program(&mut result, Backend::GnomeScreenshot, Ghost(s));
        proof {
            s = s.push(Backend::GnomeScreenshot);
        }
    }
    assert(s =~= native(desktop@));
    match kind {
        SessionKind::Wayland => {
            add_program(&mut result, Backend::Grim, Ghost(s));
            add_program(&mut result, Backend::Spectacle, Ghost(s.push(Backend::Grim)));
            add_program(
                &mut result,
                Backend::GnomeScreenshot,
                Ghost(s.push(Backend::Grim).push(Backend::Spectacle)),
            );
            add_program(
                &mut result,
                Backend::Flameshot,
                Ghost(
                    s.push(Backend::Grim).push(Backend::Spectacle).push(Backend::GnomeScreenshot),
                ),
            );
            assert(s.push(Backend::Grim).push(Backend::Spectacle).push(
                Backend::GnomeScreenshot,
            ).push(Backend::Flameshot) =~= s + general(kind));
        },
        SessionKind::X11 => {
            let ghost a = s.push(Backend::Maim);
            let ghost b = a.push(Backend::Scrot);
            let ghost c = b.push(Backend::Magick);
            let ghost d = c.push(Backend::Import);
            let ghost e = d.push(Backend::Spectacle);
            let ghost f = e.push(Backend::GnomeScreenshot);
            add_program(&mut result, Backend::Maim, Ghost(s));
            add_program(&mut result, Backend::Scrot, Ghost(a));
            add_program(&mut result, Backend::Magick, Ghost(b));
            add_program(&mut result, Backend::Import, Ghost(c));
            add_program(&mut result, Backend::Spectacle, Ghost(d));
            add_program(&mut result, Backend::GnomeScreenshot, Ghost(e));
            add_program(&mut result, Backend::Flameshot, Ghost(f));
            assert(f.push(Backend::Flameshot) =~= s + general(kind));
        },
    }
    result
}

proof fn lemma_firsts(s: Seq<Backend>)
    ensures
        forall|b: Backend| #[trigger] firsts(s).contains(b) == s.contains(b),
        firsts(s).no_duplicates(),
        s.len() > 0 ==> firsts(s).len() > 0,
    decreases s.len(),
{
    if s.len() > 0 {
        lemma_firsts(s.drop_last());
        let before = firsts(s.drop_last());
        assert forall|b: Backend| #[trigger] firsts(s).contains(b) == s.contains(b) by {
            if s.contains(b) {
                let i = choose|i: int| 0 <= i < s.len() && s[i] == b;
                if i < s.len() - 1 {
                    assert(s.drop_last()[i] == b);
                    assert(s.drop_last().contains(b));
                    assert(before.contains(b));
                    let j = choose|j: int| 0 <= j < before.len() && before[j] == b;
                    assert(firsts(s)[j] == b);
                } else if !before.contains(b) {
                    assert(firsts(s)[before.len() as int] == b);
                }
            }
            if firsts(s).contains(b) {
                let j = choose|j: int| 0 <= j < firsts(s).len() && firsts(s)[j] == b;
                if j < before.len() {
                    assert(before[j] == b);
                    assert(before.contains(b));
                    let i = choose|i: int| 0 <= i < s.drop_last().len() && s.drop_last()[i] == b;
                    assert(s[i] == b);
                } else {
                    assert(s[s.len() - 1] == b);
                }
            }
        }
    }
}

/// A Wayland session never falls back to a program for X11, whatever the
/// desktop calls itself; and no program is tried twice.
pub proof fn wayland_never_uses_x11_programs(desktop: Text)
    ensures
        !tried(SessionKind::Wayland, desktop).contains(Backend::Maim),
        !tried(SessionKind::Wayland, desktop).contains(Backend::Scrot),
        !tried(SessionKind::Wayland, desktop).contains(Backend::Magick),
        !tried(SessionKind::Wayland, desktop).contains(Backend::Import),
        tried(SessionKind::Wayland, desktop).no_duplicates(),
        tried(SessionKind::X11, desktop).no_duplicates(),
{
    lemma_firsts(native(desktop) + general(SessionKind::Wayland));
    lemma_firsts(native(desktop) + general(SessionKind::X11));
}

// ---------------------------------------------------------------------------
// Capturing
// ---------------------------------------------------------------------------
/// Where a capture stands: which program is tried or its output read, and which
/// program reduces a large image.
#[derive(Clone, Copy, Debug, PartialEq, Eq, Structural)]
pub enum Phase {
    Trying(usize),
    Reading(usize),
    Reducing(usize, usize),
    ReadingReduced(usize, usize),
    Captured,
    Exhausted,
}

/// What to do next.
#[derive(Debug)]
pub enum Todo {
    /// Remove the output file, then run a program for a time at most.
    Run { program: String, args: Vec<String>, timeout: u64, output: String },
    /// Read an output file.
    Read { path: String },
    Finish,
}

/// The model of [`Todo`].
pub enum TodoModel {
    Run { program: Text, args: Seq<Text>, timeout: u64, output: Text },
    Read { path: Text },
    Finish,
}

impl View for Todo {
    type V = TodoModel;

    open spec fn view(&self) -> TodoModel {
        match self {
            Todo::Run { program, args, timeout, output } => TodoModel::Run {
                program: program@,
                args: text::strings(args@),
                timeout: *timeout,
                output: output@,
            },
            Todo::Read { path } => TodoModel::Read { path: path@ },
            Todo::Finish => TodoModel::Finish,
        }
    }
}

/// What was found at the path of an output file: nothing that can be read, the
/// content of a file of up to the largest size that is handed on, or the length
/// and the first bytes of a larger one: all of them where it may be reduced, so
/// that its size can be told.
#[derive(Debug)]
pub enum Examined {
    Missing,
    Content(Vec<u8>),
    Large { length: u64, header: Vec<u8> },
}

/// The model of [`Examined`].
pub enum ExaminedModel {
    Missing,
    Content(Seq<u8>),
    Large { length: u64, header: Seq<u8> },
}

impl View for Examined {
    type V = ExaminedModel;

    open spec fn view(&self) -> ExaminedModel {
        match self {
            Examined::Missing => ExaminedModel::Missing,
            Examined::Content(d) => ExaminedModel::Content(d@),
            Examined::Large { length, header } => ExaminedModel::Large {
                length: *length,
                header: header@,
            },
        }
    }
}

/// The model of [`Screenshot`].
pub struct ShotModel {
    pub data: Seq<u8>,
    pub mime_type: Text,
    pub backend: Text,
}

impl View for Screenshot {
    type V = ShotModel;

    open spec fn view(&self) -> ShotModel {
        ShotModel { data: self.data@, mime_type: self.mime_type@, backend: self.backend@ }
    }
}

/// A capture in progress.
pub struct CaptureModel {
    pub kind: SessionKind,
    pub backends: Seq<Backend>,
    pub directory: Text,
    pub phase: Phase,
    pub source: Option<(u32, u32)>,
    pub shot: Option<ShotModel>,
}

/// Whether an image may be handed on: complete and not too large.
pub open spec fn acceptable(d: Seq<u8>) -> bool {
    0 < d.len() <= MAX_IMAGE_BYTES && screenshot::kind_of(d) is Some
}

/// Whether a large image may be reduced.
pub open spec fn reducible(length: u64, header: Seq<u8>) -> bool {
    MAX_IMAGE_BYTES < length <= MAX_SOURCE_BYTES && screenshot::announced(header) is Some
}

/// The name of a program that reduces images.
pub open spec fn reducer(k: int) -> Text {
    if k == 0 {
        "magick"@
    } else {
        "convert"@
    }
}

/// A capture before its first program.
pub open spec fn capture_started(kind: SessionKind, desktop: Text, directory: Text) -> CaptureModel {
    CaptureModel {
        kind,
        backends: tried(kind, desktop),
        directory,
        phase: Phase::Trying(0),
        source: None,
        shot: None,
    }
}

/// The size of an image in pixels, where it tells one.
pub open spec fn pixels(d: Seq<u8>) -> Option<(u32, u32)> {
    match screenshot::size_of_image(d) {
        Some((w, h)) => Some((w as u32, h as u32)),
        None => None,
    }
}

impl CaptureModel {
    pub open spec fn at(self, phase: Phase) -> CaptureModel {
        CaptureModel { phase, ..self }
    }

    /// The file that a program writes.
    pub open spec fn output(self, i: int) -> Text {
        paths::resolved(self.directory, self.backends[i].output())
    }

    /// The file that a reducing program writes.
    pub open spec fn reduced(self) -> Text {
        paths::resolved(self.directory, "reduced.jpg"@)
    }

    /// After a program that gave nothing: the next one, without the size of an
    /// image that could not be reduced.
    pub open spec fn next(self, i: usize) -> CaptureModel {
        CaptureModel {
            phase: if i + 1 < self.backends.len() {
                Phase::Trying((i + 1) as usize)
            } else {
                Phase::Exhausted
            },
            source: None,
            ..self
        }
    }

    /// With a large image at hand: it is reduced, and its size kept.
    pub open spec fn reducing(self, i: usize, large: Seq<u8>) -> CaptureModel {
        CaptureModel { phase: Phase::Reducing(i, 0), source: pixels(large), ..self }
    }

    /// After a reducing program that gave nothing: the other one, then the next
    /// capturing program.
    pub open spec fn next_reducer(self, i: usize, k: usize) -> CaptureModel {
        if k == 0 {
            self.at(Phase::Reducing(i, 1))
        } else {
            self.next(i)
        }
    }

    pub open spec fn captured(self, i: usize, d: Seq<u8>) -> CaptureModel {
        CaptureModel {
            phase: Phase::Captured,
            shot: Some(
                ShotModel {
                    data: d,
                    mime_type: screenshot::kind_of(d)->0,
                    backend: self.backends[i as int].called(),
                },
            ),
            ..self
        }
    }

    pub open spec fn limited(remaining: u64) -> u64 {
        if remaining < COMMAND_TIMEOUT {
            remaining
        } else {
            COMMAND_TIMEOUT
        }
    }

    /// What to do with the time that remains.
    pub open spec fn polled(self, remaining: u64) -> (CaptureModel, TodoModel) {
        match self.phase {
            Phase::Trying(i) => if remaining == 0 {
                (self.at(Phase::Exhausted), TodoModel::Finish)
            } else {
                (
                    self,
                    TodoModel::Run {
                        program: self.backends[i as int].called(),
                        args: options(self.backends[i as int]).push(self.output(i as int)),
                        timeout: CaptureModel::limited(remaining),
                        output: self.output(i as int),
                    },
                )
            },
            Phase::Reading(i) => (self, TodoModel::Read { path: self.output(i as int) }),
            Phase::Reducing(i, k) => if remaining == 0 {
                (self.at(Phase::Exhausted), TodoModel::Finish)
            } else {
                (
                    self,
                    TodoModel::Run {
                        program: reducer(k as int),
                        args: seq![
                            self.output(i as int),
                            "-strip"@,
                            "-resize"@,
                            "1920x1920>"@,
                            "-quality"@,
                            "85"@,
                            self.reduced(),
                        ],
                        timeout: CaptureModel::limited(remaining),
                        output: self.reduced(),
                    },
                )
            },
            Phase::ReadingReduced(_, _) => (self, TodoModel::Read { path: self.reduced() }),
            Phase::Captured => (self, TodoModel::Finish),
            Phase::Exhausted => (self, TodoModel::Finish),
        }
    }

    /// The capture after a program ended.
    pub open spec fn ran(self, success: bool) -> CaptureModel {
        match self.phase {
            Phase::Trying(i) => if success {
                self.at(Phase::Reading(i))
            } else {
                self.next(i)
            },
            Phase::Reducing(i, k) => if success {
                self.at(Phase::ReadingReduced(i, k))
            } else {
                self.next_reducer(i, k)
            },
            _ => self,
        }
    }

    /// The capture after an output file was read.
    pub open spec fn examined(self, found: ExaminedModel) -> CaptureModel {
        match self.phase {
            Phase::Reading(i) => match found {
                ExaminedModel::Content(d) => if acceptable(d) {
                    self.captured(i, d)
                } else {
                    self.next(i)
                },
                ExaminedModel::Large { length, header } => if reducible(length, header) {
                    self.reducing(i, header)
                } else {
                    self.next(i)
                },
                ExaminedModel::Missing => self.next(i),
            },
            Phase::ReadingReduced(i, k) => match found {
                ExaminedModel::Content(d) => if acceptable(d) {
                    self.captured(i, d)
                } else {
                    self.next_reducer(i, k)
                },
                _ => self.next_reducer(i, k),
            },
            _ => self,
        }
    }

    pub open spec fn wf(self) -> bool {
        &&& match self.phase {
            Phase::Trying(i) => i < self.backends.len(),
            Phase::Reading(i) => i < self.backends.len(),
            Phase::Reducing(i, k) => i < self.backends.len() && k < 2,
            Phase::ReadingReduced(i, k) => i < self.backends.len() && k < 2,
            Phase::Captured => self.shot is Some,
            Phase::Exhausted => true,
        }
        &&& self.shot is Some == (self.phase == Phase::Captured)
        &&& self.phase is Trying || self.phase is Reading ==> self.source is None
        &&& self.shot matches Some(shot) ==> acceptable(shot.data) && screenshot::kind_of(
            shot.data,
        ) == Some(shot.mime_type) && exists|i: int|
            0 <= i < self.backends.len() && (#[trigger] self.backends[i]).called() == shot.backend
    }
}

/// What is said when no program gave an image.
pub open spec fn exhausted_message(kind: SessionKind, backends: Seq<Backend>) -> Text {
    "screenshot unavailable: "@ + (if kind == SessionKind::Wayland {
        "Wayland"@
    } else {
        "X11"@
    }) + " session detected; tried "@ + text::join(
        backends.map_values(|b: Backend| b.called()),
        ", "@,
    )
}

/// A capture in progress.
#[derive(Debug)]
pub struct Capture {
    pub kind: SessionKind,
    pub backends: Vec<Backend>,
    pub directory: String,
    pub phase: Phase,
    pub source: Option<(u32, u32)>,
    pub shot: Option<Screenshot>,
}

impl View for Capture {
    type V = CaptureModel;

    open spec fn view(&self) -> CaptureModel {
        CaptureModel {
            kind: self.kind,
            backends: self.backends@,
            directory: self.directory@,
            phase: self.phase,
            source: self.source,
            shot: match self.shot {
                Some(s) => Some(s@),
                None => None,
            },
        }
    }
}

impl Capture {
    /// A capture before its first program, with a private directory for the
    /// output files.
    pub fn start(kind: SessionKind, desktop: &str, directory: String) -> (r: Capture)
        ensures
            r@ == capture_started(kind, desktop@, directory@),
            r@.wf(),
    {
        let backends = backends(kind, desktop);
        proof {
            lemma_firsts(native(desktop@) + general(kind));
        }
        Capture { kind, backends, directory, phase: Phase::Trying(0), source: None, shot: None }
    }

    fn output_path(&self, i: usize) -> (r: String)
        requires
            i < self.backends@.len(),
        ensures
            r@ == self@.output(i as int),
    {
        paths::resolve_path(self.directory.as_str(), self.backends[i].output_name())
    }

    fn reduced_path(&self) -> (r: String)
        ensures
            r@ == self@.reduced(),
    {
        paths::resolve_path(self.directory.as_str(), "reduced.jpg")
    }

    fn limit(remaining: u64) -> (r: u64)
        ensures
            r == CaptureModel::limited(remaining),
    {
        if remaining < COMMAND_TIMEOUT {
            remaining
        } else {
            COMMAND_TIMEOUT
        }
    }

    /// What to do with the time that remains, in nanoseconds.
    pub fn poll(&mut self, remaining: u64) -> (r: Todo)
        requires
            old(self)@.wf(),
        ensures
            (final(self)@, r@) == old(self)@.polled(remaining),
            final(self)@.wf(),
    {
        match self.phase {
            Phase::Trying(i) => {
                if remaining == 0 {
                    self.phase = Phase::Exhausted;
                    return Todo::Finish;
                }
                let output = self.output_path(i);
                let backend = self.backends[i];
                Todo::Run {
                    program: backend.name().to_string(),
                    args: backend.arguments(output.as_str()),
                    timeout: Capture::limit(remaining),
                    output,
                }
            },
            Phase::Reading(i) => Todo::Read { path: self.output_path(i) },
            Phase::Reducing(i, k) => {
                if remaining == 0 {
                    self.phase = Phase::Exhausted;
                    return Todo::Finish;
                }
                let source = self.output_path(i);
                let output = self.reduced_path();
                let mut args: Vec<String> = Vec::new();
                word(&mut args, source.as_str());
                word(&mut args, "-strip");
                word(&mut args, "-resize");
                word(&mut args, "1920x1920>");
                word(&mut args, "-quality");
                word(&mut args, "85");
                word(&mut args, output.as_str());
                assert(text::strings(args@) =~= seq![
                    source@,
                    "-strip"@,
                    "-resize"@,
                    "1920x1920>"@,
                    "-quality"@,
                    "85"@,
                    output@,
                ]);
                let program = if k == 0 {
                    "magick".to_string()
                } else {
                    "convert".to_string()
                };
                Todo::Run { program, args, timeout: Capture::limit(remaining), output }
            },
            Phase::ReadingReduced(_, _) => Todo::Read { path: self.reduced_path() },
            Phase::Captured | Phase::Exhausted => Todo::Finish,
        }
    }

    fn next(&mut self, i: usize)
        requires
            i < old(self).backends@.len(),
        ensures
            final(self)@ == old(self)@.next(i),
    {
        let count: usize = self.backends.len();
        self.source = None;
        self.phase = if i + 1 < count {
            Phase::Trying(i + 1)
        } else {
            Phase::Exhausted
        };
    }

    fn next_reducer(&mut self, i: usize, k: usize)
        requires
            i < old(self).backends@.len(),
        ensures
            final(self)@ == old(self)@.next_reducer(i, k),
    {
        if k == 0 {
            self.phase = Phase::Reducing(i, 1);
        } else {
            self.next(i);
        }
    }

    /// Takes note of how a program ended.
    pub fn ran(&mut self, success: bool)
        requires
            old(self)@.wf(),
        ensures
            final(self)@ == old(self)@.ran(success),
            final(self)@.wf(),
    {
        match self.phase {
            Phase::Trying(i) => {
                if success {
                    self.phase = Phase::Reading(i);
                } else {
                    self.next(i);
                }
            },
            Phase::Reducing(i, k) => {
                if success {
                    self.phase = Phase::ReadingReduced(i, k);
                } else {
                    self.next_reducer(i, k);
                }
            },
            _ => {},
        }
    }

    /// Takes an image where it may be handed on.
    fn take(&mut self, i: usize, data: Vec<u8>) -> (taken: bool)
        requires
            i < old(self).backends@.len(),
        ensures
            taken == acceptable(data@),
            taken ==> final(self)@ == old(self)@.captured(i, data@),
            !taken ==> final(self)@ == old(self)@,
    {
        let length: usize = data.len();
        if length == 0 || length as u64 > MAX_IMAGE_BYTES {
            return false;
        }
        match screenshot::image_mime_type(data.as_slice()) {
            None => false,
            Some(mime_type) => {
                let backend = self.backends[i].name();
                self.shot = Some(Screenshot { data, mime_type, backend });
                self.phase = Phase::Captured;
                true
            },
        }
    }

    /// Takes note of what was found at the path of an output file.
    pub fn examined(&mut self, found: Examined)
        requires
            old(self)@.wf(),
        ensures
            final(self)@ == old(self)@.examined(found@),
            final(self)@.wf(),
    {
        match self.phase {
            Phase::Reading(i) => match found {
                Examined::Content(data) => {
                    if !self.take(i, data) {
                        self.next(i);
                    } else {
                        assert(self@.backends[i as int].called() == self@.shot->0.backend);
                    }
                },
                Examined::Large { length, header } => {
                    let known = screenshot::image_header_mime_type(header.as_slice());
                    if length > MAX_IMAGE_BYTES && length <= MAX_SOURCE_BYTES && known.is_some() {
                        self.source = screenshot::dimensions(header.as_slice());
                        self.phase = Phase::Reducing(i, 0);
                    } else {
                        self.next(i);
                    }
                },
                Examined::Missing => self.next(i),
            },
            Phase::ReadingReduced(i, k) => match found {
                Examined::Content(data) => {
                    if !self.take(i, data) {
                        self.next_reducer(i, k);
                    } else {
                        assert(self@.backends[i as int].called() == self@.shot->0.backend);
                    }
                },
                _ => self.next_reducer(i, k),
            },
            _ => {},
        }
    }

    /// The image and, where it was reduced, the size that it had before; or why
    /// there is none.
    pub fn finish(self) -> (r: Result<(Screenshot, Option<(u32, u32)>), String>)
        requires
            self@.wf(),
        ensures
            match r {
                Ok((shot, source)) => self@.shot == Some(shot@) && source == self@.source,
                Err(e) => self@.shot is None && e@ == exhausted_message(
                    self@.kind,
                    self@.backends,
                ),
            },
    {
        match self.shot {
            Some(shot) => Ok((shot, self.source)),
            None => {
                let mut names: Vec<String> = Vec::new();
                let ghost all = self.backends@.map_values(|b: Backend| b.called());
                for i in 0..self.backends.len()
                    invariant
                        all == self.backends@.map_values(|b: Backend| b.called()),
                        text::strings(names@) =~= all.take(i as int),
                {
                    word(&mut names, self.backends[i].name());
                    assert(all.take(i + 1) =~= all.take(i as int).push(
                        self.backends@[i as int].called(),
                    ));
                }
                assert(all.take(self.backends@.len() as int) =~= all);
                let list = text::join_strings(&names, ", ");
                let mut out = "screenshot unavailable: ".to_string();
                if self.kind == SessionKind::Wayland {
                    out.append("Wayland");
                } else {
                    out.append("X11");
                }
                out.append(" session detected; tried ");
                out.append(list.as_str());
                Err(out)
            },
        }
    }
}

/// The name of a private directory for the output files.
pub open spec fn directory_name(token: Text) -> Text {
    "connector-screenshot-"@ + token
}

/// A random name for a private directory.
pub fn capture_directory_name() -> (r: String)
    ensures
        exists|token: Text| crypto::token_shaped(token) && r@ == #[trigger] directory_name(token),
{
    let token = crypto::random_token();
    let mut out = "connector-screenshot-".to_string();
    out.append(token.as_str());
    assert(out@ == directory_name(token@));
    out
}

// ---------------------------------------------------------------------------
// Laws
// ---------------------------------------------------------------------------
/// Whatever the programs do, an image is handed on only if it is a complete PNG
/// or JPEG of at most eight mebibytes, under the name of a program that was
/// tried; and an image that was not reduced comes without another size.
pub proof fn captured_images_are_valid(
    capture: CaptureModel,
    success: bool,
    found: ExaminedModel,
    remaining: u64,
)
    requires
        capture.wf(),
    ensures
        capture.polled(remaining).0.wf(),
        capture.ran(success).wf(),
        capture.examined(found).wf(),
        capture.examined(found).shot matches Some(shot) ==> 0 < shot.data.len() <= MAX_IMAGE_BYTES
            && screenshot::kind_of(shot.data) == Some(shot.mime_type),
        capture.phase is Reading && capture.examined(found).phase == Phase::Captured
            ==> capture.examined(found).source is None,
{
    let next = capture.examined(found);
    if let Some(shot) = next.shot {
        match capture.phase {
            Phase::Reading(i) => {
                assert(next.backends[i as int].called() == shot.backend);
            },
            Phase::ReadingReduced(i, _) => {
                assert(next.backends[i as int].called() == shot.backend);
            },
            _ => {},
        }
    }
}

/// In an X11 session every program but the one for Wayland is tried, whatever
/// the desktop; in a Wayland session those that do not need X11 are.
pub proof fn every_program_of_the_session_is_tried(desktop: Text, b: Backend)
    ensures
        tried(SessionKind::X11, desktop).contains(b) <==> b != Backend::Grim,
        tried(SessionKind::Wayland, desktop).contains(b) <==> b == Backend::Grim || b
            == Backend::Spectacle || b == Backend::GnomeScreenshot || b == Backend::Flameshot,
{
    let n = native(desktop);
    let x = n + general(SessionKind::X11);
    let w = n + general(SessionKind::Wayland);
    lemma_firsts(x);
    lemma_firsts(w);
    let at = n.len() as int;
    assert(x[at] == Backend::Maim);
    assert(x[at + 1] == Backend::Scrot);
    assert(x[at + 2] == Backend::Magick);
    assert(x[at + 3] == Backend::Import);
    assert(x[at + 4] == Backend::Spectacle);
    assert(x[at + 5] == Backend::GnomeScreenshot);
    assert(x[at + 6] == Backend::Flameshot);
    assert(w[at] == Backend::Grim);
    assert(w[at + 1] == Backend::Spectacle);
    assert(w[at + 2] == Backend::GnomeScreenshot);
    assert(w[at + 3] == Backend::Flameshot);
}

/// The programs are tried in a fixed order, but for those of the desktop, which
/// come first: Spectacle on KDE, GNOME Screenshot on GNOME and Cinnamon.
pub proof fn programs_of_the_desktop_come_first(desktop: Text)
    ensures
        ({
            let name = text::lower_text(desktop);
            let kde = text::has_part(name, "kde"@) || text::has_part(name, "plasma"@);
            let gnome = text::has_part(name, "gnome"@) || text::has_part(name, "cinnamon"@);
            let x11 = tried(SessionKind::X11, desktop);
            let wayland = tried(SessionKind::Wayland, desktop);
            let (g, s, n, f) = (
                Backend::Grim,
                Backend::Spectacle,
                Backend::GnomeScreenshot,
                Backend::Flameshot,
            );
            let (a, b, c, d) = (Backend::Maim, Backend::Scrot, Backend::Magick, Backend::Import);
            &&& !kde && !gnome ==> x11 == seq![a, b, c, d, s, n, f] && wayland == seq![g, s, n, f]
            &&& kde && !gnome ==> x11 == seq![s, a, b, c, d, n, f] && wayland == seq![s, g, n, f]
            &&& !kde && gnome ==> x11 == seq![n, a, b, c, d, s, f] && wayland == seq![n, g, s, f]
            &&& kde && gnome ==> x11 == seq![s, n, a, b, c, d, f] && wayland == seq![s, n, g, f]
        }),
{
    let n = native(desktop);
    let name = text::lower_text(desktop);
    let kde = text::has_part(name, "kde"@) || text::has_part(name, "plasma"@);
    let gnome = text::has_part(name, "gnome"@) || text::has_part(name, "cinnamon"@);
    lemma_own_first(kde, gnome);
    lemma_other_first(kde, gnome);
    assert(n =~= own(kde, gnome));
}

spec fn own(kde: bool, gnome: bool) -> Seq<Backend> {
    if kde && gnome {
        seq![Backend::Spectacle, Backend::GnomeScreenshot]
    } else if kde {
        seq![Backend::Spectacle]
    } else if gnome {
        seq![Backend::GnomeScreenshot]
    } else {
        Seq::empty()
    }
}

proof fn lemma_next_first(s: Seq<Backend>, b: Backend)
    ensures
        firsts(s.push(b)) == (if firsts(s).contains(b) {
            firsts(s)
        } else {
            firsts(s).push(b)
        }),
{
    assert(s.push(b).drop_last() =~= s);
}

proof fn lemma_own_first(kde: bool, gnome: bool)
    ensures
        firsts(own(kde, gnome) + general(SessionKind::Wayland)) == (if kde && gnome {
            seq![
                Backend::Spectacle,
                Backend::GnomeScreenshot,
                Backend::Grim,
                Backend::Flameshot,
            ]
        } else if kde {
            seq![
                Backend::Spectacle,
                Backend::Grim,
                Backend::GnomeScreenshot,
                Backend::Flameshot,
            ]
        } else if gnome {
            seq![
                Backend::GnomeScreenshot,
                Backend::Grim,
                Backend::Spectacle,
                Backend::Flameshot,
            ]
        } else {
            seq![
                Backend::Grim,
                Backend::Spectacle,
                Backend::GnomeScreenshot,
                Backend::Flameshot,
            ]
        }),
{
    let s0 = own(kde, gnome);
    lemma_own(kde, gnome);
    let s1 = s0.push(Backend::Grim);
    let s2 = s1.push(Backend::Spectacle);
    let s3 = s2.push(Backend::GnomeScreenshot);
    let s4 = s3.push(Backend::Flameshot);
    lemma_next_first(s0, Backend::Grim);
    lemma_next_first(s1, Backend::Spectacle);
    lemma_next_first(s2, Backend::GnomeScreenshot);
    lemma_next_first(s3, Backend::Flameshot);
    assert(s4 =~= s0 + general(SessionKind::Wayland));
    if kde {
        assert(firsts(s1)[0] == Backend::Spectacle);
        if gnome {
            assert(firsts(s2)[1] == Backend::GnomeScreenshot);
        }
    } else if gnome {
        assert(firsts(s2)[0] == Backend::GnomeScreenshot);
    }
}

proof fn lemma_own(kde: bool, gnome: bool)
    ensures
        firsts(own(kde, gnome)) == own(kde, gnome),
{
    let none = Seq::<Backend>::empty();
    let one = none.push(Backend::Spectacle);
    lemma_next_first(none, Backend::Spectacle);
    lemma_next_first(none, Backend::GnomeScreenshot);
    lemma_next_first(one, Backend::GnomeScreenshot);
    if kde && gnome {
        assert(own(kde, gnome) =~= one.push(Backend::GnomeScreenshot));
    } else if kde {
        assert(own(kde, gnome) =~= one);
    } else if gnome {
        assert(own(kde, gnome) =~= none.push(Backend::GnomeScreenshot));
    }
}

proof fn lemma_other_first(kde: bool, gnome: bool)
    ensures
        firsts(own(kde, gnome) + general(SessionKind::X11)) == (if kde && gnome {
            seq![
                Backend::Spectacle,
                Backend::GnomeScreenshot,
                Backend::Maim,
                Backend::Scrot,
                Backend::Magick,
                Backend::Import,
                Backend::Flameshot,
            ]
        } else if kde {
            seq![
                Backend::Spectacle,
                Backend::Maim,
                Backend::Scrot,
                Backend::Magick,
                Backend::Import,
                Backend::GnomeScreenshot,
                Backend::Flameshot,
            ]
        } else if gnome {
            seq![
                Backend::GnomeScreenshot,
                Backend::Maim,
                Backend::Scrot,
                Backend::Magick,
                Backend::Import,
                Backend::Spectacle,
                Backend::Flameshot,
            ]
        } else {
            seq![
                Backend::Maim,
                Backend::Scrot,
                Backend::Magick,
                Backend::Import,
                Backend::Spectacle,
                Backend::GnomeScreenshot,
                Backend::Flameshot,
            ]
        }),
{
    let s0 = own(kde, gnome);
    lemma_own(kde, gnome);
    let s1 = s0.push(Backend::Maim);
    let s2 = s1.push(Backend::Scrot);
    let s3 = s2.push(Backend::Magick);
    let s4 = s3.push(Backend::Import);
    let s5 = s4.push(Backend::Spectacle);
    let s6 = s5.push(Backend::GnomeScreenshot);
    let s7 = s6.push(Backend::Flameshot);
    lemma_next_first(s0, Backend::Maim);
    lemma_next_first(s1, Backend::Scrot);
    lemma_next_first(s2, Backend::Magick);
    lemma_next_first(s3, Backend::Import);
    lemma_next_first(s4, Backend::Spectacle);
    lemma_next_first(s5, Backend::GnomeScreenshot);
    lemma_next_first(s6, Backend::Flameshot);
    assert(s7 =~= s0 + general(SessionKind::X11));
    if kde {
        assert(firsts(s4)[0] == Backend::Spectacle);
        if gnome {
            assert(firsts(s5)[1] == Backend::GnomeScreenshot);
        }
    } else if gnome {
        assert(firsts(s5)[0] == Backend::GnomeScreenshot);
    }
}

/// A session is a Wayland one when it names a Wayland display, and an X11 one
/// when it names only an X11 display; an empty name names none.
pub proof fn sessions_are_told_by_their_displays(wayland: Option<Text>, x11: Option<Text>)
    ensures
        (wayland matches Some(w) && w.len() > 0) <==> kind_of_session(wayland, x11) == Some(
            SessionKind::Wayland,
        ),
        !(wayland matches Some(w) && w.len() > 0) && (x11 matches Some(x) && x.len() > 0)
            <==> kind_of_session(wayland, x11) == Some(SessionKind::X11),
{
}

/// What can happen to a capture.
pub enum Happening {
    Polled(u64),
    Ran(bool),
    Examined(ExaminedModel),
}

/// A capture after what has happened to it.
pub open spec fn capture_after(
    kind: SessionKind,
    desktop: Text,
    directory: Text,
    happened: Seq<Happening>,
) -> CaptureModel
    decreases happened.len(),
{
    if happened.len() == 0 {
        capture_started(kind, desktop, directory)
    } else {
        let before = capture_after(kind, desktop, directory, happened.drop_last());
        match happened.last() {
            Happening::Polled(remaining) => before.polled(remaining).0,
            Happening::Ran(success) => before.ran(success),
            Happening::Examined(found) => before.examined(found),
        }
    }
}

/// Whether program number `j` was run: it was next, and it ended.
pub open spec fn was_run(
    kind: SessionKind,
    desktop: Text,
    directory: Text,
    happened: Seq<Happening>,
    j: int,
) -> bool {
    exists|k: int|
        #![trigger happened[k]]
        0 <= k < happened.len() && happened[k] is Ran && capture_after(
            kind,
            desktop,
            directory,
            happened.take(k),
        ).phase == Phase::Trying(j as usize)
}

/// How many programs were run when a capture stands at a phase.
spec fn runs_before(phase: Phase, all: int) -> int {
    match phase {
        Phase::Trying(i) => i as int,
        Phase::Reading(i) => i + 1,
        Phase::Reducing(i, _) => i + 1,
        Phase::ReadingReduced(i, _) => i + 1,
        Phase::Captured => 0,
        Phase::Exhausted => all,
    }
}

/// As long as there is time, a capture is given up only after every program was
/// run, and none of their outputs was an image that can be handed on.
pub proof fn captures_are_given_up_after_every_program(
    kind: SessionKind,
    desktop: Text,
    directory: Text,
    happened: Seq<Happening>,
    b: Backend,
    k: int,
)
    requires
        capture_after(kind, desktop, directory, happened).phase == Phase::Exhausted,
        forall|i: int|
            0 <= i < happened.len() ==> (#[trigger] happened[i] matches Happening::Polled(t) ==> t
                > 0),
        tried(kind, desktop).contains(b),
        0 <= k < happened.len(),
    ensures
        exists|j: int|
            0 <= j < tried(kind, desktop).len() && #[trigger] tried(kind, desktop)[j] == b
                && was_run(kind, desktop, directory, happened, j),
        capture_after(kind, desktop, directory, happened.take(k)).phase is Reading
            || capture_after(kind, desktop, directory, happened.take(k)).phase is ReadingReduced
            ==> (happened[k] matches Happening::Examined(ExaminedModel::Content(d))
            ==> !acceptable(d)),
{
    lemma_runs(kind, desktop, directory, happened);
    let all = tried(kind, desktop);
    let j = choose|j: int| 0 <= j < all.len() && all[j] == b;
    assert(was_run(kind, desktop, directory, happened, j));
    let before = capture_after(kind, desktop, directory, happened.take(k));
    let next = capture_after(kind, desktop, directory, happened.take(k + 1));
    assert(happened.take(k + 1).drop_last() =~= happened.take(k));
    assert(happened.take(k + 1).last() == happened[k]);
    if next.phase == Phase::Captured {
        lemma_captured_stays(kind, desktop, directory, happened, k + 1);
    }
}

proof fn lemma_captured_stays(
    kind: SessionKind,
    desktop: Text,
    directory: Text,
    happened: Seq<Happening>,
    k: int,
)
    requires
        0 <= k <= happened.len(),
        capture_after(kind, desktop, directory, happened.take(k)).phase == Phase::Captured,
    ensures
        capture_after(kind, desktop, directory, happened).phase == Phase::Captured,
    decreases happened.len(),
{
    if k == happened.len() {
        assert(happened.take(k) =~= happened);
    } else {
        assert(happened.drop_last().take(k) =~= happened.take(k));
        lemma_captured_stays(kind, desktop, directory, happened.drop_last(), k);
    }
}

/// A capture after one more thing has happened to it.
spec fn happened_to(before: CaptureModel, event: Happening) -> CaptureModel {
    match event {
        Happening::Polled(remaining) => before.polled(remaining).0,
        Happening::Ran(success) => before.ran(success),
        Happening::Examined(found) => before.examined(found),
    }
}

proof fn lemma_one_more_run(before: CaptureModel, event: Happening)
    requires
        0 < before.backends.len() <= 8,
        runs_before(before.phase, before.backends.len() as int) <= before.backends.len(),
        before.phase matches Phase::Trying(i) ==> i < before.backends.len(),
        event matches Happening::Polled(t) ==> t > 0,
    ensures
        ({
            let next = happened_to(before, event);
            let all = before.backends.len() as int;
            &&& next.backends == before.backends
            &&& runs_before(next.phase, all) <= all
            &&& next.phase matches Phase::Trying(i) ==> i < all
            &&& runs_before(next.phase, all) > runs_before(before.phase, all) ==> event is Ran
                && before.phase == Phase::Trying(runs_before(before.phase, all) as usize)
                && runs_before(next.phase, all) == runs_before(before.phase, all) + 1
        }),
{
}

#[verifier::rlimit(30)]
proof fn lemma_runs(kind: SessionKind, desktop: Text, directory: Text, happened: Seq<Happening>)
    requires
        forall|i: int|
            0 <= i < happened.len() ==> (#[trigger] happened[i] matches Happening::Polled(t) ==> t
                > 0),
    ensures
        ({
            let capture = capture_after(kind, desktop, directory, happened);
            let all = tried(kind, desktop);
            &&& capture.backends == all
            &&& 0 < all.len() <= 8
            &&& runs_before(capture.phase, all.len() as int) <= all.len()
            &&& capture.phase matches Phase::Trying(i) ==> i < all.len()
            &&& forall|j: int|
                0 <= j < runs_before(capture.phase, all.len() as int) ==> #[trigger] was_run(
                    kind,
                    desktop,
                    directory,
                    happened,
                    j,
                )
        }),
    decreases happened.len(),
{
    let all = tried(kind, desktop);
    assert(0 < all.len() <= 8) by {
        programs_of_the_desktop_come_first(desktop);
    }
    if happened.len() > 0 {
        let earlier = happened.drop_last();
        assert forall|i: int| 0 <= i < earlier.len() implies (
        #[trigger] earlier[i] matches Happening::Polled(t) ==> t > 0) by {
            assert(earlier[i] == happened[i]);
        }
        lemma_runs(kind, desktop, directory, earlier);
        let before = capture_after(kind, desktop, directory, earlier);
        let capture = capture_after(kind, desktop, directory, happened);
        let n = happened.len() - 1;
        lemma_one_more_run(before, happened.last());
        assert(capture == happened_to(before, happened.last()));
        assert(happened.take(n) =~= earlier);
        assert(happened[n] == happened.last());
        assert forall|j: int|
            0 <= j < runs_before(capture.phase, all.len() as int) implies #[trigger] was_run(
            kind,
            desktop,
            directory,
            happened,
            j,
        ) by {
            if j < runs_before(before.phase, all.len() as int) {
                assert(was_run(kind, desktop, directory, earlier, j));
                let k = choose|k: int|
                    #![trigger earlier[k]]
                    0 <= k < earlier.len() && earlier[k] is Ran && capture_after(
                        kind,
                        desktop,
                        directory,
                        earlier.take(k),
                    ).phase == Phase::Trying(j as usize);
                assert(happened[k] == earlier[k]);
                assert(happened.take(k) =~= earlier.take(k));
            } else {
                assert(before.phase == Phase::Trying(j as usize));
                assert(happened[n] is Ran);
            }
        }
    }
}

/// A program is run as long as there is time, for five seconds at most and never
/// longer than there is; it writes into the file that is then read. With no time
/// left nothing is run.
pub proof fn programs_are_run_in_time(capture: CaptureModel, i: usize, remaining: u64)
    requires
        capture.phase == Phase::Trying(i),
    ensures
        remaining == 0 ==> capture.polled(remaining).1 == TodoModel::Finish,
        remaining > 0 ==> ({
            let (next, step) = capture.polled(remaining);
            &&& next == capture
            &&& step matches TodoModel::Run { program, args, timeout, output }
            &&& program == capture.backends[i as int].called()
            &&& args.len() > 0 && args.last() == output
            &&& timeout == if remaining < 5_000_000_000 {
                remaining
            } else {
                5_000_000_000
            }
            &&& next.ran(true).polled(remaining).1 == (TodoModel::Read { path: output })
        }),
{
}

/// A complete image of at most eight mebibytes is handed on as it is, with the
/// name of its program.
pub proof fn complete_images_are_handed_on(capture: CaptureModel, i: usize, d: Seq<u8>)
    requires
        capture.phase == Phase::Reading(i),
        0 < d.len() <= 8_388_608,
        screenshot::kind_of(d) is Some,
    ensures
        capture.examined(ExaminedModel::Content(d)).phase == Phase::Captured,
        capture.examined(ExaminedModel::Content(d)).shot matches Some(shot) && shot.data == d
            && Some(shot.mime_type) == screenshot::kind_of(d) && shot.backend
            == capture.backends[i as int].called(),
        capture.examined(ExaminedModel::Content(d)).source == capture.source,
{
}

/// A larger image, of up to 64 mebibytes, is reduced, first by one program and
/// then, when that gives nothing, by another; the image that comes out is handed
/// on with the size that the larger one had. When neither gives anything, the
/// next program is tried.
pub proof fn large_images_are_reduced(
    capture: CaptureModel,
    i: usize,
    length: u64,
    header: Seq<u8>,
    d: Seq<u8>,
    remaining: u64,
)
    requires
        capture.phase == Phase::Reading(i),
        i < capture.backends.len() <= 8,
        8_388_608 < length <= 67_108_864,
        screenshot::announced(header) is Some,
        0 < d.len() <= 8_388_608,
        screenshot::kind_of(d) is Some,
        remaining > 0,
    ensures
        ({
            let large = capture.examined(ExaminedModel::Large { length, header });
            let first = large.polled(remaining);
            let reduced = large.ran(true).examined(ExaminedModel::Content(d));
            let second = large.ran(false).polled(remaining);
            let again = large.ran(false).ran(true).examined(ExaminedModel::Content(d));
            &&& first.1 matches TodoModel::Run { program, args, .. } && program == "magick"@
                && args[0] == capture.output(i as int) && args.contains("1920x1920>"@)
                && args.last() == capture.reduced()
            &&& second.1 matches TodoModel::Run { program, args, .. } && program == "convert"@
                && args[0] == capture.output(i as int) && args.contains("1920x1920>"@)
                && args.last() == capture.reduced()
            &&& large.ran(true).polled(remaining).1 == (TodoModel::Read {
                path: capture.reduced(),
            })
            &&& reduced.phase == Phase::Captured && again.phase == Phase::Captured
            &&& reduced.shot matches Some(shot) && shot.data == d && shot.backend
                == capture.backends[i as int].called()
            &&& again.shot == reduced.shot
            &&& reduced.source == pixels(header) && again.source == pixels(header)
            &&& large.ran(true).examined(ExaminedModel::Missing) == large.ran(false)
            &&& large.ran(false).ran(false) == capture.ran_out_of(i)
        }),
{
    let large = capture.examined(ExaminedModel::Large { length, header });
    let args = seq![
        capture.output(i as int),
        "-strip"@,
        "-resize"@,
        "1920x1920>"@,
        "-quality"@,
        "85"@,
        capture.reduced(),
    ];
    assert(args[3] == "1920x1920>"@);
}

impl CaptureModel {
    /// The capture when program number `i` gave nothing.
    pub open spec fn ran_out_of(self, i: usize) -> CaptureModel {
        CaptureModel {
            phase: if i + 1 < self.backends.len() {
                Phase::Trying((i + 1) as usize)
            } else {
                Phase::Exhausted
            },
            source: None,
            ..self
        }
    }
}

/// A program that fails, or whose output is missing, incomplete, or larger than
/// 64 mebibytes, is followed by the next one.
pub proof fn failures_lead_to_the_next_program(
    capture: CaptureModel,
    i: usize,
    d: Seq<u8>,
    length: u64,
)
    requires
        i < capture.backends.len() <= 8,
    ensures
        capture.phase == Phase::Trying(i) ==> capture.ran(false) == capture.ran_out_of(i)
            && capture.ran(true) == capture.at(Phase::Reading(i)),
        capture.phase == Phase::Reading(i) ==> {
            &&& capture.examined(ExaminedModel::Missing) == capture.ran_out_of(i)
            &&& d.len() == 0 || d.len() > 8_388_608 || screenshot::kind_of(d) is None
                ==> capture.examined(ExaminedModel::Content(d)) == capture.ran_out_of(i)
            &&& length > 67_108_864 || screenshot::announced(d) is None ==> capture.examined(
                ExaminedModel::Large { length, header: d },
            ) == capture.ran_out_of(i)
        },
{
}

/// Each program is called by its name, captures the whole desktop without asking
/// for anything, and writes a JPEG image where it can, and a PNG one otherwise.
pub proof fn programs_capture_the_whole_desktop(b: Backend)
    ensures
        b == Backend::Grim ==> b.called() == "grim"@ && options(b) == seq![
            "-t"@,
            "jpeg"@,
            "-q"@,
            "85"@,
        ],
        b == Backend::Spectacle ==> b.called() == "spectacle"@ && options(b) == seq![
            "-f"@,
            "-b"@,
            "-n"@,
            "-o"@,
        ],
        b == Backend::GnomeScreenshot ==> b.called() == "gnome-screenshot"@ && options(b) == seq![
            "-f"@,
        ],
        b == Backend::Flameshot ==> b.called() == "flameshot"@ && options(b) == seq![
            "full"@,
            "-p"@,
        ],
        b == Backend::Maim ==> b.called() == "maim"@ && options(b) == seq![
            "--format=jpg"@,
            "--quality=8"@,
        ],
        b == Backend::Scrot ==> b.called() == "scrot"@ && options(b) == seq!["-q"@, "85"@, "-p"@],
        b == Backend::Magick ==> b.called() == "magick"@ && options(b) == seq!["import"@]
            + options(Backend::Import),
        b == Backend::Import ==> b.called() == "import"@ && options(b) == seq![
            "-window"@,
            "root"@,
            "-quality"@,
            "85"@,
        ],
        b.output() == "capture.png"@ <==> b == Backend::GnomeScreenshot || b == Backend::Flameshot,
        b.output() == "capture.jpg"@ || b.output() == "capture.png"@,
{
    reveal_strlit("capture.png");
    reveal_strlit("capture.jpg");
    assert("capture.png"@[8] != "capture.jpg"@[8]);
    assert(seq!["import"@, "-window"@, "root"@, "-quality"@, "85"@] =~= seq!["import"@] + seq![
        "-window"@,
        "root"@,
        "-quality"@,
        "85"@,
    ]);
}

/// When no program gave an image, the kind of session and the programs that were
/// tried are told, in their order.
pub proof fn exhaustion_tells_what_was_tried(backends: Seq<Backend>, b: Backend)
    ensures
        exhausted_message(SessionKind::X11, seq![b]) == "screenshot unavailable: "@ + "X11"@
            + " session detected; tried "@ + b.called(),
        exhausted_message(SessionKind::Wayland, seq![b]) == "screenshot unavailable: "@
            + "Wayland"@ + " session detected; tried "@ + b.called(),
        backends.len() > 0 ==> forall|kind: SessionKind| #[trigger]
            exhausted_message(kind, backends.push(b)) == exhausted_message(kind, backends) + ", "@
                + b.called(),
{
    let name = |b: Backend| b.called();
    assert(seq![b].map_values(name) =~= seq![b.called()]);
    if backends.len() > 0 {
        let all = backends.push(b).map_values(name);
        assert(all.drop_last() =~= backends.map_values(name));
        assert(all.last() == b.called());
        assert forall|kind: SessionKind| #[trigger] exhausted_message(kind, backends.push(b))
            == exhausted_message(kind, backends) + ", "@ + b.called() by {
            assert(exhausted_message(kind, backends.push(b)) =~= exhausted_message(kind, backends)
                + ", "@ + b.called());
        }
    }
}

} // verus!
