//! The tools that controllers call: which there are, who answers a call, and
//! what is answered.
use vstd::prelude::*;

use crate::apply_patch::{ApplyPatchArgs, ApplyPatchOutput};
use crate::computer::batch::Output;
use crate::computer::{Capability, CapabilityModel, ComputerArgs};
use crate::crypto;
use crate::execution;
use crate::execution::{RunArgs, RunOutput};
use crate::failure::Failure;
use crate::gateway::links;
use crate::gateway::links::Links;
use crate::screenshot::Screenshot;
use crate::text;
use crate::text::Text;

verus! {

// ---------------------------------------------------------------------------
// Environments
// ---------------------------------------------------------------------------
/// The name under which a client reports its environment.
pub const CLIENT_ENVIRONMENT_META: &'static str = "com.ylxdzsw.connector/client-environment";

/// What a client reports of itself.
#[derive(Debug, Clone, PartialEq, Eq)]
pub struct ClientEnvironment {
    pub system: String,
    pub shell: String,
    pub computer: Capability,
}

/// The model of [`ClientEnvironment`].
pub struct EnvironmentModel {
    pub system: Text,
    pub shell: Text,
    pub computer: CapabilityModel,
}

impl View for ClientEnvironment {
    type V = EnvironmentModel;

    open spec fn view(&self) -> EnvironmentModel {
        EnvironmentModel {
            system: self.system@,
            shell: self.shell@,
            computer: self.computer@,
        }
    }
}

/// The shell of a client.
pub fn current_shell(windows: bool) -> (r: &'static str)
    ensures
        r@ == execution::shell_name(windows),
{
    execution::shell(windows)
}

impl ClientEnvironment {
    /// What a client on a system reports.
    pub fn current(system: &str, windows: bool, computer: Capability) -> (r: ClientEnvironment)
        ensures
            r@ == (EnvironmentModel {
                system: system@,
                shell: execution::shell_name(windows),
                computer: computer@,
            }),
    {
        ClientEnvironment {
            system: system.to_string(),
            shell: current_shell(windows).to_string(),
            computer,
        }
    }

    pub fn copy(&self) -> (r: ClientEnvironment)
        ensures
            r@ == self@,
    {
        ClientEnvironment {
            system: self.system.clone(),
            shell: self.shell.clone(),
            computer: copy_capability(&self.computer),
        }
    }
}

fn copy_text(v: &Option<String>) -> (r: Option<String>)
    ensures
        text::opt_text(r) == text::opt_text(*v),
{
    match v {
        Some(s) => Some(s.clone()),
        None => None,
    }
}

fn copy_capability(c: &Capability) -> (r: Capability)
    ensures
        r@ == c@,
{
    Capability {
        available: c.available,
        backend: copy_text(&c.backend),
        reason: copy_text(&c.reason),
    }
}

// ---------------------------------------------------------------------------
// Tools
// ---------------------------------------------------------------------------
/// A tool.
#[derive(Debug, Clone, Copy, PartialEq, Eq, Structural)]
pub enum Tool {
    Clients,
    Run,
    ApplyPatch,
    Screenshot,
    Computer,
}

/// What a tool says of its effects.
#[derive(Debug, Clone, Copy, PartialEq, Eq, Structural)]
pub struct Annotations {
    pub read_only: bool,
    pub destructive: bool,
    pub idempotent: bool,
    pub open_world: bool,
}

/// What a controller has to show before a tool is offered to it: the kind of
/// authorization, and the scope that it must carry.
#[derive(Debug, Clone, Copy, PartialEq, Eq)]
pub struct Security {
    pub scheme: &'static str,
    pub scope: &'static str,
}

/// The model of [`Security`].
pub struct SecurityModel {
    pub scheme: Text,
    pub scope: Text,
}

impl View for Security {
    type V = SecurityModel;

    open spec fn view(&self) -> SecurityModel {
        SecurityModel { scheme: self.scheme@, scope: self.scope@ }
    }
}

pub open spec fn security_model(security: Option<Security>) -> Option<SecurityModel> {
    match security {
        Some(s) => Some(s@),
        None => None,
    }
}

impl Tool {
    /// The name of a tool.
    pub open spec fn called(self) -> Text {
        match self {
            Tool::Clients => "clients"@,
            Tool::Run => "run"@,
            Tool::ApplyPatch => "apply_patch"@,
            Tool::Screenshot => "screenshot"@,
            Tool::Computer => "computer"@,
        }
    }

    /// The name of a tool.
    pub fn name(self) -> (r: &'static str)
        ensures
            r@ == self.called(),
    {
        match self {
            Tool::Clients => "clients",
            Tool::Run => "run",
            Tool::ApplyPatch => "apply_patch",
            Tool::Screenshot => "screenshot",
            Tool::Computer => "computer",
        }
    }

    /// What a tool says of its effects; a command may do anything, so that
    /// nothing is said of it.
    pub open spec fn effects(self) -> Option<Annotations> {
        match self {
            Tool::Clients => Some(
                Annotations {
                    read_only: true,
                    destructive: false,
                    idempotent: true,
                    open_world: false,
                },
            ),
            Tool::Run => None,
            Tool::ApplyPatch => Some(
                Annotations {
                    read_only: false,
                    destructive: true,
                    idempotent: false,
                    open_world: false,
                },
            ),
            Tool::Screenshot => Some(
                Annotations {
                    read_only: true,
                    destructive: false,
                    idempotent: true,
                    open_world: false,
                },
            ),
            Tool::Computer => Some(
                Annotations {
                    read_only: false,
                    destructive: true,
                    idempotent: false,
                    open_world: true,
                },
            ),
        }
    }

    /// What a tool says of its effects.
    pub fn annotations(self) -> (r: Option<Annotations>)
        ensures
            r == self.effects(),
    {
        match self {
            Tool::Clients | Tool::Screenshot => Some(
                Annotations {
                    read_only: true,
                    destructive: false,
                    idempotent: true,
                    open_world: false,
                },
            ),
            Tool::Run => None,
            Tool::ApplyPatch => Some(
                Annotations {
                    read_only: false,
                    destructive: true,
                    idempotent: false,
                    open_world: false,
                },
            ),
            Tool::Computer => Some(
                Annotations {
                    read_only: false,
                    destructive: true,
                    idempotent: false,
                    open_world: true,
                },
            ),
        }
    }

    /// What a controller has to show for a tool: at the gateway an OAuth token
    /// with the scope `control`, on the machine of a client nothing.
    pub open spec fn demands(self, gateway: bool) -> Option<SecurityModel> {
        if gateway {
            Some(SecurityModel { scheme: "oauth2"@, scope: "control"@ })
        } else {
            None
        }
    }

    /// What a controller has to show for a tool.
    pub fn security(self, gateway: bool) -> (r: Option<Security>)
        ensures
            security_model(r) == self.demands(gateway),
    {
        if gateway {
            Some(Security { scheme: "oauth2", scope: "control" })
        } else {
            None
        }
    }

    /// What a tool is for. The gateway says of which client it speaks.
    pub open spec fn purpose(self, gateway: bool) -> Text {
        match self {
            Tool::Clients => {
                "List connected clients with their system, shell, and detected desktop-input capability"@
            },
            Tool::Run => if gateway {
                "Run one non-persistent command using a connected client's shell"@
            } else {
                "Run one non-persistent command using this client's shell and return combined output and exit code"@
            },
            Tool::ApplyPatch => if gateway {
                "Apply one structured patch to files on a connected client"@
            } else {
                "Apply one Mu/Codex-style patch envelope after preflighting all file changes"@
            },
            Tool::Screenshot => if gateway {
                "Capture the full graphical desktop of a connected client; returns unavailable when the client cannot capture it"@
            } else {
                "Capture the full graphical desktop; returns unavailable when no supported screenshot program can access it"@
            },
            Tool::Computer => {
                "Execute up to 32 desktop actions sequentially, then always capture one screenshot. Windows and X11 input only; requires an accessible desktop and input backend. Coordinates are integer pixels in the most recent full screenshot, origin top-left; capture first (actions: [] also captures). Stop on first failure; completed actions are not rolled back. Never replay an interrupted batch without observing. Keys/buttons are released within each action. Use wait for asynchronous UI changes; each wait is at most 5000ms, batch execution budget 30s. Desktop changes by humans or shell commands are not serialized."@
            },
        }
    }

    /// What a tool is for.
    pub fn description(self, gateway: bool) -> (r: &'static str)
        ensures
            r@ == self.purpose(gateway),
    {
        match self {
            Tool::Clients => {
                "List connected clients with their system, shell, and detected desktop-input capability"
            },
            Tool::Run => if gateway {
                "Run one non-persistent command using a connected client's shell"
            } else {
                "Run one non-persistent command using this client's shell and return combined output and exit code"
            },
            Tool::ApplyPatch => if gateway {
                "Apply one structured patch to files on a connected client"
            } else {
                "Apply one Mu/Codex-style patch envelope after preflighting all file changes"
            },
            Tool::Screenshot => if gateway {
                "Capture the full graphical desktop of a connected client; returns unavailable when the client cannot capture it"
            } else {
                "Capture the full graphical desktop; returns unavailable when no supported screenshot program can access it"
            },
            Tool::Computer => {
                "Execute up to 32 desktop actions sequentially, then always capture one screenshot. Windows and X11 input only; requires an accessible desktop and input backend. Coordinates are integer pixels in the most recent full screenshot, origin top-left; capture first (actions: [] also captures). Stop on first failure; completed actions are not rolled back. Never replay an interrupted batch without observing. Keys/buttons are released within each action. Use wait for asynchronous UI changes; each wait is at most 5000ms, batch execution budget 30s. Desktop changes by humans or shell commands are not serialized."
            },
        }
    }
}

/// The tools of the gateway, in order.
pub open spec fn gateway_list() -> Seq<Tool> {
    seq![Tool::Clients, Tool::Run, Tool::ApplyPatch, Tool::Screenshot, Tool::Computer]
}

/// The tools of a client, in order.
pub open spec fn client_list() -> Seq<Tool> {
    seq![Tool::Run, Tool::ApplyPatch, Tool::Screenshot, Tool::Computer]
}

/// The tool of a list with a name.
pub open spec fn tool_named(list: Seq<Tool>, name: Text) -> Option<Tool> {
    if exists|i: int| 0 <= i < list.len() && (#[trigger] list[i]).called() == name {
        Some(list[choose|i: int| 0 <= i < list.len() && (#[trigger] list[i]).called() == name])
    } else {
        None
    }
}

/// The tools of the gateway.
pub fn gateway_tools() -> (r: Vec<Tool>)
    ensures
        r@ == gateway_list(),
{
    let r = vec![Tool::Clients, Tool::Run, Tool::ApplyPatch, Tool::Screenshot, Tool::Computer];
    assert(r@ =~= gateway_list());
    r
}

/// The tools of a client, and of the channel to it.
pub fn client_tools() -> (r: Vec<Tool>)
    ensures
        r@ == client_list(),
{
    let r = vec![Tool::Run, Tool::ApplyPatch, Tool::Screenshot, Tool::Computer];
    assert(r@ =~= client_list());
    r
}

proof fn lemma_names_differ()
    ensures
        forall|a: Tool, b: Tool| #[trigger] a.called() == #[trigger] b.called() ==> a == b,
{
    reveal_strlit("clients");
    reveal_strlit("run");
    reveal_strlit("apply_patch");
    reveal_strlit("screenshot");
    reveal_strlit("computer");
    assert forall|a: Tool, b: Tool| #[trigger] a.called() == #[trigger] b.called() implies a
        == b by {
        let x = a.called();
        let y = b.called();
        assert(x.len() == y.len());
        assert(x[0] == y[0]);
        assert(x.len() > 3 ==> x[1] == y[1]);
    }
}

fn find_tool(list: &Vec<Tool>, name: &str) -> (r: Option<Tool>)
    ensures
        r == tool_named(list@, name@),
{
    for i in 0..list.len()
        invariant
            forall|k: int| 0 <= k < i ==> (#[trigger] list@[k]).called() != name@,
    {
        if text::same(list[i].name(), name) {
            proof {
                lemma_names_differ();
                assert(list@[i as int].called() == name@);
            }
            return Some(list[i]);
        }
    }
    None
}

/// The tool of the gateway with a name.
pub fn gateway_tool(name: &str) -> (r: Option<Tool>)
    ensures
        r == tool_named(gateway_list(), name@),
{
    find_tool(&gateway_tools(), name)
}

/// The tool of a client, or of the channel to it, with a name.
pub fn client_tool(name: &str) -> (r: Option<Tool>)
    ensures
        r == tool_named(client_list(), name@),
{
    find_tool(&client_tools(), name)
}

/// A tool is found under its own name, and the gateway offers one tool more
/// than a client: the list of clients.
pub proof fn tools_are_found_by_name(tool: Tool)
    ensures
        tool_named(gateway_list(), tool.called()) == Some(tool),
        tool_named(client_list(), tool.called()) == (if tool == Tool::Clients {
            None
        } else {
            Some(tool)
        }),
{
    lemma_names_differ();
    let g = gateway_list();
    let c = client_list();
    assert(g[0] == Tool::Clients && g[1] == Tool::Run && g[2] == Tool::ApplyPatch && g[3]
        == Tool::Screenshot && g[4] == Tool::Computer);
    assert(c[0] == Tool::Run && c[1] == Tool::ApplyPatch && c[2] == Tool::Screenshot && c[3]
        == Tool::Computer);
}

/// The gateway finds a tool under five names and no other; what it finds is on
/// its list, bears the name, and asks for an OAuth token with the scope
/// `control`. A client finds the same tools but the list of clients, and asks
/// for nothing.
pub proof fn offered_tools_ask_for_control(name: Text)
    ensures
        tool_named(gateway_list(), name) is Some <==> name == "clients"@ || name == "run"@ || name
            == "apply_patch"@ || name == "screenshot"@ || name == "computer"@,
        tool_named(gateway_list(), name) matches Some(tool) ==> {
            &&& tool.called() == name
            &&& gateway_list().contains(tool)
            &&& tool.demands(true) == Some(
                SecurityModel { scheme: "oauth2"@, scope: "control"@ },
            )
        },
        tool_named(client_list(), name) is Some <==> name == "run"@ || name == "apply_patch"@
            || name == "screenshot"@ || name == "computer"@,
        tool_named(client_list(), name) matches Some(tool) ==> {
            &&& tool.called() == name
            &&& client_list().contains(tool)
            &&& tool.demands(false) is None
        },
{
    let g = gateway_list();
    let c = client_list();
    assert(g[0] == Tool::Clients && g[1] == Tool::Run && g[2] == Tool::ApplyPatch && g[3]
        == Tool::Screenshot && g[4] == Tool::Computer);
    assert(c[0] == Tool::Run && c[1] == Tool::ApplyPatch && c[2] == Tool::Screenshot && c[3]
        == Tool::Computer);
}

// ---------------------------------------------------------------------------
// Live clients
// ---------------------------------------------------------------------------
/// A client whose link is open.
#[derive(Debug)]
pub struct LiveClient {
    pub name: String,
    pub connection_id: String,
    pub environment: ClientEnvironment,
}

/// The model of [`LiveClient`].
pub struct LiveModel {
    pub name: Text,
    pub connection_id: Text,
    pub environment: EnvironmentModel,
}

impl View for LiveClient {
    type V = LiveModel;

    open spec fn view(&self) -> LiveModel {
        LiveModel {
            name: self.name@,
            connection_id: self.connection_id@,
            environment: self.environment@,
        }
    }
}

/// What is listed of a connected client.
#[derive(Debug)]
pub struct ClientSummary {
    pub name: String,
    pub system: String,
    pub shell: String,
    pub computer: Capability,
}

/// The model of [`ClientSummary`].
pub struct SummaryModel {
    pub name: Text,
    pub system: Text,
    pub shell: Text,
    pub computer: CapabilityModel,
}

impl View for ClientSummary {
    type V = SummaryModel;

    open spec fn view(&self) -> SummaryModel {
        SummaryModel {
            name: self.name@,
            system: self.system@,
            shell: self.shell@,
            computer: self.computer@,
        }
    }
}

/// What is listed of a live client.
pub open spec fn summarized(client: LiveModel) -> SummaryModel {
    SummaryModel {
        name: client.name,
        system: client.environment.system,
        shell: client.environment.shell,
        computer: client.environment.computer,
    }
}

pub fn summarize(client: &LiveClient) -> (r: ClientSummary)
    ensures
        r@ == summarized(client@),
{
    ClientSummary {
        name: client.name.clone(),
        system: client.environment.system.clone(),
        shell: client.environment.shell.clone(),
        computer: copy_capability(&client.environment.computer),
    }
}

// ---------------------------------------------------------------------------
// Calls through the gateway
// ---------------------------------------------------------------------------
/// A call of one of the gateway's tools.
#[derive(Debug)]
pub enum Call {
    Clients,
    Run { client: String, args: RunArgs },
    ApplyPatch { client: String, args: ApplyPatchArgs },
    Screenshot { client: String },
    Computer { client: String, args: ComputerArgs },
}

/// What a client is asked to do.
#[derive(Debug)]
pub enum Request {
    Run(RunArgs),
    ApplyPatch(ApplyPatchArgs),
    Screenshot,
    Computer(ComputerArgs),
}

impl Request {
    /// The tool of the client that does it.
    pub open spec fn needs(self) -> Tool {
        match self {
            Request::Run(_) => Tool::Run,
            Request::ApplyPatch(_) => Tool::ApplyPatch,
            Request::Screenshot => Tool::Screenshot,
            Request::Computer(_) => Tool::Computer,
        }
    }

    /// The tool of the client that does it.
    pub fn tool(&self) -> (r: Tool)
        ensures
            r == self.needs(),
    {
        match self {
            Request::Run(_) => Tool::Run,
            Request::ApplyPatch(_) => Tool::ApplyPatch,
            Request::Screenshot => Tool::Screenshot,
            Request::Computer(_) => Tool::Computer,
        }
    }
}

/// What the gateway does with a call.
#[derive(Debug)]
pub enum Answer {
    /// The list of connected clients.
    Listed(Vec<ClientSummary>),
    /// The request goes on to a client.
    Relay { client: String, request: Request },
    /// No such client is connected.
    Unavailable(String),
}

/// The client that a call names and what it asks of it, with the arguments as
/// they came; nothing where the gateway answers the call itself.
pub open spec fn relayed(call: Call) -> Option<(Text, Request)> {
    match call {
        Call::Clients => None,
        Call::Run { client, args } => Some((client@, Request::Run(args))),
        Call::ApplyPatch { client, args } => Some((client@, Request::ApplyPatch(args))),
        Call::Screenshot { client } => Some((client@, Request::Screenshot)),
        Call::Computer { client, args } => Some((client@, Request::Computer(args))),
    }
}

/// The client that a call names and what it asks of it.
pub fn relay(call: Call) -> (r: Option<(String, Request)>)
    ensures
        match r {
            Some((client, request)) => relayed(call) == Some((client@, request)),
            None => relayed(call) is None,
        },
{
    match call {
        Call::Clients => None,
        Call::Run { client, args } => Some((client, Request::Run(args))),
        Call::ApplyPatch { client, args } => Some((client, Request::ApplyPatch(args))),
        Call::Screenshot { client } => Some((client, Request::Screenshot)),
        Call::Computer { client, args } => Some((client, Request::Computer(args))),
    }
}

/// What is said of a client that is not connected.
pub open spec fn not_connected(client: Text) -> Text {
    "client '"@ + client + "' is not connected"@
}

/// What the gateway does with a call: it lists the clients itself, hands any
/// other call on to the client that it names, and refuses it where that client
/// is not connected.
pub fn invoke(links: &Links, call: Call) -> (r: Answer)
    requires
        links.wf(),
    ensures
        match (relayed(call), r) {
            (None, Answer::Listed(list)) => links::all_listed(
                links@.live,
                links::summaries(list@),
            ),
            (Some((client, request)), Answer::Relay { client: to, request: handed }) => {
                &&& links@.live.dom().contains(client)
                &&& to@ == client
                &&& handed == request
            },
            (Some((client, _)), Answer::Unavailable(message)) => {
                &&& !links@.live.dom().contains(client)
                &&& message@ == not_connected(client)
            },
            _ => false,
        },
{
    match relay(call) {
        None => Answer::Listed(links.list()),
        Some((client, request)) => {
            if links.is_live(client.as_str()) {
                Answer::Relay { client, request }
            } else {
                let mut message = "client '".to_string();
                message.append(client.as_str());
                message.append("' is not connected");
                Answer::Unavailable(message)
            }
        },
    }
}

/// How long the gateway waits for the answer to a desktop batch, in seconds.
pub const RELAY_LIMIT: u64 = 90;

/// What is answered when a call could not be handed on.
pub open spec fn relay_fault(tool: Tool, error: Text) -> Text {
    match tool {
        Tool::Screenshot => "screenshot unavailable: "@ + error,
        Tool::Computer => {
            "desktop batch interrupted or client unavailable; input may have executed. Inspect a fresh screenshot before retrying."@
        },
        _ => "client became unavailable: "@ + error,
    }
}

/// What is answered when a call could not be handed on.
pub fn relay_failure(tool: Tool, error: &str) -> (r: String)
    ensures
        r@ == relay_fault(tool, error@),
{
    match tool {
        Tool::Screenshot => {
            let mut message = "screenshot unavailable: ".to_string();
            message.append(error);
            message
        },
        Tool::Computer => {
            "desktop batch interrupted or client unavailable; input may have executed. Inspect a fresh screenshot before retrying.".to_string()
        },
        _ => {
            let mut message = "client became unavailable: ".to_string();
            message.append(error);
            message
        },
    }
}

// ---------------------------------------------------------------------------
// Results of a client's tools
// ---------------------------------------------------------------------------
/// One part of an answer.
#[derive(Debug)]
pub enum Content {
    Text(String),
    /// The size of the screenshot that follows.
    Size { width: u32, height: u32 },
    /// How far a batch got.
    Progress { completed: usize, error: Option<String> },
    /// An image in Base64.
    Image { data: String, mime_type: String },
}

/// The model of [`Content`].
pub enum ContentModel {
    Text(Text),
    Size { width: u32, height: u32 },
    Progress { completed: usize, error: Option<Text> },
    Image { data: Text, mime_type: Text },
}

impl View for Content {
    type V = ContentModel;

    open spec fn view(&self) -> ContentModel {
        match self {
            Content::Text(s) => ContentModel::Text(s@),
            Content::Size { width, height } => ContentModel::Size {
                width: *width,
                height: *height,
            },
            Content::Progress { completed, error } => ContentModel::Progress {
                completed: *completed,
                error: text::opt_text(*error),
            },
            Content::Image { data, mime_type } => ContentModel::Image {
                data: data@,
                mime_type: mime_type@,
            },
        }
    }
}

pub open spec fn content_models(v: Seq<Content>) -> Seq<ContentModel> {
    v.map_values(|c: Content| c@)
}

/// How the coordinates of a batch are to be read, told with each size.
pub open spec fn coordinates_note() -> Text {
    "screenshot pixels; origin at top-left"@
}

/// How the coordinates of a batch are to be read.
pub fn coordinates() -> (r: &'static str)
    ensures
        r@ == coordinates_note(),
{
    "screenshot pixels; origin at top-left"
}

/// The part of an answer that programs read: the size of the screenshot, how
/// far a batch got, and why there is no screenshot.
#[derive(Debug)]
pub struct Structured {
    pub size: Option<(u32, u32)>,
    pub progress: Option<Progress>,
    pub screenshot_error: Option<String>,
}

/// How far a batch got, and why it stopped early.
#[derive(Debug)]
pub struct Progress {
    pub completed: usize,
    pub error: Option<String>,
}

/// The model of [`Structured`].
pub struct StructuredModel {
    pub size: Option<(u32, u32)>,
    pub progress: Option<(usize, Option<Text>)>,
    pub screenshot_error: Option<Text>,
}

impl View for Structured {
    type V = StructuredModel;

    open spec fn view(&self) -> StructuredModel {
        StructuredModel {
            size: self.size,
            progress: match self.progress {
                Some(p) => Some((p.completed, text::opt_text(p.error))),
                None => None,
            },
            screenshot_error: text::opt_text(self.screenshot_error),
        }
    }
}

/// The answer of a tool.
#[derive(Debug)]
pub struct ToolResult {
    pub content: Vec<Content>,
    pub structured: Option<Structured>,
    pub is_error: bool,
}

/// The model of [`ToolResult`].
pub struct ResultModel {
    pub content: Seq<ContentModel>,
    pub structured: Option<StructuredModel>,
    pub is_error: bool,
}

impl View for ToolResult {
    type V = ResultModel;

    open spec fn view(&self) -> ResultModel {
        ResultModel {
            content: content_models(self.content@),
            structured: match self.structured {
                Some(s) => Some(s@),
                None => None,
            },
            is_error: self.is_error,
        }
    }
}

/// The parts of an answer that show a screenshot.
pub open spec fn picture(image: Screenshot) -> Seq<ContentModel> {
    seq![
        ContentModel::Size { width: image.width, height: image.height },
        ContentModel::Image {
            data: crypto::base64_padded(image.data@),
            mime_type: image.mime_type@,
        },
    ]
}

/// The answer to a capture.
pub open spec fn captured_answer(image: Screenshot) -> ResultModel {
    ResultModel {
        content: picture(image),
        structured: Some(
            StructuredModel {
                size: Some((image.width, image.height)),
                progress: None,
                screenshot_error: None,
            },
        ),
        is_error: false,
    }
}

/// An answer that is an error.
pub open spec fn error_answer(message: Text) -> ResultModel {
    ResultModel { content: seq![ContentModel::Text(message)], structured: None, is_error: true }
}

/// The answer to a batch: how far it got comes first, then the screenshot or
/// why there is none.
pub open spec fn batch_answer(output: Output) -> ResultModel {
    let first = ContentModel::Progress {
        completed: output.completed,
        error: text::opt_text(output.error),
    };
    let progress = Some((output.completed, text::opt_text(output.error)));
    match output.screenshot {
        Ok(image) => ResultModel {
            content: seq![first] + picture(image),
            structured: Some(
                StructuredModel {
                    size: Some((image.width, image.height)),
                    progress,
                    screenshot_error: None,
                },
            ),
            is_error: output.error is Some,
        },
        Err(error) => ResultModel {
            content: seq![first, ContentModel::Text("Final screenshot failed: "@ + error@)],
            structured: Some(
                StructuredModel { size: None, progress, screenshot_error: Some(error@) },
            ),
            is_error: true,
        },
    }
}

/// An answer that is an error.
pub fn tool_error(message: String) -> (r: ToolResult)
    ensures
        r@ == error_answer(message@),
{
    let mut content: Vec<Content> = Vec::new();
    content.push(Content::Text(message));
    assert(content_models(content@) =~= seq![ContentModel::Text(message@)]);
    ToolResult { content, structured: None, is_error: true }
}

/// The answer to a capture.
pub fn screenshot_result(image: &Screenshot) -> (r: ToolResult)
    ensures
        r@ == captured_answer(*image),
{
    let data = crypto::encode_standard(&image.data);
    let mut content: Vec<Content> = Vec::new();
    content.push(Content::Size { width: image.width, height: image.height });
    content.push(Content::Image { data, mime_type: image.mime_type.to_string() });
    assert(content_models(content@) =~= picture(*image));
    let structured = Structured {
        size: Some((image.width, image.height)),
        progress: None,
        screenshot_error: None,
    };
    ToolResult { content, structured: Some(structured), is_error: false }
}

/// The answer to a batch.
pub fn computer_result(output: &Output) -> (r: ToolResult)
    ensures
        r@ == batch_answer(*output),
{
    let first = Content::Progress {
        completed: output.completed,
        error: copy_text(&output.error),
    };
    let progress = Some(
        Progress { completed: output.completed, error: copy_text(&output.error) },
    );
    match &output.screenshot {
        Ok(image) => {
            let data = crypto::encode_standard(&image.data);
            let mut content: Vec<Content> = Vec::new();
            content.push(first);
            content.push(Content::Size { width: image.width, height: image.height });
            content.push(Content::Image { data, mime_type: image.mime_type.to_string() });
            assert(content_models(content@) =~= seq![first@] + picture(*image));
            let structured = Structured {
                size: Some((image.width, image.height)),
                progress,
                screenshot_error: None,
            };
            ToolResult {
                content,
                structured: Some(structured),
                is_error: output.error.is_some(),
            }
        },
        Err(error) => {
            let mut message = "Final screenshot failed: ".to_string();
            message.append(error.as_str());
            let mut content: Vec<Content> = Vec::new();
            content.push(first);
            content.push(Content::Text(message));
            assert(content_models(content@) =~= seq![first@, ContentModel::Text(message@)]);
            let structured = Structured {
                size: None,
                progress,
                screenshot_error: Some(error.clone()),
            };
            ToolResult { content, structured: Some(structured), is_error: true }
        },
    }
}

/// How a batch came to be interrupted.
#[derive(Debug, Clone, Copy, PartialEq, Eq, Structural)]
pub enum Interruption {
    /// The call was cancelled.
    Cancelled,
    /// The link to the gateway ended.
    Disconnected,
    /// The batch was cancelled while it waited for its turn.
    BeforeExecution,
}

/// What is said of an interrupted batch.
pub open spec fn interruption_words(i: Interruption) -> Text {
    match i {
        Interruption::Cancelled => {
            "desktop batch cancelled; inspect desktop before retrying"@
        },
        Interruption::Disconnected => {
            "client disconnected; batch interrupted; inspect desktop before retrying"@
        },
        Interruption::BeforeExecution => "batch cancelled before execution"@,
    }
}

/// What is said of an interrupted batch.
pub fn interruption_message(i: Interruption) -> (r: String)
    ensures
        r@ == interruption_words(i),
{
    match i {
        Interruption::Cancelled => {
            "desktop batch cancelled; inspect desktop before retrying".to_string()
        },
        Interruption::Disconnected => {
            "client disconnected; batch interrupted; inspect desktop before retrying".to_string()
        },
        Interruption::BeforeExecution => "batch cancelled before execution".to_string(),
    }
}

/// A batch that stopped early is answered as an error, and so is one without a
/// final screenshot; what was completed is always told.
pub proof fn batch_answers_tell_what_happened(output: Output)
    ensures
        batch_answer(output).is_error == (output.error is Some || output.screenshot is Err),
        batch_answer(output).content.len() > 0,
        batch_answer(output).content[0] == (ContentModel::Progress {
            completed: output.completed,
            error: text::opt_text(output.error),
        }),
        batch_answer(output).structured is Some,
{
}

// ---------------------------------------------------------------------------
// Answers of a client
// ---------------------------------------------------------------------------
/// What a call of one of a client's tools came to.
#[derive(Debug)]
pub enum Served {
    Run(Result<RunOutput, String>),
    ApplyPatch(Result<ApplyPatchOutput, Failure>),
    /// The task that applied a patch was lost.
    PatchLost(String),
    Screenshot(Result<Screenshot, String>),
    Computer(Result<Output, String>),
}

/// What a client answers.
#[derive(Debug)]
pub enum ClientAnswer {
    /// A command ended, whatever its exit code.
    Run(RunOutput),
    /// A patch was applied.
    ApplyPatch(ApplyPatchOutput),
    /// Anything else.
    Tool(ToolResult),
}

/// Whether a client answers so: a command that ended is no error, whatever its
/// exit code; what could not be done is told as an error.
pub open spec fn answers(served: Served, answer: ClientAnswer) -> bool {
    match served {
        Served::Run(Ok(output)) => answer == ClientAnswer::Run(output),
        Served::Run(Err(error)) => answer matches ClientAnswer::Tool(result) && result@
            == error_answer(error@),
        Served::ApplyPatch(Ok(output)) => answer == ClientAnswer::ApplyPatch(output),
        Served::ApplyPatch(Err(failure)) => answer matches ClientAnswer::Tool(result) && result@
            == error_answer(text::join(failure@, ": "@)),
        Served::PatchLost(error) => answer matches ClientAnswer::Tool(result) && result@
            == error_answer("patch task failed: "@ + error@),
        Served::Screenshot(Ok(image)) => answer matches ClientAnswer::Tool(result) && result@
            == captured_answer(image),
        Served::Screenshot(Err(error)) => answer matches ClientAnswer::Tool(result) && result@
            == error_answer(error@),
        Served::Computer(Ok(output)) => answer matches ClientAnswer::Tool(result) && result@
            == batch_answer(output),
        Served::Computer(Err(error)) => answer matches ClientAnswer::Tool(result) && result@
            == error_answer(error@),
    }
}

/// What a client answers to a call.
pub fn respond(served: Served) -> (r: ClientAnswer)
    ensures
        answers(served, r),
{
    match served {
        Served::Run(Ok(output)) => ClientAnswer::Run(output),
        Served::Run(Err(error)) => ClientAnswer::Tool(tool_error(error)),
        Served::ApplyPatch(Ok(output)) => ClientAnswer::ApplyPatch(output),
        Served::ApplyPatch(Err(failure)) => ClientAnswer::Tool(tool_error(failure.chain())),
        Served::PatchLost(error) => {
            let mut message = "patch task failed: ".to_string();
            message.append(error.as_str());
            ClientAnswer::Tool(tool_error(message))
        },
        Served::Screenshot(Ok(image)) => ClientAnswer::Tool(screenshot_result(&image)),
        Served::Screenshot(Err(error)) => ClientAnswer::Tool(tool_error(error)),
        Served::Computer(Ok(output)) => ClientAnswer::Tool(computer_result(&output)),
        Served::Computer(Err(error)) => ClientAnswer::Tool(tool_error(error)),
    }
}

// ---------------------------------------------------------------------------
// Laws
// ---------------------------------------------------------------------------
/// Only the list of clients is answered by the gateway itself. Any other call
/// goes to the client that it names, for the same tool and with the arguments as
/// they came.
pub proof fn calls_go_where_they_are_meant(call: Call)
    ensures
        call is Clients <==> relayed(call) is None,
        call matches Call::Run { client, args } ==> relayed(call) == Some(
            (client@, Request::Run(args)),
        ),
        call matches Call::ApplyPatch { client, args } ==> relayed(call) == Some(
            (client@, Request::ApplyPatch(args)),
        ),
        call matches Call::Screenshot { client } ==> relayed(call) == Some(
            (client@, Request::Screenshot),
        ),
        call matches Call::Computer { client, args } ==> relayed(call) == Some(
            (client@, Request::Computer(args)),
        ),
        relayed(call) matches Some((_, request)) ==> {
            &&& request is Run ==> request.needs().called() == "run"@
            &&& request is ApplyPatch ==> request.needs().called() == "apply_patch"@
            &&& request is Screenshot ==> request.needs().called() == "screenshot"@
            &&& request is Computer ==> request.needs().called() == "computer"@
        },
{
}

/// Tools that only look, and may be called again, are the list of clients and
/// the screenshot; patches and desktop input change what they find, and desktop
/// input reaches beyond the machine. Of a command nothing is said.
pub proof fn tools_tell_their_effects(tool: Tool)
    ensures
        tool.effects() is None <==> tool == Tool::Run,
        tool.effects() matches Some(e) ==> {
            &&& e.read_only <==> tool == Tool::Clients || tool == Tool::Screenshot
            &&& e.destructive <==> !e.read_only
            &&& e.idempotent <==> e.read_only
            &&& e.open_world <==> tool == Tool::Computer
        },
{
}

/// Whether two parts of an answer show an image: its size, and then the image
/// itself, which decodes to its bytes.
pub open spec fn shows(size: ContentModel, image: ContentModel, shot: Screenshot) -> bool {
    &&& size == (ContentModel::Size { width: shot.width, height: shot.height })
    &&& image matches ContentModel::Image { data, mime_type }
    &&& crypto::base64_decoded(data) == Some(shot.data@)
    &&& mime_type == shot.mime_type@
}

/// A capture is answered with the image and its size, and is no error.
pub proof fn captures_show_the_image(image: Screenshot)
    ensures
        ({
            let answer = captured_answer(image);
            &&& answer.content.len() == 2
            &&& shows(answer.content[0], answer.content[1], image)
            &&& !answer.is_error
            &&& answer.structured matches Some(s)
            &&& s.size == Some((image.width, image.height))
            &&& s.progress is None
            &&& s.screenshot_error is None
        }),
{
    crypto::encodings_lead_back(image.data@, image.data@, false);
}

/// A batch is answered with how far it got, then with the final image and its
/// size, or with the reason why there is none.
pub proof fn batches_show_the_final_image(output: Output)
    ensures
        ({
            let answer = batch_answer(output);
            &&& answer.structured matches Some(s)
            &&& s.progress == Some((output.completed, text::opt_text(output.error)))
            &&& output.screenshot matches Ok(image) ==> answer.content.len() == 3 && shows(
                answer.content[1],
                answer.content[2],
                image,
            ) && s.size == Some((image.width, image.height)) && s.screenshot_error is None
            &&& output.screenshot matches Err(error) ==> answer.content.len() == 2
                && answer.content[1] == ContentModel::Text("Final screenshot failed: "@ + error@)
                && s.size is None && s.screenshot_error == Some(error@)
        }),
{
    if let Ok(image) = output.screenshot {
        crypto::encodings_lead_back(image.data@, image.data@, false);
    }
}

/// A command that ended and a patch that was applied are answered as they are;
/// what failed is answered as an error with its reason.
pub proof fn answers_tell_what_came_of_a_call(served: Served, answer: ClientAnswer)
    requires
        answers(served, answer),
    ensures
        served matches Served::Run(Ok(output)) ==> answer == ClientAnswer::Run(output),
        served matches Served::ApplyPatch(Ok(output)) ==> answer == ClientAnswer::ApplyPatch(
            output,
        ),
        served matches Served::Run(Err(error)) ==> failed_with(answer, error@),
        served matches Served::ApplyPatch(Err(failure)) ==> failed_with(
            answer,
            text::join(failure@, ": "@),
        ),
        served matches Served::PatchLost(error) ==> failed_with(
            answer,
            "patch task failed: "@ + error@,
        ),
        served matches Served::Screenshot(Err(error)) ==> failed_with(answer, error@),
        served matches Served::Computer(Err(error)) ==> failed_with(answer, error@),
        served matches Served::Screenshot(Ok(image)) ==> (answer matches ClientAnswer::Tool(result)
            && !result.is_error && result@.content.len() == 2 && shows(
            result@.content[0],
            result@.content[1],
            image,
        )),
        served matches Served::Computer(Ok(output)) ==> (answer matches ClientAnswer::Tool(result)
            && result.is_error == (output.error is Some || output.screenshot is Err)
            && result@.content.len() > 0 && result@.content[0] == (ContentModel::Progress {
            completed: output.completed,
            error: text::opt_text(output.error),
        })),
{
    if let Served::Screenshot(Ok(image)) = served {
        captures_show_the_image(image);
    }
    if let Served::Computer(Ok(output)) = served {
        batch_answers_tell_what_happened(output);
    }
}

/// Whether an answer is an error with one message.
pub open spec fn failed_with(answer: ClientAnswer, message: Text) -> bool {
    answer matches ClientAnswer::Tool(result) && result.is_error && result.structured is None
        && result@.content == seq![ContentModel::Text(message)]
}

/// A call that could not be handed on is answered with the reason, except for a
/// batch, of which nobody knows how far it got.
pub proof fn lost_calls_are_answered_with_the_reason(tool: Tool, error: Text)
    ensures
        tool == Tool::Computer <==> relay_fault(tool, error)
            == "desktop batch interrupted or client unavailable; input may have executed. Inspect a fresh screenshot before retrying."@,
        tool == Tool::Screenshot ==> relay_fault(tool, error) == "screenshot unavailable: "@
            + error,
        tool != Tool::Screenshot && tool != Tool::Computer ==> relay_fault(tool, error)
            == "client became unavailable: "@ + error,
{
    reveal_strlit("desktop batch interrupted or client unavailable; input may have executed. Inspect a fresh screenshot before retrying.");
    reveal_strlit("screenshot unavailable: ");
    reveal_strlit("client became unavailable: ");
    let words =
        "desktop batch interrupted or client unavailable; input may have executed. Inspect a fresh screenshot before retrying."@;
    assert(words[0] == 'd');
    assert(("screenshot unavailable: "@ + error)[0] == 's');
    assert(("client became unavailable: "@ + error)[0] == 'c');
}

/// The gateway offers the list of clients first, and then what a client offers.
pub proof fn gateways_offer_one_tool_more()
    ensures
        gateway_list() == seq![Tool::Clients] + client_list(),
        client_list() == seq![Tool::Run, Tool::ApplyPatch, Tool::Screenshot, Tool::Computer],
{
    assert(gateway_list() =~= seq![Tool::Clients] + client_list());
}

} // verus!
