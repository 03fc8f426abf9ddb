//! Data model of the administrative protocol: proxy kinds, orders, admin
//! requests and answers, worker descriptions, and the error kinds of the
//! control plane.

use vstd::prelude::*;
use vstd::string::StringExecFns;

verus! {

/// The kind of proxy a listener runs. Wire form is the uppercase name.
#[derive(Debug, Clone, Copy, PartialEq, Eq, Hash, Structural)]
pub enum ProxyType {
    HTTP,
    HTTPS,
    TCP,
}

impl ProxyType {
    pub open spec fn spec_wire_name(self) -> Seq<char> {
        match self {
            ProxyType::HTTP => "HTTP"@,
            ProxyType::HTTPS => "HTTPS"@,
            ProxyType::TCP => "TCP"@,
        }
    }

    /// Uppercase name used on the wire.
    pub fn wire_name(&self) -> (r: &'static str)
        ensures
            r@ == self.spec_wire_name(),
    {
        match self {
            ProxyType::HTTP => "HTTP",
            ProxyType::HTTPS => "HTTPS",
            ProxyType::TCP => "TCP",
        }
    }
}

/// Whether a worker is serving, draining after a soft stop, or gone.
#[derive(Debug, Clone, Copy, PartialEq, Eq, Hash, Structural)]
pub enum RunState {
    Running,
    Stopping,
    Stopped,
}

impl RunState {
    pub open spec fn spec_wire_name(self) -> Seq<char> {
        match self {
            RunState::Running => "Running"@,
            RunState::Stopping => "Stopping"@,
            RunState::Stopped => "Stopped"@,
        }
    }
}

/// Status of an admin answer: `Ok` and `Error` are terminal, `Processing` is
/// not.
#[derive(Debug, Clone, Copy, PartialEq, Eq, Hash, Structural)]
pub enum ConfigMessageStatus {
    Okay,
    Processing,
    Error,
}

impl ConfigMessageStatus {
    pub open spec fn spec_wire_name(self) -> Seq<char> {
        match self {
            ConfigMessageStatus::Okay => "Ok"@,
            ConfigMessageStatus::Processing => "Processing"@,
            ConfigMessageStatus::Error => "Error"@,
        }
    }

    /// A terminal status ends the request; `Processing` does not.
    pub open spec fn spec_is_terminal(self) -> bool {
        self != ConfigMessageStatus::Processing
    }

    pub fn is_terminal(&self) -> (r: bool)
        ensures
            r == self.spec_is_terminal(),
    {
        !matches!(self, ConfigMessageStatus::Processing)
    }
}

/// A (hostname, path-prefix) route to an application inside a worker.
#[derive(Debug, Clone, PartialEq, Eq, Hash)]
pub struct HttpFront {
    pub app_id: String,
    pub hostname: String,
    pub path_begin: String,
}

pub struct HttpFrontV {
    pub app_id: Seq<char>,
    pub hostname: Seq<char>,
    pub path_begin: Seq<char>,
}

impl View for HttpFront {
    type V = HttpFrontV;

    open spec fn view(&self) -> HttpFrontV {
        HttpFrontV { app_id: self.app_id@, hostname: self.hostname@, path_begin: self.path_begin@ }
    }
}

/// One backend instance of an application: where a worker forwards traffic.
#[derive(Debug, Clone, PartialEq, Eq, Hash)]
pub struct Instance {
    pub app_id: String,
    pub ip_address: String,
    pub port: u16,
}

pub struct InstanceV {
    pub app_id: Seq<char>,
    pub ip_address: Seq<char>,
    pub port: u16,
}

impl View for Instance {
    type V = InstanceV;

    open spec fn view(&self) -> InstanceV {
        InstanceV { app_id: self.app_id@, ip_address: self.ip_address@, port: self.port }
    }
}

/// A single routing-table mutation applied by a worker.
#[derive(Debug, Clone, PartialEq, Eq, Hash)]
pub enum Order {
    AddHttpFront(HttpFront),
    RemoveHttpFront(HttpFront),
    AddInstance(Instance),
    RemoveInstance(Instance),
    AddCertificate(String),
    RemoveCertificate(String),
    SoftStop,
    HardStop,
    Status,
}

pub enum OrderV {
    AddHttpFront(HttpFrontV),
    RemoveHttpFront(HttpFrontV),
    AddInstance(InstanceV),
    RemoveInstance(InstanceV),
    AddCertificate(Seq<char>),
    RemoveCertificate(Seq<char>),
    SoftStop,
    HardStop,
    Status,
}

impl View for Order {
    type V = OrderV;

    open spec fn view(&self) -> OrderV {
        match self {
            Order::AddHttpFront(f) => OrderV::AddHttpFront(f@),
            Order::RemoveHttpFront(f) => OrderV::RemoveHttpFront(f@),
            Order::AddInstance(i) => OrderV::AddInstance(i@),
            Order::RemoveInstance(i) => OrderV::RemoveInstance(i@),
            Order::AddCertificate(c) => OrderV::AddCertificate(c@),
            Order::RemoveCertificate(c) => OrderV::RemoveCertificate(c@),
            Order::SoftStop => OrderV::SoftStop,
            Order::HardStop => OrderV::HardStop,
            Order::Status => OrderV::Status,
        }
    }
}

/// One admin command, the payload of a [`ConfigMessage`].
#[derive(Debug, Clone, PartialEq, Eq, Hash)]
pub enum ConfigCommand {
    ProxyConfiguration(Order),
    SaveState(String),
    LoadState(String),
    DumpState,
    ListWorkers,
    LaunchWorker(String),
    UpgradeMaster,
}

pub enum ConfigCommandV {
    ProxyConfiguration(OrderV),
    SaveState(Seq<char>),
    LoadState(Seq<char>),
    DumpState,
    ListWorkers,
    LaunchWorker(Seq<char>),
    UpgradeMaster,
}

impl View for ConfigCommand {
    type V = ConfigCommandV;

    open spec fn view(&self) -> ConfigCommandV {
        match self {
            ConfigCommand::ProxyConfiguration(o) => ConfigCommandV::ProxyConfiguration(o@),
            ConfigCommand::SaveState(p) => ConfigCommandV::SaveState(p@),
            ConfigCommand::LoadState(p) => ConfigCommandV::LoadState(p@),
            ConfigCommand::DumpState => ConfigCommandV::DumpState,
            ConfigCommand::ListWorkers => ConfigCommandV::ListWorkers,
            ConfigCommand::LaunchWorker(t) => ConfigCommandV::LaunchWorker(t@),
            ConfigCommand::UpgradeMaster => ConfigCommandV::UpgradeMaster,
        }
    }
}

/// An admin request: an opaque correlation id, the protocol version, the
/// command, and optional listener-tag and worker-id filters.
#[derive(Debug, Clone, PartialEq, Eq, Hash)]
pub struct ConfigMessage {
    pub id: String,
    pub version: u8,
    pub data: ConfigCommand,
    pub proxy: Option<String>,
    pub proxy_id: Option<u32>,
}

pub struct ConfigMessageV {
    pub id: Seq<char>,
    pub version: u8,
    pub data: ConfigCommandV,
    pub proxy: Option<Seq<char>>,
    pub proxy_id: Option<u32>,
}

impl View for ConfigMessage {
    type V = ConfigMessageV;

    open spec fn view(&self) -> ConfigMessageV {
        ConfigMessageV {
            id: self.id@,
            version: self.version,
            data: self.data@,
            proxy: match self.proxy {
                Option::Some(p) => Option::Some(p@),
                Option::None => Option::None,
            },
            proxy_id: self.proxy_id,
        }
    }
}

impl ConfigMessage {
    /// A request under the current protocol version.
    pub fn new(id: String, data: ConfigCommand, proxy: Option<String>, proxy_id: Option<u32>) -> (
        r: ConfigMessage)
        ensures
            r@.id == id@,
            r@.version == crate::PROTOCOL_VERSION,
            r@.data == data@,
            r.proxy == proxy,
            r.proxy_id == proxy_id,
    {
        ConfigMessage { id, version: crate::PROTOCOL_VERSION, data, proxy, proxy_id }
    }
}

/// Per-worker description reported by `LIST_WORKERS`.
#[derive(Debug, Clone, PartialEq, Eq, Hash)]
pub struct WorkerInfo {
    pub id: u32,
    pub pid: i32,
    pub tag: String,
    pub proxy_type: ProxyType,
    pub run_state: RunState,
}

pub struct WorkerInfoV {
    pub id: u32,
    pub pid: i32,
    pub tag: Seq<char>,
    pub proxy_type: ProxyType,
    pub run_state: RunState,
}

impl View for WorkerInfo {
    type V = WorkerInfoV;

    open spec fn view(&self) -> WorkerInfoV {
        WorkerInfoV {
            id: self.id,
            pid: self.pid,
            tag: self.tag@,
            proxy_type: self.proxy_type,
            run_state: self.run_state,
        }
    }
}

/// Typed payload of an admin answer.
#[derive(Debug, Clone, PartialEq, Eq, Hash)]
pub enum AnswerData {
    Workers(Vec<WorkerInfo>),
}

pub enum AnswerDataV {
    Workers(Seq<WorkerInfoV>),
}

impl View for AnswerData {
    type V = AnswerDataV;

    open spec fn view(&self) -> AnswerDataV {
        match self {
            AnswerData::Workers(w) => AnswerDataV::Workers(Seq::new(w@.len(), |i: int| w@[i]@)),
        }
    }
}

/// An admin answer: the echoed request id, the version, a status, a human
/// message, and an optional typed payload.
#[derive(Debug, Clone, PartialEq, Eq, Hash)]
pub struct ConfigMessageAnswer {
    pub id: String,
    pub version: u8,
    pub status: ConfigMessageStatus,
    pub message: String,
    pub data: Option<AnswerData>,
}

pub struct ConfigMessageAnswerV {
    pub id: Seq<char>,
    pub version: u8,
    pub status: ConfigMessageStatus,
    pub message: Seq<char>,
    pub data: Option<AnswerDataV>,
}

impl View for ConfigMessageAnswer {
    type V = ConfigMessageAnswerV;

    open spec fn view(&self) -> ConfigMessageAnswerV {
        ConfigMessageAnswerV {
            id: self.id@,
            version: self.version,
            status: self.status,
            message: self.message@,
            data: match &self.data {
                Option::Some(d) => Option::Some(d@),
                Option::None => Option::None,
            },
        }
    }
}

impl ConfigMessageAnswer {
    /// An answer under the current protocol version.
    pub fn new(
        id: String,
        status: ConfigMessageStatus,
        message: String,
        data: Option<AnswerData>,
    ) -> (r: ConfigMessageAnswer)
        ensures
            r@.id == id@,
            r@.version == crate::PROTOCOL_VERSION,
            r@.status == status,
            r@.message == message@,
            r.data == data,
    {
        ConfigMessageAnswer { id, version: crate::PROTOCOL_VERSION, status, message, data }
    }
}

/// Why an admin request was rejected before reaching any worker.
#[derive(Debug, Clone, PartialEq, Eq)]
pub enum ProtocolError {
    /// The frame is not well-formed under the wire grammar.
    Decode,
    /// A required field is absent; carries the field name.
    MissingField(String),
    /// The `type` tag names no known command.
    UnrecognizedCommand,
    /// The `version` field differs from [`crate::PROTOCOL_VERSION`].
    BadVersion,
    /// A proxy kind tag names none of the known kinds.
    BadProxyKind,
}

pub enum ProtocolErrorV {
    Decode,
    MissingField(Seq<char>),
    UnrecognizedCommand,
    BadVersion,
    BadProxyKind,
}

impl View for ProtocolError {
    type V = ProtocolErrorV;

    open spec fn view(&self) -> ProtocolErrorV {
        match self {
            ProtocolError::Decode => ProtocolErrorV::Decode,
            ProtocolError::MissingField(f) => ProtocolErrorV::MissingField(f@),
            ProtocolError::UnrecognizedCommand => ProtocolErrorV::UnrecognizedCommand,
            ProtocolError::BadVersion => ProtocolErrorV::BadVersion,
            ProtocolError::BadProxyKind => ProtocolErrorV::BadProxyKind,
        }
    }
}

impl ProtocolError {
    pub open spec fn spec_describe(self) -> Seq<char> {
        match self@ {
            ProtocolErrorV::Decode => "could not decode the message"@,
            ProtocolErrorV::MissingField(f) => "missing field "@ + f,
            ProtocolErrorV::UnrecognizedCommand => "unrecognized command"@,
            ProtocolErrorV::BadVersion => "wrong protocol version"@,
            ProtocolErrorV::BadProxyKind => "expected HTTP, HTTPS or TCP proxy type"@,
        }
    }

    /// Human description used in `Error` answers.
    pub fn describe(&self) -> (r: String)
        ensures
            r@ == self.spec_describe(),
    {
        match self {
            ProtocolError::Decode => String::from_str("could not decode the message"),
            ProtocolError::MissingField(f) => String::from_str("missing field ").concat(
                f.as_str(),
            ),
            ProtocolError::UnrecognizedCommand => String::from_str("unrecognized command"),
            ProtocolError::BadVersion => String::from_str("wrong protocol version"),
            ProtocolError::BadProxyKind => String::from_str(
                "expected HTTP, HTTPS or TCP proxy type",
            ),
        }
    }
}

/// A worker's reply on its control channel: the correlation id of the order
/// it answers, a status, and a human message.
#[derive(Debug, Clone, PartialEq, Eq, Hash)]
pub struct ServerMessage {
    pub id: String,
    pub status: ConfigMessageStatus,
    pub message: String,
}

pub struct ServerMessageV {
    pub id: Seq<char>,
    pub status: ConfigMessageStatus,
    pub message: Seq<char>,
}

impl View for ServerMessage {
    type V = ServerMessageV;

    open spec fn view(&self) -> ServerMessageV {
        ServerMessageV { id: self.id@, status: self.status, message: self.message@ }
    }
}

/// Failures of the master process itself, beyond one connection's
/// protocol errors: a spawn that did not complete, a pending request past
/// its deadline, an aborted upgrade, or another OS error.
#[derive(Debug, Clone, Copy, PartialEq, Eq, Structural)]
pub enum MasterError {
    SpawnFailed,
    Timeout,
    UpgradeFailed,
    Io,
}

impl MasterError {
    pub open spec fn spec_describe(self) -> Seq<char> {
        match self {
            MasterError::SpawnFailed => "could not launch the worker"@,
            MasterError::Timeout => "timeout"@,
            MasterError::UpgradeFailed => "the upgrade was aborted"@,
            MasterError::Io => "input/output error"@,
        }
    }

    /// Human description used in `Error` answers.
    pub fn describe(&self) -> (r: String)
        ensures
            r@ == self.spec_describe(),
    {
        match self {
            MasterError::SpawnFailed => String::from_str("could not launch the worker"),
            MasterError::Timeout => String::from_str("timeout"),
            MasterError::UpgradeFailed => String::from_str("the upgrade was aborted"),
            MasterError::Io => String::from_str("input/output error"),
        }
    }
}

/// Errors surfaced by a framed channel.
#[derive(Debug, Clone, Copy, PartialEq, Eq, Structural)]
pub enum ChannelError {
    /// Appending the frame would push the write buffer beyond its hard max.
    BackPressure,
    /// No complete frame is buffered yet.
    WouldBlock,
    /// The peer closed its end.
    PeerClosed,
    /// A buffered frame is not a well-formed message.
    Decode,
}

} // verus!
