//! The data model: configured field values, the declaration of one process
//! as the configuration gives it, the validated process record, and the
//! errors of configuration.
use vstd::prelude::*;

verus! {

/// A field value as the configuration document holds it.
#[derive(Clone, Debug, PartialEq, Eq)]
pub enum FieldValue {
    Text(String),
    Integer(i64),
    /// A value of any other shape (a boolean, a table, an array, ...).
    Other,
}

/// The view of a `FieldValue`.
pub enum FieldModel {
    Text(Seq<char>),
    Integer(i64),
    Other,
}

impl View for FieldValue {
    type V = FieldModel;

    open spec fn view(&self) -> FieldModel {
        match self {
            FieldValue::Text(s) => FieldModel::Text(s@),
            FieldValue::Integer(i) => FieldModel::Integer(*i),
            FieldValue::Other => FieldModel::Other,
        }
    }
}

/// One process as declared: its name and its table of fields, in order.
#[derive(Clone, Debug, PartialEq, Eq)]
pub struct ProcessDecl {
    pub name: String,
    pub fields: Vec<(String, FieldValue)>,
}

/// The view of a `ProcessDecl`.
pub struct DeclModel {
    pub name: Seq<char>,
    pub fields: Seq<(Seq<char>, FieldModel)>,
}

/// The views of a declaration's fields.
pub open spec fn fields_view(f: Seq<(String, FieldValue)>) -> Seq<(Seq<char>, FieldModel)> {
    f.map_values(|e: (String, FieldValue)| (e.0@, e.1@))
}

impl View for ProcessDecl {
    type V = DeclModel;

    open spec fn view(&self) -> DeclModel {
        DeclModel { name: self.name@, fields: fields_view(self.fields@) }
    }
}

/// The views of a sequence of declarations.
pub open spec fn decls_view(ds: Seq<ProcessDecl>) -> Seq<DeclModel> {
    ds.map_values(|d: ProcessDecl| d@)
}

/// Where a child's output stream goes.
#[derive(Clone, Debug, PartialEq, Eq)]
pub enum StreamTarget {
    /// The null device.
    Discard,
    /// A file, created if missing and opened for appending.
    Append(String),
}

/// The view of a `StreamTarget`.
pub enum TargetModel {
    Discard,
    Append(Seq<char>),
}

impl View for StreamTarget {
    type V = TargetModel;

    open spec fn view(&self) -> TargetModel {
        match self {
            StreamTarget::Discard => TargetModel::Discard,
            StreamTarget::Append(p) => TargetModel::Append(p@),
        }
    }
}

/// The validated record of one managed process; immutable once built.
#[derive(Clone, Debug, PartialEq, Eq)]
pub struct Process {
    pub name: String,
    pub path: String,
    pub args: Vec<String>,
    /// Milliseconds to wait after an exit before the next launch.
    pub restart_delay: u64,
    pub cwd: Option<String>,
    pub stdout_target: StreamTarget,
    pub stderr_target: StreamTarget,
}

/// The view of a `Process`.
pub struct ProcessModel {
    pub name: Seq<char>,
    pub path: Seq<char>,
    pub args: Seq<Seq<char>>,
    pub restart_delay: u64,
    pub cwd: Option<Seq<char>>,
    pub stdout_target: TargetModel,
    pub stderr_target: TargetModel,
}

/// The view of an optional text.
pub open spec fn opt_view(o: Option<String>) -> Option<Seq<char>> {
    match o {
        Some(s) => Some(s@),
        None => None,
    }
}

impl View for Process {
    type V = ProcessModel;

    open spec fn view(&self) -> ProcessModel {
        ProcessModel {
            name: self.name@,
            path: self.path@,
            args: crate::args::strings_view(self.args@),
            restart_delay: self.restart_delay,
            cwd: opt_view(self.cwd),
            stdout_target: self.stdout_target@,
            stderr_target: self.stderr_target@,
        }
    }
}

/// The views of a sequence of records.
pub open spec fn processes_view(ps: Seq<Process>) -> Seq<ProcessModel> {
    ps.map_values(|p: Process| p@)
}

/// The fields of a process declaration that the supervisor reads.
#[derive(PartialEq, Eq, Structural, Clone, Copy, Debug)]
pub enum Field {
    Name,
    Path,
    Args,
    Cwd,
    RestartDelay,
    Stdout,
    Stderr,
}

/// What can go wrong before supervision starts. Every one is fatal.
#[derive(Clone, Debug, PartialEq, Eq)]
pub enum ConfigError {
    /// The configuration file does not exist.
    ConfigNotFound,
    /// The configuration file exists but could not be read.
    ConfigUnreadable,
    /// The document is not valid, or has no table of processes.
    ConfigMalformed,
    /// A process declaration lacks a field that must be given.
    MissingRequiredField { process: String, field: Field },
    /// A field is present with the wrong shape or an invalid value.
    MalformedField { process: String, field: Field },
    /// Two declarations share one name.
    DuplicateName { process: String },
}

/// The view of a `ConfigError`.
pub enum ErrorModel {
    ConfigNotFound,
    ConfigUnreadable,
    ConfigMalformed,
    MissingRequiredField { process: Seq<char>, field: Field },
    MalformedField { process: Seq<char>, field: Field },
    DuplicateName { process: Seq<char> },
}

impl View for ConfigError {
    type V = ErrorModel;

    open spec fn view(&self) -> ErrorModel {
        match self {
            ConfigError::ConfigNotFound => ErrorModel::ConfigNotFound,
            ConfigError::ConfigUnreadable => ErrorModel::ConfigUnreadable,
            ConfigError::ConfigMalformed => ErrorModel::ConfigMalformed,
            ConfigError::MissingRequiredField { process, field } => ErrorModel::MissingRequiredField {
                process: process@,
                field: *field,
            },
            ConfigError::MalformedField { process, field } => ErrorModel::MalformedField {
                process: process@,
                field: *field,
            },
            ConfigError::DuplicateName { process } => ErrorModel::DuplicateName { process: process@ },
        }
    }
}

} // verus!
