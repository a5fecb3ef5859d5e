//! Error values of the library. Errors that come from the file system or from
//! a parser carry that error's message as text.
use crate::text;
use vstd::prelude::*;

verus! {

/// Errors of file operations (linking, copying).
#[derive(Debug)]
pub enum FileOpsError {
    SourceNotFound(String),
    DestinationExists(String),
    /// The path, then the message of the error.
    Io(String, String),
    BackupAlreadyExists(String),
}

/// Errors while reading or using configuration.
#[derive(Debug)]
pub enum ConfigError {
    DuplicateSource(String, String),
    /// The message of the error, then the path.
    Io(String, String),
    DeserializeToml(String, String),
    SerializeToml(String, String),
    DuplicateProfile(String, String),
    DeserializeDocumentToml(String, String),
    Render(String),
    InstallSourceNotFound(String),
    HermitConfigNotAction,
    TagNotFound(String),
}

/// Errors while applying configuration.
#[derive(Debug)]
pub enum ApplyError {
    ProfileNotFound(String),
    InstallSourceNotFound(String),
    UserAborted,
    Io(String),
    TagNotFound(String),
    ConfigLoad(ConfigError),
    SerdeJson(String),
}

/// Errors of link actions.
#[derive(Debug)]
pub enum LinkActionError {
    /// The message of the error, then the path.
    CreateParentDir(String, String),
    FileOps(FileOpsError),
}

/// Errors of install actions.
#[derive(Debug)]
pub enum InstallActionError {
    Render(String),
    CommandFailed(String, i32),
    CommandFailedLaunch(String, String),
    PreCommandFailedLaunch(String, String),
    PostCommandFailedLaunch(String, String),
}

/// Errors of patch actions.
#[derive(Debug)]
pub enum PatchActionError {
    Io(String),
    SerdeJson(String),
    Patch(String),
    YamlParse(String),
    TomlDeserialize(String),
    TomlSerialize(String),
    JsoncParse(String),
}

/// Errors of any action.
#[derive(Debug)]
pub enum ActionError {
    Link(LinkActionError),
    Install(InstallActionError),
    Patch(PatchActionError),
}


/// Errors while adding entries to the configuration.
#[derive(Debug)]
pub enum AddError {
    Io(String),
    FileOps(FileOpsError),
    ConfigLoad(ConfigError),
    InvalidChoice,
    SourceNotFound(String),
    ExpectedTable(String, String),
    ExpectedArray(String, String),
    ExpectedString(String, String),
    TomlSerialization(String),
    TomlDeserialization(String),
    TomlEditSerialization(String),
    TomlEditDeserialization(String),
    FileName,
    StripPrefix,
    SourceAlreadyExists(String),
    ConfigFileAlreadyExists(String),
    ConfigFileNotFound(String),
}

/// Errors while showing the status.
#[derive(Debug)]
pub enum StatusError {
    Config(ConfigError),
    Apply(ApplyError),
    SerdeJson(String),
    StdIo(String),
}

/// Any error of the library's operations.
#[derive(Debug)]
pub enum HermitGrabError {
    FileOps(FileOpsError),
    Config(ConfigError),
    Apply(ApplyError),
}


/// The message of a file operation error.
pub open spec fn file_ops_message(e: FileOpsError) -> Seq<char> {
    match e {
        FileOpsError::SourceNotFound(s) => "Source does not exist: "@ + s@,
        FileOpsError::DestinationExists(s) => "Destination is an existing file: "@ + s@,
        FileOpsError::Io(p, m) => p@ + ", IO error: "@ + m@,
        FileOpsError::BackupAlreadyExists(s) => "Failed to find a backup file name for "@ + s@,
    }
}

/// The message of a configuration error.
pub open spec fn config_message(e: ConfigError) -> Seq<char> {
    match e {
        ConfigError::DuplicateSource(k, p) => "Redeclaration of source: "@ + k@ + " found in file "@ + p@,
        ConfigError::Io(m, p) => "An error occurred while handling the configuration file "@ + p@ + ": "@ + m@,
        ConfigError::DeserializeToml(m, p) => "An error occurred while parsing the configuration file "@ + p@ + ": "@
            + m@,
        ConfigError::SerializeToml(m, p) => "An error occurred while serializing the configuration file "@ + p@
            + ": "@ + m@,
        ConfigError::DuplicateProfile(n, p) => "Duplicate profile found: "@ + n@ + " in file "@ + p@,
        ConfigError::DeserializeDocumentToml(m, p) => "Failed to deserialize document in TOML format: "@ + m@
            + " in file "@ + p@,
        ConfigError::Render(m) => m@,
        ConfigError::InstallSourceNotFound(s) => "Failed to find source: "@ + s@,
        ConfigError::HermitConfigNotAction => "Hermit configuration is not an action"@,
        ConfigError::TagNotFound(t) => "The tag "@ + t@ + " was not found in the configuration"@,
    }
}

/// The message of an error while applying.
pub open spec fn apply_message(e: ApplyError) -> Seq<char> {
    match e {
        ApplyError::ProfileNotFound(p) => "Profile not found: "@ + p@,
        ApplyError::InstallSourceNotFound(s) => "Install source not found: "@ + s@,
        ApplyError::UserAborted => "The user aborted the operation"@,
        ApplyError::Io(m) => m@,
        ApplyError::TagNotFound(t) => "Failed to find tag: "@ + t@,
        ApplyError::ConfigLoad(c) => config_message(c),
        ApplyError::SerdeJson(m) => m@,
    }
}

/// The message of an install action error.
pub open spec fn install_message(e: InstallActionError) -> Seq<char> {
    match e {
        InstallActionError::Render(m) => m@,
        InstallActionError::CommandFailed(c, code) => "Install command failed: "@ + c@ + " with exit code "@
            + text::int_text(code as int),
        InstallActionError::CommandFailedLaunch(c, m) => "Failed to launch install command: "@ + c@
            + " due to IO error: "@ + m@,
        InstallActionError::PreCommandFailedLaunch(c, m) => "Failed to launch pre-command: "@ + c@
            + " due to IO error: "@ + m@,
        InstallActionError::PostCommandFailedLaunch(c, m) => "Failed to launch post-command: "@ + c@
            + " due to IO error: "@ + m@,
    }
}

/// The message of a link action error.
pub open spec fn link_message(e: LinkActionError) -> Seq<char> {
    match e {
        LinkActionError::CreateParentDir(m, p) => "Failed to create parent directory for destination "@ + p@
            + " due to IO error: "@ + m@,
        LinkActionError::FileOps(f) => file_ops_message(f),
    }
}

/// The message of a patch action error: the message of what failed.
pub open spec fn patch_message(e: PatchActionError) -> Seq<char> {
    match e {
        PatchActionError::Io(m) => m@,
        PatchActionError::SerdeJson(m) => m@,
        PatchActionError::Patch(m) => m@,
        PatchActionError::YamlParse(m) => m@,
        PatchActionError::TomlDeserialize(m) => m@,
        PatchActionError::TomlSerialize(m) => m@,
        PatchActionError::JsoncParse(m) => m@,
    }
}

/// The message of an action error.
pub open spec fn action_message(e: ActionError) -> Seq<char> {
    match e {
        ActionError::Link(l) => link_message(l),
        ActionError::Install(i) => install_message(i),
        ActionError::Patch(p) => patch_message(p),
    }
}

/// Concatenation of three texts.
fn cat3(a: &str, b: &str, c: &str) -> (r: String)
    ensures
        r@ == a@ + b@ + c@,
{
    let mut r = text::concat(a, b);
    text::push_str(&mut r, c);
    r
}

/// Concatenation of four texts.
fn cat4(a: &str, b: &str, c: &str, d: &str) -> (r: String)
    ensures
        r@ == a@ + b@ + c@ + d@,
{
    let mut r = cat3(a, b, c);
    text::push_str(&mut r, d);
    r
}

impl FileOpsError {
    /// The message of the error.
    pub fn message(&self) -> (r: String)
        ensures
            r@ == file_ops_message(*self),
    {
        match self {
            FileOpsError::SourceNotFound(s) => text::concat("Source does not exist: ", s.as_str()),
            FileOpsError::DestinationExists(s) => text::concat("Destination is an existing file: ", s.as_str()),
            FileOpsError::Io(p, m) => cat3(p.as_str(), ", IO error: ", m.as_str()),
            FileOpsError::BackupAlreadyExists(s) => text::concat("Failed to find a backup file name for ", s.as_str()),
        }
    }
}

impl ConfigError {
    /// The message of the error.
    pub fn message(&self) -> (r: String)
        ensures
            r@ == config_message(*self),
    {
        match self {
            ConfigError::DuplicateSource(k, p) => cat4("Redeclaration of source: ", k.as_str(), " found in file ", p.as_str()),
            ConfigError::Io(m, p) => cat4(
                "An error occurred while handling the configuration file ",
                p.as_str(),
                ": ",
                m.as_str(),
            ),
            ConfigError::DeserializeToml(m, p) => cat4(
                "An error occurred while parsing the configuration file ",
                p.as_str(),
                ": ",
                m.as_str(),
            ),
            ConfigError::SerializeToml(m, p) => cat4(
                "An error occurred while serializing the configuration file ",
                p.as_str(),
                ": ",
                m.as_str(),
            ),
            ConfigError::DuplicateProfile(n, p) => cat4("Duplicate profile found: ", n.as_str(), " in file ", p.as_str()),
            ConfigError::DeserializeDocumentToml(m, p) => cat4(
                "Failed to deserialize document in TOML format: ",
                m.as_str(),
                " in file ",
                p.as_str(),
            ),
            ConfigError::Render(m) => m.clone(),
            ConfigError::InstallSourceNotFound(s) => text::concat("Failed to find source: ", s.as_str()),
            ConfigError::HermitConfigNotAction => text::owned("Hermit configuration is not an action"),
            ConfigError::TagNotFound(t) => cat3("The tag ", t.as_str(), " was not found in the configuration"),
        }
    }
}

impl ApplyError {
    /// The message of the error.
    pub fn message(&self) -> (r: String)
        ensures
            r@ == apply_message(*self),
    {
        match self {
            ApplyError::ProfileNotFound(p) => text::concat("Profile not found: ", p.as_str()),
            ApplyError::InstallSourceNotFound(s) => text::concat("Install source not found: ", s.as_str()),
            ApplyError::UserAborted => text::owned("The user aborted the operation"),
            ApplyError::Io(m) => m.clone(),
            ApplyError::TagNotFound(t) => text::concat("Failed to find tag: ", t.as_str()),
            ApplyError::ConfigLoad(c) => c.message(),
            ApplyError::SerdeJson(m) => m.clone(),
        }
    }
}

impl InstallActionError {
    /// The message of the error.
    pub fn message(&self) -> (r: String)
        ensures
            r@ == install_message(*self),
    {
        match self {
            InstallActionError::Render(m) => m.clone(),
            InstallActionError::CommandFailed(c, code) => {
                let n = text::i32_text(*code);
                cat4("Install command failed: ", c.as_str(), " with exit code ", n.as_str())
            },
            InstallActionError::CommandFailedLaunch(c, m) => cat4(
                "Failed to launch install command: ",
                c.as_str(),
                " due to IO error: ",
                m.as_str(),
            ),
            InstallActionError::PreCommandFailedLaunch(c, m) => cat4(
                "Failed to launch pre-command: ",
                c.as_str(),
                " due to IO error: ",
                m.as_str(),
            ),
            InstallActionError::PostCommandFailedLaunch(c, m) => cat4(
                "Failed to launch post-command: ",
                c.as_str(),
                " due to IO error: ",
                m.as_str(),
            ),
        }
    }
}

impl LinkActionError {
    /// The message of the error.
    pub fn message(&self) -> (r: String)
        ensures
            r@ == link_message(*self),
    {
        match self {
            LinkActionError::CreateParentDir(m, p) => cat4(
                "Failed to create parent directory for destination ",
                p.as_str(),
                " due to IO error: ",
                m.as_str(),
            ),
            LinkActionError::FileOps(f) => f.message(),
        }
    }
}

impl PatchActionError {
    /// The message of the error.
    pub fn message(&self) -> (r: String)
        ensures
            r@ == patch_message(*self),
    {
        match self {
            PatchActionError::Io(m) => m.clone(),
            PatchActionError::SerdeJson(m) => m.clone(),
            PatchActionError::Patch(m) => m.clone(),
            PatchActionError::YamlParse(m) => m.clone(),
            PatchActionError::TomlDeserialize(m) => m.clone(),
            PatchActionError::TomlSerialize(m) => m.clone(),
            PatchActionError::JsoncParse(m) => m.clone(),
        }
    }
}

impl ActionError {
    /// The message of the error.
    pub fn message(&self) -> (r: String)
        ensures
            r@ == action_message(*self),
    {
        match self {
            ActionError::Link(l) => l.message(),
            ActionError::Install(i) => i.message(),
            ActionError::Patch(p) => p.message(),
        }
    }
}


/// The message of an error while adding entries.
pub open spec fn add_message(e: AddError) -> Seq<char> {
    match e {
        AddError::Io(m) => m@,
        AddError::FileOps(f) => file_ops_message(f),
        AddError::ConfigLoad(c) => config_message(c),
        AddError::InvalidChoice => "Invalid choice"@,
        AddError::SourceNotFound(p) => "Failed to locate source: "@ + p@,
        AddError::ExpectedTable(k, f) => "Expected a table at key "@ + k@ + ", but found "@ + f@,
        AddError::ExpectedArray(k, f) => "Expected an array at key "@ + k@ + ", but found "@ + f@,
        AddError::ExpectedString(k, f) => "Expected a string at key "@ + k@ + ", but found "@ + f@,
        AddError::TomlSerialization(m) => m@,
        AddError::TomlDeserialization(m) => m@,
        AddError::TomlEditSerialization(m) => m@,
        AddError::TomlEditDeserialization(m) => m@,
        AddError::FileName => "Failed to get filename"@,
        AddError::StripPrefix => "Failed to strip prefix"@,
        AddError::SourceAlreadyExists(p) => "A source with the file "@ + p@ + " already exists"@,
        AddError::ConfigFileAlreadyExists(p) => "The configuration file "@ + p@ + " already exists"@,
        AddError::ConfigFileNotFound(p) => "The configuration file "@ + p@ + " does not exist"@,
    }
}

impl AddError {
    /// The message of the error.
    pub fn message(&self) -> (r: String)
        ensures
            r@ == add_message(*self),
    {
        match self {
            AddError::Io(m) => m.clone(),
            AddError::FileOps(f) => f.message(),
            AddError::ConfigLoad(c) => c.message(),
            AddError::InvalidChoice => text::owned("Invalid choice"),
            AddError::SourceNotFound(p) => text::concat("Failed to locate source: ", p.as_str()),
            AddError::ExpectedTable(k, f) => cat4("Expected a table at key ", k.as_str(), ", but found ", f.as_str()),
            AddError::ExpectedArray(k, f) => cat4("Expected an array at key ", k.as_str(), ", but found ", f.as_str()),
            AddError::ExpectedString(k, f) => cat4("Expected a string at key ", k.as_str(), ", but found ", f.as_str()),
            AddError::TomlSerialization(m) => m.clone(),
            AddError::TomlDeserialization(m) => m.clone(),
            AddError::TomlEditSerialization(m) => m.clone(),
            AddError::TomlEditDeserialization(m) => m.clone(),
            AddError::FileName => text::owned("Failed to get filename"),
            AddError::StripPrefix => text::owned("Failed to strip prefix"),
            AddError::SourceAlreadyExists(p) => cat3("A source with the file ", p.as_str(), " already exists"),
            AddError::ConfigFileAlreadyExists(p) => cat3("The configuration file ", p.as_str(), " already exists"),
            AddError::ConfigFileNotFound(p) => cat3("The configuration file ", p.as_str(), " does not exist"),
        }
    }
}

impl StatusError {
    /// The message of the error.
    pub fn message(&self) -> (r: String)
        ensures
            r@ == match *self {
                StatusError::Config(c) => config_message(c),
                StatusError::Apply(a) => apply_message(a),
                StatusError::SerdeJson(m) => m@,
                StatusError::StdIo(m) => m@,
            },
    {
        match self {
            StatusError::Config(c) => c.message(),
            StatusError::Apply(a) => a.message(),
            StatusError::SerdeJson(m) => m.clone(),
            StatusError::StdIo(m) => m.clone(),
        }
    }
}

impl HermitGrabError {
    /// The message of the error.
    pub fn message(&self) -> (r: String)
        ensures
            r@ == match *self {
                HermitGrabError::FileOps(f) => file_ops_message(f),
                HermitGrabError::Config(c) => config_message(c),
                HermitGrabError::Apply(a) => apply_message(a),
            },
    {
        match self {
            HermitGrabError::FileOps(f) => f.message(),
            HermitGrabError::Config(c) => c.message(),
            HermitGrabError::Apply(a) => a.message(),
        }
    }
}

} // verus!
