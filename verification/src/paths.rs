use vstd::prelude::*;

verus! {

/// A character that separates the components of a path on some platform.
pub open spec fn is_path_separator(c: char) -> bool {
    c == '/' || c == '\\'
}

/// A file name that `Path::join` appends as it stands: not empty, not `.` or
/// `..` (which std removes after a verbatim Windows prefix), and with
/// neither a separator nor a drive colon in it.
pub open spec fn is_plain_file_name(name: Seq<char>) -> bool {
    &&& name.len() > 0
    &&& name != seq!['.']
    &&& name != seq!['.', '.']
    &&& forall|i: int| 0 <= i < name.len() ==> !is_path_separator(#[trigger] name[i]) && name[i] != ':'
}

/// A path with a Windows verbatim prefix (`\\?\`).
pub open spec fn is_verbatim(p: Seq<char>) -> bool {
    p.len() >= 4 && p.take(4) == seq!['\\', '\\', '?', '\\']
}

/// `joined` is `base` with `name` appended: directly, or after one separator.
pub open spec fn appended_path(base: Seq<char>, name: Seq<char>, joined: Seq<char>) -> bool {
    ||| joined == base + name
    ||| exists|sep: char| is_path_separator(sep) && joined == base + seq![sep] + name
}

/// `s` ends with `suffix`.
pub open spec fn ends_with(s: Seq<char>, suffix: Seq<char>) -> bool {
    suffix.len() <= s.len() && s.skip(s.len() - suffix.len()) == suffix
}

/// What `join_path(base, name)` is known to give: the joined path always
/// ends with the name. Outside a verbatim Windows prefix it is the base with
/// the name appended: the name alone after an empty base; directly after a
/// base that ends in `/`; after one separator when the base ends in anything
/// but a separator or a drive colon; and otherwise (after `\` or `:`, which
/// are separators or drive colons on Windows only) directly or after one
/// separator.
pub open spec fn joins_to(base: Seq<char>, name: Seq<char>, joined: Seq<char>) -> bool {
    &&& ends_with(joined, name)
    &&& !is_verbatim(base) ==> {
        &&& appended_path(base, name, joined)
        &&& base.len() == 0 ==> joined == name
        &&& base.len() > 0 && base.last() == '/' ==> joined == base + name
        &&& base.len() > 0 && !is_path_separator(base.last()) && base.last() != ':' ==> exists|
            sep: char,
        | is_path_separator(sep) && joined == base + seq![sep] + name
    }
}

/// Joins the file name `name` onto the directory `base` with
/// `std::path::Path::join`, and gives the path back as text (it is valid
/// UTF-8, being made of two strings and a separator). std documents that
/// `join` extends the base with the name: a plain file name is appended,
/// after the platform's separator unless the base is empty, already ends in
/// a separator, or is a bare Windows drive such as `C:`. After a verbatim
/// Windows prefix (`\\?\`) std rebuilds the path with references to `.` and
/// `..` removed; a plain file name is neither, so it still comes last, and
/// of that case only that the result ends with the name is stated.
#[verifier::external_body]
pub(crate) fn join_path(base: &str, name: &str) -> (joined: String)
    requires
        is_plain_file_name(name@),
    ensures
        joins_to(base@, name@, joined@),
{
    std::path::Path::new(base).join(name).to_string_lossy().into_owned()
}

/// The user's configuration directory as `dirs::config_dir` finds it
/// (`$XDG_CONFIG_HOME` or `$HOME/.config` on Linux, the roaming application
/// data folder on Windows), as text; parts of a path that are not valid
/// Unicode come back replaced, as `to_string_lossy` does. The answer depends
/// on the environment, so nothing is stated of it.
#[verifier::external_body]
pub(crate) fn user_config_dir() -> (dir: Option<String>) {
    dirs::config_dir().map(|p| p.to_string_lossy().into_owned())
}

/// The name of the application's directory inside the configuration directory.
pub open spec fn app_dir_name() -> Seq<char> {
    seq!['t', 'u', 'b', 'e', 's', 'u', 'b']
}

/// `dir` is the application's directory: it ends with `tubesub`. (Joined
/// onto a base under a verbatim Windows prefix, that is all that std's
/// documentation settles of it.)
pub open spec fn is_app_dir(dir: Seq<char>) -> bool {
    ends_with(dir, app_dir_name())
}

/// The configuration directory could not be determined.
#[derive(Debug, Clone, Copy, PartialEq, Eq, Structural)]
pub enum ConfigError {
    NoConfigDir,
}

/// The application's own directory, `<config dir>/tubesub`, under the given
/// configuration directory, or the error when there is none.
pub fn app_dir_in(base: Option<String>) -> (r: Result<String, ConfigError>)
    ensures
        match base {
            None => r == Err::<String, ConfigError>(ConfigError::NoConfigDir),
            Some(b) => r matches Ok(d) && joins_to(b@, app_dir_name(), d@),
        },
{
    match base {
        None => Err(ConfigError::NoConfigDir),
        Some(b) => {
            let name = "tubesub";
            proof {
                reveal_strlit("tubesub");
                assert(name@ =~= app_dir_name());
            }
            Ok(join_path(b.as_str(), name))
        },
    }
}

/// The application's directory under the user's configuration directory.
pub fn app_dir() -> (r: Result<String, ConfigError>)
    ensures
        r matches Ok(d) ==> is_app_dir(d@),
{
    app_dir_in(user_config_dir())
}

/// Where the application keeps its files.
#[derive(Debug, Clone)]
pub struct AppConfig {
    pub config_dir: String,
}

impl AppConfig {
    /// The configuration rooted in the application's directory under the
    /// user's configuration directory. The directory itself is created by the
    /// caller, which owns the file system.
    pub fn new() -> (r: Result<AppConfig, ConfigError>)
        ensures
            r matches Ok(c) ==> is_app_dir(c.config_dir@),
    {
        match app_dir() {
            Ok(d) => Ok(AppConfig { config_dir: d }),
            Err(e) => Err(e),
        }
    }
}

/// The name of the file that holds the API credentials.
pub open spec fn credentials_file_name() -> Seq<char> {
    seq!['c', 'r', 'e', 'd', 'e', 'n', 't', 'i', 'a', 'l', 's', '.', 'j', 's', 'o', 'n']
}

impl AppConfig {
    /// The file in the application's directory that holds the credentials.
    pub fn credentials_path(&self) -> (p: String)
        ensures
            joins_to(self.config_dir@, credentials_file_name(), p@),
    {
        let name = "credentials.json";
        proof {
            reveal_strlit("credentials.json");
            assert(name@ =~= credentials_file_name());
        }
        join_path(self.config_dir.as_str(), name)
    }
}

/// A field that holds some text.
pub open spec fn is_filled(field: Option<String>) -> bool {
    field matches Some(v) && v@.len() > 0
}

/// The OAuth client credentials of the Google Cloud project.
#[derive(Debug, Clone)]
pub struct Credentials {
    pub client_id: Option<String>,
    pub client_secret: Option<String>,
}

impl Credentials {
    /// Credentials with both fields filled in, from what the user entered;
    /// `None` when either entry is empty.
    pub fn from_entries(client_id: String, client_secret: String) -> (r: Option<Credentials>)
        ensures
            r is Some <==> (client_id@.len() > 0 && client_secret@.len() > 0),
            r matches Some(c) ==> c.client_id == Some(client_id) && c.client_secret == Some(
                client_secret,
            ),
    {
        if client_id.as_str().is_empty() || client_secret.as_str().is_empty() {
            None
        } else {
            Some(Credentials { client_id: Some(client_id), client_secret: Some(client_secret) })
        }
    }

    /// Whether both the client ID and the client secret are there.
    pub fn has_valid_credentials(&self) -> (b: bool)
        ensures
            b == (is_filled(self.client_id) && is_filled(self.client_secret)),
    {
        let id_ok = match &self.client_id {
            Some(v) => !v.as_str().is_empty(),
            None => false,
        };
        let secret_ok = match &self.client_secret {
            Some(v) => !v.as_str().is_empty(),
            None => false,
        };
        id_ok && secret_ok
    }
}

} // verus!
