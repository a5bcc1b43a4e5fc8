//! The user's settings: which libraries are synced, which hosts are asked, where files are kept.
use vstd::prelude::*;

use crate::text;

verus! {

/// The host that hands out reMarkable tokens.
pub const DEFAULT_REMARKABLE_AUTH_HOST: &'static str =
    "https://webapp-prod.cloud.remarkable.engineering";

/// The host that takes uploads for reMarkable tablets.
pub const DEFAULT_REMARKABLE_UPLOAD_HOST: &'static str = "https://internal.cloud.remarkable.com";

/// What a new config file holds.
pub const TEMPLATE: &'static str = "\
# Your numeric user ID and an API key with library read access,
# both from https://www.zotero.org/settings/keys
zotero_user_id = \"\"
zotero_api_key = \"\"

# Optional: numeric IDs of group libraries to sync too (the number in the
# group's URL, https://www.zotero.org/groups/<id>/<name>). The API key must
# have group read access enabled.
zotero_group_ids = []

# Optional: override reMarkable endpoints (for rmfakecloud, etc.).
# remarkable_auth_host = \"https://webapp-prod.cloud.remarkable.engineering\"
# remarkable_upload_host = \"https://internal.cloud.remarkable.com\"
";

/// The settings in the config file.
#[derive(Debug, PartialEq, Eq)]
pub struct Config {
    /// Numeric user ID shown at https://www.zotero.org/settings/keys
    pub zotero_user_id: String,
    /// API key with library read access
    pub zotero_api_key: String,
    /// Numeric IDs of group libraries to sync in addition to the personal
    /// library. The API key needs group read access for these.
    pub zotero_group_ids: Vec<String>,
    /// Optional: override the reMarkable auth host (for rmfakecloud, etc.).
    pub remarkable_auth_host: Option<String>,
    /// Optional: override the reMarkable upload host (for rmfakecloud, etc.).
    pub remarkable_upload_host: Option<String>,
}

/// The hosts of the reMarkable cloud.
#[derive(Debug, PartialEq, Eq)]
pub struct RemarkableEndpoints {
    pub auth_host: String,
    pub upload_host: String,
}

/// Why a config cannot be used.
#[derive(Debug, PartialEq, Eq, Clone, Copy)]
pub enum ConfigError {
    /// The user ID or the API key is not filled in.
    MissingCredentials,
}

/// What is done about the config file when the program is set up.
#[derive(Debug, PartialEq, Eq, Clone, Copy)]
pub enum InitStep {
    /// There is one: it is left alone.
    KeepExisting,
    /// There is none: this text is written to it.
    WriteTemplate(&'static str),
}

/// The API path prefix of a user's own library.
pub open spec fn user_prefix(id: Seq<char>) -> Seq<char> {
    "users/"@ + id
}

/// The API path prefix of a group library.
pub open spec fn group_prefix(id: Seq<char>) -> Seq<char> {
    "groups/"@ + id
}

/// The host that a setting asks for: the setting where it is more than blanks, else the default,
/// without slashes at the end.
pub open spec fn endpoint_of(value: Option<Seq<char>>, default: Seq<char>) -> Seq<char> {
    let host = match value {
        Some(v) => if text::trimmed(v).len() > 0 {
            text::trimmed(v)
        } else {
            default
        },
        None => default,
    };
    text::without_tails(host, "/"@)
}

/// The API path prefixes of all libraries to sync: the personal one first, then the groups.
pub open spec fn library_prefixes(config: Config) -> Seq<Seq<char>> {
    seq![user_prefix(config.zotero_user_id@)] + config.zotero_group_ids.deep_view().map_values(
        |id: Seq<char>| group_prefix(id),
    )
}

impl Config {
    /// API path prefixes of all libraries to sync ("users/…" and "groups/…").
    pub fn libraries(&self) -> (r: Vec<String>)
        ensures
            r.deep_view() == library_prefixes(*self),
    {
        let ghost ids = self.zotero_group_ids.deep_view();
        let ghost own = user_prefix(self.zotero_user_id@);
        let ghost want = seq![own] + ids.map_values(|id: Seq<char>| group_prefix(id));
        let mut out: Vec<String> = Vec::new();
        out.push(self.user_library());
        assert(out.deep_view() =~= want.take(1));
        let mut i: usize = 0;
        while i < self.zotero_group_ids.len()
            invariant
                i <= self.zotero_group_ids@.len(),
                ids == self.zotero_group_ids.deep_view(),
                want == seq![own] + ids.map_values(|id: Seq<char>| group_prefix(id)),
                out.deep_view() == want.take(i + 1),
            decreases self.zotero_group_ids@.len() - i,
        {
            let ghost before = out.deep_view();
            let library: String = "groups/".to_owned().concat(self.zotero_group_ids[i].as_str());
            out.push(library);
            assert(library@ == want[i + 1]);
            assert(out.deep_view() =~= before.push(library@));
            assert(out.deep_view() =~= want.take(i + 2));
            i += 1;
        }
        assert(want.take(i + 1) =~= want);
        out
    }

    /// The API path prefix of the user's own library.
    pub fn user_library(&self) -> (r: String)
        ensures
            r@ == user_prefix(self.zotero_user_id@),
    {
        "users/".to_owned().concat(self.zotero_user_id.as_str())
    }
}

/// The host that a setting asks for, without slashes at the end.
pub fn normalize_endpoint(value: Option<String>, default: &str) -> (r: String)
    ensures
        r@ == endpoint_of(value.deep_view(), default@),
{
    match value {
        Some(v) => {
            let host: String = text::trim(v.as_str());
            if host.as_str().is_empty() {
                text::trim_end_matches(default, "/")
            } else {
                text::trim_end_matches(host.as_str(), "/")
            }
        },
        None => text::trim_end_matches(default, "/"),
    }
}

/// The reMarkable hosts that a config asks for.
pub fn remarkable_endpoints(config: Config) -> (r: RemarkableEndpoints)
    ensures
        r.auth_host@ == endpoint_of(
            config.remarkable_auth_host.deep_view(),
            DEFAULT_REMARKABLE_AUTH_HOST@,
        ),
        r.upload_host@ == endpoint_of(
            config.remarkable_upload_host.deep_view(),
            DEFAULT_REMARKABLE_UPLOAD_HOST@,
        ),
{
    RemarkableEndpoints {
        auth_host: normalize_endpoint(config.remarkable_auth_host, DEFAULT_REMARKABLE_AUTH_HOST),
        upload_host: normalize_endpoint(
            config.remarkable_upload_host,
            DEFAULT_REMARKABLE_UPLOAD_HOST,
        ),
    }
}

/// Takes a config into use: it must name the user and hold a key.
pub fn load(config: Config) -> (r: Result<Config, ConfigError>)
    ensures
        r == if config.zotero_user_id@.len() == 0 || config.zotero_api_key@.len() == 0 {
            Err(ConfigError::MissingCredentials)
        } else {
            Ok(config)
        },
{
    if config.zotero_user_id.as_str().is_empty() || config.zotero_api_key.as_str().is_empty() {
        Err(ConfigError::MissingCredentials)
    } else {
        Ok(config)
    }
}

/// What is done about the config file, given whether there is one.
pub fn init(exists: bool) -> (r: InitStep)
    ensures
        exists ==> r == InitStep::KeepExisting,
        !exists ==> r == InitStep::WriteTemplate(TEMPLATE),
{
    if exists {
        InitStep::KeepExisting
    } else {
        InitStep::WriteTemplate(TEMPLATE)
    }
}

#[verifier::external_type_specification]
#[verifier::external_body]
pub struct ExPathBuf(std::path::PathBuf);

/// The pieces of a path as text, in order, each by its bytes: the root or drive that the path starts
/// with, where it has one, and then the names between its separators. A separator at the end adds no
/// piece. On Windows these are not always what `Path::components` gives: there a path such as
/// `\\server` is the start of a network prefix, and a name that is joined to it becomes part of that.
pub uninterp spec fn path_pieces(path: std::path::PathBuf) -> Seq<Seq<u8>>;

/// A name that is one piece of a path on every system.
pub open spec fn is_plain_name(name: Seq<char>) -> bool {
    &&& name.len() > 0
    &&& 'a' <= name[0] <= 'z'
    &&& forall|i: int|
        0 <= i < name.len() ==> 'a' <= #[trigger] name[i] <= 'z' || name[i] == '-' || name[i] == '.'
    &&& name.last() != '.'
}

/// `std::path::Path::join` with a plain name: the path with one piece more, the name itself.
#[verifier::external_body]
fn join_path(dir: &std::path::PathBuf, name: &str) -> (r: std::path::PathBuf)
    requires
        is_plain_name(name@),
    ensures
        path_pieces(r) == path_pieces(*dir).push(vstd::utf8::encode_utf8(name@)),
{
    dir.join(name)
}

/// The directory that holds the program's files, in the user's config directory.
pub fn config_dir(base: &std::path::PathBuf) -> (r: std::path::PathBuf)
    ensures
        path_pieces(r) == path_pieces(*base).push(vstd::utf8::encode_utf8("zoterable"@)),
{
    proof {
        reveal_strlit("zoterable");
    }
    join_path(base, "zoterable")
}

/// The config file, in the program's directory.
pub fn config_path(dir: &std::path::PathBuf) -> (r: std::path::PathBuf)
    ensures
        path_pieces(r) == path_pieces(*dir).push(vstd::utf8::encode_utf8("config.toml"@)),
{
    proof {
        reveal_strlit("config.toml");
    }
    join_path(dir, "config.toml")
}

/// The file with the tablet's device token, in the program's directory.
pub fn device_token_path(dir: &std::path::PathBuf) -> (r: std::path::PathBuf)
    ensures
        path_pieces(r) == path_pieces(*dir).push(
            vstd::utf8::encode_utf8("remarkable-device-token"@),
        ),
{
    proof {
        reveal_strlit("remarkable-device-token");
    }
    join_path(dir, "remarkable-device-token")
}

/// The file with the state of the last sync, in the program's directory.
pub fn state_path(dir: &std::path::PathBuf) -> (r: std::path::PathBuf)
    ensures
        path_pieces(r) == path_pieces(*dir).push(vstd::utf8::encode_utf8("state.json"@)),
{
    proof {
        reveal_strlit("state.json");
    }
    join_path(dir, "state.json")
}

/// No host ends in a slash, so a path can always be put after it.
pub proof fn endpoints_end_in_no_slash(value: Option<Seq<char>>, default: Seq<char>)
    ensures
        !text::ends_in(endpoint_of(value, default), "/"@),
{
    let host = match value {
        Some(v) => if text::trimmed(v).len() > 0 {
            text::trimmed(v)
        } else {
            default
        },
        None => default,
    };
    reveal_strlit("/");
    lemma_no_tail_left(host, "/"@);
}

proof fn lemma_no_tail_left(s: Seq<char>, tail: Seq<char>)
    requires
        tail.len() > 0,
    ensures
        !text::ends_in(text::without_tails(s, tail), tail),
    decreases s.len(),
{
    if text::ends_in(s, tail) {
        lemma_no_tail_left(s.take(s.len() - tail.len()), tail);
    }
}

} // verus!
