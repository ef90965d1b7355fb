//! The publishing client: which request a command comes to, which token it
//! is made with, and the archive that publishes the plugin in a directory.

use crate::archive::{pack, tree_get, upload_of_tree, FileEntryView, FileTree};
use crate::error::{AssetRole, Credential, Error, ErrorView, ManifestFault};
use crate::manifest::{manifest_of, Manifest};
use crate::publish::{asset_at, manifest_path, plan_of, plan_release};
use crate::text::copy_bytes;
use vstd::prelude::*;
use vstd::string::*;

verus! {

/// Where the registry's API lives.
pub const REGISTRY_API: &'static str = "https://plugins.lapce.dev/api/v1/me/plugins/";

/// The label of the service under which the token is kept in the secret
/// store.
pub const KEYRING_SERVICE: &'static str = "lapce-volts";

/// The label of the account under which the token is kept in the secret
/// store.
pub const KEYRING_ACCOUNT: &'static str = "registry-api";

/// What the client is asked to do.
#[derive(Clone, Debug, PartialEq, Eq)]
pub enum Commands {
    /// Publish the plugin in the working directory.
    Publish,
    /// Yank a version.
    Yank { name: String, version: String },
    /// Undo the yanking of a version.
    Unyank { name: String, version: String },
}

/// The command line.
#[derive(Clone, Debug, PartialEq, Eq)]
pub struct Cli {
    pub command: Commands,
    /// The API token, where it was given on the command line.
    pub token: Option<String>,
}

/// An HTTP method the client uses.
#[derive(Clone, Copy, Debug, PartialEq, Eq, Structural)]
pub enum Method {
    Put,
    Post,
}

/// A request to the registry. A publish carries the archive as its body.
#[derive(Clone, Debug, PartialEq, Eq)]
pub struct Request {
    pub method: Method,
    pub url: String,
}

/// The URL a command is sent to.
pub open spec fn url_of(c: Commands) -> Seq<char> {
    match c {
        Commands::Publish => REGISTRY_API@ + "new"@,
        Commands::Yank { name, version } => REGISTRY_API@ + name@ + "/"@ + version@ + "/yank"@,
        Commands::Unyank { name, version } => REGISTRY_API@ + name@ + "/"@ + version@
            + "/unyank"@,
    }
}

/// The method a command is sent with: a publish is a `PUT`, the others are
/// a `POST`.
pub open spec fn method_of(c: Commands) -> Method {
    match c {
        Commands::Publish => Method::Put,
        _ => Method::Post,
    }
}

/// The request a command line comes to.
pub fn cli(args: &Cli) -> (r: Request)
    ensures
        r.url@ == url_of(args.command),
        r.method == method_of(args.command),
{
    let mut url = REGISTRY_API.to_owned();
    match &args.command {
        Commands::Publish => {
            url.append("new");
            Request { method: Method::Put, url }
        },
        Commands::Yank { name, version } => {
            url.append(name.as_str());
            url.append("/");
            url.append(version.as_str());
            url.append("/yank");
            Request { method: Method::Post, url }
        },
        Commands::Unyank { name, version } => {
            url.append(name.as_str());
            url.append("/");
            url.append(version.as_str());
            url.append("/unyank");
            Request { method: Method::Post, url }
        },
    }
}

/// Whether a character is white space, as Unicode defines it.
pub open spec fn is_white_space(c: char) -> bool {
    let n = c as u32;
    (0x09 <= n <= 0x0d) || n == 0x20 || n == 0x85 || n == 0xa0 || n == 0x1680 || (0x2000 <= n
        <= 0x200a) || n == 0x2028 || n == 0x2029 || n == 0x202f || n == 0x205f || n == 0x3000
}

/// A string without the white space it begins with.
pub open spec fn without_leading_space(s: Seq<char>) -> Seq<char>
    decreases s.len(),
{
    if s.len() > 0 && is_white_space(s[0]) {
        without_leading_space(s.drop_first())
    } else {
        s
    }
}

/// A string without the white space it ends with.
pub open spec fn without_trailing_space(s: Seq<char>) -> Seq<char>
    decreases s.len(),
{
    if s.len() > 0 && is_white_space(s.last()) {
        without_trailing_space(s.drop_last())
    } else {
        s
    }
}

/// A string without the white space at its ends.
pub open spec fn trimmed_of(s: Seq<char>) -> Seq<char> {
    without_trailing_space(without_leading_space(s))
}

/// Calls `str::trim`. Trusted: the result is `s` without the white space at
/// its ends, white space being the characters of Unicode's property
/// White_Space.
#[verifier::external_body]
fn trim(s: &str) -> (r: &str)
    ensures
        r@ == trimmed_of(s@),
{
    s.trim()
}

/// Where the client's token comes from.
#[derive(Clone, Debug, PartialEq, Eq)]
pub enum TokenChoice {
    /// This token is used.
    Use(String),
    /// There is none yet: the user is asked for one.
    Ask,
}

/// The token a command line was given or the secret store holds, or `Ask`
/// where there is neither. The one of the command line goes first.
pub fn auth_token(args: &Cli, stored: Option<&str>) -> (r: TokenChoice)
    ensures
        match (args.token, stored) {
            (Some(t), _) => r matches TokenChoice::Use(u) && u@ == t@,
            (None, Some(s)) => r matches TokenChoice::Use(u) && u@ == s@,
            (None, None) => r is Ask,
        },
{
    match (&args.token, stored) {
        (Some(t), _) => TokenChoice::Use(t.clone()),
        (None, Some(s)) => TokenChoice::Use(s.to_owned()),
        (None, None) => TokenChoice::Ask,
    }
}

/// The token in a line the user typed: the line without the white space at
/// its ends. An empty token is refused with `Unauthorized`.
pub fn typed_token(line: &str) -> (r: Result<String, Error>)
    ensures
        match r {
            Ok(t) => t@ == trimmed_of(line@) && t@.len() > 0,
            Err(e) => trimmed_of(line@).len() == 0 && e@ is Unauthorized,
        },
{
    let t = trim(line);
    if t.is_empty() {
        Err(Error::Unauthorized(Credential::Bearer))
    } else {
        Ok(t.to_owned())
    }
}

/// The credential a request carries: the token without the white space at
/// its ends.
pub fn bearer(token: &str) -> (r: String)
    ensures
        r@ == trimmed_of(token@),
{
    trim(token).to_owned()
}

/// The archive that publishes the plugin in a directory, or why there is
/// none: the manifest as it stands, the files it refers to, the readme and
/// the icon, and nothing else of the directory. Unlike the registry, the
/// client refuses a manifest whose icon is missing. The archive is handed
/// out only where it unpacks to these files again, so the registry reads
/// what the client packed.
pub open spec fn client_archive(tree: Seq<FileEntryView>) -> Result<Seq<u8>, ErrorView> {
    match tree_get(tree, manifest_path()) {
        None => Err(ErrorView::BadManifest(ManifestFault::Missing)),
        Some(text) => match manifest_of(text) {
            None => Err(ErrorView::BadManifest(ManifestFault::Invalid)),
            Some(m) => if crate::manifest::kinds_declared(m) > 1 {
                Err(ErrorView::BadManifest(ManifestFault::Invalid))
            } else {
                let plan = plan_of(tree, m, Seq::empty());
                match plan.outcome {
                    Err(e) => Err(e),
                    Ok(_) => if m.icon matches Some(i) && asset_at(tree, Seq::empty(), i) is None {
                        Err(ErrorView::MissingAsset { role: AssetRole::Icon, path: m.icon->Some_0 })
                    } else {
                        match upload_of_tree(crate::publish::packed_files(plan.staged, text)) {
                            Some(bytes) => Ok(bytes),
                            None => Err(ErrorView::Internal),
                        }
                    },
                }
            },
        },
    }
}

/// An archive, or why there is none, as contracts see it.
pub open spec fn archive_view(r: Result<Vec<u8>, Error>) -> Result<Seq<u8>, ErrorView> {
    match r {
        Ok(b) => Ok(b@),
        Err(e) => Err(e@),
    }
}

/// Builds the archive that publishes the plugin whose files are `tree`.
pub fn publish(tree: &FileTree) -> (r: Result<Vec<u8>, Error>)
    ensures
        archive_view(r) == client_archive(tree@),
{
    let path: Vec<u8> = vec![118u8, 111, 108, 116, 46, 116, 111, 109, 108];
    assert(path@ =~= manifest_path());
    let text = match tree.get(path.as_slice()) {
        Some(t) => copy_bytes(t.as_slice()),
        None => {
            return Err(Error::BadManifest(ManifestFault::Missing));
        },
    };
    let m = match Manifest::parse(text.as_slice()) {
        Some(m) => m,
        None => {
            return Err(Error::BadManifest(ManifestFault::Invalid));
        },
    };
    if m.kinds() > 1 {
        return Err(Error::BadManifest(ManifestFault::Invalid));
    }
    let plan = plan_release(tree, &m, "");
    proof {
        reveal_strlit("");
        assert(""@ =~= Seq::<char>::empty());
    }
    match plan.outcome {
        Err(e) => {
            return Err(e);
        },
        Ok(_) => {},
    }
    match &m.icon {
        Some(i) => {
            let root: Vec<Vec<u8>> = Vec::new();
            assert(crate::text::fields_view(root@) =~= Seq::<Seq<u8>>::empty());
            let found = match crate::paths::resolve_declared(&root, i.as_str().as_bytes()) {
                Some(p) => tree.get(p.as_slice()).is_some(),
                None => false,
            };
            if !found {
                return Err(Error::MissingAsset { role: AssetRole::Icon, path: i.clone() });
            }
        },
        None => {},
    }
    let mut files = plan.staged;
    files.put(path, text);
    pack(&files)
}

} // verus!
