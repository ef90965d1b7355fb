//! The kinds of failure the registry reports.

use vstd::prelude::*;
use vstd::string::*;

verus! {

/// What a missing file was needed for.
#[derive(Clone, Copy, Debug, PartialEq, Eq, Structural)]
pub enum AssetRole {
    /// The module of a wasm plugin.
    Wasm,
    /// A colour theme file.
    ColorTheme,
    /// An icon theme file.
    IconTheme,
    /// An icon that an icon theme refers to.
    Icon,
}

/// Which credential a request failed to present.
#[derive(Clone, Copy, Debug, PartialEq, Eq, Structural)]
pub enum Credential {
    /// A bearer API token.
    Bearer,
    /// A session signed in to an account.
    Session,
}

/// What is wrong with a manifest.
#[derive(Clone, Copy, Debug, PartialEq, Eq, Structural)]
pub enum ManifestFault {
    /// The package has no manifest at its root.
    Missing,
    /// The manifest does not parse, or declares more than one kind of
    /// plugin.
    Invalid,
}

/// The two kinds of theme.
#[derive(Clone, Copy, Debug, PartialEq, Eq, Structural)]
pub enum ThemeKind {
    Color,
    Icon,
}

/// Why an operation was refused.
#[derive(Clone, Debug, PartialEq, Eq)]
pub enum Error {
    /// No valid session or bearer credential was presented.
    Unauthorized(Credential),
    /// The caller is known but does not own the resource.
    Forbidden,
    /// No such account, plugin or version.
    NotFound,
    /// The stored anti-forgery state differs from the one returned.
    StateMismatch,
    /// The upload is not a readable gzip-compressed tar archive.
    BadArchive,
    /// The package has no manifest at its root, or the manifest is none.
    BadManifest(ManifestFault),
    /// The manifest's version is not a semantic version.
    InvalidVersion,
    /// A file that the manifest or a theme refers to is not in the package.
    MissingAsset { role: AssetRole, path: String },
    /// The manifest lists themes of a kind and the list is empty.
    NoThemes(ThemeKind),
    /// An icon theme file does not parse as an icon theme.
    BadTheme { path: String },
    /// The manifest declares neither a module nor themes.
    NotAValidPlugin,
    /// A row with the same natural key is already there.
    Conflict,
    /// The store could not carry out the operation.
    Internal,
}

/// An [`Error`] as contracts see it.
pub enum ErrorView {
    Unauthorized(Credential),
    Forbidden,
    NotFound,
    StateMismatch,
    BadArchive,
    BadManifest(ManifestFault),
    InvalidVersion,
    MissingAsset { role: AssetRole, path: Seq<char> },
    NoThemes(ThemeKind),
    BadTheme { path: Seq<char> },
    NotAValidPlugin,
    Conflict,
    Internal,
}

impl View for Error {
    type V = ErrorView;

    open spec fn view(&self) -> ErrorView {
        match *self {
            Error::Unauthorized(c) => ErrorView::Unauthorized(c),
            Error::Forbidden => ErrorView::Forbidden,
            Error::NotFound => ErrorView::NotFound,
            Error::StateMismatch => ErrorView::StateMismatch,
            Error::BadArchive => ErrorView::BadArchive,
            Error::BadManifest(f) => ErrorView::BadManifest(f),
            Error::InvalidVersion => ErrorView::InvalidVersion,
            Error::MissingAsset { role, path } => ErrorView::MissingAsset { role, path: path@ },
            Error::NoThemes(k) => ErrorView::NoThemes(k),
            Error::BadTheme { path } => ErrorView::BadTheme { path: path@ },
            Error::NotAValidPlugin => ErrorView::NotAValidPlugin,
            Error::Conflict => ErrorView::Conflict,
            Error::Internal => ErrorView::Internal,
        }
    }
}

/// The HTTP status a failure is answered with.
pub open spec fn status_of(e: ErrorView) -> u16 {
    match e {
        ErrorView::Unauthorized(_) => 401,
        ErrorView::Forbidden => 403,
        ErrorView::NotFound => 404,
        ErrorView::Conflict => 409,
        ErrorView::Internal => 500,
        _ => 400,
    }
}

impl Error {
    /// The HTTP status this failure is answered with: 4xx for what the client
    /// got wrong, 500 for a failure of the store.
    pub fn status_code(&self) -> (r: u16)
        ensures
            r == status_of(self@),
            400 <= r < 600,
    {
        match self {
            Error::Unauthorized(_) => 401,
            Error::Forbidden => 403,
            Error::NotFound => 404,
            Error::Conflict => 409,
            Error::Internal => 500,
            _ => 400,
        }
    }
}


/// The words a role is called by in a message.
pub open spec fn role_words(role: AssetRole) -> Seq<char> {
    match role {
        AssetRole::Wasm => "wasm"@,
        AssetRole::ColorTheme => "color theme"@,
        AssetRole::IconTheme => "icon theme"@,
        AssetRole::Icon => "icon"@,
    }
}

/// The message a failure is answered with. The texts for a manifest are
/// kept letter for letter as clients have always seen them.
pub open spec fn message_of(e: ErrorView) -> Seq<char> {
    match e {
        ErrorView::Unauthorized(Credential::Bearer) => "API Token Invalid"@,
        ErrorView::Unauthorized(Credential::Session) => "unauthorized"@,
        ErrorView::Forbidden => "forbidden"@,
        ErrorView::NotFound => "not found"@,
        ErrorView::StateMismatch => "invalid state parameter"@,
        ErrorView::BadArchive => "archive isn't valid"@,
        ErrorView::BadManifest(ManifestFault::Missing) => "volt.toml doens't exist"@,
        ErrorView::BadManifest(ManifestFault::Invalid) => "volt.tmol format invalid"@,
        ErrorView::InvalidVersion => "version isn't valid"@,
        ErrorView::MissingAsset { role, path } => role_words(role) + " "@ + path + " not found"@,
        ErrorView::NoThemes(ThemeKind::Color) => "no color theme provided"@,
        ErrorView::NoThemes(ThemeKind::Icon) => "no icon theme provided"@,
        ErrorView::BadTheme { path } => "icon theme "@ + path + " format invalid"@,
        ErrorView::NotAValidPlugin => "not a valid plugin"@,
        ErrorView::Conflict => "conflict"@,
        ErrorView::Internal => "internal error"@,
    }
}

impl Error {
    /// The message this failure is answered with. A missing file is named
    /// with its role.
    pub fn message(&self) -> (r: String)
        ensures
            r@ == message_of(self@),
    {
        match self {
            Error::Unauthorized(Credential::Bearer) => "API Token Invalid".to_owned(),
            Error::Unauthorized(Credential::Session) => "unauthorized".to_owned(),
            Error::Forbidden => "forbidden".to_owned(),
            Error::NotFound => "not found".to_owned(),
            Error::StateMismatch => "invalid state parameter".to_owned(),
            Error::BadArchive => "archive isn't valid".to_owned(),
            Error::BadManifest(ManifestFault::Missing) => "volt.toml doens't exist".to_owned(),
            Error::BadManifest(ManifestFault::Invalid) => "volt.tmol format invalid".to_owned(),
            Error::InvalidVersion => "version isn't valid".to_owned(),
            Error::MissingAsset { role, path } => {
                let mut m = match role {
                    AssetRole::Wasm => "wasm".to_owned(),
                    AssetRole::ColorTheme => "color theme".to_owned(),
                    AssetRole::IconTheme => "icon theme".to_owned(),
                    AssetRole::Icon => "icon".to_owned(),
                };
                m.append(" ");
                m.append(path.as_str());
                m.append(" not found");
                m
            },
            Error::NoThemes(ThemeKind::Color) => "no color theme provided".to_owned(),
            Error::NoThemes(ThemeKind::Icon) => "no icon theme provided".to_owned(),
            Error::BadTheme { path } => {
                let mut m = "icon theme ".to_owned();
                m.append(path.as_str());
                m.append(" format invalid");
                m
            },
            Error::NotAValidPlugin => "not a valid plugin".to_owned(),
            Error::Conflict => "conflict".to_owned(),
            Error::Internal => "internal error".to_owned(),
        }
    }
}

} // verus!
