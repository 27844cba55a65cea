//! The package that is deployed, and the options of one run.

use vstd::prelude::*;
use crate::path::parsed;
use crate::path::split;
use crate::path::split_text;
use crate::path::FsPath;
use crate::path::PathModel;
use crate::session::DeployError;

verus! {

/// The options of one run.
#[derive(Debug)]
pub struct Opt {
    /// Features to build with.
    pub features: Option<String>,
    /// Where the front-end package lies.
    pub npm_package: String,
    /// Command to run after the upload.
    pub post_command: Option<String>,
    /// Resource files, separated by commas.
    pub resource_files: Option<String>,
    /// Perform the initial setup on the server.
    pub preinstall: bool,
    /// Build the statically linked variant.
    pub musl: bool,
    /// Install into the isolated environment.
    pub fakechroot: bool,
    /// Do not build.
    pub no_build: bool,
    /// Login identity.
    pub login: String,
    /// Private key path; the public key lies beside it.
    pub keyfile: Option<String>,
    /// Server address.
    pub address: String,
}

/// The paths that a list of resource files names: one for each piece between
/// the commas; no list, no paths.
pub open spec fn resources_of(list: Option<Seq<char>>) -> Seq<PathModel> {
    match list {
        Some(text) => split_text(text, ',').map_values(|piece: Seq<char>| parsed(piece)),
        None => Seq::empty(),
    }
}

/// What `Path::with_extension` of the standard library makes of a path and
/// an extension, on the platform that the library is built for: the path with
/// the extension of its last segment replaced, or with the extension added
/// where that segment has none.
pub uninterp spec fn extension_replaced(path: Seq<char>, extension: Seq<char>) -> Seq<char>;

/// Whether no character of `text` separates the segments of a path, on any
/// platform.
pub open spec fn has_no_separator(text: Seq<char>) -> bool {
    forall|i: int| 0 <= i < text.len() ==> text[i] != '/' && text[i] != '\\'
}

/// Calls `Path::with_extension` of the standard library on the path that
/// `path` spells. That function panics on an extension that holds a path
/// separator, so none is admitted. The result depends on the two texts
/// alone; it is `extension_replaced` of them.
#[verifier::external_body]
fn replace_extension(path: &str, extension: &str) -> (r: String)
    requires
        has_no_separator(extension@),
    ensures
        r@ == extension_replaced(path@, extension@),
{
    std::path::Path::new(path).with_extension(extension).to_string_lossy().into_owned()
}

impl Opt {
    /// The key pair to log in with, public key first, where a private key is
    /// configured: the public key lies beside it, under the extension `pub`.
    pub fn keys(&self) -> (r: Option<(String, String)>)
        ensures
            match self.keyfile {
                Some(private) => r is Some && r->Some_0.0@ == extension_replaced(
                    private@,
                    "pub"@,
                ) && r->Some_0.1@ == private@,
                None => r is None,
            },
    {
        proof {
            reveal_strlit("pub");
            assert(has_no_separator("pub"@));
        }
        match &self.keyfile {
            Some(private) => Some((replace_extension(private.as_str(), "pub"), private.clone())),
            None => None,
        }
    }

    /// The resource files to upload, in the order of the list.
    pub fn resources(&self) -> (r: Vec<FsPath>)
        ensures
            r@.len() == resources_of(
                match self.resource_files {
                    Some(text) => Some(text@),
                    None => None,
                },
            ).len(),
            forall|i: int|
                0 <= i < r@.len() ==> (#[trigger] r@[i])@ == resources_of(
                    match self.resource_files {
                        Some(text) => Some(text@),
                        None => None,
                    },
                )[i],
    {
        let mut out: Vec<FsPath> = Vec::new();
        match &self.resource_files {
            None => {},
            Some(text) => {
                let pieces = split(text.as_str(), ',');
                let ghost all = split_text(text@, ',');
                let mut i: usize = 0;
                while i < pieces.len()
                    invariant
                        i <= pieces.len(),
                        pieces@.len() == all.len(),
                        forall|j: int| 0 <= j < all.len() ==> (#[trigger] pieces@[j])@ == all[j],
                        out@.len() == i,
                        forall|j: int| 0 <= j < i ==> (#[trigger] out@[j])@ == parsed(all[j]),
                    decreases pieces.len() - i,
                {
                    out.push(FsPath::parse(pieces[i].as_str()));
                    i += 1;
                }
            },
        }
        out
    }
}

/// The package that is deployed.
#[derive(Debug)]
pub struct CrateInfo {
    pub name: String,
}

/// The error of `cargo_toml`, carried through unread.
#[verifier::external_type_specification]
#[verifier::external_body]
pub struct ExManifestError(cargo_toml::Error);

/// What `cargo_toml` reads out of the text of a package descriptor: `None`
/// where it rejects the text, else the name of the package that the text
/// declares, if it declares one.
pub uninterp spec fn manifest_package(content: Seq<char>) -> Option<Option<Seq<char>>>;

/// Calls `cargo_toml::Manifest::from_str` and hands out the name of the
/// package section. Nothing is claimed of the parse but that it depends on
/// the text alone: it is `manifest_package` of the text.
#[verifier::external_body]
fn parse_manifest(content: &str) -> (r: Result<Option<String>, cargo_toml::Error>)
    ensures
        match r {
            Ok(Some(name)) => manifest_package(content@) == Some(Some(name@)),
            Ok(None) => manifest_package(content@) == Some(None::<Seq<char>>),
            Err(_) => manifest_package(content@) == None::<Option<Seq<char>>>,
        },
{
    cargo_toml::Manifest::from_str(content).map(|m| m.package.map(|p| p.name))
}

/// Where build artifacts lie: the configured directory where one is
/// configured, else the shared directory where it exists, else the local one.
pub open spec fn cargo_target_of(configured: Option<Seq<char>>, shared_exists: bool) -> Seq<char> {
    match configured {
        Some(dir) => dir,
        None => if shared_exists {
            "/opt/cargo/target"@
        } else {
            "./target"@
        },
    }
}

impl CrateInfo {
    /// The package that a parsed descriptor names: a descriptor that was
    /// rejected, or that declares no package, is a configuration error.
    pub fn from_manifest(parsed: Result<Option<String>, cargo_toml::Error>) -> (r: Result<
        CrateInfo,
        DeployError,
    >)
        ensures
            match parsed {
                Ok(Some(name)) => r is Ok && r->Ok_0.name@ == name@,
                _ => r == Err::<CrateInfo, DeployError>(DeployError::Configuration),
            },
    {
        match parsed {
            Ok(Some(name)) => Ok(CrateInfo { name }),
            _ => Err(DeployError::Configuration),
        }
    }

    /// Reads the package out of the text of its descriptor.
    pub fn load(content: &str) -> (r: Result<CrateInfo, DeployError>)
        ensures
            match manifest_package(content@) {
                Some(Some(name)) => r is Ok && r->Ok_0.name@ == name,
                _ => r == Err::<CrateInfo, DeployError>(DeployError::Configuration),
            },
    {
        CrateInfo::from_manifest(parse_manifest(content))
    }

    /// The name of the package.
    pub fn crate_name(&self) -> (r: &str)
        ensures
            r@ == self.name@,
    {
        self.name.as_str()
    }

    /// Where build artifacts lie, from the configured directory and from
    /// whether the shared directory exists.
    pub fn cargo_target(&self, configured: Option<String>, shared_exists: bool) -> (r: String)
        ensures
            r@ == cargo_target_of(
                match configured {
                    Some(dir) => Some(dir@),
                    None => None,
                },
                shared_exists,
            ),
    {
        match configured {
            Some(dir) => dir,
            None => if shared_exists {
                String::from_str("/opt/cargo/target")
            } else {
                String::from_str("./target")
            },
        }
    }
}

} // verus!
