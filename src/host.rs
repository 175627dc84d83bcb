use vstd::prelude::*;

use crate::designator::{index_of, is_owner_and_name, sep, PackageDesignator, PATH_SEPARATOR};

verus! {

/// Host token of the GitHub adapter.
pub const GITHUB_HOST: &'static str = "github.com";

/// Base URL of repository pages on GitHub.
pub const GITHUB_BASE_URL: &'static str = "https://github.com";

/// Base URL of the GitHub API.
pub const GITHUB_API_BASE_URL: &'static str = "https://api.github.com";

/// User agent sent with every request to GitHub.
pub const USER_AGENT: &'static str = "mmmpm";

/// The git reference fetched when none is given.
pub const GIT_DEFAULT_REF: &'static str = "master";

/// An archive retrieved from a package host.
#[derive(Debug)]
pub enum Archive {
    Zip(Vec<u8>),
}

/// Failures of a package host.
#[derive(Debug, Clone, PartialEq, Eq)]
pub enum HostOperationError {
    /// The host could not be reached; holds the URL tried.
    CannotConnectToHost(String),
    /// The host answered that there is no such package.
    PackageNotFound,
    /// The host answered with something that is not a package.
    InvalidPackage,
    /// Any other failure.
    UnknownError,
}

/// What a package host can do: check that a package exists, and fetch it.
pub trait PackageHost {
    /// Whether the package exists on the host.
    fn has_package(&self) -> Result<bool, HostOperationError>;

    /// The package's contents as one archive.
    fn retrieve(&self) -> Result<Archive, HostOperationError>;
}

/// A host for which no adapter exists: it holds no package.
pub struct NotImplementedHost();

impl PackageHost for NotImplementedHost {
    fn has_package(&self) -> Result<bool, HostOperationError> {
        Ok(false)
    }

    fn retrieve(&self) -> Result<Archive, HostOperationError> {
        Err(HostOperationError::PackageNotFound)
    }
}

/// How an HTTP request ended, as the transport reports it.
#[derive(Debug, Clone, Copy, PartialEq, Eq, Structural)]
pub enum HttpOutcome {
    /// The server answered with this status code.
    Status(u16),
    /// No connection could be made.
    ConnectFailed,
    /// The request failed in another way.
    OtherFailure,
}

/// The host error that an HTTP outcome of a request to `url` means, if any:
/// client and server error statuses fail, 404 meaning that the package does
/// not exist, and a failed connection names the URL.
pub open spec fn outcome_error(url: String, outcome: HttpOutcome) -> Option<HostOperationError> {
    match outcome {
        HttpOutcome::Status(s) => if 400 <= s < 600 {
            if s == 404 {
                Some(HostOperationError::PackageNotFound)
            } else {
                Some(HostOperationError::UnknownError)
            }
        } else {
            None
        },
        HttpOutcome::ConnectFailed => Some(HostOperationError::CannotConnectToHost(url)),
        HttpOutcome::OtherFailure => Some(HostOperationError::UnknownError),
    }
}

/// Maps the outcome of a request to `url` to a host error, if it is one.
pub fn response_error(url: &String, outcome: HttpOutcome) -> (r: Option<HostOperationError>)
    ensures
        r == outcome_error(*url, outcome),
{
    match outcome {
        HttpOutcome::Status(s) => {
            if 400 <= s && s < 600 {
                if s == 404 {
                    Some(HostOperationError::PackageNotFound)
                } else {
                    Some(HostOperationError::UnknownError)
                }
            } else {
                None
            }
        },
        HttpOutcome::ConnectFailed => Some(HostOperationError::CannotConnectToHost(url.clone())),
        HttpOutcome::OtherFailure => Some(HostOperationError::UnknownError),
    }
}

/// A repository on GitHub, at a git reference.
#[derive(Debug)]
pub struct GithubRepository {
    user: String,
    name: String,
    git_ref: String,
}

pub open spec fn slash() -> Seq<char> {
    sep()
}

impl GithubRepository {
    pub closed spec fn user(&self) -> Seq<char> {
        self.user@
    }

    pub closed spec fn name(&self) -> Seq<char> {
        self.name@
    }

    pub closed spec fn git_ref(&self) -> Seq<char> {
        self.git_ref@
    }

    /// The repository `user/name`, at `git_ref` or else at the default reference.
    pub fn new(user: String, name: String, git_ref: Option<String>) -> (r: GithubRepository)
        ensures
            r.user() == user@,
            r.name() == name@,
            r.git_ref() == match git_ref {
                Some(g) => g@,
                None => GIT_DEFAULT_REF@,
            },
    {
        GithubRepository {
            user,
            name,
            git_ref: match git_ref {
                Some(g) => g,
                None => String::from_str(GIT_DEFAULT_REF),
            },
        }
    }

    /// The URL of the repository's page, whose presence tells that it exists.
    pub fn page_url(&self) -> (r: String)
        ensures
            r@ == GITHUB_BASE_URL@ + slash() + self.user() + slash() + self.name(),
    {
        proof {
            reveal_strlit("/");
            assert("/"@ =~= slash());
        }
        let mut r = String::from_str(GITHUB_BASE_URL);
        r.append("/");
        r.append(self.user.as_str());
        r.append("/");
        r.append(self.name.as_str());
        r
    }

    /// The URL of the zip archive of the repository at its reference.
    pub fn archive_url(&self) -> (r: String)
        ensures
            r@ == GITHUB_API_BASE_URL@ + "/repos/"@ + self.user() + slash() + self.name()
                + "/zipball/"@ + self.git_ref(),
    {
        proof {
            reveal_strlit("/");
            assert("/"@ =~= slash());
        }
        let mut r = String::from_str(GITHUB_API_BASE_URL);
        r.append("/repos/");
        r.append(self.user.as_str());
        r.append("/");
        r.append(self.name.as_str());
        r.append("/zipball/");
        r.append(self.git_ref.as_str());
        r
    }
}

/// Whether a designator names a repository of a host that has an adapter:
/// a remote designator of `github.com` whose path is `owner/name`.
pub open spec fn has_adapter(d: crate::designator::DesignatorView) -> bool {
    match d {
        crate::designator::DesignatorView::Remote { host, path } => host == GITHUB_HOST@
            && is_owner_and_name(path),
        _ => false,
    }
}

/// The repository that a designator names on a host with an adapter; the
/// single place where host tokens are matched to adapters.
pub fn host_for(dsn: &PackageDesignator) -> (r: Option<GithubRepository>)
    ensures
        r is Some <==> has_adapter(dsn@),
        r matches Some(repo) ==> (dsn@ matches crate::designator::DesignatorView::Remote {
            host,
            path,
        } && repo.user() == path.subrange(0, index_of(path, PATH_SEPARATOR)) && repo.name()
            == path.subrange(index_of(path, PATH_SEPARATOR) + 1, path.len() as int)
            && repo.git_ref() == GIT_DEFAULT_REF@),
{
    match dsn {
        PackageDesignator::Remote { host, path } => {
            let github = String::from_str(GITHUB_HOST);
            if *host != github {
                return None;
            }
            match crate::designator::split_owner_and_name(path.as_str()) {
                Some((owner, name)) => Some(GithubRepository::new(owner, name, None)),
                None => None,
            }
        },
        _ => None,
    }
}

} // verus!
