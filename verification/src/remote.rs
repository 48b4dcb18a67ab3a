//! Reads the hosting platform and the project's name off a remote URL.
//!
//! A remote is either a URL with a scheme (`https://host/owner/project.git`,
//! `ssh://git@host:22/owner/project`) or the short form that git accepts
//! (`git@host:owner/project.git`). The host is what stands between the
//! scheme and user, if any, and the first `:` or `/` behind them. The name
//! is the last piece of what follows the host, without a closing `/` and
//! without `.git`.

use crate::converter::{Repository, RepositoryPlatform, RepositoryView};
use crate::text::{
    after_last, cut, ends_with, find_after_last, find_first, first_at, is_suffix, same_text,
};
use vstd::prelude::*;

verus! {

/// The index behind the first `://` at or after `from`, or 0 when there is
/// none.
pub open spec fn scheme_end(url: Seq<char>, from: int) -> int
    decreases url.len() - from,
{
    if from < 0 || from + 3 > url.len() {
        0
    } else if url[from] == ':' && url[from + 1] == '/' && url[from + 2] == '/' {
        from + 3
    } else {
        scheme_end(url, from + 1)
    }
}

/// Where the part ahead of the path ends, which names user and host: at the first `/`
/// behind the scheme.
pub open spec fn authority_end(url: Seq<char>) -> int {
    first_at(url, '/', scheme_end(url, 0), url.len() as int)
}

/// Where the host starts: behind the scheme and behind the user, if any.
pub open spec fn host_start(url: Seq<char>) -> int {
    after_last(url, '@', scheme_end(url, 0), authority_end(url))
}

/// Where the host ends: at the first `:` behind its start, or where the
/// authority ends.
pub open spec fn host_end(url: Seq<char>) -> int {
    first_at(url, ':', host_start(url), authority_end(url))
}

/// The host that a remote URL names.
pub open spec fn host_of(url: Seq<char>) -> Seq<char> {
    url.subrange(host_start(url), host_end(url))
}

/// The platform that serves a host.
pub open spec fn platform_of(host: Seq<char>) -> RepositoryPlatform {
    if host == "github.com"@ {
        RepositoryPlatform::Github
    } else if host == "gitlab.com"@ {
        RepositoryPlatform::Gitlab
    } else if host == "bitbucket.org"@ {
        RepositoryPlatform::Bitbucket
    } else {
        RepositoryPlatform::Unknown
    }
}

/// `to`, moved back over every `/` that closes `from..to`.
pub open spec fn trimmed_end(url: Seq<char>, from: int, to: int) -> int
    decreases to - from,
{
    if to <= from {
        from
    } else if url[to - 1] != '/' {
        to
    } else {
        trimmed_end(url, from, to - 1)
    }
}

/// Where the last piece of the path ends.
pub open spec fn name_end(url: Seq<char>) -> int {
    trimmed_end(url, host_end(url), url.len() as int)
}

/// Where the last piece of the path starts: behind the last `/` or `:`
/// that follows the host.
pub open spec fn name_start(url: Seq<char>) -> int {
    let slash = after_last(url, '/', host_end(url), name_end(url));
    let colon = after_last(url, ':', host_end(url), name_end(url));
    if slash >= colon {
        slash
    } else {
        colon
    }
}

/// `piece` without the `.git` that it may end with.
pub open spec fn without_git(piece: Seq<char>) -> Seq<char> {
    if is_suffix(".git"@, piece) {
        piece.subrange(0, piece.len() - ".git"@.len())
    } else {
        piece
    }
}

/// The project's name that a remote URL gives, if it gives one.
pub open spec fn project_name(url: Seq<char>) -> Option<Seq<char>> {
    let stem = without_git(url.subrange(name_start(url), name_end(url)));
    if stem.len() == 0 {
        None
    } else {
        Some(stem)
    }
}

/// What a remote URL tells about the repository.
pub open spec fn repository_of(url: Seq<char>) -> RepositoryView {
    RepositoryView { url: url, platform: platform_of(host_of(url)), name: project_name(url) }
}

fn find_scheme_end(url: &str) -> (at: usize)
    ensures
        at == scheme_end(url@, 0),
        at <= url@.len(),
{
    let n = url.unicode_len();
    let mut i: usize = 0;
    while n >= 3 && i <= n - 3
        invariant
            n == url@.len(),
            i <= n,
            scheme_end(url@, 0) == scheme_end(url@, i as int),
        decreases n - i,
    {
        if url.get_char(i) == ':' && url.get_char(i + 1) == '/' && url.get_char(i + 2) == '/' {
            return i + 3;
        }
        i += 1;
    }
    0
}

fn find_trimmed_end(url: &str, from: usize, to: usize) -> (at: usize)
    requires
        from <= to <= url@.len(),
    ensures
        at == trimmed_end(url@, from as int, to as int),
        from <= at <= to,
{
    let mut i: usize = to;
    while i > from
        invariant
            from <= i <= to <= url@.len(),
            trimmed_end(url@, from as int, to as int) == trimmed_end(url@, from as int, i as int),
        decreases i - from,
    {
        if url.get_char(i - 1) != '/' {
            return i;
        }
        i -= 1;
    }
    i
}

/// Tells the platform by the host's name.
pub fn platform_for(host: &str) -> (platform: RepositoryPlatform)
    ensures
        platform == platform_of(host@),
{
    if same_text(host, "github.com") {
        RepositoryPlatform::Github
    } else if same_text(host, "gitlab.com") {
        RepositoryPlatform::Gitlab
    } else if same_text(host, "bitbucket.org") {
        RepositoryPlatform::Bitbucket
    } else {
        RepositoryPlatform::Unknown
    }
}

impl Repository {
    /// Describes the repository behind a remote URL: the URL itself, the
    /// platform that its host belongs to, and the project's name.
    pub fn new(url: String) -> (repository: Repository)
        ensures
            repository.deep_view() == repository_of(url@),
    {
        let text = url.as_str();
        let n = text.unicode_len();
        let scheme = find_scheme_end(text);
        let authority = find_first(text, '/', scheme, n);
        let start = find_after_last(text, '@', scheme, authority);
        let end = find_first(text, ':', start, authority);
        let host = cut(text, start, end);
        let platform = platform_for(host.as_str());

        let last = find_trimmed_end(text, end, n);
        let slash = find_after_last(text, '/', end, last);
        let colon = find_after_last(text, ':', end, last);
        let first = if slash >= colon {
            slash
        } else {
            colon
        };
        let piece = cut(text, first, last);
        let stem = if ends_with(piece.as_str(), ".git") {
            let whole = piece.as_str().unicode_len();
            let tail = ".git".unicode_len();
            cut(piece.as_str(), 0, whole - tail)
        } else {
            piece
        };
        let name = if stem.as_str().unicode_len() == 0 {
            None
        } else {
            Some(stem)
        };
        Repository { url, platform, name }
    }
}

} // verus!
