use vstd::prelude::*;
use url::Url;
use crate::errors::DirectoryError;

verus! {

/// The `file` URL of `path`, as `Url::from_file_path` builds it on the
/// target that the library is compiled for; `None` where it builds none.
pub uninterp spec fn file_uri_of(path: Seq<char>) -> Option<Seq<char>>;

/// The path of the file that the `file` URL `uri` names, as
/// `Url::to_file_path` gives it on the target that the library is compiled
/// for; `None` where the text is no URL or names no file.
pub uninterp spec fn file_path_of(uri: Seq<char>) -> Option<Seq<char>>;

/// What an optional text holds.
pub open spec fn text_of(text: Option<String>) -> Option<Seq<char>> {
    match text {
        Some(held) => Some(held@),
        None => None,
    }
}

/// `Url::from_file_path`: the `file` URL of an absolute path, or nothing
/// where the path is not absolute.
#[verifier::external_body]
pub(crate) fn file_uri(path: &str) -> (uri: Option<String>)
    ensures
        text_of(uri) == file_uri_of(path@),
{
    Url::from_file_path(path).ok().map(|url| url.into())
}

/// `Url::parse`, then `Url::to_file_path`: the path of the file that a
/// `file` URL names, where that path is text.
#[verifier::external_body]
pub(crate) fn file_path(uri: &str) -> (path: Option<String>)
    ensures
        text_of(path) == file_path_of(uri@),
{
    Url::parse(uri).ok().and_then(|url| url.to_file_path().ok()).and_then(
        |path| path.into_os_string().into_string().ok(),
    )
}

/// The `file` URL that names the file at `path`.
pub fn get_url_from_path(path: &str) -> (url: Result<String, DirectoryError>)
    ensures
        match file_uri_of(path@) {
            Some(made) => url matches Ok(given) && given@ == made,
            None => url matches Err(DirectoryError::UrlFromPathFailed { path: given }) && given@
                == path@,
        },
{
    match file_uri(path) {
        Some(made) => Ok(made),
        None => Err(DirectoryError::UrlFromPathFailed { path: path.to_owned() }),
    }
}

/// The path of the file that the `file` URL `url` names.
pub fn get_path_from_url(url: &str) -> (path: Result<String, DirectoryError>)
    ensures
        match file_path_of(url@) {
            Some(named) => path matches Ok(given) && given@ == named,
            None => path matches Err(DirectoryError::PathFromUrlFailed { url: given }) && given@
                == url@,
        },
{
    match file_path(url) {
        Some(named) => Ok(named),
        None => Err(DirectoryError::PathFromUrlFailed { url: url.to_owned() }),
    }
}

} // verus!
