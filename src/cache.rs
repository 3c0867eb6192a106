//! The download cache: where an asset is kept, how a download is carried out, and how an
//! interrupted one resumes.
use vstd::prelude::*;
use crate::error::ErrorKind;
use crate::text::{chars_of, string_from, concat, starts_with, is_prefix, slice};
use crate::version::{Version, version_text, decimal, decimal_chars};

verus! {

/// How many times a download that times out is attempted in all.
pub const DOWNLOAD_ATTEMPTS: u64 = 3;

/// `a/b`.
pub open spec fn path_join(a: Seq<char>, b: Seq<char>) -> Seq<char> {
    a + seq!['/'] + b
}

/// `a/b`.
pub fn join_path(a: &str, b: &str) -> (r: String)
    ensures
        r@ == path_join(a@, b@),
{
    let slash: Vec<char> = vec!['/'];
    string_from(&concat(&concat(&chars_of(a), &slash), &chars_of(b)))
}

/// The text after the last `/` of `s`, if `s` holds one.
pub open spec fn after_last_slash(s: Seq<char>) -> Option<Seq<char>>
    decreases s.len(),
{
    if s.len() == 0 {
        None
    } else if s.last() == '/' {
        Some(Seq::empty())
    } else {
        match after_last_slash(s.drop_last()) {
            Some(t) => Some(t.push(s.last())),
            None => None,
        }
    }
}

/// The text after the last `/` of `s`.
fn last_segment(s: &Vec<char>) -> (r: Option<Vec<char>>)
    ensures
        match after_last_slash(s@) {
            Some(t) => r matches Some(v) && v@ == t,
            None => r is None,
        },
{
    let mut i: usize = s.len();
    assert(s@.subrange(0, s@.len() as int) =~= s@);
    proof {
        match after_last_slash(s@) {
            Some(t) => { assert(t + s@.subrange(s@.len() as int, s@.len() as int) =~= t); },
            None => {},
        }
    }
    while i > 0
        invariant
            i <= s@.len(),
            forall|k: int| i <= k < s@.len() ==> s@[k] != '/',
            after_last_slash(s@) == match after_last_slash(s@.subrange(0, i as int)) {
                Some(t) => Some(t + s@.subrange(i as int, s@.len() as int)),
                None => None,
            },
        decreases i,
    {
        if s[i - 1] == '/' {
            let r = slice(s, i, s.len());
            assert(s@.subrange(0, i as int).last() == '/');
            assert(Seq::<char>::empty() + s@.subrange(i as int, s@.len() as int) =~= r@);
            return Some(r);
        }
        proof {
            let pre = s@.subrange(0, i as int);
            assert(pre.drop_last() =~= s@.subrange(0, i - 1));
            match after_last_slash(s@.subrange(0, i - 1)) {
                Some(t) => {
                    assert(t.push(pre.last()) + s@.subrange(i as int, s@.len() as int)
                        =~= t + s@.subrange(i - 1, s@.len() as int));
                },
                None => {},
            }
        }
        i -= 1;
    }
    None
}

/// The download cache, rooted at `dir`.
#[derive(Debug)]
pub struct FileCache {
    dir: String,
}

impl View for FileCache {
    type V = Seq<char>;

    closed spec fn view(&self) -> Seq<char> {
        self.dir@
    }
}

/// Where the cache rooted at `dir` keeps the asset at `url` of `package` `version`:
/// `<dir>/<package>/<version>/<basename of url>`.
pub open spec fn cached_asset_path(dir: Seq<char>, package: Seq<char>, version: Version, url: Seq<char>) -> Option<Seq<char>> {
    match after_last_slash(url) {
        Some(name) => Some(path_join(path_join(path_join(dir, package), version_text(version)), name)),
        None => None,
    }
}

/// What a fetch does, given whether the complete file is already cached: whether it
/// downloads, and the path it hands back.
pub open spec fn fetch_outcome(dir: Seq<char>, package: Seq<char>, version: Version, url: Seq<char>, complete: bool) -> Option<(bool, Seq<char>)> {
    match cached_asset_path(dir, package, version, url) {
        Some(p) => Some((!complete, p)),
        None => None,
    }
}

/// Whether a step downloads, and its path.
pub open spec fn step_view(s: CacheStep) -> (bool, Seq<char>) {
    match s {
        CacheStep::UseCached { path } => (false, path@),
        CacheStep::Download { path } => (true, path@),
    }
}

/// What a fetch does: hand back the file already there, or download it to that path.
#[derive(Debug, PartialEq, Eq)]
pub enum CacheStep {
    UseCached { path: String },
    Download { path: String },
}

impl FileCache {
    pub fn new(dir: &str) -> (r: FileCache)
        ensures
            r@ == dir@,
    {
        FileCache { dir: dir.to_owned() }
    }

    /// `<dir>/<package>/<version>`.
    pub fn get_download_dir(&self, package_name: &str, version: &Version) -> (r: String)
        ensures
            r@ == path_join(path_join(self@, package_name@), version_text(*version)),
    {
        let p = join_path(self.dir.as_str(), package_name);
        let v = version.to_text();
        join_path(p.as_str(), v.as_str())
    }

    /// The path of the cached asset at `url`; `UnsupportedUrl` when the URL has no `/`.
    pub fn asset_path(&self, package_name: &str, version: &Version, url: &str) -> (r: Result<String, ErrorKind>)
        ensures
            match cached_asset_path(self@, package_name@, *version, url@) {
                Some(p) => r matches Ok(s) && s@ == p,
                None => r == Err::<String, ErrorKind>(ErrorKind::UnsupportedUrl),
            },
    {
        let name = match last_segment(&chars_of(url)) {
            Some(n) => n,
            None => {
                return Err(ErrorKind::UnsupportedUrl);
            },
        };
        let d = self.get_download_dir(package_name, version);
        let n = string_from(&name);
        Ok(join_path(d.as_str(), n.as_str()))
    }

    /// What fetching `url` does, given whether the complete file is already in the cache:
    /// a file already there is handed back without any download.
    pub fn download(&self, package_name: &str, version: &Version, url: &str, complete: bool) -> (r: Result<CacheStep, ErrorKind>)
        ensures
            match fetch_outcome(self@, package_name@, *version, url@, complete) {
                Some(o) => r matches Ok(step) && step_view(step) == o,
                None => r == Err::<CacheStep, ErrorKind>(ErrorKind::UnsupportedUrl),
            },
    {
        let path = self.asset_path(package_name, version, url)?;
        if complete {
            Ok(CacheStep::UseCached { path })
        } else {
            Ok(CacheStep::Download { path })
        }
    }
}

/// Two fetches with the same arguments hand back the same path, and once one has completed
/// the file, the next downloads nothing: at most one download completes.
pub proof fn lemma_cache_idempotent(dir: Seq<char>, package: Seq<char>, version: Version, url: Seq<char>, first_complete: bool)
    requires
        fetch_outcome(dir, package, version, url, first_complete) is Some,
    ensures
        fetch_outcome(dir, package, version, url, first_complete)
            == Some((!first_complete, cached_asset_path(dir, package, version, url)->0)),
        fetch_outcome(dir, package, version, url, true)
            == Some((false, cached_asset_path(dir, package, version, url)->0)),
{
}

/// How an asset is fetched.
#[derive(Debug, PartialEq, Eq)]
pub enum DownloadPlan {
    /// Over HTTP(S), into `partial_path`, renamed to the destination once complete.
    Http { partial_path: String },
    /// By copying the local file `source`.
    File { source: String },
}

/// `<dst>.partial`.
pub open spec fn partial_of(dst: Seq<char>) -> Seq<char> {
    dst + ".partial"@
}

/// How to fetch `url_str` into `dst_path`: `http://` and `https://` URLs through a partial
/// file, `file://` URLs by copying, any other scheme is `UnsupportedUrl`.
pub fn download(url_str: &str, dst_path: &str) -> (r: Result<DownloadPlan, ErrorKind>)
    ensures
        (is_prefix("http://"@, url_str@) || is_prefix("https://"@, url_str@))
            ==> (r matches Ok(DownloadPlan::Http { partial_path }) && partial_path@ == partial_of(dst_path@)),
        !(is_prefix("http://"@, url_str@) || is_prefix("https://"@, url_str@)) && is_prefix("file://"@, url_str@)
            ==> (r matches Ok(DownloadPlan::File { source }) && source@ == url_str@.subrange(7, url_str@.len() as int)),
        !(is_prefix("http://"@, url_str@) || is_prefix("https://"@, url_str@) || is_prefix("file://"@, url_str@))
            ==> r == Err::<DownloadPlan, ErrorKind>(ErrorKind::UnsupportedUrl),
{
    let u = chars_of(url_str);
    if starts_with(&u, &chars_of("http://")) || starts_with(&u, &chars_of("https://")) {
        let p = concat(&chars_of(dst_path), &chars_of(".partial"));
        Ok(DownloadPlan::Http { partial_path: string_from(&p) })
    } else if starts_with(&u, &chars_of("file://")) {
        let file_prefix = chars_of("file://");
        proof { reveal_strlit("file://"); }
        assert(file_prefix@.len() == 7);
        let s = slice(&u, 7, u.len());
        Ok(DownloadPlan::File { source: string_from(&s) })
    } else {
        Err(ErrorKind::UnsupportedUrl)
    }
}

/// The `Range` header value asking for the bytes from `partial_size` on: `bytes=<L>-`.
pub fn range_header(partial_size: u64) -> (r: String)
    ensures
        r@ == "bytes="@ + decimal(partial_size as nat) + "-"@,
{
    let t = concat(&concat(&chars_of("bytes="), &decimal_chars(partial_size)), &chars_of("-"));
    string_from(&t)
}

/// What to do with a partial file once the server has answered a range request.
#[derive(Debug, PartialEq, Eq, Clone, Copy, Structural)]
pub enum ResumeAction {
    /// Keep the partial file and append the body from this offset.
    Append { offset: u64 },
    /// Truncate the partial file before writing the body: the server sent all of it.
    Truncate,
}

/// HTTP status 200: the whole body.
pub const STATUS_OK: u16 = 200;

/// After asking for the bytes from `partial_size` on, the server answered `status`. A full
/// body (200) on a non-empty partial file truncates it first; otherwise the body is appended.
pub fn resume_action(partial_size: u64, status: u16) -> (r: ResumeAction)
    ensures
        (partial_size > 0 && status == STATUS_OK) ==> r == ResumeAction::Truncate,
        !(partial_size > 0 && status == STATUS_OK) ==> r == (ResumeAction::Append { offset: partial_size }),
{
    if partial_size > 0 && status == STATUS_OK {
        ResumeAction::Truncate
    } else {
        ResumeAction::Append { offset: partial_size }
    }
}

/// Whether attempt number `attempt` (from 1), which failed, is followed by another: only a
/// timeout is retried, and at most `DOWNLOAD_ATTEMPTS` attempts are made in all.
pub fn should_retry(attempt: u64, timed_out: bool) -> (r: bool)
    ensures
        r == (timed_out && attempt < DOWNLOAD_ATTEMPTS),
{
    timed_out && attempt < DOWNLOAD_ATTEMPTS
}

} // verus!
