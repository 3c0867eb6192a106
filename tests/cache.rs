use clyde::cache::{download, range_header, resume_action, should_retry, CacheStep, DownloadPlan, FileCache, ResumeAction};
use clyde::error::ErrorKind;
use clyde::version::Version;

#[test]
fn cache_layout_is_package_version_file() {
    let cache = FileCache::new("/h/download");
    let v = Version::new(1, 2, 0);
    assert_eq!(cache.get_download_dir("hello", &v), "/h/download/hello/1.2.0");
    assert_eq!(
        cache.asset_path("hello", &v, "https://example.com/rel/hello.tar.gz").unwrap(),
        "/h/download/hello/1.2.0/hello.tar.gz"
    );
    assert_eq!(cache.asset_path("hello", &v, "nothing"), Err(ErrorKind::UnsupportedUrl));
}

#[test]
fn second_fetch_uses_the_cached_file() {
    let cache = FileCache::new("/h/download");
    let v = Version::new(1, 2, 0);
    let url = "file:///tmp/hello.tar.gz";
    let first = cache.download("hello", &v, url, false).unwrap();
    let second = cache.download("hello", &v, url, true).unwrap();
    assert_eq!(first, CacheStep::Download { path: "/h/download/hello/1.2.0/hello.tar.gz".to_string() });
    assert_eq!(second, CacheStep::UseCached { path: "/h/download/hello/1.2.0/hello.tar.gz".to_string() });
}

#[test]
fn download_dispatches_on_the_scheme() {
    assert_eq!(
        download("https://example.com/a.zip", "/d/a.zip"),
        Ok(DownloadPlan::Http { partial_path: "/d/a.zip.partial".to_string() })
    );
    assert_eq!(
        download("http://example.com/a.zip", "/d/a.zip"),
        Ok(DownloadPlan::Http { partial_path: "/d/a.zip.partial".to_string() })
    );
    assert_eq!(
        download("file:///tmp/a.zip", "/d/a.zip"),
        Ok(DownloadPlan::File { source: "/tmp/a.zip".to_string() })
    );
    assert_eq!(download("ftp://example.com/a.zip", "/d/a.zip"), Err(ErrorKind::UnsupportedUrl));
}

#[test]
fn resume_asks_for_the_missing_bytes() {
    assert_eq!(range_header(0), "bytes=0-");
    assert_eq!(range_header(12345), "bytes=12345-");
    assert_eq!(resume_action(12345, 206), ResumeAction::Append { offset: 12345 });
    assert_eq!(resume_action(12345, 200), ResumeAction::Truncate);
    assert_eq!(resume_action(0, 200), ResumeAction::Append { offset: 0 });
}

#[test]
fn only_timeouts_are_retried_three_times_in_all() {
    assert!(should_retry(1, true));
    assert!(should_retry(2, true));
    assert!(!should_retry(3, true));
    assert!(!should_retry(1, false));
}
