use statusline::git::{git_text, GitCache, GitOutput, GIT_TTL};

fn ok(text: &str) -> Option<GitOutput> {
    Some(GitOutput {
        success: true,
        stdout: text.as_bytes().to_vec(),
    })
}

fn failed(text: &str) -> Option<GitOutput> {
    Some(GitOutput {
        success: false,
        stdout: text.as_bytes().to_vec(),
    })
}

#[test]
fn starts_fresh() {
    let mut cache = GitCache::new(5);
    assert_eq!(cache.branch, "");
    assert_eq!(cache.dirty, 0);
    assert!(!cache.begin_refresh(5));
    assert!(!cache.begin_refresh(5 + GIT_TTL - 1));
    assert!(cache.begin_refresh(5 + GIT_TTL));
}

#[test]
fn refreshes_are_apart() {
    let mut cache = GitCache::new(0);
    let mut began = Vec::new();
    let mut now: u64 = 0;
    while now < 20_000_000_000 {
        if cache.begin_refresh(now) {
            began.push(now);
        }
        now += 700_000_000;
    }
    assert!(began.len() > 2);
    for pair in began.windows(2) {
        assert!(pair[1] - pair[0] >= GIT_TTL);
    }
    assert_eq!(began[0], 3_500_000_000);
}

#[test]
fn never_refreshed_is_due_and_an_earlier_time_is_not() {
    let mut cache = GitCache::new(10);
    assert!(!cache.begin_refresh(0));
    cache.last = None;
    assert!(cache.begin_refresh(0));
    assert_eq!(cache.last, Some(0));
}

#[test]
fn takes_in_what_git_printed() {
    let mut cache = GitCache::new(0);
    cache.finish_refresh(ok("main\n"), ok(" M a\n?? b\n\n"));
    assert_eq!(cache.branch, "main");
    assert_eq!(cache.dirty, 2);
    cache.finish_refresh(failed("fatal"), None);
    assert_eq!(cache.branch, "main");
    assert_eq!(cache.dirty, 2);
    cache.finish_refresh(None, ok(""));
    assert_eq!(cache.branch, "main");
    assert_eq!(cache.dirty, 0);
    cache.finish_refresh(ok("topic"), failed("x"));
    assert_eq!(cache.branch, "topic");
    assert_eq!(cache.last, Some(0));
}

#[test]
fn bytes_that_are_no_text_are_replaced() {
    let mut cache = GitCache::new(0);
    let output = GitOutput {
        success: true,
        stdout: vec![b'a', 0xff, b'b', b'\n'],
    };
    cache.finish_refresh(Some(output), None);
    assert_eq!(cache.branch, "a\u{fffd}b");
}

#[test]
fn pill_text() {
    assert_eq!(git_text("", 0), "git:none");
    assert_eq!(git_text("", 7), "git:none");
    assert_eq!(git_text("main", 0), "git:main");
    assert_eq!(git_text("main", 12), "git:main *12");
    assert_eq!(git_text("0123456789abcdefghij", 0), "git:0123456789abcdefghij");
    assert_eq!(git_text("0123456789abcdefghijk", 3), "git:0123456789abcdefghij");
    assert_eq!(git_text("0123456789abcdefg", 345), "git:0123456789abcdefg *3");
}
