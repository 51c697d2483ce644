use s3_patterns::{
    chars_of, decompose, key_le_exec, sort_keys, ListRequest, ListingPage, ResolveError,
    Resolver, Step, DELIMITER,
};

fn strings(items: &[&str]) -> Vec<String> {
    items.iter().map(|s| s.to_string()).collect()
}

fn page(keys: &[&str], common_prefixes: &[&str], next_token: Option<&str>) -> ListingPage {
    ListingPage {
        keys: strings(keys),
        common_prefixes: strings(common_prefixes),
        next_token: next_token.map(|t| t.to_string()),
    }
}

/// Runs a resolution against canned listing answers, one per call in
/// order; `None` stands for a failed call. Returns the outcome and every
/// request that was made.
fn run(
    bucket: &str,
    patterns: &[&str],
    answers: Vec<Option<ListingPage>>,
) -> (Result<Vec<String>, ResolveError>, Vec<ListRequest>) {
    let (mut resolver, mut step) = Resolver::start(bucket.to_string(), strings(patterns));
    let mut requests = Vec::new();
    let mut answers = answers.into_iter();
    loop {
        match step {
            Step::List(request) => {
                requests.push(request);
                assert!(resolver.is_listing());
                step = match answers.next().expect("more listing calls than answers") {
                    Some(p) => resolver.on_page(p),
                    None => resolver.on_failure(),
                };
            }
            Step::Done(keys) => return (Ok(keys), requests),
            Step::Failed(e) => return (Err(e), requests),
        }
    }
}

#[test]
fn decompose_trailing_marker() {
    let d = decompose("logs/*").unwrap();
    assert_eq!(d.prefix, "logs/");
    assert_eq!(d.suffix, None);
}

#[test]
fn decompose_skips_two_characters_after_marker() {
    let d = decompose("logs/*/data.json").unwrap();
    assert_eq!(d.prefix, "logs/");
    assert_eq!(d.suffix, Some("data.json".to_string()));
}

#[test]
fn decompose_marker_followed_by_one_character() {
    let d = decompose("a*b").unwrap();
    assert_eq!(d.prefix, "a");
    assert_eq!(d.suffix, Some(String::new()));
}

#[test]
fn decompose_uses_first_marker() {
    let d = decompose("x/*/y/*/z").unwrap();
    assert_eq!(d.prefix, "x/");
    assert_eq!(d.suffix, Some("y/*/z".to_string()));
}

#[test]
fn decompose_without_marker() {
    assert!(decompose("logs/data.json").is_none());
    assert!(decompose("").is_none());
}

#[test]
fn decompose_non_ascii_prefix() {
    let d = decompose("données/*/é.json").unwrap();
    assert_eq!(d.prefix, "données/");
    assert_eq!(d.suffix, Some("é.json".to_string()));
}

#[test]
fn chars_of_splits_characters() {
    assert_eq!(chars_of("aé/"), vec!['a', 'é', '/']);
    assert!(chars_of("").is_empty());
}

#[test]
fn key_order_comparisons() {
    let v = |s: &str| chars_of(s);
    assert!(key_le_exec(&v("a"), &v("b")));
    assert!(!key_le_exec(&v("b"), &v("a")));
    assert!(key_le_exec(&v("ab"), &v("ab")));
    assert!(key_le_exec(&v("a"), &v("ab")));
    assert!(!key_le_exec(&v("ab"), &v("a")));
    assert!(key_le_exec(&v(""), &v("")));
    assert!(key_le_exec(&v("Z"), &v("a")));
}

#[test]
fn sort_keys_orders_and_keeps_duplicates() {
    let sorted = sort_keys(strings(&["b", "a", "ab", "a", ""]));
    assert_eq!(sorted, strings(&["", "a", "a", "ab", "b"]));
}

#[test]
fn sort_keys_agrees_with_string_order() {
    let keys = strings(&["é", "z", "Z", "ä", "logs/b", "logs/a/x", "logs/a", "日本", "e"]);
    let mut expected = keys.clone();
    expected.sort();
    assert_eq!(sort_keys(keys), expected);
}

#[test]
fn sort_keys_empty() {
    assert!(sort_keys(Vec::new()).is_empty());
}

#[test]
fn no_patterns_resolve_to_nothing() {
    let (result, requests) = run("bucket", &[], vec![]);
    assert_eq!(result.unwrap(), Vec::<String>::new());
    assert!(requests.is_empty());
}

#[test]
fn malformed_pattern_makes_no_call() {
    let (result, requests) = run("bucket", &["logs/data.json"], vec![]);
    assert_eq!(result.unwrap_err(), ResolveError::MalformedPattern);
    assert!(requests.is_empty());
}

#[test]
fn malformed_pattern_discards_earlier_results() {
    let (result, requests) = run(
        "bucket",
        &["a/*", "b/data.json"],
        vec![Some(page(&["a/1"], &[], None))],
    );
    assert_eq!(result.unwrap_err(), ResolveError::MalformedPattern);
    assert_eq!(requests.len(), 1);
    assert_eq!(requests[0].prefix, "a/");
}

#[test]
fn trailing_marker_lists_direct_keys_only() {
    let (result, requests) = run(
        "bucket",
        &["logs/*"],
        vec![Some(page(&["logs/x", "logs/y"], &["logs/a/", "logs/b/"], None))],
    );
    assert_eq!(result.unwrap(), strings(&["logs/x", "logs/y"]));
    assert_eq!(requests.len(), 1);
    assert_eq!(requests[0].prefix, "logs/");
    assert_eq!(requests[0].continuation_token, None);
}

#[test]
fn suffix_expands_common_prefixes() {
    let (result, _) = run(
        "bucket",
        &["logs/*/data.json"],
        vec![Some(page(&[], &["logs/a/", "logs/b/"], None))],
    );
    assert_eq!(result.unwrap(), strings(&["logs/a/data.json", "logs/b/data.json"]));
}

#[test]
fn suffix_keeps_direct_keys_too() {
    let (result, _) = run(
        "bucket",
        &["logs/*/data.json"],
        vec![Some(page(&["logs/top.json"], &["logs/a/"], None))],
    );
    assert_eq!(result.unwrap(), strings(&["logs/a/data.json", "logs/top.json"]));
}

#[test]
fn requests_carry_bucket_prefix_and_delimiter() {
    let (_, requests) = run("my-bucket", &["x/y*"], vec![Some(page(&[], &[], None))]);
    assert_eq!(requests.len(), 1);
    assert_eq!(requests[0].bucket, "my-bucket");
    assert_eq!(requests[0].prefix, "x/y");
    assert_eq!(requests[0].delimiter, '/');
    assert_eq!(DELIMITER, '/');
}

#[test]
fn pagination_follows_tokens() {
    let (result, requests) = run(
        "bucket",
        &["logs/*"],
        vec![
            Some(page(&["logs/c", "logs/a"], &[], Some("t1"))),
            Some(page(&["logs/e"], &[], Some("t2"))),
            Some(page(&["logs/b", "logs/d"], &[], None)),
        ],
    );
    assert_eq!(requests.len(), 3);
    assert_eq!(requests[0].continuation_token, None);
    assert_eq!(requests[1].continuation_token, Some("t1".to_string()));
    assert_eq!(requests[2].continuation_token, Some("t2".to_string()));
    assert!(requests.iter().all(|r| r.prefix == "logs/"));
    assert_eq!(result.unwrap(), strings(&["logs/a", "logs/b", "logs/c", "logs/d", "logs/e"]));
}

#[test]
fn two_patterns_merge_sorted_in_either_order() {
    let a = Some(page(&["x/2", "x/1"], &[], None));
    let b = Some(page(&["w/9", "w/3"], &[], None));
    let (first, _) = run("bucket", &["x/*", "w/*"], vec![a.clone(), b.clone()]);
    let (second, _) = run("bucket", &["w/*", "x/*"], vec![b, a]);
    let first = first.unwrap();
    assert_eq!(first, strings(&["w/3", "w/9", "x/1", "x/2"]));
    assert_eq!(second.unwrap(), first);
}

#[test]
fn overlapping_patterns_keep_duplicates() {
    let (result, _) = run(
        "bucket",
        &["logs/*", "logs/*"],
        vec![
            Some(page(&["logs/a", "logs/b"], &[], None)),
            Some(page(&["logs/a", "logs/b"], &[], None)),
        ],
    );
    assert_eq!(result.unwrap(), strings(&["logs/a", "logs/a", "logs/b", "logs/b"]));
}

#[test]
fn listing_failure_aborts_resolution() {
    let (result, requests) = run(
        "bucket",
        &["a/*", "b/*"],
        vec![
            Some(page(&["a/1"], &[], Some("t"))),
            None,
            Some(page(&["b/1"], &[], None)),
        ],
    );
    assert_eq!(result.unwrap_err(), ResolveError::ListingFailure);
    assert_eq!(requests.len(), 2);
}

#[test]
fn listing_failure_on_later_pattern() {
    let (result, requests) = run(
        "bucket",
        &["a/*", "b/*"],
        vec![Some(page(&["a/1"], &[], None)), None],
    );
    assert_eq!(result.unwrap_err(), ResolveError::ListingFailure);
    assert_eq!(requests.len(), 2);
    assert_eq!(requests[1].prefix, "b/");
}

#[test]
fn failure_drops_matched_keys() {
    let (mut resolver, _) = Resolver::start("bucket".to_string(), strings(&["a/*"]));
    let step = resolver.on_page(page(&["a/1", "a/2"], &[], Some("t")));
    assert!(matches!(step, Step::List(_)));
    assert_eq!(resolver.matched(), 2);
    let step = resolver.on_failure();
    assert!(matches!(step, Step::Failed(ResolveError::ListingFailure)));
    assert!(!resolver.is_listing());
    assert_eq!(resolver.matched(), 0);
}
