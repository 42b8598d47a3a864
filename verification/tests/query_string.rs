use blobstore_gateway::query::{parse_query_string, parse_usize};

#[test]
fn zero_query() {
    let q1 = "";

    let result = parse_query_string(q1);

    assert_eq!(result.len(), 0);
}

#[test]
fn no_equal_sign() {
    let q1 = "hello";

    let result = parse_query_string(q1);

    assert_eq!(result.len(), 0);
}

#[test]
fn no_equal_sign_mixed() {
    let q1 = "hello?name=file";

    let result = parse_query_string(q1);

    assert_eq!(result.len(), 1);

    assert_eq!(result.get("name").unwrap().as_str(), "file");
}

#[test]
fn one_query() {
    let q1 = "name=file.txt";

    let result = parse_query_string(q1);

    assert_eq!(result.get("name").unwrap().as_str(), "file.txt");
}

#[test]
fn two_queries() {
    let q1 = "name=file.txt?container=here_be_files";

    let result = parse_query_string(q1);

    assert_eq!(result.get("name").unwrap().as_str(), "file.txt");
    assert_eq!(result.get("container").unwrap().as_str(), "here_be_files");
}

#[test]
fn three_queries() {
    let q1 = "name=file.txt?container=here_be_files?options=read_only";

    let result = parse_query_string(q1);

    assert_eq!(result.get("name").unwrap().as_str(), "file.txt");
    assert_eq!(result.get("container").unwrap().as_str(), "here_be_files");
    assert_eq!(result.get("options").unwrap().as_str(), "read_only");
}

#[test]
fn ampersand_separator() {
    let result = parse_query_string("a=1&b=2&c=3");

    assert_eq!(result.len(), 3);
    assert_eq!(result.get("a").unwrap().as_str(), "1");
    assert_eq!(result.get("b").unwrap().as_str(), "2");
    assert_eq!(result.get("c").unwrap().as_str(), "3");
}

#[test]
fn mixed_separators() {
    let result = parse_query_string("a=1&b=2?c=3");

    assert_eq!(result.len(), 3);
    assert_eq!(result.get("a").unwrap().as_str(), "1");
    assert_eq!(result.get("b").unwrap().as_str(), "2");
    assert_eq!(result.get("c").unwrap().as_str(), "3");
}

#[test]
fn double_equals_pair_is_dropped() {
    let result = parse_query_string("a=1=2&b=2");

    assert_eq!(result.len(), 1);
    assert!(result.get("a").is_none());
    assert_eq!(result.get("b").unwrap().as_str(), "2");
}

#[test]
fn empty_key_and_empty_value_are_kept() {
    let result = parse_query_string("=v&k=");

    assert_eq!(result.len(), 2);
    assert_eq!(result.get("").unwrap().as_str(), "v");
    assert_eq!(result.get("k").unwrap().as_str(), "");
}

#[test]
fn duplicate_key_later_value_wins() {
    let result = parse_query_string("a=1&b=2&a=3");

    assert_eq!(result.len(), 2);
    assert_eq!(result.get("a").unwrap().as_str(), "3");
    assert_eq!(result.get("b").unwrap().as_str(), "2");
}

#[test]
fn missing_key_yields_nothing() {
    let result = parse_query_string("a=1");

    assert!(result.get("b").is_none());
}

#[test]
fn prefix_values_collects_suffix_renamed_keys() {
    let result = parse_query_string("container1=alpha&name=x&container2=beta");

    let containers = result.values_with_key_prefix("container");
    assert_eq!(containers.len(), 2);
    assert_eq!(containers[0].as_str(), "alpha");
    assert_eq!(containers[1].as_str(), "beta");

    let names = result.values_with_key_prefix("name");
    assert_eq!(names.len(), 1);
    assert_eq!(names[0].as_str(), "x");
}

#[test]
fn parse_usize_accepts_digits() {
    assert_eq!(parse_usize("50"), Some(50));
    assert_eq!(parse_usize("0"), Some(0));
    assert_eq!(parse_usize("262144"), Some(262144));
}

#[test]
fn parse_usize_rejects_junk() {
    assert_eq!(parse_usize(""), None);
    assert_eq!(parse_usize("abc"), None);
    assert_eq!(parse_usize("5x"), None);
    assert_eq!(parse_usize("-1"), None);
    assert_eq!(parse_usize("99999999999999999999999999"), None);
}
