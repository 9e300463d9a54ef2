use http_engine::flags::{directory_of, name_of, parse_flags};

fn strings(args: &[&str]) -> Vec<String> {
    args.iter().map(|arg| arg.to_string()).collect()
}

#[test]
fn test_parse_flags() {
    let args = vec![
        "program_name".to_string(),
        "--key1".to_string(),
        "value1".to_string(),
        "--key2".to_string(),
        "value2".to_string(),
    ];
    let expected = vec![
        ("key1".to_string(), "value1".to_string()),
        ("key2".to_string(), "value2".to_string()),
    ];
    let flags = parse_flags(&args);
    assert_eq!(flags.len(), expected.len());
    for (key, value) in &expected {
        assert_eq!(flags.get(key), Some(value));
    }
}

#[test]
fn no_arguments_no_flags() {
    assert!(parse_flags(&[]).is_empty());
    assert!(parse_flags(&strings(&["program", "a", "b"])).is_empty());
}

#[test]
fn flag_in_the_last_place_is_left_out() {
    let flags = parse_flags(&strings(&["program", "--a", "1", "--b"]));
    assert_eq!(flags.len(), 1);
    assert_eq!(flags.get("a"), Some(&"1".to_string()));
    assert_eq!(flags.get("b"), None);
}

#[test]
fn value_that_is_a_flag_is_a_flag_too() {
    let flags = parse_flags(&strings(&["--a", "--b", "c"]));
    assert_eq!(flags.len(), 2);
    assert_eq!(flags.get("a"), Some(&"--b".to_string()));
    assert_eq!(flags.get("b"), Some(&"c".to_string()));
}

#[test]
fn later_flag_replaces_earlier_one() {
    let flags = parse_flags(&strings(&["--a", "1", "--a", "2"]));
    assert_eq!(flags.len(), 1);
    assert_eq!(flags.get("a"), Some(&"2".to_string()));
}

#[test]
fn every_leading_pair_of_hyphens_is_taken_off() {
    let flags = parse_flags(&strings(&["----a", "1", "-----b", "2", "--", "3", "-c", "4"]));
    assert_eq!(flags.len(), 3);
    assert_eq!(flags.get("a"), Some(&"1".to_string()));
    assert_eq!(flags.get("-b"), Some(&"2".to_string()));
    assert_eq!(flags.get(""), Some(&"3".to_string()));
    assert_eq!(flags.get("c"), None);
    assert_eq!(flags.get("-c"), None);
}

#[test]
fn name_of_a_flag() {
    let arg: Vec<char> = "--directory".chars().collect();
    let name: String = name_of(&arg).iter().collect();
    assert_eq!(name, "directory");
    let arg: Vec<char> = "plain".chars().collect();
    let name: String = name_of(&arg).iter().collect();
    assert_eq!(name, "plain");
    let arg: Vec<char> = "--a--b".chars().collect();
    let name: String = name_of(&arg).iter().collect();
    assert_eq!(name, "a--b");
}

#[test]
fn directory_defaults_to_public() {
    let flags = parse_flags(&strings(&["program"]));
    assert_eq!(directory_of(&flags), "public");
    let flags = parse_flags(&strings(&["program", "--other", "x"]));
    assert_eq!(directory_of(&flags), "public");
}

#[test]
fn directory_is_taken_from_its_flag() {
    let flags = parse_flags(&strings(&["program", "--directory", "/tmp/files"]));
    assert_eq!(directory_of(&flags), "/tmp/files");
}
