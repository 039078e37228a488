use counterfeit::config::CounterfeitConfig;
use counterfeit::config::CounterfeitRunOptions;

fn options(prefix: &str, postfix: &str, surround: Option<&str>) -> CounterfeitRunOptions {
    CounterfeitRunOptions {
        base_path: "./responses".to_string(),
        write: false,
        create_missing: true,
        silent: true,
        host: "127.0.0.1".to_string(),
        port: 3000,
        param_prefix: prefix.to_string(),
        param_postfix: postfix.to_string(),
        param_surround: surround.map(|marker| marker.to_string()),
        ignore_file_prefix: None,
    }
}

#[test]
fn prefix_and_postfix_are_taken_over() {
    let config = CounterfeitConfig::from(options("{", "}", None));
    assert_eq!(config.prefix, "{");
    assert_eq!(config.postfix, "}");
    assert_eq!(config.base_path, "./responses");
    assert!(!config.write);
    assert!(config.create_missing);
    assert!(config.silent);
}

#[test]
fn surround_overrides_prefix_and_postfix() {
    let config = CounterfeitConfig::from(options("{", "}", Some("__")));
    assert_eq!(config.prefix, "__");
    assert_eq!(config.postfix, "__");
}

#[test]
fn empty_surround_still_overrides() {
    let config: CounterfeitConfig = options("_", "_", Some("")).into();
    assert_eq!(config.prefix, "");
    assert_eq!(config.postfix, "");
}
