use hotshot_logging::log_target::{log_destination, split_log_file_path, LogDestination};

fn pair(a: &str, b: &str) -> (String, String) {
    (a.to_string(), b.to_string())
}

#[test]
fn path_is_cut_at_last_slash() {
    assert_eq!(split_log_file_path("logs/app.log"), pair("logs/", "app.log"));
    assert_eq!(split_log_file_path("/var/log/hotshot/node.log"), pair("/var/log/hotshot/", "node.log"));
    assert_eq!(split_log_file_path("./hotshot.log"), pair("./", "hotshot.log"));
    assert_eq!(split_log_file_path("/x"), pair("/", "x"));
    assert_eq!(split_log_file_path("dir/"), pair("dir/", ""));
    assert_eq!(split_log_file_path("/"), pair("/", ""));
    assert_eq!(split_log_file_path("a//b"), pair("a//", "b"));
}

#[test]
fn path_without_slash_is_in_current_directory() {
    assert_eq!(split_log_file_path("app.log"), pair("./", "app.log"));
    assert_eq!(split_log_file_path(""), pair("./", ""));
    assert_eq!(split_log_file_path("é.log"), pair("./", "é.log"));
}

#[test]
fn cut_gives_the_path_back() {
    for path in ["a/b/c", "/x", "ü/ß.log", "no-slash"] {
        let (directory, file_name) = split_log_file_path(path);
        if path.contains('/') {
            assert_eq!(format!("{}{}", directory, file_name), path);
            assert!(directory.ends_with('/'));
            assert!(!file_name.contains('/'));
        } else {
            assert_eq!(directory, "./");
            assert_eq!(file_name, path);
        }
    }
}

#[test]
fn destination_defaults_to_stdout() {
    assert_eq!(log_destination(None), LogDestination::Stdout);
}

#[test]
fn destination_names_the_file() {
    assert_eq!(
        log_destination(Some("out/node.log")),
        LogDestination::File { directory: "out/".to_string(), file_name: "node.log".to_string() }
    );
    assert_eq!(
        log_destination(Some("node.log")),
        LogDestination::File { directory: "./".to_string(), file_name: "node.log".to_string() }
    );
}

#[test]
fn bare_and_dotted_names_give_the_same_file() {
    assert_eq!(log_destination(Some("hotshot.log")), log_destination(Some("./hotshot.log")));
}

#[test]
fn directory_joined_with_file_name_is_the_path() {
    for path in ["logs/hotshot.log", "/tmp/a/b.log", "./x.log", "y.log"] {
        let (directory, file_name) = split_log_file_path(path);
        let joined = std::path::Path::new(&directory).join(&file_name);
        let expected = if path.contains('/') { std::path::PathBuf::from(path) } else { std::path::Path::new("./").join(path) };
        assert_eq!(joined, expected);
    }
}
