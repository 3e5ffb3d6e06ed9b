use dir2::search::{executable_extension, has_plain_name, is_executable, order_by_similarity, SearchEngine};

#[test]
fn engine_names() {
    assert_eq!(SearchEngine::Google.to_string(), "Google");
    assert_eq!(SearchEngine::DuckDuckGo.to_string(), "DuckDuckGo");
    assert_eq!(SearchEngine::ChatGPT.to_string(), "ChatGPT");
    assert_eq!(SearchEngine::Perplexity.to_string(), "Perplexity");
}

#[test]
fn executable_extensions_ignore_case() {
    assert!(executable_extension("EXE"));
    assert!(executable_extension("msi"));
    assert!(!executable_extension("txt"));
    assert!(is_executable("C:/tools/setup.Bat", true));
    assert!(!is_executable("C:/tools/setup.bat", false));
    assert!(!is_executable("/home/u/notes.txt", true));
    assert!(!is_executable("/home/u/Makefile", true));
}

#[test]
fn plain_name_check() {
    assert!(has_plain_name("/a/b.txt"));
    assert!(!has_plain_name("/a/"));
    assert!(!has_plain_name("/a/.."));
    assert!(!has_plain_name("C:"));
    assert!(!has_plain_name(""));
    assert!(!has_plain_name("\\\\server\\share"));
    assert!(!has_plain_name("\\\\?\\foo"));
    assert!(!has_plain_name("//host/share"));
    assert!(!has_plain_name("C:.."));
    assert!(!has_plain_name("D:."));
    assert!(has_plain_name("C:foo"));
    assert!(has_plain_name("C:\\dir\\a.exe"));
}

#[test]
fn similarity_puts_closest_name_first() {
    let found = vec![
        "/x/afly.txt".to_string(),
        "/x/bfly.txt".to_string(),
        "/x/flyer.txt".to_string(),
        "/x/fly.txt".to_string(),
    ];
    let ordered = order_by_similarity(found, "fly");
    assert_eq!(ordered[0], "/x/fly.txt");
    assert_eq!(ordered.len(), 4);
}
