use funject::{
    contains_bytes, get_functions_from_entity, has_source_extension, skip_files, Entity,
    EntityKind, Location, SourceLocation,
};

fn paths(files: &[&str]) -> Vec<String> {
    files.iter().map(|f| f.to_string()).collect()
}

fn function(name: &str, file: &str, offset: u32) -> Entity {
    let place = Location { file: Some(file.to_string()), line: 1, column: 1, offset };
    Entity {
        kind: EntityKind::FunctionDecl,
        is_definition: true,
        name: name.to_string(),
        location: Some(SourceLocation {
            file_location: place.clone(),
            expansion_location: place,
        }),
        children: vec![],
    }
}

#[test]
fn source_and_header_extensions_are_accepted() {
    for path in ["a.c", "a.cc", "a.cpp", "a.h", "a.hpp", "dir/sub/b.cpp", "/abs/x.h", "a.b.c"] {
        assert!(has_source_extension(path), "{}", path);
    }
}

#[test]
fn other_extensions_are_refused() {
    for path in [
        "a.rs", "a.cxx", "a.C", "a.CPP", "a.hh", "a.cpp.txt", "a.c~", "acpp", "cpp", "a", "", "a.",
        "Makefile", "a.pp", "a.p",
    ] {
        assert!(!has_source_extension(path), "{}", path);
    }
}

#[test]
fn a_name_that_is_only_an_extension_is_refused() {
    for path in [".c", ".cpp", "dir/.h", "/.hpp", "a.cpp/.cc"] {
        assert!(!has_source_extension(path), "{}", path);
    }
    assert!(has_source_extension("..c"));
    assert!(has_source_extension("dir/x.h"));
}

#[test]
fn a_directory_with_an_extension_does_not_count() {
    assert!(!has_source_extension("src.cpp/readme"));
    assert!(!has_source_extension("src.cpp/"));
}

#[test]
fn contains_bytes_finds_a_needle_anywhere() {
    assert!(contains_bytes(b"a/skip_me/y.cpp", b"skip_me"));
    assert!(contains_bytes(b"skip_me", b"skip_me"));
    assert!(contains_bytes(b"xskip_me", b"skip_me"));
    assert!(contains_bytes(b"skip_mex", b"skip_me"));
    assert!(contains_bytes(b"aab", b"ab"));
    assert!(contains_bytes(b"abc", b""));
    assert!(contains_bytes(b"", b""));
}

#[test]
fn contains_bytes_refuses_what_is_not_there() {
    assert!(!contains_bytes(b"a/x.cpp", b"skip_me"));
    assert!(!contains_bytes(b"skip_m", b"skip_me"));
    assert!(!contains_bytes(b"", b"a"));
    assert!(!contains_bytes(b"skip-me", b"skip_me"));
    assert!(!contains_bytes(b"ababab", b"abb"));
}

#[test]
fn skip_pattern_leaves_out_matching_paths() {
    let files = paths(&["a/x.cpp", "a/skip_me/y.cpp"]);
    assert_eq!(skip_files(&files, Some("skip_me")), paths(&["a/x.cpp"]));
}

#[test]
fn skip_pattern_keeps_the_order_of_the_rest() {
    let files = paths(&["t/1.c", "s/2.c", "t/3.c", "s/4.c", "u/5.c"]);
    assert_eq!(skip_files(&files, Some("s/")), paths(&["t/1.c", "t/3.c", "u/5.c"]));
    assert_eq!(skip_files(&files, Some(".c")), Vec::<String>::new());
    assert_eq!(skip_files(&files, Some("zzz")), files);
}

#[test]
fn without_a_pattern_every_file_stays() {
    let files = paths(&["a/x.cpp", "a/skip_me/y.cpp"]);
    assert_eq!(skip_files(&files, None), files);
    assert_eq!(skip_files(&[], Some("x")), Vec::<String>::new());
}

#[test]
fn an_empty_pattern_skips_everything() {
    let files = paths(&["a/x.cpp", "b.c"]);
    assert_eq!(skip_files(&files, Some("")), Vec::<String>::new());
}

#[test]
fn a_skipped_file_is_no_target_at_all() {
    let found = paths(&["a/x.cpp", "a/skip_me/y.cpp"]);
    let targets = skip_files(&found, Some("skip_me"));
    let unit = Entity {
        kind: EntityKind::Other,
        is_definition: false,
        name: String::new(),
        location: None,
        children: vec![function("kept", "a/x.cpp", 4), function("skipped", "a/skip_me/y.cpp", 4)],
    };
    let discovery = get_functions_from_entity(&unit, false, &targets);
    let names: Vec<&str> = discovery.sites.iter().map(|s| s.name.as_str()).collect();
    assert_eq!(names, vec!["kept"]);
}
