use funject::{
    group_by_file, have_increasing_offsets, inject_all, DefinitionSite, SnippetPart,
    SnippetTemplate, SourceFile,
};

fn site(name: &str, file: &str, line: u32, column: u32, offset: u32) -> DefinitionSite {
    DefinitionSite {
        name: name.to_string(),
        file_path: file.to_string(),
        line,
        column,
        byte_offset: offset,
    }
}

#[test]
fn new_takes_the_path_of_the_first_function() {
    let file = SourceFile::new(vec![site("f", "dir/a.cpp", 1, 5, 4), site("g", "dir/a.cpp", 9, 5, 90)]);
    assert_eq!(file.path, "dir/a.cpp");
    assert_eq!(file.functions, vec![site("f", "dir/a.cpp", 1, 5, 4), site("g", "dir/a.cpp", 9, 5, 90)]);
}

#[test]
fn print_lists_each_function_on_its_line() {
    let file = SourceFile::new(vec![
        site("foo", "src/a.cpp", 1, 5, 4),
        site("bar", "src/a.cpp", 4, 5, 30),
    ]);
    assert_eq!(
        file.print(),
        "source file: src/a.cpp\n\tfunction: foo @ src/a.cpp:1:5:4\n\tfunction: bar @ src/a.cpp:4:5:30\n"
    );
}

#[test]
fn print_writes_numbers_in_decimal() {
    let file = SourceFile::new(vec![
        site("zero", "n.c", 0, 0, 0),
        site("tens", "n.c", 10, 100, 1000),
        site("nines", "n.c", 9, 99, 909),
        site("large", "n.c", 4294967295, 1234567890, 2147483648),
    ]);
    assert_eq!(
        file.print(),
        "source file: n.c\n\
         \tfunction: zero @ n.c:0:0:0\n\
         \tfunction: tens @ n.c:10:100:1000\n\
         \tfunction: nines @ n.c:9:99:909\n\
         \tfunction: large @ n.c:4294967295:1234567890:2147483648\n"
    );
}

#[test]
fn print_of_a_file_without_functions_is_the_head_line() {
    let file = SourceFile { path: "empty.c".to_string(), functions: vec![] };
    assert_eq!(file.print(), "source file: empty.c\n");
}

#[test]
fn grouping_keeps_first_seen_order_of_files_and_order_within_each() {
    let sites = vec![
        site("h1", "lib.h", 1, 1, 10),
        site("a1", "a.cpp", 1, 1, 5),
        site("h2", "lib.h", 2, 1, 50),
        site("b1", "b.cpp", 1, 1, 7),
        site("a2", "a.cpp", 2, 1, 35),
    ];
    assert!(have_increasing_offsets(&sites));
    let groups = group_by_file(&sites);
    assert_eq!(groups.len(), 3);
    assert!(groups.iter().all(|group| have_increasing_offsets(&group.functions)));
    assert_eq!(groups[0].path, "lib.h");
    assert_eq!(groups[0].functions, vec![site("h1", "lib.h", 1, 1, 10), site("h2", "lib.h", 2, 1, 50)]);
    assert_eq!(groups[1].path, "a.cpp");
    assert_eq!(groups[1].functions, vec![site("a1", "a.cpp", 1, 1, 5), site("a2", "a.cpp", 2, 1, 35)]);
    assert_eq!(groups[2].path, "b.cpp");
    assert_eq!(groups[2].functions, vec![site("b1", "b.cpp", 1, 1, 7)]);
}

#[test]
fn grouping_nothing_gives_no_group() {
    assert!(group_by_file(&[]).is_empty());
}

#[test]
fn grouping_keeps_sites_that_occur_twice() {
    let sites = vec![site("t", "t.h", 1, 1, 10), site("t", "t.h", 1, 1, 10)];
    let groups = group_by_file(&sites);
    assert_eq!(groups.len(), 1);
    assert_eq!(groups[0].functions.len(), 2);
}

#[test]
fn every_site_of_a_group_lies_in_its_file() {
    let sites = vec![
        site("a", "x.c", 1, 1, 1),
        site("b", "y.c", 1, 1, 2),
        site("c", "x.c", 1, 1, 3),
        site("d", "z.c", 1, 1, 4),
        site("e", "y.c", 1, 1, 5),
    ];
    let groups = group_by_file(&sites);
    let mut total = 0;
    for group in &groups {
        assert!(!group.functions.is_empty());
        for function in &group.functions {
            assert_eq!(function.file_path, group.path);
        }
        total += group.functions.len();
    }
    assert_eq!(total, sites.len());
}

#[test]
fn listing_and_injection_go_through_the_same_functions_in_the_same_order() {
    let text = "void a() {\n}\nvoid b() {\n}\nvoid c() {\n}\n";
    let file = SourceFile::new(vec![
        site("a", "t.c", 1, 6, 5),
        site("b", "t.c", 3, 6, 18),
        site("c", "t.c", 5, 6, 31),
    ]);
    let listing = file.print();
    let listed: Vec<&str> = listing
        .lines()
        .skip(1)
        .map(|line| line.trim_start_matches("\tfunction: ").split(" @ ").next().unwrap())
        .collect();
    let template = SnippetTemplate {
        parts: vec![SnippetPart::Text("/*".to_string()), SnippetPart::Name, SnippetPart::Text("*/".to_string())],
    };
    let done = inject_all(text.as_bytes().to_vec(), &file.functions, &template);
    let result = String::from_utf8(done.text).unwrap();
    let mut injected: Vec<(usize, &str)> = Vec::new();
    for name in ["c", "a", "b"] {
        let marker = format!("/*{}*/", name);
        injected.push((result.find(&marker).unwrap(), name));
    }
    injected.sort();
    let injected: Vec<&str> = injected.into_iter().map(|(_, name)| name).collect();
    assert_eq!(listed, vec!["a", "b", "c"]);
    assert_eq!(injected, listed);
    assert_eq!(done.outcomes.len(), listed.len());
}
