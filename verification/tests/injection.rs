use funject::{
    find_left_bracket, get_next_left_bracket, inject_all, DefinitionSite, InjectError, Injector,
    SnippetPart, SnippetTemplate,
};

fn site(name: &str, offset: u32) -> DefinitionSite {
    DefinitionSite {
        name: name.to_string(),
        file_path: "a.cpp".to_string(),
        line: 1,
        column: 1,
        byte_offset: offset,
    }
}

fn fixed(text: &str) -> SnippetTemplate {
    SnippetTemplate { parts: vec![SnippetPart::Text(text.to_string())] }
}

fn around_name(before: &str, after: &str) -> SnippetTemplate {
    SnippetTemplate {
        parts: vec![
            SnippetPart::Text(before.to_string()),
            SnippetPart::Name,
            SnippetPart::Text(after.to_string()),
        ],
    }
}

const TWO_FUNCTIONS: &str = "int foo() {\n  return 1;\n}\nint bar(int x) {\n  return x;\n}\n";

#[test]
fn insertion_point_is_two_past_the_brace() {
    assert_eq!(get_next_left_bracket(b"int foo() {\n  return 1;\n}\n", 4), 12);
    assert_eq!(get_next_left_bracket(b"int foo() {\n  return 1;\n}\n", 0), 12);
    assert_eq!(get_next_left_bracket(b"int foo() {\n  return 1;\n}\n", 10), 12);
    assert_eq!(get_next_left_bracket(b"{\n}", 0), 2);
}

#[test]
fn the_scan_starts_at_the_given_offset() {
    let text = TWO_FUNCTIONS.as_bytes();
    assert_eq!(get_next_left_bracket(text, 11), 43);
    assert_eq!(get_next_left_bracket(text, 30), 43);
    assert_eq!(find_left_bracket(text, 11), Some(41));
    assert_eq!(find_left_bracket(text, 41), Some(41));
    assert_eq!(find_left_bracket(text, 42), None);
}

#[test]
fn without_a_brace_the_result_is_the_end_of_the_text() {
    assert_eq!(get_next_left_bracket(b"int foo();\n", 4), 11);
    assert_eq!(get_next_left_bracket(b"int foo();\n", 11), 11);
    assert_eq!(get_next_left_bracket(b"", 0), 0);
    assert_eq!(find_left_bracket(b"int foo();\n", 4), None);
}

#[test]
fn an_offset_beyond_the_text_comes_back_unchanged() {
    assert_eq!(get_next_left_bracket(b"{}", 7), 7);
    assert_eq!(find_left_bracket(b"{}", 7), None);
}

#[test]
fn a_brace_at_the_very_end_points_past_the_text() {
    assert_eq!(get_next_left_bracket(b"int f() {", 0), 10);
    assert_eq!(find_left_bracket(b"int f() {", 0), Some(8));
}

#[test]
fn the_scan_takes_any_brace_for_the_body() {
    assert_eq!(get_next_left_bracket(b"void f(int a[] = {1}) {\n}", 5), 19);
}

#[test]
fn two_functions_get_their_snippets() {
    let sites = vec![site("foo", 4), site("bar", 30)];
    let done = inject_all(TWO_FUNCTIONS.as_bytes().to_vec(), &sites, &fixed("/*X*/"));
    assert_eq!(
        String::from_utf8(done.text).unwrap(),
        "int foo() {\n/*X*/  return 1;\n}\nint bar(int x) {\n/*X*/  return x;\n}\n"
    );
    assert_eq!(done.outcomes, vec![Ok(12), Ok(48)]);
}

#[test]
fn the_second_offset_is_shifted_by_the_first_snippet() {
    let mut injector = Injector::new(TWO_FUNCTIONS.as_bytes().to_vec());
    assert_eq!(injector.drift(), 0);
    assert_eq!(injector.inject(4, b"/*X*/"), Ok(12));
    assert_eq!(injector.drift(), 5);
    let unshifted = get_next_left_bracket(TWO_FUNCTIONS.as_bytes(), 30);
    assert_eq!(injector.inject(30, b"/*X*/"), Ok(unshifted + 5));
    assert_eq!(injector.drift(), 10);
    assert_eq!(
        injector.text().as_slice(),
        "int foo() {\n/*X*/  return 1;\n}\nint bar(int x) {\n/*X*/  return x;\n}\n".as_bytes()
    );
}

#[test]
fn each_insertion_lands_at_its_point_plus_the_earlier_snippets() {
    let text = "void a() {\n}\nvoid b() {\n}\nvoid c() {\n}\nvoid d() {\n}\n";
    let offsets = [5u32, 18, 31, 44];
    let sites: Vec<DefinitionSite> =
        offsets.iter().map(|o| site("f", *o)).collect();
    let snippet = "trace();\n";
    let done = inject_all(text.as_bytes().to_vec(), &sites, &fixed(snippet));
    for (n, offset) in offsets.iter().enumerate() {
        let point = get_next_left_bracket(text.as_bytes(), *offset as usize);
        assert_eq!(text.as_bytes()[point - 2], b'{');
        let expected = point + n * snippet.len();
        assert_eq!(done.outcomes[n], Ok(expected));
        assert_eq!(&done.text[expected..expected + snippet.len()], snippet.as_bytes());
    }
    assert_eq!(done.text.len(), text.len() + 4 * snippet.len());
    assert_eq!(
        String::from_utf8(done.text).unwrap(),
        "void a() {\ntrace();\n}\nvoid b() {\ntrace();\n}\nvoid c() {\ntrace();\n}\nvoid d() {\ntrace();\n}\n"
    );
}

#[test]
fn snippets_of_different_lengths_accumulate() {
    let text = "void a() {\n}\nvoid bb() {\n}\nvoid ccc() {\n}\n";
    let sites = vec![site("a", 5), site("bb", 18), site("ccc", 32)];
    let done = inject_all(text.as_bytes().to_vec(), &sites, &around_name("  enter(\"", "\");\n"));
    assert_eq!(
        String::from_utf8(done.text).unwrap(),
        "void a() {\n  enter(\"a\");\n}\nvoid bb() {\n  enter(\"bb\");\n}\nvoid ccc() {\n  enter(\"ccc\");\n}\n"
    );
    assert_eq!(done.outcomes, vec![Ok(11), Ok(25 + 14), Ok(40 + 14 + 15)]);
}

#[test]
fn a_snippet_with_a_brace_does_not_mislead_later_scans() {
    let text = "void a() {\n}\nvoid b() {\n}\n";
    let sites = vec![site("a", 5), site("b", 18)];
    let done = inject_all(text.as_bytes().to_vec(), &sites, &fixed("if (on) { log(); }\n"));
    assert_eq!(
        String::from_utf8(done.text).unwrap(),
        "void a() {\nif (on) { log(); }\n}\nvoid b() {\nif (on) { log(); }\n}\n"
    );
}

#[test]
fn no_brace_is_a_failure_and_changes_nothing() {
    let mut injector = Injector::new(b"int foo();\n".to_vec());
    assert_eq!(injector.inject(4, b"/*X*/"), Err(InjectError::BraceNotFound));
    assert_eq!(injector.text().as_slice(), b"int foo();\n");
    assert_eq!(injector.drift(), 0);
}

#[test]
fn a_brace_with_no_room_behind_it_is_a_failure() {
    let mut injector = Injector::new(b"int f() {".to_vec());
    assert_eq!(injector.inject(4, b"/*X*/"), Err(InjectError::BraceNotFound));
    assert_eq!(injector.into_text(), b"int f() {".to_vec());
}

#[test]
fn insertion_at_the_very_end_is_accepted() {
    let mut injector = Injector::new(b"int f() {\n".to_vec());
    assert_eq!(injector.inject(4, b"/*X*/"), Ok(10));
    assert_eq!(injector.into_text(), b"int f() {\n/*X*/".to_vec());
}

#[test]
fn an_offset_beyond_the_text_is_a_failure() {
    let mut injector = Injector::new(b"int f() {\n}\n".to_vec());
    assert_eq!(injector.inject(u32::MAX, b"/*X*/"), Err(InjectError::BraceNotFound));
    assert_eq!(injector.inject(12, b"/*X*/"), Err(InjectError::BraceNotFound));
    assert_eq!(injector.drift(), 0);
}

#[test]
fn a_failed_site_does_not_stop_the_others() {
    let text = "void a() {\n}\nvoid b();\n";
    let sites = vec![site("a", 5), site("b", 18)];
    let done = inject_all(text.as_bytes().to_vec(), &sites, &fixed("/*X*/"));
    assert_eq!(done.outcomes, vec![Ok(11), Err(InjectError::BraceNotFound)]);
    assert_eq!(String::from_utf8(done.text).unwrap(), "void a() {\n/*X*/}\nvoid b();\n");
}

#[test]
fn a_failed_site_adds_no_drift() {
    let text = "int x;\nvoid a() {\n}\n";
    let mut injector = Injector::new(text.as_bytes().to_vec());
    assert_eq!(injector.inject(30, b"/*X*/"), Err(InjectError::BraceNotFound));
    assert_eq!(injector.drift(), 0);
    assert_eq!(injector.inject(12, b"/*X*/"), Ok(18));
    assert_eq!(injector.drift(), 5);
}

#[test]
fn no_sites_leave_the_text_alone() {
    let done = inject_all(TWO_FUNCTIONS.as_bytes().to_vec(), &[], &fixed("/*X*/"));
    assert_eq!(done.text, TWO_FUNCTIONS.as_bytes().to_vec());
    assert!(done.outcomes.is_empty());
}

#[test]
fn an_empty_snippet_changes_nothing_but_succeeds() {
    let done = inject_all(TWO_FUNCTIONS.as_bytes().to_vec(), &[site("foo", 4)], &fixed(""));
    assert_eq!(done.text, TWO_FUNCTIONS.as_bytes().to_vec());
    assert_eq!(done.outcomes, vec![Ok(12)]);
}

#[test]
fn a_site_handed_over_twice_is_handled_twice() {
    let text = "void a() {\n}\n";
    let sites = vec![site("a", 5), site("a", 5)];
    let done = inject_all(text.as_bytes().to_vec(), &sites, &fixed("//\n"));
    assert_eq!(done.outcomes, vec![Ok(11), Ok(11)]);
    assert_eq!(String::from_utf8(done.text).unwrap(), "void a() {\n//\n//\n}\n");
}

#[test]
fn render_fills_every_place_for_the_name() {
    let template = SnippetTemplate {
        parts: vec![
            SnippetPart::Name,
            SnippetPart::Text(": enter ".to_string()),
            SnippetPart::Name,
            SnippetPart::Text("\n".to_string()),
        ],
    };
    assert_eq!(template.render("run"), b"run: enter run\n".to_vec());
    assert_eq!(template.render(""), b": enter \n".to_vec());
}

#[test]
fn render_writes_utf8() {
    assert_eq!(around_name("/* ", " */").render("größe"), "/* größe */".as_bytes().to_vec());
    assert_eq!(SnippetTemplate { parts: vec![] }.render("f"), Vec::<u8>::new());
}

#[test]
fn bytes_of_the_text_that_are_not_ascii_are_kept() {
    let text = "// größe\nvoid a() {\n}\n";
    let done = inject_all(text.as_bytes().to_vec(), &[site("a", 15)], &fixed("/*X*/"));
    assert_eq!(String::from_utf8(done.text).unwrap(), "// größe\nvoid a() {\n/*X*/}\n");
}
