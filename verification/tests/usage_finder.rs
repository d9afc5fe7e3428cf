use stakhal::usage_finder::{find_variable_usages, find_variable_usages_batch_from_source};

#[test]
fn test_variable_declared_and_used_twice() {
    let content = r#"int counter = 0;

void step(void) {
    if (counter > 10) {
        counter = 0;
    }
}
"#;
    let decl_range = (0, 16);
    let usages = find_variable_usages(content, "counter", decl_range).unwrap();

    assert_eq!(usages.len(), 2);
    assert_eq!(usages[0].line, 4);
    assert_eq!(usages[0].context_snippet, "if (counter > 10) {");

    assert_eq!(usages[1].line, 5);
    assert_eq!(usages[1].context_snippet, "counter = 0;");
}

#[test]
fn test_exact_match_no_substring_matches() {
    let content = r#"int count = 0;
int isrCount = 5;

void process(void) {
    count++;
    isrCount++;
}
"#;
    let decl_range = (0, 14);
    let usages = find_variable_usages(content, "count", decl_range).unwrap();

    assert_eq!(usages.len(), 1);
    assert_eq!(usages[0].line, 5);
    assert_eq!(usages[0].context_snippet, "count++;");
}

#[test]
fn test_ignore_comments_and_string_literals() {
    let content = r#"int flag = 1;

void check(void) {
    // This comment mentions flag
    printf("flag is active\n");
    if (flag) {
        // do something
    }
}
"#;
    let decl_range = (0, 13);
    let usages = find_variable_usages(content, "flag", decl_range).unwrap();

    assert_eq!(usages.len(), 1);
    assert_eq!(usages[0].line, 6);
    assert_eq!(usages[0].context_snippet, "if (flag) {");
}

#[test]
fn test_batch_find_variable_usages() {
    let content = r#"int flag = 1;
int counter = 0;
int unusedVar = 10;

void check(void) {
    if (flag) {
        counter++;
    }
}
"#;
    let targets = vec![
        ("flag", (0, 13)),
        ("counter", (14, 30)),
        ("unusedVar", (31, 50)),
    ];

    let batch_usages = find_variable_usages_batch_from_source(content, &targets).unwrap();

    assert_eq!(batch_usages.len(), 3);
    assert_eq!(batch_usages[0].len(), 1);
    assert_eq!(batch_usages[0][0].context_snippet, "if (flag) {");

    assert_eq!(batch_usages[1].len(), 1);
    assert_eq!(batch_usages[1][0].context_snippet, "counter++;");

    assert_eq!(batch_usages[2].len(), 0);
}

#[test]
fn usage_byte_range_is_the_token() {
    let content = "int x;\nvoid f(void) { x = 1; }\n";
    let usages = find_variable_usages(content, " x ", (0, 6)).unwrap();
    assert_eq!(usages.len(), 1);
    let (s, e) = usages[0].byte_range;
    assert_eq!(&content[s..e], "x");
    assert!(find_variable_usages_batch_from_source(content, &[]).unwrap().is_empty());
}

#[test]
fn token_partly_inside_declaration_is_a_use() {
    let content = "int counter = 0;\nvoid f(void) { counter++; }\n";
    // The range covers `int coun` only: the token `counter` (bytes 4..11)
    // does not lie within it, so it counts as a use.
    let usages = find_variable_usages(content, "counter", (0, 8)).unwrap();
    assert_eq!(usages.len(), 2);
    assert_eq!(usages[0].byte_range, (4, 11));
    // A range that holds the whole token excludes it.
    let usages = find_variable_usages(content, "counter", (0, 11)).unwrap();
    assert_eq!(usages.len(), 1);
    assert_eq!(usages[0].line, 2);
}
