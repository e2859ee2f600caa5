use schemalint::glob::glob_match;

#[test]
fn no_wildcard_substring_match() {
    assert!(glob_match("node_modules", "a/node_modules/b"));
    assert!(glob_match("node_modules", "node_modules"));
    assert!(glob_match("foo", "x/foo/y"));
    assert!(!glob_match("foo", "bar"));
    assert!(glob_match("foo", "foobar"));
}

#[test]
fn leading_star_ts_single_level() {
    assert!(glob_match("*.ts", "src/a/types.ts"));
    assert!(glob_match("*.ts", "types.ts"));
    assert!(glob_match("*.ts", "src/a/b/types.ts"));
}

#[test]
fn no_wildcard_negative() {
    assert!(glob_match("node_modules", "notnode_modules_here/foo"));
    assert!(!glob_match("node_modules", "vendor/lodash/index.js"));
}

#[test]
fn star_does_not_cross_slash_positive() {
    assert!(glob_match("src/*/types.ts", "src/a/types.ts"));
    assert!(glob_match("src/*/types.ts", "src/models/types.ts"));
}

#[test]
fn star_does_not_cross_slash_negative() {
    assert!(!glob_match("src/*/types.ts", "src/a/b/types.ts"));
    assert!(!glob_match("src/*/types.ts", "src/a/b/c/types.ts"));
}

#[test]
fn node_modules_substring_still_works() {
    assert!(glob_match("node_modules", "pkg/node_modules/foo"));
    assert!(glob_match(
        "node_modules",
        "very/deep/pkg/node_modules/lodash/index.js"
    ));
}

#[test]
fn star_spec_ts() {
    assert!(glob_match("*.spec.ts", "foo.spec.ts"));
    assert!(glob_match("*.spec.ts", "src/foo.spec.ts"));
    assert!(glob_match("*.spec.ts", "deep/a/b/foo.spec.ts"));
    assert!(!glob_match("*.spec.ts", "deep/foo.spec/bar.ts"));
}

#[test]
fn backtracking_second_occurrence() {
    assert!(glob_match("a/*/b.ts", "a/x/a/y/b.ts"));
    assert!(!glob_match("a/*/b.ts", "a/x/y/b.ts"));
}

#[test]
fn spec_table_no_wildcard() {
    assert!(glob_match("node_modules", "a/node_modules/b"));
    assert!(glob_match("node_modules", "node_modules"));
    assert!(glob_match("node_modules", "notnode_modules_here/foo"));
    assert!(!glob_match("node_modules", "vendor/lodash/index.js"));
}

#[test]
fn spec_table_leading_star_ts() {
    assert!(glob_match("*.ts", "src/a/b/types.ts"));
    assert!(glob_match("*.ts", "types.ts"));
}

#[test]
fn spec_table_src_star_types() {
    assert!(glob_match("src/*/types.ts", "src/a/types.ts"));
    assert!(!glob_match("src/*/types.ts", "src/a/b/types.ts"));
    assert!(!glob_match("src/*/types.ts", "src/types.ts"));
}

#[test]
fn multibyte_path_no_panic() {
    assert!(glob_match("*.ts", "src/café/索引.ts"));
}

#[test]
fn trailing_star_and_lone_star() {
    assert!(glob_match("*", "anything/at/all"));
    assert!(glob_match("src/*", "x/src/a"));
    assert!(glob_match("src/*", "x/src/a/b"));
    assert!(!glob_match("src/*", "x/sr/a"));
    assert!(glob_match("", "whatever"));
}
