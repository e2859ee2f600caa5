use schemalint::discovery::{
    discover, discover_batch, is_excluded, matches_any, sort_paths, sort_paths_by, DirScan, PathKind,
};
use schemalint::report::ReportMessage;
use schemalint::ingest::{
    DiscoverResponse, DiscoveredModel, DiscoveryCounts, DiscoveryFailure, DiscoveryFailureKind,
    DiscoveryWarning, ProviderResolution,
};
use schemalint::json::JsonValue;

fn model(name: &str, module: &str) -> DiscoveredModel {
    DiscoveredModel {
        name: name.into(),
        source_module: module.into(),
        schema: JsonValue::Object(vec![]),
        source_map: vec![],
        canonical_kind: String::new(),
        provider: ProviderResolution::default(),
        envelope: vec![],
        usage_span: None,
    }
}

#[test]
fn continuation_never_hides_partial_coverage() {
    let inputs = vec!["bad".to_string(), "good".to_string()];
    let batch = discover_batch(&inputs, &vec![], true, "source", |input: &String, _: &Vec<String>| {
        if input == "bad" {
            return Err("boom".to_string());
        }
        Ok(DiscoverResponse {
            counts: DiscoveryCounts { attempted: 1, discovered: 1, ..DiscoveryCounts::default() },
            models: vec![model("Schema", "good.ts")],
            failures: Vec::<DiscoveryFailure>::new(),
            warnings: vec![],
        })
    });

    assert_eq!(batch.coverage.attempted, 2);
    assert_eq!(batch.coverage.discovered, 1);
    assert_eq!(batch.coverage.failed, 1);
    assert_eq!(batch.models.len(), 1);
    assert_eq!(batch.failures[0].target, "source 'bad'");
    assert_eq!(batch.failures[0].message, "boom");
}

#[test]
fn first_error_stops_the_batch_without_continuation() {
    let inputs = vec!["bad".to_string(), "good".to_string()];
    let batch = discover_batch(&inputs, &vec![], false, "package", |_: &String, _: &Vec<String>| {
        Err("boom".to_string())
    });
    assert_eq!(batch.coverage.attempted, 1);
    assert_eq!(batch.coverage.failed, 1);
    assert_eq!(batch.failures.len(), 1);
}

#[test]
fn excluded_inputs_are_counted_and_skipped() {
    let inputs = vec!["src/gen/a.ts".to_string(), "src/b.ts".to_string()];
    let exclusions = vec!["gen".to_string()];
    let batch = discover_batch(&inputs, &exclusions, false, "source", |input: &String, _: &Vec<String>| {
        assert_eq!(input, "src/b.ts");
        Ok(DiscoverResponse {
            counts: DiscoveryCounts::default(),
            models: vec![],
            failures: vec![DiscoveryFailure {
                kind: DiscoveryFailureKind::Metadata,
                target: "T".into(),
                message: "no schema".into(),
            }],
            warnings: vec![DiscoveryWarning { model: "M".into(), message: "odd".into() }],
        })
    });
    assert_eq!(batch.coverage.excluded, 1);
    assert_eq!(batch.coverage.attempted, 1);
    assert_eq!(batch.coverage.failed, 1);
    assert_eq!(batch.failures[0].target, "source 'src/b.ts', target 'T'");
    assert_eq!(batch.warnings[0].target, "source 'src/b.ts', model 'M'");
    assert_eq!(batch.warnings[0].message, "odd");
}

#[test]
fn exclusion_treats_backslashes_as_slashes() {
    let exclusions = vec!["src/*.json".to_string()];
    assert!(is_excluded("src\\a.json", &exclusions));
    assert!(!is_excluded("lib\\a.json", &exclusions));
    assert!(matches_any(&exclusions, "src/b.json"));
    assert!(!matches_any(&vec![], "src/b.json"));
}

#[test]
fn raw_discovery_counts_inputs() {
    let paths = vec![
        "b.json".to_string(),
        "schemas".to_string(),
        "gen/x.json".to_string(),
        "missing.txt".to_string(),
        "a.json".to_string(),
        "b.json".to_string(),
    ];
    let exclusions = vec!["gen/".to_string()];
    let outcome = discover(
        &paths,
        &exclusions,
        |p: &String| {
            if p.ends_with(".json") {
                PathKind::JsonFile
            } else if p == "schemas" {
                PathKind::Directory
            } else {
                PathKind::Other
            }
        },
        |_: &String| DirScan {
            files: vec!["schemas/c.json".to_string()],
            excluded: 2,
            failures: vec![ReportMessage { target: "schemas/locked".into(), message: "failed to read directory: denied".into() }],
        },
    );
    assert_eq!(outcome.files, vec!["a.json", "b.json", "schemas/c.json"]);
    assert_eq!(outcome.coverage.attempted, 5);
    assert_eq!(outcome.coverage.excluded, 3);
    assert_eq!(outcome.coverage.failed, 2);
    assert_eq!(outcome.coverage.discovered, 3);
    assert_eq!(outcome.failures[1].target, "missing.txt");
    assert_eq!(outcome.failures[1].message, "input does not exist or is not a JSON schema file");
}

#[test]
fn path_order_compares_components() {
    assert_eq!(
        sort_paths(vec!["a.json".to_string(), "a/b.json".to_string(), "a-b/x.json".to_string()]),
        vec!["a/b.json", "a-b/x.json", "a.json"]
    );
}

#[test]
fn sorting_no_paths_gives_none_and_repeats_drop() {
    assert!(sort_paths(Vec::new()).is_empty());
    assert_eq!(
        sort_paths(vec!["b.json".to_string(), "a.json".to_string(), "b.json".to_string()]),
        vec!["a.json", "b.json"]
    );
}

#[test]
fn equal_paths_keep_the_first_given() {
    assert_eq!(
        sort_paths(vec!["a/./b.json".to_string(), "a/b.json".to_string(), "a.json".to_string()]),
        vec!["a/./b.json", "a.json"]
    );
}

#[test]
fn sorting_and_dropping_follow_the_answers() {
    let shorter = |a: &String, b: &String| a.len() < b.len();
    let as_long = |a: &String, b: &String| a.len() == b.len();
    let paths = vec!["ccc".to_string(), "a".to_string(), "bb".to_string(), "dd".to_string(), "e".to_string()];
    assert_eq!(sort_paths_by(paths, &shorter, &as_long), vec!["a", "bb", "ccc"]);
    let none = |_: &String, _: &String| false;
    let paths = vec!["x".to_string(), "y".to_string(), "x".to_string()];
    assert_eq!(sort_paths_by(paths, &none, &none), vec!["x", "y", "x"]);
}
