use materializer::errors::{AppError, PathError};
use materializer::extract::ExtractedFile;
use materializer::paths::{
    clean_and_validate_file_path, create_files_from_response, plan_writes, sanitize,
};

#[test]
fn sanitizer_rejects_traversal() {
    match sanitize("../../etc/passwd") {
        Err(PathError::Suspicious(p)) => assert_eq!(p, "../../etc/passwd"),
        Ok(_) => panic!("traversal path accepted"),
    }
}

#[test]
fn sanitizer_rejects_rooted_path() {
    assert!(matches!(sanitize("/etc/passwd"), Err(PathError::Suspicious(_))));
    assert!(matches!(sanitize("\\windows\\system32"), Err(PathError::Suspicious(_))));
}

#[test]
fn sanitizer_rejects_embedded_dot_pair() {
    assert!(matches!(sanitize("a..b/c.txt"), Err(PathError::Suspicious(_))));
}

#[test]
fn sanitizer_accepts_relative_path_unchanged() {
    assert_eq!(sanitize("a/b/c.py").unwrap(), "a/b/c.py");
}

#[test]
fn sanitizer_normalizes_backslashes() {
    assert_eq!(sanitize("a\\b\\c.py").unwrap(), "a/b/c.py");
}

#[test]
fn sanitizer_trims_whitespace() {
    assert_eq!(sanitize("  x.txt\n").unwrap(), "x.txt");
}

#[test]
fn clean_and_validate_names_the_suspicious_path() {
    match clean_and_validate_file_path(" ../x ") {
        Err(AppError::ResponseError(m)) => {
            assert_eq!(m, "Suspicious file path: ../x");
        },
        _ => panic!("expected a response error"),
    }
}

#[test]
fn plan_appends_inferred_extension() {
    let files = vec![ExtractedFile {
        path: String::from("python"),
        content: String::from("print(\"hi\")\n"),
    }];
    let planned = plan_writes(files, "/tmp/x").unwrap();
    assert_eq!(planned.len(), 1);
    assert_eq!(planned[0].path, "/tmp/x/python.txt");
}

#[test]
fn plan_keeps_existing_extension() {
    let files = vec![ExtractedFile {
        path: String::from("app.py"),
        content: String::from("print(1)\n"),
    }];
    let planned = plan_writes(files, "out").unwrap();
    assert_eq!(planned[0].path, "out/app.py");
    assert_eq!(planned[0].content, "print(1)\n");
}

#[test]
fn plan_joins_without_doubling_slashes() {
    let files = vec![ExtractedFile { path: String::from("a.txt"), content: String::new() }];
    let planned = plan_writes(files, "out/").unwrap();
    assert_eq!(planned[0].path, "out/a.txt");
}

#[test]
fn plan_aborts_whole_batch_on_suspicious_path() {
    let files = vec![
        ExtractedFile { path: String::from("good.txt"), content: String::from("a") },
        ExtractedFile { path: String::from("../bad"), content: String::from("b") },
    ];
    assert!(matches!(plan_writes(files, "out"), Err(AppError::ResponseError(_))));
}

#[test]
fn plan_is_deterministic_across_runs() {
    let make = || {
        vec![
            ExtractedFile { path: String::from("python"), content: String::from("x") },
            ExtractedFile { path: String::from("b/c.md"), content: String::from("y") },
        ]
    };
    let first = plan_writes(make(), "root").unwrap();
    let second = plan_writes(make(), "root").unwrap();
    assert_eq!(first.len(), second.len());
    for (a, b) in first.iter().zip(second.iter()) {
        assert_eq!(a.path, b.path);
        assert_eq!(a.content, b.content);
    }
}

#[test]
fn end_to_end_named_file_is_planned_under_root() {
    let planned =
        create_files_from_response("## app.py\n```app.py\nprint(\"hi\")\n```", "/tmp/x").unwrap();
    assert_eq!(planned.len(), 1);
    assert_eq!(planned[0].path, "/tmp/x/app.py");
    assert_eq!(planned[0].content, "print(\"hi\")\n");
}

#[test]
fn end_to_end_suspicious_extraction_fails() {
    let r = create_files_from_response("```../escape.txt\nx\n```", "out");
    assert!(matches!(r, Err(AppError::ResponseError(_))));
}

#[test]
fn end_to_end_prose_becomes_readme_plan() {
    let planned = create_files_from_response("nothing fenced here", "out").unwrap();
    assert_eq!(planned.len(), 1);
    assert_eq!(planned[0].path, "out/README.md");
    assert_eq!(planned[0].content, "nothing fenced here");
}
