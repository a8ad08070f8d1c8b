use materializer::infer::{get_extension_from_language, infer_extension_from_content};

#[test]
fn iostream_include_infers_cpp() {
    let ext = infer_extension_from_content("#include <iostream>\nint main() { return 0; }\n");
    assert_eq!(ext, "cpp");
}

#[test]
fn stdio_include_infers_c() {
    let ext = infer_extension_from_content("#include <stdio.h>\nint main(void) { return 0; }\n");
    assert_eq!(ext, "c");
}

#[test]
fn php_tag_wins_over_later_signals() {
    assert_eq!(infer_extension_from_content("<?php echo 1; ?>"), "php");
}

#[test]
fn html_doctype_infers_html() {
    assert_eq!(infer_extension_from_content("<!DOCTYPE html>\n<body></body>"), "html");
}

#[test]
fn react_import_infers_jsx() {
    assert_eq!(infer_extension_from_content("import React from 'react';\n"), "jsx");
}

#[test]
fn python_signals_infer_py() {
    assert_eq!(infer_extension_from_content("import os\ndef main():\n    pass\n"), "py");
}

#[test]
fn rust_signals_infer_rs() {
    assert_eq!(infer_extension_from_content("use std::fmt;\npub fn f() {}\n"), "rs");
}

#[test]
fn unknown_content_defaults_to_txt() {
    assert_eq!(infer_extension_from_content("hello world"), "txt");
}

#[test]
fn language_lookup_is_case_insensitive() {
    assert_eq!(get_extension_from_language("Python"), "py");
    assert_eq!(get_extension_from_language("RUST"), "rs");
    assert_eq!(get_extension_from_language("YAML"), "yml");
}

#[test]
fn language_lookup_handles_aliases() {
    assert_eq!(get_extension_from_language("c++"), "cpp");
    assert_eq!(get_extension_from_language("bash"), "sh");
    assert_eq!(get_extension_from_language("rb"), "rb");
    assert_eq!(get_extension_from_language("markdown"), "md");
}

#[test]
fn language_lookup_special_names() {
    assert_eq!(get_extension_from_language("dockerfile"), "Dockerfile");
    assert_eq!(get_extension_from_language("makefile"), "Makefile");
}

#[test]
fn unknown_language_defaults_to_txt() {
    assert_eq!(get_extension_from_language("fortran"), "txt");
    assert_eq!(get_extension_from_language(""), "txt");
}
