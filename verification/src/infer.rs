//! Extension inference: from a declared language name through a fixed lookup
//! table, or from the content itself through ordered substring heuristics.

use crate::text::{contains_chars, contains_seq, eq_nocase, seq_eq_nocase, str_chars};
use vstd::prelude::*;

verus! {

/// The extension the lookup table assigns to a language name, compared
/// without regard to ASCII case; unknown names map to `txt`.
pub open spec fn ext_of_language(lang: Seq<char>) -> Seq<char> {
    if seq_eq_nocase(lang, "python"@) || seq_eq_nocase(lang, "py"@) {
        "py"@
    } else if seq_eq_nocase(lang, "javascript"@) || seq_eq_nocase(lang, "js"@) {
        "js"@
    } else if seq_eq_nocase(lang, "typescript"@) || seq_eq_nocase(lang, "ts"@) {
        "ts"@
    } else if seq_eq_nocase(lang, "jsx"@) {
        "jsx"@
    } else if seq_eq_nocase(lang, "tsx"@) {
        "tsx"@
    } else if seq_eq_nocase(lang, "html"@) {
        "html"@
    } else if seq_eq_nocase(lang, "css"@) {
        "css"@
    } else if seq_eq_nocase(lang, "rust"@) || seq_eq_nocase(lang, "rs"@) {
        "rs"@
    } else if seq_eq_nocase(lang, "go"@) {
        "go"@
    } else if seq_eq_nocase(lang, "java"@) {
        "java"@
    } else if seq_eq_nocase(lang, "c"@) {
        "c"@
    } else if seq_eq_nocase(lang, "cpp"@) || seq_eq_nocase(lang, "c++"@) {
        "cpp"@
    } else if seq_eq_nocase(lang, "csharp"@) || seq_eq_nocase(lang, "cs"@) {
        "cs"@
    } else if seq_eq_nocase(lang, "php"@) {
        "php"@
    } else if seq_eq_nocase(lang, "ruby"@) || seq_eq_nocase(lang, "rb"@) {
        "rb"@
    } else if seq_eq_nocase(lang, "shell"@) || seq_eq_nocase(lang, "sh"@) || seq_eq_nocase(
        lang,
        "bash"@,
    ) {
        "sh"@
    } else if seq_eq_nocase(lang, "sql"@) {
        "sql"@
    } else if seq_eq_nocase(lang, "json"@) {
        "json"@
    } else if seq_eq_nocase(lang, "yaml"@) || seq_eq_nocase(lang, "yml"@) {
        "yml"@
    } else if seq_eq_nocase(lang, "markdown"@) || seq_eq_nocase(lang, "md"@) {
        "md"@
    } else if seq_eq_nocase(lang, "dockerfile"@) {
        "Dockerfile"@
    } else if seq_eq_nocase(lang, "makefile"@) {
        "Makefile"@
    } else {
        "txt"@
    }
}

/// Maps a language name to its usual file extension, without regard to ASCII
/// case; an unknown name maps to `txt`.
pub fn get_extension_from_language(language: &str) -> (r: String)
    ensures
        r@ == ext_of_language(language@),
{
    let chars = str_chars(language);
    let ext: &str = if eq_nocase(&chars, "python") || eq_nocase(&chars, "py") {
        "py"
    } else if eq_nocase(&chars, "javascript") || eq_nocase(&chars, "js") {
        "js"
    } else if eq_nocase(&chars, "typescript") || eq_nocase(&chars, "ts") {
        "ts"
    } else if eq_nocase(&chars, "jsx") {
        "jsx"
    } else if eq_nocase(&chars, "tsx") {
        "tsx"
    } else if eq_nocase(&chars, "html") {
        "html"
    } else if eq_nocase(&chars, "css") {
        "css"
    } else if eq_nocase(&chars, "rust") || eq_nocase(&chars, "rs") {
        "rs"
    } else if eq_nocase(&chars, "go") {
        "go"
    } else if eq_nocase(&chars, "java") {
        "java"
    } else if eq_nocase(&chars, "c") {
        "c"
    } else if eq_nocase(&chars, "cpp") || eq_nocase(&chars, "c++") {
        "cpp"
    } else if eq_nocase(&chars, "csharp") || eq_nocase(&chars, "cs") {
        "cs"
    } else if eq_nocase(&chars, "php") {
        "php"
    } else if eq_nocase(&chars, "ruby") || eq_nocase(&chars, "rb") {
        "rb"
    } else if eq_nocase(&chars, "shell") || eq_nocase(&chars, "sh") || eq_nocase(&chars, "bash") {
        "sh"
    } else if eq_nocase(&chars, "sql") {
        "sql"
    } else if eq_nocase(&chars, "json") {
        "json"
    } else if eq_nocase(&chars, "yaml") || eq_nocase(&chars, "yml") {
        "yml"
    } else if eq_nocase(&chars, "markdown") || eq_nocase(&chars, "md") {
        "md"
    } else if eq_nocase(&chars, "dockerfile") {
        "Dockerfile"
    } else if eq_nocase(&chars, "makefile") {
        "Makefile"
    } else {
        "txt"
    };
    ext.to_owned()
}

/// The extension the ordered content heuristics infer: the first signal that
/// occurs in the content wins, and content with no signal is plain text.
pub open spec fn inferred_ext(content: Seq<char>) -> Seq<char> {
    if contains_seq(content, "<?php"@) {
        "php"@
    } else if contains_seq(content, "<!DOCTYPE html"@) || contains_seq(content, "<html"@) {
        "html"@
    } else if contains_seq(content, "import React"@) || contains_seq(content, "from 'react'"@) {
        "jsx"@
    } else if contains_seq(content, "import "@) && contains_seq(content, "from '"@) && contains_seq(
        content,
        "export "@,
    ) {
        "js"@
    } else if contains_seq(content, "#include <"@) {
        if contains_seq(content, "iostream"@) {
            "cpp"@
        } else {
            "c"@
        }
    } else if contains_seq(content, "package "@) && contains_seq(content, "import "@)
        && contains_seq(content, "public class "@) {
        "java"@
    } else if contains_seq(content, "def "@) && contains_seq(content, "import "@) {
        "py"@
    } else if contains_seq(content, "fn "@) && contains_seq(content, "pub "@) && contains_seq(
        content,
        "use "@,
    ) {
        "rs"@
    } else {
        "txt"@
    }
}

/// Guesses a file extension from the content alone. Best-effort: the ordered
/// substring heuristics may misclassify ambiguous content.
pub fn infer_extension_from_content(content: &str) -> (r: String)
    ensures
        r@ == inferred_ext(content@),
{
    let chars = str_chars(content);
    let ext: &str = if contains_chars(&chars, "<?php") {
        "php"
    } else if contains_chars(&chars, "<!DOCTYPE html") || contains_chars(&chars, "<html") {
        "html"
    } else if contains_chars(&chars, "import React") || contains_chars(&chars, "from 'react'") {
        "jsx"
    } else if contains_chars(&chars, "import ") && contains_chars(&chars, "from '")
        && contains_chars(&chars, "export ") {
        "js"
    } else if contains_chars(&chars, "#include <") {
        if contains_chars(&chars, "iostream") {
            "cpp"
        } else {
            "c"
        }
    } else if contains_chars(&chars, "package ") && contains_chars(&chars, "import ")
        && contains_chars(&chars, "public class ") {
        "java"
    } else if contains_chars(&chars, "def ") && contains_chars(&chars, "import ") {
        "py"
    } else if contains_chars(&chars, "fn ") && contains_chars(&chars, "pub ") && contains_chars(
        &chars,
        "use ",
    ) {
        "rs"
    } else {
        "txt"
    };
    ext.to_owned()
}

} // verus!
