use materializer::extract::{
    extract_files, extract_files_from_code_blocks, extract_files_from_markdown,
};

#[test]
fn round_trip_filename_fence() {
    let files = extract_files_from_markdown("```foo.py\ncode\n```");
    assert_eq!(files.len(), 1);
    assert_eq!(files[0].path, "foo.py");
    assert_eq!(files[0].content, "code\n");
}

#[test]
fn bare_language_fence_is_taken_as_filename() {
    // A single word after the fence is indistinguishable from a filename and
    // is treated as one.
    let files = extract_files_from_markdown("```python\nprint(1)\n```");
    assert_eq!(files.len(), 1);
    assert_eq!(files[0].path, "python");
    assert_eq!(files[0].content, "print(1)\n");
}

#[test]
fn code_block_fallback_names_files() {
    let files = extract_files_from_code_blocks("```python\nprint(1)\n```");
    assert_eq!(files.len(), 1);
    assert_eq!(files[0].path, "file_1.py");
    assert_eq!(files[0].content, "print(1)\n");
}

#[test]
fn language_colon_filename_fence() {
    let files = extract_files_from_markdown("```python:src/app.py\nx = 1\n```");
    assert_eq!(files.len(), 1);
    assert_eq!(files[0].path, "src/app.py");
    assert_eq!(files[0].content, "x = 1\n");
}

#[test]
fn unclosed_trailing_block_is_flushed() {
    let files = extract_files_from_markdown("```notes.txt\nhello");
    assert_eq!(files.len(), 1);
    assert_eq!(files[0].path, "notes.txt");
    assert_eq!(files[0].content, "hello\n");
}

#[test]
fn fence_with_space_and_no_colon_opens_no_file() {
    let files = extract_files_from_markdown("```python code\nx\n```");
    assert_eq!(files.len(), 0);
}

#[test]
fn blank_lines_inside_block_are_kept() {
    let files = extract_files_from_markdown("```a.txt\none\n\ntwo\n```");
    assert_eq!(files.len(), 1);
    assert_eq!(files[0].content, "one\n\ntwo\n");
}

#[test]
fn crlf_line_endings_are_handled() {
    let files = extract_files_from_markdown("```a.py\r\ncode\r\n```\r\n");
    assert_eq!(files.len(), 1);
    assert_eq!(files[0].path, "a.py");
    assert_eq!(files[0].content, "code\n");
}

#[test]
fn later_block_with_same_name_is_kept_separately() {
    let files = extract_files_from_markdown("```a.txt\nfirst\n```\n```a.txt\nsecond\n```");
    assert_eq!(files.len(), 2);
    assert_eq!(files[0].path, "a.txt");
    assert_eq!(files[0].content, "first\n");
    assert_eq!(files[1].path, "a.txt");
    assert_eq!(files[1].content, "second\n");
}

#[test]
fn code_block_counter_and_untagged_block() {
    let files = extract_files_from_code_blocks("```js\na\n```\nmid\n```\nb\n```");
    assert_eq!(files.len(), 2);
    assert_eq!(files[0].path, "file_1.js");
    assert_eq!(files[0].content, "a\n");
    assert_eq!(files[1].path, "file_2.txt");
    assert_eq!(files[1].content, "b\n");
}

#[test]
fn code_block_ignores_colon_and_symbol_tags() {
    // A tag that is not a single word does not open a fallback block.
    let files = extract_files_from_code_blocks("```c++\nx\n```");
    assert_eq!(files.len(), 0);
}

#[test]
fn orchestrator_prefers_markdown_extraction() {
    let files = extract_files("```main.rs\nfn main() {}\n```");
    assert_eq!(files.len(), 1);
    assert_eq!(files[0].path, "main.rs");
}

#[test]
fn orchestrator_falls_back_to_code_blocks() {
    // No filename and a spaced tag: the filename strategy finds nothing, the
    // block strategy would too; a tagless fence is found by the fallback.
    let files = extract_files("text\n```\nbody\n```");
    assert_eq!(files.len(), 1);
    assert_eq!(files[0].path, "file_1.txt");
    assert_eq!(files[0].content, "body\n");
}

#[test]
fn orchestrator_keeps_plain_text_as_readme() {
    let files = extract_files("just prose, no fences");
    assert_eq!(files.len(), 1);
    assert_eq!(files[0].path, "README.md");
    assert_eq!(files[0].content, "just prose, no fences");
}

#[test]
fn longer_tick_run_still_opens_a_fence() {
    let files = extract_files_from_markdown("````x.txt\nbody\n```");
    assert_eq!(files.len(), 1);
    assert_eq!(files[0].path, "x.txt");
    assert_eq!(files[0].content, "body\n");
}

#[test]
fn code_block_skips_blank_lines_after_the_fence() {
    let files = extract_files_from_code_blocks("```\n\n\nxyz\n```");
    assert_eq!(files.len(), 1);
    assert_eq!(files[0].path, "file_1.txt");
    assert_eq!(files[0].content, "xyz\n");
}

#[test]
fn code_block_allows_trailing_spaces_on_the_fence_line() {
    let files = extract_files_from_code_blocks("```py  \nprint(2)\n```");
    assert_eq!(files.len(), 1);
    assert_eq!(files[0].path, "file_1.py");
    assert_eq!(files[0].content, "print(2)\n");
}

#[test]
fn unnamed_block_between_named_blocks_is_skipped_by_markdown() {
    let files = extract_files_from_markdown("```python x\nA\n```\n```f.txt\nB\n```");
    assert_eq!(files.len(), 1);
    assert_eq!(files[0].path, "f.txt");
    assert_eq!(files[0].content, "B\n");
}

#[test]
fn colon_header_with_empty_filename_opens_unnamed_file() {
    let files = extract_files_from_markdown("```python:\nx\n```");
    assert_eq!(files.len(), 1);
    assert_eq!(files[0].path, "");
    assert_eq!(files[0].content, "x\n");
}

#[test]
fn empty_input_still_yields_a_file() {
    let files = extract_files("");
    assert_eq!(files.len(), 1);
    assert_eq!(files[0].path, "README.md");
    assert_eq!(files[0].content, "");
}
