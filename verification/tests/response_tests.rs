use materializer::errors::AppError;
use materializer::response::{
    Candidate, Content, GeminiApiResponse, Part, PromptFeedback, extract_text_from_response,
};

fn candidate(parts: Vec<Part>) -> Candidate {
    Candidate {
        content: Content { role: Some(String::from("model")), parts },
        finish_reason: Some(String::from("STOP")),
    }
}

#[test]
fn blocked_response_is_refused_with_reason() {
    let resp = GeminiApiResponse {
        candidates: None,
        prompt_feedback: Some(PromptFeedback { block_reason: Some(String::from("SAFETY")) }),
    };
    match extract_text_from_response(resp) {
        Err(AppError::ResponseError(m)) => assert_eq!(m, "Response was blocked: SAFETY"),
        _ => panic!("expected a blocked-response error"),
    }
}

#[test]
fn missing_candidates_are_refused() {
    let resp = GeminiApiResponse { candidates: None, prompt_feedback: None };
    match extract_text_from_response(resp) {
        Err(AppError::ResponseError(m)) => assert_eq!(m, "No candidates in response"),
        _ => panic!("expected an error"),
    }
}

#[test]
fn empty_candidate_list_is_refused() {
    let resp = GeminiApiResponse { candidates: Some(vec![]), prompt_feedback: None };
    match extract_text_from_response(resp) {
        Err(AppError::ResponseError(m)) => assert_eq!(m, "No candidates in response"),
        _ => panic!("expected an error"),
    }
}

#[test]
fn empty_parts_are_refused() {
    let resp = GeminiApiResponse { candidates: Some(vec![candidate(vec![])]), prompt_feedback: None };
    match extract_text_from_response(resp) {
        Err(AppError::ResponseError(m)) => assert_eq!(m, "Empty response from Gemini"),
        _ => panic!("expected an error"),
    }
}

#[test]
fn parts_render_in_order() {
    let parts = vec![
        Part::Text { text: String::from("intro\n") },
        Part::ExecutableCode {
            language: String::from("python"),
            code: String::from("print(1)"),
        },
        Part::CodeExecutionResult {
            outcome: String::from("OK"),
            output: String::from("1\n"),
        },
    ];
    let resp = GeminiApiResponse { candidates: Some(vec![candidate(parts)]), prompt_feedback: None };
    let text = extract_text_from_response(resp).unwrap();
    assert_eq!(
        text,
        "intro\n```python\nprint(1)\n```\nExecution result: OK\nOutput: 1\n\n"
    );
}

#[test]
fn only_first_candidate_is_read() {
    let resp = GeminiApiResponse {
        candidates: Some(vec![
            candidate(vec![Part::Text { text: String::from("first") }]),
            candidate(vec![Part::Text { text: String::from("second") }]),
        ]),
        prompt_feedback: None,
    };
    assert_eq!(extract_text_from_response(resp).unwrap(), "first");
}

#[test]
fn error_messages_render_with_their_kind() {
    assert_eq!(
        AppError::CommandError(String::from("boom")).message(),
        "Command execution error: boom"
    );
    assert_eq!(AppError::ApiError(String::from("500")).message(), "API error: 500");
    assert_eq!(
        AppError::EnvError(String::from("unset")).message(),
        "Environment error: unset"
    );
}

#[test]
fn string_conversion_names_a_response_error() {
    let e = AppError::from(String::from("odd reply"));
    assert!(matches!(e, AppError::ResponseError(_)));
    assert_eq!(e.message(), "Response error: odd reply");
}
