//! The modeled upstream response, and the extraction of its text.
//!
//! The transport hands this module plain values: candidates, their content
//! parts, and the prompt feedback. A part is a closed tagged union — plain
//! text, code the model declared executable, or the result of running such
//! code; the boundary that builds these values carries any unknown shape as
//! text.

use crate::errors::AppError;
use vstd::prelude::*;
use vstd::string::StringExecFns;

verus! {

/// One part of a candidate's content.
pub enum Part {
    /// Plain text.
    Text { text: String },
    /// Code the model declared executable, with its language.
    ExecutableCode { language: String, code: String },
    /// The outcome and output of executing such code.
    CodeExecutionResult { outcome: String, output: String },
}

/// The content of one candidate.
pub struct Content {
    pub role: Option<String>,
    pub parts: Vec<Part>,
}

/// One response candidate.
pub struct Candidate {
    pub content: Content,
    pub finish_reason: Option<String>,
}

/// Feedback on the prompt itself: set when the request was blocked.
pub struct PromptFeedback {
    pub block_reason: Option<String>,
}

/// A whole upstream response.
pub struct GeminiApiResponse {
    pub candidates: Option<Vec<Candidate>>,
    pub prompt_feedback: Option<PromptFeedback>,
}

/// How one part renders into the response text: text verbatim, executable
/// code as a fenced block, an execution result as a labelled pair of lines.
pub open spec fn part_text(p: Part) -> Seq<char> {
    match p {
        Part::Text { text } => text@,
        Part::ExecutableCode { language, code } => "```"@ + language@ + "\n"@ + code@ + "\n```\n"@,
        Part::CodeExecutionResult { outcome, output } => "Execution result: "@ + outcome@
            + "\nOutput: "@ + output@ + "\n"@,
    }
}

/// The rendering of the parts from index `i` on, concatenated in order.
pub open spec fn parts_text_from(ps: Seq<Part>, i: int) -> Seq<char>
    decreases ps.len() - i,
{
    if 0 <= i < ps.len() {
        part_text(ps[i]) + parts_text_from(ps, i + 1)
    } else {
        Seq::empty()
    }
}

/// Whether the response carries a block reason.
pub open spec fn blocked_reason(resp: GeminiApiResponse) -> Option<Seq<char>> {
    match resp.prompt_feedback {
        Some(pf) => match pf.block_reason {
            Some(reason) => Some(reason@),
            None => None,
        },
        None => None,
    }
}

/// What extracting the text of a response yields: the rendered parts of the
/// first candidate, or the exact error message owed — blocked, without
/// candidates, or empty.
pub open spec fn extract_text_spec(resp: GeminiApiResponse) -> Result<Seq<char>, Seq<char>> {
    match blocked_reason(resp) {
        Some(reason) => Err("Response was blocked: "@ + reason),
        None => match resp.candidates {
            Some(cs) => if cs@.len() == 0 {
                Err("No candidates in response"@)
            } else {
                let t = parts_text_from(cs@[0].content.parts@, 0);
                if t.len() == 0 {
                    Err("Empty response from Gemini"@)
                } else {
                    Ok(t)
                }
            },
            None => Err("No candidates in response"@),
        },
    }
}

/// Extracts the text of a response: refuses a blocked response, a response
/// without candidates, and an empty one, each with its own message, and
/// otherwise renders the first candidate's parts in order — text verbatim,
/// executable code as a fenced block, execution results labelled.
pub fn extract_text_from_response(response: GeminiApiResponse) -> (r: Result<String, AppError>)
    ensures
        ({
            match (r, extract_text_spec(response)) {
                (Ok(s), Ok(t)) => s@ == t,
                (Err(e), Err(m)) => match e {
                    AppError::ResponseError(em) => em@ == m,
                    _ => false,
                },
                _ => false,
            }
        }),
{
    match &response.prompt_feedback {
        Some(feedback) => match &feedback.block_reason {
            Some(reason) => {
                let mut m = "Response was blocked: ".to_owned();
                m.append(reason.as_str());
                return Err(AppError::ResponseError(m));
            },
            None => {},
        },
        None => {},
    }
    match &response.candidates {
        Some(candidates) => {
            if candidates.len() == 0 {
                return Err(AppError::ResponseError("No candidates in response".to_owned()));
            }
            let candidate = &candidates[0];
            let ghost ps = candidate.content.parts@;
            let mut result = String::new();
            let mut i: usize = 0;
            while i < candidate.content.parts.len()
                invariant
                    0 <= i <= ps.len(),
                    ps == candidate.content.parts@,
                    result@ + parts_text_from(ps, i as int) == parts_text_from(ps, 0),
                decreases ps.len() - i,
            {
                let ghost before = result@;
                match &candidate.content.parts[i] {
                    Part::Text { text } => {
                        result.append(text.as_str());
                    },
                    Part::ExecutableCode { language, code } => {
                        result.append("```");
                        result.append(language.as_str());
                        result.append("\n");
                        result.append(code.as_str());
                        result.append("\n```\n");
                    },
                    Part::CodeExecutionResult { outcome, output } => {
                        result.append("Execution result: ");
                        result.append(outcome.as_str());
                        result.append("\nOutput: ");
                        result.append(output.as_str());
                        result.append("\n");
                    },
                }
                proof {
                    assert(result@ =~= before + part_text(ps[i as int]));
                    assert(before + part_text(ps[i as int]) + parts_text_from(ps, i as int + 1)
                        =~= before + (part_text(ps[i as int]) + parts_text_from(ps, i as int + 1)));
                }
                i += 1;
            }
            proof {
                assert(parts_text_from(ps, ps.len() as int) == Seq::<char>::empty());
                assert(result@ + Seq::<char>::empty() =~= result@);
            }
            if result.unicode_len() == 0 {
                Err(AppError::ResponseError("Empty response from Gemini".to_owned()))
            } else {
                Ok(result)
            }
        },
        None => Err(AppError::ResponseError("No candidates in response".to_owned())),
    }
}

} // verus!
