//! Decisions of the software manager, which runs one software operation at a
//! time and keeps at most one durable record of it.
use crate::text::same_text;
use crate::text::views;
use vstd::prelude::*;

verus! {

/// The kind of the software operation found in the durable record.
#[derive(Debug, Clone, Copy, PartialEq, Eq, Structural)]
pub enum SoftwareOperationKind {
    SoftwareUpdate,
    SoftwareList,
}

/// The failure reason to report for an operation found in the durable record
/// at startup: a leftover operation is never resumed but reported as
/// cancelled by the restart. No record, nothing to report.
pub fn pending_operation_failure(stored: Option<SoftwareOperationKind>) -> (r: Option<String>)
    ensures
        match stored {
            None => r is None,
            Some(SoftwareOperationKind::SoftwareUpdate) => r is Some && r->Some_0@
                == "Software Update command cancelled due to unexpected agent restart"@,
            Some(SoftwareOperationKind::SoftwareList) => r is Some && r->Some_0@
                == "Software List request cancelled due to unexpected agent restart"@,
        },
{
    match stored {
        None => None,
        Some(SoftwareOperationKind::SoftwareUpdate) => Some(
            "Software Update command cancelled due to unexpected agent restart".to_owned(),
        ),
        Some(SoftwareOperationKind::SoftwareList) => Some(
            "Software List request cancelled due to unexpected agent restart".to_owned(),
        ),
    }
}

/// Why the running agent must stop, or could not tell.
#[derive(Debug, PartialEq, Eq, Clone, Copy, Structural)]
pub enum SelfUpdateError {
    /// The installed binary reports another version: the running one was
    /// replaced and must stop.
    NotRunningLatestVersion,
    /// The installed binary's version output is not `tedge-agent <version>`.
    UnexpectedVersionOutput,
}

/// The whitespace-separated words of a text.
pub uninterp spec fn whitespace_words(s: Seq<char>) -> Seq<Seq<char>>;

/// Relies on `str::split_whitespace`: the words of the text, in order, as
/// owned strings.
#[verifier::external_body]
fn split_whitespace_words(s: &str) -> (r: Vec<String>)
    ensures
        views(r@) == whitespace_words(s@),
{
    s.split_whitespace().map(|w| w.to_owned()).collect()
}

/// Compares the running version with the words of the version output of the
/// installed binary, which must be `tedge-agent <version>`.
pub fn check_version_words(current_version: &str, words: &Vec<String>) -> (r: Result<(), SelfUpdateError>)
    ensures
        views(words@).len() == 2 && views(words@)[0] == "tedge-agent"@ ==> r == if views(words@)[1]
            == current_version@ {
            Ok::<(), SelfUpdateError>(())
        } else {
            Err(SelfUpdateError::NotRunningLatestVersion)
        },
        !(views(words@).len() == 2 && views(words@)[0] == "tedge-agent"@) ==> r == Err::<
            (),
            SelfUpdateError,
        >(SelfUpdateError::UnexpectedVersionOutput),
{
    let ghost v = views(words@);
    assert(v.len() == words@.len());
    if words.len() == 2 && same_text(words[0].as_str(), "tedge-agent") {
        assert(v[0] == words@[0]@);
        assert(v[1] == words@[1]@);
        if same_text(words[1].as_str(), current_version) {
            Ok(())
        } else {
            Err(SelfUpdateError::NotRunningLatestVersion)
        }
    } else {
        proof {
            if words@.len() == 2 {
                assert(v[0] == words@[0]@);
            }
        }
        Err(SelfUpdateError::UnexpectedVersionOutput)
    }
}

/// Checks the version output of the installed binary against the running
/// version.
pub fn detect_self_update(current_version: &str, version_output: &str) -> (r: Result<
    (),
    SelfUpdateError,
>)
    ensures
        ({
            let w = whitespace_words(version_output@);
            &&& w.len() == 2 && w[0] == "tedge-agent"@ ==> r == if w[1] == current_version@ {
                Ok::<(), SelfUpdateError>(())
            } else {
                Err(SelfUpdateError::NotRunningLatestVersion)
            }
            &&& !(w.len() == 2 && w[0] == "tedge-agent"@) ==> r == Err::<(), SelfUpdateError>(
                SelfUpdateError::UnexpectedVersionOutput,
            )
        }),
{
    let words = split_whitespace_words(version_output);
    check_version_words(current_version, &words)
}

} // verus!
