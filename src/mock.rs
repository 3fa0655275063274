use vstd::prelude::*;

use crate::perform::{PerformException, PerformExceptionErrorCode};
use crate::value::HostValue;

verus! {

broadcast use vstd::string::group_string_axioms;

/// What a perform does in developer mock mode, chosen by the usecase.
#[derive(Debug, PartialEq)]
pub enum MockOutcome {
    /// The perform panics.
    Panic,
    /// The perform hands back this result.
    Result(HostValue),
    /// The perform fails with this exception.
    Exception(PerformException),
    /// The usecase names no mocked behaviour; the perform panics.
    UnknownUsecase,
}

/// Decides what a mocked perform does for a usecase.
pub fn mock_perform(usecase: &String) -> (r: MockOutcome)
    ensures
        usecase@ == "CORE_PERFORM_PANIC"@ ==> r is Panic,
        usecase@ == "CORE_PERFORM_TRUE"@ ==> r == MockOutcome::Result(HostValue::Bool(true)),
        usecase@ == "CORE_PERFORM_INPUT_VALIDATION_ERROR"@ ==> (r matches MockOutcome::Exception(e) && e.error_code
            == PerformExceptionErrorCode::InputValidationError && e.message@
            == "Test validation error"@),
        usecase@ != "CORE_PERFORM_PANIC"@ && usecase@ != "CORE_PERFORM_TRUE"@ && usecase@
            != "CORE_PERFORM_INPUT_VALIDATION_ERROR"@ ==> r is UnknownUsecase,
{
    proof {
        reveal_strlit("CORE_PERFORM_PANIC");
        reveal_strlit("CORE_PERFORM_TRUE");
        reveal_strlit("CORE_PERFORM_INPUT_VALIDATION_ERROR");
    }
    assert("CORE_PERFORM_PANIC"@.len() != "CORE_PERFORM_TRUE"@.len());
    assert("CORE_PERFORM_PANIC"@.len() != "CORE_PERFORM_INPUT_VALIDATION_ERROR"@.len());
    assert("CORE_PERFORM_TRUE"@.len() != "CORE_PERFORM_INPUT_VALIDATION_ERROR"@.len());
    if *usecase == String::from_str("CORE_PERFORM_PANIC") {
        MockOutcome::Panic
    } else if *usecase == String::from_str("CORE_PERFORM_TRUE") {
        MockOutcome::Result(HostValue::Bool(true))
    } else if *usecase == String::from_str("CORE_PERFORM_INPUT_VALIDATION_ERROR") {
        MockOutcome::Exception(
            PerformException {
                error_code: PerformExceptionErrorCode::InputValidationError,
                message: String::from_str("Test validation error"),
            },
        )
    } else {
        MockOutcome::UnknownUsecase
    }
}

} // verus!
