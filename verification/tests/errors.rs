use p2pmessage::types::{err, error, ZomeError};

#[test]
fn error_carries_its_reason() {
    let r: Result<(), ZomeError> = error("Sorry. Entry not found.");
    match r {
        Err(ZomeError::Guest(s)) => assert_eq!(s, "Sorry. Entry not found."),
        _ => panic!("expected a guest error"),
    }
}

#[test]
fn err_formats_code_and_message() {
    let r: Result<(), ZomeError> = err("TODO: 000", "Unknown other error");
    match r {
        Err(ZomeError::Guest(s)) => {
            assert_eq!(s, "{\"code\": \"TODO: 000\", \"message\": \"Unknown other error\"}")
        }
        _ => panic!("expected a guest error"),
    }
}
