use std::collections::BTreeMap;

use ferrodoc::{
    check_source_text_evidence, BlobResolver, CancellationToken, EngineError, EngineErrorCategory, ExecutionContext,
    ScopedBlob, TraceSink,
};

struct NoBlobs;
impl BlobResolver for NoBlobs {
    fn resolve(&self, _blob: &ScopedBlob) -> Result<Vec<u8>, EngineError> {
        unreachable!()
    }
}

struct NoTrace;
impl TraceSink for NoTrace {
    fn event(&self, _code: &str, _fields: &BTreeMap<String, String>) {}
}

#[test]
fn cancellation_is_observable_without_a_runtime() {
    let cancellation = CancellationToken::default();
    let context = ExecutionContext {
        cancellation: cancellation.clone(),
        deadline: None,
        blobs: &NoBlobs,
        trace: &NoTrace,
    };
    assert!(context.checkpoint().is_ok());
    cancellation.cancel();
    assert_eq!(
        context.checkpoint().unwrap_err().category,
        EngineErrorCategory::Cancelled
    );
}

#[test]
fn passed_deadline_is_retryable_and_cancellation_wins() {
    let context = ExecutionContext {
        cancellation: CancellationToken::default(),
        deadline: Some(std::time::Instant::now()),
        blobs: &NoBlobs,
        trace: &NoTrace,
    };
    let err = context.checkpoint().unwrap_err();
    assert_eq!(err.category, EngineErrorCategory::DeadlineExceeded);
    assert!(err.retryable);
    context.cancellation.cancel();
    let err = context.checkpoint().unwrap_err();
    assert_eq!(err.category, EngineErrorCategory::Cancelled);
    assert!(!err.retryable);
}

#[test]
fn source_text_context_is_bounded_in_records_and_bytes() {
    assert!(check_source_text_evidence(&[]).is_ok());
    let small = vec!["Total".to_string(), "€ 12".to_string()];
    assert!(check_source_text_evidence(&small).is_ok());

    let too_many = vec![String::new(); 4_097];
    let error = check_source_text_evidence(&too_many).unwrap_err();
    assert_eq!(error.category, EngineErrorCategory::ResourceExhausted);
    assert!(!error.retryable);
    assert_eq!(error.message, "source text evidence exceeds the atomic context limit");
    assert!(check_source_text_evidence(&vec![String::new(); 4_096]).is_ok());

    // The byte limit counts UTF-8 bytes: 2^21 two-byte characters reach exactly 4 MiB.
    let at_limit = vec!["é".repeat(1 << 21)];
    assert!(check_source_text_evidence(&at_limit).is_ok());
    let over = vec!["é".repeat(1 << 21), "x".to_string()];
    assert_eq!(
        check_source_text_evidence(&over).unwrap_err().message,
        "source text evidence exceeds the atomic context limit"
    );
}
