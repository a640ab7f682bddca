use ferrodoc::{
    content_hint, count_operators, high_value_candidate, native_character_count,
    ocr_covers_native, reconciled_selection, repeated_margin_text_hints, script_hints,
    sequential_reading_order, token_simhash, EvidenceId,
    RegionId, SelectionReason,
};
use ferrodoc::{
    candidate_kinds, content_hint_name, normalize_native_text, plan_for, quality_characters,
    BlobId, BlobRange, Bytes, ConversionOptions, ExecutionMode, MediaType, PageContentHint,
    PageText, PdfError, PdfInput, PdfLimits, PlanDecision, ScopedBlob, Sha256Digest,
};

#[test]
fn rejects_oversized_input_before_parsing() {
    let input = PdfInput {
        blob: ScopedBlob {
            id: BlobId::new("pdf-1").unwrap(),
            range: BlobRange::new(0, 11).unwrap(),
            media_type: MediaType::new("application/pdf").unwrap(),
            expected_digest: None,
        },
        digest: Sha256Digest::of_bytes(b"not parsed"),
    };
    let limits = PdfLimits {
        maximum_input_bytes: Bytes::new(10),
        ..PdfLimits::default()
    };
    assert!(matches!(
        input.validate(&limits),
        Err(PdfError::LimitExceeded { limit: "maximum_input_bytes", actual: 11, maximum: 10 })
    ));
    assert!(input.validate(&PdfLimits::default()).is_ok());
    assert_eq!(PdfLimits::default().maximum_input_bytes, Bytes::new(256 * Bytes::MIB));
}

#[test]
fn page_text_hints() {
    assert_eq!(content_hint_name(PageContentHint::BornDigital), "born_digital");
    assert_eq!(content_hint_name(PageContentHint::OtherContent), "other_content");
    assert_eq!(normalize_native_text("\0  a\0b \n"), "ab");
    assert_eq!(candidate_kinds("x = 1 | y", 2, 1), vec!["figure", "formula", "table", "vector_graphic"]);
    assert_eq!(candidate_kinds("plain\ttext", 0, 0), vec!["table"]);
    assert_eq!(candidate_kinds("∑ only", 0, 0), vec!["formula"]);
    assert!(candidate_kinds("plain", 0, 0).is_empty());
}

#[test]
fn plan_follows_native_character_threshold() {
    assert_eq!(quality_characters(" a b\u{3000}c\n"), 3);
    let options = ConversionOptions::default();
    let pages = vec![
        PageText { index: 0, spans: vec!["x".repeat(50), "y ".repeat(40)] },
        PageText { index: 1, spans: vec![] },
    ];
    let plan = plan_for(Sha256Digest::of_bytes(b"pdf"), &pages, &options, false);
    assert_eq!(plan.page_count, 2);
    assert_eq!(plan.stages.len(), 7);
    assert_eq!(plan.stages[0].stage, "pdf.inspect");
    assert_eq!(plan.stages[1].explanation, "recovered 90 non-whitespace characters");
    assert_eq!(plan.stages[2].decision, PlanDecision::Selected);
    assert_eq!(plan.stages[3].decision, PlanDecision::Rejected);
    assert_eq!(plan.stages[3].explanation, "native evidence meets the configured threshold");
    assert_eq!(plan.stages[5].decision, PlanDecision::Rejected);
    assert_eq!(plan.stages[6].decision, PlanDecision::Unavailable);
    assert_eq!(plan.stages[6].execution, Some(ExecutionMode::Embedded));
    assert_eq!(
        plan.stages[6].explanation,
        "native evidence is below the 80 character threshold; OCRS models are not loaded"
    );
    let ready = plan_for(Sha256Digest::of_bytes(b"pdf"), &pages, &options, true);
    assert_eq!(ready.stages[6].decision, PlanDecision::Selected);
    assert_eq!(ready.stages[6].explanation, "native evidence is below the 80 character threshold");
}

#[test]
fn page_content_is_classified_from_operators_and_text() {
    let ops: Vec<String> = ["BT", "Tj", "ET", "q", "Do", "Q", "re", "f*", "S", "TJ", "'"]
        .iter()
        .map(|s| s.to_string())
        .collect();
    let counts = count_operators(&ops);
    assert_eq!(counts.xobject_invocations, 1);
    assert_eq!(counts.painted_vector_paths, 2);
    assert_eq!(counts.text_show_operations, 3);
    assert_eq!(content_hint(5, &counts), PageContentHint::Hybrid);
    assert_eq!(content_hint(0, &counts), PageContentHint::Scanned);
    let no_images = count_operators(&["S".to_string()]);
    assert_eq!(content_hint(3, &no_images), PageContentHint::BornDigital);
    assert_eq!(content_hint(0, &no_images), PageContentHint::OtherContent);
    assert_eq!(content_hint(0, &count_operators(&[])), PageContentHint::Blank);
    assert!(high_value_candidate(PageContentHint::Hybrid));
    assert!(!high_value_candidate(PageContentHint::BornDigital));
    assert_eq!(native_character_count(" a b\u{a0}c\n"), 3);
    assert_eq!(
        script_hints("Voltage Напряжение 電圧 ア 42 αβ"),
        vec!["cyrillic", "greek", "han", "japanese_kana", "latin"]
    );
    assert_eq!(script_hints("123 !?"), Vec::<String>::new());
}

#[test]
fn reconciliation_selects_native_unless_ocr_covers_it() {
    let native = EvidenceId::derive(&[b"native"]);
    let ocr = vec![EvidenceId::derive(&[b"ocr-1"]), EvidenceId::derive(&[b"ocr-2"])];
    let texts = vec!["Supply 5 V nominal".to_string(), "other".to_string()];
    assert!(ocr_covers_native("5 V", &texts));
    assert!(!ocr_covers_native("12 V", &texts));
    assert!(!ocr_covers_native("", &texts));

    let covered = reconciled_selection(Some(native.clone()), true, ocr.clone()).unwrap();
    assert_eq!(covered.evidence_ids, ocr);
    assert_eq!(covered.reason, SelectionReason::Reconciled);
    assert_eq!(
        covered.explanation,
        "OCR covered the low-quality native text; native evidence remains available separately"
    );
    let both = reconciled_selection(Some(native.clone()), false, ocr.clone()).unwrap();
    assert_eq!(both.evidence_ids, vec![native.clone(), ocr[0].clone(), ocr[1].clone()]);
    assert_eq!(both.explanation, "native and OCR evidence were retained and selected in source order");
    let absent = reconciled_selection(None, false, ocr.clone()).unwrap();
    assert_eq!(absent.reason, SelectionReason::NativeAbsent);
    assert_eq!(absent.explanation, "OCR selected because native evidence was absent");
    assert!(reconciled_selection(None, false, vec![]).is_none());
    assert!(reconciled_selection(Some(native), true, vec![]).is_none());

    let ids: Vec<RegionId> = (0u8..3).map(|i| RegionId::derive(&[&[i]])).collect();
    let edges = sequential_reading_order(&ids);
    assert_eq!(edges.len(), 2);
    assert_eq!(edges[0].before, ids[0]);
    assert_eq!(edges[1].after, ids[2]);
    assert!(sequential_reading_order(&[]).is_empty());
}

#[test]
fn token_simhash_is_the_majority_of_lowercase_word_fingerprints() {
    // A word repeated in any case outvotes a single other word.
    assert_eq!(token_simhash("Hello, hello; WORLD!").as_deref(), Some("2cf24dba5fb0a30e"));
    assert_eq!(token_simhash("hello").as_deref(), Some("2cf24dba5fb0a30e"));
    // With two words every bit set by either is kept.
    assert_eq!(token_simhash("alpha beta").as_deref(), Some("fedff6ef7f7bddff"));
    assert_eq!(token_simhash("Ünïcode ÜNÏCODE").as_deref(), Some("b8be8967e4de3eb2"));
    assert_eq!(token_simhash("..."), None);
    assert_eq!(token_simhash(""), None);
}

#[test]
fn repeated_margin_lines_are_grouped_by_position_and_text() {
    let texts: Vec<String> = vec![
        "Header\nBody one\nFooter 1".into(),
        "  Header  \r\nBody two\nFooter 2\n".into(),
        "Other\nHeader".into(),
        "".into(),
        "Solo\n\n".into(),
    ];
    let hints = repeated_margin_text_hints(&texts);
    assert_eq!(hints.len(), 1);
    assert_eq!(hints[0].position, "first_native_line");
    assert_eq!(hints[0].text_sha256, Sha256Digest::of_bytes(b"Header"));
    assert_eq!(hints[0].page_indexes, vec![0, 1]);

    let texts: Vec<String> = vec!["b\nx".into(), "a\ny".into(), "b\nx".into(), "a\ny".into()];
    let hints = repeated_margin_text_hints(&texts);
    let summary: Vec<(String, Sha256Digest, Vec<u32>)> = hints
        .into_iter()
        .map(|hint| (hint.position, hint.text_sha256, hint.page_indexes))
        .collect();
    assert_eq!(
        summary,
        vec![
            ("first_native_line".to_string(), Sha256Digest::of_bytes(b"a"), vec![1, 3]),
            ("first_native_line".to_string(), Sha256Digest::of_bytes(b"b"), vec![0, 2]),
            ("last_native_line".to_string(), Sha256Digest::of_bytes(b"x"), vec![0, 2]),
            ("last_native_line".to_string(), Sha256Digest::of_bytes(b"y"), vec![1, 3]),
        ]
    );
    // A single-line page contributes only its first line.
    let texts: Vec<String> = vec!["same".into(), "same".into()];
    let hints = repeated_margin_text_hints(&texts);
    assert_eq!(hints.len(), 1);
    assert_eq!(hints[0].position, "first_native_line");
    assert!(repeated_margin_text_hints(&[]).is_empty());
}
