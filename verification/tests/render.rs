use ferrodoc::{
    current_schema_version, escape_html, render_html, render_markdown, Document, DocumentId,
    Evidence, EvidenceContent, EvidenceId, LayerId, Page, PageId, Placement, Region, RegionId,
    RegionKind, SelectedView, SelectionReason, Sha256Digest, SourceLayer, SourceLayerKind,
};

fn region(page: &PageId, index: u32, name: &str, kind: RegionKind, texts: &[&str], select: &[usize]) -> Region {
    let layer = LayerId::derive(&[page.as_str().as_bytes(), b"native"]);
    let id = RegionId::derive(&[page.as_str().as_bytes(), name.as_bytes()]);
    let evidence: Vec<Evidence> = texts
        .iter()
        .enumerate()
        .map(|(i, text)| Evidence {
            id: EvidenceId::derive(&[id.as_str().as_bytes(), i.to_string().as_bytes()]),
            layer_id: layer.clone(),
            content: EvidenceContent::Text {
                text: (*text).into(),
            },
            geometry_page: None,
        })
        .collect();
    let selected = if select.is_empty() {
        None
    } else {
        Some(SelectedView {
            evidence_ids: select.iter().map(|&i| evidence[i].id.clone()).collect(),
            reason: SelectionReason::NativeQuality,
            explanation: "fixture".into(),
        })
    };
    Region {
        id,
        kind,
        geometry_page: index,
        placement: Placement::Inside,
        evidence,
        selected,
    }
}

fn document(pages: Vec<Vec<(RegionKind, Vec<&str>, Vec<usize>)>>) -> Document {
    let digest = Sha256Digest::of_bytes(b"render");
    let doc_id = DocumentId::derive(&[digest.as_bytes()]);
    let pages = pages
        .into_iter()
        .enumerate()
        .map(|(index, regions)| {
            let id = PageId::derive(&[doc_id.as_str().as_bytes(), &(index as u32).to_be_bytes()]);
            let regions = regions
                .into_iter()
                .enumerate()
                .map(|(i, (kind, texts, select))| region(&id, index as u32, &i.to_string(), kind, &texts, &select))
                .collect();
            Page {
                layers: vec![SourceLayer {
                    id: LayerId::derive(&[id.as_str().as_bytes(), b"native"]),
                    kind: SourceLayerKind::NativePdf,
                }],
                id,
                index: index as u32,
                bounds_page: index as u32,
                artifacts: Vec::new(),
                regions,
                reading_order: Vec::new(),
            }
        })
        .collect();
    Document {
        schema_version: current_schema_version(),
        id: doc_id,
        input_digest: digest,
        pages,
    }
}

#[test]
fn html_escapes_selected_text() {
    let doc = document(vec![vec![(RegionKind::Paragraph, vec!["<unsafe & explicit>"], vec![0])]]);
    doc.validate().unwrap();
    let html = render_html(&doc);
    assert!(html.contains("&lt;unsafe &amp; explicit&gt;"));
    assert!(!html.contains("<unsafe"));
}

#[test]
fn renderers_are_deterministic_and_follow_region_kinds() {
    let doc = document(vec![
        vec![
            (RegionKind::Heading, vec!["  Title  "], vec![0]),
            (RegionKind::Paragraph, vec!["first", "second"], vec![1, 0]),
            (RegionKind::Figure, vec!["unselected"], vec![]),
        ],
        vec![
            (RegionKind::ListItem, vec![" item "], vec![0]),
            (RegionKind::Code, vec!["  let x = 1;  \n"], vec![0]),
        ],
    ]);
    doc.validate().unwrap();
    assert_eq!(render_markdown(&doc), render_markdown(&doc));
    assert_eq!(
        render_markdown(&doc),
        "# Title\n\nsecond\nfirst\n\n\n---\n\n- item\n\n```text\n  let x = 1;\n```\n"
    );
    assert_eq!(
        render_html(&doc),
        "<!doctype html>\n<html><body>\n<section data-page=\"1\">\n<h1>  Title  </h1>\n<p>second\nfirst</p>\n</section>\n<section data-page=\"2\">\n<li> item </li>\n<pre><code>  let x = 1;  \n</code></pre>\n</section>\n</body></html>\n"
    );
}

#[test]
fn empty_documents_render_a_single_newline() {
    let doc = document(vec![vec![(RegionKind::Paragraph, vec!["x"], vec![])]]);
    assert_eq!(render_markdown(&doc), "\n");
    assert_eq!(escape_html("a'b\"c"), "a&#39;b&quot;c");
}

#[test]
fn all_formats_are_deterministic() {
    let fixture = || {
        document(vec![vec![
            (RegionKind::Heading, vec!["Heading"], vec![0]),
            (RegionKind::Paragraph, vec!["Body & text"], vec![0]),
        ]])
    };
    assert_eq!(render_markdown(&fixture()), render_markdown(&fixture()));
    assert_eq!(render_html(&fixture()), render_html(&fixture()));
}
