use audiora::errors::AudioraError;
use audiora::extract::accept_extraction;

fn minimal_pdf(text: &str) -> Vec<u8> {
    let content = format!("BT /F1 12 Tf 72 720 Td ({}) Tj ET", text);
    let objects = [
        "<< /Type /Catalog /Pages 2 0 R >>".to_string(),
        "<< /Type /Pages /Kids [3 0 R] /Count 1 >>".to_string(),
        "<< /Type /Page /Parent 2 0 R /MediaBox [0 0 612 792] /Resources << /Font << /F1 4 0 R >> >> /Contents 5 0 R >>".to_string(),
        "<< /Type /Font /Subtype /Type1 /BaseFont /Helvetica >>".to_string(),
        format!("<< /Length {} >>\nstream\n{}\nendstream", content.len(), content),
    ];
    let mut pdf = String::from("%PDF-1.4\n");
    let mut offsets: Vec<usize> = Vec::new();
    for (k, body) in objects.iter().enumerate() {
        offsets.push(pdf.len());
        pdf.push_str(&format!("{} 0 obj\n{}\nendobj\n", k + 1, body));
    }
    let xref_at = pdf.len();
    pdf.push_str(&format!("xref\n0 {}\n", objects.len() + 1));
    pdf.push_str("0000000000 65535 f \n");
    for off in &offsets {
        pdf.push_str(&format!("{:010} 00000 n \n", off));
    }
    pdf.push_str(&format!(
        "trailer\n<< /Size {} /Root 1 0 R >>\nstartxref\n{}\n%%EOF\n",
        objects.len() + 1,
        xref_at
    ));
    pdf.into_bytes()
}

#[test]
fn extracts_text_from_pdf_bytes() {
    let data = minimal_pdf("Hello world. This is Audiora!");
    let reply = pdf_extract::extract_text_from_mem(&data).map_err(|e| e.to_string());
    let text = accept_extraction(reply).unwrap();
    assert!(text.contains("Hello world. This is Audiora!"));
}

#[test]
fn garbage_bytes_yield_extraction_error() {
    let reply =
        pdf_extract::extract_text_from_mem(b"this is not a pdf at all").map_err(|e| e.to_string());
    let e = accept_extraction(reply).unwrap_err();
    assert!(matches!(e, AudioraError::PdfError(_)));
    assert!(e
        .message()
        .starts_with("PDF Error: Failed to extract text from PDF: "));
}

#[test]
fn extracted_text_is_taken_whole() {
    let text = accept_extraction(Ok("A page. Of text!".to_string())).unwrap();
    assert_eq!(text, "A page. Of text!");
}

#[test]
fn extraction_failure_message_is_exact() {
    let e = accept_extraction(Err("bad xref".to_string())).unwrap_err();
    match e {
        AudioraError::PdfError(m) => {
            assert_eq!(m, "Failed to extract text from PDF: bad xref");
        }
        _ => panic!("wrong error variant"),
    }
    let e2 = accept_extraction(Err("bad xref".to_string())).unwrap_err();
    assert_eq!(e2.message(), "PDF Error: Failed to extract text from PDF: bad xref");
}
