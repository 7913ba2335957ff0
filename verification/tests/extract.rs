use mail_intake::attachments::{
    attachment_filename, extract, extract_attachments, find_header, find_param, AttachmentSet,
    ExtractError,
};
use mail_intake::mail::{Disposition, DispositionKind, Header, Message, Param, Part};

fn header(key: &str, value: &str) -> Header {
    Header { key: key.to_string(), value: value.to_string() }
}

fn part(headers: Vec<Header>, body: &[u8]) -> Part {
    Part { headers, body: Some(body.to_vec()) }
}

fn multipart(parts: &[&str]) -> Vec<u8> {
    let mut raw = String::from(
        "Subject: files\r\nContent-Type: multipart/mixed; boundary=\"frontier\"\r\n\r\n",
    );
    for part in parts {
        raw.push_str("--frontier\r\n");
        raw.push_str(part);
        raw.push_str("\r\n");
    }
    raw.push_str("--frontier--\r\n");
    raw.into_bytes()
}

#[test]
fn only_named_attachments_are_selected() {
    let mail = Message {
        parts: vec![
            part(vec![header("Content-Type", "text/plain")], b"hello"),
            part(vec![header("Content-Disposition", "inline; filename=\"x\"")], b"shown"),
            part(vec![header("Content-Disposition", "attachment")], b"nameless"),
            part(
                vec![
                    header("Content-Type", "application/pdf"),
                    header("Content-Disposition", "attachment; filename=\"report.pdf\""),
                ],
                b"%PDF-1.4",
            ),
        ],
    };
    let found = extract_attachments(&mail).unwrap();
    assert_eq!(found.len(), 1);
    assert_eq!(found.get("report.pdf"), Some(&b"%PDF-1.4".to_vec()));
    assert_eq!(found.get("x"), None);
}

#[test]
fn only_named_attachments_are_selected_from_raw_bytes() {
    let raw = multipart(&[
        "Content-Type: text/plain\r\n\r\nhello",
        "Content-Disposition: inline; filename=\"x\"\r\n\r\nshown",
        "Content-Disposition: attachment\r\n\r\nnameless",
        "Content-Disposition: attachment; filename=\"report.pdf\"\r\n\r\n%PDF-1.4",
    ]);
    let found = extract(&raw).unwrap();
    let entries = found.into_entries();
    assert_eq!(entries.len(), 1);
    assert_eq!(entries[0].filename, "report.pdf");
    assert_eq!(entries[0].content, b"%PDF-1.4".to_vec());
}

#[test]
fn later_attachment_replaces_earlier_of_same_name() {
    let raw = multipart(&[
        "Content-Disposition: attachment; filename=\"dup.csv\"\r\n\r\nfirst,1",
        "Content-Disposition: attachment; filename=\"dup.csv\"\r\n\r\nsecond,2",
    ]);
    let found = extract(&raw).unwrap();
    assert_eq!(found.len(), 1);
    assert_eq!(found.get("dup.csv"), Some(&b"second,2".to_vec()));
}

#[test]
fn replaced_name_keeps_its_place() {
    let raw = multipart(&[
        "Content-Disposition: attachment; filename=\"a\"\r\n\r\none",
        "Content-Disposition: attachment; filename=\"b\"\r\n\r\ntwo",
        "Content-Disposition: attachment; filename=\"a\"\r\n\r\nthree",
    ]);
    let entries = extract(&raw).unwrap().into_entries();
    assert_eq!(entries.len(), 2);
    assert_eq!(entries[0].filename, "a");
    assert_eq!(entries[0].content, b"three".to_vec());
    assert_eq!(entries[1].filename, "b");
    assert_eq!(entries[1].content, b"two".to_vec());
}

#[test]
fn transfer_encoding_is_undone() {
    let raw = multipart(&[
        "Content-Disposition: attachment; filename=\"hello.bin\"\r\nContent-Transfer-Encoding: base64\r\n\r\naGVsbG8gd29ybGQ=",
        "Content-Disposition: attachment; filename=\"euro.txt\"\r\nContent-Transfer-Encoding: quoted-printable\r\n\r\nprice: =E2=82=AC5",
    ]);
    let found = extract(&raw).unwrap();
    assert_eq!(found.get("hello.bin"), Some(&b"hello world".to_vec()));
    assert_eq!(found.get("euro.txt"), Some(&"price: \u{20ac}5".as_bytes().to_vec()));
}

#[test]
fn plain_text_message_has_no_attachments() {
    let found = extract(b"Subject: hi\r\n\r\njust text\r\n").unwrap();
    assert_eq!(found.len(), 0);
}

#[test]
fn nested_parts_are_not_looked_at() {
    let inner = "Content-Type: multipart/mixed; boundary=\"inner\"\r\n\r\n--inner\r\nContent-Disposition: attachment; filename=\"deep.txt\"\r\n\r\ndeep\r\n--inner--";
    let raw = multipart(&[
        inner,
        "Content-Disposition: attachment; filename=\"top.txt\"\r\n\r\ntop",
    ]);
    let entries = extract(&raw).unwrap().into_entries();
    assert_eq!(entries.len(), 1);
    assert_eq!(entries[0].filename, "top.txt");
}

#[test]
fn header_name_is_matched_exactly() {
    let raw = multipart(&[
        "content-disposition: attachment; filename=\"lower.txt\"\r\n\r\nlower",
        "Content-Disposition: attachment; filename=\"exact.txt\"\r\n\r\nexact",
    ]);
    let entries = extract(&raw).unwrap().into_entries();
    assert_eq!(entries.len(), 1);
    assert_eq!(entries[0].filename, "exact.txt");
}

#[test]
fn first_disposition_header_decides() {
    let mail = Message {
        parts: vec![part(
            vec![
                header("Content-Disposition", "inline"),
                header("Content-Disposition", "attachment; filename=\"late.txt\""),
            ],
            b"x",
        )],
    };
    assert_eq!(extract_attachments(&mail).unwrap().len(), 0);
}

#[test]
fn malformed_message_is_an_error() {
    let found = extract(b"\rnot a header block");
    assert!(matches!(found, Err(ExtractError::Malformed { .. })));
}

#[test]
fn undecodable_attachment_is_an_error() {
    let mail = Message {
        parts: vec![
            part(vec![header("Content-Disposition", "attachment; filename=\"ok.txt\"")], b"ok"),
            Part {
                headers: vec![header("Content-Disposition", "attachment; filename=\"bad.bin\"")],
                body: None,
            },
        ],
    };
    assert_eq!(extract_attachments(&mail).unwrap_err(), ExtractError::Undecodable { part: 1 });
}

#[test]
fn undecodable_body_of_other_part_is_no_error() {
    let mail = Message {
        parts: vec![
            Part { headers: vec![header("Content-Disposition", "inline")], body: None },
            part(vec![header("Content-Disposition", "attachment; filename=\"ok.txt\"")], b"ok"),
        ],
    };
    let found = extract_attachments(&mail).unwrap();
    assert_eq!(found.get("ok.txt"), Some(&b"ok".to_vec()));
}

#[test]
fn undecodable_base64_attachment_is_an_error_from_raw_bytes() {
    let raw = multipart(&[
        "Content-Disposition: attachment; filename=\"bad.bin\"\r\nContent-Transfer-Encoding: base64\r\n\r\n@@@@not base64@@@@",
    ]);
    assert_eq!(extract(&raw).unwrap_err(), ExtractError::Undecodable { part: 0 });
}

#[test]
fn filename_needs_kind_attachment() {
    let named = |kind: DispositionKind| Disposition {
        kind,
        params: vec![
            Param { name: "size".to_string(), value: "3".to_string() },
            Param { name: "filename".to_string(), value: "f.txt".to_string() },
        ],
    };
    assert_eq!(attachment_filename(&named(DispositionKind::Attachment)), Some("f.txt".to_string()));
    assert_eq!(attachment_filename(&named(DispositionKind::Inline)), None);
    assert_eq!(attachment_filename(&named(DispositionKind::FormData)), None);
    assert_eq!(attachment_filename(&named(DispositionKind::Extension("attachment".to_string()))), None);
    let nameless = Disposition {
        kind: DispositionKind::Attachment,
        params: vec![Param { name: "name".to_string(), value: "f.txt".to_string() }],
    };
    assert_eq!(attachment_filename(&nameless), None);
}

#[test]
fn disposition_kind_is_read_without_regard_to_case() {
    let raw = multipart(&[
        "Content-Disposition: ATTACHMENT; FILENAME=\"shout.txt\"\r\n\r\nloud",
    ]);
    let found = extract(&raw).unwrap();
    assert_eq!(found.get("shout.txt"), Some(&b"loud".to_vec()));
}

#[test]
fn find_header_and_find_param_take_the_first_match() {
    let headers = vec![header("A", "1"), header("B", "2"), header("A", "3")];
    assert_eq!(find_header(&headers, "A"), Some(&"1".to_string()));
    assert_eq!(find_header(&headers, "B"), Some(&"2".to_string()));
    assert_eq!(find_header(&headers, "a"), None);
    let params = vec![
        Param { name: "x".to_string(), value: "1".to_string() },
        Param { name: "x".to_string(), value: "2".to_string() },
    ];
    assert_eq!(find_param(&params, "x"), Some(&"1".to_string()));
    assert_eq!(find_param(&params, "y"), None);
}

#[test]
fn attachment_set_answers_like_a_map() {
    let mut set = AttachmentSet::new();
    assert_eq!(set.len(), 0);
    assert_eq!(set.get("a"), None);
    set.insert("a".to_string(), vec![1]);
    set.insert("b".to_string(), vec![2]);
    set.insert("a".to_string(), vec![3, 4]);
    assert_eq!(set.len(), 2);
    assert_eq!(set.get("a"), Some(&vec![3, 4]));
    assert_eq!(set.get("b"), Some(&vec![2]));
    assert_eq!(set.get("c"), None);
    let entries = set.into_entries();
    assert_eq!(entries[0].filename, "a");
    assert_eq!(entries[1].filename, "b");
}

#[test]
fn encoded_and_folded_filenames_are_decoded() {
    let raw = multipart(&[
        "Content-Disposition: attachment; filename*=UTF-8''%E2%82%AC%20rates.txt\r\n\r\neuro",
        "Content-Disposition: attachment;\r\n filename=\"folded name.txt\"\r\n\r\nfolded",
    ]);
    let found = extract(&raw).unwrap();
    assert_eq!(found.len(), 2);
    assert_eq!(found.get("\u{20ac} rates.txt"), Some(&b"euro".to_vec()));
    assert_eq!(found.get("folded name.txt"), Some(&b"folded".to_vec()));
}

#[test]
fn message_without_parts_has_no_attachments_even_if_it_is_one() {
    let raw = b"Content-Disposition: attachment; filename=\"whole.txt\"\r\n\r\nbody";
    assert_eq!(extract(raw).unwrap().len(), 0);
}
