use treader::document::{
    document_messages, extract_links, extract_metadata, flatten_outlines, metadata_keys, LinkTarget, MetadataKey,
    Outline,
};
use treader::renderer::RenderInfo;

fn entry(title: &str, page: Option<u32>, down: Vec<Outline>) -> Outline {
    Outline {
        title: title.to_owned(),
        page,
        down,
    }
}

#[test]
fn outline_entries_come_before_those_below() {
    let outlines = vec![
        entry(
            "One",
            Some(3),
            vec![entry("One.A", Some(4), vec![entry("One.A.i", None, vec![])])],
        ),
        entry("Two", Some(9), vec![]),
    ];
    let mut toc = vec![];
    flatten_outlines(&outlines, 0, &mut toc);
    let got: Vec<(&str, usize, usize)> = toc
        .iter()
        .map(|e| (e.title.as_str(), e.page, e.level))
        .collect();
    assert_eq!(
        got,
        vec![("One", 3, 0), ("One.A", 4, 1), ("One.A.i", 0, 2), ("Two", 9, 0)]
    );
}

#[test]
fn links_name_their_page_or_address() {
    let links = extract_links(&vec![
        LinkTarget {
            uri: "#p".to_owned(),
            page: Some(11),
        },
        LinkTarget {
            uri: "https://example.org".to_owned(),
            page: None,
        },
    ]);
    assert_eq!(links.len(), 2);
    assert_eq!(links[0].text, "Page 12");
    assert_eq!(links[0].uri, "#p");
    assert_eq!(links[0].page, Some(11));
    assert_eq!(links[1].text, "https://example.org");
    assert_eq!(links[1].page, None);
}

#[test]
fn metadata_is_trimmed_and_blank_entries_are_left_out() {
    let answers = vec![
        (MetadataKey::Format, Some(" PDF 1.7\n".to_owned())),
        (MetadataKey::Title, Some("\u{3000} \t".to_owned())),
        (MetadataKey::Author, None),
        (MetadataKey::ModDate, Some("2020".to_owned())),
    ];
    assert_eq!(
        extract_metadata(&answers),
        vec![
            ("Format".to_owned(), "PDF 1.7".to_owned()),
            ("Modification Date".to_owned(), "2020".to_owned()),
        ]
    );
}

#[test]
fn metadata_keys_are_shown_in_order() {
    let labels: Vec<String> = metadata_keys().into_iter().map(|k| k.label()).collect();
    assert_eq!(
        labels,
        vec![
            "Format",
            "Encryption",
            "Title",
            "Author",
            "Subject",
            "Keywords",
            "Creator",
            "Producer",
            "Creation Date",
            "Modification Date"
        ]
    );
}

#[test]
fn pages_are_told_before_contents_and_metadata() {
    let outlines = vec![entry("One", Some(3), vec![])];
    let answers = vec![(MetadataKey::Title, Some("T".to_owned()))];
    let told = document_messages(7, &outlines, &answers);
    assert_eq!(told.len(), 3);
    assert!(matches!(told[0], RenderInfo::NumPages(7)));
    assert!(matches!(&told[1], RenderInfo::Toc(toc) if toc.len() == 1 && toc[0].title == "One"));
    assert!(matches!(&told[2], RenderInfo::Metadata(m) if m[0].1 == "T"));
}

#[test]
fn nothing_is_told_of_what_is_not_there() {
    let blank = vec![(MetadataKey::Title, Some(" ".to_owned()))];
    let told = document_messages(7, &vec![], &blank);
    assert_eq!(told.len(), 1);
    assert!(matches!(told[0], RenderInfo::NumPages(7)));
    let answers = vec![(MetadataKey::Title, Some("T".to_owned()))];
    let told = document_messages(7, &vec![], &answers);
    assert_eq!(told.len(), 2);
    assert!(matches!(told[1], RenderInfo::Metadata(_)));
}
