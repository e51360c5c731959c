use treader::renderer::{LinkInfo, TocEntry};
use treader::screen::{
    links_lines, loading_line, metadata_lines, status_bar_line, toc_lines, Line,
};
use treader::terminal::{
    needs_cell_query, parse_cell_size, window_size_from, ReplyError, WindowSize,
};

fn size(rows: u16, cols: u16) -> WindowSize {
    WindowSize {
        rows,
        cols,
        width_px: cols * 10,
        cell_width_px: 10,
        cell_height_px: 20,
    }
}

fn plain(line: &Line) -> (u16, u16, &str, bool) {
    (line.row, line.col, line.text.as_str(), line.reverse)
}

#[test]
fn status_bar_fills_the_last_row() {
    let line = status_bar_line(&size(5, 8), "abc");
    assert_eq!(plain(&line), (4, 0, " abc    ", false));
}

#[test]
fn long_status_is_cut_to_the_row() {
    let line = status_bar_line(&size(5, 10), "abcdefghijklmno");
    assert_eq!(plain(&line), (4, 0, " abcdefghi", false));
    assert_eq!(status_bar_line(&size(5, 10), "abcdefghi").text, " abcdefghi");
    assert_eq!(status_bar_line(&size(5, 0), "abc").text, "");
}

#[test]
fn loading_is_centred() {
    assert_eq!(plain(&loading_line(&size(25, 80))), (12, 35, "Loading...", false));
    assert_eq!(plain(&loading_line(&size(2, 5))), (0, 0, "Loading...", false));
}

#[test]
fn toc_marks_page_and_selection() {
    let toc = vec![
        TocEntry {
            title: "Zero".to_owned(),
            page: 0,
            level: 0,
        },
        TocEntry {
            title: "One".to_owned(),
            page: 4,
            level: 0,
        },
        TocEntry {
            title: "Two".to_owned(),
            page: 5,
            level: 2,
        },
        TocEntry {
            title: "Three".to_owned(),
            page: 6,
            level: 0,
        },
    ];
    let lines = toc_lines(&size(3, 14), &toc, 1, 5);
    assert_eq!(lines.len(), 2);
    assert_eq!(plain(&lines[0]), (0, 0, " One  (p.5)   ", true));
    assert_eq!(plain(&lines[1]), (1, 0, ">    Two  (p.6", false));
    assert!(toc_lines(&size(3, 14), &toc, 4, 5).is_empty());
}

#[test]
fn metadata_overlay_lists_what_fits() {
    let metadata = vec![
        ("A".to_owned(), "one".to_owned()),
        ("B".to_owned(), "two".to_owned()),
    ];
    let lines = metadata_lines(&size(4, 20), &metadata);
    assert_eq!(lines.len(), 2);
    assert_eq!(plain(&lines[0]), (0, 0, " Document Metadata  ", true));
    assert_eq!(plain(&lines[1]), (2, 0, "  A: one", false));
    let none = metadata_lines(&size(4, 20), &[]);
    assert_eq!(none.len(), 2);
    assert_eq!(plain(&none[1]), (2, 2, "No metadata available.", false));
}

#[test]
fn links_overlay_is_numbered() {
    let links = vec![LinkInfo {
        text: "Page 3".to_owned(),
        uri: String::new(),
        page: Some(2),
    }];
    let lines = links_lines(&size(10, 30), &links, "1", 6);
    assert_eq!(lines.len(), 3);
    assert_eq!(lines[0].text, " Links on page 7 (1 found)    ");
    assert_eq!(plain(&lines[1]), (2, 0, "  1: Page 3", false));
    assert_eq!(
        plain(&lines[2]),
        (8, 0, "Enter number to follow (Esc to cancel): 1", false)
    );
    let none = links_lines(&size(10, 30), &[], "", 0);
    assert_eq!(plain(&none[1]), (2, 2, "No links on this page.", false));
}

#[test]
fn page_height_is_rounded_to_single_precision() {
    for (rows, cell) in [(25u16, 20u16), (65535, 65535), (4098, 4099), (8193, 8191), (60001, 333)] {
        let ws = WindowSize {
            rows,
            cols: 1,
            width_px: 1,
            cell_width_px: 1,
            cell_height_px: cell,
        };
        let exact = (rows - 1) as f32 * cell as f32;
        assert_eq!(ws.page_area_height_px(), exact as u32);
    }
}

#[test]
fn window_size_from_pixels_cells_or_guess() {
    let told = window_size_from(805, 490, 80, 24, None).unwrap();
    assert_eq!((told.width_px, told.cell_width_px, told.cell_height_px), (805, 10, 20));
    assert!(!needs_cell_query(805, 490, 80, 24));
    assert!(needs_cell_query(0, 490, 80, 24));
    let asked = window_size_from(0, 0, 80, 24, Some((9, 18))).unwrap();
    assert_eq!((asked.width_px, asked.cell_width_px, asked.cell_height_px), (720, 9, 18));
    let guessed = window_size_from(0, 0, 80, 24, None).unwrap();
    assert_eq!((guessed.width_px, guessed.cell_width_px, guessed.cell_height_px), (800, 10, 20));
    assert!(window_size_from(800, 480, 0, 24, None).is_none());
}

#[test]
fn cell_size_is_read_from_the_answer() {
    assert_eq!(parse_cell_size(b"\x1b[4;480;800".to_vec()), Ok((800, 480)));
    assert_eq!(parse_cell_size(b"\x1b[4\x1b[4;;+7;0009;x".to_vec()), Ok((9, 7)));
    assert_eq!(parse_cell_size(b"\x1b[4;480".to_vec()), Err(ReplyError::Unparseable));
    assert_eq!(parse_cell_size(b"\x1b[4;480;".to_vec()), Err(ReplyError::BadNumber));
    assert_eq!(parse_cell_size(b"\x1b[4;+;1".to_vec()), Err(ReplyError::BadNumber));
    assert_eq!(parse_cell_size(b"\x1b[4;65536;1".to_vec()), Err(ReplyError::BadNumber));
    assert_eq!(parse_cell_size(b"\x1b[4;-1;1".to_vec()), Err(ReplyError::BadNumber));
    assert_eq!(parse_cell_size(vec![b'4', 0xff]), Err(ReplyError::NotText));
    assert_eq!(parse_cell_size("\u{e9}1;2".as_bytes().to_vec()), Err(ReplyError::BadNumber));
    assert_eq!(parse_cell_size("1;2;\u{e9}".as_bytes().to_vec()), Ok((2, 1)));
}
