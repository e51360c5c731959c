//! The lines of text that are drawn on the terminal, above, below and over a
//! page.

use crate::renderer::{LinkInfo, TocEntry};
use crate::terminal::WindowSize;
use crate::text::{cut, cut_to, decimal, pad_right, padded, push_decimal, push_spaces, spaces};
use vstd::math::{max, min};
use vstd::prelude::*;

verus! {

/// A line of text and where it goes.
#[derive(Debug)]
pub struct Line {
    pub row: u16,
    pub col: u16,
    pub text: String,
    /// In reverse video.
    pub reverse: bool,
}

/// A [`Line`], mathematically.
#[verifier::ext_equal]
pub struct LineView {
    pub row: int,
    pub col: int,
    pub text: Seq<char>,
    pub reverse: bool,
}

impl View for Line {
    type V = LineView;

    open spec fn view(&self) -> LineView {
        LineView {
            row: self.row as int,
            col: self.col as int,
            text: self.text@,
            reverse: self.reverse,
        }
    }
}

/// The lines are these.
pub open spec fn draws(lines: Seq<Line>, views: Seq<LineView>) -> bool {
    &&& lines.len() == views.len()
    &&& forall|i: int| 0 <= i < lines.len() ==> (#[trigger] lines[i])@ == views[i]
}

/// The status bar: the content after a space, filled up or cut to the width of
/// the terminal, on its last row.
pub fn status_bar_line(ws: &WindowSize, content: &str) -> (line: Line)
    ensures
        line@ == (LineView {
            row: ws.page_rows_spec() as int,
            col: 0,
            text: cut(seq![' '] + padded(content@, ws.cols - 1), ws.cols as int),
            reverse: false,
        }),
{
    let width: usize = (ws.cols as usize).saturating_sub(1);
    let filled = pad_right(content, width);
    let mut text = String::new();
    text.push(' ');
    text.append(filled.as_str());
    proof {
        assert(spaces(width - content@.len()) =~= spaces(
            ws.cols - 1 - content@.len(),
        ));
    }
    Line {
        row: ws.page_rows(),
        col: 0,
        text: cut_to(text.as_str(), ws.cols as usize),
        reverse: false,
    }
}

/// The status bar fills the row that it is on, no more and no less.
pub proof fn law_status_bar_fills_row(cols: u16, content: Seq<char>)
    ensures
        cut(seq![' '] + padded(content, cols - 1), cols as int).len() == cols,
{
}

/// What is shown in the middle of the page area until the page is there.
pub fn loading_line(ws: &WindowSize) -> (line: Line)
    ensures
        line@ == (LineView {
            row: ws.page_rows_spec() as int / 2,
            col: if ws.cols < 10 {
                0
            } else {
                (ws.cols - 10) / 2
            },
            text: "Loading..."@,
            reverse: false,
        }),
{
    Line {
        row: ws.page_rows() / 2,
        col: ws.cols.saturating_sub(10) / 2,
        text: "Loading...".to_owned(),
        reverse: false,
    }
}

/// An entry of the table of contents in full: whether it begins on the shown
/// page, its title, indented by its level, and its page.
pub open spec fn toc_text(entry: TocEntry, current_page: usize) -> Seq<char> {
    (if entry.page == current_page {
        ">"@
    } else {
        " "@
    }) + spaces(2 * entry.level) + entry.title@ + "  (p."@ + decimal(
        (entry.page + 1) as nat,
    ) + ")"@
}

/// Row `row` of the table of contents; the first row is the selected one.
pub open spec fn toc_line(ws: WindowSize, entry: TocEntry, row: int, current_page: usize) -> LineView {
    let text = cut(toc_text(entry, current_page), ws.cols as int);
    LineView {
        row,
        col: 0,
        text: if row == 0 {
            padded(text, ws.cols as int)
        } else {
            text
        },
        reverse: row == 0,
    }
}

/// The number of entries shown from entry `scroll` on.
pub open spec fn toc_shown(ws: WindowSize, n: nat, scroll: usize) -> nat {
    if n <= scroll {
        0
    } else if n - scroll < ws.page_rows_spec() {
        (n - scroll) as nat
    } else {
        ws.page_rows_spec() as nat
    }
}

fn toc_entry_text(entry: &TocEntry, current_page: usize) -> (text: String)
    ensures
        text@ == toc_text(*entry, current_page),
{
    let mut text = if entry.page == current_page {
        ">".to_owned()
    } else {
        " ".to_owned()
    };
    push_spaces(&mut text, entry.level);
    push_spaces(&mut text, entry.level);
    proof {
        assert(spaces(entry.level as int) + spaces(entry.level as int)
            =~= spaces(2 * entry.level));
    }
    text.append(entry.title.as_str());
    text.append("  (p.");
    push_decimal(&mut text, entry.page as u128 + 1);
    text.append(")");
    proof {
        assert(text@ =~= toc_text(*entry, current_page));
    }
    text
}

/// The table of contents from entry `scroll` on, as far as it fits.
pub fn toc_lines(ws: &WindowSize, toc: &[TocEntry], scroll: usize, current_page: usize) -> (lines:
    Vec<Line>)
    ensures
        draws(
            lines@,
            Seq::new(
                toc_shown(*ws, toc@.len(), scroll),
                |row: int| toc_line(*ws, toc@[scroll + row], row, current_page),
            ),
        ),
{
    let cols: usize = ws.cols as usize;
    let max_rows: u16 = ws.page_rows();
    let n: usize = toc.len();
    let mut lines: Vec<Line> = Vec::new();
    let mut row: u16 = 0;
    while row < max_rows && scroll < n && (row as usize) < n - scroll
        invariant
            n == toc@.len(),
            max_rows == ws.page_rows_spec(),
            cols == ws.cols,
            row == lines@.len(),
            row <= toc_shown(*ws, toc@.len(), scroll),
            forall|i: int|
                0 <= i < row ==> (#[trigger] lines@[i])@ == toc_line(
                    *ws,
                    toc@[scroll + i],
                    i,
                    current_page,
                ),
        decreases max_rows - row,
    {
        let entry = &toc[scroll + row as usize];
        let full = toc_entry_text(entry, current_page);
        let display = cut_to(full.as_str(), cols);
        let text = if row == 0 {
            pad_right(display.as_str(), cols)
        } else {
            display
        };
        lines.push(Line { row, col: 0, text, reverse: row == 0 });
        row += 1;
    }
    lines
}

/// The heading of an overlay: reversed, as wide as the terminal.
pub open spec fn heading(ws: WindowSize, title: Seq<char>) -> LineView {
    LineView {
        row: 0,
        col: 0,
        text: padded(title, ws.cols as int),
        reverse: true,
    }
}

fn heading_line(ws: &WindowSize, title: &str) -> (line: Line)
    ensures
        line@ == heading(*ws, title@),
{
    Line { row: 0, col: 0, text: pad_right(title, ws.cols as usize), reverse: true }
}

/// What an overlay says that has nothing to list.
pub open spec fn remark(text: Seq<char>) -> LineView {
    LineView { row: 2, col: 2, text, reverse: false }
}

/// Entry `i` of an overlay: entries begin two rows below the heading and are
/// cut at the width of the terminal.
pub open spec fn listed(ws: WindowSize, i: int, text: Seq<char>) -> LineView {
    LineView {
        row: i + 2,
        col: 0,
        text: cut(text, ws.cols as int),
        reverse: false,
    }
}

/// The number of entries, of `n`, that fit above row `end`.
pub open spec fn fitting(n: nat, end: int) -> nat {
    if n + 2 <= end {
        n
    } else if end <= 2 {
        0
    } else {
        (end - 2) as nat
    }
}

/// A metadata entry in full.
pub open spec fn metadata_text(entry: (String, String)) -> Seq<char> {
    "  "@ + entry.0@ + ": "@ + entry.1@
}

/// The metadata overlay.
pub open spec fn metadata_view(ws: WindowSize, metadata: Seq<(String, String)>) -> Seq<LineView> {
    seq![heading(ws, " Document Metadata"@)] + Seq::new(
        fitting(metadata.len(), ws.page_rows_spec() as int),
        |i: int| listed(ws, i, metadata_text(metadata[i])),
    ) + if metadata.len() == 0 {
        seq![remark("No metadata available."@)]
    } else {
        Seq::empty()
    }
}

/// [`metadata_view`], as lines.
pub fn metadata_lines(ws: &WindowSize, metadata: &[(String, String)]) -> (lines: Vec<Line>)
    ensures
        draws(lines@, metadata_view(*ws, metadata@)),
{
    let cols: usize = ws.cols as usize;
    let end: u16 = ws.page_rows();
    let n: usize = metadata.len();
    let mut lines: Vec<Line> = Vec::new();
    lines.push(heading_line(ws, " Document Metadata"));
    let mut row: u16 = 2;
    while row < end && (row as usize) - 2 < n
        invariant
            n == metadata@.len(),
            end == ws.page_rows_spec(),
            cols == ws.cols,
            2 <= row,
            lines@.len() == row - 1,
            row - 2 <= fitting(metadata@.len(), end as int),
            lines@[0]@ == heading(*ws, " Document Metadata"@),
            forall|i: int|
                1 <= i < row - 1 ==> (#[trigger] lines@[i])@ == listed(
                    *ws,
                    i - 1,
                    metadata_text(metadata@[i - 1]),
                ),
        decreases end - row,
    {
        let entry = &metadata[row as usize - 2];
        let mut text = "  ".to_owned();
        text.append(entry.0.as_str());
        text.append(": ");
        text.append(entry.1.as_str());
        assert(text@ =~= metadata_text(*entry));
        lines.push(Line { row, col: 0, text: cut_to(text.as_str(), cols), reverse: false });
        row += 1;
    }
    if n == 0 {
        lines.push(
            Line { row: 2, col: 2, text: "No metadata available.".to_owned(), reverse: false },
        );
    }
    lines
}

/// The heading of the links overlay.
pub open spec fn links_title(page_num: usize, n: nat) -> Seq<char> {
    " Links on page "@ + decimal((page_num + 1) as nat) + " ("@
        + decimal(n) + " found)"@
}

/// Link `i` in full; links are numbered from one.
pub open spec fn link_text(i: int, link: LinkInfo) -> Seq<char> {
    "  "@ + decimal((i + 1) as nat) + ": "@ + link.text@
}

/// The row of the prompt: the last one above the status bar.
pub open spec fn prompt_row(ws: WindowSize) -> int {
    if ws.page_rows_spec() == 0 {
        0
    } else {
        ws.page_rows_spec() - 1
    }
}

/// The links overlay.
pub open spec fn links_view(
    ws: WindowSize,
    links: Seq<LinkInfo>,
    input: Seq<char>,
    page_num: usize,
) -> Seq<LineView> {
    seq![heading(ws, links_title(page_num, links.len()))] + (if links.len() == 0 {
        seq![remark("No links on this page."@)]
    } else {
        Seq::new(
            fitting(links.len(), prompt_row(ws)),
            |i: int| listed(ws, i, link_text(i, links[i])),
        )
    }) + seq![
        LineView {
            row: prompt_row(ws),
            col: 0,
            text: "Enter number to follow (Esc to cancel): "@ + input,
            reverse: false,
        },
    ]
}

fn links_heading(page_num: usize, n: usize) -> (title: String)
    ensures
        title@ == links_title(page_num, n as nat),
{
    let mut title = " Links on page ".to_owned();
    push_decimal(&mut title, page_num as u128 + 1);
    title.append(" (");
    push_decimal(&mut title, n as u128);
    title.append(" found)");
    assert(title@ =~= links_title(page_num, n as nat));
    title
}

/// [`links_view`], as lines.
pub fn links_lines(ws: &WindowSize, links: &[LinkInfo], input: &str, page_num: usize) -> (lines:
    Vec<Line>)
    ensures
        draws(lines@, links_view(*ws, links@, input@, page_num)),
{
    let cols: usize = ws.cols as usize;
    let end: u16 = ws.page_rows().saturating_sub(1);
    let n: usize = links.len();
    let mut lines: Vec<Line> = Vec::new();
    let title = links_heading(page_num, n);
    lines.push(heading_line(ws, title.as_str()));
    let ghost first = heading(*ws, links_title(page_num, links@.len()));
    if n == 0 {
        lines.push(
            Line { row: 2, col: 2, text: "No links on this page.".to_owned(), reverse: false },
        );
    }
    let mut row: u16 = 2;
    while row < end && (row as usize) - 2 < n
        invariant
            n == links@.len(),
            end == prompt_row(*ws),
            cols == ws.cols,
            2 <= row,
            n > 0 ==> lines@.len() == row - 1,
            n == 0 ==> lines@.len() == 2 && lines@[1]@ == remark("No links on this page."@),
            n > 0 ==> row - 2 <= fitting(links@.len(), end as int),
            lines@[0]@ == first,
            n > 0 ==> forall|i: int|
                1 <= i < row - 1 ==> (#[trigger] lines@[i])@ == listed(
                    *ws,
                    i - 1,
                    link_text(i - 1, links@[i - 1]),
                ),
        decreases end - row,
    {
        let i: usize = row as usize - 2;
        let mut text = "  ".to_owned();
        push_decimal(&mut text, i as u128 + 1);
        text.append(": ");
        text.append(links[i].text.as_str());
        assert(text@ =~= link_text(i as int, links@[i as int]));
        lines.push(Line { row, col: 0, text: cut_to(text.as_str(), cols), reverse: false });
        row += 1;
    }
    let mut prompt = "Enter number to follow (Esc to cancel): ".to_owned();
    prompt.append(input);
    lines.push(Line { row: end, col: 0, text: prompt, reverse: false });
    lines
}

/// The table of contents stays above the status bar and within the width of
/// the terminal; its first line, the selected one, fills that width.
pub proof fn law_toc_stays_in_place(
    ws: WindowSize,
    toc: Seq<TocEntry>,
    scroll: usize,
    row: int,
    current_page: usize,
)
    requires
        0 <= row < toc_shown(ws, toc.len(), scroll),
    ensures
        scroll + row < toc.len(),
        toc_line(ws, toc[scroll + row], row, current_page).row < ws.page_rows_spec(),
        toc_line(ws, toc[scroll + row], row, current_page).text.len() <= ws.cols,
        row == 0 ==> toc_line(ws, toc[scroll + row], row, current_page).text.len() == ws.cols,
{
}

/// The entries of the other overlays stay between the heading and the status
/// bar, those of the links above the prompt as well, and within the width of
/// the terminal.
pub proof fn law_listed_entries_stay_in_place(ws: WindowSize, n: nat, i: int, text: Seq<char>)
    ensures
        listed(ws, i, text).text.len() <= ws.cols,
        0 <= i < fitting(n, ws.page_rows_spec() as int) ==> 2 <= listed(ws, i, text).row
            < ws.page_rows_spec() && i < n,
        0 <= i < fitting(n, prompt_row(ws)) ==> 2 <= listed(ws, i, text).row < prompt_row(ws) && i
            < n,
{
}

/// An entry of the table of contents shows whether it begins on the shown page,
/// is indented by two columns a level, and has its title and its page, counted
/// from one.
pub proof fn law_toc_entry_is_shown_in_full(entry: TocEntry, current_page: usize)
    ensures
        ({
            let text = toc_text(entry, current_page);
            let at = 1 + 2 * entry.level;
            let end = at + entry.title@.len();
            &&& at <= end <= text.len()
            &&& entry.page == current_page ==> text[0] == '>'
            &&& entry.page != current_page ==> text[0] == ' '
            &&& forall|i: int| 1 <= i < at ==> #[trigger] text[i] == ' '
            &&& text.subrange(at, end) == entry.title@
            &&& text.skip(end) == "  (p."@ + decimal((entry.page + 1) as nat) + ")"@
        }),
{
    reveal_strlit(">");
    reveal_strlit(" ");
    let text = toc_text(entry, current_page);
    let at = 1 + 2 * entry.level;
    let end = at + entry.title@.len();
    assert(text.subrange(at, end) =~= entry.title@);
    assert(text.skip(end) =~= "  (p."@ + decimal((entry.page + 1) as nat) + ")"@);
}

/// The table of contents shows as many entries as there are rows for, from the
/// first that is to be seen on, each on the row after the one before; the first
/// row is the selected one. What does not fit on a row is cut off.
pub proof fn law_toc_is_shown_from_scroll(
    ws: WindowSize,
    toc: Seq<TocEntry>,
    scroll: usize,
    row: int,
    current_page: usize,
)
    requires
        0 <= row < toc_shown(ws, toc.len(), scroll),
    ensures
        toc_shown(ws, toc.len(), scroll) == min(
            max(0, toc.len() - scroll),
            max(0, ws.rows - 1),
        ),
        ({
            let line = toc_line(ws, toc[scroll + row], row, current_page);
            let full = toc_text(toc[scroll + row], current_page);
            let shown = min(full.len() as int, ws.cols as int);
            &&& line.row == row && line.col == 0
            &&& line.reverse <==> row == 0
            &&& line.text.take(shown) == full.take(shown)
            &&& row > 0 ==> line.text.len() == shown
            &&& row == 0 ==> line.text.len() == ws.cols
        }),
{
    let line = toc_line(ws, toc[scroll + row], row, current_page);
    let full = toc_text(toc[scroll + row], current_page);
    let shown = min(full.len() as int, ws.cols as int);
    assert(line.text.take(shown) =~= full.take(shown));
}

/// No entry is shown if the first that is to be seen is past the last one.
pub proof fn law_toc_ends(ws: WindowSize, n: nat, scroll: usize)
    ensures
        toc_shown(ws, n, scroll) == min(max(0, n - scroll), max(0, ws.rows - 1)),
{
}

/// The overlay of metadata has a heading and lists the entries in their order
/// from the third row on, as many as there are rows for; each shows its name and
/// its value as far as they fit. Without entries it says so.
pub proof fn law_metadata_is_listed(ws: WindowSize, metadata: Seq<(String, String)>, i: int)
    ensures
        ({
            let view = metadata_view(ws, metadata);
            let listed_entries = min(metadata.len() as int, max(0, ws.rows - 3));
            &&& view.len() == if metadata.len() == 0 {
                2
            } else {
                1 + listed_entries
            }
            &&& view[0].row == 0 && view[0].reverse
            &&& " Document Metadata"@.is_prefix_of(view[0].text)
            &&& metadata.len() == 0 ==> view[1].text == "No metadata available."@
            &&& 0 <= i < listed_entries ==> {
                let full = "  "@ + metadata[i].0@ + ": "@ + metadata[i].1@;
                &&& view[1 + i].row == i + 2
                &&& view[1 + i].text == full.take(min(full.len() as int, ws.cols as int))
            }
        }),
{
    let view = metadata_view(ws, metadata);
    assert(view[0].text.take(" Document Metadata"@.len() as int) =~= " Document Metadata"@);
    let listed_entries = min(metadata.len() as int, max(0, ws.rows - 3));
    if 0 <= i < listed_entries {
        let full = "  "@ + metadata[i].0@ + ": "@ + metadata[i].1@;
        assert(view[1 + i].text =~= full.take(min(full.len() as int, ws.cols as int)));
    }
}

/// The overlay of links has a heading that counts them, lists them in their
/// order from the third row on, numbered from one, as many as fit above the
/// prompt, and ends with the prompt and what has been typed.
pub proof fn law_links_are_listed(
    ws: WindowSize,
    links: Seq<LinkInfo>,
    input: Seq<char>,
    page_num: usize,
    i: int,
)
    ensures
        ({
            let view = links_view(ws, links, input, page_num);
            let prompt = max(0, ws.rows - 2);
            let listed_links = min(links.len() as int, max(0, prompt - 2));
            let title = " Links on page "@ + decimal((page_num + 1) as nat) + " ("@ + decimal(
                links.len(),
            ) + " found)"@;
            &&& view.len() == 2 + if links.len() == 0 {
                1
            } else {
                listed_links
            }
            &&& view[0].row == 0 && view[0].reverse
            &&& title.is_prefix_of(view[0].text)
            &&& view.last().row == prompt
            &&& view.last().text == "Enter number to follow (Esc to cancel): "@ + input
            &&& links.len() == 0 ==> view[1].text == "No links on this page."@
            &&& 0 <= i < listed_links ==> {
                let full = "  "@ + decimal((i + 1) as nat) + ": "@ + links[i].text@;
                &&& view[1 + i].row == i + 2
                &&& view[1 + i].text == full.take(min(full.len() as int, ws.cols as int))
            }
        }),
{
    let view = links_view(ws, links, input, page_num);
    let title = " Links on page "@ + decimal((page_num + 1) as nat) + " ("@ + decimal(links.len())
        + " found)"@;
    assert(view[0].text.take(title.len() as int) =~= title);
    let prompt = max(0, ws.rows - 2);
    let listed_links = min(links.len() as int, max(0, prompt - 2));
    if 0 <= i < listed_links {
        let full = "  "@ + decimal((i + 1) as nat) + ": "@ + links[i].text@;
        assert(view[1 + i].text =~= full.take(min(full.len() as int, ws.cols as int)));
    }
}

/// What is drawn is what is to be drawn: as many lines, each on its row and
/// column, with its text, and reversed or not.
pub proof fn law_drawn_as_planned(lines: Seq<Line>, views: Seq<LineView>, i: int)
    requires
        draws(lines, views),
    ensures
        lines.len() == views.len(),
        0 <= i < lines.len() ==> {
            &&& lines[i].row == views[i].row
            &&& lines[i].col == views[i].col
            &&& lines[i].text@ == views[i].text
            &&& lines[i].reverse == views[i].reverse
        },
{
}

/// A heading fills its row; a remark stands below it and is indented; entries
/// begin at the left edge and are not reversed.
pub proof fn law_overlay_lines(ws: WindowSize, title: Seq<char>, i: int, text: Seq<char>)
    ensures
        heading(ws, title).row == 0 && heading(ws, title).col == 0 && heading(ws, title).reverse,
        title.is_prefix_of(heading(ws, title).text),
        heading(ws, title).text.len() == max(title.len() as int, ws.cols as int),
        remark(text) == (LineView { row: 2, col: 2, text, reverse: false }),
        listed(ws, i, text).row == i + 2 && listed(ws, i, text).col == 0,
        !listed(ws, i, text).reverse,
        listed(ws, i, text).text == text.take(min(text.len() as int, ws.cols as int)),
{
    assert(heading(ws, title).text.take(title.len() as int) =~= title);
    assert(text.take(text.len() as int) =~= text);
}

/// A line is drawn with all that it holds.
pub proof fn law_all_of_a_line(line: Line)
    ensures
        line@.row == line.row && line@.col == line.col && line@.text == line.text@ && line@.reverse
            == line.reverse,
{
}

} // verus!
