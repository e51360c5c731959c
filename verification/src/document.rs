//! What a document says of itself: its outline, its links, its metadata.

use crate::renderer::{LinkInfo, RenderInfo, TocEntry};
use crate::text::{decimal, is_white, law_trim_takes_white_ends, push_decimal, trim, trimmed};
use vstd::prelude::*;

verus! {

/// An entry of a document's outline, with the entries below it.
pub struct Outline {
    pub title: String,
    /// The page it leads to, if it leads to one.
    pub page: Option<u32>,
    pub down: Vec<Outline>,
}

/// A [`TocEntry`], mathematically.
pub struct TocView {
    pub title: Seq<char>,
    pub page: nat,
    pub level: nat,
}

impl View for TocEntry {
    type V = TocView;

    open spec fn view(&self) -> TocView {
        TocView { title: self.title@, page: self.page as nat, level: self.level as nat }
    }
}

/// The entries of an outline one after the other, each before those below it.
/// One that leads nowhere is taken to lead to the first page.
pub open spec fn flattened(outlines: Seq<Outline>, level: nat) -> Seq<TocView>
    decreases outlines,
{
    if outlines.len() == 0 {
        Seq::empty()
    } else {
        let last = outlines[outlines.len() - 1];
        flattened(outlines.subrange(0, outlines.len() - 1), level).push(
            TocView {
                title: last.title@,
                page: match last.page {
                    Some(page) => page as nat,
                    None => 0,
                },
                level,
            },
        ) + flattened(last.down@, level + 1)
    }
}

/// The number of levels of an outline.
pub open spec fn levels(outlines: Seq<Outline>) -> nat
    decreases outlines,
{
    if outlines.len() == 0 {
        0
    } else {
        let before = levels(outlines.subrange(0, outlines.len() - 1));
        let below = levels(outlines[outlines.len() - 1].down@) + 1;
        if before < below {
            below
        } else {
            before
        }
    }
}

/// The views of the entries.
pub open spec fn toc_views(toc: Seq<TocEntry>) -> Seq<TocView> {
    toc.map_values(|entry: TocEntry| entry@)
}

/// The levels of an outline's entry.
proof fn lemma_levels(outlines: Seq<Outline>, i: int)
    requires
        0 <= i < outlines.len(),
    ensures
        levels(outlines[i].down@) < levels(outlines),
    decreases outlines.len(),
{
    if i < outlines.len() - 1 {
        lemma_levels(outlines.subrange(0, outlines.len() - 1), i);
    }
}

/// Appends the entries of an outline to a table of contents.
pub fn flatten_outlines(outlines: &Vec<Outline>, level: usize, out: &mut Vec<TocEntry>)
    requires
        level + levels(outlines@) <= usize::MAX,
    ensures
        toc_views(final(out)@) == toc_views(old(out)@) + flattened(outlines@, level as nat),
    decreases levels(outlines@),
{
    let ghost start = toc_views(out@);
    let mut i: usize = 0;
    proof {
        assert(toc_views(out@) =~= start + flattened(outlines@.subrange(0, 0), level as nat));
    }
    while i < outlines.len()
        invariant
            i <= outlines@.len(),
            level + levels(outlines@) <= usize::MAX,
            toc_views(out@) == start + flattened(outlines@.subrange(0, i as int), level as nat),
        decreases outlines@.len() - i,
    {
        let o = &outlines[i];
        let page: usize = match o.page {
            Some(page) => page as usize,
            None => 0,
        };
        let ghost before = out@;
        out.push(TocEntry { title: o.title.clone(), page, level });
        let ghost now = out@;
        proof {
            lemma_levels(outlines@, i as int);
            assert(toc_views(now) =~= toc_views(before).push(now.last()@));
        }
        flatten_outlines(&o.down, level + 1, out);
        proof {
            let done = outlines@.subrange(0, i + 1);
            assert(done.subrange(0, i as int) =~= outlines@.subrange(0, i as int));
            assert(toc_views(out@) =~= start + flattened(done, level as nat));
        }
        i += 1;
    }
    proof {
        assert(outlines@.subrange(0, i as int) =~= outlines@);
    }
}

/// Where a link leads: its address, and its page, if it leads within the
/// document.
pub struct LinkTarget {
    pub uri: String,
    pub page: Option<u32>,
}

/// The text of a link.
pub open spec fn link_label(target: LinkTarget) -> Seq<char> {
    match target.page {
        Some(page) => "Page "@ + decimal((page + 1) as nat),
        None => target.uri@,
    }
}

/// The link says where it leads.
pub open spec fn describes(link: LinkInfo, target: LinkTarget) -> bool {
    &&& link.text@ == link_label(target)
    &&& link.uri@ == target.uri@
    &&& link.page == match target.page {
        Some(page) => Some(page as usize),
        None => None,
    }
}

/// The links of a page, in their order.
pub fn extract_links(targets: &Vec<LinkTarget>) -> (links: Vec<LinkInfo>)
    ensures
        links@.len() == targets@.len(),
        forall|i: int|
            0 <= i < links@.len() ==> describes(#[trigger] links@[i], targets@[i]),
{
    let mut links: Vec<LinkInfo> = Vec::new();
    let mut i: usize = 0;
    while i < targets.len()
        invariant
            i <= targets@.len(),
            links@.len() == i,
            forall|k: int| 0 <= k < i ==> describes(#[trigger] links@[k], targets@[k]),
        decreases targets@.len() - i,
    {
        let target = &targets[i];
        let uri = target.uri.clone();
        let (text, page): (String, Option<usize>) = match target.page {
            Some(page) => {
                let mut text = "Page ".to_owned();
                push_decimal(&mut text, page as u128 + 1);
                (text, Some(page as usize))
            },
            None => (target.uri.clone(), None),
        };
        links.push(LinkInfo { text, uri, page });
        i += 1;
    }
    links
}

/// What a document may say of itself.
#[derive(Debug, Clone, Copy, PartialEq, Eq, Structural)]
pub enum MetadataKey {
    Format,
    Encryption,
    Title,
    Author,
    Subject,
    Keywords,
    Creator,
    Producer,
    CreationDate,
    ModDate,
}

impl MetadataKey {
    /// What the entry is called.
    pub open spec fn name(self) -> Seq<char> {
        match self {
            MetadataKey::Format => "Format"@,
            MetadataKey::Encryption => "Encryption"@,
            MetadataKey::Title => "Title"@,
            MetadataKey::Author => "Author"@,
            MetadataKey::Subject => "Subject"@,
            MetadataKey::Keywords => "Keywords"@,
            MetadataKey::Creator => "Creator"@,
            MetadataKey::Producer => "Producer"@,
            MetadataKey::CreationDate => "Creation Date"@,
            MetadataKey::ModDate => "Modification Date"@,
        }
    }

    /// [`MetadataKey::name`], computed.
    pub fn label(self) -> (label: String)
        ensures
            label@ == self.name(),
    {
        let label = match self {
            MetadataKey::Format => "Format",
            MetadataKey::Encryption => "Encryption",
            MetadataKey::Title => "Title",
            MetadataKey::Author => "Author",
            MetadataKey::Subject => "Subject",
            MetadataKey::Keywords => "Keywords",
            MetadataKey::Creator => "Creator",
            MetadataKey::Producer => "Producer",
            MetadataKey::CreationDate => "Creation Date",
            MetadataKey::ModDate => "Modification Date",
        };
        label.to_owned()
    }
}

/// The order in which entries are shown.
pub open spec fn key_order() -> Seq<MetadataKey> {
    seq![
        MetadataKey::Format,
        MetadataKey::Encryption,
        MetadataKey::Title,
        MetadataKey::Author,
        MetadataKey::Subject,
        MetadataKey::Keywords,
        MetadataKey::Creator,
        MetadataKey::Producer,
        MetadataKey::CreationDate,
        MetadataKey::ModDate,
    ]
}

/// [`key_order`], as a vector.
pub fn metadata_keys() -> (keys: Vec<MetadataKey>)
    ensures
        keys@ == key_order(),
{
    let keys = vec![
        MetadataKey::Format,
        MetadataKey::Encryption,
        MetadataKey::Title,
        MetadataKey::Author,
        MetadataKey::Subject,
        MetadataKey::Keywords,
        MetadataKey::Creator,
        MetadataKey::Producer,
        MetadataKey::CreationDate,
        MetadataKey::ModDate,
    ];
    assert(keys@ =~= key_order());
    keys
}

/// The entry that is shown of an answer: nothing of one that is blank.
pub open spec fn shown_entry(key: MetadataKey, answer: Option<String>) -> Seq<
    (Seq<char>, Seq<char>),
> {
    match answer {
        Some(value) if trimmed(value@).len() > 0 => seq![
            (key.name(), trimmed(value@)),
        ],
        _ => Seq::empty(),
    }
}

/// The entries that are shown of the first `n` answers.
pub open spec fn shown_entries(answers: Seq<(MetadataKey, Option<String>)>, n: nat) -> Seq<
    (Seq<char>, Seq<char>),
>
    decreases n,
{
    if n == 0 {
        Seq::empty()
    } else {
        shown_entries(answers, (n - 1) as nat) + shown_entry(answers[n - 1].0, answers[n - 1].1)
    }
}

/// The entries, as text.
pub open spec fn entry_views(entries: Seq<(String, String)>) -> Seq<(Seq<char>, Seq<char>)> {
    entries.map_values(|e: (String, String)| (e.0@, e.1@))
}

/// The metadata to show, of the document's answers: trimmed, and without the
/// blank ones.
pub fn extract_metadata(answers: &Vec<(MetadataKey, Option<String>)>) -> (meta: Vec<
    (String, String),
>)
    ensures
        entry_views(meta@) == shown_entries(answers@, answers@.len()),
{
    let mut meta: Vec<(String, String)> = Vec::new();
    let mut i: usize = 0;
    proof {
        assert(entry_views(meta@) =~= shown_entries(answers@, 0));
    }
    while i < answers.len()
        invariant
            i <= answers@.len(),
            entry_views(meta@) == shown_entries(answers@, i as nat),
        decreases answers@.len() - i,
    {
        let ghost before = meta@;
        let (key, answer) = &answers[i];
        if let Some(value) = answer {
            let value = trim(value.as_str());
            if !value.as_str().is_empty() {
                meta.push((key.label(), value));
            }
        }
        proof {
            assert(entry_views(meta@) =~= shown_entries(answers@, (i + 1) as nat));
        }
        i += 1;
    }
    meta
}

/// What the viewer is told of a document, mathematically.
pub enum Told {
    NumPages(nat),
    Toc(Seq<TocView>),
    Metadata(Seq<(Seq<char>, Seq<char>)>),
}

/// The message says this.
pub open spec fn tells(message: RenderInfo, told: Told) -> bool {
    match (message, told) {
        (RenderInfo::NumPages(n), Told::NumPages(m)) => n == m,
        (RenderInfo::Toc(toc), Told::Toc(views)) => toc_views(toc@) == views,
        (RenderInfo::Metadata(entries), Told::Metadata(views)) => entry_views(entries@) == views,
        _ => false,
    }
}

/// What the viewer is told once the pages are counted: their number first, then
/// the table of contents and the metadata, each of them only if there is some.
pub open spec fn introduction(
    n_pages: usize,
    outlines: Seq<Outline>,
    answers: Seq<(MetadataKey, Option<String>)>,
) -> Seq<Told> {
    let toc = flattened(outlines, 0);
    let metadata = shown_entries(answers, answers.len());
    seq![Told::NumPages(n_pages as nat)] + (if toc.len() == 0 {
        Seq::empty()
    } else {
        seq![Told::Toc(toc)]
    }) + (if metadata.len() == 0 {
        Seq::empty()
    } else {
        seq![Told::Metadata(metadata)]
    })
}

/// [`introduction`], as messages.
pub fn document_messages(
    n_pages: usize,
    outlines: &Vec<Outline>,
    answers: &Vec<(MetadataKey, Option<String>)>,
) -> (messages: Vec<RenderInfo>)
    requires
        levels(outlines@) <= usize::MAX,
    ensures
        messages@.len() == introduction(n_pages, outlines@, answers@).len(),
        forall|i: int|
            0 <= i < messages@.len() ==> tells(
                #[trigger] messages@[i],
                introduction(n_pages, outlines@, answers@)[i],
            ),
{
    let mut messages: Vec<RenderInfo> = Vec::new();
    messages.push(RenderInfo::NumPages(n_pages));
    let mut toc: Vec<TocEntry> = Vec::new();
    flatten_outlines(outlines, 0, &mut toc);
    proof {
        assert(toc_views(Seq::<TocEntry>::empty()) + flattened(outlines@, 0) =~= flattened(
            outlines@,
            0,
        ));
        assert(toc_views(toc@).len() == toc@.len());
    }
    if toc.len() > 0 {
        messages.push(RenderInfo::Toc(toc));
    }
    let metadata = extract_metadata(answers);
    proof {
        assert(entry_views(metadata@).len() == metadata@.len());
    }
    if metadata.len() > 0 {
        messages.push(RenderInfo::Metadata(metadata));
    }
    messages
}

/// The number of entries of an outline, at all depths.
pub open spec fn entry_count(outlines: Seq<Outline>) -> nat
    decreases outlines,
{
    if outlines.len() == 0 {
        0
    } else {
        let last = outlines[outlines.len() - 1];
        entry_count(outlines.subrange(0, outlines.len() - 1)) + 1 + entry_count(last.down@)
    }
}

/// The table of contents has one entry for each entry of the outline, at
/// whatever depth.
pub proof fn law_toc_counts_every_entry(outlines: Seq<Outline>, level: nat)
    ensures
        flattened(outlines, level).len() == entry_count(outlines),
    decreases outlines,
{
    if outlines.len() > 0 {
        law_toc_counts_every_entry(outlines.subrange(0, outlines.len() - 1), level);
        law_toc_counts_every_entry(outlines[outlines.len() - 1].down@, level + 1);
    }
}

/// The tables of contents of two parts of an outline, one after the other, are
/// that of the whole, on every level.
pub proof fn law_toc_of_parts(a: Seq<Outline>, b: Seq<Outline>, level: nat)
    ensures
        flattened(a + b, level) == flattened(a, level) + flattened(b, level),
    decreases b.len(),
{
    let all = a + b;
    if b.len() == 0 {
        assert(all =~= a);
        assert(flattened(a, level) + flattened(b, level) =~= flattened(a, level));
    } else {
        let rest = b.subrange(0, b.len() - 1);
        assert(all.subrange(0, all.len() - 1) =~= a + rest);
        assert(all[all.len() - 1] == b[b.len() - 1]);
        law_toc_of_parts(a, rest, level);
        assert(flattened(all, level) =~= flattened(a, level) + flattened(b, level));
    }
}

/// An entry stands before those below it, which are one level deeper; one that
/// leads nowhere leads to the first page.
pub proof fn law_toc_of_one_entry(entry: Outline, level: nat)
    ensures
        ({
            let toc = flattened(seq![entry], level);
            &&& toc.len() > 0
            &&& toc[0].title == entry.title@
            &&& toc[0].level == level
            &&& entry.page matches Some(page) ==> toc[0].page == page
            &&& entry.page is None ==> toc[0].page == 0
            &&& toc.skip(1) == flattened(entry.down@, level + 1)
        }),
{
    let one = seq![entry];
    assert(one.subrange(0, 0) =~= Seq::<Outline>::empty());
    reveal_with_fuel(flattened, 2);
    assert(flattened(one, level).skip(1) =~= flattened(entry.down@, level + 1));
}

/// The path leads to an entry of the outline: first to one of its entries, then
/// to one of those below that, and so on.
pub open spec fn leads_to_entry(outlines: Seq<Outline>, path: Seq<int>) -> bool
    decreases path.len(),
{
    &&& path.len() > 0
    &&& 0 <= path[0] < outlines.len()
    &&& path.len() > 1 ==> leads_to_entry(outlines[path[0]].down@, path.skip(1))
}

/// The entry that the path leads to.
pub open spec fn entry_at(outlines: Seq<Outline>, path: Seq<int>) -> Outline
    decreases path.len(),
{
    if path.len() <= 1 {
        outlines[path[0]]
    } else {
        entry_at(outlines[path[0]].down@, path.skip(1))
    }
}

/// Every entry of an outline, at every depth, is in the table of contents, with
/// its title, its page and its depth.
pub proof fn law_toc_holds_every_entry(outlines: Seq<Outline>, level: nat, path: Seq<int>)
    requires
        leads_to_entry(outlines, path),
    ensures
        ({
            let entry = entry_at(outlines, path);
            let toc = flattened(outlines, level);
            exists|i: int|
                0 <= i < toc.len() && (#[trigger] toc[i]).title == entry.title@ && toc[i].level
                    == level + path.len() - 1 && toc[i].page == if entry.page is Some {
                    entry.page->0 as int
                } else {
                    0
                }
        }),
    decreases path.len(),
{
    let at = path[0];
    let one = seq![outlines[at]];
    let before = outlines.subrange(0, at);
    let after = outlines.skip(at + 1);
    assert(outlines =~= before + (one + after));
    law_toc_of_parts(before, one + after, level);
    law_toc_of_parts(one, after, level);
    law_toc_of_one_entry(outlines[at], level);
    let toc = flattened(outlines, level);
    let start = flattened(before, level).len() as int;
    assert(toc[start] == flattened(one, level)[0]);
    if path.len() > 1 {
        let down = outlines[at].down@;
        law_toc_holds_every_entry(down, level + 1, path.skip(1));
        let below = flattened(down, level + 1);
        let entry = entry_at(outlines, path);
        let k = choose|k: int|
            0 <= k < below.len() && (#[trigger] below[k]).title == entry.title@ && below[k].level
                == level + 1 + path.skip(1).len() - 1 && below[k].page == if entry.page is Some {
                entry.page->0 as int
            } else {
                0
            };
        assert(flattened(one, level).skip(1)[k] == below[k]);
        assert(toc[start + 1 + k] == below[k]);
    }
}

/// A link says where it leads: to a page, which it names counting from one, or
/// to an address, which is its text.
pub proof fn law_link_says_where_it_leads(link: LinkInfo, target: LinkTarget)
    requires
        describes(link, target),
    ensures
        link.uri@ == target.uri@,
        link.page is Some <==> target.page is Some,
        target.page matches Some(page) ==> link.page->0 == page && link.text@ == "Page "@ + decimal(
            (page + 1) as nat,
        ),
        target.page is None ==> link.text@ == target.uri@,
{
}

proof fn lemma_shown_prefix(
    a: Seq<(MetadataKey, Option<String>)>,
    b: Seq<(MetadataKey, Option<String>)>,
    n: nat,
)
    requires
        n <= a.len(),
        n <= b.len(),
        forall|i: int| 0 <= i < n ==> a[i] == b[i],
    ensures
        shown_entries(a, n) == shown_entries(b, n),
    decreases n,
{
    if n > 0 {
        lemma_shown_prefix(a, b, (n - 1) as nat);
    }
}

/// What is shown of answers, one after the other, is what is shown of all.
pub proof fn law_metadata_of_parts(
    a: Seq<(MetadataKey, Option<String>)>,
    b: Seq<(MetadataKey, Option<String>)>,
)
    ensures
        shown_entries(a + b, (a + b).len()) == shown_entries(a, a.len()) + shown_entries(
            b,
            b.len(),
        ),
    decreases b.len(),
{
    let all = a + b;
    if b.len() == 0 {
        assert(all =~= a);
        assert(shown_entries(a, a.len()) + shown_entries(b, 0) =~= shown_entries(a, a.len()));
    } else {
        let rest = b.drop_last();
        law_metadata_of_parts(a, rest);
        lemma_shown_prefix(all, a + rest, (all.len() - 1) as nat);
        lemma_shown_prefix(b, rest, (b.len() - 1) as nat);
        assert(all[all.len() - 1] == b[b.len() - 1]);
        assert(shown_entries(all, all.len()) =~= shown_entries(a, a.len()) + shown_entries(
            b,
            b.len(),
        ));
    }
}

/// An answer is shown under the name of what was asked for, without the white
/// space around it, unless there is nothing else in it.
pub proof fn law_metadata_of_one_answer(key: MetadataKey, answer: Option<String>)
    ensures
        ({
            let shown = shown_entries(seq![(key, answer)], 1);
            let blank = answer is None || forall|i: int|
                0 <= i < answer->0@.len() ==> is_white(#[trigger] answer->0@[i]);
            &&& shown.len() == if blank {
                0nat
            } else {
                1
            }
            &&& !blank ==> shown[0].0 == key.name() && shown[0].1 == trimmed(answer->0@)
        }),
{
    let one = seq![(key, answer)];
    reveal_with_fuel(shown_entries, 2);
    assert(shown_entries(one, 1) =~= shown_entry(key, answer));
    if answer is Some {
        law_trim_takes_white_ends(answer->0@);
    }
}

/// What the viewer is told: how many pages there are, before anything else; a
/// table of contents exactly if the outline has an entry, with all of them; and
/// metadata exactly if there is some to show.
pub proof fn law_introduction(
    n_pages: usize,
    outlines: Seq<Outline>,
    answers: Seq<(MetadataKey, Option<String>)>,
)
    ensures
        ({
            let told = introduction(n_pages, outlines, answers);
            let toc = flattened(outlines, 0);
            let metadata = shown_entries(answers, answers.len());
            &&& told.len() > 0
            &&& told[0] == Told::NumPages(n_pages as nat)
            &&& told.contains(Told::Toc(toc)) <==> outlines.len() > 0
            &&& told.contains(Told::Metadata(metadata)) <==> metadata.len() > 0
            &&& told.len() == 1 + (if outlines.len() > 0 {
                1nat
            } else {
                0
            }) + (if metadata.len() > 0 {
                1nat
            } else {
                0
            })
        }),
{
    let told = introduction(n_pages, outlines, answers);
    let toc = flattened(outlines, 0);
    let metadata = shown_entries(answers, answers.len());
    law_toc_counts_every_entry(outlines, 0);
    assert(entry_count(outlines) > 0 <==> outlines.len() > 0);
    if outlines.len() > 0 {
        assert(told[1] == Told::Toc(toc));
    }
    if metadata.len() > 0 {
        assert(told[told.len() - 1] == Told::Metadata(metadata));
    }
}

/// A message tells what it holds: the number of pages, every entry of the table
/// of contents with its title, page and level, or every name and value of the
/// metadata.
pub proof fn law_message_tells_all(message: RenderInfo, told: Told)
    requires
        tells(message, told),
    ensures
        message is NumPages || message is Toc || message is Metadata,
        message matches RenderInfo::NumPages(n) ==> told == Told::NumPages(n as nat),
        message matches RenderInfo::Toc(toc) ==> told is Toc && told->Toc_0.len() == toc@.len()
            && forall|i: int|
            0 <= i < toc@.len() ==> (#[trigger] told->Toc_0[i]).title == toc@[i].title@
                && told->Toc_0[i].page == toc@[i].page && told->Toc_0[i].level == toc@[i].level,
        message matches RenderInfo::Metadata(entries) ==> told is Metadata
            && told->Metadata_0.len() == entries@.len() && forall|i: int|
            0 <= i < entries@.len() ==> (#[trigger] told->Metadata_0[i]).0 == entries@[i].0@
                && told->Metadata_0[i].1 == entries@[i].1@,
{
}

/// An entry of the table of contents is known by its title, its page and its
/// level; the entries that are shown of the metadata are asked for in an order
/// that leaves none out.
pub proof fn law_all_of_an_entry(entry: TocEntry, key: MetadataKey)
    ensures
        entry@.title == entry.title@ && entry@.page == entry.page && entry@.level == entry.level,
        key_order().contains(key),
        key_order().len() == 10,
        key_order().no_duplicates(),
{
    let order = key_order();
    let at: int = match key {
        MetadataKey::Format => 0,
        MetadataKey::Encryption => 1,
        MetadataKey::Title => 2,
        MetadataKey::Author => 3,
        MetadataKey::Subject => 4,
        MetadataKey::Keywords => 5,
        MetadataKey::Creator => 6,
        MetadataKey::Producer => 7,
        MetadataKey::CreationDate => 8,
        MetadataKey::ModDate => 9,
    };
    assert(order[at] == key);
}

} // verus!
