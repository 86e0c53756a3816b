//! State of the launcher palette and the decisions of its keyboard and action
//! handling. The caller draws the interface, evaluates calculations, sends
//! searches and performs the effects these functions return.
use vstd::prelude::*;

use crate::index::Entry;
use crate::text::{
    chars_of, contains, contains_chars, is_text, lower, split_lines, split_newlines, string_of,
    texts, to_lowercase, trim, trimmed,
};

verus! {

/// Which results the palette shows.
#[derive(Clone, Copy, Debug, PartialEq, Eq, Structural)]
pub enum Mode {
    All,
    Files,
    Calculator,
}

/// An entry of the actions panel.
#[derive(Debug)]
pub struct Action {
    pub id: u8,
    pub label: String,
    pub keys: String,
}

pub open spec fn action_view(a: Action) -> (u8, Seq<char>, Seq<char>) {
    (a.id, a.label@, a.keys@)
}

pub open spec fn actions_view(v: Seq<Action>) -> Seq<(u8, Seq<char>, Seq<char>)> {
    v.map_values(|a: Action| action_view(a))
}

/// All actions on offer: the result actions that apply, then the general ones.
pub open spec fn offered_actions(answer_shown: bool, mode: Mode, has_results: bool) -> Seq<
    (u8, Seq<char>, Seq<char>),
> {
    let first = if answer_shown && mode != Mode::Files {
        seq![(0u8, "Copy result"@, "Enter"@)]
    } else if mode != Mode::Calculator && has_results {
        seq![
            (0u8, "Open file"@, "Enter"@),
            (1u8, "Copy path"@, "Ctrl Shift C"@),
            (2u8, "Open containing folder"@, ""@),
        ]
    } else {
        seq![]
    };
    first + seq![
        (3u8, "Search settings"@, "Ctrl ,"@),
        (4u8, "Rebuild file index"@, ""@),
        (5u8, "Search everything"@, ""@),
        (6u8, "Search files only"@, ""@),
        (7u8, "Calculator"@, ""@),
        (8u8, "Quit OpenCast"@, ""@),
    ]
}

/// The actions whose lowercased label contains the lowercased `query`, in order.
pub open spec fn matching_actions(items: Seq<(u8, Seq<char>, Seq<char>)>, query: Seq<char>) -> Seq<
    (u8, Seq<char>, Seq<char>),
>
    decreases items.len(),
{
    if items.len() == 0 {
        seq![]
    } else {
        let rest = matching_actions(items.drop_last(), query);
        if contains(lower(items.last().1), lower(query)) {
            rest.push(items.last())
        } else {
            rest
        }
    }
}

/// What the caller must do after an action was chosen.
#[derive(Debug, PartialEq, Eq, Structural)]
pub enum Effect {
    /// Open the selected file, or copy the calculation.
    Activate,
    /// Copy the selected path, or the calculation.
    Copy,
    OpenFolder,
    Reindex,
    Close,
    Nothing,
}

/// What Escape did.
#[derive(Debug, PartialEq, Eq, Structural)]
pub enum Escape {
    /// Closed the settings or actions panel.
    ClosedPanels,
    /// Cleared the query; the caller recalculates and searches again.
    ClearedQuery,
    /// Nothing left to dismiss: close the window.
    CloseWindow,
}

/// What Enter (or a click on the primary action) does.
#[derive(Debug, PartialEq, Eq, Structural)]
pub enum Activation {
    CopyAnswer,
    OpenSelected,
    Nothing,
}

/// What the result area shows when there are no results.
#[derive(Debug, PartialEq, Eq, Structural)]
pub enum EmptyState {
    /// "Indexing your files…"
    Indexing,
    /// "No files found"
    NoFiles,
}

/// The palette state.
#[derive(Debug)]
pub struct Palette {
    pub query: String,
    pub mode: Mode,
    pub results: Vec<Entry>,
    pub selected: usize,
    pub settings: bool,
    pub actions: bool,
    pub focus_search: bool,
    pub pending: bool,
    pub scroll_selected: bool,
    pub action_query: String,
    pub action_selected: usize,
    pub focus_actions: bool,
}

fn action(id: u8, label: &str, keys: &str) -> (r: Action)
    ensures
        action_view(r) == (id, label@, keys@),
{
    Action {
        id,
        label: string_of(chars_of(label).as_slice()),
        keys: string_of(chars_of(keys).as_slice()),
    }
}

/// Offered actions for the given situation, before filtering.
pub fn offered(answer_shown: bool, mode: Mode, has_results: bool) -> (r: Vec<Action>)
    ensures
        actions_view(r@) == offered_actions(answer_shown, mode, has_results),
{
    let mut items: Vec<Action> = Vec::new();
    if answer_shown && mode != Mode::Files {
        items.push(action(0, "Copy result", "Enter"));
    } else if mode != Mode::Calculator && has_results {
        items.push(action(0, "Open file", "Enter"));
        items.push(action(1, "Copy path", "Ctrl Shift C"));
        items.push(action(2, "Open containing folder", ""));
    }
    items.push(action(3, "Search settings", "Ctrl ,"));
    items.push(action(4, "Rebuild file index", ""));
    items.push(action(5, "Search everything", ""));
    items.push(action(6, "Search files only", ""));
    items.push(action(7, "Calculator", ""));
    items.push(action(8, "Quit OpenCast", ""));
    assert(actions_view(items@) =~= offered_actions(answer_shown, mode, has_results));
    items
}

/// Keep the actions whose label matches `query`, case-insensitively.
pub fn filter_actions(items: &Vec<Action>, query: &str) -> (r: Vec<Action>)
    ensures
        actions_view(r@) == matching_actions(actions_view(items@), query@),
{
    let q = to_lowercase(chars_of(query).as_slice());
    let ghost all = actions_view(items@);
    let mut kept: Vec<Action> = Vec::new();
    let n = items.len();
    let mut j: usize = 0;
    while j < n
        invariant
            j <= n == all.len(),
            all == actions_view(items@),
            q@ == lower(query@),
            actions_view(kept@) == matching_actions(all.take(j as int), query@),
        decreases n - j,
    {
        let a = &items[j];
        assert(action_view(*a) == all[j as int]);
        assert(all.take(j + 1).drop_last() =~= all.take(j as int));
        let label = to_lowercase(chars_of(a.label.as_str()).as_slice());
        if contains_chars(label.as_slice(), q.as_slice()) {
            kept.push(Action { id: a.id, label: a.label.clone(), keys: a.keys.clone() });
        }
        assert(actions_view(kept@) =~= matching_actions(all.take(j + 1), query@));
        j = j + 1;
    }
    assert(all.take(n as int) =~= all);
    kept
}

/// The label, colour and glyph of a result row.
#[derive(Clone, Copy, Debug, PartialEq, Eq, Structural)]
pub enum FileKind {
    Folder,
    Pdf,
    Spreadsheet,
    Image,
    Code,
    Document,
    File,
}

/// The kind of an entry, from whether it is a folder and its lowercased extension.
pub open spec fn kind_for(directory: bool, extension: Seq<char>) -> FileKind {
    if directory {
        FileKind::Folder
    } else if extension == "pdf"@ {
        FileKind::Pdf
    } else if extension == "xlsx"@ || extension == "csv"@ || extension == "xls"@ {
        FileKind::Spreadsheet
    } else if extension == "png"@ || extension == "jpg"@ || extension == "jpeg"@ || extension
        == "svg"@ || extension == "fig"@ {
        FileKind::Image
    } else if extension == "rs"@ || extension == "js"@ || extension == "ts"@ || extension == "py"@
        || extension == "json"@ || extension == "toml"@ {
        FileKind::Code
    } else if extension == "md"@ || extension == "txt"@ || extension == "docx"@ {
        FileKind::Document
    } else {
        FileKind::File
    }
}

/// The (lowercase) extensions of each file kind; folders and other files have none.
pub open spec fn kind_extensions(k: FileKind) -> Set<Seq<char>> {
    match k {
        FileKind::Pdf => set!["pdf"@],
        FileKind::Spreadsheet => set!["xlsx"@, "csv"@, "xls"@],
        FileKind::Image => set!["png"@, "jpg"@, "jpeg"@, "svg"@, "fig"@],
        FileKind::Code => set!["rs"@, "js"@, "ts"@, "py"@, "json"@, "toml"@],
        FileKind::Document => set!["md"@, "txt"@, "docx"@],
        _ => Set::empty(),
    }
}

/// A folder is a folder whatever its name; a file has kind `k` exactly when its
/// extension is one of `k`'s, and is a plain file when it has none of them.
pub proof fn lemma_file_kinds(extension: Seq<char>, k: FileKind)
    ensures
        kind_for(true, extension) == FileKind::Folder,
        k != FileKind::Folder && k != FileKind::File ==> (kind_for(false, extension) == k
            <==> kind_extensions(k).contains(extension)),
        kind_for(false, extension) == FileKind::File <==> !(kind_extensions(FileKind::Pdf).contains(
            extension) || kind_extensions(FileKind::Spreadsheet).contains(extension)
            || kind_extensions(FileKind::Image).contains(extension) || kind_extensions(
            FileKind::Code,
        ).contains(extension) || kind_extensions(FileKind::Document).contains(extension)),
{
    lemma_extensions_listed();
}

proof fn lemma_extensions_listed()
    ensures
        forall|k: FileKind, e: Seq<char>| #[trigger] kind_extensions(k).contains(e) ==> kind_for(false, e)
            == k,
{
    reveal_strlit("pdf");
    reveal_strlit("xlsx");
    reveal_strlit("csv");
    reveal_strlit("xls");
    reveal_strlit("png");
    reveal_strlit("jpg");
    reveal_strlit("jpeg");
    reveal_strlit("svg");
    reveal_strlit("fig");
    reveal_strlit("rs");
    reveal_strlit("js");
    reveal_strlit("ts");
    reveal_strlit("py");
    reveal_strlit("json");
    reveal_strlit("toml");
    reveal_strlit("md");
    reveal_strlit("txt");
    reveal_strlit("docx");
    assert(kind_for(false, "pdf"@) == FileKind::Pdf);
    assert("xlsx"@.len() != "pdf"@.len());
    assert(kind_for(false, "xlsx"@) == FileKind::Spreadsheet);
    assert("csv"@[0] != "pdf"@[0]);
    assert(kind_for(false, "csv"@) == FileKind::Spreadsheet);
    assert("xls"@[0] != "pdf"@[0]);
    assert(kind_for(false, "xls"@) == FileKind::Spreadsheet);
    assert("png"@[1] != "pdf"@[1]);
    assert("png"@.len() != "xlsx"@.len());
    assert("png"@[0] != "csv"@[0]);
    assert("png"@[0] != "xls"@[0]);
    assert(kind_for(false, "png"@) == FileKind::Image);
    assert("jpg"@[0] != "pdf"@[0]);
    assert("jpg"@.len() != "xlsx"@.len());
    assert("jpg"@[0] != "csv"@[0]);
    assert("jpg"@[0] != "xls"@[0]);
    assert(kind_for(false, "jpg"@) == FileKind::Image);
    assert("jpeg"@.len() != "pdf"@.len());
    assert("jpeg"@[0] != "xlsx"@[0]);
    assert("jpeg"@.len() != "csv"@.len());
    assert("jpeg"@.len() != "xls"@.len());
    assert(kind_for(false, "jpeg"@) == FileKind::Image);
    assert("svg"@[0] != "pdf"@[0]);
    assert("svg"@.len() != "xlsx"@.len());
    assert("svg"@[0] != "csv"@[0]);
    assert("svg"@[0] != "xls"@[0]);
    assert(kind_for(false, "svg"@) == FileKind::Image);
    assert("fig"@[0] != "pdf"@[0]);
    assert("fig"@.len() != "xlsx"@.len());
    assert("fig"@[0] != "csv"@[0]);
    assert("fig"@[0] != "xls"@[0]);
    assert(kind_for(false, "fig"@) == FileKind::Image);
    assert("rs"@.len() != "pdf"@.len());
    assert("rs"@.len() != "xlsx"@.len());
    assert("rs"@.len() != "csv"@.len());
    assert("rs"@.len() != "xls"@.len());
    assert("rs"@.len() != "png"@.len());
    assert("rs"@.len() != "jpg"@.len());
    assert("rs"@.len() != "jpeg"@.len());
    assert("rs"@.len() != "svg"@.len());
    assert("rs"@.len() != "fig"@.len());
    assert(kind_for(false, "rs"@) == FileKind::Code);
    assert("js"@.len() != "pdf"@.len());
    assert("js"@.len() != "xlsx"@.len());
    assert("js"@.len() != "csv"@.len());
    assert("js"@.len() != "xls"@.len());
    assert("js"@.len() != "png"@.len());
    assert("js"@.len() != "jpg"@.len());
    assert("js"@.len() != "jpeg"@.len());
    assert("js"@.len() != "svg"@.len());
    assert("js"@.len() != "fig"@.len());
    assert(kind_for(false, "js"@) == FileKind::Code);
    assert("ts"@.len() != "pdf"@.len());
    assert("ts"@.len() != "xlsx"@.len());
    assert("ts"@.len() != "csv"@.len());
    assert("ts"@.len() != "xls"@.len());
    assert("ts"@.len() != "png"@.len());
    assert("ts"@.len() != "jpg"@.len());
    assert("ts"@.len() != "jpeg"@.len());
    assert("ts"@.len() != "svg"@.len());
    assert("ts"@.len() != "fig"@.len());
    assert(kind_for(false, "ts"@) == FileKind::Code);
    assert("py"@.len() != "pdf"@.len());
    assert("py"@.len() != "xlsx"@.len());
    assert("py"@.len() != "csv"@.len());
    assert("py"@.len() != "xls"@.len());
    assert("py"@.len() != "png"@.len());
    assert("py"@.len() != "jpg"@.len());
    assert("py"@.len() != "jpeg"@.len());
    assert("py"@.len() != "svg"@.len());
    assert("py"@.len() != "fig"@.len());
    assert(kind_for(false, "py"@) == FileKind::Code);
    assert("json"@.len() != "pdf"@.len());
    assert("json"@[0] != "xlsx"@[0]);
    assert("json"@.len() != "csv"@.len());
    assert("json"@.len() != "xls"@.len());
    assert("json"@.len() != "png"@.len());
    assert("json"@.len() != "jpg"@.len());
    assert("json"@[1] != "jpeg"@[1]);
    assert("json"@.len() != "svg"@.len());
    assert("json"@.len() != "fig"@.len());
    assert(kind_for(false, "json"@) == FileKind::Code);
    assert("toml"@.len() != "pdf"@.len());
    assert("toml"@[0] != "xlsx"@[0]);
    assert("toml"@.len() != "csv"@.len());
    assert("toml"@.len() != "xls"@.len());
    assert("toml"@.len() != "png"@.len());
    assert("toml"@.len() != "jpg"@.len());
    assert("toml"@[0] != "jpeg"@[0]);
    assert("toml"@.len() != "svg"@.len());
    assert("toml"@.len() != "fig"@.len());
    assert(kind_for(false, "toml"@) == FileKind::Code);
    assert("md"@.len() != "pdf"@.len());
    assert("md"@.len() != "xlsx"@.len());
    assert("md"@.len() != "csv"@.len());
    assert("md"@.len() != "xls"@.len());
    assert("md"@.len() != "png"@.len());
    assert("md"@.len() != "jpg"@.len());
    assert("md"@.len() != "jpeg"@.len());
    assert("md"@.len() != "svg"@.len());
    assert("md"@.len() != "fig"@.len());
    assert("md"@[0] != "rs"@[0]);
    assert("md"@[0] != "js"@[0]);
    assert("md"@[0] != "ts"@[0]);
    assert("md"@[0] != "py"@[0]);
    assert("md"@.len() != "json"@.len());
    assert("md"@.len() != "toml"@.len());
    assert(kind_for(false, "md"@) == FileKind::Document);
    assert("txt"@[0] != "pdf"@[0]);
    assert("txt"@.len() != "xlsx"@.len());
    assert("txt"@[0] != "csv"@[0]);
    assert("txt"@[0] != "xls"@[0]);
    assert("txt"@[0] != "png"@[0]);
    assert("txt"@[0] != "jpg"@[0]);
    assert("txt"@.len() != "jpeg"@.len());
    assert("txt"@[0] != "svg"@[0]);
    assert("txt"@[0] != "fig"@[0]);
    assert("txt"@.len() != "rs"@.len());
    assert("txt"@.len() != "js"@.len());
    assert("txt"@.len() != "ts"@.len());
    assert("txt"@.len() != "py"@.len());
    assert("txt"@.len() != "json"@.len());
    assert("txt"@.len() != "toml"@.len());
    assert(kind_for(false, "txt"@) == FileKind::Document);
    assert("docx"@.len() != "pdf"@.len());
    assert("docx"@[0] != "xlsx"@[0]);
    assert("docx"@.len() != "csv"@.len());
    assert("docx"@.len() != "xls"@.len());
    assert("docx"@.len() != "png"@.len());
    assert("docx"@.len() != "jpg"@.len());
    assert("docx"@[0] != "jpeg"@[0]);
    assert("docx"@.len() != "svg"@.len());
    assert("docx"@.len() != "fig"@.len());
    assert("docx"@.len() != "rs"@.len());
    assert("docx"@.len() != "js"@.len());
    assert("docx"@.len() != "ts"@.len());
    assert("docx"@.len() != "py"@.len());
    assert("docx"@[0] != "json"@[0]);
    assert("docx"@[0] != "toml"@[0]);
    assert(kind_for(false, "docx"@) == FileKind::Document);
}

/// The kind of an entry, given whether it is a folder and its extension (any case).
pub fn file_kind(directory: bool, extension: &str) -> (r: FileKind)
    ensures
        r == kind_for(directory, lower(extension@)),
{
    if directory {
        return FileKind::Folder;
    }
    let e = to_lowercase(chars_of(extension).as_slice());
    let e = e.as_slice();
    if is_text(e, "pdf") {
        FileKind::Pdf
    } else if is_text(e, "xlsx") || is_text(e, "csv") || is_text(e, "xls") {
        FileKind::Spreadsheet
    } else if is_text(e, "png") || is_text(e, "jpg") || is_text(e, "jpeg") || is_text(e, "svg")
        || is_text(e, "fig") {
        FileKind::Image
    } else if is_text(e, "rs") || is_text(e, "js") || is_text(e, "ts") || is_text(e, "py") || is_text(
        e,
        "json",
    ) || is_text(e, "toml") {
        FileKind::Code
    } else if is_text(e, "md") || is_text(e, "txt") || is_text(e, "docx") {
        FileKind::Document
    } else {
        FileKind::File
    }
}

pub open spec fn kind_label(k: FileKind) -> Seq<char> {
    match k {
        FileKind::Folder => "Folder"@,
        FileKind::Pdf => "PDF document"@,
        FileKind::Spreadsheet => "Spreadsheet"@,
        FileKind::Image => "Image"@,
        FileKind::Code => "Code"@,
        FileKind::Document => "Document"@,
        FileKind::File => "File"@,
    }
}

pub open spec fn kind_colour(k: FileKind) -> (u8, u8, u8) {
    match k {
        FileKind::Folder => (77u8, 162u8, 233u8),
        FileKind::Pdf => (216u8, 86u8, 83u8),
        FileKind::Spreadsheet => (65u8, 164u8, 112u8),
        FileKind::Image => (158u8, 119u8, 219u8),
        FileKind::Code => (75u8, 148u8, 220u8),
        FileKind::Document => (129u8, 163u8, 206u8),
        FileKind::File => (146u8, 148u8, 159u8),
    }
}

pub open spec fn kind_glyph(k: FileKind) -> u8 {
    match k {
        FileKind::Folder => 1,
        FileKind::Spreadsheet => 3,
        FileKind::Image => 2,
        FileKind::Code => 4,
        _ => 0,
    }
}

impl FileKind {
    pub fn label(self) -> (r: String)
        ensures
            r@ == kind_label(self),
    {
        let s = match self {
            FileKind::Folder => chars_of("Folder"),
            FileKind::Pdf => chars_of("PDF document"),
            FileKind::Spreadsheet => chars_of("Spreadsheet"),
            FileKind::Image => chars_of("Image"),
            FileKind::Code => chars_of("Code"),
            FileKind::Document => chars_of("Document"),
            FileKind::File => chars_of("File"),
        };
        string_of(s.as_slice())
    }

    /// Icon colour as red, green, blue.
    pub fn colour(self) -> (r: (u8, u8, u8))
        ensures
            r == kind_colour(self),
    {
        match self {
            FileKind::Folder => (77, 162, 233),
            FileKind::Pdf => (216, 86, 83),
            FileKind::Spreadsheet => (65, 164, 112),
            FileKind::Image => (158, 119, 219),
            FileKind::Code => (75, 148, 220),
            FileKind::Document => (129, 163, 206),
            FileKind::File => (146, 148, 159),
        }
    }

    /// Which icon drawing to use.
    pub fn glyph(self) -> (r: u8)
        ensures
            r == kind_glyph(self),
    {
        match self {
            FileKind::Folder => 1,
            FileKind::Spreadsheet => 3,
            FileKind::Image => 2,
            FileKind::Code => 4,
            _ => 0,
        }
    }
}

/// The non-empty, trimmed lines of `text`.
pub open spec fn folder_lines(text: Seq<char>) -> Seq<Seq<char>> {
    nonempty_lines(split_newlines(text))
}

pub open spec fn nonempty_lines(pieces: Seq<Seq<char>>) -> Seq<Seq<char>>
    decreases pieces.len(),
{
    if pieces.len() == 0 {
        seq![]
    } else {
        let rest = nonempty_lines(pieces.drop_last());
        if trim(pieces.last()).len() > 0 {
            rest.push(trim(pieces.last()))
        } else {
            rest
        }
    }
}

/// The folder paths typed in the settings text, one per non-blank line.
pub fn root_lines(text: &str) -> (r: Vec<String>)
    ensures
        r@.map_values(|s: String| s@) == folder_lines(text@),
{
    let pieces = split_lines(chars_of(text).as_slice());
    let ghost all = texts(pieces@);
    let mut r: Vec<String> = Vec::new();
    let mut i: usize = 0;
    while i < pieces.len()
        invariant
            i <= pieces@.len(),
            all == texts(pieces@),
            all == split_newlines(text@),
            r@.map_values(|s: String| s@) == nonempty_lines(all.take(i as int)),
        decreases pieces@.len() - i,
    {
        let line = trimmed(pieces[i].as_slice());
        assert(all.take(i + 1).drop_last() =~= all.take(i as int));
        assert(all[i as int] == pieces@[i as int]@);
        if line.len() > 0 {
            r.push(string_of(line.as_slice()));
        }
        assert(r@.map_values(|s: String| s@) =~= nonempty_lines(all.take(i + 1)));
        i = i + 1;
    }
    assert(all.take(pieces@.len() as int) =~= all);
    r
}

} // verus!

verus! {

/// `p` and `q` agree on every field but those named by the flags.
pub open spec fn same_except(
    p: Palette,
    q: Palette,
    query: bool,
    mode: bool,
    results: bool,
    selected: bool,
    panels: bool,
    pending: bool,
    action_state: bool,
) -> bool {
    &&& (!query ==> q.query == p.query)
    &&& (!mode ==> q.mode == p.mode)
    &&& (!results ==> q.results == p.results)
    &&& (!selected ==> q.selected == p.selected && q.scroll_selected == p.scroll_selected)
    &&& (!panels ==> q.settings == p.settings && q.actions == p.actions && q.focus_search
        == p.focus_search && q.focus_actions == p.focus_actions)
    &&& (!pending ==> q.pending == p.pending)
    &&& (!action_state ==> q.action_query == p.action_query && q.action_selected
        == p.action_selected)
}

/// `n - 1`, or 0 for an empty list.
pub open spec fn last_index(n: nat) -> nat {
    if n == 0 { 0 } else { (n - 1) as nat }
}

impl Palette {
    /// The selection points into the results whenever there are any.
    pub open spec fn selection_in_range(self) -> bool {
        self.results@.len() > 0 ==> self.selected < self.results@.len()
    }
}

impl Palette {
    /// A fresh palette; the settings open first when no folder is configured.
    pub fn new(no_folders: bool) -> (r: Palette)
        ensures
            r.selection_in_range(),
            r.query@ == Seq::<char>::empty(),
            r.mode == Mode::All,
            r.results@.len() == 0,
            r.selected == 0,
            r.settings == no_folders,
            !r.actions,
            r.focus_search == !no_folders,
            !r.pending,
            !r.scroll_selected,
            r.action_query@ == Seq::<char>::empty(),
            r.action_selected == 0,
            !r.focus_actions,
    {
        Palette {
            query: String::new(),
            mode: Mode::All,
            results: Vec::new(),
            selected: 0,
            settings: no_folders,
            actions: false,
            focus_search: !no_folders,
            pending: false,
            scroll_selected: false,
            action_query: String::new(),
            action_selected: 0,
            focus_actions: false,
        }
    }

    /// The query changed: the old results go, the selection returns to the top
    /// and a search is pending.
    pub fn refresh(&mut self)
        ensures
            final(self).selection_in_range(),
            old(self).selection_in_range() ==> final(self).selection_in_range(),
            final(self).selected == 0,
            final(self).scroll_selected == old(self).scroll_selected,
            final(self).results@.len() == 0,
            final(self).pending,
            same_except(*old(self), *final(self), false, false, true, true, false, true, false),
    {
        self.selected = 0;
        self.results.clear();
        self.pending = true;
    }

    /// A search finished for `query`; its results are taken only when the query
    /// is still the current one.
    pub fn accept_results(&mut self, query: String, entries: Vec<Entry>) -> (accepted: bool)
        ensures
            accepted ==> final(self).selection_in_range(),
            old(self).selection_in_range() ==> final(self).selection_in_range(),
            accepted == (query@ == old(self).query@),
            accepted ==> final(self).results == entries && !final(self).pending
                && final(self).selected == if old(self).selected < last_index(entries@.len()) {
                old(self).selected as nat
            } else {
                last_index(entries@.len())
            },
            accepted ==> final(self).scroll_selected == old(self).scroll_selected,
            accepted ==> same_except(*old(self), *final(self), false, false, true, true, false, true, false),
            !accepted ==> *final(self) == *old(self),
    {
        if query == self.query {
            let last = if entries.len() == 0 { 0 } else { entries.len() - 1 };
            self.results = entries;
            self.pending = false;
            if self.selected > last {
                self.selected = last;
            }
            true
        } else {
            false
        }
    }

    /// The index changed: a new search is pending.
    pub fn indexed(&mut self)
        ensures
            old(self).selection_in_range() ==> final(self).selection_in_range(),
            final(self).pending,
            same_except(*old(self), *final(self), false, false, false, false, false, true, false),
    {
        self.pending = true;
    }

    /// Ctrl+, opens or closes the settings and closes the actions panel.
    pub fn toggle_settings(&mut self)
        ensures
            old(self).selection_in_range() ==> final(self).selection_in_range(),
            final(self).settings == !old(self).settings,
            !final(self).actions,
            final(self).focus_search == old(self).focus_search,
            final(self).focus_actions == old(self).focus_actions,
            same_except(*old(self), *final(self), false, false, false, false, true, false, false),
    {
        self.settings = !self.settings;
        self.actions = false;
    }

    /// Open or close the actions panel, starting it with an empty filter.
    pub fn toggle_actions(&mut self)
        ensures
            old(self).selection_in_range() ==> final(self).selection_in_range(),
            final(self).actions == !old(self).actions,
            final(self).action_query@ == Seq::<char>::empty(),
            final(self).action_selected == 0,
            final(self).focus_actions == final(self).actions,
            final(self).focus_search == !final(self).actions,
            final(self).settings == old(self).settings,
            same_except(*old(self), *final(self), false, false, false, false, true, false, true),
    {
        self.actions = !self.actions;
        self.action_query = String::new();
        self.action_selected = 0;
        self.focus_actions = self.actions;
        self.focus_search = !self.actions;
    }

    /// Escape dismisses an open panel first, then clears the query, and only
    /// then closes the window.
    pub fn escape(&mut self) -> (r: Escape)
        ensures
            old(self).selection_in_range() ==> final(self).selection_in_range(),
            (old(self).settings || old(self).actions) ==> r == Escape::ClosedPanels
                && !final(self).settings && !final(self).actions && final(self).focus_search
                && final(self).focus_actions == old(self).focus_actions
                && same_except(*old(self), *final(self), false, false, false, false, true, false, false),
            !(old(self).settings || old(self).actions) && old(self).query@.len() > 0 ==> r
                == Escape::ClearedQuery && final(self).query@ == Seq::<char>::empty()
                && final(self).selected == 0 && final(self).results@.len() == 0 && final(self).pending
                && final(self).scroll_selected == old(self).scroll_selected
                && same_except(*old(self), *final(self), true, false, true, true, false, true, false),
            !(old(self).settings || old(self).actions) && old(self).query@.len() == 0 ==> r
                == Escape::CloseWindow && *final(self) == *old(self),
    {
        if self.settings || self.actions {
            self.settings = false;
            self.actions = false;
            self.focus_search = true;
            Escape::ClosedPanels
        } else if !self.query.as_str().is_empty() {
            self.query = String::new();
            self.refresh();
            Escape::ClearedQuery
        } else {
            Escape::CloseWindow
        }
    }

    /// Arrow keys act on the results only while no panel is open.
    pub fn navigation_enabled(&self) -> (r: bool)
        ensures
            r == (!self.settings && !self.actions),
    {
        !self.settings && !self.actions
    }

    /// Down arrow: the next result, stopping at the last one.
    pub fn select_next(&mut self)
        requires
            old(self).selected < usize::MAX,
        ensures
            final(self).selection_in_range(),
            old(self).selection_in_range() ==> final(self).selection_in_range(),
            final(self).scroll_selected,
            final(self).selected == if old(self).selected + 1 < last_index(old(self).results@.len()) {
                (old(self).selected + 1) as nat
            } else {
                last_index(old(self).results@.len())
            },
            same_except(*old(self), *final(self), false, false, false, true, false, false, false),
    {
        self.scroll_selected = true;
        let last = if self.results.len() == 0 { 0 } else { self.results.len() - 1 };
        let next = self.selected + 1;
        self.selected = if next < last { next } else { last };
    }

    /// Up arrow: the previous result, stopping at the first one.
    pub fn select_previous(&mut self)
        ensures
            old(self).selection_in_range() ==> final(self).selection_in_range(),
            final(self).scroll_selected,
            final(self).selected == if old(self).selected > 0 { old(self).selected - 1 } else { 0 },
            same_except(*old(self), *final(self), false, false, false, true, false, false, false),
    {
        self.scroll_selected = true;
        if self.selected > 0 {
            self.selected = self.selected - 1;
        }
    }

    /// Keep the action selection within a list of `count` actions.
    pub fn clamp_action(&mut self, count: usize)
        ensures
            old(self).selection_in_range() ==> final(self).selection_in_range(),
            final(self).action_selected == if old(self).action_selected < last_index(count as nat) {
                old(self).action_selected as nat
            } else {
                last_index(count as nat)
            },
            final(self).action_query == old(self).action_query,
            same_except(*old(self), *final(self), false, false, false, false, false, false, true),
    {
        let last = if count == 0 { 0 } else { count - 1 };
        if self.action_selected > last {
            self.action_selected = last;
        }
    }

    /// Down arrow in the actions panel.
    pub fn next_action(&mut self, count: usize)
        requires
            old(self).action_selected < usize::MAX,
        ensures
            old(self).selection_in_range() ==> final(self).selection_in_range(),
            final(self).action_selected == if old(self).action_selected + 1 < last_index(count as nat) {
                (old(self).action_selected + 1) as nat
            } else {
                last_index(count as nat)
            },
            final(self).action_query == old(self).action_query,
            same_except(*old(self), *final(self), false, false, false, false, false, false, true),
    {
        let last = if count == 0 { 0 } else { count - 1 };
        let next = self.action_selected + 1;
        self.action_selected = if next < last { next } else { last };
    }

    /// Up arrow in the actions panel.
    pub fn previous_action(&mut self)
        ensures
            old(self).selection_in_range() ==> final(self).selection_in_range(),
            final(self).action_selected == if old(self).action_selected > 0 {
                old(self).action_selected - 1
            } else {
                0
            },
            final(self).action_query == old(self).action_query,
            same_except(*old(self), *final(self), false, false, false, false, false, false, true),
    {
        if self.action_selected > 0 {
            self.action_selected = self.action_selected - 1;
        }
    }

    /// The calculation is shown (rather than files) when there is an answer and
    /// the palette is not restricted to files.
    pub fn shows_answer(&self, answer: bool) -> (r: bool)
        ensures
            r == (answer && self.mode != Mode::Files),
    {
        answer && self.mode != Mode::Files
    }

    /// The calculator examples are shown in calculator mode, or when there is
    /// neither a query nor a result.
    pub fn shows_examples(&self) -> (r: bool)
        ensures
            r == (self.mode == Mode::Calculator || (self.query@.len() == 0 && self.results@.len() == 0)),
    {
        self.mode == Mode::Calculator || (self.query.as_str().is_empty() && self.results.len() == 0)
    }

    /// What Enter does: copy a shown answer; nothing in calculator mode; else
    /// open the selected file.
    pub fn activation(&self, answer: bool) -> (r: Activation)
        ensures
            answer && self.mode != Mode::Files ==> r == Activation::CopyAnswer,
            !(answer && self.mode != Mode::Files) && self.mode == Mode::Calculator ==> r
                == Activation::Nothing,
            !(answer && self.mode != Mode::Files) && self.mode != Mode::Calculator ==> r
                == Activation::OpenSelected,
    {
        if answer && self.mode != Mode::Files {
            Activation::CopyAnswer
        } else if self.mode == Mode::Calculator {
            Activation::Nothing
        } else {
            Activation::OpenSelected
        }
    }

    /// Copy takes the shown answer; otherwise the selected path.
    pub fn copies_answer(&self, answer: bool) -> (r: bool)
        ensures
            r == (answer && self.mode != Mode::Files),
    {
        answer && self.mode != Mode::Files
    }

    /// The actions on offer, filtered by the actions query.
    pub fn action_items(&self, answer: bool) -> (r: Vec<Action>)
        ensures
            actions_view(r@) == matching_actions(
                offered_actions(answer, self.mode, self.results@.len() > 0),
                self.action_query@,
            ),
    {
        let all = offered(answer, self.mode, self.results.len() > 0);
        filter_actions(&all, self.action_query.as_str())
    }

    /// Run action `id`: the panel closes and the caller performs the returned effect.
    pub fn run_action(&mut self, id: u8) -> (r: Effect)
        ensures
            old(self).selection_in_range() ==> final(self).selection_in_range(),
            id == 0 ==> r == Effect::Activate,
            id == 1 ==> r == Effect::Copy,
            id == 2 ==> r == Effect::OpenFolder,
            id == 4 ==> r == Effect::Reindex,
            id == 8 ==> r == Effect::Close,
            (id == 3 || id == 5 || id == 6 || id == 7 || id > 8) ==> r == Effect::Nothing,
            final(self).settings == (old(self).settings || id == 3),
            !final(self).actions,
            final(self).focus_search == !final(self).settings,
            final(self).focus_actions == old(self).focus_actions,
            5 <= id <= 7 ==> final(self).selected == 0 && final(self).mode == (if id == 6 {
                Mode::Files
            } else if id == 7 {
                Mode::Calculator
            } else {
                Mode::All
            }),
            !(5 <= id <= 7) ==> final(self).mode == old(self).mode && final(self).selected == old(self).selected,
            final(self).scroll_selected == old(self).scroll_selected,
            same_except(*old(self), *final(self), false, true, false, true, true, false, false),
    {
        let effect = if id == 0 {
            Effect::Activate
        } else if id == 1 {
            Effect::Copy
        } else if id == 2 {
            Effect::OpenFolder
        } else if id == 3 {
            self.settings = true;
            Effect::Nothing
        } else if id == 4 {
            Effect::Reindex
        } else if 5 <= id && id <= 7 {
            self.mode = if id == 6 {
                Mode::Files
            } else if id == 7 {
                Mode::Calculator
            } else {
                Mode::All
            };
            self.selected = 0;
            Effect::Nothing
        } else if id == 8 {
            Effect::Close
        } else {
            Effect::Nothing
        };
        self.actions = false;
        self.focus_search = !self.settings;
        effect
    }

    /// An example calculation was clicked: it becomes the query.
    pub fn use_example(&mut self, expression: &str)
        ensures
            old(self).selection_in_range() ==> final(self).selection_in_range(),
            final(self).query@ == expression@,
            final(self).selected == 0,
            final(self).results@.len() == 0,
            final(self).pending,
            final(self).focus_search,
            final(self).settings == old(self).settings,
            final(self).actions == old(self).actions,
            final(self).focus_actions == old(self).focus_actions,
            final(self).scroll_selected == old(self).scroll_selected,
            same_except(*old(self), *final(self), true, false, true, true, true, true, false),
    {
        self.query = string_of(chars_of(expression).as_slice());
        self.refresh();
        self.focus_search = true;
    }

    /// The settings were closed with Done.
    pub fn close_settings(&mut self)
        ensures
            old(self).selection_in_range() ==> final(self).selection_in_range(),
            !final(self).settings,
            final(self).focus_search,
            final(self).actions == old(self).actions,
            final(self).focus_actions == old(self).focus_actions,
            same_except(*old(self), *final(self), false, false, false, false, true, false, false),
    {
        self.settings = false;
        self.focus_search = true;
    }

    /// New folders were saved: the old results go and the settings close.
    pub fn folders_saved(&mut self)
        ensures
            old(self).selection_in_range() ==> final(self).selection_in_range(),
            final(self).results@.len() == 0,
            !final(self).settings,
            final(self).focus_search,
            final(self).actions == old(self).actions,
            final(self).focus_actions == old(self).focus_actions,
            same_except(*old(self), *final(self), false, false, true, false, true, false, false),
    {
        self.results.clear();
        self.settings = false;
        self.focus_search = true;
    }

    /// With no results: still waiting while a search is pending or the index is
    /// being built, otherwise nothing was found.
    pub fn empty_state(&self, indexing: bool) -> (r: EmptyState)
        ensures
            (self.pending || indexing) ==> r == EmptyState::Indexing,
            !(self.pending || indexing) ==> r == EmptyState::NoFiles,
    {
        if self.pending || indexing {
            EmptyState::Indexing
        } else {
            EmptyState::NoFiles
        }
    }

    /// A click on result row `i` selects it.
    pub fn click_row(&mut self, i: usize)
        requires
            i < old(self).results@.len(),
        ensures
            final(self).selected == i,
            final(self).scroll_selected == old(self).scroll_selected,
            final(self).selection_in_range(),
            same_except(*old(self), *final(self), false, false, false, true, false, false, false),
    {
        self.selected = i;
    }

    /// The rows were drawn: the selected row has been scrolled into view.
    pub fn rows_shown(&mut self)
        ensures
            old(self).selection_in_range() ==> final(self).selection_in_range(),
            !final(self).scroll_selected,
            final(self).selected == old(self).selected,
            same_except(*old(self), *final(self), false, false, false, true, false, false, false),
    {
        self.scroll_selected = false;
    }

    /// The "Search settings" button of the empty result area opens the settings.
    pub fn open_settings(&mut self)
        ensures
            old(self).selection_in_range() ==> final(self).selection_in_range(),
            final(self).settings,
            final(self).actions == old(self).actions,
            final(self).focus_search == old(self).focus_search,
            final(self).focus_actions == old(self).focus_actions,
            same_except(*old(self), *final(self), false, false, false, false, true, false, false),
    {
        self.settings = true;
    }

    /// The search field took the focus it was asked to take.
    pub fn search_focused(&mut self)
        ensures
            old(self).selection_in_range() ==> final(self).selection_in_range(),
            !final(self).focus_search,
            final(self).settings == old(self).settings,
            final(self).actions == old(self).actions,
            final(self).focus_actions == old(self).focus_actions,
            same_except(*old(self), *final(self), false, false, false, false, true, false, false),
    {
        self.focus_search = false;
    }

    /// The actions filter took the focus it was asked to take.
    pub fn actions_focused(&mut self)
        ensures
            old(self).selection_in_range() ==> final(self).selection_in_range(),
            !final(self).focus_actions,
            final(self).settings == old(self).settings,
            final(self).actions == old(self).actions,
            final(self).focus_search == old(self).focus_search,
            same_except(*old(self), *final(self), false, false, false, false, true, false, false),
    {
        self.focus_actions = false;
    }

    /// The actions filter changed: the first matching action is selected.
    pub fn action_query_changed(&mut self)
        ensures
            old(self).selection_in_range() ==> final(self).selection_in_range(),
            final(self).action_selected == 0,
            final(self).action_query == old(self).action_query,
            same_except(*old(self), *final(self), false, false, false, false, false, false, true),
    {
        self.action_selected = 0;
    }
}

} // verus!
