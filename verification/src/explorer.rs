use vstd::prelude::*;
use crate::color::{blend_rgb, fill_vertical_gradient};
use crate::display::{Framebuffer, fill_rect, painted, kept_above, lemma_above_step, lemma_above_painted};
use crate::fat32::{names_short, DirEntry, DirView, Fat32};
use crate::notepad::ClickResult;
use crate::system::UiSettings;
use crate::text::{
    ascii, one_line, text_ink, TextWriter, COORD_MAX, lemma_ink_below, lemma_ink_first_line, lemma_one_line_after,
    lemma_one_line_ink, lemma_one_line_split,
};
use crate::textfmt::{dec, eq_ignore_case, ieq, lit, write_str, write_u32};
use crate::window::{draw_window, hit, in_rect, sat_sub, title_fits, window_fits, CORNER_RADIUS, HEADER_H};

verus! {

pub const LINE_HEIGHT: usize = 18;
pub const PAD: usize = 12;
pub const TOOLBAR_H: usize = 30;
pub const SCROLL_W: usize = 14;
/// Most entries a listing holds.
pub const MAX_ENTRIES: usize = 128;
/// Deepest folder nesting the path keeps.
pub const MAX_PATH: usize = 12;
/// Slots of the recycle bin.
pub const MAX_RECYCLE: usize = 96;
/// Longest name kept.
pub const MAX_NAME: usize = 24;

/// What a listed entry is.
#[derive(Debug, Copy, Clone, PartialEq, Eq, Structural)]
pub enum EntryKind {
    Back,
    Dir,
    File,
}

/// A recycle-bin slot: free, holding an item in the bin, or holding an item
/// deleted for good (which stays hidden and cannot go back in the bin).
#[derive(Debug, Copy, Clone, PartialEq, Eq, Structural)]
pub enum RecState {
    Free,
    Bin,
    Purged,
}

/// Which place the window shows.
#[derive(Debug, Copy, Clone, PartialEq, Eq, Structural)]
pub enum ExplorerView {
    Root,
    Bin,
}

/// One row of the listing. `recycle_idx` is the bin slot a bin row comes
/// from, `usize::MAX` for other rows.
pub struct FileEntry {
    pub name: Vec<u8>,
    pub kind: EntryKind,
    pub cluster: u32,
    pub size: u32,
    pub parent_cluster: u32,
    pub recycle_idx: usize,
}

/// One recycle-bin slot.
pub struct RecycleEntry {
    pub state: RecState,
    pub name: Vec<u8>,
    pub kind: EntryKind,
    pub cluster: u32,
    pub size: u32,
    pub parent_cluster: u32,
}

/// What the explorer asks of its caller.
pub enum ExplorerAction {
    Idle,
    OpenTextFile { name: Vec<u8>, cluster: u32, size: u32 },
}

/// A listing row as plain values.
pub struct EntryV {
    pub name: Seq<u8>,
    pub kind: EntryKind,
    pub cluster: u32,
    pub size: u32,
    pub parent_cluster: u32,
    pub recycle_idx: usize,
}

/// A recycle-bin slot as plain values.
pub struct RecV {
    pub state: RecState,
    pub name: Seq<u8>,
    pub kind: EntryKind,
    pub cluster: u32,
    pub size: u32,
    pub parent_cluster: u32,
}

impl FileEntry {
    pub open spec fn view(&self) -> EntryV {
        EntryV {
            name: self.name@,
            kind: self.kind,
            cluster: self.cluster,
            size: self.size,
            parent_cluster: self.parent_cluster,
            recycle_idx: self.recycle_idx,
        }
    }
}

impl RecycleEntry {
    pub open spec fn view(&self) -> RecV {
        RecV {
            state: self.state,
            name: self.name@,
            kind: self.kind,
            cluster: self.cluster,
            size: self.size,
            parent_cluster: self.parent_cluster,
        }
    }
}

impl ExplorerAction {
    /// The file to open, if any, as name, first cluster and size.
    pub open spec fn view(&self) -> Option<(Seq<u8>, u32, u32)> {
        match self {
            ExplorerAction::Idle => None,
            ExplorerAction::OpenTextFile { name, cluster, size } => Some((name@, *cluster, *size)),
        }
    }
}

/// Whether slot `r` holds (in the bin or purged) the item named `name` with
/// first cluster `cluster` from the folder at `parent`.
pub open spec fn rec_matches(r: RecV, parent: u32, cluster: u32, name: Seq<u8>) -> bool {
    &&& r.state != RecState::Free
    &&& r.parent_cluster == parent
    &&& r.cluster == cluster
    &&& r.name == name
}

/// The first slot from `i` on that holds that item, or `rs.len()`.
pub open spec fn find_match(rs: Seq<RecV>, parent: u32, cluster: u32, name: Seq<u8>, i: int) -> int
    decreases rs.len() - i,
{
    if i < 0 || i >= rs.len() {
        rs.len() as int
    } else if rec_matches(rs[i], parent, cluster, name) {
        i
    } else {
        find_match(rs, parent, cluster, name, i + 1)
    }
}

/// The first free slot from `i` on, or `rs.len()`.
pub open spec fn find_free(rs: Seq<RecV>, i: int) -> int
    decreases rs.len() - i,
{
    if i < 0 || i >= rs.len() {
        rs.len() as int
    } else if rs[i].state == RecState::Free {
        i
    } else {
        find_free(rs, i + 1)
    }
}

proof fn lemma_find_match(rs: Seq<RecV>, parent: u32, cluster: u32, name: Seq<u8>, i: int)
    requires
        0 <= i <= rs.len(),
    ensures
        i <= find_match(rs, parent, cluster, name, i) <= rs.len(),
        find_match(rs, parent, cluster, name, i) < rs.len() ==> rec_matches(
            rs[find_match(rs, parent, cluster, name, i)],
            parent,
            cluster,
            name,
        ),
        forall|j: int| i <= j < find_match(rs, parent, cluster, name, i) ==> !rec_matches(#[trigger] rs[j], parent, cluster, name),
    decreases rs.len() - i,
{
    if i < rs.len() && !rec_matches(rs[i], parent, cluster, name) {
        lemma_find_match(rs, parent, cluster, name, i + 1);
    }
}

proof fn lemma_find_free(rs: Seq<RecV>, i: int)
    requires
        0 <= i <= rs.len(),
    ensures
        i <= find_free(rs, i) <= rs.len(),
        find_free(rs, i) < rs.len() ==> rs[find_free(rs, i)].state == RecState::Free,
        forall|j: int| i <= j < find_free(rs, i) ==> (#[trigger] rs[j]).state != RecState::Free,
    decreases rs.len() - i,
{
    if i < rs.len() && rs[i].state != RecState::Free {
        lemma_find_free(rs, i + 1);
    }
}

/// Whether the bin hides the item `name` with first cluster `cluster` from
/// the folder at `parent`.
pub open spec fn hidden(rs: Seq<RecV>, parent: u32, cluster: u32, name: Seq<u8>) -> bool {
    find_match(rs, parent, cluster, name, 0) < rs.len()
}

/// Moving `e` to the bin: a slot already holding it goes back to the bin,
/// unless it was purged; otherwise the first free slot takes it. Returns
/// whether the item is in the bin now, and the slots.
pub open spec fn recycled(rs: Seq<RecV>, e: EntryV) -> (bool, Seq<RecV>) {
    let m = find_match(rs, e.parent_cluster, e.cluster, e.name, 0);
    let f = find_free(rs, 0);
    if m < rs.len() {
        if rs[m].state == RecState::Purged {
            (false, rs)
        } else {
            (true, rs.update(m, RecV { state: RecState::Bin, ..rs[m] }))
        }
    } else if f < rs.len() {
        (
            true,
            rs.update(
                f,
                RecV {
                    state: RecState::Bin,
                    name: e.name,
                    kind: e.kind,
                    cluster: e.cluster,
                    size: e.size,
                    parent_cluster: e.parent_cluster,
                },
            ),
        )
    } else {
        (false, rs)
    }
}

/// The bin's listing: every slot in the bin, in slot order, among the first
/// `n` slots.
pub open spec fn bin_list(rs: Seq<RecV>, n: int) -> Seq<EntryV>
    decreases n,
{
    if n <= 0 {
        Seq::empty()
    } else {
        let prev = bin_list(rs, n - 1);
        let r = rs[n - 1];
        if r.state == RecState::Bin {
            prev.push(
                EntryV {
                    name: r.name,
                    kind: r.kind,
                    cluster: r.cluster,
                    size: r.size,
                    parent_cluster: r.parent_cluster,
                    recycle_idx: (n - 1) as usize,
                },
            )
        } else {
            prev
        }
    }
}

proof fn lemma_bin_list_len(rs: Seq<RecV>, n: int)
    requires
        0 <= n,
    ensures
        bin_list(rs, n).len() <= n,
    decreases n,
{
    if n > 0 {
        lemma_bin_list_len(rs, n - 1);
    }
}

/// A folder listing row for directory entry `d` of the folder at `parent`.
pub open spec fn dir_row(d: DirView, parent: u32) -> EntryV {
    EntryV {
        name: d.0,
        kind: if d.1 {
            EntryKind::Dir
        } else {
            EntryKind::File
        },
        cluster: d.2,
        size: d.3,
        parent_cluster: parent,
        recycle_idx: usize::MAX,
    }
}

/// `base` followed by the rows for the first `n` entries of `ds` that the
/// bin does not hide, up to `MAX_ENTRIES` rows in all.
pub open spec fn dir_list(ds: Seq<DirView>, rs: Seq<RecV>, parent: u32, base: Seq<EntryV>, n: int) -> Seq<EntryV>
    decreases n,
{
    if n <= 0 {
        base
    } else {
        let prev = dir_list(ds, rs, parent, base, n - 1);
        let d = ds[n - 1];
        if prev.len() >= MAX_ENTRIES || hidden(rs, parent, d.2, d.0) {
            prev
        } else {
            prev.push(dir_row(d, parent))
        }
    }
}

proof fn lemma_dir_list_len(ds: Seq<DirView>, rs: Seq<RecV>, parent: u32, base: Seq<EntryV>, n: int)
    requires
        0 <= n,
        base.len() <= MAX_ENTRIES,
    ensures
        base.len() <= dir_list(ds, rs, parent, base, n).len() <= MAX_ENTRIES,
    decreases n,
{
    if n > 0 {
        lemma_dir_list_len(ds, rs, parent, base, n - 1);
    }
}

/// Once the listing is full it stays as it is.
proof fn lemma_dir_list_full(ds: Seq<DirView>, rs: Seq<RecV>, parent: u32, base: Seq<EntryV>, k: int, n: int)
    requires
        0 <= k <= n,
        dir_list(ds, rs, parent, base, k).len() >= MAX_ENTRIES,
    ensures
        dir_list(ds, rs, parent, base, n) == dir_list(ds, rs, parent, base, k),
    decreases n - k,
{
    if n > k {
        lemma_dir_list_full(ds, rs, parent, base, k, n - 1);
    }
}

/// The position of the last `.` in `s`, or -1.
pub open spec fn last_dot(s: Seq<u8>) -> int
    decreases s.len(),
{
    if s.len() == 0 {
        -1
    } else if s.last() == 46u8 {
        s.len() - 1
    } else {
        last_dot(s.drop_last())
    }
}

proof fn lemma_last_dot(s: Seq<u8>)
    ensures
        -1 <= last_dot(s) < s.len(),
        last_dot(s) >= 0 ==> s[last_dot(s)] == 46u8,
        forall|j: int| last_dot(s) < j < s.len() ==> s[j] != 46u8,
    decreases s.len(),
{
    if s.len() > 0 && s.last() != 46u8 {
        lemma_last_dot(s.drop_last());
        assert forall|j: int| last_dot(s) < j < s.len() implies s[j] != 46u8 by {
            if j < s.len() - 1 {
                assert(s[j] == s.drop_last()[j]);
            }
        }
    }
}

/// Whether a file name opens in the notepad: at least four bytes, with an
/// extension after its last `.` that is TXT, LOG, INI, CFG or CSV in any
/// letter case.
pub open spec fn text_file(name: Seq<u8>) -> bool {
    let d = last_dot(name);
    let ext = name.subrange(d + 1, name.len() as int);
    &&& name.len() >= 4
    &&& d >= 0
    &&& d + 1 < name.len()
    &&& (ieq(ext, lit("TXT")) || ieq(ext, lit("LOG")) || ieq(ext, lit("INI")) || ieq(ext, lit("CFG"))
        || ieq(ext, lit("CSV")))
}

/// Whether `name` is a text file by its extension (see `text_file`).
pub fn is_text_file(name: &[u8]) -> (r: bool)
    ensures
        r == text_file(name@),
{
    if name.len() < 4 {
        return false;
    }
    let mut dot = usize::MAX;
    let mut i: usize = 0;
    proof {
        lemma_last_dot(name@);
    }
    while i < name.len()
        invariant
            i <= name@.len(),
            dot == usize::MAX ==> last_dot(name@.take(i as int)) == -1,
            dot != usize::MAX ==> dot == last_dot(name@.take(i as int)),
            dot != usize::MAX ==> dot < i,
        decreases name@.len() - i,
    {
        proof {
            assert(name@.take(i + 1).drop_last() =~= name@.take(i as int));
        }
        if name[i] == 46u8 {
            dot = i;
        }
        i = i + 1;
    }
    proof {
        assert(name@.take(name@.len() as int) =~= name@);
    }
    if dot == usize::MAX || dot + 1 >= name.len() {
        return false;
    }
    let ext = vstd::slice::slice_subrange(name, dot + 1, name.len());
    proof {
        reveal_strlit("TXT");
        reveal_strlit("LOG");
        reveal_strlit("INI");
        reveal_strlit("CFG");
        reveal_strlit("CSV");
    }
    eq_ignore_case(ext, crate::text::ascii_lit("TXT")) || eq_ignore_case(ext, crate::text::ascii_lit("LOG"))
        || eq_ignore_case(ext, crate::text::ascii_lit("INI")) || eq_ignore_case(
        ext,
        crate::text::ascii_lit("CFG"),
    ) || eq_ignore_case(ext, crate::text::ascii_lit("CSV"))
}

/// Whether two names are the same bytes.
fn names_equal(a: &[u8], b: &[u8]) -> (r: bool)
    ensures
        r == (a@ == b@),
{
    if a.len() != b.len() {
        return false;
    }
    let mut i: usize = 0;
    while i < a.len()
        invariant
            a@.len() == b@.len(),
            i <= a@.len(),
            forall|j: int| 0 <= j < i ==> a@[j] == b@[j],
        decreases a@.len() - i,
    {
        if a[i] != b[i] {
            return false;
        }
        i = i + 1;
    }
    proof {
        assert(a@ =~= b@);
    }
    true
}

/// A copy of a name.
fn copy_name(name: &Vec<u8>) -> (r: Vec<u8>)
    ensures
        r@ == name@,
{
    let mut r: Vec<u8> = Vec::new();
    write_str(&mut r, name.as_slice());
    proof {
        assert(r@ =~= name@);
    }
    r
}

/// Where the parts of the window go, for a content area at
/// `(content_x, content_y)` of size `content_w * content_h`.
pub struct Layout {
    pub content_x: usize,
    pub content_y: usize,
    pub content_w: usize,
    pub content_h: usize,
    pub toolbar_y: usize,
    pub body_y: usize,
    pub body_h: usize,
    pub sidebar_w: usize,
    pub list_x: usize,
    pub list_header_y: usize,
    pub list_start_y: usize,
    pub list_w: usize,
    pub list_h: usize,
    pub max_lines: usize,
    pub back_btn: (usize, usize, usize, usize),
    pub action_btn: (usize, usize, usize, usize),
    pub purge_btn: (usize, usize, usize, usize),
}

/// The layout for the content area `c`: a toolbar with the Back, action and
/// purge buttons, then a sidebar a quarter wide (at least 120, leaving 200
/// for the list) and the list with its header.
pub open spec fn layout_spec(c: (int, int, int, int)) -> Layout {
    let content_w = c.2;
    let toolbar_y = c.1;
    let body_y = c.1 + TOOLBAR_H;
    let body_h = sat_sub(c.3, TOOLBAR_H as int);
    let q = content_w / 4;
    let s0 = if q > 120 { q } else { 120 };
    let room = sat_sub(content_w, 200);
    let sidebar_w = if s0 < room { s0 } else { room };
    let list_x = c.0 + sidebar_w + PAD;
    let list_header_y = body_y + PAD;
    let list_start_y = list_header_y + LINE_HEIGHT;
    let list_w = sat_sub(content_w, sidebar_w + PAD * 2 + SCROLL_W + 4);
    let list_h = sat_sub(body_h, PAD * 2 + LINE_HEIGHT);
    let btn_h = (TOOLBAR_H - 6) as usize;
    let back_x = c.0 + PAD;
    let action_x = back_x + 64 + 8;
    let purge_x = action_x + 78 + 8;
    Layout {
        content_x: c.0 as usize,
        content_y: c.1 as usize,
        content_w: c.2 as usize,
        content_h: c.3 as usize,
        toolbar_y: toolbar_y as usize,
        body_y: body_y as usize,
        body_h: body_h as usize,
        sidebar_w: sidebar_w as usize,
        list_x: list_x as usize,
        list_header_y: list_header_y as usize,
        list_start_y: list_start_y as usize,
        list_w: list_w as usize,
        list_h: list_h as usize,
        max_lines: (list_h / LINE_HEIGHT as int) as usize,
        back_btn: (back_x as usize, (toolbar_y + 3) as usize, 64, btn_h),
        action_btn: (action_x as usize, (toolbar_y + 3) as usize, 78, btn_h),
        purge_btn: (purge_x as usize, (toolbar_y + 3) as usize, 104, btn_h),
    }
}

/// The default window: three quarters of the screen, kept between 400 x 300
/// and 800 x 600, centred.
pub open spec fn calc_rect_spec(fw: int, fh: int) -> (int, int, int, int) {
    let w0 = fw * 3 / 4;
    let w1 = if w0 < 800 { w0 } else { 800 };
    let w = if w1 > 400 { w1 } else { 400 };
    let h0 = fh * 3 / 4;
    let h1 = if h0 < 600 { h0 } else { 600 };
    let h = if h1 > 300 { h1 } else { 300 };
    (sat_sub(fw, w) / 2, sat_sub(fh, h) / 2, w, h)
}

fn calc_rect(fb: &Framebuffer) -> (r: (usize, usize, usize, usize))
    requires
        fb.width * 3 <= usize::MAX,
        fb.height * 3 <= usize::MAX,
    ensures
        (r.0 as int, r.1 as int, r.2 as int, r.3 as int) == calc_rect_spec(fb.width as int, fb.height as int),
{
    let w0 = fb.width * 3 / 4;
    let w1 = if w0 < 800 { w0 } else { 800 };
    let w = if w1 > 400 { w1 } else { 400 };
    let h0 = fb.height * 3 / 4;
    let h1 = if h0 < 600 { h0 } else { 600 };
    let h = if h1 > 300 { h1 } else { 300 };
    (fb.width.saturating_sub(w) / 2, fb.height.saturating_sub(h) / 2, w, h)
}

/// The content area of a window at `r`: inset 2 pixels, below the title bar.
pub open spec fn content_spec(r: (int, int, int, int)) -> (int, int, int, int) {
    (r.0 + 2, r.1 + HEADER_H + 2, sat_sub(r.2, 4), sat_sub(r.3, HEADER_H + 4))
}

fn layout(content: (usize, usize, usize, usize)) -> (l: Layout)
    requires
        content.0 + content.2 + 512 <= usize::MAX,
        content.1 + content.3 + 512 <= usize::MAX,
    ensures
        l == layout_spec((content.0 as int, content.1 as int, content.2 as int, content.3 as int)),
{
    let content_x = content.0;
    let content_y = content.1;
    let content_w = content.2;
    let content_h = content.3;
    let toolbar_y = content_y;
    let body_y = content_y + TOOLBAR_H;
    let body_h = content_h.saturating_sub(TOOLBAR_H);
    let q = content_w / 4;
    let s0 = if q > 120 { q } else { 120 };
    let room = content_w.saturating_sub(200);
    let sidebar_w = if s0 < room { s0 } else { room };
    let list_x = content_x + sidebar_w + PAD;
    let list_header_y = body_y + PAD;
    let list_start_y = list_header_y + LINE_HEIGHT;
    let list_w = content_w.saturating_sub(sidebar_w + PAD * 2 + SCROLL_W + 4);
    let list_h = body_h.saturating_sub(PAD * 2 + LINE_HEIGHT);
    let max_lines = list_h / LINE_HEIGHT;
    let btn_h = TOOLBAR_H - 6;
    let back_btn = (content_x + PAD, toolbar_y + 3, 64, btn_h);
    let action_btn = (back_btn.0 + back_btn.2 + 8, toolbar_y + 3, 78, btn_h);
    let purge_btn = (action_btn.0 + action_btn.2 + 8, toolbar_y + 3, 104, btn_h);
    Layout {
        content_x,
        content_y,
        content_w,
        content_h,
        toolbar_y,
        body_y,
        body_h,
        sidebar_w,
        list_x,
        list_header_y,
        list_start_y,
        list_w,
        list_h,
        max_lines,
        back_btn,
        action_btn,
        purge_btn,
    }
}

/// A file explorer over one FAT32 volume, with a recycle bin: items moved to
/// the bin are hidden from their folder until restored; purged items stay
/// hidden.
pub struct Explorer {
    visible: bool,
    win_x: usize,
    win_y: usize,
    win_w: usize,
    win_h: usize,
    view: ExplorerView,
    fs: Option<Fat32>,
    current_cluster: u32,
    path: Vec<Vec<u8>>,
    cluster_stack: Vec<u32>,
    entries: Vec<FileEntry>,
    visible_count: usize,
    scroll_offset: usize,
    entries_dirty: bool,
    selected_entry: Option<usize>,
    recycle: Vec<RecycleEntry>,
    action: ExplorerAction,
}

/// An explorer's state as plain values. `path` and `stack` hold, for each
/// folder entered, its name and the folder it was entered from.
pub struct ExpView {
    pub visible: bool,
    pub win_x: usize,
    pub win_y: usize,
    pub win_w: usize,
    pub win_h: usize,
    pub view: ExplorerView,
    pub fs: Option<Fat32>,
    pub current_cluster: u32,
    pub path: Seq<Seq<u8>>,
    pub stack: Seq<u32>,
    pub entries: Seq<EntryV>,
    pub visible_count: usize,
    pub scroll_offset: usize,
    pub entries_dirty: bool,
    pub selected: Option<usize>,
    pub recycle: Seq<RecV>,
    pub action: Option<(Seq<u8>, u32, u32)>,
}

impl View for Explorer {
    type V = ExpView;

    closed spec fn view(&self) -> ExpView {
        ExpView {
            visible: self.visible,
            win_x: self.win_x,
            win_y: self.win_y,
            win_w: self.win_w,
            win_h: self.win_h,
            view: self.view,
            fs: self.fs,
            current_cluster: self.current_cluster,
            path: self.path@.map_values(|p: Vec<u8>| p@),
            stack: self.cluster_stack@,
            entries: self.entries@.map_values(|e: FileEntry| e@),
            visible_count: self.visible_count,
            scroll_offset: self.scroll_offset,
            entries_dirty: self.entries_dirty,
            selected: self.selected_entry,
            recycle: self.recycle@.map_values(|r: RecycleEntry| r@),
            action: self.action.view(),
        }
    }
}

impl ExpView {
    /// What the explorer keeps between calls.
    pub open spec fn wf(self) -> bool {
        &&& self.path.len() == self.stack.len()
        &&& self.path.len() <= MAX_PATH
        &&& self.entries.len() <= MAX_ENTRIES
        &&& self.visible_count <= self.entries.len()
        &&& self.recycle.len() == MAX_RECYCLE
        &&& self.fs matches Some(f) ==> f.wf()
        &&& forall|i: int| 0 <= i < self.entries.len() ==> (#[trigger] self.entries[i]).name.len() <= MAX_NAME
        &&& forall|i: int| 0 <= i < self.path.len() ==> (#[trigger] self.path[i]).len() <= MAX_NAME
        &&& forall|i: int| 0 <= i < self.recycle.len() ==> (#[trigger] self.recycle[i]).name.len() <= MAX_NAME
    }

    /// The window rectangle on a `fw * fh` screen.
    pub open spec fn rect_on(self, fw: int, fh: int) -> (int, int, int, int) {
        if self.win_w == 0 || self.win_h == 0 {
            calc_rect_spec(fw, fh)
        } else {
            (self.win_x as int, self.win_y as int, self.win_w as int, self.win_h as int)
        }
    }

    /// The layout on a `fw * fh` screen.
    pub open spec fn layout_on(self, fw: int, fh: int) -> Layout {
        layout_spec(content_spec(self.rect_on(fw, fh)))
    }

    /// The window's coordinates leave room for the layout arithmetic.
    pub open spec fn reachable(self, fb: &Framebuffer) -> bool {
        let r = self.rect_on(fb.width as int, fb.height as int);
        &&& fb.width * 3 <= usize::MAX
        &&& fb.height * 3 <= usize::MAX
        &&& r.0 + r.2 + 600 <= usize::MAX
        &&& r.1 + r.3 + 600 <= usize::MAX
    }

    /// The listing for the current place: the bin's items, or the current
    /// folder (after a Back row when inside a folder) without the items the
    /// bin hides; empty without a volume.
    pub open spec fn listing(self) -> Seq<EntryV> {
        if self.view == ExplorerView::Bin {
            bin_list(self.recycle, MAX_RECYCLE as int)
        } else {
            let base = if self.path.len() > 0 {
                seq![
                    EntryV {
                        name: lit("<- Back"),
                        kind: EntryKind::Back,
                        cluster: 0,
                        size: 0,
                        parent_cluster: 0,
                        recycle_idx: usize::MAX,
                    },
                ]
            } else {
                Seq::empty()
            };
            match self.fs {
                Some(f) => {
                    let ds = if self.current_cluster < 2 {
                        Seq::<DirView>::empty()
                    } else {
                        f.walk_dir(self.current_cluster, f.total_clusters as nat + 1, Seq::empty(), MAX_ENTRIES as int).unwrap()
                    };
                    dir_list(ds, self.recycle, self.current_cluster, base, ds.len() as int)
                },
                None => base,
            }
        }
    }

    /// The current folder can be listed: its cluster chain ends.
    pub open spec fn can_list(self) -> bool {
        self.view == ExplorerView::Root ==> (self.fs matches Some(f) ==> (self.current_cluster < 2
            || f.walk_dir(self.current_cluster, f.total_clusters as nat + 1, Seq::empty(), MAX_ENTRIES as int).is_some()))
    }

    /// The state with the listing up to date for `max_lines` rows: a stale
    /// listing is rebuilt from the top with nothing selected; otherwise the
    /// scroll position is kept within it.
    pub open spec fn refreshed(self, max_lines: int) -> ExpView {
        if self.entries_dirty {
            let l = self.listing();
            ExpView {
                entries: l,
                visible_count: (if l.len() < max_lines { l.len() as int } else { max_lines }) as usize,
                entries_dirty: false,
                scroll_offset: 0,
                selected: None,
                ..self
            }
        } else {
            let max_scroll = sat_sub(self.entries.len() as int, max_lines);
            let scroll = if self.scroll_offset > max_scroll { max_scroll } else { self.scroll_offset as int };
            let left = sat_sub(self.entries.len() as int, scroll);
            ExpView {
                scroll_offset: scroll as usize,
                visible_count: (if left < max_lines { left } else { max_lines }) as usize,
                ..self
            }
        }
    }

    /// Shown at the default rectangle if it has no size yet, with the
    /// listing to be rebuilt, nothing selected and no pending action.
    pub open spec fn opened(self, fw: int, fh: int, view: ExplorerView) -> ExpView {
        let r = calc_rect_spec(fw, fh);
        let sized = self.win_w == 0 || self.win_h == 0;
        ExpView {
            visible: true,
            win_x: if sized { r.0 as usize } else { self.win_x },
            win_y: if sized { r.1 as usize } else { self.win_y },
            win_w: if sized { r.2 as usize } else { self.win_w },
            win_h: if sized { r.3 as usize } else { self.win_h },
            view,
            entries_dirty: true,
            selected: None,
            action: None,
            ..self
        }
    }

    /// Back at the volume's root folder.
    pub open spec fn at_root(self) -> ExpView {
        ExpView {
            path: Seq::empty(),
            stack: Seq::empty(),
            current_cluster: match self.fs {
                Some(f) => f.root_cluster,
                None => 2,
            },
            entries_dirty: true,
            ..self
        }
    }

    /// Up one folder, when inside one.
    pub open spec fn went_up(self) -> ExpView {
        if self.path.len() > 0 {
            ExpView {
                path: self.path.drop_last(),
                stack: self.stack.drop_last(),
                current_cluster: self.stack.last(),
                entries_dirty: true,
                selected: None,
                ..self
            }
        } else {
            self
        }
    }
}

/// The `<- Back` row.
fn back_entry() -> (e: FileEntry)
    ensures
        e@ == (EntryV {
            name: lit("<- Back"),
            kind: EntryKind::Back,
            cluster: 0,
            size: 0,
            parent_cluster: 0,
            recycle_idx: usize::MAX,
        }),
        e@.name.len() == 7,
{
    proof {
        reveal_strlit("<- Back");
    }
    let mut name: Vec<u8> = Vec::new();
    write_str(&mut name, crate::text::ascii_lit("<- Back"));
    proof {
        assert(name@ =~= lit("<- Back"));
    }
    FileEntry { name, kind: EntryKind::Back, cluster: 0, size: 0, parent_cluster: 0, recycle_idx: usize::MAX }
}

/// An empty recycle-bin slot.
fn free_slot() -> (r: RecycleEntry)
    ensures
        r@.state == RecState::Free,
        r@.name.len() == 0,
{
    RecycleEntry {
        state: RecState::Free,
        name: Vec::new(),
        kind: EntryKind::File,
        cluster: 0,
        size: 0,
        parent_cluster: 0,
    }
}

impl ExpView {
    /// The action button: in a folder it moves the selected item (not the
    /// Back row) to the bin; in the bin it restores the selected item.
    pub open spec fn action_pressed(self) -> ExpView {
        match self.selected {
            Some(idx) => if idx < self.entries.len() {
                let e = self.entries[idx as int];
                if self.view == ExplorerView::Root {
                    if e.kind != EntryKind::Back && recycled(self.recycle, e).0 {
                        ExpView {
                            recycle: recycled(self.recycle, e).1,
                            entries_dirty: true,
                            selected: None,
                            ..self
                        }
                    } else {
                        self
                    }
                } else if e.recycle_idx < MAX_RECYCLE {
                    ExpView {
                        recycle: self.recycle.update(
                            e.recycle_idx as int,
                            RecV { state: RecState::Free, ..self.recycle[e.recycle_idx as int] },
                        ),
                        entries_dirty: true,
                        selected: None,
                        ..self
                    }
                } else {
                    self
                }
            } else {
                self
            },
            None => self,
        }
    }

    /// The purge button (in the bin): the selected item is deleted for good.
    pub open spec fn purge_pressed(self) -> ExpView {
        match self.selected {
            Some(idx) => if idx < self.entries.len() && self.entries[idx as int].recycle_idx < MAX_RECYCLE {
                let ri = self.entries[idx as int].recycle_idx as int;
                ExpView {
                    recycle: self.recycle.update(ri, RecV { state: RecState::Purged, ..self.recycle[ri] }),
                    entries_dirty: true,
                    selected: None,
                    ..self
                }
            } else {
                self
            },
            None => self,
        }
    }

    /// A click on row `idx` of the listing: it is selected; in a folder the
    /// Back row goes up, a folder is entered (while the path has room), and
    /// a text file clicked a second time asks to be opened.
    pub open spec fn row_clicked(self, idx: int) -> ExpView {
        let e = self.entries[idx];
        let was = self.selected == Some(idx as usize);
        let s1 = ExpView { selected: Some(idx as usize), ..self };
        if self.view == ExplorerView::Root {
            if e.kind == EntryKind::Back {
                s1.went_up()
            } else if e.kind == EntryKind::Dir && e.cluster >= 2 {
                if self.path.len() < MAX_PATH {
                    ExpView {
                        path: self.path.push(e.name),
                        stack: self.stack.push(self.current_cluster),
                        current_cluster: e.cluster,
                        entries_dirty: true,
                        selected: None,
                        ..s1
                    }
                } else {
                    s1
                }
            } else if e.kind == EntryKind::File && was && text_file(e.name) {
                ExpView { action: Some((e.name, e.cluster, e.size)), ..s1 }
            } else {
                s1
            }
        } else {
            s1
        }
    }

    /// A click at `(x, y)` on a `fw * fh` screen: what it did and the state
    /// after it. In turn: the sidebar's two places, the Back button (up a
    /// folder, or from the bin to the folders), the action and purge
    /// buttons, the scroll bar, and the listed rows.
    pub open spec fn clicked(self, fw: int, fh: int, x: int, y: int) -> (ClickResult, ExpView) {
        let l = self.layout_on(fw, fh);
        let sidebar = (
            (l.content_x + 1) as usize,
            (l.body_y + PAD) as usize,
            l.sidebar_w,
            sat_sub(l.body_h as int, PAD * 2) as usize,
        );
        let side_row = sat_sub(y, l.body_y + PAD + LINE_HEIGHT + 4) / LINE_HEIGHT as int;
        let in_side = in_rect(x, y, sidebar);
        let scroll_x = l.list_x + l.list_w + 4;
        let list_row = (y - l.list_start_y) / LINE_HEIGHT as int;
        if !self.visible {
            (ClickResult::Ignored, self)
        } else if in_side && side_row == 0 {
            (
                ClickResult::Handled,
                ExpView { view: ExplorerView::Root, entries_dirty: true, selected: None, ..self },
            )
        } else if in_side && side_row == 1 {
            (
                ClickResult::Handled,
                ExpView { view: ExplorerView::Bin, entries_dirty: true, selected: None, ..self },
            )
        } else if in_rect(x, y, l.back_btn) {
            (
                ClickResult::Handled,
                if self.view == ExplorerView::Root {
                    self.went_up()
                } else {
                    ExpView { view: ExplorerView::Root, entries_dirty: true, selected: None, ..self }
                },
            )
        } else if in_rect(x, y, l.action_btn) {
            (ClickResult::Handled, self.action_pressed())
        } else if self.view == ExplorerView::Bin && in_rect(x, y, l.purge_btn) {
            (ClickResult::Handled, self.purge_pressed())
        } else if scroll_x <= x < scroll_x + SCROLL_W && l.list_start_y <= y < l.list_start_y + l.list_h {
            let max_scroll = sat_sub(self.entries.len() as int, l.max_lines as int);
            let track_h = sat_sub(l.list_h as int, 2 * SCROLL_W);
            if max_scroll > 0 && track_h > 0 {
                (
                    ClickResult::TrackJump {
                        offset: sat_sub(y, l.list_start_y + SCROLL_W) as usize,
                        track_h: track_h as usize,
                        max_scroll: max_scroll as usize,
                    },
                    self,
                )
            } else {
                (ClickResult::Handled, self)
            }
        } else if l.list_x <= x < l.list_x + l.list_w && l.list_start_y <= y < l.list_start_y + l.list_h
            && list_row < self.visible_count && self.scroll_offset + list_row < self.entries.len() {
            (ClickResult::Handled, self.row_clicked(self.scroll_offset + list_row))
        } else {
            (ClickResult::Ignored, self)
        }
    }
}

impl Explorer {
    /// A hidden explorer over the FAT32 image `fs_img` (when it parses),
    /// at the folders' top with an empty recycle bin.
    pub fn new(fb: &Framebuffer, fs_img: Option<Vec<u8>>) -> (e: Explorer)
        ensures
            e@.wf(),
            !e@.visible,
            e@.win_x == 0 && e@.win_y == 0 && e@.win_w == 0 && e@.win_h == 0,
            e@.view == ExplorerView::Root,
            e@.current_cluster == 2,
            e@.path == Seq::<Seq<u8>>::empty(),
            e@.entries == Seq::<EntryV>::empty(),
            e@.visible_count == 0,
            e@.scroll_offset == 0,
            e@.entries_dirty,
            e@.selected.is_none(),
            forall|i: int| 0 <= i < MAX_RECYCLE ==> (#[trigger] e@.recycle[i]).state == RecState::Free,
            e@.action.is_none(),
            e@.fs.is_some() <==> (fs_img matches Some(d) && crate::fat32::parse_boot(d@).is_some()),
            e@.fs matches Some(f) ==> (fs_img matches Some(d) && f.data@ == d@),
    {
        let fs = match fs_img {
            Some(d) => Fat32::new(d),
            None => None,
        };
        let mut recycle: Vec<RecycleEntry> = Vec::new();
        let mut i: usize = 0;
        while i < MAX_RECYCLE
            invariant
                i <= MAX_RECYCLE,
                recycle@.len() == i,
                forall|j: int| 0 <= j < i ==> (#[trigger] recycle@[j])@.state == RecState::Free,
                forall|j: int| 0 <= j < i ==> (#[trigger] recycle@[j])@.name.len() == 0,
            decreases MAX_RECYCLE - i,
        {
            recycle.push(free_slot());
            i = i + 1;
        }
        let e = Explorer {
            visible: false,
            win_x: 0,
            win_y: 0,
            win_w: 0,
            win_h: 0,
            view: ExplorerView::Root,
            fs,
            current_cluster: 2,
            path: Vec::new(),
            cluster_stack: Vec::new(),
            entries: Vec::new(),
            visible_count: 0,
            scroll_offset: 0,
            entries_dirty: true,
            selected_entry: None,
            recycle,
            action: ExplorerAction::Idle,
        };
        proof {
            assert(e@.path =~= Seq::<Seq<u8>>::empty());
            assert(e@.entries =~= Seq::<EntryV>::empty());
        }
        e
    }

    /// Whether the window is shown.
    pub fn is_visible(&self) -> (r: bool)
        ensures
            r == self@.visible,
    {
        self.visible
    }

    /// Shows the folders from the volume's root.
    pub fn show(&mut self, fb: &Framebuffer)
        requires
            fb.width * 3 <= usize::MAX,
            fb.height * 3 <= usize::MAX,
        ensures
            final(self)@ == old(self)@.opened(fb.width as int, fb.height as int, ExplorerView::Root).at_root(),
    {
        self.open_window(fb);
        self.view = ExplorerView::Root;
        self.reset_path();
        self.entries_dirty = true;
        self.selected_entry = None;
        self.action = ExplorerAction::Idle;
    }

    /// Shows the recycle bin.
    pub fn show_bin(&mut self, fb: &Framebuffer)
        requires
            fb.width * 3 <= usize::MAX,
            fb.height * 3 <= usize::MAX,
        ensures
            final(self)@ == old(self)@.opened(fb.width as int, fb.height as int, ExplorerView::Bin),
    {
        self.open_window(fb);
        self.view = ExplorerView::Bin;
        self.entries_dirty = true;
        self.selected_entry = None;
        self.action = ExplorerAction::Idle;
    }

    fn open_window(&mut self, fb: &Framebuffer)
        requires
            fb.width * 3 <= usize::MAX,
            fb.height * 3 <= usize::MAX,
        ensures
            final(self)@ == (ExpView {
                view: old(self)@.view,
                entries_dirty: old(self)@.entries_dirty,
                selected: old(self)@.selected,
                action: old(self)@.action,
                ..old(self)@.opened(fb.width as int, fb.height as int, old(self)@.view)
            }),
    {
        self.visible = true;
        if self.win_w == 0 || self.win_h == 0 {
            let (x, y, w, h) = calc_rect(fb);
            self.win_x = x;
            self.win_y = y;
            self.win_w = w;
            self.win_h = h;
        }
    }

    /// Hides the window.
    pub fn hide_window(&mut self, fb: &Framebuffer)
        ensures
            final(self)@ == (ExpView { visible: false, ..old(self)@ }),
    {
        self.visible = false;
    }

    /// Hands over the pending action, leaving none.
    pub fn take_action(&mut self) -> (r: ExplorerAction)
        ensures
            r.view() == old(self)@.action,
            final(self)@ == (ExpView { action: None, ..old(self)@ }),
    {
        let mut r = ExplorerAction::Idle;
        std::mem::swap(&mut r, &mut self.action);
        r
    }

    fn reset_path(&mut self)
        ensures
            final(self)@ == old(self)@.at_root(),
    {
        self.path = Vec::new();
        self.cluster_stack = Vec::new();
        self.current_cluster = 2;
        self.entries_dirty = true;
        match &self.fs {
            Some(fs) => {
                self.current_cluster = fs.root_cluster();
            },
            None => {},
        }
        proof {
            assert(self@.path =~= Seq::<Seq<u8>>::empty());
            assert(self@.stack =~= Seq::<u32>::empty());
        }
    }

    /// Puts `e` in the bin (see `recycled`); returns whether it is there.
    fn recycle_move(&mut self, e: &FileEntry) -> (r: bool)
        requires
            old(self)@.wf(),
            e@.name.len() <= MAX_NAME,
        ensures
            (r, final(self)@.recycle) == recycled(old(self)@.recycle, e@),
            final(self)@.recycle.len() == old(self)@.recycle.len(),
            forall|i: int| 0 <= i < final(self)@.recycle.len() ==> (#[trigger] final(self)@.recycle[i]).name.len() <= MAX_NAME,
            final(self)@ == (ExpView { recycle: final(self)@.recycle, ..old(self)@ }),
    {
        let ghost rs = self@.recycle;
        proof {
            lemma_find_match(rs, e.parent_cluster, e.cluster, e.name@, 0);
            lemma_find_free(rs, 0);
        }
        let mut i: usize = 0;
        while i < self.recycle.len()
            invariant
                self@ == old(self)@,
                old(self)@.wf(),
                e@.name.len() <= MAX_NAME,
                rs == old(self)@.recycle,
                rs.len() == self.recycle@.len(),
                i <= rs.len(),
                forall|j: int| 0 <= j < i ==> !rec_matches(#[trigger] rs[j], e.parent_cluster, e.cluster, e.name@),
            decreases rs.len() - i,
        {
            let rec = &self.recycle[i];
            assert(rs[i as int] == rec@);
            if rec.state != RecState::Free && rec.parent_cluster == e.parent_cluster && rec.cluster == e.cluster
                && names_equal(rec.name.as_slice(), e.name.as_slice()) {
                proof {
                    lemma_find_match(rs, e.parent_cluster, e.cluster, e.name@, 0);
                    assert(find_match(rs, e.parent_cluster, e.cluster, e.name@, 0) == i);
                }
                if rec.state == RecState::Purged {
                    return false;
                }
                let updated = RecycleEntry {
                    state: RecState::Bin,
                    name: copy_name(&rec.name),
                    kind: rec.kind,
                    cluster: rec.cluster,
                    size: rec.size,
                    parent_cluster: rec.parent_cluster,
                };
                self.recycle.set(i, updated);
                proof {
                    assert(self@.recycle =~= rs.update(i as int, RecV { state: RecState::Bin, ..rs[i as int] }));
                    assert forall|j: int| 0 <= j < self@.recycle.len() implies (#[trigger] self@.recycle[j]).name.len()
                        <= MAX_NAME by {
                        if j != i {
                            assert(self@.recycle[j] == rs[j]);
                        }
                    }
                }
                return true;
            }
            i = i + 1;
        }
        proof {
            assert(find_match(rs, e.parent_cluster, e.cluster, e.name@, 0) == rs.len());
        }
        let mut k: usize = 0;
        while k < self.recycle.len()
            invariant
                self@ == old(self)@,
                old(self)@.wf(),
                e@.name.len() <= MAX_NAME,
                rs == old(self)@.recycle,
                rs.len() == self.recycle@.len(),
                k <= rs.len(),
                find_match(rs, e.parent_cluster, e.cluster, e.name@, 0) == rs.len(),
                forall|j: int| 0 <= j < k ==> (#[trigger] rs[j]).state != RecState::Free,
            decreases rs.len() - k,
        {
            assert(rs[k as int] == self.recycle@[k as int]@);
            if self.recycle[k].state == RecState::Free {
                proof {
                    lemma_find_free(rs, 0);
                    assert(find_free(rs, 0) == k);
                }
                let slot = RecycleEntry {
                    state: RecState::Bin,
                    name: copy_name(&e.name),
                    kind: e.kind,
                    cluster: e.cluster,
                    size: e.size,
                    parent_cluster: e.parent_cluster,
                };
                self.recycle.set(k, slot);
                proof {
                    assert(self@.recycle =~= rs.update(
                        k as int,
                        RecV {
                            state: RecState::Bin,
                            name: e.name@,
                            kind: e.kind,
                            cluster: e.cluster,
                            size: e.size,
                            parent_cluster: e.parent_cluster,
                        },
                    ));
                    assert forall|j: int| 0 <= j < self@.recycle.len() implies (#[trigger] self@.recycle[j]).name.len()
                        <= MAX_NAME by {
                        if j != k {
                            assert(self@.recycle[j] == rs[j]);
                        }
                    }
                }
                return true;
            }
            k = k + 1;
        }
        proof {
            lemma_find_free(rs, 0);
            assert(find_free(rs, 0) == rs.len());
        }
        false
    }

    /// Whether the bin hides the item (see `hidden`).
    fn is_hidden(&self, parent_cluster: u32, name: &[u8], cluster: u32) -> (r: bool)
        ensures
            r == hidden(self@.recycle, parent_cluster, cluster, name@),
    {
        let ghost rs = self@.recycle;
        proof {
            lemma_find_match(rs, parent_cluster, cluster, name@, 0);
        }
        let mut i: usize = 0;
        while i < self.recycle.len()
            invariant
                rs == self@.recycle,
                rs.len() == self.recycle@.len(),
                i <= rs.len(),
                forall|j: int| 0 <= j < i ==> !rec_matches(#[trigger] rs[j], parent_cluster, cluster, name@),
            decreases rs.len() - i,
        {
            let rec = &self.recycle[i];
            assert(rs[i as int] == rec@);
            if rec.state != RecState::Free && rec.parent_cluster == parent_cluster && rec.cluster == cluster
                && names_equal(rec.name.as_slice(), name) {
                proof {
                    lemma_find_match(rs, parent_cluster, cluster, name@, 0);
                    assert(rec_matches(rs[i as int], parent_cluster, cluster, name@));
                }
                return true;
            }
            i = i + 1;
        }
        proof {
            let fm = find_match(rs, parent_cluster, cluster, name@, 0);
            if fm < rs.len() {
                assert(rec_matches(rs[fm], parent_cluster, cluster, name@));
            }
        }
        false
    }
}

/// A listing row for a directory entry of the folder at `parent`.
fn row_of(d: &DirEntry, parent: u32) -> (e: FileEntry)
    ensures
        e@ == dir_row(d@, parent),
{
    FileEntry {
        name: copy_name(&d.name),
        kind: if d.is_dir { EntryKind::Dir } else { EntryKind::File },
        cluster: d.cluster,
        size: d.size,
        parent_cluster: parent,
        recycle_idx: usize::MAX,
    }
}

impl Explorer {
    fn rebuild_entries(&mut self, max_lines: usize)
        requires
            old(self)@.wf(),
            old(self)@.can_list(),
        ensures
            final(self)@.wf(),
            final(self)@ == (ExpView {
                entries: old(self)@.listing(),
                visible_count: (if old(self)@.listing().len() < max_lines {
                    old(self)@.listing().len() as int
                } else {
                    max_lines as int
                }) as usize,
                ..old(self)@
            }),
    {
        let ghost v0 = self@;
        let mut entries: Vec<FileEntry> = Vec::new();
        if self.view == ExplorerView::Bin {
            let mut i: usize = 0;
            proof {
                assert(entries@.map_values(|e: FileEntry| e@) =~= bin_list(v0.recycle, 0));
            }
            while i < self.recycle.len()
                invariant
                    self@ == v0,
                    v0.wf(),
                    i <= MAX_RECYCLE,
                    self.recycle@.len() == MAX_RECYCLE,
                    entries@.map_values(|e: FileEntry| e@) == bin_list(v0.recycle, i as int),
                    entries@.len() <= i,
                    forall|j: int| 0 <= j < entries@.len() ==> (#[trigger] entries@[j]).name@.len() <= MAX_NAME,
                decreases MAX_RECYCLE - i,
            {
                let rec = &self.recycle[i];
                assert(v0.recycle[i as int] == rec@);
                if rec.state == RecState::Bin && entries.len() < MAX_ENTRIES {
                    let ghost before = entries@;
                    entries.push(
                        FileEntry {
                            name: copy_name(&rec.name),
                            kind: rec.kind,
                            cluster: rec.cluster,
                            size: rec.size,
                            parent_cluster: rec.parent_cluster,
                            recycle_idx: i,
                        },
                    );
                    proof {
                        assert(entries@.map_values(|e: FileEntry| e@) =~= before.map_values(|e: FileEntry| e@).push(
                            EntryV {
                                name: rec@.name,
                                kind: rec.kind,
                                cluster: rec.cluster,
                                size: rec.size,
                                parent_cluster: rec.parent_cluster,
                                recycle_idx: i,
                            },
                        ));
                    }
                }
                i = i + 1;
            }
        } else {
            let ghost base: Seq<EntryV> = Seq::empty();
            if self.path.len() > 0 {
                entries.push(back_entry());
                proof {
                    base = seq![
                        EntryV {
                            name: lit("<- Back"),
                            kind: EntryKind::Back,
                            cluster: 0,
                            size: 0,
                            parent_cluster: 0,
                            recycle_idx: usize::MAX,
                        },
                    ];
                }
            }
            proof {
                assert(entries@.map_values(|e: FileEntry| e@) =~= base);
            }
            match &self.fs {
                Some(fs) => {
                    let listing = fs.list_dir(self.current_cluster, MAX_ENTRIES);
                    let ghost ds = listing@.map_values(|d: DirEntry| d@);
                    proof {
                        fs.lemma_walk_dir_names(
                            self.current_cluster,
                            fs.total_clusters as nat + 1,
                            Seq::empty(),
                            MAX_ENTRIES as int,
                        );
                        if self.current_cluster >= 2 {
                            assert(names_short(ds));
                        } else {
                            assert(ds =~= Seq::<DirView>::empty());
                        }
                    }
                    let parent = self.current_cluster;
                    let mut i: usize = 0;
                    proof {
                        assert(dir_list(ds, v0.recycle, parent, base, 0) == base);
                    }
                    while i < listing.len()
                        invariant
                            self@ == v0,
                            v0.wf(),
                            parent == v0.current_cluster,
                            ds == listing@.map_values(|d: DirEntry| d@),
                            i <= listing@.len(),
                            base.len() <= 1,
                            entries@.map_values(|e: FileEntry| e@) == dir_list(ds, v0.recycle, parent, base, i as int),
                            forall|j: int| 0 <= j < entries@.len() ==> (#[trigger] entries@[j]).name@.len() <= MAX_NAME,
                            names_short(ds),
                        ensures
                            entries@.map_values(|e: FileEntry| e@) == dir_list(
                                ds,
                                v0.recycle,
                                parent,
                                base,
                                ds.len() as int,
                            ),
                        decreases listing@.len() - i,
                    {
                        proof {
                            lemma_dir_list_len(ds, v0.recycle, parent, base, i as int);
                        }
                        if entries.len() >= MAX_ENTRIES {
                            proof {
                                lemma_dir_list_full(ds, v0.recycle, parent, base, i as int, ds.len() as int);
                            }
                            break;
                        }
                        let d = &listing[i];
                        assert(ds[i as int] == d@);
                        assert(d.name@.len() <= 12);
                        if !self.is_hidden(parent, d.name.as_slice(), d.cluster) {
                            let ghost before = entries@;
                            entries.push(row_of(d, parent));
                            proof {
                                assert(entries@.map_values(|e: FileEntry| e@) =~= before.map_values(
                                    |e: FileEntry| e@,
                                ).push(dir_row(d@, parent)));
                            }
                        }
                        i = i + 1;
                    }
                    proof {
                        assert(ds == (if v0.current_cluster < 2 {
                            Seq::<DirView>::empty()
                        } else {
                            fs.walk_dir(v0.current_cluster, fs.total_clusters as nat + 1, Seq::empty(), MAX_ENTRIES as int).unwrap()
                        }));
                        assert(entries@.map_values(|e: FileEntry| e@) == v0.listing());
                        lemma_dir_list_len(ds, v0.recycle, parent, base, ds.len() as int);
                    }
                },
                None => {
                    assert(entries@.map_values(|e: FileEntry| e@) == v0.listing());
                },
            }
        }
        let count = entries.len();
        self.entries = entries;
        self.visible_count = if count < max_lines { count } else { max_lines };
        proof {
            lemma_bin_list_len(v0.recycle, MAX_RECYCLE as int);
        }
    }
}

impl Explorer {
    /// The window rectangle: the default one while it has no size.
    pub fn rect(&self, fb: &Framebuffer) -> (r: (usize, usize, usize, usize))
        requires
            fb.width * 3 <= usize::MAX,
            fb.height * 3 <= usize::MAX,
        ensures
            (r.0 as int, r.1 as int, r.2 as int, r.3 as int) == self@.rect_on(fb.width as int, fb.height as int),
    {
        if self.win_w == 0 || self.win_h == 0 {
            return calc_rect(fb);
        }
        (self.win_x, self.win_y, self.win_w, self.win_h)
    }

    /// Moves the window.
    pub fn set_pos(&mut self, x: usize, y: usize)
        ensures
            final(self)@ == (ExpView { win_x: x, win_y: y, ..old(self)@ }),
    {
        self.win_x = x;
        self.win_y = y;
    }

    /// Moves and resizes the window.
    pub fn set_rect(&mut self, x: usize, y: usize, w: usize, h: usize)
        ensures
            final(self)@ == (ExpView { win_x: x, win_y: y, win_w: w, win_h: h, ..old(self)@ }),
    {
        self.win_x = x;
        self.win_y = y;
        self.win_w = w;
        self.win_h = h;
    }

    fn content_rect(&self, fb: &Framebuffer) -> (r: (usize, usize, usize, usize))
        requires
            self@.reachable(fb),
        ensures
            (r.0 as int, r.1 as int, r.2 as int, r.3 as int) == content_spec(
                self@.rect_on(fb.width as int, fb.height as int),
            ),
    {
        let (x, y, w, h) = self.rect(fb);
        (x + 2, y + HEADER_H + 2, w.saturating_sub(4), h.saturating_sub(HEADER_H + 4))
    }

    /// Brings the listing up to date for the window's size (see
    /// `refreshed`); drawing does this first.
    pub fn refresh(&mut self, fb: &Framebuffer)
        requires
            old(self)@.wf(),
            old(self)@.reachable(fb),
            old(self)@.entries_dirty ==> old(self)@.can_list(),
        ensures
            final(self)@.wf(),
            final(self)@ == old(self)@.refreshed(
                old(self)@.layout_on(fb.width as int, fb.height as int).max_lines as int,
            ),
    {
        let layout = layout(self.content_rect(fb));
        if self.entries_dirty {
            self.rebuild_entries(layout.max_lines);
            self.entries_dirty = false;
            self.scroll_offset = 0;
            self.selected_entry = None;
        } else {
            let max_scroll = self.entries.len().saturating_sub(layout.max_lines);
            if self.scroll_offset > max_scroll {
                self.scroll_offset = max_scroll;
            }
            let left = self.entries.len().saturating_sub(self.scroll_offset);
            self.visible_count = if left < layout.max_lines { left } else { layout.max_lines };
        }
    }

    /// Jumps so that row `line` is the first shown, or as near as the
    /// listing allows; nothing stays selected.
    pub fn scroll_to(&mut self, fb: &Framebuffer, line: usize)
        requires
            old(self)@.wf(),
            old(self)@.reachable(fb),
        ensures
            final(self)@ == (ExpView {
                scroll_offset: {
                    let m = sat_sub(
                        old(self)@.entries.len() as int,
                        old(self)@.layout_on(fb.width as int, fb.height as int).max_lines as int,
                    );
                    if line > m { m as usize } else { line }
                },
                selected: None,
                ..old(self)@
            }),
    {
        let layout = layout(self.content_rect(fb));
        let max_scroll = self.entries.len().saturating_sub(layout.max_lines);
        self.scroll_offset = line;
        if self.scroll_offset > max_scroll {
            self.scroll_offset = max_scroll;
        }
        self.selected_entry = None;
    }

    /// A click at `(x, y)` while shown (see `clicked`). The caller redraws,
    /// which brings the listing up to date.
    pub fn handle_click(&mut self, fb: &Framebuffer, x: usize, y: usize) -> (r: ClickResult)
        requires
            old(self)@.wf(),
            old(self)@.visible ==> old(self)@.reachable(fb),
        ensures
            final(self)@.wf(),
            (r, final(self)@) == old(self)@.clicked(fb.width as int, fb.height as int, x as int, y as int),
    {
        if !self.visible {
            return ClickResult::Ignored;
        }
        let layout = layout(self.content_rect(fb));
        let sidebar_x = layout.content_x + 1;
        let sidebar_y = layout.body_y + PAD;
        let sidebar_h = layout.body_h.saturating_sub(PAD * 2);
        if hit(x, y, (sidebar_x, sidebar_y, layout.sidebar_w, sidebar_h)) {
            let row = (y.saturating_sub(sidebar_y + LINE_HEIGHT + 4)) / LINE_HEIGHT;
            if row == 0 {
                self.view = ExplorerView::Root;
                self.entries_dirty = true;
                self.selected_entry = None;
                return ClickResult::Handled;
            }
            if row == 1 {
                self.view = ExplorerView::Bin;
                self.entries_dirty = true;
                self.selected_entry = None;
                return ClickResult::Handled;
            }
        }
        if hit(x, y, layout.back_btn) {
            if self.view == ExplorerView::Root {
                self.go_up();
            } else {
                self.view = ExplorerView::Root;
                self.entries_dirty = true;
                self.selected_entry = None;
            }
            return ClickResult::Handled;
        }
        if hit(x, y, layout.action_btn) {
            self.press_action();
            return ClickResult::Handled;
        }
        if self.view == ExplorerView::Bin && hit(x, y, layout.purge_btn) {
            self.press_purge();
            return ClickResult::Handled;
        }
        let scroll_x = layout.list_x + layout.list_w + 4;
        let scroll_y = layout.list_start_y;
        let scroll_h = layout.list_h;
        if x >= scroll_x && x < scroll_x + SCROLL_W && y >= scroll_y && y < scroll_y + scroll_h {
            let max_scroll = self.entries.len().saturating_sub(layout.max_lines);
            let track_h = scroll_h.saturating_sub(2 * SCROLL_W);
            if max_scroll > 0 && track_h > 0 {
                return ClickResult::TrackJump {
                    offset: y.saturating_sub(scroll_y + SCROLL_W),
                    track_h,
                    max_scroll,
                };
            }
            return ClickResult::Handled;
        }
        if x >= layout.list_x && x < layout.list_x + layout.list_w && y >= layout.list_start_y && y
            < layout.list_start_y + layout.list_h {
            let row = (y - layout.list_start_y) / LINE_HEIGHT;
            if row < self.visible_count && self.scroll_offset < self.entries.len() - row {
                self.click_row(self.scroll_offset + row);
                return ClickResult::Handled;
            }
        }
        ClickResult::Ignored
    }

    fn go_up(&mut self)
        requires
            old(self)@.wf(),
        ensures
            final(self)@.wf(),
            final(self)@ == old(self)@.went_up(),
    {
        if self.path.len() > 0 {
            self.path.pop();
            let c = self.cluster_stack.pop();
            match c {
                Some(c) => self.current_cluster = c,
                None => {},
            }
            self.entries_dirty = true;
            self.selected_entry = None;
            proof {
                assert(self@.path =~= old(self)@.path.drop_last());
            }
        }
    }

    fn press_action(&mut self)
        requires
            old(self)@.wf(),
        ensures
            final(self)@.wf(),
            final(self)@ == old(self)@.action_pressed(),
    {
        match self.selected_entry {
            Some(idx) => {
                if idx < self.entries.len() {
                    assert(self@.entries[idx as int] == self.entries@[idx as int]@);
                    if self.view == ExplorerView::Root {
                        if self.entries[idx].kind != EntryKind::Back {
                            let e = FileEntry {
                                name: copy_name(&self.entries[idx].name),
                                kind: self.entries[idx].kind,
                                cluster: self.entries[idx].cluster,
                                size: self.entries[idx].size,
                                parent_cluster: self.entries[idx].parent_cluster,
                                recycle_idx: self.entries[idx].recycle_idx,
                            };
                            if self.recycle_move(&e) {
                                self.entries_dirty = true;
                                self.selected_entry = None;
                            }
                        }
                    } else {
                        let ri = self.entries[idx].recycle_idx;
                        if ri < MAX_RECYCLE {
                            self.set_slot_state(ri, RecState::Free);
                            self.entries_dirty = true;
                            self.selected_entry = None;
                        }
                    }
                }
            },
            None => {},
        }
    }

    fn press_purge(&mut self)
        requires
            old(self)@.wf(),
        ensures
            final(self)@.wf(),
            final(self)@ == old(self)@.purge_pressed(),
    {
        match self.selected_entry {
            Some(idx) => {
                if idx < self.entries.len() {
                    assert(self@.entries[idx as int] == self.entries@[idx as int]@);
                    let ri = self.entries[idx].recycle_idx;
                    if ri < MAX_RECYCLE {
                        self.set_slot_state(ri, RecState::Purged);
                        self.entries_dirty = true;
                        self.selected_entry = None;
                    }
                }
            },
            None => {},
        }
    }

    fn set_slot_state(&mut self, i: usize, state: RecState)
        requires
            old(self)@.wf(),
            i < MAX_RECYCLE,
        ensures
            final(self)@.wf(),
            final(self)@ == (ExpView {
                recycle: old(self)@.recycle.update(i as int, RecV { state, ..old(self)@.recycle[i as int] }),
                ..old(self)@
            }),
    {
        let rec = &self.recycle[i];
        let updated = RecycleEntry {
            state,
            name: copy_name(&rec.name),
            kind: rec.kind,
            cluster: rec.cluster,
            size: rec.size,
            parent_cluster: rec.parent_cluster,
        };
        self.recycle.set(i, updated);
        proof {
            assert(self@.recycle =~= old(self)@.recycle.update(
                i as int,
                RecV { state, ..old(self)@.recycle[i as int] },
            ));
        }
    }

    fn click_row(&mut self, idx: usize)
        requires
            old(self)@.wf(),
            idx < old(self)@.entries.len(),
        ensures
            final(self)@.wf(),
            final(self)@ == old(self)@.row_clicked(idx as int),
    {
        let was_selected = match self.selected_entry {
            Some(s) => s == idx,
            None => false,
        };
        assert(self@.entries[idx as int] == self.entries@[idx as int]@);
        let kind = self.entries[idx].kind;
        let cluster = self.entries[idx].cluster;
        let size = self.entries[idx].size;
        let name = copy_name(&self.entries[idx].name);
        self.selected_entry = Some(idx);
        if self.view == ExplorerView::Root {
            if kind == EntryKind::Back {
                self.go_up();
            } else if kind == EntryKind::Dir && cluster >= 2 {
                if self.path.len() < MAX_PATH {
                    self.cluster_stack.push(self.current_cluster);
                    self.path.push(name);
                    self.current_cluster = cluster;
                    self.entries_dirty = true;
                    self.selected_entry = None;
                    proof {
                        assert(self@.path =~= old(self)@.path.push(old(self)@.entries[idx as int].name));
                    }
                }
            } else if kind == EntryKind::File && was_selected && is_text_file(name.as_slice()) {
                self.action = ExplorerAction::OpenTextFile { name, cluster, size };
            }
        }
    }
}

/// Draws a toolbar button: a gradient box with its label centred.
fn draw_button(
    fb: &mut Framebuffer,
    writer: &mut TextWriter,
    rect: (usize, usize, usize, usize),
    label: &[u8],
    is_dark: bool,
    text_color: u32,
)
    requires
        old(fb).wf(),
        ascii(label@),
        label@.len() <= 16,
        rect.0 <= 4 * COORD_MAX,
        rect.1 <= 4 * COORD_MAX,
        rect.2 <= 4 * COORD_MAX,
        rect.3 <= 64,
        old(writer).width <= COORD_MAX,
    ensures
        final(fb).wf(),
        final(fb).same_shape(old(fb)),
        final(writer).width == old(writer).width,
        kept_above(*old(fb), *final(fb), rect.1 as int),
{
    fill_vertical_gradient(
        fb,
        rect.0,
        rect.1,
        rect.2,
        rect.3,
        if is_dark { 0x00494848 } else { 0x00EAF0F8 },
        if is_dark { 0x003F3F3F } else { 0x00D8E2EE },
    );
    writer.set_color(text_color);
    let text_w = label.len() * 8;
    let tx = rect.0 + rect.2.saturating_sub(text_w) / 2;
    writer.set_pos(tx, rect.1 + 6);
    let ghost mid = *fb;
    writer.write_bytes(fb, label);
    proof {
        lemma_above_step(*old(fb), mid, *fb, rect.1 as int, rect.1 + 6);
    }
}

/// Draws a sidebar place: highlighted in a light shade of the accent when
/// active.
fn draw_sidebar_item(
    fb: &mut Framebuffer,
    writer: &mut TextWriter,
    x: usize,
    y: usize,
    w: usize,
    label: &[u8],
    active: bool,
    accent: u32,
    text: u32,
)
    requires
        old(fb).wf(),
        ascii(label@),
        label@.len() <= 16,
        x <= 4 * COORD_MAX,
        y <= 4 * COORD_MAX,
        w <= 4 * COORD_MAX,
        old(writer).width <= COORD_MAX,
    ensures
        final(fb).wf(),
        final(fb).same_shape(old(fb)),
        final(writer).width == old(writer).width,
        kept_above(*old(fb), *final(fb), y - 2),
{
    assert(kept_above(*old(fb), *old(fb), y - 2));
    if active {
        let active_bg = blend_rgb(accent, 0x00FFFFFF, 34);
        fill_rect(fb, x.saturating_sub(4), y.saturating_sub(2), w + 8, LINE_HEIGHT, active_bg);
        proof {
            lemma_above_step(*old(fb), *old(fb), *fb, y - 2, y.saturating_sub(2) as int);
        }
        writer.set_color(0x00FFFFFF);
    } else {
        writer.set_color(text);
    }
    writer.set_pos(x, y);
    let ghost mid = *fb;
    writer.write_bytes(fb, label);
    proof {
        lemma_above_step(*old(fb), mid, *fb, y - 2, y as int);
    }
}

/// The bytes of an ASCII literal, for the explorer's labels.
fn label(s: &'static str) -> (b: &'static [u8])
    requires
        vstd::string::is_ascii(s),
    ensures
        ascii(b@),
        b@.len() == s@.len(),
        b@ == lit(s),
        forall|i: int| 0 <= i < b@.len() ==> b@[i] == s@[i] as u8,
{
    crate::text::ascii_lit(s)
}

impl ExpView {
    /// The rows shown, and the folder names on the path, are ASCII.
    pub open spec fn shows_ascii(self) -> bool {
        &&& forall|i: int|
            0 <= i < self.visible_count && self.scroll_offset + i < self.entries.len() ==> ascii(
                #[trigger] self.entries[self.scroll_offset + i].name,
            )
        &&& forall|i: int| 0 <= i < self.path.len() ==> ascii(#[trigger] self.path[i])
    }

    /// The window lies where the drawing code can reach.
    pub open spec fn drawable(self, fb: &Framebuffer) -> bool {
        let r = self.rect_on(fb.width as int, fb.height as int);
        &&& self.reachable(fb)
        &&& fb.width <= COORD_MAX
        &&& window_fits(r.0, r.1, r.2, r.3)
        &&& r.2 >= 2 * CORNER_RADIUS
        &&& r.3 >= 2 * CORNER_RADIUS
    }
}

impl Explorer {
    /// Whether the rows shown and the path are ASCII, as drawing needs.
    pub fn shows_ascii(&self) -> (r: bool)
        requires
            self@.wf(),
        ensures
            r == self@.shows_ascii(),
    {
        let mut i: usize = 0;
        while i < self.visible_count
            invariant
                self@.wf(),
                i <= self@.visible_count,
                forall|j: int|
                    0 <= j < i && self@.scroll_offset + j < self@.entries.len() ==> ascii(
                        #[trigger] self@.entries[self@.scroll_offset + j].name,
                    ),
            decreases self@.visible_count - i,
        {
            if self.scroll_offset < self.entries.len() && i < self.entries.len() - self.scroll_offset {
                let idx = self.scroll_offset + i;
                assert(self@.entries[idx as int] == self.entries@[idx as int]@);
                if !crate::text::is_ascii(self.entries[idx].name.as_slice()) {
                    return false;
                }
            }
            i = i + 1;
        }
        let mut k: usize = 0;
        while k < self.path.len()
            invariant
                self@.wf(),
                k <= self@.path.len(),
                forall|j: int|
                    0 <= j < self@.visible_count && self@.scroll_offset + j < self@.entries.len() ==> ascii(
                        #[trigger] self@.entries[self@.scroll_offset + j].name,
                    ),
                forall|j: int| 0 <= j < k ==> ascii(#[trigger] self@.path[j]),
            decreases self@.path.len() - k,
        {
            assert(self@.path[k as int] == self.path@[k as int]@);
            if !crate::text::is_ascii(self.path[k].as_slice()) {
                return false;
            }
            k = k + 1;
        }
        true
    }

    /// Draws the window: frame, toolbar with its buttons and the path (or the
    /// bin's heading), the sidebar, the listing from the scroll position
    /// with the selected row highlighted and file sizes on the right, and
    /// the scroll track. The listing is first brought up to date (see
    /// `refresh`). When the listing is longer than the window, returns what
    /// the thumb is drawn from (its size and place are proportional, worked
    /// out by the caller). Nothing is drawn while hidden.
    #[verifier::rlimit(100)]
    #[verifier::spinoff_prover]
    pub fn redraw(&mut self, fb: &mut Framebuffer, ui: &UiSettings) -> (r: Option<crate::notepad::ScrollThumb>)
        requires
            old(fb).wf(),
            old(self)@.wf(),
            old(self)@.visible ==> old(self)@.drawable(old(fb)),
            old(self)@.visible ==> (old(self)@.entries_dirty ==> old(self)@.can_list()),
            old(self)@.visible ==> old(self)@.refreshed(
                old(self)@.layout_on(old(fb).width as int, old(fb).height as int).max_lines as int,
            ).shows_ascii(),
        ensures
            final(fb).wf(),
            final(fb).same_shape(old(fb)),
            final(self)@.wf(),
            !old(self)@.visible ==> *final(fb) == *old(fb) && final(self)@ == old(self)@ && r.is_none(),
            old(self)@.visible ==> final(self)@ == old(self)@.refreshed(
                old(self)@.layout_on(old(fb).width as int, old(fb).height as int).max_lines as int,
            ),
            old(self)@.visible ==> (r.is_some() <==> final(self)@.entries.len() > old(self)@.layout_on(
                old(fb).width as int,
                old(fb).height as int,
            ).max_lines),
            r matches Some(t) ==> {
                let l = old(self)@.layout_on(old(fb).width as int, old(fb).height as int);
                &&& t.x == l.list_x + l.list_w + 4
                &&& t.track_y == l.list_start_y
                &&& t.track_h == l.list_h
                &&& t.max_lines == l.max_lines
                &&& t.total_lines == final(self)@.entries.len()
                &&& t.scroll == final(self)@.scroll_offset
                &&& t.max_scroll == final(self)@.entries.len() - l.max_lines
                &&& t.color == if ui.dark { 0x00777F8Au32 } else { 0x0093A9C0u32 }
            },
            old(self)@.visible ==> forall|j: int|
                0 <= j < final(self)@.visible_count && final(self)@.scroll_offset + j < final(self)@.entries.len()
                    ==> #[trigger] row_shows(
                    *final(fb),
                    final(self)@.row_entry(j),
                    old(fb).width as int,
                    old(self)@.layout_on(old(fb).width as int, old(fb).height as int).list_x as int,
                    old(self)@.layout_on(old(fb).width as int, old(fb).height as int).list_w as int,
                    old(self)@.layout_on(old(fb).width as int, old(fb).height as int).list_start_y as int,
                    j,
                    row_color(final(self)@.row_entry(j).kind, ui.accent, list_text_color(ui.dark)),
                ),
            ({
                let rc = old(self)@.rect_on(old(fb).width as int, old(fb).height as int);
                let title = if old(self)@.view == ExplorerView::Bin {
                    lit("Recycle Bin")
                } else {
                    lit("File Explorer")
                };
                old(self)@.visible && title_fits(rc.0, rc.2, rc.3, old(fb).width as int, title)
                    ==> painted(*final(fb), rc.0 + 8, rc.1 + 14, 3, 14, ui.accent)
            }),
    {
        if !self.visible {
            return None;
        }
        let (x, y, w, h) = self.rect(fb);
        let accent = ui.accent;
        let is_dark = ui.dark;
        proof {
            reveal_strlit("Recycle Bin");
            reveal_strlit("File Explorer");
        }
        let title = if self.view == ExplorerView::Bin { label("Recycle Bin") } else { label("File Explorer") };
        let chrome = draw_window(fb, ui, x, y, w, h, title);
        let ghost framed = *fb;
        let ghost top = y + HEADER_H;
        let ghost stripe = (x + 8, y + 14, 3int, 14int);
        assert(kept_above(framed, framed, top));
        let ghost p1 = *fb;
        fill_vertical_gradient(
            fb,
            chrome.content_x,
            chrome.content_y,
            chrome.content_w,
            chrome.content_h,
            if is_dark { 0x001E1E1E } else { 0x00FFFFFF },
            if is_dark { 0x00181818 } else { 0x00F7FAFF },
        );
        proof {
            lemma_above_step(framed, p1, *fb, top, chrome.content_y as int);
        }
        let layout = layout((chrome.content_x, chrome.content_y, chrome.content_w, chrome.content_h));
        let ghost p2 = *fb;
        fill_vertical_gradient(
            fb,
            layout.content_x,
            layout.toolbar_y,
            layout.content_w,
            TOOLBAR_H,
            if is_dark { 0x00313131 } else { 0x00F8FBFF },
            if is_dark { 0x002A2A2A } else { 0x00EDF3FC },
        );
        proof {
            lemma_above_step(framed, p2, *fb, top, layout.toolbar_y as int);
        }
        let ghost p3 = *fb;
        fill_rect(
            fb,
            layout.content_x,
            layout.toolbar_y + TOOLBAR_H - 1,
            layout.content_w,
            1,
            if is_dark { 0x00444444 } else { 0x00D6E2F0 },
        );
        proof {
            lemma_above_step(framed, p3, *fb, top, layout.toolbar_y + TOOLBAR_H - 1);
        }

        let mut writer = TextWriter::new(fb);
        let text_color: u32 = if is_dark { 0x00F3F5F8 } else { 0x00121B29 };
        let detail: u32 = if is_dark { 0x00B7C0CC } else { 0x004D5D72 };

        proof {
            reveal_strlit("Back");
            reveal_strlit("Restore");
            reveal_strlit("Delete");
            reveal_strlit("Delete now");
        }
        let ghost p4 = *fb;
        draw_button(fb, &mut writer, layout.back_btn, label("Back"), is_dark, text_color);
        proof {
            lemma_above_step(framed, p4, *fb, top, layout.back_btn.1 as int);
        }
        let action_label = if self.view == ExplorerView::Bin { label("Restore") } else { label("Delete") };
        let ghost p5 = *fb;
        draw_button(fb, &mut writer, layout.action_btn, action_label, is_dark, text_color);
        proof {
            lemma_above_step(framed, p5, *fb, top, layout.action_btn.1 as int);
        }
        if self.view == ExplorerView::Bin {
            let ghost p6 = *fb;
            draw_button(fb, &mut writer, layout.purge_btn, label("Delete now"), is_dark, text_color);
            proof {
                lemma_above_step(framed, p6, *fb, top, layout.purge_btn.1 as int);
            }
        }

        self.refresh(fb);

        let ghost p7 = *fb;
        self.draw_location(fb, &mut writer, &layout, detail);
        proof {
            lemma_above_step(framed, p7, *fb, top, layout.toolbar_y as int);
        }

        let ghost p8 = *fb;
        fill_vertical_gradient(
            fb,
            layout.content_x,
            layout.body_y,
            layout.sidebar_w,
            layout.body_h,
            if is_dark { 0x00252525 } else { 0x00F9FBFF },
            if is_dark { 0x00212121 } else { 0x00EEF4FC },
        );
        proof {
            lemma_above_step(framed, p8, *fb, top, layout.body_y as int);
        }
        writer.set_color(detail);
        writer.set_pos(layout.content_x + PAD, layout.body_y + PAD);
        proof {
            reveal_strlit("Places");
            reveal_strlit("Files");
            reveal_strlit("Name");
            reveal_strlit("Size");
        }
        let ghost p9 = *fb;
        writer.write_bytes(fb, label("Places"));
        proof {
            lemma_above_step(framed, p9, *fb, top, layout.body_y + PAD);
        }
        let item_y = layout.body_y + PAD + LINE_HEIGHT + 4;
        let item_w = layout.sidebar_w.saturating_sub(PAD * 2);
        let ghost p10 = *fb;
        draw_sidebar_item(
            fb,
            &mut writer,
            layout.content_x + PAD,
            item_y,
            item_w,
            label("Files"),
            self.view == ExplorerView::Root,
            accent,
            text_color,
        );
        proof {
            lemma_above_step(framed, p10, *fb, top, item_y - 2);
        }
        let ghost p11 = *fb;
        draw_sidebar_item(
            fb,
            &mut writer,
            layout.content_x + PAD,
            item_y + LINE_HEIGHT,
            item_w,
            label("Recycle Bin"),
            self.view == ExplorerView::Bin,
            accent,
            text_color,
        );
        proof {
            lemma_above_step(framed, p11, *fb, top, item_y + LINE_HEIGHT - 2);
        }
        writer.set_color(detail);
        writer.set_pos(layout.list_x, layout.list_header_y);
        let ghost p12 = *fb;
        writer.write_bytes(fb, label("Name"));
        proof {
            lemma_above_step(framed, p12, *fb, top, layout.list_header_y as int);
        }
        writer.set_pos(layout.list_x + layout.list_w.saturating_sub(64), layout.list_header_y);
        let ghost p13 = *fb;
        writer.write_bytes(fb, label("Size"));
        proof {
            lemma_above_step(framed, p13, *fb, top, layout.list_header_y as int);
        }

        let ghost p14 = *fb;
        self.draw_rows(fb, &mut writer, &layout, is_dark, accent, text_color, detail);
        proof {
            lemma_above_step(framed, p14, *fb, top, layout.list_start_y as int);
        }
        let ghost rowed = *fb;

        let max_scroll = self.entries.len().saturating_sub(layout.max_lines);
        let mut thumb = None;
        if max_scroll > 0 {
            let scroll_x = layout.list_x + layout.list_w + 4;
            let ghost p15 = *fb;
            fill_rect(
                fb,
                scroll_x,
                layout.list_start_y,
                SCROLL_W,
                layout.list_h,
                if is_dark { 0x00323232 } else { 0x00E1EAF5 },
            );
            proof {
                lemma_above_step(framed, p15, *fb, top, layout.list_start_y as int);
            }
            thumb = Some(
                crate::notepad::ScrollThumb {
                    x: scroll_x,
                    track_y: layout.list_start_y,
                    track_h: layout.list_h,
                    max_lines: layout.max_lines,
                    total_lines: self.entries.len(),
                    scroll: self.scroll_offset,
                    max_scroll,
                    color: if is_dark { 0x00777F8A } else { 0x0093A9C0 },
                },
            );
        }
        if self.entries.len() == 0 {
            writer.set_color(detail);
            writer.set_pos(layout.list_x, layout.list_start_y + 4);
            proof {
                reveal_strlit("Recycle Bin is empty.");
                reveal_strlit("(empty folder)");
            }
            if self.view == ExplorerView::Bin {
                let ghost p16 = *fb;
                writer.write_bytes(fb, label("Recycle Bin is empty."));
                proof {
                    lemma_above_step(framed, p16, *fb, top, layout.list_start_y + 4);
                }
            } else {
                let ghost p17 = *fb;
                writer.write_bytes(fb, label("(empty folder)"));
                proof {
                    lemma_above_step(framed, p17, *fb, top, layout.list_start_y + 4);
                }
            }
        }
        proof {
            let lx = layout.list_x as int;
            let lw = layout.list_w as int;
            let ly = layout.list_start_y as int;
            let fw = fb.width as int;
            assert forall|j: int|
                0 <= j < self@.visible_count && self@.scroll_offset + j < self@.entries.len() implies #[trigger] row_shows(
                    *fb,
                    self@.row_entry(j),
                    fw,
                    lx,
                    lw,
                    ly,
                    j,
                    row_color(self@.row_entry(j).kind, accent, text_color),
                ) by {
                let ej = self@.row_entry(j);
                assert(row_shows(rowed, ej, fw, lx, lw, ly, j, row_color(ej.kind, accent, text_color)));
                assert forall|qx: int, qy: int|
                    0 <= qx < fb.width && 0 <= qy < fb.height && #[trigger] row_name_ink(ej, fw, lx, lw, ly, j, qx, qy)
                        implies fb.pixel(qx, qy) == row_color(ej.kind, accent, text_color) by {
                    lemma_row_ink_rows(ej, fw, lx, lw, ly, j, qx, qy);
                    assert(rowed.pixel(qx, qy) == row_color(ej.kind, accent, text_color));
                }
            }
        }
        proof {
            if title_fits(x as int, w as int, h as int, old(fb).width as int, title@) {
                lemma_above_painted(framed, *fb, top, stripe, ui.accent);
            }
        }
        thumb
    }

    /// Writes where the window is: the bin's heading, or `C:\` and the
    /// folder names on the path.
    fn draw_location(&self, fb: &mut Framebuffer, writer: &mut TextWriter, layout: &Layout, detail: u32)
        requires
            old(fb).wf(),
            old(fb).width <= COORD_MAX,
            old(writer).width == old(fb).width,
            self@.wf(),
            self@.shows_ascii(),
            layout.action_btn.0 <= 2 * COORD_MAX,
            layout.action_btn.2 <= 100,
            layout.toolbar_y <= 2 * COORD_MAX,
        ensures
            final(fb).wf(),
            final(fb).same_shape(old(fb)),
            final(writer).width == old(writer).width,
            kept_above(*old(fb), *final(fb), layout.toolbar_y as int),
    {
        assert(kept_above(*old(fb), *old(fb), layout.toolbar_y as int));
        writer.set_color(detail);
        let path_x = layout.action_btn.0 + layout.action_btn.2 + PAD;
        let path_y = layout.toolbar_y + 8;
        writer.set_pos(path_x, path_y);
        if self.view == ExplorerView::Bin {
            proof {
                reveal_strlit("Items in recycle bin");
            }
            let ghost l1 = *fb;
            let ghost ly1 = writer.y as int;
            writer.write_bytes(fb, label("Items in recycle bin"));
            proof {
                lemma_above_step(*old(fb), l1, *fb, layout.toolbar_y as int, ly1);
            }
        } else {
            proof {
                reveal_strlit("C:\\");
                reveal_strlit("\\");
            }
            let sep = label("\\");
            let ghost l2 = *fb;
            let ghost ly2 = writer.y as int;
            writer.write_bytes(fb, label("C:\\"));
            proof {
                lemma_above_step(*old(fb), l2, *fb, layout.toolbar_y as int, ly2);
            }
            proof {
                crate::text::lemma_after_bytes_bounds(writer.width as int, path_x as int, path_y as int, lit("C:\\"));
            }
            let depth = self.path.len();
            let mut i: usize = 0;
            while i < depth
                invariant
                    fb.wf(),
                    fb.same_shape(old(fb)),
                    fb.width <= COORD_MAX,
                    writer.width == fb.width,
                    self@.wf(),
                    self@.shows_ascii(),
                    depth == self@.path.len(),
                    i <= depth,
                    ascii(sep@),
                    sep@.len() == 1,
                    writer.x <= 4 * COORD_MAX,
                    writer.y <= path_y + 30 + i * 250,
                    path_y <= 4 * COORD_MAX,
                    writer.y >= path_y,
                    path_y == layout.toolbar_y + 8,
                    kept_above(*old(fb), *fb, layout.toolbar_y as int),
                decreases depth - i,
            {
                assert(self@.path[i as int] == self.path@[i as int]@);
                let item = self.path[i].as_slice();
                if item.len() > 0 {
                    assert(ascii(self@.path[i as int]));
                    let ghost x0 = writer.x as int;
                    let ghost y0 = writer.y as int;
                    let ghost l3 = *fb;
                    let ghost ly3 = writer.y as int;
                    writer.write_bytes(fb, item);
                    proof {
                        lemma_above_step(*old(fb), l3, *fb, layout.toolbar_y as int, ly3);
                    }
                    proof {
                        crate::text::lemma_after_bytes_bounds(writer.width as int, x0, y0, item@);
                    }
                    if i + 1 < depth {
                        let ghost x1 = writer.x as int;
                        let ghost y1 = writer.y as int;
                        let ghost l4 = *fb;
                        let ghost ly4 = writer.y as int;
                        writer.write_bytes(fb, sep);
                        proof {
                            lemma_above_step(*old(fb), l4, *fb, layout.toolbar_y as int, ly4);
                        }
                        proof {
                            crate::text::lemma_after_bytes_bounds(writer.width as int, x1, y1, sep@);
                        }
                    }
                }
                i = i + 1;
            }
        }

    }

    /// Draws the listed rows from the scroll position.
    fn draw_rows(
        &self,
        fb: &mut Framebuffer,
        writer: &mut TextWriter,
        layout: &Layout,
        is_dark: bool,
        accent: u32,
        text_color: u32,
        detail: u32,
    )
        requires
            old(fb).wf(),
            old(fb).width <= COORD_MAX,
            old(writer).width == old(fb).width,
            self@.wf(),
            self@.shows_ascii(),
            layout.list_x <= 4 * COORD_MAX,
            layout.list_w <= 4 * COORD_MAX,
            layout.list_start_y <= 4 * COORD_MAX,
            layout.max_lines <= COORD_MAX,
            self@.visible_count <= layout.max_lines,
        ensures
            final(fb).wf(),
            final(fb).same_shape(old(fb)),
            final(writer).width == old(writer).width,
            kept_above(*old(fb), *final(fb), layout.list_start_y as int),
            forall|j: int|
                0 <= j < self@.visible_count && self@.scroll_offset + j < self@.entries.len() ==> #[trigger] row_shows(
                    *final(fb),
                    self@.row_entry(j),
                    old(fb).width as int,
                    layout.list_x as int,
                    layout.list_w as int,
                    layout.list_start_y as int,
                    j,
                    row_color(self@.row_entry(j).kind, accent, text_color),
                ),
    {
        assert(kept_above(*old(fb), *old(fb), layout.list_start_y as int));
        let mut i: usize = 0;
        while i < self.visible_count
            invariant
                fb.wf(),
                fb.same_shape(old(fb)),
                fb.width <= COORD_MAX,
                writer.width == fb.width,
                self@.wf(),
                self@.shows_ascii(),
                i <= self@.visible_count,
                self@.visible_count <= layout.max_lines <= COORD_MAX,
                layout.list_x <= 4 * COORD_MAX,
                layout.list_w <= 4 * COORD_MAX,
                layout.list_start_y <= 4 * COORD_MAX,
                kept_above(*old(fb), *fb, layout.list_start_y as int),
                forall|j: int|
                    0 <= j < i && self@.scroll_offset + j < self@.entries.len() ==> #[trigger] row_shows(
                        *fb,
                        self@.row_entry(j),
                        old(fb).width as int,
                        layout.list_x as int,
                        layout.list_w as int,
                        layout.list_start_y as int,
                        j,
                        row_color(self@.row_entry(j).kind, accent, text_color),
                    ),
            ensures
                fb.wf(),
                fb.same_shape(old(fb)),
                writer.width == fb.width,
                kept_above(*old(fb), *fb, layout.list_start_y as int),
                i == self@.visible_count || self@.scroll_offset + i >= self@.entries.len(),
                forall|j: int|
                    0 <= j < i && self@.scroll_offset + j < self@.entries.len() ==> #[trigger] row_shows(
                        *fb,
                        self@.row_entry(j),
                        old(fb).width as int,
                        layout.list_x as int,
                        layout.list_w as int,
                        layout.list_start_y as int,
                        j,
                        row_color(self@.row_entry(j).kind, accent, text_color),
                    ),
            decreases self@.visible_count - i,
        {
            proof {
                reveal_strlit("..");
                reveal_strlit("[DIR] ");
                reveal_strlit("/");
                reveal_strlit("      ");
            }
            if self.scroll_offset >= self.entries.len() || i >= self.entries.len() - self.scroll_offset {
                break;
            }
            let entry_idx = self.scroll_offset + i;
            assert(self@.entries[entry_idx as int] == self.entries@[entry_idx as int]@);
            let entry = &self.entries[entry_idx];
            let row_y = layout.list_start_y + i * LINE_HEIGHT;
            let ghost before_row = *fb;
            let ghost e = self@.row_entry(i as int);
            let ghost fw = old(fb).width as int;
            let ghost lx = layout.list_x as int;
            let ghost lw = layout.list_w as int;
            let ghost ly = layout.list_start_y as int;
            let ghost color = row_color(e.kind, accent, text_color);
            let ghost x0 = lx + 4;
            let ghost y0 = row_y + 3;
            assert(e == entry@);
            assert(kept_above(before_row, before_row, row_y as int));
            let selected = match self.selected_entry {
                Some(s) => s == entry_idx,
                None => false,
            };
            let row_bg: u32 = if selected {
                if is_dark { 0x40284A7A } else { 0x40D7E9FF }
            } else if (i & 1) == 1 {
                if is_dark { 0x002E2E2E } else { 0x00F6FAFF }
            } else {
                0
            };
            if row_bg != 0 {
                let ghost rf = *fb;
                fill_rect(fb, layout.list_x, row_y, layout.list_w, LINE_HEIGHT, row_bg);
                proof {
                    lemma_above_step(*old(fb), rf, *fb, layout.list_start_y as int, row_y as int);
                    lemma_above_step(before_row, rf, *fb, row_y as int, row_y as int);
                }
            }
            writer.set_color(if entry.kind == EntryKind::Dir { accent } else { text_color });
            writer.set_pos(layout.list_x + 4, row_y + 3);
            assert(ascii(entry.name@));
            if entry.kind == EntryKind::Back {
                let ghost r1 = *fb;
                let ghost ry1 = writer.y as int;
                let dots = label("..");
                writer.write_bytes(fb, dots);
                proof {
                    lemma_above_step(*old(fb), r1, *fb, layout.list_start_y as int, ry1);
                    lemma_above_step(before_row, r1, *fb, row_y as int, ry1);
                    assert(row_prefix(e.kind).len() == 0);
                    assert(row_name(e) == dots@);
                    assert forall|qx: int, qy: int|
                        0 <= qx < fb.width && 0 <= qy < fb.height && #[trigger] row_name_ink(e, fw, lx, lw, ly, i as int, qx, qy)
                            implies fb.pixel(qx, qy) == color by {
                        assert(r1.pixel(qx, qy) == r1.pixel(qx, qy));
                    }
                }
            } else if entry.kind == EntryKind::Dir {
                let ghost r2 = *fb;
                let ghost ry2 = writer.y as int;
                writer.write_bytes(fb, label("[DIR] "));
                proof {
                    lemma_above_step(*old(fb), r2, *fb, layout.list_start_y as int, ry2);
                }
                proof {
                    crate::text::lemma_after_bytes_bounds(
                        writer.width as int,
                        (layout.list_x + 4) as int,
                        (row_y + 3) as int,
                        lit("[DIR] "),
                    );
                }
                let ghost x1 = writer.x as int;
                let ghost y1 = writer.y as int;
                let ghost r3 = *fb;
                let ghost ry3 = writer.y as int;
                proof {
                    lemma_above_step(before_row, r2, r3, row_y as int, ry2);
                    if one_line(fw, x0, row_prefix(e.kind) + row_name(e)) {
                        lemma_one_line_split(fw, x0, row_prefix(e.kind), row_name(e));
                        lemma_one_line_after(fw, x0, y0, row_prefix(e.kind));
                        assert(x1 == x0 + 8 * row_prefix(e.kind).len() && y1 == y0);
                    }
                }
                writer.write_bytes(fb, entry.name.as_slice());
                proof {
                    lemma_above_step(*old(fb), r3, *fb, layout.list_start_y as int, ry3);
                    lemma_above_step(before_row, r3, *fb, row_y as int, ry3);
                    assert(row_name(e) == entry.name@);
                    assert forall|qx: int, qy: int|
                        0 <= qx < fb.width && 0 <= qy < fb.height && #[trigger] row_name_ink(e, fw, lx, lw, ly, i as int, qx, qy)
                            implies fb.pixel(qx, qy) == color by {
                        assert(r3.pixel(qx, qy) == r3.pixel(qx, qy));
                    }
                }
                proof {
                    crate::text::lemma_after_bytes_bounds(writer.width as int, x1, y1, entry.name@);
                }
                let ghost r4 = *fb;
                let ghost ry4 = writer.y as int;
                writer.write_bytes(fb, label("/"));
                proof {
                    lemma_above_step(*old(fb), r4, *fb, layout.list_start_y as int, ry4);
                    lemma_above_step(before_row, r4, *fb, row_y as int, ry4);
                    assert forall|qx: int, qy: int|
                        0 <= qx < fb.width && 0 <= qy < fb.height && #[trigger] row_name_ink(e, fw, lx, lw, ly, i as int, qx, qy)
                            implies fb.pixel(qx, qy) == color by {
                        assert(r4.pixel(qx, qy) == r4.pixel(qx, qy));
                    }
                }
            } else {
                let ghost r5 = *fb;
                let ghost ry5 = writer.y as int;
                writer.write_bytes(fb, label("      "));
                proof {
                    lemma_above_step(*old(fb), r5, *fb, layout.list_start_y as int, ry5);
                }
                proof {
                    crate::text::lemma_after_bytes_bounds(
                        writer.width as int,
                        (layout.list_x + 4) as int,
                        (row_y + 3) as int,
                        lit("      "),
                    );
                }
                let ghost r6 = *fb;
                let ghost ry6 = writer.y as int;
                let ghost x6 = writer.x as int;
                proof {
                    lemma_above_step(before_row, r5, r6, row_y as int, ry5);
                    if one_line(fw, x0, row_prefix(e.kind) + row_name(e)) {
                        lemma_one_line_split(fw, x0, row_prefix(e.kind), row_name(e));
                        lemma_one_line_after(fw, x0, y0, row_prefix(e.kind));
                        assert(x6 == x0 + 8 * row_prefix(e.kind).len() && ry6 == y0);
                    }
                }
                writer.write_bytes(fb, entry.name.as_slice());
                proof {
                    lemma_above_step(*old(fb), r6, *fb, layout.list_start_y as int, ry6);
                    lemma_above_step(before_row, r6, *fb, row_y as int, ry6);
                    assert(row_name(e) == entry.name@);
                    assert forall|qx: int, qy: int|
                        0 <= qx < fb.width && 0 <= qy < fb.height && #[trigger] row_name_ink(e, fw, lx, lw, ly, i as int, qx, qy)
                            implies fb.pixel(qx, qy) == color by {
                        assert(r6.pixel(qx, qy) == r6.pixel(qx, qy));
                    }
                }
            }
            if entry.kind != EntryKind::Dir && entry.kind != EntryKind::Back {
                let mut digits: Vec<u8> = Vec::new();
                write_u32(&mut digits, entry.size);
                proof {
                    assert(crate::calculator::pow10(10) == 10_000_000_000) by {
                        reveal_with_fuel(crate::calculator::pow10, 11);
                    }
                    crate::calculator::lemma_dec_len_pow(entry.size as nat, 10);
                    crate::textfmt::lemma_dec_digits(entry.size as nat);
                    assert(digits@ =~= dec(entry.size as nat));
                }
                let len = digits.len();
                if len > 0 {
                    writer.set_color(detail);
                    let sx = layout.list_x + layout.list_w.saturating_sub(len * 8 + 8);
                    writer.set_pos(sx, row_y + 3);
                    let ghost r7 = *fb;
                    let ghost ry7 = writer.y as int;
                    writer.write_bytes(fb, digits.as_slice());
                    proof {
                        lemma_above_step(*old(fb), r7, *fb, layout.list_start_y as int, ry7);
                        lemma_above_step(before_row, r7, *fb, row_y as int, ry7);
                        assert forall|qx: int, qy: int|
                            0 <= qx < fb.width && 0 <= qy < fb.height && #[trigger] row_name_ink(e, fw, lx, lw, ly, i as int, qx, qy)
                                implies fb.pixel(qx, qy) == color by {
                            lemma_row_ink_rows(e, fw, lx, lw, ly, i as int, qx, qy);
                            if text_ink(fw, sx as int, y0, digits@, qx, qy) {
                                lemma_ink_first_line(fw, sx as int, y0, digits@, qx, qy);
                            }
                            assert(r7.pixel(qx, qy) == r7.pixel(qx, qy));
                        }
                    }
                }
            }
            proof {
                assert forall|j: int|
                    0 <= j < i + 1 && self@.scroll_offset + j < self@.entries.len() implies #[trigger] row_shows(
                        *fb,
                        self@.row_entry(j),
                        fw,
                        lx,
                        lw,
                        ly,
                        j,
                        row_color(self@.row_entry(j).kind, accent, text_color),
                    ) by {
                    if j < i {
                        let ej = self@.row_entry(j);
                        assert(row_shows(before_row, ej, fw, lx, lw, ly, j, row_color(ej.kind, accent, text_color)));
                        assert forall|qx: int, qy: int|
                            0 <= qx < fb.width && 0 <= qy < fb.height && #[trigger] row_name_ink(ej, fw, lx, lw, ly, j, qx, qy)
                                implies fb.pixel(qx, qy) == row_color(ej.kind, accent, text_color) by {
                            lemma_row_ink_rows(ej, fw, lx, lw, ly, j, qx, qy);
                            assert(before_row.pixel(qx, qy) == row_color(ej.kind, accent, text_color));
                        }
                    }
                }
            }
            i = i + 1;
        }
    }
}

/// What a listing row shows before the entry's name: `[DIR] ` for a
/// folder, six spaces for a file, nothing for the way back.
pub open spec fn row_prefix(k: EntryKind) -> Seq<u8> {
    match k {
        EntryKind::Back => Seq::empty(),
        EntryKind::Dir => lit("[DIR] "),
        EntryKind::File => lit("      "),
    }
}

/// What a listing row shows as the entry's name: `..` for the way back.
pub open spec fn row_name(e: EntryV) -> Seq<u8> {
    if e.kind == EntryKind::Back {
        lit("..")
    } else {
        e.name
    }
}

/// The colour of the explorer's text.
pub open spec fn list_text_color(dark: bool) -> u32 {
    if dark {
        0x00F3F5F8
    } else {
        0x00121B29
    }
}

/// The colour of a listing row's text: the accent for a folder.
pub open spec fn row_color(k: EntryKind, accent: u32, text: u32) -> u32 {
    if k == EntryKind::Dir {
        accent
    } else {
        text
    }
}

/// Whether row `i` of a list at `(list_x, list_start_y)`, `list_w` wide, on
/// a screen `fw` wide, showing entry `e`, lights `(qx, qy)` with the entry's
/// name (see `row_name`), where the row's text stays on one line; the
/// right-most 88 pixels, where a file's size goes, are left out.
pub open spec fn row_name_ink(
    e: EntryV,
    fw: int,
    list_x: int,
    list_w: int,
    list_start_y: int,
    i: int,
    qx: int,
    qy: int,
) -> bool {
    let x0 = list_x + 4;
    let y0 = list_start_y + i * LINE_HEIGHT + 3;
    &&& one_line(fw, x0, row_prefix(e.kind) + row_name(e))
    &&& qx < list_x + list_w - 88
    &&& text_ink(fw, x0 + 8 * row_prefix(e.kind).len(), y0, row_name(e), qx, qy)
}

/// Every pixel that row `i` lights with the name of entry `e` (see
/// `row_name_ink`) has colour `color` in `fb`.
pub open spec fn row_shows(
    fb: Framebuffer,
    e: EntryV,
    fw: int,
    list_x: int,
    list_w: int,
    list_start_y: int,
    i: int,
    color: u32,
) -> bool {
    forall|qx: int, qy: int|
        0 <= qx < fb.width && 0 <= qy < fb.height && #[trigger] row_name_ink(
            e,
            fw,
            list_x,
            list_w,
            list_start_y,
            i,
            qx,
            qy,
        ) ==> fb.pixel(qx, qy) == color
}

/// A row lights pixels only within its text's 8-pixel strip.
proof fn lemma_row_ink_rows(e: EntryV, fw: int, list_x: int, list_w: int, list_start_y: int, i: int, qx: int, qy: int)
    requires
        row_name_ink(e, fw, list_x, list_w, list_start_y, i, qx, qy),
    ensures
        list_start_y + i * LINE_HEIGHT + 3 <= qy < list_start_y + i * LINE_HEIGHT + 11,
        qx >= list_x + 4 + 8 * row_prefix(e.kind).len(),
{
    let x0 = list_x + 4;
    let pre = row_prefix(e.kind);
    lemma_one_line_split(fw, x0, pre, row_name(e));
    lemma_one_line_ink(fw, x0 + 8 * pre.len(), list_start_y + i * LINE_HEIGHT + 3, row_name(e), qx, qy);
}

impl ExpView {
    /// The entry shown in row `i`.
    pub open spec fn row_entry(self, i: int) -> EntryV {
        self.entries[self.scroll_offset + i]
    }
}

/// Two slots hold the same item: same folder, first cluster and name.
pub open spec fn same_item(a: RecV, b: RecV) -> bool {
    a.parent_cluster == b.parent_cluster && a.cluster == b.cluster && a.name == b.name
}

/// No item is held by two slots.
pub open spec fn unique_items(rs: Seq<RecV>) -> bool {
    forall|i: int, j: int|
        0 <= i < j < rs.len() && rs[i].state != RecState::Free && rs[j].state != RecState::Free ==> !same_item(
            #[trigger] rs[i],
            #[trigger] rs[j],
        )
}

proof fn lemma_match_found(rs: Seq<RecV>, parent: u32, cluster: u32, name: Seq<u8>, k: int)
    requires
        0 <= k < rs.len(),
        rec_matches(rs[k], parent, cluster, name),
    ensures
        find_match(rs, parent, cluster, name, 0) <= k,
        hidden(rs, parent, cluster, name),
{
    lemma_find_match(rs, parent, cluster, name, 0);
}

/// An item the bin takes is hidden from its folder.
pub proof fn lemma_recycled_hides(rs: Seq<RecV>, e: EntryV)
    ensures
        recycled(rs, e).0 ==> hidden(recycled(rs, e).1, e.parent_cluster, e.cluster, e.name),
{
    lemma_find_match(rs, e.parent_cluster, e.cluster, e.name, 0);
    lemma_find_free(rs, 0);
    let m = find_match(rs, e.parent_cluster, e.cluster, e.name, 0);
    let f = find_free(rs, 0);
    let out = recycled(rs, e).1;
    if recycled(rs, e).0 {
        if m < rs.len() {
            assert(rec_matches(out[m], e.parent_cluster, e.cluster, e.name));
            lemma_match_found(out, e.parent_cluster, e.cluster, e.name, m);
        } else {
            assert(rec_matches(out[f], e.parent_cluster, e.cluster, e.name));
            lemma_match_found(out, e.parent_cluster, e.cluster, e.name, f);
        }
    }
}

/// The bin never holds one item twice.
pub proof fn lemma_recycled_unique(rs: Seq<RecV>, e: EntryV)
    requires
        unique_items(rs),
    ensures
        unique_items(recycled(rs, e).1),
{
    lemma_find_match(rs, e.parent_cluster, e.cluster, e.name, 0);
    lemma_find_free(rs, 0);
    let m = find_match(rs, e.parent_cluster, e.cluster, e.name, 0);
    let f = find_free(rs, 0);
    let out = recycled(rs, e).1;
    if m >= rs.len() && f < rs.len() {
        assert forall|i: int, j: int|
            0 <= i < j < out.len() && out[i].state != RecState::Free && out[j].state != RecState::Free implies !same_item(
            #[trigger] out[i],
            #[trigger] out[j],
        ) by {
            if i == f {
                assert(!rec_matches(rs[j], e.parent_cluster, e.cluster, e.name));
            } else if j == f {
                assert(!rec_matches(rs[i], e.parent_cluster, e.cluster, e.name));
            } else {
                assert(out[i] == rs[i] && out[j] == rs[j]);
            }
        }
    } else if m < rs.len() && rs[m].state != RecState::Purged {
        assert forall|i: int, j: int|
            0 <= i < j < out.len() && out[i].state != RecState::Free && out[j].state != RecState::Free implies !same_item(
            #[trigger] out[i],
            #[trigger] out[j],
        ) by {
            assert(rs[i].state != RecState::Free && rs[j].state != RecState::Free);
            assert(same_item(out[i], out[j]) == same_item(rs[i], rs[j]));
        }
    }
}

/// Restoring an item from the bin shows it in its folder again.
pub proof fn lemma_restore_shows(rs: Seq<RecV>, k: int)
    requires
        unique_items(rs),
        0 <= k < rs.len(),
        rs[k].state != RecState::Free,
    ensures
        !hidden(
            rs.update(k, RecV { state: RecState::Free, ..rs[k] }),
            rs[k].parent_cluster,
            rs[k].cluster,
            rs[k].name,
        ),
{
    let out = rs.update(k, RecV { state: RecState::Free, ..rs[k] });
    lemma_find_match(out, rs[k].parent_cluster, rs[k].cluster, rs[k].name, 0);
    let fm = find_match(out, rs[k].parent_cluster, rs[k].cluster, rs[k].name, 0);
    if fm < out.len() {
        assert(rec_matches(out[fm], rs[k].parent_cluster, rs[k].cluster, rs[k].name));
        assert(fm != k);
        if fm < k {
            assert(!same_item(rs[fm], rs[k]));
        } else {
            assert(!same_item(rs[k], rs[fm]));
        }
    }
}

/// A deleted item comes back when its slot is restored: moving `e` to the
/// bin hides it, and restoring the slot that took it shows it again.
pub proof fn lemma_delete_then_restore(rs: Seq<RecV>, e: EntryV)
    requires
        unique_items(rs),
        recycled(rs, e).0,
    ensures
        ({
            let out = recycled(rs, e).1;
            let k = find_match(out, e.parent_cluster, e.cluster, e.name, 0);
            &&& hidden(out, e.parent_cluster, e.cluster, e.name)
            &&& 0 <= k < out.len()
            &&& out[k].state == RecState::Bin
            &&& !hidden(out.update(k, RecV { state: RecState::Free, ..out[k] }), e.parent_cluster, e.cluster, e.name)
        }),
{
    let out = recycled(rs, e).1;
    lemma_recycled_hides(rs, e);
    lemma_recycled_unique(rs, e);
    lemma_find_match(out, e.parent_cluster, e.cluster, e.name, 0);
    lemma_find_match(rs, e.parent_cluster, e.cluster, e.name, 0);
    lemma_find_free(rs, 0);
    let k = find_match(out, e.parent_cluster, e.cluster, e.name, 0);
    let m = find_match(rs, e.parent_cluster, e.cluster, e.name, 0);
    let f = find_free(rs, 0);
    if m < rs.len() {
        lemma_match_found(out, e.parent_cluster, e.cluster, e.name, m);
        if k < m {
            assert(out[k] == rs[k]);
        }
        assert(k == m);
    } else {
        lemma_match_found(out, e.parent_cluster, e.cluster, e.name, f);
        if k < f {
            assert(out[k] == rs[k]);
        }
        assert(k == f);
    }
    lemma_restore_shows(out, k);
}

/// A purged item cannot be put in the bin again, and stays hidden.
pub proof fn lemma_purged_stays(rs: Seq<RecV>, e: EntryV, k: int)
    requires
        unique_items(rs),
        0 <= k < rs.len(),
        rs[k].state == RecState::Purged,
        rec_matches(rs[k], e.parent_cluster, e.cluster, e.name),
    ensures
        recycled(rs, e) == (false, rs),
        hidden(rs, e.parent_cluster, e.cluster, e.name),
{
    lemma_find_match(rs, e.parent_cluster, e.cluster, e.name, 0);
    lemma_match_found(rs, e.parent_cluster, e.cluster, e.name, k);
    let m = find_match(rs, e.parent_cluster, e.cluster, e.name, 0);
    if m < k {
        assert(!same_item(rs[m], rs[k]));
    }
    assert(m == k);
}


/// Purging is for good: after the purge button on a selected bin row, the
/// item that row stands for stays hidden from its folder, and putting it in
/// the bin again is refused and changes no slot.
pub proof fn lemma_purge_is_for_good(v: ExpView, e: EntryV)
    requires
        unique_items(v.recycle),
        v.selected matches Some(idx) && idx < v.entries.len() && v.entries[idx as int].recycle_idx < MAX_RECYCLE
            && v.entries[idx as int].recycle_idx < v.recycle.len() && rec_matches(
            v.recycle[v.entries[idx as int].recycle_idx as int],
            e.parent_cluster,
            e.cluster,
            e.name,
        ),
    ensures
        hidden(v.purge_pressed().recycle, e.parent_cluster, e.cluster, e.name),
        recycled(v.purge_pressed().recycle, e) == (false, v.purge_pressed().recycle),
{
    let idx = v.selected.unwrap();
    let ri = v.entries[idx as int].recycle_idx as int;
    let rs = v.purge_pressed().recycle;
    assert(rs == v.recycle.update(ri, RecV { state: RecState::Purged, ..v.recycle[ri] }));
    assert forall|i: int, j: int|
        0 <= i < j < rs.len() && rs[i].state != RecState::Free && rs[j].state != RecState::Free implies !same_item(
            #[trigger] rs[i],
            #[trigger] rs[j],
        ) by {
        assert(v.recycle[i].state != RecState::Free && v.recycle[j].state != RecState::Free);
        assert(!same_item(v.recycle[i], v.recycle[j]));
    }
    lemma_purged_stays(rs, e, ri);
}

} // verus!
