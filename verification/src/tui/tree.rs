use vstd::prelude::*;

use crate::text::str_eq;
use vstd::string::{StrSliceExecFns, StringExecFns};

verus! {

broadcast use vstd::string::group_string_axioms;

pub struct TreeViewItem {
    pub depth: usize,
    pub name: String,
    pub icon: &'static str,
    pub expanded: bool,
    pub has_children: bool,
}

pub struct TreeView<'a> {
    pub items: &'a [TreeViewItem],
    pub selected: usize,
    pub scroll_offset: usize,
}

impl<'a> TreeView<'a> {
    pub fn new(items: &'a [TreeViewItem], selected: usize, scroll_offset: usize) -> (view: Self)
        ensures
            view.items@ == items@,
            view.selected == selected,
            view.scroll_offset == scroll_offset,
    {
        Self { items, selected, scroll_offset }
    }
}

/// The icon of a tree row kind.
pub open spec fn icon_of(kind: Seq<char>) -> Seq<char> {
    if kind == "folder"@ {
        "📁"@
    } else if kind == "point"@ {
        "●"@
    } else if kind == "line"@ {
        "─"@
    } else if kind == "polygon"@ {
        "◻"@
    } else if kind == "multi"@ {
        "◈"@
    } else {
        "·"@
    }
}

pub fn kind_to_icon(kind: &str) -> (icon: &'static str)
    ensures
        icon@ == icon_of(kind@),
{
    if str_eq(kind, "folder") {
        "📁"
    } else if str_eq(kind, "point") {
        "●"
    } else if str_eq(kind, "line") {
        "─"
    } else if str_eq(kind, "polygon") {
        "◻"
    } else if str_eq(kind, "multi") {
        "◈"
    } else {
        "·"
    }
}

/// Two spaces per level of depth.
pub open spec fn indent(depth: nat) -> Seq<char>
    decreases depth,
{
    if depth == 0 {
        Seq::empty()
    } else {
        indent((depth - 1) as nat) + "  "@
    }
}

/// The expand marker: a triangle for a folder with children, blanks otherwise.
pub open spec fn marker_of(item: TreeViewItem) -> Seq<char> {
    if item.has_children {
        if item.expanded {
            "▼ "@
        } else {
            "▶ "@
        }
    } else {
        "  "@
    }
}

/// The full text of a row: indent, marker, icon, a space and the name.
pub open spec fn row_line(item: TreeViewItem) -> Seq<char> {
    indent(item.depth as nat) + marker_of(item) + item.icon@ + " "@ + item.name@
}

/// The row's text cut to at most `width` characters.
pub open spec fn row_text(item: TreeViewItem, width: nat) -> Seq<char> {
    let line = row_line(item);
    if width < line.len() {
        line.take(width as int)
    } else {
        line
    }
}

/// The text shown for `item` in a panel `width` characters wide.
pub fn render_row(item: &TreeViewItem, width: usize) -> (text: String)
    ensures
        text@ == row_text(*item, width as nat),
{
    let mut line = String::new();
    let mut d: usize = 0;
    while d < item.depth
        invariant
            d <= item.depth,
            line@ == indent(d as nat),
        decreases item.depth - d,
    {
        line.append("  ");
        d = d + 1;
    }
    let marker: &str = if item.has_children {
        if item.expanded {
            "▼ "
        } else {
            "▶ "
        }
    } else {
        "  "
    };
    line.append(marker);
    line.append(item.icon);
    line.append(" ");
    line.append(item.name.as_str());
    assert(line@ == row_line(*item));
    let n = line.as_str().unicode_len();
    if width < n {
        let cut = line.as_str().substring_char(0, width);
        cut.to_string()
    } else {
        line
    }
}

impl<'a> TreeView<'a> {
    /// The rows shown in a panel of `height` rows and `width` columns: the
    /// items from the scroll offset on, each with its text and whether it is
    /// the selected item.
    pub fn lines(&self, width: usize, height: usize) -> (lines: Vec<(String, bool)>)
        ensures
            lines@.len() == if self.scroll_offset >= self.items@.len() {
                0
            } else if height < self.items@.len() - self.scroll_offset {
                height as int
            } else {
                self.items@.len() - self.scroll_offset
            },
            forall|r: int| 0 <= r < lines@.len() ==> {
                &&& (#[trigger] lines@[r]).0@ == row_text(self.items@[self.scroll_offset + r], width as nat)
                &&& lines@[r].1 == (self.scroll_offset + r == self.selected)
            },
    {
        let mut lines: Vec<(String, bool)> = Vec::new();
        if self.scroll_offset >= self.items.len() {
            return lines;
        }
        let avail = self.items.len() - self.scroll_offset;
        let count = if height < avail { height } else { avail };
        let mut r: usize = 0;
        while r < count
            invariant
                r <= count,
                count <= self.items@.len() - self.scroll_offset,
                self.items@.len() <= usize::MAX,
                self.scroll_offset < self.items@.len(),
                lines@.len() == r,
                forall|q: int| 0 <= q < r ==> {
                    &&& (#[trigger] lines@[q]).0@ == row_text(self.items@[self.scroll_offset + q], width as nat)
                    &&& lines@[q].1 == (self.scroll_offset + q == self.selected)
                },
            decreases count - r,
        {
            let idx = self.scroll_offset + r;
            let text = render_row(&self.items[idx], width);
            lines.push((text, idx == self.selected));
            r = r + 1;
        }
        lines
    }
}

} // verus!
