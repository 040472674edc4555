use vstd::prelude::*;

use crate::model::{feature_at, feature_flat, features_flat, features_size, feature_size, Coord, Feature, Geometry, KmlDocument};
use crate::tui::input::Action;
use crate::tui::tree::{icon_of, kind_to_icon, TreeViewItem};

verus! {

broadcast use vstd::string::group_string_axioms;

/// One row of the feature tree panel.
pub struct TreeItem {
    pub depth: usize,
    pub name: String,
    pub kind: String,
    pub expanded: bool,
    pub has_children: bool,
    pub feature_path: Vec<usize>,
}

pub open spec fn feature_name<N>(f: Feature<N>) -> Seq<char> {
    match f {
        Feature::Folder { name, .. } => name@,
        Feature::Placemark { name, .. } => name@,
    }
}

/// The kind label of a feature: "folder", or for a placemark the type of its
/// geometry ("point", "line", "polygon", "multi"), or "placemark" without one.
pub open spec fn kind_of<N>(f: Feature<N>) -> Seq<char> {
    match f {
        Feature::Folder { .. } => "folder"@,
        Feature::Placemark { geometry, .. } => match geometry {
            Some(Geometry::Point(_)) => "point"@,
            Some(Geometry::LineString(_)) => "line"@,
            Some(Geometry::Polygon(_)) => "polygon"@,
            Some(Geometry::MultiGeometry(_)) => "multi"@,
            None => "placemark"@,
        },
    }
}

/// A folder with at least one child.
pub open spec fn has_children<N>(f: Feature<N>) -> bool {
    match f {
        Feature::Folder { features, .. } => features@.len() > 0,
        Feature::Placemark { .. } => false,
    }
}

pub fn feature_kind<N>(feature: &Feature<N>) -> (k: &'static str)
    ensures
        k@ == kind_of(*feature),
{
    match feature {
        Feature::Folder { .. } => "folder",
        Feature::Placemark { geometry, .. } => match geometry {
            Some(Geometry::Point(_)) => "point",
            Some(Geometry::LineString(_)) => "line",
            Some(Geometry::Polygon(_)) => "polygon",
            Some(Geometry::MultiGeometry(_)) => "multi",
            None => "placemark",
        },
    }
}

/// The tree row for feature `f` at index path `path` and depth `depth`
/// (top-level folders start expanded).
pub open spec fn row_of<N>(item: TreeItem, depth: int, path: Seq<usize>, f: Feature<N>) -> bool {
    &&& item.depth == depth
    &&& item.name@ == feature_name(f)
    &&& item.kind@ == kind_of(f)
    &&& item.expanded == (depth == 0)
    &&& item.has_children == has_children(f)
    &&& item.feature_path@ == path
}

/// `items` are the rows of the entries of `flat` (children of a node at
/// depth `depth - 1` whose path has length `plen`), one for one.
pub open spec fn rows_of<N>(items: Seq<TreeItem>, flat: Seq<(Seq<usize>, Feature<N>)>, depth: int, plen: int) -> bool {
    &&& items.len() == flat.len()
    &&& forall|k: int| 0 <= k < items.len() ==> row_of(
        #[trigger] items[k],
        depth + flat[k].0.len() - plen - 1,
        flat[k].0,
        flat[k].1,
    )
}

/// The descendants of `f` (at `path`) in pre-order.
pub open spec fn descendants_flat<N>(f: Feature<N>, path: Seq<usize>) -> Seq<(Seq<usize>, Feature<N>)> {
    match f {
        Feature::Folder { features, .. } => features_flat(features@, path),
        Feature::Placemark { .. } => Seq::empty(),
    }
}

fn row_for<N>(feature: &Feature<N>, depth: usize, path: Vec<usize>) -> (item: TreeItem)
    ensures
        row_of(item, depth as int, path@, *feature),
{
    let (name, has_children) = match feature {
        Feature::Folder { name, features } => (name.clone(), features.len() > 0),
        Feature::Placemark { name, .. } => (name.clone(), false),
    };
    TreeItem {
        depth,
        name,
        kind: feature_kind(feature).to_string(),
        expanded: depth == 0,
        has_children,
        feature_path: path,
    }
}

/// The rows of the feature tree in pre-order: each feature with its depth and
/// index path; top-level folders start expanded.
pub fn build_tree_items<N>(features: &[Feature<N>], depth: usize, parent_path: &[usize]) -> (items: Vec<TreeItem>)
    requires
        depth + features_size(features@) <= usize::MAX,
    ensures
        rows_of(items@, features_flat(features@, parent_path@), depth as int, parent_path@.len() as int),
    decreases features@,
{
    let ghost plen = parent_path@.len() as int;
    let mut items: Vec<TreeItem> = Vec::new();
    let mut i: usize = 0;
    while i < features.len()
        invariant
            i <= features@.len(),
            depth + features_size(features@) <= usize::MAX,
            plen == parent_path@.len(),
            rows_of(items@, features_flat(features@.take(i as int), parent_path@), depth as int, plen),
        decreases features@.len() - i,
    {
        let ghost before = items@;
        let ghost flat_before = features_flat(features@.take(i as int), parent_path@);
        proof {
            crate::model::lemma_size_step(features@, i as int);
            assert(features@.take(i + 1).drop_last() =~= features@.take(i as int));
        }
        let feature = &features[i];
        let mut path = vstd::slice::slice_to_vec(parent_path);
        path.push(i);
        let ghost p = path@;
        assert(p =~= parent_path@.push(i));
        let row_path = path.clone();
        assert(row_path@ =~= p);
        items.push(row_for(feature, depth, row_path));
        let ghost child_flat = descendants_flat(*feature, p);
        let ghost child_rows: Seq<TreeItem>;
        assert(feature_flat(*feature, p) == seq![(p, *feature)] + child_flat);
        if let Feature::Folder { features: children, .. } = feature {
            let mut child_items = build_tree_items(children.as_slice(), depth + 1, path.as_slice());
            proof {
                child_rows = child_items@;
            }
            items.append(&mut child_items);
        } else {
            proof {
                child_rows = Seq::empty();
            }
        }
        proof {
            let total = flat_before + feature_flat(*feature, p);
            assert(features_flat(features@.take(i + 1), parent_path@) == total);
            assert(rows_of(child_rows, child_flat, depth + 1, plen + 1));
            assert(items@ =~= before + seq![items@[before.len() as int]] + child_rows);
            assert forall|k: int| 0 <= k < items@.len() implies row_of(
                #[trigger] items@[k],
                depth + total[k].0.len() - plen - 1,
                total[k].0,
                total[k].1,
            ) by {
                if k < before.len() {
                    assert(items@[k] == before[k]);
                    assert(total[k] == flat_before[k]);
                } else if k == before.len() {
                    assert(total[k] == (p, *feature));
                } else {
                    let c = k - before.len() - 1;
                    assert(items@[k] == child_rows[c]);
                    assert(total[k] == child_flat[c]);
                }
            }
        }
        i = i + 1;
    }
    assert(features@.take(features@.len() as int) =~= features@);
    items
}

/// The feature tree has one row per feature, and each row leads, by its
/// index path, to the feature it shows: the feature there has the row's
/// name and kind.
pub proof fn lemma_tree_rows_resolve<N>(items: Seq<TreeItem>, doc: KmlDocument<N>)
    requires
        rows_of(items, features_flat(doc.features@, Seq::empty()), 0, 0),
    ensures
        items.len() == features_size(doc.features@),
        forall|k: int|
            0 <= k < items.len() ==> {
                let f = feature_at(doc.features@, (#[trigger] items[k]).feature_path@);
                &&& f is Some
                &&& feature_name(f->0) == items[k].name@
                &&& kind_of(f->0) == items[k].kind@
            },
{
    crate::model::lemma_flatten_paths_resolve(doc);
    let flat = features_flat(doc.features@, Seq::empty());
    assert forall|k: int| 0 <= k < items.len() implies {
        let f = feature_at(doc.features@, (#[trigger] items[k]).feature_path@);
        &&& f is Some
        &&& feature_name(f->0) == items[k].name@
        &&& kind_of(f->0) == items[k].kind@
    } by {
        assert(row_of(items[k], flat[k].0.len() - 1, flat[k].0, flat[k].1));
        assert(feature_at(doc.features@, flat[k].0) == Some(flat[k].1));
    }
}

// ---------------------------------------------------------------------------
// Which rows are shown: rows under a collapsed folder are hidden.
// ---------------------------------------------------------------------------

/// A folder row whose children are not shown.
pub open spec fn collapsed(item: TreeItem) -> bool {
    item.has_children && !item.expanded
}

/// Row `i` lies under the collapsed row `j`: `j` is above it and every row
/// from `j + 1` down to `i` is deeper than `j`.
pub open spec fn hidden_under(items: Seq<TreeItem>, j: int, i: int) -> bool {
    &&& 0 <= j < i < items.len()
    &&& collapsed(items[j])
    &&& forall|k: int| j < k <= i ==> (#[trigger] items[k]).depth > items[j].depth
}

/// Row `i` exists and no collapsed row above it hides it.
pub open spec fn is_visible(items: Seq<TreeItem>, i: int) -> bool {
    &&& 0 <= i < items.len()
    &&& forall|j: int| !(#[trigger] hidden_under(items, j, i))
}

/// The visible rows among the first `n` rows, in order.
pub open spec fn visible_prefix(items: Seq<TreeItem>, n: int) -> Seq<usize>
    decreases n,
{
    if n <= 0 {
        Seq::empty()
    } else if is_visible(items, n - 1) {
        visible_prefix(items, n - 1).push((n - 1) as usize)
    } else {
        visible_prefix(items, n - 1)
    }
}

/// The indices of all visible rows, in increasing order.
pub open spec fn visible_rows(items: Seq<TreeItem>) -> Seq<usize> {
    visible_prefix(items, items.len() as int)
}

/// `visible_prefix` is increasing and holds exactly the visible rows below `n`.
pub proof fn lemma_visible_prefix(items: Seq<TreeItem>, n: int)
    requires
        0 <= n <= items.len(),
        items.len() <= usize::MAX + 1,
    ensures
        visible_prefix(items, n).len() <= n,
        forall|a: int, b: int| 0 <= a < b < visible_prefix(items, n).len()
            ==> visible_prefix(items, n)[a] < visible_prefix(items, n)[b],
        forall|k: int| 0 <= k < visible_prefix(items, n).len()
            ==> is_visible(items, #[trigger] visible_prefix(items, n)[k] as int)
                && visible_prefix(items, n)[k] < n,
        forall|x: int| 0 <= x < n && is_visible(items, x) ==> exists|k: int|
            0 <= k < visible_prefix(items, n).len() && #[trigger] visible_prefix(items, n)[k] == x,
    decreases n,
{
    if n > 0 {
        lemma_visible_prefix(items, n - 1);
        let p = visible_prefix(items, n - 1);
        let v = visible_prefix(items, n);
        assert forall|x: int| 0 <= x < n && is_visible(items, x) implies exists|k: int|
            0 <= k < v.len() && #[trigger] v[k] == x by {
            if x < n - 1 {
                let k = choose|k: int| 0 <= k < p.len() && #[trigger] p[k] == x;
                assert(v[k] == x);
            } else {
                assert(v[p.len() as int] == x);
            }
        }
        assert forall|k: int| 0 <= k < v.len() implies is_visible(items, #[trigger] v[k] as int) && v[k] < n by {
            if k < p.len() {
                assert(v[k] == p[k]);
            }
        }
    }
}

/// The indices of the rows that are shown, in order.
pub fn visible_indices(items: &[TreeItem]) -> (visible: Vec<usize>)
    ensures
        visible@ == visible_rows(items@),
{
    let ghost s = items@;
    let mut visible: Vec<usize> = Vec::new();
    let mut i: usize = 0;
    while i < items.len()
        invariant
            s == items@,
            i <= s.len(),
            visible@ == visible_prefix(s, i as int),
            i < s.len() ==> is_visible(s, i as int),
        decreases s.len() - i,
    {
        let ghost vi = i as int;
        visible.push(i);
        assert(visible@ == visible_prefix(s, vi + 1));
        let item = &items[i];
        if item.has_children && !item.expanded {
            let depth = item.depth;
            i += 1;
            while i < items.len() && items[i].depth > depth
                invariant
                    s == items@,
                    0 <= vi < i <= s.len(),
                    depth == s[vi].depth,
                    collapsed(s[vi]),
                    forall|k: int| vi < k < i ==> (#[trigger] s[k]).depth > depth,
                    visible@ == visible_prefix(s, i as int),
                decreases s.len() - i,
            {
                assert(hidden_under(s, vi, i as int));
                assert(!is_visible(s, i as int));
                i += 1;
            }
            proof {
                if i < s.len() {
                    assert forall|j: int| !(#[trigger] hidden_under(s, j, i as int)) by {
                        if hidden_under(s, j, i as int) {
                            if j < vi {
                                assert(hidden_under(s, j, vi));
                            } else if j > vi {
                                assert(s[i as int].depth > s[j].depth);
                            }
                        }
                    }
                }
            }
        } else {
            i += 1;
            proof {
                if i < s.len() {
                    assert forall|j: int| !(#[trigger] hidden_under(s, j, i as int)) by {
                        if hidden_under(s, j, i as int) {
                            if j < vi {
                                assert(hidden_under(s, j, vi));
                            }
                        }
                    }
                }
            }
        }
    }
    visible
}

// ---------------------------------------------------------------------------
// Navigation: what each action does to the tree panel, and what it asks of
// the map view.
// ---------------------------------------------------------------------------

/// What the map view has to do after an action (the viewport itself is kept
/// by the caller).
#[derive(Debug, Clone, Copy, PartialEq, Eq, Structural)]
pub enum MapRequest {
    Nothing,
    ZoomIn,
    ZoomOut,
    PanLeft,
    PanRight,
    PanUp,
    PanDown,
    /// Center the map on the first coordinate of the selected placemark.
    CenterOnSelection,
}

/// The tree panel and the flags that actions change.
pub struct AppState {
    pub tree_items: Vec<TreeItem>,
    /// Index into `tree_items` of the selected row.
    pub selected: usize,
    /// Number of visible rows scrolled past at the top of the panel.
    pub tree_scroll: usize,
    pub should_quit: bool,
    pub show_tree: bool,
    /// Rows that fit in the tree panel (updated at each render).
    pub tree_visible_rows: usize,
}

/// The first position of `x` in `v`.
pub open spec fn index_in(v: Seq<usize>, x: usize) -> Option<int> {
    if exists|k: int| 0 <= k < v.len() && v[k] == x {
        Some(choose|k: int| 0 <= k < v.len() && v[k] == x && forall|j: int| 0 <= j < k ==> v[j] != x)
    } else {
        None
    }
}

/// Selection and scroll after moving down over the visible rows `v` with
/// `rows` rows in the panel (at least one): the next visible row is
/// selected, and the panel scrolls so that it stays in view; a selection
/// that is not visible jumps to the first visible row.
pub open spec fn moved_down(v: Seq<usize>, selected: usize, scroll: usize, rows: usize) -> (usize, usize) {
    let r: int = if rows >= 1 { rows as int } else { 1 };
    match index_in(v, selected) {
        Some(p) => if p + 1 < v.len() {
            let np = p + 1;
            (v[np], if np >= scroll + r { (np - (r - 1)) as usize } else { scroll })
        } else {
            (selected, scroll)
        },
        None => if v.len() > 0 { (v[0], 0usize) } else { (selected, scroll) },
    }
}

/// Selection and scroll after moving up: the previous visible row is
/// selected and scrolled into view.
pub open spec fn moved_up(v: Seq<usize>, selected: usize, scroll: usize) -> (usize, usize) {
    match index_in(v, selected) {
        Some(p) => if p > 0 {
            let np = p - 1;
            (v[np], if np < scroll { np as usize } else { scroll })
        } else {
            (selected, scroll)
        },
        None => if v.len() > 0 { (v[0], 0usize) } else { (selected, scroll) },
    }
}

/// The rows with row `i` expanded or collapsed the other way.
pub open spec fn toggled(items: Seq<TreeItem>, i: int) -> Seq<TreeItem> {
    items.update(i, TreeItem { expanded: !items[i].expanded, ..items[i] })
}

fn position(v: &Vec<usize>, x: usize) -> (r: Option<usize>)
    ensures
        match r {
            Some(k) => index_in(v@, x) == Some(k as int) && k < v@.len(),
            None => index_in(v@, x).is_none(),
        },
{
    let mut k: usize = 0;
    while k < v.len()
        invariant
            k <= v@.len(),
            forall|j: int| 0 <= j < k ==> v@[j] != x,
        decreases v@.len() - k,
    {
        if v[k] == x {
            assert(0 <= k < v@.len() && v@[k as int] == x);
            let ghost c = choose|c: int| 0 <= c < v@.len() && v@[c] == x && forall|j: int| 0 <= j < c ==> v@[j] != x;
            assert(c == k) by {
                if c < k {
                    assert(v@[c] != x);
                } else if c > k {
                    assert(v@[k as int] != x);
                }
            }
            return Some(k);
        }
        k = k + 1;
    }
    None
}

impl AppState {
    pub fn new(tree_items: Vec<TreeItem>) -> (st: AppState)
        ensures
            st.tree_items@ == tree_items@,
            st.selected == 0,
            st.tree_scroll == 0,
            !st.should_quit,
            st.show_tree,
            st.tree_visible_rows == 20,
    {
        AppState {
            tree_items,
            selected: 0,
            tree_scroll: 0,
            should_quit: false,
            show_tree: true,
            tree_visible_rows: 20,
        }
    }

    /// The indices of the rows that are shown, in order.
    pub fn visible_indices(&self) -> (v: Vec<usize>)
        ensures
            v@ == visible_rows(self.tree_items@),
    {
        visible_indices(self.tree_items.as_slice())
    }

    fn move_down(&mut self)
        ensures
            (final(self).selected, final(self).tree_scroll) == moved_down(
                visible_rows(old(self).tree_items@),
                old(self).selected,
                old(self).tree_scroll,
                old(self).tree_visible_rows,
            ),
            final(self).tree_items@ == old(self).tree_items@,
            final(self).should_quit == old(self).should_quit,
            final(self).show_tree == old(self).show_tree,
            final(self).tree_visible_rows == old(self).tree_visible_rows,
    {
        let visible = self.visible_indices();
        match position(&visible, self.selected) {
            Some(pos) => {
                if pos < visible.len() - 1 {
                    self.selected = visible[pos + 1];
                    let new_pos = pos + 1;
                    let rows = if self.tree_visible_rows >= 1 { self.tree_visible_rows } else { 1 };
                    if new_pos >= self.tree_scroll && new_pos - self.tree_scroll >= rows {
                        self.tree_scroll = new_pos - (rows - 1);
                    }
                }
            },
            None => {
                if visible.len() > 0 {
                    self.selected = visible[0];
                    self.tree_scroll = 0;
                }
            },
        }
    }

    fn move_up(&mut self)
        ensures
            (final(self).selected, final(self).tree_scroll) == moved_up(
                visible_rows(old(self).tree_items@),
                old(self).selected,
                old(self).tree_scroll,
            ),
            final(self).tree_items@ == old(self).tree_items@,
            final(self).should_quit == old(self).should_quit,
            final(self).show_tree == old(self).show_tree,
            final(self).tree_visible_rows == old(self).tree_visible_rows,
    {
        let visible = self.visible_indices();
        match position(&visible, self.selected) {
            Some(pos) => {
                if pos > 0 {
                    self.selected = visible[pos - 1];
                    let new_pos = pos - 1;
                    if new_pos < self.tree_scroll {
                        self.tree_scroll = new_pos;
                    }
                }
            },
            None => {
                if visible.len() > 0 {
                    self.selected = visible[0];
                    self.tree_scroll = 0;
                }
            },
        }
    }

    /// Applies a user action to the panel state and says what the map has
    /// to do.
    pub fn handle_action(&mut self, action: Action) -> (req: MapRequest)
        ensures
            final(self).tree_visible_rows == old(self).tree_visible_rows,
            match action {
                Action::MoveDown => (final(self).selected, final(self).tree_scroll) == moved_down(
                    visible_rows(old(self).tree_items@),
                    old(self).selected,
                    old(self).tree_scroll,
                    old(self).tree_visible_rows,
                ),
                Action::MoveUp => (final(self).selected, final(self).tree_scroll) == moved_up(
                    visible_rows(old(self).tree_items@),
                    old(self).selected,
                    old(self).tree_scroll,
                ),
                _ => final(self).selected == old(self).selected
                    && final(self).tree_scroll == old(self).tree_scroll,
            },
            final(self).should_quit == (old(self).should_quit || action == Action::Quit),
            final(self).show_tree == (old(self).show_tree != (action == Action::ToggleTree)),
            final(self).tree_items@ == if action == Action::ToggleExpand
                && old(self).selected < old(self).tree_items@.len()
                && old(self).tree_items@[old(self).selected as int].has_children {
                toggled(old(self).tree_items@, old(self).selected as int)
            } else {
                old(self).tree_items@
            },
            req == match action {
                Action::ZoomIn => MapRequest::ZoomIn,
                Action::ZoomOut => MapRequest::ZoomOut,
                Action::PanLeft => MapRequest::PanLeft,
                Action::PanRight => MapRequest::PanRight,
                Action::PanUp => MapRequest::PanUp,
                Action::PanDown => MapRequest::PanDown,
                Action::ToggleExpand => if old(self).selected < old(self).tree_items@.len()
                    && !old(self).tree_items@[old(self).selected as int].has_children {
                    MapRequest::CenterOnSelection
                } else {
                    MapRequest::Nothing
                },
                _ => MapRequest::Nothing,
            },
    {
        match action {
            Action::Quit => {
                self.should_quit = true;
                MapRequest::Nothing
            },
            Action::ToggleTree => {
                self.show_tree = !self.show_tree;
                MapRequest::Nothing
            },
            Action::MoveDown => {
                self.move_down();
                MapRequest::Nothing
            },
            Action::MoveUp => {
                self.move_up();
                MapRequest::Nothing
            },
            Action::ToggleExpand => {
                let sel = self.selected;
                if sel < self.tree_items.len() {
                    if self.tree_items[sel].has_children {
                        let expanded = self.tree_items[sel].expanded;
                        self.tree_items[sel].expanded = !expanded;
                        assert(self.tree_items@ =~= toggled(old(self).tree_items@, sel as int));
                        MapRequest::Nothing
                    } else {
                        MapRequest::CenterOnSelection
                    }
                } else {
                    MapRequest::Nothing
                }
            },
            Action::ZoomIn => MapRequest::ZoomIn,
            Action::ZoomOut => MapRequest::ZoomOut,
            Action::PanLeft => MapRequest::PanLeft,
            Action::PanRight => MapRequest::PanRight,
            Action::PanUp => MapRequest::PanUp,
            Action::PanDown => MapRequest::PanDown,
            Action::NoOp => MapRequest::Nothing,
        }
    }
}

/// `v` is the panel row that shows `item`: same depth, name and state, with
/// the icon of its kind.
pub open spec fn shows_row(v: TreeViewItem, item: TreeItem) -> bool {
    &&& v.depth == item.depth
    &&& v.name@ == item.name@
    &&& v.icon@ == icon_of(item.kind@)
    &&& v.expanded == item.expanded
    &&& v.has_children == item.has_children
}

impl AppState {
    /// The rows that the tree panel shows (the visible rows, in order) and
    /// the position of the selected row among them (0 when it is hidden).
    pub fn panel_rows(&self) -> (r: (Vec<TreeViewItem>, usize))
        ensures
            r.0@.len() == visible_rows(self.tree_items@).len(),
            forall|k: int|
                0 <= k < r.0@.len() ==> shows_row(
                    #[trigger] r.0@[k],
                    self.tree_items@[visible_rows(self.tree_items@)[k] as int],
                ),
            r.1 == match index_in(visible_rows(self.tree_items@), self.selected) {
                Some(p) => p as usize,
                None => 0usize,
            },
    {
        let visible = self.visible_indices();
        let total = self.tree_items.len();
        proof {
            lemma_visible_prefix(self.tree_items@, total as int);
        }
        let mut rows: Vec<TreeViewItem> = Vec::new();
        let mut k: usize = 0;
        while k < visible.len()
            invariant
                visible@ == visible_rows(self.tree_items@),
                forall|j: int| 0 <= j < visible@.len() ==> #[trigger] visible@[j] < self.tree_items@.len(),
                k <= visible@.len(),
                rows@.len() == k,
                forall|j: int| 0 <= j < k ==> shows_row(#[trigger] rows@[j], self.tree_items@[visible@[j] as int]),
            decreases visible@.len() - k,
        {
            let item = &self.tree_items[visible[k]];
            rows.push(TreeViewItem {
                depth: item.depth,
                name: item.name.clone(),
                icon: kind_to_icon(item.kind.as_str()),
                expanded: item.expanded,
                has_children: item.has_children,
            });
            k = k + 1;
        }
        let selected_pos = match position(&visible, self.selected) {
            Some(p) => p,
            None => 0,
        };
        (rows, selected_pos)
    }
}

// ---------------------------------------------------------------------------
// Laws of navigation.
// ---------------------------------------------------------------------------

proof fn lemma_index_in_increasing(v: Seq<usize>, k: int)
    requires
        0 <= k < v.len(),
        forall|a: int, b: int| 0 <= a < b < v.len() ==> v[a] < v[b],
    ensures
        index_in(v, v[k]) == Some(k),
{
    let x = v[k];
    assert(0 <= k < v.len() && v[k] == x);
    let c = choose|c: int| 0 <= c < v.len() && v[c] == x && forall|j: int| 0 <= j < c ==> v[j] != x;
    if c < k {
        assert(v[c] < v[k]);
    } else if c > k {
        assert(v[k] != x);
    }
}

/// Law: expanding or collapsing the same row twice restores the rows.
pub proof fn lemma_toggle_twice(items: Seq<TreeItem>, i: int)
    requires
        0 <= i < items.len(),
    ensures
        toggled(toggled(items, i), i) == items,
{
    assert(toggled(toggled(items, i), i) =~= items);
}

/// Law: when some row is visible, moving down or up always leaves a visible
/// row selected.
pub proof fn lemma_moves_select_visible(items: Seq<TreeItem>, selected: usize, scroll: usize, rows: usize)
    requires
        items.len() <= usize::MAX,
        visible_rows(items).len() > 0,
    ensures
        is_visible(items, moved_down(visible_rows(items), selected, scroll, rows).0 as int),
        is_visible(items, moved_up(visible_rows(items), selected, scroll).0 as int),
{
    let v = visible_rows(items);
    lemma_visible_prefix(items, items.len() as int);
    match index_in(v, selected) {
        Some(p) => {
            assert(v[p] == selected);
            assert(is_visible(items, v[p] as int));
            if p + 1 < v.len() {
                assert(is_visible(items, v[p + 1] as int));
            }
            if p > 0 {
                assert(is_visible(items, v[p - 1] as int));
            }
        },
        None => {
            assert(is_visible(items, v[0] as int));
        },
    }
}

/// Law: moving down from a visible row that is not the last one, then up,
/// selects that row again.
pub proof fn lemma_down_then_up(items: Seq<TreeItem>, selected: usize, scroll: usize, rows: usize, scroll2: usize)
    requires
        items.len() <= usize::MAX,
        is_visible(items, selected as int),
        ({
            let v = visible_rows(items);
            exists|k: int| 0 <= k < v.len() - 1 && v[k] == selected
        }),
    ensures
        moved_up(
            visible_rows(items),
            moved_down(visible_rows(items), selected, scroll, rows).0,
            scroll2,
        ).0 == selected,
{
    let v = visible_rows(items);
    lemma_visible_prefix(items, items.len() as int);
    let k = choose|k: int| 0 <= k < v.len() - 1 && v[k] == selected;
    lemma_index_in_increasing(v, k);
    lemma_index_in_increasing(v, k + 1);
}

/// Whether the selected row, if it is visible, lies in the panel window of
/// `rows` rows (at least one) that starts at position `scroll` of `v`.
pub open spec fn in_window(v: Seq<usize>, selected: usize, scroll: usize, rows: usize) -> bool {
    let r: int = if rows >= 1 { rows as int } else { 1 };
    match index_in(v, selected) {
        Some(p) => scroll <= p < scroll + r,
        None => true,
    }
}

/// The position in `v` that moving down selects: the next one, the same
/// one at the end, the first one when the selection is not visible.
pub open spec fn down_position(v: Seq<usize>, selected: usize) -> int {
    match index_in(v, selected) {
        Some(p) => if p + 1 < v.len() { p + 1 } else { p },
        None => 0,
    }
}

/// The position in `v` that moving up selects: the previous one, the same
/// one at the start, the first one when the selection is not visible.
pub open spec fn up_position(v: Seq<usize>, selected: usize) -> int {
    match index_in(v, selected) {
        Some(p) => if p > 0 { p - 1 } else { p },
        None => 0,
    }
}

proof fn lemma_index_in_found(v: Seq<usize>, x: usize)
    requires
        index_in(v, x) is Some,
        forall|a: int, b: int| 0 <= a < b < v.len() ==> v[a] < v[b],
    ensures
        0 <= index_in(v, x)->0 < v.len(),
        v[index_in(v, x)->0] == x,
{
    let k = choose|k: int| 0 <= k < v.len() && v[k] == x;
    lemma_index_in_increasing(v, k);
}

/// Law: moving down or up over a non-empty list of visible rows, from a
/// selection that is hidden or lies in the panel window, selects the next
/// (or previous) visible row, or keeps it at either end, or the first row
/// for a hidden selection; and the new selection lies in the new window.
pub proof fn lemma_moves_keep_selection_in_window(items: Seq<TreeItem>, selected: usize, scroll: usize, rows: usize)
    requires
        items.len() <= usize::MAX,
        visible_rows(items).len() > 0,
        in_window(visible_rows(items), selected, scroll, rows),
    ensures
        ({
            let v = visible_rows(items);
            let (sel, sc) = moved_down(v, selected, scroll, rows);
            index_in(v, sel) == Some(down_position(v, selected)) && in_window(v, sel, sc, rows)
        }),
        ({
            let v = visible_rows(items);
            let (sel, sc) = moved_up(v, selected, scroll);
            index_in(v, sel) == Some(up_position(v, selected)) && in_window(v, sel, sc, rows)
        }),
{
    let v = visible_rows(items);
    lemma_visible_prefix(items, items.len() as int);
    if index_in(v, selected) is Some {
        lemma_index_in_found(v, selected);
    }
    lemma_index_in_increasing(v, down_position(v, selected));
    lemma_index_in_increasing(v, up_position(v, selected));
}

// ---------------------------------------------------------------------------
// Centering on a selection.
// ---------------------------------------------------------------------------

/// The first coordinate of a geometry: the point, the first vertex of a line
/// or of the outer ring, or that of the first member of a collection.
pub open spec fn first_coord_of<N>(g: Geometry<N>) -> Option<Coord<N>>
    decreases g,
{
    match g {
        Geometry::Point(c) => Some(c),
        Geometry::LineString(cs) => if cs@.len() > 0 { Some(cs@[0]) } else { None },
        Geometry::Polygon(rings) => if rings@.len() > 0 && rings@[0]@.len() > 0 {
            Some(rings@[0]@[0])
        } else {
            None
        },
        Geometry::MultiGeometry(gs) => if gs@.len() > 0 { first_coord_of(gs@[0]) } else { None },
    }
}

pub fn first_coord<N>(geom: &Geometry<N>) -> (r: Option<&Coord<N>>)
    ensures
        match r {
            Some(c) => first_coord_of(*geom) == Some(*c),
            None => first_coord_of(*geom).is_none(),
        },
    decreases geom,
{
    match geom {
        Geometry::Point(c) => Some(c),
        Geometry::LineString(cs) => if cs.len() > 0 { Some(&cs[0]) } else { None },
        Geometry::Polygon(rings) => {
            if rings.len() > 0 && rings[0].len() > 0 {
                Some(&rings[0][0])
            } else {
                None
            }
        },
        Geometry::MultiGeometry(gs) => if gs.len() > 0 { first_coord(&gs[0]) } else { None },
    }
}

/// Every part of `g` has coordinates: a line is not empty, a polygon has
/// rings and none is empty, a collection has members and each has no empty
/// part.
pub open spec fn no_empty_parts<N>(g: Geometry<N>) -> bool
    decreases g,
{
    match g {
        Geometry::Point(_) => true,
        Geometry::LineString(cs) => cs@.len() > 0,
        Geometry::Polygon(rings) => rings@.len() > 0 && forall|i: int|
            0 <= i < rings@.len() ==> (#[trigger] rings@[i])@.len() > 0,
        Geometry::MultiGeometry(gs) => gs@.len() > 0 && forall|i: int|
            0 <= i < gs@.len() ==> no_empty_parts(#[trigger] gs@[i]),
    }
}

proof fn lemma_geometries_coords_first<N>(gs: Seq<Geometry<N>>)
    requires
        gs.len() > 0,
    ensures
        crate::model::geometries_coords(gs) == crate::model::geometry_coords(gs[0])
            + crate::model::geometries_coords(gs.drop_first()),
    decreases gs.len(),
{
    if gs.len() == 1 {
        assert(gs.drop_last() =~= Seq::<Geometry<N>>::empty());
        assert(gs.drop_first() =~= Seq::<Geometry<N>>::empty());
        assert(crate::model::geometries_coords(gs) =~= crate::model::geometry_coords(gs[0]));
    } else {
        lemma_geometries_coords_first(gs.drop_last());
        assert(gs.drop_last().drop_first() =~= gs.drop_first().drop_last());
        assert(gs.drop_first().last() == gs.last());
        assert(gs.drop_last()[0] == gs[0]);
        assert(crate::model::geometries_coords(gs) =~= crate::model::geometry_coords(gs[0])
            + crate::model::geometries_coords(gs.drop_first()));
    }
}

proof fn lemma_rings_coords_first<N>(rings: Seq<Vec<Coord<N>>>)
    requires
        rings.len() > 0,
    ensures
        crate::model::rings_coords(rings) == rings[0]@ + crate::model::rings_coords(rings.drop_first()),
    decreases rings.len(),
{
    if rings.len() == 1 {
        assert(rings.drop_last() =~= Seq::<Vec<Coord<N>>>::empty());
        assert(rings.drop_first() =~= Seq::<Vec<Coord<N>>>::empty());
        assert(crate::model::rings_coords(rings) =~= rings[0]@);
    } else {
        lemma_rings_coords_first(rings.drop_last());
        assert(rings.drop_last().drop_first() =~= rings.drop_first().drop_last());
        assert(rings.drop_first().last() == rings.last());
        assert(rings.drop_last()[0] == rings[0]);
        assert(crate::model::rings_coords(rings) =~= rings[0]@ + crate::model::rings_coords(rings.drop_first()));
    }
}

/// Law: the coordinate the map centres on is the first coordinate of the
/// geometry in document order: whenever there is one to centre on, it is
/// the geometry's first coordinate; and a geometry none of whose parts is
/// empty always has one.
pub proof fn lemma_first_coord_is_first_in_order<N>(g: Geometry<N>)
    ensures
        first_coord_of(g) matches Some(c) ==> crate::model::geometry_coords(g).len() > 0 && c
            == crate::model::geometry_coords(g)[0],
        no_empty_parts(g) ==> crate::model::geometry_coords(g).len() > 0 && first_coord_of(g) == Some(
            crate::model::geometry_coords(g)[0],
        ),
    decreases g,
{
    match g {
        Geometry::Point(_) => {},
        Geometry::LineString(_) => {},
        Geometry::Polygon(rings) => {
            if rings@.len() > 0 {
                lemma_rings_coords_first(rings@);
            }
        },
        Geometry::MultiGeometry(gs) => {
            if gs@.len() > 0 {
                lemma_geometries_coords_first(gs@);
                lemma_first_coord_is_first_in_order(gs@[0]);
            }
        },
    }
}

/// The coordinate to center on for row `sel`: the first coordinate of the
/// placemark that the row's path leads to.
pub open spec fn selection_coord<N>(items: Seq<TreeItem>, fs: Seq<Feature<N>>, sel: int) -> Option<Coord<N>> {
    if 0 <= sel < items.len() {
        match feature_at(fs, items[sel].feature_path@) {
            Some(Feature::Placemark { geometry: Some(g), .. }) => first_coord_of(g),
            _ => None,
        }
    } else {
        None
    }
}

impl AppState {
    /// The first coordinate of the selected placemark, if any.
    pub fn first_coord_of_selected<'a, N>(&self, doc: &'a KmlDocument<N>) -> (r: Option<&'a Coord<N>>)
        ensures
            match r {
                Some(c) => selection_coord(self.tree_items@, doc.features@, self.selected as int) == Some(*c),
                None => selection_coord(self.tree_items@, doc.features@, self.selected as int).is_none(),
            },
    {
        if self.selected >= self.tree_items.len() {
            return None;
        }
        let path = &self.tree_items[self.selected].feature_path;
        match doc.get_feature(path.as_slice()) {
            Some(Feature::Placemark { geometry: Some(geom), .. }) => first_coord(geom),
            _ => None,
        }
    }
}

// ---------------------------------------------------------------------------
// Layout of the floating tree panel.
// ---------------------------------------------------------------------------

/// Where the tree panel goes and how many rows it shows.
#[derive(Debug, Clone, Copy, PartialEq, Eq, Structural)]
pub struct PanelLayout {
    pub x: u16,
    pub y: u16,
    pub width: u16,
    pub height: u16,
    /// Content rows inside the borders (at least one).
    pub visible_rows: usize,
}

pub open spec fn clamp_spec(v: int, lo: int, hi: int) -> int {
    if v < lo {
        lo
    } else if v > hi {
        hi
    } else {
        v
    }
}

/// The panel for a terminal of `width` x `height` cells and `item_count`
/// shown rows, or `None` when the terminal is below 40x10 (the map then shows
/// a "too small" message). The panel is a third of the width within 25..=50
/// columns, and as tall as its rows plus two borders within 4..=height-4
/// (the row count is taken modulo 2^16, as a 16-bit cell count).
pub open spec fn panel_layout(width: u16, height: u16, item_count: usize) -> Option<PanelLayout> {
    if width < 40 || height < 10 {
        None
    } else {
        let pw = clamp_spec((width / 3) as int, 25, 50);
        let ph = clamp_spec(((item_count % 65536) + 2) % 65536, 4, height - 4);
        let rows = if ph - 2 >= 1 { ph - 2 } else { 1 };
        Some(PanelLayout { x: 1, y: 1, width: pw as u16, height: ph as u16, visible_rows: rows as usize })
    }
}

pub fn tree_panel_layout(width: u16, height: u16, item_count: usize) -> (layout: Option<PanelLayout>)
    ensures
        layout == panel_layout(width, height, item_count),
{
    if width < 40 || height < 10 {
        return None;
    }
    let third = width / 3;
    let panel_width: u16 = if third < 25 { 25 } else if third > 50 { 50 } else { third };
    let count16: u16 = (item_count % 65536) as u16;
    let wanted: u16 = count16.wrapping_add(2);
    let max_height: u16 = height - 4;
    let panel_height: u16 = if wanted < 4 { 4 } else if wanted > max_height { max_height } else { wanted };
    let rows: u16 = if panel_height - 2 >= 1 { panel_height - 2 } else { 1 };
    Some(PanelLayout {
        x: 1,
        y: 1,
        width: panel_width,
        height: panel_height,
        visible_rows: rows as usize,
    })
}

} // verus!
