//! A tab of the file manager: the entries of its directory, the filtered
//! view of them that the center panel shows, the selection, the marked
//! entries and the navigation history.
use vstd::prelude::*;
use crate::paths::{components_of, path_key, same_strings};
use crate::text::string_views;

verus! {

/// One entry of the directory that a tab shows.
#[derive(Debug)]
pub struct DirEntry {
    pub name: String,
    pub path: String,
    pub is_dir: bool,
}

impl DirEntry {
    /// The components of the entry's path, by which paths are compared.
    pub open spec fn key(self) -> Seq<Seq<char>> {
        path_key(self.path@)
    }
}

/// A rename that has been carried out, kept for the action history.
#[derive(Debug)]
pub struct RenameOperation {
    pub old_path: String,
    pub new_path: String,
}

/// An action of the action history.
#[derive(Debug)]
pub enum ActionType {
    Rename { operations: Vec<RenameOperation> },
}

/// A tab.
#[derive(Debug)]
pub struct Tab {
    /// The directory shown.
    pub current_path: String,
    /// Its entries, in display order.
    pub entries: Vec<DirEntry>,
    /// The index in `entries` of the selected entry.
    pub selected_index: usize,
    /// The paths of the marked entries.
    pub marked_entries: Vec<String>,
    /// Where a range selection started, while one is active.
    pub range_selection_start: Option<usize>,
    /// The indices in `entries` that the current filter shows, in order.
    pub filtered: Vec<usize>,
    /// The directories visited in this tab.
    pub history: Vec<String>,
    /// The position of the current directory in `history`.
    pub history_index: usize,
    /// What was done in this tab, for undo.
    pub action_history: Vec<ActionType>,
}

/// The set of paths that a list of strings holds.
pub open spec fn path_set(v: Seq<String>) -> Set<Seq<Seq<char>>> {
    Set::new(|p: Seq<Seq<char>>| exists|i: int| 0 <= i < v.len() && path_key(v[i]@) == p)
}

/// No path occurs twice.
pub open spec fn distinct_paths_of(v: Seq<String>) -> bool {
    forall|i: int, j: int| 0 <= i < j < v.len() ==> path_key(v[i]@) != path_key(v[j]@)
}

/// `p` is the first position of `x` in `s`.
pub open spec fn is_first_pos(s: Seq<usize>, x: usize, p: int) -> bool {
    &&& 0 <= p < s.len()
    &&& s[p] == x
    &&& forall|j: int| 0 <= j < p ==> s[j] != x
}

/// The first position of `x` in `s`.
pub open spec fn first_pos(s: Seq<usize>, x: usize) -> Option<int> {
    if exists|p: int| is_first_pos(s, x, p) {
        Some(choose|p: int| is_first_pos(s, x, p))
    } else {
        None
    }
}

/// There is one first position.
pub proof fn lemma_first_pos_unique(s: Seq<usize>, x: usize, p: int)
    requires
        is_first_pos(s, x, p),
    ensures
        first_pos(s, x) == Some(p),
{
    let q = choose|q: int| is_first_pos(s, x, q);
    assert(is_first_pos(s, x, q));
    if q < p {
        assert(s[q] != x);
    } else if p < q {
        assert(s[p] != x);
    }
}

/// Where moving the selection by `delta` places it in the filtered list
/// `s`: `delta` positions on from the selection's position when that stays
/// inside the list; the first filtered entry when the selection is not in
/// the list; nowhere when the list is empty or the move would leave it.
pub open spec fn move_target(s: Seq<usize>, selected: usize, delta: int) -> Option<usize> {
    if s.len() == 0 {
        None
    } else {
        match first_pos(s, selected) {
            Some(p) => if 0 <= p + delta < s.len() {
                Some(s[p + delta])
            } else {
                None
            },
            None => Some(s[0]),
        }
    }
}

/// The move of the selection by `delta` stays within `isize`.
pub open spec fn move_fits(s: Seq<usize>, selected: usize, delta: int) -> bool {
    match first_pos(s, selected) {
        Some(p) => p + delta <= isize::MAX,
        None => true,
    }
}

/// The number of entries that one page moves the selection by: one less
/// than the visible range (at least one), or ten while it is unknown.
pub open spec fn page_size(scroll_range: Option<(usize, usize)>) -> int {
    match scroll_range {
        Some(r) => if r.1 - r.0 >= 1 {
            r.1 - r.0 - 1
        } else {
            0
        },
        None => 10,
    }
}

/// Where a page move in `direction` places the selection: a page on
/// (down for a positive direction, up otherwise), stopping at the ends of
/// the filtered list; the first filtered entry when the selection is not
/// in the list; nowhere when the list is empty or the selection would stay.
pub open spec fn page_target(
    s: Seq<usize>,
    selected: usize,
    direction: int,
    page: int,
) -> Option<usize> {
    if s.len() == 0 {
        None
    } else {
        match first_pos(s, selected) {
            Some(p) => {
                let np = if direction > 0 {
                    if p + page < s.len() - 1 {
                        p + page
                    } else {
                        s.len() - 1
                    }
                } else {
                    if p - page > 0 {
                        p - page
                    } else {
                        0
                    }
                };
                if np != p {
                    Some(s[np])
                } else {
                    None
                }
            },
            None => Some(s[0]),
        }
    }
}

/// The page move stays within `isize`: the visible range is a range of at
/// most `isize::MAX` entries, and the arithmetic on positions fits.
pub open spec fn page_fits(
    s: Seq<usize>,
    selected: usize,
    direction: int,
    scroll_range: Option<(usize, usize)>,
) -> bool {
    s.len() > 0 ==> {
        &&& (scroll_range matches Some(r) ==> r.0 <= r.1 && r.1 - r.0 <= isize::MAX)
        &&& match first_pos(s, selected) {
            Some(p) => p + page_size(scroll_range) <= isize::MAX,
            None => isize::MIN <= direction * page_size(scroll_range) <= isize::MAX,
        }
    }
}

/// The indices `0..n`.
pub fn all_indices(n: usize) -> (v: Vec<usize>)
    ensures
        v@ == Seq::new(n as nat, |k: int| k as usize),
        v@.no_duplicates(),
{
    let mut v: Vec<usize> = Vec::new();
    let mut i: usize = 0;
    while i < n
        invariant
            i <= n,
            v@ == Seq::new(i as nat, |k: int| k as usize),
        decreases n - i,
    {
        v.push(i);
        i = i + 1;
        assert(v@ =~= Seq::new(i as nat, |k: int| k as usize));
    }
    v
}

impl Tab {
    /// The filtered indices point at entries and none occurs twice; no
    /// path is marked twice.
    pub open spec fn wf(&self) -> bool {
        &&& forall|i: int| 0 <= i < self.filtered@.len() ==> #[trigger] self.filtered@[i] < self.entries@.len()
        &&& self.filtered@.no_duplicates()
        &&& self.filtered@.len() <= isize::MAX
        &&& self.entries@.len() <= isize::MAX
        &&& distinct_paths_of(self.marked_entries@)
        &&& (self.history_index < self.history@.len() || (self.history@.len() == 0
            && self.history_index == 0))
    }

    /// The tab with only its selection changed.
    pub open spec fn with_selection(self, index: usize) -> Tab {
        Tab { selected_index: index, ..self }
    }

    /// The path of the selected entry, if the selection points at one.
    pub open spec fn selected_path(self) -> Option<Seq<char>> {
        if self.selected_index < self.entries@.len() {
            Some(self.entries@[self.selected_index as int].path@)
        } else {
            None
        }
    }

    /// A tab showing `path` with the given entries, all of them shown,
    /// the first selected, nothing marked, and `path` as its only history.
    pub fn new(path: String, entries: Vec<DirEntry>) -> (t: Tab)
        requires
            entries@.len() <= isize::MAX,
        ensures
            t.wf(),
            t.current_path@ == path@,
            t.entries@ == entries@,
            t.filtered@ == Seq::new(entries@.len(), |i: int| i as usize),
            t.selected_index == 0,
            t.marked_entries@.len() == 0,
            t.range_selection_start is None,
            t.history@.len() == 1,
            t.history@[0]@ == path@,
            t.history_index == 0,
            t.action_history@.len() == 0,
    {
        let filtered = all_indices(entries.len());
        let mut history: Vec<String> = Vec::new();
        history.push(path.clone());
        Tab {
            current_path: path,
            entries,
            selected_index: 0,
            marked_entries: Vec::new(),
            range_selection_start: None,
            filtered,
            history,
            history_index: 0,
            action_history: Vec::new(),
        }
    }

    /// The selected entry.
    pub fn selected_entry(&self) -> (r: Option<&DirEntry>)
        ensures
            r is Some == (self.selected_index < self.entries@.len()),
            r is Some ==> *r->0 == self.entries@[self.selected_index as int],
    {
        if self.selected_index < self.entries.len() {
            Some(&self.entries[self.selected_index])
        } else {
            None
        }
    }

    /// The position of the selection in the filtered list.
    fn filtered_position(&self) -> (r: Option<usize>)
        ensures
            match r {
                Some(p) => is_first_pos(self.filtered@, self.selected_index, p as int),
                None => first_pos(self.filtered@, self.selected_index) is None,
            },
    {
        let mut i: usize = 0;
        while i < self.filtered.len()
            invariant
                i <= self.filtered@.len(),
                forall|j: int| 0 <= j < i ==> self.filtered@[j] != self.selected_index,
            decreases self.filtered@.len() - i,
        {
            if self.filtered[i] == self.selected_index {
                return Some(i);
            }
            i = i + 1;
        }
        assert(!exists|p: int| is_first_pos(self.filtered@, self.selected_index, p));
        None
    }

    /// Moves the selection `delta` entries through the filtered list;
    /// tells whether the selection was moved.
    pub fn move_selection(&mut self, delta: isize) -> (moved: bool)
        requires
            old(self).wf(),
            move_fits(old(self).filtered@, old(self).selected_index, delta as int),
        ensures
            match move_target(old(self).filtered@, old(self).selected_index, delta as int) {
                Some(t) => moved && *final(self) == old(self).with_selection(t),
                None => !moved && *final(self) == *old(self),
            },
    {
        if self.filtered.len() == 0 {
            return false;
        }
        match self.filtered_position() {
            Some(p) => {
                proof {
                    lemma_first_pos_unique(self.filtered@, self.selected_index, p as int);
                }
                let np = p as isize + delta;
                if np >= 0 && np < self.filtered.len() as isize {
                    let target = self.filtered[np as usize];
                    self.selected_index = target;
                    true
                } else {
                    false
                }
            },
            None => {
                let target = self.filtered[0];
                self.selected_index = target;
                true
            },
        }
    }

    /// Moves the selection one page through the filtered list, down for a
    /// positive direction and up otherwise; `scroll_range` is the range of
    /// entries that the panel shows, when known. Tells whether the selection
    /// was moved.
    pub fn move_selection_by_page(
        &mut self,
        direction: isize,
        scroll_range: Option<(usize, usize)>,
    ) -> (moved: bool)
        requires
            old(self).wf(),
            page_fits(
                old(self).filtered@,
                old(self).selected_index,
                direction as int,
                scroll_range,
            ),
        ensures
            match page_target(
                old(self).filtered@,
                old(self).selected_index,
                direction as int,
                page_size(scroll_range),
            ) {
                Some(t) => moved && *final(self) == old(self).with_selection(t),
                None => !moved && *final(self) == *old(self),
            },
    {
        let n = self.filtered.len();
        if n == 0 {
            return false;
        }
        let page: isize = match scroll_range {
            Some(r) => {
                let span = r.1 - r.0;
                let span = if span > 1 {
                    span
                } else {
                    1
                };
                span as isize - 1
            },
            None => 10,
        };
        assert(page == page_size(scroll_range));
        match self.filtered_position() {
            Some(p) => {
                proof {
                    lemma_first_pos_unique(self.filtered@, self.selected_index, p as int);
                }
                let cur = p as isize;
                let np = if direction > 0 {
                    let down = cur + page;
                    if down < n as isize - 1 {
                        down
                    } else {
                        n as isize - 1
                    }
                } else {
                    let up = cur - page;
                    if up > 0 {
                        up
                    } else {
                        0
                    }
                };
                if np != cur {
                    let movement = np - cur;
                    self.move_selection(movement)
                } else {
                    false
                }
            },
            None => {
                let movement = direction * page;
                self.move_selection(movement)
            },
        }
    }
}

} // verus!

verus! {

/// Moving the selection back by the same amount undoes a move that took
/// place from a selection shown in the filtered list.
pub proof fn lemma_move_selection_undo(s: Seq<usize>, selected: usize, delta: int)
    requires
        s.no_duplicates(),
        first_pos(s, selected) is Some,
        move_target(s, selected, delta) is Some,
    ensures
        move_target(s, move_target(s, selected, delta)->0, -delta) == Some(selected),
{
    let p = first_pos(s, selected)->0;
    assert(is_first_pos(s, selected, p));
    let q = p + delta;
    let t = s[q];
    assert forall|j: int| 0 <= j < q implies s[j] != t by {
        assert(s[j] != s[q]);
    }
    lemma_first_pos_unique(s, t, q);
}

/// A copy of a list of strings.
pub fn copy_strings(v: &Vec<String>) -> (r: Vec<String>)
    ensures
        r@ == v@,
{
    let mut r: Vec<String> = Vec::new();
    let mut i: usize = 0;
    while i < v.len()
        invariant
            i <= v@.len(),
            r@ == v@.take(i as int),
        decreases v@.len() - i,
    {
        r.push(v[i].clone());
        i = i + 1;
        assert(r@ =~= v@.take(i as int));
    }
    assert(v@.take(i as int) =~= v@);
    r
}

/// Whether `v` holds the path `p` (compared by components).
pub fn contains_path(v: &Vec<String>, p: &String) -> (b: bool)
    ensures
        b == path_set(v@).contains(path_key(p@)),
{
    let wanted = components_of(p.as_str());
    let mut i: usize = 0;
    while i < v.len()
        invariant
            i <= v@.len(),
            string_views(wanted@) == path_key(p@),
            forall|j: int| 0 <= j < i ==> path_key(v@[j]@) != path_key(p@),
        decreases v@.len() - i,
    {
        let k = components_of(v[i].as_str());
        if same_strings(&k, &wanted) {
            return true;
        }
        i = i + 1;
    }
    false
}

/// Adds the path `p` to `v` unless it is there.
pub fn insert_path(v: &mut Vec<String>, p: String)
    requires
        distinct_paths_of(old(v)@),
    ensures
        distinct_paths_of(final(v)@),
        path_set(final(v)@) == path_set(old(v)@).insert(path_key(p@)),
{
    if contains_path(v, &p) {
        assert(path_set(v@).insert(path_key(p@)) =~= path_set(v@));
    } else {
        let ghost q = path_key(p@);
        v.push(p);
        proof {
            assert forall|i: int, j: int| 0 <= i < j < v@.len() implies path_key(v@[i]@) != path_key(v@[j]@) by {
                if j < v@.len() - 1 {
                    assert(v@[i] == old(v)@[i]);
                    assert(v@[j] == old(v)@[j]);
                } else {
                    assert(v@[i] == old(v)@[i]);
                }
            }
            assert forall|x: Seq<Seq<char>>| path_set(v@).contains(x) <==> path_set(old(v)@).insert(q).contains(x) by {
                if path_set(old(v)@).contains(x) && x != q {
                    let i = choose|i: int| 0 <= i < old(v)@.len() && path_key(old(v)@[i]@) == x;
                    assert(v@[i] == old(v)@[i]);
                }
                if path_set(v@).contains(x) && x != q {
                    let i = choose|i: int| 0 <= i < v@.len() && path_key(v@[i]@) == x;
                    assert(v@[i] == old(v)@[i]);
                }
                if x == q {
                    assert(path_key(v@[v@.len() - 1]@) == q);
                }
            }
            assert(path_set(v@) =~= path_set(old(v)@).insert(q));
        }
    }
}

/// An empty list holds no path, and a list holding no path is empty.
pub proof fn lemma_path_set_empty(v: Seq<String>)
    ensures
        (path_set(v) == Set::<Seq<Seq<char>>>::empty()) <==> v.len() == 0,
{
    if v.len() > 0 {
        assert(path_set(v).contains(path_key(v[0]@)));
    } else {
        assert(path_set(v) =~= Set::<Seq<Seq<char>>>::empty());
    }
}

/// The paths of the entries between the start of the range selection and
/// the selection, both included; none while no range selection is active.
pub open spec fn range_paths(t: Tab) -> Set<Seq<Seq<char>>> {
    match t.range_selection_start {
        None => Set::empty(),
        Some(start) => {
            let lo = if start < t.selected_index {
                start
            } else {
                t.selected_index
            };
            let hi = if start < t.selected_index {
                t.selected_index
            } else {
                start
            };
            Set::new(
                |p: Seq<Seq<char>>|
                    exists|i: int|
                        lo <= i <= hi && 0 <= i < t.entries@.len() && t.entries@[i].key() == p,
            )
        },
    }
}

/// The paths of the entries at `lo..hi`.
pub open spec fn paths_between(entries: Seq<DirEntry>, lo: int, hi: int) -> Set<Seq<Seq<char>>> {
    Set::new(|p: Seq<Seq<char>>| exists|k: int| lo <= k < hi && entries[k].key() == p)
}

/// One more entry adds its path.
proof fn lemma_paths_between_step(entries: Seq<DirEntry>, lo: int, i: int)
    requires
        lo <= i,
    ensures
        paths_between(entries, lo, i + 1) == paths_between(entries, lo, i).insert(entries[i].key()),
{
    assert forall|p: Seq<Seq<char>>| #[trigger] paths_between(entries, lo, i + 1).contains(p) implies paths_between(entries, lo, i).insert(entries[i].key()).contains(p) by {
        let k = choose|k: int| lo <= k < i + 1 && entries[k].key() == p;
        if k < i {
            assert(paths_between(entries, lo, i).contains(p));
        }
    }
    assert(paths_between(entries, lo, i + 1) =~= paths_between(entries, lo, i).insert(entries[i].key()));
}

/// The marked paths once an active range selection has been applied.
pub open spec fn marked_after_range(t: Tab) -> Set<Seq<Seq<char>>> {
    path_set(t.marked_entries@).union(range_paths(t))
}

/// The paths of the entries that the filter shows.
pub open spec fn filtered_paths(t: Tab) -> Set<Seq<Seq<char>>> {
    Set::new(
        |p: Seq<Seq<char>>|
            exists|i: int|
                0 <= i < t.filtered@.len() && t.entries@[t.filtered@[i] as int].key() == p,
    )
}

impl Tab {
    /// The tab with other marked entries and no range selection.
    pub open spec fn with_marks(self, marked: Vec<String>) -> Tab {
        Tab { marked_entries: marked, range_selection_start: None, ..self }
    }

    /// Ends an active range selection, marking the entries it covers.
    pub fn apply_range_selection(&mut self)
        requires
            old(self).wf(),
        ensures
            final(self).wf(),
            *final(self) == old(self).with_marks(final(self).marked_entries),
            path_set(final(self).marked_entries@) == marked_after_range(*old(self)),
    {
        match self.range_selection_start {
            None => {
                assert(marked_after_range(*old(self)) =~= path_set(old(self).marked_entries@));
            },
            Some(start) => {
                let sel = self.selected_index;
                let lo = if start < sel {
                    start
                } else {
                    sel
                };
                let hi = if start < sel {
                    sel
                } else {
                    start
                };
                let n = self.entries.len();
                let end = if hi < n {
                    hi + 1
                } else {
                    n
                };
                let mut marked = copy_strings(&self.marked_entries);
                let mut i = lo;
                proof {
                    assert(paths_between(self.entries@, lo as int, lo as int) =~= Set::<
                        Seq<Seq<char>>,
                    >::empty());
                    assert(path_set(marked@).union(Set::<Seq<Seq<char>>>::empty()) =~= path_set(marked@));
                }
                while i < end
                    invariant
                        lo <= i,
                        i <= end || i == lo,
                        *self == *old(self),
                        end <= n == self.entries@.len(),
                        distinct_paths_of(marked@),
                        path_set(marked@) == path_set(self.marked_entries@).union(
                            paths_between(self.entries@, lo as int, i as int),
                        ),
                    decreases end - i,
                {
                    insert_path(&mut marked, self.entries[i].path.clone());
                    proof {
                        lemma_paths_between_step(self.entries@, lo as int, i as int);
                        assert(path_set(marked@) =~= path_set(self.marked_entries@).union(
                            paths_between(self.entries@, lo as int, i + 1),
                        ));
                    }
                    i = i + 1;
                }
                proof {
                    let covered = if lo < end { end as int } else { lo as int };
                    assert(i == covered);
                    assert(range_paths(*old(self)) =~= paths_between(self.entries@, lo as int, covered)) by {
                        assert forall|p: Seq<Seq<char>>| #[trigger] range_paths(*old(self)).contains(p) implies paths_between(self.entries@, lo as int, covered).contains(p) by {
                            let k = choose|k: int|
                                lo <= k <= hi && 0 <= k < n && self.entries@[k].key() == p;
                            assert(lo <= k < covered && self.entries@[k].key() == p);
                        }
                        assert forall|p: Seq<Seq<char>>| #[trigger] paths_between(self.entries@, lo as int, covered).contains(p) implies range_paths(*old(self)).contains(p) by {
                            let k = choose|k: int| lo <= k < covered && self.entries@[k].key() == p;
                            assert(lo <= k <= hi && 0 <= k < n && self.entries@[k].key() == p);
                        }
                    }
                }
                self.marked_entries = marked;
                self.range_selection_start = None;
            },
        }
    }
}

} // verus!

verus! {

/// A list of exactly one path.
pub open spec fn is_single(v: Seq<String>, p: Seq<char>) -> bool {
    v.len() == 1 && v[0]@ == p
}

impl Tab {
    /// The paths that a cut or a copy takes, once an active range selection
    /// has been applied: the selected entry alone when it is not marked while
    /// others are (the marks are then cleared), else the marked entries, else
    /// the selected entry, else none.
    pub fn prepare_clipboard_operation(&mut self) -> (r: Vec<String>)
        requires
            old(self).wf(),
        ensures
            final(self).wf(),
            *final(self) == old(self).with_marks(final(self).marked_entries),
            ({
                let m = marked_after_range(*old(self));
                let sel = old(self).selected_path();
                if sel is Some && !m.contains(path_key(sel->0)) && m != Set::<Seq<Seq<char>>>::empty() {
                    is_single(r@, sel->0) && final(self).marked_entries@.len() == 0
                } else {
                    &&& path_set(final(self).marked_entries@) == m
                    &&& if m == Set::<Seq<Seq<char>>>::empty() {
                        match sel {
                            Some(p) => is_single(r@, p),
                            None => r@.len() == 0,
                        }
                    } else {
                        path_set(r@) == m && distinct_paths_of(r@)
                    }
                }
            }),
    {
        self.apply_range_selection();
        proof {
            lemma_path_set_empty(self.marked_entries@);
        }
        let sel = self.selected_entry();
        let should_clear = match sel {
            Some(e) => !contains_path(&self.marked_entries, &e.path) && self.marked_entries.len() > 0,
            None => false,
        };
        if should_clear {
            let p = self.entries[self.selected_index].path.clone();
            self.marked_entries.clear();
            let mut r: Vec<String> = Vec::new();
            r.push(p);
            r
        } else if self.marked_entries.len() == 0 {
            let mut r: Vec<String> = Vec::new();
            if self.selected_index < self.entries.len() {
                r.push(self.entries[self.selected_index].path.clone());
            }
            r
        } else {
            copy_strings(&self.marked_entries)
        }
    }

    /// Marks every entry that the filter shows, and nothing else.
    pub fn select_all_entries(&mut self)
        requires
            old(self).wf(),
        ensures
            final(self).wf(),
            *final(self) == (Tab { marked_entries: final(self).marked_entries, ..*old(self) }),
            path_set(final(self).marked_entries@) == filtered_paths(*old(self)),
    {
        let mut marked: Vec<String> = Vec::new();
        let mut i: usize = 0;
        while i < self.filtered.len()
            invariant
                i <= self.filtered@.len(),
                self.wf(),
                distinct_paths_of(marked@),
                path_set(marked@) == Set::new(
                    |p: Seq<Seq<char>>|
                        exists|k: int|
                            0 <= k < i && self.entries@[self.filtered@[k] as int].key() == p,
                ),
            decreases self.filtered@.len() - i,
        {
            let idx = self.filtered[i];
            insert_path(&mut marked, self.entries[idx].path.clone());
            proof {
                let before = Set::new(
                    |p: Seq<Seq<char>>|
                        exists|k: int|
                            0 <= k < i && self.entries@[self.filtered@[k] as int].key() == p,
                );
                let after = Set::new(
                    |p: Seq<Seq<char>>|
                        exists|k: int|
                            0 <= k < i + 1 && self.entries@[self.filtered@[k] as int].key() == p,
                );
                assert forall|p: Seq<Seq<char>>| #[trigger] after.contains(p) implies before.insert(
                    self.entries@[idx as int].key(),
                ).contains(p) by {
                    let k = choose|k: int|
                        0 <= k < i + 1 && self.entries@[self.filtered@[k] as int].key() == p;
                    if k < i {
                        assert(before.contains(p));
                    }
                }
                assert(after =~= before.insert(self.entries@[idx as int].key()));
            }
            i = i + 1;
        }
        assert(filtered_paths(*self) =~= path_set(marked@));
        self.marked_entries = marked;
    }

    /// What a delete would remove, once an active range selection has been
    /// applied: the marked entries, else the selected entry, else nothing.
    pub fn delete_targets(&mut self) -> (r: Option<Vec<String>>)
        requires
            old(self).wf(),
        ensures
            final(self).wf(),
            *final(self) == old(self).with_marks(final(self).marked_entries),
            path_set(final(self).marked_entries@) == marked_after_range(*old(self)),
            ({
                let m = marked_after_range(*old(self));
                if m != Set::<Seq<Seq<char>>>::empty() {
                    r is Some && path_set(r->0@) == m && distinct_paths_of(r->0@)
                } else {
                    match old(self).selected_path() {
                        Some(p) => r is Some && is_single(r->0@, p),
                        None => r is None,
                    }
                }
            }),
    {
        self.apply_range_selection();
        proof {
            lemma_path_set_empty(self.marked_entries@);
        }
        if self.marked_entries.len() > 0 {
            Some(copy_strings(&self.marked_entries))
        } else if self.selected_index < self.entries.len() {
            let mut r: Vec<String> = Vec::new();
            r.push(self.entries[self.selected_index].path.clone());
            Some(r)
        } else {
            None
        }
    }
}

} // verus!

verus! {

/// The tab after stepping back in its history.
pub open spec fn after_back(t: Tab) -> Tab {
    if t.history_index > 0 {
        Tab { history_index: (t.history_index - 1) as usize, ..t }
    } else {
        t
    }
}

/// The directory that stepping back in the history leads to.
pub open spec fn back_target(t: Tab) -> Option<Seq<char>> {
    if t.history_index > 0 {
        Some(t.history@[t.history_index - 1]@)
    } else {
        None
    }
}

/// The tab after stepping forward in its history.
pub open spec fn after_forward(t: Tab) -> Tab {
    if t.history_index + 1 < t.history.len() {
        Tab { history_index: (t.history_index + 1) as usize, ..t }
    } else {
        t
    }
}

/// The directory that stepping forward in the history leads to.
pub open spec fn forward_target(t: Tab) -> Option<Seq<char>> {
    if t.history_index + 1 < t.history.len() {
        Some(t.history@[t.history_index + 1]@)
    } else {
        None
    }
}

/// The history after visiting `path`: what lay ahead of the current
/// position is dropped and `path` becomes the current position.
pub open spec fn history_after_visit(t: Tab, path: Seq<char>) -> Seq<Seq<char>> {
    let keep = if t.history@.len() == 0 {
        0
    } else {
        t.history_index + 1
    };
    t.history@.take(keep).map_values(|s: String| s@).push(path)
}

/// Stepping forward after a step back returns to the directory one was
/// in, with the history as it was.
pub proof fn lemma_back_then_forward(t: Tab)
    requires
        t.wf(),
        back_target(t) is Some,
    ensures
        forward_target(after_back(t)) == Some(t.history@[t.history_index as int]@),
        after_forward(after_back(t)) == t,
{
    let b = after_back(t);
    assert(b.history_index == t.history_index - 1);
    assert(b.history@ == t.history@);
    assert(after_forward(b).history_index == t.history_index);
}

/// Stepping back after a step forward returns to the directory one was
/// in, with the history as it was.
pub proof fn lemma_forward_then_back(t: Tab)
    requires
        t.wf(),
        forward_target(t) is Some,
    ensures
        back_target(after_forward(t)) == Some(t.history@[t.history_index as int]@),
        after_back(after_forward(t)) == t,
{
    let f = after_forward(t);
    assert(f.history_index == t.history_index + 1);
    assert(f.history@ == t.history@);
    assert(after_back(f).history_index == t.history_index);
}

impl Tab {
    /// Steps back in the history, giving the directory to go to.
    pub fn history_back(&mut self) -> (r: Option<String>)
        requires
            old(self).wf(),
        ensures
            final(self).wf(),
            *final(self) == after_back(*old(self)),
            r is Some == back_target(*old(self)) is Some,
            r is Some ==> r->0@ == back_target(*old(self))->0,
    {
        if self.history_index > 0 {
            self.history_index = self.history_index - 1;
            Some(self.history[self.history_index].clone())
        } else {
            None
        }
    }

    /// Steps forward in the history, giving the directory to go to.
    pub fn history_forward(&mut self) -> (r: Option<String>)
        requires
            old(self).wf(),
        ensures
            final(self).wf(),
            *final(self) == after_forward(*old(self)),
            r is Some == forward_target(*old(self)) is Some,
            r is Some ==> r->0@ == forward_target(*old(self))->0,
    {
        if self.history_index + 1 < self.history.len() {
            self.history_index = self.history_index + 1;
            Some(self.history[self.history_index].clone())
        } else {
            None
        }
    }

    /// Records a visit of `path` in the history.
    pub fn add_to_history(&mut self, path: String)
        requires
            old(self).wf(),
        ensures
            final(self).wf(),
            final(self).history@.map_values(|s: String| s@) == history_after_visit(*old(self), path@),
            final(self).history_index == final(self).history@.len() - 1,
            *final(self) == (Tab {
                history: final(self).history,
                history_index: final(self).history_index,
                ..*old(self)
            }),
    {
        if self.history.len() > 0 {
            self.history.truncate(self.history_index + 1);
        }
        let ghost p = path@;
        self.history.push(path);
        self.history_index = self.history.len() - 1;
        proof {
            let keep = if old(self).history@.len() == 0 {
                0
            } else {
                old(self).history_index + 1
            };
            assert(self.history@.map_values(|s: String| s@) =~= old(self).history@.take(
                keep as int,
            ).map_values(|s: String| s@).push(p));
        }
    }

    /// Selects the first entry whose path is the same path as `path`, if
    /// there is one.
    pub fn select_child(&mut self, path: &String)
        requires
            old(self).wf(),
        ensures
            final(self).wf(),
            (exists|i: int| 0 <= i < old(self).entries@.len() && old(self).entries@[i].key() == path_key(path@))
                ==> {
                &&& *final(self) == old(self).with_selection(final(self).selected_index)
                &&& final(self).selected_index < old(self).entries@.len()
                &&& old(self).entries@[final(self).selected_index as int].key() == path_key(path@)
            },
            !(exists|i: int| 0 <= i < old(self).entries@.len() && old(self).entries@[i].key() == path_key(path@))
                ==> *final(self) == *old(self),
    {
        let wanted = components_of(path.as_str());
        let mut i: usize = 0;
        while i < self.entries.len()
            invariant
                i <= self.entries@.len(),
                *self == *old(self),
                self.wf(),
                string_views(wanted@) == path_key(path@),
                forall|j: int| 0 <= j < i ==> self.entries@[j].key() != path_key(path@),
            decreases self.entries@.len() - i,
        {
            let k = components_of(self.entries[i].path.as_str());
            if same_strings(&k, &wanted) {
                self.selected_index = i;
                return;
            }
            i = i + 1;
        }
    }
}

/// The tabs of the window.
#[derive(Debug)]
pub struct TabManager {
    pub tabs: Vec<Tab>,
    pub current_tab_index: usize,
}

impl TabManager {
    /// The current tab exists and every tab is well formed.
    pub open spec fn wf(&self) -> bool {
        &&& self.current_tab_index < self.tabs@.len()
        &&& forall|i: int| 0 <= i < self.tabs@.len() ==> (#[trigger] self.tabs@[i]).wf()
    }

    /// The current tab.
    pub open spec fn current(&self) -> Tab {
        self.tabs@[self.current_tab_index as int]
    }

    /// A manager with one tab.
    pub fn new(tab: Tab) -> (m: TabManager)
        requires
            tab.wf(),
        ensures
            m.wf(),
            m.tabs@.len() == 1,
            m.current() == tab,
    {
        let mut tabs: Vec<Tab> = Vec::new();
        tabs.push(tab);
        TabManager { tabs, current_tab_index: 0 }
    }

    /// The current tab.
    pub fn current_tab_ref(&self) -> (t: &Tab)
        requires
            self.wf(),
        ensures
            *t == self.current(),
    {
        &self.tabs[self.current_tab_index]
    }
}

} // verus!

verus! {

/// A move by lines or by a page from a selection that the filtered list
/// does not show selects the first filtered entry, whatever the amount or
/// the direction.
pub proof fn lemma_hidden_selection_moves_to_first(
    s: Seq<usize>,
    selected: usize,
    delta: int,
    direction: int,
    page: int,
)
    requires
        s.len() > 0,
        forall|i: int| 0 <= i < s.len() ==> s[i] != selected,
    ensures
        move_target(s, selected, delta) == Some(s[0]),
        page_target(s, selected, direction, page) == Some(s[0]),
{
    assert(!exists|p: int| is_first_pos(s, selected, p));
}

/// A page move from a selection that the filtered list shows goes the
/// whole page in its direction (down for a positive direction, up
/// otherwise), or stops at the end of the list; it moves nothing exactly
/// when the selection is already at that end or the page is empty.
pub proof fn lemma_page_move_from_shown_selection(
    s: Seq<usize>,
    selected: usize,
    direction: int,
    page: int,
    p: int,
)
    requires
        s.no_duplicates(),
        0 <= p < s.len(),
        s[p] == selected,
        page >= 0,
    ensures
        page_target(s, selected, direction, page) is None <==> (page == 0 || (direction > 0 && p
            == s.len() - 1) || (direction <= 0 && p == 0)),
        page_target(s, selected, direction, page) matches Some(t) ==> exists|q: int|
            #![trigger s[q]]
            0 <= q < s.len() && s[q] == t && (direction > 0 ==> p < q && (q == p + page || (q
                == s.len() - 1 && p + page > q))) && (direction <= 0 ==> q < p && (q == p - page
                || (q == 0 && p - page < 0))),
{
    assert forall|j: int| 0 <= j < p implies s[j] != selected by {
        assert(s[j] != s[p]);
    }
    lemma_first_pos_unique(s, selected, p);
}

/// Applying a range selection only adds marks: every path marked before
/// stays marked, and a path is marked afterwards exactly when it was
/// marked before or is the path of an entry between the range's start and
/// the selection, both included. Without a range selection the marks stay.
pub proof fn lemma_range_selection_adds_marks(t: Tab)
    ensures
        path_set(t.marked_entries@).subset_of(marked_after_range(t)),
        t.range_selection_start is None ==> marked_after_range(t) == path_set(t.marked_entries@),
        t.range_selection_start matches Some(start) ==> forall|p: Seq<Seq<char>>|
            #[trigger] marked_after_range(t).contains(p) <==> (path_set(t.marked_entries@).contains(p)
                || exists|i: int|
                0 <= i < t.entries@.len() && (start <= i <= t.selected_index || t.selected_index
                    <= i <= start) && t.entries@[i].key() == p),
{
    if t.range_selection_start is None {
        assert(marked_after_range(t) =~= path_set(t.marked_entries@));
    }
}

} // verus!
