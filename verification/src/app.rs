//! The state of the file manager window and the decisions taken on it:
//! selection, marking, clipboard, rename, drag and drop, navigation with
//! its visit history, and the file picker mode.
use vstd::prelude::*;
use crate::tab::{
    after_back, after_forward, all_indices, back_target, filtered_paths, forward_target,
    history_after_visit, is_single, marked_after_range, move_fits, move_target, page_fits,
    page_size, page_target, path_set, ActionType, DirEntry, RenameOperation, Tab, TabManager,
};
use crate::paths::{
    join, join_path, parent_of, path_key, path_parent, paths_equal, same_path, trim, trimmed,
};
use crate::text::{push_char, push_str, write_decimal, decimal};
use crate::visit_history::{VisitHistory, update_visit_history, visited};

verus! {

/// How a notification is shown.
#[derive(PartialEq, Eq, Structural, Clone, Copy, Debug)]
pub enum NotificationKind {
    Error,
    Info,
    Success,
}

/// A message shown to the user.
#[derive(Debug)]
pub struct Notification {
    pub kind: NotificationKind,
    pub message: String,
}

/// Configuration for picker mode (when kiorg is invoked as a file chooser portal).
#[derive(Debug)]
pub struct PickerConfig {
    /// File to write the newline-separated list of selected paths into on confirm.
    pub result_file: String,
    /// Allow selecting multiple entries.
    pub multiple: bool,
    /// Only allow selecting directories.
    pub directory_only: bool,
    /// Save-file mode (user types a filename).
    pub save_mode: bool,
}

/// Clipboard operation types.
#[derive(Debug)]
pub enum Clipboard {
    Copy(Vec<String>),
    Cut(Vec<String>),
}

/// A popup that the logic opens.
#[derive(Debug)]
pub enum Popup {
    /// Confirmation of the deletion of these paths.
    Delete(Vec<String>),
}

/// An inline rename in progress.
#[derive(Debug)]
pub struct Rename {
    pub original_index: usize,
    pub original_name: String,
    pub new_name: String,
}

/// The window's state.
#[derive(Debug)]
pub struct Kiorg {
    pub tab_manager: TabManager,
    /// Global visit history.
    pub visit_history: VisitHistory,
    /// The selection changed since the preview was last updated.
    pub selection_changed: bool,
    pub ensure_selected_visible: bool,
    /// The path to select again after the next refresh.
    pub prev_path: Option<String>,
    pub cached_preview_path: Option<String>,
    /// The range of entries the center panel shows, once drawn.
    pub scroll_range: Option<(usize, usize)>,
    pub show_popup: Option<Popup>,
    pub clipboard: Option<Clipboard>,
    /// The search query, while the search bar is open.
    pub search_query: Option<String>,
    pub shutdown_requested: bool,
    /// Scroll the left panel to the current directory.
    pub scroll_left_panel: bool,
    /// The entry being dragged.
    pub dragged_file: Option<String>,
    pub inline_rename: Option<Rename>,
    /// Some when launched as a portal file chooser.
    pub picker_config: Option<PickerConfig>,
    /// In save mode: the filename the user types.
    pub picker_save_filename: String,
    /// Notifications waiting to be shown, oldest first.
    pub notifications: Vec<Notification>,
}

impl Kiorg {
    /// The tabs and the visit history are well formed.
    pub open spec fn wf(&self) -> bool {
        &&& self.tab_manager.wf()
        &&& self.visit_history.wf()
    }

    /// The current tab.
    pub open spec fn current_tab(&self) -> Tab {
        self.tab_manager.current()
    }

    /// `b`'s tabs are `a`'s with the current tab replaced by `t`.
    pub open spec fn tabs_updated(a: Kiorg, b: Kiorg, t: Tab) -> bool {
        &&& b.tab_manager.current_tab_index == a.tab_manager.current_tab_index
        &&& b.tab_manager.tabs@ == a.tab_manager.tabs@.update(
            a.tab_manager.current_tab_index as int,
            t,
        )
    }

    /// A window showing the tabs of `tab_manager`.
    pub fn new(
        tab_manager: TabManager,
        visit_history: VisitHistory,
        picker_config: Option<PickerConfig>,
    ) -> (k: Kiorg)
        requires
            tab_manager.wf(),
            visit_history.wf(),
        ensures
            k.wf(),
            k.tab_manager == tab_manager,
            k.visit_history == visit_history,
            k.picker_config == picker_config,
            k.selection_changed,
            !k.ensure_selected_visible,
            k.prev_path is None,
            k.cached_preview_path is None,
            !k.scroll_left_panel,
            k.scroll_range is None,
            k.show_popup is None,
            k.clipboard is None,
            k.search_query is None,
            !k.shutdown_requested,
            k.dragged_file is None,
            k.inline_rename is None,
            k.picker_save_filename@.len() == 0,
            k.notifications@.len() == 0,
    {
        Kiorg {
            tab_manager,
            visit_history,
            selection_changed: true,
            ensure_selected_visible: false,
            prev_path: None,
            cached_preview_path: None,
            scroll_range: None,
            show_popup: None,
            clipboard: None,
            search_query: None,
            shutdown_requested: false,
            scroll_left_panel: false,
            dragged_file: None,
            inline_rename: None,
            picker_config,
            picker_save_filename: String::new(),
            notifications: Vec::new(),
        }
    }

    /// Moves the selection `delta` entries through the filtered list of
    /// the current tab.
    pub fn move_selection(&mut self, delta: isize)
        requires
            old(self).wf(),
            move_fits(
                old(self).current_tab().filtered@,
                old(self).current_tab().selected_index,
                delta as int,
            ),
        ensures
            final(self).wf(),
            match move_target(
                old(self).current_tab().filtered@,
                old(self).current_tab().selected_index,
                delta as int,
            ) {
                Some(t) => {
                    &&& Kiorg::tabs_updated(
                        *old(self),
                        *final(self),
                        old(self).current_tab().with_selection(t),
                    )
                    &&& *final(self) == (Kiorg {
                        tab_manager: final(self).tab_manager,
                        ensure_selected_visible: true,
                        selection_changed: true,
                        ..*old(self)
                    })
                },
                None => {
                    &&& Kiorg::tabs_updated(*old(self), *final(self), old(self).current_tab())
                    &&& *final(self) == (Kiorg { tab_manager: final(self).tab_manager, ..*old(self) })
                },
            },
    {
        let i = self.tab_manager.current_tab_index;
        let moved = self.tab_manager.tabs[i].move_selection(delta);
        if moved {
            self.ensure_selected_visible = true;
            self.selection_changed = true;
        }
    }
}


/// A rename to carry out on the file system.
#[derive(Debug)]
pub struct RenameRequest {
    pub old_path: String,
    pub new_path: String,
}

/// The newline-separated paths to write into the picker's result file.
#[derive(Debug)]
pub struct PickerWrite {
    pub result_file: String,
    pub content: String,
}

/// What the caller has to do after a navigation.
#[derive(Debug)]
pub struct NavigationActions {
    /// The directory entered: watch it and refresh the entries.
    pub entered: Option<String>,
    /// The visit history changed: save it.
    pub save_history: bool,
}

/// The message of a refused navigation.
pub open spec fn cannot_navigate_message(path: Seq<char>) -> Seq<char> {
    "Cannot navigate to '"@ + path + "': Path is not a directory or doesn't exist"@
}

/// The message of a failed rename.
pub open spec fn rename_failed_message(e: Seq<char>) -> Seq<char> {
    "Failed to rename: "@ + e
}

/// The paths joined by line feeds.
pub open spec fn joined_lines(ps: Seq<Seq<char>>) -> Seq<char>
    decreases ps.len(),
{
    if ps.len() == 0 {
        Seq::empty()
    } else if ps.len() == 1 {
        ps[0]
    } else {
        joined_lines(ps.drop_last()) + seq!['\n'] + ps.last()
    }
}

/// The string made of `a` and `b`.
fn concat(a: &str, b: &str) -> (r: String)
    ensures
        r@ == a@ + b@,
{
    let mut r = String::new();
    push_str(&mut r, a);
    push_str(&mut r, b);
    assert(r@ =~= a@ + b@);
    r
}

impl Kiorg {
    /// The window with other notifications.
    pub open spec fn notified(self, kind: NotificationKind, message: Seq<char>, k: Kiorg) -> bool {
        &&& k.notifications@.len() == self.notifications@.len() + 1
        &&& k.notifications@.take(self.notifications@.len() as int) == self.notifications@
        &&& k.notifications@.last().kind == kind
        &&& k.notifications@.last().message@ == message
    }

    /// Shows an error.
    pub fn notify_error(&mut self, message: String)
        ensures
            old(self).notified(NotificationKind::Error, message@, *final(self)),
            *final(self) == (Kiorg { notifications: final(self).notifications, ..*old(self) }),
    {
        self.notifications.push(Notification { kind: NotificationKind::Error, message });
        assert(self.notifications@.take(old(self).notifications@.len() as int) =~= old(self).notifications@);
    }

    /// Shows an information.
    pub fn notify_info(&mut self, message: String)
        ensures
            old(self).notified(NotificationKind::Info, message@, *final(self)),
            *final(self) == (Kiorg { notifications: final(self).notifications, ..*old(self) }),
    {
        self.notifications.push(Notification { kind: NotificationKind::Info, message });
        assert(self.notifications@.take(old(self).notifications@.len() as int) =~= old(self).notifications@);
    }

    /// Shows a success.
    pub fn notify_success(&mut self, message: String)
        ensures
            old(self).notified(NotificationKind::Success, message@, *final(self)),
            *final(self) == (Kiorg { notifications: final(self).notifications, ..*old(self) }),
    {
        self.notifications.push(Notification { kind: NotificationKind::Success, message });
        assert(self.notifications@.take(old(self).notifications@.len() as int) =~= old(self).notifications@);
    }

    /// Whether key presses go to a widget instead of the shortcuts: an open
    /// terminal takes all input, and in picker save mode a focused widget
    /// (the filename field) does.
    pub fn input_taken_by_widget(&self, terminal_open: bool, widget_focused: bool) -> (b: bool)
        ensures
            b == (terminal_open || (self.picker_config matches Some(c) && c.save_mode
                && widget_focused)),
    {
        if terminal_open {
            return true;
        }
        match &self.picker_config {
            Some(c) => c.save_mode && widget_focused,
            None => false,
        }
    }

    /// Shows the messages that background operations sent, in order.
    pub fn check_notifications(&mut self, messages: Vec<Notification>)
        ensures
            final(self).notifications@ == old(self).notifications@ + messages@,
            *final(self) == (Kiorg { notifications: final(self).notifications, ..*old(self) }),
    {
        let mut messages = messages;
        let ghost m = messages@;
        self.notifications.append(&mut messages);
        assert(self.notifications@ =~= old(self).notifications@ + m);
    }

    /// Moves the selection one page through the filtered list of the
    /// current tab, down for a positive direction and up otherwise.
    pub fn move_selection_by_page(&mut self, direction: isize)
        requires
            old(self).wf(),
            page_fits(
                old(self).current_tab().filtered@,
                old(self).current_tab().selected_index,
                direction as int,
                old(self).scroll_range,
            ),
        ensures
            final(self).wf(),
            match page_target(
                old(self).current_tab().filtered@,
                old(self).current_tab().selected_index,
                direction as int,
                page_size(old(self).scroll_range),
            ) {
                Some(t) => {
                    &&& Kiorg::tabs_updated(
                        *old(self),
                        *final(self),
                        old(self).current_tab().with_selection(t),
                    )
                    &&& *final(self) == (Kiorg {
                        tab_manager: final(self).tab_manager,
                        ensure_selected_visible: true,
                        selection_changed: true,
                        ..*old(self)
                    })
                },
                None => {
                    &&& Kiorg::tabs_updated(*old(self), *final(self), old(self).current_tab())
                    &&& *final(self) == (Kiorg { tab_manager: final(self).tab_manager, ..*old(self) })
                },
            },
    {
        let i = self.tab_manager.current_tab_index;
        let scroll_range = self.scroll_range;
        let moved = self.tab_manager.tabs[i].move_selection_by_page(direction, scroll_range);
        if moved {
            self.ensure_selected_visible = true;
            self.selection_changed = true;
        }
    }

    /// Selects the entry at `index` of the current tab.
    pub fn set_selection(&mut self, index: usize)
        requires
            old(self).wf(),
        ensures
            final(self).wf(),
            Kiorg::tabs_updated(*old(self), *final(self), old(self).current_tab().with_selection(index)),
            old(self).current_tab().selected_index == index ==> *final(self) == (Kiorg {
                tab_manager: final(self).tab_manager,
                ..*old(self)
            }),
            old(self).current_tab().selected_index != index ==> *final(self) == (Kiorg {
                tab_manager: final(self).tab_manager,
                ensure_selected_visible: true,
                selection_changed: true,
                ..*old(self)
            }),
    {
        let i = self.tab_manager.current_tab_index;
        if self.tab_manager.tabs[i].selected_index == index {
            assert(old(self).current_tab().with_selection(index) == old(self).current_tab());
            assert(self.tab_manager.tabs@.update(i as int, old(self).current_tab()) =~= self.tab_manager.tabs@);
            return;
        }
        self.tab_manager.tabs[i].selected_index = index;
        self.ensure_selected_visible = true;
        self.selection_changed = true;
    }

    /// Opens the delete confirmation for the marked entries, or else for the
    /// selected entry, once an active range selection has been applied.
    pub fn delete_selected_entry(&mut self)
        requires
            old(self).wf(),
        ensures
            final(self).wf(),
            Kiorg::tabs_updated(*old(self), *final(self), final(self).current_tab()),
            final(self).current_tab() == old(self).current_tab().with_marks(
                final(self).current_tab().marked_entries,
            ),
            path_set(final(self).current_tab().marked_entries@) == marked_after_range(
                old(self).current_tab(),
            ),
            ({
                let m = marked_after_range(old(self).current_tab());
                if m != Set::<Seq<Seq<char>>>::empty() {
                    &&& final(self).show_popup matches Some(Popup::Delete(v))
                    &&& path_set(v@) == m
                    &&& crate::tab::distinct_paths_of(v@)
                } else {
                    match old(self).current_tab().selected_path() {
                        Some(p) => final(self).show_popup matches Some(Popup::Delete(v)) && is_single(v@, p),
                        None => final(self).show_popup == old(self).show_popup,
                    }
                }
            }),
            *final(self) == (Kiorg {
                tab_manager: final(self).tab_manager,
                show_popup: final(self).show_popup,
                ..*old(self)
            }),
    {
        let i = self.tab_manager.current_tab_index;
        let targets = self.tab_manager.tabs[i].delete_targets();
        if let Some(v) = targets {
            self.show_popup = Some(Popup::Delete(v));
        }
    }
}


impl Kiorg {
    /// Starts an inline rename of the selected entry of the current tab.
    pub fn rename_selected_entry(&mut self)
        requires
            old(self).wf(),
        ensures
            match old(self).current_tab().selected_path() {
                Some(_) => {
                    let t = old(self).current_tab();
                    let e = t.entries@[t.selected_index as int];
                    &&& final(self).inline_rename matches Some(r)
                    &&& r.original_index == t.selected_index
                    &&& r.original_name@ == e.name@
                    &&& r.new_name@ == e.name@
                    &&& *final(self) == (Kiorg { inline_rename: final(self).inline_rename, ..*old(self) })
                },
                None => *final(self) == *old(self),
            },
    {
        let i = self.tab_manager.current_tab_index;
        let tab = &self.tab_manager.tabs[i];
        if let Some(entry) = tab.selected_entry() {
            self.inline_rename = Some(
                Rename {
                    original_index: tab.selected_index,
                    original_name: entry.name.clone(),
                    new_name: entry.name.clone(),
                },
            );
        }
    }

    /// Ends the inline rename, giving the rename to carry out: the selected
    /// entry of the current tab gets the trimmed new name in its parent
    /// directory (the tab's directory when it has none). Nothing is renamed
    /// when the trimmed name is empty or unchanged, or nothing is selected.
    pub fn confirm_rename(&mut self) -> (r: Option<RenameRequest>)
        requires
            old(self).wf(),
        ensures
            *final(self) == (Kiorg { inline_rename: None, ..*old(self) }),
            match old(self).inline_rename {
                None => r is None,
                Some(rn) => {
                    let name = trimmed(rn.new_name@);
                    let t = old(self).current_tab();
                    if name.len() == 0 || name == rn.original_name@ || t.selected_path() is None {
                        r is None
                    } else {
                        let old_path = t.selected_path()->0;
                        let parent = match path_parent(old_path) {
                            Some(p) => p,
                            None => t.current_path@,
                        };
                        &&& r is Some
                        &&& r->0.old_path@ == old_path
                        &&& r->0.new_path@ == join_path(parent, name)
                    }
                },
            },
    {
        let rename = match self.inline_rename.take() {
            Some(rn) => rn,
            None => {
                return None;
            },
        };
        let new_name = trim(rename.new_name.as_str());
        if new_name.as_str().is_empty() || new_name == rename.original_name {
            return None;
        }
        let i = self.tab_manager.current_tab_index;
        let tab = &self.tab_manager.tabs[i];
        match tab.selected_entry() {
            Some(entry) => {
                let parent = match parent_of(entry.path.as_str()) {
                    Some(p) => p,
                    None => tab.current_path.clone(),
                };
                let new_path = join(parent.as_str(), new_name.as_str());
                Some(RenameRequest { old_path: entry.path.clone(), new_path })
            },
            None => None,
        }
    }

    /// Takes the outcome of a rename: a failure is shown; a success joins
    /// the action history of the current tab. Tells whether the entries
    /// have to be refreshed.
    pub fn finish_rename(&mut self, request: RenameRequest, result: Result<(), String>) -> (refresh: bool)
        requires
            old(self).wf(),
        ensures
            final(self).wf(),
            match result {
                Err(e) => {
                    &&& !refresh
                    &&& old(self).notified(NotificationKind::Error, rename_failed_message(e@), *final(self))
                    &&& *final(self) == (Kiorg { notifications: final(self).notifications, ..*old(self) })
                },
                Ok(_) => {
                    let t = final(self).current_tab();
                    let o = old(self).current_tab();
                    &&& refresh
                    &&& Kiorg::tabs_updated(*old(self), *final(self), t)
                    &&& t == (Tab { action_history: t.action_history, ..o })
                    &&& t.action_history@.len() == o.action_history@.len() + 1
                    &&& t.action_history@.take(o.action_history@.len() as int) == o.action_history@
                    &&& t.action_history@.last() matches ActionType::Rename { operations }
                    &&& operations@.len() == 1
                    &&& operations@[0] == RenameOperation { old_path: request.old_path, new_path: request.new_path }
                    &&& *final(self) == (Kiorg { tab_manager: final(self).tab_manager, ..*old(self) })
                },
            },
    {
        match result {
            Err(e) => {
                let msg = concat("Failed to rename: ", e.as_str());
                self.notify_error(msg);
                false
            },
            Ok(()) => {
                let i = self.tab_manager.current_tab_index;
                let mut operations: Vec<RenameOperation> = Vec::new();
                operations.push(RenameOperation { old_path: request.old_path, new_path: request.new_path });
                self.tab_manager.tabs[i].action_history.push(ActionType::Rename { operations });
                proof {
                    let t = self.current_tab();
                    assert(t.action_history@.take(old(self).current_tab().action_history@.len() as int) =~= old(self).current_tab().action_history@);
                }
                true
            },
        }
    }

    /// Drops the inline rename.
    pub fn cancel_rename(&mut self)
        ensures
            *final(self) == (Kiorg { inline_rename: None, ..*old(self) }),
    {
        self.inline_rename = None;
    }

    /// The paths that a cut or a copy of the current tab takes.
    fn prepare_clipboard_operation(&mut self) -> (r: Vec<String>)
        requires
            old(self).wf(),
        ensures
            final(self).wf(),
            Kiorg::tabs_updated(*old(self), *final(self), final(self).current_tab()),
            *final(self) == (Kiorg { tab_manager: final(self).tab_manager, ..*old(self) }),
            final(self).current_tab() == old(self).current_tab().with_marks(
                final(self).current_tab().marked_entries,
            ),
            clipboard_paths(old(self).current_tab(), final(self).current_tab(), r@),
    {
        let i = self.tab_manager.current_tab_index;
        self.tab_manager.tabs[i].prepare_clipboard_operation()
    }

    /// Puts the paths of the marked entries, or of the selected one, on
    /// the clipboard to be moved.
    pub fn cut_selected_entries(&mut self)
        requires
            old(self).wf(),
        ensures
            final(self).wf(),
            Kiorg::tabs_updated(*old(self), *final(self), final(self).current_tab()),
            final(self).current_tab() == old(self).current_tab().with_marks(
                final(self).current_tab().marked_entries,
            ),
            exists|r: Seq<String>| {
                &&& #[trigger] clipboard_paths(old(self).current_tab(), final(self).current_tab(), r)
                &&& if r.len() > 0 {
                    final(self).clipboard matches Some(Clipboard::Cut(v)) && v@ == r
                } else {
                    final(self).clipboard == old(self).clipboard
                }
            },
            *final(self) == (Kiorg {
                tab_manager: final(self).tab_manager,
                clipboard: final(self).clipboard,
                ..*old(self)
            }),
    {
        let paths = self.prepare_clipboard_operation();
        let ghost r = paths@;
        if paths.len() > 0 {
            self.clipboard = Some(Clipboard::Cut(paths));
        }
        assert(clipboard_paths(old(self).current_tab(), self.current_tab(), r));
    }

    /// Puts the paths of the marked entries, or of the selected one, on
    /// the clipboard to be copied.
    pub fn copy_selected_entries(&mut self)
        requires
            old(self).wf(),
        ensures
            final(self).wf(),
            Kiorg::tabs_updated(*old(self), *final(self), final(self).current_tab()),
            final(self).current_tab() == old(self).current_tab().with_marks(
                final(self).current_tab().marked_entries,
            ),
            exists|r: Seq<String>| {
                &&& #[trigger] clipboard_paths(old(self).current_tab(), final(self).current_tab(), r)
                &&& if r.len() > 0 {
                    final(self).clipboard matches Some(Clipboard::Copy(v)) && v@ == r
                } else {
                    final(self).clipboard == old(self).clipboard
                }
            },
            *final(self) == (Kiorg {
                tab_manager: final(self).tab_manager,
                clipboard: final(self).clipboard,
                ..*old(self)
            }),
    {
        let paths = self.prepare_clipboard_operation();
        let ghost r = paths@;
        if paths.len() > 0 {
            self.clipboard = Some(Clipboard::Copy(paths));
        }
        assert(clipboard_paths(old(self).current_tab(), self.current_tab(), r));
    }

    /// Marks every entry that the filter of the current tab shows.
    pub fn select_all_entries(&mut self)
        requires
            old(self).wf(),
        ensures
            final(self).wf(),
            Kiorg::tabs_updated(*old(self), *final(self), final(self).current_tab()),
            final(self).current_tab() == (Tab {
                marked_entries: final(self).current_tab().marked_entries,
                ..old(self).current_tab()
            }),
            path_set(final(self).current_tab().marked_entries@) == filtered_paths(old(self).current_tab()),
            *final(self) == (Kiorg { tab_manager: final(self).tab_manager, ..*old(self) }),
    {
        let i = self.tab_manager.current_tab_index;
        self.tab_manager.tabs[i].select_all_entries();
    }

    /// Starts dragging `path`.
    pub fn start_drag(&mut self, file_path: String)
        ensures
            *final(self) == (Kiorg { dragged_file: Some(file_path), ..*old(self) }),
    {
        self.dragged_file = Some(file_path);
    }

    /// Ends the drag, giving what was dragged.
    pub fn end_drag(&mut self) -> (r: Option<String>)
        ensures
            r == old(self).dragged_file,
            *final(self) == (Kiorg { dragged_file: None, ..*old(self) }),
    {
        self.dragged_file.take()
    }

    /// Whether something is being dragged.
    pub fn is_dragging(&self) -> (b: bool)
        ensures
            b == self.dragged_file is Some,
    {
        self.dragged_file.is_some()
    }

    /// What is being dragged.
    pub fn get_dragged_file(&self) -> (r: Option<&String>)
        ensures
            r is Some == self.dragged_file is Some,
            r is Some ==> *r->0 == self.dragged_file->0,
    {
        match &self.dragged_file {
            Some(p) => Some(p),
            None => None,
        }
    }

    /// Drops the dragged entry on `target_folder`: the drag ends, and the
    /// entry is put on the clipboard to be moved there, unless it is the
    /// target itself or already in it (then an error is shown). Gives the
    /// folder to paste the clipboard into.
    pub fn move_dragged_item_to_folder(&mut self, target_folder: String) -> (r: Option<String>)
        ensures
            match old(self).dragged_file {
                None => r is None && *final(self) == *old(self),
                Some(item) => if same_path(item@, target_folder@) {
                    &&& r is None
                    &&& old(self).notified(NotificationKind::Error, "Cannot move an entry into itself"@, *final(self))
                    &&& *final(self) == (Kiorg { dragged_file: None, notifications: final(self).notifications, ..*old(self) })
                } else if path_parent(item@) is Some && same_path(path_parent(item@)->0, target_folder@) {
                    &&& r is None
                    &&& old(self).notified(NotificationKind::Error, "Entry is already in the target directory"@, *final(self))
                    &&& *final(self) == (Kiorg { dragged_file: None, notifications: final(self).notifications, ..*old(self) })
                } else {
                    &&& r == Some(target_folder)
                    &&& final(self).clipboard matches Some(Clipboard::Cut(v))
                    &&& v@.len() == 1 && v@[0] == item
                    &&& *final(self) == (Kiorg { dragged_file: None, clipboard: final(self).clipboard, ..*old(self) })
                },
            },
    {
        let dragged_item = match self.end_drag() {
            Some(p) => p,
            None => {
                return None;
            },
        };
        if paths_equal(dragged_item.as_str(), target_folder.as_str()) {
            self.notify_error("Cannot move an entry into itself".to_string());
            return None;
        }
        let in_target = match parent_of(dragged_item.as_str()) {
            Some(parent) => paths_equal(parent.as_str(), target_folder.as_str()),
            None => false,
        };
        if in_target {
            self.notify_error("Entry is already in the target directory".to_string());
            return None;
        }
        let mut v: Vec<String> = Vec::new();
        v.push(dragged_item);
        self.clipboard = Some(Clipboard::Cut(v));
        Some(target_folder)
    }
}

/// `r` is what a cut or a copy takes from tab `o`, which became `t`.
pub open spec fn clipboard_paths(o: Tab, t: Tab, r: Seq<String>) -> bool {
    let m = marked_after_range(o);
    let sel = o.selected_path();
    if sel is Some && !m.contains(path_key(sel->0)) && m != Set::<Seq<Seq<char>>>::empty() {
        is_single(r, sel->0) && t.marked_entries@.len() == 0
    } else {
        &&& path_set(t.marked_entries@) == m
        &&& if m == Set::<Seq<Seq<char>>>::empty() {
            match sel {
                Some(p) => is_single(r, p),
                None => r.len() == 0,
            }
        } else {
            path_set(r) == m && crate::tab::distinct_paths_of(r)
        }
    }
}


/// What entering a directory makes of a tab: it shows `path`, without a
/// range selection and with every entry shown.
pub open spec fn entered_tab(o: Tab, t: Tab, path: Seq<char>) -> bool {
    &&& t == (Tab {
        current_path: t.current_path,
        range_selection_start: None,
        filtered: t.filtered,
        ..o
    })
    &&& t.current_path@ == path
    &&& t.filtered@ == Seq::new(o.entries@.len(), |k: int| k as usize)
}

impl Kiorg {
    /// Enters `path` in the current tab without touching its history: the
    /// previous directory is kept to select it again, the scroll range and
    /// the range selection are dropped, the search bar closes and the filter
    /// is reset. The caller then watches the directory and refreshes.
    fn enter_dir(&mut self, path: String)
        requires
            old(self).wf(),
        ensures
            final(self).wf(),
            Kiorg::tabs_updated(*old(self), *final(self), final(self).current_tab()),
            entered_tab(old(self).current_tab(), final(self).current_tab(), path@),
            final(self).prev_path is Some,
            final(self).prev_path->0 == old(self).current_tab().current_path,
            *final(self) == (Kiorg {
                tab_manager: final(self).tab_manager,
                prev_path: final(self).prev_path,
                scroll_range: None,
                search_query: None,
                ..*old(self)
            }),
    {
        let i = self.tab_manager.current_tab_index;
        let n = self.tab_manager.tabs[i].entries.len();
        let mut swapped = path;
        std::mem::swap(&mut self.tab_manager.tabs[i].current_path, &mut swapped);
        self.prev_path = Some(swapped);
        self.scroll_range = None;
        self.tab_manager.tabs[i].range_selection_start = None;
        self.search_query = None;
        self.tab_manager.tabs[i].filtered = all_indices(n);
        assert(self.tab_manager.tabs@ =~= old(self).tab_manager.tabs@.update(
            i as int,
            self.tab_manager.tabs@[i as int],
        ));
    }

    /// Goes to `path`, visited at `now`. When it is not an existing
    /// directory (`is_dir` false), it leaves the visit history and an error
    /// is shown; otherwise the current tab enters it and the visit is recorded
    /// in the visit history and the tab's history.
    pub fn navigate_to_dir(&mut self, path: String, is_dir: bool, now: u64) -> (r: NavigationActions)
        requires
            old(self).wf(),
        ensures
            final(self).wf(),
            !is_dir ==> {
                &&& r.entered is None
                &&& r.save_history == old(self).visit_history@.contains_key(path_key(path@))
                &&& final(self).visit_history@ == old(self).visit_history@.remove(path_key(path@))
                &&& old(self).notified(NotificationKind::Error, cannot_navigate_message(path@), *final(self))
                &&& *final(self) == (Kiorg {
                    visit_history: final(self).visit_history,
                    notifications: final(self).notifications,
                    ..*old(self)
                })
            },
            is_dir ==> {
                let o = old(self).current_tab();
                let t = final(self).current_tab();
                &&& r.entered == Some(path)
                &&& r.save_history
                &&& final(self).visit_history@ == visited(old(self).visit_history@, path_key(path@), now)
                &&& Kiorg::tabs_updated(*old(self), *final(self), t)
                &&& t.current_path@ == path@
                &&& t.range_selection_start is None
                &&& t.filtered@ == Seq::new(o.entries@.len(), |k: int| k as usize)
                &&& t.history@.map_values(|s: String| s@) == history_after_visit(o, path@)
                &&& t.history_index == t.history@.len() - 1
                &&& t == (Tab {
                    current_path: t.current_path,
                    range_selection_start: None,
                    filtered: t.filtered,
                    history: t.history,
                    history_index: t.history_index,
                    ..o
                })
                &&& final(self).prev_path is Some
                &&& final(self).prev_path->0 == o.current_path
                &&& *final(self) == (Kiorg {
                    tab_manager: final(self).tab_manager,
                    visit_history: final(self).visit_history,
                    prev_path: final(self).prev_path,
                    scroll_range: None,
                    search_query: None,
                    ..*old(self)
                })
            },
    {
        if !is_dir {
            let removed = self.visit_history.remove(&path);
            let mut msg = concat("Cannot navigate to '", path.as_str());
            push_str(&mut msg, "': Path is not a directory or doesn't exist");
            self.notify_error(msg);
            return NavigationActions { entered: None, save_history: removed.is_some() };
        }
        self.enter_dir(path.clone());
        update_visit_history(&mut self.visit_history, &path, now);
        let i = self.tab_manager.current_tab_index;
        self.tab_manager.tabs[i].add_to_history(path.clone());
        assert(self.tab_manager.tabs@ =~= old(self).tab_manager.tabs@.update(
            i as int,
            self.tab_manager.tabs@[i as int],
        ));
        NavigationActions { entered: Some(path), save_history: true }
    }

    /// Steps back in the history of the current tab, entering the directory
    /// found there; gives that directory.
    pub fn navigate_history_back(&mut self) -> (r: Option<String>)
        requires
            old(self).wf(),
        ensures
            final(self).wf(),
            r is Some == back_target(old(self).current_tab()) is Some,
            r is None ==> {
                &&& Kiorg::tabs_updated(*old(self), *final(self), old(self).current_tab())
                &&& *final(self) == (Kiorg { tab_manager: final(self).tab_manager, ..*old(self) })
            },
            r is Some ==> {
                &&& r->0@ == back_target(old(self).current_tab())->0
                &&& Kiorg::tabs_updated(*old(self), *final(self), final(self).current_tab())
                &&& entered_tab(after_back(old(self).current_tab()), final(self).current_tab(), r->0@)
                &&& final(self).prev_path is Some
                &&& final(self).prev_path->0 == old(self).current_tab().current_path
                &&& *final(self) == (Kiorg {
                    tab_manager: final(self).tab_manager,
                    prev_path: final(self).prev_path,
                    scroll_range: None,
                    search_query: None,
                    ..*old(self)
                })
            },
    {
        let i = self.tab_manager.current_tab_index;
        match self.tab_manager.tabs[i].history_back() {
            Some(p) => {
                self.enter_dir(p.clone());
                assert(self.tab_manager.tabs@ =~= old(self).tab_manager.tabs@.update(
                    i as int,
                    self.tab_manager.tabs@[i as int],
                ));
                Some(p)
            },
            None => None,
        }
    }

    /// Steps forward in the history of the current tab, entering the
    /// directory found there; gives that directory.
    pub fn navigate_history_forward(&mut self) -> (r: Option<String>)
        requires
            old(self).wf(),
        ensures
            final(self).wf(),
            r is Some == forward_target(old(self).current_tab()) is Some,
            r is None ==> {
                &&& Kiorg::tabs_updated(*old(self), *final(self), old(self).current_tab())
                &&& *final(self) == (Kiorg { tab_manager: final(self).tab_manager, ..*old(self) })
            },
            r is Some ==> {
                &&& r->0@ == forward_target(old(self).current_tab())->0
                &&& Kiorg::tabs_updated(*old(self), *final(self), final(self).current_tab())
                &&& entered_tab(after_forward(old(self).current_tab()), final(self).current_tab(), r->0@)
                &&& final(self).prev_path is Some
                &&& final(self).prev_path->0 == old(self).current_tab().current_path
                &&& *final(self) == (Kiorg {
                    tab_manager: final(self).tab_manager,
                    prev_path: final(self).prev_path,
                    scroll_range: None,
                    search_query: None,
                    ..*old(self)
                })
            },
    {
        let i = self.tab_manager.current_tab_index;
        match self.tab_manager.tabs[i].history_forward() {
            Some(p) => {
                self.enter_dir(p.clone());
                assert(self.tab_manager.tabs@ =~= old(self).tab_manager.tabs@.update(
                    i as int,
                    self.tab_manager.tabs@[i as int],
                ));
                Some(p)
            },
            None => None,
        }
    }
}


/// The marked paths that picker mode accepts: all of them, or only the
/// directories (`is_dir` tells which are) when only directories may be chosen.
pub open spec fn accepted_marks(m: Seq<String>, is_dir: Seq<bool>, directory_only: bool) -> Seq<
    Seq<char>,
>
    decreases m.len(),
{
    if m.len() == 0 {
        Seq::empty()
    } else {
        let rest = accepted_marks(m.drop_last(), is_dir, directory_only);
        if directory_only && !is_dir[m.len() - 1] {
            rest
        } else {
            rest.push(m.last()@)
        }
    }
}

/// What confirming the picker chooses, or the error shown instead: in save
/// mode the trimmed filename in the current directory; otherwise the
/// accepted marked entries (refused when there are several and multiple
/// selection is off), else the selected entry (which must be a directory
/// when only directories may be chosen).
pub open spec fn picker_choice(
    k: Kiorg,
    cfg: PickerConfig,
    marked_is_dir: Seq<bool>,
    selected_is_dir: bool,
) -> Result<Seq<Seq<char>>, Seq<char>> {
    let t = k.current_tab();
    if cfg.save_mode {
        let f = trimmed(k.picker_save_filename@);
        if f.len() == 0 {
            Err("Enter a filename before confirming."@)
        } else {
            Ok(seq![join_path(t.current_path@, f)])
        }
    } else {
        let kept = accepted_marks(t.marked_entries@, marked_is_dir, cfg.directory_only);
        if kept.len() > 1 && !cfg.multiple {
            Err("Select a single entry."@)
        } else if kept.len() > 0 {
            Ok(kept)
        } else {
            match t.selected_path() {
                Some(p) => if cfg.directory_only && !selected_is_dir {
                    Err("Select a directory."@)
                } else {
                    Ok(seq![p])
                },
                None => Err("No file selected."@),
            }
        }
    }
}

/// Without multiple selection, confirming the picker chooses at most one path.
pub proof fn lemma_picker_single_without_multiple(
    k: Kiorg,
    cfg: PickerConfig,
    marked_is_dir: Seq<bool>,
    selected_is_dir: bool,
)
    requires
        !cfg.multiple,
        picker_choice(k, cfg, marked_is_dir, selected_is_dir) is Ok,
    ensures
        picker_choice(k, cfg, marked_is_dir, selected_is_dir)->Ok_0.len() <= 1,
{
}

/// The paths joined by line feeds.
pub fn join_lines(ps: &Vec<String>) -> (r: String)
    ensures
        r@ == joined_lines(ps@.map_values(|s: String| s@)),
{
    let mut r = String::new();
    let mut i: usize = 0;
    while i < ps.len()
        invariant
            i <= ps@.len(),
            r@ == joined_lines(ps@.take(i as int).map_values(|s: String| s@)),
        decreases ps@.len() - i,
    {
        let ghost before = ps@.take(i as int).map_values(|s: String| s@);
        if i > 0 {
            push_char(&mut r, '\n');
        }
        push_str(&mut r, ps[i].as_str());
        proof {
            let after = ps@.take(i + 1).map_values(|s: String| s@);
            assert(after.drop_last() =~= before);
            if i == 0 {
                assert(r@ =~= after[0]);
            } else {
                assert(r@ =~= joined_lines(after.drop_last()) + seq!['\n'] + after.last());
            }
        }
        i = i + 1;
    }
    assert(ps@.take(i as int) =~= ps@);
    r
}

impl Kiorg {
    /// Takes the fresh entries of the current tab's directory and shows
    /// them filtered: every entry while no search is open; while one is,
    /// the entries that the search bar's matching of the query selects
    /// (`query_matches`, indices into `entries`), so that the search filter
    /// holds across the refresh. Selects again the entry that was selected
    /// before, if it is still there.
    pub fn refresh_entries(&mut self, entries: Vec<DirEntry>, query_matches: Vec<usize>)
        requires
            old(self).wf(),
            entries@.len() <= isize::MAX,
            old(self).search_query is Some ==> {
                &&& query_matches@.len() <= entries@.len()
                &&& query_matches@.no_duplicates()
                &&& forall|i: int|
                    0 <= i < query_matches@.len() ==> #[trigger] query_matches@[i] < entries@.len()
            },
        ensures
            final(self).wf(),
            Kiorg::tabs_updated(*old(self), *final(self), final(self).current_tab()),
            ({
                let t = final(self).current_tab();
                let o = old(self).current_tab();
                &&& t.entries@ == entries@
                &&& t.filtered@ == (if old(self).search_query is Some {
                    query_matches@
                } else {
                    Seq::new(entries@.len(), |k: int| k as usize)
                })
                &&& t == (Tab {
                    entries: t.entries,
                    filtered: t.filtered,
                    selected_index: t.selected_index,
                    ..o
                })
                &&& match old(self).prev_path {
                    Some(p) => if exists|i: int| 0 <= i < entries@.len() && entries@[i].key() == path_key(p@) {
                        t.selected_index < entries@.len() && entries@[t.selected_index as int].key() == path_key(p@)
                    } else {
                        t.selected_index == o.selected_index
                    },
                    None => t.selected_index == o.selected_index,
                }
            }),
            *final(self) == (Kiorg {
                tab_manager: final(self).tab_manager,
                scroll_left_panel: true,
                prev_path: None,
                selection_changed: true,
                ensure_selected_visible: true,
                cached_preview_path: None,
                ..*old(self)
            }),
    {
        let i = self.tab_manager.current_tab_index;
        let filtered = if self.search_query.is_some() {
            query_matches
        } else {
            all_indices(entries.len())
        };
        self.tab_manager.tabs[i].entries = entries;
        self.tab_manager.tabs[i].filtered = filtered;
        assert(self.tab_manager.tabs@[i as int].wf());
        self.scroll_left_panel = true;
        if let Some(p) = self.prev_path.take() {
            self.tab_manager.tabs[i].select_child(&p);
        }
        self.selection_changed = true;
        self.ensure_selected_visible = true;
        self.cached_preview_path = None;
        assert(self.tab_manager.tabs@ =~= old(self).tab_manager.tabs@.update(
            i as int,
            self.tab_manager.tabs@[i as int],
        ));
    }

    /// Shows that the directory just entered could not be watched.
    pub fn watch_failed(&mut self, error: String)
        ensures
            old(self).notified(NotificationKind::Error, "Failed to watch directory: "@ + error@, *final(self)),
            *final(self) == (Kiorg { notifications: final(self).notifications, ..*old(self) }),
    {
        let msg = concat("Failed to watch directory: ", error.as_str());
        self.notify_error(msg);
    }

    /// Takes a pending request to end the program: tells whether there was
    /// one (the caller then saves the state and closes the window) and
    /// clears it.
    pub fn take_shutdown_request(&mut self) -> (r: bool)
        ensures
            r == old(self).shutdown_requested,
            *final(self) == (Kiorg { shutdown_requested: false, ..*old(self) }),
    {
        let r = self.shutdown_requested;
        self.shutdown_requested = false;
        r
    }

    /// Before refreshing on a change in the watched directory, keeps the
    /// selected entry to select it again.
    pub fn on_fs_change(&mut self)
        requires
            old(self).wf(),
        ensures
            match old(self).current_tab().selected_path() {
                Some(p) => final(self).prev_path is Some && final(self).prev_path->0@ == p,
                None => final(self).prev_path is None,
            },
            *final(self) == (Kiorg { prev_path: final(self).prev_path, ..*old(self) }),
    {
        let i = self.tab_manager.current_tab_index;
        self.prev_path = match self.tab_manager.tabs[i].selected_entry() {
            Some(e) => Some(e.path.clone()),
            None => None,
        };
    }

    /// Confirms the picker: gives what to write into the result file, or
    /// shows why nothing can be chosen. `marked_is_dir` tells which marked
    /// entries of the current tab are directories, `selected_is_dir` whether
    /// the selected entry is one.
    pub fn picker_confirm(&mut self, marked_is_dir: &Vec<bool>, selected_is_dir: bool) -> (r: Option<PickerWrite>)
        requires
            old(self).wf(),
            marked_is_dir@.len() == old(self).current_tab().marked_entries@.len(),
        ensures
            match old(self).picker_config {
                None => r is None && *final(self) == *old(self),
                Some(cfg) => match picker_choice(*old(self), cfg, marked_is_dir@, selected_is_dir) {
                    Ok(ps) => {
                        &&& r is Some
                        &&& r->0.result_file@ == cfg.result_file@
                        &&& r->0.content@ == joined_lines(ps)
                        &&& *final(self) == *old(self)
                    },
                    Err(msg) => {
                        &&& r is None
                        &&& old(self).notified(NotificationKind::Error, msg, *final(self))
                        &&& *final(self) == (Kiorg { notifications: final(self).notifications, ..*old(self) })
                    },
                },
            },
    {
        let (result_file, save_mode, directory_only, multiple) = match &self.picker_config {
            Some(cfg) => (cfg.result_file.clone(), cfg.save_mode, cfg.directory_only, cfg.multiple),
            None => {
                return None;
            },
        };
        let i = self.tab_manager.current_tab_index;
        let mut paths: Vec<String> = Vec::new();
        if save_mode {
            let filename = trim(self.picker_save_filename.as_str());
            if filename.as_str().is_empty() {
                self.notify_error("Enter a filename before confirming.".to_string());
                return None;
            }
            paths.push(join(self.tab_manager.tabs[i].current_path.as_str(), filename.as_str()));
            assert(paths@.map_values(|s: String| s@) =~= seq![join_path(old(self).current_tab().current_path@, trimmed(old(self).picker_save_filename@))]);
        } else {
            let tab = &self.tab_manager.tabs[i];
            let mut j: usize = 0;
            while j < tab.marked_entries.len()
                invariant
                    j <= tab.marked_entries@.len() == marked_is_dir@.len(),
                    paths@.map_values(|s: String| s@) == accepted_marks(
                        tab.marked_entries@.take(j as int),
                        marked_is_dir@,
                        directory_only,
                    ),
                decreases tab.marked_entries@.len() - j,
            {
                proof {
                    let m = tab.marked_entries@.take(j + 1);
                    assert(m.drop_last() =~= tab.marked_entries@.take(j as int));
                }
                if !directory_only || marked_is_dir[j] {
                    paths.push(tab.marked_entries[j].clone());
                }
                proof {
                    let m = tab.marked_entries@.take(j + 1);
                    assert(paths@.map_values(|s: String| s@) =~= accepted_marks(m, marked_is_dir@, directory_only));
                }
                j = j + 1;
            }
            assert(tab.marked_entries@.take(j as int) =~= tab.marked_entries@);
            if paths.len() > 1 && !multiple {
                self.notify_error("Select a single entry.".to_string());
                return None;
            }
            if paths.len() == 0 {
                match tab.selected_entry() {
                    Some(e) => {
                        if directory_only && !selected_is_dir {
                            self.notify_error("Select a directory.".to_string());
                            return None;
                        }
                        paths.push(e.path.clone());
                        assert(paths@.map_values(|s: String| s@) =~= seq![old(self).current_tab().selected_path()->0]);
                    },
                    None => {
                        self.notify_error("No file selected.".to_string());
                        return None;
                    },
                }
            }
        }
        let content = join_lines(&paths);
        Some(PickerWrite { result_file, content })
    }

    /// Takes the outcome of writing the picker's result file: a failure is
    /// shown, a success ends the program.
    pub fn picker_write_finished(&mut self, result: Result<(), String>)
        ensures
            match result {
                Err(e) => {
                    &&& old(self).notified(NotificationKind::Error, "Failed to write picker result: "@ + e@, *final(self))
                    &&& *final(self) == (Kiorg { notifications: final(self).notifications, ..*old(self) })
                },
                Ok(_) => *final(self) == (Kiorg { shutdown_requested: true, ..*old(self) }),
            },
    {
        match result {
            Err(e) => {
                let msg = concat("Failed to write picker result: ", e.as_str());
                self.notify_error(msg);
            },
            Ok(()) => {
                self.shutdown_requested = true;
            },
        }
    }

    /// Cancels the picker: the program ends without writing anything.
    pub fn picker_cancel(&mut self)
        ensures
            *final(self) == (Kiorg { shutdown_requested: true, ..*old(self) }),
    {
        self.shutdown_requested = true;
    }

    /// The label of the picker's bottom bar: how many entries are marked,
    /// or else the name of the selected entry, or else nothing.
    pub fn picker_bar_label(&self) -> (r: String)
        requires
            self.wf(),
        ensures
            ({
                let t = self.current_tab();
                if t.marked_entries@.len() > 0 {
                    r@ == decimal(t.marked_entries@.len() as nat) + " selected"@
                } else if t.selected_index < t.entries@.len() {
                    r@ == t.entries@[t.selected_index as int].name@
                } else {
                    r@.len() == 0
                }
            }),
    {
        let tab = self.tab_manager.current_tab_ref();
        let n = tab.marked_entries.len();
        if n > 0 {
            let mut r = String::new();
            write_decimal(&mut r, n as u64);
            push_str(&mut r, " selected");
            assert(r@ =~= decimal(n as nat) + " selected"@);
            r
        } else {
            match tab.selected_entry() {
                Some(e) => e.name.clone(),
                None => String::new(),
            }
        }
    }
}


/// Error type for the Kiorg application.
#[derive(Debug)]
pub enum KiorgError {
    /// Configuration error, with the configuration error's message.
    ConfigError(String),
    /// Directory does not exist.
    DirectoryNotFound(String),
    /// Path is not a directory.
    NotADirectory(String),
    /// File system watcher error.
    WatcherError(String),
    /// Other error.
    Other(String),
}

/// The message of a `KiorgError`.
pub open spec fn kiorg_error_message(e: KiorgError) -> Seq<char> {
    match e {
        KiorgError::ConfigError(m) => "Configuration error: "@ + m@,
        KiorgError::DirectoryNotFound(p) => "Directory not found: "@ + p@,
        KiorgError::NotADirectory(p) => "Not a directory: "@ + p@,
        KiorgError::WatcherError(m) => "File system watcher error: "@ + m@,
        KiorgError::Other(m) => m@,
    }
}

impl KiorgError {
    /// The message shown for the error.
    pub fn message(&self) -> (r: String)
        ensures
            r@ == kiorg_error_message(*self),
    {
        match self {
            KiorgError::ConfigError(m) => concat("Configuration error: ", m.as_str()),
            KiorgError::DirectoryNotFound(p) => concat("Directory not found: ", p.as_str()),
            KiorgError::NotADirectory(p) => concat("Not a directory: ", p.as_str()),
            KiorgError::WatcherError(m) => concat("File system watcher error: ", m.as_str()),
            KiorgError::Other(m) => m.clone(),
        }
    }

    /// Whether the error comes from the configuration.
    pub fn is_config_error(&self) -> (b: bool)
        ensures
            b == (*self is ConfigError),
    {
        match self {
            KiorgError::ConfigError(_) => true,
            _ => false,
        }
    }
}

/// What is known of a directory the window may start in.
#[derive(Debug)]
pub struct DirStatus {
    pub path: String,
    pub exists: bool,
    pub is_dir: bool,
}

/// Where the window starts.
#[derive(Debug)]
pub struct StartDir {
    pub path: String,
    /// The tabs of the saved state are used.
    pub from_saved_state: bool,
}

/// Chooses where the window starts: an explicitly given directory, which
/// must exist and be a directory; else the directory of the saved state,
/// when it is still a directory; else `fallback`.
pub fn resolve_initial_dir(
    explicit: Option<DirStatus>,
    saved: Option<DirStatus>,
    fallback: String,
) -> (r: Result<StartDir, KiorgError>)
    ensures
        match explicit {
            Some(d) => if !d.exists {
                r matches Err(KiorgError::DirectoryNotFound(p)) && p == d.path
            } else if !d.is_dir {
                r matches Err(KiorgError::NotADirectory(p)) && p == d.path
            } else {
                r matches Ok(s) && s.path == d.path && !s.from_saved_state
            },
            None => match saved {
                Some(d) => if d.exists && d.is_dir {
                    r matches Ok(s) && s.path == d.path && s.from_saved_state
                } else {
                    r matches Ok(s) && s.path == fallback && !s.from_saved_state
                },
                None => r matches Ok(s) && s.path == fallback && !s.from_saved_state,
            },
        },
{
    match explicit {
        Some(d) => {
            if !d.exists {
                return Err(KiorgError::DirectoryNotFound(d.path));
            }
            if !d.is_dir {
                return Err(KiorgError::NotADirectory(d.path));
            }
            Ok(StartDir { path: d.path, from_saved_state: false })
        },
        None => match saved {
            Some(d) => {
                if d.exists && d.is_dir {
                    Ok(StartDir { path: d.path, from_saved_state: true })
                } else {
                    Ok(StartDir { path: fallback, from_saved_state: false })
                }
            },
            None => Ok(StartDir { path: fallback, from_saved_state: false }),
        },
    }
}

/// The user's home directory, by `dirs::home_dir`, as a string (lossy for
/// a path that is not UTF-8). Which directory it gives depends on the
/// environment and the user database, so that is not stated. What is stated
/// holds of every outcome: on Unix `dirs::home_dir` gives `$HOME` only when
/// it is set and not empty, and the user database's home field only when that
/// is not empty, else none; a lossy conversion of a non-empty path is not
/// empty.
#[verifier::external_body]
fn home_dir() -> (r: Option<String>)
    ensures
        r is Some ==> r->0@.len() > 0,
{
    match dirs::home_dir() {
        Some(p) => Some(p.to_string_lossy().into_owned()),
        None => None,
    }
}

/// The directory to start in when no other is valid: the home directory,
/// or `.` when it is not known.
pub fn fallback_dir_from(home: Option<String>) -> (r: String)
    ensures
        match home {
            Some(h) => r == h,
            None => r@ == "."@,
        },
{
    match home {
        Some(h) => h,
        None => ".".to_string(),
    }
}

/// The directory to start in when no other is valid: the user's home
/// directory, or `.` when it is not known. Which of them depends on the
/// environment; either way it is a non-empty path.
pub fn fallback_initial_dir() -> (r: String)
    ensures
        r@.len() > 0,
{
    proof {
        reveal_strlit(".");
    }
    fallback_dir_from(home_dir())
}

/// The picker configuration of the command line: picker mode when a
/// result file is given.
pub fn picker_config_from_args(
    pick_mode: Option<String>,
    pick_multiple: bool,
    pick_directory: bool,
    pick_save: bool,
) -> (r: Option<PickerConfig>)
    ensures
        match pick_mode {
            None => r is None,
            Some(f) => r == Some(PickerConfig {
                result_file: f,
                multiple: pick_multiple,
                directory_only: pick_directory,
                save_mode: pick_save,
            }),
        },
{
    match pick_mode {
        Some(result_file) => Some(
            PickerConfig {
                result_file,
                multiple: pick_multiple,
                directory_only: pick_directory,
                save_mode: pick_save,
            },
        ),
        None => None,
    }
}

/// What a file system watcher reports.
#[derive(PartialEq, Eq, Structural, Clone, Copy, Debug)]
pub enum FsEventKind {
    Any,
    Access,
    Create,
    Modify,
    Remove,
    Other,
}

/// Whether a watcher event makes the entries stale: a creation, a
/// modification or a removal.
pub fn fs_event_requires_refresh(kind: FsEventKind) -> (b: bool)
    ensures
        b == (kind == FsEventKind::Create || kind == FsEventKind::Modify || kind
            == FsEventKind::Remove),
{
    match kind {
        FsEventKind::Create | FsEventKind::Modify | FsEventKind::Remove => true,
        _ => false,
    }
}

/// The saved state of a tab.
#[derive(Debug)]
pub struct TabState {
    pub current_path: String,
}

/// The saved state of the tabs.
#[derive(Debug)]
pub struct TabManagerState {
    pub tab_states: Vec<TabState>,
    pub current_tab_index: usize,
}

/// Serializable app state structure.
#[derive(Debug)]
pub struct AppState {
    pub tab_manager: TabManagerState,
}

impl TabManager {
    /// The state to save: the directory of each tab and the current tab;
    /// selections and marks are not kept.
    pub fn to_state(&self) -> (s: TabManagerState)
        ensures
            s.current_tab_index == self.current_tab_index,
            s.tab_states@.len() == self.tabs@.len(),
            forall|i: int| 0 <= i < s.tab_states@.len() ==> #[trigger] s.tab_states@[i].current_path == self.tabs@[i].current_path,
    {
        let mut tab_states: Vec<TabState> = Vec::new();
        let mut i: usize = 0;
        while i < self.tabs.len()
            invariant
                i <= self.tabs@.len(),
                tab_states@.len() == i,
                forall|j: int| 0 <= j < i ==> #[trigger] tab_states@[j].current_path == self.tabs@[j].current_path,
            decreases self.tabs@.len() - i,
        {
            tab_states.push(TabState { current_path: self.tabs[i].current_path.clone() });
            i = i + 1;
        }
        TabManagerState { tab_states, current_tab_index: self.current_tab_index }
    }

    /// The tabs of a saved state, each showing its directory with no
    /// entries read yet; the saved current tab, or the first when it is out
    /// of range. None when the state holds no tab.
    pub fn from_state(state: TabManagerState) -> (r: Option<TabManager>)
        ensures
            state.tab_states@.len() == 0 ==> r is None,
            state.tab_states@.len() > 0 ==> {
                &&& r matches Some(m)
                &&& m.wf()
                &&& m.tabs@.len() == state.tab_states@.len()
                &&& m.current_tab_index == (if state.current_tab_index < state.tab_states@.len() {
                    state.current_tab_index
                } else {
                    0
                })
                &&& forall|i: int| 0 <= i < m.tabs@.len() ==> {
                    &&& (#[trigger] m.tabs@[i]).current_path@ == state.tab_states@[i].current_path@
                    &&& m.tabs@[i].entries@.len() == 0
                    &&& m.tabs@[i].filtered@.len() == 0
                    &&& m.tabs@[i].selected_index == 0
                    &&& m.tabs@[i].marked_entries@.len() == 0
                    &&& m.tabs@[i].range_selection_start is None
                    &&& m.tabs@[i].history@.len() == 1
                    &&& m.tabs@[i].history@[0]@ == state.tab_states@[i].current_path@
                    &&& m.tabs@[i].history_index == 0
                    &&& m.tabs@[i].action_history@.len() == 0
                }
            },
    {
        let n = state.tab_states.len();
        if n == 0 {
            return None;
        }
        let mut tabs: Vec<Tab> = Vec::new();
        let mut i: usize = 0;
        while i < n
            invariant
                i <= n == state.tab_states@.len(),
                tabs@.len() == i,
                forall|j: int| 0 <= j < i ==> {
                    &&& (#[trigger] tabs@[j]).wf()
                    &&& tabs@[j].current_path@ == state.tab_states@[j].current_path@
                    &&& tabs@[j].entries@.len() == 0
                    &&& tabs@[j].filtered@.len() == 0
                    &&& tabs@[j].selected_index == 0
                    &&& tabs@[j].marked_entries@.len() == 0
                    &&& tabs@[j].range_selection_start is None
                    &&& tabs@[j].history@.len() == 1
                    &&& tabs@[j].history@[0]@ == state.tab_states@[j].current_path@
                    &&& tabs@[j].history_index == 0
                    &&& tabs@[j].action_history@.len() == 0
                },
            decreases n - i,
        {
            let t = Tab::new(state.tab_states[i].current_path.clone(), Vec::new());
            tabs.push(t);
            i = i + 1;
        }
        let current = if state.current_tab_index < n {
            state.current_tab_index
        } else {
            0
        };
        Some(TabManager { tabs, current_tab_index: current })
    }
}

} // verus!

verus! {

/// The marks that the picker accepts are the marked paths, in their order,
/// kept when only directories may be chosen only where their flag says
/// they are directories.
proof fn lemma_accepted_marks_filter(m: Seq<String>, is_dir: Seq<bool>, directory_only: bool)
    ensures
        accepted_marks(m, is_dir, directory_only) == Seq::new(
            m.len(),
            |i: int| (m[i]@, is_dir[i]),
        ).filter(|x: (Seq<char>, bool)| !directory_only || x.1).map_values(
            |x: (Seq<char>, bool)| x.0,
        ),
    decreases m.len(),
{
    reveal(Seq::filter);
    let pred = |x: (Seq<char>, bool)| !directory_only || x.1;
    let g = |x: (Seq<char>, bool)| x.0;
    let s = Seq::new(m.len(), |i: int| (m[i]@, is_dir[i]));
    if m.len() > 0 {
        let d = m.drop_last();
        lemma_accepted_marks_filter(d, is_dir, directory_only);
        let sd = Seq::new(d.len(), |i: int| (d[i]@, is_dir[i]));
        assert(s.drop_last() =~= sd);
        let f = sd.filter(pred);
        if pred(s.last()) {
            assert(f.push(s.last()).map_values(g) =~= f.map_values(g).push(m.last()@));
        }
    } else {
        assert(s.filter(pred).map_values(g) =~= Seq::<Seq<char>>::empty());
    }
}

/// An accepted mark is a marked path, a directory where only directories
/// may be chosen: the position of that mark.
proof fn lemma_accepted_mark_is_marked(
    m: Seq<String>,
    is_dir: Seq<bool>,
    directory_only: bool,
    n: int,
) -> (j: int)
    requires
        0 <= n < accepted_marks(m, is_dir, directory_only).len(),
    ensures
        0 <= j < m.len(),
        m[j]@ == accepted_marks(m, is_dir, directory_only)[n],
        directory_only ==> is_dir[j],
    decreases m.len(),
{
    let d = m.drop_last();
    if n < accepted_marks(d, is_dir, directory_only).len() {
        let j = lemma_accepted_mark_is_marked(d, is_dir, directory_only, n);
        assert(m[j] == d[j]);
        j
    } else {
        m.len() - 1
    }
}

/// A marked path that qualifies makes some mark accepted.
proof fn lemma_qualifying_mark_accepted(m: Seq<String>, is_dir: Seq<bool>, directory_only: bool, j: int)
    requires
        0 <= j < m.len(),
        directory_only ==> is_dir[j],
    ensures
        accepted_marks(m, is_dir, directory_only).len() > 0,
    decreases m.len(),
{
    if j < m.len() - 1 {
        lemma_qualifying_mark_accepted(m.drop_last(), is_dir, directory_only, j);
    }
}

/// Confirming the picker outside save mode while some mark is accepted
/// chooses the marked paths in their order: when only directories may be
/// chosen, exactly the marked ones whose flag says they are directories,
/// else all of them; several are refused without multiple selection.
/// Each path chosen then is a marked one, and a directory where only
/// directories may be chosen.
pub proof fn lemma_picker_chooses_marked_directories(
    k: Kiorg,
    cfg: PickerConfig,
    marked_is_dir: Seq<bool>,
    selected_is_dir: bool,
)
    requires
        !cfg.save_mode,
    ensures
        ({
            let m = k.current_tab().marked_entries@;
            let kept = Seq::new(m.len(), |i: int| (m[i]@, marked_is_dir[i])).filter(
                |x: (Seq<char>, bool)| !cfg.directory_only || x.1,
            ).map_values(|x: (Seq<char>, bool)| x.0);
            &&& (exists|j: int| #![trigger m[j]] 0 <= j < m.len() && (cfg.directory_only ==> marked_is_dir[j]))
                <==> kept.len() > 0
            &&& kept.len() > 0 ==> picker_choice(k, cfg, marked_is_dir, selected_is_dir) == if kept.len()
                > 1 && !cfg.multiple {
                Err::<Seq<Seq<char>>, Seq<char>>("Select a single entry."@)
            } else {
                Ok(kept)
            }
            &&& forall|n: int|
                #![trigger kept[n]]
                0 <= n < kept.len() ==> exists|j: int|
                    #![trigger m[j]]
                    0 <= j < m.len() && m[j]@ == kept[n] && (cfg.directory_only ==> marked_is_dir[j])
        }),
{
    let m = k.current_tab().marked_entries@;
    let kept = Seq::new(m.len(), |i: int| (m[i]@, marked_is_dir[i])).filter(
        |x: (Seq<char>, bool)| !cfg.directory_only || x.1,
    ).map_values(|x: (Seq<char>, bool)| x.0);
    lemma_accepted_marks_filter(m, marked_is_dir, cfg.directory_only);
    assert(accepted_marks(m, marked_is_dir, cfg.directory_only) == kept);
    assert forall|j: int| 0 <= j < m.len() && (cfg.directory_only ==> marked_is_dir[j]) implies kept.len()
        > 0 by {
        lemma_qualifying_mark_accepted(m, marked_is_dir, cfg.directory_only, j);
    }
    assert forall|n: int| #![trigger kept[n]] 0 <= n < kept.len() implies exists|j: int|
        #![trigger m[j]]
        0 <= j < m.len() && m[j]@ == kept[n] && (cfg.directory_only ==> marked_is_dir[j]) by {
        let j = lemma_accepted_mark_is_marked(m, marked_is_dir, cfg.directory_only, n);
        assert(0 <= j < m.len() && m[j]@ == kept[n] && (cfg.directory_only ==> marked_is_dir[j]));
    }
    if kept.len() > 0 {
        let j = lemma_accepted_mark_is_marked(m, marked_is_dir, cfg.directory_only, 0);
    }
}

} // verus!
