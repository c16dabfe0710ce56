//! The global visit history: how often and when each directory was
//! visited, and its `history.csv` encoding.
use vstd::prelude::*;
use crate::paths::{components_of, path_key, same_strings};

verus! {

/// One directory of the visit history.
#[derive(Debug)]
pub struct VisitHistoryEntry {
    pub path: String,
    /// Seconds since the Unix epoch of the last visit.
    pub accessed_ts: u64,
    /// Number of visits.
    pub count: u64,
}

impl VisitHistoryEntry {
    /// A copy of the entry.
    pub fn duplicate(&self) -> (r: VisitHistoryEntry)
        ensures
            r.path@ == self.path@,
            r.accessed_ts == self.accessed_ts,
            r.count == self.count,
    {
        VisitHistoryEntry { path: self.path.clone(), accessed_ts: self.accessed_ts, count: self.count }
    }
}

impl VisitHistoryEntry {
    /// The key under which the entry is kept: its path's components.
    pub open spec fn key(self) -> Seq<Seq<char>> {
        path_key(self.path@)
    }
}

/// What the history records of a path: (last visit, number of visits).
pub open spec fn entry_value(e: VisitHistoryEntry) -> (u64, u64) {
    (e.accessed_ts, e.count)
}

/// The map that a sequence of entries stands for; a later entry of the
/// same path wins.
pub open spec fn history_map(s: Seq<VisitHistoryEntry>) -> Map<Seq<Seq<char>>, (u64, u64)>
    decreases s.len(),
{
    if s.len() == 0 {
        Map::empty()
    } else {
        history_map(s.drop_last()).insert(s.last().key(), entry_value(s.last()))
    }
}

/// No path occurs twice.
pub open spec fn distinct_paths(s: Seq<VisitHistoryEntry>) -> bool {
    forall|i: int, j: int| 0 <= i < j < s.len() ==> s[i].key() != s[j].key()
}

/// With distinct paths, the map holds exactly the paths of the entries,
/// each with the values of its entry, and has as many keys as entries.
pub proof fn lemma_history_map(s: Seq<VisitHistoryEntry>)
    requires
        distinct_paths(s),
    ensures
        forall|p: Seq<Seq<char>>|
            #[trigger] history_map(s).contains_key(p) <==> exists|i: int|
                0 <= i < s.len() && s[i].key() == p,
        forall|i: int|
            0 <= i < s.len() ==> #[trigger] history_map(s)[s[i].key()] == entry_value(s[i]),
        history_map(s).dom().finite(),
        history_map(s).dom().len() == s.len(),
    decreases s.len(),
{
    if s.len() > 0 {
        let t = s.drop_last();
        lemma_history_map(t);
        assert forall|p: Seq<Seq<char>>|
            #[trigger] history_map(s).contains_key(p) <==> exists|i: int|
                0 <= i < s.len() && s[i].key() == p by {
            if history_map(s).contains_key(p) && p != s.last().key() {
                let i = choose|i: int| 0 <= i < t.len() && t[i].key() == p;
                assert(s[i] == t[i]);
            }
            if exists|i: int| 0 <= i < s.len() && s[i].key() == p {
                let i = choose|i: int| 0 <= i < s.len() && s[i].key() == p;
                if i < s.len() - 1 {
                    assert(t[i] == s[i]);
                }
            }
        }
        assert forall|i: int| 0 <= i < s.len() implies #[trigger] history_map(s)[s[i].key()]
            == entry_value(s[i]) by {
            if i < s.len() - 1 {
                assert(t[i] == s[i]);
                assert(s[i].key() != s.last().key());
            }
        }
        assert(!history_map(t).contains_key(s.last().key())) by {
            if history_map(t).contains_key(s.last().key()) {
                let i = choose|i: int| 0 <= i < t.len() && t[i].key() == s.last().key();
                assert(s[i] == t[i]);
            }
        }
    }
}

/// Replacing an entry by one of the same path updates that key.
pub proof fn lemma_history_map_update(s: Seq<VisitHistoryEntry>, i: int, e: VisitHistoryEntry)
    requires
        distinct_paths(s),
        0 <= i < s.len(),
        e.key() == s[i].key(),
    ensures
        history_map(s.update(i, e)) == history_map(s).insert(e.key(), entry_value(e)),
        distinct_paths(s.update(i, e)),
    decreases s.len(),
{
    let u = s.update(i, e);
    if i == s.len() - 1 {
        assert(u.drop_last() =~= s.drop_last());
        assert(history_map(u) =~= history_map(s).insert(e.key(), entry_value(e)));
    } else {
        lemma_history_map_update(s.drop_last(), i, e);
        assert(u.drop_last() =~= s.drop_last().update(i, e));
        assert(s.last().key() != e.key());
        assert(history_map(u) =~= history_map(s).insert(e.key(), entry_value(e)));
    }
}

/// Dropping an entry removes its key.
pub proof fn lemma_history_map_remove(s: Seq<VisitHistoryEntry>, i: int)
    requires
        distinct_paths(s),
        0 <= i < s.len(),
    ensures
        history_map(s.remove(i)) == history_map(s).remove(s[i].key()),
        distinct_paths(s.remove(i)),
    decreases s.len(),
{
    let r = s.remove(i);
    lemma_history_map(s.drop_last());
    if i == s.len() - 1 {
        assert(r =~= s.drop_last());
        assert(!history_map(s.drop_last()).contains_key(s[i].key())) by {
            if history_map(s.drop_last()).contains_key(s[i].key()) {
                let j = choose|j: int| 0 <= j < s.len() - 1 && s.drop_last()[j].key() == s[i].key();
                assert(s[j] == s.drop_last()[j]);
            }
        }
        assert(history_map(r) =~= history_map(s).remove(s[i].key()));
    } else {
        lemma_history_map_remove(s.drop_last(), i);
        assert(r.drop_last() =~= s.drop_last().remove(i));
        assert(r.last() == s.last());
        assert(history_map(r) =~= history_map(s).remove(s[i].key()));
    }
}

/// The visit history: a map from a directory's path to its entry, where
/// paths are told apart by their components (as std's `Path` compares and
/// hashes them), so `/a` and `/a/` are one directory.
#[derive(Debug)]
pub struct VisitHistory {
    entries: Vec<VisitHistoryEntry>,
}

impl View for VisitHistory {
    type V = Map<Seq<Seq<char>>, (u64, u64)>;

    closed spec fn view(&self) -> Map<Seq<Seq<char>>, (u64, u64)> {
        history_map(self.entries@)
    }
}

impl VisitHistory {
    /// The entries, in the order in which they are kept.
    pub closed spec fn entry_seq(&self) -> Seq<VisitHistoryEntry> {
        self.entries@
    }

    /// No path occurs twice, and the map is the one of the entries.
    pub closed spec fn wf(&self) -> bool {
        distinct_paths(self.entries@)
    }

    /// What a well-formed history's entries say of its map.
    pub proof fn lemma_view(&self)
        requires
            self.wf(),
        ensures
            distinct_paths(self.entry_seq()),
            self@ == history_map(self.entry_seq()),
            self@.dom().finite(),
            self@.dom().len() == self.entry_seq().len(),
            forall|p: Seq<Seq<char>>|
                #[trigger] self@.contains_key(p) <==> exists|i: int|
                    0 <= i < self.entry_seq().len() && self.entry_seq()[i].key() == p,
            forall|i: int|
                0 <= i < self.entry_seq().len() ==> #[trigger] self@[self.entry_seq()[i].key()]
                    == entry_value(self.entry_seq()[i]),
    {
        lemma_history_map(self.entries@);
    }

    /// The empty history.
    pub fn new() -> (h: VisitHistory)
        ensures
            h.wf(),
            h@ == Map::<Seq<Seq<char>>, (u64, u64)>::empty(),
            h.entry_seq().len() == 0,
    {
        VisitHistory { entries: Vec::new() }
    }

    /// The entries, in the order in which they are kept.
    pub fn entries(&self) -> (r: &Vec<VisitHistoryEntry>)
        ensures
            r@ == self.entry_seq(),
    {
        &self.entries
    }

    /// The number of paths.
    pub fn len(&self) -> (n: usize)
        requires
            self.wf(),
        ensures
            n == self@.dom().len(),
    {
        proof {
            lemma_history_map(self.entries@);
        }
        self.entries.len()
    }

    /// Whether no path is recorded.
    pub fn is_empty(&self) -> (b: bool)
        requires
            self.wf(),
        ensures
            b == (self@.dom().len() == 0),
    {
        proof {
            lemma_history_map(self.entries@);
        }
        self.entries.len() == 0
    }

    /// The position of the entry of `path`.
    fn index_of(&self, path: &String) -> (r: Option<usize>)
        requires
            self.wf(),
        ensures
            match r {
                Some(i) => i < self.entries@.len() && self.entries@[i as int].key() == path_key(path@),
                None => forall|i: int|
                    0 <= i < self.entries@.len() ==> self.entries@[i].key() != path_key(path@),
            },
    {
        let wanted = components_of(path.as_str());
        let mut i: usize = 0;
        while i < self.entries.len()
            invariant
                i <= self.entries@.len(),
                crate::text::string_views(wanted@) == path_key(path@),
                forall|j: int| 0 <= j < i ==> self.entries@[j].key() != path_key(path@),
            decreases self.entries@.len() - i,
        {
            let k = components_of(self.entries[i].path.as_str());
            if same_strings(&k, &wanted) {
                return Some(i);
            }
            i = i + 1;
        }
        None
    }

    /// Whether `path` is recorded.
    pub fn contains_key(&self, path: &String) -> (b: bool)
        requires
            self.wf(),
        ensures
            b == self@.contains_key(path_key(path@)),
    {
        proof {
            lemma_history_map(self.entries@);
        }
        self.index_of(path).is_some()
    }

    /// The entry of `path`.
    pub fn get(&self, path: &String) -> (r: Option<&VisitHistoryEntry>)
        requires
            self.wf(),
        ensures
            r is Some == self@.contains_key(path_key(path@)),
            r is Some ==> r->0.key() == path_key(path@) && entry_value(*r->0) == self@[path_key(path@)],
    {
        proof {
            lemma_history_map(self.entries@);
        }
        match self.index_of(path) {
            Some(i) => Some(&self.entries[i]),
            None => None,
        }
    }

    /// Records `entry` under its path, replacing what was there.
    pub fn insert(&mut self, entry: VisitHistoryEntry)
        requires
            old(self).wf(),
        ensures
            final(self).wf(),
            final(self)@ == old(self)@.insert(entry.key(), entry_value(entry)),
    {
        proof {
            lemma_history_map(self.entries@);
        }
        match self.index_of(&entry.path) {
            Some(i) => {
                proof {
                    lemma_history_map_update(self.entries@, i as int, entry);
                }
                self.entries.set(i, entry);
            },
            None => {
                let ghost e = entry;
                self.entries.push(entry);
                proof {
                    assert(self.entries@.drop_last() =~= old(self).entries@);
                    assert(distinct_paths(self.entries@)) by {
                        assert forall|i: int, j: int|
                            0 <= i < j < self.entries@.len() implies self.entries@[i].key()
                            != self.entries@[j].key() by {
                            if j < self.entries@.len() - 1 {
                                assert(self.entries@[i] == old(self).entries@[i]);
                                assert(self.entries@[j] == old(self).entries@[j]);
                            }
                        }
                    }
                }
            },
        }
    }

    /// Drops the entry of `path`, giving it back if there was one.
    pub fn remove(&mut self, path: &String) -> (r: Option<VisitHistoryEntry>)
        requires
            old(self).wf(),
        ensures
            final(self).wf(),
            final(self)@ == old(self)@.remove(path_key(path@)),
            r is Some == old(self)@.contains_key(path_key(path@)),
            r is Some ==> r->0.key() == path_key(path@) && entry_value(r->0) == old(self)@[path_key(path@)],
    {
        proof {
            lemma_history_map(self.entries@);
        }
        match self.index_of(path) {
            Some(i) => {
                proof {
                    lemma_history_map_remove(self.entries@, i as int);
                }
                let e = self.entries.remove(i);
                Some(e)
            },
            None => {
                assert(old(self)@.remove(path_key(path@)) =~= old(self)@);
                None
            },
        }
    }
}

/// What a visit records: the entry of the path whose key is `key` is now
/// `now`, visited once
/// more (the count stays at `u64::MAX` once there); a new path starts at one.
pub open spec fn visited(h: Map<Seq<Seq<char>>, (u64, u64)>, key: Seq<Seq<char>>, now: u64) -> Map<
    Seq<Seq<char>>,
    (u64, u64),
> {
    if h.contains_key(key) {
        let count = h[key].1;
        h.insert(key, (now, if count == u64::MAX { count } else { (count + 1) as u64 }))
    } else {
        h.insert(key, (now, 1))
    }
}

/// Records a visit of `path` at `now` (seconds since the Unix epoch).
pub fn update_visit_history(history: &mut VisitHistory, path: &String, now: u64)
    requires
        old(history).wf(),
    ensures
        final(history).wf(),
        final(history)@ == visited(old(history)@, path_key(path@), now),
{
    let count = match history.get(path) {
        Some(e) => e.count.saturating_add(1),
        None => 1,
    };
    history.insert(VisitHistoryEntry { path: path.clone(), accessed_ts: now, count });
}

} // verus!

verus! {

use crate::text::{
    chars_of, decimal, last_index_of, lemma_last_index_of, lines_of, parse_u64, parse_u64_spec,
    rfind, split_lines, string_of_range, views,
};

/// Why `history.csv` could not be read back.
#[derive(Debug)]
pub enum VisitHistoryError {
    /// A data line has fewer than three comma-separated fields.
    InvalidFormat { line: usize, found: usize },
    /// The timestamp field of a data line is not a number.
    InvalidTimestamp { line: usize, value: String },
    /// The count field of a data line is not a number.
    InvalidCount { line: usize, value: String },
    /// The file exists but could not be read.
    Unreadable { message: String },
}

/// The mathematical content of a `VisitHistoryError`.
pub enum HistoryErrorView {
    InvalidFormat { line: nat, found: nat },
    InvalidTimestamp { line: nat, value: Seq<char> },
    InvalidCount { line: nat, value: Seq<char> },
    Unreadable { message: Seq<char> },
}

impl View for VisitHistoryError {
    type V = HistoryErrorView;

    open spec fn view(&self) -> HistoryErrorView {
        match self {
            VisitHistoryError::InvalidFormat { line, found } => HistoryErrorView::InvalidFormat {
                line: *line as nat,
                found: *found as nat,
            },
            VisitHistoryError::InvalidTimestamp { line, value } =>
                HistoryErrorView::InvalidTimestamp { line: *line as nat, value: value@ },
            VisitHistoryError::InvalidCount { line, value } => HistoryErrorView::InvalidCount {
                line: *line as nat,
                value: value@,
            },
            VisitHistoryError::Unreadable { message } => HistoryErrorView::Unreadable {
                message: message@,
            },
        }
    }
}

/// The first line of `history.csv`.
pub open spec fn header_text() -> Seq<char> {
    "path,accessed_ts,count"@
}

/// One data line: `path,accessed_ts,count`; the path may hold commas.
pub open spec fn row_text(e: VisitHistoryEntry) -> Seq<char> {
    e.path@ + seq![','] + decimal(e.accessed_ts as nat) + seq![','] + decimal(e.count as nat)
}

/// The data lines of the entries, each ended by a line feed.
pub open spec fn rows_text(s: Seq<VisitHistoryEntry>) -> Seq<char>
    decreases s.len(),
{
    if s.len() == 0 {
        Seq::empty()
    } else {
        rows_text(s.drop_last()) + row_text(s.last()) + seq!['\n']
    }
}

/// The whole `history.csv` for the entries.
pub open spec fn history_text(s: Seq<VisitHistoryEntry>) -> Seq<char> {
    header_text() + seq!['\n'] + rows_text(s)
}

/// How a data line is read, numbered from one after the header: the
/// last two commas part it into path, timestamp and count.
pub open spec fn parse_row(l: Seq<char>, line: nat) -> Result<
    (Seq<char>, u64, u64),
    HistoryErrorView,
> {
    let c1 = last_index_of(l, ',');
    if c1 < 0 {
        Err(HistoryErrorView::InvalidFormat { line, found: 1 })
    } else {
        let head = l.take(c1);
        let c2 = last_index_of(head, ',');
        if c2 < 0 {
            Err(HistoryErrorView::InvalidFormat { line, found: 2 })
        } else {
            let ts_text = head.subrange(c2 + 1, c1);
            let count_text = l.subrange(c1 + 1, l.len() as int);
            match parse_u64_spec(ts_text) {
                None => Err(HistoryErrorView::InvalidTimestamp { line, value: ts_text }),
                Some(ts) => match parse_u64_spec(count_text) {
                    None => Err(HistoryErrorView::InvalidCount { line, value: count_text }),
                    Some(count) => Ok((head.take(c2), ts, count)),
                },
            }
        }
    }
}

/// How the data lines are read: empty lines are skipped, the first bad
/// line is the error, and a later line of the same path wins.
pub open spec fn parse_rows(rows: Seq<Seq<char>>) -> Result<
    Map<Seq<Seq<char>>, (u64, u64)>,
    HistoryErrorView,
>
    decreases rows.len(),
{
    if rows.len() == 0 {
        Ok(Map::empty())
    } else {
        match parse_rows(rows.drop_last()) {
            Err(e) => Err(e),
            Ok(m) => if rows.last().len() == 0 {
                Ok(m)
            } else {
                match parse_row(rows.last(), rows.len()) {
                    Err(e) => Err(e),
                    Ok(r) => Ok(m.insert(path_key(r.0), (r.1, r.2))),
                }
            },
        }
    }
}

/// How the content of `history.csv` is read: the first line is the header.
pub open spec fn parse_history(content: Seq<char>) -> Result<
    Map<Seq<Seq<char>>, (u64, u64)>,
    HistoryErrorView,
> {
    let ls = lines_of(content);
    if ls.len() == 0 {
        Ok(Map::empty())
    } else {
        parse_rows(ls.drop_first())
    }
}

/// Reads one data line.
fn parse_line(l: &Vec<char>, line: usize) -> (r: Result<VisitHistoryEntry, VisitHistoryError>)
    ensures
        match (r, parse_row(l@, line as nat)) {
            (Ok(e), Ok(t)) => e.path@ == t.0 && e.accessed_ts == t.1 && e.count == t.2,
            (Err(e), Err(ev)) => e@ == ev,
            _ => false,
        },
{
    assert(l@.take(l@.len() as int) =~= l@);
    let c1 = match rfind(l, l.len(), ',') {
        None => {
            return Err(VisitHistoryError::InvalidFormat { line, found: 1 });
        },
        Some(k) => k,
    };
    proof {
        lemma_last_index_of(l@, ',');
    }
    let c2 = match rfind(l, c1, ',') {
        None => {
            return Err(VisitHistoryError::InvalidFormat { line, found: 2 });
        },
        Some(k) => k,
    };
    proof {
        lemma_last_index_of(l@.take(c1 as int), ',');
        assert(l@.take(c1 as int).subrange(c2 + 1, c1 as int) =~= l@.subrange(c2 + 1, c1 as int));
        assert(l@.take(c1 as int).take(c2 as int) =~= l@.subrange(0, c2 as int));
    }
    let ts = parse_u64(l, c2 + 1, c1);
    match ts {
        None => {
            return Err(
                VisitHistoryError::InvalidTimestamp {
                    line,
                    value: string_of_range(l, c2 + 1, c1),
                },
            );
        },
        Some(ts) => {
            let count = parse_u64(l, c1 + 1, l.len());
            match count {
                None => {
                    return Err(
                        VisitHistoryError::InvalidCount {
                            line,
                            value: string_of_range(l, c1 + 1, l.len()),
                        },
                    );
                },
                Some(count) => {
                    return Ok(
                        VisitHistoryEntry {
                            path: string_of_range(l, 0, c2),
                            accessed_ts: ts,
                            count,
                        },
                    );
                },
            }
        },
    }
}

/// Once a prefix of the data lines fails, all of them fail the same way.
proof fn lemma_parse_rows_err(rows: Seq<Seq<char>>, k: int)
    requires
        0 <= k <= rows.len(),
        parse_rows(rows.take(k)) is Err,
    ensures
        parse_rows(rows) == parse_rows(rows.take(k)),
    decreases rows.len(),
{
    if k == rows.len() {
        assert(rows.take(k) =~= rows);
    } else {
        assert(rows.drop_last().take(k) =~= rows.take(k));
        lemma_parse_rows_err(rows.drop_last(), k);
    }
}

/// Reads the content of `history.csv`.
pub fn parse_visit_history(content: &str) -> (r: Result<VisitHistory, VisitHistoryError>)
    ensures
        match (r, parse_history(content@)) {
            (Ok(h), Ok(m)) => h.wf() && h@ == m,
            (Err(e), Err(ev)) => e@ == ev,
            _ => false,
        },
{
    let chars = chars_of(content);
    let ls = split_lines(&chars);
    let mut history = VisitHistory::new();
    if ls.len() == 0 {
        return Ok(history);
    }
    let ghost rows = views(ls@).drop_first();
    let mut i: usize = 1;
    proof {
        assert(rows.take(0) =~= Seq::<Seq<char>>::empty());
    }
    while i < ls.len()
        invariant
            1 <= i <= ls@.len(),
            rows == views(ls@).drop_first(),
            views(ls@) == lines_of(content@),
            history.wf(),
            parse_rows(rows.take(i - 1)) == Ok::<Map<Seq<Seq<char>>, (u64, u64)>, HistoryErrorView>(
                history@,
            ),
        decreases ls@.len() - i,
    {
        let l = &ls[i];
        proof {
            assert(rows.take(i as int).drop_last() =~= rows.take(i - 1));
            assert(rows.take(i as int).last() == l@);
        }
        if l.len() > 0 {
            match parse_line(l, i) {
                Ok(e) => {
                    history.insert(e);
                },
                Err(e) => {
                    proof {
                        lemma_parse_rows_err(rows, i as int);
                    }
                    return Err(e);
                },
            }
        }
        i = i + 1;
    }
    assert(rows.take(i - 1) =~= rows);
    Ok(history)
}

} // verus!

verus! {

use crate::text::{
    lemma_split_append, all_digits, is_digit, lemma_decimal, lemma_last_index_of_at,
    lemma_parse_decimal, push_char, push_str, split_sep, strip_cr, write_decimal,
};

/// Writes the content of `history.csv`: the header, then one line per entry.
pub fn serialize_visit_history(history: &VisitHistory) -> (r: String)
    ensures
        r@ == history_text(history.entry_seq()),
{
    let mut out = String::new();
    push_str(&mut out, "path,accessed_ts,count");
    push_char(&mut out, '\n');
    let entries = history.entries();
    let mut i: usize = 0;
    proof {
        assert(entries@.take(0) =~= Seq::<VisitHistoryEntry>::empty());
    }
    while i < entries.len()
        invariant
            i <= entries@.len(),
            entries@ == history.entry_seq(),
            out@ == header_text() + seq!['\n'] + rows_text(entries@.take(i as int)),
        decreases entries@.len() - i,
    {
        let e = &entries[i];
        push_str(&mut out, e.path.as_str());
        push_char(&mut out, ',');
        write_decimal(&mut out, e.accessed_ts);
        push_char(&mut out, ',');
        write_decimal(&mut out, e.count);
        push_char(&mut out, '\n');
        proof {
            let t = entries@.take(i + 1);
            assert(t.drop_last() =~= entries@.take(i as int));
            assert(t.last() == *e);
            assert(out@ =~= header_text() + seq!['\n'] + rows_text(t));
        }
        i = i + 1;
    }
    assert(entries@.take(i as int) =~= entries@);
    out
}

/// A data line holds no line feed when its path holds none, and ends
/// with a digit.
proof fn lemma_row_text(e: VisitHistoryEntry)
    requires
        !e.path@.contains('\n'),
    ensures
        !row_text(e).contains('\n'),
        row_text(e).len() > 0,
        is_digit(row_text(e).last()),
{
    lemma_decimal(e.accessed_ts as nat);
    lemma_decimal(e.count as nat);
    let r = row_text(e);
    let d2 = decimal(e.count as nat);
    assert(r.last() == d2[d2.len() - 1]);
    assert(!r.contains('\n')) by {
        if r.contains('\n') {
            let j = choose|j: int| 0 <= j < r.len() && r[j] == '\n';
            let p = e.path@;
            let d1 = decimal(e.accessed_ts as nat);
            if j < p.len() {
                assert(r[j] == p[j]);
            } else if j == p.len() {
            } else if j < p.len() + 1 + d1.len() {
                assert(r[j] == d1[j - p.len() - 1]);
            } else if j == p.len() + 1 + d1.len() {
            } else {
                assert(r[j] == d2[j - p.len() - 2 - d1.len()]);
            }
        }
    }
}

/// A data line is read back as the entry it was written from.
proof fn lemma_parse_row_text(e: VisitHistoryEntry, line: nat)
    ensures
        parse_row(row_text(e), line) == Ok::<(Seq<char>, u64, u64), HistoryErrorView>(
            (e.path@, e.accessed_ts, e.count),
        ),
{
    let p = e.path@;
    let d1 = decimal(e.accessed_ts as nat);
    let d2 = decimal(e.count as nat);
    lemma_decimal(e.accessed_ts as nat);
    lemma_decimal(e.count as nat);
    lemma_parse_decimal(e.accessed_ts);
    lemma_parse_decimal(e.count);
    let r = row_text(e);
    let c1: int = (p.len() + 1 + d1.len()) as int;
    assert(r[c1] == ',');
    assert forall|j: int| c1 < j < r.len() implies r[j] != ',' by {
        assert(r[j] == d2[j - c1 - 1]);
        assert(is_digit(d2[j - c1 - 1]));
    }
    lemma_last_index_of_at(r, ',', c1);
    let head = r.take(c1);
    assert(head =~= p + seq![','] + d1);
    let c2 = p.len() as int;
    assert(head[c2] == ',');
    assert forall|j: int| c2 < j < head.len() implies head[j] != ',' by {
        assert(head[j] == d1[j - c2 - 1]);
        assert(is_digit(d1[j - c2 - 1]));
    }
    lemma_last_index_of_at(head, ',', c2);
    assert(head.subrange(c2 + 1, c1) =~= d1);
    assert(r.subrange(c1 + 1, r.len() as int) =~= d2);
    assert(head.take(c2) =~= p);
}

/// The pieces of a whole `history.csv` between line feeds: the header,
/// each data line, and the empty piece after the last line feed.
proof fn lemma_split_history_text(s: Seq<VisitHistoryEntry>)
    requires
        forall|i: int| 0 <= i < s.len() ==> !(#[trigger] s[i]).path@.contains('\n'),
    ensures
        split_sep(history_text(s), '\n') == seq![header_text()] + s.map_values(
            |e: VisitHistoryEntry| row_text(e),
        ) + seq![Seq::<char>::empty()],
    decreases s.len(),
{
    reveal_strlit("path,accessed_ts,count");
    assert(!header_text().contains('\n')) by {
        if header_text().contains('\n') {
            let j = choose|j: int| 0 <= j < header_text().len() && header_text()[j] == '\n';
            assert(0 <= j < 22);
        }
    }
    if s.len() == 0 {
        lemma_split_append(Seq::<char>::empty(), header_text(), '\n');
        assert(Seq::<char>::empty() + header_text() =~= header_text());
        assert(history_text(s) =~= header_text().push('\n'));
        assert(header_text().push('\n').drop_last() =~= header_text());
        assert(split_sep(header_text(), '\n') =~= seq![header_text()]);
        assert(s.map_values(|e: VisitHistoryEntry| row_text(e)) =~= Seq::<Seq<char>>::empty());
        assert(split_sep(history_text(s), '\n') =~= seq![header_text()] + s.map_values(
            |e: VisitHistoryEntry| row_text(e),
        ) + seq![Seq::<char>::empty()]);
    } else {
        let t = s.drop_last();
        let e = s.last();
        assert forall|i: int| 0 <= i < t.len() implies !(#[trigger] t[i]).path@.contains('\n') by {
            assert(t[i] == s[i]);
        }
        lemma_split_history_text(t);
        lemma_row_text(e);
        let x = history_text(t);
        assert(history_text(s) =~= (x + row_text(e)).push('\n'));
        assert((x + row_text(e)).push('\n').drop_last() =~= x + row_text(e));
        lemma_split_append(x, row_text(e), '\n');
        let p = split_sep(x, '\n');
        assert(p.last() + row_text(e) =~= row_text(e));
        assert(s.map_values(|e: VisitHistoryEntry| row_text(e)) =~= t.map_values(
            |e: VisitHistoryEntry| row_text(e),
        ).push(row_text(e)));
        assert(split_sep(history_text(s), '\n') =~= seq![header_text()] + s.map_values(
            |e: VisitHistoryEntry| row_text(e),
        ) + seq![Seq::<char>::empty()]);
    }
}

/// Reading the data lines of entries with distinct paths gives their map.
proof fn lemma_parse_rows_text(s: Seq<VisitHistoryEntry>)
    requires
        forall|i: int| 0 <= i < s.len() ==> !(#[trigger] s[i]).path@.contains('\n'),
    ensures
        parse_rows(s.map_values(|e: VisitHistoryEntry| row_text(e))) == Ok::<
            Map<Seq<Seq<char>>, (u64, u64)>,
            HistoryErrorView,
        >(history_map(s)),
    decreases s.len(),
{
    let rows = s.map_values(|e: VisitHistoryEntry| row_text(e));
    if s.len() > 0 {
        let t = s.drop_last();
        assert forall|i: int| 0 <= i < t.len() implies !(#[trigger] t[i]).path@.contains('\n') by {
            assert(t[i] == s[i]);
        }
        lemma_parse_rows_text(t);
        assert(rows.drop_last() =~= t.map_values(|e: VisitHistoryEntry| row_text(e)));
        lemma_row_text(s.last());
        lemma_parse_row_text(s.last(), rows.len());
    }
}

/// What `serialize_visit_history` writes, `parse_visit_history` reads back
/// as the same history, provided that no path holds a line feed.
pub proof fn lemma_history_roundtrip(history: &VisitHistory)
    requires
        history.wf(),
        forall|i: int|
            0 <= i < history.entry_seq().len() ==> !(#[trigger] history.entry_seq()[i]).path@.contains(
                '\n',
            ),
    ensures
        parse_history(history_text(history.entry_seq())) == Ok::<
            Map<Seq<Seq<char>>, (u64, u64)>,
            HistoryErrorView,
        >(history@),
{
    let s = history.entry_seq();
    history.lemma_view();
    lemma_split_history_text(s);
    let rows = s.map_values(|e: VisitHistoryEntry| row_text(e));
    let parts = split_sep(history_text(s), '\n');
    let n = parts.len() - 1;
    reveal_strlit("path,accessed_ts,count");
    assert forall|i: int| 0 <= i < rows.len() implies strip_cr(#[trigger] rows[i]) == rows[i] by {
        lemma_row_text(s[i]);
    }
    assert(parts.take(n) =~= seq![header_text()] + rows);
    assert(parts.take(n).map_values(|l: Seq<char>| strip_cr(l)) =~= seq![header_text()] + rows);
    assert(crate::text::lines_of(history_text(s)) =~= seq![header_text()] + rows);
    assert((seq![header_text()] + rows).drop_first() =~= rows);
    lemma_parse_rows_text(s);
}

} // verus!

verus! {

/// What reading `history.csv` found.
#[derive(Debug)]
pub enum HistoryFile {
    /// There is no such file.
    Missing,
    /// The file is there but could not be read, for this reason.
    Unreadable(String),
    /// The file's content.
    Content(String),
}

/// Loads the visit history from what reading `history.csv` found: no
/// file is an empty history, a file that cannot be read is an error, and
/// a content is parsed.
pub fn load_visit_history(file: HistoryFile) -> (r: Result<VisitHistory, VisitHistoryError>)
    ensures
        match file {
            HistoryFile::Missing => r matches Ok(h) && h.wf() && h@ == Map::<Seq<Seq<char>>, (u64, u64)>::empty(),
            HistoryFile::Unreadable(m) => r matches Err(e) && e@ == (HistoryErrorView::Unreadable { message: m@ }),
            HistoryFile::Content(c) => match (r, parse_history(c@)) {
                (Ok(h), Ok(m)) => h.wf() && h@ == m,
                (Err(e), Err(ev)) => e@ == ev,
                _ => false,
            },
        },
{
    match file {
        HistoryFile::Missing => Ok(VisitHistory::new()),
        HistoryFile::Unreadable(message) => Err(VisitHistoryError::Unreadable { message }),
        HistoryFile::Content(c) => parse_visit_history(c.as_str()),
    }
}

/// The message of a history error.
pub open spec fn history_error_message(e: HistoryErrorView) -> Seq<char> {
    match e {
        HistoryErrorView::InvalidFormat { line, found } => "Invalid CSV format at line "@ + decimal(line)
            + ": expected at least 3 fields, found "@ + decimal(found),
        HistoryErrorView::InvalidTimestamp { line, value } => "Invalid timestamp at line "@
            + decimal(line) + ": "@ + value,
        HistoryErrorView::InvalidCount { line, value } => "Invalid count at line "@ + decimal(line)
            + ": "@ + value,
        HistoryErrorView::Unreadable { message } => "Failed to read visit history: "@ + message,
    }
}

impl VisitHistoryError {
    /// The message shown for the error.
    pub fn message(&self) -> (r: String)
        ensures
            r@ == history_error_message(self@),
    {
        let mut r = String::new();
        match self {
            VisitHistoryError::InvalidFormat { line, found } => {
                push_str(&mut r, "Invalid CSV format at line ");
                write_decimal(&mut r, *line as u64);
                push_str(&mut r, ": expected at least 3 fields, found ");
                write_decimal(&mut r, *found as u64);
            },
            VisitHistoryError::InvalidTimestamp { line, value } => {
                push_str(&mut r, "Invalid timestamp at line ");
                write_decimal(&mut r, *line as u64);
                push_str(&mut r, ": ");
                push_str(&mut r, value.as_str());
            },
            VisitHistoryError::InvalidCount { line, value } => {
                push_str(&mut r, "Invalid count at line ");
                write_decimal(&mut r, *line as u64);
                push_str(&mut r, ": ");
                push_str(&mut r, value.as_str());
            },
            VisitHistoryError::Unreadable { message } => {
                push_str(&mut r, "Failed to read visit history: ");
                push_str(&mut r, message.as_str());
            },
        }
        assert(r@ =~= history_error_message(self@));
        r
    }
}

} // verus!
