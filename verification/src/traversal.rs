//! The iterative depth-first traversal engine. It keeps an explicit
//! last-in-first-out stack of open directory levels instead of recursing, so
//! arbitrarily deep trees cannot grow the call stack. The engine holds the
//! decision logic only; a driver enumerates the real directories and feeds
//! the engine one outcome at a time, so the logic is verified for every
//! possible sequence of filesystem outcomes, faults included.

use vstd::prelude::*;
use crate::entry::{RawEntry, RawKind, is_record_for, kind_node_type, process_entry};
use crate::fs_node::{FsNode, NodeType};
use crate::paths::path_is_absolute;

verus! {

/// One observed traversal step, as the driver saw it:
/// - `Entry`: the current directory yielded an entry, with the checksum the
///   driver computed when the entry is a regular file;
/// - `Descended`: a subdirectory was opened and becomes the current level;
/// - `DescendFailed`: a subdirectory could not be opened (its subtree is
///   skipped, nothing else changes);
/// - `EntryError`: the enumeration itself failed on one child (that child
///   is skipped, nothing else changes);
/// - `DirExhausted`: the current directory has no more entries and its
///   level is closed.
pub enum FsEvent {
    Entry { raw: RawEntry, checksum: String },
    Descended { dir_path: String },
    DescendFailed,
    EntryError,
    DirExhausted,
}

/// The traversal state: the records produced so far and the stack of
/// directory levels still open.
pub struct TraversalEngine {
    nodes: Vec<FsNode>,
    open_dirs: Vec<String>,
}

impl TraversalEngine {
    /// The records produced so far, in order.
    pub closed spec fn records(self) -> Seq<FsNode> {
        self.nodes@
    }

    /// The paths of the directory levels still open, bottom of the stack
    /// first.
    pub closed spec fn open_dirs(self) -> Seq<String> {
        self.open_dirs@
    }

    /// A traversal that has just opened its root directory. The root must
    /// be absolute; a relative root is a caller error.
    pub fn begin(root: String) -> (e: TraversalEngine)
        requires
            path_is_absolute(root@),
        ensures
            e.records() =~= Seq::<FsNode>::empty(),
            e.open_dirs() =~= seq![root],
    {
        let mut open_dirs: Vec<String> = Vec::new();
        open_dirs.push(root);
        TraversalEngine { nodes: Vec::new(), open_dirs }
    }

    /// Whether any directory level is still open; traversal ends exactly
    /// when none is.
    pub fn is_active(&self) -> (r: bool)
        ensures
            r == (self.open_dirs().len() > 0),
    {
        self.open_dirs.len() > 0
    }

    /// The path of the current (topmost) directory level, for fault
    /// reporting.
    pub fn current_dir(&self) -> (p: &String)
        requires
            self.open_dirs().len() > 0,
        ensures
            p@ == self.open_dirs().last()@,
    {
        &self.open_dirs[self.open_dirs.len() - 1]
    }

    /// The current directory yielded one entry: exactly one best-effort
    /// record is appended, whatever faults are recorded inside `raw`, and
    /// the stack is untouched. Returns whether the entry is a directory,
    /// i.e. whether the driver should now try to open it and descend.
    pub fn on_entry(&mut self, raw: &RawEntry, checksum: String) -> (descend: bool)
        requires
            old(self).open_dirs().len() > 0,
            path_is_absolute(raw.path@),
        ensures
            final(self).open_dirs() == old(self).open_dirs(),
            final(self).records().len() == old(self).records().len() + 1,
            final(self).records().drop_last() =~= old(self).records(),
            is_record_for(final(self).records().last(), *raw, checksum@),
            descend == (kind_node_type(raw.kind) == NodeType::Directory),
    {
        let node = process_entry(raw, checksum);
        let descend = match node.node_type {
            NodeType::Directory => true,
            _ => false,
        };
        self.nodes.push(node);
        proof {
            assert(self.nodes@.drop_last() =~= old(self).nodes@);
        }
        descend
    }

    /// A subdirectory was opened: it becomes the new current level.
    pub fn on_descended(&mut self, dir_path: String)
        ensures
            final(self).records() == old(self).records(),
            final(self).open_dirs() =~= old(self).open_dirs().push(dir_path),
    {
        self.open_dirs.push(dir_path);
    }

    /// The current directory is out of entries: its level is closed and
    /// traversal resumes at the parent level.
    pub fn on_dir_exhausted(&mut self)
        requires
            old(self).open_dirs().len() > 0,
        ensures
            final(self).records() == old(self).records(),
            final(self).open_dirs() =~= old(self).open_dirs().drop_last(),
    {
        let _closed = self.open_dirs.pop();
    }

    /// The finished traversal's output. Only meaningful once the stack is
    /// empty: then every reachable entry has been visited or deliberately
    /// skipped after a recoverable fault.
    pub fn into_records(self) -> (out: Vec<FsNode>)
        requires
            self.open_dirs().len() == 0,
        ensures
            out@ == self.records(),
    {
        self.nodes
    }
}

/// The stack depth after replaying `events` from depth `depth0`: each
/// descent opens a level, each exhaustion closes one.
pub open spec fn depth_after(events: Seq<FsEvent>, depth0: int) -> int
    decreases events.len(),
{
    if events.len() == 0 {
        depth0
    } else {
        depth_after(events.drop_last(), depth0) + match events.last() {
            FsEvent::Descended { .. } => 1int,
            FsEvent::DirExhausted => -1int,
            _ => 0int,
        }
    }
}

/// A replayable event script: no level is closed when none is open, the
/// script ends with every level closed, and every yielded entry carries an
/// absolute path.
pub open spec fn script_wf(events: Seq<FsEvent>) -> bool {
    &&& forall|i: int|
        0 <= i < events.len() && events[i] is DirExhausted ==> depth_after(
            #[trigger] events.take(i),
            1,
        ) > 0
    &&& forall|i: int|
        0 <= i < events.len() && events[i] is Entry ==> depth_after(#[trigger] events.take(i), 1)
            > 0
    &&& forall|i: int|
        0 <= i < events.len() ==> match #[trigger] events[i] {
            FsEvent::Entry { raw, .. } => path_is_absolute(raw.path@),
            _ => true,
        }
    &&& depth_after(events, 1) == 0
}

/// The records a script owes: one per `Entry` event, in order, each the
/// canonical record for that entry; fault events owe nothing.
pub open spec fn matches_script(nodes: Seq<FsNode>, events: Seq<FsEvent>) -> bool
    decreases events.len(),
{
    if events.len() == 0 {
        nodes.len() == 0
    } else {
        match events.last() {
            FsEvent::Entry { raw, checksum } => {
                &&& nodes.len() > 0
                &&& is_record_for(nodes.last(), raw, checksum@)
                &&& matches_script(nodes.drop_last(), events.drop_last())
            },
            _ => matches_script(nodes, events.drop_last()),
        }
    }
}

/// Replays one whole depth-first traversal from an event script: the
/// iterative analogue of walking the tree itself, with every recoverable
/// fault already recorded as an event. Produces exactly one record per
/// yielded entry, in pre-order.
pub fn depth_first_indexer(root: String, events: Vec<FsEvent>) -> (out: Vec<FsNode>)
    requires
        path_is_absolute(root@),
        script_wf(events@),
    ensures
        matches_script(out@, events@),
        out@.len() == entry_events(events@).len(),
{
    let ghost all = events@;
    let mut engine = TraversalEngine::begin(root);
    proof {
        assert(all.take(0) =~= Seq::<FsEvent>::empty());
    }
    let n = events.len();
    for i in 0..n
        invariant
            n == all.len(),
            all == events@,
            script_wf(all),
            engine.open_dirs().len() == depth_after(all.take(i as int), 1),
            matches_script(engine.records(), all.take(i as int)),
    {
        proof {
            assert(all.take(i + 1).drop_last() =~= all.take(i as int));
            assert(all.take(i + 1).last() == all[i as int]);
        }
        let ev = &events[i];
        match ev {
            FsEvent::Entry { raw, checksum } => {
                let _descend = engine.on_entry(raw, checksum.clone());
            },
            FsEvent::Descended { dir_path } => {
                engine.on_descended(dir_path.clone());
            },
            FsEvent::DescendFailed => {},
            FsEvent::EntryError => {},
            FsEvent::DirExhausted => {
                engine.on_dir_exhausted();
            },
        }
    }
    proof {
        assert(all.take(n as int) =~= all);
        lemma_one_record_per_entry(engine.records(), all);
    }
    engine.into_records()
}

/// The subsequence of `Entry` events of a script.
pub open spec fn entry_events(events: Seq<FsEvent>) -> Seq<FsEvent>
    decreases events.len(),
{
    if events.len() == 0 {
        Seq::<FsEvent>::empty()
    } else {
        let rest = entry_events(events.drop_last());
        match events.last() {
            FsEvent::Entry { .. } => rest.push(events.last()),
            _ => rest,
        }
    }
}

proof fn lemma_matches_entries_only(nodes: Seq<FsNode>, events: Seq<FsEvent>)
    ensures
        matches_script(nodes, events) == matches_script(nodes, entry_events(events)),
    decreases events.len(),
{
    if events.len() > 0 {
        match events.last() {
            FsEvent::Entry { .. } => {
                let rest = entry_events(events.drop_last());
                assert(rest.push(events.last()).drop_last() =~= rest);
                if nodes.len() > 0 {
                    lemma_matches_entries_only(nodes.drop_last(), events.drop_last());
                }
            },
            _ => {
                lemma_matches_entries_only(nodes, events.drop_last());
            },
        }
    }
}

/// Law: local faults never abort the run or cost any other entry its
/// record. Two scripts that yield the same entries, however they differ in
/// fault events (failed descents, per-child enumeration errors) or in how
/// the levels open and close around them, owe exactly the same records.
pub proof fn lemma_faults_do_not_drop_records(
    nodes: Seq<FsNode>,
    events1: Seq<FsEvent>,
    events2: Seq<FsEvent>,
)
    requires
        entry_events(events1) == entry_events(events2),
        matches_script(nodes, events1),
    ensures
        matches_script(nodes, events2),
{
    lemma_matches_entries_only(nodes, events1);
    lemma_matches_entries_only(nodes, events2);
}

/// Law: a script owes exactly one record per yielded entry — no fault can
/// suppress a record for an entry that was enumerated, and nothing else
/// produces one.
pub proof fn lemma_one_record_per_entry(nodes: Seq<FsNode>, events: Seq<FsEvent>)
    requires
        matches_script(nodes, events),
    ensures
        nodes.len() == entry_events(events).len(),
    decreases events.len(),
{
    if events.len() > 0 {
        match events.last() {
            FsEvent::Entry { .. } => {
                lemma_one_record_per_entry(nodes.drop_last(), events.drop_last());
            },
            _ => {
                lemma_one_record_per_entry(nodes, events.drop_last());
            },
        }
    }
}

/// One node of an in-memory directory tree: what the driver would observe
/// for the entry, the digest it would compute for a regular file, whether a
/// directory can be opened, and the children a readable directory holds.
pub struct SimEntry {
    pub raw: RawEntry,
    pub checksum: String,
    pub readable: bool,
    pub children: Seq<SimEntry>,
}

/// The event script a faithful driver emits for one directory's entry list:
/// each entry is yielded, a readable subdirectory is descended into and
/// later closed, an unreadable one fails its descent, and the level's end
/// follows after the last sibling.
pub open spec fn forest_script(entries: Seq<SimEntry>) -> Seq<FsEvent>
    decreases entries,
{
    if entries.len() == 0 {
        Seq::<FsEvent>::empty()
    } else {
        let e = entries[0];
        let head = seq![FsEvent::Entry { raw: e.raw, checksum: e.checksum }];
        let descent = if e.raw.kind == RawKind::Directory {
            if e.readable {
                seq![FsEvent::Descended { dir_path: e.raw.path }] + forest_script(e.children)
                    + seq![FsEvent::DirExhausted]
            } else {
                seq![FsEvent::DescendFailed]
            }
        } else {
            Seq::<FsEvent>::empty()
        };
        head + descent + forest_script(entries.drop_first())
    }
}

/// The pre-order depth-first listing of a tree: each entry before its
/// children, an unreadable directory's subtree absent, siblings in order.
pub open spec fn pre_order(entries: Seq<SimEntry>) -> Seq<SimEntry>
    decreases entries,
{
    if entries.len() == 0 {
        Seq::<SimEntry>::empty()
    } else {
        let e = entries[0];
        let below = if e.raw.kind == RawKind::Directory && e.readable {
            pre_order(e.children)
        } else {
            Seq::<SimEntry>::empty()
        };
        seq![e] + below + pre_order(entries.drop_first())
    }
}

/// The entry event a tree node turns into.
pub open spec fn entry_event_of(e: SimEntry) -> FsEvent {
    FsEvent::Entry { raw: e.raw, checksum: e.checksum }
}

proof fn lemma_entry_events_single(ev: FsEvent)
    ensures
        entry_events(seq![ev]) =~= (if ev is Entry {
            seq![ev]
        } else {
            Seq::<FsEvent>::empty()
        }),
{
    assert(seq![ev].drop_last() =~= Seq::<FsEvent>::empty());
    assert(seq![ev].last() == ev);
    reveal_with_fuel(entry_events, 2);
}

proof fn lemma_entry_events_concat(a: Seq<FsEvent>, b: Seq<FsEvent>)
    ensures
        entry_events(a + b) =~= entry_events(a) + entry_events(b),
    decreases b.len(),
{
    if b.len() == 0 {
        assert(a + b =~= a);
    } else {
        assert((a + b).drop_last() =~= a + b.drop_last());
        lemma_entry_events_concat(a, b.drop_last());
    }
}

proof fn lemma_forest_entries_are_pre_order(entries: Seq<SimEntry>)
    ensures
        entry_events(forest_script(entries)) =~= pre_order(entries).map_values(
            |e: SimEntry| entry_event_of(e),
        ),
    decreases entries,
{
    if entries.len() > 0 {
        let e = entries[0];
        let head = seq![entry_event_of(e)];
        let descent = if e.raw.kind == RawKind::Directory {
            if e.readable {
                seq![FsEvent::Descended { dir_path: e.raw.path }] + forest_script(e.children)
                    + seq![FsEvent::DirExhausted]
            } else {
                seq![FsEvent::DescendFailed]
            }
        } else {
            Seq::<FsEvent>::empty()
        };
        let rest = forest_script(entries.drop_first());
        lemma_entry_events_concat(head + descent, rest);
        lemma_entry_events_concat(head, descent);
        lemma_entry_events_single(entry_event_of(e));
        if e.raw.kind == RawKind::Directory && e.readable {
            let open = seq![FsEvent::Descended { dir_path: e.raw.path }];
            let close = seq![FsEvent::DirExhausted];
            lemma_entry_events_concat(open + forest_script(e.children), close);
            lemma_entry_events_concat(open, forest_script(e.children));
            lemma_entry_events_single(FsEvent::Descended { dir_path: e.raw.path });
            lemma_entry_events_single(FsEvent::DirExhausted);
            assert((open + forest_script(e.children) + close).drop_last() =~= open
                + forest_script(e.children));
            lemma_forest_entries_are_pre_order(e.children);
        } else if e.raw.kind == RawKind::Directory {
            lemma_entry_events_single(FsEvent::DescendFailed);
        }
        lemma_forest_entries_are_pre_order(entries.drop_first());
        assert((seq![e] + (if e.raw.kind == RawKind::Directory && e.readable {
            pre_order(e.children)
        } else {
            Seq::<SimEntry>::empty()
        }) + pre_order(entries.drop_first())).map_values(|x: SimEntry| entry_event_of(x))
            =~= seq![entry_event_of(e)] + (if e.raw.kind == RawKind::Directory && e.readable {
            pre_order(e.children)
        } else {
            Seq::<SimEntry>::empty()
        }).map_values(|x: SimEntry| entry_event_of(x)) + pre_order(
            entries.drop_first(),
        ).map_values(|x: SimEntry| entry_event_of(x)));
    }
}

proof fn lemma_matches_entry_script_pointwise(nodes: Seq<FsNode>, visited: Seq<SimEntry>)
    requires
        matches_script(nodes, visited.map_values(|e: SimEntry| entry_event_of(e))),
    ensures
        nodes.len() == visited.len(),
        forall|i: int|
            0 <= i < visited.len() ==> is_record_for(
                nodes[i],
                (#[trigger] visited[i]).raw,
                visited[i].checksum@,
            ),
    decreases visited.len(),
{
    let es = visited.map_values(|e: SimEntry| entry_event_of(e));
    if visited.len() > 0 {
        assert(es.drop_last() =~= visited.drop_last().map_values(
            |e: SimEntry| entry_event_of(e),
        ));
        lemma_matches_entry_script_pointwise(nodes.drop_last(), visited.drop_last());
        assert forall|i: int| 0 <= i < visited.len() implies is_record_for(
            nodes[i],
            (#[trigger] visited[i]).raw,
            visited[i].checksum@,
        ) by {
            if i < visited.len() - 1 {
                assert(nodes.drop_last()[i] == nodes[i]);
                assert(visited.drop_last()[i] == visited[i]);
            }
        }
    }
}

/// Law: the output is the pre-order depth-first listing of the tree. For
/// any directory tree, any record sequence owed for the tree's faithful
/// event script has exactly one record per reachable entry, parents before
/// their children and siblings in enumeration order, each record the
/// canonical one for its entry; an unreadable directory still has its own
/// record, only its subtree is absent.
pub proof fn lemma_output_is_pre_order(nodes: Seq<FsNode>, entries: Seq<SimEntry>)
    requires
        matches_script(nodes, forest_script(entries)),
    ensures
        nodes.len() == pre_order(entries).len(),
        forall|i: int|
            0 <= i < nodes.len() ==> is_record_for(
                nodes[i],
                (#[trigger] pre_order(entries)[i]).raw,
                pre_order(entries)[i].checksum@,
            ),
{
    lemma_matches_entries_only(nodes, forest_script(entries));
    lemma_forest_entries_are_pre_order(entries);
    lemma_matches_entry_script_pointwise(nodes, pre_order(entries));
}

/// Every entry of a tree, at every depth, carries an absolute path.
pub open spec fn tree_paths_absolute(entries: Seq<SimEntry>) -> bool
    decreases entries,
{
    forall|i: int|
        0 <= i < entries.len() ==> {
            &&& path_is_absolute((#[trigger] entries[i]).raw.path@)
            &&& tree_paths_absolute(entries[i].children)
        }
}

proof fn lemma_depth_after_concat(a: Seq<FsEvent>, b: Seq<FsEvent>, d: int)
    ensures
        depth_after(a + b, d) == depth_after(b, depth_after(a, d)),
    decreases b.len(),
{
    if b.len() == 0 {
        assert(a + b =~= a);
    } else {
        assert((a + b).drop_last() =~= a + b.drop_last());
        lemma_depth_after_concat(a, b.drop_last(), d);
    }
}

proof fn lemma_depth_after_single(ev: FsEvent, d: int)
    ensures
        depth_after(seq![ev], d) == d + (match ev {
            FsEvent::Descended { .. } => 1int,
            FsEvent::DirExhausted => -1int,
            _ => 0int,
        }),
{
    assert(seq![ev].drop_last() =~= Seq::<FsEvent>::empty());
    assert(seq![ev].last() == ev);
    reveal_with_fuel(depth_after, 2);
}

proof fn lemma_forest_script_depth(entries: Seq<SimEntry>, d: int)
    ensures
        depth_after(forest_script(entries), d) == d,
        forall|k: int|
            0 <= k <= forest_script(entries).len() ==> depth_after(
                #[trigger] forest_script(entries).take(k),
                d,
            ) >= d,
    decreases entries,
{
    let fs = forest_script(entries);
    if entries.len() == 0 {
        assert forall|k: int| 0 <= k <= fs.len() implies depth_after(fs.take(k), d) >= d by {
            assert(fs.take(k) =~= Seq::<FsEvent>::empty());
        }
    } else {
        let e = entries[0];
        let head = seq![FsEvent::Entry { raw: e.raw, checksum: e.checksum }];
        let descent = if e.raw.kind == RawKind::Directory {
            if e.readable {
                seq![FsEvent::Descended { dir_path: e.raw.path }] + forest_script(e.children)
                    + seq![FsEvent::DirExhausted]
            } else {
                seq![FsEvent::DescendFailed]
            }
        } else {
            Seq::<FsEvent>::empty()
        };
        let rest = forest_script(entries.drop_first());
        lemma_depth_after_single(FsEvent::Entry { raw: e.raw, checksum: e.checksum }, d);
        if e.raw.kind == RawKind::Directory && e.readable {
            let open = seq![FsEvent::Descended { dir_path: e.raw.path }];
            let mid = forest_script(e.children);
            let close = seq![FsEvent::DirExhausted];
            lemma_depth_after_single(FsEvent::Descended { dir_path: e.raw.path }, d);
            lemma_depth_after_single(FsEvent::DirExhausted, d + 1);
            lemma_forest_script_depth(e.children, d + 1);
            lemma_depth_after_concat(open, mid, d);
            lemma_depth_after_concat(open + mid, close, d);
            assert(depth_after(descent, d) == d);
            assert forall|j: int| 0 <= j <= descent.len() implies depth_after(descent.take(j), d)
                >= d by {
                if j == 0 {
                    assert(descent.take(j) =~= Seq::<FsEvent>::empty());
                } else if j <= 1 + mid.len() {
                    assert(descent.take(j) =~= open + mid.take(j - 1));
                    lemma_depth_after_concat(open, mid.take(j - 1), d);
                } else {
                    assert(descent.take(j) =~= descent);
                }
            }
        } else if e.raw.kind == RawKind::Directory {
            lemma_depth_after_single(FsEvent::DescendFailed, d);
            assert forall|j: int| 0 <= j <= descent.len() implies depth_after(descent.take(j), d)
                >= d by {
                if j == 0 {
                    assert(descent.take(j) =~= Seq::<FsEvent>::empty());
                } else {
                    assert(descent.take(j) =~= descent);
                }
            }
        } else {
            assert forall|j: int| 0 <= j <= descent.len() implies depth_after(descent.take(j), d)
                >= d by {
                assert(descent.take(j) =~= Seq::<FsEvent>::empty());
            }
        }
        assert(depth_after(descent, d) == d);
        lemma_forest_script_depth(entries.drop_first(), d);
        lemma_depth_after_concat(head, descent, d);
        lemma_depth_after_concat(head + descent, rest, d);
        assert(depth_after(fs, d) == d);
        assert forall|k: int| 0 <= k <= fs.len() implies depth_after(fs.take(k), d) >= d by {
            if k == 0 {
                assert(fs.take(k) =~= Seq::<FsEvent>::empty());
            } else if k == 1 {
                assert(fs.take(k) =~= head);
            } else if k <= 1 + descent.len() {
                assert(fs.take(k) =~= head + descent.take(k - 1));
                lemma_depth_after_concat(head, descent.take(k - 1), d);
            } else {
                assert(fs.take(k) =~= (head + descent) + rest.take(k - 1 - descent.len()));
                lemma_depth_after_concat(head + descent, rest.take(k - 1 - descent.len()), d);
            }
        }
    }
}

proof fn lemma_forest_script_paths(entries: Seq<SimEntry>)
    requires
        tree_paths_absolute(entries),
    ensures
        forall|j: int|
            0 <= j < forest_script(entries).len() ==> match #[trigger] forest_script(entries)[j] {
                FsEvent::Entry { raw, .. } => path_is_absolute(raw.path@),
                _ => true,
            },
    decreases entries,
{
    let fs = forest_script(entries);
    if entries.len() > 0 {
        let e = entries[0];
        let head = seq![FsEvent::Entry { raw: e.raw, checksum: e.checksum }];
        let descent = if e.raw.kind == RawKind::Directory {
            if e.readable {
                seq![FsEvent::Descended { dir_path: e.raw.path }] + forest_script(e.children)
                    + seq![FsEvent::DirExhausted]
            } else {
                seq![FsEvent::DescendFailed]
            }
        } else {
            Seq::<FsEvent>::empty()
        };
        let rest = forest_script(entries.drop_first());
        assert(tree_paths_absolute(e.children));
        assert(tree_paths_absolute(entries.drop_first())) by {
            assert forall|i: int| 0 <= i < entries.drop_first().len() implies {
                &&& path_is_absolute((#[trigger] entries.drop_first()[i]).raw.path@)
                &&& tree_paths_absolute(entries.drop_first()[i].children)
            } by {
                assert(entries.drop_first()[i] == entries[i + 1]);
            }
        }
        lemma_forest_script_paths(e.children);
        lemma_forest_script_paths(entries.drop_first());
        assert forall|j: int| 0 <= j < fs.len() implies match #[trigger] fs[j] {
            FsEvent::Entry { raw, .. } => path_is_absolute(raw.path@),
            _ => true,
        } by {
            if j == 0 {
                assert(fs[j] == head[0]);
            } else if j <= descent.len() {
                assert(fs[j] == descent[j - 1]);
                if e.raw.kind == RawKind::Directory && e.readable {
                    let mid = forest_script(e.children);
                    if j - 1 == 0 {
                        assert(descent[0] is Descended);
                    } else if j - 1 <= mid.len() {
                        assert(descent[j - 1] == mid[j - 2]);
                    } else {
                        assert(descent[j - 1] is DirExhausted);
                    }
                }
            } else {
                assert(fs[j] == rest[j - 1 - descent.len()]);
            }
        }
    }
}

/// Law: the faithful event script of a directory tree whose entries all
/// carry absolute paths — the tree's own script, closed by the root
/// level's exhaustion — is a well-formed script, and closing it owes the
/// same records as the open script. So `depth_first_indexer` accepts such
/// a script, and the pre-order law applies to what it returns.
pub proof fn lemma_forest_script_wf(entries: Seq<SimEntry>)
    requires
        tree_paths_absolute(entries),
    ensures
        script_wf(forest_script(entries).push(FsEvent::DirExhausted)),
        forall|nodes: Seq<FsNode>|
            #[trigger] matches_script(nodes, forest_script(entries).push(FsEvent::DirExhausted))
                == matches_script(nodes, forest_script(entries)),
{
    let fs = forest_script(entries);
    let closed = fs.push(FsEvent::DirExhausted);
    lemma_forest_script_depth(entries, 1);
    lemma_forest_script_paths(entries);
    assert(closed.drop_last() =~= fs);
    assert(closed.last() == FsEvent::DirExhausted);
    assert(depth_after(closed, 1) == 0);
    assert forall|i: int| 0 <= i < closed.len() && closed[i] is DirExhausted implies depth_after(
        closed.take(i),
        1,
    ) > 0 by {
        if i < fs.len() {
            assert(closed.take(i) =~= fs.take(i));
        } else {
            assert(closed.take(i) =~= fs.take(fs.len() as int));
            assert(fs.take(fs.len() as int) =~= fs);
        }
    }
    assert forall|i: int| 0 <= i < closed.len() && closed[i] is Entry implies depth_after(
        closed.take(i),
        1,
    ) > 0 by {
        assert(closed[fs.len() as int] is DirExhausted);
        assert(i < fs.len());
        assert(closed.take(i) =~= fs.take(i));
    }
    assert forall|i: int| 0 <= i < closed.len() implies match #[trigger] closed[i] {
        FsEvent::Entry { raw, .. } => path_is_absolute(raw.path@),
        _ => true,
    } by {
        if i < fs.len() {
            assert(closed[i] == fs[i]);
        }
    }
    assert forall|nodes: Seq<FsNode>| #[trigger] matches_script(nodes, closed) == matches_script(
        nodes,
        fs,
    ) by {
        assert(closed.last() is DirExhausted);
    }
}

} // verus!
