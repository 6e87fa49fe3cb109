//! The site's grouped log: entries and named groups of entries, groups nested in
//! groups, each new entry numbered and appended at the end of the group that a path of
//! names leads to.
use vstd::prelude::*;

verus! {

/// One log entry: its number, its data and its message.
#[derive(Debug, Clone, PartialEq, Eq)]
pub struct Log {
    pub number: u64,
    pub data: String,
    pub message: String,
}

/// An element of a log group: an entry, or a named group of elements.
#[derive(Debug, PartialEq, Eq)]
pub enum LogItem {
    SingleLog(Log),
    LogGroup(String, Vec<LogItem>),
}

/// An element of a log group as a mathematical value.
pub enum LogNode {
    Entry(Log),
    Group(Seq<char>, Seq<LogNode>),
}

impl LogItem {
    /// The element as a mathematical value.
    pub open spec fn node(self) -> LogNode
        decreases self,
    {
        match self {
            LogItem::SingleLog(l) => LogNode::Entry(l),
            LogItem::LogGroup(k, v) => LogNode::Group(k@, nodes_of(v@)),
        }
    }
}

/// Elements as mathematical values.
pub open spec fn nodes_of(s: Seq<LogItem>) -> Seq<LogNode>
    decreases s,
{
    if s.len() == 0 {
        seq![]
    } else {
        nodes_of(s.drop_last()).push(s.last().node())
    }
}


/// Whether an element is a group with this name.
pub open spec fn is_group_named(n: LogNode, key: Seq<char>) -> bool {
    n matches LogNode::Group(k, _) && k == key
}

/// The elements of a group (none for an entry).
pub open spec fn children(n: LogNode) -> Seq<LogNode> {
    match n {
        LogNode::Group(_, c) => c,
        LogNode::Entry(_) => seq![],
    }
}

/// The place of the first group with this name among the elements, if any.
pub open spec fn first_group(nodes: Seq<LogNode>, key: Seq<char>) -> Option<int>
    decreases nodes.len(),
{
    if nodes.len() == 0 {
        None
    } else {
        match first_group(nodes.drop_last(), key) {
            Some(i) => Some(i),
            None => if is_group_named(nodes.last(), key) { Some(nodes.len() - 1) } else { None },
        }
    }
}

/// The elements after an entry is added under a path of group names: at each name the
/// first group of that name is entered, or a new empty group of that name is appended
/// and entered; the entry is appended at the end of the group reached.
pub open spec fn log_added(nodes: Seq<LogNode>, path: Seq<Seq<char>>, log: Log) -> Seq<LogNode>
    decreases path.len(),
{
    if path.len() == 0 {
        nodes.push(LogNode::Entry(log))
    } else {
        let key = path[0];
        match first_group(nodes, key) {
            Some(i) => nodes.update(i, LogNode::Group(key, log_added(children(nodes[i]), path.drop_first(), log))),
            None => nodes.push(LogNode::Group(key, log_added(seq![], path.drop_first(), log))),
        }
    }
}

/// The elements of the group that a path of names leads to, following the first group of
/// each name; `None` where a name is not found.
pub open spec fn group_at(nodes: Seq<LogNode>, path: Seq<Seq<char>>) -> Option<Seq<LogNode>>
    decreases path.len(),
{
    if path.len() == 0 {
        Some(nodes)
    } else {
        match first_group(nodes, path[0]) {
            Some(i) => group_at(children(nodes[i]), path.drop_first()),
            None => None,
        }
    }
}

/// The names of a path, as text.
pub open spec fn path_view(path: Seq<String>) -> Seq<Seq<char>> {
    path.map_values(|k: String| k@)
}

proof fn lemma_first_group_spec(nodes: Seq<LogNode>, key: Seq<char>)
    ensures
        first_group(nodes, key) matches Some(i) ==> 0 <= i < nodes.len() && is_group_named(nodes[i], key)
            && forall|j: int| 0 <= j < i ==> !is_group_named(#[trigger] nodes[j], key),
        first_group(nodes, key) is None ==> forall|j: int| 0 <= j < nodes.len() ==> !is_group_named(#[trigger] nodes[j], key),
    decreases nodes.len(),
{
    if nodes.len() > 0 {
        lemma_first_group_spec(nodes.drop_last(), key);
        let d = nodes.drop_last();
        match first_group(d, key) {
            Some(i) => {
                assert(nodes[i] == d[i]);
                assert forall|j: int| 0 <= j < i implies !is_group_named(#[trigger] nodes[j], key) by {
                    assert(nodes[j] == d[j]);
                }
            },
            None => {
                assert forall|j: int| 0 <= j < nodes.len() - 1 implies !is_group_named(#[trigger] nodes[j], key) by {
                    assert(nodes[j] == d[j]);
                }
            },
        }
    }
}

proof fn lemma_first_group_is(nodes: Seq<LogNode>, key: Seq<char>, i: int)
    requires
        0 <= i < nodes.len(),
        is_group_named(nodes[i], key),
        forall|j: int| 0 <= j < i ==> !is_group_named(#[trigger] nodes[j], key),
    ensures
        first_group(nodes, key) == Some(i),
    decreases nodes.len(),
{
    if i < nodes.len() - 1 {
        let d = nodes.drop_last();
        assert forall|j: int| 0 <= j < i implies !is_group_named(#[trigger] d[j], key) by {
            assert(d[j] == nodes[j]);
        }
        lemma_first_group_is(d, key, i);
    } else {
        lemma_first_group_spec(nodes.drop_last(), key);
        let d = nodes.drop_last();
        if first_group(d, key) is Some {
            let k = first_group(d, key)->0;
            assert(d[k] == nodes[k]);
        }
    }
}

proof fn lemma_first_group_none(nodes: Seq<LogNode>, key: Seq<char>)
    requires
        forall|j: int| 0 <= j < nodes.len() ==> !is_group_named(#[trigger] nodes[j], key),
    ensures
        first_group(nodes, key) is None,
    decreases nodes.len(),
{
    if nodes.len() > 0 {
        let d = nodes.drop_last();
        assert forall|j: int| 0 <= j < d.len() implies !is_group_named(#[trigger] d[j], key) by {
            assert(d[j] == nodes[j]);
        }
        lemma_first_group_none(d, key);
    }
}

/// An added entry is found at the end of the group that its path leads to: what the
/// group held before (nothing, where the path was not there), then the entry.
pub proof fn lemma_log_added_found(nodes: Seq<LogNode>, path: Seq<Seq<char>>, log: Log)
    ensures
        group_at(log_added(nodes, path, log), path) == Some(
            match group_at(nodes, path) {
                Some(g) => g.push(LogNode::Entry(log)),
                None => seq![LogNode::Entry(log)],
            },
        ),
    decreases path.len(),
{
    if path.len() > 0 {
        let key = path[0];
        let rest = path.drop_first();
        let added = log_added(nodes, path, log);
        lemma_first_group_spec(nodes, key);
        match first_group(nodes, key) {
            Some(i) => {
                lemma_log_added_found(children(nodes[i]), rest, log);
                assert forall|j: int| 0 <= j < i implies !is_group_named(#[trigger] added[j], key) by {
                    assert(added[j] == nodes[j]);
                }
                lemma_first_group_is(added, key, i);
            },
            None => {
                lemma_log_added_found(seq![], rest, log);
                assert(group_at(seq![], rest) is Some ==> rest.len() == 0) by {
                    if rest.len() > 0 {
                        assert(first_group(Seq::<LogNode>::empty(), rest[0]) is None);
                    }
                }
                assert forall|j: int| 0 <= j < nodes.len() implies !is_group_named(#[trigger] added[j], key) by {
                    assert(added[j] == nodes[j]);
                }
                lemma_first_group_is(added, key, nodes.len() as int);
            },
        }
    }
}


/// Adding an entry leaves every old element in its place and changes nothing else: with
/// an empty path the entry is appended; else, where no group of the first name is there,
/// a new group of that name, holding what is added under the rest of the path, is
/// appended; where one is, the first such group keeps its place and its name and gets
/// the entry added under the rest of the path (by this same law), and every other
/// element stays as it was.
pub proof fn lemma_log_added_keeps(nodes: Seq<LogNode>, path: Seq<Seq<char>>, log: Log)
    ensures
        path.len() == 0 ==> log_added(nodes, path, log) == nodes.push(LogNode::Entry(log)),
        path.len() > 0 && first_group(nodes, path[0]) is None ==> {
            &&& forall|j: int| 0 <= j < nodes.len() ==> !is_group_named(#[trigger] nodes[j], path[0])
            &&& log_added(nodes, path, log) == nodes.push(
                LogNode::Group(path[0], log_added(seq![], path.drop_first(), log)))
        },
        path.len() > 0 && first_group(nodes, path[0]) is Some ==> {
            let i = first_group(nodes, path[0])->0;
            let added = log_added(nodes, path, log);
            &&& 0 <= i < nodes.len()
            &&& is_group_named(nodes[i], path[0])
            &&& added.len() == nodes.len()
            &&& added[i] == LogNode::Group(path[0], log_added(children(nodes[i]), path.drop_first(), log))
            &&& forall|j: int| 0 <= j < nodes.len() && j != i ==> #[trigger] added[j] == nodes[j]
        },
{
    if path.len() > 0 {
        lemma_first_group_spec(nodes, path[0]);
    }
}

/// Whether no two groups among the elements share a name, at every depth.
pub open spec fn groups_unique(nodes: Seq<LogNode>) -> bool
    decreases nodes,
{
    &&& forall|i: int, j: int| 0 <= i < j < nodes.len() && nodes[i] is Group && nodes[j] is Group
        ==> #[trigger] nodes[i]->Group_0 != #[trigger] nodes[j]->Group_0
    &&& forall|i: int| 0 <= i < nodes.len() ==> match #[trigger] nodes[i] {
        LogNode::Group(_, c) => groups_unique(c),
        LogNode::Entry(_) => true,
    }
}

/// Adding an entry keeps the groups' names unique at every depth: a group is made only
/// where none of that name is there.
pub proof fn lemma_log_added_unique(nodes: Seq<LogNode>, path: Seq<Seq<char>>, log: Log)
    requires
        groups_unique(nodes),
    ensures
        groups_unique(log_added(nodes, path, log)),
    decreases path.len(),
{
    let added = log_added(nodes, path, log);
    if path.len() == 0 {
        assert forall|i: int| 0 <= i < added.len() implies match #[trigger] added[i] {
            LogNode::Group(_, c) => groups_unique(c),
            LogNode::Entry(_) => true,
        } by {
            if i < nodes.len() {
                assert(added[i] == nodes[i]);
            }
        }
    } else {
        let key = path[0];
        let rest = path.drop_first();
        lemma_first_group_spec(nodes, key);
        match first_group(nodes, key) {
            Some(i) => {
                let inner = children(nodes[i]);
                assert(groups_unique(inner)) by {
                    assert(match nodes[i] {
                        LogNode::Group(_, c) => groups_unique(c),
                        LogNode::Entry(_) => true,
                    });
                }
                lemma_log_added_unique(inner, rest, log);
                assert forall|a: int, b: int| 0 <= a < b < added.len() && added[a] is Group && added[b] is Group
                    implies #[trigger] added[a]->Group_0 != #[trigger] added[b]->Group_0 by {
                    assert(nodes[a] is Group && nodes[b] is Group);
                    assert(nodes[a]->Group_0 != nodes[b]->Group_0);
                }
                assert forall|j: int| 0 <= j < added.len() implies match #[trigger] added[j] {
                    LogNode::Group(_, c) => groups_unique(c),
                    LogNode::Entry(_) => true,
                } by {
                    if j != i {
                        assert(added[j] == nodes[j]);
                    }
                }
            },
            None => {
                lemma_log_added_unique(seq![], rest, log);
                assert forall|a: int, b: int| 0 <= a < b < added.len() && added[a] is Group && added[b] is Group
                    implies #[trigger] added[a]->Group_0 != #[trigger] added[b]->Group_0 by {
                    if b < nodes.len() {
                        assert(added[a] == nodes[a] && added[b] == nodes[b]);
                        assert(nodes[a]->Group_0 != nodes[b]->Group_0);
                    } else {
                        assert(added[a] == nodes[a]);
                        assert(!is_group_named(nodes[a], key));
                    }
                }
                assert forall|j: int| 0 <= j < added.len() implies match #[trigger] added[j] {
                    LogNode::Group(_, c) => groups_unique(c),
                    LogNode::Entry(_) => true,
                } by {
                    if j < nodes.len() {
                        assert(added[j] == nodes[j]);
                    }
                }
            },
        }
    }
}

proof fn lemma_nodes_of(s: Seq<LogItem>)
    ensures
        nodes_of(s).len() == s.len(),
        forall|i: int| 0 <= i < s.len() ==> #[trigger] nodes_of(s)[i] == s[i].node(),
    decreases s.len(),
{
    if s.len() > 0 {
        lemma_nodes_of(s.drop_last());
        assert forall|i: int| 0 <= i < s.len() implies #[trigger] nodes_of(s)[i] == s[i].node() by {
            if i < s.len() - 1 {
                assert(s.drop_last()[i] == s[i]);
            }
        }
    }
}

proof fn lemma_nodes_of_eq(s: Seq<LogItem>, t: Seq<LogNode>)
    requires
        s.len() == t.len(),
        forall|i: int| 0 <= i < s.len() ==> #[trigger] s[i].node() == t[i],
    ensures
        nodes_of(s) == t,
{
    lemma_nodes_of(s);
    assert(nodes_of(s) =~= t);
}

/// The elements that `group_path[depth..]` leads to, after the entry is added there.
fn add_into(items: &mut Vec<LogItem>, group_path: &Vec<String>, depth: usize, log: Log)
    requires
        depth <= group_path@.len(),
    ensures
        nodes_of(final(items)@) == log_added(nodes_of(old(items)@), path_view(group_path@).skip(depth as int), log),
    decreases group_path@.len() - depth,
{
    let ghost old_nodes = nodes_of(items@);
    let ghost path = path_view(group_path@).skip(depth as int);
    proof {
        lemma_nodes_of(items@);
    }
    if depth == group_path.len() {
        let ghost before = items@;
        items.push(LogItem::SingleLog(log));
        proof {
            assert(path.len() == 0);
            lemma_nodes_of(before);
            lemma_nodes_of_eq(items@, old_nodes.push(LogNode::Entry(log)));
        }
        return;
    }
    let key = &group_path[depth];
    proof {
        assert(path[0] == key@);
        assert(path.drop_first() =~= path_view(group_path@).skip(depth + 1));
    }
    let len = items.len();
    let mut i: usize = 0;
    let mut found = false;
    while i < len && !found
        invariant
            len == items@.len(),
            i <= len,
            old_nodes == nodes_of(items@),
            old_nodes.len() == len,
            forall|k: int| 0 <= k < len ==> #[trigger] old_nodes[k] == items@[k].node(),
            !found ==> forall|j: int| 0 <= j < i ==> !is_group_named(#[trigger] old_nodes[j], key@),
            found ==> 0 < i && is_group_named(old_nodes[i - 1], key@)
                && forall|j: int| 0 <= j < i - 1 ==> !is_group_named(#[trigger] old_nodes[j], key@),
        decreases len - i + (if found { 0int } else { 1int }),
    {
        let named = match &items[i] {
            LogItem::LogGroup(k, _) => *k == *key,
            LogItem::SingleLog(_) => false,
        };
        if named {
            found = true;
        }
        i += 1;
    }
    if found {
        let at = i - 1;
        proof {
            lemma_first_group_is(old_nodes, key@, at as int);
        }
        let ghost before = items@;
        let item = items.remove(at);
        match item {
            LogItem::LogGroup(k, inner) => {
                let mut inner = inner;
                add_into(&mut inner, group_path, depth + 1, log);
                items.insert(at, LogItem::LogGroup(k, inner));
                proof {
                    assert(k@ == key@);
                    let target = old_nodes.update(at as int, LogNode::Group(key@, log_added(children(old_nodes[at as int]), path.drop_first(), log)));
                    assert forall|j: int| 0 <= j < items@.len() implies #[trigger] items@[j].node() == target[j] by {
                        if j != at {
                            assert(items@[j] == before[j]);
                        }
                    }
                    lemma_nodes_of_eq(items@, target);
                }
            },
            LogItem::SingleLog(l) => {
                proof {
                    assert(old_nodes[at as int] == before[at as int].node());
                    assert(false);
                }
                items.insert(at, LogItem::SingleLog(l));
            },
        }
    } else {
        proof {
            lemma_first_group_none(old_nodes, key@);
        }
        let mut inner: Vec<LogItem> = Vec::new();
        proof {
            assert(nodes_of(inner@) =~= Seq::<LogNode>::empty());
        }
        add_into(&mut inner, group_path, depth + 1, log);
        let ghost before = items@;
        items.push(LogItem::LogGroup(key.clone(), inner));
        proof {
            let target = old_nodes.push(LogNode::Group(key@, log_added(seq![], path.drop_first(), log)));
            assert forall|j: int| 0 <= j < items@.len() implies #[trigger] items@[j].node() == target[j] by {
                if j < before.len() {
                    assert(items@[j] == before[j]);
                }
            }
            lemma_nodes_of_eq(items@, target);
        }
    }
}

/// Whether each element is a group, in order.
pub open spec fn kinds_of(nodes: Seq<LogNode>) -> Seq<bool> {
    nodes.map_values(|n: LogNode| n is Group)
}

/// The kinds of the elements that `group_path[depth..]` leads to.
fn kinds_at(items: &Vec<LogItem>, group_path: &Vec<String>, depth: usize) -> (r: Option<Vec<bool>>)
    requires
        depth <= group_path@.len(),
    ensures
        match group_at(nodes_of(items@), path_view(group_path@).skip(depth as int)) {
            Some(g) => r matches Some(v) && v@ == kinds_of(g),
            None => r is None,
        },
    decreases group_path@.len() - depth,
{
    let ghost nodes = nodes_of(items@);
    let ghost path = path_view(group_path@).skip(depth as int);
    proof {
        lemma_nodes_of(items@);
    }
    if depth == group_path.len() {
        let mut v: Vec<bool> = Vec::new();
        let len = items.len();
        let mut i: usize = 0;
        while i < len
            invariant
                len == items@.len(),
                i <= len,
                nodes == nodes_of(items@),
                nodes.len() == len,
                forall|k: int| 0 <= k < len ==> #[trigger] nodes[k] == items@[k].node(),
                v@ =~= kinds_of(nodes).take(i as int),
            decreases len - i,
        {
            let g = match &items[i] {
                LogItem::LogGroup(_, _) => true,
                LogItem::SingleLog(_) => false,
            };
            v.push(g);
            i += 1;
            proof {
                assert(v@ =~= kinds_of(nodes).take(i as int));
            }
        }
        proof {
            assert(path.len() == 0);
            assert(kinds_of(nodes).take(len as int) =~= kinds_of(nodes));
        }
        return Some(v);
    }
    let key = &group_path[depth];
    let plen = group_path.len();
    proof {
        assert(path[0] == key@);
        assert(path.drop_first() =~= path_view(group_path@).skip(depth + 1));
    }
    let len = items.len();
    let mut i: usize = 0;
    while i < len
        invariant
            len == items@.len(),
            i <= len,
            nodes == nodes_of(items@),
            nodes.len() == len,
            forall|k: int| 0 <= k < len ==> #[trigger] nodes[k] == items@[k].node(),
            forall|j: int| 0 <= j < i ==> !is_group_named(#[trigger] nodes[j], key@),
            depth < plen,
            plen == group_path@.len(),
            path == path_view(group_path@).skip(depth as int),
            path[0] == key@,
            path.drop_first() == path_view(group_path@).skip(depth + 1),
        decreases len - i,
    {
        match &items[i] {
            LogItem::LogGroup(k, inner) => {
                if *k == *key {
                    proof {
                        lemma_first_group_is(nodes, key@, i as int);
                    }
                    return kinds_at(inner, group_path, depth + 1);
                }
            },
            LogItem::SingleLog(_) => {},
        }
        i += 1;
    }
    proof {
        lemma_first_group_none(nodes, key@);
    }
    None
}

/// The grouped log.
pub struct LogTree {
    pub logs: Vec<LogItem>,
}

impl LogTree {
    /// The log as mathematical values.
    pub open spec fn nodes(&self) -> Seq<LogNode> {
        nodes_of(self.logs@)
    }

    /// The empty log.
    pub fn new() -> (t: LogTree)
        ensures
            t.nodes() == Seq::<LogNode>::empty(),
            groups_unique(t.nodes()),
    {
        let t = LogTree { logs: Vec::new() };
        assert(t.nodes() =~= Seq::<LogNode>::empty());
        t
    }

    /// Adds entry `number` with its data and message under the group that the path of
    /// names leads to, making the groups that are missing.
    pub fn add_log(&mut self, number: u64, group_path: &Vec<String>, data: String, message: String)
        ensures
            final(self).nodes() == log_added(old(self).nodes(), path_view(group_path@), Log { number, data, message }),
            groups_unique(old(self).nodes()) ==> groups_unique(final(self).nodes()),
    {
        let log = Log { number, data, message };
        proof {
            if groups_unique(self.nodes()) {
                lemma_log_added_unique(self.nodes(), path_view(group_path@), log);
            }
        }
        add_into(&mut self.logs, group_path, 0, log);
        assert(path_view(group_path@).skip(0) =~= path_view(group_path@));
    }

    /// Whether each element of the group that the path leads to is a group itself; `None`
    /// where the path is not in the log.
    pub fn get_log(&self, group_path: &Vec<String>) -> (r: Option<Vec<bool>>)
        ensures
            match group_at(self.nodes(), path_view(group_path@)) {
                Some(g) => r matches Some(v) && v@ == kinds_of(g),
                None => r is None,
            },
    {
        assert(path_view(group_path@).skip(0) =~= path_view(group_path@));
        kinds_at(&self.logs, group_path, 0)
    }
}

} // verus!
